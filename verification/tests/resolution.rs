//! Resolution behaviour, including the cases a real P2P network will produce: a
//! peer that lies, a peer that stalls, a peer that vanishes.

use rustly_storage::cid::Cid;
use rustly_storage::memory::MemoryStore;
use rustly_storage::provenance::Provenance;
use rustly_storage::resolve::{
    fetched_from_store, resolve_locally, AlwaysSpend, Approach, Fetched, Heard, Metrics,
    NeverSpend, Resolution, ResolveError, Resolver, Search, Source, SpendPolicy, StoreSource,
};
use rustly_storage::store::{ObjectStore, StoreError};

/// A source that behaves however a test needs it to.
struct ScriptedSource {
    name: String,
    behaviour: Behaviour,
    metered: bool,
    calls: usize,
}

enum Behaviour {
    /// Returns exactly these bytes for any request.
    Serves(Vec<u8>),
    /// Never has anything.
    Empty,
    /// Always fails to respond.
    Unreachable,
}

impl ScriptedSource {
    fn new(name: &str, behaviour: Behaviour) -> Self {
        Self {
            name: name.into(),
            behaviour,
            metered: false,
            calls: 0,
        }
    }

    fn metered(name: &str, behaviour: Behaviour) -> Self {
        Self {
            name: name.into(),
            behaviour,
            metered: true,
            calls: 0,
        }
    }
}

impl Source for ScriptedSource {
    fn id(&self) -> String {
        self.name.clone()
    }

    fn is_metered(&self) -> bool {
        self.metered
    }

    fn fetch(&mut self, _cid: &Cid) -> Fetched {
        self.calls += 1;
        match &self.behaviour {
            Behaviour::Serves(bytes) => Ok(Some(bytes.clone())),
            Behaviour::Empty => Ok(None),
            Behaviour::Unreachable => Err(ResolveError::SourceUnavailable {
                source_id: self.name.clone(),
                detail: "connection refused".into(),
            }),
        }
    }
}

fn local() -> MemoryStore {
    MemoryStore::new()
}

#[test]
fn a_local_hit_asks_no_source_at_all() {
    let mut store = local();
    let cid = store
        .put(b"already here", Provenance::built_public())
        .unwrap();

    let peer = ScriptedSource::new("peer-1", Behaviour::Serves(b"already here".to_vec()));
    let mut resolver = Resolver::new(store, vec![peer]);

    let resolution = resolver.resolve(&cid).unwrap();
    assert_eq!(resolution.content, b"already here");
    assert_eq!(resolution.source, "memory");
    assert_eq!(
        resolver.sources[0].calls, 0,
        "a local hit must not touch the network"
    );
}

#[test]
fn sources_are_tried_in_order_and_the_first_hit_wins() {
    let content = b"the object".to_vec();
    let cid = Cid::of(&content);

    let first = ScriptedSource::new("peer-1", Behaviour::Empty);
    let second = ScriptedSource::new("peer-2", Behaviour::Serves(content.clone()));
    let third = ScriptedSource::new("origin", Behaviour::Serves(content.clone()));

    let mut resolver = Resolver::new(local(), vec![first, second, third]);
    let resolution = resolver.resolve(&cid).unwrap();

    assert_eq!(resolution.source, "peer-2");
    assert_eq!(resolution.missed, vec!["peer-1"]);
    assert_eq!(
        resolver.sources[2].calls, 0,
        "a later source must not be asked after a hit"
    );
}

#[test]
fn a_lying_peer_is_rejected_and_the_next_source_answers() {
    let content = b"the honest object".to_vec();
    let cid = Cid::of(&content);

    let liar = ScriptedSource::new(
        "hostile-peer",
        Behaviour::Serves(b"malicious bytes".to_vec()),
    );
    let honest = ScriptedSource::new("origin", Behaviour::Serves(content.clone()));

    let mut resolver = Resolver::new(local(), vec![liar, honest]);
    let resolution = resolver.resolve(&cid).unwrap();

    assert_eq!(
        resolution.content, content,
        "the caller receives the correct bytes"
    );
    assert_eq!(resolution.source, "origin");
    assert_eq!(
        resolution.rejected,
        vec!["hostile-peer"],
        "a lying peer must be recorded, so a bad peer can be identified"
    );
}

#[test]
fn a_lying_peer_never_poisons_the_local_cache() {
    let content = b"the honest object".to_vec();
    let cid = Cid::of(&content);

    let liar = ScriptedSource::new("hostile", Behaviour::Serves(b"malicious".to_vec()));
    let mut resolver = Resolver::new(local(), vec![liar]);

    // Nobody honest has it, so resolution fails.
    assert!(matches!(
        resolver.resolve(&cid),
        Err(ResolveError::NotFound { .. })
    ));
    assert_eq!(
        resolver.local.get(&cid).unwrap(),
        None,
        "unverified bytes must never reach the cache"
    );
    assert!(resolver.local.is_empty());
}

#[test]
fn an_unreachable_source_is_skipped_rather_than_fatal() {
    let content = b"still available".to_vec();
    let cid = Cid::of(&content);

    let down = ScriptedSource::new("peer-down", Behaviour::Unreachable);
    let up = ScriptedSource::new("peer-up", Behaviour::Serves(content.clone()));

    let mut resolver = Resolver::new(local(), vec![down, up]);
    let resolution = resolver.resolve(&cid).unwrap();
    assert_eq!(resolution.source, "peer-up");
    assert!(resolution.missed.contains(&"peer-down".to_string()));
}

#[test]
fn a_resolved_object_is_cached_so_the_second_request_is_free() {
    let content = b"worth caching".to_vec();
    let cid = Cid::of(&content);

    let origin = ScriptedSource::new("origin", Behaviour::Serves(content.clone()));
    let mut resolver = Resolver::new(local(), vec![origin]);

    assert_eq!(resolver.resolve(&cid).unwrap().source, "origin");
    assert_eq!(resolver.resolve(&cid).unwrap().source, "memory");
    assert_eq!(
        resolver.sources[0].calls, 1,
        "the second request must not leave the machine"
    );
}

#[test]
fn with_no_sources_at_all_the_system_is_slower_but_still_correct() {
    // The stated rule: P2P unavailable means slower, never wrong.
    let content = b"only local".to_vec();
    let mut store = local();
    let cid = store.put(&content, Provenance::built_public()).unwrap();

    let mut resolver = Resolver::new(store, Vec::<ScriptedSource>::new());
    assert_eq!(resolver.resolve(&cid).unwrap().content, content);

    let absent = Cid::of(b"nowhere at all");
    assert!(matches!(
        resolver.resolve(&absent),
        Err(ResolveError::NotFound { .. })
    ));
}

#[test]
fn a_metered_source_is_skipped_when_spending_is_not_permitted() {
    let content = b"costs money to fetch".to_vec();
    let cid = Cid::of(&content);

    let paid = ScriptedSource::metered("b2-origin", Behaviour::Serves(content.clone()));
    let mut resolver = Resolver::new(local(), vec![paid]).with_spend_policy(NeverSpend);

    // Degrade, never spend: a miss is the correct outcome, and the caller
    // rebuilds rather than being billed.
    assert!(matches!(
        resolver.resolve(&cid),
        Err(ResolveError::NotFound { .. })
    ));
    assert_eq!(
        resolver.sources[0].calls, 0,
        "a metered source must not be contacted under Red pressure"
    );
    assert_eq!(resolver.metrics.snapshot()[4], ("metered_skips", 1));
}

#[test]
fn a_free_source_is_still_used_under_quota_pressure() {
    let content = b"free to fetch".to_vec();
    let cid = Cid::of(&content);

    let free = ScriptedSource::new("peer", Behaviour::Serves(content.clone()));
    let paid = ScriptedSource::metered("b2-origin", Behaviour::Serves(content.clone()));

    let mut resolver = Resolver::new(local(), vec![free, paid]).with_spend_policy(NeverSpend);

    assert_eq!(resolver.resolve(&cid).unwrap().source, "peer");
    assert_eq!(resolver.sources[1].calls, 0);
}

#[test]
fn a_metered_source_is_used_when_spending_is_permitted() {
    let content = b"worth paying for".to_vec();
    let cid = Cid::of(&content);

    let paid = ScriptedSource::metered("b2-origin", Behaviour::Serves(content.clone()));
    let mut resolver = Resolver::new(local(), vec![paid]).with_spend_policy(AlwaysSpend);

    assert_eq!(resolver.resolve(&cid).unwrap().source, "b2-origin");
    assert_eq!(resolver.sources[0].calls, 1);
}

#[test]
fn another_store_can_act_as_a_source() {
    let content = b"held by a seed".to_vec();
    let mut seed = MemoryStore::new();
    let cid = seed.put(&content, Provenance::built_public()).unwrap();

    let mut resolver = Resolver::new(local(), vec![StoreSource::new("seed", seed, false)]);
    assert_eq!(resolver.resolve(&cid).unwrap().source, "seed");
}

#[test]
fn a_corrupt_entry_at_a_source_reads_as_a_miss_not_a_failure() {
    let content = b"corrupt at the seed".to_vec();
    let mut seed = MemoryStore::new();
    let cid = seed.put(&content, Provenance::built_public()).unwrap();
    seed.corrupt_for_test(&cid, b"tampered".to_vec());

    let mut resolver = Resolver::new(local(), vec![StoreSource::new("seed", seed, false)]);

    // The seed evicts its own corrupt entry; we simply look elsewhere.
    assert!(matches!(
        resolver.resolve(&cid),
        Err(ResolveError::NotFound { .. })
    ));
}

#[test]
fn metrics_count_what_a_deployment_needs_to_see() {
    let content = b"metrics".to_vec();
    let cid = Cid::of(&content);

    // The scripted sources answer every request with the same bytes, so the
    // miss case is measured with its own resolver rather than reusing these.
    let liar = ScriptedSource::new("liar", Behaviour::Serves(b"wrong".to_vec()));
    let good = ScriptedSource::new("good", Behaviour::Serves(content.clone()));
    let mut resolver = Resolver::new(local(), vec![liar, good]);

    resolver.resolve(&cid).unwrap(); // remote hit, one rejection
    resolver.resolve(&cid).unwrap(); // local hit; no source is asked

    let snapshot = resolver.metrics.snapshot();
    assert_eq!(snapshot[0], ("local_hits", 1));
    assert_eq!(snapshot[1], ("remote_hits", 1));
    assert_eq!(snapshot[2], ("misses", 0));
    assert_eq!(snapshot[3], ("rejections", 1));

    let mut empty = Resolver::new(local(), Vec::<ScriptedSource>::new());
    let _ = empty.resolve(&Cid::of(b"absent"));
    assert_eq!(empty.metrics.snapshot()[2], ("misses", 1));
}

#[test]
fn every_response_is_verified_against_the_requested_cid_not_just_any_cid() {
    // A source that serves *some* valid object is not serving *this* one. The
    // resolver must reject a well-formed answer to a different question.
    let wanted = Cid::of(b"the object I asked for");
    let confused = ScriptedSource::new(
        "confused",
        Behaviour::Serves(b"a different object".to_vec()),
    );

    let mut resolver = Resolver::new(local(), vec![confused]);
    assert!(matches!(
        resolver.resolve(&wanted),
        Err(ResolveError::NotFound { .. })
    ));
    assert_eq!(resolver.metrics.snapshot()[3], ("rejections", 1));
}

/// A source that says nothing of its cost.
struct Silent;

impl Source for Silent {
    fn id(&self) -> String {
        "silent".into()
    }

    fn fetch(&mut self, _cid: &Cid) -> Fetched {
        Ok(None)
    }
}

#[test]
fn a_source_is_free_unless_it_says_otherwise() {
    assert!(!Silent.is_metered());
    assert!(StoreSource::new("seed", local(), true).is_metered());
    assert_eq!(StoreSource::new("seed", local(), true).id(), "seed");
    assert!(AlwaysSpend::default().may_spend());
    assert!(!NeverSpend::default().may_spend());
}

#[test]
fn every_turn_is_accounted_for() {
    let content = b"wanted".to_vec();
    let cid = Cid::of(&content);
    let sources = vec![
        ScriptedSource::metered("paid", Behaviour::Serves(content.clone())),
        ScriptedSource::new("liar", Behaviour::Serves(b"wrong".to_vec())),
        ScriptedSource::new("down", Behaviour::Unreachable),
        ScriptedSource::new("good", Behaviour::Serves(content.clone())),
        ScriptedSource::new("late", Behaviour::Serves(content.clone())),
    ];
    let mut resolver = Resolver::new(local(), sources).with_spend_policy(NeverSpend);
    let resolution = resolver.resolve(&cid).unwrap();
    assert_eq!(
        resolution,
        Resolution {
            content: content.clone(),
            source: "good".into(),
            missed: vec!["down".into()],
            rejected: vec!["liar".into()],
        }
    );
    assert_eq!(
        resolver.metrics.snapshot(),
        [
            ("local_hits", 0),
            ("remote_hits", 1),
            ("misses", 0),
            ("rejections", 1),
            ("metered_skips", 1),
        ]
    );
    let entry = resolver.local.head(&cid).unwrap().unwrap();
    assert_eq!(entry.provenance, Provenance::built_public());
}

#[test]
fn a_source_that_was_never_asked_did_not_miss() {
    let content = b"free to fetch".to_vec();
    let cid = Cid::of(&content);
    let paid = ScriptedSource::metered("b2-origin", Behaviour::Serves(content.clone()));
    let free = ScriptedSource::new("peer", Behaviour::Serves(content.clone()));
    let mut resolver = Resolver::new(local(), vec![paid, free]).with_spend_policy(NeverSpend);
    let resolution = resolver.resolve(&cid).unwrap();
    assert_eq!(resolution.source, "peer");
    assert!(resolution.missed.is_empty());
    assert!(resolution.rejected.is_empty());
    assert_eq!(resolver.metrics.metered_skips, 1);
}

#[test]
fn only_metered_sources_are_skipped_and_only_without_permission() {
    assert_eq!(Search::decide(true, false), Approach::Skip);
    assert_eq!(Search::decide(true, true), Approach::Ask);
    assert_eq!(Search::decide(false, false), Approach::Ask);
    assert_eq!(Search::decide(false, true), Approach::Ask);
}

#[test]
fn a_failing_local_store_ends_the_resolution() {
    let content = b"held".to_vec();
    let mut store = local();
    let cid = store.put(&content, Provenance::built_public()).unwrap();
    store.corrupt_for_test(&cid, b"rotten".to_vec());
    let peer = ScriptedSource::new("peer", Behaviour::Serves(content.clone()));
    let mut resolver = Resolver::new(store, vec![peer]);
    assert!(matches!(
        resolver.resolve(&cid),
        Err(ResolveError::Store(StoreError::Integrity { .. }))
    ));
    assert_eq!(resolver.sources[0].calls, 0);
    assert_eq!(resolver.metrics, Metrics::default());
    // The corrupt entry is gone, so the next request is served by the peer.
    assert_eq!(resolver.resolve(&cid).unwrap().source, "peer");
}

#[test]
fn counters_wrap_around() {
    let mut metrics = Metrics {
        misses: u64::MAX,
        ..Metrics::default()
    };
    let error = Search::new().exhausted(&Cid::of(b"x"), &mut metrics);
    assert!(matches!(error, ResolveError::NotFound { cid } if cid == Cid::of(b"x").as_str()));
    assert_eq!(metrics.misses, 0);
}

#[test]
fn a_search_can_be_taken_step_by_step() {
    let cid = Cid::of(b"wanted");
    let mut metrics = Metrics::default();
    assert!(resolve_locally("memory", Ok(None), &mut metrics).is_none());
    let mut search = Search::new();
    search.skip(&mut metrics);
    assert_eq!(metrics.metered_skips, 1);
    assert_eq!(
        search.hear(&cid, "empty".into(), Ok(None), &mut metrics),
        Heard::Missed
    );
    assert_eq!(
        search.hear(&cid, "liar".into(), Ok(Some(b"other".to_vec())), &mut metrics),
        Heard::Rejected
    );
    assert_eq!(
        search.hear(&cid, "good".into(), Ok(Some(b"wanted".to_vec())), &mut metrics),
        Heard::Content(b"wanted".to_vec())
    );
    let resolution = search.found(b"wanted".to_vec(), "good".into(), &mut metrics);
    assert_eq!(resolution.missed, vec!["empty"]);
    assert_eq!(resolution.rejected, vec!["liar"]);
    assert_eq!(resolution.clone(), resolution);
    assert_eq!(metrics.remote_hits, 1);
    let hit = resolve_locally("disk", Ok(Some(b"wanted".to_vec())), &mut metrics)
        .unwrap()
        .unwrap();
    assert_eq!(hit.source, "disk");
    assert_eq!(metrics.local_hits, 1);
}

#[test]
fn a_failing_store_is_an_unavailable_source() {
    assert_eq!(
        fetched_from_store("seed", Ok(Some(vec![1]))).unwrap(),
        Some(vec![1])
    );
    match fetched_from_store("seed", Err(StoreError::Unavailable("down".into()))) {
        Err(error) => assert_eq!(
            error.message(),
            "source `seed` is unavailable: store unavailable: down"
        ),
        other => panic!("got {other:?}"),
    }
}

#[test]
fn resolve_errors_say_what_is_wrong() {
    assert_eq!(
        ResolveError::NotFound { cid: "b3:a".into() }.message(),
        "no source has b3:a"
    );
    assert_eq!(
        ResolveError::from(StoreError::Unavailable("down".into())).message(),
        "local store: store unavailable: down"
    );
}

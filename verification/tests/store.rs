use rustly_storage::cid::Cid;
use rustly_storage::manifest::{Manifest, CHUNK_BYTES};
use rustly_storage::memory::MemoryStore;
use rustly_storage::provenance::{Distribution, Provenance, TrustState};
use rustly_storage::store::{
    check_read, check_rebuild, promote_held, refuse_rebuild, trust_for_producer, unavailable,
    Entry, Access, ObjectStore, StoreError,
};

#[test]
fn only_operator_controlled_producers_skip_quarantine() {
    assert_eq!(trust_for_producer(true), TrustState::Verified);
    assert_eq!(trust_for_producer(false), TrustState::Quarantined);
}

fn run_suite<S: ObjectStore>(store: &mut S) {
    round_trip(store);
    misses_are_misses(store);
    put_is_idempotent(store);
    metadata_is_recorded(store);
    quarantined_objects_are_invisible_to_judging(store);
    trusted_only_objects_are_never_served_to_peers(store);
    promotion_requires_a_matching_rebuild(store);
    removal_works(store);
    large_objects_round_trip(store);
}

fn round_trip<S: ObjectStore>(store: &mut S) {
    let cid = store
        .put(b"round trip", Provenance::built_public())
        .expect("put");
    assert_eq!(
        cid,
        Cid::of(b"round trip"),
        "the key must be the hash of the content"
    );
    assert_eq!(
        store.get(&cid).expect("get").as_deref(),
        Some(&b"round trip"[..])
    );
    assert!(store.contains(&cid).expect("contains"));
}

fn misses_are_misses<S: ObjectStore>(store: &mut S) {
    let absent = Cid::of(b"never stored anywhere at all");
    assert_eq!(store.get(&absent).expect("a miss is not an error"), None);
    assert_eq!(store.head(&absent).expect("head"), None);
    assert!(!store.contains(&absent).expect("contains"));
}

fn put_is_idempotent<S: ObjectStore>(store: &mut S) {
    let first = store
        .put(b"same bytes", Provenance::built_public())
        .unwrap();
    let second = store
        .put(b"same bytes", Provenance::built_public())
        .unwrap();
    assert_eq!(first, second, "identical content must have one name");
    assert_eq!(
        store.get(&first).unwrap().as_deref(),
        Some(&b"same bytes"[..])
    );
}

fn metadata_is_recorded<S: ObjectStore>(store: &mut S) {
    let cid = store
        .put(b"with metadata", Provenance::built_public())
        .unwrap();
    let entry = store.head(&cid).unwrap().expect("an entry must exist");

    assert_eq!(entry.manifest.cid, cid);
    assert_eq!(entry.manifest.size, b"with metadata".len() as u64);
    assert!(entry.manifest.validate().is_ok());
    assert_eq!(entry.provenance.trust, TrustState::Verified);
    assert_eq!(entry.provenance.distribution, Distribution::Public);
}

fn quarantined_objects_are_invisible_to_judging<S: ObjectStore>(store: &mut S) {
    let content = b"a volunteer build";
    let cid = store
        .put(content, Provenance::from_volunteer("peer-9"))
        .unwrap();

    assert_eq!(
        store.get_for_judging(&cid).unwrap(),
        None,
        "a quarantined object must read as absent, so a forgetful caller rebuilds"
    );
    // It is still held, for diagnostics and for later reproduction.
    assert_eq!(store.get(&cid).unwrap().as_deref(), Some(&content[..]));
    assert!(store.contains(&cid).unwrap());
}

fn trusted_only_objects_are_never_served_to_peers<S: ObjectStore>(store: &mut S) {
    let cid = store
        .put(b"a hidden test case", Provenance::trusted_only())
        .unwrap();

    match store.get_for_peer(&cid) {
        Err(StoreError::DistributionRefused { distribution, .. }) => {
            assert_eq!(distribution, Distribution::TrustedOnly);
        }
        other => panic!("trusted-only material must never be served to a peer, got {other:?}"),
    }
    // A public object, by contrast, is servable.
    let public = store
        .put(b"a public content pack", Provenance::built_public())
        .unwrap();
    assert!(store.get_for_peer(&public).unwrap().is_some());
}

fn promotion_requires_a_matching_rebuild<S: ObjectStore>(store: &mut S) {
    let content = b"an artifact from a volunteer";
    let cid = store
        .put(content, Provenance::from_volunteer("peer-3"))
        .unwrap();
    assert!(store.get_for_judging(&cid).unwrap().is_none());

    store
        .promote(&cid, content)
        .expect("a matching rebuild promotes");
    assert!(
        store.get_for_judging(&cid).unwrap().is_some(),
        "after reproduction the artifact may decide a verdict"
    );

    // A rebuild that disagrees destroys the quarantined copy. Two builds of the
    // same inputs producing different bytes is a serious signal, not a retry.
    let other = store
        .put(
            b"another volunteer artifact",
            Provenance::from_volunteer("p"),
        )
        .unwrap();
    let error = store
        .promote(&other, b"completely different bytes")
        .expect_err("a mismatched rebuild must fail");
    assert!(matches!(error, StoreError::Integrity { .. }));
    assert!(
        !store.contains(&other).unwrap(),
        "the quarantined copy must be destroyed"
    );
}

fn removal_works<S: ObjectStore>(store: &mut S) {
    let cid = store.put(b"temporary", Provenance::built_public()).unwrap();
    store.remove(&cid).unwrap();
    assert!(!store.contains(&cid).unwrap());
    assert_eq!(store.get(&cid).unwrap(), None);
    assert_eq!(store.head(&cid).unwrap(), None);
    // Removing something absent is not an error.
    store.remove(&cid).unwrap();
}

fn large_objects_round_trip<S: ObjectStore>(store: &mut S) {
    // Larger than one chunk, so the manifest has several and the whole-object
    // and per-chunk verification paths both run.
    let content: Vec<u8> = (0..CHUNK_BYTES * 2 + 1234)
        .map(|i| (i % 253) as u8)
        .collect();
    let cid = store.put(&content, Provenance::built_public()).unwrap();

    let read = store
        .get(&cid)
        .unwrap()
        .expect("a large object round-trips");
    assert_eq!(read.len(), content.len());
    assert_eq!(read, content);

    let entry = store.head(&cid).unwrap().unwrap();
    assert!(
        entry.manifest.chunks.len() >= 3,
        "a large object should be chunked"
    );
    assert!(entry.manifest.verify(&content).is_ok());
}

#[test]
fn the_memory_store_satisfies_the_conformance_suite() {
    run_suite(&mut MemoryStore::new());
}

#[test]
fn the_memory_store_detects_corruption_on_read_too() {
    let mut store = MemoryStore::new();
    let cid = store
        .put(b"honest bytes", Provenance::built_public())
        .unwrap();
    store.corrupt_for_test(&cid, b"tampered".to_vec());

    assert!(matches!(
        store.get(&cid),
        Err(StoreError::Integrity { .. })
    ));
    assert_eq!(
        store.get(&cid).unwrap(),
        None,
        "the corrupt entry was evicted"
    );
}

#[test]
fn a_backend_cannot_be_asked_for_a_cid_it_did_not_produce() {
    let mut store = MemoryStore::new();
    let unrelated = Cid::of(b"this was never stored");
    assert_eq!(store.get(&unrelated).unwrap(), None);
    assert_eq!(store.get_for_judging(&unrelated).unwrap(), None);
    assert_eq!(store.get_for_peer(&unrelated).unwrap(), None);
}

#[test]
fn eviction_takes_the_metadata_too() {
    let mut store = MemoryStore::new();
    let cid = store.put(b"honest", Provenance::built_public()).unwrap();
    store.corrupt_for_test(&cid, b"tampered".to_vec());
    match store.get(&cid) {
        Err(StoreError::Integrity { cid: named, detail }) => {
            assert_eq!(named, cid.as_str());
            assert_eq!(
                detail,
                format!("content hashes to {}", Cid::of(b"tampered").as_str())
            );
        }
        other => panic!("corruption must be reported, got {other:?}"),
    }
    assert_eq!(store.head(&cid).unwrap(), None);
    assert!(store.is_empty());
}

#[test]
fn objects_are_counted_once() {
    let mut store = MemoryStore::default();
    assert_eq!(store.len(), 0);
    assert!(store.is_empty());
    assert_eq!(store.id(), "memory");
    store.put(b"one", Provenance::built_public()).unwrap();
    store.put(b"one", Provenance::trusted_only()).unwrap();
    store.put(b"two", Provenance::built_public()).unwrap();
    assert_eq!(store.len(), 2);
    assert!(!store.is_empty());
    store.remove(&Cid::of(b"two")).unwrap();
    store.remove(&Cid::of(b"two")).unwrap();
    assert_eq!(store.len(), 1);
    // The later put says how the object may be used.
    let one = Cid::of(b"one");
    let entry = store.head(&one).unwrap().unwrap();
    assert_eq!(entry.provenance, Provenance::trusted_only());
}

#[test]
fn promotion_changes_trust_and_nothing_else() {
    let mut store = MemoryStore::new();
    let cid = store
        .put(b"artifact", Provenance::from_volunteer("peer"))
        .unwrap();
    store.promote(&cid, b"artifact").unwrap();
    let entry = store.head(&cid).unwrap().unwrap();
    assert_eq!(entry.provenance.trust, TrustState::Verified);
    assert_eq!(
        entry.provenance.origin,
        Provenance::from_volunteer("peer").origin
    );
    assert_eq!(entry.manifest, Manifest::build(b"artifact", None));
    // What is not held is not there to promote.
    let absent = Cid::of(b"absent");
    match store.promote(&absent, b"absent") {
        Err(StoreError::Unavailable(text)) => {
            assert_eq!(text, format!("{} is not held here", absent.as_str()))
        }
        other => panic!("got {other:?}"),
    }
    assert!(!store.contains(&absent).unwrap());
    assert_eq!(store.len(), 1);
}

#[test]
fn a_mismatched_rebuild_names_what_it_produced() {
    let cid = Cid::of(b"original");
    assert!(check_rebuild(&cid, b"original").is_none());
    match check_rebuild(&cid, b"other") {
        Some(StoreError::Integrity { cid: named, detail }) => {
            assert_eq!(named, cid.as_str());
            assert_eq!(
                detail,
                format!(
                    "a trusted rebuild produced {}; the quarantined copy was destroyed",
                    Cid::of(b"other").as_str()
                )
            );
        }
        other => panic!("a mismatch must be reported, got {other:?}"),
    }
}

#[test]
fn reads_are_checked() {
    let cid = Cid::of(b"bytes");
    assert_eq!(
        check_read(&cid, b"bytes".to_vec()).unwrap(),
        Some(b"bytes".to_vec())
    );
    assert!(check_read(&cid, b"byte".to_vec()).is_err());
}

#[test]
fn only_what_is_held_is_promoted() {
    let cid = Cid::of(b"x");
    let entry = Entry::of(b"x", Provenance::from_volunteer("p"));
    let promoted = promote_held(&cid, Ok(Some(entry.clone()))).unwrap();
    assert_eq!(promoted.manifest, entry.manifest);
    assert_eq!(promoted.provenance.trust, TrustState::Verified);
    match promote_held(&cid, Ok(None)) {
        Err(StoreError::Unavailable(text)) => {
            assert_eq!(text, format!("{} is not held here", cid.as_str()))
        }
        other => panic!("got {other:?}"),
    }
    assert!(matches!(
        promote_held(&cid, Err(StoreError::Unavailable("down".into()))),
        Err(StoreError::Unavailable(text)) if text == "down"
    ));
}

#[test]
fn a_failed_removal_comes_before_the_mismatch() {
    let fault = || StoreError::Unavailable("mismatch".into());
    assert!(matches!(
        refuse_rebuild(Ok(()), fault()),
        StoreError::Unavailable(text) if text == "mismatch"
    ));
    assert!(matches!(
        refuse_rebuild(Err(StoreError::Unavailable("stuck".into())), fault()),
        StoreError::Unavailable(text) if text == "stuck"
    ));
}

#[test]
fn access_goes_by_the_metadata() {
    let cid = Cid::of(b"x");
    let entry = |provenance: Provenance| Ok(Some(Entry::of(b"x", provenance)));
    assert!(matches!(
        Access::for_peer(&cid, entry(Provenance::built_public())),
        Access::Open
    ));
    assert!(matches!(Access::for_peer(&cid, Ok(None)), Access::Absent));
    assert!(matches!(
        Access::for_peer(&cid, entry(Provenance::trusted_only())),
        Access::Refused(StoreError::DistributionRefused { .. })
    ));
    assert!(matches!(
        Access::for_judging(entry(Provenance::trusted_only())),
        Access::Open
    ));
    assert!(matches!(
        Access::for_judging(entry(Provenance::from_volunteer("p"))),
        Access::Absent
    ));
    assert!(matches!(Access::for_judging(Ok(None)), Access::Absent));
    assert!(matches!(
        Access::for_judging(Err(StoreError::Unavailable("down".into()))),
        Access::Refused(StoreError::Unavailable(_))
    ));
}

#[test]
fn store_errors_say_what_is_wrong() {
    assert_eq!(
        unavailable("reading", "gone").message(),
        "store unavailable: reading: gone"
    );
    assert_eq!(
        StoreError::Integrity {
            cid: "b3:a".into(),
            detail: "rotten".into()
        }
        .message(),
        "integrity failure for b3:a: rotten"
    );
    assert_eq!(
        StoreError::DistributionRefused {
            cid: "b3:a".into(),
            distribution: Distribution::TrustedOnly
        }
        .message(),
        "refusing to serve b3:a: it is marked TrustedOnly"
    );
}

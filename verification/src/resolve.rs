//! Resolving an object from whichever source has it.
//!
//! P2P available: the system is cheaper and faster. P2P unavailable: the system
//! is slower and still correct.
//!
//! P2P is never authoritative. Every byte is verified against its CID before it
//! is used: an untrusted peer can only fail to serve, never serve something
//! wrong. That is why the order of the sources is a performance decision rather
//! than a security one.
//!
//! Each source is tried only if the previous missed. What is found is verified
//! and then cached locally, so the second request for an object is free.

use vstd::prelude::*;
use vstd::string::*;

use crate::cid;
use crate::cid::Cid;
use crate::memory::MemoryStore;
use crate::provenance;
use crate::provenance::Provenance;
use crate::store;
use crate::store::{ObjectStore, StoreError, StoreErrorView, StoreResult};

verus! {

/// Why resolution failed.
#[derive(Debug)]
pub enum ResolveError {
    /// No source had the object.
    NotFound {
        /// The CID that could not be found.
        cid: String,
    },
    /// A source was unreachable. Not fatal on its own; the resolver moves on.
    SourceUnavailable {
        /// Which source.
        source_id: String,
        /// What went wrong.
        detail: String,
    },
    /// The local store failed.
    Store(StoreError),
}

/// A [`ResolveError`] as a value of the model.
pub enum ResolveErrorView {
    /// No source had the object.
    NotFound {
        /// The CID that could not be found.
        cid: Seq<char>,
    },
    /// A source was unreachable.
    SourceUnavailable {
        /// Which source.
        source_id: Seq<char>,
        /// What went wrong.
        detail: Seq<char>,
    },
    /// The local store failed.
    Store(StoreErrorView),
}

impl View for ResolveError {
    type V = ResolveErrorView;

    open spec fn view(&self) -> ResolveErrorView {
        match *self {
            ResolveError::NotFound { cid } => ResolveErrorView::NotFound { cid: cid@ },
            ResolveError::SourceUnavailable {
                source_id,
                detail,
            } => ResolveErrorView::SourceUnavailable { source_id: source_id@, detail: detail@ },
            ResolveError::Store(error) => ResolveErrorView::Store(error@),
        }
    }
}

impl ResolveErrorView {
    /// The sentence a person reads.
    pub open spec fn message(self) -> Seq<char> {
        match self {
            ResolveErrorView::NotFound { cid } => "no source has "@ + cid,
            ResolveErrorView::SourceUnavailable { source_id, detail } => "source `"@ + source_id
                + "` is unavailable: "@ + detail,
            ResolveErrorView::Store(error) => "local store: "@ + error.message(),
        }
    }
}

impl ResolveError {
    /// The sentence a person reads.
    pub fn message(&self) -> (message: String)
        ensures
            message@ == self@.message(),
    {
        match self {
            ResolveError::NotFound { cid } => "no source has ".to_owned().concat(cid.as_str()),
            ResolveError::SourceUnavailable { source_id, detail } => "source `".to_owned().concat(
                source_id.as_str(),
            ).concat("` is unavailable: ").concat(detail.as_str()),
            ResolveError::Store(error) => "local store: ".to_owned().concat(
                error.message().as_str(),
            ),
        }
    }
}

impl From<StoreError> for ResolveError {
    fn from(error: StoreError) -> (converted: Self) {
        ResolveError::Store(error)
    }
}

impl vstd::std_specs::convert::FromSpecImpl<StoreError> for ResolveError {
    open spec fn obeys_from_spec() -> bool {
        true
    }

    open spec fn from_spec(error: StoreError) -> Self {
        ResolveError::Store(error)
    }
}

/// What a source answers.
pub type Fetched = Result<Option<Vec<u8>>, ResolveError>;

/// What a source answers, as a value of the model.
pub open spec fn fetched_view(answer: Fetched) -> Result<Option<Seq<u8>>, ResolveErrorView> {
    match answer {
        Ok(Some(content)) => Ok(Some(content@)),
        Ok(None) => Ok(None),
        Err(error) => Err(error@),
    }
}

/// Something that might hold an object.
pub trait Source: Sized + Send + Sync {
    /// What `id` may answer. Anything, unless the source says otherwise.
    open spec fn answers_to(&self, label: Seq<char>) -> bool {
        true
    }

    /// What `fetch` may answer, and what it may do to the source. Anything, unless
    /// the source says otherwise: the resolver trusts no source.
    open spec fn fetches(
        before: Self,
        cid: Seq<char>,
        answer: Result<Option<Seq<u8>>, ResolveErrorView>,
        after: Self,
    ) -> bool {
        true
    }

    /// Stable identifier, for metrics and for blaming a bad peer.
    fn id(&self) -> (id: String)
        ensures
            self.answers_to(id@),
    ;

    /// Whether fetching from this source costs money.
    ///
    /// The resolver consults this so a $0 deployment under quota pressure can
    /// skip metered sources rather than quietly spending.
    fn is_metered(&self) -> (metered: bool)
        default_ensures
            !metered,
    {
        false
    }

    /// Fetch, or `None` if this source does not have it.
    ///
    /// A source is **not** required to return correct bytes. The resolver
    /// verifies everything, which is precisely why an untrusted source is safe
    /// to ask.
    fn fetch(&mut self, cid: &Cid) -> (answer: Fetched)
        ensures
            Self::fetches(*old(self), cid@, fetched_view(answer), *final(self)),
    ;
}

/// The source may say of itself that fetching from it costs money, or that it
/// does not.
pub open spec fn says_metered<S: Source>(source: S, answer: bool) -> bool {
    call_ensures(S::is_metered, (&source,), answer)
}

/// Decides whether a metered fetch may proceed.
///
/// Under quota pressure the resolver skips metered sources and reports a miss, so
/// a caller rebuilds instead of spending.
pub trait SpendPolicy: Sized + Send + Sync {
    /// What `may_spend` may answer. Anything, unless the policy says otherwise.
    open spec fn permits(&self, answer: bool) -> bool {
        true
    }

    /// Whether a metered fetch is permitted right now.
    fn may_spend(&self) -> (may: bool)
        ensures
            self.permits(may),
    ;
}

/// Always permits metered fetches.
#[derive(Debug, Clone, Copy)]
pub struct AlwaysSpend;

impl Default for AlwaysSpend {
    fn default() -> (policy: Self)
        ensures
            policy == AlwaysSpend,
    {
        AlwaysSpend
    }
}

impl SpendPolicy for AlwaysSpend {
    open spec fn permits(&self, answer: bool) -> bool {
        answer
    }

    fn may_spend(&self) -> (may: bool) {
        true
    }
}

/// Never permits metered fetches. What $0 mode uses under Red pressure.
#[derive(Debug, Clone, Copy)]
pub struct NeverSpend;

impl Default for NeverSpend {
    fn default() -> (policy: Self)
        ensures
            policy == NeverSpend,
    {
        NeverSpend
    }
}

impl SpendPolicy for NeverSpend {
    open spec fn permits(&self, answer: bool) -> bool {
        !answer
    }

    fn may_spend(&self) -> (may: bool) {
        false
    }
}

/// What resolution did, for metrics and for tests.
#[derive(Debug, PartialEq, Eq)]
pub struct Resolution {
    /// The bytes.
    pub content: Vec<u8>,
    /// Which source finally provided them.
    pub source: String,
    /// Sources that were asked and did not have it, in order.
    pub missed: Vec<String>,
    /// Sources that returned bytes failing verification.
    ///
    /// Non-empty here is the signal that a peer is broken or hostile.
    pub rejected: Vec<String>,
}

impl Clone for Resolution {
    fn clone(&self) -> (copy: Self)
        ensures
            copy@ == self@,
    {
        let copy = Resolution {
            content: self.content.clone(),
            source: self.source.clone(),
            missed: self.missed.clone(),
            rejected: self.rejected.clone(),
        };
        assert(copy.content@ =~= self.content@);
        assert(texts(copy.missed@) =~= texts(self.missed@));
        assert(texts(copy.rejected@) =~= texts(self.rejected@));
        copy
    }
}

/// A [`Resolution`] as a value of the model.
#[verifier::ext_equal]
pub struct ResolutionView {
    /// The bytes.
    pub content: Seq<u8>,
    /// Which source finally provided them.
    pub source: Seq<char>,
    /// Sources that were asked and did not have it.
    pub missed: Seq<Seq<char>>,
    /// Sources that returned bytes failing verification.
    pub rejected: Seq<Seq<char>>,
}

/// The texts of some strings.
pub open spec fn texts(strings: Seq<String>) -> Seq<Seq<char>> {
    strings.map_values(|text: String| text@)
}

impl View for Resolution {
    type V = ResolutionView;

    open spec fn view(&self) -> ResolutionView {
        ResolutionView {
            content: self.content@,
            source: self.source@,
            missed: texts(self.missed@),
            rejected: texts(self.rejected@),
        }
    }
}

/// A resolution, or why there is none, as a value of the model.
pub open spec fn resolution_view(result: Result<Resolution, ResolveError>) -> Result<
    ResolutionView,
    ResolveErrorView,
> {
    match result {
        Ok(resolution) => Ok(resolution@),
        Err(error) => Err(error@),
    }
}

/// Counters a deployment can scrape. They wrap around.
#[derive(Debug, Clone, Copy, PartialEq, Eq, Structural)]
pub struct Metrics {
    /// Served from the local store.
    pub local_hits: u64,
    /// Served by a remote source.
    pub remote_hits: u64,
    /// Not found anywhere.
    pub misses: u64,
    /// Responses that failed verification.
    pub rejections: u64,
    /// Metered sources skipped because spending was not permitted.
    pub metered_skips: u64,
}

/// All counters at zero.
pub open spec fn no_metrics() -> Metrics {
    Metrics { local_hits: 0, remote_hits: 0, misses: 0, rejections: 0, metered_skips: 0 }
}

/// A counter after one more event.
pub open spec fn bumped(counter: u64) -> u64 {
    if counter == u64::MAX {
        0
    } else {
        (counter + 1) as u64
    }
}

impl Default for Metrics {
    fn default() -> (metrics: Self)
        ensures
            metrics == no_metrics(),
    {
        Metrics { local_hits: 0, remote_hits: 0, misses: 0, rejections: 0, metered_skips: 0 }
    }
}

impl Metrics {
    fn bump(counter: &mut u64)
        ensures
            *final(counter) == bumped(*old(counter)),
    {
        *counter = counter.wrapping_add(1);
    }

    /// A snapshot, for reporting.
    pub fn snapshot(&self) -> (snapshot: [(&'static str, u64); 5])
        ensures
            snapshot@[0].0@ == "local_hits"@ && snapshot@[0].1 == self.local_hits,
            snapshot@[1].0@ == "remote_hits"@ && snapshot@[1].1 == self.remote_hits,
            snapshot@[2].0@ == "misses"@ && snapshot@[2].1 == self.misses,
            snapshot@[3].0@ == "rejections"@ && snapshot@[3].1 == self.rejections,
            snapshot@[4].0@ == "metered_skips"@ && snapshot@[4].1 == self.metered_skips,
    {
        [
            ("local_hits", self.local_hits),
            ("remote_hits", self.remote_hits),
            ("misses", self.misses),
            ("rejections", self.rejections),
            ("metered_skips", self.metered_skips),
        ]
    }
}

/// What happened when a source's turn came.
pub enum Turn {
    /// It was metered and spending was not permitted.
    Skipped,
    /// It was asked and answered.
    Asked(Result<Option<Seq<u8>>, ResolveErrorView>),
}

/// One turn, and the source whose turn it was.
pub struct Told {
    /// The identifier that the source gave when it was asked. Empty where it was
    /// not.
    pub label: Seq<char>,
    /// What happened.
    pub turn: Turn,
}

/// The source gave the content of `cid`.
pub open spec fn served(cid: Seq<char>, turn: Turn) -> bool {
    turn matches Turn::Asked(Ok(Some(content))) && cid::cid_of(content) == cid
}

/// The source gave bytes that are not the content of `cid`.
pub open spec fn lied(cid: Seq<char>, turn: Turn) -> bool {
    turn matches Turn::Asked(Ok(Some(content))) && cid::cid_of(content) != cid
}

/// The source was asked and gave no bytes: it does not have them, or it failed.
pub open spec fn lacked(turn: Turn) -> bool {
    ||| turn matches Turn::Asked(Ok(None))
    ||| turn matches Turn::Asked(Err(_))
}

/// The sources that were asked and gave no bytes, in order.
pub open spec fn missed_of(told: Seq<Told>) -> Seq<Seq<char>>
    decreases told.len(),
{
    if told.len() == 0 {
        Seq::empty()
    } else if lacked(told.last().turn) {
        missed_of(told.drop_last()).push(told.last().label)
    } else {
        missed_of(told.drop_last())
    }
}

/// The sources that gave wrong bytes, in order.
pub open spec fn rejected_of(cid: Seq<char>, told: Seq<Told>) -> Seq<Seq<char>>
    decreases told.len(),
{
    if told.len() == 0 {
        Seq::empty()
    } else if lied(cid, told.last().turn) {
        rejected_of(cid, told.drop_last()).push(told.last().label)
    } else {
        rejected_of(cid, told.drop_last())
    }
}

/// The counters after one turn that did not end the search.
pub open spec fn counted(metrics: Metrics, cid: Seq<char>, turn: Turn) -> Metrics {
    if turn is Skipped {
        Metrics { metered_skips: bumped(metrics.metered_skips), ..metrics }
    } else if lied(cid, turn) {
        Metrics { rejections: bumped(metrics.rejections), ..metrics }
    } else {
        metrics
    }
}

/// The counters after some turns that did not end the search.
pub open spec fn tallied(metrics: Metrics, cid: Seq<char>, told: Seq<Told>) -> Metrics
    decreases told.len(),
{
    if told.len() == 0 {
        metrics
    } else {
        counted(tallied(metrics, cid, told.drop_last()), cid, told.last().turn)
    }
}

/// None of the turns gave the content.
pub open spec fn fruitless(cid: Seq<char>, told: Seq<Told>) -> bool {
    forall|i: int| 0 <= i < told.len() ==> !served(cid, (#[trigger] told[i]).turn)
}

/// What to do when a source's turn comes.
#[derive(Debug, Clone, Copy, PartialEq, Eq, Structural)]
pub enum Approach {
    /// Pass it over.
    Skip,
    /// Ask it.
    Ask,
}

/// What the answer of a source is worth.
#[derive(Debug, PartialEq, Eq)]
pub enum Heard {
    /// The content that was asked for.
    Content(Vec<u8>),
    /// Bytes that are not the content that was asked for.
    Rejected,
    /// No bytes.
    Missed,
}

/// What a search has come to so far.
pub struct Search {
    missed: Vec<String>,
    rejected: Vec<String>,
}

/// A [`Search`] as a value of the model: the sources that missed, and those that
/// were rejected.
impl View for Search {
    type V = (Seq<Seq<char>>, Seq<Seq<char>>);

    closed spec fn view(&self) -> (Seq<Seq<char>>, Seq<Seq<char>>) {
        (texts(self.missed@), texts(self.rejected@))
    }
}

/// What a search has come to after some turns.
pub open spec fn search_of(cid: Seq<char>, told: Seq<Told>) -> (Seq<Seq<char>>, Seq<Seq<char>>) {
    (missed_of(told), rejected_of(cid, told))
}

/// What a search has come to after one more turn.
pub open spec fn searched_on(
    search: (Seq<Seq<char>>, Seq<Seq<char>>),
    cid: Seq<char>,
    told: Told,
) -> (Seq<Seq<char>>, Seq<Seq<char>>) {
    if lacked(told.turn) {
        (search.0.push(told.label), search.1)
    } else if lied(cid, told.turn) {
        (search.0, search.1.push(told.label))
    } else {
        search
    }
}

/// The outcome of asking the local store: an answer that ends the resolution, or
/// none.
pub open spec fn local_outcome(
    name: Seq<char>,
    answer: Result<Option<Seq<u8>>, StoreErrorView>,
) -> Option<Result<ResolutionView, ResolveErrorView>> {
    match answer {
        Err(error) => Some(Err(ResolveErrorView::Store(error))),
        Ok(Some(content)) => Some(
            Ok(
                ResolutionView {
                    content,
                    source: name,
                    missed: Seq::empty(),
                    rejected: Seq::empty(),
                },
            ),
        ),
        Ok(None) => None,
    }
}

/// The counters after asking the local store.
pub open spec fn local_counted(
    metrics: Metrics,
    answer: Result<Option<Seq<u8>>, StoreErrorView>,
) -> Metrics {
    if answer matches Ok(Some(_)) {
        Metrics { local_hits: bumped(metrics.local_hits), ..metrics }
    } else {
        metrics
    }
}

/// An optional outcome as a value of the model.
pub open spec fn outcome_view(outcome: Option<Result<Resolution, ResolveError>>) -> Option<
    Result<ResolutionView, ResolveErrorView>,
> {
    match outcome {
        Some(result) => Some(resolution_view(result)),
        None => None,
    }
}

/// The outcome of asking the local store. `None` is a miss: the search begins.
pub fn resolve_locally(
    name: &str,
    answer: StoreResult<Option<Vec<u8>>>,
    metrics: &mut Metrics,
) -> (outcome: Option<Result<Resolution, ResolveError>>)
    ensures
        outcome_view(outcome) == local_outcome(name@, store::content_view(answer)),
        *final(metrics) == local_counted(*old(metrics), store::content_view(answer)),
{
    match answer {
        Err(error) => Some(Err(ResolveError::from(error))),
        Ok(None) => None,
        Ok(Some(content)) => {
            Metrics::bump(&mut metrics.local_hits);
            let resolution = Resolution {
                content,
                source: name.to_owned(),
                missed: Vec::new(),
                rejected: Vec::new(),
            };
            assert(texts(resolution.missed@) =~= Seq::empty());
            assert(texts(resolution.rejected@) =~= Seq::empty());
            Some(Ok(resolution))
        },
    }
}

impl Search {
    /// A search that has not begun.
    pub fn new() -> (search: Self)
        ensures
            search@ == (Seq::<Seq<char>>::empty(), Seq::<Seq<char>>::empty()),
    {
        let search = Search { missed: Vec::new(), rejected: Vec::new() };
        assert(texts(search.missed@) =~= Seq::empty());
        assert(texts(search.rejected@) =~= Seq::empty());
        search
    }

    /// What to do when a source's turn comes, given whether it is metered and
    /// whether spending is permitted.
    ///
    /// Degrade, never spend. A slower answer, or none, beats a bill.
    pub fn decide(metered: bool, may_spend: bool) -> (approach: Approach)
        ensures
            approach == if metered && !may_spend {
                Approach::Skip
            } else {
                Approach::Ask
            },
    {
        if metered && !may_spend {
            Approach::Skip
        } else {
            Approach::Ask
        }
    }

    /// Note that a metered source was passed over. It was not asked, so it did not
    /// miss.
    pub fn skip(&mut self, metrics: &mut Metrics)
        ensures
            final(self)@ == old(self)@,
            *final(metrics) == (Metrics {
                metered_skips: bumped(old(metrics).metered_skips),
                ..*old(metrics)
            }),
    {
        Metrics::bump(&mut metrics.metered_skips);
    }

    /// Take the answer of a source that was asked: its bytes, if they are the
    /// content that was asked for.
    ///
    /// Bytes that are not are rejected, and an unreachable source is a miss like
    /// any other. That is the whole reason an untrusted source is safe to ask.
    pub fn hear(
        &mut self,
        cid: &Cid,
        label: String,
        answer: Fetched,
        metrics: &mut Metrics,
    ) -> (heard: Heard)
        ensures
            ({
                let turn = Turn::Asked(fetched_view(answer));
                &&& final(self)@ == searched_on(old(self)@, cid@, Told { label: label@, turn })
                &&& *final(metrics) == counted(*old(metrics), cid@, turn)
                &&& match heard {
                    Heard::Content(content) => served(cid@, turn) && fetched_view(answer) == Ok::<
                        _,
                        ResolveErrorView,
                    >(Some(content@)),
                    Heard::Rejected => lied(cid@, turn),
                    Heard::Missed => lacked(turn),
                }
            }),
            match fetched_view(answer) {
                Ok(Some(content)) => if cid@ == "b3:"@ + cid::blake3_hex(content) {
                    &&& heard matches Heard::Content(given) && given@ == content
                    &&& final(self)@ == old(self)@
                } else {
                    &&& heard is Rejected
                    &&& final(self)@ == (old(self)@.0, old(self)@.1.push(label@))
                },
                _ => {
                    &&& heard is Missed
                    &&& final(self)@ == (old(self)@.0.push(label@), old(self)@.1)
                },
            },
    {
        match answer {
            Ok(Some(content)) => {
                if !cid.verifies(content.as_slice()) {
                    Metrics::bump(&mut metrics.rejections);
                    self.rejected.push(label);
                    assert(texts(self.rejected@) =~= texts(old(self).rejected@).push(label@));
                    return Heard::Rejected;
                }
                Heard::Content(content)
            },
            Ok(None) | Err(_) => {
                self.missed.push(label);
                assert(texts(self.missed@) =~= texts(old(self).missed@).push(label@));
                Heard::Missed
            },
        }
    }

    /// End a search that found the content.
    pub fn found(self, content: Vec<u8>, label: String, metrics: &mut Metrics) -> (resolution:
        Resolution)
        ensures
            resolution@ == (ResolutionView {
                content: content@,
                source: label@,
                missed: self@.0,
                rejected: self@.1,
            }),
            *final(metrics) == (Metrics {
                remote_hits: bumped(old(metrics).remote_hits),
                ..*old(metrics)
            }),
    {
        Metrics::bump(&mut metrics.remote_hits);
        Resolution { content, source: label, missed: self.missed, rejected: self.rejected }
    }

    /// End a search that found nothing.
    pub fn exhausted(self, cid: &Cid, metrics: &mut Metrics) -> (error: ResolveError)
        ensures
            error@ == (ResolveErrorView::NotFound { cid: cid@ }),
            *final(metrics) == (Metrics { misses: bumped(old(metrics).misses), ..*old(metrics) }),
    {
        Metrics::bump(&mut metrics.misses);
        ResolveError::NotFound { cid: cid.as_str().to_owned() }
    }
}

/// A turn that a source may have had, and what it may have done to the source.
pub open spec fn took_turn<S: Source, P: SpendPolicy>(
    before: S,
    policy: P,
    cid: Seq<char>,
    told: Told,
    after: S,
) -> bool {
    match told.turn {
        Turn::Skipped => {
            &&& says_metered(before, true)
            &&& policy.permits(false)
            &&& after == before
            &&& told.label == Seq::<char>::empty()
        },
        Turn::Asked(answer) => {
            &&& says_metered(before, false) || (says_metered(before, true) && policy.permits(true))
            &&& S::fetches(before, cid, answer, after)
            &&& after.answers_to(told.label)
        },
    }
}

/// The first sources had their turns, in order, and the others had none.
pub open spec fn took_turns<S: Source, P: SpendPolicy>(
    before: Seq<S>,
    policy: P,
    cid: Seq<char>,
    told: Seq<Told>,
    after: Seq<S>,
) -> bool {
    &&& told.len() <= before.len()
    &&& after.len() == before.len()
    &&& forall|i: int|
        0 <= i < told.len() ==> took_turn(before[i], policy, cid, #[trigger] told[i], after[i])
    &&& forall|i: int| told.len() <= i < before.len() ==> #[trigger] after[i] == before[i]
}

/// What the turns come to: the content that the last of them gave, or nothing
/// once every source had its turn.
pub open spec fn search_outcome(cid: Seq<char>, told: Seq<Told>) -> Result<
    ResolutionView,
    ResolveErrorView,
> {
    if told.len() > 0 && served(cid, told.last().turn) {
        Ok(
            ResolutionView {
                content: told.last().turn->Asked_0->Ok_0->Some_0,
                source: told.last().label,
                missed: missed_of(told),
                rejected: rejected_of(cid, told),
            },
        )
    } else {
        Err(ResolveErrorView::NotFound { cid })
    }
}

/// The counters after a search.
pub open spec fn search_counted(metrics: Metrics, cid: Seq<char>, told: Seq<Told>) -> Metrics {
    let after = tallied(metrics, cid, told);
    if told.len() > 0 && served(cid, told.last().turn) {
        Metrics { remote_hits: bumped(after.remote_hits), ..after }
    } else {
        Metrics { misses: bumped(after.misses), ..after }
    }
}

/// Resolves objects from the cheapest source that has them.
pub struct Resolver<L: ObjectStore, S: Source, P: SpendPolicy> {
    /// The local store.
    pub local: L,
    /// The sources, cheapest first.
    pub sources: Vec<S>,
    /// Whether metered sources may be asked.
    pub policy: P,
    /// Counters, public so a deployment can scrape them.
    pub metrics: Metrics,
}

/// A search that may have taken place after the local store missed.
pub open spec fn searched<L: ObjectStore, S: Source, P: SpendPolicy>(
    before: Resolver<L, S, P>,
    cid: Seq<char>,
    told: Seq<Told>,
    missed: L,
    result: Result<ResolutionView, ResolveErrorView>,
    after: Resolver<L, S, P>,
) -> bool {
    &&& took_turns(before.sources@, before.policy, cid, told, after.sources@)
    &&& forall|i: int| 0 <= i < told.len() - 1 ==> !served(cid, (#[trigger] told[i]).turn)
    &&& told.len() < before.sources@.len() ==> told.len() > 0 && served(cid, told.last().turn)
    &&& result == search_outcome(cid, told)
    &&& after.metrics == search_counted(before.metrics, cid, told)
    &&& match result {
        // What was found is cached; whether that succeeds changes nothing else.
        Ok(resolution) => exists|answer: Result<Seq<char>, StoreErrorView>| #[trigger]
            L::puts(missed, resolution.content, provenance::public_build(), answer, after.local),
        Err(_) => after.local == missed,
    }
}

/// A resolution that may have taken place, given what the local store answered
/// and what became of it.
pub open spec fn resolved_from<L: ObjectStore, S: Source, P: SpendPolicy>(
    before: Resolver<L, S, P>,
    cid: Seq<char>,
    answer: Result<Option<Seq<u8>>, StoreErrorView>,
    asked: L,
    name: Seq<char>,
    result: Result<ResolutionView, ResolveErrorView>,
    after: Resolver<L, S, P>,
) -> bool {
    &&& L::gets(before.local, cid, answer, asked)
    &&& asked.answers_to(name)
    &&& match local_outcome(name, answer) {
        Some(outcome) => {
            &&& result == outcome
            &&& after.local == asked
            &&& after.sources@ == before.sources@
            &&& after.metrics == local_counted(before.metrics, answer)
        },
        None => exists|told: Seq<Told>| #[trigger]
            searched(before, cid, told, asked, result, after),
    }
}

/// A resolution that may have taken place.
pub open spec fn resolves<L: ObjectStore, S: Source, P: SpendPolicy>(
    before: Resolver<L, S, P>,
    cid: Seq<char>,
    result: Result<ResolutionView, ResolveErrorView>,
    after: Resolver<L, S, P>,
) -> bool {
    &&& after.policy == before.policy
    &&& exists|answer: Result<Option<Seq<u8>>, StoreErrorView>, asked: L, name: Seq<char>| #[trigger]
        resolved_from(before, cid, answer, asked, name, result, after)
}

impl<L: ObjectStore, S: Source> Resolver<L, S, AlwaysSpend> {
    /// Build a resolver over a local store and an ordered list of sources.
    ///
    /// Order matters: cheapest first. The resolver does not reorder, because
    /// only the operator knows what their peers and origins actually cost.
    pub fn new(local: L, sources: Vec<S>) -> (resolver: Self)
        ensures
            resolver.local == local,
            resolver.sources == sources,
            resolver.policy == AlwaysSpend,
            resolver.metrics == no_metrics(),
    {
        Resolver { local, sources, policy: AlwaysSpend, metrics: Metrics::default() }
    }
}

impl<L: ObjectStore, S: Source, P: SpendPolicy> Resolver<L, S, P> {
    /// Use a spend policy, so metered sources can be skipped under quota pressure.
    pub fn with_spend_policy<Q: SpendPolicy>(self, policy: Q) -> (resolver: Resolver<L, S, Q>)
        ensures
            resolver == (Resolver {
                local: self.local,
                sources: self.sources,
                policy,
                metrics: self.metrics,
            }),
    {
        Resolver { local: self.local, sources: self.sources, policy, metrics: self.metrics }
    }

    /// Resolve `cid`, caching whatever is found.
    ///
    /// Every remote response is verified before it is used or cached. A source
    /// that returns wrong bytes is recorded in [`Resolution::rejected`] and the
    /// resolver moves on, so one bad peer costs latency rather than correctness.
    pub fn resolve(&mut self, cid: &Cid) -> (result: Result<Resolution, ResolveError>)
        ensures
            resolves(*old(self), cid@, resolution_view(result), *final(self)),
            result matches Ok(resolution) ==> cid::cid_of(resolution.content@) == cid@,
    {
        let answer = self.local.get(cid);
        let ghost asked = self.local;
        let ghost told_locally = store::content_view(answer);
        let local_id = self.local.id();
        if let Some(result) = resolve_locally(local_id, answer, &mut self.metrics) {
            assert(resolved_from(
                *old(self),
                cid@,
                told_locally,
                asked,
                local_id@,
                resolution_view(result),
                *self,
            ));
            return result;
        }
        let mut search = Search::new();
        let ghost mut told: Seq<Told> = Seq::empty();
        let mut index: usize = 0;
        while index < self.sources.len()
            invariant
                index <= self.sources@.len(),
                told.len() == index,
                self.policy == old(self).policy,
                self.local == asked,
                took_turns(old(self).sources@, old(self).policy, cid@, told, self.sources@),
                fruitless(cid@, told),
                search@ == search_of(cid@, told),
                self.metrics == tallied(old(self).metrics, cid@, told),
                L::gets(old(self).local, cid@, told_locally, asked),
                asked.answers_to(local_id@),
                told_locally == Ok::<_, StoreErrorView>(None::<Seq<u8>>),
            decreases self.sources@.len() - index,
        {
            let ghost before = told;
            let metered = self.sources[index].is_metered();
            let may_spend = !metered || self.policy.may_spend();
            if Search::decide(metered, may_spend) == Approach::Skip {
                search.skip(&mut self.metrics);
                proof {
                    told = told.push(Told { label: Seq::empty(), turn: Turn::Skipped });
                    assert(told.drop_last() =~= before);
                }
                index = index + 1;
                continue ;
            }
            let answer = self.sources[index].fetch(cid);
            let label = self.sources[index].id();
            proof {
                told = told.push(Told { label: label@, turn: Turn::Asked(fetched_view(answer)) });
                assert(told.drop_last() =~= before);
            }
            let heard = search.hear(cid, label.clone(), answer, &mut self.metrics);
            if let Heard::Content(content) = heard {
                let cached = self.local.put(content.as_slice(), Provenance::built_public());
                let resolution = search.found(content, label, &mut self.metrics);
                let result: Result<Resolution, ResolveError> = Ok(resolution);
                proof {
                    let answer: Result<Seq<char>, StoreErrorView> = store::answer_view(cached);
                    assert(resolution_view(result)->Ok_0.content == content@);
                    assert(L::puts(
                        asked,
                        resolution_view(result)->Ok_0.content,
                        provenance::public_build(),
                        answer,
                        self.local,
                    ));
                    assert(searched(
                        *old(self),
                        cid@,
                        told,
                        asked,
                        resolution_view(result),
                        *self,
                    ));
                    assert(resolved_from(
                        *old(self),
                        cid@,
                        told_locally,
                        asked,
                        local_id@,
                        resolution_view(result),
                        *self,
                    ));
                }
                return result;
            }
            index = index + 1;
        }
        let error = search.exhausted(cid, &mut self.metrics);
        let result: Result<Resolution, ResolveError> = Err(error);
        proof {
            assert(searched(*old(self), cid@, told, asked, resolution_view(result), *self));
            assert(resolved_from(
                *old(self),
                cid@,
                told_locally,
                asked,
                local_id@,
                resolution_view(result),
                *self,
            ));
        }
        result
    }
}

/// What a store's answer is to a resolver. A corrupt entry at the source is a
/// miss: it has already been evicted there; we simply look elsewhere.
pub open spec fn store_fetched(
    name: Seq<char>,
    answer: Result<Option<Seq<u8>>, StoreErrorView>,
) -> Result<Option<Seq<u8>>, ResolveErrorView> {
    match answer {
        Ok(content) => Ok(content),
        Err(StoreErrorView::Integrity { .. }) => Ok(None),
        Err(error) => Err(
            ResolveErrorView::SourceUnavailable { source_id: name, detail: error.message() },
        ),
    }
}

/// What a store's answer is to a resolver.
pub fn fetched_from_store(name: &str, answer: StoreResult<Option<Vec<u8>>>) -> (fetched: Fetched)
    ensures
        fetched_view(fetched) == store_fetched(name@, store::content_view(answer)),
{
    match answer {
        Ok(content) => Ok(content),
        Err(StoreError::Integrity { .. }) => Ok(None),
        Err(error) => Err(
            ResolveError::SourceUnavailable {
                source_id: name.to_owned(),
                detail: error.message(),
            },
        ),
    }
}

/// A source backed by another [`ObjectStore`], e.g. a seed bucket.
pub struct StoreSource<T: ObjectStore> {
    name: String,
    store: T,
    metered: bool,
}

impl<T: ObjectStore> StoreSource<T> {
    /// The identifier of the source.
    pub closed spec fn spec_name(&self) -> Seq<char> {
        self.name@
    }

    /// The store behind the source.
    pub closed spec fn spec_store(&self) -> T {
        self.store
    }

    /// Fetching from the source costs money.
    pub closed spec fn spec_metered(&self) -> bool {
        self.metered
    }

    /// Wrap a store as a source.
    pub fn new(name: &str, store: T, metered: bool) -> (source: Self)
        ensures
            source.spec_name() == name@,
            source.spec_store() == store,
            source.spec_metered() == metered,
    {
        StoreSource { name: name.to_owned(), store, metered }
    }
}

/// What fetching from a store may do, given what the store answered.
pub open spec fn store_fetch<T: ObjectStore>(
    before: StoreSource<T>,
    cid: Seq<char>,
    told: Result<Option<Seq<u8>>, StoreErrorView>,
    answer: Result<Option<Seq<u8>>, ResolveErrorView>,
    after: StoreSource<T>,
) -> bool {
    &&& T::gets(before.spec_store(), cid, told, after.spec_store())
    &&& answer == store_fetched(before.spec_name(), told)
    &&& after.spec_name() == before.spec_name()
    &&& after.spec_metered() == before.spec_metered()
}

impl<T: ObjectStore> Source for StoreSource<T> {
    open spec fn answers_to(&self, label: Seq<char>) -> bool {
        label == self.spec_name()
    }

    open spec fn fetches(
        before: Self,
        cid: Seq<char>,
        answer: Result<Option<Seq<u8>>, ResolveErrorView>,
        after: Self,
    ) -> bool {
        exists|told: Result<Option<Seq<u8>>, StoreErrorView>| #[trigger]
            store_fetch(before, cid, told, answer, after)
    }

    fn id(&self) -> (id: String) {
        self.name.clone()
    }

    fn is_metered(&self) -> (metered: bool)
        ensures
            metered == self.spec_metered(),
    {
        self.metered
    }

    fn fetch(&mut self, cid: &Cid) -> (answer: Fetched) {
        let told = self.store.get(cid);
        let ghost seen = store::content_view(told);
        let answer = fetched_from_store(self.name.as_str(), told);
        assert(store_fetch(*old(self), cid@, seen, fetched_view(answer), *self));
        answer
    }
}

/// Whatever the sources answer, what is resolved is the content of the name that
/// was asked for.
pub proof fn lemma_only_verified_content<L: ObjectStore, S: Source, P: SpendPolicy>(
    before: Resolver<L, S, P>,
    cid: Seq<char>,
    told: Seq<Told>,
    missed: L,
    result: Result<ResolutionView, ResolveErrorView>,
    after: Resolver<L, S, P>,
)
    requires
        searched(before, cid, told, missed, result, after),
    ensures
        result matches Ok(resolution) ==> cid::cid_of(resolution.content) == cid,
{
}

/// Sources are tried in order and the first that gives the content wins: none
/// before it gave the content, and none after it was asked.
pub proof fn lemma_first_hit_wins<L: ObjectStore, S: Source, P: SpendPolicy>(
    before: Resolver<L, S, P>,
    cid: Seq<char>,
    told: Seq<Told>,
    missed: L,
    result: Result<ResolutionView, ResolveErrorView>,
    after: Resolver<L, S, P>,
)
    requires
        searched(before, cid, told, missed, result, after),
    ensures
        result matches Ok(resolution) ==> {
            let winner = told.len() - 1;
            &&& 0 <= winner < before.sources@.len()
            &&& after.sources@[winner].answers_to(resolution.source)
            &&& forall|i: int| 0 <= i < winner ==> !served(cid, (#[trigger] told[i]).turn)
            &&& forall|i: int|
                winner < i < before.sources@.len() ==> #[trigger] after.sources@[i]
                    == before.sources@[i]
        },
        result is Err ==> told.len() == before.sources@.len() && fruitless(cid, told),
{
    if result is Ok {
        let winner = told.len() - 1;
        assert(took_turn(
            before.sources@[winner],
            before.policy,
            cid,
            told[winner],
            after.sources@[winner],
        ));
    } else {
        assert forall|i: int| 0 <= i < told.len() implies !served(
            cid,
            (#[trigger] told[i]).turn,
        ) by {
            assert(told.last() == told[told.len() - 1]);
        }
    }
}

/// Bytes that are not the content that was asked for never reach the local
/// store: a search that fails leaves it alone, and one that succeeds puts the
/// verified content there and nothing else.
pub proof fn lemma_liars_never_poison_the_cache<L: ObjectStore, S: Source, P: SpendPolicy>(
    before: Resolver<L, S, P>,
    cid: Seq<char>,
    told: Seq<Told>,
    missed: L,
    result: Result<ResolutionView, ResolveErrorView>,
    after: Resolver<L, S, P>,
)
    requires
        searched(before, cid, told, missed, result, after),
    ensures
        after.local == missed || exists|content: Seq<u8>, answer: Result<Seq<char>, StoreErrorView>|
            #[trigger]
            L::puts(missed, content, provenance::public_build(), answer, after.local)
                && cid::cid_of(content) == cid,
{
    if let Ok(resolution) = result {
        let answer = choose|answer: Result<Seq<char>, StoreErrorView>| #[trigger]
            L::puts(missed, resolution.content, provenance::public_build(), answer, after.local);
        assert(L::puts(
            missed,
            resolution.content,
            provenance::public_build(),
            answer,
            after.local,
        ));
    }
}

/// Where spending is never permitted, a source that says it is metered is never
/// contacted.
pub proof fn lemma_metered_sources_are_not_contacted<L: ObjectStore, S: Source>(
    before: Resolver<L, S, NeverSpend>,
    cid: Seq<char>,
    told: Seq<Told>,
    missed: L,
    result: Result<ResolutionView, ResolveErrorView>,
    after: Resolver<L, S, NeverSpend>,
    index: int,
)
    requires
        searched(before, cid, told, missed, result, after),
        0 <= index < told.len(),
        !says_metered(before.sources@[index], false),
    ensures
        told[index].turn is Skipped,
        after.sources@[index] == before.sources@[index],
{
    assert(took_turn(
        before.sources@[index],
        before.policy,
        cid,
        told[index],
        after.sources@[index],
    ));
}

/// Where spending is always permitted, every source whose turn comes is asked.
pub proof fn lemma_permitted_sources_are_asked<L: ObjectStore, S: Source>(
    before: Resolver<L, S, AlwaysSpend>,
    cid: Seq<char>,
    told: Seq<Told>,
    missed: L,
    result: Result<ResolutionView, ResolveErrorView>,
    after: Resolver<L, S, AlwaysSpend>,
    index: int,
)
    requires
        searched(before, cid, told, missed, result, after),
        0 <= index < told.len(),
    ensures
        told[index].turn is Asked,
{
    assert(took_turn(
        before.sources@[index],
        before.policy,
        cid,
        told[index],
        after.sources@[index],
    ));
}

/// How many turns were skips.
pub open spec fn skips_of(told: Seq<Told>) -> nat
    decreases told.len(),
{
    if told.len() == 0 {
        0
    } else {
        skips_of(told.drop_last()) + if told.last().turn is Skipped {
            1nat
        } else {
            0
        }
    }
}

/// A counter after some more events.
pub open spec fn counted_up(counter: u64, events: nat) -> int {
    (counter + events) % 0x1_0000_0000_0000_0000
}

/// The counters say how many responses failed verification and how many metered
/// sources were skipped, modulo the width of a counter; the others do not move
/// before the search ends.
pub proof fn lemma_metrics_count(metrics: Metrics, cid: Seq<char>, told: Seq<Told>)
    ensures
        ({
            let after = tallied(metrics, cid, told);
            &&& after.rejections == counted_up(metrics.rejections, rejected_of(cid, told).len())
            &&& after.metered_skips == counted_up(metrics.metered_skips, skips_of(told))
            &&& after.local_hits == metrics.local_hits
            &&& after.remote_hits == metrics.remote_hits
            &&& after.misses == metrics.misses
        }),
    decreases told.len(),
{
    if told.len() > 0 {
        lemma_metrics_count(metrics, cid, told.drop_last());
    }
}

/// Every source whose turn came is accounted for: it missed, it was rejected, it
/// was skipped, or it is the one that provided the content.
pub proof fn lemma_every_turn_is_accounted_for(cid: Seq<char>, told: Seq<Told>)
    requires
        forall|i: int| 0 <= i < told.len() - 1 ==> !served(cid, (#[trigger] told[i]).turn),
    ensures
        missed_of(told).len() + rejected_of(cid, told).len() + skips_of(told) + (if told.len() > 0 && served(
            cid,
            told.last().turn,
        ) {
            1int
        } else {
            0
        }) == told.len(),
    decreases told.len(),
{
    if told.len() > 0 {
        let before = told.drop_last();
        assert forall|i: int| 0 <= i < before.len() implies !served(
            cid,
            (#[trigger] before[i]).turn,
        ) by {
            assert(before[i] == told[i]);
        }
        if before.len() > 0 {
            assert(before.last() == before[before.len() - 1]);
        }
        lemma_every_turn_is_accounted_for(cid, before);
    }
}

/// A source that was skipped is not listed: a skip never changes what a search has
/// come to, and where every source was skipped nothing is listed as missed.
pub proof fn lemma_skips_are_not_misses(cid: Seq<char>, told: Seq<Told>)
    ensures
        missed_of(told.push(Told { label: Seq::empty(), turn: Turn::Skipped })) == missed_of(told),
        rejected_of(cid, told.push(Told { label: Seq::empty(), turn: Turn::Skipped }))
            == rejected_of(cid, told),
        missed_of(told).len() + skips_of(told) <= told.len(),
        skips_of(told) == told.len() ==> missed_of(told).len() == 0,
    decreases told.len(),
{
    let longer = told.push(Told { label: Seq::empty(), turn: Turn::Skipped });
    assert(longer.drop_last() =~= told);
    if told.len() > 0 {
        lemma_skips_are_not_misses(cid, told.drop_last());
    }
}

/// A local hit asks no source at all.
pub proof fn lemma_local_hit_asks_nobody<L: ObjectStore, S: Source, P: SpendPolicy>(
    before: Resolver<L, S, P>,
    cid: Seq<char>,
    answer: Result<Option<Seq<u8>>, StoreErrorView>,
    asked: L,
    name: Seq<char>,
    result: Result<ResolutionView, ResolveErrorView>,
    after: Resolver<L, S, P>,
)
    requires
        resolved_from(before, cid, answer, asked, name, result, after),
        answer matches Ok(Some(_)),
    ensures
        after.sources@ == before.sources@,
        result matches Ok(resolution) && resolution.source == name,
        after.metrics.local_hits == bumped(before.metrics.local_hits),
{
}

/// With a store in memory, the second request for an object is free: it is
/// answered locally, with the same content, and no source is asked.
pub proof fn lemma_second_request_is_free<S: Source, P: SpendPolicy>(
    before: Resolver<MemoryStore, S, P>,
    cid: Seq<char>,
    first: ResolutionView,
    between: Resolver<MemoryStore, S, P>,
    second: Result<ResolutionView, ResolveErrorView>,
    after: Resolver<MemoryStore, S, P>,
)
    requires
        resolves(before, cid, Ok(first), between),
        resolves(between, cid, second, after),
    ensures
        second matches Ok(resolution) && resolution.content == first.content && resolution.source
            == "memory"@,
        after.sources@ == between.sources@,
{
    let (answer, asked, name) = choose|
        answer: Result<Option<Seq<u8>>, StoreErrorView>,
        asked: MemoryStore,
        name: Seq<char>,
    | #[trigger]
        resolved_from(before, cid, answer, asked, name, Ok(first), between);
    if answer == Ok::<_, StoreErrorView>(None::<Seq<u8>>) {
        let told = choose|told: Seq<Told>| #[trigger]
            searched(before, cid, told, asked, Ok(first), between);
        assert(between.local@.content.contains_key(cid));
        assert(between.local@.content[cid] == first.content);
    } else {
        assert(between.local@.content[cid] == first.content);
    }
    assert(between.local@.read(cid) == Ok::<_, StoreErrorView>(Some(first.content)));
}

/// With no sources at all, only what is held locally is found.
pub proof fn lemma_without_sources<L: ObjectStore, S: Source, P: SpendPolicy>(
    before: Resolver<L, S, P>,
    cid: Seq<char>,
    answer: Result<Option<Seq<u8>>, StoreErrorView>,
    asked: L,
    name: Seq<char>,
    result: Result<ResolutionView, ResolveErrorView>,
    after: Resolver<L, S, P>,
)
    requires
        before.sources@.len() == 0,
        resolved_from(before, cid, answer, asked, name, result, after),
    ensures
        match answer {
            Ok(Some(content)) => result matches Ok(resolution) && resolution.content == content,
            Ok(None) => result == Err::<ResolutionView, _>(ResolveErrorView::NotFound { cid }),
            Err(error) => result == Err::<ResolutionView, _>(ResolveErrorView::Store(error)),
        },
{
}

/// What a turn was: a source served where its bytes hash to the name, lied where it
/// gave any others, and lacked the content where it gave none or failed. A source that
/// was skipped did none of these.
pub proof fn lemma_turns(cid: Seq<char>, content: Seq<u8>, error: ResolveErrorView)
    ensures
        ({
            let gave = Turn::Asked(Ok(Some(content)));
            let right = cid == "b3:"@ + cid::blake3_hex(content);
            &&& served(cid, gave) == right
            &&& lied(cid, gave) == !right
            &&& !lacked(gave)
        }),
        ({
            let gave = Turn::Asked(Ok(None));
            lacked(gave) && !served(cid, gave) && !lied(cid, gave)
        }),
        ({
            let failed = Turn::Asked(Err(error));
            lacked(failed) && !served(cid, failed) && !lied(cid, failed)
        }),
        !served(cid, Turn::Skipped) && !lied(cid, Turn::Skipped) && !lacked(Turn::Skipped),
{
}

/// `names` are the labels of the turns at `places`, strictly increasing; each of these
/// turns counts, and every turn that counts is among them.
pub open spec fn lists(
    told: Seq<Told>,
    counts: spec_fn(Turn) -> bool,
    names: Seq<Seq<char>>,
    places: Seq<int>,
) -> bool {
    &&& places.len() == names.len()
    &&& forall|k: int|
        0 <= k < places.len() ==> {
            &&& 0 <= #[trigger] places[k] < told.len()
            &&& counts(told[places[k]].turn)
            &&& names[k] == told[places[k]].label
        }
    &&& forall|j: int, k: int| 0 <= j < k < places.len() ==> places[j] < places[k]
    &&& forall|i: int|
        0 <= i < told.len() && counts((#[trigger] told[i]).turn) ==> places.contains(i)
}

proof fn lemma_list_grows(
    told: Seq<Told>,
    counts: spec_fn(Turn) -> bool,
    names: Seq<Seq<char>>,
    places: Seq<int>,
)
    requires
        told.len() > 0,
        lists(told.drop_last(), counts, names, places),
    ensures
        counts(told.last().turn) ==> lists(
            told,
            counts,
            names.push(told.last().label),
            places.push(told.len() - 1),
        ),
        !counts(told.last().turn) ==> lists(told, counts, names, places),
{
    let before = told.drop_last();
    let last = told.len() - 1;
    let more = places.push(last);
    assert forall|k: int| 0 <= k < places.len() implies {
        &&& 0 <= #[trigger] places[k] < told.len() - 1
        &&& counts(told[places[k]].turn)
        &&& names[k] == told[places[k]].label
    } by {
        assert(before[places[k]] == told[places[k]]);
    }
    assert forall|i: int| 0 <= i < last && counts((#[trigger] told[i]).turn) implies places.contains(
        i,
    ) && more.contains(i) by {
        assert(before[i] == told[i]);
        let k = choose|k: int| 0 <= k < places.len() && places[k] == i;
        assert(more[k] == i);
    }
    assert(more[places.len() as int] == last);
}

/// The sources that were rejected are, in order and each once for every time, exactly
/// those whose bytes hash to another name than the one asked for.
pub proof fn lemma_rejected_are_the_liars(cid: Seq<char>, told: Seq<Told>)
    ensures
        ({
            let counts = |turn: Turn|
                turn matches Turn::Asked(Ok(Some(content))) && cid != "b3:"@ + cid::blake3_hex(
                    content,
                );
            exists|places: Seq<int>| #[trigger]
                lists(told, counts, rejected_of(cid, told), places)
        }),
    decreases told.len(),
{
    let counts = |turn: Turn|
        turn matches Turn::Asked(Ok(Some(content))) && cid != "b3:"@ + cid::blake3_hex(content);
    if told.len() > 0 {
        let before = told.drop_last();
        lemma_rejected_are_the_liars(cid, before);
        let places = choose|places: Seq<int>| #[trigger]
            lists(before, counts, rejected_of(cid, before), places);
        lemma_list_grows(told, counts, rejected_of(cid, before), places);
        assert(lists(told, counts, rejected_of(cid, told), places) || lists(
            told,
            counts,
            rejected_of(cid, told),
            places.push(told.len() - 1),
        ));
    } else {
        assert(lists(told, counts, rejected_of(cid, told), Seq::empty()));
    }
}

/// The sources that missed are, in order and each once for every time, exactly those
/// that were asked and gave no bytes.
pub proof fn lemma_missed_are_those_without_bytes(told: Seq<Told>)
    ensures
        ({
            let counts = |turn: Turn| turn is Asked && !(turn matches Turn::Asked(Ok(Some(_))));
            exists|places: Seq<int>| #[trigger] lists(told, counts, missed_of(told), places)
        }),
    decreases told.len(),
{
    let counts = |turn: Turn| turn is Asked && !(turn matches Turn::Asked(Ok(Some(_))));
    if told.len() > 0 {
        let before = told.drop_last();
        lemma_missed_are_those_without_bytes(before);
        let places = choose|places: Seq<int>| #[trigger]
            lists(before, counts, missed_of(before), places);
        lemma_list_grows(told, counts, missed_of(before), places);
        assert(lists(told, counts, missed_of(told), places) || lists(
            told,
            counts,
            missed_of(told),
            places.push(told.len() - 1),
        ));
    } else {
        assert(lists(told, counts, missed_of(told), Seq::empty()));
    }
}

/// Hearing an answer adds the label of the source behind one of the two lists, that of
/// those that were rejected or that of those that missed, or to neither, and leaves
/// every earlier element where it was.
pub proof fn lemma_hearing_adds_one_label(
    search: (Seq<Seq<char>>, Seq<Seq<char>>),
    cid: Seq<char>,
    label: Seq<char>,
    answer: Result<Option<Seq<u8>>, ResolveErrorView>,
)
    ensures
        ({
            let after = searched_on(search, cid, Told { label, turn: Turn::Asked(answer) });
            match answer {
                Ok(Some(content)) => after.0 == search.0 && after.1 == if cid == "b3:"@
                    + cid::blake3_hex(content) {
                    search.1
                } else {
                    search.1 + seq![label]
                },
                _ => after.0 == search.0 + seq![label] && after.1 == search.1,
            }
        }),
        searched_on(search, cid, Told { label, turn: Turn::Skipped }) == search,
{
    assert(search.0.push(label) =~= search.0 + seq![label]);
    assert(search.1.push(label) =~= search.1 + seq![label]);
}

/// What a search has come to is its two lists.
pub proof fn lemma_search_is_its_lists(cid: Seq<char>, told: Seq<Told>, last: Told)
    ensures
        search_of(cid, told).0 == missed_of(told),
        search_of(cid, told).1 == rejected_of(cid, told),
        search_of(cid, told.push(last)) == searched_on(search_of(cid, told), cid, last),
{
    assert(told.push(last).drop_last() =~= told);
}

/// A counter goes up by one, and from its largest value to zero.
pub proof fn lemma_counters_wrap(counter: u64)
    ensures
        bumped(counter) == (counter + 1) % 0x1_0000_0000_0000_0000,
        no_metrics().local_hits == 0 && no_metrics().remote_hits == 0 && no_metrics().misses == 0
            && no_metrics().rejections == 0 && no_metrics().metered_skips == 0,
{
}

/// A turn that does not end the search moves one counter at most: the skips where the
/// source was skipped, the rejections where its bytes hash to another name.
pub proof fn lemma_turns_are_counted(metrics: Metrics, cid: Seq<char>, turn: Turn)
    ensures
        ({
            let after = counted(metrics, cid, turn);
            let liar = turn matches Turn::Asked(Ok(Some(content))) && cid != "b3:"@
                + cid::blake3_hex(content);
            &&& after.metered_skips == if turn is Skipped {
                (metrics.metered_skips + 1) % 0x1_0000_0000_0000_0000
            } else {
                metrics.metered_skips as int
            }
            &&& after.rejections == if liar {
                (metrics.rejections + 1) % 0x1_0000_0000_0000_0000
            } else {
                metrics.rejections as int
            }
            &&& after.local_hits == metrics.local_hits
            &&& after.remote_hits == metrics.remote_hits
            &&& after.misses == metrics.misses
        }),
{
}

/// The turns that were skips are counted one by one.
pub proof fn lemma_skips_add_up(told: Seq<Told>, last: Told)
    ensures
        skips_of(Seq::empty()) == 0,
        skips_of(told.push(last)) == skips_of(told) + if last.turn is Skipped {
            1int
        } else {
            0
        },
{
    assert(told.push(last).drop_last() =~= told);
}

/// What the local store answers decides: an error ends the resolution with it, a hit
/// ends it with the content, and a miss begins the search.
pub proof fn lemma_local_answers(
    name: Seq<char>,
    content: Seq<u8>,
    error: StoreErrorView,
    metrics: Metrics,
)
    ensures
        local_outcome(name, Err(error)) == Some(
            Err::<ResolutionView, _>(ResolveErrorView::Store(error)),
        ),
        local_outcome(name, Ok(Some(content))) matches Some(Ok(resolution)) && resolution.content
            == content && resolution.source == name && resolution.missed.len() == 0
            && resolution.rejected.len() == 0,
        local_outcome(name, Ok(None)) is None,
        local_counted(metrics, Err(error)) == metrics,
        local_counted(metrics, Ok(None)) == metrics,
        local_counted(metrics, Ok(Some(content))) == (Metrics {
            local_hits: ((metrics.local_hits + 1) % 0x1_0000_0000_0000_0000) as u64,
            ..metrics
        }),
{
}

/// What a search comes to: where the last source served, the content it gave, its
/// label, and the two lists; otherwise that nobody has the object. A search counts one
/// remote hit or one miss, beside what its turns count.
pub proof fn lemma_search_outcomes(metrics: Metrics, cid: Seq<char>, told: Seq<Told>, last: Told)
    ensures
        search_outcome(cid, Seq::empty()) == Err::<ResolutionView, _>(
            ResolveErrorView::NotFound { cid },
        ),
        search_outcome(cid, told.push(last)) == if last.turn matches Turn::Asked(Ok(Some(content)))
            && cid == "b3:"@ + cid::blake3_hex(content) {
            Ok(
                ResolutionView {
                    content: last.turn->Asked_0->Ok_0->Some_0,
                    source: last.label,
                    missed: missed_of(told),
                    rejected: rejected_of(cid, told),
                },
            )
        } else {
            Err(ResolveErrorView::NotFound { cid })
        },
        ({
            let turned = tallied(metrics, cid, told);
            let ended = search_counted(metrics, cid, told);
            let hit = search_outcome(cid, told) is Ok;
            &&& ended.remote_hits == if hit {
                (turned.remote_hits + 1) % 0x1_0000_0000_0000_0000
            } else {
                turned.remote_hits as int
            }
            &&& ended.misses == if hit {
                turned.misses as int
            } else {
                (turned.misses + 1) % 0x1_0000_0000_0000_0000
            }
            &&& ended.local_hits == turned.local_hits
            &&& ended.rejections == turned.rejections
            &&& ended.metered_skips == turned.metered_skips
        }),
        tallied(metrics, cid, Seq::empty()) == metrics,
        tallied(metrics, cid, told.push(last)) == counted(
            tallied(metrics, cid, told),
            cid,
            last.turn,
        ),
{
    assert(told.push(last).drop_last() =~= told);
}

/// A source is skipped only where it says that it is metered and spending is not
/// permitted, and then nothing happens to it; otherwise it is asked, and answers under
/// its own identifier.
pub proof fn lemma_turns_are_taken<S: Source, P: SpendPolicy>(
    before: S,
    policy: P,
    cid: Seq<char>,
    told: Told,
    after: S,
)
    requires
        took_turn(before, policy, cid, told, after),
    ensures
        match told.turn {
            Turn::Skipped => {
                &&& call_ensures(S::is_metered, (&before,), true)
                &&& policy.permits(false)
                &&& after == before
                &&& told.label.len() == 0
            },
            Turn::Asked(answer) => {
                &&& call_ensures(S::is_metered, (&before,), false) || (call_ensures(
                    S::is_metered,
                    (&before,),
                    true,
                ) && policy.permits(true))
                &&& S::fetches(before, cid, answer, after)
                &&& after.answers_to(told.label)
            },
        },
        AlwaysSpend.permits(true) && !AlwaysSpend.permits(false),
        NeverSpend.permits(false) && !NeverSpend.permits(true),
{
}

/// A search goes through the sources from the first on and ends with the first that
/// gives bytes that hash to the name; without one it goes through all of them. Each
/// source has one turn at most, those after the last turn none; and what was found is
/// put into the local store as a public build, while a search that found nothing leaves
/// it alone.
pub proof fn lemma_search_goes_through_the_sources<L: ObjectStore, S: Source, P: SpendPolicy>(
    before: Resolver<L, S, P>,
    cid: Seq<char>,
    told: Seq<Told>,
    missed: L,
    result: Result<ResolutionView, ResolveErrorView>,
    after: Resolver<L, S, P>,
)
    requires
        searched(before, cid, told, missed, result, after),
    ensures
        told.len() <= before.sources@.len() == after.sources@.len(),
        forall|i: int|
            0 <= i < told.len() ==> took_turn(
                before.sources@[i],
                before.policy,
                cid,
                #[trigger] told[i],
                after.sources@[i],
            ),
        forall|i: int|
            told.len() <= i < before.sources@.len() ==> #[trigger] after.sources@[i]
                == before.sources@[i],
        forall|i: int, content: Seq<u8>|
            0 <= i < told.len() && (#[trigger] told[i]).turn == Turn::Asked(Ok(Some(content)))
                && cid == #[trigger] ("b3:"@ + cid::blake3_hex(content)) ==> i == told.len() - 1
                && result is Ok,
        result is Err ==> told.len() == before.sources@.len(),
        result matches Ok(resolution) ==> {
            &&& told.len() > 0
            &&& told.last().turn == Turn::Asked(Ok(Some(resolution.content)))
            &&& cid == "b3:"@ + cid::blake3_hex(resolution.content)
            &&& resolution.source == told.last().label
            &&& resolution.missed == missed_of(told)
            &&& resolution.rejected == rejected_of(cid, told)
            &&& exists|answer: Result<Seq<char>, StoreErrorView>| #[trigger]
                L::puts(
                    missed,
                    resolution.content,
                    provenance::ProvenanceView {
                        origin: provenance::OriginView::Built,
                        trust: provenance::TrustState::Verified,
                        distribution: provenance::Distribution::Public,
                    },
                    answer,
                    after.local,
                )
        },
        result is Err ==> after.local == missed,
        after.metrics == search_counted(before.metrics, cid, told),
{
    assert forall|i: int, content: Seq<u8>|
        0 <= i < told.len() && (#[trigger] told[i]).turn == Turn::Asked(Ok(Some(content))) && cid
            == #[trigger] ("b3:"@ + cid::blake3_hex(content)) implies i == told.len() - 1
        && result is Ok by {
        assert(served(cid, told[i].turn));
        if i == told.len() - 1 {
            assert(told.last() == told[i]);
        }
    }
}

/// A resolution asks the local store first, and searches only where that missed; the
/// policy never changes.
pub proof fn lemma_local_first<L: ObjectStore, S: Source, P: SpendPolicy>(
    before: Resolver<L, S, P>,
    cid: Seq<char>,
    result: Result<ResolutionView, ResolveErrorView>,
    after: Resolver<L, S, P>,
) -> (witness: (Result<Option<Seq<u8>>, StoreErrorView>, L, Seq<char>, Seq<Told>))
    requires
        resolves(before, cid, result, after),
    ensures
        after.policy == before.policy,
        L::gets(before.local, cid, witness.0, witness.1),
        witness.1.answers_to(witness.2),
        match witness.0 {
            Err(error) => {
                &&& result == Err::<ResolutionView, _>(ResolveErrorView::Store(error))
                &&& after.local == witness.1
                &&& after.sources@ == before.sources@
                &&& after.metrics == before.metrics
            },
            Ok(Some(content)) => {
                &&& result matches Ok(resolution) && resolution.content == content
                    && resolution.source == witness.2 && resolution.missed.len() == 0
                    && resolution.rejected.len() == 0
                &&& after.local == witness.1
                &&& after.sources@ == before.sources@
                &&& after.metrics == (Metrics {
                    local_hits: ((before.metrics.local_hits + 1) % 0x1_0000_0000_0000_0000) as u64,
                    ..before.metrics
                })
            },
            Ok(None) => searched(before, cid, witness.3, witness.1, result, after),
        },
{
    let (answer, asked, name) = choose|
        answer: Result<Option<Seq<u8>>, StoreErrorView>,
        asked: L,
        name: Seq<char>,
    | #[trigger]
        resolved_from(before, cid, answer, asked, name, result, after);
    let told = choose|told: Seq<Told>| #[trigger]
        searched(before, cid, told, asked, result, after);
    (answer, asked, name, told)
}

/// A source that a store stands behind gives what the store gives; a corrupt entry is a
/// miss there, and any other failure makes the source unavailable, by its name and with
/// what the store said.
pub proof fn lemma_store_sources(
    name: Seq<char>,
    content: Seq<u8>,
    cid: Seq<char>,
    detail: Seq<char>,
    distribution: provenance::Distribution,
)
    ensures
        store_fetched(name, Ok(Some(content))) == Ok::<_, ResolveErrorView>(Some(content)),
        store_fetched(name, Ok(None)) == Ok::<_, ResolveErrorView>(None::<Seq<u8>>),
        store_fetched(name, Err(StoreErrorView::Integrity { cid, detail })) == Ok::<
            _,
            ResolveErrorView,
        >(None::<Seq<u8>>),
        store_fetched(name, Err(StoreErrorView::Unavailable(detail))) == Err::<Option<Seq<u8>>, _>(
            ResolveErrorView::SourceUnavailable {
                source_id: name,
                detail: "store unavailable: "@ + detail,
            },
        ),
        ({
            let refusal = StoreErrorView::DistributionRefused { cid, distribution };
            store_fetched(name, Err(refusal)) == Err::<Option<Seq<u8>>, _>(
                ResolveErrorView::SourceUnavailable { source_id: name, detail: refusal.message() },
            )
        }),
{
}

/// Fetching from such a source reads its store, and changes nothing else of it.
pub proof fn lemma_fetching_from_a_store<T: ObjectStore>(
    before: StoreSource<T>,
    cid: Seq<char>,
    answer: Result<Option<Seq<u8>>, ResolveErrorView>,
    after: StoreSource<T>,
)
    requires
        StoreSource::fetches(before, cid, answer, after),
    ensures
        exists|told: Result<Option<Seq<u8>>, StoreErrorView>| #[trigger]
            T::gets(before.spec_store(), cid, told, after.spec_store()) && answer == store_fetched(
                before.spec_name(),
                told,
            ),
        after.spec_name() == before.spec_name(),
        after.spec_metered() == before.spec_metered(),
        forall|label: Seq<char>| #[trigger]
            after.answers_to(label) <==> label == before.spec_name(),
{
    let told = choose|told: Result<Option<Seq<u8>>, StoreErrorView>| #[trigger]
        store_fetch(before, cid, told, answer, after);
    assert(T::gets(before.spec_store(), cid, told, after.spec_store()));
}

/// The model of an answer, of a resolution and of an error holds what they hold.
pub proof fn lemma_views(resolution: Resolution, index: int, content: Vec<u8>, error: ResolveError)
    ensures
        resolution@.content == resolution.content@,
        resolution@.source == resolution.source@,
        resolution@.missed.len() == resolution.missed@.len(),
        0 <= index < resolution.missed@.len() ==> resolution@.missed[index]
            == resolution.missed@[index]@,
        resolution@.rejected.len() == resolution.rejected@.len(),
        0 <= index < resolution.rejected@.len() ==> resolution@.rejected[index]
            == resolution.rejected@[index]@,
        resolution_view(Ok(resolution)) == Ok::<_, ResolveErrorView>(resolution@),
        resolution_view(Err(error)) == Err::<ResolutionView, _>(error@),
        outcome_view(Some(Ok(resolution))) == Some(Ok::<_, ResolveErrorView>(resolution@)),
        outcome_view(Some(Err(error))) == Some(Err::<ResolutionView, _>(error@)),
        outcome_view(None) is None,
        fetched_view(Ok(Some(content))) == Ok::<_, ResolveErrorView>(Some(content@)),
        fetched_view(Ok(None)) == Ok::<_, ResolveErrorView>(None::<Seq<u8>>),
        fetched_view(Err(error)) == Err::<Option<Seq<u8>>, _>(error@),
        match error {
            ResolveError::NotFound { cid } => error@ == (ResolveErrorView::NotFound { cid: cid@ }),
            ResolveError::SourceUnavailable { source_id, detail } => error@ == (
            ResolveErrorView::SourceUnavailable { source_id: source_id@, detail: detail@ }),
            ResolveError::Store(inner) => error@ == ResolveErrorView::Store(inner@),
        },
{
}

/// What is said of a resolution that failed.
pub proof fn lemma_error_messages(cid: Seq<char>, source_id: Seq<char>, detail: Seq<char>)
    ensures
        (ResolveErrorView::NotFound { cid }).message() == "no source has "@ + cid,
        (ResolveErrorView::SourceUnavailable { source_id, detail }).message() == "source `"@
            + source_id + "` is unavailable: "@ + detail,
        ResolveErrorView::Store(StoreErrorView::Unavailable(detail)).message() == "local store: "@
            + ("store unavailable: "@ + detail),
        ResolveErrorView::Store(StoreErrorView::Integrity { cid, detail }).message()
            == "local store: "@ + ("integrity failure for "@ + cid + ": "@ + detail),
{
}

} // verus!

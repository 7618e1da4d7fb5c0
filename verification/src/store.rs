//! The [`ObjectStore`] trait.
//!
//! Every implementation verifies content against its CID on read, not only on
//! write. A store that verifies on write alone is trusting the filesystem, the
//! disk, and every process that can reach the directory. A corrupt entry is
//! evicted and reported, so the caller rebuilds rather than proceeding with
//! plausible wrong bytes.

use vstd::prelude::*;
use vstd::string::*;

use crate::cid;
use crate::cid::Cid;
use crate::manifest;
use crate::manifest::{Manifest, ManifestView};
use crate::provenance;
use crate::provenance::{Distribution, Provenance, ProvenanceView, TrustState};

verus! {

/// Something went wrong reaching or reading the store.
#[derive(Debug)]
pub enum StoreError {
    /// The store could not be reached or read.
    Unavailable(String),
    /// Content did not hash to the CID it was stored under.
    ///
    /// The store evicts the entry before returning this, so the next read is a
    /// clean miss rather than a repeat failure. Callers must treat it as
    /// "rebuild or re-fetch", never as a statement about the caller's input.
    Integrity {
        /// The CID that was requested.
        cid: String,
        /// What was wrong.
        detail: String,
    },
    /// The caller asked to distribute something that must not be distributed.
    DistributionRefused {
        /// The CID.
        cid: String,
        /// Its distribution class.
        distribution: Distribution,
    },
}

/// Convenience alias.
pub type StoreResult<T> = Result<T, StoreError>;

/// A [`StoreError`] as a value of the model.
pub enum StoreErrorView {
    /// The store could not be reached or read.
    Unavailable(Seq<char>),
    /// Content did not hash to the CID it was stored under.
    Integrity {
        /// The CID that was requested.
        cid: Seq<char>,
        /// What was wrong.
        detail: Seq<char>,
    },
    /// The caller asked to distribute something that must not be distributed.
    DistributionRefused {
        /// The CID.
        cid: Seq<char>,
        /// Its distribution class.
        distribution: Distribution,
    },
}

impl View for StoreError {
    type V = StoreErrorView;

    open spec fn view(&self) -> StoreErrorView {
        match *self {
            StoreError::Unavailable(detail) => StoreErrorView::Unavailable(detail@),
            StoreError::Integrity { cid, detail } => StoreErrorView::Integrity {
                cid: cid@,
                detail: detail@,
            },
            StoreError::DistributionRefused {
                cid,
                distribution,
            } => StoreErrorView::DistributionRefused { cid: cid@, distribution },
        }
    }
}

impl StoreErrorView {
    /// The sentence a person reads.
    pub open spec fn message(self) -> Seq<char> {
        match self {
            StoreErrorView::Unavailable(detail) => "store unavailable: "@ + detail,
            StoreErrorView::Integrity { cid, detail } => "integrity failure for "@ + cid + ": "@
                + detail,
            StoreErrorView::DistributionRefused { cid, distribution } => "refusing to serve "@ + cid
                + ": it is marked "@ + provenance::distribution_name(distribution),
        }
    }
}

impl StoreError {
    /// The sentence a person reads.
    pub fn message(&self) -> (message: String)
        ensures
            message@ == self@.message(),
    {
        match self {
            StoreError::Unavailable(detail) => "store unavailable: ".to_owned().concat(
                detail.as_str(),
            ),
            StoreError::Integrity { cid, detail } => "integrity failure for ".to_owned().concat(
                cid.as_str(),
            ).concat(": ").concat(detail.as_str()),
            StoreError::DistributionRefused {
                cid,
                distribution,
            } => "refusing to serve ".to_owned().concat(cid.as_str()).concat(
                ": it is marked ",
            ).concat(distribution.name()),
        }
    }

    /// An integrity failure of one object.
    pub fn integrity(cid: &Cid, detail: String) -> (error: StoreError)
        ensures
            error@ == (StoreErrorView::Integrity { cid: cid@, detail: detail@ }),
    {
        StoreError::Integrity { cid: cid.as_str().to_owned(), detail }
    }
}

/// The text of a failure: what was being done, and what went wrong.
pub open spec fn failure(context: Seq<char>, error: Seq<char>) -> StoreErrorView {
    StoreErrorView::Unavailable(context + ": "@ + error)
}

/// The store could not be reached or read while doing something.
pub fn unavailable(context: &str, error: &str) -> (failed: StoreError)
    ensures
        failed@ == failure(context@, error@),
{
    StoreError::Unavailable(context.to_owned().concat(": ").concat(error))
}

/// A store answer that holds content, as a value of the model.
pub open spec fn content_view(result: StoreResult<Option<Vec<u8>>>) -> Result<
    Option<Seq<u8>>,
    StoreErrorView,
> {
    match result {
        Ok(Some(content)) => Ok(Some(content@)),
        Ok(None) => Ok(None),
        Err(error) => Err(error@),
    }
}

/// A store answer that holds metadata, as a value of the model.
pub open spec fn entry_view(result: StoreResult<Option<Entry>>) -> Result<
    Option<EntryView>,
    StoreErrorView,
> {
    match result {
        Ok(Some(entry)) => Ok(Some(entry@)),
        Ok(None) => Ok(None),
        Err(error) => Err(error@),
    }
}

/// A store answer that holds a value with a view, as a value of the model.
pub open spec fn answer_view<T: View>(result: StoreResult<T>) -> Result<T::V, StoreErrorView> {
    match result {
        Ok(value) => Ok(value@),
        Err(error) => Err(error@),
    }
}

/// An entry as stored.
#[derive(Debug, PartialEq, Eq)]
pub struct Entry {
    /// The manifest describing the object.
    pub manifest: Manifest,
    /// Where it came from and how far it may travel.
    pub provenance: Provenance,
}

/// An [`Entry`] as a value of the model.
pub struct EntryView {
    /// The manifest describing the object.
    pub manifest: ManifestView,
    /// Where it came from and how far it may travel.
    pub provenance: ProvenanceView,
}

impl View for Entry {
    type V = EntryView;

    open spec fn view(&self) -> EntryView {
        EntryView { manifest: self.manifest@, provenance: self.provenance@ }
    }
}

impl Clone for Entry {
    fn clone(&self) -> (copy: Self)
        ensures
            copy@ == self@,
    {
        Entry { manifest: self.manifest.clone(), provenance: self.provenance.clone() }
    }
}

/// The entry of some content.
pub open spec fn entry_of(content: Seq<u8>, provenance: ProvenanceView) -> EntryView {
    EntryView { manifest: manifest::built(content, None), provenance }
}

/// An entry after trusted capacity reproduced its object.
pub open spec fn promoted_entry(entry: EntryView) -> EntryView {
    EntryView {
        provenance: ProvenanceView {
            trust: provenance::promoted(entry.provenance.trust),
            ..entry.provenance
        },
        ..entry
    }
}

impl Entry {
    /// The entry of some content.
    pub fn of(content: &[u8], provenance: Provenance) -> (entry: Self)
        ensures
            entry@ == entry_of(content@, provenance@),
            entry@.manifest.cid == cid::cid_of(content@),
    {
        Entry { manifest: Manifest::build(content, None), provenance }
    }

    /// The entry after trusted capacity reproduced its object.
    pub fn promoted(self) -> (entry: Self)
        ensures
            entry@ == promoted_entry(self@),
    {
        Entry {
            manifest: self.manifest,
            provenance: Provenance {
                origin: self.provenance.origin,
                trust: self.provenance.trust.promote_after_reproduction(),
                distribution: self.provenance.distribution,
            },
        }
    }
}

/// The trust state of what operator-controlled capacity, or any other, produced.
pub open spec fn producer_trust(operator_controlled: bool) -> TrustState {
    if operator_controlled {
        TrustState::Verified
    } else {
        TrustState::Quarantined
    }
}

/// The trust state an object should be stored with, given who produced it.
pub fn trust_for_producer(operator_controlled: bool) -> (trust: TrustState)
    ensures
        trust == producer_trust(operator_controlled),
{
    if operator_controlled {
        TrustState::Verified
    } else {
        TrustState::Quarantined
    }
}

/// What bytes read under a CID come to: the bytes, if they are its content.
pub open spec fn checked_read(cid: Seq<char>, content: Seq<u8>) -> Result<
    Option<Seq<u8>>,
    StoreErrorView,
> {
    if cid::cid_of(content) == cid {
        Ok(Some(content))
    } else {
        Err(
            StoreErrorView::Integrity {
                cid,
                detail: "content hashes to "@ + cid::cid_of(content),
            },
        )
    }
}

/// Check bytes read under a CID.
pub fn check_read(cid: &Cid, content: Vec<u8>) -> (result: StoreResult<Option<Vec<u8>>>)
    ensures
        content_view(result) == checked_read(cid@, content@),
{
    let actual = Cid::of(content.as_slice());
    if !actual.same(cid) {
        return Err(
            StoreError::integrity(cid, "content hashes to ".to_owned().concat(actual.as_str())),
        );
    }
    Ok(Some(content))
}

/// What a trusted rebuild is worth: nothing wrong, if it produced the object.
pub open spec fn rebuild_fault(cid: Seq<char>, reproduced: Seq<u8>) -> Option<StoreErrorView> {
    if cid::cid_of(reproduced) == cid {
        None
    } else {
        Some(
            StoreErrorView::Integrity {
                cid,
                detail: "a trusted rebuild produced "@ + cid::cid_of(reproduced)
                    + "; the quarantined copy was destroyed"@,
            },
        )
    }
}

/// An optional error as a value of the model.
pub open spec fn fault_view(fault: Option<StoreError>) -> Option<StoreErrorView> {
    match fault {
        Some(error) => Some(error@),
        None => None,
    }
}

/// Check what a trusted rebuild produced. Where it is at fault, the copy that is
/// held has to be destroyed.
pub fn check_rebuild(cid: &Cid, reproduced: &[u8]) -> (fault: Option<StoreError>)
    ensures
        fault_view(fault) == rebuild_fault(cid@, reproduced@),
{
    let actual = Cid::of(reproduced);
    if actual.same(cid) {
        return None;
    }
    Some(
        StoreError::integrity(
            cid,
            "a trusted rebuild produced ".to_owned().concat(actual.as_str()).concat(
                "; the quarantined copy was destroyed",
            ),
        ),
    )
}

/// The end of a promotion that a rebuild spoke against, given whether the copy
/// could be removed.
pub open spec fn rebuild_refusal(removal: Result<(), StoreErrorView>, fault: StoreErrorView) -> StoreErrorView {
    match removal {
        Err(error) => error,
        Ok(()) => fault,
    }
}

/// The end of a promotion that a rebuild spoke against, given whether the copy
/// could be removed.
pub fn refuse_rebuild(removal: StoreResult<()>, fault: StoreError) -> (error: StoreError)
    ensures
        error@ == rebuild_refusal(answer_view(removal), fault@),
{
    match removal {
        Err(error) => error,
        Ok(()) => fault,
    }
}

/// The entry to write when an object is promoted, given the entry that is held:
/// one that is not held cannot be promoted.
pub open spec fn promotion(cid: Seq<char>, held: Result<Option<EntryView>, StoreErrorView>) -> Result<
    EntryView,
    StoreErrorView,
> {
    match held {
        Err(error) => Err(error),
        Ok(None) => Err(StoreErrorView::Unavailable(cid + " is not held here"@)),
        Ok(Some(entry)) => Ok(promoted_entry(entry)),
    }
}

/// The entry to write when an object is promoted, given the entry that is held.
pub fn promote_held(cid: &Cid, held: StoreResult<Option<Entry>>) -> (result: StoreResult<Entry>)
    ensures
        answer_view(result) == promotion(cid@, entry_view(held)),
{
    match held {
        Err(error) => Err(error),
        Ok(None) => Err(
            StoreError::Unavailable(cid.as_str().to_owned().concat(" is not held here")),
        ),
        Ok(Some(entry)) => Ok(entry.promoted()),
    }
}

/// What may be read of an object, seen from its metadata.
#[derive(Debug)]
pub enum Access {
    /// The content may be read.
    Open,
    /// The object reads as absent.
    Absent,
    /// The read fails.
    Refused(StoreError),
}

/// A [`Access`] as a value of the model.
pub enum AccessView {
    /// The content may be read.
    Open,
    /// The object reads as absent.
    Absent,
    /// The read fails.
    Refused(StoreErrorView),
}

impl View for Access {
    type V = AccessView;

    open spec fn view(&self) -> AccessView {
        match *self {
            Access::Open => AccessView::Open,
            Access::Absent => AccessView::Absent,
            Access::Refused(error) => AccessView::Refused(error@),
        }
    }
}

/// Whether an object may be served to an arbitrary peer.
pub open spec fn peer_access(cid: Seq<char>, held: Result<Option<EntryView>, StoreErrorView>) -> AccessView {
    match held {
        Err(error) => AccessView::Refused(error),
        Ok(None) => AccessView::Absent,
        Ok(Some(entry)) => if provenance::distributable(entry.provenance.distribution) {
            AccessView::Open
        } else {
            AccessView::Refused(
                StoreErrorView::DistributionRefused {
                    cid,
                    distribution: entry.provenance.distribution,
                },
            )
        },
    }
}

/// Whether an object may be used to decide a verdict.
pub open spec fn judging_access(held: Result<Option<EntryView>, StoreErrorView>) -> AccessView {
    match held {
        Err(error) => AccessView::Refused(error),
        Ok(None) => AccessView::Absent,
        Ok(Some(entry)) => if provenance::judgeable(entry.provenance.trust) {
            AccessView::Open
        } else {
            AccessView::Absent
        },
    }
}

impl Access {
    /// What an arbitrary peer may read.
    pub fn for_peer(cid: &Cid, held: StoreResult<Option<Entry>>) -> (access: Self)
        ensures
            access@ == peer_access(cid@, entry_view(held)),
    {
        match held {
            Err(error) => Access::Refused(error),
            Ok(None) => Access::Absent,
            Ok(Some(entry)) => {
                if !entry.provenance.may_share_with_peer() {
                    Access::Refused(
                        StoreError::DistributionRefused {
                            cid: cid.as_str().to_owned(),
                            distribution: entry.provenance.distribution,
                        },
                    )
                } else {
                    Access::Open
                }
            },
        }
    }

    /// What a judge may read.
    ///
    /// A quarantined object reads as **absent**, so a caller that forgets to
    /// check trust gets a miss and rebuilds rather than an unverified artifact.
    pub fn for_judging(held: StoreResult<Option<Entry>>) -> (access: Self)
        ensures
            access@ == judging_access(entry_view(held)),
    {
        match held {
            Err(error) => Access::Refused(error),
            Ok(None) => Access::Absent,
            Ok(Some(entry)) => {
                if !entry.provenance.may_decide_a_verdict() {
                    Access::Absent
                } else {
                    Access::Open
                }
            },
        }
    }
}

/// What the operations of a store may answer, and what they may do to it.
///
/// That differs from one store to the next: memory does not fail, a disk may.
/// Each store says so here, and the methods of [`ObjectStore`] keep to it. A store
/// that says nothing may answer, and do, anything.
pub trait StoreModel: Sized {
    /// What `id` may answer.
    open spec fn answers_to(&self, id: Seq<char>) -> bool {
        true
    }

    /// What `put` may do.
    open spec fn puts(
        before: Self,
        content: Seq<u8>,
        provenance: ProvenanceView,
        answer: Result<Seq<char>, StoreErrorView>,
        after: Self,
    ) -> bool {
        true
    }

    /// What `get` may do.
    open spec fn gets(
        before: Self,
        cid: Seq<char>,
        answer: Result<Option<Seq<u8>>, StoreErrorView>,
        after: Self,
    ) -> bool {
        true
    }

    /// What `head` may do.
    open spec fn heads(
        before: Self,
        cid: Seq<char>,
        answer: Result<Option<EntryView>, StoreErrorView>,
        after: Self,
    ) -> bool {
        true
    }

    /// What `contains` may do.
    open spec fn finds(
        before: Self,
        cid: Seq<char>,
        answer: Result<bool, StoreErrorView>,
        after: Self,
    ) -> bool {
        true
    }

    /// What `remove` may do.
    open spec fn removes(
        before: Self,
        cid: Seq<char>,
        answer: Result<(), StoreErrorView>,
        after: Self,
    ) -> bool {
        true
    }

    /// What `promote` may do.
    open spec fn promotes(
        before: Self,
        cid: Seq<char>,
        reproduced: Seq<u8>,
        answer: Result<(), StoreErrorView>,
        after: Self,
    ) -> bool {
        true
    }
}

/// A guarded read: the metadata is looked at first, and the content is read only
/// where the metadata allows it.
pub open spec fn guarded_read<S: StoreModel>(
    before: S,
    cid: Seq<char>,
    held: Result<Option<EntryView>, StoreErrorView>,
    access: AccessView,
    between: S,
    answer: Result<Option<Seq<u8>>, StoreErrorView>,
    after: S,
) -> bool {
    &&& S::heads(before, cid, held, between)
    &&& match access {
        AccessView::Refused(error) => answer == Err::<Option<Seq<u8>>, _>(error) && after == between,
        AccessView::Absent => answer == Ok::<_, StoreErrorView>(None::<Seq<u8>>) && after == between,
        AccessView::Open => S::gets(between, cid, answer, after),
    }
}

/// What a read for a peer may do.
pub open spec fn peer_read<S: StoreModel>(
    before: S,
    cid: Seq<char>,
    answer: Result<Option<Seq<u8>>, StoreErrorView>,
    after: S,
) -> bool {
    exists|held: Result<Option<EntryView>, StoreErrorView>, between: S| #[trigger]
        guarded_read(before, cid, held, peer_access(cid, held), between, answer, after)
}

/// What a read for a judge may do.
pub open spec fn judging_read<S: StoreModel>(
    before: S,
    cid: Seq<char>,
    answer: Result<Option<Seq<u8>>, StoreErrorView>,
    after: S,
) -> bool {
    exists|held: Result<Option<EntryView>, StoreErrorView>, between: S| #[trigger]
        guarded_read(before, cid, held, judging_access(held), between, answer, after)
}

/// A store of immutable, content-addressed objects.
pub trait ObjectStore: StoreModel + Send + Sync {
    /// Stable identifier, for diagnostics and metrics.
    fn id(&self) -> (id: &'static str)
        ensures
            self.answers_to(id@),
    ;

    /// Store `content`, returning its CID.
    ///
    /// The caller does not choose the key: it is the hash of the content, so a
    /// mislabelled entry cannot exist.
    fn put(&mut self, content: &[u8], provenance: Provenance) -> (result: StoreResult<Cid>)
        ensures
            Self::puts(
                *old(self),
                content@,
                provenance@,
                answer_view(result),
                *final(self),
            ),
    ;

    /// Read an object, verifying it against its CID.
    ///
    /// `Ok(None)` is a miss. `Err(Integrity)` means the entry was corrupt and
    /// has been evicted.
    fn get(&mut self, cid: &Cid) -> (result: StoreResult<Option<Vec<u8>>>)
        ensures
            Self::gets(*old(self), cid@, content_view(result), *final(self)),
            result matches Ok(Some(content)) ==> cid::cid_of(content@) == cid@,
    ;

    /// Read an object's metadata without reading its content.
    fn head(&mut self, cid: &Cid) -> (result: StoreResult<Option<Entry>>)
        ensures
            Self::heads(*old(self), cid@, entry_view(result), *final(self)),
    ;

    /// Whether an object is present. Does not read content, so it is not an
    /// integrity check.
    fn contains(&mut self, cid: &Cid) -> (result: StoreResult<bool>)
        ensures
            Self::finds(*old(self), cid@, answer_view(result), *final(self)),
    ;

    /// Remove an object. Used to evict corruption and to reclaim space.
    fn remove(&mut self, cid: &Cid) -> (result: StoreResult<()>)
        ensures
            Self::removes(*old(self), cid@, answer_view(result), *final(self)),
    ;

    /// Promote a quarantined object after trusted capacity reproduced it.
    ///
    /// `reproduced` must be the bytes trusted capacity produced. If they do not
    /// hash to `cid`, the quarantined copy is destroyed and the mismatch is
    /// reported: two builds of the same inputs disagreeing is a serious signal.
    fn promote(&mut self, cid: &Cid, reproduced: &[u8]) -> (result: StoreResult<()>)
        ensures
            Self::promotes(
                *old(self),
                cid@,
                reproduced@,
                answer_view(result),
                *final(self),
            ),
    ;

    /// Read an object that is safe to serve to an arbitrary peer.
    ///
    /// Refuses anything marked [`Distribution::TrustedOnly`]. Provided as a
    /// separate method so a caller serving peers cannot reach for `get` by
    /// habit and hand out hidden tests.
    fn get_for_peer(&mut self, cid: &Cid) -> (result: StoreResult<Option<Vec<u8>>>)
        ensures
            peer_read(*old(self), cid@, content_view(result), *final(self)),
            result matches Ok(Some(content)) ==> cid::cid_of(content@) == cid@,
    {
        let held = self.head(cid);
        let ghost seen = entry_view(held);
        let ghost between = *self;
        match Access::for_peer(cid, held) {
            Access::Refused(error) => {
                proof {
                    assert(guarded_read(
                        *old(self),
                        cid@,
                        seen,
                        peer_access(cid@, seen),
                        between,
                        Err(error@),
                        *self,
                    ));
                }
                Err(error)
            },
            Access::Absent => {
                proof {
                    assert(guarded_read(
                        *old(self),
                        cid@,
                        seen,
                        peer_access(cid@, seen),
                        between,
                        Ok(None),
                        *self,
                    ));
                }
                Ok(None)
            },
            Access::Open => {
                let result = self.get(cid);
                proof {
                    assert(guarded_read(
                        *old(self),
                        cid@,
                        seen,
                        peer_access(cid@, seen),
                        between,
                        content_view(result),
                        *self,
                    ));
                }
                result
            },
        }
    }

    /// Read an object that may be used to decide a verdict.
    ///
    /// A quarantined object reads as **absent**, so a caller that forgets to
    /// check trust gets a miss and rebuilds rather than an unverified artifact.
    fn get_for_judging(&mut self, cid: &Cid) -> (result: StoreResult<Option<Vec<u8>>>)
        ensures
            judging_read(*old(self), cid@, content_view(result), *final(self)),
            result matches Ok(Some(content)) ==> cid::cid_of(content@) == cid@,
    {
        let held = self.head(cid);
        let ghost seen = entry_view(held);
        let ghost between = *self;
        match Access::for_judging(held) {
            Access::Refused(error) => {
                proof {
                    assert(guarded_read(
                        *old(self),
                        cid@,
                        seen,
                        judging_access(seen),
                        between,
                        Err(error@),
                        *self,
                    ));
                }
                Err(error)
            },
            Access::Absent => {
                proof {
                    assert(guarded_read(
                        *old(self),
                        cid@,
                        seen,
                        judging_access(seen),
                        between,
                        Ok(None),
                        *self,
                    ));
                }
                Ok(None)
            },
            Access::Open => {
                let result = self.get(cid);
                proof {
                    assert(guarded_read(
                        *old(self),
                        cid@,
                        seen,
                        judging_access(seen),
                        between,
                        content_view(result),
                        *self,
                    ));
                }
                result
            },
        }
    }
}

/// Whatever the store, a peer is never handed content whose metadata says that
/// it must stay in trusted storage.
pub proof fn lemma_peers_get_only_distributable<S: StoreModel>(
    before: S,
    cid: Seq<char>,
    answer: Result<Option<Seq<u8>>, StoreErrorView>,
    after: S,
)
    requires
        peer_read(before, cid, answer, after),
        answer matches Ok(Some(_)),
    ensures
        exists|entry: EntryView, between: S| #[trigger]
            S::heads(before, cid, Ok(Some(entry)), between) && provenance::distributable(
                entry.provenance.distribution,
            ) && S::gets(between, cid, answer, after),
{
    let (held, between) = choose|held: Result<Option<EntryView>, StoreErrorView>, between: S| #[trigger]
        guarded_read(before, cid, held, peer_access(cid, held), between, answer, after);
    let entry = held->Ok_0->Some_0;
    assert(held == Ok::<_, StoreErrorView>(Some(entry)));
    assert(S::heads(before, cid, Ok(Some(entry)), between));
}

/// Whatever the store, a judge is never handed content whose metadata says that
/// it is quarantined.
pub proof fn lemma_judges_get_only_trusted<S: StoreModel>(
    before: S,
    cid: Seq<char>,
    answer: Result<Option<Seq<u8>>, StoreErrorView>,
    after: S,
)
    requires
        judging_read(before, cid, answer, after),
        answer matches Ok(Some(_)),
    ensures
        exists|entry: EntryView, between: S| #[trigger]
            S::heads(before, cid, Ok(Some(entry)), between) && provenance::judgeable(
                entry.provenance.trust,
            ) && S::gets(between, cid, answer, after),
{
    let (held, between) = choose|held: Result<Option<EntryView>, StoreErrorView>, between: S| #[trigger]
        guarded_read(before, cid, held, judging_access(held), between, answer, after);
    let entry = held->Ok_0->Some_0;
    assert(held == Ok::<_, StoreErrorView>(Some(entry)));
    assert(S::heads(before, cid, Ok(Some(entry)), between));
}

/// The model of an entry, and of an answer, holds what the entry or the answer holds.
pub proof fn lemma_views(entry: Entry, content: Vec<u8>, cid: Cid, error: StoreError)
    ensures
        entry@.manifest == entry.manifest@,
        entry@.provenance == entry.provenance@,
        entry_view(Ok(Some(entry))) == Ok::<_, StoreErrorView>(Some(entry@)),
        entry_view(Ok(None)) == Ok::<_, StoreErrorView>(None::<EntryView>),
        entry_view(Err(error)) == Err::<Option<EntryView>, _>(error@),
        content_view(Ok(Some(content))) == Ok::<_, StoreErrorView>(Some(content@)),
        content_view(Ok(None)) == Ok::<_, StoreErrorView>(None::<Seq<u8>>),
        content_view(Err(error)) == Err::<Option<Seq<u8>>, _>(error@),
        answer_view(Ok(cid)) == Ok::<_, StoreErrorView>(cid@),
        answer_view::<Cid>(Err(error)) == Err::<Seq<char>, _>(error@),
        fault_view(Some(error)) == Some(error@),
        fault_view(None) is None,
        Access::Open@ is Open,
        Access::Absent@ is Absent,
        Access::Refused(error)@ == AccessView::Refused(error@),
        match error {
            StoreError::Unavailable(detail) => error@ == StoreErrorView::Unavailable(detail@),
            StoreError::Integrity { cid, detail } => error@ == (StoreErrorView::Integrity {
                cid: cid@,
                detail: detail@,
            }),
            StoreError::DistributionRefused {
                cid,
                distribution,
            } => error@ == (StoreErrorView::DistributionRefused { cid: cid@, distribution }),
        },
{
}

/// What is said of a store that failed.
pub proof fn lemma_error_messages(
    context: Seq<char>,
    cid: Seq<char>,
    detail: Seq<char>,
    distribution: Distribution,
)
    ensures
        failure(context, detail) == StoreErrorView::Unavailable(context + ": "@ + detail),
        StoreErrorView::Unavailable(detail).message() == "store unavailable: "@ + detail,
        (StoreErrorView::Integrity { cid, detail }).message() == "integrity failure for "@ + cid
            + ": "@ + detail,
        (StoreErrorView::DistributionRefused { cid, distribution }).message()
            == "refusing to serve "@ + cid + ": it is marked "@ + (match distribution {
            Distribution::Public => "Public"@,
            Distribution::EncryptedAtRest => "EncryptedAtRest"@,
            Distribution::TrustedOnly => "TrustedOnly"@,
        }),
{
}

/// The entry of some content describes that content and carries the provenance it was
/// given, whatever that is.
pub proof fn lemma_entries_carry_their_provenance(content: Seq<u8>, provenance: ProvenanceView)
    requires
        content.len() <= u64::MAX,
    ensures
        entry_of(content, provenance).provenance == provenance,
        entry_of(content, provenance).manifest.cid == "b3:"@ + cid::blake3_hex(content),
        entry_of(content, provenance).manifest.size == content.len(),
        entry_of(content, provenance).manifest.media_type is None,
        entry_of(content, provenance).manifest == manifest::built(content, None),
{
}

/// Promoting an entry ends its quarantine and changes nothing else.
pub proof fn lemma_promotion_changes_only_trust(entry: EntryView)
    ensures
        promoted_entry(entry).manifest == entry.manifest,
        promoted_entry(entry).provenance.origin == entry.provenance.origin,
        promoted_entry(entry).provenance.distribution == entry.provenance.distribution,
        match entry.provenance.trust {
            TrustState::Quarantined => promoted_entry(entry).provenance.trust is Verified,
            TrustState::Verified => promoted_entry(entry).provenance.trust is Verified,
            TrustState::Hot => promoted_entry(entry).provenance.trust is Hot,
        },
{
}

/// What operator-controlled capacity produced is trusted; what any other produced is
/// quarantined.
pub proof fn lemma_producers()
    ensures
        producer_trust(true) is Verified,
        producer_trust(false) is Quarantined,
{
}

/// Bytes read under a name are given back exactly where the name is their hash;
/// otherwise the read fails and says what they hash to.
pub proof fn lemma_reads_are_checked(cid: Seq<char>, content: Seq<u8>)
    ensures
        checked_read(cid, content) == if cid == "b3:"@ + cid::blake3_hex(content) {
            Ok(Some(content))
        } else {
            Err(
                StoreErrorView::Integrity {
                    cid,
                    detail: "content hashes to "@ + ("b3:"@ + cid::blake3_hex(content)),
                },
            )
        },
{
}

/// A rebuild is at fault exactly where its hash is another than the name; the failure
/// to remove the copy that is held is reported before the fault.
pub proof fn lemma_rebuilds_are_checked(
    cid: Seq<char>,
    reproduced: Seq<u8>,
    error: StoreErrorView,
    fault: StoreErrorView,
)
    ensures
        rebuild_fault(cid, reproduced) == if cid == "b3:"@ + cid::blake3_hex(reproduced) {
            None
        } else {
            Some(
                StoreErrorView::Integrity {
                    cid,
                    detail: "a trusted rebuild produced "@ + ("b3:"@ + cid::blake3_hex(reproduced))
                        + "; the quarantined copy was destroyed"@,
                },
            )
        },
        rebuild_refusal(Err(error), fault) == error,
        rebuild_refusal(Ok(()), fault) == fault,
{
}

/// An entry that is held is promoted, one that is not cannot be, and a failure to
/// look at it stays that failure.
pub proof fn lemma_only_held_entries_are_promoted(
    cid: Seq<char>,
    entry: EntryView,
    error: StoreErrorView,
)
    ensures
        promotion(cid, Ok(Some(entry))) == Ok::<_, StoreErrorView>(promoted_entry(entry)),
        promotion(cid, Ok(None)) == Err::<EntryView, _>(
            StoreErrorView::Unavailable(cid + " is not held here"@),
        ),
        promotion(cid, Err(error)) == Err::<EntryView, _>(error),
{
}

/// Who may read what: a peer everything but what is confined to trusted storage, a
/// judge everything but what is quarantined. To a peer the refusal is an error, to a
/// judge the object is absent.
pub proof fn lemma_who_may_read(cid: Seq<char>, entry: EntryView, error: StoreErrorView)
    ensures
        match entry.provenance.distribution {
            Distribution::Public => peer_access(cid, Ok(Some(entry))) is Open,
            Distribution::EncryptedAtRest => peer_access(cid, Ok(Some(entry))) is Open,
            Distribution::TrustedOnly => peer_access(cid, Ok(Some(entry))) == AccessView::Refused(
                StoreErrorView::DistributionRefused {
                    cid,
                    distribution: Distribution::TrustedOnly,
                },
            ),
        },
        match entry.provenance.trust {
            TrustState::Quarantined => judging_access(Ok(Some(entry))) is Absent,
            TrustState::Verified => judging_access(Ok(Some(entry))) is Open,
            TrustState::Hot => judging_access(Ok(Some(entry))) is Open,
        },
        peer_access(cid, Ok(None)) is Absent,
        judging_access(Ok(None)) is Absent,
        peer_access(cid, Err(error)) == AccessView::Refused(error),
        judging_access(Err(error)) == AccessView::Refused(error),
{
}

/// Whatever the store, a read for a peer looks at the metadata first. Where that
/// fails the read fails, where there is none the object is absent, where the object is
/// confined to trusted storage it is refused, all without reading it; and in every
/// other case the answer is that of the store.
pub proof fn lemma_reading_for_a_peer<S: StoreModel>(
    before: S,
    cid: Seq<char>,
    answer: Result<Option<Seq<u8>>, StoreErrorView>,
    after: S,
)
    requires
        peer_read(before, cid, answer, after),
    ensures
        exists|held: Result<Option<EntryView>, StoreErrorView>, between: S| #[trigger]
            S::heads(before, cid, held, between) && match held {
                Err(error) => answer == Err::<Option<Seq<u8>>, _>(error) && after == between,
                Ok(None) => answer == Ok::<_, StoreErrorView>(None::<Seq<u8>>) && after == between,
                Ok(Some(entry)) => if entry.provenance.distribution is TrustedOnly {
                    answer == Err::<Option<Seq<u8>>, _>(
                        StoreErrorView::DistributionRefused {
                            cid,
                            distribution: Distribution::TrustedOnly,
                        },
                    ) && after == between
                } else {
                    S::gets(between, cid, answer, after)
                },
            },
{
    let (held, between) = choose|held: Result<Option<EntryView>, StoreErrorView>, between: S| #[trigger]
        guarded_read(before, cid, held, peer_access(cid, held), between, answer, after);
    assert(S::heads(before, cid, held, between));
}

/// Whatever the store, a read for a judge looks at the metadata first. Where that
/// fails the read fails, where there is none or the object is quarantined the object is
/// absent, all without reading it; and in every other case the answer is that of the
/// store.
pub proof fn lemma_reading_for_a_judge<S: StoreModel>(
    before: S,
    cid: Seq<char>,
    answer: Result<Option<Seq<u8>>, StoreErrorView>,
    after: S,
)
    requires
        judging_read(before, cid, answer, after),
    ensures
        exists|held: Result<Option<EntryView>, StoreErrorView>, between: S| #[trigger]
            S::heads(before, cid, held, between) && match held {
                Err(error) => answer == Err::<Option<Seq<u8>>, _>(error) && after == between,
                Ok(None) => answer == Ok::<_, StoreErrorView>(None::<Seq<u8>>) && after == between,
                Ok(Some(entry)) => if entry.provenance.trust is Quarantined {
                    answer == Ok::<_, StoreErrorView>(None::<Seq<u8>>) && after == between
                } else {
                    S::gets(between, cid, answer, after)
                },
            },
{
    let (held, between) = choose|held: Result<Option<EntryView>, StoreErrorView>, between: S| #[trigger]
        guarded_read(before, cid, held, judging_access(held), between, answer, after);
    assert(S::heads(before, cid, held, between));
}

} // verus!

//! An in-memory [`ObjectStore`].
//!
//! Used by tests and by `dev` runs with no disk. It verifies on read as every
//! other store does, which is what makes it legitimate for everything above this
//! layer to be tested against it.

use vstd::hash_map::StringHashMap;
use vstd::prelude::*;
use vstd::slice::slice_to_vec;
use vstd::string::*;

use crate::cid;
use crate::cid::Cid;
use crate::manifest;
use crate::provenance;
use crate::provenance::{Provenance, ProvenanceView};
use crate::store;
use crate::store::{Entry, EntryView, ObjectStore, StoreErrorView, StoreModel, StoreResult};

verus! {

/// An in-memory object store.
pub struct MemoryStore {
    content: StringHashMap<Vec<u8>>,
    entries: StringHashMap<Entry>,
}

/// What a [`MemoryStore`] holds, by CID.
#[verifier::ext_equal]
pub struct MemoryView {
    /// The bytes.
    pub content: Map<Seq<char>, Seq<u8>>,
    /// The metadata.
    pub entries: Map<Seq<char>, EntryView>,
}

impl View for MemoryStore {
    type V = MemoryView;

    closed spec fn view(&self) -> MemoryView {
        MemoryView {
            content: self.content@.map_values(|content: Vec<u8>| content@),
            entries: self.entries@.map_values(|entry: Entry| entry@),
        }
    }
}

impl MemoryView {
    /// An empty store.
    pub open spec fn empty() -> MemoryView {
        MemoryView { content: Map::empty(), entries: Map::empty() }
    }

    /// The store without one object.
    pub open spec fn without(self, cid: Seq<char>) -> MemoryView {
        MemoryView { content: self.content.remove(cid), entries: self.entries.remove(cid) }
    }

    /// The store with other bytes under a CID.
    pub open spec fn overwritten(self, cid: Seq<char>, replacement: Seq<u8>) -> MemoryView {
        MemoryView { content: self.content.insert(cid, replacement), ..self }
    }

    /// The store after a put.
    pub open spec fn with(self, content: Seq<u8>, provenance: ProvenanceView) -> MemoryView {
        MemoryView {
            content: self.content.insert(cid::cid_of(content), content),
            entries: self.entries.insert(
                cid::cid_of(content),
                store::entry_of(content, provenance),
            ),
        }
    }

    /// What a read answers.
    pub open spec fn read(self, cid: Seq<char>) -> Result<Option<Seq<u8>>, StoreErrorView> {
        if self.content.contains_key(cid) {
            store::checked_read(cid, self.content[cid])
        } else {
            Ok(None)
        }
    }

    /// The store after a read: a corrupt object is evicted.
    pub open spec fn after_read(self, cid: Seq<char>) -> MemoryView {
        if self.read(cid) is Err {
            self.without(cid)
        } else {
            self
        }
    }

    /// What a look at the metadata answers.
    pub open spec fn metadata(self, cid: Seq<char>) -> Option<EntryView> {
        if self.entries.contains_key(cid) {
            Some(self.entries[cid])
        } else {
            None
        }
    }

    /// What a promotion answers. What is not held cannot be promoted.
    pub open spec fn promotion(self, cid: Seq<char>, reproduced: Seq<u8>) -> Result<
        (),
        StoreErrorView,
    > {
        match store::rebuild_fault(cid, reproduced) {
            Some(error) => Err(error),
            None => match store::promotion(cid, Ok(self.metadata(cid))) {
                Err(error) => Err(error),
                Ok(_) => Ok(()),
            },
        }
    }

    /// The store after a promotion.
    pub open spec fn after_promotion(self, cid: Seq<char>, reproduced: Seq<u8>) -> MemoryView {
        if store::rebuild_fault(cid, reproduced) is Some {
            self.without(cid)
        } else if self.entries.contains_key(cid) {
            MemoryView {
                entries: self.entries.insert(cid, store::promoted_entry(self.entries[cid])),
                ..self
            }
        } else {
            self
        }
    }

    /// What a read for a peer answers.
    pub open spec fn read_for_peer(self, cid: Seq<char>) -> Result<
        Option<Seq<u8>>,
        StoreErrorView,
    > {
        match store::peer_access(cid, Ok(self.metadata(cid))) {
            store::AccessView::Refused(error) => Err(error),
            store::AccessView::Absent => Ok(None),
            store::AccessView::Open => self.read(cid),
        }
    }

    /// What a read for a judge answers.
    pub open spec fn read_for_judging(self, cid: Seq<char>) -> Result<
        Option<Seq<u8>>,
        StoreErrorView,
    > {
        match store::judging_access(Ok(self.metadata(cid))) {
            store::AccessView::Refused(error) => Err(error),
            store::AccessView::Absent => Ok(None),
            store::AccessView::Open => self.read(cid),
        }
    }

    /// Every entry belongs to an object that is held, names it, and is sound.
    pub open spec fn described(self) -> bool {
        forall|cid: Seq<char>| #[trigger]
            self.entries.contains_key(cid) ==> {
                &&& self.content.contains_key(cid)
                &&& self.entries[cid].manifest.cid == cid
                &&& manifest::validated(self.entries[cid].manifest) is Ok
            }
    }

    /// Everything held is the content of the name it is held under.
    pub open spec fn intact(self) -> bool {
        forall|cid: Seq<char>| #[trigger]
            self.content.contains_key(cid) ==> cid::cid_of(self.content[cid]) == cid
    }
}

impl StoreModel for MemoryStore {
    open spec fn answers_to(&self, id: Seq<char>) -> bool {
        id == "memory"@
    }

    open spec fn puts(
        before: Self,
        content: Seq<u8>,
        provenance: ProvenanceView,
        answer: Result<Seq<char>, StoreErrorView>,
        after: Self,
    ) -> bool {
        &&& answer == Ok::<_, StoreErrorView>(cid::cid_of(content))
        &&& after@ == before@.with(content, provenance)
    }

    open spec fn gets(
        before: Self,
        cid: Seq<char>,
        answer: Result<Option<Seq<u8>>, StoreErrorView>,
        after: Self,
    ) -> bool {
        &&& answer == before@.read(cid)
        &&& after@ == before@.after_read(cid)
    }

    open spec fn heads(
        before: Self,
        cid: Seq<char>,
        answer: Result<Option<EntryView>, StoreErrorView>,
        after: Self,
    ) -> bool {
        &&& answer == Ok::<_, StoreErrorView>(before@.metadata(cid))
        &&& after@ == before@
    }

    open spec fn finds(
        before: Self,
        cid: Seq<char>,
        answer: Result<bool, StoreErrorView>,
        after: Self,
    ) -> bool {
        &&& answer == Ok::<_, StoreErrorView>(before@.content.contains_key(cid))
        &&& after@ == before@
    }

    open spec fn removes(
        before: Self,
        cid: Seq<char>,
        answer: Result<(), StoreErrorView>,
        after: Self,
    ) -> bool {
        &&& answer == Ok::<_, StoreErrorView>(())
        &&& after@ == before@.without(cid)
    }

    open spec fn promotes(
        before: Self,
        cid: Seq<char>,
        reproduced: Seq<u8>,
        answer: Result<(), StoreErrorView>,
        after: Self,
    ) -> bool {
        &&& answer == before@.promotion(cid, reproduced)
        &&& after@ == before@.after_promotion(cid, reproduced)
    }
}

impl Default for MemoryStore {
    fn default() -> (store: Self)
        ensures
            store@ == MemoryView::empty(),
    {
        MemoryStore::new()
    }
}

impl MemoryStore {
    /// The store holds finitely many objects.
    #[verifier::type_invariant]
    closed spec fn countable(&self) -> bool {
        self.content@.dom().finite()
    }

    fn keep_content(&mut self, cid: &Cid, content: Vec<u8>)
        ensures
            final(self)@ == old(self)@.overwritten(cid@, content@),
    {
        proof {
            use_type_invariant(&*self);
        }
        let mut held: StringHashMap<Vec<u8>> = StringHashMap::new();
        std::mem::swap(&mut held, &mut self.content);
        held.insert(cid.as_str().to_owned(), content);
        self.content = held;
        assert(self@ =~= old(self)@.overwritten(cid@, content@));
    }

    fn drop_content(&mut self, cid: &Cid)
        ensures
            final(self)@ == (MemoryView {
                content: old(self)@.content.remove(cid@),
                entries: old(self)@.entries,
            }),
    {
        proof {
            use_type_invariant(&*self);
        }
        let mut held: StringHashMap<Vec<u8>> = StringHashMap::new();
        std::mem::swap(&mut held, &mut self.content);
        held.remove(cid.as_str());
        self.content = held;
        assert(self@.content =~= old(self)@.content.remove(cid@));
    }

    fn keep_entry(&mut self, cid: &Cid, entry: Entry)
        ensures
            final(self)@ == (MemoryView {
                content: old(self)@.content,
                entries: old(self)@.entries.insert(cid@, entry@),
            }),
    {
        proof {
            use_type_invariant(&*self);
        }
        let mut held: StringHashMap<Entry> = StringHashMap::new();
        std::mem::swap(&mut held, &mut self.entries);
        held.insert(cid.as_str().to_owned(), entry);
        self.entries = held;
        assert(self@.entries =~= old(self)@.entries.insert(cid@, entry@));
    }

    fn drop_entry(&mut self, cid: &Cid)
        ensures
            final(self)@ == (MemoryView {
                content: old(self)@.content,
                entries: old(self)@.entries.remove(cid@),
            }),
    {
        proof {
            use_type_invariant(&*self);
        }
        let mut held: StringHashMap<Entry> = StringHashMap::new();
        std::mem::swap(&mut held, &mut self.entries);
        held.remove(cid.as_str());
        self.entries = held;
        assert(self@.entries =~= old(self)@.entries.remove(cid@));
    }

    /// An empty store.
    pub fn new() -> (store: Self)
        ensures
            store@ == MemoryView::empty(),
    {
        let store = MemoryStore { content: StringHashMap::new(), entries: StringHashMap::new() };
        assert(store@ =~= MemoryView::empty());
        store
    }

    /// Number of objects held.
    pub fn len(&self) -> (count: usize)
        ensures
            self@.content.dom().finite(),
            count == self@.content.len(),
    {
        proof {
            use_type_invariant(self);
        }
        assert(self@.content.dom() =~= self.content@.dom());
        self.content.len()
    }

    /// Whether the store is empty.
    pub fn is_empty(&self) -> (empty: bool)
        ensures
            self@.content.dom().finite(),
            empty == (self@.content.len() == 0),
    {
        self.len() == 0
    }

    /// Corrupt an entry in place. Test helper: there is no other way to
    /// exercise the verify-on-read path, and that path is the point of the
    /// whole design.
    pub fn corrupt_for_test(&mut self, cid: &Cid, replacement: Vec<u8>)
        ensures
            final(self)@ == old(self)@.overwritten(cid@, replacement@),
    {
        self.keep_content(cid, replacement);
    }
}

impl ObjectStore for MemoryStore {
    fn id(&self) -> (id: &'static str) {
        "memory"
    }

    fn put(&mut self, content: &[u8], provenance: Provenance) -> (result: StoreResult<Cid>) {
        let entry = Entry::of(content, provenance);
        let cid = entry.manifest.cid.clone();
        self.keep_content(&cid, slice_to_vec(content));
        self.keep_entry(&cid, entry);
        assert(self@ =~= old(self)@.with(content@, provenance@));
        Ok(cid)
    }

    fn get(&mut self, cid: &Cid) -> (result: StoreResult<Option<Vec<u8>>>) {
        let content = match self.content.get(cid.as_str()) {
            Some(content) => content.clone(),
            None => return Ok(None),
        };
        assert(content@ =~= self@.content[cid@]);
        let result = store::check_read(cid, content);
        if result.is_err() {
            self.drop_content(cid);
            self.drop_entry(cid);
            assert(self@ =~= old(self)@.without(cid@));
        }
        result
    }

    fn head(&mut self, cid: &Cid) -> (result: StoreResult<Option<Entry>>) {
        match self.entries.get(cid.as_str()) {
            Some(entry) => Ok(Some(entry.clone())),
            None => Ok(None),
        }
    }

    fn contains(&mut self, cid: &Cid) -> (result: StoreResult<bool>) {
        Ok(self.content.contains_key(cid.as_str()))
    }

    fn remove(&mut self, cid: &Cid) -> (result: StoreResult<()>) {
        self.drop_content(cid);
        self.drop_entry(cid);
        assert(self@ =~= old(self)@.without(cid@));
        Ok(())
    }

    fn promote(&mut self, cid: &Cid, reproduced: &[u8]) -> (result: StoreResult<()>) {
        if let Some(error) = store::check_rebuild(cid, reproduced) {
            self.drop_content(cid);
            self.drop_entry(cid);
            assert(self@ =~= old(self)@.without(cid@));
            return Err(error);
        }
        let held = self.head(cid);
        let promoted = match store::promote_held(cid, held) {
            Ok(promoted) => promoted,
            Err(error) => return Err(error),
        };
        self.keep_entry(cid, promoted);
        assert(self@ =~= old(self)@.after_promotion(cid@, reproduced@));
        Ok(())
    }
}

/// What was put is read back, is found, and is described by the metadata it was
/// put with.
pub proof fn lemma_read_your_write(
    before: MemoryView,
    content: Seq<u8>,
    provenance: ProvenanceView,
)
    requires
        content.len() <= u64::MAX,
    ensures
        ({
            let after = before.with(content, provenance);
            let cid = cid::cid_of(content);
            &&& after.read(cid) == Ok::<_, StoreErrorView>(Some(content))
            &&& after.after_read(cid) == after
            &&& after.content.contains_key(cid)
            &&& after.metadata(cid) == Some(store::entry_of(content, provenance))
            &&& manifest::verified(store::entry_of(content, provenance).manifest, content) is Ok
        }),
{
    manifest::lemma_built_verifies(content, None);
}

/// Putting the same content again changes nothing: identical content is held once,
/// under one name.
pub proof fn lemma_put_is_idempotent(
    before: MemoryView,
    content: Seq<u8>,
    provenance: ProvenanceView,
)
    ensures
        before.with(content, provenance).with(content, provenance) == before.with(
            content,
            provenance,
        ),
        before.with(content, provenance).content.dom() == before.content.dom().insert(
            cid::cid_of(content),
        ),
{
    assert(before.with(content, provenance).with(content, provenance) =~= before.with(
        content,
        provenance,
    ));
    assert(before.with(content, provenance).content.dom() =~= before.content.dom().insert(
        cid::cid_of(content),
    ));
}

/// A put leaves every other object as it was.
pub proof fn lemma_put_keeps_others(
    before: MemoryView,
    content: Seq<u8>,
    provenance: ProvenanceView,
    other: Seq<char>,
)
    requires
        other != cid::cid_of(content),
    ensures
        before.with(content, provenance).read(other) == before.read(other),
        before.with(content, provenance).metadata(other) == before.metadata(other),
{
}

/// A put of an object that was not held raises the count by one; of one that was,
/// it leaves the count as it was. Removing an object that is held lowers the count
/// by one.
pub proof fn lemma_objects_are_counted(
    before: MemoryView,
    content: Seq<u8>,
    provenance: ProvenanceView,
    cid: Seq<char>,
)
    requires
        before.content.dom().finite(),
    ensures
        before.with(content, provenance).content.dom().finite(),
        before.with(content, provenance).content.len() == before.content.len() + if before.content.contains_key(
            cid::cid_of(content),
        ) {
            0int
        } else {
            1
        },
        before.without(cid).content.dom().finite(),
        before.without(cid).content.len() == before.content.len() - if before.content.contains_key(
            cid,
        ) {
            1int
        } else {
            0
        },
{
    assert(before.with(content, provenance).content.dom() =~= before.content.dom().insert(
        cid::cid_of(content),
    ));
    assert(before.without(cid).content.dom() =~= before.content.dom().remove(cid));
}

/// What was removed is gone, removing it again is no error and changes nothing,
/// and every other object stays.
pub proof fn lemma_removal(before: MemoryView, cid: Seq<char>, other: Seq<char>)
    ensures
        before.without(cid).read(cid) == Ok::<_, StoreErrorView>(None::<Seq<u8>>),
        before.without(cid).metadata(cid) is None,
        !before.without(cid).content.contains_key(cid),
        before.without(cid).without(cid) == before.without(cid),
        other != cid ==> before.without(cid).read(other) == before.read(other),
        other != cid ==> before.without(cid).metadata(other) == before.metadata(other),
{
    assert(before.without(cid).without(cid) =~= before.without(cid));
}

/// In every state, a read gives the content of the name it was asked for or no
/// content at all.
pub proof fn lemma_reads_are_verified(state: MemoryView, cid: Seq<char>)
    ensures
        state.read(cid) matches Ok(Some(content)) ==> cid::cid_of(content) == cid,
        state.read_for_peer(cid) matches Ok(Some(content)) ==> cid::cid_of(content) == cid,
        state.read_for_judging(cid) matches Ok(Some(content)) ==> cid::cid_of(content) == cid,
{
}

/// Bytes that are not the content of their name are never returned: the read
/// fails, and the object and its metadata are gone, so the next read is a miss.
pub proof fn lemma_corruption_is_detected_and_evicted(
    before: MemoryView,
    cid: Seq<char>,
    replacement: Seq<u8>,
)
    requires
        cid::cid_of(replacement) != cid,
    ensures
        ({
            let corrupt = before.overwritten(cid, replacement);
            &&& corrupt.read(cid) matches Err(StoreErrorView::Integrity { cid: named, .. }) && named
                == cid
            &&& corrupt.after_read(cid) == before.without(cid)
            &&& corrupt.after_read(cid).read(cid) == Ok::<_, StoreErrorView>(None::<Seq<u8>>)
            &&& corrupt.after_read(cid).metadata(cid) is None
            &&& !corrupt.after_read(cid).content.contains_key(cid)
        }),
{
    assert(before.overwritten(cid, replacement).without(cid) =~= before.without(cid));
}

/// A judge sees an object exactly where its metadata says that it is trusted; a
/// quarantined one reads as absent, though it is still held.
pub proof fn lemma_judges_see_only_trusted(
    before: MemoryView,
    content: Seq<u8>,
    provenance: ProvenanceView,
)
    ensures
        ({
            let after = before.with(content, provenance);
            let cid = cid::cid_of(content);
            &&& after.read(cid) == Ok::<_, StoreErrorView>(Some(content))
            &&& after.read_for_judging(cid) == Ok::<_, StoreErrorView>(
                if provenance::judgeable(provenance.trust) {
                    Some(content)
                } else {
                    None
                },
            )
        }),
{
}

/// A peer is served an object exactly where its metadata says that it may travel.
pub proof fn lemma_peers_see_only_distributable(
    before: MemoryView,
    content: Seq<u8>,
    provenance: ProvenanceView,
)
    ensures
        before.with(content, provenance).read_for_peer(cid::cid_of(content)) == (
        if provenance::distributable(provenance.distribution) {
            Ok(Some(content))
        } else {
            Err(
                StoreErrorView::DistributionRefused {
                    cid: cid::cid_of(content),
                    distribution: provenance.distribution,
                },
            )
        }),
{
}

/// A matching rebuild makes an object that is held usable for judging, whoever
/// produced it, and changes neither its bytes nor how far it may travel.
pub proof fn lemma_promotion_lifts_quarantine(
    before: MemoryView,
    content: Seq<u8>,
    provenance: ProvenanceView,
)
    ensures
        ({
            let held = before.with(content, provenance);
            let cid = cid::cid_of(content);
            let after = held.after_promotion(cid, content);
            &&& held.promotion(cid, content) is Ok
            &&& after.read_for_judging(cid) == Ok::<_, StoreErrorView>(Some(content))
            &&& after.read_for_peer(cid) == held.read_for_peer(cid)
            &&& after.content == held.content
        }),
{
}

/// What is known of an object changes only where it is put or promoted: whatever
/// else happens, its metadata stays as it is or goes away with it.
pub proof fn lemma_trust_changes_only_by_put_and_promotion(
    state: MemoryView,
    cid: Seq<char>,
    other: Seq<char>,
    bytes: Seq<u8>,
    provenance: ProvenanceView,
)
    ensures
        state.without(other).metadata(cid) matches Some(entry) ==> state.metadata(cid) == Some(
            entry,
        ),
        state.after_read(other).metadata(cid) matches Some(entry) ==> state.metadata(cid) == Some(
            entry,
        ),
        state.overwritten(other, bytes).metadata(cid) == state.metadata(cid),
        cid::cid_of(bytes) != cid ==> state.with(bytes, provenance).metadata(cid)
            == state.metadata(cid),
        cid::cid_of(bytes) != cid ==> (state.after_promotion(other, bytes).metadata(cid) matches Some(
            entry,
        ) ==> state.metadata(cid) == Some(entry)),
{
}

/// What is not held cannot be promoted: a matching rebuild of it is answered as on
/// every other store, and changes nothing.
pub proof fn lemma_absent_objects_are_not_promoted(before: MemoryView, reproduced: Seq<u8>)
    requires
        before.metadata(cid::cid_of(reproduced)) is None,
    ensures
        before.promotion(cid::cid_of(reproduced), reproduced) == Err::<(), _>(
            StoreErrorView::Unavailable(cid::cid_of(reproduced) + " is not held here"@),
        ),
        before.after_promotion(cid::cid_of(reproduced), reproduced) == before,
{
}

/// A rebuild that disagrees is reported and destroys the copy that is held.
pub proof fn lemma_mismatched_rebuild_destroys(
    before: MemoryView,
    cid: Seq<char>,
    reproduced: Seq<u8>,
)
    requires
        cid::cid_of(reproduced) != cid,
    ensures
        before.promotion(cid, reproduced) matches Err(StoreErrorView::Integrity { .. }),
        before.after_promotion(cid, reproduced) == before.without(cid),
        !before.after_promotion(cid, reproduced).content.contains_key(cid),
{
}

/// In a store that starts empty, every entry belongs to an object that is held
/// and describes it, whatever operations follow.
pub proof fn lemma_entries_stay_described(
    state: MemoryView,
    cid: Seq<char>,
    bytes: Seq<u8>,
    provenance: ProvenanceView,
)
    requires
        state.described(),
        bytes.len() <= u64::MAX,
    ensures
        MemoryView::empty().described(),
        state.with(bytes, provenance).described(),
        state.without(cid).described(),
        state.after_read(cid).described(),
        state.after_promotion(cid, bytes).described(),
        state.overwritten(cid, bytes).described(),
{
    manifest::lemma_built_verifies(bytes, None);
}

/// A store that nothing but its operations has written to holds only what its
/// names promise, so its reads never fail.
pub proof fn lemma_operations_keep_intact(
    state: MemoryView,
    cid: Seq<char>,
    bytes: Seq<u8>,
    provenance: ProvenanceView,
)
    requires
        state.intact(),
    ensures
        MemoryView::empty().intact(),
        state.with(bytes, provenance).intact(),
        state.without(cid).intact(),
        state.after_read(cid) == state,
        state.after_promotion(cid, bytes).intact(),
        state.read(cid) is Ok,
{
}

/// What reading for a peer comes to in memory.
pub proof fn lemma_peer_read_in_memory(
    before: MemoryStore,
    cid: Seq<char>,
    answer: Result<Option<Seq<u8>>, StoreErrorView>,
    after: MemoryStore,
)
    requires
        store::peer_read(before, cid, answer, after),
    ensures
        answer == before@.read_for_peer(cid),
        after@ == if store::peer_access(cid, Ok(before@.metadata(cid))) is Open {
            before@.after_read(cid)
        } else {
            before@
        },
{
}

/// What reading for a judge comes to in memory.
pub proof fn lemma_judging_read_in_memory(
    before: MemoryStore,
    cid: Seq<char>,
    answer: Result<Option<Seq<u8>>, StoreErrorView>,
    after: MemoryStore,
)
    requires
        store::judging_read(before, cid, answer, after),
    ensures
        answer == before@.read_for_judging(cid),
        after@ == if store::judging_access(Ok(before@.metadata(cid))) is Open {
            before@.after_read(cid)
        } else {
            before@
        },
{
}

/// In every state, a look at the metadata gives the entry that is held under the name,
/// as it is held, and a read the bytes that are held under it, if the name is their
/// hash. Bytes that are not are reported, and they and their entry are dropped; a read
/// that does not fail changes nothing.
pub proof fn lemma_answers_are_what_is_held(state: MemoryView, cid: Seq<char>)
    ensures
        !state.entries.contains_key(cid) ==> state.metadata(cid) is None,
        state.entries.contains_key(cid) ==> state.metadata(cid) == Some(state.entries[cid]),
        !state.content.contains_key(cid) ==> state.read(cid) == Ok::<_, StoreErrorView>(
            None::<Seq<u8>>,
        ) && state.after_read(cid) == state,
        state.content.contains_key(cid) && cid == "b3:"@ + cid::blake3_hex(state.content[cid])
            ==> state.read(cid) == Ok::<_, StoreErrorView>(Some(state.content[cid]))
            && state.after_read(cid) == state,
        state.content.contains_key(cid) && cid != "b3:"@ + cid::blake3_hex(state.content[cid]) ==> {
            &&& state.read(cid) == Err::<Option<Seq<u8>>, _>(
                StoreErrorView::Integrity {
                    cid,
                    detail: "content hashes to "@ + ("b3:"@ + cid::blake3_hex(state.content[cid])),
                },
            )
            &&& state.after_read(cid).content == state.content.remove(cid)
            &&& state.after_read(cid).entries == state.entries.remove(cid)
        },
{
}

/// In every state, a peer is given what a read gives, unless the entry confines the
/// object to trusted storage, and a judge unless the entry says that it is
/// quarantined. Without an entry there is nothing to give.
pub proof fn lemma_guarded_answers(state: MemoryView, cid: Seq<char>)
    ensures
        !state.entries.contains_key(cid) ==> state.read_for_peer(cid) == Ok::<_, StoreErrorView>(
            None::<Seq<u8>>,
        ) && state.read_for_judging(cid) == Ok::<_, StoreErrorView>(None::<Seq<u8>>),
        state.entries.contains_key(cid) ==> {
            let provenance = state.entries[cid].provenance;
            &&& match provenance.distribution {
                provenance::Distribution::Public => state.read_for_peer(cid) == state.read(cid),
                provenance::Distribution::EncryptedAtRest => state.read_for_peer(cid) == state.read(
                    cid,
                ),
                provenance::Distribution::TrustedOnly => state.read_for_peer(cid) == Err::<
                    Option<Seq<u8>>,
                    _,
                >(
                    StoreErrorView::DistributionRefused {
                        cid,
                        distribution: provenance::Distribution::TrustedOnly,
                    },
                ),
            }
            &&& match provenance.trust {
                provenance::TrustState::Quarantined => state.read_for_judging(cid) == Ok::<
                    _,
                    StoreErrorView,
                >(None::<Seq<u8>>),
                provenance::TrustState::Verified => state.read_for_judging(cid) == state.read(cid),
                provenance::TrustState::Hot => state.read_for_judging(cid) == state.read(cid),
            }
        },
{
}

/// A put always succeeds: it answers with the hash of the content, holds all of the
/// content under it, with an entry of exactly the provenance that was given, and leaves
/// everything else as it was.
pub proof fn lemma_put_in_memory(
    before: MemoryStore,
    content: Seq<u8>,
    provenance: ProvenanceView,
    answer: Result<Seq<char>, StoreErrorView>,
    after: MemoryStore,
)
    requires
        MemoryStore::puts(before, content, provenance, answer, after),
    ensures
        ({
            let cid = "b3:"@ + cid::blake3_hex(content);
            &&& answer == Ok::<_, StoreErrorView>(cid)
            &&& after@.content == before@.content.insert(cid, content)
            &&& after@.entries.contains_key(cid)
            &&& after@.entries[cid].provenance == provenance
            &&& after@.entries[cid].manifest == manifest::built(content, None)
            &&& after@.entries.remove(cid) == before@.entries.remove(cid)
        }),
{
    let cid = "b3:"@ + cid::blake3_hex(content);
    assert(after@.entries.remove(cid) =~= before@.entries.remove(cid));
}

/// A read, a look at the metadata and a search for an object answer from what is held,
/// and never fail otherwise; of these only a read that finds corruption changes
/// anything.
pub proof fn lemma_reads_in_memory(
    before: MemoryStore,
    cid: Seq<char>,
    content: Result<Option<Seq<u8>>, StoreErrorView>,
    entry: Result<Option<EntryView>, StoreErrorView>,
    found: Result<bool, StoreErrorView>,
    after: MemoryStore,
)
    ensures
        MemoryStore::gets(before, cid, content, after) ==> content == before@.read(cid) && after@
            == before@.after_read(cid),
        MemoryStore::heads(before, cid, entry, after) ==> after@ == before@ && entry == Ok::<
            _,
            StoreErrorView,
        >(
            if before@.entries.contains_key(cid) {
                Some(before@.entries[cid])
            } else {
                None
            },
        ),
        MemoryStore::finds(before, cid, found, after) ==> after@ == before@ && found == Ok::<
            _,
            StoreErrorView,
        >(before@.content.contains_key(cid)),
        before.answers_to("memory"@),
        forall|id: Seq<char>| #[trigger] before.answers_to(id) ==> id == "memory"@,
{
}

/// A removal always succeeds, drops the bytes and the entry of the object, and leaves
/// everything else as it was.
pub proof fn lemma_removal_in_memory(
    before: MemoryStore,
    cid: Seq<char>,
    answer: Result<(), StoreErrorView>,
    after: MemoryStore,
)
    requires
        MemoryStore::removes(before, cid, answer, after),
    ensures
        answer is Ok,
        after@.content == before@.content.remove(cid),
        after@.entries == before@.entries.remove(cid),
{
}

/// A promotion with a rebuild that hashes to the name rewrites the trust in the entry
/// that is held, and nothing else, or answers that nothing is held; one with any other
/// rebuild drops the object and reports it.
pub proof fn lemma_promotion_in_memory(
    before: MemoryStore,
    cid: Seq<char>,
    reproduced: Seq<u8>,
    answer: Result<(), StoreErrorView>,
    after: MemoryStore,
)
    requires
        MemoryStore::promotes(before, cid, reproduced, answer, after),
    ensures
        cid != "b3:"@ + cid::blake3_hex(reproduced) ==> {
            &&& answer == Err::<(), _>(
                StoreErrorView::Integrity {
                    cid,
                    detail: "a trusted rebuild produced "@ + ("b3:"@ + cid::blake3_hex(reproduced))
                        + "; the quarantined copy was destroyed"@,
                },
            )
            &&& after@.content == before@.content.remove(cid)
            &&& after@.entries == before@.entries.remove(cid)
        },
        cid == "b3:"@ + cid::blake3_hex(reproduced) && !before@.entries.contains_key(cid) ==> {
            &&& answer == Err::<(), _>(StoreErrorView::Unavailable(cid + " is not held here"@))
            &&& after@ == before@
        },
        cid == "b3:"@ + cid::blake3_hex(reproduced) && before@.entries.contains_key(cid) ==> {
            let (old_entry, new_entry) = (before@.entries[cid], after@.entries[cid]);
            &&& answer is Ok
            &&& after@.content == before@.content
            &&& after@.entries == before@.entries.insert(cid, new_entry)
            &&& new_entry.manifest == old_entry.manifest
            &&& new_entry.provenance.origin == old_entry.provenance.origin
            &&& new_entry.provenance.distribution == old_entry.provenance.distribution
            &&& new_entry.provenance.trust == if old_entry.provenance.trust is Hot {
                provenance::TrustState::Hot
            } else {
                provenance::TrustState::Verified
            }
        },
{
}

/// What the helpers of the model do to the bytes and to the entries.
pub proof fn lemma_states(
    state: MemoryView,
    cid: Seq<char>,
    bytes: Seq<u8>,
    provenance: ProvenanceView,
)
    ensures
        MemoryView::empty().content == Map::<Seq<char>, Seq<u8>>::empty(),
        MemoryView::empty().entries == Map::<Seq<char>, EntryView>::empty(),
        state.overwritten(cid, bytes).content == state.content.insert(cid, bytes),
        state.overwritten(cid, bytes).entries == state.entries,
        state.without(cid).content == state.content.remove(cid),
        state.without(cid).entries == state.entries.remove(cid),
        state.with(bytes, provenance).content == state.content.insert(
            "b3:"@ + cid::blake3_hex(bytes),
            bytes,
        ),
        state.with(bytes, provenance).entries == state.entries.insert(
            "b3:"@ + cid::blake3_hex(bytes),
            EntryView { manifest: manifest::built(bytes, None), provenance },
        ),
{
}

} // verus!

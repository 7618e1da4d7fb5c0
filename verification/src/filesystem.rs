//! A filesystem object store.
//!
//! The store a worker or a seed actually runs. Objects are sharded two levels
//! deep by digest, so no directory ever holds millions of entries, and content
//! is written to a temporary file and renamed, so a crash mid-write cannot leave
//! a truncated object under a valid-looking name.
//!
//! This module holds what the store decides: where the parts of an object are
//! kept, in which steps they are written, and what each answer of the disk comes
//! to. Reaching the disk is left to the caller.

use vstd::prelude::*;
use vstd::string::*;

use crate::cid;
use crate::cid::Cid;
use crate::layout;
use crate::provenance;
use crate::provenance::Provenance;
use crate::store;
use crate::store::{Entry, EntryView, StoreError, StoreErrorView, StoreResult};

verus! {

/// A filesystem-backed object store under a root.
///
/// The root is whatever the caller names directories by.
#[derive(Debug)]
pub struct FilesystemStore<P> {
    root: P,
}

impl<P: Clone> Clone for FilesystemStore<P> {
    fn clone(&self) -> (copy: Self)
        ensures
            cloned(self.spec_root(), copy.spec_root()),
    {
        FilesystemStore { root: self.root.clone() }
    }
}

/// What reading a file came to.
#[derive(Debug)]
pub enum Reading<T> {
    /// The file was read.
    Found(T),
    /// There is no such file.
    Missing,
    /// The file could not be read. Holds the text of the error.
    Failed(String),
}

/// The two parts of an object.
#[derive(Debug, Clone, Copy, PartialEq, Eq, Structural)]
pub enum Part {
    /// The bytes.
    Object,
    /// The metadata.
    Entry,
}

/// The directory that a part is kept under.
pub open spec fn part_kind(part: Part) -> Seq<char> {
    match part {
        Part::Object => "objects"@,
        Part::Entry => "entries"@,
    }
}

/// What follows the digest in the name of a part.
pub open spec fn part_suffix(part: Part) -> Seq<char> {
    match part {
        Part::Object => ""@,
        Part::Entry => ".json"@,
    }
}

/// The path of a part below the root.
pub open spec fn part_path(part: Part, cid: Seq<char>) -> Seq<char> {
    layout::place(part_kind(part), cid, part_suffix(part))
}

/// The path below the root that a part is written to before it is complete.
pub open spec fn partial_path(part: Part, cid: Seq<char>) -> Seq<char> {
    layout::place(part_kind(part), cid, ".partial"@)
}

/// A write that either takes place or does not. All paths are below the root.
#[derive(Debug)]
pub struct AtomicWrite {
    /// The directory that has to exist.
    pub directory: String,
    /// The file that the bytes are written to.
    pub temporary: String,
    /// The file that it is then renamed to.
    pub target: String,
}

/// The steps of an [`AtomicWrite`], in order.
#[derive(Debug, Clone, Copy, PartialEq, Eq, Structural)]
pub enum WriteStep {
    /// Make the directory.
    CreateDirectory,
    /// Write the bytes to the temporary file.
    WriteTemporary,
    /// Rename the temporary file to the target.
    Rename,
}

/// What a step does, for messages.
pub open spec fn step_context(step: WriteStep) -> Seq<char> {
    match step {
        WriteStep::CreateDirectory => "creating a shard directory"@,
        WriteStep::WriteTemporary => "writing an object"@,
        WriteStep::Rename => "renaming an object into place"@,
    }
}

/// The step after a step that succeeded, or `None` where the write is complete.
pub open spec fn next_step(step: WriteStep) -> Option<WriteStep> {
    match step {
        WriteStep::CreateDirectory => Some(WriteStep::WriteTemporary),
        WriteStep::WriteTemporary => Some(WriteStep::Rename),
        WriteStep::Rename => None,
    }
}

/// What a step came to: the next one, or the failure that ends the write.
pub open spec fn stepped(step: WriteStep, outcome: Result<(), String>) -> Result<
    Option<WriteStep>,
    StoreErrorView,
> {
    match outcome {
        Ok(()) => Ok(next_step(step)),
        Err(error) => Err(store::failure(step_context(step), error@)),
    }
}

impl WriteStep {
    /// The first step.
    pub fn first() -> (step: Self)
        ensures
            step == WriteStep::CreateDirectory,
    {
        WriteStep::CreateDirectory
    }

    /// What the step came to: the next one, or the failure that ends the write.
    pub fn after(self, outcome: Result<(), String>) -> (result: StoreResult<Option<WriteStep>>)
        ensures
            store::answer_view(result) == stepped(self, outcome),
    {
        if let Err(error) = outcome {
            let context = match self {
                WriteStep::CreateDirectory => "creating a shard directory",
                WriteStep::WriteTemporary => "writing an object",
                WriteStep::Rename => "renaming an object into place",
            };
            return Err(store::unavailable(context, error.as_str()));
        }
        Ok(
            match self {
                WriteStep::CreateDirectory => Some(WriteStep::WriteTemporary),
                WriteStep::WriteTemporary => Some(WriteStep::Rename),
                WriteStep::Rename => None,
            },
        )
    }
}

/// What a read comes to.
pub open spec fn object_read(cid: Seq<char>, reading: Reading<Vec<u8>>) -> Result<
    Option<Seq<u8>>,
    StoreErrorView,
> {
    match reading {
        Reading::Found(content) => store::checked_read(cid, content@),
        Reading::Missing => Ok(None),
        Reading::Failed(error) => Err(store::failure("reading an object"@, error@)),
    }
}

/// What a look at the metadata comes to, given the decoded metadata.
pub open spec fn entry_read(cid: Seq<char>, reading: Reading<Result<Entry, String>>) -> Result<
    Option<EntryView>,
    StoreErrorView,
> {
    match reading {
        Reading::Found(Ok(entry)) => Ok(Some(entry@)),
        Reading::Found(Err(error)) => Err(
            StoreErrorView::Integrity { cid, detail: "entry metadata is corrupt: "@ + error@ },
        ),
        Reading::Missing => Ok(None),
        Reading::Failed(error) => Err(store::failure("reading entry metadata"@, error@)),
    }
}

/// The write of metadata, or why it could not be encoded.
pub type EntryWrite = Result<StoreResult<()>, String>;

/// What writing metadata comes to.
pub open spec fn entry_written(entry: EntryWrite) -> Result<(), StoreErrorView> {
    match entry {
        Err(error) => Err(store::failure("encoding an entry"@, error@)),
        Ok(written) => store::answer_view(written),
    }
}

/// The end of a read: what it answers, and whether the object has to be removed
/// first.
#[derive(Debug)]
pub struct ReadEnd {
    /// Whether both parts of the object have to be removed before the answer is
    /// given, so the next read is a clean miss rather than a repeat of the same
    /// failure. Whether that succeeds does not change the answer.
    pub evict: bool,
    /// The answer.
    pub result: StoreResult<Option<Vec<u8>>>,
}

/// The end of a look at the metadata: what it answers, and whether the object has
/// to be removed first.
#[derive(Debug)]
pub struct HeadEnd {
    /// Whether both parts of the object have to be removed before the answer is
    /// given. Whether that succeeds does not change the answer.
    pub evict: bool,
    /// The answer.
    pub result: StoreResult<Option<Entry>>,
}

impl<P> FilesystemStore<P> {
    /// The root.
    pub closed spec fn spec_root(&self) -> P {
        self.root
    }

    /// Open, given whether the root could be made.
    pub fn open(root: P, created: Result<(), String>) -> (result: StoreResult<Self>)
        ensures
            match created {
                Ok(()) => result matches Ok(store) && store.spec_root() == root,
                Err(text) => result matches Err(error) && error@ == store::failure(
                    "creating the store root"@,
                    text@,
                ),
            },
    {
        match created {
            Ok(()) => Ok(FilesystemStore { root }),
            Err(error) => Err(store::unavailable("creating the store root", error.as_str())),
        }
    }

    /// The store root.
    pub fn root(&self) -> (root: &P)
        ensures
            *root == self.spec_root(),
    {
        &self.root
    }

    /// Stable identifier, for diagnostics and metrics.
    pub fn id(&self) -> (id: &'static str)
        ensures
            id@ == "filesystem"@,
    {
        "filesystem"
    }

    /// The path of an object, below the root.
    pub fn object_path(&self, cid: &Cid) -> (path: String)
        ensures
            path@ == part_path(Part::Object, cid@),
    {
        layout::place_of("objects", cid, "")
    }

    /// The path of an object's metadata, below the root.
    pub fn entry_path(&self, cid: &Cid) -> (path: String)
        ensures
            path@ == part_path(Part::Entry, cid@),
    {
        layout::place_of("entries", cid, ".json")
    }

    /// Plan how one part of an object is written.
    ///
    /// Write then rename. A crash between the two leaves a `.partial` file that no
    /// reader looks for, rather than a truncated object under a name that promises
    /// different content.
    pub fn write_atomically(&self, part: Part, cid: &Cid) -> (write: AtomicWrite)
        ensures
            write.directory@ == layout::directory(part_kind(part), cid@),
            write.temporary@ == partial_path(part, cid@),
            write.target@ == part_path(part, cid@),
    {
        let kind = match part {
            Part::Object => "objects",
            Part::Entry => "entries",
        };
        let target = match part {
            Part::Object => self.object_path(cid),
            Part::Entry => self.entry_path(cid),
        };
        AtomicWrite {
            directory: layout::directory_of(kind, cid),
            temporary: layout::place_of(kind, cid, ".partial"),
            target,
        }
    }

    /// Plan a put: the metadata of the object, whose name it holds. The object is
    /// written first, then the metadata.
    pub fn plan_put(&self, content: &[u8], provenance: Provenance) -> (entry: Entry)
        ensures
            entry@ == store::entry_of(content@, provenance@),
            entry@.manifest.cid == cid::cid_of(content@),
    {
        Entry::of(content, provenance)
    }

    /// End a put, given the write of the object and, where that took place, the
    /// write of the metadata.
    pub fn end_put(&self, cid: Cid, object: StoreResult<EntryWrite>) -> (result: StoreResult<Cid>)
        ensures
            store::answer_view(result) == match object {
                Err(error) => Err(error@),
                Ok(entry) => match entry_written(entry) {
                    Err(error) => Err(error),
                    Ok(()) => Ok(cid@),
                },
            },
    {
        let entry = match object {
            Err(error) => return Err(error),
            Ok(entry) => entry,
        };
        match self.end_promote(entry) {
            Err(error) => Err(error),
            Ok(()) => Ok(cid),
        }
    }

    /// End a promotion, given the write of the metadata.
    pub fn end_promote(&self, entry: EntryWrite) -> (result: StoreResult<()>)
        ensures
            store::answer_view(result) == entry_written(entry),
    {
        match entry {
            Err(error) => Err(store::unavailable("encoding an entry", error.as_str())),
            Ok(written) => written,
        }
    }

    /// End a read. Verified on every read, not only on write: verifying on write
    /// alone would mean trusting the disk and every process that can reach it.
    pub fn end_get(&self, cid: &Cid, reading: Reading<Vec<u8>>) -> (end: ReadEnd)
        ensures
            store::content_view(end.result) == object_read(cid@, reading),
            end.evict == (reading matches Reading::Found(content) && cid::cid_of(content@) != cid@),
            reading matches Reading::Found(content) ==> (cid@ == "b3:"@ + cid::blake3_hex(content@)
                ==> (end.result matches Ok(Some(given)) && given@ == content@)),
    {
        match reading {
            Reading::Found(content) => {
                let result = store::check_read(cid, content);
                ReadEnd { evict: result.is_err(), result }
            },
            Reading::Missing => ReadEnd { evict: false, result: Ok(None) },
            Reading::Failed(error) => ReadEnd {
                evict: false,
                result: Err(store::unavailable("reading an object", error.as_str())),
            },
        }
    }

    /// End a look at the metadata, given the decoded metadata. Metadata that cannot
    /// be decoded is removed with the object and reported.
    pub fn end_head(&self, cid: &Cid, reading: Reading<Result<Entry, String>>) -> (end: HeadEnd)
        ensures
            store::entry_view(end.result) == entry_read(cid@, reading),
            reading matches Reading::Found(Ok(entry)) ==> (end.result matches Ok(Some(given)) && given@
                == entry@),
            end.evict == (reading matches Reading::Found(Err(_))),
    {
        match reading {
            Reading::Found(Ok(entry)) => HeadEnd { evict: false, result: Ok(Some(entry)) },
            Reading::Found(Err(error)) => HeadEnd {
                evict: true,
                result: Err(
                    StoreError::integrity(
                        cid,
                        "entry metadata is corrupt: ".to_owned().concat(error.as_str()),
                    ),
                ),
            },
            Reading::Missing => HeadEnd { evict: false, result: Ok(None) },
            Reading::Failed(error) => HeadEnd {
                evict: false,
                result: Err(store::unavailable("reading entry metadata", error.as_str())),
            },
        }
    }

    /// End looking for an object, given whether its file exists.
    pub fn end_contains(&self, file: Result<bool, String>) -> (result: StoreResult<bool>)
        ensures
            store::answer_view(result) == match file {
                Ok(found) => Ok(found),
                Err(error) => Err(store::failure("checking for an object"@, error@)),
            },
    {
        match file {
            Ok(found) => Ok(found),
            Err(error) => Err(store::unavailable("checking for an object", error.as_str())),
        }
    }
}

/// How far a write has got.
pub enum Progress {
    /// No byte has been written.
    NotStarted,
    /// The temporary file holds these bytes, perhaps not all.
    Writing(Seq<u8>),
    /// The temporary file has been renamed to the target.
    Renamed,
}

/// The files of a disk, by path below the root, once a write of `bytes` has got
/// so far.
pub open spec fn disk_during(
    disk: Map<Seq<char>, Seq<u8>>,
    part: Part,
    cid: Seq<char>,
    bytes: Seq<u8>,
    progress: Progress,
) -> Map<Seq<char>, Seq<u8>> {
    match progress {
        Progress::NotStarted => disk,
        Progress::Writing(written) => disk.insert(partial_path(part, cid), written),
        Progress::Renamed => disk.remove(partial_path(part, cid)).insert(
            part_path(part, cid),
            bytes,
        ),
    }
}

proof fn lemma_part_names()
    ensures
        "objects"@.len() == 7,
        "entries"@.len() == 7,
        "objects"@ != "entries"@,
        ".partial"@ != ""@,
        ".partial"@ != ".json"@,
{
    reveal_strlit("objects");
    reveal_strlit("entries");
    reveal_strlit(".partial");
    reveal_strlit(".json");
    reveal_strlit("");
    assert("objects"@[0] == 'o' && "entries"@[0] == 'e');
    assert(".partial"@.len() == 8 && ".json"@.len() == 5 && ""@.len() == 0);
}

/// No two parts of objects share a path, and no reader looks at the path that a
/// part is written to before it is complete.
pub proof fn lemma_paths_are_distinct(
    part: Part,
    cid: Seq<char>,
    other_part: Part,
    other_cid: Seq<char>,
)
    requires
        cid::is_cid(cid),
        cid::is_cid(other_cid),
    ensures
        part_path(part, cid) == part_path(other_part, other_cid) ==> part == other_part && cid
            == other_cid,
        part_path(part, cid) != partial_path(other_part, other_cid),
{
    lemma_part_names();
    if part_path(part, cid) == part_path(other_part, other_cid) {
        layout::lemma_places_are_distinct(
            part_kind(part),
            cid,
            part_suffix(part),
            part_kind(other_part),
            other_cid,
            part_suffix(other_part),
        );
    }
    if part_path(part, cid) == partial_path(other_part, other_cid) {
        layout::lemma_places_are_distinct(
            part_kind(part),
            cid,
            part_suffix(part),
            part_kind(other_part),
            other_cid,
            ".partial"@,
        );
    }
}

/// A crash never leaves a truncated part under a name that a reader looks at:
/// however far a write has got, every path that is read holds what it held
/// before, or, once the write is complete, the part that was written holds all of
/// its bytes.
pub proof fn lemma_writes_are_atomic(
    disk: Map<Seq<char>, Seq<u8>>,
    part: Part,
    cid: Seq<char>,
    bytes: Seq<u8>,
    progress: Progress,
    read_part: Part,
    read_cid: Seq<char>,
)
    requires
        cid::is_cid(cid),
        cid::is_cid(read_cid),
    ensures
        ({
            let after = disk_during(disk, part, cid, bytes, progress);
            let path = part_path(read_part, read_cid);
            if progress is Renamed && read_part == part && read_cid == cid {
                after.contains_key(path) && after[path] == bytes
            } else {
                &&& after.contains_key(path) == disk.contains_key(path)
                &&& disk.contains_key(path) ==> after[path] == disk[path]
            }
        }),
        progress is Renamed ==> !disk_during(disk, part, cid, bytes, progress).contains_key(
            partial_path(part, cid),
        ),
{
    lemma_paths_are_distinct(read_part, read_cid, part, cid);
    lemma_paths_are_distinct(part, cid, part, cid);
}

/// The files of a disk after a put whose every step succeeded: the object, then
/// its metadata, `encoded`.
pub open spec fn disk_after_put(
    disk: Map<Seq<char>, Seq<u8>>,
    content: Seq<u8>,
    encoded: Seq<u8>,
) -> Map<Seq<char>, Seq<u8>> {
    let cid = cid::cid_of(content);
    disk_during(
        disk_during(disk, Part::Object, cid, content, Progress::Renamed),
        Part::Entry,
        cid,
        encoded,
        Progress::Renamed,
    )
}

/// The files of a disk after an object was removed.
pub open spec fn disk_without(disk: Map<Seq<char>, Seq<u8>>, cid: Seq<char>) -> Map<
    Seq<char>,
    Seq<u8>,
> {
    disk.remove(part_path(Part::Object, cid)).remove(part_path(Part::Entry, cid))
}

/// What was put is there to be read, object and metadata, and reading the object
/// gives the content back. The parts of every other object are as they were.
pub proof fn lemma_read_your_write(
    disk: Map<Seq<char>, Seq<u8>>,
    content: Seq<u8>,
    encoded: Seq<u8>,
    read: Vec<u8>,
    other_part: Part,
    other_cid: Seq<char>,
)
    requires
        cid::is_cid(cid::cid_of(content)),
        cid::is_cid(other_cid),
        other_cid != cid::cid_of(content),
    ensures
        ({
            let cid = cid::cid_of(content);
            let after = disk_after_put(disk, content, encoded);
            let object = part_path(Part::Object, cid);
            let entry = part_path(Part::Entry, cid);
            let other = part_path(other_part, other_cid);
            &&& after.contains_key(object) && after[object] == content
            &&& after.contains_key(entry) && after[entry] == encoded
            &&& read@ == after[object] ==> object_read(cid, Reading::Found(read)) == Ok::<
                _,
                StoreErrorView,
            >(Some(content))
            &&& after.contains_key(other) == disk.contains_key(other)
            &&& disk.contains_key(other) ==> after[other] == disk[other]
        }),
{
    let cid = cid::cid_of(content);
    let between = disk_during(disk, Part::Object, cid, content, Progress::Renamed);
    let renamed = Progress::Renamed;
    lemma_writes_are_atomic(disk, Part::Object, cid, content, renamed, Part::Object, cid);
    lemma_writes_are_atomic(disk, Part::Object, cid, content, renamed, other_part, other_cid);
    lemma_writes_are_atomic(between, Part::Entry, cid, encoded, renamed, Part::Object, cid);
    lemma_writes_are_atomic(between, Part::Entry, cid, encoded, renamed, Part::Entry, cid);
    lemma_writes_are_atomic(between, Part::Entry, cid, encoded, renamed, other_part, other_cid);
}

/// A file that does not hold what its name promises is reported, and once both
/// parts of the object are removed the next read is a miss. The parts of every
/// other object are as they were.
pub proof fn lemma_corruption_is_detected_and_evicted(
    disk: Map<Seq<char>, Seq<u8>>,
    cid: Seq<char>,
    read: Vec<u8>,
    other_part: Part,
    other_cid: Seq<char>,
)
    requires
        cid::is_cid(cid),
        cid::is_cid(other_cid),
        other_cid != cid,
        cid::cid_of(read@) != cid,
    ensures
        object_read(cid, Reading::Found(read)) matches Err(StoreErrorView::Integrity { .. }),
        ({
            let after = disk_without(disk, cid);
            let other = part_path(other_part, other_cid);
            &&& !after.contains_key(part_path(Part::Object, cid))
            &&& !after.contains_key(part_path(Part::Entry, cid))
            &&& after.contains_key(other) == disk.contains_key(other)
            &&& disk.contains_key(other) ==> after[other] == disk[other]
        }),
        object_read(cid, Reading::Missing) == Ok::<_, StoreErrorView>(None::<Seq<u8>>),
{
    lemma_paths_are_distinct(other_part, other_cid, Part::Object, cid);
    lemma_paths_are_distinct(other_part, other_cid, Part::Entry, cid);
}

/// Metadata that cannot be decoded is reported, and once both parts of the object
/// are removed the next look at it is a miss.
pub proof fn lemma_corrupt_metadata_is_evicted(
    disk: Map<Seq<char>, Seq<u8>>,
    cid: Seq<char>,
    error: String,
)
    ensures
        entry_read(cid, Reading::Found(Err(error))) matches Err(StoreErrorView::Integrity { .. }),
        !disk_without(disk, cid).contains_key(part_path(Part::Entry, cid)),
        entry_read(cid, Reading::Missing) == Ok::<_, StoreErrorView>(None::<EntryView>),
{
}

/// What a promotion answers, given what reading the metadata came to, where every
/// write and every removal succeeds.
pub open spec fn promotion_answer(
    cid: Seq<char>,
    reproduced: Seq<u8>,
    reading: Reading<Result<Entry, String>>,
) -> Result<(), StoreErrorView> {
    match store::rebuild_fault(cid, reproduced) {
        Some(fault) => Err(store::rebuild_refusal(Ok(()), fault)),
        None => match store::promotion(cid, entry_read(cid, reading)) {
            Err(error) => Err(error),
            Ok(_) => Ok(()),
        },
    }
}

/// The files of a disk after a promotion, where metadata is written as `encode` says
/// and every write and every removal succeeds.
pub open spec fn disk_after_promotion(
    disk: Map<Seq<char>, Seq<u8>>,
    cid: Seq<char>,
    reproduced: Seq<u8>,
    reading: Reading<Result<Entry, String>>,
    encode: spec_fn(EntryView) -> Seq<u8>,
) -> Map<Seq<char>, Seq<u8>> {
    if store::rebuild_fault(cid, reproduced) is Some || reading matches Reading::Found(Err(_)) {
        disk_without(disk, cid)
    } else {
        match store::promotion(cid, entry_read(cid, reading)) {
            Ok(entry) => disk_during(disk, Part::Entry, cid, encode(entry), Progress::Renamed),
            Err(_) => disk,
        }
    }
}

/// A matching rebuild rewrites the metadata of the object, with its trust promoted
/// and nothing else changed, and leaves every other part as it was, the object's
/// bytes among them.
pub proof fn lemma_promotion_rewrites_only_the_entry(
    disk: Map<Seq<char>, Seq<u8>>,
    reproduced: Seq<u8>,
    entry: Entry,
    encode: spec_fn(EntryView) -> Seq<u8>,
    other_part: Part,
    other_cid: Seq<char>,
)
    requires
        cid::is_cid(cid::cid_of(reproduced)),
        cid::is_cid(other_cid),
        other_part != Part::Entry || other_cid != cid::cid_of(reproduced),
    ensures
        ({
            let cid = cid::cid_of(reproduced);
            let reading = Reading::Found(Ok(entry));
            let after = disk_after_promotion(disk, cid, reproduced, reading, encode);
            let written = part_path(Part::Entry, cid);
            let other = part_path(other_part, other_cid);
            &&& promotion_answer(cid, reproduced, reading) is Ok
            &&& after.contains_key(written) && after[written] == encode(
                store::promoted_entry(entry@),
            )
            &&& store::promoted_entry(entry@).manifest == entry@.manifest
            &&& provenance::judgeable(store::promoted_entry(entry@).provenance.trust)
            &&& after.contains_key(other) == disk.contains_key(other)
            &&& disk.contains_key(other) ==> after[other] == disk[other]
        }),
{
    let cid = cid::cid_of(reproduced);
    let bytes = encode(store::promoted_entry(entry@));
    let renamed = Progress::Renamed;
    lemma_writes_are_atomic(disk, Part::Entry, cid, bytes, renamed, Part::Entry, cid);
    lemma_writes_are_atomic(disk, Part::Entry, cid, bytes, renamed, other_part, other_cid);
}

/// A rebuild that disagrees is reported, whatever the metadata says, and destroys
/// the copy that is held.
pub proof fn lemma_mismatched_rebuild_destroys(
    disk: Map<Seq<char>, Seq<u8>>,
    cid: Seq<char>,
    reproduced: Seq<u8>,
    reading: Reading<Result<Entry, String>>,
    encode: spec_fn(EntryView) -> Seq<u8>,
)
    requires
        cid::cid_of(reproduced) != cid,
    ensures
        promotion_answer(cid, reproduced, reading) matches Err(StoreErrorView::Integrity { .. }),
        disk_after_promotion(disk, cid, reproduced, reading, encode) == disk_without(disk, cid),
{
}

/// What is not held cannot be promoted: a matching rebuild of it is answered as on
/// every other store, and leaves the disk as it was.
pub proof fn lemma_absent_objects_are_not_promoted(
    disk: Map<Seq<char>, Seq<u8>>,
    reproduced: Seq<u8>,
    encode: spec_fn(EntryView) -> Seq<u8>,
)
    ensures
        ({
            let cid = cid::cid_of(reproduced);
            &&& promotion_answer(cid, reproduced, Reading::Missing) == Err::<(), _>(
                StoreErrorView::Unavailable(cid + " is not held here"@),
            )
            &&& disk_after_promotion(disk, cid, reproduced, Reading::Missing, encode) == disk
        }),
{
}

/// Whatever the disk holds, a read answers with the content of the name it was
/// asked for or with no content at all.
pub proof fn lemma_reads_are_verified(cid: Seq<char>, reading: Reading<Vec<u8>>)
    ensures
        object_read(cid, reading) matches Ok(Some(content)) ==> cid::cid_of(content) == cid,
        object_read(cid, reading) == Ok::<_, StoreErrorView>(None::<Seq<u8>>) <==> reading
            is Missing,
{
}

/// What a write comes to, given what each of its steps comes to.
pub open spec fn written(outcome: spec_fn(WriteStep) -> Result<(), String>) -> Result<
    (),
    StoreErrorView,
> {
    match outcome(WriteStep::CreateDirectory) {
        Err(error) => Err(store::failure("creating a shard directory"@, error@)),
        Ok(()) => match outcome(WriteStep::WriteTemporary) {
            Err(error) => Err(store::failure("writing an object"@, error@)),
            Ok(()) => match outcome(WriteStep::Rename) {
                Err(error) => Err(store::failure("renaming an object into place"@, error@)),
                Ok(()) => Ok(()),
            },
        },
    }
}

/// How many steps are left.
pub open spec fn steps_left(step: Option<WriteStep>) -> nat {
    match step {
        Some(WriteStep::CreateDirectory) => 3,
        Some(WriteStep::WriteTemporary) => 2,
        Some(WriteStep::Rename) => 1,
        None => 0,
    }
}

/// What is left of a write comes to, taking its steps one after the other.
pub open spec fn written_from(
    step: Option<WriteStep>,
    outcome: spec_fn(WriteStep) -> Result<(), String>,
) -> Result<(), StoreErrorView>
    decreases steps_left(step),
{
    match step {
        None => Ok(()),
        Some(step) => match stepped(step, outcome(step)) {
            Err(error) => Err(error),
            Ok(next) => written_from(next, outcome),
        },
    }
}

/// Taking the steps one after the other writes the part or reports the first step
/// that failed; a step is taken only where all before it succeeded.
pub proof fn lemma_steps_make_a_write(outcome: spec_fn(WriteStep) -> Result<(), String>)
    ensures
        written_from(Some(WriteStep::CreateDirectory), outcome) == written(outcome),
{
    reveal_with_fuel(written_from, 4);
}

/// Metadata is read as it is stored, whatever it says; metadata that cannot be decoded
/// is an integrity failure, a file that is not there a miss, and any other failure
/// stays that failure.
pub proof fn lemma_metadata_is_read_as_stored(cid: Seq<char>, entry: Entry, error: String)
    ensures
        entry_read(cid, Reading::Found(Ok(entry))) == Ok::<_, StoreErrorView>(Some(entry@)),
        entry_read(cid, Reading::Found(Err(error))) == Err::<Option<EntryView>, _>(
            StoreErrorView::Integrity { cid, detail: "entry metadata is corrupt: "@ + error@ },
        ),
        entry_read(cid, Reading::Missing) == Ok::<_, StoreErrorView>(None::<EntryView>),
        entry_read(cid, Reading::Failed(error)) == Err::<Option<EntryView>, _>(
            StoreErrorView::Unavailable("reading entry metadata"@ + ": "@ + error@),
        ),
{
}

/// A file is read as it is stored, if it hashes to the name; otherwise the read says
/// what it hashes to. A file that is not there is a miss, and any other failure stays
/// that failure.
pub proof fn lemma_objects_are_read_as_stored(cid: Seq<char>, content: Vec<u8>, error: String)
    ensures
        object_read(cid, Reading::Found(content)) == if cid == "b3:"@ + cid::blake3_hex(content@) {
            Ok(Some(content@))
        } else {
            Err(
                StoreErrorView::Integrity {
                    cid,
                    detail: "content hashes to "@ + ("b3:"@ + cid::blake3_hex(content@)),
                },
            )
        },
        object_read(cid, Reading::Missing) == Ok::<_, StoreErrorView>(None::<Seq<u8>>),
        object_read(cid, Reading::Failed(error)) == Err::<Option<Seq<u8>>, _>(
            StoreErrorView::Unavailable("reading an object"@ + ": "@ + error@),
        ),
{
}

/// What was put with a quarantined provenance is read back quarantined, and is absent
/// to a judge, until a matching rebuild rewrites its metadata: that is then trusted,
/// and the judge may read the object. What may be done with it otherwise is what the
/// provenance said all along.
pub proof fn lemma_quarantine_lasts_until_promotion(
    content: Seq<u8>,
    provenance: provenance::ProvenanceView,
    stored: Entry,
    rewritten: Entry,
)
    requires
        provenance.trust is Quarantined,
        stored@ == store::entry_of(content, provenance),
        store::promotion(
            cid::cid_of(content),
            entry_read(cid::cid_of(content), Reading::Found(Ok(stored))),
        ) == Ok::<_, StoreErrorView>(rewritten@),
    ensures
        ({
            let cid = cid::cid_of(content);
            let before = entry_read(cid, Reading::Found(Ok(stored)));
            let after = entry_read(cid, Reading::Found(Ok(rewritten)));
            &&& before matches Ok(Some(entry)) && entry.provenance == provenance
            &&& store::judging_access(before) is Absent
            &&& after matches Ok(Some(entry)) && entry.provenance.trust is Verified
                && entry.provenance.origin == provenance.origin && entry.provenance.distribution
                == provenance.distribution && entry.manifest == stored@.manifest
            &&& store::judging_access(after) is Open
            &&& store::peer_access(cid, after) == store::peer_access(cid, before)
        }),
{
}

/// Where the parts of an object are kept below the root, spelt out.
pub proof fn lemma_paths_spell_the_name(cid: Seq<char>)
    requires
        cid::is_cid(cid),
    ensures
        ({
            let shards = "/"@ + cid.subrange(3, 5) + "/"@ + cid.subrange(5, 7) + "/"@
                + cid.subrange(3, 67);
            &&& part_path(Part::Object, cid) == "objects"@ + shards
            &&& part_path(Part::Entry, cid) == "entries"@ + shards + ".json"@
            &&& partial_path(Part::Object, cid) == "objects"@ + shards + ".partial"@
            &&& partial_path(Part::Entry, cid) == "entries"@ + shards + ".partial"@
            &&& part_kind(Part::Object) == "objects"@
            &&& part_kind(Part::Entry) == "entries"@
        }),
{
    reveal_strlit("");
    layout::lemma_places_spell_the_name("objects"@, cid, ""@);
    layout::lemma_places_spell_the_name("entries"@, cid, ".json"@);
    layout::lemma_places_spell_the_name("objects"@, cid, ".partial"@);
    layout::lemma_places_spell_the_name("entries"@, cid, ".partial"@);
    let shards = "/"@ + cid.subrange(3, 5) + "/"@ + cid.subrange(5, 7) + "/"@ + cid.subrange(
        3,
        67,
    );
    assert(part_path(Part::Object, cid) =~= "objects"@ + shards);
    assert(part_path(Part::Entry, cid) =~= "entries"@ + shards + ".json"@);
    assert(partial_path(Part::Object, cid) =~= "objects"@ + shards + ".partial"@);
    assert(partial_path(Part::Entry, cid) =~= "entries"@ + shards + ".partial"@);
}

/// A write makes the directory, writes the temporary file and renames it, in this
/// order; it goes on only after a step that succeeded, and a step that failed ends it
/// and is named.
pub proof fn lemma_write_steps(error: String)
    ensures
        stepped(WriteStep::CreateDirectory, Ok(())) == Ok::<_, StoreErrorView>(
            Some(WriteStep::WriteTemporary),
        ),
        stepped(WriteStep::WriteTemporary, Ok(())) == Ok::<_, StoreErrorView>(
            Some(WriteStep::Rename),
        ),
        stepped(WriteStep::Rename, Ok(())) == Ok::<_, StoreErrorView>(None::<WriteStep>),
        stepped(WriteStep::CreateDirectory, Err(error)) == Err::<Option<WriteStep>, _>(
            StoreErrorView::Unavailable("creating a shard directory"@ + ": "@ + error@),
        ),
        stepped(WriteStep::WriteTemporary, Err(error)) == Err::<Option<WriteStep>, _>(
            StoreErrorView::Unavailable("writing an object"@ + ": "@ + error@),
        ),
        stepped(WriteStep::Rename, Err(error)) == Err::<Option<WriteStep>, _>(
            StoreErrorView::Unavailable("renaming an object into place"@ + ": "@ + error@),
        ),
{
}

/// Writing metadata comes to what the write came to, unless the metadata could not be
/// encoded.
pub proof fn lemma_entry_writes(written: StoreResult<()>, error: String)
    ensures
        entry_written(Ok(written)) == match written {
            Ok(()) => Ok::<(), StoreErrorView>(()),
            Err(error) => Err(error@),
        },
        entry_written(Err(error)) == Err::<(), _>(
            StoreErrorView::Unavailable("encoding an entry"@ + ": "@ + error@),
        ),
{
}

} // verus!

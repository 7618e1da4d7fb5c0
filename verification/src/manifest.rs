//! Chunked object manifests.
//!
//! A whole-object CID is enough to verify an object, but not enough to fetch one
//! usefully. Fixed-size chunks allow partial verification, fetching from several
//! places at once, and deduplication.

use vstd::hash_set::StringHashSet;
use vstd::prelude::*;
use vstd::slice::slice_subrange;
use vstd::string::*;

use crate::cid;
use crate::cid::Cid;
use crate::text;

verus! {

/// Manifest format version. Independent of this crate's version.
pub const MANIFEST_VERSION: u32 = 1;

/// Chunk size. 1 MiB: large enough that per-chunk overhead is noise, small
/// enough that a failed chunk is a cheap retry on a slow connection.
pub const CHUNK_BYTES: usize = 1024 * 1024;

/// `CHUNK_BYTES`, as a number to compute with.
#[verifier::inline]
pub open spec fn chunk_bytes() -> int {
    1_048_576
}

/// The most chunks whose lengths are sure to add up within `u64`.
pub const MAX_CHUNKS: u64 = 17_592_186_044_415;

/// How an object is protected against loss.
#[derive(Debug, Clone, Copy, PartialEq, Eq, Structural)]
pub enum Redundancy {
    /// Chunks are stored as-is. Availability comes from replication.
    Plain,
    /// Reed-Solomon style erasure coding.
    ///
    /// Reserved so adding it is a new variant rather than a format break.
    /// Readers must reject a manifest that declares it, instead of guessing.
    Erasure {
        /// Data shards.
        data: u8,
        /// Parity shards.
        parity: u8,
    },
}

impl Default for Redundancy {
    fn default() -> (redundancy: Self)
        ensures
            redundancy == Redundancy::Plain,
    {
        Redundancy::Plain
    }
}

/// One chunk of an object.
#[derive(Debug, PartialEq, Eq)]
pub struct Chunk {
    /// Content identifier of this chunk's bytes.
    pub cid: Cid,
    /// Byte offset of this chunk within the object.
    pub offset: u64,
    /// Length in bytes.
    pub length: u32,
}

/// A description of an immutable object.
#[derive(Debug, PartialEq, Eq)]
pub struct Manifest {
    /// Format version.
    pub manifest_version: u32,
    /// Content identifier of the whole object.
    pub cid: Cid,
    /// Total size in bytes.
    pub size: u64,
    /// Media type, advisory only. Never used to decide whether to trust content.
    pub media_type: Option<String>,
    /// Chunks, in order.
    pub chunks: Vec<Chunk>,
    /// Redundancy scheme.
    pub redundancy: Redundancy,
}

/// A manifest that does not describe a coherent object.
#[allow(inconsistent_fields)]
#[derive(Debug, PartialEq, Eq)]
pub enum ManifestError {
    /// Unsupported format version.
    UnsupportedVersion(u32),
    /// Chunks do not tile the object exactly.
    NotContiguous(String),
    /// Declared size disagrees with the chunks.
    SizeMismatch {
        /// Size the manifest claims.
        declared: u64,
        /// Size the chunks actually cover.
        covered: u64,
    },
    /// Content does not hash to the declared CID.
    CidMismatch {
        /// CID the manifest claims.
        declared: String,
        /// CID the content actually has.
        actual: String,
    },
    /// A redundancy scheme this build cannot honour.
    UnsupportedRedundancy,
    /// An object with no chunks.
    Empty,
}

/// A [`Chunk`] as a value of the model.
pub struct ChunkView {
    /// The name of the chunk's bytes.
    pub cid: Seq<char>,
    /// Where the chunk starts.
    pub offset: u64,
    /// How many bytes it holds.
    pub length: u32,
}

/// A [`Manifest`] as a value of the model.
pub struct ManifestView {
    /// Format version.
    pub manifest_version: u32,
    /// The name of the whole object.
    pub cid: Seq<char>,
    /// Total size in bytes.
    pub size: u64,
    /// Media type.
    pub media_type: Option<Seq<char>>,
    /// Chunks, in order.
    pub chunks: Seq<ChunkView>,
    /// Redundancy scheme.
    pub redundancy: Redundancy,
}

/// A [`ManifestError`] as a value of the model.
#[allow(inconsistent_fields)]
pub enum ManifestErrorView {
    /// Unsupported format version.
    UnsupportedVersion(u32),
    /// Chunks do not tile the object exactly.
    NotContiguous(Seq<char>),
    /// Declared size disagrees with the chunks.
    SizeMismatch {
        /// Size the manifest claims.
        declared: u64,
        /// Size the chunks actually cover.
        covered: u64,
    },
    /// Content does not hash to the declared CID.
    CidMismatch {
        /// CID the manifest claims.
        declared: Seq<char>,
        /// CID the content actually has.
        actual: Seq<char>,
    },
    /// A redundancy scheme this build cannot honour.
    UnsupportedRedundancy,
    /// An object with no chunks.
    Empty,
}

impl View for Chunk {
    type V = ChunkView;

    open spec fn view(&self) -> ChunkView {
        ChunkView { cid: self.cid@, offset: self.offset, length: self.length }
    }
}

/// The view of an optional text.
pub open spec fn option_text(text: Option<String>) -> Option<Seq<char>> {
    match text {
        Some(text) => Some(text@),
        None => None,
    }
}

impl View for Manifest {
    type V = ManifestView;

    open spec fn view(&self) -> ManifestView {
        ManifestView {
            manifest_version: self.manifest_version,
            cid: self.cid@,
            size: self.size,
            media_type: option_text(self.media_type),
            chunks: self.chunks@.map_values(|chunk: Chunk| chunk@),
            redundancy: self.redundancy,
        }
    }
}

impl View for ManifestError {
    type V = ManifestErrorView;

    open spec fn view(&self) -> ManifestErrorView {
        match *self {
            ManifestError::UnsupportedVersion(version) => ManifestErrorView::UnsupportedVersion(
                version,
            ),
            ManifestError::NotContiguous(detail) => ManifestErrorView::NotContiguous(detail@),
            ManifestError::SizeMismatch { declared, covered } => ManifestErrorView::SizeMismatch {
                declared,
                covered,
            },
            ManifestError::CidMismatch { declared, actual } => ManifestErrorView::CidMismatch {
                declared: declared@,
                actual: actual@,
            },
            ManifestError::UnsupportedRedundancy => ManifestErrorView::UnsupportedRedundancy,
            ManifestError::Empty => ManifestErrorView::Empty,
        }
    }
}

/// The outcome of a check as a value of the model.
pub open spec fn check_view(result: Result<(), ManifestError>) -> Result<(), ManifestErrorView> {
    match result {
        Ok(()) => Ok(()),
        Err(error) => Err(error@),
    }
}

impl ManifestErrorView {
    /// The sentence a person reads.
    pub open spec fn message(self) -> Seq<char> {
        match self {
            ManifestErrorView::UnsupportedVersion(version) => "manifest version "@
                + text::decimal_text(version as nat) + " is not supported (expected 1)"@,
            ManifestErrorView::NotContiguous(detail) => "chunks do not tile the object: "@ + detail,
            ManifestErrorView::SizeMismatch { declared, covered } => "declared size "@
                + text::decimal_text(declared as nat) + " but chunks cover "@ + text::decimal_text(
                covered as nat,
            ),
            ManifestErrorView::CidMismatch { declared, actual } => "content hashes to "@ + actual
                + ", not "@ + declared,
            ManifestErrorView::UnsupportedRedundancy =>
                "redundancy scheme is not implemented; refusing to guess"@,
            ManifestErrorView::Empty => "a manifest must describe at least one chunk"@,
        }
    }
}

impl ManifestError {
    /// The sentence a person reads.
    pub fn message(&self) -> (message: String)
        ensures
            message@ == self@.message(),
    {
        match self {
            ManifestError::UnsupportedVersion(version) => {
                let mut message = "manifest version ".to_owned();
                message.append(text::decimal(*version as u64).as_str());
                message.append(" is not supported (expected 1)");
                message
            },
            ManifestError::NotContiguous(detail) => {
                let mut message = "chunks do not tile the object: ".to_owned();
                message.append(detail.as_str());
                message
            },
            ManifestError::SizeMismatch { declared, covered } => {
                let mut message = "declared size ".to_owned();
                message.append(text::decimal(*declared).as_str());
                message.append(" but chunks cover ");
                message.append(text::decimal(*covered).as_str());
                message
            },
            ManifestError::CidMismatch { declared, actual } => {
                let mut message = "content hashes to ".to_owned();
                message.append(actual.as_str());
                message.append(", not ");
                message.append(declared.as_str());
                message
            },
            ManifestError::UnsupportedRedundancy =>
                "redundancy scheme is not implemented; refusing to guess".to_owned(),
            ManifestError::Empty => "a manifest must describe at least one chunk".to_owned(),
        }
    }
}

/// How many bytes the chunks hold together.
pub open spec fn covered(chunks: Seq<ChunkView>) -> nat
    decreases chunks.len(),
{
    if chunks.len() == 0 {
        0
    } else {
        covered(chunks.drop_last()) + chunks.last().length as nat
    }
}

/// Chunk `index` starts where the chunk before it ends, and is no longer than a
/// chunk may be.
pub open spec fn placed(chunks: Seq<ChunkView>, index: int) -> bool {
    chunks[index].offset == covered(chunks.take(index)) && chunks[index].length <= CHUNK_BYTES
}

/// The first `count` chunks lie end to end, none longer than a chunk may be.
pub open spec fn contiguous_to(chunks: Seq<ChunkView>, count: int) -> bool {
    forall|i: int| 0 <= i < count ==> #[trigger] placed(chunks, i)
}

/// Chunks that lie end to end, none longer than a chunk may be.
pub open spec fn contiguous(chunks: Seq<ChunkView>) -> bool {
    contiguous_to(chunks, chunks.len() as int)
}

/// Wherever chunks lie end to end, the byte after them can be numbered. Nothing is
/// asked of the chunks from the first one at fault on.
pub open spec fn measurable(chunks: Seq<ChunkView>) -> bool {
    forall|count: int|
        0 <= count <= chunks.len() && #[trigger] contiguous_to(chunks, count) ==> covered(
            chunks.take(count),
        ) <= u64::MAX
}

/// A manifest whose check can add up what it has to: it is added up only where the
/// version and the redundancy scheme are supported, and only up to the first chunk
/// at fault.
pub open spec fn checkable(manifest: ManifestView) -> bool {
    manifest.manifest_version == MANIFEST_VERSION && manifest.redundancy == Redundancy::Plain
        ==> measurable(manifest.chunks)
}

/// What is said of chunk `index` when it does not start where its predecessor
/// ends.
pub open spec fn gap_text(index: nat, offset: nat, end: nat) -> Seq<char> {
    "chunk "@ + text::decimal_text(index) + " starts at "@ + text::decimal_text(offset)
        + " but the previous chunk ends at "@ + text::decimal_text(end)
}

/// What is said of chunk `index` when it is longer than a chunk may be.
pub open spec fn oversize_text(index: nat, length: nat) -> Seq<char> {
    "chunk "@ + text::decimal_text(index) + " is "@ + text::decimal_text(length)
        + " bytes, over the "@ + text::decimal_text(CHUNK_BYTES as nat) + " limit"@
}

/// What is wrong with chunk `index`, given the chunks before it.
pub open spec fn chunk_fault(chunks: Seq<ChunkView>, index: int) -> Option<Seq<char>> {
    let end = covered(chunks.take(index));
    let chunk = chunks[index];
    if chunk.offset != end {
        Some(gap_text(index as nat, chunk.offset as nat, end))
    } else if chunk.length > CHUNK_BYTES {
        Some(oversize_text(index as nat, chunk.length as nat))
    } else {
        None
    }
}

/// The first fault among the chunks from `index` on.
pub open spec fn first_fault(chunks: Seq<ChunkView>, index: int) -> Option<Seq<char>>
    decreases chunks.len() - index,
{
    if index >= chunks.len() {
        None
    } else {
        match chunk_fault(chunks, index) {
            Some(fault) => Some(fault),
            None => first_fault(chunks, index + 1),
        }
    }
}

/// What checking a manifest's internal consistency comes to.
pub open spec fn validated(manifest: ManifestView) -> Result<(), ManifestErrorView> {
    if manifest.manifest_version != MANIFEST_VERSION {
        Err(ManifestErrorView::UnsupportedVersion(manifest.manifest_version))
    } else if manifest.chunks.len() == 0 {
        Err(ManifestErrorView::Empty)
    } else if manifest.redundancy != Redundancy::Plain {
        Err(ManifestErrorView::UnsupportedRedundancy)
    } else {
        match first_fault(manifest.chunks, 0) {
            Some(fault) => Err(ManifestErrorView::NotContiguous(fault)),
            None => if covered(manifest.chunks) != manifest.size {
                Err(
                    ManifestErrorView::SizeMismatch {
                        declared: manifest.size,
                        covered: covered(manifest.chunks) as u64,
                    },
                )
            } else {
                Ok(())
            },
        }
    }
}

/// The bytes of `content` that a chunk describes.
pub open spec fn slice_of(chunk: ChunkView, content: Seq<u8>) -> Seq<u8> {
    content.subrange(chunk.offset as int, chunk.offset + chunk.length)
}

/// The error of the first chunk from `index` on whose bytes do not hash to its
/// identifier.
pub open spec fn first_mismatch(chunks: Seq<ChunkView>, content: Seq<u8>, index: int) -> Option<
    ManifestErrorView,
>
    decreases chunks.len() - index,
{
    if index >= chunks.len() {
        None
    } else {
        let actual = cid::cid_of(slice_of(chunks[index], content));
        if chunks[index].cid != actual {
            Some(ManifestErrorView::CidMismatch { declared: chunks[index].cid, actual })
        } else {
            first_mismatch(chunks, content, index + 1)
        }
    }
}

/// What verifying `content` against a manifest comes to.
pub open spec fn verified(manifest: ManifestView, content: Seq<u8>) -> Result<
    (),
    ManifestErrorView,
> {
    match validated(manifest) {
        Err(error) => Err(error),
        Ok(()) => if content.len() != manifest.size {
            Err(
                ManifestErrorView::SizeMismatch {
                    declared: manifest.size,
                    covered: content.len() as u64,
                },
            )
        } else {
            match first_mismatch(manifest.chunks, content, 0) {
                Some(error) => Err(error),
                None => if manifest.cid != cid::cid_of(content) {
                    Err(
                        ManifestErrorView::CidMismatch {
                            declared: manifest.cid,
                            actual: cid::cid_of(content),
                        },
                    )
                } else {
                    Ok(())
                },
            }
        },
    }
}

/// How many chunks an object of `size` bytes has. An empty object is still an
/// object, and it still has a chunk, so that "no chunks" can mean "malformed"
/// without ambiguity.
pub open spec fn chunk_count(size: nat) -> nat {
    if size == 0 {
        1
    } else {
        ((size + chunk_bytes() - 1) / chunk_bytes()) as nat
    }
}

/// Where chunk `index` of an object of `size` bytes ends.
pub open spec fn chunk_end(size: nat, index: int) -> int {
    if (index + 1) * chunk_bytes() <= size {
        (index + 1) * chunk_bytes()
    } else {
        size as int
    }
}

/// Chunk `index` of `content`.
pub open spec fn chunk_at(content: Seq<u8>, index: int) -> ChunkView {
    let start = index * chunk_bytes();
    let end = chunk_end(content.len(), index);
    ChunkView {
        cid: cid::cid_of(content.subrange(start, end)),
        offset: start as u64,
        length: (end - start) as u32,
    }
}

/// The manifest of `content`.
pub open spec fn built(content: Seq<u8>, media_type: Option<Seq<char>>) -> ManifestView {
    ManifestView {
        manifest_version: MANIFEST_VERSION,
        cid: cid::cid_of(content),
        size: content.len() as u64,
        media_type,
        chunks: Seq::new(chunk_count(content.len()), |index: int| chunk_at(content, index)),
        redundancy: Redundancy::Plain,
    }
}

/// The names of the chunks.
pub open spec fn chunk_cids(chunks: Seq<ChunkView>) -> Seq<Seq<char>> {
    chunks.map_values(|chunk: ChunkView| chunk.cid)
}

/// The elements that are kept, in order.
pub open spec fn selected<T>(items: Seq<T>, keep: Seq<bool>) -> Seq<T>
    decreases items.len(),
{
    if items.len() == 0 {
        Seq::empty()
    } else if keep[items.len() - 1] {
        selected(items.drop_last(), keep).push(items.last())
    } else {
        selected(items.drop_last(), keep)
    }
}

/// The chunks, borrowed.
pub open spec fn references<'a>(chunks: Seq<Chunk>) -> Seq<&'a Chunk> {
    Seq::new(chunks.len(), |i: int| &chunks[i])
}

/// `keep` marks each chunk of which `held` answered that it is not held.
pub open spec fn keeps_unheld<F: Fn(&Cid) -> bool>(
    chunks: Seq<Chunk>,
    held: F,
    keep: Seq<bool>,
) -> bool {
    &&& keep.len() == chunks.len()
    &&& forall|i: int|
        0 <= i < keep.len() ==> call_ensures(held, (&chunks[i].cid,), !(#[trigger] keep[i]))
}

impl Clone for Chunk {
    fn clone(&self) -> (copy: Self)
        ensures
            copy@ == self@,
    {
        Chunk { cid: self.cid.clone(), offset: self.offset, length: self.length }
    }
}

impl Clone for Manifest {
    fn clone(&self) -> (copy: Self)
        ensures
            copy@ == self@,
    {
        let media_type = match &self.media_type {
            Some(text) => Some(text.clone()),
            None => None,
        };
        let chunks = self.chunks.clone();
        let copy = Manifest {
            manifest_version: self.manifest_version,
            cid: self.cid.clone(),
            size: self.size,
            media_type,
            chunks,
            redundancy: self.redundancy,
        };
        assert(copy@.chunks =~= self@.chunks);
        copy
    }
}

impl Manifest {
    /// Build a manifest by chunking `content`.
    pub fn build(content: &[u8], media_type: Option<String>) -> (manifest: Self)
        ensures
            manifest@ == built(content@, option_text(media_type)),
            measurable(manifest@.chunks),
    {
        let mut chunks: Vec<Chunk> = Vec::new();
        let mut start: usize = 0;
        let ghost view = |chunk: Chunk| chunk@;
        while start < content.len()
            invariant
                view == (|chunk: Chunk| chunk@),
                start <= content@.len(),
                chunks@.len() == (start + chunk_bytes() - 1) / chunk_bytes(),
                start < content@.len() ==> start == chunks@.len() * chunk_bytes(),
                forall|i: int|
                    0 <= i < chunks@.len() ==> (#[trigger] chunks@[i])@ == chunk_at(content@, i),
            decreases content@.len() - start,
        {
            let rest: usize = content.len() - start;
            let end: usize = if rest > CHUNK_BYTES {
                start + CHUNK_BYTES
            } else {
                content.len()
            };
            let chunk = Chunk {
                cid: Cid::of(slice_subrange(content, start, end)),
                offset: start as u64,
                length: (end - start) as u32,
            };
            assert(chunk@ == chunk_at(content@, chunks@.len() as int));
            chunks.push(chunk);
            start = end;
        }
        if chunks.len() == 0 {
            let empty = Chunk { cid: Cid::of(content), offset: 0, length: 0 };
            assert(content@ =~= content@.subrange(0, 0));
            chunks.push(empty);
        }
        let manifest = Manifest {
            manifest_version: MANIFEST_VERSION,
            cid: Cid::of(content),
            size: content.len() as u64,
            media_type,
            chunks,
            redundancy: Redundancy::Plain,
        };
        assert(manifest@.chunks =~= built(content@, option_text(media_type)).chunks);
        proof {
            lemma_built_verifies(content@, option_text(media_type));
        }
        manifest
    }

    /// Whether the chunks can be measured: wherever they lie end to end, the byte
    /// after them can be numbered.
    pub fn is_measurable(&self) -> (can: bool)
        ensures
            can == measurable(self@.chunks),
    {
        let mut end: u64 = 0;
        let mut index: usize = 0;
        while index < self.chunks.len()
            invariant
                index <= self.chunks@.len(),
                contiguous_to(self@.chunks, index as int),
                end == covered(self@.chunks.take(index as int)),
                forall|count: int|
                    0 <= count <= index && #[trigger] contiguous_to(self@.chunks, count)
                        ==> covered(self@.chunks.take(count)) <= u64::MAX,
            decreases self.chunks@.len() - index,
        {
            let chunk = &self.chunks[index];
            assert(self@.chunks[index as int] == chunk@);
            if chunk.offset != end || chunk.length as usize > CHUNK_BYTES {
                assert forall|count: int|
                    0 <= count <= self@.chunks.len() && #[trigger] contiguous_to(
                        self@.chunks,
                        count,
                    ) implies covered(self@.chunks.take(count)) <= u64::MAX by {
                    if count > index {
                        assert(placed(self@.chunks, index as int));
                    }
                }
                return true;
            }
            proof {
                assert(self@.chunks.take(index + 1).drop_last() =~= self@.chunks.take(
                    index as int,
                ));
                assert(contiguous_to(self@.chunks, index + 1));
            }
            match end.checked_add(chunk.length as u64) {
                Some(next) => {
                    end = next;
                },
                None => return false,
            }
            index = index + 1;
        }
        true
    }

    /// Whether the manifest can be checked: what its check adds up can be numbered.
    pub fn is_checkable(&self) -> (can: bool)
        ensures
            can == checkable(self@),
    {
        self.manifest_version != MANIFEST_VERSION || self.redundancy != Redundancy::Plain
            || self.is_measurable()
    }

    /// Check internal consistency, without seeing the content.
    ///
    /// Chunks that lie end to end past `u64::MAX` bytes cannot be measured. Up to
    /// `MAX_CHUNKS` chunks always can.
    pub fn validate(&self) -> (result: Result<(), ManifestError>)
        requires
            checkable(self@),
        ensures
            check_view(result) == validated(self@),
    {
        if self.manifest_version != MANIFEST_VERSION {
            return Err(ManifestError::UnsupportedVersion(self.manifest_version));
        }
        if self.chunks.len() == 0 {
            return Err(ManifestError::Empty);
        }
        if self.redundancy != Redundancy::Plain {
            // Refuse rather than guess. Reconstructing an object under a scheme
            // we do not implement would produce plausible wrong bytes.
            return Err(ManifestError::UnsupportedRedundancy);
        }
        let mut expected_offset: u64 = 0;
        let mut index: usize = 0;
        while index < self.chunks.len()
            invariant
                index <= self.chunks@.len(),
                measurable(self@.chunks),
                contiguous_to(self@.chunks, index as int),
                expected_offset == covered(self@.chunks.take(index as int)),
                first_fault(self@.chunks, 0) == first_fault(self@.chunks, index as int),
                self@.manifest_version == MANIFEST_VERSION,
                self@.chunks.len() > 0,
                self@.redundancy == Redundancy::Plain,
            decreases self.chunks@.len() - index,
        {
            let chunk = &self.chunks[index];
            assert(self@.chunks[index as int] == chunk@);
            if chunk.offset != expected_offset {
                return Err(
                    ManifestError::NotContiguous(gap(index as u64, chunk.offset, expected_offset)),
                );
            }
            if chunk.length as usize > CHUNK_BYTES {
                return Err(
                    ManifestError::NotContiguous(oversize(index as u64, chunk.length as u64)),
                );
            }
            proof {
                assert(self@.chunks.take(index + 1).drop_last() =~= self@.chunks.take(
                    index as int,
                ));
                assert(contiguous_to(self@.chunks, index + 1));
            }
            expected_offset = expected_offset + chunk.length as u64;
            index = index + 1;
        }
        assert(self@.chunks.take(index as int) =~= self@.chunks);
        if expected_offset != self.size {
            return Err(
                ManifestError::SizeMismatch { declared: self.size, covered: expected_offset },
            );
        }
        Ok(())
    }

    /// Verify assembled content against this manifest.
    ///
    /// Checks every chunk as well as the whole. Checking only the whole would
    /// leave a manifest that lies about its chunks undetected until a peer
    /// served one of those chunks and it did not match anything.
    pub fn verify(&self, content: &[u8]) -> (result: Result<(), ManifestError>)
        requires
            checkable(self@),
        ensures
            check_view(result) == verified(self@, content@),
    {
        match self.validate() {
            Ok(()) => {},
            Err(error) => return Err(error),
        }
        let length: usize = content.len();
        if length as u64 != self.size {
            return Err(
                ManifestError::SizeMismatch { declared: self.size, covered: length as u64 },
            );
        }
        let mut index: usize = 0;
        while index < self.chunks.len()
            invariant
                index <= self.chunks@.len(),
                validated(self@) == Ok::<(), ManifestErrorView>(()),
                length == content@.len(),
                length == self.size,
                first_mismatch(self@.chunks, content@, 0) == first_mismatch(
                    self@.chunks,
                    content@,
                    index as int,
                ),
            decreases self.chunks@.len() - index,
        {
            let chunk = &self.chunks[index];
            assert(self@.chunks[index as int] == chunk@);
            proof {
                // Chunks that tile the object cannot run past the content.
                lemma_coherent(self@);
                lemma_within(self@, index as int);
            }
            let start: usize = chunk.offset as usize;
            let end: usize = start + chunk.length as usize;
            let slice = slice_subrange(content, start, end);
            if !chunk.cid.verifies(slice) {
                return Err(
                    ManifestError::CidMismatch {
                        declared: chunk.cid.as_str().to_owned(),
                        actual: Cid::of(slice).as_str().to_owned(),
                    },
                );
            }
            index = index + 1;
        }
        if !self.cid.verifies(content) {
            return Err(
                ManifestError::CidMismatch {
                    declared: self.cid.as_str().to_owned(),
                    actual: Cid::of(content).as_str().to_owned(),
                },
            );
        }
        Ok(())
    }

    /// Chunk CIDs that are not yet held locally, in fetch order.
    pub fn missing<'a, F: Fn(&Cid) -> bool>(&'a self, held: &F) -> (missing: Vec<&'a Chunk>)
        requires
            forall|i: int|
                0 <= i < self.chunks@.len() ==> call_requires(
                    *held,
                    (&(#[trigger] self.chunks@[i]).cid,),
                ),
        ensures
            exists|keep: Seq<bool>| #[trigger]
                keeps_unheld(self.chunks@, *held, keep) && missing@ == selected(
                    references(self.chunks@),
                    keep,
                ),
            exists|places: Seq<int>| #[trigger] lacks(self.chunks@, *held, missing@, places),
    {
        let mut missing: Vec<&'a Chunk> = Vec::new();
        let ghost mut keep: Seq<bool> = Seq::empty();
        let ghost chunks = references(self.chunks@);
        let mut index: usize = 0;
        while index < self.chunks.len()
            invariant
                index <= self.chunks@.len(),
                chunks == references(self.chunks@),
                keep.len() == index,
                forall|i: int|
                    0 <= i < self.chunks@.len() ==> call_requires(
                        *held,
                        (&(#[trigger] self.chunks@[i]).cid,),
                    ),
                forall|i: int|
                    0 <= i < index ==> call_ensures(
                        *held,
                        (&self.chunks@[i].cid,),
                        !(#[trigger] keep[i]),
                    ),
                missing@ == selected(chunks.take(index as int), keep),
            decreases self.chunks@.len() - index,
        {
            let chunk = &self.chunks[index];
            let is_held = held(&chunk.cid);
            proof {
                let before = keep;
                keep = keep.push(!is_held);
                assert(chunks.take(index + 1).drop_last() =~= chunks.take(index as int));
                assert(keep.take(before.len() as int) =~= before);
                lemma_selected_prefix(chunks.take(index as int), before, keep);
            }
            if !is_held {
                missing.push(chunk);
            }
            index = index + 1;
        }
        assert(chunks.take(index as int) =~= chunks);
        assert(keeps_unheld(self.chunks@, *held, keep));
        proof {
            lemma_missing_is_what_is_not_held(self.chunks@, *held, keep);
        }
        missing
    }

    /// Number of distinct chunks. Repeated content is stored once.
    pub fn distinct_chunks(&self) -> (count: usize)
        ensures
            count == chunk_cids(self@.chunks).to_set().len(),
    {
        let mut seen = StringHashSet::new();
        let ghost cids = chunk_cids(self@.chunks);
        let mut index: usize = 0;
        assert(cids.take(0).to_set() =~= Set::empty());
        while index < self.chunks.len()
            invariant
                index <= self.chunks@.len(),
                cids == chunk_cids(self@.chunks),
                seen@ == cids.take(index as int).to_set(),
            decreases self.chunks@.len() - index,
        {
            let name = self.chunks[index].cid.as_str().to_owned();
            assert(name@ == cids[index as int]);
            proof {
                lemma_set_of_next(cids, index as int);
            }
            seen.insert(name);
            index = index + 1;
        }
        assert(cids.take(index as int) =~= cids);
        seen.len()
    }
}

fn gap(index: u64, offset: u64, end: u64) -> (detail: String)
    ensures
        detail@ == gap_text(index as nat, offset as nat, end as nat),
{
    let mut detail = "chunk ".to_owned();
    detail.append(text::decimal(index).as_str());
    detail.append(" starts at ");
    detail.append(text::decimal(offset).as_str());
    detail.append(" but the previous chunk ends at ");
    detail.append(text::decimal(end).as_str());
    detail
}

fn oversize(index: u64, length: u64) -> (detail: String)
    ensures
        detail@ == oversize_text(index as nat, length as nat),
{
    let mut detail = "chunk ".to_owned();
    detail.append(text::decimal(index).as_str());
    detail.append(" is ");
    detail.append(text::decimal(length).as_str());
    detail.append(" bytes, over the ");
    detail.append(text::decimal(CHUNK_BYTES as u64).as_str());
    detail.append(" limit");
    detail
}

proof fn lemma_selected_prefix<T>(items: Seq<T>, keep: Seq<bool>, longer: Seq<bool>)
    requires
        items.len() <= keep.len() <= longer.len(),
        longer.take(keep.len() as int) == keep,
    ensures
        selected(items, keep) == selected(items, longer),
    decreases items.len(),
{
    if items.len() > 0 {
        assert(longer.take(keep.len() as int)[items.len() - 1] == longer[items.len() - 1]);
        lemma_selected_prefix(items.drop_last(), keep, longer);
    }
}

proof fn lemma_set_of_next<T>(items: Seq<T>, index: int)
    requires
        0 <= index < items.len(),
    ensures
        items.take(index + 1).to_set() == items.take(index).to_set().insert(items[index]),
{
    let before = items.take(index);
    let after = items.take(index + 1);
    assert(after =~= before.push(items[index]));
    assert forall|item: T| after.contains(item) <==> before.contains(item) || item
        == items[index] by {
        if before.contains(item) {
            let i = choose|i: int| 0 <= i < before.len() && before[i] == item;
            assert(after[i] == item);
        }
        assert(after[index] == items[index]);
        if after.contains(item) && item != items[index] {
            let i = choose|i: int| 0 <= i < after.len() && after[i] == item;
            assert(before[i] == item);
        }
    }
    assert(after.to_set() =~= before.to_set().insert(items[index]));
}

/// A manifest that describes a coherent object.
pub open spec fn coherent(manifest: ManifestView) -> bool {
    &&& manifest.manifest_version == MANIFEST_VERSION
    &&& manifest.redundancy == Redundancy::Plain
    &&& manifest.chunks.len() > 0
    &&& contiguous(manifest.chunks)
    &&& manifest.size == covered(manifest.chunks)
}

proof fn lemma_covered_bound(chunks: Seq<ChunkView>, count: int)
    requires
        0 <= count <= chunks.len(),
        contiguous_to(chunks, count),
    ensures
        covered(chunks.take(count)) <= count * chunk_bytes(),
    decreases count,
{
    if count > 0 {
        assert(chunks.take(count).drop_last() =~= chunks.take(count - 1));
        assert(placed(chunks, count - 1));
        lemma_covered_bound(chunks, count - 1);
    }
}

/// Up to `MAX_CHUNKS` chunks can always be measured.
pub proof fn lemma_measurable_count(chunks: Seq<ChunkView>)
    requires
        chunks.len() <= MAX_CHUNKS,
    ensures
        measurable(chunks),
{
    assert forall|count: int|
        0 <= count <= chunks.len() && #[trigger] contiguous_to(chunks, count) implies covered(
        chunks.take(count),
    ) <= u64::MAX by {
        lemma_covered_bound(chunks, count);
    }
}

/// Chunks that hold at most `u64::MAX` bytes together can be measured.
pub proof fn lemma_measurable_total(chunks: Seq<ChunkView>)
    requires
        covered(chunks) <= u64::MAX,
    ensures
        measurable(chunks),
{
    assert forall|count: int|
        0 <= count <= chunks.len() && #[trigger] contiguous_to(chunks, count) implies covered(
        chunks.take(count),
    ) <= u64::MAX by {
        lemma_covered_grows(chunks, count);
    }
}

proof fn lemma_no_fault(chunks: Seq<ChunkView>, index: int)
    requires
        0 <= index,
    ensures
        first_fault(chunks, index) is None <==> (forall|i: int|
            index <= i < chunks.len() ==> #[trigger] chunk_fault(chunks, i) is None),
    decreases chunks.len() - index,
{
    if index < chunks.len() {
        lemma_no_fault(chunks, index + 1);
        assert(chunk_fault(chunks, index) is None ==> (first_fault(chunks, index) is None
            <==> first_fault(chunks, index + 1) is None));
    }
}

/// A manifest passes the check exactly when its chunks lie end to end, each of
/// at most the chunk size, and cover the declared size, under the supported
/// version and redundancy scheme.
pub proof fn lemma_coherent(manifest: ManifestView)
    ensures
        validated(manifest) is Ok <==> coherent(manifest),
{
    lemma_no_fault(manifest.chunks, 0);
    if coherent(manifest) {
        assert forall|i: int| 0 <= i < manifest.chunks.len() implies #[trigger] chunk_fault(
            manifest.chunks,
            i,
        ) is None by {
            assert(placed(manifest.chunks, i));
        }
    }
    if validated(manifest) is Ok {
        assert forall|i: int| 0 <= i < manifest.chunks.len() implies #[trigger] placed(
            manifest.chunks,
            i,
        ) by {
            assert(chunk_fault(manifest.chunks, i) is None);
        }
    }
}

proof fn lemma_covered_grows(chunks: Seq<ChunkView>, index: int)
    requires
        0 <= index <= chunks.len(),
    ensures
        covered(chunks.take(index)) <= covered(chunks),
    decreases chunks.len() - index,
{
    if index == chunks.len() {
        assert(chunks.take(index) =~= chunks);
    } else {
        assert(chunks.take(index + 1).drop_last() =~= chunks.take(index));
        lemma_covered_grows(chunks, index + 1);
    }
}

/// No chunk of a coherent manifest runs past the end of the object.
pub proof fn lemma_within(manifest: ManifestView, index: int)
    requires
        coherent(manifest),
        0 <= index < manifest.chunks.len(),
    ensures
        manifest.chunks[index].offset + manifest.chunks[index].length <= manifest.size,
{
    let chunks = manifest.chunks;
    assert(placed(chunks, index));
    assert(chunks.take(index + 1).drop_last() =~= chunks.take(index));
    assert(chunks.take(index + 1).last() == chunks[index]);
    lemma_covered_grows(chunks, index + 1);
}

proof fn lemma_built_covered(content: Seq<u8>, index: int)
    requires
        content.len() <= u64::MAX,
        0 <= index <= chunk_count(content.len()),
    ensures
        covered(built(content, None).chunks.take(index)) == if index == chunk_count(
            content.len(),
        ) {
            content.len() as int
        } else {
            index * chunk_bytes()
        },
    decreases index,
{
    let chunks = built(content, None).chunks;
    if index > 0 {
        lemma_built_covered(content, index - 1);
        assert(chunks.take(index).drop_last() =~= chunks.take(index - 1));
        assert(chunks.take(index).last() == chunk_at(content, index - 1));
    } else {
        assert(chunks.take(0).len() == 0);
    }
}

proof fn lemma_no_mismatch(chunks: Seq<ChunkView>, content: Seq<u8>, index: int)
    requires
        0 <= index,
        forall|i: int|
            index <= i < chunks.len() ==> (#[trigger] chunks[i]).cid == cid::cid_of(
                slice_of(chunks[i], content),
            ),
    ensures
        first_mismatch(chunks, content, index) is None,
    decreases chunks.len() - index,
{
    if index < chunks.len() {
        lemma_no_mismatch(chunks, content, index + 1);
    }
}

/// A manifest built from content is coherent, and verifies that content.
pub proof fn lemma_built_verifies(content: Seq<u8>, media_type: Option<Seq<char>>)
    requires
        content.len() <= u64::MAX,
    ensures
        coherent(built(content, media_type)),
        validated(built(content, media_type)) == Ok::<(), ManifestErrorView>(()),
        verified(built(content, media_type), content) == Ok::<(), ManifestErrorView>(()),
        measurable(built(content, media_type).chunks),
{
    let manifest = built(content, media_type);
    let chunks = manifest.chunks;
    let count = chunk_count(content.len());
    assert(chunks =~= built(content, None).chunks);
    assert forall|i: int| 0 <= i < chunks.len() implies {
        &&& #[trigger] placed(chunks, i)
        &&& chunks[i].cid == cid::cid_of(slice_of(chunks[i], content))
    } by {
        lemma_built_covered(content, i);
        assert(chunks[i] == chunk_at(content, i));
        let start = i * chunk_bytes();
        let end = chunk_end(content.len(), i);
        assert(0 <= start <= end <= content.len());
        assert(end - start <= chunk_bytes());
        assert(slice_of(chunks[i], content) =~= content.subrange(start, end));
    }
    lemma_built_covered(content, count as int);
    assert(chunks.take(count as int) =~= chunks);
    lemma_coherent(manifest);
    lemma_no_mismatch(chunks, content, 0);
    lemma_measurable_total(chunks);
}

/// The bytes of the first `count` chunks, one after the other.
pub open spec fn assembled(chunks: Seq<ChunkView>, content: Seq<u8>, count: nat) -> Seq<u8>
    decreases count,
{
    if count == 0 {
        Seq::empty()
    } else {
        assembled(chunks, content, (count - 1) as nat) + slice_of(chunks[count - 1], content)
    }
}

proof fn lemma_assembled_prefix(manifest: ManifestView, content: Seq<u8>, count: nat)
    requires
        coherent(manifest),
        content.len() == manifest.size,
        count <= manifest.chunks.len(),
    ensures
        covered(manifest.chunks.take(count as int)) <= content.len(),
        assembled(manifest.chunks, content, count) == content.take(
            covered(manifest.chunks.take(count as int)) as int,
        ),
    decreases count,
{
    let chunks = manifest.chunks;
    lemma_covered_grows(chunks, count as int);
    if count == 0 {
        assert(chunks.take(0).len() == 0);
        assert(content.take(0) =~= Seq::empty());
    } else {
        lemma_assembled_prefix(manifest, content, (count - 1) as nat);
        lemma_within(manifest, count - 1);
        assert(chunks.take(count as int).drop_last() =~= chunks.take(count - 1));
        assert(placed(chunks, count - 1));
        assert(assembled(chunks, content, count) =~= content.take(
            covered(chunks.take(count as int)) as int,
        ));
    }
}

/// The chunks of a coherent manifest, put one after the other, are the whole
/// object: nothing is skipped and nothing is read twice.
pub proof fn lemma_chunks_tile(manifest: ManifestView, content: Seq<u8>)
    requires
        coherent(manifest),
        content.len() == manifest.size,
    ensures
        assembled(manifest.chunks, content, manifest.chunks.len()) == content,
{
    lemma_assembled_prefix(manifest, content, manifest.chunks.len());
    assert(manifest.chunks.take(manifest.chunks.len() as int) =~= manifest.chunks);
    assert(content.take(content.len() as int) =~= content);
}

proof fn lemma_mismatch_none_means_all(chunks: Seq<ChunkView>, content: Seq<u8>, index: int)
    requires
        0 <= index,
        first_mismatch(chunks, content, index) is None,
    ensures
        forall|i: int|
            index <= i < chunks.len() ==> (#[trigger] chunks[i]).cid == cid::cid_of(
                slice_of(chunks[i], content),
            ),
    decreases chunks.len() - index,
{
    if index < chunks.len() {
        lemma_mismatch_none_means_all(chunks, content, index + 1);
    }
}

/// Content verifies exactly when the manifest is coherent, the size is as
/// declared, every chunk hashes to its identifier and the whole hashes to the
/// object's. A manifest that lies about one chunk, or content with one corrupt
/// chunk, is refused even where everything else matches.
pub proof fn lemma_verified_means(manifest: ManifestView, content: Seq<u8>)
    ensures
        verified(manifest, content) is Ok <==> {
            &&& coherent(manifest)
            &&& content.len() == manifest.size
            &&& forall|i: int|
                0 <= i < manifest.chunks.len() ==> (#[trigger] manifest.chunks[i]).cid
                    == cid::cid_of(slice_of(manifest.chunks[i], content))
            &&& manifest.cid == cid::cid_of(content)
        },
{
    lemma_coherent(manifest);
    if first_mismatch(manifest.chunks, content, 0) is None {
        lemma_mismatch_none_means_all(manifest.chunks, content, 0);
    }
    if forall|i: int|
        0 <= i < manifest.chunks.len() ==> (#[trigger] manifest.chunks[i]).cid == cid::cid_of(
            slice_of(manifest.chunks[i], content),
        ) {
        lemma_no_mismatch(manifest.chunks, content, 0);
    }
}

/// Content of another length than the declared one is refused for its size.
pub proof fn lemma_truncation_detected(manifest: ManifestView, content: Seq<u8>)
    requires
        coherent(manifest),
        content.len() != manifest.size,
        content.len() <= u64::MAX,
    ensures
        verified(manifest, content) == Err::<(), _>(
            ManifestErrorView::SizeMismatch {
                declared: manifest.size,
                covered: content.len() as u64,
            },
        ),
{
    lemma_coherent(manifest);
}

proof fn lemma_selected_uniform<T>(items: Seq<T>, keep: Seq<bool>, all: bool)
    requires
        items.len() <= keep.len(),
        forall|i: int| 0 <= i < items.len() ==> keep[i] == all,
    ensures
        selected(items, keep) == if all {
            items
        } else {
            Seq::empty()
        },
    decreases items.len(),
{
    if items.len() > 0 {
        lemma_selected_uniform(items.drop_last(), keep, all);
        assert(items.drop_last().push(items.last()) =~= items);
    } else {
        assert(items =~= Seq::empty());
    }
}

/// Where everything is held nothing is missing, and where nothing is held every
/// chunk is.
pub proof fn lemma_missing_extremes<F: Fn(&Cid) -> bool>(
    chunks: Seq<Chunk>,
    held: F,
    keep: Seq<bool>,
    answer: bool,
)
    requires
        keeps_unheld(chunks, held, keep),
        forall|i: int|
            0 <= i < chunks.len() ==> !call_ensures(
                held,
                (&(#[trigger] chunks[i]).cid,),
                !answer,
            ),
    ensures
        selected(references(chunks), keep) == if answer {
            Seq::empty()
        } else {
            references(chunks)
        },
{
    assert forall|i: int| 0 <= i < chunks.len() implies keep[i] == !answer by {
        assert(call_ensures(held, (&chunks[i].cid,), !keep[i]));
    }
    lemma_selected_uniform(references(chunks), keep, !answer);
}

/// Storing each distinct chunk once never takes more chunks than the object
/// has, and takes exactly one where all chunks are alike.
pub proof fn lemma_deduplication(chunks: Seq<ChunkView>)
    ensures
        chunk_cids(chunks).to_set().len() <= chunks.len(),
        chunks.len() > 0 ==> chunk_cids(chunks).to_set().len() >= 1,
        chunks.len() > 0 && (forall|i: int|
            0 <= i < chunks.len() ==> (#[trigger] chunks[i]).cid == chunks[0].cid) ==> chunk_cids(
            chunks,
        ).to_set().len() == 1,
{
    let cids = chunk_cids(chunks);
    vstd::seq_lib::seq_to_set_is_finite(cids);
    cids.lemma_cardinality_of_set();
    if chunks.len() > 0 {
        assert(cids.to_set().contains(cids[0]));
        if cids.to_set().len() == 0 {
            assert(cids.to_set() =~= Set::empty());
        }
        if forall|i: int| 0 <= i < chunks.len() ==> (#[trigger] chunks[i]).cid == chunks[0].cid {
            assert forall|c: Seq<char>| cids.to_set().contains(c) implies c == cids[0] by {
                let i = choose|i: int| 0 <= i < cids.len() && cids[i] == c;
                assert(chunks[i].cid == chunks[0].cid);
            }
            assert(cids.to_set() =~= Set::empty().insert(cids[0]));
        }
    }
}

/// `picked` is what is kept of `items`: `places` are the places of its elements,
/// strictly increasing, each is marked to be kept, and every place that is marked is
/// among them.
pub open spec fn picks<T>(items: Seq<T>, keep: Seq<bool>, picked: Seq<T>, places: Seq<int>) -> bool {
    &&& places.len() == picked.len()
    &&& forall|k: int|
        0 <= k < places.len() ==> {
            &&& 0 <= #[trigger] places[k] < items.len()
            &&& keep[places[k]]
            &&& picked[k] == items[places[k]]
        }
    &&& forall|j: int, k: int| 0 <= j < k < places.len() ==> places[j] < places[k]
    &&& forall|i: int| 0 <= i < items.len() && #[trigger] keep[i] ==> places.contains(i)
}

/// What is kept are all elements that are marked, each at its place in the order, and
/// no others, whatever the mix of marks.
pub proof fn lemma_selection_keeps_what_is_marked<T>(items: Seq<T>, keep: Seq<bool>)
    requires
        items.len() <= keep.len(),
    ensures
        exists|places: Seq<int>| #[trigger] picks(items, keep, selected(items, keep), places),
    decreases items.len(),
{
    let picked = selected(items, keep);
    if items.len() == 0 {
        assert(picks(items, keep, picked, Seq::empty()));
    } else {
        let before = items.drop_last();
        lemma_selection_keeps_what_is_marked(before, keep);
        let earlier = choose|places: Seq<int>| #[trigger]
            picks(before, keep, selected(before, keep), places);
        let last = items.len() - 1;
        if keep[last] {
            let places = earlier.push(last);
            assert forall|i: int| 0 <= i < items.len() && #[trigger] keep[i] implies places.contains(
                i,
            ) by {
                if i < last {
                    assert(earlier.contains(i));
                    let k = choose|k: int| 0 <= k < earlier.len() && earlier[k] == i;
                    assert(places[k] == i);
                } else {
                    assert(places[places.len() - 1] == i);
                }
            }
            assert(picks(items, keep, picked, places));
        } else {
            assert(picks(items, keep, picked, earlier));
        }
    }
}

/// The chunks that are missing, for every mix of answers of `held`: the places at which
/// it answered that the chunk is not held, in order, and at no other place.
pub open spec fn lacks<'a, F: Fn(&Cid) -> bool>(
    chunks: Seq<Chunk>,
    held: F,
    missing: Seq<&'a Chunk>,
    places: Seq<int>,
) -> bool {
    &&& places.len() == missing.len()
    &&& forall|k: int|
        0 <= k < places.len() ==> {
            &&& 0 <= #[trigger] places[k] < chunks.len()
            &&& *missing[k] == chunks[places[k]]
            &&& call_ensures(held, (&chunks[places[k]].cid,), false)
        }
    &&& forall|j: int, k: int| 0 <= j < k < places.len() ==> places[j] < places[k]
    &&& forall|i: int|
        0 <= i < chunks.len() && !places.contains(i) ==> call_ensures(
            held,
            (&(#[trigger] chunks[i]).cid,),
            true,
        )
}

/// What is missing are the chunks of which `held` answered that they are not held, all
/// of them and in order.
pub proof fn lemma_missing_is_what_is_not_held<F: Fn(&Cid) -> bool>(
    chunks: Seq<Chunk>,
    held: F,
    keep: Seq<bool>,
)
    requires
        keeps_unheld(chunks, held, keep),
    ensures
        exists|places: Seq<int>| #[trigger]
            lacks(chunks, held, selected(references(chunks), keep), places),
{
    let items = references(chunks);
    let missing = selected(items, keep);
    lemma_selection_keeps_what_is_marked(items, keep);
    let places = choose|places: Seq<int>| #[trigger] picks(items, keep, missing, places);
    assert forall|k: int| 0 <= k < places.len() implies {
        &&& 0 <= #[trigger] places[k] < chunks.len()
        &&& *missing[k] == chunks[places[k]]
        &&& call_ensures(held, (&chunks[places[k]].cid,), false)
    } by {
        assert(keep[places[k]]);
        assert(call_ensures(held, (&chunks[places[k]].cid,), !keep[places[k]]));
    }
    assert forall|i: int| 0 <= i < chunks.len() && !places.contains(i) implies call_ensures(
        held,
        (&(#[trigger] chunks[i]).cid,),
        true,
    ) by {
        assert(call_ensures(held, (&chunks[i].cid,), !keep[i]));
    }
    assert(lacks(chunks, held, missing, places));
}

/// Where the chunk before chunk `index` ends.
pub open spec fn expected_offset(chunks: Seq<ChunkView>, index: int) -> int {
    if index == 0 {
        0
    } else {
        chunks[index - 1].offset + chunks[index - 1].length
    }
}

/// Chunk `index` starts where the one before it ends, the first one at zero, and holds
/// at most 1 MiB.
pub open spec fn follows(chunks: Seq<ChunkView>, index: int) -> bool {
    &&& chunks[index].offset == expected_offset(chunks, index)
    &&& chunks[index].length <= 1_048_576
}

proof fn lemma_covered_is_the_end(chunks: Seq<ChunkView>, count: int)
    requires
        0 <= count <= chunks.len(),
        forall|i: int| 0 <= i < count ==> #[trigger] follows(chunks, i),
    ensures
        covered(chunks.take(count)) == expected_offset(chunks, count),
        contiguous_to(chunks, count),
    decreases count,
{
    if count > 0 {
        lemma_covered_is_the_end(chunks, count - 1);
        assert(chunks.take(count).drop_last() =~= chunks.take(count - 1));
        assert(follows(chunks, count - 1));
        assert forall|i: int| 0 <= i < count implies #[trigger] placed(chunks, i) by {
            if i < count - 1 {
                assert(contiguous_to(chunks, count - 1));
            }
        }
    } else {
        assert(chunks.take(0).len() == 0);
    }
}

proof fn lemma_contiguous_follow(chunks: Seq<ChunkView>, count: int)
    requires
        0 <= count <= chunks.len(),
        contiguous_to(chunks, count),
    ensures
        forall|i: int| 0 <= i < count ==> #[trigger] follows(chunks, i),
    decreases count,
{
    if count > 0 {
        assert(contiguous_to(chunks, count - 1)) by {
            assert forall|i: int| 0 <= i < count - 1 implies #[trigger] placed(chunks, i) by {}
        }
        lemma_contiguous_follow(chunks, count - 1);
        lemma_covered_is_the_end(chunks, count - 1);
        assert(placed(chunks, count - 1));
    }
}

/// A manifest passes the check exactly where it is of version 1, stores its chunks as
/// they are, has at least one, each starts where the one before it ends and holds at
/// most 1 MiB, and the last one ends where the object does.
pub proof fn lemma_valid_manifests(manifest: ManifestView)
    ensures
        validated(manifest) is Ok <==> {
            &&& manifest.manifest_version == 1
            &&& manifest.redundancy is Plain
            &&& manifest.chunks.len() > 0
            &&& forall|i: int| 0 <= i < manifest.chunks.len() ==> #[trigger] follows(
                manifest.chunks,
                i,
            )
            &&& manifest.chunks.last().offset + manifest.chunks.last().length == manifest.size
        },
{
    let chunks = manifest.chunks;
    let count = chunks.len() as int;
    lemma_coherent(manifest);
    assert(chunks.take(count) =~= chunks);
    if contiguous(chunks) {
        lemma_contiguous_follow(chunks, count);
    }
    if forall|i: int| 0 <= i < count ==> #[trigger] follows(chunks, i) {
        lemma_covered_is_the_end(chunks, count);
    }
}

proof fn lemma_first_fault_is(chunks: Seq<ChunkView>, from: int, index: int)
    requires
        0 <= from <= index < chunks.len(),
        forall|i: int| 0 <= i < index ==> #[trigger] follows(chunks, i),
        !follows(chunks, index),
    ensures
        first_fault(chunks, from) == chunk_fault(chunks, index),
        chunk_fault(chunks, index) is Some,
        covered(chunks.take(index)) == expected_offset(chunks, index),
    decreases index - from,
{
    lemma_covered_is_the_end(chunks, index);
    if from < index {
        assert(placed(chunks, from));
        lemma_first_fault_is(chunks, from + 1, index);
    }
}

/// What is wrong with a manifest that does not pass: its version first, the lack of
/// chunks, its redundancy scheme, the first chunk at fault, and the size last.
pub proof fn lemma_manifest_faults(manifest: ManifestView, index: int)
    ensures
        manifest.manifest_version != 1 ==> validated(manifest) == Err::<(), _>(
            ManifestErrorView::UnsupportedVersion(manifest.manifest_version),
        ),
        manifest.manifest_version == 1 && manifest.chunks.len() == 0 ==> validated(manifest) == Err::<
            (),
            _,
        >(ManifestErrorView::Empty),
        manifest.manifest_version == 1 && manifest.chunks.len() > 0 && !(
        manifest.redundancy is Plain) ==> validated(manifest) == Err::<(), _>(
            ManifestErrorView::UnsupportedRedundancy,
        ),
        manifest.manifest_version == 1 && manifest.redundancy is Plain ==> 0 <= index
            < manifest.chunks.len() && (forall|i: int|
            0 <= i < index ==> #[trigger] follows(manifest.chunks, i)) && !follows(
            manifest.chunks,
            index,
        ) ==> {
            let chunk = manifest.chunks[index];
            let end = expected_offset(manifest.chunks, index);
            validated(manifest) == Err::<(), _>(
                ManifestErrorView::NotContiguous(
                    if chunk.offset != end {
                        "chunk "@ + text::decimal_text(index as nat) + " starts at "@
                            + text::decimal_text(chunk.offset as nat)
                            + " but the previous chunk ends at "@ + text::decimal_text(end as nat)
                    } else {
                        "chunk "@ + text::decimal_text(index as nat) + " is "@ + text::decimal_text(
                            chunk.length as nat,
                        ) + " bytes, over the "@ + text::decimal_text(1_048_576) + " limit"@
                    },
                ),
            )
        },
{
    let chunks = manifest.chunks;
    if 0 <= index < chunks.len() && (forall|i: int|
        0 <= i < index ==> #[trigger] follows(chunks, i)) && !follows(chunks, index) {
        lemma_first_fault_is(chunks, 0, index);
    }
}

/// A manifest whose chunks lie end to end and do not cover the declared size is
/// refused for its size, whatever the two are.
pub proof fn lemma_wrong_sizes_are_refused(manifest: ManifestView)
    requires
        manifest.manifest_version == 1,
        manifest.redundancy is Plain,
        manifest.chunks.len() > 0,
        forall|i: int| 0 <= i < manifest.chunks.len() ==> #[trigger] follows(manifest.chunks, i),
        manifest.chunks.last().offset + manifest.chunks.last().length <= u64::MAX,
        manifest.chunks.last().offset + manifest.chunks.last().length != manifest.size,
    ensures
        validated(manifest) == Err::<(), _>(
            ManifestErrorView::SizeMismatch {
                declared: manifest.size,
                covered: (manifest.chunks.last().offset + manifest.chunks.last().length) as u64,
            },
        ),
{
    let chunks = manifest.chunks;
    lemma_covered_is_the_end(chunks, chunks.len() as int);
    assert(chunks.take(chunks.len() as int) =~= chunks);
    lemma_no_fault(chunks, 0);
    assert forall|i: int| 0 <= i < chunks.len() implies #[trigger] chunk_fault(
        chunks,
        i,
    ) is None by {
        assert(placed(chunks, i));
    }
}

/// How many bytes chunks hold together grows with each chunk by its length.
pub proof fn lemma_covered_adds_up(chunks: Seq<ChunkView>, chunk: ChunkView)
    ensures
        covered(Seq::empty()) == 0,
        covered(chunks.push(chunk)) == covered(chunks) + chunk.length,
{
    assert(chunks.push(chunk).drop_last() =~= chunks);
}

/// Every manifest can be checked but one of the supported version and scheme whose
/// chunks lie end to end past what can be numbered.
pub proof fn lemma_what_can_be_checked(manifest: ManifestView)
    ensures
        manifest.manifest_version != 1 ==> checkable(manifest),
        !(manifest.redundancy is Plain) ==> checkable(manifest),
        covered(manifest.chunks) <= u64::MAX ==> checkable(manifest),
        checkable(manifest) <==> !(manifest.manifest_version == 1 && manifest.redundancy is Plain
            && exists|count: int|
            0 <= count <= manifest.chunks.len() && #[trigger] contiguous_to(manifest.chunks, count)
                && covered(manifest.chunks.take(count)) > u64::MAX),
        validated(manifest) is Ok ==> checkable(manifest),
{
    if covered(manifest.chunks) <= u64::MAX {
        lemma_measurable_total(manifest.chunks);
    }
    lemma_coherent(manifest);
}

/// The bytes that a chunk describes are those from its offset on, as many as it is
/// long.
pub open spec fn bytes_at(chunk: ChunkView, content: Seq<u8>) -> Seq<u8> {
    content.skip(chunk.offset as int).take(chunk.length as int)
}

/// Content verifies exactly where the manifest passes the check, the size is the
/// declared one, the bytes of every chunk hash to the name of the chunk, and all of
/// them to the name of the object.
pub proof fn lemma_verified_content(manifest: ManifestView, content: Seq<u8>)
    ensures
        verified(manifest, content) is Ok <==> {
            &&& validated(manifest) is Ok
            &&& content.len() == manifest.size
            &&& forall|i: int|
                0 <= i < manifest.chunks.len() ==> (#[trigger] manifest.chunks[i]).cid == "b3:"@
                    + cid::blake3_hex(bytes_at(manifest.chunks[i], content))
            &&& manifest.cid == "b3:"@ + cid::blake3_hex(content)
        },
{
    lemma_coherent(manifest);
    lemma_verified_means(manifest, content);
    if coherent(manifest) && content.len() == manifest.size {
        assert forall|i: int| 0 <= i < manifest.chunks.len() implies slice_of(
            #[trigger] manifest.chunks[i],
            content,
        ) == bytes_at(manifest.chunks[i], content) by {
            lemma_within(manifest, i);
            assert(slice_of(manifest.chunks[i], content) =~= bytes_at(manifest.chunks[i], content));
        }
        assert(forall|i: int|
            0 <= i < manifest.chunks.len() ==> ((#[trigger] manifest.chunks[i]).cid == cid::cid_of(
                slice_of(manifest.chunks[i], content),
            ) <==> manifest.chunks[i].cid == "b3:"@ + cid::blake3_hex(
                bytes_at(manifest.chunks[i], content),
            )));
    }
}

proof fn lemma_first_mismatch_is(chunks: Seq<ChunkView>, content: Seq<u8>, from: int, index: int)
    requires
        0 <= from <= index < chunks.len(),
        forall|i: int|
            from <= i < index ==> (#[trigger] chunks[i]).cid == cid::cid_of(
                slice_of(chunks[i], content),
            ),
        chunks[index].cid != cid::cid_of(slice_of(chunks[index], content)),
    ensures
        first_mismatch(chunks, content, from) == Some(
            ManifestErrorView::CidMismatch {
                declared: chunks[index].cid,
                actual: cid::cid_of(slice_of(chunks[index], content)),
            },
        ),
    decreases index - from,
{
    if from < index {
        lemma_first_mismatch_is(chunks, content, from + 1, index);
    }
}

/// What is wrong with content that does not verify: what is wrong with the manifest
/// first, the size, the first chunk whose bytes hash to another name, and the name of
/// the whole last.
pub proof fn lemma_content_faults(manifest: ManifestView, content: Seq<u8>, index: int)
    ensures
        validated(manifest) matches Err(error) ==> verified(manifest, content) == Err::<(), _>(
            error,
        ),
        validated(manifest) is Ok && content.len() != manifest.size && content.len() <= u64::MAX
            ==> verified(manifest, content) == Err::<(), _>(
            ManifestErrorView::SizeMismatch {
                declared: manifest.size,
                covered: content.len() as u64,
            },
        ),
        validated(manifest) is Ok && content.len() == manifest.size && 0 <= index
            < manifest.chunks.len() && (forall|i: int|
            0 <= i < index ==> (#[trigger] manifest.chunks[i]).cid == "b3:"@ + cid::blake3_hex(
                bytes_at(manifest.chunks[i], content),
            )) && manifest.chunks[index].cid != "b3:"@ + cid::blake3_hex(
            bytes_at(manifest.chunks[index], content),
        ) ==> verified(manifest, content) == Err::<(), _>(
            ManifestErrorView::CidMismatch {
                declared: manifest.chunks[index].cid,
                actual: "b3:"@ + cid::blake3_hex(bytes_at(manifest.chunks[index], content)),
            },
        ),
        validated(manifest) is Ok && content.len() == manifest.size && (forall|i: int|
            0 <= i < manifest.chunks.len() ==> (#[trigger] manifest.chunks[i]).cid == "b3:"@
                + cid::blake3_hex(bytes_at(manifest.chunks[i], content))) && manifest.cid != "b3:"@
            + cid::blake3_hex(content) ==> verified(manifest, content) == Err::<(), _>(
            ManifestErrorView::CidMismatch {
                declared: manifest.cid,
                actual: "b3:"@ + cid::blake3_hex(content),
            },
        ),
{
    let chunks = manifest.chunks;
    lemma_coherent(manifest);
    if coherent(manifest) && content.len() == manifest.size {
        assert forall|i: int| 0 <= i < chunks.len() implies slice_of(#[trigger] chunks[i], content)
            == bytes_at(chunks[i], content) by {
            lemma_within(manifest, i);
            assert(slice_of(chunks[i], content) =~= bytes_at(chunks[i], content));
        }
        if 0 <= index < chunks.len() && (forall|i: int|
            0 <= i < index ==> (#[trigger] chunks[i]).cid == "b3:"@ + cid::blake3_hex(
                bytes_at(chunks[i], content),
            )) && chunks[index].cid != "b3:"@ + cid::blake3_hex(bytes_at(chunks[index], content)) {
            lemma_first_mismatch_is(chunks, content, 0, index);
        }
        if forall|i: int|
            0 <= i < chunks.len() ==> (#[trigger] chunks[i]).cid == "b3:"@ + cid::blake3_hex(
                bytes_at(chunks[i], content),
            ) {
            lemma_no_mismatch(chunks, content, 0);
        }
    }
}

/// The manifest of some content: of version 1 and stored as it is, with its size, its
/// hash and the media type it was given; and in chunks of 1 MiB, the last of them what
/// is left, each named by the hash of its bytes.
pub proof fn lemma_built_manifests(content: Seq<u8>, media_type: Option<Seq<char>>, index: int)
    requires
        content.len() <= u64::MAX,
    ensures
        ({
            let manifest = built(content, media_type);
            let count = manifest.chunks.len();
            let start = index * 1_048_576;
            let end = if start + 1_048_576 <= content.len() {
                start + 1_048_576
            } else {
                content.len() as int
            };
            &&& manifest.manifest_version == 1
            &&& manifest.redundancy is Plain
            &&& manifest.size == content.len()
            &&& manifest.media_type == media_type
            &&& manifest.cid == "b3:"@ + cid::blake3_hex(content)
            &&& content.len() == 0 ==> count == 1
            &&& content.len() > 0 ==> (count - 1) * 1_048_576 < content.len() <= count * 1_048_576
            &&& 0 <= index < count ==> {
                &&& manifest.chunks[index].offset == start
                &&& manifest.chunks[index].length == end - start
                &&& manifest.chunks[index].cid == "b3:"@ + cid::blake3_hex(
                    content.subrange(start, end),
                )
            }
        }),
{
}

/// The names of chunks are theirs, in order.
pub proof fn lemma_chunk_names(chunks: Seq<ChunkView>, index: int)
    ensures
        chunk_cids(chunks).len() == chunks.len(),
        0 <= index < chunks.len() ==> chunk_cids(chunks)[index] == chunks[index].cid,
{
}

/// Counting distinct chunks: a chunk counts exactly where no chunk before it has its
/// name.
pub proof fn lemma_distinct_chunks_are_counted(chunks: Seq<ChunkView>, chunk: ChunkView)
    ensures
        chunk_cids(Seq::<ChunkView>::empty()).to_set().len() == 0,
        chunk_cids(chunks.push(chunk)).to_set().len() == chunk_cids(chunks).to_set().len() + if (
        exists|i: int| 0 <= i < chunks.len() && (#[trigger] chunks[i]).cid == chunk.cid) {
            0int
        } else {
            1
        },
{
    let cids = chunk_cids(chunks);
    let more = chunk_cids(chunks.push(chunk));
    vstd::seq_lib::seq_to_set_is_finite(cids);
    assert(chunk_cids(Seq::<ChunkView>::empty()).to_set() =~= Set::empty());
    assert(more =~= cids.push(chunk.cid));
    lemma_set_of_next(more, cids.len() as int);
    assert(more.take(cids.len() as int) =~= cids);
    assert(more.take(more.len() as int) =~= more);
    if exists|i: int| 0 <= i < chunks.len() && (#[trigger] chunks[i]).cid == chunk.cid {
        let i = choose|i: int| 0 <= i < chunks.len() && (#[trigger] chunks[i]).cid == chunk.cid;
        assert(cids[i] == chunk.cid);
        assert(cids.to_set().contains(chunk.cid));
    } else if cids.to_set().contains(chunk.cid) {
        let i = choose|i: int| 0 <= i < cids.len() && cids[i] == chunk.cid;
        assert(chunks[i].cid == chunk.cid);
    }
}

/// The model of a manifest, and of a check, holds what the manifest or the check holds.
pub proof fn lemma_views(manifest: Manifest, index: int, error: ManifestError)
    ensures
        manifest@.manifest_version == manifest.manifest_version,
        manifest@.cid == manifest.cid@,
        manifest@.size == manifest.size,
        manifest@.redundancy == manifest.redundancy,
        match manifest.media_type {
            Some(text) => manifest@.media_type == Some(text@),
            None => manifest@.media_type is None,
        },
        manifest@.chunks.len() == manifest.chunks@.len(),
        0 <= index < manifest.chunks@.len() ==> {
            &&& manifest@.chunks[index].cid == manifest.chunks@[index].cid@
            &&& manifest@.chunks[index].offset == manifest.chunks@[index].offset
            &&& manifest@.chunks[index].length == manifest.chunks@[index].length
        },
        check_view(Ok(())) is Ok,
        check_view(Err(error)) == Err::<(), _>(error@),
        match error {
            ManifestError::UnsupportedVersion(version) => error@
                == ManifestErrorView::UnsupportedVersion(version),
            ManifestError::NotContiguous(detail) => error@ == ManifestErrorView::NotContiguous(
                detail@,
            ),
            ManifestError::SizeMismatch { declared, covered } => error@ == (
            ManifestErrorView::SizeMismatch { declared, covered }),
            ManifestError::CidMismatch { declared, actual } => error@ == (
            ManifestErrorView::CidMismatch { declared: declared@, actual: actual@ }),
            ManifestError::UnsupportedRedundancy => error@ is UnsupportedRedundancy,
            ManifestError::Empty => error@ is Empty,
        },
{
}

/// What is said of a manifest that does not pass.
pub proof fn lemma_error_messages(
    version: u32,
    detail: Seq<char>,
    declared: u64,
    covered: u64,
    name: Seq<char>,
    actual: Seq<char>,
)
    ensures
        ManifestErrorView::UnsupportedVersion(version).message() == "manifest version "@
            + text::decimal_text(version as nat) + " is not supported (expected 1)"@,
        ManifestErrorView::NotContiguous(detail).message() == "chunks do not tile the object: "@
            + detail,
        (ManifestErrorView::SizeMismatch { declared, covered }).message() == "declared size "@
            + text::decimal_text(declared as nat) + " but chunks cover "@ + text::decimal_text(
            covered as nat,
        ),
        (ManifestErrorView::CidMismatch { declared: name, actual }).message()
            == "content hashes to "@ + actual + ", not "@ + name,
        ManifestErrorView::UnsupportedRedundancy.message()
            == "redundancy scheme is not implemented; refusing to guess"@,
        ManifestErrorView::Empty.message() == "a manifest must describe at least one chunk"@,
{
}

/// The format is of version 1, a chunk holds 1 MiB, and so many chunks can always be
/// measured as chunks of that size can be numbered.
pub proof fn lemma_limits()
    ensures
        MANIFEST_VERSION == 1,
        CHUNK_BYTES == 1_048_576,
        MAX_CHUNKS * 1_048_576 <= u64::MAX < (MAX_CHUNKS + 1) * 1_048_576,
{
}

} // verus!

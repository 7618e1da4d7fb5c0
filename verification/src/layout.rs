//! Where the parts of an object are kept: two levels deep by digest, so that no
//! directory ever holds millions of entries.

use vstd::prelude::*;
use vstd::string::*;

use crate::cid;
use crate::cid::Cid;

verus! {

/// The place of one part of an object: the kind of part, two levels of shards,
/// the digest, and a suffix.
pub open spec fn place(kind: Seq<char>, cid: Seq<char>, suffix: Seq<char>) -> Seq<char> {
    let digest = cid::digest_of(cid);
    kind + "/"@ + digest.subrange(0, 2) + "/"@ + digest.subrange(2, 4) + "/"@ + digest + suffix
}

/// The directory of one part of an object.
pub open spec fn directory(kind: Seq<char>, cid: Seq<char>) -> Seq<char> {
    let digest = cid::digest_of(cid);
    kind + "/"@ + digest.subrange(0, 2) + "/"@ + digest.subrange(2, 4)
}

/// The directory of one part of an object.
pub fn directory_of(kind: &str, cid: &Cid) -> (path: String)
    ensures
        path@ == directory(kind@, cid@),
{
    let (first, second, _) = cid.shard_path();
    let mut path = kind.to_owned();
    path.append("/");
    path.append(first.as_str());
    path.append("/");
    path.append(second.as_str());
    path
}

/// The place of one part of an object.
pub fn place_of(kind: &str, cid: &Cid, suffix: &str) -> (path: String)
    ensures
        path@ == place(kind@, cid@, suffix@),
{
    let mut path = directory_of(kind, cid);
    path.append("/");
    path.append(cid.digest());
    path.append(suffix);
    path
}

/// No two parts share a place: it tells the kind, the object and the suffix.
pub proof fn lemma_places_are_distinct(
    kind: Seq<char>,
    cid: Seq<char>,
    suffix: Seq<char>,
    other_kind: Seq<char>,
    other_cid: Seq<char>,
    other_suffix: Seq<char>,
)
    requires
        kind.len() == other_kind.len(),
        cid::is_cid(cid),
        cid::is_cid(other_cid),
        place(kind, cid, suffix) == place(other_kind, other_cid, other_suffix),
    ensures
        kind == other_kind,
        cid == other_cid,
        suffix == other_suffix,
{
    reveal_strlit("/");
    let left = place(kind, cid, suffix);
    let right = place(other_kind, other_cid, other_suffix);
    let start = kind.len() as int;
    assert(left.subrange(0, start) =~= kind);
    assert(right.subrange(0, start) =~= other_kind);
    assert(left.subrange(start + 7, start + 71) =~= cid::digest_of(cid));
    assert(right.subrange(start + 7, start + 71) =~= cid::digest_of(other_cid));
    assert(left.subrange(start + 71, left.len() as int) =~= suffix);
    assert(right.subrange(start + 71, right.len() as int) =~= other_suffix);
    cid::lemma_digest_identifies(cid, other_cid);
}

/// A place lies in its directory.
pub proof fn lemma_place_in_directory(kind: Seq<char>, cid: Seq<char>, suffix: Seq<char>)
    ensures
        place(kind, cid, suffix) == directory(kind, cid) + "/"@ + cid::digest_of(cid) + suffix,
{
}

/// A place spells the name out: the kind of part, the first two and the next two
/// digits of the digest, all 64 of them, and the suffix.
pub proof fn lemma_places_spell_the_name(kind: Seq<char>, cid: Seq<char>, suffix: Seq<char>)
    requires
        cid::is_cid(cid),
    ensures
        directory(kind, cid) == kind + "/"@ + cid.subrange(3, 5) + "/"@ + cid.subrange(5, 7),
        place(kind, cid, suffix) == kind + "/"@ + cid.subrange(3, 5) + "/"@ + cid.subrange(5, 7)
            + "/"@ + cid.subrange(3, 67) + suffix,
{
    cid::lemma_canonical_form(cid);
    let digest = cid::digest_of(cid);
    assert(digest.subrange(0, 2) =~= cid.subrange(3, 5));
    assert(digest.subrange(2, 4) =~= cid.subrange(5, 7));
}

} // verus!

//! Content identifiers.

use std::str::FromStr;

use vstd::prelude::*;
use vstd::string::*;
use vstd::utf8::*;

use crate::text;

verus! {

/// Prefix identifying the hash function.
///
/// Present so that changing hash function is a visible, parseable migration
/// rather than a silent reinterpretation of every existing name.
pub const CID_PREFIX: &'static str = "b3:";

/// Length of the hex-encoded digest.
pub const CID_HEX_LEN: usize = 64;

/// The BLAKE3 hash of `content`, in hexadecimal.
pub uninterp spec fn blake3_hex(content: Seq<u8>) -> Seq<char>;

/// A lowercase hexadecimal digit.
pub open spec fn is_lower_hex(c: char) -> bool {
    '0' <= c <= '9' || 'a' <= c <= 'f'
}

/// Text made of lowercase hexadecimal digits only.
pub open spec fn all_lower_hex(text: Seq<char>) -> bool {
    forall|i: int| 0 <= i < text.len() ==> is_lower_hex(#[trigger] text[i])
}

/// The canonical form of an identifier: the prefix, then a digest of
/// `CID_HEX_LEN` lowercase hexadecimal digits.
pub open spec fn is_cid(text: Seq<char>) -> bool {
    &&& text::has_prefix(text, CID_PREFIX@)
    &&& text.skip(CID_PREFIX@.len() as int).len() == CID_HEX_LEN
    &&& all_lower_hex(text.skip(CID_PREFIX@.len() as int))
}

/// The digest part of an identifier.
pub open spec fn digest_of(cid: Seq<char>) -> Seq<char> {
    cid.skip(CID_PREFIX@.len() as int)
}

/// The one name of some content.
pub open spec fn cid_of(content: Seq<u8>) -> Seq<char> {
    CID_PREFIX@ + blake3_hex(content)
}

/// A [`CidError`] as a value of the model.
pub enum CidErrorView {
    /// The prefix is missing.
    MissingPrefix(Seq<char>),
    /// The digest has the wrong length, in bytes.
    BadLength(nat),
    /// The digest is not lowercase hex.
    NotLowercaseHex,
}

/// What parsing `value` comes to.
pub open spec fn parsed_cid(value: Seq<char>) -> Result<Seq<char>, CidErrorView> {
    let digest = value.skip(CID_PREFIX@.len() as int);
    if !text::has_prefix(value, CID_PREFIX@) {
        Err(CidErrorView::MissingPrefix(value))
    } else if encode_utf8(digest).len() != CID_HEX_LEN {
        Err(CidErrorView::BadLength(encode_utf8(digest).len()))
    } else if !all_lower_hex(digest) {
        Err(CidErrorView::NotLowercaseHex)
    } else {
        Ok(value)
    }
}

/// Hashes with `blake3::hash` and writes the hash with `blake3::Hash::to_hex`.
///
/// The result is a function of the bytes alone, named `blake3_hex`. A BLAKE3
/// hash has 32 bytes and `to_hex` writes two lowercase digits for each.
#[verifier::external_body]
fn blake3_hash_hex(content: &[u8]) -> (hex: String)
    ensures
        hex@ == blake3_hex(content@),
        hex@.len() == CID_HEX_LEN,
        all_lower_hex(hex@),
{
    blake3::hash(content).to_hex().as_str().to_owned()
}

/// The text of a string as `{:?}` writes it, escaped and in quotes.
pub uninterp spec fn quoted_text(text: Seq<char>) -> Seq<char>;

/// Writes a string with the `Debug` implementation of `str`, named
/// `quoted_text`.
#[verifier::external_body]
fn quoted(text: &str) -> (quoted: String)
    ensures
        quoted@ == quoted_text(text@),
{
    format!("{text:?}")
}

/// A content identifier: `b3:` followed by a lowercase BLAKE3 digest.
#[derive(Debug, PartialEq, Eq, PartialOrd, Ord, Hash)]
pub struct Cid(String);

/// A string that is not a valid CID.
#[derive(Debug, PartialEq, Eq)]
pub enum CidError {
    /// The `b3:` prefix is missing.
    MissingPrefix(String),
    /// The digest is not 64 hex characters.
    BadLength(usize),
    /// The digest contains a character that is not lowercase hex.
    NotLowercaseHex,
}

impl View for Cid {
    type V = Seq<char>;

    closed spec fn view(&self) -> Seq<char> {
        self.0@
    }
}

impl View for CidError {
    type V = CidErrorView;

    open spec fn view(&self) -> CidErrorView {
        match *self {
            CidError::MissingPrefix(value) => CidErrorView::MissingPrefix(value@),
            CidError::BadLength(length) => CidErrorView::BadLength(length as nat),
            CidError::NotLowercaseHex => CidErrorView::NotLowercaseHex,
        }
    }
}

impl CidErrorView {
    /// The sentence a person reads.
    pub open spec fn message(self) -> Seq<char> {
        match self {
            CidErrorView::MissingPrefix(value) => "missing the `b3:` prefix: "@ + quoted_text(
                value,
            ),
            CidErrorView::BadLength(length) => "digest must be 64 hex characters, got "@
                + text::decimal_text(length),
            CidErrorView::NotLowercaseHex => "digest must be lowercase hex"@,
        }
    }
}

impl CidError {
    /// The sentence a person reads.
    pub fn message(&self) -> (message: String)
        ensures
            message@ == self@.message(),
    {
        match self {
            CidError::MissingPrefix(value) => "missing the `b3:` prefix: ".to_owned().concat(
                quoted(value.as_str()).as_str(),
            ),
            CidError::BadLength(length) => "digest must be 64 hex characters, got ".to_owned().concat(
                text::decimal(*length as u64).as_str(),
            ),
            CidError::NotLowercaseHex => "digest must be lowercase hex".to_owned(),
        }
    }
}

/// A parse result as a value of the model.
pub open spec fn parse_view(result: Result<Cid, CidError>) -> Result<Seq<char>, CidErrorView> {
    match result {
        Ok(cid) => Ok(cid@),
        Err(error) => Err(error@),
    }
}

impl Clone for Cid {
    fn clone(&self) -> (copy: Self)
        ensures
            copy@ == self@,
    {
        proof {
            use_type_invariant(self);
        }
        Cid(self.0.clone())
    }
}

impl FromStr for Cid {
    type Err = CidError;

    fn from_str(s: &str) -> (result: Result<Self, CidError>)
        ensures
            parse_view(result) == parsed_cid(s@),
            result matches Ok(cid) ==> is_cid(cid@),
    {
        Cid::parse(s)
    }
}

impl Cid {
    /// Every identifier is in canonical form.
    #[verifier::type_invariant]
    pub closed spec fn canonical(&self) -> bool {
        is_cid(self@)
    }

    /// The CID of some bytes.
    pub fn of(bytes: &[u8]) -> (cid: Self)
        ensures
            cid@ == cid_of(bytes@),
            cid@ == "b3:"@ + blake3_hex(bytes@),
            is_cid(cid@),
    {
        Self::of_digest(blake3_hash_hex(bytes).as_str())
    }

    /// The CID with a digest.
    pub fn of_digest(hex: &str) -> (cid: Self)
        requires
            hex@.len() == CID_HEX_LEN,
            all_lower_hex(hex@),
        ensures
            cid@ == CID_PREFIX@ + hex@,
            is_cid(cid@),
    {
        let name = CID_PREFIX.to_owned().concat(hex);
        proof {
            assert(name@.skip(CID_PREFIX@.len() as int) =~= hex@);
            assert(name@.subrange(0, CID_PREFIX@.len() as int) =~= CID_PREFIX@);
        }
        Cid(name)
    }

    /// Parse and validate.
    ///
    /// Lowercase only, so one piece of content has exactly one name. Accepting
    /// both cases would silently create two names for the same bytes and defeat
    /// deduplication.
    pub fn parse(value: &str) -> (result: Result<Self, CidError>)
        ensures
            parse_view(result) == parsed_cid(value@),
            result matches Ok(cid) ==> is_cid(cid@),
    {
        let hex = match text::strip_prefix(value, CID_PREFIX) {
            Some(hex) => hex,
            None => return Err(CidError::MissingPrefix(value.to_owned())),
        };
        let length: usize = hex.as_bytes().len();
        if length != CID_HEX_LEN {
            return Err(CidError::BadLength(length));
        }
        let chars = text::chars_of(hex);
        let mut index: usize = 0;
        while index < chars.len()
            invariant
                chars@ == hex@,
                index <= chars@.len(),
                forall|i: int| 0 <= i < index ==> is_lower_hex(#[trigger] hex@[i]),
                hex@ == value@.skip(CID_PREFIX@.len() as int),
                text::has_prefix(value@, CID_PREFIX@),
                encode_utf8(hex@).len() == CID_HEX_LEN,
            decreases chars@.len() - index,
        {
            let c = chars[index];
            if !(('0' <= c && c <= '9') || ('a' <= c && c <= 'f')) {
                assert(!is_lower_hex(hex@[index as int]));
                return Err(CidError::NotLowercaseHex);
            }
            index = index + 1;
        }
        proof {
            is_ascii_chars_encode_utf8(hex@);
        }
        Ok(Cid(value.to_owned()))
    }

    /// Whether `bytes` really are the content this CID names.
    pub fn verifies(&self, bytes: &[u8]) -> (verified: bool)
        ensures
            verified == (cid_of(bytes@) == self@),
            verified == (self@ == "b3:"@ + blake3_hex(bytes@)),
    {
        Self::of(bytes).same(self)
    }

    /// Whether two identifiers name the same content.
    pub fn same(&self, other: &Cid) -> (same: bool)
        ensures
            same == (self@ == other@),
    {
        self.0 == other.0
    }

    /// The full identifier, including the prefix.
    pub fn as_str(&self) -> (text: &str)
        ensures
            text@ == self@,
            is_cid(text@),
    {
        proof {
            use_type_invariant(self);
        }
        self.0.as_str()
    }

    /// The hex digest, without the prefix.
    pub fn digest(&self) -> (digest: &str)
        ensures
            digest@ == digest_of(self@),
            digest@.len() == CID_HEX_LEN,
            all_lower_hex(digest@),
    {
        let name = self.as_str();
        let digest = name.substring_char(CID_PREFIX.unicode_len(), name.unicode_len());
        assert(digest@ =~= digest_of(self@));
        digest
    }

    /// A short prefix, for logs. Never use this to identify an object.
    pub fn short(&self) -> (short: &str)
        ensures
            short@ == digest_of(self@).take(8),
            short@.len() == 8,
    {
        let short = self.digest().substring_char(0, 8);
        assert(short@ =~= digest_of(self@).take(8));
        short
    }

    /// A two-level fan-out path, so a directory never holds millions of entries.
    pub fn shard_path(&self) -> (path: (String, String, String))
        ensures
            path.0@ == digest_of(self@).subrange(0, 2),
            path.1@ == digest_of(self@).subrange(2, 4),
            path.2@ == digest_of(self@),
            all_lower_hex(path.0@),
            all_lower_hex(path.1@),
            all_lower_hex(path.2@),
    {
        let digest = self.digest();
        (
            digest.substring_char(0, 2).to_owned(),
            digest.substring_char(2, 4).to_owned(),
            digest.to_owned(),
        )
    }
}

/// Parsing accepts exactly the canonical form, and gives it back unchanged: an
/// identifier has one spelling.
pub proof fn lemma_parse_canonical(text: Seq<char>)
    ensures
        parsed_cid(text) is Ok <==> is_cid(text),
        is_cid(text) ==> parsed_cid(text) == Ok::<_, CidErrorView>(text),
{
    let digest = text.skip(CID_PREFIX@.len() as int);
    if all_lower_hex(digest) {
        is_ascii_chars_encode_utf8(digest);
    }
}

/// An identifier holds nothing that could lead out of a directory.
pub proof fn lemma_no_path_characters(text: Seq<char>)
    requires
        is_cid(text),
    ensures
        !text.contains('/'),
        !text.contains('.'),
        !digest_of(text).contains('/'),
        !digest_of(text).contains('.'),
{
    reveal_strlit("b3:");
    let digest = digest_of(text);
    assert forall|i: int| 0 <= i < text.len() implies text[i] != '/' && text[i] != '.' by {
        if i < 3 {
            assert(text.subrange(0, 3)[i] == CID_PREFIX@[i]);
        } else {
            assert(digest[i - 3] == text[i]);
        }
    }
}

/// Two identifiers with the same digest are the same identifier.
pub proof fn lemma_digest_identifies(left: Seq<char>, right: Seq<char>)
    requires
        is_cid(left),
        is_cid(right),
        digest_of(left) == digest_of(right),
    ensures
        left == right,
{
    let length = CID_PREFIX@.len() as int;
    assert(left =~= left.subrange(0, length) + left.skip(length));
    assert(right =~= right.subrange(0, length) + right.skip(length));
}

/// The name of some content is the prefix and the hash of all of its bytes, so two
/// contents share a name exactly where they share their hash.
pub proof fn lemma_names_are_hashes(content: Seq<u8>, other: Seq<u8>)
    ensures
        cid_of(content) == "b3:"@ + blake3_hex(content),
        cid_of(content) == cid_of(other) <==> blake3_hex(content) == blake3_hex(other),
        digest_of(cid_of(content)) == blake3_hex(content),
{
    assert(digest_of(cid_of(content)) =~= blake3_hex(content));
    assert(digest_of(cid_of(other)) =~= blake3_hex(other));
}

/// A name is canonical exactly where it has 67 characters, `b3:` and then digits and
/// the letters from `a` to `f`. Its digest is what follows the colon.
pub proof fn lemma_canonical_form(text: Seq<char>)
    ensures
        is_cid(text) <==> {
            &&& text.len() == 67
            &&& text[0] == 'b' && text[1] == '3' && text[2] == ':'
            &&& forall|i: int|
                3 <= i < 67 ==> '0' <= #[trigger] text[i] <= '9' || 'a' <= text[i] <= 'f'
        },
        text.len() == 67 ==> digest_of(text) == text.subrange(3, 67),
{
    reveal_strlit("b3:");
    let digest = text.skip(3);
    if text.len() == 67 {
        assert(digest =~= text.subrange(3, 67));
        if text[0] == 'b' && text[1] == '3' && text[2] == ':' {
            assert(text.subrange(0, 3) =~= CID_PREFIX@);
        }
        assert forall|i: int| 3 <= i < 67 implies text[i] == digest[i - 3] by {}
    }
    if is_cid(text) {
        assert(text.subrange(0, 3)[0] == 'b');
        assert(text.subrange(0, 3)[1] == '3');
        assert(text.subrange(0, 3)[2] == ':');
        assert forall|i: int| 3 <= i < 67 implies '0' <= #[trigger] text[i] <= '9' || 'a' <= text[i]
            <= 'f' by {
            assert(is_lower_hex(digest[i - 3]));
        }
    }
    if text.len() == 67 && (forall|i: int|
        3 <= i < 67 ==> '0' <= #[trigger] text[i] <= '9' || 'a' <= text[i] <= 'f') {
        assert forall|i: int| 0 <= i < digest.len() implies is_lower_hex(#[trigger] digest[i]) by {
            assert(digest[i] == text[i + 3]);
        }
    }
}

/// Every text parses to itself or to one error: without `b3:` in front the prefix is
/// missing, with other than 64 bytes behind it the length is wrong, and otherwise one
/// of the characters is no lowercase digit.
pub proof fn lemma_parse_outcomes(rest: Seq<char>, value: Seq<char>)
    ensures
        parsed_cid("b3:"@ + rest) == if encode_utf8(rest).len() != 64 {
            Err(CidErrorView::BadLength(encode_utf8(rest).len()))
        } else if exists|i: int|
            0 <= i < rest.len() && !('0' <= #[trigger] rest[i] <= '9' || 'a' <= rest[i] <= 'f') {
            Err(CidErrorView::NotLowercaseHex)
        } else {
            Ok("b3:"@ + rest)
        },
        value.len() < 3 || value.take(3) != "b3:"@ ==> parsed_cid(value) == Err::<Seq<char>, _>(
            CidErrorView::MissingPrefix(value),
        ),
{
    reveal_strlit("b3:");
    let whole = "b3:"@ + rest;
    assert(whole.skip(3) =~= rest);
    assert(whole.subrange(0, 3) =~= "b3:"@);
    if forall|i: int|
        0 <= i < rest.len() ==> ('0' <= #[trigger] rest[i] <= '9' || 'a' <= rest[i] <= 'f') {
        assert(all_lower_hex(rest));
    }
    if exists|i: int|
        0 <= i < rest.len() && !('0' <= #[trigger] rest[i] <= '9' || 'a' <= rest[i] <= 'f') {
        let i = choose|i: int|
            0 <= i < rest.len() && !('0' <= #[trigger] rest[i] <= '9' || 'a' <= rest[i] <= 'f');
        assert(!is_lower_hex(rest[i]));
    }
    if value.len() >= 3 {
        assert(value.take(3) =~= value.subrange(0, 3));
    }
}

/// What is said of a text that is no name.
pub proof fn lemma_error_messages(value: Seq<char>, length: nat)
    ensures
        CidErrorView::MissingPrefix(value).message() == "missing the `b3:` prefix: "@ + quoted_text(
            value,
        ),
        CidErrorView::BadLength(length).message() == "digest must be 64 hex characters, got "@
            + text::decimal_text(length),
        CidErrorView::NotLowercaseHex.message() == "digest must be lowercase hex"@,
{
}

/// The model of an error, and of a parse, holds what the error or the parse holds.
pub proof fn lemma_views(cid: Cid, value: String, length: usize)
    ensures
        CidError::MissingPrefix(value)@ == CidErrorView::MissingPrefix(value@),
        CidError::BadLength(length)@ == CidErrorView::BadLength(length as nat),
        CidError::NotLowercaseHex@ is NotLowercaseHex,
        parse_view(Ok(cid)) == Ok::<_, CidErrorView>(cid@),
        parse_view(Err(CidError::MissingPrefix(value))) == Err::<Seq<char>, _>(
            CidErrorView::MissingPrefix(value@),
        ),
        parse_view(Err(CidError::BadLength(length))) == Err::<Seq<char>, _>(
            CidErrorView::BadLength(length as nat),
        ),
        parse_view(Err(CidError::NotLowercaseHex)) == Err::<Seq<char>, _>(
            CidErrorView::NotLowercaseHex,
        ),
{
}

} // verus!

//! The outside functions that tokens are made with: base64, HMAC-SHA256,
//! constant-time comparison and JSON.

use vstd::prelude::*;

use crate::json;

verus! {

/// A character of the URL-safe base64 alphabet.
pub open spec fn is_base64url_char(c: char) -> bool {
    'A' <= c <= 'Z' || 'a' <= c <= 'z' || '0' <= c <= '9' || c == '-' || c == '_'
}

/// Bytes in URL-safe base64, without padding.
pub uninterp spec fn base64url(bytes: Seq<u8>) -> Seq<char>;

/// The bytes that a text stands for in URL-safe base64, if it stands for any.
pub uninterp spec fn base64url_decoded(text: Seq<char>) -> Option<Seq<u8>>;

/// The HMAC-SHA256 of a message under a key.
pub uninterp spec fn hmac_sha256(key: Seq<u8>, message: Seq<u8>) -> Seq<u8>;

/// The JSON string that some bytes begin with after blanks, and how many bytes it
/// takes, blanks included.
pub uninterp spec fn json_head_text(bytes: Seq<u8>) -> Option<(Seq<char>, nat)>;

/// The JSON integer that some bytes begin with after blanks, if it fits `u64`.
pub uninterp spec fn json_head_unsigned(bytes: Seq<u8>) -> Option<u64>;

/// The JSON integer that some bytes begin with after blanks, if it fits `i64`.
pub uninterp spec fn json_head_signed(bytes: Seq<u8>) -> Option<i64>;

/// How many bytes the JSON value takes that some bytes begin with, blanks included.
pub uninterp spec fn json_head_end(bytes: Seq<u8>) -> Option<nat>;

/// The five elements of the JSON array that `json` holds, if it holds such an
/// array: text, text, an integer that fits `u64`, one that fits `i64`, text.
pub uninterp spec fn json_row(json: Seq<u8>) -> Option<
    (Seq<char>, Seq<char>, u64, i64, Seq<char>),
>;

/// The JSON object with five members in the given order.
pub uninterp spec fn json_object(
    first: (Seq<char>, Seq<char>),
    second: (Seq<char>, Seq<char>),
    third: (Seq<char>, u64),
    fourth: (Seq<char>, i64),
    fifth: (Seq<char>, Seq<char>),
) -> Seq<u8>;

/// What `base64` reports of text that it does not decode.
#[verifier::external_type_specification]
#[verifier::external_body]
pub struct ExDecodeError(base64::DecodeError);

/// Encodes with `base64::Engine::encode` of `URL_SAFE_NO_PAD`.
///
/// The text is a function of the bytes, named `base64url`. It is made of
/// characters of the URL-safe alphabet, and decoding it gives the bytes back. The
/// engine accepts neither padding nor stray bits in the last character, so no
/// other text decodes to them.
#[verifier::external_body]
pub(crate) fn base64url_encode(bytes: &[u8]) -> (text: String)
    ensures
        text@ == base64url(bytes@),
        forall|i: int| 0 <= i < text@.len() ==> is_base64url_char(#[trigger] text@[i]),
        base64url_decoded(text@) == Some(bytes@),
        forall|other: Seq<char>| #[trigger]
            base64url_decoded(other) == Some(bytes@) ==> other == text@,
{
    base64::Engine::encode(&base64::engine::general_purpose::URL_SAFE_NO_PAD, bytes)
}

/// Decodes with `base64::Engine::decode` of `URL_SAFE_NO_PAD`.
///
/// The outcome is a function of the text, named `base64url_decoded`. The engine
/// accepts neither padding nor stray bits in the last character, so a text that
/// decodes is the encoding of the bytes it decodes to.
#[verifier::external_body]
pub(crate) fn base64url_decode(text: &str) -> (result: Result<Vec<u8>, base64::DecodeError>)
    ensures
        match result {
            Ok(bytes) => base64url_decoded(text@) == Some(bytes@) && base64url(bytes@) == text@,
            Err(_) => base64url_decoded(text@) is None,
        },
{
    base64::Engine::decode(&base64::engine::general_purpose::URL_SAFE_NO_PAD, text)
}

/// Computes with `hmac::Hmac<sha2::Sha256>`.
///
/// The tag is a function of key and message, named `hmac_sha256`, and has the
/// 32 bytes of a SHA-256 digest. HMAC takes a key of any length.
#[verifier::external_body]
pub(crate) fn hmac_sha256_tag(key: &[u8], message: &[u8]) -> (tag: Vec<u8>)
    ensures
        tag@ == hmac_sha256(key@, message@),
        tag@.len() == 32,
{
    let mut mac: hmac::Hmac<sha2::Sha256> = hmac::Mac::new_from_slice(key).expect(
        "HMAC accepts every key",
    );
    hmac::Mac::update(&mut mac, message);
    hmac::Mac::finalize(mac).into_bytes().to_vec()
}

/// Compares with `subtle::ConstantTimeEq::ct_eq` on byte slices: whether both
/// have the same length and the same bytes.
#[verifier::external_body]
pub(crate) fn constant_time_eq(left: &[u8], right: &[u8]) -> (equal: bool)
    ensures
        equal == (left@ == right@),
{
    bool::from(subtle::ConstantTimeEq::ct_eq(left, right))
}

/// Writes a `serde_json::Map` of five members with `serde_json::to_vec`.
///
/// The bytes are a function of the members and their order, named
/// `json_object`. Where the keys differ, reading a member back gives the value
/// it was written with; and an object is not an array.
#[verifier::external_body]
pub(crate) fn json_write_object(
    first: (&str, &str),
    second: (&str, &str),
    third: (&str, u64),
    fourth: (&str, i64),
    fifth: (&str, &str),
) -> (json: Vec<u8>)
    requires
        seq![first.0@, second.0@, third.0@, fourth.0@, fifth.0@].no_duplicates(),
    ensures
        json@ == json_object(
            (first.0@, first.1@),
            (second.0@, second.1@),
            (third.0@, third.1),
            (fourth.0@, fourth.1),
            (fifth.0@, fifth.1@),
        ),
        json::text_member(json@, first.0@) == Some(first.1@),
        json::text_member(json@, second.0@) == Some(second.1@),
        json::unsigned_member(json@, third.0@) == Some(third.1),
        json::signed_member(json@, fourth.0@) == Some(fourth.1),
        json::text_member(json@, fifth.0@) == Some(fifth.1@),
        json_row(json@) is None,
{
    let mut object = serde_json::Map::new();
    object.insert(first.0.to_owned(), serde_json::Value::from(first.1));
    object.insert(second.0.to_owned(), serde_json::Value::from(second.1));
    object.insert(third.0.to_owned(), serde_json::Value::from(third.1));
    object.insert(fourth.0.to_owned(), serde_json::Value::from(fourth.1));
    object.insert(fifth.0.to_owned(), serde_json::Value::from(fifth.1));
    serde_json::to_vec(&object).expect("text and integers are serializable")
}

/// Reads the string that some bytes begin with, with a
/// `serde_json::StreamDeserializer` of `String` and its `byte_offset`.
///
/// The outcome is a function of the bytes, named `json_head_text`. A string takes at
/// least one byte and no more than there are.
#[verifier::external_body]
pub(crate) fn json_read_head_text(bytes: &[u8]) -> (head: Option<(String, usize)>)
    ensures
        match head {
            Some((text, length)) => {
                &&& json_head_text(bytes@) == Some((text@, length as nat))
                &&& 0 < length <= bytes@.len()
            },
            None => json_head_text(bytes@) is None,
        },
{
    let mut values = serde_json::Deserializer::from_slice(bytes).into_iter::<String>();
    let text = values.next()?.ok()?;
    Some((text, values.byte_offset()))
}

/// Reads the integer that some bytes begin with, with a
/// `serde_json::StreamDeserializer` of `u64`, a function of the bytes, named
/// `json_head_unsigned`.
#[verifier::external_body]
pub(crate) fn json_read_head_unsigned(bytes: &[u8]) -> (head: Option<u64>)
    ensures
        head == json_head_unsigned(bytes@),
{
    serde_json::Deserializer::from_slice(bytes).into_iter::<u64>().next()?.ok()
}

/// Reads the integer that some bytes begin with, with a
/// `serde_json::StreamDeserializer` of `i64`, a function of the bytes, named
/// `json_head_signed`.
#[verifier::external_body]
pub(crate) fn json_read_head_signed(bytes: &[u8]) -> (head: Option<i64>)
    ensures
        head == json_head_signed(bytes@),
{
    serde_json::Deserializer::from_slice(bytes).into_iter::<i64>().next()?.ok()
}

/// Passes over the value that some bytes begin with, with a
/// `serde_json::StreamDeserializer` of `serde::de::IgnoredAny` and its
/// `byte_offset`.
///
/// The outcome is a function of the bytes, named `json_head_end`. A value takes at
/// least one byte and no more than there are.
#[verifier::external_body]
pub(crate) fn json_read_head_end(bytes: &[u8]) -> (length: Option<usize>)
    ensures
        match length {
            Some(length) => json_head_end(bytes@) == Some(length as nat) && 0 < length
                <= bytes@.len(),
            None => json_head_end(bytes@) is None,
        },
{
    let mut values =
        serde_json::Deserializer::from_slice(bytes).into_iter::<serde::de::IgnoredAny>();
    values.next()?.ok()?;
    Some(values.byte_offset())
}

/// Reads an array of five elements with `serde_json::from_slice` into a tuple, a
/// function of the bytes, named `json_row`.
#[verifier::external_body]
pub(crate) fn json_read_row(json: &[u8]) -> (row: Option<(String, String, u64, i64, String)>)
    ensures
        match row {
            Some(row) => json_row(json@) == Some((row.0@, row.1@, row.2, row.3, row.4@)),
            None => json_row(json@) is None,
        },
{
    serde_json::from_slice(json).ok()
}

} // verus!

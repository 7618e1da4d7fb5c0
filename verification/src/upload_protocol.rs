//! Signed capabilities for browser-to-storage uploads.
//!
//! The metadata API issues a short-lived grant. The storage gateway verifies
//! that grant, hashes and stores the bytes, then returns a receipt signed in a
//! separate context. A submission carries the receipt, so the API can verify
//! storage accepted the exact CID without proxying source bytes.

use vstd::prelude::*;
use vstd::string::*;
use vstd::utf8::*;

use crate::json;
use crate::primitives;
use crate::text;

verus! {

/// Wire-format version.
pub const VERSION: &'static str = "v1";

/// A source-upload capability issued by the metadata API.
#[derive(Debug, PartialEq, Eq)]
pub struct UploadGrant {
    /// Stable user identifier allowed to upload.
    pub user_id: String,
    /// Expected BLAKE3 CID.
    pub cid: String,
    /// Exact number of bytes expected.
    pub size: u64,
    /// Expiry as Unix seconds.
    pub expires_at: i64,
    /// Unique value preventing two grants from having identical tokens.
    pub nonce: String,
}

/// Proof that trusted storage accepted and verified an upload.
#[derive(Debug, PartialEq, Eq)]
pub struct UploadReceipt {
    /// Stable user identifier that owned the grant.
    pub user_id: String,
    /// Verified BLAKE3 CID.
    pub cid: String,
    /// Verified byte count.
    pub size: u64,
    /// Receipt expiry as Unix seconds.
    pub expires_at: i64,
    /// Nonce copied from the grant.
    pub nonce: String,
}

/// A signing or validation failure.
#[derive(Debug, Clone, Copy, PartialEq, Eq, Structural)]
pub enum TokenError {
    /// Secret is too short for production use.
    WeakSecret,
    /// Token is malformed, tampered with, or of the wrong kind.
    Invalid,
    /// Token is past its expiry.
    Expired,
}

/// What a grant or a receipt claims, as a value of the model.
pub struct ClaimsView {
    /// Stable user identifier.
    pub user_id: Seq<char>,
    /// The content identifier.
    pub cid: Seq<char>,
    /// The byte count.
    pub size: u64,
    /// Expiry as Unix seconds.
    pub expires_at: i64,
    /// Nonce.
    pub nonce: Seq<char>,
}

impl View for UploadGrant {
    type V = ClaimsView;

    open spec fn view(&self) -> ClaimsView {
        ClaimsView {
            user_id: self.user_id@,
            cid: self.cid@,
            size: self.size,
            expires_at: self.expires_at,
            nonce: self.nonce@,
        }
    }
}

impl View for UploadReceipt {
    type V = ClaimsView;

    open spec fn view(&self) -> ClaimsView {
        ClaimsView {
            user_id: self.user_id@,
            cid: self.cid@,
            size: self.size,
            expires_at: self.expires_at,
            nonce: self.nonce@,
        }
    }
}

impl Clone for UploadGrant {
    fn clone(&self) -> (copy: Self)
        ensures
            copy@ == self@,
    {
        UploadGrant {
            user_id: self.user_id.clone(),
            cid: self.cid.clone(),
            size: self.size,
            expires_at: self.expires_at,
            nonce: self.nonce.clone(),
        }
    }
}

impl Clone for UploadReceipt {
    fn clone(&self) -> (copy: Self)
        ensures
            copy@ == self@,
    {
        UploadReceipt {
            user_id: self.user_id.clone(),
            cid: self.cid.clone(),
            size: self.size,
            expires_at: self.expires_at,
            nonce: self.nonce.clone(),
        }
    }
}

/// The sentence a person reads of a [`TokenError`].
pub open spec fn token_message(error: TokenError) -> Seq<char> {
    match error {
        TokenError::WeakSecret => "token secret must be at least 32 bytes"@,
        TokenError::Invalid => "invalid upload token"@,
        TokenError::Expired => "upload token expired"@,
    }
}

impl TokenError {
    /// The sentence a person reads.
    pub fn message(&self) -> (message: String)
        ensures
            message@ == token_message(*self),
    {
        match self {
            TokenError::WeakSecret => "token secret must be at least 32 bytes".to_owned(),
            TokenError::Invalid => "invalid upload token".to_owned(),
            TokenError::Expired => "upload token expired".to_owned(),
        }
    }
}

/// Claims as they travel: a JSON object.
pub open spec fn claims_json(claims: ClaimsView) -> Seq<u8> {
    primitives::json_object(
        ("user_id"@, claims.user_id),
        ("cid"@, claims.cid),
        ("size"@, claims.size),
        ("expires_at"@, claims.expires_at),
        ("nonce"@, claims.nonce),
    )
}

/// The claims that a payload makes: a JSON object with the five members, or a
/// JSON array with their values in order. Other members of an object are ignored;
/// one of the five that is repeated makes the payload claim nothing.
pub open spec fn claims_of(payload: Seq<u8>) -> Option<ClaimsView> {
    match (
        json::text_member(payload, "user_id"@),
        json::text_member(payload, "cid"@),
        json::unsigned_member(payload, "size"@),
        json::signed_member(payload, "expires_at"@),
        json::text_member(payload, "nonce"@),
    ) {
        (Some(user_id), Some(cid), Some(size), Some(expires_at), Some(nonce)) => Some(
            ClaimsView { user_id, cid, size, expires_at, nonce },
        ),
        _ => match primitives::json_row(payload) {
            Some(row) => Some(
                ClaimsView {
                    user_id: row.0,
                    cid: row.1,
                    size: row.2,
                    expires_at: row.3,
                    nonce: row.4,
                },
            ),
            None => None,
        },
    }
}

/// The part of a token that is signed.
pub open spec fn signed_part(kind: Seq<char>, encoded: Seq<char>) -> Seq<char> {
    VERSION@ + "."@ + kind + "."@ + encoded
}

/// The signature over `input`.
pub open spec fn tag_of(secret: Seq<u8>, input: Seq<char>) -> Seq<u8> {
    primitives::hmac_sha256(secret, encode_utf8(input))
}

/// A token of one kind for a payload, with any text in the place of its signature.
pub open spec fn resigned(kind: Seq<char>, payload: Seq<u8>, signature: Seq<char>) -> Seq<char> {
    signed_part(kind, primitives::base64url(payload)) + "."@ + signature
}

/// The signature of a token of one kind for a payload.
pub open spec fn signature_of(secret: Seq<u8>, kind: Seq<char>, payload: Seq<u8>) -> Seq<char> {
    primitives::base64url(tag_of(secret, signed_part(kind, primitives::base64url(payload))))
}

/// The token of one kind for a payload.
pub open spec fn sealed(secret: Seq<u8>, kind: Seq<char>, payload: Seq<u8>) -> Seq<char> {
    resigned(kind, payload, signature_of(secret, kind, payload))
}

/// The encoded payload and signature of a token of one kind, if the token is well
/// formed: four pieces, of which the first names the version and the second the
/// kind.
pub open spec fn framed(kind: Seq<char>, token: Seq<char>) -> Option<(Seq<char>, Seq<char>)> {
    let parts = text::split_on(token, '.');
    if parts.len() == 4 && parts[0] == VERSION@ && parts[1] == kind {
        Some((parts[2], parts[3]))
    } else {
        None
    }
}

/// The payload of a token of one kind, if the token is well formed and its
/// signature is right.
pub open spec fn opened(secret: Seq<u8>, kind: Seq<char>, token: Seq<char>) -> Option<Seq<u8>> {
    match framed(kind, token) {
        None => None,
        Some((encoded, signature)) => if primitives::base64url_decoded(signature) == Some(
            tag_of(secret, signed_part(kind, encoded)),
        ) {
            primitives::base64url_decoded(encoded)
        } else {
            None
        },
    }
}

/// What claims come to at time `now`.
pub open spec fn current(claims: Option<ClaimsView>, now: i64) -> Result<ClaimsView, TokenError> {
    match claims {
        None => Err(TokenError::Invalid),
        Some(claims) => if claims.expires_at < now {
            Err(TokenError::Expired)
        } else {
            Ok(claims)
        },
    }
}

/// What a token of one kind comes to at time `now`.
pub open spec fn checked(secret: Seq<u8>, kind: Seq<char>, token: Seq<char>, now: i64) -> Result<
    ClaimsView,
    TokenError,
> {
    match opened(secret, kind, token) {
        None => Err(TokenError::Invalid),
        Some(payload) => current(claims_of(payload), now),
    }
}

/// A grant check as a value of the model.
pub open spec fn grant_view(result: Result<UploadGrant, TokenError>) -> Result<
    ClaimsView,
    TokenError,
> {
    match result {
        Ok(grant) => Ok(grant@),
        Err(error) => Err(error),
    }
}

/// A receipt check as a value of the model.
pub open spec fn receipt_view(result: Result<UploadReceipt, TokenError>) -> Result<
    ClaimsView,
    TokenError,
> {
    match result {
        Ok(receipt) => Ok(receipt@),
        Err(error) => Err(error),
    }
}

/// Issues and verifies upload capabilities.
pub struct UploadTokens {
    secret: Vec<u8>,
}

/// The secret.
impl View for UploadTokens {
    type V = Seq<u8>;

    closed spec fn view(&self) -> Seq<u8> {
        self.secret@
    }
}

impl Clone for UploadTokens {
    fn clone(&self) -> (copy: Self)
        ensures
            copy@ == self@,
    {
        proof {
            use_type_invariant(self);
        }
        let secret = self.secret.clone();
        assert(secret@ =~= self.secret@);
        UploadTokens { secret }
    }
}

impl UploadTokens {
    /// A secret has at least 32 bytes.
    #[verifier::type_invariant]
    closed spec fn strong(&self) -> bool {
        self.secret@.len() >= 32
    }

    /// Construct from a secret of at least 32 bytes.
    pub fn new(secret: Vec<u8>) -> (result: Result<Self, TokenError>)
        ensures
            match result {
                Ok(tokens) => secret@.len() >= 32 && tokens@ == secret@,
                Err(error) => secret@.len() < 32 && error == TokenError::WeakSecret,
            },
    {
        if secret.len() < 32 {
            return Err(TokenError::WeakSecret);
        }
        Ok(UploadTokens { secret })
    }

    /// What a debugger may show of the tokens: not the secret.
    pub fn debug_text(&self) -> (text: String)
        ensures
            text@ == "UploadTokens { secret: \"<redacted>\" }"@,
    {
        "UploadTokens { secret: \"<redacted>\" }".to_owned()
    }

    /// Sign a source-upload grant.
    pub fn sign_grant(&self, grant: &UploadGrant) -> (token: String)
        ensures
            token@ == sealed(self@, "grant"@, claims_json(grant@)),
            forall|now: i64| #[trigger]
                checked(self@, "grant"@, token@, now) == if grant.expires_at < now {
                    Err(TokenError::Expired)
                } else {
                    Ok(grant@)
                },
            forall|other: Seq<char>, now: i64|
                other != signature_of(self@, "grant"@, claims_json(grant@)) ==> #[trigger] checked(
                    self@,
                    "grant"@,
                    resigned("grant"@, claims_json(grant@), other),
                    now,
                ) == Err::<ClaimsView, _>(TokenError::Invalid),
    {
        let payload = claims_payload(
            grant.user_id.as_str(),
            grant.cid.as_str(),
            grant.size,
            grant.expires_at,
            grant.nonce.as_str(),
        );
        proof {
            lemma_kinds();
        }
        self.sign("grant", payload.as_slice())
    }

    /// Verify a source-upload grant.
    pub fn verify_grant(&self, token: &str, now: i64) -> (result: Result<UploadGrant, TokenError>)
        ensures
            grant_view(result) == checked(self@, "grant"@, token@, now),
            result != Err::<UploadGrant, _>(TokenError::Invalid) ==> exists|payload: Seq<u8>|
                token@ == #[trigger] sealed(self@, "grant"@, payload),
    {
        let payload = match self.verify("grant", token) {
            Ok(payload) => payload,
            Err(error) => return Err(error),
        };
        let grant = match read_claims(payload.as_slice()) {
            None => None,
            Some((user_id, cid, size, expires_at, nonce)) => Some(
                UploadGrant { user_id, cid, size, expires_at, nonce },
            ),
        };
        current_grant(grant, now)
    }

    /// Sign a verified upload receipt.
    pub fn sign_receipt(&self, receipt: &UploadReceipt) -> (token: String)
        ensures
            token@ == sealed(self@, "receipt"@, claims_json(receipt@)),
            forall|now: i64| #[trigger]
                checked(self@, "receipt"@, token@, now) == if receipt.expires_at < now {
                    Err(TokenError::Expired)
                } else {
                    Ok(receipt@)
                },
            forall|other: Seq<char>, now: i64|
                other != signature_of(self@, "receipt"@, claims_json(receipt@)) ==> #[trigger] checked(
                    self@,
                    "receipt"@,
                    resigned("receipt"@, claims_json(receipt@), other),
                    now,
                ) == Err::<ClaimsView, _>(TokenError::Invalid),
    {
        let payload = claims_payload(
            receipt.user_id.as_str(),
            receipt.cid.as_str(),
            receipt.size,
            receipt.expires_at,
            receipt.nonce.as_str(),
        );
        proof {
            lemma_kinds();
        }
        self.sign("receipt", payload.as_slice())
    }

    /// Verify a storage receipt.
    pub fn verify_receipt(&self, token: &str, now: i64) -> (result: Result<
        UploadReceipt,
        TokenError,
    >)
        ensures
            receipt_view(result) == checked(self@, "receipt"@, token@, now),
            result != Err::<UploadReceipt, _>(TokenError::Invalid) ==> exists|payload: Seq<u8>|
                token@ == #[trigger] sealed(self@, "receipt"@, payload),
    {
        let payload = match self.verify("receipt", token) {
            Ok(payload) => payload,
            Err(error) => return Err(error),
        };
        let receipt = match read_claims(payload.as_slice()) {
            None => None,
            Some((user_id, cid, size, expires_at, nonce)) => Some(
                UploadReceipt { user_id, cid, size, expires_at, nonce },
            ),
        };
        current_receipt(receipt, now)
    }

    /// Sign a payload as a token of one kind.
    fn sign(&self, kind: &str, payload: &[u8]) -> (token: String)
        requires
            !kind@.contains('.'),
        ensures
            token@ == sealed(self@, kind@, payload@),
            opened(self@, kind@, token@) == Some(payload@),
            forall|other: Seq<char>|
                other != signature_of(self@, kind@, payload@) ==> #[trigger] opened(
                    self@,
                    kind@,
                    resigned(kind@, payload@, other),
                ) is None,
    {
        let encoded = primitives::base64url_encode(payload);
        let input = signed_text(kind, encoded.as_str());
        let signature = self.mac(input.as_str().as_bytes());
        let tag = primitives::base64url_encode(signature.as_slice());
        let mut token = input.clone();
        token.append(".");
        token.append(tag.as_str());
        proof {
            lemma_base64_has_no_dot(tag@);
            lemma_framed(kind@, encoded@, tag@);
            assert forall|other: Seq<char>|
                other != signature_of(self@, kind@, payload@) implies #[trigger] opened(
                self@,
                kind@,
                resigned(kind@, payload@, other),
            ) is None by {
                lemma_framed(kind@, encoded@, other);
            }
        }
        token
    }

    /// Check a token of one kind and give its payload.
    fn verify(&self, kind: &str, token: &str) -> (result: Result<Vec<u8>, TokenError>)
        ensures
            match result {
                Ok(payload) => opened(self@, kind@, token@) == Some(payload@) && token@ == sealed(
                    self@,
                    kind@,
                    payload@,
                ),
                Err(error) => opened(self@, kind@, token@) is None && error == TokenError::Invalid,
            },
    {
        let (encoded, signature) = match open_frame(kind, token) {
            Some(parts) => parts,
            None => return Err(TokenError::Invalid),
        };
        let input = signed_text(kind, encoded.as_str());
        let expected = self.mac(input.as_str().as_bytes());
        let actual = match primitives::base64url_decode(signature.as_str()) {
            Ok(actual) => actual,
            Err(_) => return Err(TokenError::Invalid),
        };
        if !primitives::constant_time_eq(expected.as_slice(), actual.as_slice()) {
            return Err(TokenError::Invalid);
        }
        match primitives::base64url_decode(encoded.as_str()) {
            Ok(payload) => {
                assert(token@ =~= sealed(self@, kind@, payload@));
                Ok(payload)
            },
            Err(_) => Err(TokenError::Invalid),
        }
    }

    /// The signature over some bytes.
    fn mac(&self, bytes: &[u8]) -> (tag: Vec<u8>)
        ensures
            tag@ == primitives::hmac_sha256(self@, bytes@),
    {
        primitives::hmac_sha256_tag(self.secret.as_slice(), bytes)
    }
}

/// The encoded payload and signature of a token of one kind, if the token is well
/// formed.
pub fn open_frame(kind: &str, token: &str) -> (parts: Option<(String, String)>)
    ensures
        match parts {
            Some((encoded, signature)) => {
                &&& framed(kind@, token@) == Some((encoded@, signature@))
                &&& token@ == signed_part(kind@, encoded@) + "."@ + signature@
            },
            None => framed(kind@, token@) is None,
        },
{
    let parts = text::split(token, '.');
    let ghost pieces = parts@.map_values(|piece: String| piece@);
    if parts.len() != 4 {
        return None;
    }
    assert(pieces[0] == parts@[0]@ && pieces[1] == parts@[1]@ && pieces[2] == parts@[2]@
        && pieces[3] == parts@[3]@);
    if !text::same_text(parts[0].as_str(), VERSION) || !text::same_text(parts[1].as_str(), kind) {
        return None;
    }
    proof {
        lemma_four_parts(token@);
    }
    Some((parts[2].clone(), parts[3].clone()))
}

/// What a grant comes to at time `now`, if there is one.
pub fn current_grant(grant: Option<UploadGrant>, now: i64) -> (result: Result<
    UploadGrant,
    TokenError,
>)
    ensures
        grant_view(result) == current(
            match grant {
                Some(grant) => Some(grant@),
                None => None,
            },
            now,
        ),
{
    match grant {
        None => Err(TokenError::Invalid),
        Some(grant) => {
            if grant.expires_at < now {
                return Err(TokenError::Expired);
            }
            Ok(grant)
        },
    }
}

/// What a receipt comes to at time `now`, if there is one.
pub fn current_receipt(receipt: Option<UploadReceipt>, now: i64) -> (result: Result<
    UploadReceipt,
    TokenError,
>)
    ensures
        receipt_view(result) == current(
            match receipt {
                Some(receipt) => Some(receipt@),
                None => None,
            },
            now,
        ),
{
    match receipt {
        None => Err(TokenError::Invalid),
        Some(receipt) => {
            if receipt.expires_at < now {
                return Err(TokenError::Expired);
            }
            Ok(receipt)
        },
    }
}

/// The part of a token that is signed.
pub fn signed_text(kind: &str, encoded: &str) -> (input: String)
    ensures
        input@ == signed_part(kind@, encoded@),
{
    let mut input = VERSION.to_owned();
    input.append(".");
    input.append(kind);
    input.append(".");
    input.append(encoded);
    input
}

fn claims_payload(
    user_id: &str,
    cid: &str,
    size: u64,
    expires_at: i64,
    nonce: &str,
) -> (payload: Vec<u8>)
    ensures
        payload@ == claims_json(
            ClaimsView { user_id: user_id@, cid: cid@, size, expires_at, nonce: nonce@ },
        ),
        claims_of(payload@) == Some(
            ClaimsView { user_id: user_id@, cid: cid@, size, expires_at, nonce: nonce@ },
        ),
{
    proof {
        reveal_strlit("user_id");
        reveal_strlit("cid");
        reveal_strlit("size");
        reveal_strlit("expires_at");
        reveal_strlit("nonce");
        assert("user_id"@[0] == 'u' && "cid"@[0] == 'c' && "size"@[0] == 's' && "expires_at"@[0]
            == 'e' && "nonce"@[0] == 'n');
    }
    primitives::json_write_object(
        ("user_id", user_id),
        ("cid", cid),
        ("size", size),
        ("expires_at", expires_at),
        ("nonce", nonce),
    )
}

fn read_claims(payload: &[u8]) -> (claims: Option<(String, String, u64, i64, String)>)
    ensures
        match claims {
            Some(claims) => claims_of(payload@) == Some(
                ClaimsView {
                    user_id: claims.0@,
                    cid: claims.1@,
                    size: claims.2,
                    expires_at: claims.3,
                    nonce: claims.4@,
                },
            ),
            None => claims_of(payload@) is None,
        },
{
    let user_id = json::read_text(payload, "user_id");
    let cid = json::read_text(payload, "cid");
    let size = json::read_unsigned(payload, "size");
    let expires_at = json::read_signed(payload, "expires_at");
    let nonce = json::read_text(payload, "nonce");
    match (user_id, cid, size, expires_at, nonce) {
        (Some(user_id), Some(cid), Some(size), Some(expires_at), Some(nonce)) => Some(
            (user_id, cid, size, expires_at, nonce),
        ),
        _ => primitives::json_read_row(payload),
    }
}

/// The kinds of token: none holds a separator, and no two are the same.
pub proof fn lemma_kinds()
    ensures
        !"grant"@.contains('.'),
        !"receipt"@.contains('.'),
        "grant"@ != "receipt"@,
{
    reveal_strlit("grant");
    reveal_strlit("receipt");
    assert("grant"@[0] == 'g' && "receipt"@[0] == 'r');
}

proof fn lemma_base64_has_no_dot(encoded: Seq<char>)
    requires
        forall|i: int|
            0 <= i < encoded.len() ==> primitives::is_base64url_char(#[trigger] encoded[i]),
    ensures
        !encoded.contains('.'),
{
}

proof fn lemma_framed(kind: Seq<char>, encoded: Seq<char>, signature: Seq<char>)
    requires
        !kind.contains('.'),
        forall|i: int|
            0 <= i < encoded.len() ==> primitives::is_base64url_char(#[trigger] encoded[i]),
    ensures
        framed(kind, signed_part(kind, encoded) + "."@ + signature) == if signature.contains('.') {
            None
        } else {
            Some((encoded, signature))
        },
{
    reveal_strlit(".");
    reveal_strlit("v1");
    assert("."@ =~= seq!['.']);
    lemma_base64_has_no_dot(encoded);
    let token = signed_part(kind, encoded) + "."@ + signature;
    text::lemma_split_none(VERSION@, '.');
    text::lemma_split_none(kind, '.');
    text::lemma_split_none(encoded, '.');
    text::lemma_split_at(VERSION@, '.', kind);
    text::lemma_split_at(VERSION@ + "."@ + kind, '.', encoded);
    text::lemma_split_at(signed_part(kind, encoded), '.', signature);
    let front = seq![VERSION@, kind, encoded];
    assert(text::split_on(token, '.') =~= front + text::split_on(signature, '.'));
    if signature.contains('.') {
        let at = choose|at: int| 0 <= at < signature.len() && signature[at] == '.';
        assert(signature =~= signature.take(at) + seq!['.'] + signature.skip(at + 1));
        text::lemma_split_at(signature.take(at), '.', signature.skip(at + 1));
        text::lemma_join_split(signature.take(at), '.');
        assert(text::split_on(signature, '.').len() > 1);
    } else {
        text::lemma_split_none(signature, '.');
    }
}

proof fn lemma_four_parts(token: Seq<char>)
    requires
        text::split_on(token, '.').len() == 4,
    ensures
        token == ({
            let parts = text::split_on(token, '.');
            parts[0] + "."@ + parts[1] + "."@ + parts[2] + "."@ + parts[3]
        }),
{
    reveal_strlit(".");
    assert("."@ =~= seq!['.']);
    let parts = text::split_on(token, '.');
    text::lemma_join_split(token, '.');
    reveal_with_fuel(text::join_with, 4);
    assert(parts.drop_last().drop_last().drop_last() =~= seq![parts[0]]);
}

/// A token of one kind is never a token of another, whatever the secrets: a
/// receipt cannot be used as a grant.
pub proof fn lemma_kinds_do_not_mix(
    secret: Seq<u8>,
    other_secret: Seq<u8>,
    kind: Seq<char>,
    other: Seq<char>,
    token: Seq<char>,
    now: i64,
)
    requires
        kind != other,
        opened(secret, kind, token) is Some,
    ensures
        opened(other_secret, other, token) is None,
        checked(other_secret, other, token, now) == Err::<ClaimsView, _>(TokenError::Invalid),
{
}

/// A token is four pieces with points between them: the version, the kind, the payload
/// and the signature over the three, the last two in base64.
pub proof fn lemma_token_format(secret: Seq<u8>, kind: Seq<char>, payload: Seq<u8>)
    ensures
        ({
            let signed = "v1"@ + "."@ + kind + "."@ + primitives::base64url(payload);
            sealed(secret, kind, payload) == signed + "."@ + primitives::base64url(
                primitives::hmac_sha256(secret, encode_utf8(signed)),
            )
        }),
{
}

/// A token is well formed exactly where it is the version, the kind and two more pieces,
/// none of them with a point in it, with points between them.
pub proof fn lemma_well_formed_tokens(
    kind: Seq<char>,
    encoded: Seq<char>,
    signature: Seq<char>,
    token: Seq<char>,
)
    requires
        !kind.contains('.'),
    ensures
        !encoded.contains('.') && !signature.contains('.') ==> framed(
            kind,
            "v1"@ + "."@ + kind + "."@ + encoded + "."@ + signature,
        ) == Some((encoded, signature)),
        framed(kind, token) matches Some(parts) ==> {
            &&& token == "v1"@ + "."@ + kind + "."@ + parts.0 + "."@ + parts.1
            &&& !parts.0.contains('.')
            &&& !parts.1.contains('.')
        },
{
    reveal_strlit(".");
    reveal_strlit("v1");
    assert("."@ =~= seq!['.']);
    if !encoded.contains('.') && !signature.contains('.') {
        let whole = "v1"@ + "."@ + kind + "."@ + encoded + "."@ + signature;
        text::lemma_split_none("v1"@, '.');
        text::lemma_split_none(kind, '.');
        text::lemma_split_none(encoded, '.');
        text::lemma_split_none(signature, '.');
        text::lemma_split_at("v1"@, '.', kind);
        text::lemma_split_at("v1"@ + "."@ + kind, '.', encoded);
        text::lemma_split_at("v1"@ + "."@ + kind + "."@ + encoded, '.', signature);
        assert(text::split_on(whole, '.') =~= seq!["v1"@, kind, encoded, signature]);
    }
    if framed(kind, token) is Some {
        lemma_four_parts(token);
        text::lemma_pieces_hold_no_mark(token, '.', 2);
        text::lemma_pieces_hold_no_mark(token, '.', 3);
    }
}

/// A well-formed token opens exactly where its signature stands for the HMAC of what is
/// before it, under the secret; it then gives the bytes that its payload stands for. No
/// other token opens.
pub proof fn lemma_opening(
    secret: Seq<u8>,
    kind: Seq<char>,
    token: Seq<char>,
    encoded: Seq<char>,
    signature: Seq<char>,
)
    ensures
        framed(kind, token) is None ==> opened(secret, kind, token) is None,
        framed(kind, token) == Some((encoded, signature)) ==> opened(secret, kind, token) == if (
        primitives::base64url_decoded(signature) == Some(
            primitives::hmac_sha256(
                secret,
                encode_utf8("v1"@ + "."@ + kind + "."@ + encoded),
            ),
        )) {
            primitives::base64url_decoded(encoded)
        } else {
            None
        },
{
}

/// A token is valid up to and at the second it expires, and not after; one that does
/// not open, or whose payload claims nothing, is invalid at any time.
pub proof fn lemma_checking(
    secret: Seq<u8>,
    kind: Seq<char>,
    token: Seq<char>,
    payload: Seq<u8>,
    now: i64,
)
    ensures
        opened(secret, kind, token) is None ==> checked(secret, kind, token, now) == Err::<
            ClaimsView,
            _,
        >(TokenError::Invalid),
        opened(secret, kind, token) == Some(payload) ==> match claims_of(payload) {
            None => checked(secret, kind, token, now) == Err::<ClaimsView, _>(TokenError::Invalid),
            Some(claims) => if now <= claims.expires_at {
                checked(secret, kind, token, now) == Ok::<_, TokenError>(claims)
            } else {
                checked(secret, kind, token, now) == Err::<ClaimsView, _>(TokenError::Expired)
            },
        },
        current(None, now) == Err::<ClaimsView, _>(TokenError::Invalid),
        forall|claims: ClaimsView|
            #![trigger current(Some(claims), now)]
            current(Some(claims), now) == if now <= claims.expires_at {
                Ok::<_, TokenError>(claims)
            } else {
                Err(TokenError::Expired)
            },
{
}

/// A payload claims what its five members say; with one of them missing, or not of its
/// type, it claims what the row says that it holds, if it holds one.
pub proof fn lemma_claims_are_read_by_name(payload: Seq<u8>)
    ensures
        ({
            let user_id = json::text_member(payload, "user_id"@);
            let cid = json::text_member(payload, "cid"@);
            let size = json::unsigned_member(payload, "size"@);
            let expires_at = json::signed_member(payload, "expires_at"@);
            let nonce = json::text_member(payload, "nonce"@);
            if user_id is Some && cid is Some && size is Some && expires_at is Some
                && nonce is Some {
                claims_of(payload) == Some(
                    ClaimsView {
                        user_id: user_id->0,
                        cid: cid->0,
                        size: size->0,
                        expires_at: expires_at->0,
                        nonce: nonce->0,
                    },
                )
            } else {
                match primitives::json_row(payload) {
                    None => claims_of(payload) is None,
                    Some(row) => claims_of(payload) matches Some(claims) && claims.user_id == row.0
                        && claims.cid == row.1 && claims.size == row.2 && claims.expires_at == row.3
                        && claims.nonce == row.4,
                }
            }
        }),
{
}

/// Claims travel as an object of five members under fixed names, in a fixed order.
pub proof fn lemma_claims_are_written_by_name(claims: ClaimsView)
    ensures
        claims_json(claims) == primitives::json_object(
            ("user_id"@, claims.user_id),
            ("cid"@, claims.cid),
            ("size"@, claims.size),
            ("expires_at"@, claims.expires_at),
            ("nonce"@, claims.nonce),
        ),
{
}

/// The signature of a token, and a token with another signature in its place, share the
/// part that is signed.
pub proof fn lemma_signatures(
    secret: Seq<u8>,
    kind: Seq<char>,
    payload: Seq<u8>,
    signature: Seq<char>,
)
    ensures
        ({
            let signed = "v1"@ + "."@ + kind + "."@ + primitives::base64url(payload);
            &&& resigned(kind, payload, signature) == signed + "."@ + signature
            &&& signature_of(secret, kind, payload) == primitives::base64url(
                primitives::hmac_sha256(secret, encode_utf8(signed)),
            )
        }),
{
}

/// The model of a grant, of a receipt and of a check holds what they hold.
pub proof fn lemma_views(grant: UploadGrant, receipt: UploadReceipt, error: TokenError)
    ensures
        grant@ == (ClaimsView {
            user_id: grant.user_id@,
            cid: grant.cid@,
            size: grant.size,
            expires_at: grant.expires_at,
            nonce: grant.nonce@,
        }),
        receipt@ == (ClaimsView {
            user_id: receipt.user_id@,
            cid: receipt.cid@,
            size: receipt.size,
            expires_at: receipt.expires_at,
            nonce: receipt.nonce@,
        }),
        grant_view(Ok(grant)) == Ok::<_, TokenError>(grant@),
        grant_view(Err(error)) == Err::<ClaimsView, _>(error),
        receipt_view(Ok(receipt)) == Ok::<_, TokenError>(receipt@),
        receipt_view(Err(error)) == Err::<ClaimsView, _>(error),
        token_message(TokenError::WeakSecret) == "token secret must be at least 32 bytes"@,
        token_message(TokenError::Invalid) == "invalid upload token"@,
        token_message(TokenError::Expired) == "upload token expired"@,
{
}

} // verus!

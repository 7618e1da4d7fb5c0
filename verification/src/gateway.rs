//! The rules of the HTTP boundary: verified source uploads and trusted artifact
//! reads.
//!
//! A request is its path, its authorization header, its body and the time. Each
//! operation has a part that admits it, a call of the store, and a part that
//! answers; the whole is put together for a store that answers at once.

use vstd::prelude::*;
use vstd::slice::slice_to_vec;
use vstd::string::*;
use vstd::utf8::*;

use crate::cid;
use crate::cid::Cid;
use crate::memory::MemoryStore;
use crate::primitives;
use crate::provenance;
use crate::provenance::Provenance;
use crate::store;
use crate::store::{ObjectStore, StoreErrorView, StoreResult};
use crate::text;
use crate::upload_protocol;
use crate::upload_protocol::{ClaimsView, TokenError, UploadGrant, UploadReceipt, UploadTokens};

verus! {

/// Maximum source file accepted by the public upload route.
pub const MAX_SOURCE_BYTES: usize = 256 * 1024;

/// How long a receipt is valid, in seconds: long enough for a browser to retry
/// submission creation after an interrupted request without uploading again.
pub const RECEIPT_SECONDS: i64 = 24 * 60 * 60;

/// Gateway dependencies.
pub struct GatewayState<S: ObjectStore> {
    /// Content-addressed storage backend.
    pub store: S,
    /// Upload grant and receipt signer.
    pub upload_tokens: UploadTokens,
    /// Separate credential for trusted judge reads.
    pub read_secret: Vec<u8>,
}

/// Successful source upload.
#[derive(Debug, PartialEq, Eq)]
pub struct UploadResponse {
    /// Verified content identifier.
    pub cid: String,
    /// Verified byte count.
    pub size: u64,
    /// Signed proof consumable by the metadata API.
    pub receipt: String,
}

impl Clone for UploadResponse {
    fn clone(&self) -> (copy: Self)
        ensures
            copy == *self,
    {
        UploadResponse {
            cid: self.cid.clone(),
            size: self.size,
            receipt: self.receipt.clone(),
        }
    }
}

/// A request that was refused.
#[derive(Debug, PartialEq, Eq)]
pub struct HttpError {
    /// The status of the response.
    pub status: u16,
    /// What went wrong, for programs.
    pub code: &'static str,
    /// What went wrong, for people.
    pub message: String,
}

/// An [`HttpError`] as a value of the model.
pub struct HttpErrorView {
    /// The status of the response.
    pub status: u16,
    /// What went wrong, for programs.
    pub code: Seq<char>,
    /// What went wrong, for people.
    pub message: Seq<char>,
}

impl View for HttpError {
    type V = HttpErrorView;

    open spec fn view(&self) -> HttpErrorView {
        HttpErrorView { status: self.status, code: self.code@, message: self.message@ }
    }
}

/// A refusal.
pub fn error(status: u16, code: &'static str, message: &str) -> (refusal: HttpError)
    ensures
        refusal@ == (HttpErrorView { status, code: code@, message: message@ }),
{
    HttpError { status, code, message: message.to_owned() }
}

/// A header as a value of the model.
pub open spec fn header_view(header: Option<&str>) -> Option<Seq<char>> {
    match header {
        Some(text) => Some(text@),
        None => None,
    }
}

/// The token of a bearer authorization header.
pub open spec fn bearer_of(authorization: Option<Seq<char>>) -> Option<Seq<char>> {
    match authorization {
        Some(header) => if text::has_prefix(header, "Bearer "@) {
            Some(header.skip("Bearer "@.len() as int))
        } else {
            None
        },
        None => None,
    }
}

/// The token of a bearer authorization header.
pub fn bearer<'a>(authorization: Option<&'a str>) -> (token: Option<&'a str>)
    ensures
        header_view(token) == bearer_of(header_view(authorization)),
{
    match authorization {
        Some(header) => text::strip_prefix(header, "Bearer "),
        None => None,
    }
}

/// The refusal of a request without the credential for trusted reads.
pub open spec fn untrusted() -> HttpErrorView {
    HttpErrorView {
        status: 401,
        code: "unauthenticated"@,
        message: "trusted artifact credential required"@,
    }
}

/// The request carries the credential for trusted reads.
pub open spec fn is_trusted(read_secret: Seq<u8>, authorization: Option<Seq<char>>) -> bool {
    read_secret == match bearer_of(authorization) {
        Some(token) => encode_utf8(token),
        None => Seq::<u8>::empty(),
    }
}

/// Let a request pass only with the credential for trusted reads.
pub fn require_trusted(read_secret: &[u8], authorization: Option<&str>) -> (result: Result<
    (),
    HttpError,
>)
    ensures
        match result {
            Ok(()) => is_trusted(read_secret@, header_view(authorization)),
            Err(refusal) => !is_trusted(read_secret@, header_view(authorization)) && refusal@
                == untrusted(),
        },
{
    let provided = match bearer(authorization) {
        Some(token) => slice_to_vec(token.as_bytes()),
        None => Vec::new(),
    };
    if !primitives::constant_time_eq(provided.as_slice(), read_secret) {
        return Err(error(401, "unauthenticated", "trusted artifact credential required"));
    }
    Ok(())
}

/// What an upload with a valid grant comes to: the claims of the grant, or a
/// refusal.
pub open spec fn grant_admission(grant: ClaimsView, cid_text: Seq<char>, body: Seq<u8>) -> Result<
    ClaimsView,
    HttpErrorView,
> {
    if grant.cid != cid_text || grant.size != body.len() {
        Err(
            HttpErrorView {
                status: 400,
                code: "invalid_upload"@,
                message: "upload does not match its grant"@,
            },
        )
    } else if !cid::is_cid(cid_text) {
        Err(
            HttpErrorView {
                status: 400,
                code: "invalid_upload"@,
                message: "CID is not canonical BLAKE3"@,
            },
        )
    } else if cid::cid_of(body) != cid_text {
        Err(
            HttpErrorView {
                status: 400,
                code: "integrity_failure"@,
                message: "source bytes do not match the requested CID"@,
            },
        )
    } else {
        Ok(grant)
    }
}

/// What admitting an upload comes to: the claims of its grant, or a refusal.
pub open spec fn upload_admission(
    secret: Seq<u8>,
    cid_text: Seq<char>,
    authorization: Option<Seq<char>>,
    body: Seq<u8>,
    now: i64,
) -> Result<ClaimsView, HttpErrorView> {
    match bearer_of(authorization) {
        None => Err(
            HttpErrorView {
                status: 401,
                code: "unauthenticated"@,
                message: "upload grant required"@,
            },
        ),
        Some(token) => match upload_protocol::checked(secret, "grant"@, token, now) {
            Err(_) => Err(
                HttpErrorView {
                    status: 401,
                    code: "unauthenticated"@,
                    message: "invalid or expired upload grant"@,
                },
            ),
            Ok(grant) => grant_admission(grant, cid_text, body),
        },
    }
}

/// An upload that was admitted: the name its bytes were checked against, and the
/// grant that admitted it.
#[derive(Debug)]
pub struct AdmittedUpload {
    expected: Cid,
    grant: UploadGrant,
}

/// What the grant claims.
impl View for AdmittedUpload {
    type V = ClaimsView;

    closed spec fn view(&self) -> ClaimsView {
        self.grant@
    }
}

impl AdmittedUpload {
    /// The grant is for the name that was checked.
    #[verifier::type_invariant]
    closed spec fn granted(&self) -> bool {
        self.expected@ == self.grant@.cid
    }
}

/// Admit an upload: its bytes have to be exactly what its grant promised.
pub fn admit_upload(
    upload_tokens: &UploadTokens,
    cid_text: &str,
    authorization: Option<&str>,
    body: &[u8],
    now: i64,
) -> (result: Result<AdmittedUpload, HttpError>)
    ensures
        match result {
            Ok(admitted) => upload_admission(
                upload_tokens@,
                cid_text@,
                header_view(authorization),
                body@,
                now,
            ) == Ok::<_, HttpErrorView>(admitted@),
            Err(refusal) => upload_admission(
                upload_tokens@,
                cid_text@,
                header_view(authorization),
                body@,
                now,
            ) == Err::<ClaimsView, _>(refusal@),
        },
{
    let token = match bearer(authorization) {
        Some(token) => token,
        None => return Err(error(401, "unauthenticated", "upload grant required")),
    };
    let grant = match upload_tokens.verify_grant(token, now) {
        Ok(grant) => grant,
        Err(_) => return Err(error(401, "unauthenticated", "invalid or expired upload grant")),
    };
    admit_granted(grant, cid_text, body)
}

/// Admit an upload with a valid grant: its bytes have to be exactly what the grant
/// promised.
pub fn admit_granted(grant: UploadGrant, cid_text: &str, body: &[u8]) -> (result: Result<
    AdmittedUpload,
    HttpError,
>)
    ensures
        match result {
            Ok(admitted) => grant_admission(grant@, cid_text@, body@) == Ok::<_, HttpErrorView>(
                admitted@,
            ),
            Err(refusal) => grant_admission(grant@, cid_text@, body@) == Err::<ClaimsView, _>(
                refusal@,
            ),
        },
        result is Ok <==> {
            &&& grant.cid@ == cid_text@
            &&& grant.size == body@.len()
            &&& cid::is_cid(cid_text@)
            &&& cid_text@ == "b3:"@ + cid::blake3_hex(body@)
        },
        result matches Ok(admitted) ==> admitted@ == grant@,
{
    let length: usize = body.len();
    if !text::same_text(grant.cid.as_str(), cid_text) || grant.size != length as u64 {
        return Err(error(400, "invalid_upload", "upload does not match its grant"));
    }
    proof {
        cid::lemma_parse_canonical(cid_text@);
    }
    let expected = match Cid::parse(cid_text) {
        Ok(expected) => expected,
        Err(_) => return Err(error(400, "invalid_upload", "CID is not canonical BLAKE3")),
    };
    if !expected.verifies(body) {
        return Err(
            error(400, "integrity_failure", "source bytes do not match the requested CID"),
        );
    }
    Ok(AdmittedUpload { expected, grant })
}

/// What storing an artifact comes to, given what the store answered.
pub open spec fn stored_as(expected: Seq<char>, stored: Result<Seq<char>, StoreErrorView>) -> Result<
    (),
    HttpErrorView,
> {
    match stored {
        Err(_) => Err(
            HttpErrorView {
                status: 503,
                code: "storage_unavailable"@,
                message: "artifact storage is unavailable"@,
            },
        ),
        Ok(cid) => if cid == expected {
            Ok(())
        } else {
            Err(
                HttpErrorView {
                    status: 500,
                    code: "internal"@,
                    message: "stored artifact identifier mismatch"@,
                },
            )
        },
    }
}

/// What storing an artifact comes to, given what the store answered.
pub fn check_stored(expected: &Cid, stored: StoreResult<Cid>) -> (result: Result<(), HttpError>)
    ensures
        match result {
            Ok(()) => stored_as(expected@, store::answer_view(stored)) is Ok,
            Err(refusal) => stored_as(expected@, store::answer_view(stored)) == Err::<(), _>(
                refusal@,
            ),
        },
{
    match stored {
        Err(_) => Err(error(503, "storage_unavailable", "artifact storage is unavailable")),
        Ok(cid) => if cid.same(expected) {
            Ok(())
        } else {
            Err(error(500, "internal", "stored artifact identifier mismatch"))
        },
    }
}

/// What a receipt claims for an upload that was stored at time `now`.
pub open spec fn receipt_claims(grant: ClaimsView, now: i64) -> ClaimsView {
    ClaimsView { expires_at: (now + RECEIPT_SECONDS) as i64, ..grant }
}

/// The response to an upload that was stored at time `now`: it names the object
/// and carries a receipt for it.
pub open spec fn is_response(
    secret: Seq<u8>,
    grant: ClaimsView,
    now: i64,
    response: UploadResponse,
) -> bool {
    &&& response.cid@ == grant.cid
    &&& response.size == grant.size
    &&& response.receipt@ == upload_protocol::sealed(
        secret,
        "receipt"@,
        upload_protocol::claims_json(receipt_claims(grant, now)),
    )
    &&& forall|later: i64| #[trigger]
        upload_protocol::checked(secret, "receipt"@, response.receipt@, later) == if now
            + RECEIPT_SECONDS < later {
            Err(TokenError::Expired)
        } else {
            Ok(receipt_claims(grant, now))
        }
}

/// The result of answering an upload.
pub type UploadResult = Result<(u16, UploadResponse), HttpError>;

/// What answering an upload comes to, given its grant and what the store answered.
pub open spec fn upload_answered(
    secret: Seq<u8>,
    grant: ClaimsView,
    stored: Result<Seq<char>, StoreErrorView>,
    now: i64,
    result: UploadResult,
) -> bool {
    match stored_as(grant.cid, stored) {
        Err(refusal) => result matches Err(given) && given@ == refusal,
        Ok(()) => result matches Ok((status, response)) && status == 201 && is_response(
            secret,
            grant,
            now,
            response,
        ),
    }
}

/// The receipt of an upload that was admitted, given what the store answered.
pub fn receipt_for(admitted: AdmittedUpload, stored: StoreResult<Cid>, now: i64) -> (result: Result<
    UploadReceipt,
    HttpError,
>)
    requires
        now + RECEIPT_SECONDS <= i64::MAX,
    ensures
        match result {
            Ok(receipt) => stored_as(admitted@.cid, store::answer_view(stored)) is Ok && receipt@
                == receipt_claims(admitted@, now),
            Err(refusal) => stored_as(admitted@.cid, store::answer_view(stored)) == Err::<(), _>(
                refusal@,
            ),
        },
{
    proof {
        use_type_invariant(&admitted);
    }
    if let Err(refusal) = check_stored(&admitted.expected, stored) {
        return Err(refusal);
    }
    Ok(
        UploadReceipt {
            user_id: admitted.grant.user_id,
            cid: admitted.expected.as_str().to_owned(),
            size: admitted.grant.size,
            expires_at: now + RECEIPT_SECONDS,
            nonce: admitted.grant.nonce,
        },
    )
}

/// Answer an upload that was admitted, given what the store answered.
pub fn answer_upload(
    upload_tokens: &UploadTokens,
    admitted: AdmittedUpload,
    stored: StoreResult<Cid>,
    now: i64,
) -> (result: UploadResult)
    requires
        now + RECEIPT_SECONDS <= i64::MAX,
    ensures
        upload_answered(
            upload_tokens@,
            admitted@,
            store::answer_view(stored),
            now,
            result,
        ),
{
    let receipt = match receipt_for(admitted, stored, now) {
        Ok(receipt) => receipt,
        Err(refusal) => return Err(refusal),
    };
    let token = upload_tokens.sign_receipt(&receipt);
    Ok((201, UploadResponse { cid: receipt.cid, size: receipt.size, receipt: token }))
}

/// The refusal of a name that is not canonical.
pub open spec fn not_a_cid() -> HttpErrorView {
    HttpErrorView { status: 400, code: "invalid_cid"@, message: "CID is not canonical BLAKE3"@ }
}

/// What admitting a request for an artifact comes to.
pub open spec fn artifact_admission(
    read_secret: Seq<u8>,
    cid_text: Seq<char>,
    authorization: Option<Seq<char>>,
) -> Result<(), HttpErrorView> {
    if !is_trusted(read_secret, authorization) {
        Err(untrusted())
    } else if !cid::is_cid(cid_text) {
        Err(not_a_cid())
    } else {
        Ok(())
    }
}

/// Admit a request for an artifact: it has to be trusted and to name an object.
pub fn admit_artifact(
    read_secret: &[u8],
    cid_text: &str,
    authorization: Option<&str>,
) -> (result: Result<Cid, HttpError>)
    ensures
        match result {
            Ok(cid) => cid@ == cid_text@ && artifact_admission(
                read_secret@,
                cid_text@,
                header_view(authorization),
            ) is Ok,
            Err(refusal) => artifact_admission(
                read_secret@,
                cid_text@,
                header_view(authorization),
            ) == Err::<(), _>(refusal@),
        },
{
    if let Err(refusal) = require_trusted(read_secret, authorization) {
        return Err(refusal);
    }
    proof {
        cid::lemma_parse_canonical(cid_text@);
    }
    match Cid::parse(cid_text) {
        Ok(cid) => Ok(cid),
        Err(_) => Err(error(400, "invalid_cid", "CID is not canonical BLAKE3")),
    }
}

/// What admitting a trusted write comes to.
pub open spec fn write_admission(
    read_secret: Seq<u8>,
    cid_text: Seq<char>,
    authorization: Option<Seq<char>>,
    body: Seq<u8>,
) -> Result<(), HttpErrorView> {
    match artifact_admission(read_secret, cid_text, authorization) {
        Err(refusal) => Err(refusal),
        Ok(()) => if cid::cid_of(body) == cid_text {
            Ok(())
        } else {
            Err(
                HttpErrorView {
                    status: 400,
                    code: "integrity_failure"@,
                    message: "artifact bytes do not match the requested CID"@,
                },
            )
        },
    }
}

/// Admit a trusted write: its bytes have to be the content of the name.
pub fn admit_write(
    read_secret: &[u8],
    cid_text: &str,
    authorization: Option<&str>,
    body: &[u8],
) -> (result: Result<Cid, HttpError>)
    ensures
        match result {
            Ok(cid) => cid@ == cid_text@ && write_admission(
                read_secret@,
                cid_text@,
                header_view(authorization),
                body@,
            ) is Ok,
            Err(refusal) => write_admission(
                read_secret@,
                cid_text@,
                header_view(authorization),
                body@,
            ) == Err::<(), _>(refusal@),
        },
{
    let expected = match admit_artifact(read_secret, cid_text, authorization) {
        Ok(expected) => expected,
        Err(refusal) => return Err(refusal),
    };
    if !expected.verifies(body) {
        return Err(
            error(400, "integrity_failure", "artifact bytes do not match the requested CID"),
        );
    }
    Ok(expected)
}

/// What answering a trusted write comes to, given what the store answered.
pub open spec fn write_answer(expected: Seq<char>, stored: Result<Seq<char>, StoreErrorView>) -> Result<
    u16,
    HttpErrorView,
> {
    match stored_as(expected, stored) {
        Err(refusal) => Err(refusal),
        Ok(()) => Ok(204),
    }
}

/// A result that holds a plain value, as a value of the model.
pub open spec fn http_view<T>(result: Result<T, HttpError>) -> Result<T, HttpErrorView> {
    match result {
        Ok(value) => Ok(value),
        Err(refusal) => Err(refusal@),
    }
}

/// Answer a trusted write, given what the store answered.
pub fn answer_write(expected: &Cid, stored: StoreResult<Cid>) -> (result: Result<u16, HttpError>)
    ensures
        http_view(result) == write_answer(expected@, store::answer_view(stored)),
{
    match check_stored(expected, stored) {
        Err(refusal) => Err(refusal),
        Ok(()) => Ok(204),
    }
}

/// What answering a read comes to, given what the store answered.
pub open spec fn read_answer(read: Result<Option<Seq<u8>>, StoreErrorView>) -> Result<
    Seq<u8>,
    HttpErrorView,
> {
    match read {
        Err(_) => Err(
            HttpErrorView {
                status: 503,
                code: "storage_unavailable"@,
                message: "artifact storage is unavailable"@,
            },
        ),
        Ok(None) => Err(
            HttpErrorView { status: 404, code: "not_found"@, message: "artifact not found"@ },
        ),
        Ok(Some(content)) => Ok(content),
    }
}

/// A result that holds bytes, as a value of the model.
pub open spec fn bytes_view(result: Result<Vec<u8>, HttpError>) -> Result<Seq<u8>, HttpErrorView> {
    match result {
        Ok(content) => Ok(content@),
        Err(refusal) => Err(refusal@),
    }
}

/// Answer a read, given what the store answered.
pub fn answer_read(read: StoreResult<Option<Vec<u8>>>) -> (result: Result<Vec<u8>, HttpError>)
    ensures
        bytes_view(result) == read_answer(store::content_view(read)),
{
    match read {
        Err(_) => Err(error(503, "storage_unavailable", "artifact storage is unavailable")),
        Ok(None) => Err(error(404, "not_found", "artifact not found")),
        Ok(Some(content)) => Ok(content),
    }
}

/// A secret that a deployment has to provide.
pub fn required_secret(name: &str, secret: &str) -> (result: Result<Vec<u8>, String>)
    ensures
        match result {
            Ok(bytes) => bytes@ == encode_utf8(secret@) && bytes@.len() >= 32,
            Err(message) => encode_utf8(secret@).len() < 32 && message@ == name@
                + " must be at least 32 bytes"@,
        },
{
    let bytes = slice_to_vec(secret.as_bytes());
    if bytes.len() < 32 {
        return Err(name.to_owned().concat(" must be at least 32 bytes"));
    }
    Ok(bytes)
}

/// An upload that may have taken place.
pub open spec fn uploads<S: ObjectStore>(
    before: GatewayState<S>,
    cid_text: Seq<char>,
    authorization: Option<Seq<char>>,
    body: Seq<u8>,
    admitted_at: i64,
    stored_at: i64,
    result: UploadResult,
    after: GatewayState<S>,
) -> bool {
    match upload_admission(before.upload_tokens@, cid_text, authorization, body, admitted_at) {
        Err(refusal) => {
            &&& result matches Err(given) && given@ == refusal
            &&& after == before
        },
        Ok(grant) => exists|stored: Result<Seq<char>, StoreErrorView>| #[trigger]
            S::puts(before.store, body, provenance::confined(), stored, after.store)
                && upload_answered(before.upload_tokens@, grant, stored, stored_at, result),
    }
}

/// A trusted write that may have taken place.
pub open spec fn writes<S: ObjectStore>(
    before: GatewayState<S>,
    cid_text: Seq<char>,
    authorization: Option<Seq<char>>,
    body: Seq<u8>,
    result: Result<u16, HttpErrorView>,
    after: GatewayState<S>,
) -> bool {
    match write_admission(before.read_secret@, cid_text, authorization, body) {
        Err(refusal) => result == Err::<u16, _>(refusal) && after == before,
        Ok(()) => exists|stored: Result<Seq<char>, StoreErrorView>| #[trigger]
            S::puts(before.store, body, provenance::confined(), stored, after.store) && result
                == write_answer(cid_text, stored),
    }
}

/// A trusted read that may have taken place.
pub open spec fn reads<S: ObjectStore>(
    before: GatewayState<S>,
    cid_text: Seq<char>,
    authorization: Option<Seq<char>>,
    result: Result<Seq<u8>, HttpErrorView>,
    after: GatewayState<S>,
) -> bool {
    match artifact_admission(before.read_secret@, cid_text, authorization) {
        Err(refusal) => result == Err::<Seq<u8>, _>(refusal) && after == before,
        Ok(()) => exists|read: Result<Option<Seq<u8>>, StoreErrorView>| #[trigger]
            store::judging_read(before.store, cid_text, read, after.store) && result == read_answer(
                read,
            ),
    }
}

/// Nothing but the store may have changed.
pub open spec fn same_credentials<S: ObjectStore>(
    before: GatewayState<S>,
    after: GatewayState<S>,
) -> bool {
    after.upload_tokens == before.upload_tokens && after.read_secret == before.read_secret
}

impl<S: ObjectStore> GatewayState<S> {
    /// Accept a source upload: check it against its grant, store it where only
    /// trusted readers reach it, and give a receipt.
    ///
    /// `admitted_at` and `stored_at` are the times, in Unix seconds, at which the
    /// grant is checked and the receipt is written.
    pub fn upload(
        &mut self,
        cid_text: &str,
        authorization: Option<&str>,
        body: &[u8],
        admitted_at: i64,
        stored_at: i64,
    ) -> (result: UploadResult)
        requires
            stored_at + RECEIPT_SECONDS <= i64::MAX,
        ensures
            uploads(
                *old(self),
                cid_text@,
                header_view(authorization),
                body@,
                admitted_at,
                stored_at,
                result,
                *final(self),
            ),
            same_credentials(*old(self), *final(self)),
    {
        let admitted = match admit_upload(
            &self.upload_tokens,
            cid_text,
            authorization,
            body,
            admitted_at,
        ) {
            Ok(admitted) => admitted,
            Err(refusal) => return Err(refusal),
        };
        let stored = self.store.put(body, Provenance::trusted_only());
        proof {
            let answer: Result<Seq<char>, StoreErrorView> = store::answer_view(stored);
            assert(S::puts(
                old(self).store,
                body@,
                provenance::confined(),
                answer,
                self.store,
            ));
        }
        answer_upload(&self.upload_tokens, admitted, stored, stored_at)
    }

    /// Accept an artifact from a trusted worker.
    pub fn write_trusted_artifact(
        &mut self,
        cid_text: &str,
        authorization: Option<&str>,
        body: &[u8],
    ) -> (result: Result<u16, HttpError>)
        ensures
            writes(
                *old(self),
                cid_text@,
                header_view(authorization),
                body@,
                http_view(result),
                *final(self),
            ),
            same_credentials(*old(self), *final(self)),
    {
        let expected = match admit_write(
            self.read_secret.as_slice(),
            cid_text,
            authorization,
            body,
        ) {
            Ok(expected) => expected,
            Err(refusal) => return Err(refusal),
        };
        let stored = self.store.put(body, Provenance::trusted_only());
        proof {
            let answer: Result<Seq<char>, StoreErrorView> = store::answer_view(stored);
            assert(S::puts(
                old(self).store,
                body@,
                provenance::confined(),
                answer,
                self.store,
            ));
        }
        answer_write(&expected, stored)
    }

    /// Give an artifact to a trusted worker.
    pub fn read_artifact(&mut self, cid_text: &str, authorization: Option<&str>) -> (result: Result<
        Vec<u8>,
        HttpError,
    >)
        ensures
            reads(
                *old(self),
                cid_text@,
                header_view(authorization),
                bytes_view(result),
                *final(self),
            ),
            same_credentials(*old(self), *final(self)),
            result matches Ok(content) ==> cid::cid_of(content@) == cid_text@,
    {
        let cid = match admit_artifact(self.read_secret.as_slice(), cid_text, authorization) {
            Ok(cid) => cid,
            Err(refusal) => return Err(refusal),
        };
        let read = self.store.get_for_judging(&cid);
        assert(store::judging_read(
            old(self).store,
            cid_text@,
            store::content_view(read),
            self.store,
        ));
        answer_read(read)
    }
}

/// An upload is stored only under the name and with the size that its grant
/// promised, and only if its bytes are the content of that name.
pub proof fn lemma_grants_bind_uploads(
    secret: Seq<u8>,
    cid_text: Seq<char>,
    authorization: Option<Seq<char>>,
    body: Seq<u8>,
    now: i64,
)
    ensures
        upload_admission(secret, cid_text, authorization, body, now) matches Ok(grant) ==> {
            &&& bearer_of(authorization) matches Some(token) && upload_protocol::checked(
                secret,
                "grant"@,
                token,
                now,
            ) == Ok::<_, TokenError>(grant)
            &&& grant.cid == cid_text
            &&& cid::cid_of(body) == cid_text
            &&& grant.size == body.len()
            &&& grant.expires_at >= now
        },
{
}

/// A valid grant cannot store different bytes.
pub proof fn lemma_different_bytes_are_refused(
    secret: Seq<u8>,
    cid_text: Seq<char>,
    token: Seq<char>,
    grant: ClaimsView,
    body: Seq<u8>,
    now: i64,
)
    requires
        upload_protocol::checked(secret, "grant"@, token, now) == Ok::<_, TokenError>(grant),
        cid::cid_of(body) != grant.cid,
    ensures
        upload_admission(secret, cid_text, Some("Bearer "@ + token), body, now) matches Err(
            refusal,
        ) && refusal.status == 400,
{
    let header = "Bearer "@ + token;
    assert(header.subrange(0, "Bearer "@.len() as int) =~= "Bearer "@);
    assert(header.skip("Bearer "@.len() as int) =~= token);
}

/// A receipt is no grant: a request that carries one is not admitted.
pub proof fn lemma_receipts_do_not_upload(
    secret: Seq<u8>,
    cid_text: Seq<char>,
    token: Seq<char>,
    body: Seq<u8>,
    now: i64,
)
    requires
        upload_protocol::opened(secret, "receipt"@, token) is Some,
    ensures
        upload_admission(secret, cid_text, Some("Bearer "@ + token), body, now) matches Err(
            refusal,
        ) && refusal.status == 401,
{
    let header = "Bearer "@ + token;
    assert(header.subrange(0, "Bearer "@.len() as int) =~= "Bearer "@);
    assert(header.skip("Bearer "@.len() as int) =~= token);
    upload_protocol::lemma_kinds();
    upload_protocol::lemma_kinds_do_not_mix(
        secret,
        secret,
        "receipt"@,
        "grant"@,
        token,
        now,
    );
}

/// A request without a bearer token is let through nowhere: not to upload, and,
/// where the read secret is not empty, neither to read nor to write artifacts.
pub proof fn lemma_anonymous_requests_are_refused(
    secret: Seq<u8>,
    read_secret: Seq<u8>,
    cid_text: Seq<char>,
    authorization: Option<Seq<char>>,
    body: Seq<u8>,
    now: i64,
)
    requires
        bearer_of(authorization) is None,
        read_secret.len() > 0,
    ensures
        upload_admission(secret, cid_text, authorization, body, now) matches Err(refusal)
            && refusal.status == 401,
        artifact_admission(read_secret, cid_text, authorization) == Err::<(), _>(untrusted()),
        write_admission(read_secret, cid_text, authorization, body) == Err::<(), _>(untrusted()),
{
}

/// What was uploaded is read back by a trusted reader, byte for byte, and never
/// handed to a peer.
pub proof fn lemma_upload_then_read(
    before: GatewayState<MemoryStore>,
    cid_text: Seq<char>,
    authorization: Option<Seq<char>>,
    body: Seq<u8>,
    admitted_at: i64,
    stored_at: i64,
    uploaded: UploadResult,
    between: GatewayState<MemoryStore>,
    credential: Option<Seq<char>>,
    read: Result<Seq<u8>, HttpErrorView>,
    after: GatewayState<MemoryStore>,
)
    requires
        uploads(
            before,
            cid_text,
            authorization,
            body,
            admitted_at,
            stored_at,
            uploaded,
            between,
        ),
        uploaded is Ok,
        is_trusted(between.read_secret@, credential),
        reads(between, cid_text, credential, read, after),
    ensures
        read == Ok::<_, HttpErrorView>(body),
        between.store@.read_for_peer(cid_text) matches Err(
            StoreErrorView::DistributionRefused { .. },
        ),
{
    assert(between.store@.read_for_judging(cid_text) == Ok::<_, StoreErrorView>(Some(body)));
    let answer = choose|answer: Result<Option<Seq<u8>>, StoreErrorView>| #[trigger]
        store::judging_read(between.store, cid_text, answer, after.store) && read == read_answer(
            answer,
        );
    crate::memory::lemma_judging_read_in_memory(between.store, cid_text, answer, after.store);
}

/// What a trusted worker wrote is read back by a trusted reader, byte for byte,
/// and never handed to a peer.
pub proof fn lemma_write_then_read(
    before: GatewayState<MemoryStore>,
    cid_text: Seq<char>,
    authorization: Option<Seq<char>>,
    body: Seq<u8>,
    written: Result<u16, HttpErrorView>,
    between: GatewayState<MemoryStore>,
    credential: Option<Seq<char>>,
    read: Result<Seq<u8>, HttpErrorView>,
    after: GatewayState<MemoryStore>,
)
    requires
        writes(before, cid_text, authorization, body, written, between),
        written is Ok,
        is_trusted(between.read_secret@, credential),
        reads(between, cid_text, credential, read, after),
    ensures
        read == Ok::<_, HttpErrorView>(body),
        between.store@.read_for_peer(cid_text) matches Err(
            StoreErrorView::DistributionRefused { .. },
        ),
{
    assert(between.store@.read_for_judging(cid_text) == Ok::<_, StoreErrorView>(Some(body)));
    let answer = choose|answer: Result<Option<Seq<u8>>, StoreErrorView>| #[trigger]
        store::judging_read(between.store, cid_text, answer, after.store) && read == read_answer(
            answer,
        );
    crate::memory::lemma_judging_read_in_memory(between.store, cid_text, answer, after.store);
}

/// The token of a header is what follows `Bearer` and a space, whatever it is; no other
/// header has one.
pub proof fn lemma_bearer_tokens(token: Seq<char>, header: Seq<char>)
    ensures
        bearer_of(Some("Bearer "@ + token)) == Some(token),
        bearer_of(None) is None,
        bearer_of(Some(header)) matches Some(found) ==> header == "Bearer "@ + found,
{
    text::lemma_prefix(header, "Bearer "@, token);
}

/// A valid upload is admitted: where the token is a valid grant, the grant is for the
/// name that is uploaded to and for as many bytes as there are, and the bytes hash to
/// that name, the upload is admitted under the grant, whatever the bytes are.
pub proof fn lemma_valid_uploads_are_admitted(
    secret: Seq<u8>,
    token: Seq<char>,
    grant: ClaimsView,
    body: Seq<u8>,
    now: i64,
)
    requires
        upload_protocol::checked(secret, "grant"@, token, now) == Ok::<_, TokenError>(grant),
        cid::is_cid(grant.cid),
        grant.cid == "b3:"@ + cid::blake3_hex(body),
        grant.size == body.len(),
    ensures
        grant_admission(grant, grant.cid, body) == Ok::<_, HttpErrorView>(grant),
        upload_admission(secret, grant.cid, Some("Bearer "@ + token), body, now) == Ok::<
            _,
            HttpErrorView,
        >(grant),
{
    lemma_bearer_tokens(token, Seq::empty());
}

/// An upload that is not valid is refused, and told why: without a token, or with one
/// that is no valid grant, as unauthenticated; to another name or of another size than
/// granted as not matching; to a name that is not canonical, and with bytes that do not
/// hash to it, for that.
pub proof fn lemma_invalid_uploads_are_refused(
    secret: Seq<u8>,
    token: Seq<char>,
    cid_text: Seq<char>,
    body: Seq<u8>,
    now: i64,
)
    ensures
        upload_admission(secret, cid_text, None, body, now) == Err::<ClaimsView, _>(
            HttpErrorView {
                status: 401,
                code: "unauthenticated"@,
                message: "upload grant required"@,
            },
        ),
        upload_protocol::checked(secret, "grant"@, token, now) is Err ==> upload_admission(
            secret,
            cid_text,
            Some("Bearer "@ + token),
            body,
            now,
        ) == Err::<ClaimsView, _>(
            HttpErrorView {
                status: 401,
                code: "unauthenticated"@,
                message: "invalid or expired upload grant"@,
            },
        ),
        upload_protocol::checked(secret, "grant"@, token, now) matches Ok(grant) ==> {
            let admission = upload_admission(
                secret,
                cid_text,
                Some("Bearer "@ + token),
                body,
                now,
            );
            &&& admission == grant_admission(grant, cid_text, body)
            &&& grant.cid != cid_text || grant.size != body.len() ==> admission == Err::<
                ClaimsView,
                _,
            >(
                HttpErrorView {
                    status: 400,
                    code: "invalid_upload"@,
                    message: "upload does not match its grant"@,
                },
            )
            &&& grant.cid == cid_text && grant.size == body.len() && !cid::is_cid(cid_text)
                ==> admission == Err::<ClaimsView, _>(
                HttpErrorView {
                    status: 400,
                    code: "invalid_upload"@,
                    message: "CID is not canonical BLAKE3"@,
                },
            )
            &&& grant.cid == cid_text && grant.size == body.len() && cid::is_cid(cid_text)
                && cid_text != "b3:"@ + cid::blake3_hex(body) ==> admission == Err::<ClaimsView, _>(
                HttpErrorView {
                    status: 400,
                    code: "integrity_failure"@,
                    message: "source bytes do not match the requested CID"@,
                },
            )
        },
{
    lemma_bearer_tokens(token, Seq::empty());
}

/// What a store answered to a put decides: where it stored the bytes under the name that
/// was asked for, the write succeeded, where it failed storage is unavailable, and where
/// it stored them under another name something is wrong here.
pub proof fn lemma_store_answers(expected: Seq<char>, cid: Seq<char>, error: StoreErrorView)
    ensures
        stored_as(expected, Ok(expected)) is Ok,
        write_answer(expected, Ok(expected)) == Ok::<_, HttpErrorView>(204u16),
        cid != expected ==> {
            let refusal = HttpErrorView {
                status: 500,
                code: "internal"@,
                message: "stored artifact identifier mismatch"@,
            };
            &&& stored_as(expected, Ok(cid)) == Err::<(), _>(refusal)
            &&& write_answer(expected, Ok(cid)) == Err::<u16, _>(refusal)
        },
        ({
            let refusal = HttpErrorView {
                status: 503,
                code: "storage_unavailable"@,
                message: "artifact storage is unavailable"@,
            };
            &&& stored_as(expected, Err(error)) == Err::<(), _>(refusal)
            &&& write_answer(expected, Err(error)) == Err::<u16, _>(refusal)
        }),
{
}

/// A receipt claims what the grant claimed, and is valid for a day from when the bytes
/// were stored.
pub proof fn lemma_receipts_last_a_day(grant: ClaimsView, now: i64)
    requires
        now + 86_400 <= i64::MAX,
    ensures
        receipt_claims(grant, now).expires_at == now + 86_400,
        receipt_claims(grant, now).user_id == grant.user_id,
        receipt_claims(grant, now).cid == grant.cid,
        receipt_claims(grant, now).size == grant.size,
        receipt_claims(grant, now).nonce == grant.nonce,
{
}

/// The answer to an upload that was stored: 201, the name and the size that were
/// granted, and a receipt that the metadata API accepts for a day and not a second
/// longer.
pub proof fn lemma_stored_uploads_are_answered(
    secret: Seq<u8>,
    grant: ClaimsView,
    now: i64,
    result: UploadResult,
    later: i64,
)
    requires
        now + 86_400 <= i64::MAX,
        upload_answered(secret, grant, Ok(grant.cid), now, result),
    ensures
        result matches Ok((status, response)) && {
            let claims = ClaimsView { expires_at: (now + 86_400) as i64, ..grant };
            &&& status == 201
            &&& response.cid@ == grant.cid
            &&& response.size == grant.size
            &&& response.receipt@ == upload_protocol::sealed(
                secret,
                "receipt"@,
                upload_protocol::claims_json(claims),
            )
            &&& upload_protocol::checked(secret, "receipt"@, response.receipt@, later) == if later
                <= now + 86_400 {
                Ok(claims)
            } else {
                Err(TokenError::Expired)
            }
        },
{
    let response = result->Ok_0.1;
    assert(is_response(secret, grant, now, response));
}

/// An upload that was not stored is answered with the refusal that the answer of the
/// store calls for.
pub proof fn lemma_unstored_uploads_are_refused(
    secret: Seq<u8>,
    grant: ClaimsView,
    stored: Result<Seq<char>, StoreErrorView>,
    now: i64,
    result: UploadResult,
)
    requires
        upload_answered(secret, grant, stored, now, result),
        stored != Ok::<_, StoreErrorView>(grant.cid),
    ensures
        result matches Err(refusal) && stored_as(grant.cid, stored) == Err::<(), _>(refusal@),
{
}

/// With a store in memory, a valid upload is answered with 201, the name and the size of
/// the bytes, and a receipt for them; and the store then holds all of them, for trusted
/// readers only.
pub proof fn lemma_valid_uploads_are_stored(
    before: GatewayState<MemoryStore>,
    token: Seq<char>,
    grant: ClaimsView,
    body: Seq<u8>,
    admitted_at: i64,
    stored_at: i64,
    result: UploadResult,
    after: GatewayState<MemoryStore>,
)
    requires
        upload_protocol::checked(before.upload_tokens@, "grant"@, token, admitted_at) == Ok::<
            _,
            TokenError,
        >(grant),
        cid::is_cid(grant.cid),
        grant.cid == "b3:"@ + cid::blake3_hex(body),
        grant.size == body.len(),
        stored_at + 86_400 <= i64::MAX,
        uploads(
            before,
            grant.cid,
            Some("Bearer "@ + token),
            body,
            admitted_at,
            stored_at,
            result,
            after,
        ),
    ensures
        result matches Ok((status, response)) && status == 201 && response.cid@ == grant.cid
            && response.size == body.len() && upload_protocol::checked(
            before.upload_tokens@,
            "receipt"@,
            response.receipt@,
            stored_at,
        ) == Ok::<_, TokenError>(
            ClaimsView { expires_at: (stored_at + 86_400) as i64, ..grant },
        ),
        after.store@.content == before.store@.content.insert(grant.cid, body),
        after.store@.entries.contains_key(grant.cid),
        after.store@.entries[grant.cid].provenance.trust is Verified,
        after.store@.entries[grant.cid].provenance.distribution is TrustedOnly,
        after.store@.entries[grant.cid].provenance.origin is Local,
{
    lemma_valid_uploads_are_admitted(before.upload_tokens@, token, grant, body, admitted_at);
    let stored = choose|stored: Result<Seq<char>, StoreErrorView>| #[trigger]
        <MemoryStore as store::StoreModel>::puts(
            before.store,
            body,
            provenance::confined(),
            stored,
            after.store,
        ) && upload_answered(before.upload_tokens@, grant, stored, stored_at, result);
    crate::memory::lemma_put_in_memory(
        before.store,
        body,
        provenance::confined(),
        stored,
        after.store,
    );
    lemma_stored_uploads_are_answered(
        before.upload_tokens@,
        grant,
        stored_at,
        result,
        stored_at,
    );
}

/// Whatever the store, an upload that is refused at the door changes nothing; one that
/// is admitted is put, confined to trusted storage, and answered as the store answered.
pub proof fn lemma_uploads_put_what_was_admitted<S: ObjectStore>(
    before: GatewayState<S>,
    cid_text: Seq<char>,
    authorization: Option<Seq<char>>,
    body: Seq<u8>,
    admitted_at: i64,
    stored_at: i64,
    result: UploadResult,
    after: GatewayState<S>,
)
    requires
        uploads(
            before,
            cid_text,
            authorization,
            body,
            admitted_at,
            stored_at,
            result,
            after,
        ),
    ensures
        match upload_admission(
            before.upload_tokens@,
            cid_text,
            authorization,
            body,
            admitted_at,
        ) {
            Err(refusal) => {
                &&& result matches Err(given) && given@ == refusal
                &&& after == before
            },
            Ok(grant) => exists|stored: Result<Seq<char>, StoreErrorView>| #[trigger]
                S::puts(
                    before.store,
                    body,
                    provenance::ProvenanceView {
                        origin: provenance::OriginView::Local,
                        trust: provenance::TrustState::Verified,
                        distribution: provenance::Distribution::TrustedOnly,
                    },
                    stored,
                    after.store,
                ) && upload_answered(before.upload_tokens@, grant, stored, stored_at, result),
        },
{
}

/// A request is trusted exactly where its token is, byte for byte, the secret; without a
/// token, only where the secret is empty.
pub proof fn lemma_trusted_requests(
    read_secret: Seq<u8>,
    token: Seq<char>,
    header: Seq<char>,
)
    ensures
        is_trusted(read_secret, Some("Bearer "@ + token)) <==> encode_utf8(token) == read_secret,
        is_trusted(read_secret, None) <==> read_secret.len() == 0,
        bearer_of(Some(header)) is None ==> (is_trusted(read_secret, Some(header))
            <==> read_secret.len() == 0),
{
    lemma_bearer_tokens(token, header);
    if read_secret.len() == 0 {
        assert(read_secret =~= Seq::empty());
    }
}

/// A request for an artifact is admitted exactly where it is trusted and the name is
/// canonical, and a write exactly where its bytes hash to the name besides; the first
/// of these that does not hold is the one that is reported.
pub proof fn lemma_artifact_requests(
    read_secret: Seq<u8>,
    cid_text: Seq<char>,
    authorization: Option<Seq<char>>,
    body: Seq<u8>,
)
    ensures
        !is_trusted(read_secret, authorization) ==> {
            let refusal = HttpErrorView {
                status: 401,
                code: "unauthenticated"@,
                message: "trusted artifact credential required"@,
            };
            &&& artifact_admission(read_secret, cid_text, authorization) == Err::<(), _>(refusal)
            &&& write_admission(read_secret, cid_text, authorization, body) == Err::<(), _>(refusal)
        },
        is_trusted(read_secret, authorization) && !cid::is_cid(cid_text) ==> {
            let refusal = HttpErrorView {
                status: 400,
                code: "invalid_cid"@,
                message: "CID is not canonical BLAKE3"@,
            };
            &&& artifact_admission(read_secret, cid_text, authorization) == Err::<(), _>(refusal)
            &&& write_admission(read_secret, cid_text, authorization, body) == Err::<(), _>(refusal)
        },
        is_trusted(read_secret, authorization) && cid::is_cid(cid_text) ==> {
            &&& artifact_admission(read_secret, cid_text, authorization) is Ok
            &&& write_admission(read_secret, cid_text, authorization, body) == if cid_text == "b3:"@
                + cid::blake3_hex(body) {
                Ok(())
            } else {
                Err(
                    HttpErrorView {
                        status: 400,
                        code: "integrity_failure"@,
                        message: "artifact bytes do not match the requested CID"@,
                    },
                )
            }
        },
{
}

/// What a store answered to a read decides: content is given as it is, an object that is
/// absent is not found, and a failure makes storage unavailable.
pub proof fn lemma_read_answers(content: Seq<u8>, error: StoreErrorView)
    ensures
        read_answer(Ok(Some(content))) == Ok::<_, HttpErrorView>(content),
        read_answer(Ok(None)) == Err::<Seq<u8>, _>(
            HttpErrorView { status: 404, code: "not_found"@, message: "artifact not found"@ },
        ),
        read_answer(Err(error)) == Err::<Seq<u8>, _>(
            HttpErrorView {
                status: 503,
                code: "storage_unavailable"@,
                message: "artifact storage is unavailable"@,
            },
        ),
{
}

/// With a store in memory, a trusted write of bytes that hash to the name is answered
/// with 204, and the store then holds all of them, for trusted readers only.
pub proof fn lemma_valid_writes_are_stored(
    before: GatewayState<MemoryStore>,
    token: Seq<char>,
    cid_text: Seq<char>,
    body: Seq<u8>,
    result: Result<u16, HttpErrorView>,
    after: GatewayState<MemoryStore>,
)
    requires
        encode_utf8(token) == before.read_secret@,
        cid::is_cid(cid_text),
        cid_text == "b3:"@ + cid::blake3_hex(body),
        writes(before, cid_text, Some("Bearer "@ + token), body, result, after),
    ensures
        result == Ok::<_, HttpErrorView>(204u16),
        after.store@.content == before.store@.content.insert(cid_text, body),
        after.store@.entries.contains_key(cid_text),
        after.store@.entries[cid_text].provenance.trust is Verified,
        after.store@.entries[cid_text].provenance.distribution is TrustedOnly,
        after.store@.entries[cid_text].provenance.origin is Local,
{
    lemma_trusted_requests(before.read_secret@, token, Seq::empty());
    let stored = choose|stored: Result<Seq<char>, StoreErrorView>| #[trigger]
        <MemoryStore as store::StoreModel>::puts(
            before.store,
            body,
            provenance::confined(),
            stored,
            after.store,
        ) && result == write_answer(cid_text, stored);
    crate::memory::lemma_put_in_memory(
        before.store,
        body,
        provenance::confined(),
        stored,
        after.store,
    );
}

/// Whatever the store, a write that is refused at the door changes nothing; one that is
/// admitted is put, confined to trusted storage, and answered as the store answered.
pub proof fn lemma_writes_put_what_was_admitted<S: ObjectStore>(
    before: GatewayState<S>,
    cid_text: Seq<char>,
    authorization: Option<Seq<char>>,
    body: Seq<u8>,
    result: Result<u16, HttpErrorView>,
    after: GatewayState<S>,
)
    requires
        writes(before, cid_text, authorization, body, result, after),
    ensures
        match write_admission(before.read_secret@, cid_text, authorization, body) {
            Err(refusal) => result == Err::<u16, _>(refusal) && after == before,
            Ok(()) => exists|stored: Result<Seq<char>, StoreErrorView>| #[trigger]
                S::puts(
                    before.store,
                    body,
                    provenance::ProvenanceView {
                        origin: provenance::OriginView::Local,
                        trust: provenance::TrustState::Verified,
                        distribution: provenance::Distribution::TrustedOnly,
                    },
                    stored,
                    after.store,
                ) && result == write_answer(cid_text, stored),
        },
{
}

/// With a store in memory, a trusted reader is given what is held under the name, if the
/// name is its hash and its entry does not say that it is quarantined; otherwise it is
/// not found, or was corrupt.
pub proof fn lemma_trusted_reads_are_answered(
    before: GatewayState<MemoryStore>,
    token: Seq<char>,
    cid_text: Seq<char>,
    result: Result<Seq<u8>, HttpErrorView>,
    after: GatewayState<MemoryStore>,
)
    requires
        encode_utf8(token) == before.read_secret@,
        cid::is_cid(cid_text),
        reads(before, cid_text, Some("Bearer "@ + token), result, after),
    ensures
        ({
            let held = before.store@;
            let trusted = held.entries.contains_key(cid_text) && !(
            held.entries[cid_text].provenance.trust is Quarantined);
            if !trusted || !held.content.contains_key(cid_text) {
                result matches Err(refusal) && refusal.status == 404
            } else if cid_text == "b3:"@ + cid::blake3_hex(held.content[cid_text]) {
                result == Ok::<_, HttpErrorView>(held.content[cid_text])
            } else {
                result matches Err(refusal) && refusal.status == 503
            }
        }),
{
    lemma_trusted_requests(before.read_secret@, token, Seq::empty());
    let read = choose|read: Result<Option<Seq<u8>>, StoreErrorView>| #[trigger]
        store::judging_read(before.store, cid_text, read, after.store) && result == read_answer(
            read,
        );
    crate::memory::lemma_judging_read_in_memory(before.store, cid_text, read, after.store);
}

/// Whatever the store, a read that is refused at the door changes nothing; one that is
/// admitted is answered as the store answers a judge.
pub proof fn lemma_reads_ask_as_a_judge<S: ObjectStore>(
    before: GatewayState<S>,
    cid_text: Seq<char>,
    authorization: Option<Seq<char>>,
    result: Result<Seq<u8>, HttpErrorView>,
    after: GatewayState<S>,
)
    requires
        reads(before, cid_text, authorization, result, after),
    ensures
        match artifact_admission(before.read_secret@, cid_text, authorization) {
            Err(refusal) => result == Err::<Seq<u8>, _>(refusal) && after == before,
            Ok(()) => exists|read: Result<Option<Seq<u8>>, StoreErrorView>| #[trigger]
                store::judging_read(before.store, cid_text, read, after.store) && result
                    == read_answer(read),
        },
{
}

/// The model of a refusal, and of a result, holds what they hold; and credentials are
/// both the tokens and the secret for reads.
pub proof fn lemma_views<S: ObjectStore>(
    refusal: HttpError,
    header: &str,
    content: Vec<u8>,
    status: u16,
    before: GatewayState<S>,
    after: GatewayState<S>,
)
    ensures
        refusal@.status == refusal.status,
        refusal@.code == refusal.code@,
        refusal@.message == refusal.message@,
        header_view(Some(header)) == Some(header@),
        header_view(None) is None,
        http_view(Ok(status)) == Ok::<_, HttpErrorView>(status),
        http_view::<u16>(Err(refusal)) == Err::<u16, _>(refusal@),
        bytes_view(Ok(content)) == Ok::<_, HttpErrorView>(content@),
        bytes_view(Err(refusal)) == Err::<Seq<u8>, _>(refusal@),
        same_credentials(before, after) ==> after.upload_tokens == before.upload_tokens
            && after.read_secret == before.read_secret,
{
}

/// A source file may hold 256 KiB, and a receipt lasts 24 hours.
pub proof fn lemma_limits()
    ensures
        MAX_SOURCE_BYTES == 262_144,
        RECEIPT_SECONDS == 86_400,
{
}

} // verus!

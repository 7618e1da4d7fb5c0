use rustly_storage::cid::Cid;
use rustly_storage::gateway::{
    admit_artifact, admit_granted, admit_upload, admit_write, answer_read, answer_upload,
    answer_write, bearer, check_stored, error, receipt_for, require_trusted, required_secret,
    GatewayState, HttpError, UploadResponse, MAX_SOURCE_BYTES, RECEIPT_SECONDS,
};
use rustly_storage::memory::MemoryStore;
use rustly_storage::provenance::{Distribution, Provenance};
use rustly_storage::store::{ObjectStore, StoreError, StoreModel, StoreResult};
use rustly_storage::upload_protocol::{UploadGrant, UploadTokens};

const NOW: i64 = 1_700_000_000;

fn fixture() -> (GatewayState<MemoryStore>, UploadTokens, Vec<u8>) {
    let tokens = UploadTokens::new(vec![0x51; 32]).unwrap();
    let read_secret = vec![0x52; 32];
    let state = GatewayState {
        store: MemoryStore::new(),
        upload_tokens: tokens.clone(),
        read_secret: read_secret.clone(),
    };
    (state, tokens, read_secret)
}

fn grant_for(cid: &str, size: u64) -> UploadGrant {
    UploadGrant {
        user_id: "user-1".into(),
        cid: cid.into(),
        size,
        expires_at: NOW + 60,
        nonce: "nonce".into(),
    }
}

fn refusal<T>(result: Result<T, HttpError>) -> (u16, &'static str, String) {
    match result {
        Ok(_) => panic!("must be refused"),
        Err(error) => (error.status, error.code, error.message),
    }
}

#[test]
fn upload_hashes_stores_receipts_and_allows_only_trusted_reads() {
    let (mut app, tokens, read_secret) = fixture();
    let source = b"fn main() {}";
    let cid = Cid::of(source).as_str().to_owned();
    let grant = tokens.sign_grant(&grant_for(&cid, source.len() as u64));
    let (status, _) = app
        .upload(&cid, Some(&format!("Bearer {grant}")), source, NOW, NOW)
        .unwrap();
    assert_eq!(status, 201);

    assert_eq!(app.read_artifact(&cid, None).unwrap_err().status, 401);

    let credential = format!("Bearer {}", String::from_utf8(read_secret).unwrap());
    assert_eq!(
        app.read_artifact(&cid, Some(&credential)).unwrap(),
        source.to_vec()
    );
}

#[test]
fn a_valid_grant_cannot_store_different_bytes() {
    let (mut app, tokens, _) = fixture();
    let cid = Cid::of(b"expected").as_str().to_owned();
    let grant = tokens.sign_grant(&grant_for(&cid, 8));
    let refused = app.upload(
        &cid,
        Some(&format!("Bearer {grant}")),
        b"tampered",
        NOW,
        NOW,
    );
    assert_eq!(
        refusal(refused),
        (
            400,
            "integrity_failure",
            "source bytes do not match the requested CID".to_string()
        )
    );
    assert!(app.store.is_empty());
}

#[test]
fn trusted_writes_are_authenticated_and_content_verified() {
    let (mut app, _, read_secret) = fixture();
    let bytes = b"trusted evaluation package";
    let cid = Cid::of(bytes).as_str().to_owned();
    assert_eq!(
        app.write_trusted_artifact(&cid, None, bytes)
            .unwrap_err()
            .status,
        401
    );

    let credential = format!("Bearer {}", String::from_utf8(read_secret).unwrap());
    assert_eq!(
        app.write_trusted_artifact(&cid, Some(&credential), bytes)
            .unwrap(),
        204
    );
    assert_eq!(
        app.write_trusted_artifact(&cid, Some(&credential), b"other")
            .unwrap_err()
            .status,
        400
    );

    assert_eq!(
        app.read_artifact(&cid, Some(&credential)).unwrap(),
        bytes.to_vec()
    );
}

#[test]
fn a_receipt_proves_the_upload() {
    let (mut app, tokens, _) = fixture();
    let source = b"fn main() {}";
    let cid = Cid::of(source).as_str().to_owned();
    let grant = tokens.sign_grant(&grant_for(&cid, 12));
    let (_, response) = app
        .upload(&cid, Some(&format!("Bearer {grant}")), source, NOW, NOW + 5)
        .unwrap();
    assert_eq!(response.cid, cid);
    assert_eq!(response.size, 12);
    assert_eq!(response.clone(), response);
    let receipt = tokens
        .verify_receipt(&response.receipt, NOW + 5 + RECEIPT_SECONDS)
        .unwrap();
    assert_eq!(receipt.user_id, "user-1");
    assert_eq!(receipt.cid, cid);
    assert_eq!(receipt.size, 12);
    assert_eq!(receipt.nonce, "nonce");
    assert_eq!(receipt.expires_at, NOW + 5 + 86_400);
    assert!(tokens
        .verify_receipt(&response.receipt, NOW + 6 + RECEIPT_SECONDS)
        .is_err());
    // A receipt is no grant.
    assert_eq!(
        refusal(app.upload(
            &cid,
            Some(&format!("Bearer {}", response.receipt)),
            source,
            NOW,
            NOW
        )),
        (
            401,
            "unauthenticated",
            "invalid or expired upload grant".to_string()
        )
    );
    // What was uploaded stays in trusted storage.
    let stored = Cid::parse(&cid).unwrap();
    assert!(matches!(
        app.store.get_for_peer(&stored),
        Err(StoreError::DistributionRefused {
            distribution: Distribution::TrustedOnly,
            ..
        })
    ));
}

#[test]
fn uploads_are_refused_in_order() {
    let tokens = UploadTokens::new(vec![0x51; 32]).unwrap();
    let cid = Cid::of(b"source").as_str().to_owned();
    let header = |grant: &UploadGrant| format!("Bearer {}", tokens.sign_grant(grant));
    assert_eq!(
        refusal(admit_upload(&tokens, &cid, None, b"source", NOW)),
        (401, "unauthenticated", "upload grant required".to_string())
    );
    assert_eq!(
        refusal(admit_upload(&tokens, &cid, Some("Basic x"), b"source", NOW)),
        (401, "unauthenticated", "upload grant required".to_string())
    );
    assert_eq!(
        refusal(admit_upload(
            &tokens,
            &cid,
            Some(&header(&grant_for(&cid, 6))),
            b"source",
            NOW + 61
        )),
        (
            401,
            "unauthenticated",
            "invalid or expired upload grant".to_string()
        )
    );
    let mismatch = (
        400,
        "invalid_upload",
        "upload does not match its grant".to_string(),
    );
    assert_eq!(
        refusal(admit_upload(
            &tokens,
            &cid,
            Some(&header(&grant_for(&cid, 7))),
            b"source",
            NOW
        )),
        mismatch
    );
    assert_eq!(
        refusal(admit_upload(
            &tokens,
            &cid,
            Some(&header(&grant_for("b3:other", 6))),
            b"source",
            NOW
        )),
        mismatch
    );
    assert_eq!(
        refusal(admit_upload(
            &tokens,
            "b3:other",
            Some(&header(&grant_for("b3:other", 6))),
            b"source",
            NOW
        )),
        (
            400,
            "invalid_upload",
            "CID is not canonical BLAKE3".to_string()
        )
    );
    assert!(admit_upload(
        &tokens,
        &cid,
        Some(&header(&grant_for(&cid, 6))),
        b"source",
        NOW + 60
    )
    .is_ok());
}

#[test]
fn a_grant_admits_what_it_promised() {
    let cid = Cid::of(b"source").as_str().to_owned();
    let admitted = admit_granted(grant_for(&cid, 6), &cid, b"source").unwrap();
    let receipt = receipt_for(admitted, Ok(Cid::of(b"source")), NOW).unwrap();
    assert_eq!(receipt.cid, cid);
    assert_eq!(receipt.expires_at, NOW + 86_400);
    let admitted = admit_granted(grant_for(&cid, 6), &cid, b"source").unwrap();
    assert_eq!(
        refusal(receipt_for(admitted, Ok(Cid::of(b"other")), NOW)),
        (
            500,
            "internal",
            "stored artifact identifier mismatch".to_string()
        )
    );
    assert!(admit_granted(grant_for(&cid, 6), &cid, b"Source").is_err());
}

#[test]
fn a_failing_store_is_reported_as_unavailable() {
    let down = || Err(StoreError::Unavailable("down".into()));
    let unavailable = (
        503,
        "storage_unavailable",
        "artifact storage is unavailable".to_string(),
    );
    let expected = Cid::of(b"x");
    assert_eq!(refusal(check_stored(&expected, down())), unavailable);
    assert_eq!(refusal(answer_write(&expected, down())), unavailable);
    assert_eq!(
        refusal(answer_read(Err(StoreError::Unavailable("down".into())))),
        unavailable
    );
    assert_eq!(answer_write(&expected, Ok(Cid::of(b"x"))).unwrap(), 204);
    assert_eq!(
        refusal(answer_write(&expected, Ok(Cid::of(b"y")))),
        (
            500,
            "internal",
            "stored artifact identifier mismatch".to_string()
        )
    );
    let tokens = UploadTokens::new(vec![0x51; 32]).unwrap();
    let cid = Cid::of(b"source").as_str().to_owned();
    let admitted = admit_granted(grant_for(&cid, 6), &cid, b"source").unwrap();
    assert_eq!(
        refusal(answer_upload(&tokens, admitted, down(), NOW)),
        unavailable
    );
}

#[test]
fn reads_answer_with_the_content_or_not_at_all() {
    assert_eq!(answer_read(Ok(Some(vec![1, 2]))).unwrap(), vec![1, 2]);
    assert_eq!(
        refusal(answer_read(Ok(None))),
        (404, "not_found", "artifact not found".to_string())
    );
    let (mut app, _, _) = fixture();
    let credential = format!("Bearer {}", "R".repeat(32));
    let absent = Cid::of(b"absent").as_str().to_owned();
    assert_eq!(
        app.read_artifact(&absent, Some(&credential))
            .unwrap_err()
            .status,
        404
    );
    // A quarantined artifact reads as absent.
    let cid = app
        .store
        .put(b"volunteered", Provenance::from_volunteer("peer"))
        .unwrap();
    assert_eq!(
        app.read_artifact(cid.as_str(), Some(&credential))
            .unwrap_err()
            .status,
        404
    );
}

#[test]
fn artifacts_are_asked_for_by_canonical_names() {
    let secret = vec![b'R'; 32];
    let credential = format!("Bearer {}", "R".repeat(32));
    let invalid = (400, "invalid_cid", "CID is not canonical BLAKE3".to_string());
    assert_eq!(
        refusal(admit_artifact(&secret, "b3:abc", Some(&credential))),
        invalid
    );
    assert_eq!(
        refusal(admit_write(&secret, "b3:abc", Some(&credential), b"x")),
        invalid
    );
    let cid = Cid::of(b"x");
    assert_eq!(
        admit_artifact(&secret, cid.as_str(), Some(&credential)).unwrap(),
        cid
    );
    assert_eq!(
        admit_write(&secret, cid.as_str(), Some(&credential), b"x").unwrap(),
        cid
    );
    assert_eq!(
        refusal(admit_write(&secret, cid.as_str(), Some(&credential), b"y")),
        (
            400,
            "integrity_failure",
            "artifact bytes do not match the requested CID".to_string()
        )
    );
}

#[test]
fn only_the_right_credential_is_trusted() {
    let secret = vec![b'R'; 32];
    let right = format!("Bearer {}", "R".repeat(32));
    assert!(require_trusted(&secret, Some(&right)).is_ok());
    for wrong in [
        None,
        Some("Bearer "),
        Some("Bearer RRRR"),
        Some("bearer RRRRRRRRRRRRRRRRRRRRRRRRRRRRRRRR"),
        Some("RRRRRRRRRRRRRRRRRRRRRRRRRRRRRRRR"),
        Some("Bearer RRRRRRRRRRRRRRRRRRRRRRRRRRRRRRRS"),
    ] {
        assert_eq!(
            refusal(require_trusted(&secret, wrong)),
            (
                401,
                "unauthenticated",
                "trusted artifact credential required".to_string()
            )
        );
    }
}

#[test]
fn bearer_tokens_are_taken_from_the_header() {
    assert_eq!(bearer(Some("Bearer abc")), Some("abc"));
    assert_eq!(bearer(Some("Bearer ")), Some(""));
    assert_eq!(bearer(Some("Bearer")), None);
    assert_eq!(bearer(Some("Token abc")), None);
    assert_eq!(bearer(None), None);
}

#[test]
fn deployment_secrets_are_long_enough() {
    assert_eq!(
        required_secret("NAME", &"s".repeat(32)).unwrap(),
        vec![b's'; 32]
    );
    // Length is counted in bytes.
    assert!(required_secret("NAME", &"é".repeat(16)).is_ok());
    assert_eq!(
        required_secret("NAME", "short").unwrap_err(),
        "NAME must be at least 32 bytes"
    );
}

#[test]
fn refusals_say_what_is_wrong() {
    assert_eq!(
        error(418, "teapot", "short and stout"),
        HttpError {
            status: 418,
            code: "teapot",
            message: "short and stout".into()
        }
    );
    assert_eq!(MAX_SOURCE_BYTES, 262_144);
}

/// A store that stores under another name.
struct Mislabelling;

impl StoreModel for Mislabelling {}

impl ObjectStore for Mislabelling {
    fn id(&self) -> &'static str {
        "mislabelling"
    }

    fn put(&mut self, _content: &[u8], _provenance: Provenance) -> StoreResult<Cid> {
        Ok(Cid::of(b"another object"))
    }

    fn get(&mut self, _cid: &Cid) -> StoreResult<Option<Vec<u8>>> {
        Err(StoreError::Unavailable("down".into()))
    }

    fn head(
        &mut self,
        _cid: &Cid,
    ) -> StoreResult<Option<rustly_storage::store::Entry>> {
        Err(StoreError::Unavailable("down".into()))
    }

    fn contains(&mut self, _cid: &Cid) -> StoreResult<bool> {
        Ok(false)
    }

    fn remove(&mut self, _cid: &Cid) -> StoreResult<()> {
        Ok(())
    }

    fn promote(&mut self, _cid: &Cid, _reproduced: &[u8]) -> StoreResult<()> {
        Ok(())
    }
}

#[test]
fn a_store_that_mislabels_is_caught() {
    let mut app = GatewayState {
        store: Mislabelling,
        upload_tokens: UploadTokens::new(vec![0x51; 32]).unwrap(),
        read_secret: vec![b'R'; 32],
    };
    let credential = format!("Bearer {}", "R".repeat(32));
    let cid = Cid::of(b"x").as_str().to_owned();
    assert_eq!(
        app.write_trusted_artifact(&cid, Some(&credential), b"x")
            .unwrap_err()
            .status,
        500
    );
    assert_eq!(
        app.read_artifact(&cid, Some(&credential))
            .unwrap_err()
            .status,
        503
    );
    let grant = app.upload_tokens.sign_grant(&grant_for(&cid, 1));
    let refused: Result<(u16, UploadResponse), HttpError> =
        app.upload(&cid, Some(&format!("Bearer {grant}")), b"x", NOW, NOW);
    assert_eq!(refused.unwrap_err().status, 500);
}

use rustly_storage::cid::Cid;
use rustly_storage::manifest::{
    Chunk, Manifest, ManifestError, Redundancy, CHUNK_BYTES, MANIFEST_VERSION,
};

#[test]
fn a_built_manifest_verifies_its_own_content() {
    for size in [
        0,
        1,
        100,
        CHUNK_BYTES - 1,
        CHUNK_BYTES,
        CHUNK_BYTES + 1,
        CHUNK_BYTES * 3 + 7,
    ] {
        let content: Vec<u8> = (0..size).map(|i| (i % 251) as u8).collect();
        let manifest = Manifest::build(&content, None);
        assert!(manifest.validate().is_ok(), "size {size}");
        assert!(manifest.verify(&content).is_ok(), "size {size}");
        assert_eq!(manifest.size, size as u64);
    }
}

#[test]
fn chunk_count_follows_the_chunk_size() {
    assert_eq!(
        Manifest::build(&[], None).chunks.len(),
        1,
        "an empty object still has a chunk"
    );
    assert_eq!(Manifest::build(&[0u8; 10], None).chunks.len(), 1);
    assert_eq!(
        Manifest::build(&vec![0u8; CHUNK_BYTES], None).chunks.len(),
        1
    );
    assert_eq!(
        Manifest::build(&vec![0u8; CHUNK_BYTES + 1], None)
            .chunks
            .len(),
        2
    );
    assert_eq!(
        Manifest::build(&vec![0u8; CHUNK_BYTES * 3], None)
            .chunks
            .len(),
        3
    );
}

#[test]
fn corrupting_one_chunk_is_detected_even_though_the_object_is_large() {
    let mut content = vec![7u8; CHUNK_BYTES * 3];
    let manifest = Manifest::build(&content, None);

    // Flip a bit in the middle chunk.
    content[CHUNK_BYTES + 500] ^= 0xFF;
    let error = manifest.verify(&content).unwrap_err();
    assert!(matches!(error, ManifestError::CidMismatch { .. }));
}

#[test]
fn truncated_content_is_detected() {
    let content = vec![3u8; 5000];
    let manifest = Manifest::build(&content, None);
    let error = manifest.verify(&content[..4999]).unwrap_err();
    assert!(matches!(error, ManifestError::SizeMismatch { .. }));
}

#[test]
fn a_manifest_with_a_gap_is_rejected() {
    let content = vec![1u8; CHUNK_BYTES * 2];
    let mut manifest = Manifest::build(&content, None);
    manifest.chunks[1].offset += 10;

    assert!(matches!(
        manifest.validate(),
        Err(ManifestError::NotContiguous(_))
    ));
}

#[test]
fn a_manifest_that_lies_about_its_size_is_rejected() {
    let mut manifest = Manifest::build(b"hello", None);
    manifest.size = 999;
    assert!(matches!(
        manifest.validate(),
        Err(ManifestError::SizeMismatch { .. })
    ));
}

#[test]
fn a_manifest_that_lies_about_a_chunk_is_caught_even_if_the_whole_matches() {
    let content = vec![9u8; 100];
    let mut manifest = Manifest::build(&content, None);
    // The object CID stays correct; only the chunk CID is wrong.
    manifest.chunks[0].cid = Cid::of(b"something else entirely");

    let error = manifest.verify(&content).unwrap_err();
    assert!(
        matches!(error, ManifestError::CidMismatch { .. }),
        "verifying only the whole object would miss this, and a peer serving \
         that chunk would then fail against nothing"
    );
}

#[test]
fn an_unsupported_version_is_refused_rather_than_interpreted() {
    let mut manifest = Manifest::build(b"x", None);
    manifest.manifest_version = 99;
    assert_eq!(
        manifest.validate(),
        Err(ManifestError::UnsupportedVersion(99))
    );
}

#[test]
fn an_unimplemented_redundancy_scheme_is_refused_rather_than_guessed() {
    let mut manifest = Manifest::build(b"x", None);
    manifest.redundancy = Redundancy::Erasure { data: 4, parity: 2 };
    assert_eq!(
        manifest.validate(),
        Err(ManifestError::UnsupportedRedundancy)
    );
}

#[test]
fn repeated_content_deduplicates_across_chunks() {
    let content = vec![0u8; CHUNK_BYTES * 4];
    let manifest = Manifest::build(&content, None);
    assert_eq!(manifest.chunks.len(), 4);
    assert_eq!(
        manifest.distinct_chunks(),
        1,
        "four identical chunks are stored once"
    );
}

#[test]
fn missing_reports_only_what_is_not_held() {
    let content = vec![5u8; CHUNK_BYTES * 2 + 10];
    let manifest = Manifest::build(&content, None);
    let first = manifest.chunks[0].cid.clone();

    let missing = manifest.missing(&|cid: &Cid| *cid == first);
    assert!(missing.iter().all(|chunk| chunk.cid != first));
    assert!(missing.len() < manifest.chunks.len());
    assert!(manifest.missing(&|_: &Cid| true).is_empty());
    assert_eq!(
        manifest.missing(&|_: &Cid| false).len(),
        manifest.chunks.len()
    );
}

#[test]
fn a_manifest_holds_what_it_was_built_from() {
    let content = vec![8u8; CHUNK_BYTES + 3];
    let manifest = Manifest::build(&content, Some("application/wasm".into()));
    assert_eq!(manifest.manifest_version, MANIFEST_VERSION);
    assert_eq!(manifest.cid, Cid::of(&content));
    assert_eq!(manifest.media_type.as_deref(), Some("application/wasm"));
    assert_eq!(manifest.redundancy, Redundancy::default());
    assert_eq!(
        manifest.chunks,
        vec![
            Chunk {
                cid: Cid::of(&content[..CHUNK_BYTES]),
                offset: 0,
                length: CHUNK_BYTES as u32,
            },
            Chunk {
                cid: Cid::of(&content[CHUNK_BYTES..]),
                offset: CHUNK_BYTES as u64,
                length: 3,
            },
        ]
    );
    assert_eq!(manifest.distinct_chunks(), 2);
    assert_eq!(manifest.clone(), manifest);
}

#[test]
fn faults_are_reported_in_order() {
    let mut manifest = Manifest::build(&vec![1u8; CHUNK_BYTES * 2], None);
    manifest.chunks[1].offset = 7;
    assert_eq!(
        manifest.validate(),
        Err(ManifestError::NotContiguous(
            "chunk 1 starts at 7 but the previous chunk ends at 1048576".into()
        ))
    );
    manifest.chunks[0].length = CHUNK_BYTES as u32 + 1;
    assert_eq!(
        manifest.validate(),
        Err(ManifestError::NotContiguous(
            "chunk 0 is 1048577 bytes, over the 1048576 limit".into()
        ))
    );
    manifest.chunks.clear();
    assert_eq!(manifest.validate(), Err(ManifestError::Empty));
    assert!(manifest.is_measurable());
    assert!(manifest.is_checkable());
}

#[test]
fn a_wrong_whole_is_caught_after_the_chunks() {
    let mut manifest = Manifest::build(b"content", None);
    manifest.cid = Cid::of(b"other");
    assert_eq!(
        manifest.verify(b"content"),
        Err(ManifestError::CidMismatch {
            declared: Cid::of(b"other").as_str().to_owned(),
            actual: Cid::of(b"content").as_str().to_owned(),
        })
    );
}

#[test]
fn manifest_errors_say_what_is_wrong() {
    assert_eq!(
        ManifestError::UnsupportedVersion(9).message(),
        "manifest version 9 is not supported (expected 1)"
    );
    assert_eq!(
        ManifestError::NotContiguous("gap".into()).message(),
        "chunks do not tile the object: gap"
    );
    assert_eq!(
        ManifestError::SizeMismatch {
            declared: 10,
            covered: 0
        }
        .message(),
        "declared size 10 but chunks cover 0"
    );
    assert_eq!(
        ManifestError::CidMismatch {
            declared: "b3:a".into(),
            actual: "b3:b".into()
        }
        .message(),
        "content hashes to b3:b, not b3:a"
    );
    assert_eq!(
        ManifestError::UnsupportedRedundancy.message(),
        "redundancy scheme is not implemented; refusing to guess"
    );
    assert_eq!(
        ManifestError::Empty.message(),
        "a manifest must describe at least one chunk"
    );
}

use rustly_storage::cid::Cid;
use rustly_storage::filesystem::{FilesystemStore, Part, Reading, WriteStep};
use rustly_storage::layout::{directory_of, place_of};
use rustly_storage::provenance::Provenance;
use rustly_storage::store::{Entry, StoreError};

const DIGEST: &str = "af1349b9f5f9a1a6a0404dea36dcc9499bcb25c9adc112b7cc9a93cae41f3262";

fn store() -> FilesystemStore<String> {
    match FilesystemStore::open("/srv/store".to_string(), Ok(())) {
        Ok(store) => store,
        Err(error) => panic!("{}", error.message()),
    }
}

#[test]
fn a_store_is_opened_under_a_root() {
    assert_eq!(store().root(), "/srv/store");
    assert_eq!(store().clone().root(), "/srv/store");
    assert_eq!(store().id(), "filesystem");
    match FilesystemStore::open((), Err("denied".into())) {
        Err(error) => assert_eq!(
            error.message(),
            "store unavailable: creating the store root: denied"
        ),
        Ok(_) => panic!("must fail"),
    }
}

#[test]
fn parts_are_kept_in_shards() {
    let cid = Cid::of(b"");
    assert_eq!(store().object_path(&cid), format!("objects/af/13/{DIGEST}"));
    assert_eq!(
        store().entry_path(&cid),
        format!("entries/af/13/{DIGEST}.json")
    );
    assert_eq!(directory_of("objects", &cid), "objects/af/13");
    assert_eq!(place_of("k", &cid, ".s"), format!("k/af/13/{DIGEST}.s"));
}

#[test]
fn parts_are_written_apart_and_renamed() {
    let cid = Cid::of(b"");
    let write = store().write_atomically(Part::Object, &cid);
    assert_eq!(write.directory, "objects/af/13");
    assert_eq!(write.temporary, format!("objects/af/13/{DIGEST}.partial"));
    assert_eq!(write.target, format!("objects/af/13/{DIGEST}"));
    let write = store().write_atomically(Part::Entry, &cid);
    assert_eq!(write.directory, "entries/af/13");
    assert_eq!(write.temporary, format!("entries/af/13/{DIGEST}.partial"));
    assert_eq!(write.target, format!("entries/af/13/{DIGEST}.json"));
}

#[test]
fn a_write_takes_its_steps_in_order() {
    let first = WriteStep::first();
    assert_eq!(first, WriteStep::CreateDirectory);
    let second = first.after(Ok(())).unwrap().unwrap();
    assert_eq!(second, WriteStep::WriteTemporary);
    let third = second.after(Ok(())).unwrap().unwrap();
    assert_eq!(third, WriteStep::Rename);
    assert!(third.after(Ok(())).unwrap().is_none());
    for (step, text) in [
        (first, "creating a shard directory"),
        (second, "writing an object"),
        (third, "renaming an object into place"),
    ] {
        assert_eq!(
            step.after(Err("disk full".into())).unwrap_err().message(),
            format!("store unavailable: {text}: disk full")
        );
    }
}

#[test]
fn what_is_read_from_disk_is_checked() {
    let cid = Cid::of(b"honest bytes");
    let end = store().end_get(&cid, Reading::Found(b"honest bytes".to_vec()));
    assert!(!end.evict);
    assert_eq!(end.result.unwrap(), Some(b"honest bytes".to_vec()));

    let end = store().end_get(&cid, Reading::Found(b"tampered bytes".to_vec()));
    assert!(end.evict);
    match end.result {
        Err(StoreError::Integrity { cid: named, detail }) => {
            assert_eq!(named, cid.as_str());
            assert_eq!(
                detail,
                format!("content hashes to {}", Cid::of(b"tampered bytes").as_str())
            );
        }
        other => panic!("got {other:?}"),
    }

    let end = store().end_get(&cid, Reading::Missing);
    assert!(!end.evict);
    assert_eq!(end.result.unwrap(), None);

    let end = store().end_get(&cid, Reading::Failed("denied".into()));
    assert!(!end.evict);
    assert_eq!(
        end.result.unwrap_err().message(),
        "store unavailable: reading an object: denied"
    );
}

#[test]
fn truncation_on_disk_is_detected() {
    let content = vec![42u8; 10_000];
    let cid = Cid::of(&content);
    let end = store().end_get(&cid, Reading::Found(content[..9_999].to_vec()));
    assert!(end.evict);
    assert!(matches!(end.result, Err(StoreError::Integrity { .. })));
}

#[test]
fn metadata_on_disk_is_decoded_or_reported() {
    let cid = Cid::of(b"x");
    let entry = store().plan_put(b"x", Provenance::built_public());
    assert_eq!(entry, Entry::of(b"x", Provenance::built_public()));
    assert_eq!(entry.manifest.cid, cid);
    let end = store().end_head(&cid, Reading::Found(Ok(entry.clone())));
    assert!(!end.evict);
    assert_eq!(end.result.unwrap(), Some(entry));
    let end = store().end_head(&cid, Reading::Missing);
    assert!(!end.evict);
    assert_eq!(end.result.unwrap(), None);
    let end = store().end_head(&cid, Reading::Failed("denied".into()));
    assert!(!end.evict);
    assert_eq!(
        end.result.unwrap_err().message(),
        "store unavailable: reading entry metadata: denied"
    );
    let end = store().end_head(&cid, Reading::Found(Err("bad json".into())));
    assert!(end.evict, "a corrupt entry is evicted before it is reported");
    assert_eq!(
        end.result.unwrap_err().message(),
        format!(
            "integrity failure for {}: entry metadata is corrupt: bad json",
            cid.as_str()
        )
    );
}

#[test]
fn a_put_ends_with_the_first_failure() {
    let cid = Cid::of(b"x");
    let failed = || StoreError::Unavailable("disk full".into());
    assert_eq!(store().end_put(cid.clone(), Ok(Ok(Ok(())))).unwrap(), cid);
    assert_eq!(
        store()
            .end_put(cid.clone(), Err(failed()))
            .unwrap_err()
            .message(),
        "store unavailable: disk full"
    );
    assert_eq!(
        store()
            .end_put(cid.clone(), Ok(Err("odd".into())))
            .unwrap_err()
            .message(),
        "store unavailable: encoding an entry: odd"
    );
    assert_eq!(
        store()
            .end_put(cid, Ok(Ok(Err(failed()))))
            .unwrap_err()
            .message(),
        "store unavailable: disk full"
    );
    assert!(store().end_promote(Ok(Ok(()))).is_ok());
    assert_eq!(
        store()
            .end_promote(Err("odd".into()))
            .unwrap_err()
            .message(),
        "store unavailable: encoding an entry: odd"
    );
}

#[test]
fn looking_for_a_file_may_fail() {
    assert!(store().end_contains(Ok(true)).unwrap());
    assert!(!store().end_contains(Ok(false)).unwrap());
    assert_eq!(
        store()
            .end_contains(Err("denied".into()))
            .unwrap_err()
            .message(),
        "store unavailable: checking for an object: denied"
    );
}

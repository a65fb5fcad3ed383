use spfs::graph::{Digest, Entry, EntryKind, Layer, Manifest, Object};
use spfs::memory::{MemGraphRepository, MemPayload};
use spfs::misc::Tag;
use spfs::sync::{SilentReporter, StorageError, SyncRepository, Syncer};
use spfs::sync_result::{SyncEnvItemResult, SyncObjectResult, SyncPlatformResult, SyncTagResult};
use spfs::tracking::{EnvSpec, EnvSpecItem, TagSpec};
use spfs::walk::{sync_digest, sync_env, sync_object, sync_tag, GraphRepository};

fn digest(n: u64) -> Digest {
    Digest::new(n, 0, 0, 0)
}

fn source() -> MemGraphRepository {
    let mut src = MemGraphRepository::new();
    let entry = Entry { name: "a".into(), kind: EntryKind::Blob, mode: 0o100644, size: 3, object: digest(2) };
    src.add_manifest(digest(10), Manifest { entries: vec![entry] });
    src.add_payload(digest(2), MemPayload { digest: digest(2), size: 3 });
    src.write_object(digest(20), &Object::Layer(Layer { manifest: digest(10) })).unwrap();
    src.create_platform(digest(30), vec![digest(20)]).unwrap();
    let tag = Tag {
        spec: TagSpec { path: "base".into() },
        target: digest(30),
        parent: digest(0),
        user: "alice".into(),
        time: 7,
    };
    src.push_raw_tag(&tag).unwrap();
    src
}

#[test]
fn sync_env_copies_tags_and_objects() {
    let src = source();
    let mut dest = MemGraphRepository::new();
    let syncer = Syncer::<SilentReporter>::new();
    let env = EnvSpec {
        items: vec![EnvSpecItem::TagSpec(TagSpec { path: "base".into() }), EnvSpecItem::Digest(digest(20))],
    };
    let res = sync_env(&syncer, &src, &mut dest, env).unwrap();
    assert_eq!(res.results.len(), 2);
    assert!(matches!(res.results[0], SyncEnvItemResult::Tag(SyncTagResult::Synced { .. })));
    assert!(matches!(res.results[1], SyncEnvItemResult::Object(SyncObjectResult::Layer(_))));
    assert_eq!(dest.resolve_tag(&TagSpec { path: "base".into() }).unwrap().target, digest(30));
    assert!(dest.has_platform(digest(30)));
    assert!(dest.has_layer(digest(20)));
    assert!(dest.has_manifest(digest(10)));
    assert!(dest.has_blob(digest(2)));
    assert!(dest.has_payload(digest(2)));
    let again = sync_tag(&syncer, &src, &mut dest, TagSpec { path: "base".into() }).unwrap();
    assert!(matches!(again, SyncTagResult::Skipped));
}

#[test]
fn sync_platform_skips_what_the_destination_has() {
    let src = source();
    let mut dest = MemGraphRepository::new();
    let syncer = Syncer::<SilentReporter>::new();
    match sync_digest(&syncer, &src, &mut dest, digest(30)).unwrap() {
        SyncObjectResult::Platform(SyncPlatformResult::Synced { platform, results }) => {
            assert_eq!(platform.stack, vec![digest(20)]);
            assert_eq!(results.len(), 1);
        }
        _ => panic!("expected a synced platform"),
    }
    let again = sync_digest(&syncer, &src, &mut dest, digest(30)).unwrap();
    assert!(matches!(again, SyncObjectResult::Platform(SyncPlatformResult::Skipped)));
    assert!(matches!(sync_object(&syncer, &src, &mut dest, digest(1), Object::Mask), Ok(SyncObjectResult::Mask)));
}

#[test]
fn unknown_objects_and_nested_platforms_fail() {
    let mut src = source();
    let mut dest = MemGraphRepository::new();
    let syncer = Syncer::<SilentReporter>::new();
    assert!(sync_digest(&syncer, &src, &mut dest, digest(99)).is_err());
    src.create_platform(digest(31), vec![digest(30)]).unwrap();
    assert!(matches!(src.read_object(digest(31)), Err(StorageError::Unavailable)));
    assert!(matches!(src.resolve_full_digest(&vec![1, 2]), Err(StorageError::UnknownObject)));
}

use spfs::graph::{Blob, Digest, Entry, EntryKind, Layer, Manifest, Object};
use spfs::memory::{MemPayload, MemRepository};
use spfs::sync::{
    entry_blob, manifest_blob_bytes, manifest_blob_entries, payload_written, SilentReporter,
    StorageError, SyncError, SyncRepository, Syncer,
};
use spfs::sync_result::{
    SyncBlobResult, SyncEntryResult, SyncLayerResult, SyncManifestResult, SyncObjectResult,
    SyncPayloadResult, SyncPlatformResult, SyncTagResult,
};
use spfs::sync_summary::SyncSummary;
use spfs::tracking::TagSpec;

fn digest(n: u64) -> Digest {
    Digest::new(n, 0, 0, 0)
}

fn entry(name: &str, kind: EntryKind, size: u64, n: u64) -> Entry {
    Entry { name: name.to_string(), kind, mode: 0o100644, size, object: digest(n) }
}

#[test]
fn payload_summary_counts_bytes() {
    let s = SyncPayloadResult::Synced { size: 42 }.summary();
    assert_eq!(s.synced_payloads, 1);
    assert_eq!(s.synced_payload_bytes, 42);
    assert_eq!(s.skipped_payloads, 0);
    let s = SyncPayloadResult::Skipped.summary();
    assert_eq!(s.skipped_payloads, 1);
    assert_eq!(s.synced_payloads, 0);
}

#[test]
fn nested_summary_adds_children_and_one_object() {
    let blob = Blob { payload: digest(1), size: 10 };
    let entry_res = SyncEntryResult::Synced {
        entry: entry("a", EntryKind::Blob, 10, 1),
        result: SyncBlobResult::Synced { blob, result: SyncPayloadResult::Synced { size: 10 } },
    };
    let manifest = SyncManifestResult::Synced {
        manifest: Manifest { entries: vec![] },
        results: vec![entry_res, SyncEntryResult::Skipped],
    };
    let layer = SyncLayerResult::Synced { layer: Layer { manifest: digest(2) }, result: manifest };
    let platform = SyncPlatformResult::Synced {
        platform: spfs::graph::Platform { stack: vec![digest(3)] },
        results: vec![SyncObjectResult::Layer(layer), SyncObjectResult::Mask],
    };
    let s = SyncObjectResult::Platform(platform).summary();
    // platform + layer + manifest + entry + blob synced; one entry skipped
    assert_eq!(s.synced_objects, 5);
    assert_eq!(s.skipped_objects, 1);
    assert_eq!(s.synced_payloads, 1);
    assert_eq!(s.synced_payload_bytes, 10);
    let tag = SyncTagResult::Synced {
        tag: TagSpec { path: "a/b".to_string() },
        result: SyncObjectResult::Blob(SyncBlobResult::Skipped),
    };
    let t = tag.summary();
    assert_eq!(t.synced_tags, 1);
    assert_eq!(t.skipped_objects, 1);
    assert_eq!(SyncTagResult::Skipped.summary().skipped_tags, 1);
}

#[test]
fn summary_sum_in_parts() {
    let mut a = SyncSummary::default();
    a.synced_tags = 2;
    a.synced_payload_bytes = 5;
    let mut b = SyncSummary::default();
    b.synced_tags = 3;
    b.skipped_objects = 1;
    let total = SyncSummary::sum(vec![a, b, SyncSummary::synced_one_object()]);
    assert_eq!(total.synced_tags, 5);
    assert_eq!(total.synced_payload_bytes, 5);
    assert_eq!(total.skipped_objects, 1);
    assert_eq!(total.synced_objects, 1);
    let mut c = a;
    c.add_assign(b);
    let mut d = SyncSummary::sum(vec![a]);
    d.add_assign(SyncSummary::sum(vec![b]));
    assert_eq!(c.synced_tags, d.synced_tags);
    assert_eq!(SyncSummary::sum(vec![]).synced_tags, 0);
}

#[test]
fn syncer_flags_follow_each_other() {
    let mut s = Syncer::<SilentReporter>::new();
    assert!(s.skip_existing_tags() && s.skip_existing_objects() && s.skip_existing_payloads());
    assert_eq!(s.max_concurrent_manifests(), 50);
    s.with_sync_existing_payloads(true);
    assert!(!s.skip_existing_payloads());
    assert!(!s.skip_existing_objects());
    assert!(s.skip_existing_tags());
    s.with_sync_existing_objects(false);
    assert!(s.skip_existing_objects());
    assert!(s.skip_existing_payloads());
    s.with_sync_existing_tags(true);
    assert!(!s.skip_existing_tags());
    s.with_sync_existing_tags(false);
    assert!(s.skip_existing_tags() && s.skip_existing_payloads());
    s.with_max_concurrent_manifests(3);
    s.with_max_payload_concurrency(4);
    assert_eq!(s.max_concurrent_manifests(), 3);
    assert_eq!(s.max_payload_concurrency(), 4);
    assert!(s.skip_object(true));
    assert!(!s.skip_object(false));
    assert!(s.skip_tag(true));
    assert!(s.skip_payload(true));
    assert!(s.reporter().is_none());
    s.with_reporter(SilentReporter {});
    assert!(s.reporter().is_some());
}

#[test]
fn manifest_entries_and_bytes() {
    let m = Manifest {
        entries: vec![
            entry("dir", EntryKind::Tree, 0, 1),
            entry("a", EntryKind::Blob, 3, 2),
            entry("gone", EntryKind::Mask, 0, 3),
            entry("b", EntryKind::Blob, 4, 4),
        ],
    };
    let blobs = manifest_blob_entries(&m);
    assert_eq!(blobs.len(), 2);
    assert_eq!(blobs[0].name, "a");
    assert_eq!(blobs[1].name, "b");
    assert_eq!(manifest_blob_bytes(&m), 7);
    assert!(entry_blob(&m.entries[0]).is_none());
    let b = entry_blob(&m.entries[1]).unwrap();
    assert_eq!(b.payload, digest(2));
    assert_eq!(b.size, 3);
}

#[test]
fn payload_digest_mismatch_is_an_error() {
    match payload_written(digest(1), digest(1), 9) {
        Ok(SyncPayloadResult::Synced { size }) => assert_eq!(size, 9),
        _ => panic!("expected a synced payload"),
    }
    assert_eq!(
        payload_written(digest(1), digest(2), 9).err(),
        Some(SyncError::DigestMismatch { wanted: digest(1), got: digest(2) })
    );
}

fn source_repo() -> MemRepository {
    let mut src = MemRepository::new();
    src.add_manifest(digest(10), source_manifest());
    src.add_payload(digest(2), MemPayload { digest: digest(2), size: 3 });
    src
}

fn source_manifest() -> Manifest {
    Manifest { entries: vec![entry("dir", EntryKind::Tree, 0, 1), entry("a", EntryKind::Blob, 3, 2)] }
}

#[test]
fn sync_layer_copies_payloads() {
    let src = source_repo();
    let mut dest = MemRepository::new();
    let syncer = Syncer::<SilentReporter>::new();
    let res = syncer
        .sync_layer(&src, &mut dest, digest(20), Layer { manifest: digest(10) })
        .unwrap();
    let summary = res.summary();
    assert_eq!(summary.synced_objects, 4);
    assert_eq!(summary.synced_payloads, 1);
    assert_eq!(summary.synced_payload_bytes, 3);
    assert!(dest.has_payload(digest(2)));
    assert!(dest.has_blob(digest(2)));
    assert!(dest.has_manifest(digest(10)));
    assert!(dest.has_layer(digest(20)));
    // another manifest with the same blob finds the blob in place and skips it
    let again = syncer.sync_manifest(&src, &mut dest, digest(11), source_manifest()).unwrap();
    match again {
        SyncManifestResult::Synced { results, .. } => {
            assert_eq!(results.len(), 1);
            match &results[0] {
                SyncEntryResult::Synced { result: SyncBlobResult::Skipped, .. } => {}
                _ => panic!("expected the blob to be skipped"),
            }
        }
        SyncManifestResult::Skipped => panic!("the manifest was not yet in the destination"),
    }
    assert!(dest.has_manifest(digest(11)));
}

#[test]
fn sync_skips_what_the_destination_holds() {
    let src = source_repo();
    let mut dest = MemRepository::new();
    let syncer = Syncer::<SilentReporter>::new();
    syncer.sync_layer(&src, &mut dest, digest(20), Layer { manifest: digest(10) }).unwrap();
    let layer = syncer.sync_layer(&src, &mut dest, digest(20), Layer { manifest: digest(10) }).unwrap();
    assert!(matches!(layer, SyncLayerResult::Skipped));
    let manifest = syncer.sync_manifest(&src, &mut dest, digest(10), source_manifest()).unwrap();
    assert!(matches!(manifest, SyncManifestResult::Skipped));
    let blob = syncer.sync_blob(&src, &mut dest, Blob { payload: digest(2), size: 3 }).unwrap();
    assert!(matches!(blob, SyncBlobResult::Skipped));
    let payload = syncer.sync_payload(&src, &mut dest, digest(2)).unwrap();
    assert!(matches!(payload, SyncPayloadResult::Skipped));
}

#[test]
fn sync_existing_objects_copies_again() {
    let src = source_repo();
    let mut dest = MemRepository::new();
    let mut syncer = Syncer::<SilentReporter>::new();
    syncer.sync_layer(&src, &mut dest, digest(20), Layer { manifest: digest(10) }).unwrap();
    syncer.with_sync_existing_payloads(true);
    let layer = syncer.sync_layer(&src, &mut dest, digest(20), Layer { manifest: digest(10) }).unwrap();
    assert_eq!(layer.summary().synced_payloads, 1);
    assert_eq!(layer.summary().synced_payload_bytes, 3);
}

#[test]
fn sync_payload_detects_corrupt_source() {
    let mut src = source_repo();
    // data whose digest is not the one that it is stored under
    src.add_payload(digest(4), MemPayload { digest: digest(999), size: 3 });
    let mut dest = MemRepository::new();
    let syncer = Syncer::<SilentReporter>::new();
    let res = syncer.sync_payload(&src, &mut dest, digest(4));
    assert_eq!(res.err(), Some(SyncError::DigestMismatch { wanted: digest(4), got: digest(999) }));
    let missing = syncer.sync_payload(&src, &mut dest, digest(5));
    assert_eq!(missing.err(), Some(SyncError::Storage(StorageError::UnknownObject)));
    assert!(!dest.has_payload(digest(5)));
}

#[test]
fn memory_repository_holds_what_is_written() {
    let mut repo = MemRepository::new();
    assert!(!repo.has_manifest(digest(1)));
    assert!(repo.read_manifest(digest(1)).is_err());
    repo.write_object(digest(1), &Object::Manifest(source_manifest())).unwrap();
    repo.write_object(digest(3), &Object::Layer(Layer { manifest: digest(1) })).unwrap();
    repo.write_blob(Blob { payload: digest(2), size: 3 }).unwrap();
    assert_eq!(repo.write_data(MemPayload { digest: digest(2), size: 3 }).unwrap(), (digest(2), 3));
    assert!(repo.has_manifest(digest(1)));
    assert_eq!(repo.read_manifest(digest(1)).unwrap().entries.len(), 2);
    assert!(repo.has_layer(digest(3)));
    assert!(!repo.has_layer(digest(1)));
    assert!(repo.has_blob(digest(2)));
    assert!(repo.has_payload(digest(2)));
    assert_eq!(repo.open_payload(digest(2)).unwrap(), MemPayload { digest: digest(2), size: 3 });
}

#[test]
fn sync_entry_skips_non_blobs() {
    let src = source_repo();
    let mut dest = MemRepository::new();
    let syncer = Syncer::<SilentReporter>::new();
    let r = syncer.sync_entry(&src, &mut dest, entry("d", EntryKind::Tree, 0, 1)).unwrap();
    assert!(matches!(r, SyncEntryResult::Skipped));
}

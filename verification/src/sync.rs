//! The decisions of syncing data between repositories.
//!
//! Talking to the repositories is left to the caller; a [`Syncer`] decides,
//! at each object, whether it is skipped, what is visited below it, and
//! what the result is.
use vstd::prelude::*;

use crate::graph::{Blob, Digest, Entry, Layer, Manifest, Object, Platform};
use crate::misc::Tag;
use crate::tracking::{EnvSpec, EnvSpecItem, TagSpec};
use crate::sync_result::{
    SyncBlobResult, SyncEntryResult, SyncEnvItemResult, SyncEnvResult, SyncLayerResult,
    SyncManifestResult, SyncObjectResult, SyncPayloadResult, SyncPlatformResult, SyncTagResult,
};

verus! {

/// The default number of manifests, and of payloads, processed at once.
pub const DEFAULT_CONCURRENCY: usize = 50;

/// An error found while syncing.
#[derive(Debug, PartialEq, Eq, Structural, Clone, Copy)]
pub enum SyncError {
    /// The source repository provided a blob that did not match the requested digest.
    DigestMismatch { wanted: Digest, got: Digest },
    /// A repository could not do what was asked of it
    Storage(StorageError),
}

/// A failure reported by a repository.
#[derive(Debug, PartialEq, Eq, Structural, Clone, Copy)]
pub enum StorageError {
    /// The object or tag is not in the repository
    UnknownObject,
    /// The repository could not be read or written
    Unavailable,
}

/// The operations of a repository that a sync uses. A repository is seen as
/// four maps from digests to what it stores under them: manifests (by their
/// entries), layers, blobs and payloads. The queries report what the maps
/// hold, a read gives what is stored, a write that succeeds stores exactly
/// the written item and a write that fails stores nothing. Whether a read or
/// a write succeeds is the repository's own affair.
pub trait SyncRepository: Sized {
    /// The data of a payload, as read from a repository.
    type Payload;

    /// The digest computed of a payload's data.
    spec fn data_digest(payload: Self::Payload) -> Digest;

    /// The size in bytes of a payload's data.
    spec fn data_size(payload: Self::Payload) -> u64;

    /// The entries of the manifests stored, by digest.
    spec fn manifests(&self) -> Map<Digest, Seq<Entry>>;

    /// The layers stored, by digest.
    spec fn layers(&self) -> Map<Digest, Layer>;

    /// The blobs stored, by the digest of their payloads.
    spec fn blobs(&self) -> Map<Digest, Blob>;

    /// The payloads stored, by the digest of their data.
    spec fn payloads(&self) -> Map<Digest, Self::Payload>;

    /// The latest tag of each tag stream, by path.
    spec fn tags(&self) -> Map<Seq<char>, Tag>;

    /// The stacks of the platforms stored, by digest.
    spec fn platforms(&self) -> Map<Digest, Seq<Digest>>;

    /// True if the repository has the manifest with the digest.
    fn has_manifest(&self, digest: Digest) -> (r: bool)
        ensures
            r == self.manifests().contains_key(digest),
    ;

    /// True if the repository has the layer with the digest.
    fn has_layer(&self, digest: Digest) -> (r: bool)
        ensures
            r == self.layers().contains_key(digest),
    ;

    /// True if the repository has the blob with the digest.
    fn has_blob(&self, digest: Digest) -> (r: bool)
        ensures
            r == self.blobs().contains_key(digest),
    ;

    /// True if the repository has the payload with the digest.
    fn has_payload(&self, digest: Digest) -> (r: bool)
        ensures
            r == self.payloads().contains_key(digest),
    ;

    /// Reads the manifest with the digest.
    fn read_manifest(&self, digest: Digest) -> (r: Result<Manifest, StorageError>)
        ensures
            r matches Ok(m) ==> self.manifests().contains_key(digest) && m.entries@
                == self.manifests()[digest],
    ;

    /// Opens the payload with the digest for reading.
    fn open_payload(&self, digest: Digest) -> (r: Result<Self::Payload, StorageError>)
        ensures
            r matches Ok(p) ==> self.payloads().contains_key(digest) && p == self.payloads()[digest],
    ;

    /// Writes a payload's data, giving the digest computed of the data and its size.
    fn write_data(&mut self, payload: Self::Payload) -> (r: Result<(Digest, u64), StorageError>)
        ensures
            final(self).tags() == old(self).tags(),
            final(self).platforms() == old(self).platforms(),
            final(self).manifests() == old(self).manifests(),
            final(self).layers() == old(self).layers(),
            final(self).blobs() == old(self).blobs(),
            r matches Ok((d, size)) ==> d == Self::data_digest(payload) && size == Self::data_size(
                payload,
            ) && final(self).payloads() == old(self).payloads().insert(d, payload),
            r is Err ==> final(self).payloads() == old(self).payloads(),
    ;

    /// Writes a blob, under the digest of its payload.
    fn write_blob(&mut self, blob: Blob) -> (r: Result<(), StorageError>)
        ensures
            final(self).tags() == old(self).tags(),
            final(self).platforms() == old(self).platforms(),
            final(self).manifests() == old(self).manifests(),
            final(self).layers() == old(self).layers(),
            final(self).payloads() == old(self).payloads(),
            r is Ok ==> final(self).blobs() == old(self).blobs().insert(blob.payload, blob),
            r is Err ==> final(self).blobs() == old(self).blobs(),
    ;

    /// Writes an object under its digest.
    fn write_object(&mut self, digest: Digest, obj: &Object) -> (r: Result<(), StorageError>)
        ensures
            final(self).tags() == old(self).tags(),
            final(self).platforms() == old(self).platforms(),
            final(self).payloads() == old(self).payloads(),
            final(self).manifests() == (match (r, obj) {
                (Ok(_), Object::Manifest(m)) => old(self).manifests().insert(digest, m.entries@),
                _ => old(self).manifests(),
            }),
            final(self).layers() == (match (r, obj) {
                (Ok(_), Object::Layer(l)) => old(self).layers().insert(digest, *l),
                _ => old(self).layers(),
            }),
            final(self).blobs() == (match (r, obj) {
                (Ok(_), Object::Blob(b)) => old(self).blobs().insert(digest, *b),
                _ => old(self).blobs(),
            }),
    ;
}

/// Everything that `before` stores something under, `after` stores
/// something under too.
pub open spec fn keeps_all<R: SyncRepository>(before: R, after: R) -> bool {
    &&& before.manifests().dom().subset_of(after.manifests().dom())
    &&& before.layers().dom().subset_of(after.layers().dom())
    &&& before.blobs().dom().subset_of(after.blobs().dom())
    &&& before.payloads().dom().subset_of(after.payloads().dom())
}

/// Receives updates from a sync process to be reported.
///
/// Unless the sync runs into errors, every call to visit_* is
/// followed up by a call to the corresponding synced_*.
pub trait SyncReporter {
    /// Called when an environment has been identified to sync
    fn visit_env(&self, _env: &EnvSpec) {
    }

    /// Called when a environment has finished syncing
    fn synced_env(&self, _result: &SyncEnvResult) {
    }

    /// Called when an environment item has been identified to sync
    fn visit_env_item(&self, _item: &EnvSpecItem) {
    }

    /// Called when a environment item has finished syncing
    fn synced_env_item(&self, _result: &SyncEnvItemResult) {
    }

    /// Called when a tag has been identified to sync
    fn visit_tag(&self, _tag: &TagSpec) {
    }

    /// Called when a tag has finished syncing
    fn synced_tag(&self, _result: &SyncTagResult) {
    }

    /// Called when an object has been identified to sync
    fn visit_object(&self, _obj: &Object) {
    }

    /// Called when a object has finished syncing
    fn synced_object(&self, _result: &SyncObjectResult) {
    }

    /// Called when a platform has been identified to sync
    fn visit_platform(&self, _platform: &Platform) {
    }

    /// Called when a platform has finished syncing
    fn synced_platform(&self, _result: &SyncPlatformResult) {
    }

    /// Called when a layer has been identified to sync
    fn visit_layer(&self, _layer: &Layer) {
    }

    /// Called when a layer has finished syncing
    fn synced_layer(&self, _result: &SyncLayerResult) {
    }

    /// Called when a manifest has been identified to sync
    fn visit_manifest(&self, _manifest: &Manifest) {
    }

    /// Called when a manifest has finished syncing
    fn synced_manifest(&self, _result: &SyncManifestResult) {
    }

    /// Called when an entry has been identified to sync
    fn visit_entry(&self, _entry: &Entry) {
    }

    /// Called when an entry has finished syncing
    fn synced_entry(&self, _result: &SyncEntryResult) {
    }

    /// Called when a blob has been identified to sync
    fn visit_blob(&self, _blob: &Blob) {
    }

    /// Called when a blob has finished syncing
    fn synced_blob(&self, _result: &SyncBlobResult) {
    }

    /// Called when a payload has been identified to sync
    fn visit_payload(&self, _digest: Digest) {
    }

    /// Called when a payload has finished syncing
    fn synced_payload(&self, _result: &SyncPayloadResult) {
    }
}

/// A reporter that may be absent reports through the one that is present.
impl<T: SyncReporter> SyncReporter for Option<T> {
    fn visit_env(&self, env: &EnvSpec) {
        if let Some(r) = self {
            r.visit_env(env)
        }
    }

    fn synced_env(&self, result: &SyncEnvResult) {
        if let Some(r) = self {
            r.synced_env(result)
        }
    }

    fn visit_env_item(&self, item: &EnvSpecItem) {
        if let Some(r) = self {
            r.visit_env_item(item)
        }
    }

    fn synced_env_item(&self, result: &SyncEnvItemResult) {
        if let Some(r) = self {
            r.synced_env_item(result)
        }
    }

    fn visit_tag(&self, tag: &TagSpec) {
        if let Some(r) = self {
            r.visit_tag(tag)
        }
    }

    fn synced_tag(&self, result: &SyncTagResult) {
        if let Some(r) = self {
            r.synced_tag(result)
        }
    }

    fn visit_object(&self, obj: &Object) {
        if let Some(r) = self {
            r.visit_object(obj)
        }
    }

    fn synced_object(&self, result: &SyncObjectResult) {
        if let Some(r) = self {
            r.synced_object(result)
        }
    }

    fn visit_platform(&self, platform: &Platform) {
        if let Some(r) = self {
            r.visit_platform(platform)
        }
    }

    fn synced_platform(&self, result: &SyncPlatformResult) {
        if let Some(r) = self {
            r.synced_platform(result)
        }
    }

    fn visit_layer(&self, layer: &Layer) {
        if let Some(r) = self {
            r.visit_layer(layer)
        }
    }

    fn synced_layer(&self, result: &SyncLayerResult) {
        if let Some(r) = self {
            r.synced_layer(result)
        }
    }

    fn visit_manifest(&self, manifest: &Manifest) {
        if let Some(r) = self {
            r.visit_manifest(manifest)
        }
    }

    fn synced_manifest(&self, result: &SyncManifestResult) {
        if let Some(r) = self {
            r.synced_manifest(result)
        }
    }

    fn visit_entry(&self, entry: &Entry) {
        if let Some(r) = self {
            r.visit_entry(entry)
        }
    }

    fn synced_entry(&self, result: &SyncEntryResult) {
        if let Some(r) = self {
            r.synced_entry(result)
        }
    }

    fn visit_blob(&self, blob: &Blob) {
        if let Some(r) = self {
            r.visit_blob(blob)
        }
    }

    fn synced_blob(&self, result: &SyncBlobResult) {
        if let Some(r) = self {
            r.synced_blob(result)
        }
    }

    fn visit_payload(&self, digest: Digest) {
        if let Some(r) = self {
            r.visit_payload(digest)
        }
    }

    fn synced_payload(&self, result: &SyncPayloadResult) {
        if let Some(r) = self {
            r.synced_payload(result)
        }
    }
}

/// A reporter that reports nothing.
pub struct SilentReporter {}

impl SyncReporter for SilentReporter {
}

/// Handles the syncing of data between repositories
pub struct Syncer<Rep: SyncReporter> {
    reporter: Option<Rep>,
    skip_existing_tags: bool,
    skip_existing_objects: bool,
    skip_existing_payloads: bool,
    max_concurrent_manifests: usize,
    max_concurrent_payloads: usize,
}

impl<Rep: SyncReporter> Syncer<Rep> {
    /// Syncing every existing payload implies syncing every existing object.
    #[verifier::type_invariant]
    spec fn payloads_imply_objects(&self) -> bool {
        !self.skip_existing_payloads ==> !self.skip_existing_objects
    }

    pub closed spec fn skips_existing_tags(&self) -> bool {
        self.skip_existing_tags
    }

    pub closed spec fn skips_existing_objects(&self) -> bool {
        self.skip_existing_objects
    }

    pub closed spec fn skips_existing_payloads(&self) -> bool {
        self.skip_existing_payloads
    }

    pub closed spec fn manifest_concurrency(&self) -> usize {
        self.max_concurrent_manifests
    }

    pub closed spec fn payload_concurrency(&self) -> usize {
        self.max_concurrent_payloads
    }

    /// A syncer that skips everything that already exists in the destination.
    pub fn new() -> (s: Syncer<Rep>)
        ensures
            s.skips_existing_tags(),
            s.skips_existing_objects(),
            s.skips_existing_payloads(),
            s.manifest_concurrency() == DEFAULT_CONCURRENCY,
            s.payload_concurrency() == DEFAULT_CONCURRENCY,
            s.held_reporter() is None,
    {
        Syncer {
            reporter: None,
            skip_existing_tags: true,
            skip_existing_objects: true,
            skip_existing_payloads: true,
            max_concurrent_manifests: DEFAULT_CONCURRENCY,
            max_concurrent_payloads: DEFAULT_CONCURRENCY,
        }
    }

    /// Whether existing tags are skipped.
    pub fn skip_existing_tags(&self) -> (r: bool)
        ensures
            r == self.skips_existing_tags(),
    {
        self.skip_existing_tags
    }

    /// Whether existing objects are skipped.
    pub fn skip_existing_objects(&self) -> (r: bool)
        ensures
            r == self.skips_existing_objects(),
    {
        self.skip_existing_objects
    }

    /// Whether existing payloads are skipped. A syncer that syncs existing
    /// payloads always syncs existing objects too.
    pub fn skip_existing_payloads(&self) -> (r: bool)
        ensures
            r == self.skips_existing_payloads(),
            !r ==> !self.skips_existing_objects(),
    {
        proof {
            use_type_invariant(self);
        }
        self.skip_existing_payloads
    }

    /// How many manifests/layers can be processed at once.
    pub fn max_concurrent_manifests(&self) -> (r: usize)
        ensures
            r == self.manifest_concurrency(),
    {
        self.max_concurrent_manifests
    }

    /// How many payloads can be processed at once.
    pub fn max_payload_concurrency(&self) -> (r: usize)
        ensures
            r == self.payload_concurrency(),
    {
        self.max_concurrent_payloads
    }

    /// When true, also sync any tag that already exists in the destination repo.
    ///
    /// This is off by default, but can be enabled in order to retrieve updated tag
    /// information from the source repo.
    pub fn with_sync_existing_tags(&mut self, sync_existing: bool)
        ensures
            !final(self).skips_existing_payloads() ==> !final(self).skips_existing_objects(),
            final(self).skips_existing_tags() == !sync_existing,
            final(self).skips_existing_objects() == old(self).skips_existing_objects(),
            final(self).skips_existing_payloads() == (!sync_existing
                || old(self).skips_existing_payloads()),
            final(self).manifest_concurrency() == old(self).manifest_concurrency(),
            final(self).payload_concurrency() == old(self).payload_concurrency(),
            final(self).held_reporter() == old(self).held_reporter(),
    {
        proof {
            use_type_invariant(&*self);
        }
        if !sync_existing {
            self.skip_existing_payloads = true;
        }
        self.skip_existing_tags = !sync_existing;
    }

    /// When true, also sync any object that already exists in the destination repo.
    ///
    /// This is off by default, but can be enabled in order to repair a corrupt
    /// repository that has some parent object but is missing one or more children.
    ///
    /// Setting this to false will also disable syncing existing payloads.
    pub fn with_sync_existing_objects(&mut self, sync_existing: bool)
        ensures
            !final(self).skips_existing_payloads() ==> !final(self).skips_existing_objects(),
            final(self).skips_existing_tags() == old(self).skips_existing_tags(),
            final(self).skips_existing_objects() == !sync_existing,
            final(self).skips_existing_payloads() == (!sync_existing
                || old(self).skips_existing_payloads()),
            final(self).manifest_concurrency() == old(self).manifest_concurrency(),
            final(self).payload_concurrency() == old(self).payload_concurrency(),
            final(self).held_reporter() == old(self).held_reporter(),
    {
        proof {
            use_type_invariant(&*self);
        }
        if !sync_existing {
            self.skip_existing_payloads = true;
        }
        self.skip_existing_objects = !sync_existing;
    }

    /// When true, also sync any payload that already exists in the destination repo.
    ///
    /// This is off by default, but can be enabled in order to repair a corrupt
    /// repository. Setting this to true, also implies syncing existing objects.
    pub fn with_sync_existing_payloads(&mut self, sync_existing: bool)
        ensures
            !final(self).skips_existing_payloads() ==> !final(self).skips_existing_objects(),
            final(self).skips_existing_tags() == old(self).skips_existing_tags(),
            final(self).skips_existing_objects() == (!sync_existing
                && old(self).skips_existing_objects()),
            final(self).skips_existing_payloads() == !sync_existing,
            final(self).manifest_concurrency() == old(self).manifest_concurrency(),
            final(self).payload_concurrency() == old(self).payload_concurrency(),
            final(self).held_reporter() == old(self).held_reporter(),
    {
        proof {
            use_type_invariant(&*self);
        }
        if sync_existing {
            self.skip_existing_objects = false;
        }
        self.skip_existing_payloads = !sync_existing;
    }

    /// Set how many manifests/layers can be processed at once.
    ///
    /// The possible total concurrent sync tasks will be the
    /// layer concurrency plus the payload concurrency.
    pub fn with_max_concurrent_manifests(&mut self, concurrency: usize)
        ensures
            !final(self).skips_existing_payloads() ==> !final(self).skips_existing_objects(),
            final(self).skips_existing_tags() == old(self).skips_existing_tags(),
            final(self).skips_existing_objects() == old(self).skips_existing_objects(),
            final(self).skips_existing_payloads() == old(self).skips_existing_payloads(),
            final(self).manifest_concurrency() == concurrency,
            final(self).payload_concurrency() == old(self).payload_concurrency(),
            final(self).held_reporter() == old(self).held_reporter(),
    {
        proof {
            use_type_invariant(&*self);
        }
        self.max_concurrent_manifests = concurrency;
    }

    /// Set how many payloads/files can be processed at once.
    ///
    /// The possible total concurrent sync tasks will be the
    /// layer concurrency plus the payload concurrency.
    pub fn with_max_payload_concurrency(&mut self, concurrency: usize)
        ensures
            !final(self).skips_existing_payloads() ==> !final(self).skips_existing_objects(),
            final(self).skips_existing_tags() == old(self).skips_existing_tags(),
            final(self).skips_existing_objects() == old(self).skips_existing_objects(),
            final(self).skips_existing_payloads() == old(self).skips_existing_payloads(),
            final(self).manifest_concurrency() == old(self).manifest_concurrency(),
            final(self).payload_concurrency() == concurrency,
            final(self).held_reporter() == old(self).held_reporter(),
    {
        proof {
            use_type_invariant(&*self);
        }
        self.max_concurrent_payloads = concurrency;
    }

    /// Report progress to the given instance, replacing any existing one
    pub fn with_reporter(&mut self, reporter: Rep)
        ensures
            final(self).skips_existing_tags() == old(self).skips_existing_tags(),
            final(self).skips_existing_objects() == old(self).skips_existing_objects(),
            final(self).skips_existing_payloads() == old(self).skips_existing_payloads(),
            final(self).manifest_concurrency() == old(self).manifest_concurrency(),
            final(self).payload_concurrency() == old(self).payload_concurrency(),
            final(self).held_reporter() == Some(reporter),
    {
        proof {
            use_type_invariant(&*self);
        }
        self.reporter = Some(reporter);
    }

    /// The reporter that progress goes to, if any.
    pub closed spec fn held_reporter(&self) -> Option<Rep> {
        self.reporter
    }

    /// The reporter that progress goes to, if any.
    pub fn reporter(&self) -> (r: &Option<Rep>)
        ensures
            *r == self.held_reporter(),
    {
        &self.reporter
    }

    /// Whether a tag is skipped, given whether the destination already resolves it.
    pub fn skip_tag(&self, exists_in_dest: bool) -> (r: bool)
        ensures
            r == (self.skips_existing_tags() && exists_in_dest),
    {
        self.skip_existing_tags && exists_in_dest
    }

    /// Whether a platform, layer, manifest or blob is skipped, given whether
    /// the destination already has it.
    pub fn skip_object(&self, exists_in_dest: bool) -> (r: bool)
        ensures
            r == (self.skips_existing_objects() && exists_in_dest),
    {
        self.skip_existing_objects && exists_in_dest
    }

    /// Whether a payload is skipped, given whether the destination already has it.
    pub fn skip_payload(&self, exists_in_dest: bool) -> (r: bool)
        ensures
            r == (self.skips_existing_payloads() && exists_in_dest),
    {
        self.skip_existing_payloads && exists_in_dest
    }
}

/// The entries of a manifest whose payloads are synced: those that are blobs,
/// in their order in the manifest.
pub open spec fn blob_entries(entries: Seq<Entry>) -> Seq<Entry> {
    entries.filter(|e: Entry| e.kind is Blob)
}

/// The number of entries that are blobs.
pub open spec fn blob_count(entries: Seq<Entry>) -> nat
    decreases entries.len(),
{
    if entries.len() == 0 {
        0
    } else {
        blob_count(entries.drop_last()) + if entries.last().kind is Blob {
            1nat
        } else {
            0nat
        }
    }
}

/// The entries whose payloads are synced are exactly the blob entries of the
/// manifest, whatever their size: every entry that is a blob is among them,
/// each of them is a blob entry of the manifest, and there are as many of
/// them as the manifest has blob entries.
pub proof fn law_blob_entries_are_the_blobs(entries: Seq<Entry>)
    ensures
        forall|i: int|
            0 <= i < entries.len() && (#[trigger] entries[i]).kind is Blob ==> blob_entries(entries).contains(
                entries[i],
            ),
        forall|k: int|
            0 <= k < blob_entries(entries).len() ==> (#[trigger] blob_entries(entries)[k]).kind is Blob
                && entries.contains(blob_entries(entries)[k]),
        blob_entries(entries).len() == blob_count(entries),
    decreases entries.len(),
{
    broadcast use vstd::seq_lib::group_filter_ensures;
    reveal_with_fuel(Seq::filter, 1);
    if entries.len() > 0 {
        law_blob_entries_are_the_blobs(entries.drop_last());
    }
    assert forall|k: int| 0 <= k < blob_entries(entries).len() implies (
    #[trigger] blob_entries(entries)[k]).kind is Blob && entries.contains(blob_entries(entries)[k]) by {
        assert(blob_entries(entries).contains(blob_entries(entries)[k]));
    }
}

/// The entries of the manifest that are blobs, in order.
pub fn manifest_blob_entries(manifest: &Manifest) -> (r: Vec<Entry>)
    ensures
        r@ == blob_entries(manifest.entries@),
{
    let entries = manifest.list_entries();
    let mut out: Vec<Entry> = Vec::new();
    let mut i: usize = 0;
    while i < entries.len()
        invariant
            i <= entries@.len(),
            entries@ == manifest.entries@,
            out@ == blob_entries(entries@.take(i as int)),
        decreases entries.len() - i,
    {
        let e = &entries[i];
        proof {
            assert(entries@.take(i as int + 1).drop_last() =~= entries@.take(i as int));
            reveal_with_fuel(Seq::filter, 1);
        }
        if e.kind.is_blob() {
            let copy = Entry {
                name: e.name.clone(),
                kind: e.kind,
                mode: e.mode,
                size: e.size,
                object: e.object,
            };
            out.push(copy);
        }
        i = i + 1;
    }
    proof {
        assert(entries@.take(i as int) =~= entries@);
    }
    out
}

/// The total size of the blob entries of a manifest.
pub open spec fn blob_bytes(entries: Seq<Entry>) -> nat
    decreases entries.len(),
{
    if entries.len() == 0 {
        0
    } else {
        blob_bytes(entries.drop_last()) + if entries.last().kind is Blob {
            entries.last().size as nat
        } else {
            0
        }
    }
}

/// The total number of payload bytes that syncing the manifest can move:
/// the sum of the sizes of its blob entries.
pub fn manifest_blob_bytes(manifest: &Manifest) -> (total: u64)
    requires
        blob_bytes(manifest.entries@) <= u64::MAX,
    ensures
        total == blob_bytes(manifest.entries@),
{
    let entries = manifest.list_entries();
    let mut total: u64 = 0;
    let mut i: usize = 0;
    while i < entries.len()
        invariant
            i <= entries@.len(),
            entries@ == manifest.entries@,
            blob_bytes(entries@) <= u64::MAX,
            total == blob_bytes(entries@.take(i as int)),
        decreases entries.len() - i,
    {
        proof {
            assert(entries@.take(i as int + 1).drop_last() =~= entries@.take(i as int));
            lemma_blob_bytes_prefix(entries@, i as int + 1);
        }
        if entries[i].kind.is_blob() {
            total = total + entries[i].size;
        }
        i = i + 1;
    }
    proof {
        assert(entries@.take(i as int) =~= entries@);
    }
    total
}

proof fn lemma_blob_bytes_prefix(s: Seq<Entry>, i: int)
    requires
        0 <= i <= s.len(),
    ensures
        blob_bytes(s.take(i)) <= blob_bytes(s),
    decreases s.len(),
{
    if i == s.len() {
        assert(s.take(i) =~= s);
    } else {
        lemma_blob_bytes_prefix(s.drop_last(), i);
        assert(s.drop_last().take(i) =~= s.take(i));
    }
}

/// The blob that an entry of a manifest stands for, if it is a blob.
pub fn entry_blob(entry: &Entry) -> (r: Option<Blob>)
    ensures
        r is Some <==> entry.kind is Blob,
        r matches Some(b) ==> b.payload == entry.object && b.size == entry.size,
{
    if !entry.kind.is_blob() {
        return None;
    }
    Some(Blob { payload: entry.object, size: entry.size })
}

/// The result of writing a payload to the destination: the destination
/// computed `created` as the written data's digest, and it held `size` bytes.
pub fn payload_written(wanted: Digest, created: Digest, size: u64) -> (r: Result<
    SyncPayloadResult,
    SyncError,
>)
    ensures
        wanted == created ==> r == Ok::<SyncPayloadResult, SyncError>(SyncPayloadResult::Synced { size }),
        wanted != created ==> r == Err::<SyncPayloadResult, SyncError>(SyncError::DigestMismatch { wanted, got: created }),
{
    if wanted != created {
        return Err(SyncError::DigestMismatch { wanted, got: created });
    }
    Ok(SyncPayloadResult::Synced { size })
}

fn storage<T>(r: Result<T, StorageError>) -> (out: Result<T, SyncError>)
    ensures
        r matches Ok(v) ==> out == Ok::<T, SyncError>(v),
        r matches Err(e) ==> out == Err::<T, SyncError>(SyncError::Storage(e)),
{
    match r {
        Ok(v) => Ok(v),
        Err(e) => Err(SyncError::Storage(e)),
    }
}

/// True where `result` is the sync of the entry `entry`.
pub open spec fn synced_entry(result: SyncEntryResult, entry: Entry) -> bool {
    result matches SyncEntryResult::Synced { entry: e, .. } && e == entry
}

impl<Rep: SyncReporter> Syncer<Rep> {
    /// Syncs a payload from `src` to `dest`: skipped if payloads that the
    /// destination has are skipped and it has this one, else copied, and
    /// checked to arrive under the digest that was asked for.
    pub fn sync_payload<R: SyncRepository>(
        &self,
        src: &R,
        dest: &mut R,
        digest: Digest,
    ) -> (r: Result<SyncPayloadResult, SyncError>)
        ensures
            self.skips_existing_payloads() && old(dest).payloads().contains_key(digest) ==> r
                == Ok::<SyncPayloadResult, SyncError>(SyncPayloadResult::Skipped),
            r matches Ok(SyncPayloadResult::Skipped) ==> self.skips_existing_payloads() && old(dest).payloads().contains_key(digest) && *final(dest) == *old(dest),
            r matches Ok(SyncPayloadResult::Synced { size }) ==> src.payloads().contains_key(digest)
                && R::data_digest(src.payloads()[digest]) == digest && size == R::data_size(
                src.payloads()[digest],
            ) && final(dest).payloads() == old(dest).payloads().insert(
                digest,
                src.payloads()[digest],
            ),
            r matches Err(SyncError::DigestMismatch { wanted, got }) ==> wanted == digest
                && src.payloads().contains_key(digest) && got == R::data_digest(
                src.payloads()[digest],
            ) && got != digest && final(dest).payloads() == old(dest).payloads().insert(
                got,
                src.payloads()[digest],
            ),
            r matches Err(SyncError::Storage(_)) ==> final(dest).payloads() == old(dest).payloads(),
            final(dest).manifests() == old(dest).manifests(),
            final(dest).layers() == old(dest).layers(),
            final(dest).blobs() == old(dest).blobs(),
            final(dest).tags() == old(dest).tags(),
            final(dest).platforms() == old(dest).platforms(),
            keeps_all(*old(dest), *final(dest)),
    {
        if self.skip_existing_payloads && dest.has_payload(digest) {
            return Ok(SyncPayloadResult::Skipped);
        }
        self.reporter.visit_payload(digest);
        let payload = storage(src.open_payload(digest))?;
        let (created_digest, size) = storage(dest.write_data(payload))?;
        let res = payload_written(digest, created_digest, size)?;
        self.reporter.synced_payload(&res);
        Ok(res)
    }

    /// Syncs a blob: skipped if objects that the destination has are
    /// skipped and it has this blob, else its payload is synced and then the
    /// blob written.
    pub fn sync_blob<R: SyncRepository>(
        &self,
        src: &R,
        dest: &mut R,
        blob: Blob,
    ) -> (r: Result<SyncBlobResult, SyncError>)
        ensures
            self.skips_existing_objects() && old(dest).blobs().contains_key(blob.payload) ==> r
                == Ok::<SyncBlobResult, SyncError>(SyncBlobResult::Skipped),
            r matches Ok(SyncBlobResult::Skipped) ==> self.skips_existing_objects() && old(dest).blobs().contains_key(blob.payload) && *final(dest) == *old(dest),
            r matches Ok(SyncBlobResult::Synced { blob: b, result }) ==> b == blob && final(dest).blobs() == old(dest).blobs().insert(blob.payload, blob) && final(dest).payloads().contains_key(blob.payload) && (result is Skipped
                ==> self.skips_existing_payloads() && final(dest).payloads() == old(dest).payloads()) && (result is Synced ==> final(dest).payloads() == old(dest).payloads().insert(blob.payload, src.payloads()[blob.payload])),
            r is Err ==> final(dest).blobs() == old(dest).blobs(),
            final(dest).manifests() == old(dest).manifests(),
            final(dest).layers() == old(dest).layers(),
            final(dest).tags() == old(dest).tags(),
            final(dest).platforms() == old(dest).platforms(),
            keeps_all(*old(dest), *final(dest)),
    {
        if self.skip_existing_objects && dest.has_blob(blob.digest()) {
            return Ok(SyncBlobResult::Skipped);
        }
        self.reporter.visit_blob(&blob);
        let result = self.sync_payload(src, dest, blob.payload)?;
        storage(dest.write_blob(blob))?;
        let res = SyncBlobResult::Synced { blob, result };
        self.reporter.synced_blob(&res);
        Ok(res)
    }

    /// Syncs one entry of a manifest: an entry that is not a blob is
    /// skipped, a blob entry has its blob synced.
    pub fn sync_entry<R: SyncRepository>(
        &self,
        src: &R,
        dest: &mut R,
        entry: Entry,
    ) -> (r: Result<SyncEntryResult, SyncError>)
        ensures
            !(entry.kind is Blob) ==> (r matches Ok(SyncEntryResult::Skipped)),
            !(entry.kind is Blob) ==> *final(dest) == *old(dest),
            entry.kind is Blob ==> match r {
                Ok(SyncEntryResult::Synced { entry: e, result }) => e == entry && (result matches SyncBlobResult::Synced { blob, .. } ==> blob == (Blob { payload: entry.object, size: entry.size })),
                Ok(SyncEntryResult::Skipped) => false,
                Err(_) => true,
            },
            r matches Ok(SyncEntryResult::Synced { .. }) ==> final(dest).blobs().contains_key(
                entry.object,
            ),
            r is Err ==> final(dest).blobs() == old(dest).blobs(),
            final(dest).manifests() == old(dest).manifests(),
            final(dest).layers() == old(dest).layers(),
            final(dest).tags() == old(dest).tags(),
            final(dest).platforms() == old(dest).platforms(),
            keeps_all(*old(dest), *final(dest)),
    {
        let blob = match entry_blob(&entry) {
            Some(b) => b,
            None => return Ok(SyncEntryResult::Skipped),
        };
        self.reporter.visit_entry(&entry);
        let result = self.sync_blob(src, dest, blob)?;
        let res = SyncEntryResult::Synced { entry, result };
        self.reporter.synced_entry(&res);
        Ok(res)
    }

    /// Syncs a manifest (stored under `digest`): skipped if objects that the
    /// destination has are skipped and it has this manifest, else each of its
    /// blob entries is synced, in order, and then the manifest written.
    pub fn sync_manifest<R: SyncRepository>(
        &self,
        src: &R,
        dest: &mut R,
        digest: Digest,
        manifest: Manifest,
    ) -> (r: Result<SyncManifestResult, SyncError>)
        ensures
            self.skips_existing_objects() && old(dest).manifests().contains_key(digest) ==> r
                == Ok::<SyncManifestResult, SyncError>(SyncManifestResult::Skipped),
            r matches Ok(SyncManifestResult::Skipped) ==> self.skips_existing_objects() && old(dest).manifests().contains_key(digest) && *final(dest) == *old(dest),
            r matches Ok(SyncManifestResult::Synced { manifest: m, results }) ==> m == manifest
                && results@.len() == blob_entries(manifest.entries@).len() && (forall|k: int|
                0 <= k < results@.len() ==> synced_entry(
                    #[trigger] results@[k],
                    blob_entries(manifest.entries@)[k],
                )) && final(dest).manifests() == old(dest).manifests().insert(
                digest,
                manifest.entries@,
            ) && (forall|k: int|
                0 <= k < blob_entries(manifest.entries@).len() ==> final(dest).blobs().contains_key(#[trigger] blob_entries(manifest.entries@)[k].object)),
            r matches Ok(SyncManifestResult::Synced { .. }) ==> forall|i: int|
                0 <= i < manifest.entries@.len() && (#[trigger] manifest.entries@[i]).kind is Blob
                    ==> final(dest).blobs().contains_key(manifest.entries@[i].object),
            r is Err ==> final(dest).manifests() == old(dest).manifests(),
            final(dest).layers() == old(dest).layers(),
            final(dest).tags() == old(dest).tags(),
            final(dest).platforms() == old(dest).platforms(),
            keeps_all(*old(dest), *final(dest)),
    {
        if self.skip_existing_objects && dest.has_manifest(digest) {
            return Ok(SyncManifestResult::Skipped);
        }
        self.reporter.visit_manifest(&manifest);
        let entries = manifest_blob_entries(&manifest);
        let mut results: Vec<SyncEntryResult> = Vec::new();
        let mut i: usize = 0;
        while i < entries.len()
            invariant
                i <= entries@.len(),
                entries@ == blob_entries(manifest.entries@),
                results@.len() == i,
                forall|k: int| 0 <= k < i ==> synced_entry(#[trigger] results@[k], entries@[k]),
                forall|k: int| 0 <= k < i ==> dest.blobs().contains_key(#[trigger] entries@[k].object),
                !(self.skips_existing_objects() && old(dest).manifests().contains_key(digest)),
                dest.manifests() == old(dest).manifests(),
                dest.layers() == old(dest).layers(),
                dest.tags() == old(dest).tags(),
                dest.platforms() == old(dest).platforms(),
                keeps_all(*old(dest), *dest),
            decreases entries.len() - i,
        {
            proof {
                broadcast use vstd::seq_lib::group_filter_ensures;
                assert(entries@[i as int].kind is Blob);
            }
            let entry = Entry {
                name: entries[i].name.clone(),
                kind: entries[i].kind,
                mode: entries[i].mode,
                size: entries[i].size,
                object: entries[i].object,
            };
            let ghost before = *dest;
            let res = self.sync_entry(src, dest, entry)?;
            proof {
                assert forall|k: int| 0 <= k < i implies dest.blobs().contains_key(
                    #[trigger] entries@[k].object,
                ) by {
                    assert(before.blobs().contains_key(entries@[k].object));
                }
            }
            results.push(res);
            i = i + 1;
        }
        let written = Object::Manifest(manifest.duplicate());
        storage(dest.write_object(digest, &written))?;
        proof {
            law_blob_entries_are_the_blobs(manifest.entries@);
            assert forall|j: int|
                0 <= j < manifest.entries@.len() && (#[trigger] manifest.entries@[j]).kind is Blob
                    implies dest.blobs().contains_key(manifest.entries@[j].object) by {
                let k = choose|k: int| 0 <= k < entries@.len() && entries@[k] == manifest.entries@[j];
                assert(dest.blobs().contains_key(entries@[k].object));
            }
        }
        let res = SyncManifestResult::Synced { manifest, results };
        self.reporter.synced_manifest(&res);
        Ok(res)
    }

    /// Syncs a layer (stored under `digest`): skipped if objects that the
    /// destination has are skipped and it has this layer, else its manifest
    /// is read from the source and synced, and then the layer written.
    pub fn sync_layer<R: SyncRepository>(
        &self,
        src: &R,
        dest: &mut R,
        digest: Digest,
        layer: Layer,
    ) -> (r: Result<SyncLayerResult, SyncError>)
        ensures
            self.skips_existing_objects() && old(dest).layers().contains_key(digest) ==> r
                == Ok::<SyncLayerResult, SyncError>(SyncLayerResult::Skipped),
            r matches Ok(SyncLayerResult::Skipped) ==> self.skips_existing_objects() && old(dest).layers().contains_key(digest) && *final(dest) == *old(dest),
            r matches Ok(SyncLayerResult::Synced { layer: l, result }) ==> l == layer && final(dest).layers() == old(dest).layers().insert(digest, layer) && final(dest).manifests().contains_key(layer.manifest) && (result is Skipped
                ==> self.skips_existing_objects() && old(dest).manifests().contains_key(
                layer.manifest,
            )) && (result is Synced ==> src.manifests().contains_key(layer.manifest) && final(dest).manifests()[layer.manifest] == src.manifests()[layer.manifest] && forall|k: int|
                0 <= k < blob_entries(src.manifests()[layer.manifest]).len() ==> final(dest).blobs().contains_key(
                    #[trigger] blob_entries(src.manifests()[layer.manifest])[k].object,
                ) && forall|i: int|
                0 <= i < src.manifests()[layer.manifest].len() && (#[trigger] src.manifests()[layer.manifest][i]).kind is Blob
                    ==> final(dest).blobs().contains_key(src.manifests()[layer.manifest][i].object)),
            r is Err ==> final(dest).layers() == old(dest).layers(),
            final(dest).tags() == old(dest).tags(),
            final(dest).platforms() == old(dest).platforms(),
            keeps_all(*old(dest), *final(dest)),
    {
        if self.skip_existing_objects && dest.has_layer(digest) {
            return Ok(SyncLayerResult::Skipped);
        }
        self.reporter.visit_layer(&layer);
        let manifest = storage(src.read_manifest(layer.manifest))?;
        let result = self.sync_manifest(src, dest, layer.manifest, manifest)?;
        storage(dest.write_object(digest, &Object::Layer(layer)))?;
        let res = SyncLayerResult::Synced { layer, result };
        self.reporter.synced_layer(&res);
        Ok(res)
    }
}

} // verus!

//! A repository held in memory, which a sync can read from and write to.
use vstd::prelude::*;

use crate::graph::{Blob, Digest, Entry, Layer, Manifest, Object, Platform};
use crate::misc::Tag;
use crate::sync::{StorageError, SyncRepository};
use crate::tracking::TagSpec;
use crate::upgrade::{RepoVersion, SpkRepository};
use crate::walk::{GraphRepository, ObjectView};

verus! {

/// A payload's data as a repository in memory holds it: the digest computed
/// of the data, and its size in bytes.
#[derive(Clone, Copy, Debug, PartialEq, Eq, Structural)]
pub struct MemPayload {
    pub digest: Digest,
    pub size: u64,
}

/// A repository held in memory: every write in the order it came, each item
/// with the digest it was written under. What is stored under a digest is
/// what was written under it last.
pub struct MemRepository {
    manifests: Vec<(Digest, Manifest)>,
    layers: Vec<(Digest, Layer)>,
    blobs: Vec<(Digest, Blob)>,
    payloads: Vec<(Digest, MemPayload)>,
}

/// What a list of writes leaves stored: each digest maps to the last item
/// written under it.
pub open spec fn latest<V>(items: Seq<(Digest, V)>) -> Map<Digest, V>
    decreases items.len(),
{
    if items.len() == 0 {
        Map::empty()
    } else {
        latest(items.drop_last()).insert(items.last().0, items.last().1)
    }
}

proof fn lemma_latest_push<V>(items: Seq<(Digest, V)>, item: (Digest, V))
    ensures
        latest(items.push(item)) == latest(items).insert(item.0, item.1),
{
    assert(items.push(item).drop_last() =~= items);
}

proof fn lemma_latest_at<V>(items: Seq<(Digest, V)>, i: int)
    requires
        0 <= i < items.len(),
        forall|j: int| i < j < items.len() ==> #[trigger] items[j].0 != items[i].0,
    ensures
        latest(items).contains_key(items[i].0),
        latest(items)[items[i].0] == items[i].1,
    decreases items.len(),
{
    if i < items.len() - 1 {
        let rest = items.drop_last();
        assert forall|j: int| i < j < rest.len() implies #[trigger] rest[j].0 != rest[i].0 by {
            assert(items[j].0 != items[i].0);
        }
        lemma_latest_at(rest, i);
        assert(items.last().0 != items[i].0) by {
            assert(items[items.len() - 1].0 != items[i].0);
        }
    }
}

proof fn lemma_latest_absent<V>(items: Seq<(Digest, V)>, digest: Digest)
    requires
        forall|j: int| 0 <= j < items.len() ==> #[trigger] items[j].0 != digest,
    ensures
        !latest(items).contains_key(digest),
    decreases items.len(),
{
    if items.len() > 0 {
        let rest = items.drop_last();
        assert forall|j: int| 0 <= j < rest.len() implies #[trigger] rest[j].0 != digest by {
            assert(items[j].0 != digest);
        }
        lemma_latest_absent(rest, digest);
        assert(items[items.len() - 1].0 != digest);
    }
}

/// The position of the last item of `items` written under `digest`.
fn latest_position<V>(items: &Vec<(Digest, V)>, digest: Digest) -> (r: Option<usize>)
    ensures
        r matches Some(i) ==> i < items@.len() && items@[i as int].0 == digest && latest(
            items@,
        ).contains_key(digest) && latest(items@)[digest] == items@[i as int].1,
        r is None <==> !latest(items@).contains_key(digest),
{
    let mut i: usize = items.len();
    while i > 0
        invariant
            i <= items@.len(),
            forall|j: int| i <= j < items@.len() ==> #[trigger] items@[j].0 != digest,
        decreases i,
    {
        i = i - 1;
        if items[i].0 == digest {
            proof {
                lemma_latest_at(items@, i as int);
            }
            return Some(i);
        }
    }
    proof {
        lemma_latest_absent(items@, digest);
    }
    None
}

/// The entries of a manifest.
pub open spec fn entries_of(manifest: Manifest) -> Seq<Entry> {
    manifest.entries@
}

impl MemRepository {
    /// An empty repository.
    pub fn new() -> (r: MemRepository)
        ensures
            r.manifests() == Map::<Digest, Seq<Entry>>::empty(),
            r.layers() == Map::<Digest, Layer>::empty(),
            r.blobs() == Map::<Digest, Blob>::empty(),
            r.payloads() == Map::<Digest, MemPayload>::empty(),
    {
        let r = MemRepository {
            manifests: Vec::new(),
            layers: Vec::new(),
            blobs: Vec::new(),
            payloads: Vec::new(),
        };
        proof {
            assert(r.manifests() =~= Map::<Digest, Seq<Entry>>::empty());
        }
        r
    }

    /// Stores the manifest under the digest.
    pub fn add_manifest(&mut self, digest: Digest, manifest: Manifest)
        ensures
            final(self).manifests() == old(self).manifests().insert(digest, manifest.entries@),
            final(self).layers() == old(self).layers(),
            final(self).blobs() == old(self).blobs(),
            final(self).payloads() == old(self).payloads(),
    {
        let ghost before = self.manifests@;
        proof {
            lemma_latest_push(before, (digest, manifest));
        }
        self.manifests.push((digest, manifest));
        proof {
            assert(self.manifests() =~= old(self).manifests().insert(digest, manifest.entries@));
        }
    }

    /// Stores the payload under the digest. A payload stored under another
    /// digest than its own stands for data that does not match its name.
    pub fn add_payload(&mut self, digest: Digest, payload: MemPayload)
        ensures
            final(self).payloads() == old(self).payloads().insert(digest, payload),
            final(self).manifests() == old(self).manifests(),
            final(self).layers() == old(self).layers(),
            final(self).blobs() == old(self).blobs(),
    {
        proof {
            lemma_latest_push(self.payloads@, (digest, payload));
        }
        self.payloads.push((digest, payload));
    }
}

impl SyncRepository for MemRepository {
    type Payload = MemPayload;

    open spec fn data_digest(payload: MemPayload) -> Digest {
        payload.digest
    }

    open spec fn data_size(payload: MemPayload) -> u64 {
        payload.size
    }

    closed spec fn manifests(&self) -> Map<Digest, Seq<Entry>> {
        latest(self.manifests@).map_values(|m: Manifest| entries_of(m))
    }

    closed spec fn layers(&self) -> Map<Digest, Layer> {
        latest(self.layers@)
    }

    closed spec fn blobs(&self) -> Map<Digest, Blob> {
        latest(self.blobs@)
    }

    closed spec fn payloads(&self) -> Map<Digest, MemPayload> {
        latest(self.payloads@)
    }

    closed spec fn tags(&self) -> Map<Seq<char>, Tag> {
        Map::empty()
    }

    closed spec fn platforms(&self) -> Map<Digest, Seq<Digest>> {
        Map::empty()
    }

    fn has_manifest(&self, digest: Digest) -> (r: bool) {
        latest_position(&self.manifests, digest).is_some()
    }

    fn has_layer(&self, digest: Digest) -> (r: bool) {
        latest_position(&self.layers, digest).is_some()
    }

    fn has_blob(&self, digest: Digest) -> (r: bool) {
        latest_position(&self.blobs, digest).is_some()
    }

    fn has_payload(&self, digest: Digest) -> (r: bool) {
        latest_position(&self.payloads, digest).is_some()
    }

    fn read_manifest(&self, digest: Digest) -> (r: Result<Manifest, StorageError>) {
        match latest_position(&self.manifests, digest) {
            Some(i) => Ok(self.manifests[i].1.duplicate()),
            None => Err(StorageError::UnknownObject),
        }
    }

    fn open_payload(&self, digest: Digest) -> (r: Result<MemPayload, StorageError>) {
        match latest_position(&self.payloads, digest) {
            Some(i) => Ok(self.payloads[i].1),
            None => Err(StorageError::UnknownObject),
        }
    }

    fn write_data(&mut self, payload: MemPayload) -> (r: Result<(Digest, u64), StorageError>) {
        proof {
            lemma_latest_push(self.payloads@, (payload.digest, payload));
        }
        self.payloads.push((payload.digest, payload));
        Ok((payload.digest, payload.size))
    }

    fn write_blob(&mut self, blob: Blob) -> (r: Result<(), StorageError>) {
        proof {
            lemma_latest_push(self.blobs@, (blob.payload, blob));
        }
        self.blobs.push((blob.payload, blob));
        Ok(())
    }

    fn write_object(&mut self, digest: Digest, obj: &Object) -> (r: Result<(), StorageError>) {
        match obj {
            Object::Manifest(m) => {
                let item = (digest, m.duplicate());
                proof {
                    lemma_latest_push(self.manifests@, item);
                }
                self.manifests.push(item);
                proof {
                    assert(self.manifests() =~= old(self).manifests().insert(digest, m.entries@));
                }
            },
            Object::Layer(l) => {
                proof {
                    lemma_latest_push(self.layers@, (digest, *l));
                }
                self.layers.push((digest, *l));
            },
            Object::Blob(b) => {
                proof {
                    lemma_latest_push(self.blobs@, (digest, *b));
                }
                self.blobs.push((digest, *b));
            },
            _ => {},
        }
        Ok(())
    }
}

/// A package repository's tags and layout metadata held in memory: every
/// tag pushed, in the order it came. The latest tag of a stream is the one
/// pushed last under its path.
pub struct MemTagRepository {
    tags: Vec<Tag>,
    version: RepoVersion,
}

/// What a list of pushed tags leaves: each path maps to the tag pushed
/// last under it.
pub open spec fn latest_tags(tags: Seq<Tag>) -> Map<Seq<char>, Tag>
    decreases tags.len(),
{
    if tags.len() == 0 {
        Map::empty()
    } else {
        latest_tags(tags.drop_last()).insert(tags.last().spec@, tags.last())
    }
}

proof fn lemma_latest_tags_push(tags: Seq<Tag>, tag: Tag)
    ensures
        latest_tags(tags.push(tag)) == latest_tags(tags).insert(tag.spec@, tag),
{
    assert(tags.push(tag).drop_last() =~= tags);
}

proof fn lemma_latest_tags_at(tags: Seq<Tag>, i: int)
    requires
        0 <= i < tags.len(),
        forall|j: int| i < j < tags.len() ==> #[trigger] tags[j].spec@ != tags[i].spec@,
    ensures
        latest_tags(tags).contains_key(tags[i].spec@),
        latest_tags(tags)[tags[i].spec@] == tags[i],
    decreases tags.len(),
{
    if i < tags.len() - 1 {
        let rest = tags.drop_last();
        assert forall|j: int| i < j < rest.len() implies #[trigger] rest[j].spec@ != rest[i].spec@ by {
            assert(tags[j].spec@ != tags[i].spec@);
        }
        lemma_latest_tags_at(rest, i);
        assert(tags[tags.len() - 1].spec@ != tags[i].spec@);
    }
}

proof fn lemma_latest_tags_absent(tags: Seq<Tag>, path: Seq<char>)
    requires
        forall|j: int| 0 <= j < tags.len() ==> #[trigger] tags[j].spec@ != path,
    ensures
        !latest_tags(tags).contains_key(path),
    decreases tags.len(),
{
    if tags.len() > 0 {
        let rest = tags.drop_last();
        assert forall|j: int| 0 <= j < rest.len() implies #[trigger] rest[j].spec@ != path by {
            assert(tags[j].spec@ != path);
        }
        lemma_latest_tags_absent(rest, path);
        assert(tags[tags.len() - 1].spec@ != path);
    }
}

/// The position of the tag pushed last under the path.
fn latest_tag_position(tags: &Vec<Tag>, path: &str) -> (r: Option<usize>)
    ensures
        r matches Some(i) ==> i < tags@.len() && tags@[i as int].spec@ == path@ && latest_tags(
            tags@,
        ).contains_key(path@) && latest_tags(tags@)[path@] == tags@[i as int],
        r is None <==> !latest_tags(tags@).contains_key(path@),
{
    let mut i: usize = tags.len();
    while i > 0
        invariant
            i <= tags@.len(),
            forall|j: int| i <= j < tags@.len() ==> #[trigger] tags@[j].spec@ != path@,
        decreases i,
    {
        i = i - 1;
        if crate::text::compare_paths(tags[i].spec.path.as_str(), path) == 0 {
            proof {
                lemma_latest_tags_at(tags@, i as int);
            }
            return Some(i);
        }
    }
    proof {
        lemma_latest_tags_absent(tags@, path@);
    }
    None
}

proof fn lemma_append_cancel(a: Seq<char>, b: Seq<char>, c: Seq<char>)
    requires
        a + b == a + c,
    ensures
        b == c,
{
    assert((a + b).len() == a.len() + b.len());
    assert((a + c).len() == a.len() + c.len());
    assert(b.len() == c.len());
    assert forall|k: int| 0 <= k < b.len() implies b[k] == c[k] by {
        assert((a + b)[a.len() + k] == b[k]);
        assert((a + c)[a.len() + k] == c[k]);
    }
    assert(b =~= c);
}

/// The entry that the tag path `p` shows in the listing of `dir`, if any:
/// the segment that follows `dir/`, with a trailing `/` where more follows.
fn entry_for(p: &str, dir: &str) -> (r: Option<String>)
    ensures
        r matches Some(n) ==> crate::tag_paths::entry_of(p@, dir@, n@),
        forall|m: Seq<char>|
            #[trigger] crate::tag_paths::entry_of(p@, dir@, m) ==> (r matches Some(n) && m == n@),
{
    let plen = dir.unicode_len();
    let n = p.unicode_len();
    let ghost prefix = dir@.push('/');
    if n <= plen || n - plen < 2 {
        proof {
            assert forall|m: Seq<char>| !crate::tag_paths::entry_of(p@, dir@, m) by {
                if crate::tag_paths::entry_of(p@, dir@, m) {
                    if crate::tag_paths::is_segment(m) && p@ == prefix + m {
                    } else {
                    }
                }
            }
        }
        return None;
    }
    if crate::text::compare_paths(p.substring_char(0, plen), dir) != 0 || p.get_char(plen) != '/' {
        proof {
            assert forall|m: Seq<char>| !crate::tag_paths::entry_of(p@, dir@, m) by {
                if crate::tag_paths::entry_of(p@, dir@, m) {
                    if crate::tag_paths::is_segment(m) && p@ == prefix + m {
                        assert(p@.subrange(0, plen as int) =~= dir@);
                        assert(p@[plen as int] == prefix[plen as int]);
                    } else {
                        let q = p@.subrange(0, (prefix.len() + m.len()) as int);
                        assert(q == prefix + m);
                        assert(p@.subrange(0, plen as int) =~= q.subrange(0, plen as int));
                        assert(q.subrange(0, plen as int) =~= dir@);
                        assert(p@[plen as int] == q[plen as int]);
                    }
                }
            }
        }
        return None;
    }
    let start: usize = plen + 1;
    let tail = p.substring_char(start, n);
    proof {
        assert(p@ =~= prefix + tail@) by {
            assert(p@.subrange(0, plen as int) == dir@);
        }
    }
    let tn = tail.unicode_len();
    let mut j: usize = 0;
    while j < tn
        invariant
            j <= tn,
            tn == tail@.len(),
            tn > 0,
            p@ == prefix + tail@,
            prefix == dir@.push('/'),
            forall|k: int| 0 <= k < j ==> tail@[k] != '/',
        decreases tn - j,
    {
        if tail.get_char(j) == '/' {
            if j == 0 {
                proof {
                    assert forall|m: Seq<char>| !crate::tag_paths::entry_of(p@, dir@, m) by {
                        if crate::tag_paths::entry_of(p@, dir@, m) {
                            if crate::tag_paths::is_segment(m) && p@ == prefix + m {
                                lemma_append_cancel(prefix, m, tail@);
                                assert(m[0] == '/');
                            } else {
                                let q = p@.subrange(0, (prefix.len() + m.len()) as int);
                                assert(q == prefix + m);
                                assert(m[0] == q[prefix.len() as int]);
                                assert(q[prefix.len() as int] == p@[prefix.len() as int]);
                                assert(m.drop_last()[0] == m[0]);
                            }
                        }
                    }
                }
                return None;
            }
            let name = tail.substring_char(0, j + 1).to_owned();
            proof {
                let prefix_len = prefix.len() as int;
                assert(name@.drop_last() =~= tail@.subrange(0, j as int));
                assert(p@.subrange(0, prefix_len + j + 1) =~= prefix + name@);
                assert forall|m: Seq<char>| #[trigger]
                    crate::tag_paths::entry_of(p@, dir@, m) implies m == name@ by {
                    if crate::tag_paths::is_segment(m) && p@ == prefix + m {
                        lemma_append_cancel(prefix, m, tail@);
                        assert(m[j as int] == '/');
                    } else {
                        let q = p@.subrange(0, prefix_len + m.len());
                        assert(q == prefix + m);
                        assert forall|k: int| 0 <= k < m.len() implies m[k] == tail@[k] by {
                            assert(m[k] == q[prefix_len + k]);
                        }
                        if m.len() - 1 > j {
                            assert(m.drop_last()[j as int] == m[j as int]);
                        } else if m.len() - 1 < j {
                            assert(tail@[m.len() - 1] != '/');
                        }
                        assert(m =~= name@);
                    }
                }
            }
            return Some(name);
        }
        j = j + 1;
    }
    let name = tail.to_owned();
    proof {
        assert forall|m: Seq<char>| #[trigger]
            crate::tag_paths::entry_of(p@, dir@, m) implies m == name@ by {
            if crate::tag_paths::is_segment(m) && p@ == prefix + m {
                lemma_append_cancel(prefix, m, tail@);
            } else {
                let prefix_len = prefix.len() as int;
                let q = p@.subrange(0, prefix_len + m.len());
                assert(q == prefix + m);
                assert(m.last() == q[prefix_len + m.len() - 1]);
                assert(tail@[m.len() - 1] == p@[prefix_len + m.len() - 1]);
            }
        }
    }
    Some(name)
}

/// The paths of the tags pushed are the paths that the latest tags are at.
proof fn lemma_latest_tags_dom(tags: Seq<Tag>, path: Seq<char>)
    ensures
        latest_tags(tags).contains_key(path) <==> exists|k: int|
            0 <= k < tags.len() && #[trigger] tags[k].spec@ == path,
    decreases tags.len(),
{
    if tags.len() > 0 {
        let rest = tags.drop_last();
        lemma_latest_tags_dom(rest, path);
        if exists|k: int| 0 <= k < tags.len() && #[trigger] tags[k].spec@ == path {
            let k = choose|k: int| 0 <= k < tags.len() && #[trigger] tags[k].spec@ == path;
            if k < tags.len() - 1 {
                assert(rest[k] == tags[k]);
            }
        }
        if latest_tags(rest).contains_key(path) {
            let k = choose|k: int| 0 <= k < rest.len() && #[trigger] rest[k].spec@ == path;
            assert(tags[k] == rest[k]);
        }
    }
}

impl MemTagRepository {
    /// A repository with no tags, whose metadata records the version.
    pub fn new(version: RepoVersion) -> (r: MemTagRepository)
        ensures
            r.tags() == Map::<Seq<char>, Tag>::empty(),
            r.layout_version() == version,
    {
        let r = MemTagRepository { tags: Vec::new(), version };
        proof {
            assert(r.tags() =~= Map::<Seq<char>, Tag>::empty());
        }
        r
    }
}

impl SpkRepository for MemTagRepository {
    closed spec fn tags(&self) -> Map<Seq<char>, Tag> {
        latest_tags(self.tags@)
    }

    closed spec fn layout_version(&self) -> RepoVersion {
        self.version
    }

    fn ls_tags(&self, path: &str) -> (r: Result<Vec<String>, StorageError>) {
        let mut out: Vec<String> = Vec::new();
        let mut i: usize = 0;
        while i < self.tags.len()
            invariant
                i <= self.tags@.len(),
                forall|n: Seq<char>|
                    crate::spk_storage::texts(out@).contains(n) <==> exists|k: int|
                        0 <= k < i && #[trigger] crate::tag_paths::entry_of(
                            self.tags@[k].spec@,
                            path@,
                            n,
                        ),
            decreases self.tags.len() - i,
        {
            let ghost before = out@;
            match entry_for(self.tags[i].spec.path.as_str(), path) {
                Some(entry) => {
                    let mut seen = false;
                    let mut k: usize = 0;
                    while k < out.len()
                        invariant
                            k <= out@.len(),
                            seen <==> exists|q: int| 0 <= q < k && out@[q]@ == entry@,
                        decreases out.len() - k,
                    {
                        if crate::text::compare_paths(out[k].as_str(), entry.as_str()) == 0 {
                            seen = true;
                        }
                        k = k + 1;
                    }
                    let ghost e = entry@;
                    if !seen {
                        out.push(entry);
                    }
                    proof {
                        assert forall|n: Seq<char>|
                            crate::spk_storage::texts(out@).contains(n) <==> exists|k: int|
                                0 <= k < i + 1 && #[trigger] crate::tag_paths::entry_of(
                                    self.tags@[k].spec@,
                                    path@,
                                    n,
                                ) by {
                            if crate::spk_storage::texts(out@).contains(n) {
                                let q = choose|q: int|
                                    0 <= q < crate::spk_storage::texts(out@).len()
                                        && crate::spk_storage::texts(out@)[q] == n;
                                if q < before.len() {
                                    assert(crate::spk_storage::texts(before)[q] == n);
                                    assert(crate::spk_storage::texts(before).contains(n));
                                } else {
                                    assert(crate::tag_paths::entry_of(self.tags@[i as int].spec@, path@, n));
                                }
                            }
                            if exists|k: int|
                                0 <= k < i + 1 && #[trigger] crate::tag_paths::entry_of(
                                    self.tags@[k].spec@,
                                    path@,
                                    n,
                                ) {
                                let k = choose|k: int|
                                    0 <= k < i + 1 && #[trigger] crate::tag_paths::entry_of(
                                        self.tags@[k].spec@,
                                        path@,
                                        n,
                                    );
                                if k < i {
                                    assert(crate::spk_storage::texts(before).contains(n));
                                    let q = choose|q: int|
                                        0 <= q < crate::spk_storage::texts(before).len()
                                            && crate::spk_storage::texts(before)[q] == n;
                                    assert(crate::spk_storage::texts(out@)[q] == n);
                                } else {
                                    assert(n == e);
                                    if seen {
                                        let q = choose|q: int| 0 <= q < out@.len() && out@[q]@ == e;
                                        assert(crate::spk_storage::texts(out@)[q] == n);
                                    } else {
                                        assert(crate::spk_storage::texts(out@)[before.len() as int] == n);
                                    }
                                }
                            }
                        }
                    }
                },
                None => {
                    proof {
                        assert forall|n: Seq<char>|
                            crate::spk_storage::texts(out@).contains(n) <==> exists|k: int|
                                0 <= k < i + 1 && #[trigger] crate::tag_paths::entry_of(
                                    self.tags@[k].spec@,
                                    path@,
                                    n,
                                ) by {
                            if exists|k: int|
                                0 <= k < i + 1 && #[trigger] crate::tag_paths::entry_of(
                                    self.tags@[k].spec@,
                                    path@,
                                    n,
                                ) {
                                let k = choose|k: int|
                                    0 <= k < i + 1 && #[trigger] crate::tag_paths::entry_of(
                                        self.tags@[k].spec@,
                                        path@,
                                        n,
                                    );
                                assert(k < i);
                            }
                        }
                    }
                },
            }
            i = i + 1;
        }
        proof {
            assert forall|n: Seq<char>|
                crate::spk_storage::texts(out@).to_set().contains(n) <==> crate::tag_paths::listing(
                    self.tags().dom(),
                    path@,
                ).contains(n) by {
                if exists|k: int|
                    0 <= k < self.tags@.len() && #[trigger] crate::tag_paths::entry_of(
                        self.tags@[k].spec@,
                        path@,
                        n,
                    ) {
                    let k = choose|k: int|
                        0 <= k < self.tags@.len() && #[trigger] crate::tag_paths::entry_of(
                            self.tags@[k].spec@,
                            path@,
                            n,
                        );
                    lemma_latest_tags_dom(self.tags@, self.tags@[k].spec@);
                    assert(self.tags().dom().contains(self.tags@[k].spec@));
                }
                if crate::tag_paths::listing(self.tags().dom(), path@).contains(n) {
                    let q = choose|q: Seq<char>|
                        self.tags().dom().contains(q) && #[trigger] crate::tag_paths::entry_of(
                            q,
                            path@,
                            n,
                        );
                    lemma_latest_tags_dom(self.tags@, q);
                    let k = choose|k: int| 0 <= k < self.tags@.len() && #[trigger] self.tags@[k].spec@ == q;
                    assert(crate::tag_paths::entry_of(self.tags@[k].spec@, path@, n));
                }
            }
            assert(crate::spk_storage::texts(out@).to_set() =~= crate::tag_paths::listing(
                self.tags().dom(),
                path@,
            ));
        }
        Ok(out)
    }

    fn has_tag(&self, path: &str) -> (r: bool) {
        latest_tag_position(&self.tags, path).is_some()
    }

    fn resolve_tag(&self, path: &str) -> (r: Result<Tag, StorageError>) {
        match latest_tag_position(&self.tags, path) {
            Some(i) => {
                let t = &self.tags[i];
                Ok(
                    Tag {
                        spec: TagSpec { path: t.spec.path.clone() },
                        target: t.target,
                        parent: t.parent,
                        user: t.user.clone(),
                        time: t.time,
                    },
                )
            },
            None => Err(StorageError::UnknownObject),
        }
    }

    fn push_raw_tag(&mut self, tag: Tag) -> (r: Result<(), StorageError>) {
        proof {
            lemma_latest_tags_push(self.tags@, tag);
        }
        self.tags.push(tag);
        Ok(())
    }

    fn push_tag(&mut self, path: &str, target: Digest) -> (r: Result<(), StorageError>) {
        let tag = Tag {
            spec: TagSpec { path: path.to_owned() },
            target,
            parent: Digest::new(0, 0, 0, 0),
            user: String::new(),
            time: 0,
        };
        proof {
            lemma_latest_tags_push(self.tags@, tag);
        }
        self.tags.push(tag);
        proof {
            assert(crate::upgrade::tag_targets(self.tags()) =~= crate::upgrade::tag_targets(
                old(self).tags(),
            ).insert(path@, target));
        }
        Ok(())
    }

    fn read_layout_version(&self) -> (r: Result<RepoVersion, StorageError>) {
        Ok(self.version)
    }

    fn write_layout_version(&mut self, version: RepoVersion) -> (r: Result<(), StorageError>) {
        self.version = version;
        Ok(())
    }
}

/// A copy of a tag.
fn copy_tag(t: &Tag) -> (r: Tag)
    ensures
        r == *t,
{
    Tag {
        spec: TagSpec { path: t.spec.path.clone() },
        target: t.target,
        parent: t.parent,
        user: t.user.clone(),
        time: t.time,
    }
}

/// A copy of a list of digests.
fn copy_digests(v: &Vec<Digest>) -> (r: Vec<Digest>)
    ensures
        r@ == v@,
{
    let mut out: Vec<Digest> = Vec::new();
    let mut i: usize = 0;
    while i < v.len()
        invariant
            i <= v@.len(),
            out@ == v@.take(i as int),
        decreases v.len() - i,
    {
        out.push(v[i]);
        proof {
            assert(out@ =~= v@.take(i as int + 1));
        }
        i = i + 1;
    }
    proof {
        assert(v@.take(i as int) =~= v@);
    }
    out
}

/// The stack of a platform.
pub open spec fn stack_of(platform: Platform) -> Seq<Digest> {
    platform.stack@
}

/// A whole repository held in memory: its objects and payloads, its
/// platforms and its tags. Platforms stacked inside platforms are not kept:
/// reading such a platform fails.
pub struct MemGraphRepository {
    store: MemRepository,
    platforms: Vec<(Digest, Platform)>,
    tags: Vec<Tag>,
}

impl MemGraphRepository {
    /// An empty repository.
    pub fn new() -> (r: MemGraphRepository)
        ensures
            r.manifests() == Map::<Digest, Seq<Entry>>::empty(),
            r.layers() == Map::<Digest, Layer>::empty(),
            r.blobs() == Map::<Digest, Blob>::empty(),
            r.payloads() == Map::<Digest, MemPayload>::empty(),
            r.platforms() == Map::<Digest, Seq<Digest>>::empty(),
            r.tags() == Map::<Seq<char>, Tag>::empty(),
    {
        let r = MemGraphRepository { store: MemRepository::new(), platforms: Vec::new(), tags: Vec::new() };
        proof {
            assert(r.platforms() =~= Map::<Digest, Seq<Digest>>::empty());
            assert(r.tags() =~= Map::<Seq<char>, Tag>::empty());
        }
        r
    }

    /// Stores the manifest under the digest.
    pub fn add_manifest(&mut self, digest: Digest, manifest: Manifest)
        ensures
            final(self).manifests() == old(self).manifests().insert(digest, manifest.entries@),
            final(self).layers() == old(self).layers(),
            final(self).blobs() == old(self).blobs(),
            final(self).payloads() == old(self).payloads(),
    {
        self.store.add_manifest(digest, manifest);
    }

    /// Stores the payload under the digest.
    pub fn add_payload(&mut self, digest: Digest, payload: MemPayload)
        ensures
            final(self).payloads() == old(self).payloads().insert(digest, payload),
            final(self).manifests() == old(self).manifests(),
            final(self).layers() == old(self).layers(),
            final(self).blobs() == old(self).blobs(),
    {
        self.store.add_payload(digest, payload);
    }
}

impl SyncRepository for MemGraphRepository {
    type Payload = MemPayload;

    open spec fn data_digest(payload: MemPayload) -> Digest {
        payload.digest
    }

    open spec fn data_size(payload: MemPayload) -> u64 {
        payload.size
    }

    closed spec fn manifests(&self) -> Map<Digest, Seq<Entry>> {
        self.store.manifests()
    }

    closed spec fn layers(&self) -> Map<Digest, Layer> {
        self.store.layers()
    }

    closed spec fn blobs(&self) -> Map<Digest, Blob> {
        self.store.blobs()
    }

    closed spec fn payloads(&self) -> Map<Digest, MemPayload> {
        self.store.payloads()
    }

    closed spec fn tags(&self) -> Map<Seq<char>, Tag> {
        latest_tags(self.tags@)
    }

    closed spec fn platforms(&self) -> Map<Digest, Seq<Digest>> {
        latest(self.platforms@).map_values(|p: Platform| stack_of(p))
    }

    fn has_manifest(&self, digest: Digest) -> (r: bool) {
        self.store.has_manifest(digest)
    }

    fn has_layer(&self, digest: Digest) -> (r: bool) {
        self.store.has_layer(digest)
    }

    fn has_blob(&self, digest: Digest) -> (r: bool) {
        self.store.has_blob(digest)
    }

    fn has_payload(&self, digest: Digest) -> (r: bool) {
        self.store.has_payload(digest)
    }

    fn read_manifest(&self, digest: Digest) -> (r: Result<Manifest, StorageError>) {
        self.store.read_manifest(digest)
    }

    fn open_payload(&self, digest: Digest) -> (r: Result<MemPayload, StorageError>) {
        self.store.open_payload(digest)
    }

    fn write_data(&mut self, payload: MemPayload) -> (r: Result<(Digest, u64), StorageError>) {
        self.store.write_data(payload)
    }

    fn write_blob(&mut self, blob: Blob) -> (r: Result<(), StorageError>) {
        self.store.write_blob(blob)
    }

    fn write_object(&mut self, digest: Digest, obj: &Object) -> (r: Result<(), StorageError>) {
        self.store.write_object(digest, obj)
    }
}

impl GraphRepository for MemGraphRepository {
    closed spec fn objects(&self) -> Map<Digest, ObjectView> {
        Map::new(
            |d: Digest|
                latest(self.platforms@).contains_key(d) || latest(self.store.layers@).contains_key(d)
                    || latest(self.store.manifests@).contains_key(d) || latest(
                    self.store.blobs@,
                ).contains_key(d),
            |d: Digest|
                if latest(self.platforms@).contains_key(d) {
                    ObjectView::Platform(latest(self.platforms@)[d].stack@)
                } else if latest(self.store.layers@).contains_key(d) {
                    ObjectView::Layer(latest(self.store.layers@)[d])
                } else if latest(self.store.manifests@).contains_key(d) {
                    ObjectView::Manifest(latest(self.store.manifests@)[d].entries@)
                } else {
                    ObjectView::Blob(latest(self.store.blobs@)[d])
                },
        )
    }

    closed spec fn depth(&self, digest: Digest) -> nat {
        if latest(self.platforms@).contains_key(digest) {
            1
        } else {
            0
        }
    }

    fn resolve_tag(&self, tag: &TagSpec) -> (r: Result<Tag, StorageError>) {
        match latest_tag_position(&self.tags, tag.path.as_str()) {
            Some(i) => Ok(copy_tag(&self.tags[i])),
            None => Err(StorageError::UnknownObject),
        }
    }

    fn push_raw_tag(&mut self, tag: &Tag) -> (r: Result<(), StorageError>) {
        let t = copy_tag(tag);
        proof {
            lemma_latest_tags_push(self.tags@, t);
        }
        self.tags.push(t);
        Ok(())
    }

    fn read_object(&self, digest: Digest) -> (r: Result<Object, StorageError>) {
        match latest_position(&self.platforms, digest) {
            Some(i) => {
                let stack = &self.platforms[i].1.stack;
                let mut k: usize = 0;
                while k < stack.len()
                    invariant
                        k <= stack@.len(),
                        forall|j: int|
                            0 <= j < k ==> !latest(self.platforms@).contains_key(#[trigger] stack@[j]),
                    decreases stack.len() - k,
                {
                    if latest_position(&self.platforms, stack[k]).is_some() {
                        return Err(StorageError::Unavailable);
                    }
                    k = k + 1;
                }
                return Ok(Object::Platform(Platform { stack: copy_digests(stack) }));
            },
            None => {},
        }
        match latest_position(&self.store.layers, digest) {
            Some(i) => {
                return Ok(Object::Layer(self.store.layers[i].1));
            },
            None => {},
        }
        match latest_position(&self.store.manifests, digest) {
            Some(i) => {
                return Ok(Object::Manifest(self.store.manifests[i].1.duplicate()));
            },
            None => {},
        }
        match latest_position(&self.store.blobs, digest) {
            Some(i) => Ok(Object::Blob(self.store.blobs[i].1)),
            None => Err(StorageError::UnknownObject),
        }
    }

    fn resolve_full_digest(&self, partial: &Vec<u8>) -> Result<Digest, StorageError> {
        Err(StorageError::UnknownObject)
    }

    fn has_platform(&self, digest: Digest) -> (r: bool) {
        latest_position(&self.platforms, digest).is_some()
    }

    fn create_platform(&mut self, digest: Digest, stack: Vec<Digest>) -> (r: Result<
        Platform,
        StorageError,
    >) {
        let item = (digest, Platform { stack: copy_digests(&stack) });
        proof {
            lemma_latest_push(self.platforms@, item);
        }
        self.platforms.push(item);
        proof {
            assert(self.platforms() =~= old(self).platforms().insert(digest, stack@));
        }
        Ok(Platform { stack })
    }
}

} // verus!

//! Walking the object graph during a sync: environments, tags, objects and
//! platforms, each synced through the steps of [`crate::sync::Syncer`].
use vstd::prelude::*;

use crate::graph::{Blob, Digest, Entry, Layer, Object, Platform};
use crate::misc::Tag;
use crate::sync::{StorageError, SyncError, SyncReporter, SyncRepository, Syncer};
use crate::sync_result::{
    SyncEnvItemResult, SyncEnvResult, SyncObjectResult, SyncPlatformResult, SyncTagResult,
};
use crate::tracking::{EnvSpec, EnvSpecItem, TagSpec};

verus! {

/// An object as plain values: a platform's stack, a layer, a manifest's or
/// a tree's entries, a blob, or a mask.
pub enum ObjectView {
    Platform(Seq<Digest>),
    Layer(Layer),
    Manifest(Seq<Entry>),
    Blob(Blob),
    Tree(Seq<Entry>),
    Mask,
}

/// An object as plain values.
pub open spec fn object_view(obj: Object) -> ObjectView {
    match obj {
        Object::Platform(p) => ObjectView::Platform(p.stack@),
        Object::Layer(l) => ObjectView::Layer(l),
        Object::Manifest(m) => ObjectView::Manifest(m.entries@),
        Object::Blob(b) => ObjectView::Blob(b),
        Object::Tree(t) => ObjectView::Tree(t.entries@),
        Object::Mask => ObjectView::Mask,
    }
}

/// What a sync needs of a source repository beyond the steps of a
/// [`Syncer`]: its objects read by digest, and shortened digests resolved.
/// Every object has a depth in the object graph, and the objects that a
/// platform stacks lie deeper than the platform: objects are named by the
/// digest of their contents, so none can hold itself.
pub trait GraphRepository: SyncRepository {
    /// The objects stored, by digest.
    spec fn objects(&self) -> Map<Digest, ObjectView>;

    /// How far the object with the digest lies from the bottom of the graph.
    spec fn depth(&self, digest: Digest) -> nat;

    /// The latest tag of the stream.
    fn resolve_tag(&self, tag: &TagSpec) -> (r: Result<Tag, StorageError>)
        ensures
            r matches Ok(t) ==> self.tags().contains_key(tag@) && t == self.tags()[tag@]
                && t.spec@ == tag@,
    ;

    /// Pushes a tag, as it is, onto the stream at its path.
    fn push_raw_tag(&mut self, tag: &Tag) -> (r: Result<(), StorageError>)
        ensures
            final(self).manifests() == old(self).manifests(),
            final(self).layers() == old(self).layers(),
            final(self).blobs() == old(self).blobs(),
            final(self).payloads() == old(self).payloads(),
            final(self).platforms() == old(self).platforms(),
            r is Ok ==> final(self).tags() == old(self).tags().insert(tag.spec@, *tag),
            r is Err ==> final(self).tags() == old(self).tags(),
    ;

    /// Reads the object with the digest.
    fn read_object(&self, digest: Digest) -> (r: Result<Object, StorageError>)
        ensures
            r matches Ok(o) ==> self.objects().contains_key(digest) && self.objects()[digest]
                == object_view(o),
            r matches Ok(Object::Platform(p)) ==> forall|i: int|
                0 <= i < p.stack@.len() ==> self.depth(#[trigger] p.stack@[i]) < self.depth(digest),
    ;

    /// The full digest that a shortened digest stands for.
    fn resolve_full_digest(&self, partial: &Vec<u8>) -> Result<Digest, StorageError>;

    /// True if the repository has the platform with the digest.
    fn has_platform(&self, digest: Digest) -> (r: bool)
        ensures
            r == self.platforms().contains_key(digest),
    ;

    /// Writes a platform of the stack under its digest.
    fn create_platform(&mut self, digest: Digest, stack: Vec<Digest>) -> (r: Result<
        Platform,
        StorageError,
    >)
        ensures
            final(self).manifests() == old(self).manifests(),
            final(self).layers() == old(self).layers(),
            final(self).blobs() == old(self).blobs(),
            final(self).payloads() == old(self).payloads(),
            final(self).tags() == old(self).tags(),
            r matches Ok(p) ==> p.stack@ == stack@ && final(self).platforms() == old(
                self,
            ).platforms().insert(digest, stack@),
            r is Err ==> final(self).platforms() == old(self).platforms(),
    ;
}

/// True where the result of syncing an object is of the object's kind (a
/// tree given back as it is).
pub open spec fn same_kind(obj: ObjectView, result: SyncObjectResult) -> bool {
    match obj {
        ObjectView::Platform(_) => result is Platform,
        ObjectView::Layer(_) => result is Layer,
        ObjectView::Manifest(_) => result is Manifest,
        ObjectView::Blob(_) => result is Blob,
        ObjectView::Tree(es) => result matches SyncObjectResult::Tree(t) && t.entries@ == es,
        ObjectView::Mask => result is Mask,
    }
}

/// What the destination holds of an object once it is synced, under the
/// digest that it was read from.
pub open spec fn holds_object<R: SyncRepository>(dest: R, digest: Digest, obj: ObjectView) -> bool {
    match obj {
        ObjectView::Platform(_) => dest.platforms().contains_key(digest),
        ObjectView::Layer(_) => dest.layers().contains_key(digest),
        ObjectView::Manifest(_) => dest.manifests().contains_key(digest),
        ObjectView::Blob(b) => dest.blobs().contains_key(b.payload),
        ObjectView::Tree(_) => true,
        ObjectView::Mask => true,
    }
}

/// `result` is the sync of the source's object at `digest`, which the
/// destination now holds.
pub open spec fn object_synced<R: GraphRepository>(
    src: R,
    dest: R,
    digest: Digest,
    result: SyncObjectResult,
) -> bool {
    &&& src.objects().contains_key(digest)
    &&& same_kind(src.objects()[digest], result)
    &&& holds_object(dest, digest, src.objects()[digest])
}

/// The destination holds the source's tag at `path`, and `result` is the
/// sync of the object that it points to.
pub open spec fn tag_synced<R: GraphRepository>(
    src: R,
    dest: R,
    path: Seq<char>,
    result: SyncObjectResult,
) -> bool {
    &&& src.tags().contains_key(path)
    &&& dest.tags().contains_key(path)
    &&& dest.tags()[path] == src.tags()[path]
    &&& object_synced(src, dest, src.tags()[path].target, result)
}

/// `result` is the sync of the environment item `item`: a tag that the
/// destination holds (synced from the source, or skipped as the
/// destination had it), or the object that a digest names.
pub open spec fn item_synced<R: GraphRepository>(
    src: R,
    dest: R,
    item: EnvSpecItem,
    result: SyncEnvItemResult,
) -> bool {
    match item {
        EnvSpecItem::TagSpec(t) => match result {
            SyncEnvItemResult::Tag(SyncTagResult::Synced { tag, result }) => tag@ == t@ && tag_synced(src, dest, t@, result),
            SyncEnvItemResult::Tag(SyncTagResult::Skipped) => dest.tags().contains_key(t@),
            SyncEnvItemResult::Object(_) => false,
        },
        EnvSpecItem::Digest(d) => result matches SyncEnvItemResult::Object(o) && object_synced(
            src,
            dest,
            d,
            o,
        ),
        EnvSpecItem::PartialDigest(_) => result matches SyncEnvItemResult::Object(o) && exists|
            d: Digest,
        | object_synced(src, dest, d, o),
    }
}

/// The destination keeps all that it held, and each tag that changed is
/// the source's tag of that path.
pub open spec fn grows_from<R: GraphRepository>(src: R, before: R, after: R) -> bool {
    &&& crate::sync::keeps_all(before, after)
    &&& before.platforms().dom().subset_of(after.platforms().dom())
    &&& before.tags().dom().subset_of(after.tags().dom())
    &&& forall|p: Seq<char>|
        #[trigger] after.tags().contains_key(p) ==> (before.tags().contains_key(p)
            && after.tags()[p] == before.tags()[p]) || (src.tags().contains_key(p)
            && after.tags()[p] == src.tags()[p])
}

proof fn lemma_grows_trans<R: GraphRepository>(src: R, a: R, b: R, c: R)
    requires
        grows_from(src, a, b),
        grows_from(src, b, c),
    ensures
        grows_from(src, a, c),
{
    assert forall|p: Seq<char>| #[trigger] c.tags().contains_key(p) implies (a.tags().contains_key(p)
        && c.tags()[p] == a.tags()[p]) || (src.tags().contains_key(p) && c.tags()[p]
        == src.tags()[p]) by {
        if !(b.tags().contains_key(p) && c.tags()[p] == b.tags()[p]) {
        } else {
            assert(b.tags().contains_key(p));
        }
    }
}

proof fn lemma_object_synced_stays<R: GraphRepository>(
    src: R,
    a: R,
    b: R,
    digest: Digest,
    result: SyncObjectResult,
)
    requires
        object_synced(src, a, digest, result),
        grows_from(src, a, b),
    ensures
        object_synced(src, b, digest, result),
{
    match src.objects()[digest] {
        ObjectView::Blob(bl) => {
            assert(a.blobs().contains_key(bl.payload));
        },
        ObjectView::Platform(_) => {
            assert(a.platforms().contains_key(digest));
        },
        ObjectView::Layer(_) => {
            assert(a.layers().contains_key(digest));
        },
        ObjectView::Manifest(_) => {
            assert(a.manifests().contains_key(digest));
        },
        _ => {},
    }
}

proof fn lemma_item_synced_stays<R: GraphRepository>(
    src: R,
    a: R,
    b: R,
    item: EnvSpecItem,
    result: SyncEnvItemResult,
)
    requires
        item_synced(src, a, item, result),
        grows_from(src, a, b),
    ensures
        item_synced(src, b, item, result),
{
    match item {
        EnvSpecItem::TagSpec(t) => {
            assert(a.tags().contains_key(t@));
            match result {
                SyncEnvItemResult::Tag(SyncTagResult::Synced { tag, result: inner }) => {
                    lemma_object_synced_stays(src, a, b, src.tags()[t@].target, inner);
                    assert(b.tags().contains_key(t@));
                },
                _ => {},
            }
        },
        EnvSpecItem::Digest(d) => {
            match result {
                SyncEnvItemResult::Object(o) => {
                    lemma_object_synced_stays(src, a, b, d, o);
                },
                _ => {},
            }
        },
        EnvSpecItem::PartialDigest(_) => {
            match result {
                SyncEnvItemResult::Object(o) => {
                    let d = choose|d: Digest| object_synced(src, a, d, o);
                    lemma_object_synced_stays(src, a, b, d, o);
                },
                _ => {},
            }
        },
    }
}

/// One more than the depth of the deepest object of a stack.
pub open spec fn stack_depth<R: GraphRepository>(src: R, stack: Seq<Digest>) -> nat
    decreases stack.len(),
{
    if stack.len() == 0 {
        0
    } else {
        let rest = stack_depth(src, stack.drop_last());
        let here = src.depth(stack.last()) + 1;
        if rest > here {
            rest
        } else {
            here
        }
    }
}

proof fn lemma_stack_depth_above<R: GraphRepository>(src: R, stack: Seq<Digest>, i: int)
    requires
        0 <= i < stack.len(),
    ensures
        src.depth(stack[i]) < stack_depth(src, stack),
    decreases stack.len(),
{
    if i < stack.len() - 1 {
        lemma_stack_depth_above(src, stack.drop_last(), i);
        assert(stack.drop_last()[i] == stack[i]);
    }
}

proof fn lemma_stack_depth_below<R: GraphRepository>(src: R, stack: Seq<Digest>, bound: nat)
    requires
        forall|i: int| 0 <= i < stack.len() ==> src.depth(#[trigger] stack[i]) < bound,
    ensures
        stack_depth(src, stack) <= bound,
    decreases stack.len(),
{
    if stack.len() > 0 {
        let rest = stack.drop_last();
        assert forall|i: int| 0 <= i < rest.len() implies src.depth(#[trigger] rest[i]) < bound by {
            assert(rest[i] == stack[i]);
        }
        lemma_stack_depth_below(src, rest, bound);
        assert(src.depth(stack[stack.len() - 1]) < bound);
    }
}

/// How far down the sync of an object may reach: for a platform, below
/// the deepest object of its stack.
pub open spec fn object_measure<R: GraphRepository>(src: R, obj: Object) -> nat {
    match obj {
        Object::Platform(p) => stack_depth(src, p.stack@),
        _ => 0,
    }
}

fn storage<T>(r: Result<T, StorageError>) -> (out: Result<T, SyncError>)
    ensures
        r matches Ok(v) ==> out == Ok::<T, SyncError>(v),
        r matches Err(e) ==> out == Err::<T, SyncError>(SyncError::Storage(e)),
{
    match r {
        Ok(v) => Ok(v),
        Err(e) => Err(SyncError::Storage(e)),
    }
}

/// Sync all of the objects identified by the given env, in order: each
/// item's result is its sync, and the destination holds what it names.
pub fn sync_env<R: GraphRepository, Rep: SyncReporter>(
    syncer: &Syncer<Rep>,
    src: &R,
    dest: &mut R,
    env: EnvSpec,
) -> (r: Result<SyncEnvResult, SyncError>)
    ensures
        r matches Ok(res) ==> res.env == env && res.results@.len() == env.items@.len() && forall|
            i: int,
        |
            0 <= i < res.results@.len() ==> item_synced(
                *src,
                *final(dest),
                env.items@[i],
                #[trigger] res.results@[i],
            ),
        env.items@.len() == 0 ==> (r matches Ok(res) && res.results@.len() == 0 && *final(dest)
            == *old(dest)),
        grows_from(*src, *old(dest), *final(dest)),
{
    syncer.reporter().visit_env(&env);
    let mut results: Vec<SyncEnvItemResult> = Vec::new();
    let mut i: usize = 0;
    while i < env.items.len()
        invariant
            i <= env.items@.len(),
            results@.len() == i,
            forall|k: int|
                0 <= k < i ==> item_synced(*src, *dest, env.items@[k], #[trigger] results@[k]),
            i == 0 ==> *dest == *old(dest),
            grows_from(*src, *old(dest), *dest),
        decreases env.items.len() - i,
    {
        let item = duplicate_item(&env.items[i]);
        let ghost before = *dest;
        let res = sync_env_item(syncer, src, dest, item)?;
        proof {
            lemma_grows_trans(*src, *old(dest), before, *dest);
            assert forall|k: int| 0 <= k < i implies item_synced(
                *src,
                *dest,
                env.items@[k],
                #[trigger] results@[k],
            ) by {
                lemma_item_synced_stays(*src, before, *dest, env.items@[k], results@[k]);
            }
        }
        results.push(res);
        proof {
            assert(results@[i as int] == res);
        }
        i = i + 1;
    }
    let res = SyncEnvResult { env, results };
    syncer.reporter().synced_env(&res);
    Ok(res)
}

/// A copy of an item of an environment spec.
pub fn duplicate_item(item: &EnvSpecItem) -> (r: EnvSpecItem)
    ensures
        r is TagSpec <==> item is TagSpec,
        r is Digest <==> item is Digest,
        item matches EnvSpecItem::TagSpec(t) ==> (r matches EnvSpecItem::TagSpec(rt) && rt@ == t@),
        item matches EnvSpecItem::Digest(d) ==> r == EnvSpecItem::Digest(*d),
        item matches EnvSpecItem::PartialDigest(p) ==> (r matches EnvSpecItem::PartialDigest(rp)
            && rp@ == p@),
{
    match item {
        EnvSpecItem::TagSpec(t) => EnvSpecItem::TagSpec(TagSpec { path: t.path.clone() }),
        EnvSpecItem::Digest(d) => EnvSpecItem::Digest(*d),
        EnvSpecItem::PartialDigest(p) => {
            let mut bytes: Vec<u8> = Vec::new();
            let mut i: usize = 0;
            while i < p.len()
                invariant
                    i <= p@.len(),
                    bytes@ == p@.take(i as int),
                decreases p.len() - i,
            {
                bytes.push(p[i]);
                proof {
                    assert(bytes@ =~= p@.take(i as int + 1));
                }
                i = i + 1;
            }
            proof {
                assert(p@.take(i as int) =~= p@);
            }
            EnvSpecItem::PartialDigest(bytes)
        },
    }
}

/// Sync one environment item and any associated data: a tag, or the object
/// that a digest (whole or shortened) names.
pub fn sync_env_item<R: GraphRepository, Rep: SyncReporter>(
    syncer: &Syncer<Rep>,
    src: &R,
    dest: &mut R,
    item: EnvSpecItem,
) -> (r: Result<SyncEnvItemResult, SyncError>)
    ensures
        r matches Ok(res) ==> item_synced(*src, *final(dest), item, res),
        grows_from(*src, *old(dest), *final(dest)),
{
    syncer.reporter().visit_env_item(&item);
    let ghost it = item;
    let res = match item {
        EnvSpecItem::Digest(digest) => {
            SyncEnvItemResult::Object(sync_digest(syncer, src, dest, digest)?)
        },
        EnvSpecItem::PartialDigest(partial) => {
            let digest = storage(src.resolve_full_digest(&partial))?;
            let o = sync_digest(syncer, src, dest, digest)?;
            proof {
                assert(object_synced(*src, *dest, digest, o));
            }
            SyncEnvItemResult::Object(o)
        },
        EnvSpecItem::TagSpec(tag) => SyncEnvItemResult::Tag(sync_tag(syncer, src, dest, tag)?),
    };
    syncer.reporter().synced_env_item(&res);
    Ok(res)
}

/// Sync the identified tag instance and its target: skipped if tags that
/// the destination has are skipped and it has this one, else the target is
/// synced and then the source's tag pushed as it is.
pub fn sync_tag<R: GraphRepository, Rep: SyncReporter>(
    syncer: &Syncer<Rep>,
    src: &R,
    dest: &mut R,
    tag: TagSpec,
) -> (r: Result<SyncTagResult, SyncError>)
    ensures
        r matches Ok(SyncTagResult::Skipped) ==> syncer.skips_existing_tags() && old(
            dest,
        ).tags().contains_key(tag@) && *final(dest) == *old(dest),
        r matches Ok(SyncTagResult::Synced { tag: t, result }) ==> t == tag && tag_synced(
            *src,
            *final(dest),
            tag@,
            result,
        ),
        grows_from(*src, *old(dest), *final(dest)),
{
    if syncer.skip_existing_tags() && syncer.skip_tag(dest.resolve_tag(&tag).is_ok()) {
        return Ok(SyncTagResult::Skipped);
    }
    syncer.reporter().visit_tag(&tag);
    let resolved = storage(src.resolve_tag(&tag))?;
    let ghost before = *dest;
    let result = sync_digest(syncer, src, dest, resolved.target)?;
    let ghost synced = *dest;
    storage(dest.push_raw_tag(&resolved))?;
    proof {
        lemma_grows_trans(*src, *old(dest), synced, *dest);
        lemma_object_synced_stays(*src, synced, *dest, resolved.target, result);
    }
    let res = SyncTagResult::Synced { tag, result };
    syncer.reporter().synced_tag(&res);
    Ok(res)
}

/// Reads the object with the digest from the source and syncs it: the
/// result is the sync of the source's object, which the destination then
/// holds.
pub fn sync_digest<R: GraphRepository, Rep: SyncReporter>(
    syncer: &Syncer<Rep>,
    src: &R,
    dest: &mut R,
    digest: Digest,
) -> (r: Result<SyncObjectResult, SyncError>)
    ensures
        r matches Ok(res) ==> object_synced(*src, *final(dest), digest, res),
        grows_from(*src, *old(dest), *final(dest)),
    decreases src.depth(digest), 2nat,
{
    let obj = storage(src.read_object(digest))?;
    proof {
        if let Object::Platform(ref p) = obj {
            lemma_stack_depth_below(*src, p.stack@, src.depth(digest));
        }
    }
    sync_object(syncer, src, dest, digest, obj)
}

/// Syncs an object read from the source under the digest, by its kind: a
/// platform, layer, manifest or blob is synced as such, and a tree or a
/// mask is given back as it is. Once synced, the destination holds it.
pub fn sync_object<R: GraphRepository, Rep: SyncReporter>(
    syncer: &Syncer<Rep>,
    src: &R,
    dest: &mut R,
    digest: Digest,
    obj: Object,
) -> (r: Result<SyncObjectResult, SyncError>)
    ensures
        r matches Ok(res) ==> same_kind(object_view(obj), res) && holds_object(
            *final(dest),
            digest,
            object_view(obj),
        ),
        obj is Tree || obj is Mask ==> *final(dest) == *old(dest),
        obj matches Object::Tree(t) ==> (r matches Ok(SyncObjectResult::Tree(rt)) && rt == t),
        obj is Mask ==> (r matches Ok(SyncObjectResult::Mask)),
        grows_from(*src, *old(dest), *final(dest)),
    decreases object_measure(*src, obj), 1nat,
{
    syncer.reporter().visit_object(&obj);
    let res = match obj {
        Object::Layer(layer) => SyncObjectResult::Layer(
            syncer.sync_layer(src, dest, digest, layer)?,
        ),
        Object::Platform(platform) => SyncObjectResult::Platform(
            sync_platform(syncer, src, dest, digest, platform)?,
        ),
        Object::Blob(blob) => SyncObjectResult::Blob(syncer.sync_blob(src, dest, blob)?),
        Object::Manifest(manifest) => SyncObjectResult::Manifest(
            syncer.sync_manifest(src, dest, digest, manifest)?,
        ),
        Object::Tree(tree) => SyncObjectResult::Tree(tree),
        Object::Mask => SyncObjectResult::Mask,
    };
    syncer.reporter().synced_object(&res);
    Ok(res)
}

/// Syncs a platform (stored under `digest`): skipped if objects that the
/// destination has are skipped and it has this platform, else each object
/// of its stack is synced from the source, bottom first, and then the
/// platform written.
pub fn sync_platform<R: GraphRepository, Rep: SyncReporter>(
    syncer: &Syncer<Rep>,
    src: &R,
    dest: &mut R,
    digest: Digest,
    platform: Platform,
) -> (r: Result<SyncPlatformResult, SyncError>)
    ensures
        syncer.skips_existing_objects() && old(dest).platforms().contains_key(digest) ==> r
            == Ok::<SyncPlatformResult, SyncError>(SyncPlatformResult::Skipped),
        r matches Ok(SyncPlatformResult::Skipped) ==> syncer.skips_existing_objects() && old(
            dest,
        ).platforms().contains_key(digest) && *final(dest) == *old(dest),
        r matches Ok(SyncPlatformResult::Synced { platform: p, results }) ==> p.stack@
            == platform.stack@ && results@.len() == platform.stack@.len() && (forall|i: int|
            0 <= i < results@.len() ==> object_synced(
                *src,
                *final(dest),
                platform.stack@[i],
                #[trigger] results@[i],
            )) && final(dest).platforms().contains_key(digest) && final(dest).platforms()[digest]
            == platform.stack@,
        grows_from(*src, *old(dest), *final(dest)),
    decreases stack_depth(*src, platform.stack@), 0nat,
{
    if syncer.skip_object(dest.has_platform(digest)) {
        return Ok(SyncPlatformResult::Skipped);
    }
    syncer.reporter().visit_platform(&platform);
    let mut results: Vec<SyncObjectResult> = Vec::new();
    let mut stack: Vec<Digest> = Vec::new();
    let mut i: usize = 0;
    while i < platform.stack.len()
        invariant
            i <= platform.stack@.len(),
            results@.len() == i,
            stack@ == platform.stack@.take(i as int),
            !(syncer.skips_existing_objects() && old(dest).platforms().contains_key(digest)),
            forall|k: int|
                0 <= k < i ==> object_synced(*src, *dest, platform.stack@[k], #[trigger] results@[k]),
            grows_from(*src, *old(dest), *dest),
        decreases platform.stack.len() - i,
    {
        let d = platform.stack[i];
        proof {
            lemma_stack_depth_above(*src, platform.stack@, i as int);
        }
        let ghost before = *dest;
        let res = sync_digest(syncer, src, dest, d)?;
        proof {
            lemma_grows_trans(*src, *old(dest), before, *dest);
            assert forall|k: int| 0 <= k < i implies object_synced(
                *src,
                *dest,
                platform.stack@[k],
                #[trigger] results@[k],
            ) by {
                lemma_object_synced_stays(*src, before, *dest, platform.stack@[k], results@[k]);
            }
        }
        results.push(res);
        stack.push(d);
        proof {
            assert(stack@ =~= platform.stack@.take(i as int + 1));
            assert(results@[i as int] == res);
        }
        i = i + 1;
    }
    proof {
        assert(platform.stack@.take(i as int) =~= platform.stack@);
    }
    let ghost before = *dest;
    let created = storage(dest.create_platform(digest, stack))?;
    proof {
        lemma_grows_trans(*src, *old(dest), before, *dest);
        assert forall|k: int| 0 <= k < results@.len() implies object_synced(
            *src,
            *dest,
            platform.stack@[k],
            #[trigger] results@[k],
        ) by {
            lemma_object_synced_stays(*src, before, *dest, platform.stack@[k], results@[k]);
        }
    }
    let res = SyncPlatformResult::Synced { platform: created, results };
    syncer.reporter().synced_platform(&res);
    Ok(res)
}

} // verus!

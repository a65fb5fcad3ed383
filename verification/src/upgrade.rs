//! Upgrading a repository to the layout where every package build has one
//! tag per component.
use vstd::prelude::*;

use crate::ident::{Build, Ident};
use crate::misc::Tag;
use crate::graph::Digest;
use crate::spk_storage::{
    ComponentDigest, TagPush, build_package_tag, build_texts, join_path, list_packages, lookup_package, version_texts,
    SpkError, StoredPackage,
};
use crate::sync::StorageError;
use crate::tracking::TagSpec;

verus! {

/// A version of the repository layout: its major, minor and patch numbers.
#[derive(Clone, Copy, PartialEq, Eq, Structural, Debug)]
pub struct RepoVersion {
    pub major: u64,
    pub minor: u64,
    pub patch: u64,
}

/// The layout version that this library writes, `1.0.0`.
pub open spec fn target_version() -> RepoVersion {
    RepoVersion { major: 1, minor: 0, patch: 0 }
}

/// True where `a` is a later version than `b`.
pub open spec fn version_after(a: RepoVersion, b: RepoVersion) -> bool {
    ||| a.major > b.major
    ||| a.major == b.major && a.minor > b.minor
    ||| a.major == b.major && a.minor == b.minor && a.patch > b.patch
}

impl RepoVersion {
    /// The layout version that this library writes.
    pub fn current() -> (v: RepoVersion)
        ensures
            v == target_version(),
    {
        RepoVersion { major: 1, minor: 0, patch: 0 }
    }

    /// True if this version is later than the other.
    pub fn is_after(&self, other: &RepoVersion) -> (r: bool)
        ensures
            r == version_after(*self, *other),
    {
        self.major > other.major || (self.major == other.major && (self.minor > other.minor || (
        self.minor == other.minor && self.patch > other.patch)))
    }
}

/// The tags and the layout metadata of a package repository, as an upgrade
/// uses them. The tags are seen as a map from each tag path to the latest
/// tag of its stream; reading a tag gives that tag, pushing a tag makes it
/// the latest of its stream, and writing the layout version records it.
/// What a listing shows, and whether an operation succeeds, is the
/// repository's own affair.
pub trait SpkRepository: Sized {
    /// The latest tag of each tag stream, by path.
    spec fn tags(&self) -> Map<Seq<char>, Tag>;

    /// The layout version that the repository's metadata records.
    spec fn layout_version(&self) -> RepoVersion;

    /// The entries directly below a tag path: tag names, and folder names
    /// with a trailing `/`.
    fn ls_tags(&self, path: &str) -> (r: Result<Vec<String>, StorageError>)
        ensures
            r matches Ok(v) ==> crate::spk_storage::texts(v@).to_set() == crate::tag_paths::listing(
                self.tags().dom(),
                path@,
            ),
    ;

    /// True if the tag path names a tag stream.
    fn has_tag(&self, path: &str) -> (r: bool)
        ensures
            r == self.tags().contains_key(path@),
    ;

    /// The latest tag of the stream at the path.
    fn resolve_tag(&self, path: &str) -> (r: Result<Tag, StorageError>)
        ensures
            r matches Ok(t) ==> self.tags().contains_key(path@) && t == self.tags()[path@],
    ;

    /// Pushes a tag, as it is, onto the stream at its path.
    fn push_raw_tag(&mut self, tag: Tag) -> (r: Result<(), StorageError>)
        ensures
            final(self).layout_version() == old(self).layout_version(),
            r is Ok ==> final(self).tags() == old(self).tags().insert(tag.spec@, tag),
            r is Err ==> final(self).tags() == old(self).tags(),
    ;

    /// Pushes a new tag, pointing at the target, onto the stream at the path.
    /// Who pushed it and when is the repository's own affair.
    fn push_tag(&mut self, path: &str, target: Digest) -> (r: Result<(), StorageError>)
        ensures
            final(self).layout_version() == old(self).layout_version(),
            r is Ok ==> tag_targets(final(self).tags()) == tag_targets(old(self).tags()).insert(
                path@,
                target,
            ),
            r is Err ==> final(self).tags() == old(self).tags(),
    ;

    /// Reads the layout version from the repository's metadata.
    fn read_layout_version(&self) -> (r: Result<RepoVersion, StorageError>)
        ensures
            r matches Ok(v) ==> v == self.layout_version(),
    ;

    /// Records the layout version in the repository's metadata.
    fn write_layout_version(&mut self, version: RepoVersion) -> (r: Result<(), StorageError>)
        ensures
            final(self).tags() == old(self).tags(),
            r is Ok ==> final(self).layout_version() == version,
            r is Err ==> final(self).layout_version() == old(self).layout_version(),
    ;
}

/// Where the latest tag of each stream points.
pub open spec fn tag_targets(tags: Map<Seq<char>, Tag>) -> Map<Seq<char>, Digest> {
    tags.map_values(|t: Tag| t.target)
}

/// Where the tags point after each push, in order.
pub open spec fn apply_pushes(targets: Map<Seq<char>, Digest>, pushes: Seq<TagPush>) -> Map<
    Seq<char>,
    Digest,
>
    decreases pushes.len(),
{
    if pushes.len() == 0 {
        targets
    } else {
        apply_pushes(targets, pushes.drop_last()).insert(pushes.last().path@, pushes.last().digest)
    }
}

/// The digest that a package build's legacy tag points at: its source
/// component for a source build, else its run component.
pub open spec fn legacy_digest(pkg: Ident, components: Seq<ComponentDigest>) -> Option<Digest> {
    if pkg.build->0 is Source {
        crate::spk_storage::component_digest(components, "src"@)
    } else {
        crate::spk_storage::component_digest(components, "run"@)
    }
}

/// Publishes a package build's tags: its legacy tag, pointing at its source
/// component for a source build or else at its run component, and then a
/// tag for each component, below the legacy tag. A build that cannot be
/// published (no build, or no such component) is refused before any push.
pub fn publish_package<R: SpkRepository>(
    repo: &mut R,
    pkg: &Ident,
    components: &Vec<ComponentDigest>,
) -> (r: Result<(), SpkError>)
    requires
        forall|a: int, b: int|
            0 <= a < b < components@.len() ==> crate::ident::component_text(
                #[trigger] components@[a].component,
            ) != crate::ident::component_text(#[trigger] components@[b].component),
    ensures
        final(repo).layout_version() == old(repo).layout_version(),
        pkg.build is None ==> (r matches Err(SpkError::InvalidBuild { .. })) && *final(repo)
            == *old(repo),
        pkg.build is Some && legacy_digest(*pkg, components@) is None ==> (r matches Err(
            SpkError::MissingComponent { .. },
        )) && *final(repo) == *old(repo),
        r is Ok ==> pkg.build is Some && legacy_digest(*pkg, components@) is Some && exists|
            pushes: Seq<TagPush>,
        |
            crate::spk_storage::publish_pushes(
                *pkg,
                components@,
                legacy_digest(*pkg, components@)->0,
                pushes,
            ) && tag_targets(final(repo).tags()) == apply_pushes(
                tag_targets(old(repo).tags()),
                pushes,
            ),
{
    let pushes = crate::spk_storage::publish_package_tags(pkg, components)?;
    let ghost start = tag_targets(repo.tags());
    let mut i: usize = 0;
    while i < pushes.len()
        invariant
            i <= pushes@.len(),
            repo.layout_version() == old(repo).layout_version(),
            start == tag_targets(old(repo).tags()),
            pkg.build is Some,
            legacy_digest(*pkg, components@) is Some,
            tag_targets(repo.tags()) == apply_pushes(start, pushes@.take(i as int)),
        decreases pushes.len() - i,
    {
        storage(repo.push_tag(pushes[i].path.as_str(), pushes[i].digest))?;
        proof {
            assert(pushes@.take(i as int + 1).drop_last() =~= pushes@.take(i as int));
        }
        i = i + 1;
    }
    proof {
        assert(pushes@.take(i as int) =~= pushes@);
    }
    Ok(())
}

/// The components of a legacy package whose one tag is at `tag`: the source
/// component for a source package (a tag named `src`), else the build and
/// run components.
pub open spec fn legacy_components(tag: Seq<char>) -> Seq<Seq<char>> {
    if crate::spk_storage::tag_name(tag) == "src"@ {
        seq!["src"@]
    } else {
        seq!["build"@, "run"@]
    }
}

/// `t` is the new tag of the component named `component` of the legacy
/// build `build`: below the build's package tag, under the component's
/// name, pointing where the legacy tag `legacy` points, with its parent,
/// time and user.
pub open spec fn component_retag(build: Ident, component: Seq<char>, legacy: Tag, t: Tag) -> bool {
    &&& t.spec@ == crate::spk_storage::path_join(crate::spk_storage::package_tag(build), component)
    &&& t.target == legacy.target
    &&& t.parent == legacy.parent
    &&& t.time == legacy.time
    &&& t.user == legacy.user
}

/// The tags that give a stored build its component tags: none for a build
/// stored with component tags already, else one for each component of the
/// legacy package, copied from the tag `resolved` that its one tag
/// resolves to.
pub fn retag_legacy_build(build: &Ident, stored: StoredPackage, resolved: &Tag) -> (r: Result<
    Vec<Tag>,
    SpkError,
>)
    ensures
        match stored {
            StoredPackage::WithComponents(_) => r matches Ok(tags) && tags@.len() == 0,
            StoredPackage::WithoutComponents(t) => if build.build is None {
                r matches Err(SpkError::InvalidBuild { .. })
            } else {
                r matches Ok(tags) && tags@.len() == legacy_components(t@).len() && forall|k: int|
                    0 <= k < tags@.len() ==> component_retag(
                        *build,
                        legacy_components(t@)[k],
                        *resolved,
                        #[trigger] tags@[k],
                    )
            },
        },
{
    if stored.has_components() {
        return Ok(Vec::new());
    }
    let base = build_package_tag(build)?;
    let ghost legacy = match stored {
        StoredPackage::WithoutComponents(ref t) => t@,
        StoredPackage::WithComponents(_) => Seq::empty(),
    };
    let components = stored.into_components();
    proof {
        reveal_strlit("src");
        reveal_strlit("build");
        reveal_strlit("run");
        assert(components@.len() == legacy_components(legacy).len());
    }
    let mut out: Vec<Tag> = Vec::new();
    let mut i: usize = 0;
    while i < components.len()
        invariant
            i <= components@.len(),
            components@.len() == legacy_components(legacy).len(),
            forall|k: int|
                0 <= k < components@.len() ==> crate::ident::component_text(
                    #[trigger] components@[k].component,
                ) == legacy_components(legacy)[k],
            base@ == crate::spk_storage::package_tag(*build),
            out@.len() == i,
            forall|k: int|
                0 <= k < i ==> component_retag(
                    *build,
                    legacy_components(legacy)[k],
                    *resolved,
                    #[trigger] out@[k],
                ),
        decreases components.len() - i,
    {
        let name = components[i].component.as_string();
        let path = join_path(base.as_str(), name.as_str());
        out.push(
            Tag {
                spec: TagSpec { path },
                target: resolved.target,
                parent: resolved.parent,
                user: resolved.user.clone(),
                time: resolved.time,
            },
        );
        i = i + 1;
    }
    Ok(out)
}

/// `after` holds what `before` held, and each tag of it that `before` did not
/// hold points where some tag of `origin` points, with that tag's parent,
/// time and user.
pub open spec fn only_copies_added(
    origin: Map<Seq<char>, Tag>,
    before: Map<Seq<char>, Tag>,
    after: Map<Seq<char>, Tag>,
) -> bool {
    &&& before.dom().subset_of(after.dom())
    &&& forall|p: Seq<char>|
        #[trigger] after.contains_key(p) ==> (before.contains_key(p) && after[p] == before[p]) || (
        exists|q: Seq<char>| origin.contains_key(q) && copies_origin(after[p], origin[q]))
}

/// `t` points where `o` points, with its parent, time and user.
pub open spec fn copies_origin(t: Tag, o: Tag) -> bool {
    t.target == o.target && t.parent == o.parent && t.time == o.time && t.user == o.user
}

fn storage<T>(r: Result<T, StorageError>) -> (out: Result<T, SpkError>)
    ensures
        r matches Ok(v) ==> out == Ok::<T, SpkError>(v),
        r matches Err(e) ==> out == Err::<T, SpkError>(SpkError::Storage(e)),
{
    match r {
        Ok(v) => Ok(v),
        Err(e) => Err(SpkError::Storage(e)),
    }
}

/// The build that a build entry of a tag listing names.
pub fn parse_build(text: &str) -> (b: Build)
    ensures
        crate::ident::build_text(b) == text@,
        b is Source <==> text@ == "src"@,
        b is Embedded <==> text@ == "embedded"@,
{
    proof {
        reveal_strlit("src");
        reveal_strlit("embedded");
    }
    if crate::text::compare_paths(text, "src") == 0 {
        Build::Source
    } else if crate::text::compare_paths(text, "embedded") == 0 {
        Build::Embedded
    } else {
        Build::Digest(text.to_owned())
    }
}

/// The tag paths of the components of a legacy package below its tag
/// are distinct.
proof fn lemma_legacy_component_paths(base: Seq<char>, tag: Seq<char>, a: int, b: int)
    requires
        0 <= a < b < legacy_components(tag).len(),
    ensures
        crate::spk_storage::path_join(base, legacy_components(tag)[a])
            != crate::spk_storage::path_join(base, legacy_components(tag)[b]),
{
    reveal_strlit("src");
    reveal_strlit("build");
    reveal_strlit("run");
    assert(crate::spk_storage::path_join(base, legacy_components(tag)[a]).len()
        != crate::spk_storage::path_join(base, legacy_components(tag)[b]).len());
}

/// Gives a stored build its component tags: a build stored with component
/// tags is left as it is; for a legacy build, the tag that its one tag
/// resolves to is copied to a tag per component, below the build's package
/// tag.
pub fn retag_stored_build<R: SpkRepository>(repo: &mut R, build: &Ident, stored: StoredPackage) -> (r:
    Result<(), SpkError>)
    requires
        build.build is Some,
        stored matches StoredPackage::WithoutComponents(t) ==> t@
            == crate::spk_storage::package_tag(*build),
    ensures
        final(repo).layout_version() == old(repo).layout_version(),
        stored is WithComponents ==> r is Ok && *final(repo) == *old(repo),
        stored matches StoredPackage::WithoutComponents(t) ==> r is Ok ==> old(
            repo,
        ).tags().contains_key(t@) && forall|k: int|
            0 <= k < legacy_components(t@).len() ==> final(repo).tags().contains_key(
                crate::spk_storage::path_join(t@, #[trigger] legacy_components(t@)[k]),
            ) && component_retag(
                *build,
                legacy_components(t@)[k],
                old(repo).tags()[t@],
                final(repo).tags()[crate::spk_storage::path_join(t@, legacy_components(t@)[k])],
            ),
        stored matches StoredPackage::WithoutComponents(t) ==> r is Ok ==> forall|p: Seq<char>|
            #[trigger] final(repo).tags().contains_key(p) ==> (old(repo).tags().contains_key(p)
                && final(repo).tags()[p] == old(repo).tags()[p]) || exists|k: int|
                0 <= k < legacy_components(t@).len() && p == crate::spk_storage::path_join(
                    t@,
                    legacy_components(t@)[k],
                ),
        only_copies_added(old(repo).tags(), old(repo).tags(), final(repo).tags()),
{
    if stored.has_components() {
        return Ok(());
    }
    let ghost legacy = match stored {
        StoredPackage::WithoutComponents(ref t) => t@,
        StoredPackage::WithComponents(_) => Seq::empty(),
    };
    let tag_path = build_package_tag(build)?;
    let resolved = storage(repo.resolve_tag(tag_path.as_str()))?;
    let tags = retag_legacy_build(build, stored, &resolved)?;
    let ghost start = repo.tags();
    proof {
        assert forall|k: int| 0 <= k < tags@.len() implies copies_origin(#[trigger] tags@[k], resolved) by {
            assert(tags@[k].target == resolved.target);
        }
    }
    let mut i: usize = 0;
    while i < tags.len()
        invariant
            i <= tags@.len(),
            stored is WithoutComponents,
            legacy == tag_path@,
            tag_path@ == crate::spk_storage::package_tag(*build),
            start.contains_key(tag_path@),
            start[tag_path@] == resolved,
            tags@.len() == legacy_components(legacy).len(),
            forall|k: int|
                0 <= k < tags@.len() ==> component_retag(
                    *build,
                    legacy_components(legacy)[k],
                    resolved,
                    #[trigger] tags@[k],
                ),
            forall|k: int| 0 <= k < tags@.len() ==> copies_origin(#[trigger] tags@[k], resolved),
            forall|k: int|
                0 <= k < i ==> repo.tags().contains_key(#[trigger] tags@[k].spec@) && repo.tags()[tags@[k].spec@]
                    == tags@[k],
            repo.layout_version() == old(repo).layout_version(),
            start == old(repo).tags(),
            only_copies_added(start, start, repo.tags()),
            forall|p: Seq<char>|
                #[trigger] repo.tags().contains_key(p) ==> (start.contains_key(p) && repo.tags()[p]
                    == start[p]) || exists|k: int| 0 <= k < i && p == tags@[k].spec@,
        decreases tags.len() - i,
    {
        let t = Tag {
            spec: TagSpec { path: tags[i].spec.path.clone() },
            target: tags[i].target,
            parent: tags[i].parent,
            user: tags[i].user.clone(),
            time: tags[i].time,
        };
        let ghost before = repo.tags();
        let ghost pushed = t.spec@;
        storage(repo.push_raw_tag(t))?;
        proof {
            assert(copies_origin(tags@[i as int], resolved));
            assert forall|p: Seq<char>| #[trigger] repo.tags().contains_key(p) implies (start.contains_key(
                p,
            ) && repo.tags()[p] == start[p]) || (exists|q: Seq<char>|
                start.contains_key(q) && copies_origin(repo.tags()[p], start[q])) by {
                if p == pushed {
                    assert(copies_origin(repo.tags()[p], start[tag_path@]));
                } else {
                    assert(before.contains_key(p));
                }
            }
            assert forall|p: Seq<char>| #[trigger] repo.tags().contains_key(p) implies (start.contains_key(
                p,
            ) && repo.tags()[p] == start[p]) || exists|k: int| 0 <= k < i + 1 && p == tags@[k].spec@ by {
                if p == pushed {
                    assert(p == tags@[i as int].spec@);
                } else {
                    assert(before.contains_key(p));
                }
            }
            assert forall|k: int| 0 <= k < i + 1 implies repo.tags().contains_key(
                #[trigger] tags@[k].spec@,
            ) && repo.tags()[tags@[k].spec@] == tags@[k] by {
                if k < i {
                    lemma_legacy_component_paths(tag_path@, legacy, k, i as int);
                    assert(tags@[k].spec@ != pushed);
                }
            }
        }
        i = i + 1;
    }
    proof {
        assert forall|k: int| 0 <= k < legacy_components(legacy).len() implies repo.tags().contains_key(
            crate::spk_storage::path_join(legacy, #[trigger] legacy_components(legacy)[k]),
        ) && component_retag(
            *build,
            legacy_components(legacy)[k],
            old(repo).tags()[legacy],
            repo.tags()[crate::spk_storage::path_join(legacy, legacy_components(legacy)[k])],
        ) by {
            assert(component_retag(*build, legacy_components(legacy)[k], resolved, tags@[k]));
            assert(repo.tags().contains_key(tags@[k].spec@));
        }
        assert forall|p: Seq<char>| #[trigger] repo.tags().contains_key(p) implies (start.contains_key(p)
            && repo.tags()[p] == start[p]) || exists|k: int|
            0 <= k < legacy_components(legacy).len() && p == crate::spk_storage::path_join(
                legacy,
                legacy_components(legacy)[k],
            ) by {
            if !(start.contains_key(p) && repo.tags()[p] == start[p]) {
                let k = choose|k: int| 0 <= k < i && p == tags@[k].spec@;
                assert(component_retag(*build, legacy_components(legacy)[k], resolved, tags@[k]));
            }
        }
    }
    Ok(())
}

/// A listing entry that stands for a component tag: not a folder, and a
/// component's name.
pub open spec fn component_entry(name: Seq<char>) -> bool {
    !(name.len() > 0 && name.last() == '/') && (crate::ident::parse_component(name) is Some
        || crate::ident::is_component_name(name))
}

/// The tag at `path` is a build's only tag: the repository has it, and no
/// component tag below it.
pub open spec fn legacy_only(tags: Map<Seq<char>, Tag>, path: Seq<char>) -> bool {
    &&& tags.contains_key(path)
    &&& forall|n: Seq<char>| #[trigger] crate::tag_paths::listing(tags.dom(), path).contains(n) ==> !component_entry(n)
}

/// The folder of the builds of version `v` of package `p`.
pub open spec fn build_folder(p: Seq<char>, v: Seq<char>) -> Seq<char> {
    crate::spk_storage::path_join("spk/pkg"@, crate::text::replace_all(p + seq!['/'] + v, "+"@, ".."@))
}

/// The tag path of build `b` of version `v` of package `p`.
pub open spec fn build_tag(p: Seq<char>, v: Seq<char>, b: Seq<char>) -> Seq<char> {
    crate::spk_storage::path_join(
        crate::spk_storage::path_join("spk"@, "pkg"@),
        crate::text::replace_all(p + seq!['/'] + v + seq!['/'] + b, "+"@, ".."@),
    )
}

/// The listings show build `b` of version `v` of package `p`: the package
/// as a folder of `spk/spec`, the version as an entry of the package's
/// folder there, the build as an entry of the version's folder of builds.
pub open spec fn listed_build(tags: Map<Seq<char>, Tag>, p: Seq<char>, v: Seq<char>, b: Seq<char>) -> bool {
    &&& crate::tag_paths::listing(tags.dom(), "spk/spec"@).contains(p.push('/'))
    &&& exists|e: Seq<char>|
        crate::tag_paths::listing(tags.dom(), crate::spk_storage::path_join("spk/spec"@, p)).contains(e) && v
            == crate::spk_storage::version_text(e)
    &&& exists|e: Seq<char>|
        crate::tag_paths::listing(tags.dom(), build_folder(p, v)).contains(e) && b
            == crate::spk_storage::build_entry_text(e)
}

/// An upgrade owes this build its component tags: the listings show it, and
/// it has only its legacy tag.
pub open spec fn owed(tags: Map<Seq<char>, Tag>, p: Seq<char>, v: Seq<char>, b: Seq<char>) -> bool {
    listed_build(tags, p, v, b) && legacy_only(tags, build_tag(p, v, b))
}

/// The tag path of the `k`th component of the legacy build tagged at `t`.
pub open spec fn component_path(t: Seq<char>, k: int) -> Seq<char> {
    crate::spk_storage::path_join(t, legacy_components(t)[k])
}

/// `cur` holds the component tags of the legacy build tagged at `t`, each
/// a copy of the tag that `old` holds at `t`.
pub open spec fn retagged(old: Map<Seq<char>, Tag>, cur: Map<Seq<char>, Tag>, t: Seq<char>) -> bool {
    forall|k: int|
        0 <= k < legacy_components(t).len() ==> cur.contains_key(#[trigger] component_path(t, k))
            && cur[component_path(t, k)].spec@ == component_path(t, k) && copies_origin(
            cur[component_path(t, k)],
            old[t],
        )
}

/// The shape of a build's tag path: four `/`, and a segment at its end.
pub open spec fn is_build_path(t: Seq<char>) -> bool {
    crate::tag_paths::slash_count(t) == 4 && t.len() > 0 && t.last() != '/'
}

/// `p` is the path of a component tag that `cur` holds for the legacy build
/// that `old` tags at `t`, and `cur` holds all of that build's component tags.
pub open spec fn retag_at(old: Map<Seq<char>, Tag>, cur: Map<Seq<char>, Tag>, t: Seq<char>, k: int, p: Seq<char>) -> bool {
    &&& is_build_path(t)
    &&& old.contains_key(t)
    &&& retagged(old, cur, t)
    &&& 0 <= k < legacy_components(t).len()
    &&& p == component_path(t, k)
}

/// `cur` holds what `old` held, and each tag that it holds anew or changed is
/// one of the component tags of a legacy build of `old`, all of which it
/// holds.
pub open spec fn only_retags_added(old: Map<Seq<char>, Tag>, cur: Map<Seq<char>, Tag>) -> bool {
    &&& old.dom().subset_of(cur.dom())
    &&& forall|p: Seq<char>|
        #[trigger] cur.contains_key(p) ==> (old.contains_key(p) && cur[p] == old[p]) || exists|
            t: Seq<char>,
            k: int,
        | retag_at(old, cur, t, k, p)
}

/// `after` is `before` with the component tags of the legacy build tagged
/// at `t` added, each a copy of the tag that `before` holds at `t`.
pub open spec fn retag_step(before: Map<Seq<char>, Tag>, after: Map<Seq<char>, Tag>, t: Seq<char>) -> bool {
    &&& before.contains_key(t)
    &&& before.dom().subset_of(after.dom())
    &&& forall|k: int|
        0 <= k < legacy_components(t).len() ==> after.contains_key(#[trigger] component_path(t, k))
            && after[component_path(t, k)].spec@ == component_path(t, k) && copies_origin(
            after[component_path(t, k)],
            before[t],
        )
    &&& forall|p: Seq<char>|
        #[trigger] after.contains_key(p) ==> (before.contains_key(p) && after[p] == before[p])
            || exists|k: int| 0 <= k < legacy_components(t).len() && p == component_path(t, k)
}

proof fn lemma_components_are_segments(t: Seq<char>, k: int)
    requires
        0 <= k < legacy_components(t).len(),
    ensures
        crate::tag_paths::is_segment(legacy_components(t)[k]),
        legacy_components(t)[k][0] != '/',
{
    reveal_strlit("src");
    reveal_strlit("build");
    reveal_strlit("run");
}

/// A component path is its build's path, `/`, and the component's name,
/// with five `/`.
proof fn lemma_component_path(t: Seq<char>, k: int)
    requires
        is_build_path(t),
        0 <= k < legacy_components(t).len(),
    ensures
        component_path(t, k) == t.push('/') + legacy_components(t)[k],
        crate::tag_paths::slash_count(component_path(t, k)) == 5,
{
    lemma_components_are_segments(t, k);
    crate::tag_paths::lemma_path_join_segment(t, legacy_components(t)[k]);
    crate::tag_paths::lemma_no_slash_count(legacy_components(t)[k]);
    crate::tag_paths::lemma_slash_count_add(t.push('/'), legacy_components(t)[k]);
    assert(t.push('/') =~= t + seq!['/']);
    crate::tag_paths::lemma_slash_count_add(t, seq!['/']);
    assert(crate::tag_paths::slash_count(seq!['/']) == 1) by {
        reveal_with_fuel(crate::tag_paths::slash_count, 2);
    }
}

/// The tag that `cur` holds at a build's path is the one that `old` held.
proof fn lemma_build_path_unchanged(old: Map<Seq<char>, Tag>, cur: Map<Seq<char>, Tag>, t: Seq<char>)
    requires
        only_retags_added(old, cur),
        is_build_path(t),
        cur.contains_key(t),
    ensures
        old.contains_key(t),
        cur[t] == old[t],
{
    if !(old.contains_key(t) && cur[t] == old[t]) {
        let (t1, k) = choose|t1: Seq<char>, k: int| retag_at(old, cur, t1, k, t);
        lemma_component_path(t1, k);
    }
}

/// Two component paths of build paths are the same only for the same build
/// and component.
proof fn lemma_component_paths_apart(t1: Seq<char>, k1: int, t2: Seq<char>, k2: int)
    requires
        is_build_path(t1),
        is_build_path(t2),
        0 <= k1 < legacy_components(t1).len(),
        0 <= k2 < legacy_components(t2).len(),
        component_path(t1, k1) == component_path(t2, k2),
    ensures
        t1 == t2,
        legacy_components(t1)[k1] == legacy_components(t2)[k2],
{
    lemma_component_path(t1, k1);
    lemma_component_path(t2, k2);
    lemma_components_are_segments(t1, k1);
    lemma_components_are_segments(t2, k2);
    crate::tag_paths::lemma_last_segment(t1, legacy_components(t1)[k1], t2, legacy_components(t2)[k2]);
}

/// Retagging a build keeps the retagging of every build.
proof fn lemma_retag_keeps(
    old: Map<Seq<char>, Tag>,
    before: Map<Seq<char>, Tag>,
    after: Map<Seq<char>, Tag>,
    t: Seq<char>,
    t1: Seq<char>,
)
    requires
        only_retags_added(old, before),
        is_build_path(t),
        is_build_path(t1),
        retag_step(before, after, t),
        retagged(old, before, t1),
    ensures
        retagged(old, after, t1),
{
    lemma_build_path_unchanged(old, before, t);
    assert forall|k1: int| 0 <= k1 < legacy_components(t1).len() implies after.contains_key(
        #[trigger] component_path(t1, k1),
    ) && after[component_path(t1, k1)].spec@ == component_path(t1, k1) && copies_origin(
        after[component_path(t1, k1)],
        old[t1],
    ) by {
        let p = component_path(t1, k1);
        assert(before.contains_key(p));
        if !(before.contains_key(p) && after[p] == before[p]) {
            let k = choose|k: int| 0 <= k < legacy_components(t).len() && p == component_path(t, k);
            lemma_component_paths_apart(t1, k1, t, k);
        }
    }
}

/// Retagging a legacy build of a build path keeps `only_retags_added` and
/// leaves the build retagged.
proof fn lemma_retag_step(
    old: Map<Seq<char>, Tag>,
    before: Map<Seq<char>, Tag>,
    after: Map<Seq<char>, Tag>,
    t: Seq<char>,
)
    requires
        only_retags_added(old, before),
        is_build_path(t),
        retag_step(before, after, t),
    ensures
        only_retags_added(old, after),
        retagged(old, after, t),
        forall|t1: Seq<char>|
            is_build_path(t1) && retagged(old, before, t1) ==> #[trigger] retagged(old, after, t1),
{
    lemma_build_path_unchanged(old, before, t);
    assert forall|t1: Seq<char>|
        is_build_path(t1) && retagged(old, before, t1) implies #[trigger] retagged(old, after, t1) by {
        lemma_retag_keeps(old, before, after, t, t1);
    }
    assert(retagged(old, after, t));
    assert forall|p: Seq<char>| #[trigger] after.contains_key(p) implies (old.contains_key(p)
        && after[p] == old[p]) || exists|t2: Seq<char>, k: int| retag_at(old, after, t2, k, p) by {
        if before.contains_key(p) && after[p] == before[p] {
            if !(old.contains_key(p) && before[p] == old[p]) {
                let (t2, k) = choose|t2: Seq<char>, k: int| retag_at(old, before, t2, k, p);
                lemma_retag_keeps(old, before, after, t, t2);
                assert(retag_at(old, after, t2, k, p));
            }
        } else {
            let k = choose|k: int| 0 <= k < legacy_components(t).len() && p == component_path(t, k);
            assert(retag_at(old, after, t, k, p));
        }
    }
}

/// A build that had only its legacy tag, and that now shows a component
/// tag, was retagged in full.
proof fn lemma_retag_found(old: Map<Seq<char>, Tag>, cur: Map<Seq<char>, Tag>, t: Seq<char>, n: Seq<char>)
    requires
        only_retags_added(old, cur),
        legacy_only(old, t),
        is_build_path(t),
        crate::tag_paths::listing(cur.dom(), t).contains(n),
        component_entry(n),
    ensures
        retagged(old, cur, t),
{
    let p = choose|p: Seq<char>| cur.dom().contains(p) && #[trigger] crate::tag_paths::entry_of(p, t, n);
    assert(p == t.push('/') + n);
    if old.contains_key(p) {
        assert(crate::tag_paths::listing(old.dom(), t).contains(n));
    }
    let (t1, k) = choose|t1: Seq<char>, k: int| retag_at(old, cur, t1, k, p);
    lemma_component_path(t1, k);
    lemma_components_are_segments(t1, k);
    crate::tag_paths::lemma_last_segment(t, n, t1, legacy_components(t1)[k]);
}

/// The shape of a path made of segments.
proof fn lemma_build_tag_shape(p: Seq<char>, v: Seq<char>, b: Seq<char>)
    requires
        crate::tag_paths::is_segment(p),
        crate::tag_paths::is_segment(v),
        crate::tag_paths::is_segment(b),
    ensures
        is_build_path(build_tag(p, v, b)),
{
    reveal_strlit("spk");
    reveal_strlit("pkg");
    reveal_strlit("+");
    reveal_strlit("..");
    let s = p + seq!['/'] + v + seq!['/'] + b;
    crate::tag_paths::lemma_no_slash_count(p);
    crate::tag_paths::lemma_no_slash_count(v);
    crate::tag_paths::lemma_no_slash_count(b);
    assert(crate::tag_paths::slash_count(seq!['/']) == 1) by {
        reveal_with_fuel(crate::tag_paths::slash_count, 2);
    }
    crate::tag_paths::lemma_slash_count_add(p, seq!['/']);
    crate::tag_paths::lemma_slash_count_add(p + seq!['/'], v);
    crate::tag_paths::lemma_slash_count_add(p + seq!['/'] + v, seq!['/']);
    crate::tag_paths::lemma_slash_count_add(p + seq!['/'] + v + seq!['/'], b);
    assert(s[0] == p[0]);
    assert(s.last() == b.last());
    crate::tag_paths::lemma_replace_all_shape(s, "+"@, ".."@);
    let e = crate::text::replace_all(s, "+"@, ".."@);
    let base = crate::spk_storage::path_join("spk"@, "pkg"@);
    crate::tag_paths::lemma_path_join_segment("spk"@, "pkg"@);
    assert(base == seq!['s', 'p', 'k', '/', 'p', 'k', 'g']);
    assert(crate::tag_paths::slash_count(base) == 1) by {
        reveal_with_fuel(crate::tag_paths::slash_count, 8);
    }
    crate::tag_paths::lemma_path_join_segment(base, e);
    crate::tag_paths::lemma_slash_count_add(base.push('/'), e);
    assert(base.push('/') =~= base + seq!['/']);
    crate::tag_paths::lemma_slash_count_add(base, seq!['/']);
}

/// The path to a listing's entry is made of segments: a folder entry is a
/// segment and `/`, a tag entry a segment.
proof fn lemma_entry_shape(paths: Set<Seq<char>>, dir: Seq<char>, e: Seq<char>)
    requires
        crate::tag_paths::listing(paths, dir).contains(e),
    ensures
        crate::tag_paths::is_segment(crate::spk_storage::build_entry_text(e)),
        crate::tag_paths::is_segment(crate::spk_storage::version_text(e)),
        e.len() > 0 && e.last() == '/' ==> crate::tag_paths::is_segment(e.drop_last()),
{
    let p = choose|p: Seq<char>| paths.contains(p) && #[trigger] crate::tag_paths::entry_of(p, dir, e);
    reveal_strlit("..");
    reveal_strlit("+");
    if e.len() > 0 && e.last() == '/' {
        if crate::tag_paths::is_segment(e) {
            assert(e[e.len() - 1] == '/');
        }
    }
    let stripped = crate::spk_storage::build_entry_text(e);
    assert(crate::tag_paths::is_segment(stripped));
    crate::tag_paths::lemma_replace_all_shape(stripped, ".."@, "+"@);
    crate::tag_paths::lemma_no_slash_count(stripped);
    crate::tag_paths::lemma_no_slash_count(crate::text::replace_all(stripped, ".."@, "+"@));
}

/// Every tag of a listing is in the listing of more tags.
proof fn lemma_listing_grows(a: Set<Seq<char>>, b: Set<Seq<char>>, dir: Seq<char>, e: Seq<char>)
    requires
        a.subset_of(b),
        crate::tag_paths::listing(a, dir).contains(e),
    ensures
        crate::tag_paths::listing(b, dir).contains(e),
{
    let p = choose|p: Seq<char>| a.contains(p) && #[trigger] crate::tag_paths::entry_of(p, dir, e);
    assert(b.contains(p));
}

/// A listing of a build's tag shows a component tag exactly where the
/// component tags looked up from it are some.
proof fn lemma_listed_components_empty(tag_path: Seq<char>, es: Seq<Seq<char>>)
    ensures
        crate::spk_storage::listed_components(tag_path, es).len() == 0 <==> forall|i: int|
            0 <= i < es.len() ==> !component_entry(#[trigger] es[i]),
    decreases es.len(),
{
    if es.len() > 0 {
        let rest = es.drop_last();
        lemma_listed_components_empty(tag_path, rest);
        let lr = crate::spk_storage::listed_components(tag_path, rest);
        if crate::spk_storage::listed_components(tag_path, es).len() == 0 {
            assert(lr.len() == 0);
            assert forall|i: int| 0 <= i < es.len() implies !component_entry(#[trigger] es[i]) by {
                if i < es.len() - 1 {
                    assert(es[i] == rest[i]);
                } else {
                    assert(!crate::spk_storage::names_component(lr, es[i]));
                }
            }
        } else {
            if lr.len() == 0 {
                assert(component_entry(es[es.len() - 1]));
            } else {
                let i = choose|i: int| 0 <= i < rest.len() && component_entry(#[trigger] rest[i]);
                assert(es[i] == rest[i]);
            }
        }
    }
}

/// Looks a build up and gives it its component tags: a build whose tag
/// listing shows a component tag is left as it is; a build with only its
/// legacy tag gets a copy of that tag for each of its components.
fn retag_build<R: SpkRepository>(repo: &mut R, build: &Ident) -> (r: Result<(), SpkError>)
    requires
        build.build is Some,
    ensures
        final(repo).layout_version() == old(repo).layout_version(),
        only_copies_added(old(repo).tags(), old(repo).tags(), final(repo).tags()),
        r is Ok ==> ((exists|n: Seq<char>|
            crate::tag_paths::listing(
                old(repo).tags().dom(),
                crate::spk_storage::package_tag(*build),
            ).contains(n) && component_entry(n)) && final(repo).tags() == old(repo).tags()) || (
        legacy_only(old(repo).tags(), crate::spk_storage::package_tag(*build)) && retag_step(
            old(repo).tags(),
            final(repo).tags(),
            crate::spk_storage::package_tag(*build),
        )),
{
    let tag_path = build_package_tag(build)?;
    let entries = storage(repo.ls_tags(tag_path.as_str()))?;
    let has_legacy = repo.has_tag(tag_path.as_str());
    let ghost t = tag_path@;
    let ghost es = crate::spk_storage::texts(entries@);
    let stored = lookup_package(build, &entries, has_legacy)?;
    proof {
        lemma_listed_components_empty(t, es);
        assert forall|n: Seq<char>| es.to_set().contains(n) <==> es.contains(n) by {}
    }
    let ghost before = repo.tags();
    let ghost stored_copy = stored;
    let res = retag_stored_build(repo, build, stored);
    proof {
        if res is Ok {
            match stored_copy {
                StoredPackage::WithComponents(_) => {
                    let i = choose|i: int| 0 <= i < es.len() && component_entry(#[trigger] es[i]);
                    assert(es.contains(es[i]));
                    assert(crate::tag_paths::listing(before.dom(), t).contains(es[i]));
                },
                StoredPackage::WithoutComponents(_) => {
                    assert forall|n: Seq<char>| #[trigger] crate::tag_paths::listing(
                        before.dom(),
                        t,
                    ).contains(n) implies !component_entry(n) by {
                        assert(es.to_set().contains(n));
                        let i = choose|i: int| 0 <= i < es.len() && es[i] == n;
                    }
                    assert forall|k: int|
                        0 <= k < legacy_components(t).len() implies repo.tags().contains_key(
                        #[trigger] component_path(t, k),
                    ) && repo.tags()[component_path(t, k)].spec@ == component_path(t, k)
                        && copies_origin(repo.tags()[component_path(t, k)], before[t]) by {
                        assert(component_path(t, k) == crate::spk_storage::path_join(
                            t,
                            legacy_components(t)[k],
                        ));
                    }
                    assert forall|p: Seq<char>| #[trigger] repo.tags().contains_key(p) implies (
                    before.contains_key(p) && repo.tags()[p] == before[p]) || exists|k: int|
                        0 <= k < legacy_components(t).len() && p == component_path(t, k) by {
                        if !(before.contains_key(p) && repo.tags()[p] == before[p]) {
                            let k = choose|k: int|
                                0 <= k < legacy_components(t).len() && p
                                    == crate::spk_storage::path_join(t, legacy_components(t)[k]);
                            assert(p == component_path(t, k));
                        }
                    }
                    assert forall|p: Seq<char>| before.dom().contains(p) implies repo.tags().dom().contains(p) by {
                        assert(before.contains_key(p));
                    }
                },
            }
        }
    }
    res
}

/// A tag map that only gained retags holds only copies of the old tags.
proof fn lemma_retags_are_copies(old: Map<Seq<char>, Tag>, cur: Map<Seq<char>, Tag>)
    requires
        only_retags_added(old, cur),
    ensures
        only_copies_added(old, old, cur),
{
    assert forall|p: Seq<char>| #[trigger] cur.contains_key(p) implies (old.contains_key(p) && cur[p]
        == old[p]) || (exists|q: Seq<char>| old.contains_key(q) && copies_origin(cur[p], old[q])) by {
        if !(old.contains_key(p) && cur[p] == old[p]) {
            let (t, k) = choose|t: Seq<char>, k: int| retag_at(old, cur, t, k, p);
            assert(copies_origin(cur[component_path(t, k)], old[t]));
        }
    }
}

/// Each name of a folder comes from a folder entry of the listing.
proof fn lemma_folder_names_from(es: Seq<Seq<char>>, j: int)
    requires
        0 <= j < crate::spk_storage::folder_names(es).len(),
    ensures
        exists|i: int|
            0 <= i < es.len() && es[i].len() > 0 && es[i].last() == '/'
                && crate::spk_storage::folder_names(es)[j] == es[i].drop_last(),
    decreases es.len(),
{
    let rest = es.drop_last();
    let fr = crate::spk_storage::folder_names(rest);
    if j < fr.len() {
        lemma_folder_names_from(rest, j);
        let i = choose|i: int|
            0 <= i < rest.len() && rest[i].len() > 0 && rest[i].last() == '/' && fr[j]
                == rest[i].drop_last();
        assert(es[i] == rest[i]);
    } else {
        let i = es.len() - 1;
        assert(es[i] == es.last());
    }
}

/// Each folder entry of a listing gives its name, without the `/`.
proof fn lemma_folder_names_contains(es: Seq<Seq<char>>, i: int)
    requires
        0 <= i < es.len(),
        es[i].len() > 0,
        es[i].last() == '/',
    ensures
        crate::spk_storage::folder_names(es).contains(es[i].drop_last()),
    decreases es.len(),
{
    let rest = es.drop_last();
    if i < es.len() - 1 {
        assert(rest[i] == es[i]);
        lemma_folder_names_contains(rest, i);
        let j = choose|j: int|
            0 <= j < crate::spk_storage::folder_names(rest).len()
                && crate::spk_storage::folder_names(rest)[j] == es[i].drop_last();
        if es.last().len() > 0 && es.last().last() == '/' {
            assert(crate::spk_storage::folder_names(es)[j] == es[i].drop_last());
        } else {
            assert(crate::spk_storage::folder_names(es)[j] == es[i].drop_last());
        }
    } else {
        let f = crate::spk_storage::folder_names(es);
        assert(f[f.len() - 1] == es[i].drop_last());
    }
}

/// A build that the listings show is tagged at a build path.
proof fn lemma_listed_build_shape(tags: Map<Seq<char>, Tag>, p: Seq<char>, v: Seq<char>, b: Seq<char>)
    requires
        listed_build(tags, p, v, b),
    ensures
        is_build_path(build_tag(p, v, b)),
{
    lemma_entry_shape(tags.dom(), "spk/spec"@, p.push('/'));
    assert(p.push('/').drop_last() =~= p);
    let ev = choose|e: Seq<char>|
        crate::tag_paths::listing(tags.dom(), crate::spk_storage::path_join("spk/spec"@, p)).contains(e)
            && v == crate::spk_storage::version_text(e);
    lemma_entry_shape(tags.dom(), crate::spk_storage::path_join("spk/spec"@, p), ev);
    let eb = choose|e: Seq<char>|
        crate::tag_paths::listing(tags.dom(), build_folder(p, v)).contains(e) && b
            == crate::spk_storage::build_entry_text(e);
    lemma_entry_shape(tags.dom(), build_folder(p, v), eb);
    lemma_build_tag_shape(p, v, b);
}

/// Upgrades the repository to the layout with component tags: a repository
/// whose layout is later than this library's is left as it is, with
/// "Nothing to do."; else every build that the listings show under each
/// package and version and that has only its legacy tag gets a tag per
/// component, copied from the legacy tag, and the layout version is then
/// recorded.
pub fn upgrade<R: SpkRepository>(repo: &mut R) -> (r: Result<String, SpkError>)
    ensures
        r matches Ok(s) ==> (s@ == "Nothing to do."@ && version_after(
            old(repo).layout_version(),
            target_version(),
        ) && *final(repo) == *old(repo)) || (s@ == "All packages were retagged for components"@
            && !version_after(old(repo).layout_version(), target_version()) && final(repo).layout_version() == target_version()),
        r matches Ok(s) ==> s@ == "All packages were retagged for components"@ ==> only_retags_added(
            old(repo).tags(),
            final(repo).tags(),
        ) && forall|p: Seq<char>, v: Seq<char>, b: Seq<char>|
            #[trigger] owed(old(repo).tags(), p, v, b) ==> retagged(
                old(repo).tags(),
                final(repo).tags(),
                build_tag(p, v, b),
            ),
        r is Err ==> final(repo).layout_version() == old(repo).layout_version(),
        only_copies_added(old(repo).tags(), old(repo).tags(), final(repo).tags()),
{
    proof {
        reveal_strlit("Nothing to do.");
        reveal_strlit("All packages were retagged for components");
        assert("Nothing to do."@[0] != "All packages were retagged for components"@[0]);
    }
    let version = storage(repo.read_layout_version())?;
    let target = RepoVersion::current();
    if version.is_after(&target) {
        return Ok("Nothing to do.".to_owned());
    }
    let ghost start = repo.tags();
    let listed = storage(repo.ls_tags("spk/spec"))?;
    let packages = list_packages(&listed);
    proof {
        assert(only_retags_added(start, start));
    }
    let mut pi: usize = 0;
    while pi < packages.len()
        invariant
            pi <= packages@.len(),
            start == old(repo).tags(),
            repo.layout_version() == old(repo).layout_version(),
            !version_after(old(repo).layout_version(), target_version()),
            only_retags_added(start, repo.tags()),
            crate::spk_storage::texts(packages@) == crate::spk_storage::folder_names(
                crate::spk_storage::texts(listed@),
            ),
            crate::spk_storage::texts(listed@).to_set() == crate::tag_paths::listing(
                start.dom(),
                "spk/spec"@,
            ),
            forall|p: Seq<char>, v: Seq<char>, b: Seq<char>|
                #[trigger] owed(start, p, v, b) && (exists|k: int|
                    0 <= k < pi && packages@[k]@ == p) ==> retagged(
                    start,
                    repo.tags(),
                    build_tag(p, v, b),
                ),
        decreases packages.len() - pi,
    {
        let ghost pk = packages[pi as int]@;
        proof {
            assert(crate::spk_storage::texts(packages@)[pi as int] == pk);
            let es = crate::spk_storage::texts(listed@);
            lemma_folder_names_from(es, pi as int);
            let i = choose|i: int|
                0 <= i < es.len() && es[i].len() > 0 && es[i].last() == '/'
                    && crate::spk_storage::folder_names(es)[pi as int] == es[i].drop_last();
            assert(es.contains(es[i]));
            assert(es.to_set().contains(es[i]));
            lemma_entry_shape(start.dom(), "spk/spec"@, es[i]);
        }
        let spec_path = join_path("spk/spec", packages[pi].as_str());
        let ghost sv = repo.tags();
        let ventries = match storage(repo.ls_tags(spec_path.as_str())) {
            Ok(e) => e,
            Err(e) => {
                proof {
                    lemma_retags_are_copies(start, repo.tags());
                }
                return Err(e);
            },
        };
        let versions = version_texts(&ventries);
        proof {
            assert forall|e: Seq<char>| #[trigger]
                crate::tag_paths::listing(start.dom(), spec_path@).contains(e) implies crate::spk_storage::texts(
                ventries@,
            ).contains(e) by {
                lemma_listing_grows(start.dom(), sv.dom(), spec_path@, e);
                assert(crate::spk_storage::texts(ventries@).to_set().contains(e));
            }
        }
        let mut vi: usize = 0;
        while vi < versions.len()
            invariant
                vi <= versions@.len(),
                pi < packages@.len(),
                pk == packages@[pi as int]@,
                crate::tag_paths::is_segment(pk),
                spec_path@ == crate::spk_storage::path_join("spk/spec"@, pk),
                start == old(repo).tags(),
                repo.layout_version() == old(repo).layout_version(),
                !version_after(old(repo).layout_version(), target_version()),
                only_retags_added(start, repo.tags()),
                versions@.len() == ventries@.len(),
                forall|k: int|
                    0 <= k < versions@.len() ==> #[trigger] versions@[k]@
                        == crate::spk_storage::version_text(ventries@[k]@),
                forall|e: Seq<char>| #[trigger]
                    crate::tag_paths::listing(start.dom(), spec_path@).contains(e)
                        ==> crate::spk_storage::texts(ventries@).contains(e),
                forall|e: Seq<char>| #[trigger]
                    crate::spk_storage::texts(ventries@).contains(e) ==> crate::tag_paths::listing(
                        sv.dom(),
                        spec_path@,
                    ).contains(e),
                start.dom().subset_of(sv.dom()),
                forall|p: Seq<char>, v: Seq<char>, b: Seq<char>|
                    #[trigger] owed(start, p, v, b) && (exists|k: int|
                        0 <= k < pi && packages@[k]@ == p) ==> retagged(
                        start,
                        repo.tags(),
                        build_tag(p, v, b),
                    ),
                forall|v: Seq<char>, b: Seq<char>|
                    #[trigger] owed(start, pk, v, b) && (exists|k: int|
                        0 <= k < vi && versions@[k]@ == v) ==> retagged(
                        start,
                        repo.tags(),
                        build_tag(pk, v, b),
                    ),
            decreases versions.len() - vi,
        {
            let ghost vk = versions[vi as int]@;
            proof {
                assert(crate::spk_storage::texts(ventries@).contains(ventries@[vi as int]@)) by {
                    assert(crate::spk_storage::texts(ventries@)[vi as int] == ventries@[vi as int]@);
                }
                lemma_entry_shape(sv.dom(), spec_path@, ventries@[vi as int]@);
            }
            let pkg = Ident { name: packages[pi].clone(), version: versions[vi].clone(), build: None };
            let folder = join_path("spk/pkg", crate::spk_storage::encode_ident(&pkg).as_str());
            let ghost sb = repo.tags();
            let bentries = match storage(repo.ls_tags(folder.as_str())) {
                Ok(e) => e,
                Err(e) => {
                    proof {
                        lemma_retags_are_copies(start, repo.tags());
                    }
                    return Err(e);
                },
            };
            let builds = build_texts(&bentries);
            proof {
                assert(folder@ == build_folder(pk, vk));
                assert forall|e: Seq<char>| #[trigger]
                    crate::tag_paths::listing(start.dom(), folder@).contains(e) implies crate::spk_storage::texts(
                    bentries@,
                ).contains(e) by {
                    lemma_listing_grows(start.dom(), sb.dom(), folder@, e);
                    assert(crate::spk_storage::texts(bentries@).to_set().contains(e));
                }
            }
            let mut bi: usize = 0;
            while bi < builds.len()
                invariant
                    bi <= builds@.len(),
                    vi < versions@.len(),
                    pi < packages@.len(),
                    pk == packages@[pi as int]@,
                    vk == versions@[vi as int]@,
                    crate::tag_paths::is_segment(pk),
                    crate::tag_paths::is_segment(vk),
                    pkg.name@ == pk,
                    pkg.version@ == vk,
                    folder@ == build_folder(pk, vk),
                    start == old(repo).tags(),
                    repo.layout_version() == old(repo).layout_version(),
                    !version_after(old(repo).layout_version(), target_version()),
                    only_retags_added(start, repo.tags()),
                    builds@.len() == bentries@.len(),
                    forall|k: int|
                        0 <= k < builds@.len() ==> #[trigger] builds@[k]@
                            == crate::spk_storage::build_entry_text(bentries@[k]@),
                    forall|e: Seq<char>| #[trigger]
                        crate::tag_paths::listing(start.dom(), folder@).contains(e)
                            ==> crate::spk_storage::texts(bentries@).contains(e),
                    forall|e: Seq<char>| #[trigger]
                        crate::spk_storage::texts(bentries@).contains(e)
                            ==> crate::tag_paths::listing(sb.dom(), folder@).contains(e),
                    forall|p: Seq<char>, v: Seq<char>, b: Seq<char>|
                        #[trigger] owed(start, p, v, b) && (exists|k: int|
                            0 <= k < pi && packages@[k]@ == p) ==> retagged(
                            start,
                            repo.tags(),
                            build_tag(p, v, b),
                        ),
                    forall|v: Seq<char>, b: Seq<char>|
                        #[trigger] owed(start, pk, v, b) && (exists|k: int|
                            0 <= k < vi && versions@[k]@ == v) ==> retagged(
                            start,
                            repo.tags(),
                            build_tag(pk, v, b),
                        ),
                    forall|b: Seq<char>|
                        #[trigger] owed(start, pk, vk, b) && (exists|k: int|
                            0 <= k < bi && builds@[k]@ == b) ==> retagged(
                            start,
                            repo.tags(),
                            build_tag(pk, vk, b),
                        ),
                decreases builds.len() - bi,
            {
                let ghost bk = builds[bi as int]@;
                proof {
                    assert(crate::spk_storage::texts(bentries@).contains(bentries@[bi as int]@)) by {
                        assert(crate::spk_storage::texts(bentries@)[bi as int] == bentries@[bi as int]@);
                    }
                    lemma_entry_shape(sb.dom(), folder@, bentries@[bi as int]@);
                    lemma_build_tag_shape(pk, vk, bk);
                }
                let build = pkg.with_build(Some(parse_build(builds[bi].as_str())));
                let ghost t = build_tag(pk, vk, bk);
                let ghost before = repo.tags();
                proof {
                    assert(crate::spk_storage::package_tag(build) == t);
                }
                match retag_build(repo, &build) {
                    Ok(()) => {},
                    Err(e) => {
                        proof {
                            lemma_retags_are_copies(start, before);
                            lemma_copies_compose(start, before, repo.tags());
                        }
                        return Err(e);
                    },
                }
                proof {
                    lemma_after_retag(start, before, repo.tags(), t, pk, vk, bk);
                    assert forall|p: Seq<char>, v: Seq<char>, b: Seq<char>|
                        #[trigger] owed(start, p, v, b) && (exists|k: int|
                            0 <= k < pi && packages@[k]@ == p) implies retagged(
                        start,
                        repo.tags(),
                        build_tag(p, v, b),
                    ) by {
                        lemma_listed_build_shape(start, p, v, b);
                    }
                    assert forall|v: Seq<char>, b: Seq<char>|
                        #[trigger] owed(start, pk, v, b) && (exists|k: int|
                            0 <= k < vi && versions@[k]@ == v) implies retagged(
                        start,
                        repo.tags(),
                        build_tag(pk, v, b),
                    ) by {
                        lemma_listed_build_shape(start, pk, v, b);
                    }
                    assert forall|b: Seq<char>|
                        #[trigger] owed(start, pk, vk, b) && (exists|k: int|
                            0 <= k < bi + 1 && builds@[k]@ == b) implies retagged(
                        start,
                        repo.tags(),
                        build_tag(pk, vk, b),
                    ) by {
                        lemma_listed_build_shape(start, pk, vk, b);
                        if b != bk {
                            let k = choose|k: int| 0 <= k < bi + 1 && builds@[k]@ == b;
                            assert(k < bi);
                        }
                    }
                }
                bi = bi + 1;
            }
            proof {
                assert forall|b: Seq<char>| #[trigger] owed(start, pk, vk, b) implies retagged(
                    start,
                    repo.tags(),
                    build_tag(pk, vk, b),
                ) by {
                    let e = choose|e: Seq<char>|
                        crate::tag_paths::listing(start.dom(), build_folder(pk, vk)).contains(e) && b
                            == crate::spk_storage::build_entry_text(e);
                    assert(crate::spk_storage::texts(bentries@).contains(e));
                    let k = choose|k: int|
                        0 <= k < crate::spk_storage::texts(bentries@).len()
                            && crate::spk_storage::texts(bentries@)[k] == e;
                    assert(builds@[k]@ == b);
                }
            }
            vi = vi + 1;
        }
        proof {
            assert forall|v: Seq<char>, b: Seq<char>| #[trigger] owed(start, pk, v, b) implies retagged(
                start,
                repo.tags(),
                build_tag(pk, v, b),
            ) by {
                let e = choose|e: Seq<char>|
                    crate::tag_paths::listing(start.dom(), crate::spk_storage::path_join("spk/spec"@, pk)).contains(e)
                        && v == crate::spk_storage::version_text(e);
                assert(crate::spk_storage::texts(ventries@).contains(e));
                let k = choose|k: int|
                    0 <= k < crate::spk_storage::texts(ventries@).len()
                        && crate::spk_storage::texts(ventries@)[k] == e;
                assert(versions@[k]@ == v);
            }
        }
        pi = pi + 1;
    }
    proof {
        assert forall|p: Seq<char>, v: Seq<char>, b: Seq<char>| #[trigger] owed(start, p, v, b) implies retagged(
            start,
            repo.tags(),
            build_tag(p, v, b),
        ) by {
            let es = crate::spk_storage::texts(listed@);
            assert(es.to_set().contains(p.push('/')));
            let i = choose|i: int| 0 <= i < es.len() && es[i] == p.push('/');
            assert(es[i].drop_last() =~= p);
            lemma_folder_names_contains(es, i);
            let k = choose|k: int|
                0 <= k < crate::spk_storage::folder_names(es).len()
                    && crate::spk_storage::folder_names(es)[k] == p;
            assert(packages@[k]@ == p);
        }
    }
    let ghost before = repo.tags();
    match storage(repo.write_layout_version(target)) {
        Ok(()) => {},
        Err(e) => {
            proof {
                lemma_retags_are_copies(start, repo.tags());
            }
            return Err(e);
        },
    }
    proof {
        lemma_retags_are_copies(start, repo.tags());
    }
    Ok("All packages were retagged for components".to_owned())
}

/// After a build was looked up and retagged, the tags only gained retags,
/// the builds retagged before stay retagged, and the build is retagged
/// where it was owed.
proof fn lemma_after_retag(
    start: Map<Seq<char>, Tag>,
    before: Map<Seq<char>, Tag>,
    after: Map<Seq<char>, Tag>,
    t: Seq<char>,
    pk: Seq<char>,
    vk: Seq<char>,
    bk: Seq<char>,
)
    requires
        only_retags_added(start, before),
        is_build_path(t),
        t == build_tag(pk, vk, bk),
        ((exists|n: Seq<char>| crate::tag_paths::listing(before.dom(), t).contains(n) && component_entry(n))
            && after == before) || (legacy_only(before, t) && retag_step(before, after, t)),
    ensures
        only_retags_added(start, after),
        forall|t1: Seq<char>|
            is_build_path(t1) && retagged(start, before, t1) ==> #[trigger] retagged(start, after, t1),
        owed(start, pk, vk, bk) ==> retagged(start, after, t),
{
    if legacy_only(before, t) && retag_step(before, after, t) {
        lemma_retag_step(start, before, after, t);
    } else {
        if owed(start, pk, vk, bk) {
            let n = choose|n: Seq<char>| crate::tag_paths::listing(before.dom(), t).contains(n) && component_entry(n);
            lemma_retag_found(start, before, t, n);
        }
    }
}

proof fn lemma_copies_compose(
    origin: Map<Seq<char>, Tag>,
    mid: Map<Seq<char>, Tag>,
    after: Map<Seq<char>, Tag>,
)
    requires
        only_copies_added(origin, origin, mid),
        only_copies_added(mid, mid, after),
    ensures
        only_copies_added(origin, origin, after),
{
    assert forall|p: Seq<char>| #[trigger] after.contains_key(p) implies (origin.contains_key(p)
        && after[p] == origin[p]) || (exists|q: Seq<char>|
        origin.contains_key(q) && copies_origin(after[p], origin[q])) by {
        if mid.contains_key(p) && after[p] == mid[p] {
            assert(mid.contains_key(p));
        } else {
            let q = choose|q: Seq<char>| mid.contains_key(q) && copies_origin(after[p], mid[q]);
            assert(mid.contains_key(q));
            if origin.contains_key(q) && mid[q] == origin[q] {
                assert(copies_origin(after[p], origin[q]));
            } else {
                let q2 = choose|q2: Seq<char>| origin.contains_key(q2) && copies_origin(mid[q], origin[q2]);
                assert(copies_origin(after[p], origin[q2]));
            }
        }
    }
}

} // verus!

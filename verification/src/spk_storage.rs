//! How spk packages are stored as spfs tags.
use vstd::prelude::*;

use crate::config::{config_address, Config, ConfigError, RemoteConfig, RemoteConfigView};
use crate::graph::Digest;
use crate::ident::{component_text, ident_text, Build, Component, Ident};
use crate::text::{drop_last_char, ends_with_char, replace_all, replace_str};
use crate::sync::StorageError;
use crate::tracking::TagSpec;

verus! {

/// The tag under which the repository's metadata is stored.
pub const REPO_METADATA_TAG: &'static str = "spk/repo";

/// The version of the repository layout that this library writes.
pub const REPO_VERSION: &'static str = "1.0.0";

/// What pushing `part` onto the relative path `base` gives
/// (`relative_path::RelativePathBuf::push`): a leading separator of `part`
/// is dropped, and a separator is put between the two unless `base` is
/// empty or already ends with one.
pub open spec fn path_join(base: Seq<char>, part: Seq<char>) -> Seq<char> {
    let other = if part.len() > 0 && part[0] == '/' {
        part.drop_first()
    } else {
        part
    };
    if base.len() > 0 && base.last() != '/' {
        base + seq!['/'] + other
    } else {
        base + other
    }
}

/// Joins a relative path with `relative_path::RelativePath::join`; the
/// contract claims that the result follows `path_join`, the rule of the
/// crate's `RelativePathBuf::push`.
#[verifier::external_body]
pub(crate) fn join_path(base: &str, part: &str) -> (r: String)
    ensures
        r@ == path_join(base@, part@),
{
    relative_path::RelativePath::new(base).join(part).into_string()
}

/// The spk tag text of an identifier: the `+` character is not valid in
/// spfs tags, so it is written as two dots (never valid in package names).
pub open spec fn encoded_ident(pkg: Ident) -> Seq<char> {
    replace_all(pkg.text(), "+"@, ".."@)
}

/// The tag path of a package's binary layer.
pub open spec fn package_tag(pkg: Ident) -> Seq<char> {
    path_join(path_join("spk"@, "pkg"@), encoded_ident(pkg))
}

/// The tag path of a package's spec.
pub open spec fn spec_tag(pkg: Ident) -> Seq<char> {
    path_join(path_join("spk"@, "spec"@), encoded_ident(pkg))
}

/// An error of the spk repository layer.
#[derive(Debug)]
pub enum SpkError {
    /// The package was not found in the repository
    PackageNotFound(Ident),
    /// The package's build does not allow the operation
    InvalidBuild { message: String },
    /// The version has already been published
    VersionExists(Ident),
    /// The package lacks a component that publishing needs
    MissingComponent { message: String },
    /// The underlying spfs repository failed
    Storage(StorageError),
}

pub(crate) fn encode_ident(pkg: &Ident) -> (s: String)
    ensures
        s@ == encoded_ident(*pkg),
{
    proof {
        reveal_strlit("+");
    }
    replace_str(pkg.to_string().as_str(), "+", "..")
}

/// Construct an spfs tag string to represent a binary package layer.
pub fn build_package_tag(pkg: &Ident) -> (r: Result<String, SpkError>)
    ensures
        pkg.build is None <==> r is Err,
        r matches Ok(t) ==> t@ == package_tag(*pkg),
        r matches Err(e) ==> e matches SpkError::InvalidBuild { message } && message@
            == "Package must have associated build digest"@,
{
    if pkg.build.is_none() {
        return Err(
            SpkError::InvalidBuild { message: "Package must have associated build digest".to_owned() },
        );
    }
    let tag = join_path("spk", "pkg");
    Ok(join_path(tag.as_str(), encode_ident(pkg).as_str()))
}

/// Construct an spfs tag string to represent a spec file blob.
pub fn build_spec_tag(pkg: &Ident) -> (t: String)
    ensures
        t@ == spec_tag(*pkg),
{
    let tag = join_path("spk", "spec");
    join_path(tag.as_str(), encode_ident(pkg).as_str())
}

/// The folder names among tag listing entries: the entries that end with
/// `/`, without it, in listing order.
pub open spec fn folder_names(entries: Seq<Seq<char>>) -> Seq<Seq<char>>
    decreases entries.len(),
{
    if entries.len() == 0 {
        Seq::empty()
    } else {
        let rest = folder_names(entries.drop_last());
        let e = entries.last();
        if e.len() > 0 && e.last() == '/' {
            rest.push(e.drop_last())
        } else {
            rest
        }
    }
}

pub open spec fn texts(v: Seq<String>) -> Seq<Seq<char>> {
    v.map_values(|s: String| s@)
}

/// The package names found under `spk/spec`: the folder entries of its
/// listing, without their trailing `/`.
pub fn list_packages(entries: &Vec<String>) -> (names: Vec<String>)
    ensures
        texts(names@) == folder_names(texts(entries@)),
{
    let mut names: Vec<String> = Vec::new();
    let mut i: usize = 0;
    while i < entries.len()
        invariant
            i <= entries@.len(),
            texts(names@) == folder_names(texts(entries@.take(i as int))),
        decreases entries.len() - i,
    {
        proof {
            assert(texts(entries@.take(i as int + 1)).drop_last() =~= texts(entries@.take(i as int)));
            assert(texts(entries@.take(i as int + 1)).last() == entries@[i as int]@);
        }
        let e = &entries[i];
        if ends_with_char(e.as_str(), '/') {
            let stripped = drop_last_char(e.as_str());
            names.push(stripped);
            proof {
                assert(texts(names@) =~= folder_names(texts(entries@.take(i as int))).push(
                    entries@[i as int]@.drop_last(),
                ));
            }
        }
        i = i + 1;
    }
    proof {
        assert(entries@.take(i as int) =~= entries@);
    }
    names
}

/// A version entry of a tag listing as version text: the trailing `/` of a
/// folder dropped, and the two dots that encode `+` turned back into `+`.
pub open spec fn version_text(entry: Seq<char>) -> Seq<char> {
    let stripped = if entry.len() > 0 && entry.last() == '/' {
        entry.drop_last()
    } else {
        entry
    };
    replace_all(stripped, ".."@, "+"@)
}

/// The version texts of the entries of a package's spec tag listing, in
/// listing order.
pub fn version_texts(entries: &Vec<String>) -> (versions: Vec<String>)
    ensures
        versions@.len() == entries@.len(),
        forall|i: int| 0 <= i < versions@.len() ==> #[trigger] versions@[i]@ == version_text(entries@[i]@),
{
    proof {
        reveal_strlit("..");
    }
    let mut versions: Vec<String> = Vec::new();
    let mut i: usize = 0;
    while i < entries.len()
        invariant
            i <= entries@.len(),
            versions@.len() == i,
            forall|k: int| 0 <= k < i ==> #[trigger] versions@[k]@ == version_text(entries@[k]@),
        decreases entries.len() - i,
    {
        proof {
            reveal_strlit("..");
        }
        let e = &entries[i];
        let v = if ends_with_char(e.as_str(), '/') {
            let stripped = drop_last_char(e.as_str());
            replace_str(stripped.as_str(), "..", "+")
        } else {
            replace_str(e.as_str(), "..", "+")
        };
        versions.push(v);
        i = i + 1;
    }
    versions
}

/// A build entry of a tag listing as build text: without a trailing `/`.
pub open spec fn build_entry_text(entry: Seq<char>) -> Seq<char> {
    if entry.len() > 0 && entry.last() == '/' {
        entry.drop_last()
    } else {
        entry
    }
}

/// The build texts of the entries of a package version's tag listing.
pub fn build_texts(entries: &Vec<String>) -> (builds: Vec<String>)
    ensures
        builds@.len() == entries@.len(),
        forall|i: int| 0 <= i < builds@.len() ==> #[trigger] builds@[i]@ == build_entry_text(entries@[i]@),
{
    let mut builds: Vec<String> = Vec::new();
    let mut i: usize = 0;
    while i < entries.len()
        invariant
            i <= entries@.len(),
            builds@.len() == i,
            forall|k: int| 0 <= k < i ==> #[trigger] builds@[k]@ == build_entry_text(entries@[k]@),
        decreases entries.len() - i,
    {
        let e = &entries[i];
        let b = if ends_with_char(e.as_str(), '/') {
            drop_last_char(e.as_str())
        } else {
            e.clone()
        };
        builds.push(b);
        i = i + 1;
    }
    builds
}

/// The tag of one component of a stored package.
#[derive(Debug)]
pub struct ComponentTag {
    pub component: Component,
    pub tag: TagSpec,
}

/// A stored package, in either the old form (one tag for the whole package)
/// or the new form (one tag for each component).
#[derive(Debug)]
pub enum StoredPackage {
    WithoutComponents(TagSpec),
    WithComponents(Vec<ComponentTag>),
}

/// The last component of a tag path: what follows its last `/`.
pub open spec fn tag_name(path: Seq<char>) -> Seq<char>
    decreases path.len(),
{
    if path.len() == 0 {
        path
    } else if path.last() == '/' {
        Seq::empty()
    } else {
        tag_name(path.drop_last()).push(path.last())
    }
}

/// The last component of a tag path.
pub fn tag_name_of(path: &str) -> (r: String)
    ensures
        r@ == tag_name(path@),
{
    let n = path.unicode_len();
    let mut start: usize = n;
    proof {
        assert(path@.take(n as int) =~= path@);
        assert(path@.subrange(n as int, n as int) =~= Seq::<char>::empty());
        assert(tag_name(path@) =~= tag_name(path@.take(n as int)) + path@.subrange(n as int, n as int));
    }
    while start > 0
        invariant
            n == path@.len(),
            start <= n,
            tag_name(path@) == tag_name(path@.take(start as int)) + path@.subrange(start as int, n as int),
        ensures
            start <= n,
            tag_name(path@) == tag_name(path@.take(start as int)) + path@.subrange(start as int, n as int),
            start == 0 || path@[start - 1] == '/',
        decreases start,
    {
        if path.get_char(start - 1) == '/' {
            proof {
                assert(path@.take(start as int).last() == '/');
                assert(tag_name(path@.take(start as int)) =~= Seq::<char>::empty());
            }
            break;
        }
        proof {
            let t = path@.take(start as int);
            assert(t.drop_last() =~= path@.take(start as int - 1));
            assert(path@.subrange(start as int - 1, n as int) =~= seq![t.last()] + path@.subrange(start as int, n as int));
        }
        start = start - 1;
    }
    proof {
        if start == 0 {
            assert(path@.take(0) =~= Seq::<char>::empty());
        }
        if start > 0 {
            assert(path@.take(start as int).last() == '/');
        }
        assert(tag_name(path@.take(start as int)) =~= Seq::<char>::empty());
        assert(tag_name(path@) =~= path@.subrange(start as int, n as int));
    }
    path.substring_char(start, n).to_owned()
}

impl StoredPackage {
    /// No component has two tags.
    pub open spec fn well_formed(&self) -> bool {
        match *self {
            StoredPackage::WithComponents(c) => forall|a: int, b: int|
                0 <= a < b < c@.len() ==> component_text(#[trigger] c@[a].component)
                    != component_text(#[trigger] c@[b].component),
            StoredPackage::WithoutComponents(_) => true,
        }
    }

    /// true if this stored package uses the new format with
    /// tags for each package component
    pub fn has_components(&self) -> (r: bool)
        ensures
            r == (*self is WithComponents),
    {
        match self {
            StoredPackage::WithComponents(_) => true,
            _ => false,
        }
    }

    /// Identify all of the tags associated with this package
    pub fn tags(&self) -> (r: Vec<&TagSpec>)
        ensures
            match *self {
                StoredPackage::WithoutComponents(t) => r@.len() == 1 && *r@[0] == t,
                StoredPackage::WithComponents(c) => r@.len() == c@.len() && forall|i: int|
                    0 <= i < r@.len() ==> *#[trigger] r@[i] == c@[i].tag,
            },
    {
        match self {
            StoredPackage::WithoutComponents(tag) => {
                let mut v = Vec::new();
                v.push(tag);
                v
            },
            StoredPackage::WithComponents(cmpts) => {
                let mut v: Vec<&TagSpec> = Vec::new();
                let mut i: usize = 0;
                while i < cmpts.len()
                    invariant
                        i <= cmpts@.len(),
                        v@.len() == i,
                        forall|k: int| 0 <= k < i ==> *#[trigger] v@[k] == cmpts@[k].tag,
                    decreases cmpts.len() - i,
                {
                    v.push(&cmpts[i].tag);
                    i = i + 1;
                }
                v
            },
        }
    }

    /// Return the mapped component tags for this package, converting
    /// from the legacy storage format if needed: a legacy source package
    /// (whose tag is named `src`) has its source component, any other
    /// legacy package has its build and run components, both at its one tag.
    pub fn into_components(self) -> (r: Vec<ComponentTag>)
        ensures
            match self {
                StoredPackage::WithComponents(c) => r == c,
                StoredPackage::WithoutComponents(t) => if tag_name(t@) == "src"@ {
                    r@.len() == 1 && r@[0].component is Source && r@[0].tag@ == t@
                } else {
                    r@.len() == 2 && r@[0].component is Build && r@[0].tag@ == t@
                        && r@[1].component is Run && r@[1].tag@ == t@
                },
            },
            self.well_formed() ==> forall|a: int, b: int|
                0 <= a < b < r@.len() ==> component_text(#[trigger] r@[a].component)
                    != component_text(#[trigger] r@[b].component),
    {
        match self {
            StoredPackage::WithComponents(cmpts) => {
                proof {
                    if self.well_formed() {
                        assert forall|a: int, b: int| 0 <= a < b < cmpts@.len() implies component_text(
                            #[trigger] cmpts@[a].component,
                        ) != component_text(#[trigger] cmpts@[b].component) by {
                            assert(self matches StoredPackage::WithComponents(c) && c == cmpts);
                        }
                    }
                }
                cmpts
            },
            StoredPackage::WithoutComponents(tag) => {
                let name = tag_name_of(tag.path.as_str());
                proof {
                    reveal_strlit("src");
                    reveal_strlit("build");
                    reveal_strlit("run");
                }
                let mut v = Vec::new();
                if crate::text::compare_paths(name.as_str(), "src") == 0 {
                    v.push(ComponentTag { component: Component::Source, tag });
                } else {
                    let copy = TagSpec { path: tag.path.clone() };
                    v.push(ComponentTag { component: Component::Build, tag: copy });
                    v.push(ComponentTag { component: Component::Run, tag });
                    proof {
                        assert(component_text(v@[0].component) != component_text(v@[1].component)) by {
                            assert("build"@[0] != "run"@[0]);
                        }
                    }
                }
                v
            },
        }
    }
}

/// The component tags that a package's tag listing shows: each entry that
/// is not a folder and parses as a component, with the tag path of that
/// entry below `tag_path`, in listing order.
pub open spec fn listed_components(tag_path: Seq<char>, entries: Seq<Seq<char>>) -> Seq<(Seq<char>, Seq<char>)>
    decreases entries.len(),
{
    if entries.len() == 0 {
        Seq::empty()
    } else {
        let rest = listed_components(tag_path, entries.drop_last());
        let e = entries.last();
        if e.len() > 0 && e.last() == '/' {
            rest
        } else if (crate::ident::parse_component(e) is Some || crate::ident::is_component_name(e))
            && !names_component(rest, e) {
            rest.push((e, path_join(tag_path, e)))
        } else {
            rest
        }
    }
}

/// True where some item of `found` is for the component named `name`.
pub open spec fn names_component(found: Seq<(Seq<char>, Seq<char>)>, name: Seq<char>) -> bool {
    exists|i: int| 0 <= i < found.len() && #[trigger] found[i].0 == name
}

/// No component occurs twice in `found`.
pub open spec fn distinct_components(found: Seq<(Seq<char>, Seq<char>)>) -> bool {
    forall|a: int, b: int| 0 <= a < b < found.len() ==> #[trigger] found[a].0 != #[trigger] found[b].0
}

proof fn lemma_listed_components_distinct(tag_path: Seq<char>, entries: Seq<Seq<char>>)
    ensures
        distinct_components(listed_components(tag_path, entries)),
    decreases entries.len(),
{
    if entries.len() > 0 {
        lemma_listed_components_distinct(tag_path, entries.drop_last());
        let rest = listed_components(tag_path, entries.drop_last());
        let found = listed_components(tag_path, entries);
        if found != rest {
            assert forall|a: int, b: int| 0 <= a < b < found.len() implies #[trigger] found[a].0
                != #[trigger] found[b].0 by {
                if b == found.len() - 1 {
                    assert(found[a] == rest[a]);
                } else {
                    assert(found[a] == rest[a] && found[b] == rest[b]);
                }
            }
        }
    }
}

pub open spec fn component_tag_view(c: ComponentTag) -> (Seq<char>, Seq<char>) {
    (component_text(c.component), c.tag@)
}

/// What looking a package up finds, as plain values: its component tags,
/// or its one legacy tag, or nothing.
pub enum LookupView {
    WithComponents(Seq<(Seq<char>, Seq<char>)>),
    WithoutComponents(Seq<char>),
    NotFound,
}

/// Where a package is found: with component tags if its listing shows any,
/// else under its legacy tag if the repository has that tag.
pub open spec fn lookup_view(tag_path: Seq<char>, entries: Seq<Seq<char>>, has_legacy_tag: bool) -> LookupView {
    let found = listed_components(tag_path, entries);
    if found.len() > 0 {
        LookupView::WithComponents(found)
    } else if has_legacy_tag {
        LookupView::WithoutComponents(tag_path)
    } else {
        LookupView::NotFound
    }
}

/// True where some tag of `found` is for the component named `name`.
fn has_component_named(found: &Vec<ComponentTag>, name: &str) -> (r: bool)
    ensures
        r == names_component(found@.map_values(|t: ComponentTag| component_tag_view(t)), name@),
{
    let ghost view = found@.map_values(|t: ComponentTag| component_tag_view(t));
    let mut i: usize = 0;
    while i < found.len()
        invariant
            i <= found@.len(),
            view == found@.map_values(|t: ComponentTag| component_tag_view(t)),
            forall|k: int| 0 <= k < i ==> #[trigger] view[k].0 != name@,
        decreases found.len() - i,
    {
        let text = found[i].component.as_string();
        if crate::text::compare_paths(text.as_str(), name) == 0 {
            proof {
                assert(view[i as int].0 == name@);
            }
            return true;
        }
        i = i + 1;
    }
    false
}

/// Find a package stored in this repo in either the new or old way of tagging
/// (with or without package components), given the listing of its package
/// tag and whether the repository has that tag itself.
pub fn lookup_package(pkg: &Ident, entries: &Vec<String>, has_legacy_tag: bool) -> (r: Result<StoredPackage, SpkError>)
    ensures
        pkg.build is None ==> r matches Err(SpkError::InvalidBuild { .. }),
        pkg.build is Some ==> match lookup_view(package_tag(*pkg), texts(entries@), has_legacy_tag) {
            LookupView::WithComponents(found) => r matches Ok(StoredPackage::WithComponents(c))
                && c@.map_values(|t: ComponentTag| component_tag_view(t)) == found,
            LookupView::WithoutComponents(t) => r matches Ok(StoredPackage::WithoutComponents(tag))
                && tag@ == t,
            LookupView::NotFound => r matches Err(SpkError::PackageNotFound(p)) && p.text() == pkg.text(),
        },
        r matches Ok(p) ==> p.well_formed(),
{
    let tag_path = match build_package_tag(pkg) {
        Ok(t) => t,
        Err(e) => return Err(e),
    };
    let mut found: Vec<ComponentTag> = Vec::new();
    let mut i: usize = 0;
    while i < entries.len()
        invariant
            i <= entries@.len(),
            found@.map_values(|t: ComponentTag| component_tag_view(t)) == listed_components(
                tag_path@,
                texts(entries@.take(i as int)),
            ),
        decreases entries.len() - i,
    {
        proof {
            assert(texts(entries@.take(i as int + 1)).drop_last() =~= texts(entries@.take(i as int)));
            assert(texts(entries@.take(i as int + 1)).last() == entries@[i as int]@);
        }
        let e = &entries[i];
        if !ends_with_char(e.as_str(), '/') {
            match Component::parse(e.as_str()) {
                Some(c) if !has_component_named(&found, e.as_str()) => {
                    let path = join_path(tag_path.as_str(), e.as_str());
                    let ghost before = found@;
                    proof {
                        if crate::ident::parse_component(e@) is None {
                            assert(crate::ident::is_component_name(e@));
                        }
                    }
                    found.push(ComponentTag { component: c, tag: TagSpec { path } });
                    proof {
                        assert(component_text(found@.last().component) == e@);
                        assert(found@.map_values(|t: ComponentTag| component_tag_view(t)) =~= before.map_values(
                            |t: ComponentTag| component_tag_view(t),
                        ).push((e@, path_join(tag_path@, e@))));
                    }
                },
                _ => {},
            }
        }
        i = i + 1;
    }
    proof {
        assert(entries@.take(i as int) =~= entries@);
        lemma_listed_components_distinct(tag_path@, texts(entries@));
        let view = found@.map_values(|t: ComponentTag| component_tag_view(t));
        assert forall|a: int, b: int| 0 <= a < b < found@.len() implies component_text(
            #[trigger] found@[a].component,
        ) != component_text(#[trigger] found@[b].component) by {
            assert(view[a].0 != view[b].0);
        }
    }
    if found.len() > 0 {
        return Ok(StoredPackage::WithComponents(found));
    }
    if has_legacy_tag {
        return Ok(StoredPackage::WithoutComponents(TagSpec { path: tag_path }));
    }
    Err(SpkError::PackageNotFound(pkg.with_build(match &pkg.build {
        Some(b) => Some(b.duplicate()),
        None => None,
    })))
}

/// Checks that a spec may be published: it must name no build, and its
/// version must not be published already (`spec_exists`).
pub fn check_publish_spec(pkg: &Ident, spec_exists: bool) -> (r: Result<(), SpkError>)
    ensures
        pkg.build is Some ==> (r matches Err(SpkError::InvalidBuild { message }) && message@
            == "Spec must be published with no build"@),
        pkg.build is None && spec_exists ==> (r matches Err(SpkError::VersionExists(p)) && p.text()
            == pkg.text()),
        pkg.build is None && !spec_exists ==> r is Ok,
{
    if pkg.build.is_some() {
        return Err(SpkError::InvalidBuild { message: "Spec must be published with no build".to_owned() });
    }
    if spec_exists {
        return Err(SpkError::VersionExists(pkg.with_build(None)));
    }
    Ok(())
}

/// Checks that a spec may be published over any existing one: an embedded
/// package cannot be published.
pub fn check_force_publish_spec(pkg: &Ident) -> (r: Result<(), SpkError>)
    ensures
        (pkg.build matches Some(b) && b is Embedded) ==> (r matches Err(SpkError::InvalidBuild { message })
            && message@ == "Cannot publish embedded package"@),
        !(pkg.build matches Some(b) && b is Embedded) ==> r is Ok,
{
    match &pkg.build {
        Some(Build::Embedded) => Err(
            SpkError::InvalidBuild { message: "Cannot publish embedded package".to_owned() },
        ),
        _ => Ok(()),
    }
}

/// The digest published for a component of a package.
#[derive(Debug)]
pub struct ComponentDigest {
    pub component: Component,
    pub digest: Digest,
}

/// The first digest given for a component with the given name.
pub open spec fn component_digest(components: Seq<ComponentDigest>, name: Seq<char>) -> Option<Digest>
    decreases components.len(),
{
    if components.len() == 0 {
        None
    } else if component_text(components[0].component) == name {
        Some(components[0].digest)
    } else {
        component_digest(components.drop_first(), name)
    }
}

fn find_component(components: &Vec<ComponentDigest>, name: &str) -> (r: Option<Digest>)
    ensures
        r == component_digest(components@, name@),
{
    let mut i: usize = 0;
    proof {
        assert(components@.skip(0) =~= components@);
    }
    while i < components.len()
        invariant
            i <= components@.len(),
            component_digest(components@, name@) == component_digest(components@.skip(i as int), name@),
        decreases components.len() - i,
    {
        let text = components[i].component.as_string();
        proof {
            assert(components@.skip(i as int)[0] == components@[i as int]);
            assert(components@.skip(i as int).drop_first() =~= components@.skip(i as int + 1));
        }
        if crate::text::compare_paths(text.as_str(), name) == 0 {
            return Some(components[i].digest);
        }
        i = i + 1;
    }
    None
}

/// One tag to push: its path and the digest that it points to.
#[derive(Debug)]
pub struct TagPush {
    pub path: String,
    pub digest: Digest,
}

/// `pushes` are the tag pushes that publish a package build whose legacy
/// tag points at `legacy`: that tag first, then one tag per component.
pub open spec fn publish_pushes(pkg: Ident, components: Seq<ComponentDigest>, legacy: Digest, pushes: Seq<TagPush>) -> bool {
    &&& pushes.len() == components.len() + 1
    &&& pushes[0].path@ == package_tag(pkg)
    &&& pushes[0].digest == legacy
    &&& forall|k: int|
        0 <= k < components.len() ==> #[trigger] pushes[k + 1].path@ == path_join(
            package_tag(pkg),
            component_text(components[k].component),
        ) && pushes[k + 1].digest == components[k].digest
}

/// The tag pushes that publish a package build, in order: first the legacy
/// package tag, pointing at the source component of a source build or at
/// the run component of any other build (for older clients), then one tag
/// for each component, below the package tag.
///
/// The components are a map: no component is given twice.
pub fn publish_package_tags(pkg: &Ident, components: &Vec<ComponentDigest>) -> (r: Result<Vec<TagPush>, SpkError>)
    requires
        forall|a: int, b: int|
            0 <= a < b < components@.len() ==> component_text(#[trigger] components@[a].component)
                != component_text(#[trigger] components@[b].component),
    ensures
        pkg.build is None ==> r matches Err(SpkError::InvalidBuild { .. }),
        pkg.build is Some ==> {
            let legacy = if pkg.build->0 is Source {
                component_digest(components@, "src"@)
            } else {
                component_digest(components@, "run"@)
            };
            &&& legacy is None ==> (r matches Err(SpkError::MissingComponent { message }) && message@
                == (if pkg.build->0 is Source {
                "Package must have a source component to be published"@
            } else {
                "Package must have a run component to be published"@
            }))
            &&& match legacy {
                Some(d) => r matches Ok(pushes) && publish_pushes(*pkg, components@, d, pushes@),
                None => true,
            }
        },
{
    let tag_path = match build_package_tag(pkg) {
        Ok(t) => t,
        Err(e) => return Err(e),
    };
    let is_source = match &pkg.build {
        Some(Build::Source) => true,
        _ => false,
    };
    let legacy = if is_source {
        find_component(components, "src")
    } else {
        find_component(components, "run")
    };
    let legacy_digest = match legacy {
        Some(d) => d,
        None => {
            if is_source {
                return Err(
                    SpkError::MissingComponent {
                        message: "Package must have a source component to be published".to_owned(),
                    },
                );
            } else {
                return Err(
                    SpkError::MissingComponent {
                        message: "Package must have a run component to be published".to_owned(),
                    },
                );
            }
        },
    };
    let mut pushes: Vec<TagPush> = Vec::new();
    pushes.push(TagPush { path: tag_path.clone(), digest: legacy_digest });
    let mut i: usize = 0;
    while i < components.len()
        invariant
            i <= components@.len(),
            tag_path@ == package_tag(*pkg),
            pushes@.len() == i + 1,
            pushes@[0].path@ == package_tag(*pkg),
            pushes@[0].digest == legacy_digest,
            forall|k: int|
                0 <= k < i ==> #[trigger] pushes@[k + 1].path@ == path_join(
                    package_tag(*pkg),
                    component_text(components@[k].component),
                ) && pushes@[k + 1].digest == components@[k].digest,
        decreases components.len() - i,
    {
        let name = components[i].component.as_string();
        let path = join_path(tag_path.as_str(), name.as_str());
        pushes.push(TagPush { path, digest: components[i].digest });
        i = i + 1;
    }
    proof {
        let spec_legacy = if pkg.build->0 is Source {
            component_digest(components@, "src"@)
        } else {
            component_digest(components@, "run"@)
        };
        assert(spec_legacy == Some(legacy_digest));
        assert(publish_pushes(*pkg, components@, legacy_digest, pushes@));
    }
    Ok(pushes)
}

/// An spk repository stored in spfs, known by the config that connects to it.
pub struct SPFSRepository {
    inner: RemoteConfig,
}

impl View for SPFSRepository {
    type V = RemoteConfigView;

    closed spec fn view(&self) -> RemoteConfigView {
        self.inner@
    }
}

impl SPFSRepository {
    /// The repository at the given url address.
    pub fn new(address: &str) -> (r: Result<SPFSRepository, ConfigError>)
        ensures
            crate::config::url_parse(address@) is Err ==> r is Err,
            crate::config::url_parse(address@) matches Ok(u) ==> match crate::config::config_for_scheme(
                crate::config::scheme_of(u),
                u,
            ) {
                Some(c) => r matches Ok(repo) && repo@ == c,
                None => r is Err,
            },
    {
        match RemoteConfig::from_str(address) {
            Ok(inner) => Ok(SPFSRepository { inner }),
            Err(e) => Err(e),
        }
    }

    /// The repository that the given config connects to.
    pub fn from_config(inner: RemoteConfig) -> (r: SPFSRepository)
        ensures
            r@ == inner@,
    {
        SPFSRepository { inner }
    }

    /// The config that connects to this repository.
    pub fn config(&self) -> (r: &RemoteConfig)
        ensures
            r@ == self@,
    {
        &self.inner
    }

    /// The address of this repository.
    pub fn address(&self) -> (r: &String)
        ensures
            r@ == config_address(self@),
    {
        self.inner.address()
    }

    /// Two repositories are the same when their addresses are.
    pub fn eq(&self, other: &SPFSRepository) -> (r: bool)
        ensures
            r == (config_address(self@) == config_address(other@)),
    {
        crate::text::compare_paths(self.address().as_str(), other.address().as_str()) == 0
    }

    /// Whether the repository keeps written data in memory until it is
    /// flushed: a tar repository does, and writes its archive out then.
    pub fn flush(&self) -> (r: bool)
        ensures
            r == (self@ is Tar),
    {
        match &self.inner {
            RemoteConfig::Tar { .. } => true,
            _ => false,
        }
    }
}

/// Return the local packages repository used for development: the file
/// system repository at the configured storage root, which is opened at that
/// path as it is given (a relative root stays relative to the working
/// directory).
pub fn local_repository(config: &Config) -> (r: SPFSRepository)
    ensures
        r@ == RemoteConfigView::Fs(config.storage.root@),
{
    SPFSRepository { inner: RemoteConfig::Fs { address: config.storage.root.clone() } }
}

/// Return the remote repository of the given name (or address).
///
/// If no name is given (the name is empty), return the default spfs
/// repository: the local one.
pub fn remote_repository(config: &Config, name: &str) -> (r: Result<SPFSRepository, ConfigError>)
    requires
        config.well_formed(),
    ensures
        name@.len() == 0 ==> (r matches Ok(repo) && repo@ == RemoteConfigView::Fs(config.storage.root@)),
        name@.len() > 0 ==> (r matches Ok(repo) ==> config.remote_config_for(name@) == Ok::<RemoteConfigView, ()>(repo@)),
        name@.len() > 0 ==> (r is Err ==> config.remote_config_for(name@) is Err),
{
    if name.unicode_len() == 0 {
        return Ok(local_repository(config));
    }
    match config.get_remote(name) {
        Ok(inner) => Ok(SPFSRepository { inner }),
        Err(e) => Err(e),
    }
}

/// The outcome of removing a package's spec, from the outcome of removing
/// its tag stream: an unknown tag means that the package is not there.
pub fn remove_spec_outcome(pkg: &Ident, removal: Result<(), StorageError>) -> (r: Result<(), SpkError>)
    ensures
        removal is Ok <==> r is Ok,
        removal == Err::<(), StorageError>(StorageError::UnknownObject) ==> (r matches Err(SpkError::PackageNotFound(p)) && p.text() == pkg.text()),
        removal == Err::<(), StorageError>(StorageError::Unavailable) ==> r matches Err(SpkError::Storage(StorageError::Unavailable)),
{
    match removal {
        Ok(()) => Ok(()),
        Err(StorageError::UnknownObject) => Err(SpkError::PackageNotFound(pkg.with_build(match &pkg.build {
            Some(b) => Some(b.duplicate()),
            None => None,
        }))),
        Err(e) => Err(SpkError::Storage(e)),
    }
}

/// The outcome of removing one of a package's tags while removing the
/// package: a tag that is already gone is no error.
pub fn remove_package_tag_outcome(removal: Result<(), StorageError>) -> (r: Result<(), SpkError>)
    ensures
        r is Ok <==> (removal is Ok || removal == Err::<(), StorageError>(StorageError::UnknownObject)),
        r matches Err(SpkError::Storage(e)) ==> removal == Err::<(), StorageError>(e),
{
    match removal {
        Ok(()) => Ok(()),
        Err(StorageError::UnknownObject) => Ok(()),
        Err(e) => Err(SpkError::Storage(e)),
    }
}

/// Where the repository metadata is, from resolving its tag: the tag's
/// target, or nothing when the tag does not exist (the default metadata
/// then applies).
pub fn metadata_target(resolved: Result<Digest, StorageError>) -> (r: Result<Option<Digest>, SpkError>)
    ensures
        resolved matches Ok(d) ==> r == Ok::<Option<Digest>, SpkError>(Some(d)),
        resolved == Err::<Digest, StorageError>(StorageError::UnknownObject) ==> r == Ok::<Option<Digest>, SpkError>(None),
        resolved == Err::<Digest, StorageError>(StorageError::Unavailable) ==> r matches Err(SpkError::Storage(StorageError::Unavailable)),
{
    match resolved {
        Ok(d) => Ok(Some(d)),
        Err(StorageError::UnknownObject) => Ok(None),
        Err(e) => Err(SpkError::Storage(e)),
    }
}

} // verus!

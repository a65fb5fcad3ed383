use spfs::graph::Digest;
use spfs::ident::{Build, Ident};
use spfs::memory::MemTagRepository;
use spfs::misc::Tag;
use spfs::ident::Component;
use spfs::spk_storage::{ComponentDigest, SpkError, StoredPackage};
use spfs::tracking::TagSpec;
use spfs::upgrade::{
    parse_build, publish_package, retag_legacy_build, retag_stored_build, upgrade, RepoVersion,
    SpkRepository,
};

fn digest(n: u64) -> Digest {
    Digest::new(n, 0, 0, 0)
}

fn tag(path: &str, n: u64) -> Tag {
    Tag { spec: TagSpec { path: path.into() }, target: digest(n), parent: digest(n + 100), user: "alice".into(), time: 42 }
}

fn version(major: u64, minor: u64, patch: u64) -> RepoVersion {
    RepoVersion { major, minor, patch }
}

fn legacy_repo(v: RepoVersion) -> MemTagRepository {
    let mut repo = MemTagRepository::new(v);
    repo.push_raw_tag(tag("spk/spec/my-pkg/1.0.0", 1)).unwrap();
    repo.push_raw_tag(tag("spk/pkg/my-pkg/1.0.0/ABC", 2)).unwrap();
    repo.push_raw_tag(tag("spk/pkg/my-pkg/1.0.0/src", 3)).unwrap();
    repo
}

#[test]
fn upgrade_retags_legacy_builds() {
    let mut repo = legacy_repo(version(0, 0, 0));
    assert_eq!(upgrade(&mut repo).unwrap(), "All packages were retagged for components");
    for comp in ["build", "run"] {
        let t = repo.resolve_tag(&format!("spk/pkg/my-pkg/1.0.0/ABC/{comp}")).unwrap();
        assert_eq!(t.target, digest(2));
        assert_eq!(t.parent, digest(102));
        assert_eq!(t.user, "alice");
        assert_eq!(t.time, 42);
    }
    assert_eq!(repo.resolve_tag("spk/pkg/my-pkg/1.0.0/src/src").unwrap().target, digest(3));
    assert!(!repo.has_tag("spk/pkg/my-pkg/1.0.0/src/run"));
    assert_eq!(repo.read_layout_version().unwrap(), version(1, 0, 0));
    // the current layout may be upgraded again, which changes nothing more
    assert_eq!(upgrade(&mut repo).unwrap(), "All packages were retagged for components");
}

#[test]
fn upgrade_leaves_later_layouts() {
    let mut repo = legacy_repo(version(1, 2, 0));
    assert_eq!(upgrade(&mut repo).unwrap(), "Nothing to do.");
    assert!(!repo.has_tag("spk/pkg/my-pkg/1.0.0/ABC/run"));
    assert_eq!(repo.read_layout_version().unwrap(), version(1, 2, 0));
}

#[test]
fn listing_shows_tags_and_folders_once() {
    let repo = legacy_repo(version(0, 0, 0));
    assert_eq!(repo.ls_tags("spk/pkg/my-pkg").unwrap(), vec!["1.0.0/".to_string()]);
    assert_eq!(repo.ls_tags("spk/pkg/my-pkg/1.0.0").unwrap(), vec!["ABC".to_string(), "src".to_string()]);
}

#[test]
fn retag_of_one_legacy_build() {
    let build = Ident { name: "my-pkg".into(), version: "1.0.0".into(), build: Some(Build::Digest("ABC".into())) };
    let stored = StoredPackage::WithoutComponents(TagSpec { path: "spk/pkg/my-pkg/1.0.0/ABC".into() });
    let tags = retag_legacy_build(&build, stored, &tag("spk/pkg/my-pkg/1.0.0/ABC", 7)).unwrap();
    assert_eq!(tags.len(), 2);
    assert_eq!(tags[0].spec.path, "spk/pkg/my-pkg/1.0.0/ABC/build");
    assert_eq!(tags[1].spec.path, "spk/pkg/my-pkg/1.0.0/ABC/run");
    assert_eq!(tags[1].target, digest(7));
    let done = StoredPackage::WithComponents(vec![]);
    assert!(retag_legacy_build(&build, done, &tag("x", 1)).unwrap().is_empty());
    let no_build = Ident { name: "my-pkg".into(), version: "1.0.0".into(), build: None };
    let stored = StoredPackage::WithoutComponents(TagSpec { path: "spk/pkg/my-pkg/1.0.0/ABC".into() });
    assert!(matches!(retag_legacy_build(&no_build, stored, &tag("x", 1)), Err(SpkError::InvalidBuild { .. })));
    assert!(matches!(parse_build("src"), Build::Source));
    assert!(matches!(parse_build("embedded"), Build::Embedded));
    assert!(matches!(parse_build("ABC"), Build::Digest(_)));
}

#[test]
fn retag_stored_build_pushes_component_tags() {
    let mut repo = legacy_repo(version(0, 0, 0));
    let build = Ident { name: "my-pkg".into(), version: "1.0.0".into(), build: Some(Build::Source) };
    let stored = StoredPackage::WithoutComponents(TagSpec { path: "spk/pkg/my-pkg/1.0.0/src".into() });
    retag_stored_build(&mut repo, &build, stored).unwrap();
    let t = repo.resolve_tag("spk/pkg/my-pkg/1.0.0/src/src").unwrap();
    assert_eq!((t.target, t.parent, t.time), (digest(3), digest(103), 42));
    assert!(!repo.has_tag("spk/pkg/my-pkg/1.0.0/src/build"));
    let missing = Ident { name: "other".into(), version: "1.0.0".into(), build: Some(Build::Source) };
    let stored = StoredPackage::WithoutComponents(TagSpec { path: "spk/pkg/other/1.0.0/src".into() });
    assert!(matches!(
        retag_stored_build(&mut repo, &missing, stored),
        Err(SpkError::Storage(spfs::sync::StorageError::UnknownObject))
    ));
}

#[test]
fn publish_package_pushes_legacy_and_component_tags() {
    let mut repo = MemTagRepository::new(version(1, 0, 0));
    let pkg = Ident { name: "my-pkg".into(), version: "1.0.0".into(), build: Some(Build::Digest("ABC".into())) };
    let comps = vec![
        ComponentDigest { component: Component::Run, digest: digest(5) },
        ComponentDigest { component: Component::Build, digest: digest(6) },
    ];
    publish_package(&mut repo, &pkg, &comps).unwrap();
    assert_eq!(repo.resolve_tag("spk/pkg/my-pkg/1.0.0/ABC").unwrap().target, digest(5));
    assert_eq!(repo.resolve_tag("spk/pkg/my-pkg/1.0.0/ABC/run").unwrap().target, digest(5));
    assert_eq!(repo.resolve_tag("spk/pkg/my-pkg/1.0.0/ABC/build").unwrap().target, digest(6));
    let no_run = vec![ComponentDigest { component: Component::Build, digest: digest(6) }];
    let other = Ident { name: "other".into(), version: "1.0.0".into(), build: Some(Build::Digest("X".into())) };
    assert!(matches!(publish_package(&mut repo, &other, &no_run), Err(SpkError::MissingComponent { .. })));
    assert!(!repo.has_tag("spk/pkg/other/1.0.0/X"));
}

use spfs::config::{Config, Filesystem, NamedRemote, Remote, RemoteAddress, Storage, User};
use spfs::graph::Digest;
use spfs::ident::{Build, Component, Ident};
use spfs::spk_storage::{
    build_package_tag, build_spec_tag, build_texts, check_force_publish_spec, check_publish_spec,
    list_packages, local_repository, lookup_package, metadata_target, publish_package_tags,
    remote_repository, remove_package_tag_outcome, remove_spec_outcome, tag_name_of,
    version_texts, ComponentDigest, SPFSRepository, SpkError, StoredPackage,
};
use spfs::sync::StorageError;
use spfs::text::replace_str;
use spfs::tracking::TagSpec;

fn ident(build: Option<Build>) -> Ident {
    Ident { name: "my-pkg".into(), version: "1.0.0+r.1".into(), build }
}

fn strings(v: &[&str]) -> Vec<String> {
    v.iter().map(|s| s.to_string()).collect()
}

#[test]
fn tags_encode_plus_as_two_dots() {
    assert_eq!(build_spec_tag(&ident(None)), "spk/spec/my-pkg/1.0.0..r.1");
    assert_eq!(
        build_package_tag(&ident(Some(Build::Digest("ABCDEF12".into())))).unwrap(),
        "spk/pkg/my-pkg/1.0.0..r.1/ABCDEF12"
    );
    assert_eq!(build_package_tag(&ident(Some(Build::Source))).unwrap(), "spk/pkg/my-pkg/1.0.0..r.1/src");
    match build_package_tag(&ident(None)) {
        Err(SpkError::InvalidBuild { message }) => {
            assert_eq!(message, "Package must have associated build digest")
        }
        _ => panic!("expected an invalid build"),
    }
    // decoding gives the version back
    let encoded = replace_str("1.0.0+r.1", "+", "..");
    assert_eq!(replace_str(&encoded, "..", "+"), "1.0.0+r.1");
}

#[test]
fn listings() {
    assert_eq!(list_packages(&strings(&["a/", "b", "c/"])), strings(&["a", "c"]));
    assert_eq!(version_texts(&strings(&["1.0.0/", "2.0.0..r.1"])), strings(&["1.0.0", "2.0.0+r.1"]));
    assert_eq!(build_texts(&strings(&["src/", "ABC"])), strings(&["src", "ABC"]));
    assert_eq!(tag_name_of("spk/pkg/x/1.0.0/src"), "src");
    assert_eq!(tag_name_of("plain"), "plain");
}

#[test]
fn lookup_new_and_legacy_packages() {
    let pkg = ident(Some(Build::Digest("XYZ".into())));
    match lookup_package(&pkg, &strings(&["run", "build", "sub/", "bad!"]), false) {
        Ok(StoredPackage::WithComponents(c)) => {
            assert_eq!(c.len(), 2);
            assert_eq!(c[0].tag.path, "spk/pkg/my-pkg/1.0.0..r.1/XYZ/run");
            assert!(c[0].component.is_run());
        }
        _ => panic!("expected components"),
    }
    match lookup_package(&pkg, &strings(&["sub/"]), true) {
        Ok(p) => {
            assert!(!p.has_components());
            assert_eq!(p.tags().len(), 1);
            let cmpts = p.into_components();
            assert_eq!(cmpts.len(), 2);
            assert!(matches!(cmpts[0].component, Component::Build));
            assert!(cmpts[1].component.is_run());
        }
        Err(_) => panic!("expected the legacy package"),
    }
    assert!(matches!(lookup_package(&pkg, &strings(&[]), false), Err(SpkError::PackageNotFound(_))));
    let legacy_src = StoredPackage::WithoutComponents(TagSpec { path: "spk/pkg/x/1/src".into() });
    let cmpts = legacy_src.into_components();
    assert_eq!(cmpts.len(), 1);
    assert!(cmpts[0].component.is_source());
}

#[test]
fn lookup_lists_each_component_once() {
    let pkg = ident(Some(Build::Digest("XYZ".into())));
    match lookup_package(&pkg, &strings(&["run", "lib", "run"]), false) {
        Ok(StoredPackage::WithComponents(c)) => {
            assert_eq!(c.len(), 2);
            assert!(c[0].component.is_run());
            assert_eq!(c[1].tag.path, "spk/pkg/my-pkg/1.0.0..r.1/XYZ/lib");
        }
        _ => panic!("expected components"),
    }
}

#[test]
fn publishing_rules() {
    assert!(check_publish_spec(&ident(None), false).is_ok());
    assert!(matches!(check_publish_spec(&ident(None), true), Err(SpkError::VersionExists(_))));
    assert!(matches!(
        check_publish_spec(&ident(Some(Build::Source)), false),
        Err(SpkError::InvalidBuild { .. })
    ));
    assert!(check_force_publish_spec(&ident(Some(Build::Source))).is_ok());
    assert!(matches!(
        check_force_publish_spec(&ident(Some(Build::Embedded))),
        Err(SpkError::InvalidBuild { .. })
    ));
    let d = |n| Digest::new(n, 0, 0, 0);
    let comps = vec![
        ComponentDigest { component: Component::Build, digest: d(1) },
        ComponentDigest { component: Component::Run, digest: d(2) },
    ];
    let pushes = publish_package_tags(&ident(Some(Build::Digest("B".into()))), &comps).unwrap();
    assert_eq!(pushes.len(), 3);
    assert_eq!(pushes[0].path, "spk/pkg/my-pkg/1.0.0..r.1/B");
    assert_eq!(pushes[0].digest, d(2));
    assert_eq!(pushes[1].path, "spk/pkg/my-pkg/1.0.0..r.1/B/build");
    assert_eq!(pushes[2].path, "spk/pkg/my-pkg/1.0.0..r.1/B/run");
    match publish_package_tags(&ident(Some(Build::Source)), &comps) {
        Err(SpkError::MissingComponent { message }) => {
            assert_eq!(message, "Package must have a source component to be published")
        }
        _ => panic!("expected a missing source component"),
    }
}

#[test]
fn removal_and_metadata_outcomes() {
    assert!(remove_spec_outcome(&ident(None), Ok(())).is_ok());
    assert!(matches!(
        remove_spec_outcome(&ident(None), Err(StorageError::UnknownObject)),
        Err(SpkError::PackageNotFound(_))
    ));
    assert!(remove_package_tag_outcome(Err(StorageError::UnknownObject)).is_ok());
    assert!(matches!(
        remove_package_tag_outcome(Err(StorageError::Unavailable)),
        Err(SpkError::Storage(StorageError::Unavailable))
    ));
    let d = Digest::new(5, 0, 0, 0);
    assert!(matches!(metadata_target(Ok(d)), Ok(Some(x)) if x == d));
    assert!(matches!(metadata_target(Err(StorageError::UnknownObject)), Ok(None)));
}

#[test]
fn repositories_from_config() {
    let config = Config {
        user: User::from_system(None, None),
        storage: Storage::from_expanded_root(Some("/var/spfs".into())),
        filesystem: Filesystem::default(),
        remote: vec![NamedRemote {
            name: "origin".into(),
            remote: Remote::Address(RemoteAddress { address: "tar:///x.tar".into() }),
        }],
    };
    let local = local_repository(&config);
    assert_eq!(local.address(), "/var/spfs");
    assert!(!local.flush());
    let remote = remote_repository(&config, "origin").unwrap();
    assert!(remote.flush());
    assert!(!remote.eq(&local));
    assert!(local.eq(&local_repository(&config)));
    let relative = Config {
        user: User::from_system(None, None),
        storage: Storage::from_expanded_root(Some("spfs-store".into())),
        filesystem: Filesystem::default(),
        remote: vec![],
    };
    assert_eq!(local_repository(&relative).address(), "spfs-store");
    // no name: the default repository, the local one
    assert_eq!(remote_repository(&config, "").unwrap().address(), "/var/spfs");
    assert!(SPFSRepository::new("::bad::").is_err());
}

use spfs::misc::HasLocation;
use spfs::ident::{Build, Component, Ident};
use spfs::meta::{JsonField, JsonValue, Label, Meta, MetaError};
use spfs::misc::{
    build_color, format_build, pending_migrations, split_external_command, BuildColor, Command,
    CommandArgs, Object, Version,
};
use spfs::tracking::Manifest;

#[test]
fn component_names() {
    assert!(matches!(Component::parse("run"), Some(Component::Run)));
    assert!(matches!(Component::parse("src"), Some(Component::Source)));
    assert!(matches!(Component::parse("all"), Some(Component::All)));
    assert!(matches!(Component::parse("build"), Some(Component::Build)));
    match Component::parse("valid") {
        Some(Component::Named(n)) => assert_eq!(n, "valid"),
        _ => panic!("expected a named component"),
    }
    assert!(Component::parse("invalid!").is_none());
    assert!(Component::parse("in_valid").is_none());
    assert!(Component::parse("").is_none());
    assert_eq!(Component::Source.as_string(), "src");
    let named = Component::Named("docs".into());
    assert!(matches!(Component::parse(&named.as_string()), Some(Component::Named(n)) if n == "docs"));
}

#[test]
fn idents_display() {
    let i = Ident { name: "pkg".into(), version: "1.2.3".into(), build: Some(Build::Embedded) };
    assert_eq!(i.to_string(), "pkg/1.2.3/embedded");
    assert_eq!(i.with_build(None).to_string(), "pkg/1.2.3");
    assert_eq!(Build::Source.to_string(), "src");
}

#[test]
fn labels_and_metadata_commands() {
    let mut meta = Meta::default();
    assert!(meta.is_default());
    meta.set_label("team".into(), "fx".into());
    assert!(meta.has_label_with_value("team", "fx"));
    assert!(!meta.has_label_with_value("team", "other"));
    assert!(!meta.has_label_with_value("missing", "fx"));
    meta.set_label("team".into(), "pipeline".into());
    assert_eq!(meta.labels.len(), 1);
    assert!(meta.has_label_with_value("team", "pipeline"));
    assert!(!meta.is_default());
    meta.apply_command_output(br#"{"owner": "alice", "count": 3, "team": "lighting"}"#).unwrap();
    assert!(meta.has_label_with_value("owner", "alice"));
    assert!(meta.has_label_with_value("team", "lighting"));
    assert!(!meta.has_label_with_value("count", "3"));
    meta.apply_command_output(b"[1, 2]").unwrap();
    assert_eq!(meta.labels.len(), 2);
    assert!(matches!(meta.apply_command_output(b"not json"), Err(MetaError::InvalidJson { .. })));
    assert_eq!(meta.labels.len(), 2);
    meta.apply_json(JsonValue::Object(vec![JsonField { key: "owner".into(), value: Some("bob".into()) }]));
    assert!(meta.has_label_with_value("owner", "bob"));
    meta.apply_json(JsonValue::Other);
    assert!(meta.has_label_with_value("owner", "bob"));
    meta.set_label("alpha".into(), "1".into());
    meta.set_label("zeta".into(), "2".into());
    let keys: Vec<&str> = meta.labels.iter().map(|l| l.key.as_str()).collect();
    assert_eq!(keys, vec!["alpha", "owner", "team", "zeta"]);
    assert!(meta.check_well_formed());
    let unordered = Meta {
        description: None,
        homepage: None,
        license: None,
        labels: vec![Label { key: "b".into(), value: "1".into() }, Label { key: "a".into(), value: "2".into() }],
    };
    assert!(!unordered.check_well_formed());
    let with_label = Meta {
        description: None,
        homepage: None,
        license: None,
        labels: vec![Label { key: "k".into(), value: "v".into() }],
    };
    assert!(with_label.has_label_with_value("k", "v"));
}

#[test]
fn commands_and_arguments() {
    assert_eq!(Command::LsTags.command_name(), "lstags");
    assert_eq!(Command::External(vec![]).command_name(), "external");
    assert!(split_external_command(vec![]).is_none());
    let (cmd, rest) =
        split_external_command(vec!["render".into(), "a".into(), "b".into()]).unwrap();
    assert_eq!(cmd, "render");
    assert_eq!(rest, vec!["a".to_string(), "b".to_string()]);
    assert!(Version {}.get_positional_args().is_empty());
    assert!(Object::Manifest(Manifest::new()).child_objects().is_empty());
}

#[test]
fn migrations_by_major_version() {
    let versions = vec!["0.9.0".to_string(), "1.0.0".to_string(), "2.1.0".to_string()];
    assert_eq!(pending_migrations(0, &versions), Some(vec![1, 2]));
    assert_eq!(pending_migrations(1, &versions), Some(vec![2]));
    assert_eq!(pending_migrations(5, &versions), Some(vec![]));
    assert_eq!(pending_migrations(0, &vec!["x".to_string()]), None);
    assert_eq!(pending_migrations(0, &vec![]), Some(vec![]));
}

#[test]
fn builds_show_in_colors() {
    assert_eq!(build_color(&Build::Embedded), BuildColor::BrightMagenta);
    assert_eq!(build_color(&Build::Source), BuildColor::BrightYellow);
    assert_eq!(build_color(&Build::Digest("X".into())), BuildColor::Dimmed);
    assert!(format_build(&Build::Source).contains("src"));
}

#[test]
fn format_build_frames_the_text_in_its_color() {
    let shown = format_build(&Build::Digest("ABC123".into()));
    assert!(shown == "ABC123" || shown == "\x1B[2mABC123\x1B[0m" || shown == "ABC123\x1B[0m");
    let shown = format_build(&Build::Embedded);
    assert!(shown == "embedded" || shown == "\x1B[95membedded\x1B[0m" || shown == "embedded\x1B[0m");
    let shown = format_build(&Build::Source);
    assert!(shown == "src" || shown == "\x1B[93msrc\x1B[0m" || shown == "src\x1B[0m");
}

struct Located {
    repo: spfs::misc::RepositoryName,
}

impl HasLocation for Located {
    fn located_at(&self) -> spfs::misc::RepositoryName {
        spfs::misc::RepositoryName { name: self.repo.name.clone() }
    }

    fn location(&self) -> &spfs::misc::RepositoryName {
        &self.repo
    }
}

#[test]
fn locations_pass_through_references() {
    let item = std::sync::Arc::new(Located { repo: spfs::misc::RepositoryName { name: "origin".into() } });
    assert_eq!(item.location().name, "origin");
    let by_ref: &Located = &item;
    assert_eq!(HasLocation::location(&by_ref).name, "origin");
}

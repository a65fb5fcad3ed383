use spfs::diff::{compute_diff, diff_path, format_octal6, Diff, DiffMode, DiffPathResult};
use spfs::graph::{Digest, EntryKind};
use spfs::text::compare_paths;
use spfs::tracking::{Entry, Manifest, ManifestNode};

fn e(kind: EntryKind, mode: u32, size: u64, n: u64, data: &str) -> Entry<String> {
    Entry { kind, object: Digest::new(n, 0, 0, 0), mode, size, user_data: data.to_string() }
}

fn manifest(nodes: Vec<(&str, Entry<String>)>) -> Manifest<String> {
    let m = Manifest {
        nodes: nodes
            .into_iter()
            .map(|(p, entry)| ManifestNode { path: p.to_string(), entry })
            .collect(),
    };
    assert!(m.check_well_formed());
    m
}

fn modes(d: &[Diff<String, String>]) -> Vec<(String, String)> {
    d.iter().map(|x| (x.mode.to_string(), x.path.clone())).collect()
}

#[test]
fn paths_order_by_component() {
    assert!(compare_paths("a/b", "a-b") < 0);
    assert!(compare_paths("a/c", "ab") < 0);
    assert!(compare_paths("a", "a/b") < 0);
    assert_eq!(compare_paths("x/y", "x/y"), 0);
    assert!(compare_paths("b", "a") > 0);
    let unsorted = Manifest::<String> {
        nodes: vec![
            ManifestNode { path: "b".into(), entry: e(EntryKind::Blob, 0, 0, 1, "") },
            ManifestNode { path: "a".into(), entry: e(EntryKind::Blob, 0, 0, 1, "") },
        ],
    };
    assert!(!unsorted.check_well_formed());
}

#[test]
fn diff_reports_every_path_in_order() {
    let a = manifest(vec![
        ("dir", e(EntryKind::Tree, 0o40755, 0, 1, "a")),
        ("dir/changed", e(EntryKind::Blob, 0o100644, 3, 2, "a")),
        ("dir/same", e(EntryKind::Blob, 0o100644, 4, 3, "a-user")),
        ("masked", e(EntryKind::Blob, 0o100644, 1, 4, "a")),
        ("removed", e(EntryKind::Blob, 0o100644, 1, 5, "a")),
    ]);
    let b = manifest(vec![
        ("added", e(EntryKind::Blob, 0o100644, 1, 6, "b")),
        ("dir", e(EntryKind::Tree, 0o40755, 0, 1, "b")),
        ("dir/changed", e(EntryKind::Blob, 0o100755, 3, 9, "b")),
        ("dir/same", e(EntryKind::Blob, 0o100644, 4, 3, "b-user")),
        ("ghost", e(EntryKind::Mask, 0, 0, 0, "b")),
        ("masked", e(EntryKind::Mask, 0, 0, 0, "b")),
    ]);
    let d = compute_diff(&a, &b);
    let expected: Vec<(String, String)> = vec![
        ("+", "added"),
        ("=", "dir"),
        ("~", "dir/changed"),
        ("=", "dir/same"),
        ("-", "masked"),
        ("-", "removed"),
    ]
    .into_iter()
    .map(|(m, p)| (m.to_string(), p.to_string()))
    .collect();
    assert_eq!(modes(&d), expected);
    // the unchanged entry keeps the user data of the left side
    assert_eq!(d[3].mode.user_data(), "a-user");
    assert_eq!(d[2].to_string(), "~ dir/changed {100644 => 100755} {!content!}");
    assert!(d[1].mode.is_dir());
    assert!(d[0].mode.is_added() && d[2].mode.is_changed() && d[4].mode.is_removed());
    assert!(d[1].mode.is_unchanged());
    assert_eq!(d[1].to_string(), "= dir");
}

#[test]
fn diff_path_outcomes() {
    let a = manifest(vec![("x", e(EntryKind::Blob, 0o644, 1, 1, "a"))]);
    let b = manifest(vec![("y", e(EntryKind::Mask, 0, 0, 0, "b"))]);
    assert!(matches!(diff_path(&a, &b, "nowhere"), DiffPathResult::PathMissingFromBothManifests));
    assert!(matches!(diff_path(&a, &b, "y"), DiffPathResult::UselessMask));
    assert!(matches!(
        diff_path(&a, &b, "x"),
        DiffPathResult::Diff(Diff { mode: DiffMode::Removed(_), .. })
    ));
    let kind_change = manifest(vec![("x", e(EntryKind::Tree, 0o644, 1, 1, "b"))]);
    match diff_path(&a, &kind_change, "x") {
        DiffPathResult::Diff(d) => assert_eq!(d.details(), " {file => tree}"),
        _ => panic!("expected a diff"),
    }
}

#[test]
fn diff_with_itself_is_unchanged() {
    let a = manifest(vec![
        ("a", e(EntryKind::Tree, 0o40755, 0, 1, "")),
        ("a/b", e(EntryKind::Blob, 0o644, 2, 2, "")),
    ]);
    let d = compute_diff(&a, &a);
    assert_eq!(d.len(), 2);
    assert!(d.iter().all(|x| x.mode.is_unchanged()));
    let empty = Manifest::<String>::new();
    assert!(compute_diff(&empty, &a).iter().all(|x| x.mode.is_added()));
    assert!(compute_diff(&a, &empty).iter().all(|x| x.mode.is_removed()));
    assert_eq!(compute_diff(&empty, &empty).len(), 0);
}

#[test]
fn octal_modes_pad_to_six_digits() {
    assert_eq!(format_octal6(0o644), "000644");
    assert_eq!(format_octal6(0), "000000");
    assert_eq!(format_octal6(0o100644), "100644");
    assert_eq!(format_octal6(0o7777777), "7777777");
}

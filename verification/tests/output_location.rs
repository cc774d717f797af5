use std::collections::hash_map::DefaultHasher;
use std::hash::{Hash, Hasher};
use tpcgen_cli::output_location::{OutputLocation, WriteAction};

#[test]
fn new_selects_stdout_or_directory() {
    assert_eq!(OutputLocation::new(true, "out".to_string(), false), OutputLocation::Stdout);
    assert_eq!(
        OutputLocation::new(false, "out".to_string(), true),
        OutputLocation::File { path: "out".to_string(), overwrite: true }
    );
}

#[test]
fn join_appends_to_files_and_keeps_stdout() {
    let dir = OutputLocation::new(false, "/tmp/tpch".to_string(), false);
    assert_eq!(
        dir.join("lineitem.parquet"),
        OutputLocation::File { path: "/tmp/tpch/lineitem.parquet".to_string(), overwrite: false }
    );
    assert_eq!(OutputLocation::Stdout.join("lineitem.parquet"), OutputLocation::Stdout);
}

#[test]
fn empty_dir_is_only_an_empty_path() {
    assert!(OutputLocation::new(false, String::new(), false).is_empty_dir());
    assert!(!OutputLocation::new(false, "x".to_string(), false).is_empty_dir());
    assert!(!OutputLocation::Stdout.is_empty_dir());
}

#[test]
fn existing_files_are_skipped_unless_overwritten() {
    let keep = OutputLocation::new(false, "a.tbl".to_string(), false);
    let overwrite = OutputLocation::new(false, "a.tbl".to_string(), true);
    assert_eq!(keep.write_action(true), WriteAction::Skip);
    assert_eq!(keep.write_action(false), WriteAction::File);
    assert_eq!(overwrite.write_action(true), WriteAction::File);
    assert_eq!(OutputLocation::Stdout.write_action(true), WriteAction::Stdout);
}

#[test]
fn display_name_is_the_file_name() {
    let location = OutputLocation::new(false, "/tmp/tpch".to_string(), false).join("part.tbl");
    assert_eq!(location.display_name(), "part.tbl");
    assert_eq!(OutputLocation::new(false, "/".to_string(), false).display_name(), "/");
    assert_eq!(OutputLocation::Stdout.display_name(), "Stdout");
}

#[test]
fn locations_compare_paths_by_component() {
    let a = OutputLocation::new(false, "/tmp//x".to_string(), false);
    let b = OutputLocation::new(false, "/tmp/x".to_string(), false);
    let c = OutputLocation::new(false, "/tmp/x".to_string(), true);
    assert_eq!(a, b);
    assert_ne!(b, c);
    assert_ne!(a, OutputLocation::Stdout);
    let hash = |location: &OutputLocation| {
        let mut hasher = DefaultHasher::new();
        location.hash(&mut hasher);
        hasher.finish()
    };
    assert_eq!(hash(&a), hash(&b));
}

use codeatlas::parsers::rust_imports::{crate_src_dirs, manifest_path, package_name_of, resolve_rust_import};

fn files() -> Vec<String> {
    [
        "src/lib.rs",
        "src/map.rs",
        "src/parsers/mod.rs",
        "src/parsers/rust.rs",
        "tests/walks.rs",
        "crates/atlas-engine/src/lib.rs",
        "crates/atlas-engine/src/graph.rs",
        "crates/atlas-engine/notsrc/lib.rs",
    ]
    .iter()
    .map(|s| s.to_string())
    .collect()
}

fn manifests() -> Vec<(String, Option<String>)> {
    vec![
        ("crates/atlas-engine/src".to_string(), None),
        ("src".to_string(), Some("[package]\nname = \"codeatlas\"\nversion = \"0.1.0\"\n".to_string())),
    ]
}

fn resolve(importer: &str, specifier: &str) -> Option<String> {
    resolve_rust_import(importer, specifier, &files(), &manifests())
}

#[test]
fn a_mod_declaration_lands_on_the_sibling_file() {
    assert_eq!(resolve("src/lib.rs", "mod map"), Some("src/map.rs".to_string()));
    assert_eq!(resolve("src/lib.rs", "mod parsers"), Some("src/parsers/mod.rs".to_string()));
}

#[test]
fn crate_self_and_super_paths_walk_the_src_layout() {
    assert_eq!(resolve("src/parsers/rust.rs", "crate::map::Node"), Some("src/map.rs".to_string()));
    assert_eq!(resolve("src/parsers/mod.rs", "self::rust::walk"), Some("src/parsers/rust.rs".to_string()));
    assert_eq!(resolve("src/parsers/rust.rs", "super::super::map"), Some("src/map.rs".to_string()));
    assert_eq!(resolve("src/parsers/rust.rs", "super"), Some("src/parsers/mod.rs".to_string()));
    assert_eq!(resolve("src/map.rs", "crate"), Some("src/lib.rs".to_string()));
}

#[test]
fn external_crates_and_std_resolve_to_nothing() {
    assert_eq!(resolve("src/map.rs", "std::collections::HashMap"), None);
    assert_eq!(resolve("src/map.rs", "serde::Serialize"), None);
    assert_eq!(resolve("tests/walks.rs", "crate::map"), None);
}

#[test]
fn a_crate_named_outright_resolves_by_manifest_or_directory() {
    assert_eq!(resolve("tests/walks.rs", "codeatlas::map::Node"), Some("src/map.rs".to_string()));
    assert_eq!(resolve("src/map.rs", "atlas_engine::graph"), Some("crates/atlas-engine/src/graph.rs".to_string()));
    assert_eq!(resolve("src/map.rs", "atlas_engine::helper"), Some("crates/atlas-engine/src/lib.rs".to_string()));
    assert_eq!(resolve("src/map.rs", "atlas_engine"), Some("crates/atlas-engine/src/lib.rs".to_string()));
}

#[test]
fn crate_roots_are_listed_once_in_order() {
    let mut with_dup = files();
    with_dup.push("src/main.rs".to_string());
    assert_eq!(crate_src_dirs(&with_dup), vec!["crates/atlas-engine/src".to_string(), "src".to_string()]);
}

#[test]
fn the_package_name_comes_from_the_package_table_only() {
    let toml = "[package.metadata]\nname = \"decoy\"\n[package]\n  name = \"real-one\"\n";
    assert_eq!(package_name_of(toml), Some("real-one".to_string()));
    assert_eq!(package_name_of("[workspace]\nname = \"w\"\n"), None);
    assert_eq!(package_name_of("[package]\nname = unquoted\n"), None);
}

#[test]
fn a_crate_keeps_its_manifest_beside_its_src() {
    assert_eq!(manifest_path("crates/atlas-engine/src"), Some("crates/atlas-engine/Cargo.toml".to_string()));
    assert_eq!(manifest_path("src"), Some("Cargo.toml".to_string()));
    assert_eq!(manifest_path("lib"), None);
}

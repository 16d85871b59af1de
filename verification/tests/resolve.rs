use codeatlas::map::EdgeKind;
use codeatlas::parsers::resolvers::{resolve_c_include, resolve_es_import, resolve_py_import, resolve_py_name_as_module, PAIR};
use codeatlas::parsers::{for_extension, resolve_markdown_link, Call, Import, ImportedName, Reexport, SourceLanguage};
use codeatlas::scan::resolve::{receiver_path_of, resolve_calls, resolve_imports, FileFacts, ImportTargets};

fn files(list: &[&str]) -> Vec<String> {
    list.iter().map(|s| s.to_string()).collect()
}

fn some(s: &str) -> Option<String> {
    Some(s.to_string())
}

#[test]
fn es_specifiers_resolve_relative_paths_with_inference() {
    let f = files(&["src/app/util.ts", "src/lib/x.ts", "src/app/comp/index.tsx", "src/app/data.json"]);
    assert_eq!(resolve_es_import("src/app/main.ts", "./util", &f), some("src/app/util.ts"));
    assert_eq!(resolve_es_import("src/app/main.ts", "../lib/x.js", &f), some("src/lib/x.ts"));
    assert_eq!(resolve_es_import("src/app/main.ts", "./comp", &f), some("src/app/comp/index.tsx"));
    assert_eq!(resolve_es_import("src/app/main.ts", "./data.json", &f), some("src/app/data.json"));
    assert_eq!(resolve_es_import("src/app/main.ts", "react", &f), None, "packages are not part of the map");
    assert_eq!(resolve_es_import("src/main.ts", "../../../x", &f), None, "escaping the root resolves nothing");
}

#[test]
fn a_real_js_file_is_never_shadowed_by_its_typescript_source() {
    let f = files(&["src/x.js", "src/x.ts"]);
    assert_eq!(resolve_es_import("src/main.ts", "./x.js", &f), some("src/x.js"));
}

#[test]
fn python_modules_resolve_relative_absolute_and_beside_the_script() {
    let f = files(&["pkg/util.py", "pkg/core/__init__.py", "scripts/helpers.py", "pkg/__init__.py"]);
    assert_eq!(resolve_py_import("pkg/mod.py", ".util", &f), some("pkg/util.py"));
    assert_eq!(resolve_py_import("pkg/sub/mod.py", "..core", &f), some("pkg/core/__init__.py"));
    assert_eq!(resolve_py_import("anywhere/x.py", "pkg.util", &f), some("pkg/util.py"));
    assert_eq!(resolve_py_import("scripts/run.py", "helpers", &f), some("scripts/helpers.py"));
    assert_eq!(resolve_py_import("pkg/mod.py", ".", &f), some("pkg/__init__.py"));
    assert_eq!(resolve_py_import("top.py", "...far", &f), None, "escaping the repository");
    assert_eq!(resolve_py_import("x.py", "requests", &f), None);
}

#[test]
fn a_python_name_may_be_a_module_in_its_own_right() {
    let f = files(&["pkg/util.py", "pkg/__init__.py"]);
    assert_eq!(resolve_py_name_as_module("main.py", "pkg", "util", &f), some("pkg/util.py"));
    assert_eq!(resolve_py_name_as_module("pkg/a.py", ".", "util", &f), some("pkg/util.py"));
    assert_eq!(resolve_py_name_as_module("main.py", "pkg", "helper", &f), None);
}

#[test]
fn c_includes_resolve_beside_the_includer_then_from_the_root() {
    let f = files(&["src/util.h", "include/api.h", "include/api.c", "src/impl.cc", "src/impl.hpp"]);
    assert_eq!(resolve_c_include("src/main.c", "util.h", &f, false), some("src/util.h"));
    assert_eq!(resolve_c_include("src/main.c", "include/api.h", &f, false), some("include/api.h"));
    assert_eq!(resolve_c_include("src/main.c", "../include/api.h", &f, false), some("include/api.h"));
    assert_eq!(resolve_c_include("main.c", "../x.h", &f, false), None);
    assert_eq!(resolve_c_include("src/main.c", "/usr/include/stdio.h", &f, false), None);
    assert_eq!(resolve_c_include("include/api.h", PAIR, &f, false), some("include/api.c"));
    assert_eq!(resolve_c_include("src/impl.hpp", PAIR, &f, true), some("src/impl.cc"));
}

#[test]
fn markdown_links_resolve_exactly_and_never_escape() {
    let f = files(&["docs/guide.md", "src/lib.rs"]);
    assert_eq!(resolve_markdown_link("docs/index.md", "guide.md", &f), some("docs/guide.md"));
    assert_eq!(resolve_markdown_link("docs/index.md", "../src/lib.rs", &f), some("src/lib.rs"));
    assert_eq!(resolve_markdown_link("index.md", "../outside.md", &f), None);
}

#[test]
fn every_listed_extension_finds_its_language() {
    assert_eq!(for_extension("tsx"), Some(SourceLanguage::Tsx));
    assert_eq!(for_extension("cjs"), Some(SourceLanguage::JavaScript));
    assert_eq!(for_extension("hh"), Some(SourceLanguage::Cpp));
    assert_eq!(for_extension("h"), Some(SourceLanguage::C));
    assert_eq!(for_extension("markdown"), Some(SourceLanguage::Markdown));
    assert_eq!(for_extension("txt"), None);
    assert_eq!(SourceLanguage::Cpp.language_name(), "C++");
    assert!(SourceLanguage::Go.directory_shares_scope());
    assert!(!SourceLanguage::Rust.directory_shares_scope());
}

fn import(specifier: &str, names: &[(&str, &str)], namespaces: &[&str]) -> Import {
    Import {
        specifier: specifier.into(),
        names: names.iter().map(|(local, imported)| ImportedName { local: local.to_string(), imported: imported.to_string() }).collect(),
        namespaces: namespaces.iter().map(|s| s.to_string()).collect(),
    }
}

fn call(caller: &str, callee: &str, receiver: &[&str]) -> Call {
    Call { caller: caller.into(), callee: callee.into(), receiver: receiver.iter().map(|s| s.to_string()).collect() }
}

fn facts(path: &str, language: Option<SourceLanguage>, functions: &[&str], exported: &[&str]) -> FileFacts {
    FileFacts {
        path: path.into(),
        language,
        imports: Vec::new(),
        calls: Vec::new(),
        functions: functions.iter().map(|s| s.to_string()).collect(),
        exported_functions: exported.iter().map(|s| s.to_string()).collect(),
        reexports: Vec::new(),
        import_targets: Vec::new(),
        reexport_targets: Vec::new(),
        receiver_targets: Vec::new(),
    }
}

fn pairs(edges: &[codeatlas::map::Edge]) -> Vec<(String, String)> {
    edges.iter().map(|e| (e.source.0.clone(), e.target.0.clone())).collect()
}

#[test]
fn imports_become_file_edges_once_and_only_inside_the_map() {
    let mut a = facts("src/a.ts", Some(SourceLanguage::TypeScript), &["main"], &[]);
    a.imports = vec![import("./b", &[("go", "go")], &[]), import("./b", &[], &[]), import("react", &[], &[])];
    a.import_targets = vec![
        ImportTargets { specifier: some("src/b.ts"), names: vec![None] },
        ImportTargets { specifier: some("src/b.ts"), names: vec![] },
        ImportTargets { specifier: None, names: vec![] },
    ];
    let b = facts("src/b.ts", Some(SourceLanguage::TypeScript), &["go"], &["go"]);
    let plain = facts("README", None, &[], &[]);
    let edges = resolve_imports(&vec![a, b, plain]);
    assert_eq!(pairs(&edges), vec![("file:src/a.ts".to_string(), "file:src/b.ts".to_string())]);
    assert!(edges.iter().all(|e| e.kind == EdgeKind::Imports));
}

#[test]
fn a_name_that_is_a_module_reaches_that_file_as_well() {
    let mut a = facts("main.py", Some(SourceLanguage::Python), &[], &[]);
    a.imports = vec![import("pkg", &[("util", "util"), ("helper", "helper")], &[])];
    a.import_targets = vec![ImportTargets { specifier: some("pkg/__init__.py"), names: vec![some("pkg/util.py"), None] }];
    let edges = resolve_imports(&vec![a]);
    assert_eq!(
        pairs(&edges),
        vec![
            ("file:main.py".to_string(), "file:pkg/util.py".to_string()),
            ("file:main.py".to_string(), "file:pkg/__init__.py".to_string()),
        ]
    );
}

#[test]
fn calls_resolve_locally_then_through_exporting_imports() {
    let mut a = facts("src/a.ts", Some(SourceLanguage::TypeScript), &["main", "helper"], &[]);
    a.imports = vec![import("./b", &[("go", "go"), ("hidden", "hidden")], &[])];
    a.import_targets = vec![ImportTargets { specifier: some("src/b.ts"), names: vec![None, None] }];
    a.calls = vec![
        call("main", "helper", &[]),
        call("main", "go", &[]),
        call("main", "go", &[]),
        call("main", "hidden", &[]),
        call("main", "nowhere", &[]),
        call("ghost", "helper", &[]),
    ];
    let b = facts("src/b.ts", Some(SourceLanguage::TypeScript), &["go", "hidden"], &["go"]);
    let edges = resolve_calls(&vec![a, b]);
    assert_eq!(
        pairs(&edges),
        vec![
            ("function:src/a.ts:main".to_string(), "function:src/a.ts:helper".to_string()),
            ("function:src/a.ts:main".to_string(), "function:src/b.ts:go".to_string()),
        ],
        "an unexported callee, an unknown one and an unknown caller are all dropped"
    );
    assert!(edges.iter().all(|e| e.kind == EdgeKind::Calls));
}

#[test]
fn a_reexport_is_followed_exactly_one_hop() {
    let mut a = facts("src/a.ts", Some(SourceLanguage::TypeScript), &["main"], &[]);
    a.imports = vec![import("./index", &[("run", "run"), ("alias", "alias")], &[])];
    a.import_targets = vec![ImportTargets { specifier: some("src/index.ts"), names: vec![None, None] }];
    a.calls = vec![call("main", "run", &[]), call("main", "alias", &[])];
    let mut index = facts("src/index.ts", Some(SourceLanguage::TypeScript), &["inner"], &["inner"]);
    index.reexports = vec![
        Reexport { exported: "run".into(), local: "run".into(), specifier: some("./impl") },
        Reexport { exported: "alias".into(), local: "inner".into(), specifier: None },
    ];
    index.reexport_targets = vec![some("src/impl.ts"), None];
    let imp = facts("src/impl.ts", Some(SourceLanguage::TypeScript), &["run"], &["run"]);
    let edges = resolve_calls(&vec![a, index, imp]);
    assert_eq!(
        pairs(&edges),
        vec![
            ("function:src/a.ts:main".to_string(), "function:src/impl.ts:run".to_string()),
            ("function:src/a.ts:main".to_string(), "function:src/index.ts:inner".to_string()),
        ]
    );
}

#[test]
fn a_qualified_call_goes_through_its_receivers_module_only() {
    let mut a = facts("main.py", Some(SourceLanguage::Python), &["main", "helper"], &[]);
    a.imports = vec![import("pkg.util", &[], &["util"])];
    a.import_targets = vec![ImportTargets { specifier: some("pkg/util.py"), names: vec![] }];
    a.calls = vec![call("main", "helper", &["util"]), call("main", "helper", &["logger"])];
    a.receiver_targets = vec![None, None];
    let util = facts("pkg/util.py", Some(SourceLanguage::Python), &["helper"], &["helper"]);
    let edges = resolve_calls(&vec![a, util]);
    assert_eq!(pairs(&edges), vec![("function:main.py:main".to_string(), "function:pkg/util.py:helper".to_string())]);
}

#[test]
fn a_go_package_shares_one_namespace_per_directory() {
    let mut a = facts("cmd/a.go", Some(SourceLanguage::Go), &["main"], &[]);
    a.calls = vec![call("main", "helper", &[])];
    let b = facts("cmd/b.go", Some(SourceLanguage::Go), &["helper"], &["helper"]);
    let other = facts("lib/c.go", Some(SourceLanguage::Go), &["helper"], &["helper"]);
    let edges = resolve_calls(&vec![a, b, other]);
    assert_eq!(pairs(&edges), vec![("function:cmd/a.go:main".to_string(), "function:cmd/b.go:helper".to_string())]);
}

#[test]
fn a_receiver_is_written_back_the_way_its_language_writes_module_paths() {
    let mut r = facts("src/main.rs", Some(SourceLanguage::Rust), &[], &[]);
    r.calls = vec![call("main", "f", &["crate", "util"])];
    assert_eq!(receiver_path_of(&r, 0), "crate::util");
    let mut p = facts("main.py", Some(SourceLanguage::Python), &[], &[]);
    p.calls = vec![call("main", "f", &["pkg", "util"])];
    assert_eq!(receiver_path_of(&p, 0), "pkg.util");
}

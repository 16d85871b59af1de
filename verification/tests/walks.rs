use codeatlas::highlight::Grammar;
use codeatlas::parsers::c_cpp::parse_c_family;
use codeatlas::parsers::go::parse_go;
use codeatlas::parsers::rust::parse_rust;
use codeatlas::parsers::python::{parse_python, python_analysis};
use codeatlas::parsers::syntax::{syntax, SyntaxNode};
use codeatlas::parsers::ts_js::parse_ecmascript;
use codeatlas::parsers::{Analysis, SymbolKind};

fn symbols(a: &Analysis) -> Vec<(SymbolKind, String, u32, u32, bool)> {
    a.symbols.iter().map(|s| (s.kind, s.name.clone(), s.start_line, s.end_line, s.exported)).collect()
}

fn imports(a: &Analysis) -> Vec<(String, Vec<(String, String)>, Vec<String>)> {
    a.imports
        .iter()
        .map(|i| {
            (
                i.specifier.clone(),
                i.names.iter().map(|n| (n.local.clone(), n.imported.clone())).collect(),
                i.namespaces.clone(),
            )
        })
        .collect()
}

fn calls(a: &Analysis) -> Vec<(String, String, Vec<String>)> {
    a.calls.iter().map(|c| (c.caller.clone(), c.callee.clone(), c.receiver.clone())).collect()
}

fn s(x: &str) -> String {
    x.to_string()
}

const PYTHON: &str = "import os.path
import numpy as np
from .util import helper, other as alias
from . import sibling

class Greeter:
    def greet(self, name):
        helper(name)
        self.log()
        np.array([1])
        return pkg.util.other()

def _private():
    pass

def main():
    Greeter().greet(\"x\")
";

#[test]
fn python_definitions_are_qualified_and_exported_by_convention() {
    let a = parse_python(PYTHON);
    assert_eq!(
        symbols(&a),
        vec![
            (SymbolKind::Class, s("Greeter"), 6, 11, true),
            (SymbolKind::Function, s("Greeter.greet"), 7, 11, false),
            (SymbolKind::Function, s("_private"), 13, 14, false),
            (SymbolKind::Function, s("main"), 16, 17, true),
        ]
    );
}

#[test]
fn python_imports_bind_namespaces_and_names() {
    let a = parse_python(PYTHON);
    assert_eq!(
        imports(&a),
        vec![
            (s("os.path"), vec![], vec![s("os.path")]),
            (s("numpy"), vec![], vec![s("np")]),
            (s(".util"), vec![(s("helper"), s("helper")), (s("alias"), s("other"))], vec![]),
            (s("."), vec![(s("sibling"), s("sibling"))], vec![]),
        ]
    );
    assert!(a.reexports.is_empty());
}

#[test]
fn python_calls_carry_their_receiver_path() {
    let a = parse_python(PYTHON);
    assert_eq!(
        calls(&a),
        vec![
            (s("Greeter.greet"), s("helper"), vec![]),
            (s("Greeter.greet"), s("log"), vec![s("self")]),
            (s("Greeter.greet"), s("array"), vec![s("np")]),
            (s("Greeter.greet"), s("other"), vec![s("pkg"), s("util")]),
            (s("main"), s("Greeter"), vec![]),
        ]
    );
}

#[test]
fn python_calls_at_module_level_have_no_caller_and_are_dropped() {
    let a = parse_python("print('hi')\n");
    assert!(a.calls.is_empty());
    assert!(a.symbols.is_empty());
}

fn node(depth: u32, kind: &str, field: Option<&str>, text: Option<&str>) -> SyntaxNode {
    SyntaxNode {
        depth,
        kind: s(kind),
        field: field.map(s),
        named: true,
        start_row: 0,
        end_row: 0,
        text: text.map(s),
    }
}

#[test]
fn a_list_that_is_not_one_tree_yields_nothing() {
    let t = vec![node(0, "module", None, None), node(2, "function_definition", None, None)];
    let a = python_analysis(&t);
    assert!(a.symbols.is_empty() && a.imports.is_empty() && a.calls.is_empty());
}

#[test]
fn a_hand_built_tree_is_read_like_a_parsed_one() {
    let t = vec![
        node(0, "module", None, Some("def f(): pass")),
        node(1, "function_definition", None, Some("def f(): pass")),
        node(2, "identifier", Some("name"), Some("f")),
    ];
    let a = python_analysis(&t);
    assert_eq!(symbols(&a), vec![(SymbolKind::Function, s("f"), 1, 1, true)]);
}

#[test]
fn the_parsed_tree_lists_the_root_first_at_depth_zero() {
    let t = syntax(Grammar::Python, "x = 1\n");
    assert_eq!(t[0].kind, "module");
    assert_eq!(t[0].depth, 0);
    assert!(t.iter().skip(1).all(|n| n.depth >= 1));
}

const TYPESCRIPT: &str = "import { greet, helper as h } from \"./util\";
import * as ns from './ns';
export { local, other as renamed };
export { shared } from \"./shared\";

export function main() {
  greet();
  ns.run();
  this.a.b();
}

export const arrow = () => h();

class Box {
  open() {
    main();
  }
}

function local() {}
";

#[test]
fn typescript_declarations_and_export_clauses() {
    let a = parse_ecmascript(Grammar::TypeScript, TYPESCRIPT);
    assert_eq!(
        symbols(&a),
        vec![
            (SymbolKind::Function, s("main"), 6, 10, true),
            (SymbolKind::Function, s("arrow"), 12, 12, true),
            (SymbolKind::Class, s("Box"), 14, 18, false),
            (SymbolKind::Function, s("Box.open"), 15, 17, false),
            (SymbolKind::Function, s("local"), 20, 20, true),
        ]
    );
}

#[test]
fn typescript_imports_and_reexports() {
    let a = parse_ecmascript(Grammar::TypeScript, TYPESCRIPT);
    assert_eq!(
        imports(&a),
        vec![
            (s("./util"), vec![(s("greet"), s("greet")), (s("h"), s("helper"))], vec![]),
            (s("./ns"), vec![], vec![s("ns")]),
            (s("./shared"), vec![], vec![]),
        ]
    );
    let reexports: Vec<(String, String, Option<String>)> =
        a.reexports.iter().map(|r| (r.exported.clone(), r.local.clone(), r.specifier.clone())).collect();
    assert_eq!(
        reexports,
        vec![
            (s("local"), s("local"), None),
            (s("renamed"), s("other"), None),
            (s("shared"), s("shared"), Some(s("./shared"))),
        ]
    );
}

#[test]
fn typescript_calls_through_identifiers_and_module_receivers() {
    let a = parse_ecmascript(Grammar::TypeScript, TYPESCRIPT);
    assert_eq!(
        calls(&a),
        vec![
            (s("main"), s("greet"), vec![]),
            (s("main"), s("run"), vec![s("ns")]),
            (s("arrow"), s("h"), vec![]),
            (s("Box.open"), s("main"), vec![]),
        ]
    );
}

#[test]
fn javascript_reads_with_its_own_grammar() {
    let a = parse_ecmascript(Grammar::JavaScript, "export function f() { g(); }\nfunction g() {}\n");
    assert_eq!(
        symbols(&a),
        vec![(SymbolKind::Function, s("f"), 1, 1, true), (SymbolKind::Function, s("g"), 2, 2, false)]
    );
    assert_eq!(calls(&a), vec![(s("f"), s("g"), vec![])]);
}

const C_SOURCE: &str = "#include \"util.h\"
#include <stdio.h>

int helper(int x);

static int hidden(void) { return 1; }

int main(void) {
    helper(2);
    hidden();
    printf(\"x\");
    return 0;
}

struct point { int x; };
typedef struct { int y; } frame;
";

#[test]
fn c_definitions_linkage_and_typedef_structs() {
    let a = parse_c_family(Grammar::C, C_SOURCE);
    assert_eq!(
        symbols(&a),
        vec![
            (SymbolKind::Function, s("hidden"), 6, 6, false),
            (SymbolKind::Function, s("main"), 8, 13, true),
            (SymbolKind::Class, s("point"), 15, 15, true),
            (SymbolKind::Class, s("frame"), 16, 16, true),
        ]
    );
}

#[test]
fn c_quoted_includes_are_offered_every_undefined_callee() {
    let a = parse_c_family(Grammar::C, C_SOURCE);
    assert_eq!(
        imports(&a),
        vec![(s("util.h"), vec![(s("helper"), s("helper")), (s("printf"), s("printf"))], vec![])]
    );
    assert_eq!(
        calls(&a),
        vec![(s("main"), s("helper"), vec![]), (s("main"), s("hidden"), vec![]), (s("main"), s("printf"), vec![])]
    );
    let reexports: Vec<(String, String, Option<String>)> =
        a.reexports.iter().map(|r| (r.exported.clone(), r.local.clone(), r.specifier.clone())).collect();
    assert_eq!(reexports, vec![(s("helper"), s("helper"), Some(s("@header-pair")))]);
}

const CPP_SOURCE: &str = "#include \"geo.hpp\"
namespace geo {
int nsq(int k) { return k * k; }
int twice(int k) { return nsq(k) + nsq(k); }
class Circle {
public:
    int area() { return geo::nsq(2); }
};
}
int main() { return geo::twice(1) + nsq(3); }
";

#[test]
fn cpp_namespaced_symbols_and_methods() {
    let a = parse_c_family(Grammar::Cpp, CPP_SOURCE);
    assert_eq!(
        symbols(&a),
        vec![
            (SymbolKind::Function, s("geo::nsq"), 3, 3, true),
            (SymbolKind::Function, s("geo::twice"), 4, 4, true),
            (SymbolKind::Class, s("geo::Circle"), 5, 8, true),
            (SymbolKind::Function, s("geo::Circle.area"), 7, 7, false),
            (SymbolKind::Function, s("main"), 10, 10, true),
        ]
    );
}

#[test]
fn cpp_bare_callees_find_their_enclosing_namespace() {
    let a = parse_c_family(Grammar::Cpp, CPP_SOURCE);
    assert_eq!(
        calls(&a),
        vec![
            (s("geo::twice"), s("geo::nsq"), vec![]),
            (s("geo::twice"), s("geo::nsq"), vec![]),
            (s("geo::Circle.area"), s("geo::nsq"), vec![]),
            (s("main"), s("geo::twice"), vec![]),
            (s("main"), s("nsq"), vec![]),
        ]
    );
    assert_eq!(imports(&a), vec![(s("geo.hpp"), vec![(s("nsq"), s("nsq"))], vec![])]);
}

const RUST_SOURCE: &str = "use crate::util::{greet, fmt as f};
use super::*;
mod helpers;

pub struct Circle<T> { r: T }

impl<T> Circle<T> {
    pub fn area(&self) -> u32 { helper(); 1 }
}

pub fn main() {
    greet();
    Circle::new();
}

fn helper() {}
";

#[test]
fn rust_items_methods_and_visibility() {
    let a = parse_rust(RUST_SOURCE);
    assert_eq!(
        symbols(&a),
        vec![
            (SymbolKind::Class, s("Circle"), 5, 5, true),
            (SymbolKind::Function, s("Circle.area"), 8, 8, false),
            (SymbolKind::Function, s("main"), 11, 14, true),
            (SymbolKind::Function, s("helper"), 16, 16, false),
        ]
    );
    assert_eq!(
        calls(&a),
        vec![(s("Circle.area"), s("helper"), vec![]), (s("main"), s("greet"), vec![])]
    );
}

#[test]
fn rust_use_trees_expand_to_one_import_per_leaf() {
    let a = parse_rust(RUST_SOURCE);
    assert_eq!(
        imports(&a),
        vec![
            (s("crate::util::greet"), vec![(s("greet"), s("greet"))], vec![]),
            (s("crate::util::fmt"), vec![(s("f"), s("fmt"))], vec![]),
            (s("super"), vec![], vec![]),
            (s("mod helpers"), vec![], vec![]),
        ]
    );
}

const GO_SOURCE: &str = "package main

import (
\t\"fmt\"
\tu \"example.com/demo/util\"
\t. \"example.com/demo/dot\"
\t_ \"example.com/demo/side\"
)

type Server struct{}

func (s *Server) Start() {
\tfmt.Println(\"x\")
\thelper()
}

func Main(util string) {
\tu.Run()
\tutil.Format()
\tDotted()
\thelper()
}

func helper() {}
";

#[test]
fn go_declarations_and_exports() {
    let a = parse_go(GO_SOURCE);
    assert_eq!(
        symbols(&a),
        vec![
            (SymbolKind::Class, s("Server"), 10, 10, true),
            (SymbolKind::Function, s("Server.Start"), 12, 15, false),
            (SymbolKind::Function, s("Main"), 17, 22, true),
            (SymbolKind::Function, s("helper"), 24, 24, false),
        ]
    );
}

#[test]
fn go_qualifiers_shadowing_and_dot_imports() {
    let a = parse_go(GO_SOURCE);
    assert_eq!(
        calls(&a),
        vec![
            (s("Server.Start"), s("Println"), vec![s("fmt")]),
            (s("Server.Start"), s("helper"), vec![]),
            (s("Main"), s("Run"), vec![s("u")]),
            (s("Main"), s("Dotted"), vec![]),
            (s("Main"), s("helper"), vec![]),
        ]
    );
    assert_eq!(
        imports(&a),
        vec![
            (s("fmt"), vec![], vec![s("fmt")]),
            (s("example.com/demo/util"), vec![], vec![s("u")]),
            (s("example.com/demo/dot"), vec![(s("Dotted"), s("Dotted"))], vec![]),
            (s("example.com/demo/side"), vec![], vec![]),
        ]
    );
}

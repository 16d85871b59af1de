//! C and C++ facts, read off the syntax tree.
//!
//! - Functions are definitions; a file-scope function not marked `static`
//!   is exported, methods never are. Named structs and classes with a body
//!   are classes, as is the anonymous struct a `typedef` names.
//! - Namespaced symbols carry their qualified name (`geo::nsq`), and a
//!   qualified callee is recorded as its normalized text, so the two match
//!   by name. Methods are `Class.name`.
//! - `#include "…"` is an import; `<…>` includes are not. A file-scope
//!   prototype is a re-export through the header-pair marker, so a call
//!   through a header lands on its same-stem implementation.
//! - A bare callee inside a namespace means the sibling this file defines
//!   in the nearest enclosing namespace, when there is one; every callee
//!   the file does not define is offered to each include, for cross-file
//!   resolution to keep the ones a header really provides.

use vstd::prelude::*;

use crate::highlight::Grammar;
use crate::parsers::resolvers::PAIR;
use crate::parsers::syntax::{
    call_fact, child_by_field, copy_text, ctx_at, field_child, field_text, is_shaped, kind_is, lemma_ctx_step,
    lemma_field_child, line_no, line_of, name_pair, nodes, opt_text, parent_on, reexport_fact, shaped, spine,
    step_spine, symbol_fact, syntax, syntax_of, text_by_field, NodeView, SyntaxNode,
};
use crate::parsers::{Analysis, Call, Import, ImportedName, Reexport, Symbol, SymbolKind};
use crate::text::{
    chars_of, insert_sorted, is_listed, joined, last_of, last_position, lemma_listed_strings, lex_lt, listed,
    string_of, strings, trim_bounds, trimmed,
};

verus! {

/// The start of the last `::` in `s` at or before `k`, or -1.
pub open spec fn sep_from(s: Seq<char>, k: int) -> int
    decreases k + 1,
{
    if k < 0 {
        -1
    } else if k + 1 < s.len() && s[k] == ':' && s[k + 1] == ':' {
        k
    } else {
        sep_from(s, k - 1)
    }
}

/// The start of the last `::` in `s`, or -1 (std `rsplit_once("::")`).
pub open spec fn last_sep(s: Seq<char>) -> int {
    sep_from(s, s.len() - 2)
}

pub proof fn lemma_sep_from(s: Seq<char>, k: int)
    ensures
        sep_from(s, k) >= -1,
        sep_from(s, k) >= 0 ==> sep_from(s, k) <= k,
        sep_from(s, k) >= 0 ==> sep_from(s, k) + 1 < s.len() && s[sep_from(s, k)] == ':' && s[sep_from(s, k) + 1] == ':',
    decreases k + 1,
{
    if k >= 0 && !(k + 1 < s.len() && s[k] == ':' && s[k + 1] == ':') {
        lemma_sep_from(s, k - 1);
    }
}

/// `s` with every `::` read left to right replaced by `.`.
pub open spec fn dot_walk(s: Seq<char>, i: int, acc: Seq<char>) -> Seq<char>
    decreases s.len() - i,
{
    if i < 0 || i >= s.len() {
        acc
    } else if i + 1 < s.len() && s[i] == ':' && s[i + 1] == ':' {
        dot_walk(s, i + 2, acc.push('.'))
    } else {
        dot_walk(s, i + 1, acc.push(s[i]))
    }
}

pub open spec fn dots(s: Seq<char>) -> Seq<char> {
    dot_walk(s, 0, Seq::empty())
}

/// The pieces of `s` between its `::` separators, read left to right.
pub open spec fn seg_walk(s: Seq<char>, i: int, done: Seq<Seq<char>>, cur: Seq<char>) -> Seq<Seq<char>>
    decreases s.len() - i,
{
    if i < 0 || i >= s.len() {
        done.push(cur)
    } else if i + 1 < s.len() && s[i] == ':' && s[i + 1] == ':' {
        seg_walk(s, i + 2, done.push(cur), Seq::empty())
    } else {
        seg_walk(s, i + 1, done, cur.push(s[i]))
    }
}

/// The trimmed pieces that are not empty.
pub open spec fn kept(segs: Seq<Seq<char>>) -> Seq<Seq<char>>
    decreases segs.len(),
{
    if segs.len() == 0 {
        Seq::empty()
    } else if trimmed(segs.last()).len() > 0 {
        kept(segs.drop_last()).push(trimmed(segs.last()))
    } else {
        kept(segs.drop_last())
    }
}

/// A qualified name as a definition stores it: segments trimmed, empty
/// ones dropped (`:: nsq` is the bare `nsq`), rejoined with `::`.
pub open spec fn normalized(s: Seq<char>) -> Seq<char> {
    joined(kept(seg_walk(s, 0, Seq::empty(), Seq::empty())), "::"@)
}

/// `name` stored under the enclosing namespace, if any.
pub open spec fn in_namespace(ns: Option<Seq<char>>, name: Seq<char>) -> Seq<char> {
    match ns {
        Some(n) => n + "::"@ + name,
        None => name,
    }
}

/// The name a declarator's innermost function declares: its own scope
/// (for `Circle::area`, with `::` read as `.`) and its name.
pub open spec fn declared_name(t: Seq<NodeView>, inner: int) -> Option<(Option<Seq<char>>, Seq<char>)> {
    let k = t[inner].kind;
    if k == "identifier"@ || k == "field_identifier"@ || k == "operator_name"@ || k == "destructor_name"@ {
        match t[inner].text {
            Some(x) => Some((None, x)),
            None => None,
        }
    } else if k == "qualified_identifier"@ {
        match t[inner].text {
            None => None,
            Some(x) => {
                let p = last_sep(x);
                if p < 0 {
                    None
                } else {
                    Some((Some(dots(trimmed(x.take(p)))), trimmed(x.skip(p + 2))))
                }
            },
        }
    } else {
        None
    }
}

/// The function declarator `d` declares, through pointer and reference
/// declarators; a function pointer or anything else declares none.
pub open spec fn declared_function(t: Seq<NodeView>, d: int) -> Option<(Option<Seq<char>>, Seq<char>)>
    decreases t.len() - d,
{
    if d < 0 || d >= t.len() {
        None
    } else if t[d].kind == "pointer_declarator"@ || t[d].kind == "reference_declarator"@ {
        match field_child(t, d, "declarator"@) {
            Some(k) => {
                proof {
                    lemma_field_child(t, d, "declarator"@);
                }
                declared_function(t, k)
            },
            None => None,
        }
    } else if t[d].kind == "function_declarator"@ {
        match field_child(t, d, "declarator"@) {
            Some(inner) => declared_name(t, inner),
            None => None,
        }
    } else {
        None
    }
}

/// Whether a child of `i`, from `j` on, is the `static` storage class.
pub open spec fn static_from(t: Seq<NodeView>, i: int, j: int) -> bool
    decreases t.len() - j,
{
    if j <= i || j >= t.len() || t[j].depth <= t[i].depth {
        false
    } else if t[j].depth == t[i].depth + 1 && t[j].kind == "storage_class_specifier"@ && t[j].text == Some(
        "static"@,
    ) {
        true
    } else {
        static_from(t, i, j + 1)
    }
}

pub open spec fn is_static(t: Seq<NodeView>, i: int) -> bool {
    static_from(t, i, i + 1)
}

/// The anonymous struct a `typedef` names, when node `i` is one.
pub open spec fn typedef_inner(t: Seq<NodeView>, i: int) -> Option<int> {
    match field_child(t, i, "type"@) {
        Some(s) => if t[s].kind == "struct_specifier"@ && field_child(t, s, "body"@) is Some && field_child(
            t,
            s,
            "name"@,
        ) is None {
            Some(s)
        } else {
            None
        },
        None => None,
    }
}

pub open spec fn typedef_name(t: Seq<NodeView>, i: int) -> Option<Seq<char>> {
    if t[i].kind == "type_definition"@ && typedef_inner(t, i) is Some {
        field_text(t, i, "declarator"@)
    } else {
        None
    }
}

/// The name of the struct or class node `i` defines (with a body), if any.
pub open spec fn class_name(t: Seq<NodeView>, i: int) -> Option<Seq<char>> {
    if (t[i].kind == "struct_specifier"@ || t[i].kind == "class_specifier"@) && field_child(t, i, "body"@) is Some {
        field_text(t, i, "name"@)
    } else {
        None
    }
}

/// How the walk treats a node: read, skipped with everything below it, or
/// skipped while its children are read as a typedef'd struct's members
/// (the index is the struct, the name the typedef's).
pub enum CMode {
    Live,
    Dead,
    Inner(int, Seq<char>),
}

/// A node's context: the enclosing class (namespace-qualified), the
/// enclosing namespace path, the enclosing function's stored name, and how
/// the walk treats the node.
pub struct CCtx {
    pub scope: Option<Seq<char>>,
    pub namespace: Option<Seq<char>>,
    pub caller: Option<Seq<char>>,
    pub mode: CMode,
}

pub open spec fn c_root() -> CCtx {
    CCtx { scope: None, namespace: None, caller: None, mode: CMode::Live }
}

/// The function node `i` defines: its stored name, and whether it is
/// exported.
pub open spec fn c_function(t: Seq<NodeView>, i: int, c: CCtx) -> Option<(Seq<char>, bool)> {
    if t[i].kind == "function_definition"@ {
        match field_child(t, i, "declarator"@) {
            Some(d) => match declared_function(t, d) {
                Some((own, name)) => {
                    let scope = match own {
                        Some(o) => Some(in_namespace(c.namespace, o)),
                        None => c.scope,
                    };
                    Some(
                        (
                            match scope {
                                Some(s) => s + "."@ + name,
                                None => in_namespace(c.namespace, name),
                            },
                            scope is None && !is_static(t, i),
                        ),
                    )
                },
                None => None,
            },
            None => None,
        }
    } else {
        None
    }
}

/// The symbol node `i` yields, if the walk reads it.
pub open spec fn c_symbol(t: Seq<NodeView>, i: int, c: CCtx) -> Option<(SymbolKind, Seq<char>, int, int, bool)> {
    if !(c.mode is Live) {
        None
    } else if c_function(t, i, c) is Some {
        let (name, exported) = c_function(t, i, c)->0;
        Some((SymbolKind::Function, name, line_no(t[i].start_row), line_no(t[i].end_row), exported))
    } else if class_name(t, i) is Some {
        Some((SymbolKind::Class, in_namespace(c.namespace, class_name(t, i)->0), line_no(t[i].start_row), line_no(t[i].end_row), c.scope is None))
    } else if typedef_name(t, i) is Some {
        Some((SymbolKind::Class, in_namespace(c.namespace, typedef_name(t, i)->0), line_no(t[i].start_row), line_no(t[i].end_row), c.scope is None))
    } else {
        None
    }
}

/// Whether node `i` is a file-scope declaration (a prototype).
pub open spec fn file_scope_declaration(t: Seq<NodeView>, i: int, c: CCtx) -> bool {
    t[i].kind == "declaration"@ && c.scope is None && c.caller is None
}

/// The context node `i`'s children see.
pub open spec fn c_below(t: Seq<NodeView>, i: int, c: CCtx) -> CCtx {
    let dead = CCtx { scope: c.scope, namespace: c.namespace, caller: c.caller, mode: CMode::Dead };
    match c.mode {
        CMode::Dead => dead,
        CMode::Inner(k, name) => if i == k {
            CCtx { scope: Some(name), namespace: c.namespace, caller: c.caller, mode: CMode::Live }
        } else {
            dead
        },
        CMode::Live => if t[i].kind == "preproc_include"@ || file_scope_declaration(t, i, c) {
            dead
        } else if typedef_name(t, i) is Some {
            CCtx {
                scope: c.scope,
                namespace: c.namespace,
                caller: c.caller,
                mode: CMode::Inner(typedef_inner(t, i)->0, in_namespace(c.namespace, typedef_name(t, i)->0)),
            }
        } else {
            CCtx {
                scope: match class_name(t, i) {
                    Some(n) => Some(in_namespace(c.namespace, n)),
                    None => c.scope,
                },
                namespace: if t[i].kind == "namespace_definition"@ && field_text(t, i, "name"@) is Some {
                    Some(in_namespace(c.namespace, normalized(field_text(t, i, "name"@)->0)))
                } else {
                    c.namespace
                },
                caller: match c_function(t, i, c) {
                    Some((name, _)) => Some(name),
                    None => c.caller,
                },
                mode: CMode::Live,
            }
        },
    }
}

pub open spec fn c_step(t: Seq<NodeView>) -> spec_fn(int, CCtx) -> CCtx {
    |k: int, c: CCtx| c_below(t, k, c)
}

pub open spec fn c_ctx(t: Seq<NodeView>, i: int) -> CCtx {
    ctx_at(t, i, c_root(), c_step(t))
}

/// A quoted include's path without its quotes.
pub open spec fn unquote_front(s: Seq<char>) -> Seq<char>
    decreases s.len(),
{
    if s.len() > 0 && s[0] == '"' {
        unquote_front(s.drop_first())
    } else {
        s
    }
}

pub open spec fn unquote_back(s: Seq<char>) -> Seq<char>
    decreases s.len(),
{
    if s.len() > 0 && s.last() == '"' {
        unquote_back(s.drop_last())
    } else {
        s
    }
}

/// The include node `i` yields: `#include "…"` only.
pub open spec fn c_include(t: Seq<NodeView>, i: int, c: CCtx) -> Option<Seq<char>> {
    if c.mode is Live && t[i].kind == "preproc_include"@ {
        match field_child(t, i, "path"@) {
            Some(p) => if t[p].kind == "string_literal"@ {
                match t[p].text {
                    Some(x) => Some(unquote_back(unquote_front(x))),
                    None => None,
                }
            } else {
                None
            },
            None => None,
        }
    } else {
        None
    }
}

/// The re-export a file-scope prototype yields: its name through the
/// header-pair marker.
pub open spec fn c_reexport(t: Seq<NodeView>, i: int, c: CCtx) -> Option<(Seq<char>, Seq<char>, Option<Seq<char>>)> {
    if c.mode is Live && file_scope_declaration(t, i, c) {
        match field_child(t, i, "declarator"@) {
            Some(d) => match declared_function(t, d) {
                Some((None, name)) => Some((in_namespace(c.namespace, name), in_namespace(c.namespace, name), Some(PAIR@))),
                _ => None,
            },
            None => None,
        }
    } else {
        None
    }
}

/// The call node `i` yields: a plain or qualified callee, normalized,
/// inside a function.
pub open spec fn c_call(t: Seq<NodeView>, i: int, c: CCtx) -> Option<(Seq<char>, Seq<char>, Seq<Seq<char>>)> {
    if c.mode is Live && t[i].kind == "call_expression"@ {
        match (field_child(t, i, "function"@), c.caller) {
            (Some(f), Some(caller)) => if t[f].kind == "identifier"@ || t[f].kind == "qualified_identifier"@ {
                match t[f].text {
                    Some(x) => Some((caller, normalized(x), Seq::empty())),
                    None => None,
                }
            } else {
                None
            },
            _ => None,
        }
    } else {
        None
    }
}

/// The walk's facts for the first `n` nodes: symbols, include paths, raw
/// calls and re-exports.
pub open spec fn c_walk(t: Seq<NodeView>, n: int) -> (
    Seq<(SymbolKind, Seq<char>, int, int, bool)>,
    Seq<Seq<char>>,
    Seq<(Seq<char>, Seq<char>, Seq<Seq<char>>)>,
    Seq<(Seq<char>, Seq<char>, Option<Seq<char>>)>,
)
    decreases n,
{
    if n <= 0 {
        (Seq::empty(), Seq::empty(), Seq::empty(), Seq::empty())
    } else {
        let (s, m, c, r) = c_walk(t, n - 1);
        let x = c_ctx(t, n - 1);
        (
            match c_symbol(t, n - 1, x) {
                Some(f) => s.push(f),
                None => s,
            },
            match c_include(t, n - 1, x) {
                Some(p) => m.push(p),
                None => m,
            },
            match c_call(t, n - 1, x) {
                Some(f) => c.push(f),
                None => c,
            },
            match c_reexport(t, n - 1, x) {
                Some(f) => r.push(f),
                None => r,
            },
        )
    }
}

/// The walk's facts for a tree, nothing for a list that is not one.
pub open spec fn c_walked(t: Seq<NodeView>) -> (
    Seq<(SymbolKind, Seq<char>, int, int, bool)>,
    Seq<Seq<char>>,
    Seq<(Seq<char>, Seq<char>, Seq<Seq<char>>)>,
    Seq<(Seq<char>, Seq<char>, Option<Seq<char>>)>,
) {
    if shaped(t) {
        c_walk(t, t.len() as int)
    } else {
        (Seq::empty(), Seq::empty(), Seq::empty(), Seq::empty())
    }
}

/// The namespace path a caller's stored name carries: `geo::twice` lives
/// in `geo`, a method `geo::Circle.area` in `geo`, `main` in none.
pub open spec fn caller_namespace(caller: Seq<char>) -> Seq<char> {
    let scope = if last_of(caller, '.') >= 0 {
        caller.take(last_of(caller, '.'))
    } else {
        caller
    };
    if last_sep(scope) >= 0 {
        scope.take(last_sep(scope))
    } else {
        Seq::empty()
    }
}

/// A bare callee looked up in `ns` and its enclosing namespaces,
/// innermost first, among the names this file defines.
pub open spec fn enclosing_lookup(ns: Seq<char>, callee: Seq<char>, names: Seq<Seq<char>>) -> Seq<char>
    decreases ns.len(),
{
    if ns.len() == 0 {
        callee
    } else if names.contains(ns + "::"@ + callee) {
        ns + "::"@ + callee
    } else {
        proof {
            lemma_sep_from(ns, ns.len() - 2);
        }
        enclosing_lookup(
            if last_sep(ns) >= 0 {
                ns.take(last_sep(ns))
            } else {
                Seq::empty()
            },
            callee,
            names,
        )
    }
}

/// A callee as resolution sees it: a qualified one as written, a bare one
/// as the nearest enclosing namespace of its caller defines it, if any.
pub open spec fn resolved_callee(caller: Seq<char>, callee: Seq<char>, names: Seq<Seq<char>>) -> Seq<char> {
    if last_sep(callee) >= 0 {
        callee
    } else {
        enclosing_lookup(caller_namespace(caller), callee, names)
    }
}

/// The calls with their callees resolved against the file's own names.
pub open spec fn c_calls(t: Seq<NodeView>) -> Seq<(Seq<char>, Seq<char>, Seq<Seq<char>>)> {
    let (s, _, c, _) = c_walked(t);
    c.map_values(
        |x: (Seq<char>, Seq<char>, Seq<Seq<char>>)|
            (x.0, resolved_callee(x.0, x.1, s.map_values(|y: (SymbolKind, Seq<char>, int, int, bool)| y.1)), x.2),
    )
}

/// `list` is every callee of `calls` that `names` lacks, once each, in
/// increasing order.
pub open spec fn offered(list: Seq<Seq<char>>, calls: Seq<(Seq<char>, Seq<char>, Seq<Seq<char>>)>, names: Seq<Seq<char>>) -> bool {
    &&& forall|a: int, b: int| 0 <= a < b < list.len() ==> lex_lt(list[a], list[b])
    &&& forall|x: Seq<char>|
        list.contains(x) <==> (!names.contains(x) && exists|k: int| 0 <= k < calls.len() && (#[trigger] calls[k]).1 == x)
}

/// What an analysis of a C or C++ tree holds: the walk's symbols,
/// resolved calls and re-exports; its includes in order, each offered the
/// same names — every callee the file does not define.
pub open spec fn c_reads(t: Seq<NodeView>, a: Analysis) -> bool {
    let (s, m, _, r) = c_walked(t);
    let names = s.map_values(|y: (SymbolKind, Seq<char>, int, int, bool)| y.1);
    &&& a.symbols@.map_values(|x: Symbol| symbol_fact(x)) == s
    &&& a.calls@.map_values(|x: Call| call_fact(x)) == c_calls(t)
    &&& a.reexports@.map_values(|x: Reexport| reexport_fact(x)) == r
    &&& a.imports@.map_values(|x: Import| x.specifier@) == m
    &&& forall|k: int| 0 <= k < a.imports.len() ==> strings((#[trigger] a.imports@[k]).namespaces@).len() == 0
    &&& exists|list: Seq<Seq<char>>|
        offered(list, c_calls(t), names) && forall|k: int|
            0 <= k < a.imports.len() ==> (#[trigger] a.imports@[k]).names@.map_values(|n: ImportedName| name_pair(n))
                == list.map_values(|x: Seq<char>| (x, x))
}

enum Mode {
    Live,
    Dead,
    Inner(usize, String),
}

struct Scope {
    scope: Option<String>,
    namespace: Option<String>,
    caller: Option<String>,
    mode: Mode,
}

impl Scope {
    spec fn view(&self) -> CCtx {
        CCtx {
            scope: opt_text(self.scope),
            namespace: opt_text(self.namespace),
            caller: opt_text(self.caller),
            mode: match self.mode {
                Mode::Live => CMode::Live,
                Mode::Dead => CMode::Dead,
                Mode::Inner(k, n) => CMode::Inner(k as int, n@),
            },
        }
    }

    fn copy(&self) -> (r: Scope)
        ensures
            r.view() == self.view(),
    {
        Scope {
            scope: copy_text(&self.scope),
            namespace: copy_text(&self.namespace),
            caller: copy_text(&self.caller),
            mode: match &self.mode {
                Mode::Live => Mode::Live,
                Mode::Dead => Mode::Dead,
                Mode::Inner(k, n) => Mode::Inner(*k, n.clone()),
            },
        }
    }

    fn live(&self) -> (r: bool)
        ensures
            r == (self.view().mode is Live),
    {
        match self.mode {
            Mode::Live => true,
            _ => false,
        }
    }
}

pub(crate) fn sep_in(s: &Vec<char>) -> (r: Option<usize>)
    ensures
        match r {
            Some(k) => k as int == last_sep(s@) && k + 1 < s.len(),
            None => last_sep(s@) == -1,
        },
{
    let mut m: usize = s.len();
    while m >= 2
        invariant
            m <= s.len(),
            last_sep(s@) == sep_from(s@, m - 2),
        decreases m,
    {
        if s[m - 2] == ':' && s[m - 1] == ':' {
            return Some(m - 2);
        }
        m -= 1;
    }
    None
}

fn dotted(s: &Vec<char>) -> (r: Vec<char>)
    ensures
        r@ == dots(s@),
{
    let mut acc: Vec<char> = Vec::new();
    let mut i: usize = 0;
    while i < s.len()
        invariant
            i <= s.len(),
            dot_walk(s@, i as int, acc@) == dots(s@),
        decreases s.len() - i,
    {
        if i + 1 < s.len() && s[i] == ':' && s[i + 1] == ':' {
            acc.push('.');
            i += 2;
        } else {
            acc.push(s[i]);
            i += 1;
        }
    }
    acc
}

pub(crate) fn trimmed_of(s: &Vec<char>) -> (r: Vec<char>)
    ensures
        r@ == trimmed(s@),
{
    let (lo, hi) = trim_bounds(s);
    crate::text::slice(s, lo, hi)
}

/// A qualified name as a definition stores it.
fn normalize(text: &str) -> (r: String)
    ensures
        r@ == normalized(text@),
{
    let s = chars_of(text);
    let mut done: Vec<Vec<char>> = Vec::new();
    let mut cur: Vec<char> = Vec::new();
    let mut i: usize = 0;
    assert(done@.map_values(|v: Vec<char>| v@) =~= Seq::<Seq<char>>::empty());
    while i < s.len()
        invariant
            i <= s.len(),
            s@ == text@,
            seg_walk(s@, i as int, done@.map_values(|v: Vec<char>| v@), cur@) == seg_walk(s@, 0, Seq::empty(), Seq::empty()),
        decreases s.len() - i,
    {
        if i + 1 < s.len() && s[i] == ':' && s[i + 1] == ':' {
            let ghost before = done@.map_values(|v: Vec<char>| v@);
            let ghost c = cur@;
            done.push(cur);
            cur = Vec::new();
            assert(done@.map_values(|v: Vec<char>| v@) =~= before.push(c));
            i += 2;
        } else {
            cur.push(s[i]);
            i += 1;
        }
    }
    let ghost before = done@.map_values(|v: Vec<char>| v@);
    let ghost c = cur@;
    done.push(cur);
    assert(done@.map_values(|v: Vec<char>| v@) =~= before.push(c));
    let ghost segs = done@.map_values(|v: Vec<char>| v@);
    let mut parts: Vec<Vec<char>> = Vec::new();
    let mut k: usize = 0;
    while k < done.len()
        invariant
            k <= done.len(),
            segs == done@.map_values(|v: Vec<char>| v@),
            parts@.map_values(|v: Vec<char>| v@) == kept(segs.take(k as int)),
        decreases done.len() - k,
    {
        let piece = trimmed_of(&done[k]);
        assert(segs.take(k + 1).drop_last() =~= segs.take(k as int));
        if piece.len() > 0 {
            let ghost before = parts@.map_values(|v: Vec<char>| v@);
            let ghost p = piece@;
            parts.push(piece);
            assert(parts@.map_values(|v: Vec<char>| v@) =~= before.push(p));
        }
        k += 1;
    }
    assert(segs.take(done.len() as int) =~= segs);
    let ghost pieces = parts@.map_values(|v: Vec<char>| v@);
    let mut out: Vec<char> = Vec::new();
    let mut q: usize = 0;
    while q < parts.len()
        invariant
            q <= parts.len(),
            pieces == parts@.map_values(|v: Vec<char>| v@),
            out@ == joined(pieces.take(q as int), "::"@),
        decreases parts.len() - q,
    {
        assert(pieces.take(q + 1).drop_last() =~= pieces.take(q as int));
        if q > 0 {
            out.push(':');
            out.push(':');
            proof {
                reveal_strlit("::");
            }
        }
        let piece = &parts[q];
        let mut j: usize = 0;
        let ghost start = out@;
        while j < piece.len()
            invariant
                j <= piece.len(),
                out@ == start + piece@.take(j as int),
            decreases piece.len() - j,
        {
            out.push(piece[j]);
            assert(piece@.take(j + 1) =~= piece@.take(j as int).push(piece@[j as int]));
            j += 1;
        }
        assert(piece@.take(piece.len() as int) =~= piece@);
        proof {
            if q > 0 {
                assert(out@ =~= joined(pieces.take(q as int), "::"@) + "::"@ + pieces[q as int]);
            } else {
                assert(pieces.take(1).len() == 1);
            }
        }
        q += 1;
    }
    assert(pieces.take(parts.len() as int) =~= pieces);
    string_of(&out)
}

fn in_namespace_of(ns: &Option<String>, name: &str) -> (r: String)
    ensures
        r@ == in_namespace(opt_text(*ns), name@),
{
    match ns {
        Some(n) => {
            let mut v = chars_of(n.as_str());
            v.push(':');
            v.push(':');
            crate::text::append_str(&mut v, name);
            proof {
                reveal_strlit("::");
            }
            assert(v@ =~= n@ + "::"@ + name@);
            string_of(&v)
        },
        None => String::from_str(name),
    }
}

fn declared_name_at(t: &Vec<SyntaxNode>, inner: usize) -> (r: Option<(Option<String>, String)>)
    requires
        inner < t.len(),
    ensures
        match r {
            Some((scope, name)) => declared_name(nodes(t@), inner as int) == Some((opt_text(scope), name@)),
            None => declared_name(nodes(t@), inner as int) is None,
        },
{
    let ghost v = nodes(t@);
    assert(v[inner as int] == t@[inner as int]@);
    if kind_is(t, inner, "identifier") || kind_is(t, inner, "field_identifier") || kind_is(t, inner, "operator_name")
        || kind_is(t, inner, "destructor_name") {
        match &t[inner].text {
            Some(x) => Some((None, x.clone())),
            None => None,
        }
    } else if kind_is(t, inner, "qualified_identifier") {
        match &t[inner].text {
            None => None,
            Some(x) => {
                let s = chars_of(x.as_str());
                match sep_in(&s) {
                    None => None,
                    Some(p) => {
                        let scope = dotted(&trimmed_of(&crate::text::slice(&s, 0, p)));
                        let name = trimmed_of(&crate::text::slice(&s, p + 2, s.len()));
                        assert(s@.subrange(0, p as int) =~= s@.take(p as int));
                        assert(s@.subrange(p + 2, s.len() as int) =~= s@.skip(p + 2));
                        Some((Some(string_of(&scope)), string_of(&name)))
                    },
                }
            },
        }
    } else {
        None
    }
}

fn declared_function_at(t: &Vec<SyntaxNode>, d: usize) -> (r: Option<(Option<String>, String)>)
    requires
        d < t.len(),
    ensures
        match r {
            Some((scope, name)) => declared_function(nodes(t@), d as int) == Some((opt_text(scope), name@)),
            None => declared_function(nodes(t@), d as int) is None,
        },
    decreases t.len() - d,
{
    if kind_is(t, d, "pointer_declarator") || kind_is(t, d, "reference_declarator") {
        match child_by_field(t, d, "declarator") {
            Some(k) => declared_function_at(t, k),
            None => None,
        }
    } else if kind_is(t, d, "function_declarator") {
        match child_by_field(t, d, "declarator") {
            Some(inner) => declared_name_at(t, inner),
            None => None,
        }
    } else {
        None
    }
}

fn static_at(t: &Vec<SyntaxNode>, i: usize) -> (r: bool)
    requires
        i < t.len(),
    ensures
        r == is_static(nodes(t@), i as int),
{
    let ghost v = nodes(t@);
    let mut j = i + 1;
    while j < t.len() && t[j].depth > t[i].depth
        invariant
            i < j <= t.len(),
            v == nodes(t@),
            static_from(v, i as int, i + 1) == static_from(v, i as int, j as int),
        decreases t.len() - j,
    {
        assert(v[j as int] == t@[j as int]@ && v[i as int] == t@[i as int]@);
        if t[j].depth == t[i].depth + 1 && kind_is(t, j, "storage_class_specifier") {
            if let Some(x) = &t[j].text {
                if crate::parsers::syntax::str_eq(x.as_str(), "static") {
                    return true;
                }
            }
        }
        j += 1;
    }
    if j < t.len() {
        assert(v[j as int] == t@[j as int]@ && v[i as int] == t@[i as int]@);
    }
    false
}

fn typedef_inner_at(t: &Vec<SyntaxNode>, i: usize) -> (r: Option<usize>)
    requires
        i < t.len(),
    ensures
        r matches Some(s) ==> Some(s as int) == typedef_inner(nodes(t@), i as int) && s < t.len(),
        r is None ==> typedef_inner(nodes(t@), i as int) is None,
{
    match child_by_field(t, i, "type") {
        Some(s) => if kind_is(t, s, "struct_specifier") && child_by_field(t, s, "body").is_some() && child_by_field(
            t,
            s,
            "name",
        ).is_none() {
            Some(s)
        } else {
            None
        },
        None => None,
    }
}

fn typedef_name_at(t: &Vec<SyntaxNode>, i: usize) -> (r: Option<(usize, String)>)
    requires
        i < t.len(),
    ensures
        match r {
            Some((s, n)) => typedef_name(nodes(t@), i as int) == Some(n@) && typedef_inner(nodes(t@), i as int) == Some(s as int),
            None => typedef_name(nodes(t@), i as int) is None,
        },
{
    if !kind_is(t, i, "type_definition") {
        return None;
    }
    match typedef_inner_at(t, i) {
        Some(s) => match text_by_field(t, i, "declarator") {
            Some(n) => Some((s, n)),
            None => None,
        },
        None => None,
    }
}

fn class_name_at(t: &Vec<SyntaxNode>, i: usize) -> (r: Option<String>)
    requires
        i < t.len(),
    ensures
        opt_text(r) == class_name(nodes(t@), i as int),
{
    if (kind_is(t, i, "struct_specifier") || kind_is(t, i, "class_specifier")) && child_by_field(t, i, "body").is_some() {
        text_by_field(t, i, "name")
    } else {
        None
    }
}

fn function_at(t: &Vec<SyntaxNode>, i: usize, c: &Scope) -> (r: Option<(String, bool)>)
    requires
        i < t.len(),
    ensures
        match r {
            Some((n, e)) => c_function(nodes(t@), i as int, c.view()) == Some((n@, e)),
            None => c_function(nodes(t@), i as int, c.view()) is None,
        },
{
    if !kind_is(t, i, "function_definition") {
        return None;
    }
    let d = match child_by_field(t, i, "declarator") {
        Some(d) => d,
        None => return None,
    };
    match declared_function_at(t, d) {
        Some((own, name)) => {
            let scope = match &own {
                Some(o) => Some(in_namespace_of(&c.namespace, o.as_str())),
                None => copy_text(&c.scope),
            };
            let stored = match &scope {
                Some(s) => {
                    let mut v = chars_of(s.as_str());
                    v.push('.');
                    crate::text::append_str(&mut v, name.as_str());
                    proof {
                        reveal_strlit(".");
                    }
                    assert(v@ =~= s@ + "."@ + name@);
                    string_of(&v)
                },
                None => in_namespace_of(&c.namespace, name.as_str()),
            };
            let exported = scope.is_none() && !static_at(t, i);
            Some((stored, exported))
        },
        None => None,
    }
}

fn symbol_at(t: &Vec<SyntaxNode>, i: usize, c: &Scope, function: &Option<(String, bool)>) -> (r: Option<Symbol>)
    requires
        i < t.len(),
        c.view().mode is Live ==> match function {
            Some((n, e)) => c_function(nodes(t@), i as int, c.view()) == Some((n@, *e)),
            None => c_function(nodes(t@), i as int, c.view()) is None,
        },
    ensures
        match r {
            Some(s) => c_symbol(nodes(t@), i as int, c.view()) == Some(symbol_fact(s)),
            None => c_symbol(nodes(t@), i as int, c.view()) is None,
        },
{
    let ghost v = nodes(t@);
    assert(v[i as int] == t@[i as int]@);
    if !c.live() {
        return None;
    }
    let start_line = line_of(t[i].start_row);
    let end_line = line_of(t[i].end_row);
    if let Some((name, exported)) = function {
        return Some(Symbol { kind: SymbolKind::Function, name: name.clone(), start_line, end_line, exported: *exported });
    }
    if let Some(n) = class_name_at(t, i) {
        return Some(
            Symbol {
                kind: SymbolKind::Class,
                name: in_namespace_of(&c.namespace, n.as_str()),
                start_line,
                end_line,
                exported: c.scope.is_none(),
            },
        );
    }
    if let Some((_, n)) = typedef_name_at(t, i) {
        return Some(
            Symbol {
                kind: SymbolKind::Class,
                name: in_namespace_of(&c.namespace, n.as_str()),
                start_line,
                end_line,
                exported: c.scope.is_none(),
            },
        );
    }
    None
}

fn below_of(t: &Vec<SyntaxNode>, i: usize, c: &Scope, function: &Option<(String, bool)>) -> (r: Scope)
    requires
        i < t.len(),
        c.view().mode is Live ==> match function {
            Some((n, e)) => c_function(nodes(t@), i as int, c.view()) == Some((n@, *e)),
            None => c_function(nodes(t@), i as int, c.view()) is None,
        },
    ensures
        r.view() == c_below(nodes(t@), i as int, c.view()),
{
    let dead = Scope {
        scope: copy_text(&c.scope),
        namespace: copy_text(&c.namespace),
        caller: copy_text(&c.caller),
        mode: Mode::Dead,
    };
    match &c.mode {
        Mode::Dead => dead,
        Mode::Inner(k, name) => if i == *k {
            Scope {
                scope: Some(name.clone()),
                namespace: copy_text(&c.namespace),
                caller: copy_text(&c.caller),
                mode: Mode::Live,
            }
        } else {
            dead
        },
        Mode::Live => {
            if kind_is(t, i, "preproc_include") || (kind_is(t, i, "declaration") && c.scope.is_none()
                && c.caller.is_none()) {
                return dead;
            }
            if let Some((s, n)) = typedef_name_at(t, i) {
                return Scope {
                    scope: copy_text(&c.scope),
                    namespace: copy_text(&c.namespace),
                    caller: copy_text(&c.caller),
                    mode: Mode::Inner(s, in_namespace_of(&c.namespace, n.as_str())),
                };
            }
            let scope = match class_name_at(t, i) {
                Some(n) => Some(in_namespace_of(&c.namespace, n.as_str())),
                None => copy_text(&c.scope),
            };
            let namespace = if kind_is(t, i, "namespace_definition") {
                match text_by_field(t, i, "name") {
                    Some(n) => Some(in_namespace_of(&c.namespace, normalize(n.as_str()).as_str())),
                    None => copy_text(&c.namespace),
                }
            } else {
                copy_text(&c.namespace)
            };
            let caller = match function {
                Some((n, _)) => Some(n.clone()),
                None => copy_text(&c.caller),
            };
            Scope { scope, namespace, caller, mode: Mode::Live }
        },
    }
}

pub(crate) fn unquoted_path(x: &str) -> (r: String)
    ensures
        r@ == unquote_back(unquote_front(x@)),
{
    let v = chars_of(x);
    let mut lo: usize = 0;
    assert(v@.skip(0) =~= v@);
    while lo < v.len() && v[lo] == '"'
        invariant
            lo <= v.len(),
            unquote_front(v@) == unquote_front(v@.skip(lo as int)),
        decreases v.len() - lo,
    {
        assert(v@.skip(lo as int).drop_first() =~= v@.skip(lo + 1));
        lo += 1;
    }
    let ghost front = v@.skip(lo as int);
    let mut hi: usize = v.len();
    while hi > lo && v[hi - 1] == '"'
        invariant
            lo <= hi <= v.len(),
            unquote_back(front) == unquote_back(v@.subrange(lo as int, hi as int)),
            front == v@.skip(lo as int),
        decreases hi,
    {
        assert(v@.subrange(lo as int, hi as int).drop_last() =~= v@.subrange(lo as int, hi - 1));
        hi -= 1;
    }
    assert(v@.skip(lo as int) =~= v@.subrange(lo as int, v.len() as int));
    string_of(&crate::text::slice(&v, lo, hi))
}

fn include_at(t: &Vec<SyntaxNode>, i: usize, c: &Scope) -> (r: Option<String>)
    requires
        i < t.len(),
    ensures
        opt_text(r) == c_include(nodes(t@), i as int, c.view()),
{
    let ghost v = nodes(t@);
    if !c.live() || !kind_is(t, i, "preproc_include") {
        return None;
    }
    match child_by_field(t, i, "path") {
        Some(p) => {
            assert(v[p as int] == t@[p as int]@);
            if kind_is(t, p, "string_literal") {
                match &t[p].text {
                    Some(x) => Some(unquoted_path(x.as_str())),
                    None => None,
                }
            } else {
                None
            }
        },
        None => None,
    }
}

fn reexport_at(t: &Vec<SyntaxNode>, i: usize, c: &Scope) -> (r: Option<Reexport>)
    requires
        i < t.len(),
    ensures
        match r {
            Some(x) => c_reexport(nodes(t@), i as int, c.view()) == Some(reexport_fact(x)),
            None => c_reexport(nodes(t@), i as int, c.view()) is None,
        },
{
    if !c.live() || !kind_is(t, i, "declaration") || c.scope.is_some() || c.caller.is_some() {
        return None;
    }
    let d = match child_by_field(t, i, "declarator") {
        Some(d) => d,
        None => return None,
    };
    match declared_function_at(t, d) {
        Some((None, name)) => {
            let stored = in_namespace_of(&c.namespace, name.as_str());
            Some(Reexport { exported: stored.clone(), local: stored, specifier: Some(String::from_str(PAIR)) })
        },
        _ => None,
    }
}

fn call_at(t: &Vec<SyntaxNode>, i: usize, c: &Scope) -> (r: Option<Call>)
    requires
        i < t.len(),
    ensures
        match r {
            Some(x) => c_call(nodes(t@), i as int, c.view()) == Some(call_fact(x)),
            None => c_call(nodes(t@), i as int, c.view()) is None,
        },
{
    let ghost v = nodes(t@);
    if !c.live() || !kind_is(t, i, "call_expression") {
        return None;
    }
    let f = match child_by_field(t, i, "function") {
        Some(f) => f,
        None => return None,
    };
    let caller = match &c.caller {
        Some(x) => x.clone(),
        None => return None,
    };
    assert(v[f as int] == t@[f as int]@);
    if kind_is(t, f, "identifier") || kind_is(t, f, "qualified_identifier") {
        match &t[f].text {
            Some(x) => {
                let r = Call { caller, callee: normalize(x.as_str()), receiver: Vec::new() };
                assert(strings(r.receiver@) =~= Seq::<Seq<char>>::empty());
                Some(r)
            },
            None => None,
        }
    } else {
        None
    }
}

/// The walk: symbols, include paths (no names yet), raw calls, re-exports.
fn walk(t: &Vec<SyntaxNode>, a: &mut Analysis)
    requires
        shaped(nodes(t@)),
        old(a).symbols@.len() == 0,
        old(a).imports@.len() == 0,
        old(a).calls@.len() == 0,
        old(a).reexports@.len() == 0,
    ensures
        ({
            let (s, m, c, r) = c_walk(nodes(t@), t@.len() as int);
            &&& final(a).symbols@.map_values(|x: Symbol| symbol_fact(x)) == s
            &&& final(a).imports@.map_values(|x: Import| x.specifier@) == m
            &&& final(a).calls@.map_values(|x: Call| call_fact(x)) == c
            &&& final(a).reexports@.map_values(|x: Reexport| reexport_fact(x)) == r
            &&& forall|k: int| 0 <= k < final(a).imports.len() ==> (#[trigger] final(a).imports@[k]).namespaces@.len() == 0
        }),
{
    let ghost v = nodes(t@);
    let mut path: Vec<usize> = Vec::new();
    let mut below: Vec<Scope> = Vec::new();
    let mut i: usize = 0;
    assert(a.symbols@.map_values(|x: Symbol| symbol_fact(x)) =~= c_walk(v, 0).0);
    assert(a.imports@.map_values(|x: Import| x.specifier@) =~= c_walk(v, 0).1);
    assert(a.calls@.map_values(|x: Call| call_fact(x)) =~= c_walk(v, 0).2);
    assert(a.reexports@.map_values(|x: Reexport| reexport_fact(x)) =~= c_walk(v, 0).3);
    while i < t.len()
        invariant
            i <= t.len(),
            v == nodes(t@),
            shaped(v),
            spine(v, i as int, path@),
            below.len() == i,
            forall|k: int| 0 <= k < i ==> (#[trigger] below@[k]).view() == c_below(v, k, c_ctx(v, k)),
            ({
                let (s, m, c, r) = c_walk(v, i as int);
                &&& a.symbols@.map_values(|x: Symbol| symbol_fact(x)) == s
                &&& a.imports@.map_values(|x: Import| x.specifier@) == m
                &&& a.calls@.map_values(|x: Call| call_fact(x)) == c
                &&& a.reexports@.map_values(|x: Reexport| reexport_fact(x)) == r
            }),
            forall|k: int| 0 <= k < a.imports.len() ==> (#[trigger] a.imports@[k]).namespaces@.len() == 0,
        decreases t.len() - i,
    {
        let ctx = match parent_on(t, i, &path) {
            Some(p) => below[p].copy(),
            None => Scope { scope: None, namespace: None, caller: None, mode: Mode::Live },
        };
        proof {
            lemma_ctx_step(v, i as int, c_root(), c_step(v));
        }
        assert(ctx.view() == c_ctx(v, i as int));
        let ghost s0 = a.symbols@.map_values(|x: Symbol| symbol_fact(x));
        let ghost m0 = a.imports@.map_values(|x: Import| x.specifier@);
        let ghost c0 = a.calls@.map_values(|x: Call| call_fact(x));
        let ghost r0 = a.reexports@.map_values(|x: Reexport| reexport_fact(x));
        let ghost a0 = a.imports@;
        let function = if ctx.live() {
            function_at(t, i, &ctx)
        } else {
            None
        };
        let next = below_of(t, i, &ctx, &function);
        if let Some(s) = symbol_at(t, i, &ctx, &function) {
            a.symbols.push(s);
            assert(a.symbols@.map_values(|x: Symbol| symbol_fact(x)) =~= s0.push(symbol_fact(s)));
        } else {
            assert(a.symbols@.map_values(|x: Symbol| symbol_fact(x)) =~= s0);
        }
        if let Some(p) = include_at(t, i, &ctx) {
            let ghost pv = p@;
            a.imports.push(Import { specifier: p, names: Vec::new(), namespaces: Vec::new() });
            assert(a.imports@.map_values(|x: Import| x.specifier@) =~= m0.push(pv));
        }
        if let Some(x) = call_at(t, i, &ctx) {
            a.calls.push(x);
            assert(a.calls@.map_values(|x: Call| call_fact(x)) =~= c0.push(call_fact(x)));
        }
        if let Some(x) = reexport_at(t, i, &ctx) {
            a.reexports.push(x);
            assert(a.reexports@.map_values(|x: Reexport| reexport_fact(x)) =~= r0.push(reexport_fact(x)));
        }
        proof {
            let (s, m, c, r) = c_walk(v, i + 1);
            assert(a.symbols@.map_values(|x: Symbol| symbol_fact(x)) =~= s);
            assert(a.imports@.map_values(|x: Import| x.specifier@) =~= m);
            assert(a.calls@.map_values(|x: Call| call_fact(x)) =~= c);
            assert(a.reexports@.map_values(|x: Reexport| reexport_fact(x)) =~= r);
        }
        below.push(next);
        step_spine(t, i, &mut path);
        i += 1;
    }
}

/// The names of the file's symbols.
pub(crate) fn symbol_names(a: &Analysis) -> (r: Vec<String>)
    ensures
        strings(r@) == a.symbols@.map_values(|x: Symbol| symbol_fact(x)).map_values(
            |y: (SymbolKind, Seq<char>, int, int, bool)| y.1,
        ),
{
    let mut r: Vec<String> = Vec::new();
    let mut k: usize = 0;
    while k < a.symbols.len()
        invariant
            k <= a.symbols.len(),
            strings(r@) == a.symbols@.take(k as int).map_values(|x: Symbol| symbol_fact(x)).map_values(
                |y: (SymbolKind, Seq<char>, int, int, bool)| y.1,
            ),
        decreases a.symbols.len() - k,
    {
        let ghost before = strings(r@);
        r.push(a.symbols[k].name.clone());
        assert(strings(r@) =~= before.push(a.symbols@[k as int].name@));
        assert(a.symbols@.take(k + 1).map_values(|x: Symbol| symbol_fact(x)).map_values(
            |y: (SymbolKind, Seq<char>, int, int, bool)| y.1,
        ) =~= a.symbols@.take(k as int).map_values(|x: Symbol| symbol_fact(x)).map_values(
            |y: (SymbolKind, Seq<char>, int, int, bool)| y.1,
        ).push(a.symbols@[k as int].name@));
        k += 1;
    }
    assert(a.symbols@.take(a.symbols.len() as int) =~= a.symbols@);
    r
}

/// Whether `x` is one of `names`.
pub(crate) fn defines(names: &Vec<String>, x: &Vec<char>) -> (r: bool)
    ensures
        r == strings(names@).contains(x@),
{
    let r = is_listed(names, x);
    proof {
        lemma_listed_strings(names@, x@);
    }
    r
}

fn caller_namespace_of(caller: &str) -> (r: Vec<char>)
    ensures
        r@ == caller_namespace(caller@),
{
    let c = chars_of(caller);
    let scope = match last_position(&c, '.') {
        Some(d) => crate::text::slice(&c, 0, d),
        None => c,
    };
    assert(last_of(caller@, '.') >= 0 ==> scope@ =~= caller@.take(last_of(caller@, '.')));
    match sep_in(&scope) {
        Some(p) => {
            let r = crate::text::slice(&scope, 0, p);
            assert(r@ =~= scope@.take(p as int));
            r
        },
        None => Vec::new(),
    }
}

/// A bare callee looked up in `ns` and its enclosing namespaces.
fn lookup(start: Vec<char>, callee: &Vec<char>, names: &Vec<String>) -> (r: Vec<char>)
    ensures
        r@ == enclosing_lookup(start@, callee@, strings(names@)),
{
    let ghost target = enclosing_lookup(start@, callee@, strings(names@));
    let mut ns = start;
    while ns.len() > 0
        invariant
            target == enclosing_lookup(start@, callee@, strings(names@)),
            enclosing_lookup(ns@, callee@, strings(names@)) == target,
        decreases ns.len(),
    {
        let mut candidate = crate::text::slice(&ns, 0, ns.len());
        assert(candidate@ =~= ns@);
        candidate.push(':');
        candidate.push(':');
        crate::text::append(&mut candidate, callee);
        proof {
            reveal_strlit("::");
        }
        assert(candidate@ =~= ns@ + "::"@ + callee@);
        if defines(names, &candidate) {
            assert(enclosing_lookup(ns@, callee@, strings(names@)) == candidate@);
            return candidate;
        }
        proof {
            lemma_sep_from(ns@, ns@.len() - 2);
        }
        ns = match sep_in(&ns) {
            Some(p) => {
                let outer = crate::text::slice(&ns, 0, p);
                assert(outer@ =~= ns@.take(p as int));
                outer
            },
            None => Vec::new(),
        };
    }
    let r = crate::text::slice(callee, 0, callee.len());
    assert(r@ =~= callee@);
    r
}

pub(crate) fn copy_strings(v: &Vec<String>) -> (r: Vec<String>)
    ensures
        strings(r@) == strings(v@),
{
    let mut r: Vec<String> = Vec::new();
    let mut k: usize = 0;
    while k < v.len()
        invariant
            k <= v.len(),
            strings(r@) == strings(v@.take(k as int)),
        decreases v.len() - k,
    {
        let ghost before = strings(r@);
        let x = v[k].clone();
        r.push(x);
        assert(strings(r@) =~= before.push(v@[k as int]@));
        assert(strings(v@.take(k + 1)) =~= strings(v@.take(k as int)).push(v@[k as int]@));
        k += 1;
    }
    assert(v@.take(v.len() as int) =~= v@);
    r
}

/// The calls, bare callees resolved against the file's own names.
fn resolved_calls(calls: &Vec<Call>, names: &Vec<String>) -> (r: Vec<Call>)
    ensures
        r@.map_values(|x: Call| call_fact(x)) == calls@.map_values(|x: Call| call_fact(x)).map_values(
            |x: (Seq<char>, Seq<char>, Seq<Seq<char>>)| (x.0, resolved_callee(x.0, x.1, strings(names@)), x.2),
        ),
{
    let ghost f = |x: (Seq<char>, Seq<char>, Seq<Seq<char>>)| (x.0, resolved_callee(x.0, x.1, strings(names@)), x.2);
    let mut r: Vec<Call> = Vec::new();
    let mut k: usize = 0;
    while k < calls.len()
        invariant
            k <= calls.len(),
            forall|x: (Seq<char>, Seq<char>, Seq<Seq<char>>)| #[trigger] f(x) == (x.0, resolved_callee(x.0, x.1, strings(names@)), x.2),
            r@.map_values(|x: Call| call_fact(x)) == calls@.take(k as int).map_values(|x: Call| call_fact(x)).map_values(f),
        decreases calls.len() - k,
    {
        let ghost before = r@.map_values(|x: Call| call_fact(x));
        let c = &calls[k];
        let callee = chars_of(c.callee.as_str());
        let resolved = match sep_in(&callee) {
            Some(_) => callee,
            None => lookup(caller_namespace_of(c.caller.as_str()), &callee, names),
        };
        let x = Call { caller: c.caller.clone(), callee: string_of(&resolved), receiver: copy_strings(&c.receiver) };
        r.push(x);
        assert(r@.map_values(|x: Call| call_fact(x)) =~= before.push(call_fact(x)));
        assert(calls@.take(k + 1).map_values(|x: Call| call_fact(x)).map_values(f) =~= calls@.take(k as int).map_values(
            |x: Call| call_fact(x),
        ).map_values(f).push(f(call_fact(calls@[k as int]))));
        k += 1;
    }
    assert(calls@.take(calls.len() as int) =~= calls@);
    r
}

/// Every callee the file does not define, once each, in increasing order.
fn offers(calls: &Vec<Call>, names: &Vec<String>) -> (r: Vec<String>)
    ensures
        offered(strings(r@), calls@.map_values(|x: Call| call_fact(x)), strings(names@)),
{
    let ghost cs = calls@.map_values(|x: Call| call_fact(x));
    let mut r: Vec<String> = Vec::new();
    let mut k: usize = 0;
    while k < calls.len()
        invariant
            k <= calls.len(),
            cs == calls@.map_values(|x: Call| call_fact(x)),
            forall|a: int, b: int| 0 <= a < b < r.len() ==> lex_lt(r@[a]@, r@[b]@),
            forall|x: Seq<char>|
                #[trigger] listed(r@, x) <==> (!strings(names@).contains(x) && exists|q: int| 0 <= q < k && (#[trigger] cs[q]).1 == x),
        decreases calls.len() - k,
    {
        let callee = chars_of(calls[k].callee.as_str());
        assert(cs[k as int].1 == callee@);
        if !defines(names, &callee) {
            insert_sorted(&mut r, calls[k].callee.clone());
        }
        assert forall|x: Seq<char>|
            #[trigger] listed(r@, x) <==> (!strings(names@).contains(x) && exists|q: int| 0 <= q < k + 1 && (#[trigger] cs[q]).1 == x) by {
            if !strings(names@).contains(x) && exists|q: int| 0 <= q < k + 1 && (#[trigger] cs[q]).1 == x {
                let q = choose|q: int| 0 <= q < k + 1 && (#[trigger] cs[q]).1 == x;
                if q < k {
                    assert(exists|q: int| 0 <= q < k && (#[trigger] cs[q]).1 == x);
                }
            }
        }
        k += 1;
    }
    assert forall|x: Seq<char>| strings(r@).contains(x) <==> (!strings(names@).contains(x) && exists|q: int| 0 <= q < cs.len() && (#[trigger] cs[q]).1 == x) by {
        lemma_listed_strings(r@, x);
    }
    assert forall|a: int, b: int| 0 <= a < b < strings(r@).len() implies lex_lt(strings(r@)[a], strings(r@)[b]) by {
        assert(lex_lt(r@[a]@, r@[b]@));
    }
    r
}

/// The offered names as bindings.
pub(crate) fn bindings_of(list: &Vec<String>) -> (r: Vec<ImportedName>)
    ensures
        r@.map_values(|n: ImportedName| name_pair(n)) == strings(list@).map_values(|x: Seq<char>| (x, x)),
{
    let mut r: Vec<ImportedName> = Vec::new();
    let mut k: usize = 0;
    while k < list.len()
        invariant
            k <= list.len(),
            r@.map_values(|n: ImportedName| name_pair(n)) == strings(list@.take(k as int)).map_values(|x: Seq<char>| (x, x)),
        decreases list.len() - k,
    {
        let ghost before = r@.map_values(|n: ImportedName| name_pair(n));
        let n = ImportedName { local: list[k].clone(), imported: list[k].clone() };
        r.push(n);
        assert(r@.map_values(|n: ImportedName| name_pair(n)) =~= before.push((list@[k as int]@, list@[k as int]@)));
        assert(strings(list@.take(k + 1)).map_values(|x: Seq<char>| (x, x)) =~= strings(list@.take(k as int)).map_values(
            |x: Seq<char>| (x, x),
        ).push((list@[k as int]@, list@[k as int]@)));
        k += 1;
    }
    assert(list@.take(list.len() as int) =~= list@);
    r
}

/// The includes, each offered the same names.
fn offered_to(imports: &Vec<Import>, list: &Vec<String>) -> (r: Vec<Import>)
    ensures
        r@.map_values(|x: Import| x.specifier@) == imports@.map_values(|x: Import| x.specifier@),
        forall|k: int| 0 <= k < r.len() ==> (#[trigger] r@[k]).namespaces@.len() == 0,
        forall|k: int|
            0 <= k < r.len() ==> (#[trigger] r@[k]).names@.map_values(|n: ImportedName| name_pair(n)) == strings(list@).map_values(
                |x: Seq<char>| (x, x),
            ),
{
    let mut r: Vec<Import> = Vec::new();
    let mut k: usize = 0;
    while k < imports.len()
        invariant
            k <= imports.len(),
            r@.map_values(|x: Import| x.specifier@) == imports@.take(k as int).map_values(|x: Import| x.specifier@),
            forall|q: int| 0 <= q < r.len() ==> (#[trigger] r@[q]).namespaces@.len() == 0,
            forall|q: int|
                0 <= q < r.len() ==> (#[trigger] r@[q]).names@.map_values(|n: ImportedName| name_pair(n)) == strings(list@).map_values(
                    |x: Seq<char>| (x, x),
                ),
        decreases imports.len() - k,
    {
        let ghost before = r@.map_values(|x: Import| x.specifier@);
        let x = Import { specifier: imports[k].specifier.clone(), names: bindings_of(list), namespaces: Vec::new() };
        r.push(x);
        assert(r@.map_values(|x: Import| x.specifier@) =~= before.push(imports@[k as int].specifier@));
        assert(imports@.take(k + 1).map_values(|x: Import| x.specifier@) =~= imports@.take(k as int).map_values(
            |x: Import| x.specifier@,
        ).push(imports@[k as int].specifier@));
        k += 1;
    }
    assert(imports@.take(imports.len() as int) =~= imports@);
    r
}

/// The facts a C or C++ tree yields. A list that is not one tree in
/// preorder yields nothing.
pub fn c_family_analysis(t: &Vec<SyntaxNode>) -> (a: Analysis)
    ensures
        c_reads(nodes(t@), a),
{
    let ghost v = nodes(t@);
    let mut a = Analysis::empty();
    if !is_shaped(t) {
        assert(a.symbols@.map_values(|x: Symbol| symbol_fact(x)) =~= Seq::empty());
        assert(a.calls@.map_values(|x: Call| call_fact(x)) =~= c_calls(v));
        assert(a.reexports@.map_values(|x: Reexport| reexport_fact(x)) =~= Seq::empty());
        assert(a.imports@.map_values(|x: Import| x.specifier@) =~= Seq::empty());
        assert(offered(Seq::<Seq<char>>::empty(), c_calls(v), Seq::<(SymbolKind, Seq<char>, int, int, bool)>::empty().map_values(
            |y: (SymbolKind, Seq<char>, int, int, bool)| y.1,
        )));
        return a;
    }
    walk(t, &mut a);
    let names = symbol_names(&a);
    let calls = resolved_calls(&a.calls, &names);
    let list = offers(&calls, &names);
    let imports = offered_to(&a.imports, &list);
    a.calls = calls;
    a.imports = imports;
    assert(offered(strings(list@), c_calls(v), strings(names@)));
    a
}

/// Extracts C (`Grammar::C`) or C++ (`Grammar::Cpp`) symbols, includes and
/// calls from source, tolerating syntax errors.
pub fn parse_c_family(grammar: Grammar, source: &str) -> (a: Analysis)
    ensures
        c_reads(syntax_of(grammar, source@), a),
{
    let t = syntax(grammar, source);
    c_family_analysis(&t)
}

} // verus!

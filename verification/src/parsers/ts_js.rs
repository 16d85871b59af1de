//! TypeScript, TSX and JavaScript facts, read off the syntax tree: function,
//! method and class declarations (`const x = () => {}` counting as a
//! function), import statements with their named and namespace bindings,
//! calls inside functions, and export clauses — a name exported by a clause
//! is marked exported, and `export … from` is both an import edge and a
//! one-hop re-export.

use vstd::prelude::*;

use crate::highlight::Grammar;
use crate::parsers::syntax::{
    call_fact, child_by_field, children, children_of, copy_text, ctx_at, field_child, field_text, import_fact,
    is_shaped, kind_is, lemma_ctx_step, lemma_present_push, line_no, line_of, name_pair, nodes, opt_text,
    parent_on, present, qualified, qualify, reexport_fact, shaped, spine, step_spine, symbol_fact, syntax,
    syntax_of, text_by_field, NodeView, SyntaxNode,
};
use crate::parsers::{Analysis, Call, Import, ImportedName, Reexport, Symbol, SymbolKind};
use crate::text::{chars_of, is_listed, lemma_listed_strings, listed, string_of, strings};

verus! {

/// A node's context: the enclosing class, whether an `export` reaches it,
/// and the enclosing function's qualified name.
pub struct EsCtx {
    pub scope: Option<Seq<char>>,
    pub exported: bool,
    pub caller: Option<Seq<char>>,
}

pub open spec fn es_root() -> EsCtx {
    EsCtx { scope: None, exported: false, caller: None }
}

/// Whether node `i` is a variable declarator whose value is a function.
pub open spec fn is_function_value(t: Seq<NodeView>, i: int) -> bool {
    match field_child(t, i, "value"@) {
        Some(v) => t[v].kind == "arrow_function"@ || t[v].kind == "function_expression"@ || t[v].kind
            == "generator_function"@,
        None => false,
    }
}

/// The kind of symbol node `i` declares, if any.
pub open spec fn es_kind(t: Seq<NodeView>, i: int) -> Option<SymbolKind> {
    let k = t[i].kind;
    if k == "function_declaration"@ || k == "generator_function_declaration"@ || k == "method_definition"@ {
        Some(SymbolKind::Function)
    } else if k == "variable_declarator"@ && is_function_value(t, i) {
        Some(SymbolKind::Function)
    } else if k == "class_declaration"@ {
        Some(SymbolKind::Class)
    } else {
        None
    }
}

/// The symbol node `i` declares, if any, before export clauses are read.
pub open spec fn es_symbol(t: Seq<NodeView>, i: int, c: EsCtx) -> Option<(SymbolKind, Seq<char>, int, int, bool)> {
    match (es_kind(t, i), field_text(t, i, "name"@)) {
        (Some(k), Some(n)) => Some((k, qualified(k, c.scope, n), line_no(t[i].start_row), line_no(t[i].end_row), c.exported)),
        _ => None,
    }
}

/// The context node `i`'s children see. The export modifier reaches the
/// declaration directly under it, through a `const`/`let`/`var` statement,
/// and no further.
pub open spec fn es_below(t: Seq<NodeView>, i: int, c: EsCtx) -> EsCtx {
    let k = t[i].kind;
    EsCtx {
        scope: if k == "class_declaration"@ {
            field_text(t, i, "name"@)
        } else {
            c.scope
        },
        exported: if k == "export_statement"@ {
            true
        } else if k == "lexical_declaration"@ || k == "variable_declaration"@ {
            c.exported
        } else {
            false
        },
        caller: match es_symbol(t, i, c) {
            Some(s) if s.0 == SymbolKind::Function => Some(s.1),
            _ => c.caller,
        },
    }
}

pub open spec fn es_step(t: Seq<NodeView>) -> spec_fn(int, EsCtx) -> EsCtx {
    |k: int, c: EsCtx| es_below(t, k, c)
}

pub open spec fn es_ctx(t: Seq<NodeView>, i: int) -> EsCtx {
    ctx_at(t, i, es_root(), es_step(t))
}

pub open spec fn quote(c: char) -> bool {
    c == '"' || c == '\''
}

pub open spec fn trim_front(s: Seq<char>) -> Seq<char>
    decreases s.len(),
{
    if s.len() > 0 && quote(s[0]) {
        trim_front(s.drop_first())
    } else {
        s
    }
}

pub open spec fn trim_back(s: Seq<char>) -> Seq<char>
    decreases s.len(),
{
    if s.len() > 0 && quote(s.last()) {
        trim_back(s.drop_last())
    } else {
        s
    }
}

/// A string literal's text without its quotes: `"./util"` is `./util`.
pub open spec fn unquoted(s: Seq<char>) -> Seq<char> {
    trim_back(trim_front(s))
}

/// The unquoted text of node `i`'s `source` field.
pub open spec fn source_of(t: Seq<NodeView>, i: int) -> Option<Seq<char>> {
    match field_text(t, i, "source"@) {
        Some(x) => Some(unquoted(x)),
        None => None,
    }
}

/// The first index from `k` on that lies outside node `j`'s subtree.
pub open spec fn past(t: Seq<NodeView>, j: int, k: int) -> int
    decreases t.len() - k,
{
    if k >= t.len() || k <= j || t[k].depth <= t[j].depth {
        k
    } else {
        past(t, j, k + 1)
    }
}

pub proof fn lemma_past(t: Seq<NodeView>, j: int, k: int)
    ensures
        past(t, j, k) >= k,
        k <= t.len() ==> past(t, j, k) <= t.len(),
    decreases t.len() - k,
{
    if !(k >= t.len() || k <= j || t[k].depth <= t[j].depth) {
        lemma_past(t, j, k + 1);
    }
}

/// A named import binding, (local, imported): `import { imported as local }`.
pub open spec fn binding(t: Seq<NodeView>, k: int) -> Option<(Seq<char>, Seq<char>)> {
    match field_text(t, k, "name"@) {
        Some(imported) => Some(
            (
                match field_text(t, k, "alias"@) {
                    Some(a) => a,
                    None => imported,
                },
                imported,
            ),
        ),
        None => None,
    }
}

/// The named bindings inside node `i`'s subtree from `k` on: every import
/// specifier, whose own insides are not searched.
pub open spec fn bindings(t: Seq<NodeView>, i: int, k: int) -> Seq<(Seq<char>, Seq<char>)>
    decreases t.len() - k,
{
    if k <= i || k >= t.len() || t[k].depth <= t[i].depth {
        Seq::empty()
    } else if t[k].kind == "import_specifier"@ {
        proof {
            lemma_past(t, k, k + 1);
        }
        match binding(t, k) {
            Some(b) => seq![b] + bindings(t, i, past(t, k, k + 1)),
            None => bindings(t, i, past(t, k, k + 1)),
        }
    } else {
        bindings(t, i, k + 1)
    }
}

/// The local name an `import * as util` clause binds, if it binds one: the
/// clause's identifier.
pub open spec fn namespace_name(t: Seq<NodeView>, k: int) -> Option<Seq<char>> {
    match kind_from(t, k, "identifier"@, k + 1) {
        Some(n) => match t[n].text {
            Some(x) if x.len() > 0 => Some(x),
            _ => None,
        },
        None => None,
    }
}

/// The namespace bindings inside node `i`'s subtree from `k` on.
pub open spec fn namespaces(t: Seq<NodeView>, i: int, k: int) -> Seq<Seq<char>>
    decreases t.len() - k,
{
    if k <= i || k >= t.len() || t[k].depth <= t[i].depth {
        Seq::empty()
    } else if t[k].kind == "namespace_import"@ {
        proof {
            lemma_past(t, k, k + 1);
        }
        match namespace_name(t, k) {
            Some(b) => seq![b] + namespaces(t, i, past(t, k, k + 1)),
            None => namespaces(t, i, past(t, k, k + 1)),
        }
    } else {
        namespaces(t, i, k + 1)
    }
}

/// The imports node `i` yields: an import statement's, and the file
/// dependency an `export … from` carries.
pub open spec fn es_imports(t: Seq<NodeView>, i: int) -> Seq<(Seq<char>, Seq<(Seq<char>, Seq<char>)>, Seq<Seq<char>>)> {
    let k = t[i].kind;
    if k == "import_statement"@ {
        match source_of(t, i) {
            Some(s) => seq![(s, bindings(t, i, i + 1), namespaces(t, i, i + 1))],
            None => Seq::empty(),
        }
    } else if k == "export_statement"@ {
        match source_of(t, i) {
            Some(s) => seq![(s, Seq::empty(), Seq::empty())],
            None => Seq::empty(),
        }
    } else {
        Seq::empty()
    }
}

/// A member call target split into its name and its one-identifier
/// receiver: `util.greet` is `("greet", ["util"])`.
pub open spec fn member_parts(t: Seq<NodeView>, f: int) -> Option<(Seq<char>, Seq<Seq<char>>)> {
    match (field_child(t, f, "property"@), field_child(t, f, "object"@)) {
        (Some(p), Some(o)) => if t[p].kind == "property_identifier"@ && t[o].kind == "identifier"@ {
            match (t[p].text, t[o].text) {
                (Some(a), Some(b)) => Some((a, seq![b])),
                _ => None,
            }
        } else {
            None
        },
        _ => None,
    }
}

/// The call node `i` yields, if any: only inside a function.
pub open spec fn es_call(t: Seq<NodeView>, i: int, c: EsCtx) -> Option<(Seq<char>, Seq<char>, Seq<Seq<char>>)> {
    if t[i].kind == "call_expression"@ {
        match (field_child(t, i, "function"@), c.caller) {
            (Some(f), Some(caller)) => if t[f].kind == "identifier"@ {
                match t[f].text {
                    Some(x) => Some((caller, x, Seq::empty())),
                    None => None,
                }
            } else if t[f].kind == "member_expression"@ {
                match member_parts(t, f) {
                    Some((name, receiver)) => Some((caller, name, receiver)),
                    None => None,
                }
            } else {
                None
            },
            _ => None,
        }
    } else {
        None
    }
}

/// Node `i`'s first child of kind `k`, from `j` on.
pub open spec fn kind_from(t: Seq<NodeView>, i: int, k: Seq<char>, j: int) -> Option<int>
    decreases t.len() - j,
{
    if j <= i || j >= t.len() || t[j].depth <= t[i].depth {
        None
    } else if t[j].depth == t[i].depth + 1 && t[j].kind == k {
        Some(j)
    } else {
        kind_from(t, i, k, j + 1)
    }
}

/// An export specifier's (exported, local) names.
pub open spec fn specifier_names(t: Seq<NodeView>, s: int) -> Option<(Seq<char>, Seq<char>)> {
    if t[s].kind == "export_specifier"@ {
        match field_text(t, s, "name"@) {
            Some(name) => Some(
                (
                    match field_text(t, s, "alias"@) {
                        Some(a) => a,
                        None => name,
                    },
                    name,
                ),
            ),
            None => None,
        }
    } else {
        None
    }
}

/// The specifiers of export statement `i`'s clause.
pub open spec fn clause_names(t: Seq<NodeView>, i: int) -> Seq<(Seq<char>, Seq<char>)> {
    match kind_from(t, i, "export_clause"@, i + 1) {
        Some(cl) => present(children(t, cl, None).map_values(|s: int| specifier_names(t, s))),
        None => Seq::empty(),
    }
}

/// The re-exports node `i` yields: one per specifier of an export clause,
/// pointing onward when the statement names a source.
pub open spec fn es_reexports(t: Seq<NodeView>, i: int) -> Seq<(Seq<char>, Seq<char>, Option<Seq<char>>)> {
    if t[i].kind == "export_statement"@ {
        clause_names(t, i).map_values(|p: (Seq<char>, Seq<char>)| (p.0, p.1, source_of(t, i)))
    } else {
        Seq::empty()
    }
}

/// The local names an export clause without a source marks exported.
pub open spec fn es_export_names(t: Seq<NodeView>, i: int) -> Seq<Seq<char>> {
    if t[i].kind == "export_statement"@ && source_of(t, i) is None {
        clause_names(t, i).map_values(|p: (Seq<char>, Seq<char>)| p.1)
    } else {
        Seq::empty()
    }
}

/// The facts of the first `n` nodes, in preorder, and the names export
/// clauses mark exported.
pub open spec fn es_walk(t: Seq<NodeView>, n: int) -> (
    Seq<(SymbolKind, Seq<char>, int, int, bool)>,
    Seq<(Seq<char>, Seq<(Seq<char>, Seq<char>)>, Seq<Seq<char>>)>,
    Seq<(Seq<char>, Seq<char>, Seq<Seq<char>>)>,
    Seq<(Seq<char>, Seq<char>, Option<Seq<char>>)>,
    Seq<Seq<char>>,
)
    decreases n,
{
    if n <= 0 {
        (Seq::empty(), Seq::empty(), Seq::empty(), Seq::empty(), Seq::empty())
    } else {
        let (s, m, c, r, e) = es_walk(t, n - 1);
        let x = es_ctx(t, n - 1);
        (
            match es_symbol(t, n - 1, x) {
                Some(f) => s.push(f),
                None => s,
            },
            m + es_imports(t, n - 1),
            match es_call(t, n - 1, x) {
                Some(f) => c.push(f),
                None => c,
            },
            r + es_reexports(t, n - 1),
            e + es_export_names(t, n - 1),
        )
    }
}

/// A symbol with the export clauses applied.
pub open spec fn marked(s: (SymbolKind, Seq<char>, int, int, bool), names: Seq<Seq<char>>) -> (SymbolKind, Seq<char>, int, int, bool) {
    (s.0, s.1, s.2, s.3, s.4 || names.contains(s.1))
}

/// Everything a TypeScript or JavaScript tree yields; a list that is not
/// one tree yields nothing.
pub open spec fn es_facts(t: Seq<NodeView>) -> (
    Seq<(SymbolKind, Seq<char>, int, int, bool)>,
    Seq<(Seq<char>, Seq<(Seq<char>, Seq<char>)>, Seq<Seq<char>>)>,
    Seq<(Seq<char>, Seq<char>, Seq<Seq<char>>)>,
    Seq<(Seq<char>, Seq<char>, Option<Seq<char>>)>,
) {
    if shaped(t) {
        let (s, m, c, r, e) = es_walk(t, t.len() as int);
        (s.map_values(|x: (SymbolKind, Seq<char>, int, int, bool)| marked(x, e)), m, c, r)
    } else {
        (Seq::empty(), Seq::empty(), Seq::empty(), Seq::empty())
    }
}

/// The facts an analysis holds, re-exports included.
pub open spec fn all_facts(a: Analysis) -> (
    Seq<(SymbolKind, Seq<char>, int, int, bool)>,
    Seq<(Seq<char>, Seq<(Seq<char>, Seq<char>)>, Seq<Seq<char>>)>,
    Seq<(Seq<char>, Seq<char>, Seq<Seq<char>>)>,
    Seq<(Seq<char>, Seq<char>, Option<Seq<char>>)>,
) {
    (
        a.symbols@.map_values(|s: Symbol| symbol_fact(s)),
        a.imports@.map_values(|m: Import| import_fact(m)),
        a.calls@.map_values(|c: Call| call_fact(c)),
        a.reexports@.map_values(|r: Reexport| reexport_fact(r)),
    )
}

struct Scope {
    scope: Option<String>,
    exported: bool,
    caller: Option<String>,
}

impl Scope {
    spec fn view(&self) -> EsCtx {
        EsCtx { scope: opt_text(self.scope), exported: self.exported, caller: opt_text(self.caller) }
    }

    fn copy(&self) -> (r: Scope)
        ensures
            r.view() == self.view(),
    {
        Scope { scope: copy_text(&self.scope), exported: self.exported, caller: copy_text(&self.caller) }
    }
}

fn function_value(t: &Vec<SyntaxNode>, i: usize) -> (r: bool)
    requires
        i < t.len(),
    ensures
        r == is_function_value(nodes(t@), i as int),
{
    match child_by_field(t, i, "value") {
        Some(v) => kind_is(t, v, "arrow_function") || kind_is(t, v, "function_expression") || kind_is(
            t,
            v,
            "generator_function",
        ),
        None => false,
    }
}

fn kind_at(t: &Vec<SyntaxNode>, i: usize) -> (r: Option<SymbolKind>)
    requires
        i < t.len(),
    ensures
        r == es_kind(nodes(t@), i as int),
{
    if kind_is(t, i, "function_declaration") || kind_is(t, i, "generator_function_declaration") || kind_is(
        t,
        i,
        "method_definition",
    ) {
        Some(SymbolKind::Function)
    } else if kind_is(t, i, "variable_declarator") && function_value(t, i) {
        Some(SymbolKind::Function)
    } else if kind_is(t, i, "class_declaration") {
        Some(SymbolKind::Class)
    } else {
        None
    }
}

fn symbol_at(t: &Vec<SyntaxNode>, i: usize, c: &Scope) -> (r: Option<Symbol>)
    requires
        i < t.len(),
    ensures
        match r {
            Some(s) => es_symbol(nodes(t@), i as int, c.view()) == Some(symbol_fact(s)),
            None => es_symbol(nodes(t@), i as int, c.view()) is None,
        },
{
    let ghost v = nodes(t@);
    let kind = match kind_at(t, i) {
        Some(k) => k,
        None => return None,
    };
    match text_by_field(t, i, "name") {
        Some(name) => {
            assert(v[i as int] == t@[i as int]@);
            Some(
                Symbol {
                    kind,
                    name: qualify(kind, &c.scope, name.as_str()),
                    start_line: line_of(t[i].start_row),
                    end_line: line_of(t[i].end_row),
                    exported: c.exported,
                },
            )
        },
        None => None,
    }
}

fn below_of(t: &Vec<SyntaxNode>, i: usize, c: &Scope, symbol: &Option<Symbol>) -> (r: Scope)
    requires
        i < t.len(),
        match symbol {
            Some(s) => es_symbol(nodes(t@), i as int, c.view()) == Some(symbol_fact(*s)),
            None => es_symbol(nodes(t@), i as int, c.view()) is None,
        },
    ensures
        r.view() == es_below(nodes(t@), i as int, c.view()),
{
    let scope = if kind_is(t, i, "class_declaration") {
        text_by_field(t, i, "name")
    } else {
        copy_text(&c.scope)
    };
    let exported = if kind_is(t, i, "export_statement") {
        true
    } else if kind_is(t, i, "lexical_declaration") || kind_is(t, i, "variable_declaration") {
        c.exported
    } else {
        false
    };
    let caller = match symbol {
        Some(s) if s.kind == SymbolKind::Function => Some(s.name.clone()),
        _ => copy_text(&c.caller),
    };
    Scope { scope, exported, caller }
}

fn unquote(s: &str) -> (r: String)
    ensures
        r@ == unquoted(s@),
{
    let v = chars_of(s);
    let mut lo: usize = 0;
    assert(v@.skip(0) =~= v@);
    while lo < v.len() && (v[lo] == '"' || v[lo] == '\'')
        invariant
            lo <= v.len(),
            trim_front(v@) == trim_front(v@.skip(lo as int)),
        decreases v.len() - lo,
    {
        assert(v@.skip(lo as int).drop_first() =~= v@.skip(lo + 1));
        lo += 1;
    }
    let ghost front = v@.skip(lo as int);
    assert(trim_front(front) == front);
    let mut hi: usize = v.len();
    while hi > lo && (v[hi - 1] == '"' || v[hi - 1] == '\'')
        invariant
            lo <= hi <= v.len(),
            trim_back(front) == trim_back(v@.subrange(lo as int, hi as int)),
            front == v@.skip(lo as int),
        decreases hi,
    {
        assert(v@.subrange(lo as int, hi as int).drop_last() =~= v@.subrange(lo as int, hi - 1));
        hi -= 1;
    }
    assert(v@.skip(lo as int) =~= v@.subrange(lo as int, v.len() as int));
    let r = crate::text::slice(&v, lo, hi);
    string_of(&r)
}

fn source_at(t: &Vec<SyntaxNode>, i: usize) -> (r: Option<String>)
    requires
        i < t.len(),
    ensures
        opt_text(r) == source_of(nodes(t@), i as int),
{
    match text_by_field(t, i, "source") {
        Some(x) => Some(unquote(x.as_str())),
        None => None,
    }
}

/// The first index from `k` on outside node `j`'s subtree.
pub(crate) fn past_at(t: &Vec<SyntaxNode>, j: usize, k: usize) -> (r: usize)
    requires
        j < k <= t.len(),
    ensures
        r as int == past(nodes(t@), j as int, k as int),
        k <= r <= t.len(),
{
    let ghost v = nodes(t@);
    let mut m = k;
    while m < t.len() && t[m].depth > t[j].depth
        invariant
            k <= m <= t.len(),
            j < k,
            v == nodes(t@),
            past(v, j as int, k as int) == past(v, j as int, m as int),
        decreases t.len() - m,
    {
        assert(v[m as int] == t@[m as int]@ && v[j as int] == t@[j as int]@);
        m += 1;
    }
    if m < t.len() {
        assert(v[m as int] == t@[m as int]@ && v[j as int] == t@[j as int]@);
    }
    m
}

fn binding_at(t: &Vec<SyntaxNode>, k: usize) -> (r: Option<ImportedName>)
    requires
        k < t.len(),
    ensures
        match r {
            Some(n) => binding(nodes(t@), k as int) == Some(name_pair(n)),
            None => binding(nodes(t@), k as int) is None,
        },
{
    match text_by_field(t, k, "name") {
        Some(imported) => {
            let local = match text_by_field(t, k, "alias") {
                Some(a) => a,
                None => imported.clone(),
            };
            Some(ImportedName { local, imported })
        },
        None => None,
    }
}

fn bindings_at(t: &Vec<SyntaxNode>, i: usize) -> (r: Vec<ImportedName>)
    requires
        i < t.len(),
    ensures
        r@.map_values(|n: ImportedName| name_pair(n)) == bindings(nodes(t@), i as int, i + 1),
{
    let ghost v = nodes(t@);
    let mut r: Vec<ImportedName> = Vec::new();
    let mut k = i + 1;
    while k < t.len() && t[k].depth > t[i].depth
        invariant
            i < k <= t.len(),
            v == nodes(t@),
            r@.map_values(|n: ImportedName| name_pair(n)) + bindings(v, i as int, k as int) == bindings(v, i as int, i + 1),
        decreases t.len() - k,
    {
        assert(v[k as int] == t@[k as int]@ && v[i as int] == t@[i as int]@);
        let ghost before = r@.map_values(|n: ImportedName| name_pair(n));
        if kind_is(t, k, "import_specifier") {
            let next = past_at(t, k, k + 1);
            proof {
                crate::parsers::ts_js::lemma_past(v, k as int, k + 1);
            }
            if let Some(b) = binding_at(t, k) {
                r.push(b);
                assert(r@.map_values(|n: ImportedName| name_pair(n)) =~= before.push(name_pair(b)));
                assert(before + bindings(v, i as int, k as int) =~= before.push(name_pair(b)) + bindings(v, i as int, next as int));
            }
            k = next;
        } else {
            k += 1;
        }
    }
    if k < t.len() {
        assert(v[k as int] == t@[k as int]@ && v[i as int] == t@[i as int]@);
    }
    assert(bindings(v, i as int, k as int) == Seq::<(Seq<char>, Seq<char>)>::empty());
    assert(r@.map_values(|n: ImportedName| name_pair(n)) =~= bindings(v, i as int, i + 1));
    r
}

fn namespace_at(t: &Vec<SyntaxNode>, k: usize) -> (r: Option<String>)
    requires
        k < t.len(),
    ensures
        opt_text(r) == namespace_name(nodes(t@), k as int),
{
    let ghost v = nodes(t@);
    match kind_child(t, k, "identifier") {
        Some(n) => {
            assert(v[n as int] == t@[n as int]@);
            match &t[n].text {
                Some(x) => {
                    let cs = chars_of(x.as_str());
                    if cs.len() > 0 {
                        Some(x.clone())
                    } else {
                        None
                    }
                },
                None => None,
            }
        },
        None => None,
    }
}

fn namespaces_at(t: &Vec<SyntaxNode>, i: usize) -> (r: Vec<String>)
    requires
        i < t.len(),
    ensures
        strings(r@) == namespaces(nodes(t@), i as int, i + 1),
{
    let ghost v = nodes(t@);
    let mut r: Vec<String> = Vec::new();
    let mut k = i + 1;
    while k < t.len() && t[k].depth > t[i].depth
        invariant
            i < k <= t.len(),
            v == nodes(t@),
            strings(r@) + namespaces(v, i as int, k as int) == namespaces(v, i as int, i + 1),
        decreases t.len() - k,
    {
        assert(v[k as int] == t@[k as int]@ && v[i as int] == t@[i as int]@);
        let ghost before = strings(r@);
        if kind_is(t, k, "namespace_import") {
            let next = past_at(t, k, k + 1);
            proof {
                lemma_past(v, k as int, k + 1);
            }
            if let Some(b) = namespace_at(t, k) {
                let ghost bv = b@;
                r.push(b);
                assert(strings(r@) =~= before.push(bv));
                assert(before + namespaces(v, i as int, k as int) =~= before.push(bv) + namespaces(v, i as int, next as int));
            }
            k = next;
        } else {
            k += 1;
        }
    }
    if k < t.len() {
        assert(v[k as int] == t@[k as int]@ && v[i as int] == t@[i as int]@);
    }
    assert(namespaces(v, i as int, k as int) == Seq::<Seq<char>>::empty());
    assert(strings(r@) =~= namespaces(v, i as int, i + 1));
    r
}

fn imports_at(t: &Vec<SyntaxNode>, i: usize, out: &mut Vec<Import>)
    requires
        i < t.len(),
    ensures
        final(out)@.map_values(|m: Import| import_fact(m)) == old(out)@.map_values(|m: Import| import_fact(m))
            + es_imports(nodes(t@), i as int),
{
    let ghost v = nodes(t@);
    let ghost start = old(out)@.map_values(|m: Import| import_fact(m));
    let importing = kind_is(t, i, "import_statement");
    let exporting = kind_is(t, i, "export_statement");
    if importing || exporting {
        if let Some(s) = source_at(t, i) {
            let r = if importing {
                Import { specifier: s, names: bindings_at(t, i), namespaces: namespaces_at(t, i) }
            } else {
                let r = Import { specifier: s, names: Vec::new(), namespaces: Vec::new() };
                assert(r.names@.map_values(|n: ImportedName| name_pair(n)) =~= Seq::<(Seq<char>, Seq<char>)>::empty());
                assert(strings(r.namespaces@) =~= Seq::<Seq<char>>::empty());
                r
            };
            out.push(r);
            assert(out@.map_values(|m: Import| import_fact(m)) =~= start.push(import_fact(r)));
            assert(start + es_imports(v, i as int) =~= start.push(import_fact(r)));
            return;
        }
    }
    assert(start + es_imports(v, i as int) =~= start);
}

fn member_at(t: &Vec<SyntaxNode>, f: usize) -> (r: Option<(String, Vec<String>)>)
    requires
        f < t.len(),
    ensures
        match r {
            Some((n, recv)) => member_parts(nodes(t@), f as int) == Some((n@, strings(recv@))),
            None => member_parts(nodes(t@), f as int) is None,
        },
{
    let ghost v = nodes(t@);
    let p = match child_by_field(t, f, "property") {
        Some(p) => p,
        None => return None,
    };
    let o = match child_by_field(t, f, "object") {
        Some(o) => o,
        None => return None,
    };
    if !kind_is(t, p, "property_identifier") || !kind_is(t, o, "identifier") {
        return None;
    }
    assert(v[p as int] == t@[p as int]@ && v[o as int] == t@[o as int]@);
    match (&t[p].text, &t[o].text) {
        (Some(a), Some(b)) => {
            let recv = vec![b.clone()];
            assert(strings(recv@) =~= seq![b@]);
            Some((a.clone(), recv))
        },
        _ => None,
    }
}

fn call_at(t: &Vec<SyntaxNode>, i: usize, c: &Scope) -> (r: Option<Call>)
    requires
        i < t.len(),
    ensures
        match r {
            Some(x) => es_call(nodes(t@), i as int, c.view()) == Some(call_fact(x)),
            None => es_call(nodes(t@), i as int, c.view()) is None,
        },
{
    let ghost v = nodes(t@);
    if !kind_is(t, i, "call_expression") {
        return None;
    }
    let f = match child_by_field(t, i, "function") {
        Some(f) => f,
        None => return None,
    };
    let caller = match &c.caller {
        Some(x) => x.clone(),
        None => return None,
    };
    assert(v[f as int] == t@[f as int]@);
    if kind_is(t, f, "identifier") {
        match &t[f].text {
            Some(x) => {
                let r = Call { caller, callee: x.clone(), receiver: Vec::new() };
                assert(strings(r.receiver@) =~= Seq::<Seq<char>>::empty());
                Some(r)
            },
            None => None,
        }
    } else if kind_is(t, f, "member_expression") {
        match member_at(t, f) {
            Some((name, receiver)) => Some(Call { caller, callee: name, receiver }),
            None => None,
        }
    } else {
        None
    }
}

fn kind_child(t: &Vec<SyntaxNode>, i: usize, k: &str) -> (r: Option<usize>)
    requires
        i < t.len(),
    ensures
        r matches Some(j) ==> Some(j as int) == kind_from(nodes(t@), i as int, k@, i + 1) && j < t.len(),
        r is None ==> kind_from(nodes(t@), i as int, k@, i + 1) is None,
{
    let ghost v = nodes(t@);
    let mut j = i + 1;
    while j < t.len() && t[j].depth > t[i].depth
        invariant
            i < j <= t.len(),
            v == nodes(t@),
            kind_from(v, i as int, k@, i + 1) == kind_from(v, i as int, k@, j as int),
        decreases t.len() - j,
    {
        assert(v[j as int] == t@[j as int]@ && v[i as int] == t@[i as int]@);
        if t[j].depth == t[i].depth + 1 && kind_is(t, j, k) {
            return Some(j);
        }
        j += 1;
    }
    if j < t.len() {
        assert(v[j as int] == t@[j as int]@ && v[i as int] == t@[i as int]@);
    }
    None
}

fn specifier_at(t: &Vec<SyntaxNode>, s: usize) -> (r: Option<(String, String)>)
    requires
        s < t.len(),
    ensures
        match r {
            Some((e, l)) => specifier_names(nodes(t@), s as int) == Some((e@, l@)),
            None => specifier_names(nodes(t@), s as int) is None,
        },
{
    let ghost v = nodes(t@);
    assert(v[s as int] == t@[s as int]@);
    if !kind_is(t, s, "export_specifier") {
        return None;
    }
    match text_by_field(t, s, "name") {
        Some(name) => {
            let exported = match text_by_field(t, s, "alias") {
                Some(a) => a,
                None => name.clone(),
            };
            Some((exported, name))
        },
        None => None,
    }
}

/// The specifiers of export statement `i`'s clause, as (exported, local).
fn clause_at(t: &Vec<SyntaxNode>, i: usize) -> (r: Vec<(String, String)>)
    requires
        i < t.len(),
    ensures
        r@.map_values(|p: (String, String)| (p.0@, p.1@)) == clause_names(nodes(t@), i as int),
{
    let ghost v = nodes(t@);
    let mut r: Vec<(String, String)> = Vec::new();
    let cl = match kind_child(t, i, "export_clause") {
        Some(cl) => cl,
        None => {
            assert(r@.map_values(|p: (String, String)| (p.0@, p.1@)) =~= clause_names(v, i as int));
            return r;
        },
    };
    let js = children_of(t, cl, None);
    let ghost ks = js@.map_values(|k: usize| k as int);
    let ghost f = |s: int| specifier_names(v, s);
    let mut k: usize = 0;
    while k < js.len()
        invariant
            k <= js.len(),
            v == nodes(t@),
            ks == js@.map_values(|k: usize| k as int),
            forall|q: int| 0 <= q < js.len() ==> cl < #[trigger] js@[q] < t.len(),
            forall|s: int| #[trigger] f(s) == specifier_names(v, s),
            r@.map_values(|p: (String, String)| (p.0@, p.1@)) == present(ks.take(k as int).map_values(f)),
        decreases js.len() - k,
    {
        let ghost before = r@.map_values(|p: (String, String)| (p.0@, p.1@));
        let o = specifier_at(t, js[k]);
        proof {
            assert(ks.take(k + 1).map_values(f) =~= ks.take(k as int).map_values(f).push(f(ks[k as int])));
            lemma_present_push(ks.take(k as int).map_values(f), f(ks[k as int]));
        }
        assert(ks[k as int] == js@[k as int] as int);
        if let Some(p) = o {
            let ghost pv = (p.0@, p.1@);
            r.push(p);
            assert(r@.map_values(|p: (String, String)| (p.0@, p.1@)) =~= before.push(pv));
        }
        k += 1;
    }
    assert(ks.take(js.len() as int) =~= ks);
    r
}

/// The re-exports and clause-exported names export statement `i` yields.
fn exports_at(t: &Vec<SyntaxNode>, i: usize, reexports: &mut Vec<Reexport>, names: &mut Vec<String>)
    requires
        i < t.len(),
    ensures
        final(reexports)@.map_values(|r: Reexport| reexport_fact(r)) == old(reexports)@.map_values(
            |r: Reexport| reexport_fact(r),
        ) + es_reexports(nodes(t@), i as int),
        strings(final(names)@) == strings(old(names)@) + es_export_names(nodes(t@), i as int),
{
    let ghost v = nodes(t@);
    let ghost r0 = old(reexports)@.map_values(|r: Reexport| reexport_fact(r));
    let ghost n0 = strings(old(names)@);
    if !kind_is(t, i, "export_statement") {
        assert(r0 + es_reexports(v, i as int) =~= r0);
        assert(n0 + es_export_names(v, i as int) =~= n0);
        return;
    }
    let from = source_at(t, i);
    let clause = clause_at(t, i);
    let ghost cv = clause@.map_values(|p: (String, String)| (p.0@, p.1@));
    let mut k: usize = 0;
    while k < clause.len()
        invariant
            k <= clause.len(),
            v == nodes(t@),
            cv == clause@.map_values(|p: (String, String)| (p.0@, p.1@)),
            cv == clause_names(v, i as int),
            opt_text(from) == source_of(v, i as int),
            t@[i as int].kind@ == "export_statement"@,
            reexports@.map_values(|r: Reexport| reexport_fact(r)) == r0 + cv.take(k as int).map_values(
                |p: (Seq<char>, Seq<char>)| (p.0, p.1, source_of(v, i as int)),
            ),
            strings(names@) == n0 + if source_of(v, i as int) is None {
                cv.take(k as int).map_values(|p: (Seq<char>, Seq<char>)| p.1)
            } else {
                Seq::empty()
            },
        decreases clause.len() - k,
    {
        let ghost rb = reexports@.map_values(|r: Reexport| reexport_fact(r));
        let ghost nb = strings(names@);
        let (exported, local) = (clause[k].0.clone(), clause[k].1.clone());
        assert(cv[k as int] == (exported@, local@));
        if from.is_none() {
            names.push(local.clone());
            assert(strings(names@) =~= nb.push(local@));
        }
        let x = Reexport { exported, local, specifier: copy_text(&from) };
        reexports.push(x);
        assert(reexports@.map_values(|r: Reexport| reexport_fact(r)) =~= rb.push(reexport_fact(x)));
        assert(cv.take(k + 1) =~= cv.take(k as int).push(cv[k as int]));
        assert(cv.take(k + 1).map_values(|p: (Seq<char>, Seq<char>)| (p.0, p.1, source_of(v, i as int))) =~= cv.take(
            k as int,
        ).map_values(|p: (Seq<char>, Seq<char>)| (p.0, p.1, source_of(v, i as int))).push(reexport_fact(x)));
        assert(cv.take(k + 1).map_values(|p: (Seq<char>, Seq<char>)| p.1) =~= cv.take(k as int).map_values(
            |p: (Seq<char>, Seq<char>)| p.1,
        ).push(local@));
        k += 1;
    }
    assert(cv.take(clause.len() as int) =~= cv);
    assert(v[i as int] == t@[i as int]@);
}

/// The walk's facts before export clauses mark their names.
fn walk(t: &Vec<SyntaxNode>, a: &mut Analysis, names: &mut Vec<String>)
    requires
        shaped(nodes(t@)),
        old(a).symbols@.len() == 0,
        old(a).imports@.len() == 0,
        old(a).calls@.len() == 0,
        old(a).reexports@.len() == 0,
        old(names)@.len() == 0,
    ensures
        ({
            let (s, m, c, r, e) = es_walk(nodes(t@), t@.len() as int);
            all_facts(*final(a)) == (s, m, c, r) && strings(final(names)@) == e
        }),
{
    let ghost v = nodes(t@);
    let mut path: Vec<usize> = Vec::new();
    let mut below: Vec<Scope> = Vec::new();
    let mut i: usize = 0;
    assert(all_facts(*a).0 =~= es_walk(v, 0).0);
    assert(all_facts(*a).1 =~= es_walk(v, 0).1);
    assert(all_facts(*a).2 =~= es_walk(v, 0).2);
    assert(all_facts(*a).3 =~= es_walk(v, 0).3);
    assert(strings(names@) =~= es_walk(v, 0).4);
    while i < t.len()
        invariant
            i <= t.len(),
            v == nodes(t@),
            shaped(v),
            spine(v, i as int, path@),
            below.len() == i,
            forall|k: int| 0 <= k < i ==> (#[trigger] below@[k]).view() == es_below(v, k, es_ctx(v, k)),
            ({
                let (s, m, c, r, e) = es_walk(v, i as int);
                all_facts(*a) == (s, m, c, r) && strings(names@) == e
            }),
        decreases t.len() - i,
    {
        let ctx = match parent_on(t, i, &path) {
            Some(p) => below[p].copy(),
            None => Scope { scope: None, exported: false, caller: None },
        };
        proof {
            lemma_ctx_step(v, i as int, es_root(), es_step(v));
        }
        assert(ctx.view() == es_ctx(v, i as int));
        let ghost before = all_facts(*a);
        let ghost names_before = strings(names@);
        let symbol = symbol_at(t, i, &ctx);
        let next = below_of(t, i, &ctx, &symbol);
        if let Some(s) = symbol {
            a.symbols.push(s);
        }
        imports_at(t, i, &mut a.imports);
        if let Some(x) = call_at(t, i, &ctx) {
            a.calls.push(x);
        }
        exports_at(t, i, &mut a.reexports, names);
        proof {
            let (s, m, c, r, e) = es_walk(v, i + 1);
            assert(all_facts(*a).0 =~= s);
            assert(all_facts(*a).1 =~= m);
            assert(all_facts(*a).2 =~= c);
            assert(all_facts(*a).3 =~= r);
        }
        below.push(next);
        step_spine(t, i, &mut path);
        i += 1;
    }
}

/// The facts a TypeScript, TSX or JavaScript tree yields. A list that is
/// not one tree in preorder yields nothing.
pub fn ecmascript_analysis(t: &Vec<SyntaxNode>) -> (a: Analysis)
    ensures
        all_facts(a) == es_facts(nodes(t@)),
{
    let mut a = Analysis::empty();
    if !is_shaped(t) {
        assert(all_facts(a).0 =~= Seq::empty());
        assert(all_facts(a).1 =~= Seq::empty());
        assert(all_facts(a).2 =~= Seq::empty());
        assert(all_facts(a).3 =~= Seq::empty());
        return a;
    }
    let mut names: Vec<String> = Vec::new();
    walk(t, &mut a, &mut names);
    let ghost walked = a.symbols@.map_values(|s: Symbol| symbol_fact(s));
    let ghost e = strings(names@);
    let ghost rest = (all_facts(a).1, all_facts(a).2, all_facts(a).3);
    let mut k: usize = 0;
    while k < a.symbols.len()
        invariant
            k <= a.symbols.len(),
            (all_facts(a).1, all_facts(a).2, all_facts(a).3) == rest,
            walked.len() == a.symbols.len(),
            strings(names@) == e,
            forall|q: int| 0 <= q < k ==> symbol_fact(#[trigger] a.symbols@[q]) == marked(walked[q], e),
            forall|q: int| k <= q < a.symbols.len() ==> symbol_fact(#[trigger] a.symbols@[q]) == walked[q],
        decreases a.symbols.len() - k,
    {
        let listed_here = is_listed(&names, &chars_of(a.symbols[k].name.as_str()));
        proof {
            lemma_listed_strings(names@, a.symbols@[k as int].name@);
        }
        if listed_here {
            a.symbols[k].exported = true;
        }
        assert(symbol_fact(a.symbols@[k as int]) == marked(walked[k as int], e));
        k += 1;
    }
    assert(all_facts(a).0 =~= walked.map_values(|x: (SymbolKind, Seq<char>, int, int, bool)| marked(x, e)));
    a
}

/// Extracts symbols, imports, export clauses and calls from TypeScript,
/// TSX or JavaScript source in `grammar`, tolerating syntax errors.
pub fn parse_ecmascript(grammar: Grammar, source: &str) -> (a: Analysis)
    ensures
        all_facts(a) == es_facts(syntax_of(grammar, source@)),
{
    let t = syntax(grammar, source);
    ecmascript_analysis(&t)
}

} // verus!

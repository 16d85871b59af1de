//! Syntax trees as the grammar walks read them: the parser's tree listed in
//! preorder, each node with its depth, its kind, the field its parent holds
//! it under, its first and last rows, and its text. A node's children are
//! the nodes one level deeper that follow it before anything at its own
//! depth or above; its parent is the last node one level up before it.

use vstd::prelude::*;

use tree_sitter::Parser;

use crate::highlight::{grammar_language, language_of, Grammar};
use crate::parsers::{Call, Import, ImportedName, Reexport, Symbol, SymbolKind};
use crate::text::strings;

verus! {

/// One node of a parsed tree.
pub struct SyntaxNode {
    /// Distance from the root, which is at depth 0.
    pub depth: u32,
    pub kind: String,
    /// The field name the parent holds this node under, if any.
    pub field: Option<String>,
    /// Whether the grammar names this node (rather than it being a token).
    pub named: bool,
    /// Zero-based rows of the node's first and last characters.
    pub start_row: usize,
    pub end_row: usize,
    /// The node's source text, when it is valid UTF-8.
    pub text: Option<String>,
}

/// A node as a value of the model.
pub struct NodeView {
    pub depth: int,
    pub kind: Seq<char>,
    pub field: Option<Seq<char>>,
    pub named: bool,
    pub start_row: int,
    pub end_row: int,
    pub text: Option<Seq<char>>,
}

pub open spec fn opt_text(o: Option<String>) -> Option<Seq<char>> {
    match o {
        Some(s) => Some(s@),
        None => None,
    }
}

impl View for SyntaxNode {
    type V = NodeView;

    open spec fn view(&self) -> NodeView {
        NodeView {
            depth: self.depth as int,
            kind: self.kind@,
            field: opt_text(self.field),
            named: self.named,
            start_row: self.start_row as int,
            end_row: self.end_row as int,
            text: opt_text(self.text),
        }
    }
}

/// The nodes of a tree as values of the model.
pub open spec fn nodes(t: Seq<SyntaxNode>) -> Seq<NodeView> {
    t.map_values(|n: SyntaxNode| n@)
}

/// The preorder node list tree-sitter's parser produces for `source` with
/// `grammar`'s language (empty when the parser declines the input).
pub uninterp spec fn syntax_of(grammar: Grammar, source: Seq<char>) -> Seq<NodeView>;

/// Parses `source` with `language`, which the caller passes as the
/// grammar's own (`Parser::set_language`,
/// `Parser::parse`) and lists every node of the tree in preorder by its
/// descendant index (`TreeCursor::goto_descendant`), reading `depth`,
/// `field_name`, `kind`, `is_named`, the start and end positions' rows and
/// `utf8_text`.
/// The claim is only that the list is the parse's, named
/// [`syntax_of`]; an input the parser declines gives the empty list.
#[verifier::external_body]
fn parse_nodes(grammar: Grammar, language: &tree_sitter::Language, source: &str) -> (r: Vec<SyntaxNode>)
    requires
        *language == language_of(grammar),
    ensures
        nodes(r@) == syntax_of(grammar, source@),
{
    let mut parser = Parser::new();
    if parser.set_language(language).is_err() {
        return Vec::new();
    }
    let Some(tree) = parser.parse(source, None) else { return Vec::new() };
    let mut c = tree.walk();
    (0..tree.root_node().descendant_count()).map(|i| {
        c.goto_descendant(i);
        let n = c.node();
        SyntaxNode { depth: c.depth(), kind: n.kind().into(), field: c.field_name().map(String::from), named: n.is_named(), start_row: n.start_position().row, end_row: n.end_position().row, text: n.utf8_text(source.as_bytes()).ok().map(String::from) }
    }).collect()
}

/// The tree of `source` in `grammar`.
pub fn syntax(grammar: Grammar, source: &str) -> (r: Vec<SyntaxNode>)
    ensures
        nodes(r@) == syntax_of(grammar, source@),
{
    parse_nodes(grammar, &grammar_language(grammar), source)
}

/// Whether the two hold the same characters.
pub fn str_eq(a: &str, b: &str) -> (r: bool)
    ensures
        r == (a@ == b@),
{
    crate::text::same(&crate::text::chars_of(a), &crate::text::chars_of(b))
}

/// Whether node `i`'s depth follows from the node before it: the root
/// first, and every later node at most one level below its predecessor.
pub open spec fn step_ok(t: Seq<NodeView>, i: int) -> bool {
    if i == 0 {
        t[0].depth == 0
    } else {
        1 <= t[i].depth <= t[i - 1].depth + 1
    }
}

/// Whether the list is one tree in preorder.
pub open spec fn shaped(t: Seq<NodeView>) -> bool {
    forall|i: int| 0 <= i < t.len() ==> #[trigger] step_ok(t, i)
}

pub fn is_shaped(t: &Vec<SyntaxNode>) -> (r: bool)
    ensures
        r == shaped(nodes(t@)),
{
    let ghost v = nodes(t@);
    let mut i: usize = 0;
    while i < t.len()
        invariant
            i <= t.len(),
            v == nodes(t@),
            forall|k: int| 0 <= k < i ==> #[trigger] step_ok(v, k),
        decreases t.len() - i,
    {
        let ok = if i == 0 {
            t[0].depth == 0
        } else {
            1 <= t[i].depth && t[i].depth - 1 <= t[i - 1].depth
        };
        if !ok {
            assert(!step_ok(v, i as int));
            return false;
        }
        assert(step_ok(v, i as int));
        i += 1;
    }
    true
}

/// The last node before `i` at depth `d`, or -1.
pub open spec fn last_at(t: Seq<NodeView>, i: int, d: int) -> int
    decreases i,
{
    if i <= 0 {
        -1
    } else if t[i - 1].depth == d {
        i - 1
    } else {
        last_at(t, i - 1, d)
    }
}

/// Node `i`'s parent, or -1 for the root.
pub open spec fn parent(t: Seq<NodeView>, i: int) -> int {
    last_at(t, i, t[i].depth - 1)
}

pub proof fn lemma_last_at(t: Seq<NodeView>, i: int, d: int)
    requires
        0 <= i,
    ensures
        last_at(t, i, d) < i,
        last_at(t, i, d) >= 0 ==> t[last_at(t, i, d)].depth == d,
        last_at(t, i, d) >= -1,
    decreases i,
{
    if i > 0 && t[i - 1].depth != d {
        lemma_last_at(t, i - 1, d);
    }
}

/// The ancestors of the node after `i - 1`, one per depth: entry `d` is the
/// last node before `i` at depth `d`.
pub open spec fn spine(t: Seq<NodeView>, i: int, path: Seq<usize>) -> bool {
    &&& path.len() == if i == 0 { 0 } else { t[i - 1].depth + 1 }
    &&& forall|d: int| 0 <= d < path.len() ==> path[d] as int == #[trigger] last_at(t, i, d) && 0 <= last_at(t, i, d) < i
}

/// Node `i`'s parent, read off the spine.
pub fn parent_on(t: &Vec<SyntaxNode>, i: usize, path: &Vec<usize>) -> (r: Option<usize>)
    requires
        i < t.len(),
        shaped(nodes(t@)),
        spine(nodes(t@), i as int, path@),
    ensures
        match r {
            Some(p) => p < i && p as int == parent(nodes(t@), i as int),
            None => i == 0 && parent(nodes(t@), i as int) == -1,
        },
{
    let ghost v = nodes(t@);
    assert(step_ok(v, i as int));
    if i == 0 {
        None
    } else {
        let d = t[i].depth as usize;
        assert(v[i as int].depth == d);
        let p = path[d - 1];
        assert(p as int == last_at(v, i as int, d - 1));
        Some(p)
    }
}

/// The spine moved past node `i`.
pub fn step_spine(t: &Vec<SyntaxNode>, i: usize, path: &mut Vec<usize>)
    requires
        i < t.len(),
        shaped(nodes(t@)),
        spine(nodes(t@), i as int, old(path)@),
    ensures
        spine(nodes(t@), i + 1, final(path)@),
{
    let ghost v = nodes(t@);
    assert(step_ok(v, i as int));
    let d = t[i].depth as usize;
    assert(v[i as int].depth == d);
    path.truncate(d);
    path.push(i);
    assert forall|e: int| 0 <= e < path@.len() implies path@[e] as int == #[trigger] last_at(v, i + 1, e) && 0 <= last_at(v, i + 1, e) < i + 1 by {
        if e < d {
            assert(last_at(v, i + 1, e) == last_at(v, i as int, e));
        }
    }
}

/// The contexts of the first `n` nodes of a walk: the root's is `root`,
/// and every other node's is what `below` makes of its parent's.
pub open spec fn ctxs<C>(t: Seq<NodeView>, n: nat, root: C, below: spec_fn(int, C) -> C) -> Seq<C>
    decreases n,
{
    if n == 0 {
        Seq::empty()
    } else {
        let prev = ctxs(t, (n - 1) as nat, root, below);
        let p = parent(t, n - 1);
        prev.push(
            if 0 <= p < n - 1 {
                below(p, prev[p])
            } else {
                root
            },
        )
    }
}

/// Node `i`'s context in a walk.
pub open spec fn ctx_at<C>(t: Seq<NodeView>, i: int, root: C, below: spec_fn(int, C) -> C) -> C {
    ctxs(t, (i + 1) as nat, root, below)[i]
}

pub proof fn lemma_ctxs<C>(t: Seq<NodeView>, m: nat, n: nat, root: C, below: spec_fn(int, C) -> C)
    requires
        m <= n,
    ensures
        ctxs(t, n, root, below).len() == n,
        ctxs(t, m, root, below) == ctxs(t, n, root, below).take(m as int),
    decreases n,
{
    if n > 0 {
        lemma_ctxs(t, (n - 1) as nat, (n - 1) as nat, root, below);
        if m < n {
            lemma_ctxs(t, m, (n - 1) as nat, root, below);
            assert(ctxs(t, n, root, below).take(m as int) =~= ctxs(t, (n - 1) as nat, root, below).take(m as int));
        } else {
            assert(ctxs(t, n, root, below).take(m as int) =~= ctxs(t, n, root, below));
        }
    }
}

/// A node's context is the root's, or what its parent passes down.
pub proof fn lemma_ctx_step<C>(t: Seq<NodeView>, i: int, root: C, below: spec_fn(int, C) -> C)
    requires
        0 <= i,
    ensures
        ctx_at(t, i, root, below) == if 0 <= parent(t, i) < i {
            below(parent(t, i), ctx_at(t, parent(t, i), root, below))
        } else {
            root
        },
{
    lemma_ctxs(t, i as nat, (i + 1) as nat, root, below);
    let p = parent(t, i);
    if 0 <= p < i {
        lemma_ctxs(t, (p + 1) as nat, i as nat, root, below);
    }
}

/// Whether node `i` is of kind `k`.
pub fn kind_is(t: &Vec<SyntaxNode>, i: usize, k: &str) -> (r: bool)
    requires
        i < t.len(),
    ensures
        r == (nodes(t@)[i as int].kind == k@),
{
    str_eq(t[i].kind.as_str(), k)
}

/// An owned copy of an optional string.
pub fn copy_text(o: &Option<String>) -> (r: Option<String>)
    ensures
        opt_text(r) == opt_text(*o),
{
    match o {
        Some(s) => Some(s.clone()),
        None => None,
    }
}

/// The first child of `i`, from `j` on, held under field `f`.
pub open spec fn scan_field(t: Seq<NodeView>, i: int, f: Seq<char>, j: int) -> Option<int>
    decreases t.len() - j,
{
    if j <= i || j >= t.len() || t[j].depth <= t[i].depth {
        None
    } else if t[j].depth == t[i].depth + 1 && t[j].field == Some(f) {
        Some(j)
    } else {
        scan_field(t, i, f, j + 1)
    }
}

/// Node `i`'s first child under field `f` (tree-sitter's
/// `child_by_field_name`).
pub open spec fn field_child(t: Seq<NodeView>, i: int, f: Seq<char>) -> Option<int> {
    scan_field(t, i, f, i + 1)
}

/// The text of node `i`'s first child under field `f`.
pub open spec fn field_text(t: Seq<NodeView>, i: int, f: Seq<char>) -> Option<Seq<char>> {
    match field_child(t, i, f) {
        Some(j) => t[j].text,
        None => None,
    }
}

pub proof fn lemma_scan_field(t: Seq<NodeView>, i: int, f: Seq<char>, j: int)
    ensures
        scan_field(t, i, f, j) matches Some(k) ==> j <= k < t.len() && i < k,
    decreases t.len() - j,
{
    if !(j <= i || j >= t.len() || t[j].depth <= t[i].depth) && !(t[j].depth == t[i].depth + 1 && t[j].field
        == Some(f)) {
        lemma_scan_field(t, i, f, j + 1);
    }
}

pub proof fn lemma_field_child(t: Seq<NodeView>, i: int, f: Seq<char>)
    ensures
        field_child(t, i, f) matches Some(k) ==> i < k < t.len(),
{
    lemma_scan_field(t, i, f, i + 1);
}

/// Node `i`'s first child under field `f`.
pub fn child_by_field(t: &Vec<SyntaxNode>, i: usize, f: &str) -> (r: Option<usize>)
    requires
        i < t.len(),
    ensures
        r matches Some(k) ==> Some(k as int) == field_child(nodes(t@), i as int, f@) && i < k < t.len(),
        r is None ==> field_child(nodes(t@), i as int, f@) is None,
{
    let ghost v = nodes(t@);
    let mut j: usize = i + 1;
    while j < t.len()
        invariant
            i < j <= t.len(),
            v == nodes(t@),
            scan_field(v, i as int, f@, i + 1) == scan_field(v, i as int, f@, j as int),
        decreases t.len() - j,
    {
        if t[j].depth <= t[i].depth {
            return None;
        }
        if t[j].depth == t[i].depth + 1 {
            if let Some(name) = &t[j].field {
                if str_eq(name.as_str(), f) {
                    return Some(j);
                }
            }
        }
        j += 1;
    }
    None
}

/// The text of node `i`'s first child under field `f`.
pub fn text_by_field(t: &Vec<SyntaxNode>, i: usize, f: &str) -> (r: Option<String>)
    requires
        i < t.len(),
    ensures
        opt_text(r) == field_text(nodes(t@), i as int, f@),
{
    match child_by_field(t, i, f) {
        Some(j) => t[j].text.clone(),
        None => None,
    }
}

/// The children of `i` from `j` on, those held under `f` when a field is
/// given.
pub open spec fn scan_children(t: Seq<NodeView>, i: int, f: Option<Seq<char>>, j: int) -> Seq<int>
    decreases t.len() - j,
{
    if j <= i || j >= t.len() || t[j].depth <= t[i].depth {
        Seq::empty()
    } else if t[j].depth == t[i].depth + 1 && (f is None || t[j].field == f) {
        seq![j] + scan_children(t, i, f, j + 1)
    } else {
        scan_children(t, i, f, j + 1)
    }
}

/// Node `i`'s children in order, restricted to field `f` when given
/// (tree-sitter's `children` and `children_by_field_name`).
pub open spec fn children(t: Seq<NodeView>, i: int, f: Option<Seq<char>>) -> Seq<int> {
    scan_children(t, i, f, i + 1)
}

pub proof fn lemma_scan_children(t: Seq<NodeView>, i: int, f: Option<Seq<char>>, j: int)
    ensures
        forall|k: int| 0 <= k < scan_children(t, i, f, j).len() ==> i < #[trigger] scan_children(t, i, f, j)[k] < t.len(),
    decreases t.len() - j,
{
    if !(j <= i || j >= t.len() || t[j].depth <= t[i].depth) {
        lemma_scan_children(t, i, f, j + 1);
        let rest = scan_children(t, i, f, j + 1);
        if t[j].depth == t[i].depth + 1 && (f is None || t[j].field == f) {
            assert forall|k: int| 0 <= k < scan_children(t, i, f, j).len() implies i < #[trigger] scan_children(t, i, f, j)[k] < t.len() by {
                if k > 0 {
                    assert(scan_children(t, i, f, j)[k] == rest[k - 1]);
                }
            }
        }
    }
}

/// Node `i`'s children in order, those under `f` when a field is given.
pub fn children_of(t: &Vec<SyntaxNode>, i: usize, f: Option<&str>) -> (r: Vec<usize>)
    requires
        i < t.len(),
    ensures
        r@.map_values(|k: usize| k as int) == children(nodes(t@), i as int, opt_str(f)),
        forall|k: int| 0 <= k < r.len() ==> i < #[trigger] r@[k] < t.len(),
{
    let ghost v = nodes(t@);
    let ghost ff = opt_str(f);
    let mut r: Vec<usize> = Vec::new();
    let mut j: usize = i + 1;
    while j < t.len() && t[j].depth > t[i].depth
        invariant
            i < j <= t.len(),
            v == nodes(t@),
            ff == opt_str(f),
            r@.map_values(|k: usize| k as int) + scan_children(v, i as int, ff, j as int) == children(v, i as int, ff),
            forall|k: int| 0 <= k < r.len() ==> i < #[trigger] r@[k] < j,
        decreases t.len() - j,
    {
        assert(v[j as int] == t@[j as int]@);
        assert(v[i as int] == t@[i as int]@);
        if t[j].depth == t[i].depth + 1 {
            let wanted = match f {
                None => true,
                Some(name) => match &t[j].field {
                    Some(g) => {
                        assert(v[j as int].field == Some(g@));
                        assert(f == Some(name));
                        assert(ff == Some(name@));
                        let same_name = str_eq(g.as_str(), name);
                        assert(same_name == (v[j as int].field == ff));
                        same_name
                    },
                    None => {
                        assert(v[j as int].field is None);
                        false
                    },
                },
            };
            assert(wanted == (ff is None || v[j as int].field == ff));
            if wanted {
                let ghost before = r@.map_values(|k: usize| k as int);
                r.push(j);
                assert(r@.map_values(|k: usize| k as int) =~= before.push(j as int));
                assert(seq![j as int] + scan_children(v, i as int, ff, j + 1) == scan_children(v, i as int, ff, j as int));
                assert(before + scan_children(v, i as int, ff, j as int) =~= before.push(j as int) + scan_children(v, i as int, ff, j + 1));
            }
        }
        j += 1;
    }
    if j < t.len() {
        assert(v[j as int] == t@[j as int]@);
        assert(v[i as int] == t@[i as int]@);
    }
    assert(scan_children(v, i as int, ff, j as int) == Seq::<int>::empty());
    assert(r@.map_values(|k: usize| k as int) =~= children(v, i as int, ff));
    r
}

pub open spec fn opt_str(f: Option<&str>) -> Option<Seq<char>> {
    match f {
        Some(s) => Some(s@),
        None => None,
    }
}

/// A row as a one-based line number, saturating at the largest `u32`.
pub open spec fn line_no(row: int) -> int {
    if row + 1 <= u32::MAX {
        row + 1
    } else {
        u32::MAX as int
    }
}

pub fn line_of(row: usize) -> (r: u32)
    ensures
        r as int == line_no(row as int),
{
    if row < u32::MAX as usize {
        (row + 1) as u32
    } else {
        u32::MAX
    }
}

/// The facts a walk yields, as values of the model.
pub open spec fn symbol_fact(s: Symbol) -> (SymbolKind, Seq<char>, int, int, bool) {
    (s.kind, s.name@, s.start_line as int, s.end_line as int, s.exported)
}

pub open spec fn name_pair(n: ImportedName) -> (Seq<char>, Seq<char>) {
    (n.local@, n.imported@)
}

pub open spec fn import_fact(m: Import) -> (Seq<char>, Seq<(Seq<char>, Seq<char>)>, Seq<Seq<char>>) {
    (m.specifier@, m.names@.map_values(|n: ImportedName| name_pair(n)), strings(m.namespaces@))
}

pub open spec fn call_fact(c: Call) -> (Seq<char>, Seq<char>, Seq<Seq<char>>) {
    (c.caller@, c.callee@, strings(c.receiver@))
}

pub open spec fn reexport_fact(r: Reexport) -> (Seq<char>, Seq<char>, Option<Seq<char>>) {
    (r.exported@, r.local@, opt_text(r.specifier))
}

/// A symbol's name qualified by its scope: functions inside a scope are
/// `Scope.name`; everything else keeps its bare name.
pub open spec fn qualified(kind: SymbolKind, scope: Option<Seq<char>>, name: Seq<char>) -> Seq<char> {
    match scope {
        Some(s) if kind == SymbolKind::Function => s + "."@ + name,
        _ => name,
    }
}

pub fn qualify(kind: SymbolKind, scope: &Option<String>, name: &str) -> (r: String)
    ensures
        r@ == qualified(kind, opt_text(*scope), name@),
{
    match scope {
        Some(s) => {
            if kind == SymbolKind::Function {
                let mut v = crate::text::chars_of(s.as_str());
                v.push('.');
                crate::text::append_str(&mut v, name);
                proof {
                    reveal_strlit(".");
                }
                crate::text::string_of(&v)
            } else {
                String::from_str(name)
            }
        },
        None => String::from_str(name),
    }
}

/// A list of optional values with the absent ones left out.
pub open spec fn present<A>(v: Seq<Option<A>>) -> Seq<A>
    decreases v.len(),
{
    if v.len() == 0 {
        Seq::empty()
    } else {
        match v.last() {
            Some(a) => present(v.drop_last()).push(a),
            None => present(v.drop_last()),
        }
    }
}

pub proof fn lemma_present_push<A>(v: Seq<Option<A>>, o: Option<A>)
    ensures
        present(v.push(o)) == match o {
            Some(a) => present(v).push(a),
            None => present(v),
        },
{
    assert(v.push(o).drop_last() =~= v);
}

} // verus!

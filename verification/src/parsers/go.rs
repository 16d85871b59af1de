//! Go facts, read off the syntax tree.
//!
//! - Functions, methods (qualified by their receiver's bare type) and named
//!   struct types; a capitalized top-level name is exported.
//! - An import binds a namespace: the alias the statement writes, else the
//!   package's last path segment; `_` binds nothing, and `.` binds every
//!   exported name unqualified — so a dot import is offered every callee the
//!   file does not define, for cross-file resolution to keep the ones the
//!   package really exports.
//! - A call `util.Format(…)` has the single identifier `util` as its
//!   receiver, unless the enclosing function declares a name `util` itself
//!   (a parameter, a `:=`, a `var`, …, anywhere inside it): then the call is
//!   on a value and is not recorded.

use vstd::prelude::*;

use crate::highlight::Grammar;
use crate::parsers::c_cpp::{bindings_of, copy_strings, defines, symbol_names, trimmed_of};
use crate::parsers::syntax::{
    call_fact, child_by_field, children, children_of, copy_text, ctx_at, field_child, field_text, import_fact,
    is_shaped, kind_is, lemma_ctx_step, line_no, line_of, name_pair, nodes, opt_text, parent_on, shaped, spine,
    step_spine, str_eq, symbol_fact, syntax, syntax_of, text_by_field, NodeView, SyntaxNode,
};
use crate::parsers::ts_js::{lemma_past, past, past_at};
use crate::parsers::{Analysis, Call, Import, ImportedName, Symbol, SymbolKind};
use crate::parsers::{importer_dir, lines, lines_of, walk_path, walked};
use crate::text::{
    char_views, chars_of, ends, ends_with, first_of, insert_sorted, is_listed, is_white, joined, last_of,
    last_position, lemma_listed_strings, lex_less, lex_lt, listed, position, split_chars, split_on, starts,
    starts_with, string_of, strings, trimmed, white,
};

verus! {

/// Whether `c` is an uppercase letter (Unicode's `Uppercase` property), as
/// `char::is_uppercase` answers.
pub uninterp spec fn uppercase(c: char) -> bool;

/// `char::is_uppercase` (std): named [`uppercase`], a function of the
/// character alone.
#[verifier::external_body]
fn is_uppercase(c: char) -> (r: bool)
    ensures
        r == uppercase(c),
{
    c.is_uppercase()
}

/// Whether a node of kind `k` lists the names it declares under its
/// `name` field.
pub open spec fn declares_names(k: Seq<char>) -> bool {
    k == "parameter_declaration"@ || k == "variadic_parameter_declaration"@ || k == "var_spec"@ || k == "const_spec"@
}

/// The expression list whose identifiers node `j` declares: the left of
/// `:=`, `range` or a channel receive, or a type switch's alias.
pub open spec fn binder_side(t: Seq<NodeView>, j: int) -> Option<int> {
    let k = t[j].kind;
    if k == "short_var_declaration"@ || k == "range_clause"@ || k == "receive_statement"@ {
        field_child(t, j, "left"@)
    } else if k == "type_switch_statement"@ {
        field_child(t, j, "alias"@)
    } else {
        None
    }
}

pub open spec fn names_declared(t: Seq<NodeView>, j: int, x: Seq<char>) -> bool {
    exists|q: int|
        0 <= q < children(t, j, Some("name"@)).len() && t[#[trigger] children(t, j, Some("name"@))[q]].text == Some(x)
}

pub open spec fn side_declares(t: Seq<NodeView>, l: int, x: Seq<char>) -> bool {
    exists|q: int| 0 <= q < children(t, l, None).len() && identifier_named(t, #[trigger] children(t, l, None)[q], x)
}

/// Whether node `j` declares `x`.
pub open spec fn binds(t: Seq<NodeView>, j: int, x: Seq<char>) -> bool {
    if declares_names(t[j].kind) {
        names_declared(t, j, x)
    } else {
        match binder_side(t, j) {
            Some(l) => side_declares(t, l, x),
            None => false,
        }
    }
}

pub open spec fn identifier_named(t: Seq<NodeView>, k: int, x: Seq<char>) -> bool {
    t[k].named && t[k].kind == "identifier"@ && t[k].text == Some(x)
}

/// Every name declared anywhere inside node `i` (itself included).
pub open spec fn bound_in(t: Seq<NodeView>, i: int) -> Set<Seq<char>> {
    Set::new(|x: Seq<char>| exists|j: int| i <= j < past(t, i, i + 1) && #[trigger] binds(t, j, x))
}

/// A node's context: the enclosing function's stored name, the names that
/// shadow a package qualifier there, and whether the walk reaches it.
pub struct GoCtx {
    pub caller: Option<Seq<char>>,
    pub shadowed: Set<Seq<char>>,
    pub live: bool,
}

pub open spec fn go_root() -> GoCtx {
    GoCtx { caller: None, shadowed: Set::empty(), live: true }
}

pub open spec fn strip_ptr(s: Seq<char>) -> Seq<char>
    decreases s.len(),
{
    if s.len() > 0 && (s[0] == '*' || s[0] == '&') {
        strip_ptr(s.drop_first())
    } else {
        s
    }
}

/// A receiver type's bare name: `*Formatter` is `Formatter`, `Box[T]` is
/// `Box`.
pub open spec fn bare_type(s: Seq<char>) -> Seq<char> {
    let b = strip_ptr(s);
    trimmed(
        if first_of(b, '[') >= 0 {
            b.take(first_of(b, '['))
        } else {
            b
        },
    )
}

/// The first named parameter declaration among `r`'s children, from `k` on.
pub open spec fn declaration_from(t: Seq<NodeView>, r: int, k: int) -> Option<int>
    decreases t.len() - k,
{
    if k <= r || k >= t.len() || t[k].depth <= t[r].depth {
        None
    } else if t[k].depth == t[r].depth + 1 && t[k].named && t[k].kind == "parameter_declaration"@ {
        Some(k)
    } else {
        declaration_from(t, r, k + 1)
    }
}

/// The bare type of method `i`'s receiver.
pub open spec fn receiver_type(t: Seq<NodeView>, i: int) -> Option<Seq<char>> {
    match field_child(t, i, "receiver"@) {
        Some(r) => match declaration_from(t, r, r + 1) {
            Some(d) => match field_text(t, d, "type"@) {
                Some(x) => Some(bare_type(x)),
                None => None,
            },
            None => None,
        },
        None => None,
    }
}

/// The symbol node `i` declares: its kind, bare name and method scope.
pub open spec fn declared(t: Seq<NodeView>, i: int) -> Option<(SymbolKind, Seq<char>, Option<Seq<char>>)> {
    let k = t[i].kind;
    let name = field_text(t, i, "name"@);
    if name is None {
        None
    } else if k == "function_declaration"@ {
        Some((SymbolKind::Function, name->0, None))
    } else if k == "method_declaration"@ {
        Some((SymbolKind::Function, name->0, receiver_type(t, i)))
    } else if k == "type_spec"@ && (match field_child(t, i, "type"@) {
        Some(ty) => t[ty].kind == "struct_type"@,
        None => false,
    }) {
        Some((SymbolKind::Class, name->0, None))
    } else {
        None
    }
}

/// The symbol node `i` yields, if the walk reads it.
pub open spec fn go_symbol(t: Seq<NodeView>, i: int, c: GoCtx) -> Option<(SymbolKind, Seq<char>, int, int, bool)> {
    match declared(t, i) {
        Some((kind, name, scope)) if c.live => Some(
            (
                kind,
                match scope {
                    Some(r) => r + "."@ + name,
                    None => name,
                },
                line_no(t[i].start_row),
                line_no(t[i].end_row),
                scope is None && name.len() > 0 && uppercase(name[0]),
            ),
        ),
        _ => None,
    }
}

/// The context node `i`'s children see.
pub open spec fn go_below(t: Seq<NodeView>, i: int, c: GoCtx) -> GoCtx {
    let k = t[i].kind;
    GoCtx {
        caller: match go_symbol(t, i, c) {
            Some(s) if s.0 == SymbolKind::Function => Some(s.1),
            _ => c.caller,
        },
        shadowed: if k == "function_declaration"@ || k == "method_declaration"@ {
            c.shadowed.union(bound_in(t, i))
        } else {
            c.shadowed
        },
        live: c.live && k != "import_spec"@,
    }
}

pub open spec fn go_step(t: Seq<NodeView>) -> spec_fn(int, GoCtx) -> GoCtx {
    |k: int, c: GoCtx| go_below(t, k, c)
}

pub open spec fn go_ctx(t: Seq<NodeView>, i: int) -> GoCtx {
    ctx_at(t, i, go_root(), go_step(t))
}

pub open spec fn path_quote(c: char) -> bool {
    c == '"' || c == '`'
}

pub open spec fn unquote_front(s: Seq<char>) -> Seq<char>
    decreases s.len(),
{
    if s.len() > 0 && path_quote(s[0]) {
        unquote_front(s.drop_first())
    } else {
        s
    }
}

pub open spec fn unquote_back(s: Seq<char>) -> Seq<char>
    decreases s.len(),
{
    if s.len() > 0 && path_quote(s.last()) {
        unquote_back(s.drop_last())
    } else {
        s
    }
}

/// The qualifier a plain import binds: the last path segment, if any.
pub open spec fn qualifier(spec: Seq<char>) -> Seq<Seq<char>> {
    let last = if last_of(spec, '/') >= 0 {
        spec.skip(last_of(spec, '/') + 1)
    } else {
        spec
    };
    if last.len() > 0 {
        seq![last]
    } else {
        Seq::empty()
    }
}

/// The import node `i` yields — its path and the namespaces it binds —
/// and whether it is a dot import.
pub open spec fn go_import(t: Seq<NodeView>, i: int, c: GoCtx) -> Option<(Seq<char>, Seq<Seq<char>>, bool)> {
    if c.live && t[i].kind == "import_spec"@ && field_text(t, i, "path"@) is Some {
        let spec = unquote_back(unquote_front(field_text(t, i, "path"@)->0));
        let written = field_text(t, i, "name"@);
        Some(
            (
                spec,
                match written {
                    Some(w) => if w == "."@ || w == "_"@ {
                        Seq::empty()
                    } else {
                        seq![w]
                    },
                    None => qualifier(spec),
                },
                written == Some("."@),
            ),
        )
    } else {
        None
    }
}

/// The call node `i` yields: a bare callee, or a package-qualified one
/// whose qualifier the enclosing function does not shadow.
pub open spec fn go_call(t: Seq<NodeView>, i: int, c: GoCtx) -> Option<(Seq<char>, Seq<char>, Seq<Seq<char>>)> {
    if c.live && t[i].kind == "call_expression"@ {
        match (field_child(t, i, "function"@), c.caller) {
            (Some(f), Some(caller)) => if t[f].kind == "identifier"@ {
                match t[f].text {
                    Some(x) => Some((caller, x, Seq::empty())),
                    None => None,
                }
            } else if t[f].kind == "selector_expression"@ {
                match field_child(t, f, "operand"@) {
                    Some(o) => if t[o].kind == "identifier"@ && t[o].text is Some && !c.shadowed.contains(
                        t[o].text->0,
                    ) {
                        match field_text(t, f, "field"@) {
                            Some(x) => Some((caller, x, seq![t[o].text->0])),
                            None => None,
                        }
                    } else {
                        None
                    },
                    None => None,
                }
            } else {
                None
            },
            _ => None,
        }
    } else {
        None
    }
}

/// The facts of the first `n` nodes, in preorder.
pub open spec fn go_walk(t: Seq<NodeView>, n: int) -> (
    Seq<(SymbolKind, Seq<char>, int, int, bool)>,
    Seq<(Seq<char>, Seq<Seq<char>>, bool)>,
    Seq<(Seq<char>, Seq<char>, Seq<Seq<char>>)>,
)
    decreases n,
{
    if n <= 0 {
        (Seq::empty(), Seq::empty(), Seq::empty())
    } else {
        let (s, m, c) = go_walk(t, n - 1);
        let x = go_ctx(t, n - 1);
        (
            match go_symbol(t, n - 1, x) {
                Some(f) => s.push(f),
                None => s,
            },
            match go_import(t, n - 1, x) {
                Some(f) => m.push(f),
                None => m,
            },
            match go_call(t, n - 1, x) {
                Some(f) => c.push(f),
                None => c,
            },
        )
    }
}

pub open spec fn go_walked(t: Seq<NodeView>) -> (
    Seq<(SymbolKind, Seq<char>, int, int, bool)>,
    Seq<(Seq<char>, Seq<Seq<char>>, bool)>,
    Seq<(Seq<char>, Seq<char>, Seq<Seq<char>>)>,
) {
    if shaped(t) {
        go_walk(t, t.len() as int)
    } else {
        (Seq::empty(), Seq::empty(), Seq::empty())
    }
}

/// `list` is every unqualified callee of `calls` that `names` lacks, once
/// each, in increasing order.
pub open spec fn dot_offered(list: Seq<Seq<char>>, calls: Seq<(Seq<char>, Seq<char>, Seq<Seq<char>>)>, names: Seq<Seq<char>>) -> bool {
    &&& forall|a: int, b: int| 0 <= a < b < list.len() ==> lex_lt(list[a], list[b])
    &&& forall|x: Seq<char>|
        list.contains(x) <==> (!names.contains(x) && exists|k: int|
            0 <= k < calls.len() && (#[trigger] calls[k]).1 == x && calls[k].2.len() == 0)
}

/// What an analysis of a Go tree holds: the walk's symbols and calls, its
/// imports in order with their namespaces, a dot import offered every
/// unqualified callee the file does not define, and no re-exports.
pub open spec fn go_reads(t: Seq<NodeView>, a: Analysis) -> bool {
    let (s, m, c) = go_walked(t);
    let names = s.map_values(|y: (SymbolKind, Seq<char>, int, int, bool)| y.1);
    &&& a.symbols@.map_values(|x: Symbol| symbol_fact(x)) == s
    &&& a.calls@.map_values(|x: Call| call_fact(x)) == c
    &&& a.reexports@.len() == 0
    &&& a.imports@.map_values(|x: Import| (x.specifier@, strings(x.namespaces@))) == m.map_values(
        |y: (Seq<char>, Seq<Seq<char>>, bool)| (y.0, y.1),
    )
    &&& exists|list: Seq<Seq<char>>|
        dot_offered(list, c, names) && forall|k: int|
            0 <= k < a.imports.len() ==> (#[trigger] a.imports@[k]).names@.map_values(|n: ImportedName| name_pair(n))
                == if m[k].2 {
                list.map_values(|x: Seq<char>| (x, x))
            } else {
                Seq::empty()
            }
}

struct Scope {
    caller: Option<String>,
    shadowed: Vec<String>,
    live: bool,
}

impl Scope {
    spec fn view(&self) -> GoCtx {
        GoCtx {
            caller: opt_text(self.caller),
            shadowed: Set::new(|x: Seq<char>| listed(self.shadowed@, x)),
            live: self.live,
        }
    }

    fn copy(&self) -> (r: Scope)
        ensures
            r.view() == self.view(),
    {
        let shadowed = copy_strings(&self.shadowed);
        proof {
            assert forall|x: Seq<char>| listed(shadowed@, x) == listed(self.shadowed@, x) by {
                lemma_listed_strings(shadowed@, x);
                lemma_listed_strings(self.shadowed@, x);
            }
            assert(Set::new(|x: Seq<char>| listed(shadowed@, x)) =~= Set::new(|x: Seq<char>| listed(self.shadowed@, x)));
        }
        Scope { caller: copy_text(&self.caller), shadowed, live: self.live }
    }
}

/// Adds the names node `j` declares to `out`.
fn add_bindings(t: &Vec<SyntaxNode>, j: usize, out: &mut Vec<String>)
    requires
        j < t.len(),
    ensures
        forall|x: Seq<char>| #[trigger] listed(final(out)@, x) <==> (listed(old(out)@, x) || binds(nodes(t@), j as int, x)),
{
    let ghost v = nodes(t@);
    let ghost start = old(out)@;
    if kind_is(t, j, "parameter_declaration") || kind_is(t, j, "variadic_parameter_declaration") || kind_is(
        t,
        j,
        "var_spec",
    ) || kind_is(t, j, "const_spec") {
        let ks = children_of(t, j, Some("name"));
        let ghost ch = children(v, j as int, Some("name"@));
        assert(ks@.map_values(|k: usize| k as int) == ch);
        let mut q: usize = 0;
        while q < ks.len()
            invariant
                q <= ks.len(),
                v == nodes(t@),
                ch == ks@.map_values(|k: usize| k as int),
                forall|p: int| 0 <= p < ks.len() ==> #[trigger] ks@[p] < t.len(),
                forall|x: Seq<char>|
                    #[trigger] listed(out@, x) <==> (listed(start, x) || exists|p: int| 0 <= p < q && v[#[trigger] ch[p]].text == Some(x)),
            decreases ks.len() - q,
        {
            let k = ks[q];
            assert(ch[q as int] == k as int);
            assert(v[k as int] == t@[k as int]@);
            let ghost before = out@;
            if let Some(x) = &t[k].text {
                out.push(x.clone());
            }
            assert forall|x: Seq<char>|
                #[trigger] listed(out@, x) <==> (listed(start, x) || exists|p: int| 0 <= p < q + 1 && v[#[trigger] ch[p]].text == Some(x)) by {
                if listed(out@, x) && !listed(before, x) {
                    let w = choose|w: int| 0 <= w < out@.len() && #[trigger] out@[w]@ == x;
                    assert(w == before.len());
                    assert(v[ch[q as int]].text == Some(x));
                }
                if exists|p: int| 0 <= p < q + 1 && v[#[trigger] ch[p]].text == Some(x) {
                    let p = choose|p: int| 0 <= p < q + 1 && v[#[trigger] ch[p]].text == Some(x);
                    if p == q {
                        assert(out@[before.len() as int]@ == x);
                    } else {
                        assert(exists|p: int| 0 <= p < q && v[#[trigger] ch[p]].text == Some(x));
                    }
                }
                if listed(before, x) {
                    let w = choose|w: int| 0 <= w < before.len() && #[trigger] before[w]@ == x;
                    assert(out@[w]@ == x);
                }
            }
            q += 1;
        }
        return;
    }
    let side = if kind_is(t, j, "short_var_declaration") || kind_is(t, j, "range_clause") || kind_is(
        t,
        j,
        "receive_statement",
    ) {
        child_by_field(t, j, "left")
    } else if kind_is(t, j, "type_switch_statement") {
        child_by_field(t, j, "alias")
    } else {
        None
    };
    let l = match side {
        Some(l) => l,
        None => {
            assert forall|x: Seq<char>| #[trigger] listed(out@, x) <==> (listed(start, x) || binds(v, j as int, x)) by {}
            return;
        },
    };
    assert(!declares_names(v[j as int].kind));
    assert(binder_side(v, j as int) == Some(l as int));
    let ks = children_of(t, l, None);
    let ghost ch = children(v, l as int, None);
    assert(ks@.map_values(|k: usize| k as int) == ch);
    let mut q: usize = 0;
    while q < ks.len()
        invariant
            q <= ks.len(),
            v == nodes(t@),
            ch == ks@.map_values(|k: usize| k as int),
            forall|p: int| 0 <= p < ks.len() ==> #[trigger] ks@[p] < t.len(),
            forall|x: Seq<char>|
                #[trigger] listed(out@, x) <==> (listed(start, x) || exists|p: int| 0 <= p < q && identifier_named(v, #[trigger] ch[p], x)),
        decreases ks.len() - q,
    {
        let k = ks[q];
        assert(ch[q as int] == k as int);
        assert(v[k as int] == t@[k as int]@);
        let ghost before = out@;
        if t[k].named && kind_is(t, k, "identifier") {
            if let Some(x) = &t[k].text {
                out.push(x.clone());
            }
        }
        assert forall|x: Seq<char>|
            #[trigger] listed(out@, x) <==> (listed(start, x) || exists|p: int| 0 <= p < q + 1 && identifier_named(v, #[trigger] ch[p], x)) by {
            if listed(out@, x) && !listed(before, x) {
                let w = choose|w: int| 0 <= w < out@.len() && #[trigger] out@[w]@ == x;
                assert(w == before.len());
                assert(identifier_named(v, ch[q as int], x));
            }
            if exists|p: int| 0 <= p < q + 1 && identifier_named(v, #[trigger] ch[p], x) {
                let p = choose|p: int| 0 <= p < q + 1 && identifier_named(v, #[trigger] ch[p], x);
                if p == q {
                    assert(out@[before.len() as int]@ == x);
                } else {
                    assert(exists|p: int| 0 <= p < q && identifier_named(v, #[trigger] ch[p], x));
                }
            }
            if listed(before, x) {
                let w = choose|w: int| 0 <= w < before.len() && #[trigger] before[w]@ == x;
                assert(out@[w]@ == x);
            }
        }
        q += 1;
    }
    assert(!declares_names(v[j as int].kind));
    assert(binder_side(v, j as int) == Some(l as int));
    assert(ch == children(v, l as int, None));
    assert(q == ks.len());
    assert(ch.len() == ks.len());
    assert forall|x: Seq<char>| listed(out@, x) && !listed(start, x) implies binds(v, j as int, x) by {
        let p = choose|p: int| 0 <= p < q && identifier_named(v, #[trigger] ch[p], x);
        assert(0 <= p < children(v, l as int, None).len());
        assert(identifier_named(v, children(v, l as int, None)[p], x));
        assert(side_declares(v, l as int, x));
    }
    assert forall|x: Seq<char>| binds(v, j as int, x) implies listed(out@, x) by {
        let p = choose|p: int| 0 <= p < children(v, l as int, None).len() && identifier_named(v, #[trigger] children(v, l as int, None)[p], x);
        assert(identifier_named(v, ch[p], x));
    }
    assert forall|x: Seq<char>| listed(start, x) implies listed(out@, x) by {}
}

/// The names inherited, with every name declared inside node `i` added.
fn shadow_of(t: &Vec<SyntaxNode>, i: usize, inherited: &Vec<String>) -> (r: Vec<String>)
    requires
        i < t.len(),
    ensures
        forall|x: Seq<char>| #[trigger] listed(r@, x) <==> (listed(inherited@, x) || bound_in(nodes(t@), i as int).contains(x)),
{
    let ghost v = nodes(t@);
    let mut out = copy_strings(inherited);
    proof {
        assert forall|x: Seq<char>| listed(out@, x) == listed(inherited@, x) by {
            lemma_listed_strings(out@, x);
            lemma_listed_strings(inherited@, x);
        }
    }
    add_bindings(t, i, &mut out);
    let mut j = i + 1;
    while j < t.len() && t[j].depth > t[i].depth
        invariant
            i < j <= t.len(),
            v == nodes(t@),
            past(v, i as int, i + 1) == past(v, i as int, j as int),
            forall|x: Seq<char>|
                #[trigger] listed(out@, x) <==> (listed(inherited@, x) || exists|q: int| i <= q < j && #[trigger] binds(v, q, x)),
        decreases t.len() - j,
    {
        assert(v[j as int] == t@[j as int]@ && v[i as int] == t@[i as int]@);
        add_bindings(t, j, &mut out);
        assert forall|x: Seq<char>|
            #[trigger] listed(out@, x) <==> (listed(inherited@, x) || exists|q: int| i <= q < j + 1 && #[trigger] binds(v, q, x)) by {
            if exists|q: int| i <= q < j + 1 && #[trigger] binds(v, q, x) {
                let q = choose|q: int| i <= q < j + 1 && #[trigger] binds(v, q, x);
                if q < j {
                    assert(exists|q: int| i <= q < j && #[trigger] binds(v, q, x));
                }
            }
        }
        j += 1;
    }
    if j < t.len() {
        assert(v[j as int] == t@[j as int]@ && v[i as int] == t@[i as int]@);
    }
    assert(past(v, i as int, j as int) == j);
    out
}

fn strip_pointer(s: &Vec<char>) -> (r: Vec<char>)
    ensures
        r@ == strip_ptr(s@),
{
    let mut lo: usize = 0;
    assert(s@.skip(0) =~= s@);
    while lo < s.len() && (s[lo] == '*' || s[lo] == '&')
        invariant
            lo <= s.len(),
            strip_ptr(s@) == strip_ptr(s@.skip(lo as int)),
        decreases s.len() - lo,
    {
        assert(s@.skip(lo as int).drop_first() =~= s@.skip(lo + 1));
        lo += 1;
    }
    let r = crate::text::slice(s, lo, s.len());
    assert(r@ =~= s@.skip(lo as int));
    r
}

fn bare_type_of(x: &str) -> (r: String)
    ensures
        r@ == bare_type(x@),
{
    let b = strip_pointer(&chars_of(x));
    let head = match position(&b, '[') {
        Some(k) => {
            let h = crate::text::slice(&b, 0, k);
            assert(h@ =~= b@.take(k as int));
            h
        },
        None => b,
    };
    string_of(&trimmed_of(&head))
}

fn declaration_at(t: &Vec<SyntaxNode>, r: usize) -> (d: Option<usize>)
    requires
        r < t.len(),
    ensures
        d matches Some(k) ==> Some(k as int) == declaration_from(nodes(t@), r as int, r + 1) && k < t.len(),
        d is None ==> declaration_from(nodes(t@), r as int, r + 1) is None,
{
    let ghost v = nodes(t@);
    let mut k = r + 1;
    while k < t.len() && t[k].depth > t[r].depth
        invariant
            r < k <= t.len(),
            v == nodes(t@),
            declaration_from(v, r as int, r + 1) == declaration_from(v, r as int, k as int),
        decreases t.len() - k,
    {
        assert(v[k as int] == t@[k as int]@ && v[r as int] == t@[r as int]@);
        if t[k].depth == t[r].depth + 1 && t[k].named && kind_is(t, k, "parameter_declaration") {
            return Some(k);
        }
        k += 1;
    }
    if k < t.len() {
        assert(v[k as int] == t@[k as int]@ && v[r as int] == t@[r as int]@);
    }
    None
}

fn receiver_type_at(t: &Vec<SyntaxNode>, i: usize) -> (r: Option<String>)
    requires
        i < t.len(),
    ensures
        opt_text(r) == receiver_type(nodes(t@), i as int),
{
    match child_by_field(t, i, "receiver") {
        Some(r) => match declaration_at(t, r) {
            Some(d) => match text_by_field(t, d, "type") {
                Some(x) => Some(bare_type_of(x.as_str())),
                None => None,
            },
            None => None,
        },
        None => None,
    }
}

fn declared_at(t: &Vec<SyntaxNode>, i: usize) -> (r: Option<(SymbolKind, String, Option<String>)>)
    requires
        i < t.len(),
    ensures
        match r {
            Some((k, n, s)) => declared(nodes(t@), i as int) == Some((k, n@, opt_text(s))),
            None => declared(nodes(t@), i as int) is None,
        },
{
    let ghost v = nodes(t@);
    let func = kind_is(t, i, "function_declaration");
    let method = kind_is(t, i, "method_declaration");
    let type_spec = kind_is(t, i, "type_spec");
    if !func && !method && !type_spec {
        return None;
    }
    let name = match text_by_field(t, i, "name") {
        Some(n) => n,
        None => return None,
    };
    if func {
        Some((SymbolKind::Function, name, None))
    } else if method {
        Some((SymbolKind::Function, name, receiver_type_at(t, i)))
    } else {
        match child_by_field(t, i, "type") {
            Some(ty) => {
                assert(v[ty as int] == t@[ty as int]@);
                if kind_is(t, ty, "struct_type") {
                    Some((SymbolKind::Class, name, None))
                } else {
                    None
                }
            },
            None => None,
        }
    }
}

fn symbol_at(t: &Vec<SyntaxNode>, i: usize, c: &Scope) -> (r: Option<Symbol>)
    requires
        i < t.len(),
    ensures
        match r {
            Some(s) => go_symbol(nodes(t@), i as int, c.view()) == Some(symbol_fact(s)),
            None => go_symbol(nodes(t@), i as int, c.view()) is None,
        },
{
    let ghost v = nodes(t@);
    if !c.live {
        return None;
    }
    match declared_at(t, i) {
        Some((kind, name, scope)) => {
            let cs = chars_of(name.as_str());
            let capital = cs.len() > 0 && is_uppercase(cs[0]);
            let stored = match &scope {
                Some(r) => {
                    let mut w = chars_of(r.as_str());
                    w.push('.');
                    crate::text::append(&mut w, &cs);
                    proof {
                        reveal_strlit(".");
                    }
                    assert(w@ =~= r@ + "."@ + name@);
                    string_of(&w)
                },
                None => name.clone(),
            };
            assert(v[i as int] == t@[i as int]@);
            Some(
                Symbol {
                    kind,
                    name: stored,
                    start_line: line_of(t[i].start_row),
                    end_line: line_of(t[i].end_row),
                    exported: scope.is_none() && capital,
                },
            )
        },
        None => None,
    }
}

fn below_of(t: &Vec<SyntaxNode>, i: usize, c: &Scope, symbol: &Option<Symbol>) -> (r: Scope)
    requires
        i < t.len(),
        match symbol {
            Some(s) => go_symbol(nodes(t@), i as int, c.view()) == Some(symbol_fact(*s)),
            None => go_symbol(nodes(t@), i as int, c.view()) is None,
        },
    ensures
        r.view() == go_below(nodes(t@), i as int, c.view()),
{
    let ghost v = nodes(t@);
    let caller = match symbol {
        Some(s) if s.kind == SymbolKind::Function => Some(s.name.clone()),
        _ => copy_text(&c.caller),
    };
    let live = c.live && !kind_is(t, i, "import_spec");
    if kind_is(t, i, "function_declaration") || kind_is(t, i, "method_declaration") {
        let shadowed = shadow_of(t, i, &c.shadowed);
        let r = Scope { caller, shadowed, live };
        assert(r.view().shadowed =~= c.view().shadowed.union(bound_in(v, i as int)));
        r
    } else {
        let r = Scope { caller, shadowed: copy_strings(&c.shadowed), live };
        proof {
            assert forall|x: Seq<char>| listed(r.shadowed@, x) == listed(c.shadowed@, x) by {
                lemma_listed_strings(r.shadowed@, x);
                lemma_listed_strings(c.shadowed@, x);
            }
        }
        assert(r.view().shadowed =~= c.view().shadowed);
        r
    }
}

fn unquote_path(x: &str) -> (r: String)
    ensures
        r@ == unquote_back(unquote_front(x@)),
{
    let v = chars_of(x);
    let mut lo: usize = 0;
    assert(v@.skip(0) =~= v@);
    while lo < v.len() && (v[lo] == '"' || v[lo] == '`')
        invariant
            lo <= v.len(),
            unquote_front(v@) == unquote_front(v@.skip(lo as int)),
        decreases v.len() - lo,
    {
        assert(v@.skip(lo as int).drop_first() =~= v@.skip(lo + 1));
        lo += 1;
    }
    let ghost front = v@.skip(lo as int);
    let mut hi: usize = v.len();
    while hi > lo && (v[hi - 1] == '"' || v[hi - 1] == '`')
        invariant
            lo <= hi <= v.len(),
            unquote_back(front) == unquote_back(v@.subrange(lo as int, hi as int)),
            front == v@.skip(lo as int),
        decreases hi,
    {
        assert(v@.subrange(lo as int, hi as int).drop_last() =~= v@.subrange(lo as int, hi - 1));
        hi -= 1;
    }
    assert(v@.skip(lo as int) =~= v@.subrange(lo as int, v.len() as int));
    string_of(&crate::text::slice(&v, lo, hi))
}

fn qualifier_of(spec: &str) -> (r: Vec<String>)
    ensures
        strings(r@) == qualifier(spec@),
{
    let v = chars_of(spec);
    let last = match last_position(&v, '/') {
        Some(k) => {
            let l = crate::text::slice(&v, k + 1, v.len());
            assert(l@ =~= v@.skip(k + 1));
            l
        },
        None => v,
    };
    let mut r: Vec<String> = Vec::new();
    if last.len() > 0 {
        r.push(string_of(&last));
        assert(strings(r@) =~= seq![last@]);
    } else {
        assert(strings(r@) =~= Seq::<Seq<char>>::empty());
    }
    r
}

fn import_at(t: &Vec<SyntaxNode>, i: usize, c: &Scope) -> (r: Option<(Import, bool)>)
    requires
        i < t.len(),
    ensures
        match r {
            Some((m, dot)) => go_import(nodes(t@), i as int, c.view()) == Some((m.specifier@, strings(m.namespaces@), dot))
                && m.names@.len() == 0,
            None => go_import(nodes(t@), i as int, c.view()) is None,
        },
{
    if !c.live || !kind_is(t, i, "import_spec") {
        return None;
    }
    let path = match text_by_field(t, i, "path") {
        Some(p) => p,
        None => return None,
    };
    let spec = unquote_path(path.as_str());
    let written = text_by_field(t, i, "name");
    let (namespaces, dot) = match &written {
        Some(w) => {
            let dot = str_eq(w.as_str(), ".");
            if dot || str_eq(w.as_str(), "_") {
                let r: Vec<String> = Vec::new();
                assert(strings(r@) =~= Seq::<Seq<char>>::empty());
                (r, dot)
            } else {
                let r = vec![w.clone()];
                assert(strings(r@) =~= seq![w@]);
                (r, false)
            }
        },
        None => (qualifier_of(spec.as_str()), false),
    };
    Some((Import { specifier: spec, names: Vec::new(), namespaces }, dot))
}

fn call_at(t: &Vec<SyntaxNode>, i: usize, c: &Scope) -> (r: Option<Call>)
    requires
        i < t.len(),
    ensures
        match r {
            Some(x) => go_call(nodes(t@), i as int, c.view()) == Some(call_fact(x)),
            None => go_call(nodes(t@), i as int, c.view()) is None,
        },
{
    let ghost v = nodes(t@);
    if !c.live || !kind_is(t, i, "call_expression") {
        return None;
    }
    let f = match child_by_field(t, i, "function") {
        Some(f) => f,
        None => return None,
    };
    let caller = match &c.caller {
        Some(x) => x.clone(),
        None => return None,
    };
    assert(v[f as int] == t@[f as int]@);
    if kind_is(t, f, "identifier") {
        match &t[f].text {
            Some(x) => {
                let r = Call { caller, callee: x.clone(), receiver: Vec::new() };
                assert(strings(r.receiver@) =~= Seq::<Seq<char>>::empty());
                Some(r)
            },
            None => None,
        }
    } else if kind_is(t, f, "selector_expression") {
        let o = match child_by_field(t, f, "operand") {
            Some(o) => o,
            None => return None,
        };
        assert(v[o as int] == t@[o as int]@);
        if !kind_is(t, o, "identifier") {
            return None;
        }
        let operand = match &t[o].text {
            Some(x) => x.clone(),
            None => return None,
        };
        let shadowed = is_listed(&c.shadowed, &chars_of(operand.as_str()));
        if shadowed {
            return None;
        }
        match text_by_field(t, f, "field") {
            Some(x) => {
                let r = Call { caller, callee: x, receiver: vec![operand] };
                assert(strings(r.receiver@) =~= seq![r.receiver@[0]@]);
                Some(r)
            },
            None => None,
        }
    } else {
        None
    }
}

/// The walk: symbols, imports with their dot flags, calls.
fn walk(t: &Vec<SyntaxNode>, a: &mut Analysis, dots: &mut Vec<bool>)
    requires
        shaped(nodes(t@)),
        old(a).symbols@.len() == 0,
        old(a).imports@.len() == 0,
        old(a).calls@.len() == 0,
        old(a).reexports@.len() == 0,
        old(dots)@.len() == 0,
    ensures
        ({
            let (s, m, c) = go_walk(nodes(t@), t@.len() as int);
            &&& final(a).symbols@.map_values(|x: Symbol| symbol_fact(x)) == s
            &&& final(a).imports@.map_values(|x: Import| (x.specifier@, strings(x.namespaces@))) == m.map_values(
                |y: (Seq<char>, Seq<Seq<char>>, bool)| (y.0, y.1),
            )
            &&& final(dots)@ == m.map_values(|y: (Seq<char>, Seq<Seq<char>>, bool)| y.2)
            &&& final(a).calls@.map_values(|x: Call| call_fact(x)) == c
            &&& final(a).reexports@.len() == 0
        }),
{
    let ghost v = nodes(t@);
    let mut path: Vec<usize> = Vec::new();
    let mut below: Vec<Scope> = Vec::new();
    let mut i: usize = 0;
    assert(a.symbols@.map_values(|x: Symbol| symbol_fact(x)) =~= go_walk(v, 0).0);
    assert(a.imports@.map_values(|x: Import| (x.specifier@, strings(x.namespaces@))) =~= go_walk(v, 0).1.map_values(
        |y: (Seq<char>, Seq<Seq<char>>, bool)| (y.0, y.1),
    ));
    assert(dots@ =~= go_walk(v, 0).1.map_values(|y: (Seq<char>, Seq<Seq<char>>, bool)| y.2));
    assert(a.calls@.map_values(|x: Call| call_fact(x)) =~= go_walk(v, 0).2);
    while i < t.len()
        invariant
            i <= t.len(),
            v == nodes(t@),
            shaped(v),
            spine(v, i as int, path@),
            below.len() == i,
            forall|k: int| 0 <= k < i ==> (#[trigger] below@[k]).view() == go_below(v, k, go_ctx(v, k)),
            ({
                let (s, m, c) = go_walk(v, i as int);
                &&& a.symbols@.map_values(|x: Symbol| symbol_fact(x)) == s
                &&& a.imports@.map_values(|x: Import| (x.specifier@, strings(x.namespaces@))) == m.map_values(
                    |y: (Seq<char>, Seq<Seq<char>>, bool)| (y.0, y.1),
                )
                &&& dots@ == m.map_values(|y: (Seq<char>, Seq<Seq<char>>, bool)| y.2)
                &&& a.calls@.map_values(|x: Call| call_fact(x)) == c
            }),
            a.reexports@.len() == 0,
        decreases t.len() - i,
    {
        let ctx = match parent_on(t, i, &path) {
            Some(p) => below[p].copy(),
            None => Scope { caller: None, shadowed: Vec::new(), live: true },
        };
        proof {
            lemma_ctx_step(v, i as int, go_root(), go_step(v));
        }
        assert(ctx.view() == go_ctx(v, i as int)) by {
            if i == 0 || !(0 <= crate::parsers::syntax::parent(v, i as int) < i) {
                assert(ctx.view().shadowed =~= Set::<Seq<char>>::empty());
            }
        }
        let ghost s0 = a.symbols@.map_values(|x: Symbol| symbol_fact(x));
        let ghost m0 = a.imports@.map_values(|x: Import| (x.specifier@, strings(x.namespaces@)));
        let ghost d0 = dots@;
        let ghost c0 = a.calls@.map_values(|x: Call| call_fact(x));
        let symbol = symbol_at(t, i, &ctx);
        let next = below_of(t, i, &ctx, &symbol);
        if let Some(s) = symbol {
            a.symbols.push(s);
            assert(a.symbols@.map_values(|x: Symbol| symbol_fact(x)) =~= s0.push(symbol_fact(s)));
        }
        if let Some((m, dot)) = import_at(t, i, &ctx) {
            let ghost mv = (m.specifier@, strings(m.namespaces@));
            a.imports.push(m);
            dots.push(dot);
            assert(a.imports@.map_values(|x: Import| (x.specifier@, strings(x.namespaces@))) =~= m0.push(mv));
            assert(dots@ =~= d0.push(dot));
        }
        if let Some(x) = call_at(t, i, &ctx) {
            a.calls.push(x);
            assert(a.calls@.map_values(|x: Call| call_fact(x)) =~= c0.push(call_fact(x)));
        }
        proof {
            let (s, m, c) = go_walk(v, i + 1);
            assert(a.symbols@.map_values(|x: Symbol| symbol_fact(x)) =~= s);
            assert(a.imports@.map_values(|x: Import| (x.specifier@, strings(x.namespaces@))) =~= m.map_values(
                |y: (Seq<char>, Seq<Seq<char>>, bool)| (y.0, y.1),
            ));
            assert(dots@ =~= m.map_values(|y: (Seq<char>, Seq<Seq<char>>, bool)| y.2));
            assert(a.calls@.map_values(|x: Call| call_fact(x)) =~= c);
        }
        below.push(next);
        step_spine(t, i, &mut path);
        i += 1;
    }
}

/// Every unqualified callee the file does not define, once each, in
/// increasing order.
fn dot_offers(calls: &Vec<Call>, names: &Vec<String>) -> (r: Vec<String>)
    ensures
        dot_offered(strings(r@), calls@.map_values(|x: Call| call_fact(x)), strings(names@)),
{
    let ghost cs = calls@.map_values(|x: Call| call_fact(x));
    let mut r: Vec<String> = Vec::new();
    let mut k: usize = 0;
    while k < calls.len()
        invariant
            k <= calls.len(),
            cs == calls@.map_values(|x: Call| call_fact(x)),
            forall|a: int, b: int| 0 <= a < b < r.len() ==> lex_lt(r@[a]@, r@[b]@),
            forall|x: Seq<char>|
                #[trigger] listed(r@, x) <==> (!strings(names@).contains(x) && exists|q: int|
                    0 <= q < k && (#[trigger] cs[q]).1 == x && cs[q].2.len() == 0),
        decreases calls.len() - k,
    {
        let callee = chars_of(calls[k].callee.as_str());
        assert(cs[k as int].1 == callee@);
        assert(cs[k as int].2.len() == calls@[k as int].receiver@.len());
        if calls[k].receiver.len() == 0 && !defines(names, &callee) {
            insert_sorted(&mut r, calls[k].callee.clone());
        }
        assert forall|x: Seq<char>|
            #[trigger] listed(r@, x) <==> (!strings(names@).contains(x) && exists|q: int|
                0 <= q < k + 1 && (#[trigger] cs[q]).1 == x && cs[q].2.len() == 0) by {
            if !strings(names@).contains(x) && exists|q: int| 0 <= q < k + 1 && (#[trigger] cs[q]).1 == x && cs[q].2.len() == 0 {
                let q = choose|q: int| 0 <= q < k + 1 && (#[trigger] cs[q]).1 == x && cs[q].2.len() == 0;
                if q < k {
                    assert(exists|q: int| 0 <= q < k && (#[trigger] cs[q]).1 == x && cs[q].2.len() == 0);
                }
            }
        }
        k += 1;
    }
    assert forall|x: Seq<char>|
        strings(r@).contains(x) <==> (!strings(names@).contains(x) && exists|q: int|
            0 <= q < cs.len() && (#[trigger] cs[q]).1 == x && cs[q].2.len() == 0) by {
        lemma_listed_strings(r@, x);
    }
    assert forall|a: int, b: int| 0 <= a < b < strings(r@).len() implies lex_lt(strings(r@)[a], strings(r@)[b]) by {
        assert(lex_lt(r@[a]@, r@[b]@));
    }
    r
}

/// The imports again, a dot import offered `list`, the others nothing.
fn with_dot_names(imports: &Vec<Import>, dots: &Vec<bool>, list: &Vec<String>) -> (r: Vec<Import>)
    requires
        dots.len() == imports.len(),
    ensures
        r@.map_values(|x: Import| (x.specifier@, strings(x.namespaces@))) == imports@.map_values(
            |x: Import| (x.specifier@, strings(x.namespaces@)),
        ),
        r.len() == imports.len(),
        forall|k: int|
            0 <= k < r.len() ==> (#[trigger] r@[k]).names@.map_values(|n: ImportedName| name_pair(n)) == if dots@[k] {
                strings(list@).map_values(|x: Seq<char>| (x, x))
            } else {
                Seq::empty()
            },
{
    let mut r: Vec<Import> = Vec::new();
    let mut k: usize = 0;
    while k < imports.len()
        invariant
            k <= imports.len(),
            dots.len() == imports.len(),
            r.len() == k,
            r@.map_values(|x: Import| (x.specifier@, strings(x.namespaces@))) == imports@.take(k as int).map_values(
                |x: Import| (x.specifier@, strings(x.namespaces@)),
            ),
            forall|q: int|
                0 <= q < r.len() ==> (#[trigger] r@[q]).names@.map_values(|n: ImportedName| name_pair(n)) == if dots@[q] {
                    strings(list@).map_values(|x: Seq<char>| (x, x))
                } else {
                    Seq::empty()
                },
        decreases imports.len() - k,
    {
        let ghost before = r@.map_values(|x: Import| (x.specifier@, strings(x.namespaces@)));
        let names = if dots[k] {
            bindings_of(list)
        } else {
            let e: Vec<ImportedName> = Vec::new();
            assert(e@.map_values(|n: ImportedName| name_pair(n)) =~= Seq::<(Seq<char>, Seq<char>)>::empty());
            e
        };
        let x = Import { specifier: imports[k].specifier.clone(), names, namespaces: copy_strings(&imports[k].namespaces) };
        r.push(x);
        assert(r@.map_values(|x: Import| (x.specifier@, strings(x.namespaces@))) =~= before.push(
            (imports@[k as int].specifier@, strings(imports@[k as int].namespaces@)),
        ));
        assert(imports@.take(k + 1).map_values(|x: Import| (x.specifier@, strings(x.namespaces@))) =~= imports@.take(
            k as int,
        ).map_values(|x: Import| (x.specifier@, strings(x.namespaces@))).push(
            (imports@[k as int].specifier@, strings(imports@[k as int].namespaces@)),
        ));
        k += 1;
    }
    assert(imports@.take(imports.len() as int) =~= imports@);
    r
}

/// The facts a Go tree yields. A list that is not one tree in preorder
/// yields nothing.
pub fn go_analysis(t: &Vec<SyntaxNode>) -> (a: Analysis)
    ensures
        go_reads(nodes(t@), a),
{
    let ghost v = nodes(t@);
    let mut a = Analysis::empty();
    if !is_shaped(t) {
        assert(a.symbols@.map_values(|x: Symbol| symbol_fact(x)) =~= Seq::empty());
        assert(a.calls@.map_values(|x: Call| call_fact(x)) =~= Seq::empty());
        assert(a.imports@.map_values(|x: Import| (x.specifier@, strings(x.namespaces@))) =~= Seq::empty());
        assert(go_walked(v).1.map_values(|y: (Seq<char>, Seq<Seq<char>>, bool)| (y.0, y.1)) =~= Seq::empty());
        assert(dot_offered(Seq::<Seq<char>>::empty(), go_walked(v).2, go_walked(v).0.map_values(
            |y: (SymbolKind, Seq<char>, int, int, bool)| y.1,
        )));
        return a;
    }
    let mut dots: Vec<bool> = Vec::new();
    walk(t, &mut a, &mut dots);
    let ghost m = go_walk(v, v.len() as int).1;
    assert(dots@.len() == m.len());
    assert(a.imports@.map_values(|x: Import| (x.specifier@, strings(x.namespaces@))).len() == m.len());
    let names = symbol_names(&a);
    let list = dot_offers(&a.calls, &names);
    let imports = with_dot_names(&a.imports, &dots, &list);
    a.imports = imports;
    assert forall|k: int| 0 <= k < a.imports.len() implies dots@[k] == m[k].2 by {
        assert(dots@[k] == m.map_values(|y: (Seq<char>, Seq<Seq<char>>, bool)| y.2)[k]);
    }
    assert(dot_offered(strings(list@), go_walked(v).2, go_walked(v).0.map_values(|y: (SymbolKind, Seq<char>, int, int, bool)| y.1)));
    a
}

/// Extracts Go symbols, imports and calls from source, tolerating syntax
/// errors.
pub fn parse_go(source: &str) -> (a: Analysis)
    ensures
        go_reads(syntax_of(Grammar::Go, source@), a),
{
    let t = syntax(Grammar::Go, source);
    go_analysis(&t)
}

/// The module path a `go.mod` line declares: `module example.com/demo`.
pub open spec fn module_line(line: Seq<char>) -> Option<Seq<char>> {
    let l = trimmed(line);
    if starts(l, "module"@) && l.len() > 6 && is_white(l[6]) {
        Some(crate::parsers::c_cpp::unquote_back(crate::parsers::c_cpp::unquote_front(trimmed(l.skip(7)))))
    } else {
        None
    }
}

/// The first module path among `lines`.
pub open spec fn first_module(lines: Seq<Seq<char>>) -> Option<Seq<char>>
    decreases lines.len(),
{
    if lines.len() == 0 {
        None
    } else {
        match module_line(lines[0]) {
            Some(p) => Some(p),
            None => first_module(lines.drop_first()),
        }
    }
}

/// The module path of a `go.mod`.
pub open spec fn module_of(go_mod: Seq<char>) -> Option<Seq<char>> {
    first_module(lines_of(go_mod))
}

/// A directory's last segment.
pub open spec fn last_segment(dir: Seq<char>) -> Seq<char> {
    if last_of(dir, '/') >= 0 {
        dir.skip(last_of(dir, '/') + 1)
    } else {
        dir
    }
}

/// Whether `f` is a Go file directly inside `dir`.
pub open spec fn in_package(dir: Seq<char>, f: Seq<char>) -> bool {
    &&& starts(f, dir + "/"@)
    &&& ends(f.skip(dir.len() + 1int), ".go"@)
    &&& !f.skip(dir.len() + 1int).contains('/')
}

/// `f` is the lexicographically first Go file directly inside `dir`.
pub open spec fn first_in_package(dir: Seq<char>, files: Seq<String>, f: Seq<char>) -> bool {
    &&& listed(files, f)
    &&& in_package(dir, f)
    &&& forall|g: Seq<char>| #[trigger] listed(files, g) && in_package(dir, g) ==> !lex_lt(g, f)
}

/// The file an edge to package directory `dir` points at: `<dir>/<name>.go`
/// after the directory when present, else the first Go file inside it.
pub open spec fn go_anchor(dir: Seq<char>, files: Seq<String>) -> Option<Seq<char>> {
    let named = dir + "/"@ + last_segment(dir) + ".go"@;
    if dir.len() == 0 {
        None
    } else if listed(files, named) {
        Some(named)
    } else if exists|f: Seq<char>| first_in_package(dir, files, f) {
        Some(choose|f: Seq<char>| first_in_package(dir, files, f))
    } else {
        None
    }
}

/// The anchors a module-less import's suffixes name: each suffix left by
/// stripping one or more leading segments.
pub open spec fn suffix_anchor(spec: Seq<char>, files: Seq<String>, a: Seq<char>) -> bool {
    exists|skip: int|
        1 <= skip < split_on(spec, '/').len() && #[trigger] go_anchor(joined(split_on(spec, '/').skip(skip), "/"@), files)
            == Some(a)
}

/// A module-less import resolves only when its suffixes name exactly one
/// package.
pub open spec fn suffix_resolved(spec: Seq<char>, files: Seq<String>) -> Option<Seq<char>> {
    if exists|a: Seq<char>| suffix_anchor(spec, files, a) && forall|b: Seq<char>| suffix_anchor(spec, files, b) ==> b == a {
        Some(choose|a: Seq<char>| suffix_anchor(spec, files, a) && forall|b: Seq<char>| suffix_anchor(spec, files, b) ==> b == a)
    } else {
        None
    }
}

/// Where a Go import lands: a relative path's package; under a root
/// `go.mod`, a path inside this module (anything else is external); with
/// no `go.mod`, the one package its suffixes name. `go_mod` is the root
/// `go.mod`'s text, when it could be read.
pub open spec fn go_resolved(importer: Seq<char>, spec: Seq<char>, files: Seq<String>, go_mod: Option<Seq<char>>) -> Option<Seq<char>> {
    if starts(spec, "./"@) || starts(spec, "../"@) {
        match walked(split_on(importer, '/').drop_last(), spec) {
            Some(d) => go_anchor(d, files),
            None => None,
        }
    } else if listed(files, "go.mod"@) {
        match go_mod {
            Some(text) => match module_of(text) {
                Some(m) => if starts(spec, m) && spec.len() > m.len() && spec[m.len() as int] == '/' {
                    go_anchor(spec.skip(m.len() + 1int), files)
                } else {
                    None
                },
                None => None,
            },
            None => None,
        }
    } else {
        suffix_resolved(spec, files)
    }
}

/// The module path a `go.mod` declares.
pub fn go_module_path(go_mod: &str) -> (r: Option<String>)
    ensures
        opt_text(r) == module_of(go_mod@),
{
    let ls = lines(go_mod);
    let ghost all = char_views(ls@);
    let word = chars_of("module");
    let mut k: usize = 0;
    assert(all.skip(0) =~= all);
    while k < ls.len()
        invariant
            k <= ls.len(),
            all == char_views(ls@),
            all == lines_of(go_mod@),
            word@ == "module"@,
            first_module(all) == first_module(all.skip(k as int)),
        decreases ls.len() - k,
    {
        assert(all.skip(k as int)[0] == ls@[k as int]@);
        assert(all.skip(k as int).drop_first() =~= all.skip(k + 1));
        let l = trimmed_of(&ls[k]);
        if starts_with(&l, &word) && l.len() > 6 && white(l[6]) {
            let rest = crate::text::slice(&l, 7, l.len());
            assert(rest@ =~= l@.skip(7));
            let path = crate::parsers::c_cpp::unquoted_path(string_of(&trimmed_of(&rest)).as_str());
            return Some(path);
        }
        k += 1;
    }
    None
}

fn last_segment_of(dir: &Vec<char>) -> (r: Vec<char>)
    ensures
        r@ == last_segment(dir@),
{
    match last_position(dir, '/') {
        Some(k) => {
            assert(k < dir.len());
            let r = crate::text::slice(dir, k + 1, dir.len());
            assert(r@ =~= dir@.skip(k + 1));
            r
        },
        None => crate::text::slice(dir, 0, dir.len()),
    }
}

fn in_package_at(dir: &Vec<char>, f: &Vec<char>) -> (r: bool)
    ensures
        r == in_package(dir@, f@),
{
    let mut prefix = crate::text::slice(dir, 0, dir.len());
    prefix.push('/');
    proof {
        reveal_strlit("/");
    }
    assert(prefix@ =~= dir@ + "/"@);
    if !starts_with(f, &prefix) {
        return false;
    }
    let rest = crate::text::slice(f, prefix.len(), f.len());
    assert(rest@ =~= f@.skip(dir.len() + 1));
    let go = chars_of(".go");
    if !ends_with(&rest, &go) {
        return false;
    }
    match position(&rest, '/') {
        Some(_) => {
            assert(rest@.contains('/'));
            false
        },
        None => true,
    }
}

fn anchor_of(dir: &Vec<char>, files: &Vec<String>) -> (r: Option<String>)
    ensures
        opt_text(r) == go_anchor(dir@, files@),
{
    if dir.len() == 0 {
        return None;
    }
    let mut named = crate::text::slice(dir, 0, dir.len());
    named.push('/');
    crate::text::append(&mut named, &last_segment_of(dir));
    crate::text::append_str(&mut named, ".go");
    proof {
        reveal_strlit("/");
    }
    assert(named@ =~= dir@ + "/"@ + last_segment(dir@) + ".go"@);
    if is_listed(files, &named) {
        return Some(string_of(&named));
    }
    let mut best: Option<String> = None;
    let mut k: usize = 0;
    while k < files.len()
        invariant
            k <= files.len(),
            match best {
                Some(b) => listed(files@, b@) && in_package(dir@, b@) && forall|q: int|
                    0 <= q < k && in_package(dir@, #[trigger] files@[q]@) ==> !lex_lt(files@[q]@, b@),
                None => forall|q: int| 0 <= q < k ==> !in_package(dir@, #[trigger] files@[q]@),
            },
        decreases files.len() - k,
    {
        let f = chars_of(files[k].as_str());
        if in_package_at(dir, &f) {
            let better = match &best {
                None => true,
                Some(b) => lex_less(&f, &chars_of(b.as_str())),
            };
            if better {
                proof {
                    if best is Some {
                        let b = best->0;
                        assert forall|q: int| 0 <= q < k + 1 && in_package(dir@, #[trigger] files@[q]@) implies !lex_lt(files@[q]@, f@) by {
                            if q < k {
                                if lex_lt(files@[q]@, f@) {
                                    crate::text::lemma_lex_transitive(files@[q]@, f@, b@);
                                }
                            } else {
                                crate::text::lemma_lex_irreflexive(f@);
                            }
                        }
                    } else {
                        assert forall|q: int| 0 <= q < k + 1 && in_package(dir@, #[trigger] files@[q]@) implies !lex_lt(files@[q]@, f@) by {
                            crate::text::lemma_lex_irreflexive(f@);
                        }
                    }
                }
                best = Some(files[k].clone());
            } else {
                proof {
                    let b = best->0;
                    crate::text::lemma_lex_total(f@, b@);
                    assert forall|q: int| 0 <= q < k + 1 && in_package(dir@, #[trigger] files@[q]@) implies !lex_lt(files@[q]@, b@) by {
                        if q == k && lex_lt(files@[q]@, b@) {
                        }
                    }
                }
            }
        }
        k += 1;
    }
    proof {
        if best is Some {
            let b = best->0;
            assert forall|g: Seq<char>| #[trigger] listed(files@, g) && in_package(dir@, g) implies !lex_lt(g, b@) by {
                let q = choose|q: int| 0 <= q < files@.len() && #[trigger] files@[q]@ == g;
            }
            assert(first_in_package(dir@, files@, b@));
            let c = choose|f: Seq<char>| first_in_package(dir@, files@, f);
            crate::text::lemma_lex_total(c, b@);
        } else {
            assert forall|f: Seq<char>| !first_in_package(dir@, files@, f) by {
                if listed(files@, f) {
                    let q = choose|q: int| 0 <= q < files@.len() && #[trigger] files@[q]@ == f;
                }
            }
        }
    }
    best
}

/// The parts of `parts` from `from` on, joined with `/`.
fn join_from(parts: &Vec<Vec<char>>, from: usize) -> (r: Vec<char>)
    requires
        from <= parts.len(),
    ensures
        r@ == joined(char_views(parts@).skip(from as int), "/"@),
{
    let ghost ps = char_views(parts@).skip(from as int);
    let mut r: Vec<char> = Vec::new();
    let mut k: usize = from;
    while k < parts.len()
        invariant
            from <= k <= parts.len(),
            ps == char_views(parts@).skip(from as int),
            r@ == joined(ps.take(k - from), "/"@),
        decreases parts.len() - k,
    {
        assert(ps.take(k + 1 - from).drop_last() =~= ps.take(k - from));
        assert(ps.take(k + 1 - from).last() == parts@[k as int]@);
        if k > from {
            r.push('/');
        }
        crate::text::append(&mut r, &parts[k]);
        proof {
            reveal_strlit("/");
            if k == from {
                assert(ps.take(1) =~= seq![parts@[k as int]@]);
                assert(r@ =~= joined(ps.take(1), "/"@));
            } else {
                assert(r@ =~= joined(ps.take(k + 1 - from), "/"@));
            }
        }
        k += 1;
    }
    assert(ps.take(k - from) =~= ps);
    r
}

fn suffix_at(specifier: &str, files: &Vec<String>) -> (r: Option<String>)
    ensures
        opt_text(r) == suffix_resolved(specifier@, files@),
{
    let segments = split_chars(&chars_of(specifier), '/');
    let ghost segs = split_on(specifier@, '/');
    let mut only: Option<String> = None;
    let mut ambiguous = false;
    let mut skip: usize = 1;
    while skip < segments.len()
        invariant
            1 <= skip,
            char_views(segments@) == segs,
            segs == split_on(specifier@, '/'),
            ambiguous ==> exists|a: Seq<char>, b: Seq<char>|
                a != b && #[trigger] suffix_anchor(specifier@, files@, a) && #[trigger] suffix_anchor(specifier@, files@, b),
            !ambiguous ==> match only {
                Some(o) => suffix_anchor(specifier@, files@, o@) && forall|q: int|
                    1 <= q < skip && q < segs.len() ==> match #[trigger] go_anchor(joined(segs.skip(q), "/"@), files@) {
                        Some(b) => b == o@,
                        None => true,
                    },
                None => forall|q: int| 1 <= q < skip && q < segs.len() ==> #[trigger] go_anchor(joined(segs.skip(q), "/"@), files@) is None,
            },
        decreases segments.len() - skip,
    {
        let dir = join_from(&segments, skip);
        let found = anchor_of(&dir, files);
        assert(suffix_anchor(specifier@, files@, dir@) || true);
        if let Some(x) = found {
            assert(suffix_anchor(specifier@, files@, x@)) by {
                assert(go_anchor(joined(segs.skip(skip as int), "/"@), files@) == Some(x@));
            }
            if !ambiguous {
                match &only {
                    None => {
                        only = Some(x);
                    },
                    Some(o) => {
                        if !str_eq(o.as_str(), x.as_str()) {
                            ambiguous = true;
                        }
                    },
                }
            }
        }
        skip += 1;
    }
    proof {
        if !ambiguous {
            if only is Some {
                let o = only->0;
                assert forall|b: Seq<char>| suffix_anchor(specifier@, files@, b) implies b == o@ by {
                    let q = choose|q: int|
                        1 <= q < split_on(specifier@, '/').len() && #[trigger] go_anchor(joined(split_on(specifier@, '/').skip(q), "/"@), files@) == Some(b);
                }
                let c = choose|a: Seq<char>| suffix_anchor(specifier@, files@, a) && forall|b: Seq<char>| suffix_anchor(specifier@, files@, b) ==> b == a;
            } else {
                assert forall|a: Seq<char>| !suffix_anchor(specifier@, files@, a) by {
                    if suffix_anchor(specifier@, files@, a) {
                        let q = choose|q: int|
                            1 <= q < split_on(specifier@, '/').len() && #[trigger] go_anchor(joined(split_on(specifier@, '/').skip(q), "/"@), files@) == Some(a);
                    }
                }
            }
        }
    }
    if ambiguous {
        None
    } else {
        only
    }
}

/// Resolves a Go import written in `importer` against the scanned files;
/// `go_mod` is the root `go.mod`'s text when the scan holds one and it
/// could be read.
pub fn resolve_go_import(importer: &str, specifier: &str, files: &Vec<String>, go_mod: Option<&str>) -> (r: Option<String>)
    ensures
        opt_text(r) == go_resolved(importer@, specifier@, files@, crate::parsers::syntax::opt_str(go_mod)),
{
    let s = chars_of(specifier);
    if starts_with(&s, &chars_of("./")) || starts_with(&s, &chars_of("../")) {
        return match walk_path(importer_dir(importer), &s) {
            Some(d) => anchor_of(&d, files),
            None => None,
        };
    }
    if is_listed(files, &chars_of("go.mod")) {
        let text = match go_mod {
            Some(text) => text,
            None => return None,
        };
        let m = match go_module_path(text) {
            Some(m) => chars_of(m.as_str()),
            None => return None,
        };
        if starts_with(&s, &m) && s.len() > m.len() && s[m.len()] == '/' {
            let rest = crate::text::slice(&s, m.len() + 1, s.len());
            assert(rest@ =~= specifier@.skip(m@.len() + 1int));
            return anchor_of(&rest, files);
        }
        return None;
    }
    suffix_at(specifier, files)
}

} // verus!

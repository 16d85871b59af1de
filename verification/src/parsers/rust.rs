//! Rust facts, read off the syntax tree: `fn` items (methods qualified by
//! their `impl` or `trait` type, generics dropped) and `struct` items, a
//! top-level item exported when it carries a visibility modifier; calls of a
//! plain identifier inside a function; `mod foo;` declarations; and `use`
//! trees expanded into one import per leaf path, each binding its leaf or
//! its alias.

use vstd::prelude::*;

use crate::highlight::Grammar;
use crate::parsers::c_cpp::{last_sep, lemma_sep_from, sep_in, trimmed_of};
use crate::parsers::syntax::{
    call_fact, child_by_field, copy_text, ctx_at, field_child, field_text, import_fact, is_shaped, kind_is,
    lemma_ctx_step, line_no, line_of, name_pair, nodes, opt_text, parent_on, qualified, qualify, shaped, spine,
    step_spine, symbol_fact, syntax, syntax_of, text_by_field, NodeView, SyntaxNode,
};
use crate::parsers::{Analysis, Call, Import, ImportedName, Symbol, SymbolKind};
use crate::text::{chars_of, first_of, is_white, position, string_of, strings, trimmed, white};

verus! {

/// The marker that tells a `mod foo;` declaration from a use-path in the
/// import specifier channel.
pub const MOD_PREFIX: &'static str = "mod ";

/// Which children of a node are `use` tree items: none, exactly one (with
/// the path prefix it extends), or every named child.
pub enum UseSel {
    Off,
    At(int, Seq<char>),
    Named(Seq<char>),
}

/// A node's context: the enclosing `impl`/`trait` type, the enclosing
/// function, whether the ordinary walk reaches it, and which `use` items
/// are among its siblings.
pub struct RsCtx {
    pub scope: Option<Seq<char>>,
    pub caller: Option<Seq<char>>,
    pub live: bool,
    pub sel: UseSel,
}

pub open spec fn rs_root() -> RsCtx {
    RsCtx { scope: None, caller: None, live: true, sel: UseSel::Off }
}

/// Whether node `i` is a `use` tree item under context `c`.
pub open spec fn is_item(t: Seq<NodeView>, i: int, c: RsCtx) -> bool {
    match c.sel {
        UseSel::Off => false,
        UseSel::At(k, _) => i == k,
        UseSel::Named(_) => t[i].named,
    }
}

pub open spec fn prefix_of(c: RsCtx) -> Seq<char> {
    match c.sel {
        UseSel::At(_, p) => p,
        UseSel::Named(p) => p,
        UseSel::Off => Seq::empty(),
    }
}

/// `prefix::path`, or `path` under an empty prefix.
pub open spec fn joined_path(prefix: Seq<char>, path: Seq<char>) -> Seq<char> {
    if prefix.len() == 0 {
        path
    } else {
        prefix + "::"@ + path
    }
}

/// A path's last segment.
pub open spec fn leaf(path: Seq<char>) -> Seq<char> {
    if last_sep(path) >= 0 {
        path.skip(last_sep(path) + 2)
    } else {
        path
    }
}

/// `s` without its whitespace.
pub open spec fn unspaced(s: Seq<char>) -> Seq<char>
    decreases s.len(),
{
    if s.len() == 0 {
        s
    } else if is_white(s.last()) {
        unspaced(s.drop_last())
    } else {
        unspaced(s.drop_last()).push(s.last())
    }
}

/// `Circle<T>` is `Circle`: a scope name drops generic arguments.
pub open spec fn without_generics(s: Seq<char>) -> Seq<char> {
    if first_of(s, '<') >= 0 {
        trimmed(s.take(first_of(s, '<')))
    } else {
        s
    }
}

/// The type an `impl` or `trait` names, scoping the functions inside it.
pub open spec fn scope_of(t: Seq<NodeView>, i: int) -> Option<Seq<char>> {
    if t[i].kind == "impl_item"@ {
        match field_text(t, i, "type"@) {
            Some(x) => Some(without_generics(x)),
            None => None,
        }
    } else if t[i].kind == "trait_item"@ {
        field_text(t, i, "name"@)
    } else {
        None
    }
}

/// Whether a child of `i`, from `j` on, is a visibility modifier.
pub open spec fn pub_from(t: Seq<NodeView>, i: int, j: int) -> bool
    decreases t.len() - j,
{
    if j <= i || j >= t.len() || t[j].depth <= t[i].depth {
        false
    } else if t[j].depth == t[i].depth + 1 && t[j].kind == "visibility_modifier"@ {
        true
    } else {
        pub_from(t, i, j + 1)
    }
}

/// A `mod foo;` with no body.
pub open spec fn file_module(t: Seq<NodeView>, i: int) -> bool {
    t[i].kind == "mod_item"@ && field_child(t, i, "body"@) is None
}

/// The symbol node `i` yields, if the walk reads it.
pub open spec fn rs_symbol(t: Seq<NodeView>, i: int, c: RsCtx) -> Option<(SymbolKind, Seq<char>, int, int, bool)> {
    let k = t[i].kind;
    if c.live && (k == "function_item"@ || k == "struct_item"@) && field_text(t, i, "name"@) is Some {
        let kind = if k == "function_item"@ {
            SymbolKind::Function
        } else {
            SymbolKind::Class
        };
        Some(
            (
                kind,
                qualified(kind, c.scope, field_text(t, i, "name"@)->0),
                line_no(t[i].start_row),
                line_no(t[i].end_row),
                c.scope is None && pub_from(t, i, i + 1),
            ),
        )
    } else {
        None
    }
}

/// The context node `i`'s children see.
pub open spec fn rs_below(t: Seq<NodeView>, i: int, c: RsCtx) -> RsCtx {
    let k = t[i].kind;
    if c.live {
        if k == "use_declaration"@ {
            RsCtx {
                scope: c.scope,
                caller: c.caller,
                live: false,
                sel: match field_child(t, i, "argument"@) {
                    Some(a) => UseSel::At(a, Seq::empty()),
                    None => UseSel::Off,
                },
            }
        } else if file_module(t, i) {
            RsCtx { scope: c.scope, caller: c.caller, live: false, sel: UseSel::Off }
        } else {
            RsCtx {
                scope: match scope_of(t, i) {
                    Some(s) => Some(s),
                    None => c.scope,
                },
                caller: match rs_symbol(t, i, c) {
                    Some(s) if s.0 == SymbolKind::Function => Some(s.1),
                    _ => c.caller,
                },
                live: true,
                sel: UseSel::Off,
            }
        }
    } else {
        RsCtx {
            scope: c.scope,
            caller: c.caller,
            live: false,
            sel: if is_item(t, i, c) && k == "scoped_use_list"@ {
                match field_child(t, i, "list"@) {
                    Some(l) => UseSel::At(
                        l,
                        joined_path(
                            prefix_of(c),
                            match field_text(t, i, "path"@) {
                                Some(p) => p,
                                None => Seq::empty(),
                            },
                        ),
                    ),
                    None => UseSel::Off,
                }
            } else if is_item(t, i, c) && k == "use_list"@ {
                UseSel::Named(prefix_of(c))
            } else {
                UseSel::Off
            },
        }
    }
}

pub open spec fn rs_step(t: Seq<NodeView>) -> spec_fn(int, RsCtx) -> RsCtx {
    |k: int, c: RsCtx| rs_below(t, k, c)
}

pub open spec fn rs_ctx(t: Seq<NodeView>, i: int) -> RsCtx {
    ctx_at(t, i, rs_root(), rs_step(t))
}

/// Node `j`'s first named child, from `k` on.
pub open spec fn named_from(t: Seq<NodeView>, j: int, k: int) -> Option<int>
    decreases t.len() - k,
{
    if k <= j || k >= t.len() || t[k].depth <= t[j].depth {
        None
    } else if t[k].depth == t[j].depth + 1 && t[k].named {
        Some(k)
    } else {
        named_from(t, j, k + 1)
    }
}

/// The import a leaf of a `use` tree yields under `prefix`.
pub open spec fn use_import(t: Seq<NodeView>, i: int, prefix: Seq<char>) -> Option<(Seq<char>, Seq<(Seq<char>, Seq<char>)>, Seq<Seq<char>>)> {
    let k = t[i].kind;
    if k == "use_as_clause"@ {
        let path = match field_text(t, i, "path"@) {
            Some(p) => p,
            None => Seq::empty(),
        };
        let full = joined_path(prefix, path);
        let alias = match field_text(t, i, "alias"@) {
            Some(a) => a,
            None => Seq::empty(),
        };
        Some((full, seq![(alias, leaf(full))], Seq::empty()))
    } else if k == "use_wildcard"@ {
        let path = match named_from(t, i, i + 1) {
            Some(n) => match t[n].text {
                Some(x) => x,
                None => Seq::empty(),
            },
            None => Seq::empty(),
        };
        Some((joined_path(prefix, path), Seq::empty(), Seq::empty()))
    } else {
        match t[i].text {
            Some(x) => {
                let full = joined_path(prefix, unspaced(x));
                Some((full, seq![(leaf(full), leaf(full))], Seq::empty()))
            },
            None => None,
        }
    }
}

/// The import node `i` yields, if any.
pub open spec fn rs_import(t: Seq<NodeView>, i: int, c: RsCtx) -> Option<(Seq<char>, Seq<(Seq<char>, Seq<char>)>, Seq<Seq<char>>)> {
    let k = t[i].kind;
    if c.live {
        if file_module(t, i) && field_text(t, i, "name"@) is Some {
            Some((MOD_PREFIX@ + field_text(t, i, "name"@)->0, Seq::empty(), Seq::empty()))
        } else {
            None
        }
    } else if is_item(t, i, c) && k != "scoped_use_list"@ && k != "use_list"@ {
        use_import(t, i, prefix_of(c))
    } else {
        None
    }
}

/// The call node `i` yields: a plain identifier callee, inside a function.
pub open spec fn rs_call(t: Seq<NodeView>, i: int, c: RsCtx) -> Option<(Seq<char>, Seq<char>, Seq<Seq<char>>)> {
    if c.live && t[i].kind == "call_expression"@ {
        match (field_child(t, i, "function"@), c.caller) {
            (Some(f), Some(caller)) => if t[f].kind == "identifier"@ {
                match t[f].text {
                    Some(x) => Some((caller, x, Seq::empty())),
                    None => None,
                }
            } else {
                None
            },
            _ => None,
        }
    } else {
        None
    }
}

/// The facts of the first `n` nodes, in preorder.
pub open spec fn rs_walk(t: Seq<NodeView>, n: int) -> (
    Seq<(SymbolKind, Seq<char>, int, int, bool)>,
    Seq<(Seq<char>, Seq<(Seq<char>, Seq<char>)>, Seq<Seq<char>>)>,
    Seq<(Seq<char>, Seq<char>, Seq<Seq<char>>)>,
)
    decreases n,
{
    if n <= 0 {
        (Seq::empty(), Seq::empty(), Seq::empty())
    } else {
        let (s, m, c) = rs_walk(t, n - 1);
        let x = rs_ctx(t, n - 1);
        (
            match rs_symbol(t, n - 1, x) {
                Some(f) => s.push(f),
                None => s,
            },
            match rs_import(t, n - 1, x) {
                Some(f) => m.push(f),
                None => m,
            },
            match rs_call(t, n - 1, x) {
                Some(f) => c.push(f),
                None => c,
            },
        )
    }
}

/// Everything a Rust tree yields; a list that is not one tree yields
/// nothing.
pub open spec fn rust_facts(t: Seq<NodeView>) -> (
    Seq<(SymbolKind, Seq<char>, int, int, bool)>,
    Seq<(Seq<char>, Seq<(Seq<char>, Seq<char>)>, Seq<Seq<char>>)>,
    Seq<(Seq<char>, Seq<char>, Seq<Seq<char>>)>,
) {
    if shaped(t) {
        rs_walk(t, t.len() as int)
    } else {
        (Seq::empty(), Seq::empty(), Seq::empty())
    }
}

enum Sel {
    Off,
    At(usize, String),
    Named(String),
}

struct Scope {
    scope: Option<String>,
    caller: Option<String>,
    live: bool,
    sel: Sel,
}

impl Scope {
    spec fn view(&self) -> RsCtx {
        RsCtx {
            scope: opt_text(self.scope),
            caller: opt_text(self.caller),
            live: self.live,
            sel: match self.sel {
                Sel::Off => UseSel::Off,
                Sel::At(k, p) => UseSel::At(k as int, p@),
                Sel::Named(p) => UseSel::Named(p@),
            },
        }
    }

    fn copy(&self) -> (r: Scope)
        ensures
            r.view() == self.view(),
    {
        Scope {
            scope: copy_text(&self.scope),
            caller: copy_text(&self.caller),
            live: self.live,
            sel: match &self.sel {
                Sel::Off => Sel::Off,
                Sel::At(k, p) => Sel::At(*k, p.clone()),
                Sel::Named(p) => Sel::Named(p.clone()),
            },
        }
    }

    fn item(&self, t: &Vec<SyntaxNode>, i: usize) -> (r: bool)
        requires
            i < t.len(),
        ensures
            r == is_item(nodes(t@), i as int, self.view()),
    {
        let ghost v = nodes(t@);
        assert(v[i as int] == t@[i as int]@);
        match &self.sel {
            Sel::Off => false,
            Sel::At(k, _) => *k == i,
            Sel::Named(_) => t[i].named,
        }
    }

    fn prefix(&self) -> (r: String)
        ensures
            r@ == prefix_of(self.view()),
    {
        match &self.sel {
            Sel::Off => String::new(),
            Sel::At(_, p) => p.clone(),
            Sel::Named(p) => p.clone(),
        }
    }
}

fn join_path(prefix: &str, path: &str) -> (r: String)
    ensures
        r@ == joined_path(prefix@, path@),
{
    let p = chars_of(prefix);
    if p.len() == 0 {
        String::from_str(path)
    } else {
        let mut v = p;
        v.push(':');
        v.push(':');
        crate::text::append_str(&mut v, path);
        proof {
            reveal_strlit("::");
        }
        assert(v@ =~= prefix@ + "::"@ + path@);
        string_of(&v)
    }
}

fn leaf_of(path: &str) -> (r: String)
    ensures
        r@ == leaf(path@),
{
    let v = chars_of(path);
    match sep_in(&v) {
        Some(p) => {
            let r = crate::text::slice(&v, p + 2, v.len());
            assert(r@ =~= v@.skip(p + 2));
            string_of(&r)
        },
        None => String::from_str(path),
    }
}

fn unspace(x: &str) -> (r: String)
    ensures
        r@ == unspaced(x@),
{
    let v = chars_of(x);
    let mut r: Vec<char> = Vec::new();
    let mut k: usize = 0;
    while k < v.len()
        invariant
            k <= v.len(),
            r@ == unspaced(v@.take(k as int)),
        decreases v.len() - k,
    {
        assert(v@.take(k + 1).drop_last() =~= v@.take(k as int));
        if !white(v[k]) {
            r.push(v[k]);
        }
        k += 1;
    }
    assert(v@.take(v.len() as int) =~= v@);
    string_of(&r)
}

fn strip_generics(s: &str) -> (r: String)
    ensures
        r@ == without_generics(s@),
{
    let v = chars_of(s);
    match position(&v, '<') {
        Some(k) => {
            let base = crate::text::slice(&v, 0, k);
            assert(base@ =~= s@.take(k as int));
            string_of(&trimmed_of(&base))
        },
        None => String::from_str(s),
    }
}

fn scope_at(t: &Vec<SyntaxNode>, i: usize) -> (r: Option<String>)
    requires
        i < t.len(),
    ensures
        opt_text(r) == scope_of(nodes(t@), i as int),
{
    if kind_is(t, i, "impl_item") {
        match text_by_field(t, i, "type") {
            Some(x) => Some(strip_generics(x.as_str())),
            None => None,
        }
    } else if kind_is(t, i, "trait_item") {
        text_by_field(t, i, "name")
    } else {
        None
    }
}

fn has_pub(t: &Vec<SyntaxNode>, i: usize) -> (r: bool)
    requires
        i < t.len(),
    ensures
        r == pub_from(nodes(t@), i as int, i + 1),
{
    let ghost v = nodes(t@);
    let mut j = i + 1;
    while j < t.len() && t[j].depth > t[i].depth
        invariant
            i < j <= t.len(),
            v == nodes(t@),
            pub_from(v, i as int, i + 1) == pub_from(v, i as int, j as int),
        decreases t.len() - j,
    {
        assert(v[j as int] == t@[j as int]@ && v[i as int] == t@[i as int]@);
        if t[j].depth == t[i].depth + 1 && kind_is(t, j, "visibility_modifier") {
            return true;
        }
        j += 1;
    }
    if j < t.len() {
        assert(v[j as int] == t@[j as int]@ && v[i as int] == t@[i as int]@);
    }
    false
}

fn file_module_at(t: &Vec<SyntaxNode>, i: usize) -> (r: bool)
    requires
        i < t.len(),
    ensures
        r == file_module(nodes(t@), i as int),
{
    kind_is(t, i, "mod_item") && child_by_field(t, i, "body").is_none()
}

fn symbol_at(t: &Vec<SyntaxNode>, i: usize, c: &Scope) -> (r: Option<Symbol>)
    requires
        i < t.len(),
    ensures
        match r {
            Some(s) => rs_symbol(nodes(t@), i as int, c.view()) == Some(symbol_fact(s)),
            None => rs_symbol(nodes(t@), i as int, c.view()) is None,
        },
{
    let ghost v = nodes(t@);
    if !c.live {
        return None;
    }
    let func = kind_is(t, i, "function_item");
    if !func && !kind_is(t, i, "struct_item") {
        return None;
    }
    match text_by_field(t, i, "name") {
        Some(name) => {
            let kind = if func {
                SymbolKind::Function
            } else {
                SymbolKind::Class
            };
            assert(v[i as int] == t@[i as int]@);
            Some(
                Symbol {
                    kind,
                    name: qualify(kind, &c.scope, name.as_str()),
                    start_line: line_of(t[i].start_row),
                    end_line: line_of(t[i].end_row),
                    exported: c.scope.is_none() && has_pub(t, i),
                },
            )
        },
        None => None,
    }
}

fn below_of(t: &Vec<SyntaxNode>, i: usize, c: &Scope, symbol: &Option<Symbol>) -> (r: Scope)
    requires
        i < t.len(),
        match symbol {
            Some(s) => rs_symbol(nodes(t@), i as int, c.view()) == Some(symbol_fact(*s)),
            None => rs_symbol(nodes(t@), i as int, c.view()) is None,
        },
    ensures
        r.view() == rs_below(nodes(t@), i as int, c.view()),
{
    if c.live {
        if kind_is(t, i, "use_declaration") {
            return Scope {
                scope: copy_text(&c.scope),
                caller: copy_text(&c.caller),
                live: false,
                sel: match child_by_field(t, i, "argument") {
                    Some(a) => Sel::At(a, String::new()),
                    None => Sel::Off,
                },
            };
        }
        if file_module_at(t, i) {
            return Scope { scope: copy_text(&c.scope), caller: copy_text(&c.caller), live: false, sel: Sel::Off };
        }
        let scope = match scope_at(t, i) {
            Some(s) => Some(s),
            None => copy_text(&c.scope),
        };
        let caller = match symbol {
            Some(s) if s.kind == SymbolKind::Function => Some(s.name.clone()),
            _ => copy_text(&c.caller),
        };
        Scope { scope, caller, live: true, sel: Sel::Off }
    } else {
        let item = c.item(t, i);
        let sel = if item && kind_is(t, i, "scoped_use_list") {
            match child_by_field(t, i, "list") {
                Some(l) => {
                    let path = match text_by_field(t, i, "path") {
                        Some(p) => p,
                        None => String::new(),
                    };
                    Sel::At(l, join_path(c.prefix().as_str(), path.as_str()))
                },
                None => Sel::Off,
            }
        } else if item && kind_is(t, i, "use_list") {
            Sel::Named(c.prefix())
        } else {
            Sel::Off
        };
        Scope { scope: copy_text(&c.scope), caller: copy_text(&c.caller), live: false, sel }
    }
}

fn named_child_at(t: &Vec<SyntaxNode>, j: usize) -> (r: Option<usize>)
    requires
        j < t.len(),
    ensures
        r matches Some(n) ==> Some(n as int) == named_from(nodes(t@), j as int, j + 1) && n < t.len(),
        r is None ==> named_from(nodes(t@), j as int, j + 1) is None,
{
    let ghost v = nodes(t@);
    let mut k = j + 1;
    while k < t.len() && t[k].depth > t[j].depth
        invariant
            j < k <= t.len(),
            v == nodes(t@),
            named_from(v, j as int, j + 1) == named_from(v, j as int, k as int),
        decreases t.len() - k,
    {
        assert(v[k as int] == t@[k as int]@ && v[j as int] == t@[j as int]@);
        if t[k].depth == t[j].depth + 1 && t[k].named {
            return Some(k);
        }
        k += 1;
    }
    if k < t.len() {
        assert(v[k as int] == t@[k as int]@ && v[j as int] == t@[j as int]@);
    }
    None
}

fn use_import_at(t: &Vec<SyntaxNode>, i: usize, prefix: &str) -> (r: Option<Import>)
    requires
        i < t.len(),
    ensures
        match r {
            Some(m) => use_import(nodes(t@), i as int, prefix@) == Some(import_fact(m)),
            None => use_import(nodes(t@), i as int, prefix@) is None,
        },
{
    let ghost v = nodes(t@);
    assert(v[i as int] == t@[i as int]@);
    if kind_is(t, i, "use_as_clause") {
        let path = match text_by_field(t, i, "path") {
            Some(p) => p,
            None => String::new(),
        };
        let full = join_path(prefix, path.as_str());
        let alias = match text_by_field(t, i, "alias") {
            Some(a) => a,
            None => String::new(),
        };
        let name = ImportedName { local: alias, imported: leaf_of(full.as_str()) };
        let ghost nv = name_pair(name);
        let r = Import { specifier: full, names: vec![name], namespaces: Vec::new() };
        assert(r.names@.map_values(|n: ImportedName| name_pair(n)) =~= seq![nv]);
        assert(strings(r.namespaces@) =~= Seq::<Seq<char>>::empty());
        Some(r)
    } else if kind_is(t, i, "use_wildcard") {
        let path = match named_child_at(t, i) {
            Some(n) => {
                assert(v[n as int] == t@[n as int]@);
                match &t[n].text {
                    Some(x) => x.clone(),
                    None => String::new(),
                }
            },
            None => String::new(),
        };
        let r = Import { specifier: join_path(prefix, path.as_str()), names: Vec::new(), namespaces: Vec::new() };
        assert(r.names@.map_values(|n: ImportedName| name_pair(n)) =~= Seq::<(Seq<char>, Seq<char>)>::empty());
        assert(strings(r.namespaces@) =~= Seq::<Seq<char>>::empty());
        Some(r)
    } else {
        match &t[i].text {
            Some(x) => {
                let full = join_path(prefix, unspace(x.as_str()).as_str());
                let l = leaf_of(full.as_str());
                let name = ImportedName { local: l.clone(), imported: l };
                let ghost nv = name_pair(name);
                let r = Import { specifier: full, names: vec![name], namespaces: Vec::new() };
                assert(r.names@.map_values(|n: ImportedName| name_pair(n)) =~= seq![nv]);
                assert(strings(r.namespaces@) =~= Seq::<Seq<char>>::empty());
                Some(r)
            },
            None => None,
        }
    }
}

fn import_at(t: &Vec<SyntaxNode>, i: usize, c: &Scope) -> (r: Option<Import>)
    requires
        i < t.len(),
    ensures
        match r {
            Some(m) => rs_import(nodes(t@), i as int, c.view()) == Some(import_fact(m)),
            None => rs_import(nodes(t@), i as int, c.view()) is None,
        },
{
    if c.live {
        if file_module_at(t, i) {
            if let Some(name) = text_by_field(t, i, "name") {
                let mut v = chars_of(MOD_PREFIX);
                crate::text::append_str(&mut v, name.as_str());
                let r = Import { specifier: string_of(&v), names: Vec::new(), namespaces: Vec::new() };
                assert(r.names@.map_values(|n: ImportedName| name_pair(n)) =~= Seq::<(Seq<char>, Seq<char>)>::empty());
                assert(strings(r.namespaces@) =~= Seq::<Seq<char>>::empty());
                return Some(r);
            }
        }
        None
    } else if c.item(t, i) && !kind_is(t, i, "scoped_use_list") && !kind_is(t, i, "use_list") {
        use_import_at(t, i, c.prefix().as_str())
    } else {
        None
    }
}

fn call_at(t: &Vec<SyntaxNode>, i: usize, c: &Scope) -> (r: Option<Call>)
    requires
        i < t.len(),
    ensures
        match r {
            Some(x) => rs_call(nodes(t@), i as int, c.view()) == Some(call_fact(x)),
            None => rs_call(nodes(t@), i as int, c.view()) is None,
        },
{
    let ghost v = nodes(t@);
    if !c.live || !kind_is(t, i, "call_expression") {
        return None;
    }
    let f = match child_by_field(t, i, "function") {
        Some(f) => f,
        None => return None,
    };
    let caller = match &c.caller {
        Some(x) => x.clone(),
        None => return None,
    };
    assert(v[f as int] == t@[f as int]@);
    if kind_is(t, f, "identifier") {
        match &t[f].text {
            Some(x) => {
                let r = Call { caller, callee: x.clone(), receiver: Vec::new() };
                assert(strings(r.receiver@) =~= Seq::<Seq<char>>::empty());
                Some(r)
            },
            None => None,
        }
    } else {
        None
    }
}

/// The facts a Rust tree yields. A list that is not one tree in preorder
/// yields nothing.
pub fn rust_analysis(t: &Vec<SyntaxNode>) -> (a: Analysis)
    ensures
        (a.symbols@.map_values(|x: Symbol| symbol_fact(x)), a.imports@.map_values(|x: Import| import_fact(x)), a.calls@.map_values(
            |x: Call| call_fact(x),
        )) == rust_facts(nodes(t@)),
        a.reexports@.len() == 0,
{
    let ghost v = nodes(t@);
    let mut a = Analysis::empty();
    assert(a.symbols@.map_values(|x: Symbol| symbol_fact(x)) =~= rs_walk(v, 0).0);
    assert(a.imports@.map_values(|x: Import| import_fact(x)) =~= rs_walk(v, 0).1);
    assert(a.calls@.map_values(|x: Call| call_fact(x)) =~= rs_walk(v, 0).2);
    if !is_shaped(t) {
        return a;
    }
    let mut path: Vec<usize> = Vec::new();
    let mut below: Vec<Scope> = Vec::new();
    let mut i: usize = 0;
    while i < t.len()
        invariant
            i <= t.len(),
            v == nodes(t@),
            shaped(v),
            spine(v, i as int, path@),
            below.len() == i,
            forall|k: int| 0 <= k < i ==> (#[trigger] below@[k]).view() == rs_below(v, k, rs_ctx(v, k)),
            (a.symbols@.map_values(|x: Symbol| symbol_fact(x)), a.imports@.map_values(|x: Import| import_fact(x)), a.calls@.map_values(
                |x: Call| call_fact(x),
            )) == rs_walk(v, i as int),
            a.reexports@.len() == 0,
        decreases t.len() - i,
    {
        let ctx = match parent_on(t, i, &path) {
            Some(p) => below[p].copy(),
            None => Scope { scope: None, caller: None, live: true, sel: Sel::Off },
        };
        proof {
            lemma_ctx_step(v, i as int, rs_root(), rs_step(v));
        }
        assert(ctx.view() == rs_ctx(v, i as int));
        let ghost s0 = a.symbols@.map_values(|x: Symbol| symbol_fact(x));
        let ghost m0 = a.imports@.map_values(|x: Import| import_fact(x));
        let ghost c0 = a.calls@.map_values(|x: Call| call_fact(x));
        let symbol = symbol_at(t, i, &ctx);
        let next = below_of(t, i, &ctx, &symbol);
        if let Some(s) = symbol {
            a.symbols.push(s);
            assert(a.symbols@.map_values(|x: Symbol| symbol_fact(x)) =~= s0.push(symbol_fact(s)));
        }
        if let Some(m) = import_at(t, i, &ctx) {
            a.imports.push(m);
            assert(a.imports@.map_values(|x: Import| import_fact(x)) =~= m0.push(import_fact(m)));
        }
        if let Some(x) = call_at(t, i, &ctx) {
            a.calls.push(x);
            assert(a.calls@.map_values(|x: Call| call_fact(x)) =~= c0.push(call_fact(x)));
        }
        below.push(next);
        step_spine(t, i, &mut path);
        i += 1;
    }
    a
}

/// Extracts Rust symbols, imports and calls from source, tolerating syntax
/// errors.
pub fn parse_rust(source: &str) -> (a: Analysis)
    ensures
        (a.symbols@.map_values(|x: Symbol| symbol_fact(x)), a.imports@.map_values(|x: Import| import_fact(x)), a.calls@.map_values(
            |x: Call| call_fact(x),
        )) == rust_facts(syntax_of(Grammar::Rust, source@)),
        a.reexports@.len() == 0,
{
    let t = syntax(Grammar::Rust, source);
    rust_analysis(&t)
}

} // verus!

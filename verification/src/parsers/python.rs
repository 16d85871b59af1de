//! Python's structural facts, read off its syntax tree: `def` and `class`
//! definitions (methods qualified by their class), `import` and
//! `from … import` statements, and calls made inside a function. A module
//! exports its top-level names that do not start with an underscore.

use vstd::prelude::*;

use crate::highlight::Grammar;
use crate::parsers::syntax::{
    call_fact, child_by_field, children, children_of, copy_text, ctx_at, field_child, field_text, import_fact,
    is_shaped, kind_is, lemma_ctx_step, lemma_field_child, lemma_present_push, line_no, line_of, nodes, opt_text,
    parent_on, present, qualified, qualify, shaped, spine, step_spine, symbol_fact, syntax, syntax_of,
    text_by_field, NodeView, SyntaxNode,
};
use crate::parsers::{Analysis, Call, Import, ImportedName, Symbol, SymbolKind};
use crate::text::{chars_of, strings};

verus! {

/// What a node's position in the tree means for the facts it yields: the
/// enclosing class, the enclosing function (its qualified name), whether it
/// sits at module level, and whether the walk reaches it at all (the
/// insides of an import statement are not walked).
pub struct PyCtx {
    pub scope: Option<Seq<char>>,
    pub caller: Option<Seq<char>>,
    pub module_level: bool,
    pub live: bool,
}

pub open spec fn py_root() -> PyCtx {
    PyCtx { scope: None, caller: None, module_level: true, live: true }
}

pub open spec fn is_import(k: Seq<char>) -> bool {
    k == "import_statement"@ || k == "import_from_statement"@
}

/// The context node `i`'s children see.
pub open spec fn py_below(t: Seq<NodeView>, i: int, c: PyCtx) -> PyCtx {
    let k = t[i].kind;
    let name = field_text(t, i, "name"@);
    PyCtx {
        scope: if k == "class_definition"@ && name is Some {
            name
        } else {
            c.scope
        },
        caller: if k == "function_definition"@ && name is Some {
            Some(qualified(SymbolKind::Function, c.scope, name->0))
        } else {
            c.caller
        },
        module_level: c.module_level && k != "function_definition"@ && k != "class_definition"@,
        live: c.live && !is_import(k),
    }
}

/// How a walk passes context down a Python tree.
pub open spec fn py_step(t: Seq<NodeView>) -> spec_fn(int, PyCtx) -> PyCtx {
    |k: int, c: PyCtx| py_below(t, k, c)
}

pub open spec fn py_ctx(t: Seq<NodeView>, i: int) -> PyCtx {
    ctx_at(t, i, py_root(), py_step(t))
}

/// The definition node `i` yields, if any.
pub open spec fn py_symbol(t: Seq<NodeView>, i: int, c: PyCtx) -> Option<(SymbolKind, Seq<char>, int, int, bool)> {
    let k = t[i].kind;
    let name = field_text(t, i, "name"@);
    if c.live && (k == "function_definition"@ || k == "class_definition"@) && name is Some {
        let n = name->0;
        let kind = if k == "function_definition"@ {
            SymbolKind::Function
        } else {
            SymbolKind::Class
        };
        Some(
            (
                kind,
                qualified(kind, c.scope, n),
                line_no(t[i].start_row),
                line_no(t[i].end_row),
                c.module_level && c.scope is None && !(n.len() > 0 && n[0] == '_'),
            ),
        )
    } else {
        None
    }
}

/// One name of `import a.b` / `import a.b as c`: the module, bound as the
/// dotted path itself or as the alias.
pub open spec fn module_import(t: Seq<NodeView>, j: int) -> Option<(Seq<char>, Seq<(Seq<char>, Seq<char>)>, Seq<Seq<char>>)> {
    let (module, bound) = if t[j].kind == "aliased_import"@ {
        (field_text(t, j, "name"@), field_text(t, j, "alias"@))
    } else {
        (t[j].text, t[j].text)
    };
    match module {
        Some(m) => Some(
            (
                m,
                Seq::empty(),
                match bound {
                    Some(b) => seq![b],
                    None => Seq::empty(),
                },
            ),
        ),
        None => None,
    }
}

/// One name of `from m import x` / `… import x as y`, as (local, imported).
pub open spec fn from_name(t: Seq<NodeView>, j: int) -> Option<(Seq<char>, Seq<char>)> {
    if t[j].kind == "aliased_import"@ {
        match (field_text(t, j, "name"@), field_text(t, j, "alias"@)) {
            (Some(imported), Some(local)) => Some((local, imported)),
            _ => None,
        }
    } else {
        match t[j].text {
            Some(x) => Some((x, x)),
            None => None,
        }
    }
}

/// The imports node `i` yields.
pub open spec fn py_imports(t: Seq<NodeView>, i: int, c: PyCtx) -> Seq<(Seq<char>, Seq<(Seq<char>, Seq<char>)>, Seq<Seq<char>>)> {
    if !c.live {
        Seq::empty()
    } else if t[i].kind == "import_statement"@ {
        present(children(t, i, Some("name"@)).map_values(|j: int| module_import(t, j)))
    } else if t[i].kind == "import_from_statement"@ {
        match field_text(t, i, "module_name"@) {
            Some(m) => seq![
                (m, present(children(t, i, Some("name"@)).map_values(|j: int| from_name(t, j))), Seq::empty()),
            ],
            None => Seq::empty(),
        }
    } else {
        Seq::empty()
    }
}

/// The receiver path an attribute chain ending at node `j` spells, inner
/// name first: `pkg.util` is `["pkg", "util"]`. Anything but identifiers
/// and attributes in the chain spells none.
pub open spec fn py_chain(t: Seq<NodeView>, j: int) -> Option<Seq<Seq<char>>>
    decreases t.len() - j,
{
    if j < 0 || j >= t.len() {
        None
    } else if t[j].kind == "identifier"@ {
        match t[j].text {
            Some(x) => Some(seq![x]),
            None => None,
        }
    } else if t[j].kind == "attribute"@ {
        match field_text(t, j, "attribute"@) {
            None => None,
            Some(a) => match field_child(t, j, "object"@) {
                None => Some(seq![a]),
                Some(k) => {
                    proof {
                        lemma_field_child(t, j, "object"@);
                    }
                    match py_chain(t, k) {
                        Some(r) => Some(r.push(a)),
                        None => None,
                    }
                },
            },
        }
    } else {
        None
    }
}

/// An attribute call target split into its final name and receiver:
/// `pkg.util.other` is `("other", ["pkg", "util"])`.
pub open spec fn attribute_parts(t: Seq<NodeView>, f: int) -> Option<(Seq<char>, Seq<Seq<char>>)> {
    match field_text(t, f, "attribute"@) {
        None => None,
        Some(name) => {
            let receiver = match field_child(t, f, "object"@) {
                None => Some(Seq::empty()),
                Some(k) => py_chain(t, k),
            };
            match receiver {
                Some(r) => Some((name, r)),
                None => None,
            }
        },
    }
}

/// The call node `i` yields, if any: only inside a function.
pub open spec fn py_call(t: Seq<NodeView>, i: int, c: PyCtx) -> Option<(Seq<char>, Seq<char>, Seq<Seq<char>>)> {
    if c.live && t[i].kind == "call"@ {
        match (field_child(t, i, "function"@), c.caller) {
            (Some(f), Some(caller)) => if t[f].kind == "identifier"@ {
                match t[f].text {
                    Some(x) => Some((caller, x, Seq::empty())),
                    None => None,
                }
            } else if t[f].kind == "attribute"@ {
                match attribute_parts(t, f) {
                    Some((name, receiver)) => Some((caller, name, receiver)),
                    None => None,
                }
            } else {
                None
            },
            _ => None,
        }
    } else {
        None
    }
}

/// The facts of the first `n` nodes, in preorder: definitions, imports,
/// calls.
pub open spec fn py_walk(t: Seq<NodeView>, n: int) -> (
    Seq<(SymbolKind, Seq<char>, int, int, bool)>,
    Seq<(Seq<char>, Seq<(Seq<char>, Seq<char>)>, Seq<Seq<char>>)>,
    Seq<(Seq<char>, Seq<char>, Seq<Seq<char>>)>,
)
    decreases n,
{
    if n <= 0 {
        (Seq::empty(), Seq::empty(), Seq::empty())
    } else {
        let (s, m, c) = py_walk(t, n - 1);
        let x = py_ctx(t, n - 1);
        (
            match py_symbol(t, n - 1, x) {
                Some(f) => s.push(f),
                None => s,
            },
            m + py_imports(t, n - 1, x),
            match py_call(t, n - 1, x) {
                Some(f) => c.push(f),
                None => c,
            },
        )
    }
}

/// Everything a Python tree yields; a list that is not one tree yields
/// nothing.
pub open spec fn python_facts(t: Seq<NodeView>) -> (
    Seq<(SymbolKind, Seq<char>, int, int, bool)>,
    Seq<(Seq<char>, Seq<(Seq<char>, Seq<char>)>, Seq<Seq<char>>)>,
    Seq<(Seq<char>, Seq<char>, Seq<Seq<char>>)>,
) {
    if shaped(t) {
        py_walk(t, t.len() as int)
    } else {
        (Seq::empty(), Seq::empty(), Seq::empty())
    }
}

/// The facts an analysis holds.
pub open spec fn facts(a: Analysis) -> (
    Seq<(SymbolKind, Seq<char>, int, int, bool)>,
    Seq<(Seq<char>, Seq<(Seq<char>, Seq<char>)>, Seq<Seq<char>>)>,
    Seq<(Seq<char>, Seq<char>, Seq<Seq<char>>)>,
) {
    (
        a.symbols@.map_values(|s: Symbol| symbol_fact(s)),
        a.imports@.map_values(|m: Import| import_fact(m)),
        a.calls@.map_values(|c: Call| call_fact(c)),
    )
}

struct Scope {
    scope: Option<String>,
    caller: Option<String>,
    module_level: bool,
    live: bool,
}

impl Scope {
    spec fn view(&self) -> PyCtx {
        PyCtx {
            scope: opt_text(self.scope),
            caller: opt_text(self.caller),
            module_level: self.module_level,
            live: self.live,
        }
    }

    fn copy(&self) -> (r: Scope)
        ensures
            r.view() == self.view(),
    {
        Scope {
            scope: copy_text(&self.scope),
            caller: copy_text(&self.caller),
            module_level: self.module_level,
            live: self.live,
        }
    }
}

fn below_of(t: &Vec<SyntaxNode>, i: usize, c: &Scope) -> (r: Scope)
    requires
        i < t.len(),
    ensures
        r.view() == py_below(nodes(t@), i as int, c.view()),
{
    let func = kind_is(t, i, "function_definition");
    let class = kind_is(t, i, "class_definition");
    let importing = kind_is(t, i, "import_statement") || kind_is(t, i, "import_from_statement");
    let name = if func || class {
        text_by_field(t, i, "name")
    } else {
        None
    };
    let scope = match &name {
        Some(n) if class => Some(n.clone()),
        _ => copy_text(&c.scope),
    };
    let caller = match &name {
        Some(n) if func => Some(qualify(SymbolKind::Function, &c.scope, n.as_str())),
        _ => copy_text(&c.caller),
    };
    Scope { scope, caller, module_level: c.module_level && !func && !class, live: c.live && !importing }
}

fn symbol_at(t: &Vec<SyntaxNode>, i: usize, c: &Scope) -> (r: Option<Symbol>)
    requires
        i < t.len(),
    ensures
        match r {
            Some(s) => py_symbol(nodes(t@), i as int, c.view()) == Some(symbol_fact(s)),
            None => py_symbol(nodes(t@), i as int, c.view()) is None,
        },
{
    let ghost v = nodes(t@);
    if !c.live {
        return None;
    }
    let func = kind_is(t, i, "function_definition");
    let class = kind_is(t, i, "class_definition");
    if !func && !class {
        return None;
    }
    match text_by_field(t, i, "name") {
        None => None,
        Some(name) => {
            let kind = if func {
                SymbolKind::Function
            } else {
                SymbolKind::Class
            };
            let cs = chars_of(name.as_str());
            let private = cs.len() > 0 && cs[0] == '_';
            let s = Symbol {
                kind,
                name: qualify(kind, &c.scope, name.as_str()),
                start_line: line_of(t[i].start_row),
                end_line: line_of(t[i].end_row),
                exported: c.module_level && c.scope.is_none() && !private,
            };
            assert(v[i as int] == t@[i as int]@);
            Some(s)
        },
    }
}

fn module_import_at(t: &Vec<SyntaxNode>, j: usize) -> (r: Option<Import>)
    requires
        j < t.len(),
    ensures
        match r {
            Some(m) => module_import(nodes(t@), j as int) == Some(import_fact(m)),
            None => module_import(nodes(t@), j as int) is None,
        },
{
    let ghost v = nodes(t@);
    assert(v[j as int] == t@[j as int]@);
    let (module, bound) = if kind_is(t, j, "aliased_import") {
        (text_by_field(t, j, "name"), text_by_field(t, j, "alias"))
    } else {
        (copy_text(&t[j].text), copy_text(&t[j].text))
    };
    match module {
        Some(m) => {
            let mut namespaces: Vec<String> = Vec::new();
            if let Some(b) = bound {
                namespaces.push(b);
            }
            let r = Import { specifier: m, names: Vec::new(), namespaces };
            assert(import_fact(r).1 =~= Seq::<(Seq<char>, Seq<char>)>::empty());
            assert(strings(r.namespaces@) =~= (module_import(v, j as int)->0).2);
            Some(r)
        },
        None => None,
    }
}

fn from_name_at(t: &Vec<SyntaxNode>, j: usize) -> (r: Option<ImportedName>)
    requires
        j < t.len(),
    ensures
        match r {
            Some(n) => from_name(nodes(t@), j as int) == Some((n.local@, n.imported@)),
            None => from_name(nodes(t@), j as int) is None,
        },
{
    let ghost v = nodes(t@);
    assert(v[j as int] == t@[j as int]@);
    if kind_is(t, j, "aliased_import") {
        match (text_by_field(t, j, "name"), text_by_field(t, j, "alias")) {
            (Some(imported), Some(local)) => Some(ImportedName { local, imported }),
            _ => None,
        }
    } else {
        match &t[j].text {
            Some(x) => Some(ImportedName { local: x.clone(), imported: x.clone() }),
            None => None,
        }
    }
}

fn imports_at(t: &Vec<SyntaxNode>, i: usize, c: &Scope, out: &mut Vec<Import>)
    requires
        i < t.len(),
    ensures
        final(out)@.map_values(|m: Import| import_fact(m)) == old(out)@.map_values(|m: Import| import_fact(m))
            + py_imports(nodes(t@), i as int, c.view()),
{
    let ghost v = nodes(t@);
    let ghost start = old(out)@.map_values(|m: Import| import_fact(m));
    if !c.live {
        assert(start + py_imports(v, i as int, c.view()) =~= start);
        return;
    }
    if kind_is(t, i, "import_statement") {
        let js = children_of(t, i, Some("name"));
        let ghost ks = js@.map_values(|k: usize| k as int);
        let ghost f = |j: int| module_import(v, j);
        let mut k: usize = 0;
        while k < js.len()
            invariant
                k <= js.len(),
                v == nodes(t@),
                ks == js@.map_values(|k: usize| k as int),
                forall|q: int| 0 <= q < js.len() ==> i < #[trigger] js@[q] < t.len(),
                forall|j: int| #[trigger] f(j) == module_import(v, j),
                out@.map_values(|m: Import| import_fact(m)) == start + present(ks.take(k as int).map_values(f)),
            decreases js.len() - k,
        {
            let ghost before = out@.map_values(|m: Import| import_fact(m));
            let o = module_import_at(t, js[k]);
            proof {
                assert(ks.take(k + 1).map_values(f) =~= ks.take(k as int).map_values(f).push(f(ks[k as int])));
                lemma_present_push(ks.take(k as int).map_values(f), f(ks[k as int]));
            }
            assert(ks[k as int] == js@[k as int] as int);
            if let Some(m) = o {
                out.push(m);
                assert(out@.map_values(|m: Import| import_fact(m)) =~= before.push(import_fact(m)));
                assert(start + present(ks.take(k as int).map_values(f)).push(import_fact(m)) =~= (start + present(ks.take(k as int).map_values(f))).push(import_fact(m)));
            }
            k += 1;
        }
        assert(ks.take(js.len() as int) =~= ks);
        assert(py_imports(v, i as int, c.view()) == present(ks.map_values(f)));
        return;
    }
    if kind_is(t, i, "import_from_statement") {
        if let Some(m) = text_by_field(t, i, "module_name") {
            let js = children_of(t, i, Some("name"));
            let ghost ks = js@.map_values(|k: usize| k as int);
            let ghost f = |j: int| from_name(v, j);
            let mut names: Vec<ImportedName> = Vec::new();
            let mut k: usize = 0;
            while k < js.len()
                invariant
                    k <= js.len(),
                    v == nodes(t@),
                    ks == js@.map_values(|k: usize| k as int),
                    forall|q: int| 0 <= q < js.len() ==> i < #[trigger] js@[q] < t.len(),
                    forall|j: int| #[trigger] f(j) == from_name(v, j),
                    names@.map_values(|n: ImportedName| (n.local@, n.imported@)) == present(ks.take(k as int).map_values(f)),
                decreases js.len() - k,
            {
                let ghost before = names@.map_values(|n: ImportedName| (n.local@, n.imported@));
                let o = from_name_at(t, js[k]);
                proof {
                    assert(ks.take(k + 1).map_values(f) =~= ks.take(k as int).map_values(f).push(f(ks[k as int])));
                    lemma_present_push(ks.take(k as int).map_values(f), f(ks[k as int]));
                }
                assert(ks[k as int] == js@[k as int] as int);
                if let Some(n) = o {
                    names.push(n);
                    assert(names@.map_values(|n: ImportedName| (n.local@, n.imported@)) =~= before.push((n.local@, n.imported@)));
                }
                k += 1;
            }
            assert(ks.take(js.len() as int) =~= ks);
            let r = Import { specifier: m, names, namespaces: Vec::new() };
            assert(r.names@.map_values(|n: ImportedName| crate::parsers::syntax::name_pair(n)) =~= names@.map_values(|n: ImportedName| (n.local@, n.imported@)));
            assert(strings(r.namespaces@) =~= Seq::<Seq<char>>::empty());
            let ghost before = out@.map_values(|m: Import| import_fact(m));
            out.push(r);
            assert(out@.map_values(|m: Import| import_fact(m)) =~= before.push(import_fact(r)));
            assert(start + py_imports(v, i as int, c.view()) =~= before.push(import_fact(r)));
        } else {
            assert(start + py_imports(v, i as int, c.view()) =~= start);
        }
        return;
    }
    assert(start + py_imports(v, i as int, c.view()) =~= start);
}

pub open spec fn opt_strings(o: Option<Vec<String>>) -> Option<Seq<Seq<char>>> {
    match o {
        Some(v) => Some(strings(v@)),
        None => None,
    }
}

fn chain_at(t: &Vec<SyntaxNode>, j: usize) -> (r: Option<Vec<String>>)
    requires
        j < t.len(),
    ensures
        opt_strings(r) == py_chain(nodes(t@), j as int),
    decreases t.len() - j,
{
    let ghost v = nodes(t@);
    assert(v[j as int] == t@[j as int]@);
    if kind_is(t, j, "identifier") {
        match &t[j].text {
            Some(x) => {
                let r = vec![x.clone()];
                assert(strings(r@) =~= seq![x@]);
                Some(r)
            },
            None => None,
        }
    } else if kind_is(t, j, "attribute") {
        match text_by_field(t, j, "attribute") {
            None => None,
            Some(a) => match child_by_field(t, j, "object") {
                None => {
                    let r = vec![a];
                    assert(strings(r@) =~= seq![r@[0]@]);
                    Some(r)
                },
                Some(k) => match chain_at(t, k) {
                    Some(mut r) => {
                        let ghost before = strings(r@);
                        r.push(a);
                        assert(strings(r@) =~= before.push(r@[r.len() - 1]@));
                        Some(r)
                    },
                    None => None,
                },
            },
        }
    } else {
        None
    }
}

fn call_at(t: &Vec<SyntaxNode>, i: usize, c: &Scope) -> (r: Option<Call>)
    requires
        i < t.len(),
    ensures
        match r {
            Some(x) => py_call(nodes(t@), i as int, c.view()) == Some(call_fact(x)),
            None => py_call(nodes(t@), i as int, c.view()) is None,
        },
{
    let ghost v = nodes(t@);
    if !c.live || !kind_is(t, i, "call") {
        return None;
    }
    let f = match child_by_field(t, i, "function") {
        Some(f) => f,
        None => return None,
    };
    let caller = match &c.caller {
        Some(x) => x.clone(),
        None => return None,
    };
    assert(v[f as int] == t@[f as int]@);
    if kind_is(t, f, "identifier") {
        match &t[f].text {
            Some(x) => {
                let r = Call { caller, callee: x.clone(), receiver: Vec::new() };
                assert(strings(r.receiver@) =~= Seq::<Seq<char>>::empty());
                Some(r)
            },
            None => None,
        }
    } else if kind_is(t, f, "attribute") {
        let name = match text_by_field(t, f, "attribute") {
            Some(n) => n,
            None => return None,
        };
        let receiver = match child_by_field(t, f, "object") {
            None => Some(Vec::new()),
            Some(k) => chain_at(t, k),
        };
        match receiver {
            Some(receiver) => {
                let r = Call { caller, callee: name, receiver };
                proof {
                    if field_child(v, f as int, "object"@) is None {
                        assert(strings(r.receiver@) =~= Seq::<Seq<char>>::empty());
                    }
                }
                Some(r)
            },
            None => None,
        }
    } else {
        None
    }
}

/// The facts a Python tree yields. A list that is not one tree in preorder
/// yields nothing.
pub fn python_analysis(t: &Vec<SyntaxNode>) -> (a: Analysis)
    ensures
        facts(a) == python_facts(nodes(t@)),
        a.reexports@.len() == 0,
{
    let mut a = Analysis::empty();
    if !is_shaped(t) {
        assert(facts(a).0 =~= Seq::empty());
        assert(facts(a).1 =~= Seq::empty());
        assert(facts(a).2 =~= Seq::empty());
        return a;
    }
    let ghost v = nodes(t@);
    let mut path: Vec<usize> = Vec::new();
    let mut below: Vec<Scope> = Vec::new();
    let mut i: usize = 0;
    assert(facts(a).0 =~= py_walk(v, 0).0);
    assert(facts(a).1 =~= py_walk(v, 0).1);
    assert(facts(a).2 =~= py_walk(v, 0).2);
    while i < t.len()
        invariant
            i <= t.len(),
            v == nodes(t@),
            shaped(v),
            spine(v, i as int, path@),
            below.len() == i,
            forall|k: int| 0 <= k < i ==> (#[trigger] below@[k]).view() == py_below(v, k, py_ctx(v, k)),
            facts(a) == py_walk(v, i as int),
            a.reexports@.len() == 0,
        decreases t.len() - i,
    {
        let ctx = match parent_on(t, i, &path) {
            Some(p) => below[p].copy(),
            None => Scope { scope: None, caller: None, module_level: true, live: true },
        };
        proof {
            lemma_ctx_step(v, i as int, py_root(), py_step(v));
        }
        let ghost before = facts(a);
        if let Some(s) = symbol_at(t, i, &ctx) {
            a.symbols.push(s);
        }
        imports_at(t, i, &ctx, &mut a.imports);
        if let Some(x) = call_at(t, i, &ctx) {
            a.calls.push(x);
        }
        proof {
            assert(facts(a).0 =~= py_walk(v, i + 1).0);
            assert(facts(a).1 =~= py_walk(v, i + 1).1);
            assert(facts(a).2 =~= py_walk(v, i + 1).2);
        }
        below.push(below_of(t, i, &ctx));
        step_spine(t, i, &mut path);
        i += 1;
    }
    a
}

/// Extracts Python symbols, imports and calls from source, tolerating
/// syntax errors: whatever the parser recovers is read.
pub fn parse_python(source: &str) -> (a: Analysis)
    ensures
        facts(a) == python_facts(syntax_of(Grammar::Python, source@)),
        a.reexports@.len() == 0,
{
    let t = syntax(Grammar::Python, source);
    python_analysis(&t)
}

} // verus!

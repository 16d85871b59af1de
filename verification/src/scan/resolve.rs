//! Cross-file resolution: import statements and calls turned into
//! `imports` and `calls` edges between nodes the map holds. Each file's
//! parser answers where its specifiers and module names land before this
//! runs; what is decided here is which of those answers become edges. An
//! edge that cannot reach a node inside the map is dropped, never emitted
//! dangling.

use vstd::prelude::*;

use crate::map::{file_id, symbol_id, Edge, EdgeKind, NodeId, NodeKind};
use crate::parsers::{Call, Import, Reexport, SourceLanguage};
use crate::scan::{directory_of, directory_of_path, edge_view};
use crate::text::{joined, listed, strings};

verus! {

/// Where one import statement's parts land, as its file's parser answered:
/// the specifier's own target, and each bound name's module (when the name
/// is a module in its own right).
pub struct ImportTargets {
    pub specifier: Option<String>,
    pub names: Vec<Option<String>>,
}

/// What one file contributes to cross-file resolution.
pub struct FileFacts {
    pub path: String,
    /// The file's language, when a parser handles it.
    pub language: Option<SourceLanguage>,
    pub imports: Vec<Import>,
    pub calls: Vec<Call>,
    /// Final (post-dedup) names of this file's function nodes.
    pub functions: Vec<String>,
    /// The subset of `functions` this file exports.
    pub exported_functions: Vec<String>,
    /// Export-clause indirections: aliases and one-level re-exports.
    pub reexports: Vec<Reexport>,
    /// Per import statement, where its parts land.
    pub import_targets: Vec<ImportTargets>,
    /// Per re-export, the file its specifier lands on.
    pub reexport_targets: Vec<Option<String>>,
    /// Per call, where the parser resolves its receiver path outright
    /// (only a language whose receivers are never values answers).
    pub receiver_targets: Vec<Option<String>>,
}

pub open spec fn opt_text(o: Option<String>) -> Option<Seq<char>> {
    match o {
        Some(s) => Some(s@),
        None => None,
    }
}

/// Entry `i` of a list of answers; an answer that was not given is none.
pub open spec fn answer_at(v: Seq<Option<String>>, i: int) -> Option<Seq<char>> {
    if 0 <= i < v.len() {
        opt_text(v[i])
    } else {
        None
    }
}

/// Where import `i` of `f` lands as a whole.
pub open spec fn specifier_target(f: FileFacts, i: int) -> Option<Seq<char>> {
    if 0 <= i < f.import_targets.len() {
        opt_text(f.import_targets[i].specifier)
    } else {
        None
    }
}

/// Where bound name `j` of import `i` of `f` lands as a module.
pub open spec fn name_module(f: FileFacts, i: int, j: int) -> Option<Seq<char>> {
    if 0 <= i < f.import_targets.len() {
        answer_at(f.import_targets[i].names@, j)
    } else {
        None
    }
}

/// Each value once, where it first appears.
pub open spec fn distinct<T>(s: Seq<T>) -> Seq<T>
    decreases s.len(),
{
    if s.len() == 0 {
        s
    } else if distinct(s.drop_last()).contains(s.last()) {
        distinct(s.drop_last())
    } else {
        distinct(s.drop_last()).push(s.last())
    }
}

// ---------------------------------------------------------------------------
// Import edges.

/// The files the first `j` bound names of import `i` reach as modules.
pub open spec fn module_hits(f: FileFacts, i: int, j: int) -> Seq<Seq<char>>
    decreases j,
{
    if j <= 0 {
        Seq::empty()
    } else {
        module_hits(f, i, j - 1) + match name_module(f, i, j - 1) {
            Some(m) => seq![m],
            None => Seq::<Seq<char>>::empty(),
        }
    }
}

/// Whether one of the first `j` bound names of import `i` is no module,
/// so the specifier must answer for it.
pub open spec fn misses_module(f: FileFacts, i: int, j: int) -> bool {
    exists|k: int| 0 <= k < j && #[trigger] name_module(f, i, k) is None
}

/// Every file one import statement reaches: each bound name that is a
/// module in its own right, then the specifier's own target when a name
/// is not a module or the statement binds no names at all.
pub open spec fn import_targets_of(f: FileFacts, i: int) -> Seq<Seq<char>> {
    let n = f.imports[i].names.len() as int;
    module_hits(f, i, n) + if (n == 0 || misses_module(f, i, n)) && specifier_target(f, i) is Some {
        seq![specifier_target(f, i)->0]
    } else {
        Seq::<Seq<char>>::empty()
    }
}

/// The `imports` edges of the first `n` imports of `f`, repeats included.
pub open spec fn file_import_edges(f: FileFacts, n: int) -> Seq<(Seq<char>, Seq<char>)>
    decreases n,
{
    if n <= 0 {
        Seq::empty()
    } else {
        file_import_edges(f, n - 1) + import_targets_of(f, n - 1).map_values(
            |t: Seq<char>| (file_id(f.path@), file_id(t)),
        )
    }
}

/// The `imports` edges of the first `n` files, repeats included; a file
/// no parser handles resolves nothing.
pub open spec fn import_edges(facts: Seq<FileFacts>, n: int) -> Seq<(Seq<char>, Seq<char>)>
    decreases n,
{
    if n <= 0 {
        Seq::empty()
    } else {
        import_edges(facts, n - 1) + if facts[n - 1].language is Some {
            file_import_edges(facts[n - 1], facts[n - 1].imports.len() as int)
        } else {
            Seq::empty()
        }
    }
}

pub open spec fn pair_of(e: Edge) -> (Seq<char>, Seq<char>) {
    (e.source.text(), e.target.text())
}

fn copy_text(s: &String) -> (r: String)
    ensures
        r@ == s@,
{
    s.clone()
}

pub open spec fn pairs(v: Seq<Edge>) -> Seq<(Seq<char>, Seq<char>)> {
    v.map_values(|e: Edge| pair_of(e))
}

/// Appends the edge `source → target` of `kind` unless that pair is
/// already there.
fn push_new(out: &mut Vec<Edge>, source: NodeId, target: NodeId, kind: EdgeKind)
    requires
        forall|k: int| 0 <= k < old(out).len() ==> (#[trigger] old(out)[k]).kind == kind,
    ensures
        pairs(final(out)@) == if pairs(old(out)@).contains((source.text(), target.text())) {
            pairs(old(out)@)
        } else {
            pairs(old(out)@).push((source.text(), target.text()))
        },
        forall|k: int| 0 <= k < final(out).len() ==> (#[trigger] final(out)[k]).kind == kind,
{
    let ghost x = (source.text(), target.text());
    let mut k: usize = 0;
    while k < out.len()
        invariant
            k <= out.len(),
            x == (source.text(), target.text()),
            out@ == old(out)@,
            forall|j: int| 0 <= j < out.len() ==> (#[trigger] out@[j]).kind == kind,
            forall|j: int| 0 <= j < k ==> pair_of(#[trigger] out@[j]) != x,
        decreases out.len() - k,
    {
        let same_source = out[k].source.0 == source.0;
        let same_target = out[k].target.0 == target.0;
        assert(same_source == (out@[k as int].source.text() == source.text()));
        assert(same_target == (out@[k as int].target.text() == target.text()));
        if same_source && same_target {
            assert(pairs(out@)[k as int] == x);
            return;
        }
        k += 1;
    }
    assert(!pairs(out@).contains(x)) by {
        if pairs(out@).contains(x) {
            let j = choose|j: int| 0 <= j < pairs(out@).len() && pairs(out@)[j] == x;
            assert(pair_of(out@[j]) == x);
        }
    }
    let ghost before = out@;
    out.push(Edge::new(source, target, kind));
    assert(pairs(out@) =~= pairs(before).push(x));
}

/// Appending to a list kept free of repeats keeps it the list of first
/// appearances.
proof fn lemma_distinct_push<T>(s: Seq<T>, x: T)
    ensures
        distinct(s.push(x)) == if distinct(s).contains(x) {
            distinct(s)
        } else {
            distinct(s).push(x)
        },
{
    assert(s.push(x).drop_last() =~= s);
}

fn copy_answer(o: &Option<String>) -> (r: Option<String>)
    ensures
        opt_text(r) == opt_text(*o),
{
    match o {
        Some(s) => Some(s.clone()),
        None => None,
    }
}

fn specifier_target_of(f: &FileFacts, i: usize) -> (r: Option<String>)
    ensures
        opt_text(r) == specifier_target(*f, i as int),
{
    if i < f.import_targets.len() {
        copy_answer(&f.import_targets[i].specifier)
    } else {
        None
    }
}

fn name_module_of(f: &FileFacts, i: usize, j: usize) -> (r: Option<String>)
    ensures
        opt_text(r) == name_module(*f, i as int, j as int),
{
    if i < f.import_targets.len() && j < f.import_targets[i].names.len() {
        copy_answer(&f.import_targets[i].names[j])
    } else {
        None
    }
}

/// The files import `i` of `f` reaches, in order.
fn import_targets(f: &FileFacts, i: usize) -> (r: Vec<String>)
    requires
        i < f.imports.len(),
    ensures
        strings(r@) == import_targets_of(*f, i as int),
{
    let n = f.imports[i].names.len();
    let mut r: Vec<String> = Vec::new();
    let mut missing = false;
    let mut j: usize = 0;
    while j < n
        invariant
            j <= n,
            n == f.imports[i as int].names.len(),
            strings(r@) == module_hits(*f, i as int, j as int),
            missing == misses_module(*f, i as int, j as int),
        decreases n - j,
    {
        let ghost before = r@;
        match name_module_of(f, i, j) {
            Some(m) => {
                r.push(m);
                assert(strings(r@) =~= strings(before).push(m@));
            },
            None => {
                missing = true;
            },
        }
        proof {
            assert(misses_module(*f, i as int, j + 1) == (misses_module(*f, i as int, j as int) || name_module(*f, i as int, j as int) is None)) by {
                if misses_module(*f, i as int, j + 1) && !misses_module(*f, i as int, j as int) {
                    let k = choose|k: int| 0 <= k < j + 1 && #[trigger] name_module(*f, i as int, k) is None;
                    assert(k == j);
                }
                if name_module(*f, i as int, j as int) is None {
                    assert(0 <= j < j + 1 && name_module(*f, i as int, j as int) is None);
                }
            }
            assert(strings(r@) =~= module_hits(*f, i as int, j + 1));
        }
        j += 1;
    }
    if n == 0 || missing {
        match specifier_target_of(f, i) {
            Some(t) => {
                let ghost before = r@;
                r.push(t);
                assert(strings(r@) =~= strings(before).push(t@));
            },
            None => {},
        }
    }
    proof {
        assert(strings(r@) =~= import_targets_of(*f, i as int));
    }
    r
}

/// The `imports` edges between file nodes, each pair once, where the
/// files (in order) and their imports first reach it. A file no parser
/// handles contributes none.
pub fn resolve_imports(facts: &Vec<FileFacts>) -> (edges: Vec<Edge>)
    ensures
        pairs(edges@) == distinct(import_edges(facts@, facts.len() as int)),
        forall|k: int| 0 <= k < edges.len() ==> (#[trigger] edges[k]).kind == EdgeKind::Imports,
{
    let mut out: Vec<Edge> = Vec::new();
    let mut fi: usize = 0;
    while fi < facts.len()
        invariant
            fi <= facts.len(),
            pairs(out@) == distinct(import_edges(facts@, fi as int)),
            forall|k: int| 0 <= k < out.len() ==> (#[trigger] out[k]).kind == EdgeKind::Imports,
        decreases facts.len() - fi,
    {
        let f = &facts[fi];
        let ghost base = import_edges(facts@, fi as int);
        if f.language.is_some() {
            let mut i: usize = 0;
            while i < f.imports.len()
                invariant
                    i <= f.imports.len(),
                    f == facts@[fi as int],
                    base == import_edges(facts@, fi as int),
                    pairs(out@) == distinct(base + file_import_edges(*f, i as int)),
                    forall|k: int| 0 <= k < out.len() ==> (#[trigger] out[k]).kind == EdgeKind::Imports,
                decreases f.imports.len() - i,
            {
                let targets = import_targets(f, i);
                let ghost done = base + file_import_edges(*f, i as int);
                let ghost mapped = strings(targets@).map_values(|t: Seq<char>| (file_id(f.path@), file_id(t)));
                let mut j: usize = 0;
                while j < targets.len()
                    invariant
                        j <= targets.len(),
                        mapped == strings(targets@).map_values(|t: Seq<char>| (file_id(f.path@), file_id(t))),
                        pairs(out@) == distinct(done + mapped.take(j as int)),
                        forall|k: int| 0 <= k < out.len() ==> (#[trigger] out[k]).kind == EdgeKind::Imports,
                    decreases targets.len() - j,
                {
                    let source = NodeId::file(f.path.as_str());
                    let target = NodeId::file(targets[j].as_str());
                    proof {
                        assert(mapped[j as int] == (source.text(), target.text()));
                        assert(done + mapped.take(j + 1) =~= (done + mapped.take(j as int)).push(mapped[j as int]));
                        lemma_distinct_push(done + mapped.take(j as int), mapped[j as int]);
                    }
                    push_new(&mut out, source, target, EdgeKind::Imports);
                    j += 1;
                }
                proof {
                    assert(mapped.take(j as int) =~= mapped);
                    assert(base + file_import_edges(*f, i + 1) =~= done + mapped);
                }
                i += 1;
            }
            proof {
                assert(import_edges(facts@, fi + 1) =~= base + file_import_edges(*f, f.imports.len() as int));
            }
        } else {
            proof {
                assert(import_edges(facts@, fi + 1) =~= base);
            }
        }
        fi += 1;
    }
    out
}

// ---------------------------------------------------------------------------
// Call edges.

/// The module bindings of import `i`'s first `k` namespace names: each is
/// bound to wherever the specifier lands.
pub open spec fn namespace_binds(f: FileFacts, i: int, k: int) -> Seq<(Seq<char>, Seq<char>)>
    decreases k,
{
    if k <= 0 {
        Seq::empty()
    } else {
        namespace_binds(f, i, k - 1) + match specifier_target(f, i) {
            Some(t) => seq![(f.imports[i].namespaces[k - 1]@, t)],
            None => Seq::<(Seq<char>, Seq<char>)>::empty(),
        }
    }
}

/// The module bindings of import `i`'s first `k` bound names: each that is
/// a module in its own right is bound to it.
pub open spec fn name_binds(f: FileFacts, i: int, k: int) -> Seq<(Seq<char>, Seq<char>)>
    decreases k,
{
    if k <= 0 {
        Seq::empty()
    } else {
        name_binds(f, i, k - 1) + match name_module(f, i, k - 1) {
            Some(m) => seq![(f.imports[i].names[k - 1].local@, m)],
            None => Seq::<(Seq<char>, Seq<char>)>::empty(),
        }
    }
}

/// Every (local name, module file) binding of the first `n` imports of
/// `f`, in source order; a later binding shadows an earlier one.
pub open spec fn module_binds(f: FileFacts, n: int) -> Seq<(Seq<char>, Seq<char>)>
    decreases n,
{
    if n <= 0 {
        Seq::empty()
    } else {
        module_binds(f, n - 1) + namespace_binds(f, n - 1, f.imports[n - 1].namespaces.len() as int) + name_binds(
            f,
            n - 1,
            f.imports[n - 1].names.len() as int,
        )
    }
}

/// What `key` is bound to: the last binding of it.
pub open spec fn bound(binds: Seq<(Seq<char>, Seq<char>)>, key: Seq<char>) -> Option<Seq<char>>
    decreases binds.len(),
{
    if binds.len() == 0 {
        None
    } else if binds.last().0 == key {
        Some(binds.last().1)
    } else {
        bound(binds.drop_last(), key)
    }
}

/// The call candidates of import `i`'s first `k` bound names: for each,
/// (local name, (file, name as exported there)) — the name's own module
/// first, then the specifier's target.
pub open spec fn name_candidates(f: FileFacts, i: int, k: int) -> Seq<(Seq<char>, (Seq<char>, Seq<char>))>
    decreases k,
{
    if k <= 0 {
        Seq::empty()
    } else {
        let name = f.imports[i].names[k - 1];
        name_candidates(f, i, k - 1) + match name_module(f, i, k - 1) {
            Some(m) => seq![(name.local@, (m, name.imported@))],
            None => Seq::<(Seq<char>, (Seq<char>, Seq<char>))>::empty(),
        } + match specifier_target(f, i) {
            Some(t) => seq![(name.local@, (t, name.imported@))],
            None => Seq::<(Seq<char>, (Seq<char>, Seq<char>))>::empty(),
        }
    }
}

/// Every call candidate of the first `n` imports of `f`, in import order.
pub open spec fn candidates(f: FileFacts, n: int) -> Seq<(Seq<char>, (Seq<char>, Seq<char>))>
    decreases n,
{
    if n <= 0 {
        Seq::empty()
    } else {
        candidates(f, n - 1) + name_candidates(f, n - 1, f.imports[n - 1].names.len() as int)
    }
}

/// The file whose facts `path` names (the last of that path).
pub open spec fn fact_at(facts: Seq<FileFacts>, path: Seq<char>) -> Option<int>
    decreases facts.len(),
{
    if facts.len() == 0 {
        None
    } else if facts.last().path@ == path {
        Some(facts.len() - 1)
    } else {
        fact_at(facts.drop_last(), path)
    }
}

/// The first export clause publishing `name`.
pub open spec fn first_reexport(rs: Seq<Reexport>, name: Seq<char>) -> Option<int>
    decreases rs.len(),
{
    if rs.len() == 0 {
        None
    } else if rs[0].exported@ == name {
        Some(0)
    } else {
        match first_reexport(rs.drop_first(), name) {
            Some(k) => Some(k + 1),
            None => None,
        }
    }
}

/// Where an import of `name` from `file` actually lands: the file's own
/// exported function; an aliased local its export clause publishes; or,
/// one level deep, the function a re-export forwards to, which the
/// defining file must export itself.
pub open spec fn exported_target(facts: Seq<FileFacts>, file: Seq<char>, name: Seq<char>) -> Option<(Seq<char>, Seq<char>)> {
    match fact_at(facts, file) {
        None => None,
        Some(t) => {
            let target = facts[t];
            if listed(target.exported_functions@, name) {
                Some((file, name))
            } else {
                match first_reexport(target.reexports@, name) {
                    None => None,
                    Some(ri) => {
                        let r = target.reexports[ri];
                        match r.specifier {
                            None => if listed(target.exported_functions@, r.local@) {
                                Some((file, r.local@))
                            } else {
                                None
                            },
                            Some(_) => match answer_at(target.reexport_targets@, ri) {
                                None => None,
                                Some(d) => match fact_at(facts, d) {
                                    Some(u) => if listed(facts[u].exported_functions@, r.local@) {
                                        Some((d, r.local@))
                                    } else {
                                        None
                                    },
                                    None => None,
                                },
                            },
                        }
                    },
                }
            }
        },
    }
}

/// How a language writes a module path: `::` in Rust, `.` elsewhere.
pub open spec fn module_separator(l: Option<SourceLanguage>) -> Seq<char> {
    if l == Some(SourceLanguage::Rust) {
        "::"@
    } else {
        "."@
    }
}

/// The receiver of call `c` written back out as a module path.
pub open spec fn receiver_path(f: FileFacts, c: int) -> Seq<char> {
    joined(strings(f.calls[c].receiver@), module_separator(f.language))
}

/// The file a qualified call's receiver names as a module: one this file's
/// imports bound under that path, else what the parser resolves it to
/// outright.
pub open spec fn receiver_module(f: FileFacts, c: int) -> Option<Seq<char>> {
    match bound(module_binds(f, f.imports.len() as int), receiver_path(f, c)) {
        Some(m) => Some(m),
        None => answer_at(f.receiver_targets@, c),
    }
}

/// Another file of the same package directory defining `callee`.
pub open spec fn is_sibling(other: FileFacts, f: FileFacts, callee: Seq<char>) -> bool {
    &&& other.path@ != f.path@
    &&& directory_of_path(other.path@) == directory_of_path(f.path@)
    &&& other.language == f.language
    &&& listed(other.functions@, callee)
}

/// The first sibling of `f` defining `callee`, in path order.
pub open spec fn first_sibling(facts: Seq<FileFacts>, f: FileFacts, callee: Seq<char>) -> Option<int>
    decreases facts.len(),
{
    if facts.len() == 0 {
        None
    } else if is_sibling(facts[0], f, callee) {
        Some(0)
    } else {
        match first_sibling(facts.drop_first(), f, callee) {
            Some(k) => Some(k + 1),
            None => None,
        }
    }
}

/// The latest candidate for `callee` whose file really exports it.
pub open spec fn from_candidates(
    facts: Seq<FileFacts>,
    cands: Seq<(Seq<char>, (Seq<char>, Seq<char>))>,
    callee: Seq<char>,
) -> Option<(Seq<char>, Seq<char>)>
    decreases cands.len(),
{
    if cands.len() == 0 {
        None
    } else if cands.last().0 == callee && exported_target(facts, cands.last().1.0, cands.last().1.1) is Some {
        exported_target(facts, cands.last().1.0, cands.last().1.1)
    } else {
        from_candidates(facts, cands.drop_last(), callee)
    }
}

/// The (file, function) call `c` of `f` reaches. A qualified call goes
/// through its receiver's module only; a bare one resolves in its own
/// file, then — in a language whose directory is one namespace — in a
/// sibling, then through the latest import binding that really exports it.
pub open spec fn call_target(facts: Seq<FileFacts>, f: FileFacts, c: int) -> Option<(Seq<char>, Seq<char>)> {
    let call = f.calls[c];
    if call.receiver.len() > 0 {
        match receiver_module(f, c) {
            Some(m) => exported_target(facts, m, call.callee@),
            None => None,
        }
    } else if listed(f.functions@, call.callee@) {
        Some((f.path@, call.callee@))
    } else if f.language == Some(SourceLanguage::Go) && first_sibling(facts, f, call.callee@) is Some {
        Some((facts[first_sibling(facts, f, call.callee@)->0].path@, call.callee@))
    } else {
        from_candidates(facts, candidates(f, f.imports.len() as int), call.callee@)
    }
}

/// The `calls` edge call `c` of `f` makes, when it resolves and its
/// caller is a function node of the file.
pub open spec fn call_edge(facts: Seq<FileFacts>, f: FileFacts, c: int) -> Option<(Seq<char>, Seq<char>)> {
    match call_target(facts, f, c) {
        Some(t) => if listed(f.functions@, f.calls[c].caller@) {
            Some((symbol_id(NodeKind::Function, f.path@, f.calls[c].caller@), symbol_id(NodeKind::Function, t.0, t.1)))
        } else {
            None
        },
        None => None,
    }
}

/// The `calls` edges of the first `n` calls of `f`, repeats included.
pub open spec fn file_call_edges(facts: Seq<FileFacts>, f: FileFacts, n: int) -> Seq<(Seq<char>, Seq<char>)>
    decreases n,
{
    if n <= 0 {
        Seq::empty()
    } else {
        file_call_edges(facts, f, n - 1) + match call_edge(facts, f, n - 1) {
            Some(e) => seq![e],
            None => Seq::<(Seq<char>, Seq<char>)>::empty(),
        }
    }
}

/// The `calls` edges of the first `n` files, repeats included.
pub open spec fn call_edges(facts: Seq<FileFacts>, n: int) -> Seq<(Seq<char>, Seq<char>)>
    decreases n,
{
    if n <= 0 {
        Seq::empty()
    } else {
        call_edges(facts, n - 1) + if facts[n - 1].language is Some {
            file_call_edges(facts, facts[n - 1], facts[n - 1].calls.len() as int)
        } else {
            Seq::empty()
        }
    }
}

pub open spec fn binds_view(v: Seq<(String, String)>) -> Seq<(Seq<char>, Seq<char>)> {
    v.map_values(|p: (String, String)| (p.0@, p.1@))
}

pub open spec fn cands_view(v: Seq<(String, (String, String))>) -> Seq<(Seq<char>, (Seq<char>, Seq<char>))> {
    v.map_values(|p: (String, (String, String))| (p.0@, (p.1.0@, p.1.1@)))
}

fn push_bind(binds: &mut Vec<(String, String)>, key: &String, value: &String)
    ensures
        binds_view(final(binds)@) == binds_view(old(binds)@).push((key@, value@)),
{
    binds.push((key.clone(), value.clone()));
    assert(binds_view(binds@) =~= binds_view(old(binds)@).push((key@, value@)));
}

fn push_cand(cands: &mut Vec<(String, (String, String))>, key: &String, file: &String, name: &String)
    ensures
        cands_view(final(cands)@) == cands_view(old(cands)@).push((key@, (file@, name@))),
{
    cands.push((key.clone(), (file.clone(), name.clone())));
    assert(cands_view(cands@) =~= cands_view(old(cands)@).push((key@, (file@, name@))));
}

/// Every module binding of `f`'s imports, in source order.
fn module_binds_of(f: &FileFacts) -> (r: Vec<(String, String)>)
    ensures
        binds_view(r@) == module_binds(*f, f.imports.len() as int),
{
    let mut r: Vec<(String, String)> = Vec::new();
    let mut i: usize = 0;
    while i < f.imports.len()
        invariant
            i <= f.imports.len(),
            binds_view(r@) == module_binds(*f, i as int),
        decreases f.imports.len() - i,
    {
        let import = &f.imports[i];
        let target = specifier_target_of(f, i);
        let ghost base = binds_view(r@);
        let mut k: usize = 0;
        while k < import.namespaces.len()
            invariant
                k <= import.namespaces.len(),
                import == f.imports@[i as int],
                opt_text(target) == specifier_target(*f, i as int),
                binds_view(r@) == base + namespace_binds(*f, i as int, k as int),
            decreases import.namespaces.len() - k,
        {
            match &target {
                Some(t) => {
                    push_bind(&mut r, &import.namespaces[k], t);
                },
                None => {},
            }
            assert(base + namespace_binds(*f, i as int, k + 1) =~= binds_view(r@));
            k += 1;
        }
        let ghost mid = binds_view(r@);
        let mut j: usize = 0;
        while j < import.names.len()
            invariant
                j <= import.names.len(),
                import == f.imports@[i as int],
                binds_view(r@) == mid + name_binds(*f, i as int, j as int),
            decreases import.names.len() - j,
        {
            match name_module_of(f, i, j) {
                Some(m) => {
                    push_bind(&mut r, &import.names[j].local, &m);
                },
                None => {},
            }
            assert(mid + name_binds(*f, i as int, j + 1) =~= binds_view(r@));
            j += 1;
        }
        assert(module_binds(*f, i + 1) =~= binds_view(r@));
        i += 1;
    }
    r
}

/// Every call candidate of `f`'s imports, in import order.
fn candidates_of(f: &FileFacts) -> (r: Vec<(String, (String, String))>)
    ensures
        cands_view(r@) == candidates(*f, f.imports.len() as int),
{
    let mut r: Vec<(String, (String, String))> = Vec::new();
    let mut i: usize = 0;
    while i < f.imports.len()
        invariant
            i <= f.imports.len(),
            cands_view(r@) == candidates(*f, i as int),
        decreases f.imports.len() - i,
    {
        let import = &f.imports[i];
        let target = specifier_target_of(f, i);
        let ghost base = cands_view(r@);
        let mut j: usize = 0;
        while j < import.names.len()
            invariant
                j <= import.names.len(),
                import == f.imports@[i as int],
                opt_text(target) == specifier_target(*f, i as int),
                cands_view(r@) == base + name_candidates(*f, i as int, j as int),
            decreases import.names.len() - j,
        {
            let name = &import.names[j];
            let ghost before = cands_view(r@);
            match name_module_of(f, i, j) {
                Some(m) => {
                    push_cand(&mut r, &name.local, &m, &name.imported);
                },
                None => {},
            }
            let ghost after_module = cands_view(r@);
            match &target {
                Some(t) => {
                    push_cand(&mut r, &name.local, t, &name.imported);
                },
                None => {},
            }
            assert(base + name_candidates(*f, i as int, j + 1) =~= cands_view(r@));
            j += 1;
        }
        assert(candidates(*f, i + 1) =~= cands_view(r@));
        i += 1;
    }
    r
}

/// What `key` is bound to.
fn bound_in(binds: &Vec<(String, String)>, key: &String) -> (r: Option<String>)
    ensures
        opt_text(r) == bound(binds_view(binds@), key@),
{
    let mut k: usize = binds.len();
    assert(binds_view(binds@).take(k as int) =~= binds_view(binds@));
    while k > 0
        invariant
            k <= binds.len(),
            bound(binds_view(binds@), key@) == bound(binds_view(binds@).take(k as int), key@),
        decreases k,
    {
        let ghost pre = binds_view(binds@).take(k as int);
        assert(pre.drop_last() =~= binds_view(binds@).take(k - 1));
        assert(pre.last() == (binds@[k - 1].0@, binds@[k - 1].1@));
        if binds[k - 1].0 == *key {
            return Some(binds[k - 1].1.clone());
        }
        k -= 1;
    }
    None
}

/// The index of the facts `path` names.
fn fact_index(facts: &Vec<FileFacts>, path: &String) -> (r: Option<usize>)
    ensures
        match r {
            Some(i) => fact_at(facts@, path@) == Some(i as int) && i < facts.len(),
            None => fact_at(facts@, path@) is None,
        },
{
    let mut k: usize = facts.len();
    assert(facts@.take(k as int) =~= facts@);
    while k > 0
        invariant
            k <= facts.len(),
            fact_at(facts@, path@) == match fact_at(facts@.take(k as int), path@) {
                Some(i) => Some(i),
                None => None,
            },
        decreases k,
    {
        let ghost pre = facts@.take(k as int);
        assert(pre.drop_last() =~= facts@.take(k - 1));
        if facts[k - 1].path == *path {
            return Some(k - 1);
        }
        k -= 1;
    }
    None
}

/// The index of the first export clause publishing `name`.
fn reexport_index(rs: &Vec<Reexport>, name: &String) -> (r: Option<usize>)
    ensures
        match r {
            Some(i) => first_reexport(rs@, name@) == Some(i as int) && i < rs.len(),
            None => first_reexport(rs@, name@) is None,
        },
{
    let mut k: usize = 0;
    assert(rs@.skip(0) =~= rs@);
    while k < rs.len()
        invariant
            k <= rs.len(),
            first_reexport(rs@, name@) == match first_reexport(rs@.skip(k as int), name@) {
                Some(i) => Some(i + k),
                None => None,
            },
        decreases rs.len() - k,
    {
        let ghost rest = rs@.skip(k as int);
        assert(rest.drop_first() =~= rs@.skip(k + 1));
        assert(rest[0] == rs@[k as int]);
        if rs[k].exported == *name {
            return Some(k);
        }
        k += 1;
    }
    None
}

fn has(v: &Vec<String>, s: &String) -> (r: bool)
    ensures
        r == listed(v@, s@),
{
    let mut k: usize = 0;
    while k < v.len()
        invariant
            k <= v.len(),
            forall|j: int| 0 <= j < k ==> v@[j]@ != s@,
        decreases v.len() - k,
    {
        if v[k] == *s {
            return true;
        }
        k += 1;
    }
    false
}

fn answer_of(v: &Vec<Option<String>>, i: usize) -> (r: Option<String>)
    ensures
        opt_text(r) == answer_at(v@, i as int),
{
    if i < v.len() {
        copy_answer(&v[i])
    } else {
        None
    }
}

pub open spec fn pair_text(p: Option<(String, String)>) -> Option<(Seq<char>, Seq<char>)> {
    match p {
        Some(q) => Some((q.0@, q.1@)),
        None => None,
    }
}

/// Where an import of `name` from `file` lands.
fn exported_target_of(facts: &Vec<FileFacts>, file: &String, name: &String) -> (r: Option<(String, String)>)
    ensures
        pair_text(r) == exported_target(facts@, file@, name@),
{
    let t = match fact_index(facts, file) {
        Some(t) => t,
        None => return None,
    };
    let target = &facts[t];
    if has(&target.exported_functions, name) {
        return Some((file.clone(), name.clone()));
    }
    let ri = match reexport_index(&target.reexports, name) {
        Some(ri) => ri,
        None => return None,
    };
    let r = &target.reexports[ri];
    match &r.specifier {
        None => if has(&target.exported_functions, &r.local) {
            Some((file.clone(), r.local.clone()))
        } else {
            None
        },
        Some(_) => match answer_of(&target.reexport_targets, ri) {
            None => None,
            Some(d) => match fact_index(facts, &d) {
                Some(u) => if has(&facts[u].exported_functions, &r.local) {
                    Some((d, r.local.clone()))
                } else {
                    None
                },
                None => None,
            },
        },
    }
}

fn separator_of(l: Option<SourceLanguage>) -> (r: &'static str)
    ensures
        r@ == module_separator(l),
{
    match l {
        Some(SourceLanguage::Rust) => "::",
        _ => ".",
    }
}

fn same_language(a: Option<SourceLanguage>, b: Option<SourceLanguage>) -> (r: bool)
    ensures
        r == (a == b),
{
    match (a, b) {
        (Some(x), Some(y)) => x == y,
        (None, None) => true,
        _ => false,
    }
}

/// The receiver of call `c` of `f` written back out as a module path.
pub fn receiver_path_of(f: &FileFacts, c: usize) -> (r: String)
    requires
        c < f.calls.len(),
    ensures
        r@ == receiver_path(*f, c as int),
{
    let receiver = &f.calls[c].receiver;
    let mut parts: Vec<&str> = Vec::new();
    let mut k: usize = 0;
    while k < receiver.len()
        invariant
            k <= receiver.len(),
            crate::text::views(parts@) == strings(receiver@).take(k as int),
        decreases receiver.len() - k,
    {
        let piece = receiver[k].as_str();
        assert(piece@ == receiver@[k as int]@);
        let ghost before = parts@;
        parts.push(piece);
        assert(crate::text::views(parts@) =~= crate::text::views(before).push(piece@));
        assert(strings(receiver@).take(k + 1) =~= strings(receiver@).take(k as int).push(receiver@[k as int]@));
        k += 1;
    }
    assert(strings(receiver@).take(k as int) =~= strings(receiver@));
    let v = crate::text::join(&parts, separator_of(f.language));
    crate::text::string_of(&v)
}

/// The file a qualified call's receiver names as a module.
fn receiver_module_of(f: &FileFacts, c: usize, binds: &Vec<(String, String)>) -> (r: Option<String>)
    requires
        c < f.calls.len(),
        binds_view(binds@) == module_binds(*f, f.imports.len() as int),
    ensures
        opt_text(r) == receiver_module(*f, c as int),
{
    let path = receiver_path_of(f, c);
    match bound_in(binds, &path) {
        Some(m) => Some(m),
        None => answer_of(&f.receiver_targets, c),
    }
}

/// The first sibling of `f` defining `callee`.
fn sibling_of(facts: &Vec<FileFacts>, f: &FileFacts, callee: &String) -> (r: Option<usize>)
    ensures
        match r {
            Some(i) => first_sibling(facts@, *f, callee@) == Some(i as int) && i < facts.len(),
            None => first_sibling(facts@, *f, callee@) is None,
        },
{
    let home = directory_of(f.path.as_str());
    let mut k: usize = 0;
    assert(facts@.skip(0) =~= facts@);
    while k < facts.len()
        invariant
            k <= facts.len(),
            home@ == directory_of_path(f.path@),
            first_sibling(facts@, *f, callee@) == match first_sibling(facts@.skip(k as int), *f, callee@) {
                Some(i) => Some(i + k),
                None => None,
            },
        decreases facts.len() - k,
    {
        let ghost rest = facts@.skip(k as int);
        assert(rest.drop_first() =~= facts@.skip(k + 1));
        assert(rest[0] == facts@[k as int]);
        let other = &facts[k];
        let sibling = !(other.path == f.path) && directory_of(other.path.as_str()) == home && same_language(
            other.language,
            f.language,
        ) && has(&other.functions, callee);
        if sibling {
            return Some(k);
        }
        k += 1;
    }
    None
}

/// The latest candidate for `callee` whose file really exports it.
fn from_candidates_of(facts: &Vec<FileFacts>, cands: &Vec<(String, (String, String))>, callee: &String) -> (r: Option<(String, String)>)
    ensures
        pair_text(r) == from_candidates(facts@, cands_view(cands@), callee@),
{
    let mut k: usize = cands.len();
    assert(cands_view(cands@).take(k as int) =~= cands_view(cands@));
    while k > 0
        invariant
            k <= cands.len(),
            from_candidates(facts@, cands_view(cands@), callee@) == from_candidates(facts@, cands_view(cands@).take(k as int), callee@),
        decreases k,
    {
        let ghost pre = cands_view(cands@).take(k as int);
        assert(pre.drop_last() =~= cands_view(cands@).take(k - 1));
        assert(pre.last() == (cands@[k - 1].0@, (cands@[k - 1].1.0@, cands@[k - 1].1.1@)));
        if cands[k - 1].0 == *callee {
            let t = exported_target_of(facts, &cands[k - 1].1.0, &cands[k - 1].1.1);
            if t.is_some() {
                return t;
            }
        }
        k -= 1;
    }
    None
}

/// The (file, function) call `c` of `f` reaches.
fn call_target_of(
    facts: &Vec<FileFacts>,
    f: &FileFacts,
    c: usize,
    binds: &Vec<(String, String)>,
    cands: &Vec<(String, (String, String))>,
) -> (r: Option<(String, String)>)
    requires
        c < f.calls.len(),
        binds_view(binds@) == module_binds(*f, f.imports.len() as int),
        cands_view(cands@) == candidates(*f, f.imports.len() as int),
    ensures
        pair_text(r) == call_target(facts@, *f, c as int),
{
    let call = &f.calls[c];
    if call.receiver.len() > 0 {
        return match receiver_module_of(f, c, binds) {
            Some(m) => exported_target_of(facts, &m, &call.callee),
            None => None,
        };
    }
    if has(&f.functions, &call.callee) {
        return Some((f.path.clone(), call.callee.clone()));
    }
    if same_language(f.language, Some(SourceLanguage::Go)) {
        match sibling_of(facts, f, &call.callee) {
            Some(i) => {
                return Some((facts[i].path.clone(), call.callee.clone()));
            },
            None => {},
        }
    }
    from_candidates_of(facts, cands, &call.callee)
}

/// The `calls` edges between function nodes, each pair once, where the
/// files (in order) and their calls first reach it. A file no parser
/// handles contributes none.
pub fn resolve_calls(facts: &Vec<FileFacts>) -> (edges: Vec<Edge>)
    ensures
        pairs(edges@) == distinct(call_edges(facts@, facts.len() as int)),
        forall|k: int| 0 <= k < edges.len() ==> (#[trigger] edges[k]).kind == EdgeKind::Calls,
{
    let mut out: Vec<Edge> = Vec::new();
    let mut fi: usize = 0;
    while fi < facts.len()
        invariant
            fi <= facts.len(),
            pairs(out@) == distinct(call_edges(facts@, fi as int)),
            forall|k: int| 0 <= k < out.len() ==> (#[trigger] out[k]).kind == EdgeKind::Calls,
        decreases facts.len() - fi,
    {
        let f = &facts[fi];
        let ghost base = call_edges(facts@, fi as int);
        if f.language.is_some() {
            let binds = module_binds_of(f);
            let cands = candidates_of(f);
            let mut c: usize = 0;
            while c < f.calls.len()
                invariant
                    c <= f.calls.len(),
                    f == facts@[fi as int],
                    base == call_edges(facts@, fi as int),
                    binds_view(binds@) == module_binds(*f, f.imports.len() as int),
                    cands_view(cands@) == candidates(*f, f.imports.len() as int),
                    pairs(out@) == distinct(base + file_call_edges(facts@, *f, c as int)),
                    forall|k: int| 0 <= k < out.len() ==> (#[trigger] out[k]).kind == EdgeKind::Calls,
                decreases f.calls.len() - c,
            {
                let ghost done = base + file_call_edges(facts@, *f, c as int);
                let call = &f.calls[c];
                match call_target_of(facts, f, c, &binds, &cands) {
                    Some((target_file, target_fn)) => {
                        if has(&f.functions, &call.caller) {
                            let source = NodeId::symbol(NodeKind::Function, f.path.as_str(), call.caller.as_str());
                            let target = NodeId::symbol(NodeKind::Function, target_file.as_str(), target_fn.as_str());
                            proof {
                                assert(call_edge(facts@, *f, c as int) == Some((source.text(), target.text())));
                                assert(base + file_call_edges(facts@, *f, c + 1) =~= done.push((source.text(), target.text())));
                                lemma_distinct_push(done, (source.text(), target.text()));
                            }
                            push_new(&mut out, source, target, EdgeKind::Calls);
                        } else {
                            assert(base + file_call_edges(facts@, *f, c + 1) =~= done);
                        }
                    },
                    None => {
                        assert(base + file_call_edges(facts@, *f, c + 1) =~= done);
                    },
                }
                c += 1;
            }
            proof {
                assert(call_edges(facts@, fi + 1) =~= base + file_call_edges(facts@, *f, f.calls.len() as int));
            }
        } else {
            proof {
                assert(call_edges(facts@, fi + 1) =~= base);
            }
        }
        fi += 1;
    }
    out
}

// ---------------------------------------------------------------------------
// Laws.

/// A file exports only functions it defines.
pub open spec fn facts_valid(facts: Seq<FileFacts>) -> bool {
    forall|i: int, s: Seq<char>|
        0 <= i < facts.len() && #[trigger] listed(facts[i].exported_functions@, s) ==> listed(facts[i].functions@, s)
}

/// `id` names a function node of some scanned file.
pub open spec fn is_function_node(facts: Seq<FileFacts>, id: Seq<char>) -> bool {
    exists|j: int, x: Seq<char>|
        0 <= j < facts.len() && listed(facts[j].functions@, x) && id == #[trigger] symbol_id(NodeKind::Function, facts[j].path@, x)
}

/// `(file, name)` is a function some scanned file at `file` defines.
pub open spec fn is_defined(facts: Seq<FileFacts>, t: (Seq<char>, Seq<char>)) -> bool {
    exists|j: int| 0 <= j < facts.len() && #[trigger] facts[j].path@ == t.0 && listed(facts[j].functions@, t.1)
}

proof fn lemma_fact_at(facts: Seq<FileFacts>, path: Seq<char>)
    ensures
        fact_at(facts, path) matches Some(t) ==> 0 <= t < facts.len() && facts[t].path@ == path,
    decreases facts.len(),
{
    if facts.len() > 0 {
        lemma_fact_at(facts.drop_last(), path);
    }
}

proof fn lemma_first_sibling(facts: Seq<FileFacts>, f: FileFacts, callee: Seq<char>)
    ensures
        first_sibling(facts, f, callee) matches Some(i) ==> 0 <= i < facts.len() && is_sibling(facts[i], f, callee),
    decreases facts.len(),
{
    if facts.len() > 0 && !is_sibling(facts[0], f, callee) {
        lemma_first_sibling(facts.drop_first(), f, callee);
    }
}

proof fn lemma_exported_target(facts: Seq<FileFacts>, file: Seq<char>, name: Seq<char>)
    requires
        facts_valid(facts),
    ensures
        exported_target(facts, file, name) matches Some(t) ==> is_defined(facts, t),
{
    lemma_fact_at(facts, file);
    if let Some(t) = fact_at(facts, file) {
        let target = facts[t];
        if let Some(ri) = first_reexport(target.reexports@, name) {
            let r = target.reexports[ri];
            if let Some(d) = answer_at(target.reexport_targets@, ri) {
                lemma_fact_at(facts, d);
            }
        }
        if let Some(p) = exported_target(facts, file, name) {
            if p.0 == file {
                assert(listed(facts[t].exported_functions@, p.1));
                assert(facts[t].path@ == p.0);
            } else {
                let d = answer_at(target.reexport_targets@, first_reexport(target.reexports@, name)->0)->0;
                let u = fact_at(facts, d)->0;
                assert(listed(facts[u].exported_functions@, p.1));
                assert(facts[u].path@ == p.0);
            }
        }
    }
}

proof fn lemma_from_candidates(facts: Seq<FileFacts>, cands: Seq<(Seq<char>, (Seq<char>, Seq<char>))>, callee: Seq<char>)
    requires
        facts_valid(facts),
    ensures
        from_candidates(facts, cands, callee) matches Some(t) ==> is_defined(facts, t),
    decreases cands.len(),
{
    if cands.len() > 0 {
        lemma_exported_target(facts, cands.last().1.0, cands.last().1.1);
        lemma_from_candidates(facts, cands.drop_last(), callee);
    }
}

proof fn lemma_call_target(facts: Seq<FileFacts>, fi: int, c: int)
    requires
        facts_valid(facts),
        0 <= fi < facts.len(),
    ensures
        call_target(facts, facts[fi], c) matches Some(t) ==> is_defined(facts, t),
{
    let f = facts[fi];
    let call = f.calls[c];
    if call.receiver.len() > 0 {
        if let Some(m) = receiver_module(f, c) {
            lemma_exported_target(facts, m, call.callee@);
        }
    } else if listed(f.functions@, call.callee@) {
        assert(facts[fi].path@ == f.path@);
    } else if f.language == Some(SourceLanguage::Go) && first_sibling(facts, f, call.callee@) is Some {
        lemma_first_sibling(facts, f, call.callee@);
        let i = first_sibling(facts, f, call.callee@)->0;
        assert(facts[i].path@ == facts[i].path@);
    } else {
        lemma_from_candidates(facts, candidates(f, f.imports.len() as int), call.callee@);
    }
}

proof fn lemma_file_call_edges(facts: Seq<FileFacts>, fi: int, n: int)
    requires
        facts_valid(facts),
        0 <= fi < facts.len(),
    ensures
        forall|k: int| 0 <= k < file_call_edges(facts, facts[fi], n).len() ==> is_function_node(
            facts,
            (#[trigger] file_call_edges(facts, facts[fi], n)[k]).0,
        ) && is_function_node(facts, file_call_edges(facts, facts[fi], n)[k].1),
    decreases n,
{
    if n > 0 {
        lemma_file_call_edges(facts, fi, n - 1);
        lemma_call_target(facts, fi, n - 1);
        let f = facts[fi];
        let prev = file_call_edges(facts, f, n - 1);
        if let Some(e) = call_edge(facts, f, n - 1) {
            let t = call_target(facts, f, n - 1)->0;
            let caller = f.calls[n - 1].caller@;
            let j = choose|j: int| 0 <= j < facts.len() && #[trigger] facts[j].path@ == t.0 && listed(facts[j].functions@, t.1);
            assert(e.0 == symbol_id(NodeKind::Function, facts[fi].path@, caller));
            assert(e.1 == symbol_id(NodeKind::Function, facts[j].path@, t.1));
            assert forall|k: int| 0 <= k < file_call_edges(facts, f, n).len() implies is_function_node(
                facts,
                (#[trigger] file_call_edges(facts, f, n)[k]).0,
            ) && is_function_node(facts, file_call_edges(facts, f, n)[k].1) by {
                if k < prev.len() {
                    assert(file_call_edges(facts, f, n)[k] == prev[k]);
                } else {
                    assert(file_call_edges(facts, f, n)[k] == e);
                }
            }
        } else {
            assert(file_call_edges(facts, f, n) =~= prev);
        }
    }
}

proof fn lemma_call_edges(facts: Seq<FileFacts>, n: int)
    requires
        facts_valid(facts),
        n <= facts.len(),
    ensures
        forall|k: int| 0 <= k < call_edges(facts, n).len() ==> is_function_node(
            facts,
            (#[trigger] call_edges(facts, n)[k]).0,
        ) && is_function_node(facts, call_edges(facts, n)[k].1),
    decreases n,
{
    if n > 0 {
        lemma_call_edges(facts, n - 1);
        let prev = call_edges(facts, n - 1);
        if facts[n - 1].language is Some {
            let mine = file_call_edges(facts, facts[n - 1], facts[n - 1].calls.len() as int);
            lemma_file_call_edges(facts, n - 1, facts[n - 1].calls.len() as int);
            assert forall|k: int| 0 <= k < call_edges(facts, n).len() implies is_function_node(
                facts,
                (#[trigger] call_edges(facts, n)[k]).0,
            ) && is_function_node(facts, call_edges(facts, n)[k].1) by {
                if k < prev.len() {
                    assert(call_edges(facts, n)[k] == prev[k]);
                } else {
                    assert(call_edges(facts, n)[k] == mine[k - prev.len()]);
                }
            }
        } else {
            assert(call_edges(facts, n) =~= prev);
        }
    }
}

proof fn lemma_distinct_within<T>(s: Seq<T>)
    ensures
        forall|k: int| 0 <= k < distinct(s).len() ==> s.contains(#[trigger] distinct(s)[k]),
    decreases s.len(),
{
    if s.len() > 0 {
        lemma_distinct_within(s.drop_last());
        let d = distinct(s.drop_last());
        assert forall|k: int| 0 <= k < distinct(s).len() implies s.contains(#[trigger] distinct(s)[k]) by {
            if k < d.len() {
                assert(distinct(s)[k] == d[k]);
                assert(s.drop_last().contains(d[k]));
                let i = choose|i: int| 0 <= i < s.drop_last().len() && s.drop_last()[i] == d[k];
                assert(s[i] == d[k]);
            } else {
                assert(distinct(s)[k] == s.last());
                assert(s[s.len() - 1] == s.last());
            }
        }
    }
}

/// The no-dangling law for calls: every `calls` edge resolution emits
/// joins two function nodes of scanned files — a call whose callee the map
/// does not hold is dropped, never emitted pointing nowhere.
pub proof fn law_call_edges_join_function_nodes(facts: Seq<FileFacts>)
    requires
        facts_valid(facts),
    ensures
        forall|k: int| 0 <= k < distinct(call_edges(facts, facts.len() as int)).len() ==> {
            let e = #[trigger] distinct(call_edges(facts, facts.len() as int))[k];
            is_function_node(facts, e.0) && is_function_node(facts, e.1)
        },
{
    let all = call_edges(facts, facts.len() as int);
    lemma_call_edges(facts, facts.len() as int);
    lemma_distinct_within(all);
    assert forall|k: int| 0 <= k < distinct(all).len() implies {
        let e = #[trigger] distinct(all)[k];
        is_function_node(facts, e.0) && is_function_node(facts, e.1)
    } by {
        let i = choose|i: int| 0 <= i < all.len() && all[i] == distinct(all)[k];
        assert(is_function_node(facts, all[i].0) && is_function_node(facts, all[i].1));
    }
}

/// Each `calls` pair and each `imports` pair appears once.
pub proof fn law_resolution_never_repeats_an_edge<T>(s: Seq<T>)
    ensures
        forall|a: int, b: int| 0 <= a < b < distinct(s).len() ==> distinct(s)[a] != distinct(s)[b],
    decreases s.len(),
{
    if s.len() > 0 {
        law_resolution_never_repeats_an_edge(s.drop_last());
        let d = distinct(s.drop_last());
        if !d.contains(s.last()) {
            assert forall|a: int, b: int| 0 <= a < b < distinct(s).len() implies distinct(s)[a] != distinct(s)[b] by {
                if b == d.len() {
                    assert(distinct(s)[a] == d[a]);
                }
            }
        }
    }
}

} // verus!

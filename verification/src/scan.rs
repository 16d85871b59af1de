//! What one scanned file contributes to the map: its file node, a node
//! per symbol with a `contains` edge (and an `exports` edge where the file
//! exports it), and the mechanical prose that labels them. Walking the
//! repository and reading files belong to the program around the library.

use vstd::prelude::*;

use crate::map::{symbol_id, file_id, Edge, EdgeKind, Node, NodeId, NodeKind, Provenance, Range};
use crate::parsers::{Symbol, SymbolKind};
use crate::text::{
    append, append_str, chars_of, decimal, decimal_chars, is_listed, last_of, last_position, listed,
    slice, string_of, views,
};

pub mod resolve;

verus! {

/// Where all artifacts live, under the scanned root.
pub const OUTPUT_DIR: &'static str = ".codeatlas";

/// The map's file name under the output directory.
pub const MAP_FILE: &'static str = "knowledge-graph.json";

/// Directories never worth mapping, ignored even when no ignore file says
/// so.
pub open spec fn default_excludes() -> Seq<Seq<char>> {
    seq!["node_modules"@, "target"@, ".git"@, ".codeatlas"@]
}

pub fn default_exclude_names() -> (r: Vec<&'static str>)
    ensures
        views(r@) == default_excludes(),
{
    let r = vec!["node_modules", "target", ".git", OUTPUT_DIR];
    assert(views(r@) =~= default_excludes());
    r
}

/// `word`, or `word` with an `s`, by count.
pub open spec fn plural_text(word: Seq<char>, n: nat) -> Seq<char> {
    if n == 1 {
        word
    } else {
        word + "s"@
    }
}

pub fn plural(word: &str, n: usize) -> (r: String)
    ensures
        r@ == plural_text(word@, n as nat),
{
    let mut v = chars_of(word);
    if n != 1 {
        v.push('s');
        proof {
            reveal_strlit("s");
            assert(v@ =~= word@ + "s"@);
        }
    }
    string_of(&v)
}

/// The last component of a repo-relative path.
pub open spec fn file_name_of(path: Seq<char>) -> Seq<char> {
    if last_of(path, '/') >= 0 {
        path.skip(last_of(path, '/') + 1)
    } else {
        path
    }
}

pub fn file_name(path: &str) -> (r: String)
    ensures
        r@ == file_name_of(path@),
{
    let v = chars_of(path);
    match last_position(&v, '/') {
        Some(k) => {
            assert(crate::text::is_last(v@, '/', k as int));
            assert(k < v.len());
            let rest = slice(&v, k + 1, v.len());
            assert(rest@ =~= v@.skip(k + 1));
            string_of(&rest)
        },
        None => path.to_owned(),
    }
}

/// The directory of a repo-relative path, or empty at the root.
pub open spec fn directory_of_path(path: Seq<char>) -> Seq<char> {
    if last_of(path, '/') >= 0 {
        path.take(last_of(path, '/'))
    } else {
        Seq::<char>::empty()
    }
}

pub fn directory_of(path: &str) -> (r: String)
    ensures
        r@ == directory_of_path(path@),
{
    let v = chars_of(path);
    match last_position(&v, '/') {
        Some(k) => {
            let dir = slice(&v, 0, k);
            assert(dir@ =~= v@.take(k as int));
            string_of(&dir)
        },
        None => String::new(),
    }
}

/// How many of the first `n` names are `name`.
pub open spec fn occurrences(names: Seq<Seq<char>>, n: int, name: Seq<char>) -> nat
    decreases n,
{
    if n <= 0 {
        0
    } else {
        occurrences(names, n - 1, name) + if names[n - 1] == name {
            1nat
        } else {
            0nat
        }
    }
}

/// A symbol's name once repeats within its file are told apart: the second
/// and later occurrences of a name gain an ordinal suffix.
pub open spec fn unique_name(names: Seq<Seq<char>>, i: int) -> Seq<char> {
    let n = occurrences(names, i + 1, names[i]);
    if n > 1 {
        names[i] + "#"@ + decimal(n)
    } else {
        names[i]
    }
}

/// The names of a file's symbols.
pub open spec fn symbol_names(symbols: Seq<Symbol>) -> Seq<Seq<char>> {
    symbols.map_values(|s: Symbol| s.name@)
}

/// Gives every repeated symbol name within a file a deterministic ordinal
/// suffix, so node IDs stay unique.
pub fn disambiguate(symbols: &mut Vec<Symbol>)
    ensures
        final(symbols).len() == old(symbols).len(),
        forall|i: int|
            0 <= i < final(symbols).len() ==> {
                let o = #[trigger] old(symbols)[i];
                let n = final(symbols)[i];
                &&& n.name@ == unique_name(symbol_names(old(symbols)@), i)
                &&& n.kind == o.kind && n.start_line == o.start_line && n.end_line == o.end_line
                &&& n.exported == o.exported
            },
{
    let ghost start = symbols@;
    let ghost names = symbol_names(start);
    let mut originals: Vec<Vec<char>> = Vec::new();
    let mut k: usize = 0;
    while k < symbols.len()
        invariant
            k <= symbols.len(),
            symbols@ == start,
            names == symbol_names(start),
            originals.len() == k,
            forall|j: int| 0 <= j < k ==> (#[trigger] originals@[j])@ == names[j],
        decreases symbols.len() - k,
    {
        originals.push(chars_of(symbols[k].name.as_str()));
        k += 1;
    }
    let mut i: usize = 0;
    while i < symbols.len()
        invariant
            i <= symbols.len() == start.len() == originals.len(),
            names == symbol_names(start),
            forall|j: int| 0 <= j < originals.len() ==> (#[trigger] originals@[j])@ == names[j],
            forall|j: int|
                0 <= j < i ==> {
                    let o = #[trigger] start[j];
                    let n = symbols[j];
                    &&& n.name@ == unique_name(names, j)
                    &&& n.kind == o.kind && n.start_line == o.start_line && n.end_line == o.end_line
                    &&& n.exported == o.exported
                },
            forall|j: int| i <= j < symbols.len() ==> symbols[j] == start[j],
        decreases symbols.len() - i,
    {
        let mut n: usize = 0;
        let mut j: usize = 0;
        while j <= i
            invariant
                j <= i + 1,
                i < originals.len() == start.len(),
                names == symbol_names(start),
                forall|m: int| 0 <= m < originals.len() ==> (#[trigger] originals@[m])@ == names[m],
                n == occurrences(names, j as int, names[i as int]),
                n <= j,
            decreases i + 1 - j,
        {
            if crate::text::same(&originals[j], &originals[i]) {
                n += 1;
            }
            j += 1;
        }
        if n > 1 {
            let mut v = chars_of(symbols[i].name.as_str());
            v.push('#');
            append(&mut v, &decimal_chars(n as u64));
            proof {
                reveal_strlit("#");
                assert(v@ =~= names[i as int] + "#"@ + decimal(n as nat));
            }
            symbols[i].name = string_of(&v);
        }
        i += 1;
    }
}

/// The names of the function symbols among `symbols`.
pub open spec fn function_names(symbols: Seq<Symbol>) -> Seq<Seq<char>>
    decreases symbols.len(),
{
    if symbols.len() == 0 {
        Seq::empty()
    } else {
        function_names(symbols.drop_last()) + if symbols.last().kind == SymbolKind::Function {
            seq![symbols.last().name@]
        } else {
            Seq::<Seq<char>>::empty()
        }
    }
}

/// How many of `symbols` are classes.
pub open spec fn class_count(symbols: Seq<Symbol>) -> nat
    decreases symbols.len(),
{
    if symbols.len() == 0 {
        0
    } else {
        class_count(symbols.drop_last()) + if symbols.last().kind == SymbolKind::Class {
            1nat
        } else {
            0nat
        }
    }
}

/// The counts a file summary states.
pub open spec fn count_parts(functions: nat, classes: nat) -> Seq<Seq<char>> {
    (if functions > 0 {
        seq![decimal(functions) + " "@ + plural_text("function"@, functions)]
    } else {
        Seq::<Seq<char>>::empty()
    }) + if classes > 0 {
        seq![decimal(classes) + " "@ + plural_text("class"@, classes)]
    } else {
        Seq::<Seq<char>>::empty()
    }
}

/// A file node's mechanical summary: its language, its line count, and —
/// when it has symbols — how many distinct functions and how many classes.
pub open spec fn file_summary_text(label: Seq<char>, lines: nat, symbols: Seq<Symbol>) -> Seq<char> {
    label + " file, "@ + decimal(lines) + " lines"@ + if symbols.len() > 0 {
        ": "@ + crate::text::joined(
            count_parts(function_names(symbols).to_set().len(), class_count(symbols)),
            ", "@,
        )
    } else {
        Seq::<char>::empty()
    }
}

/// A symbol node's mechanical summary.
pub open spec fn symbol_summary_text(s: Symbol) -> Seq<char> {
    (if s.kind == SymbolKind::Function {
        "Function"@
    } else {
        "Class"@
    }) + " "@ + s.name@ + ", lines "@ + decimal(s.start_line as nat) + "-"@ + decimal(s.end_line as nat)
}

pub open spec fn node_kind_of(k: SymbolKind) -> NodeKind {
    match k {
        SymbolKind::Function => NodeKind::Function,
        SymbolKind::Class => NodeKind::Class,
    }
}

/// `n` is the node a file at `path` gets.
pub open spec fn file_node(n: Node, path: Seq<char>, summary: Seq<char>) -> bool {
    &&& n.id.text() == file_id(path)
    &&& n.kind == NodeKind::File
    &&& n.name@ == file_name_of(path)
    &&& n.path@ == path
    &&& n.summary@ == summary
    &&& n.range is None && n.layer is None && n.significance is None
    &&& n.provenance == Provenance::Mechanical
}

/// `n` is the node symbol `s` of the file at `path` gets.
pub open spec fn symbol_node(n: Node, path: Seq<char>, s: Symbol) -> bool {
    &&& n.id.text() == symbol_id(node_kind_of(s.kind), path, s.name@)
    &&& n.kind == node_kind_of(s.kind)
    &&& n.name@ == s.name@
    &&& n.path@ == path
    &&& n.summary@ == symbol_summary_text(s)
    &&& n.range == Some(Range { start_line: s.start_line, end_line: s.end_line })
    &&& n.layer is None && n.significance is None
    &&& n.provenance == Provenance::Mechanical
}

/// The edges a file's symbols hang from it by: `contains` for each, then
/// `exports` where the file exports it — as (source, target, kind).
pub open spec fn symbol_edges(path: Seq<char>, symbols: Seq<Symbol>) -> Seq<(Seq<char>, Seq<char>, EdgeKind)>
    decreases symbols.len(),
{
    if symbols.len() == 0 {
        Seq::empty()
    } else {
        let s = symbols.last();
        let id = symbol_id(node_kind_of(s.kind), path, s.name@);
        symbol_edges(path, symbols.drop_last()) + seq![(file_id(path), id, EdgeKind::Contains)] + if s.exported {
            seq![(file_id(path), id, EdgeKind::Exports)]
        } else {
            Seq::<(Seq<char>, Seq<char>, EdgeKind)>::empty()
        }
    }
}

pub open spec fn edge_view(e: Edge) -> (Seq<char>, Seq<char>, EdgeKind) {
    (e.source.text(), e.target.text(), e.kind)
}

fn symbol_summary(s: &Symbol) -> (r: String)
    ensures
        r@ == symbol_summary_text(*s),
{
    let mut v = if s.kind == SymbolKind::Function {
        chars_of("Function")
    } else {
        chars_of("Class")
    };
    append_str(&mut v, " ");
    append_str(&mut v, s.name.as_str());
    append_str(&mut v, ", lines ");
    append(&mut v, &decimal_chars(s.start_line as u64));
    append_str(&mut v, "-");
    append(&mut v, &decimal_chars(s.end_line as u64));
    string_of(&v)
}

fn file_summary(label: &str, lines: usize, symbols: &Vec<Symbol>) -> (r: String)
    ensures
        r@ == file_summary_text(label@, lines as nat, symbols@),
{
    let mut v = chars_of(label);
    append_str(&mut v, " file, ");
    append(&mut v, &decimal_chars(lines as u64));
    append_str(&mut v, " lines");
    if symbols.len() > 0 {
        let mut functions: Vec<String> = Vec::new();
        let mut classes: usize = 0;
        let mut i: usize = 0;
        while i < symbols.len()
            invariant
                i <= symbols.len(),
                classes == class_count(symbols@.take(i as int)),
                classes <= i,
                functions@.len() <= i,
                forall|a: int, b: int| 0 <= a < b < functions@.len() ==> functions@[a]@ != functions@[b]@,
                forall|s: Seq<char>| #[trigger] listed(functions@, s) <==> function_names(symbols@.take(i as int)).contains(s),
            decreases symbols.len() - i,
        {
            let ghost before = function_names(symbols@.take(i as int));
            proof {
                assert(symbols@.take(i + 1).drop_last() =~= symbols@.take(i as int));
            }
            if symbols[i].kind == SymbolKind::Function {
                let name = chars_of(symbols[i].name.as_str());
                let ghost old_f = functions@;
                if !is_listed(&functions, &name) {
                    functions.push(symbols[i].name.clone());
                    proof {
                        assert forall|a: int, b: int| 0 <= a < b < functions@.len() implies functions@[a]@ != functions@[b]@ by {
                            if b == old_f.len() {
                                assert(functions@[a] == old_f[a]);
                            }
                        }
                    }
                }
                proof {
                    let after = function_names(symbols@.take(i + 1));
                    assert(after =~= before.push(name@));
                    assert forall|s: Seq<char>| #[trigger] listed(functions@, s) <==> after.contains(s) by {
                        if listed(functions@, s) {
                            let j = choose|j: int| 0 <= j < functions@.len() && #[trigger] functions@[j]@ == s;
                            if j < old_f.len() {
                                assert(old_f[j] == functions@[j]);
                                assert(listed(old_f, s));
                                let w = choose|w: int| 0 <= w < before.len() && before[w] == s;
                                assert(after[w] == s);
                            } else {
                                assert(after[before.len() as int] == s);
                            }
                        }
                        if after.contains(s) {
                            let w = choose|w: int| 0 <= w < after.len() && after[w] == s;
                            if w < before.len() {
                                assert(before[w] == s);
                                assert(listed(old_f, s));
                                let j = choose|j: int| 0 <= j < old_f.len() && #[trigger] old_f[j]@ == s;
                                assert(functions@[j] == old_f[j]);
                            } else {
                                assert(s == name@);
                                if functions@.len() > old_f.len() {
                                    assert(functions@[old_f.len() as int]@ == name@);
                                } else {
                                    assert(listed(old_f, name@));
                                }
                            }
                        }
                    }
                }
            } else {
                classes = classes + 1;
                proof {
                    assert(function_names(symbols@.take(i + 1)) =~= before);
                }
            }
            i += 1;
        }
        proof {
            assert(symbols@.take(i as int) =~= symbols@);
            let fs = functions@.map_values(|s: String| s@);
            assert forall|a: int, b: int| 0 <= a < b < fs.len() implies fs[a] != fs[b] by {}
            assert(fs.no_duplicates());
            fs.unique_seq_to_set();
            assert(fs.to_set() =~= function_names(symbols@).to_set()) by {
                assert forall|s: Seq<char>| fs.to_set().contains(s) <==> function_names(symbols@).to_set().contains(s) by {
                    if fs.contains(s) {
                        let j = choose|j: int| 0 <= j < fs.len() && fs[j] == s;
                        assert(listed(functions@, s)) by {
                            assert(functions@[j]@ == s);
                        }
                    }
                    if listed(functions@, s) {
                        let j = choose|j: int| 0 <= j < functions@.len() && #[trigger] functions@[j]@ == s;
                        assert(fs[j] == s);
                    }
                }
            }
        }
        let nf = functions.len();
        let mut parts: Vec<Vec<char>> = Vec::new();
        if nf > 0 {
            let mut p = decimal_chars(nf as u64);
            append_str(&mut p, " ");
            append_str(&mut p, plural("function", nf).as_str());
            parts.push(p);
        }
        if classes > 0 {
            let mut p = decimal_chars(classes as u64);
            append_str(&mut p, " ");
            append_str(&mut p, plural("class", classes).as_str());
            parts.push(p);
        }
        let ghost pv = crate::text::char_views(parts@);
        assert(pv =~= count_parts(nf as nat, classes as nat));
        append_str(&mut v, ": ");
        if parts.len() == 1 {
            append(&mut v, &parts[0]);
            assert(crate::text::joined(pv, ", "@) == pv[0]);
        } else if parts.len() == 2 {
            append(&mut v, &parts[0]);
            append_str(&mut v, ", ");
            append(&mut v, &parts[1]);
            assert(pv.drop_last() =~= seq![pv[0]]);
            assert(crate::text::joined(seq![pv[0]], ", "@) == pv[0]);
            assert(pv.last() == pv[1]);
            assert(crate::text::joined(pv, ", "@) == pv[0] + ", "@ + pv[1]);
        } else {
            assert(crate::text::joined(pv, ", "@) =~= Seq::<char>::empty());
        }
        proof {
            assert(v@ =~= file_summary_text(label@, lines as nat, symbols@));
        }
    } else {
        assert(v@ =~= file_summary_text(label@, lines as nat, symbols@));
    }
    string_of(&v)
}

/// What one file contributes: its file node first, then a node per symbol
/// (repeated names told apart), and the edges hanging the symbols from the
/// file. `language` is the language a parser named, if one handled it.
pub fn file_nodes(path: &str, line_count: usize, language: Option<&str>, symbols: Vec<Symbol>) -> (r: (Vec<Node>, Vec<Edge>))
    ensures
        exists|renamed: Seq<Symbol>| {
            &&& renamed.len() == symbols@.len()
            &&& forall|i: int|
                0 <= i < renamed.len() ==> {
                    let o = #[trigger] symbols@[i];
                    let n = renamed[i];
                    &&& n.name@ == unique_name(symbol_names(symbols@), i)
                    &&& n.kind == o.kind && n.start_line == o.start_line && n.end_line == o.end_line
                    &&& n.exported == o.exported
                }
            &&& r.0@.len() == renamed.len() + 1
            &&& file_node(r.0@[0], path@, file_summary_text(match language {
                Some(l) => l@,
                None => "Plain"@,
            }, line_count as nat, renamed))
            &&& forall|k: int| 0 <= k < renamed.len() ==> symbol_node(#[trigger] r.0@[k + 1], path@, renamed[k])
            &&& r.1@.map_values(|e: Edge| edge_view(e)) == symbol_edges(path@, renamed)
        },
{
    let mut symbols = symbols;
    disambiguate(&mut symbols);
    let label = match language {
        Some(l) => l,
        None => "Plain",
    };
    let summary = file_summary(label, line_count, &symbols);
    let file = NodeId::file(path);
    let mut nodes: Vec<Node> = Vec::new();
    nodes.push(
        Node {
            id: file.duplicate(),
            kind: NodeKind::File,
            name: file_name(path),
            path: path.to_owned(),
            summary,
            range: None,
            layer: None,
            significance: None,
            provenance: Provenance::Mechanical,
        },
    );
    let mut edges: Vec<Edge> = Vec::new();
    let mut i: usize = 0;
    while i < symbols.len()
        invariant
            i <= symbols.len(),
            nodes@.len() == i + 1,
            file.text() == file_id(path@),
            file_node(nodes@[0], path@, file_summary_text(label@, line_count as nat, symbols@)),
            forall|k: int| 0 <= k < i ==> symbol_node(#[trigger] nodes@[k + 1], path@, symbols@[k]),
            edges@.map_values(|e: Edge| edge_view(e)) == symbol_edges(path@, symbols@.take(i as int)),
        decreases symbols.len() - i,
    {
        let s = &symbols[i];
        let kind = match s.kind {
            SymbolKind::Function => NodeKind::Function,
            SymbolKind::Class => NodeKind::Class,
        };
        let id = NodeId::symbol(kind, path, s.name.as_str());
        let ghost e0 = edges@;
        edges.push(Edge::new(file.duplicate(), id.duplicate(), EdgeKind::Contains));
        if s.exported {
            edges.push(Edge::new(file.duplicate(), id.duplicate(), EdgeKind::Exports));
        }
        proof {
            assert(symbols@.take(i + 1).drop_last() =~= symbols@.take(i as int));
            assert(edges@.map_values(|e: Edge| edge_view(e)) =~= symbol_edges(path@, symbols@.take(i + 1)));
        }
        nodes.push(
            Node {
                id,
                kind,
                name: s.name.clone(),
                path: path.to_owned(),
                summary: symbol_summary(s),
                range: Some(Range { start_line: s.start_line, end_line: s.end_line }),
                layer: None,
                significance: None,
                provenance: Provenance::Mechanical,
            },
        );
        i += 1;
    }
    assert(symbols@.take(i as int) =~= symbols@);
    (nodes, edges)
}

/// How many of the map's nodes are files.
pub open spec fn file_count_of(nodes: Seq<Node>) -> nat
    decreases nodes.len(),
{
    if nodes.len() == 0 {
        0
    } else {
        file_count_of(nodes.drop_last()) + if nodes.last().kind == NodeKind::File {
            1nat
        } else {
            0nat
        }
    }
}

pub fn file_count(nodes: &Vec<Node>) -> (r: usize)
    ensures
        r == file_count_of(nodes@),
{
    let mut n: usize = 0;
    let mut i: usize = 0;
    while i < nodes.len()
        invariant
            i <= nodes.len(),
            n == file_count_of(nodes@.take(i as int)),
            n <= i,
        decreases nodes.len() - i,
    {
        assert(nodes@.take(i + 1).drop_last() =~= nodes@.take(i as int));
        if nodes[i].kind == NodeKind::File {
            n += 1;
        }
        i += 1;
    }
    assert(nodes@.take(i as int) =~= nodes@);
    n
}


/// How many lines `source` holds, as std's `str::lines` counts them.
pub fn line_count(source: &str) -> (r: usize)
    ensures
        r == crate::parsers::lines_of(source@).len(),
{
    let ls = crate::parsers::lines(source);
    proof {
        assert(crate::text::char_views(ls@).len() == ls@.len());
    }
    ls.len()
}

/// Whether some `exports` edge points at `id`.
pub open spec fn exported_id(edges: Seq<Edge>, id: Seq<char>) -> bool {
    exists|k: int| 0 <= k < edges.len() && (#[trigger] edges[k]).kind == EdgeKind::Exports && edges[k].target.text() == id
}

/// The names of the function nodes among `nodes`, in order; with
/// `exported_only`, only those an `exports` edge points at.
pub open spec fn function_node_names(nodes: Seq<Node>, edges: Seq<Edge>, exported_only: bool) -> Seq<Seq<char>>
    decreases nodes.len(),
{
    if nodes.len() == 0 {
        Seq::empty()
    } else {
        let n = nodes.last();
        let before = function_node_names(nodes.drop_last(), edges, exported_only);
        if n.kind == NodeKind::Function && (!exported_only || exported_id(edges, n.id.text())) {
            before.push(n.name@)
        } else {
            before
        }
    }
}

fn is_exported(edges: &Vec<Edge>, id: &Vec<char>) -> (r: bool)
    ensures
        r == exported_id(edges@, id@),
{
    let mut k: usize = 0;
    while k < edges.len()
        invariant
            k <= edges.len(),
            forall|j: int| 0 <= j < k ==> !((#[trigger] edges@[j]).kind == EdgeKind::Exports && edges@[j].target.text() == id@),
        decreases edges.len() - k,
    {
        if edges[k].kind == EdgeKind::Exports && crate::text::same(&chars_of(edges[k].target.as_str()), id) {
            return true;
        }
        k += 1;
    }
    false
}

/// A file's function names, and those of them its `exports` edges point
/// at: what cross-file call resolution reads of it.
pub fn function_lists(nodes: &Vec<Node>, edges: &Vec<Edge>) -> (r: (Vec<String>, Vec<String>))
    ensures
        crate::text::strings(r.0@) == function_node_names(nodes@, edges@, false),
        crate::text::strings(r.1@) == function_node_names(nodes@, edges@, true),
{
    let mut all: Vec<String> = Vec::new();
    let mut exported: Vec<String> = Vec::new();
    let mut i: usize = 0;
    while i < nodes.len()
        invariant
            i <= nodes.len(),
            crate::text::strings(all@) == function_node_names(nodes@.take(i as int), edges@, false),
            crate::text::strings(exported@) == function_node_names(nodes@.take(i as int), edges@, true),
        decreases nodes.len() - i,
    {
        proof {
            assert(nodes@.take(i + 1).drop_last() =~= nodes@.take(i as int));
        }
        if nodes[i].kind == NodeKind::Function {
            let ghost a0 = crate::text::strings(all@);
            let ghost e0 = crate::text::strings(exported@);
            all.push(nodes[i].name.clone());
            assert(crate::text::strings(all@) =~= a0.push(nodes@[i as int].name@));
            if is_exported(edges, &chars_of(nodes[i].id.as_str())) {
                exported.push(nodes[i].name.clone());
                assert(crate::text::strings(exported@) =~= e0.push(nodes@[i as int].name@));
            }
        }
        i += 1;
    }
    proof {
        assert(nodes@.take(i as int) =~= nodes@);
    }
    (all, exported)
}

} // verus!

//! Mechanical semantics: the zero-model projections that make the map
//! complete. Layers, significance, domain flows and the tour are computed
//! here deterministically from the structural graph alone; enrichment may
//! later relabel what this module creates, never create anything itself.

use vstd::prelude::*;

use crate::map::{
    last_named, last_named_index, lemma_last_named, DomainFlow, Edge, EdgeKind, KnowledgeGraph, Layer, LayerDescription, Node, NodeId, NodeKind, Provenance,
    TourStep,
};
use crate::text::{
    append, append_str, chars_of, decimal, decimal_chars, lemma_lex_asymmetric, lemma_lex_irreflexive, first_of, lemma_lex_total, lemma_lex_transitive, lex_less, lex_lt,
    insert_sorted, is_listed, joined, kept, lemma_listed_strings, lemma_sorted_unique, listed,
    position, same, slice, strictly_sorted, string_of, strings,
};

verus! {

/// The layer (and domain) files at the repository root fall into.
pub const ROOT_LAYER: &'static str = "root";

/// The top-level directory of a repo-relative path, or `root` for paths at
/// the repository root.
pub open spec fn top_dir(path: Seq<char>) -> Seq<char> {
    if first_of(path, '/') >= 0 {
        path.take(first_of(path, '/'))
    } else {
        "root"@
    }
}

/// The mechanical sentence describing a layer.
pub open spec fn layer_sentence(id: Seq<char>) -> Seq<char> {
    if id == "root"@ {
        "Files at the repository root"@
    } else {
        "Files under "@ + id + "/"@
    }
}

pub fn top_directory(path: &str) -> (r: String)
    ensures
        r@ == top_dir(path@),
{
    let p = chars_of(path);
    match position(&p, '/') {
        Some(k) => {
            let t = slice(&p, 0, k);
            proof {
                assert(t@ =~= p@.take(k as int));
            }
            string_of(&t)
        },
        None => String::from_str(ROOT_LAYER),
    }
}

pub fn describe_layer(id: &str) -> (r: String)
    ensures
        r@ == layer_sentence(id@),
{
    let v = chars_of(id);
    let root = chars_of(ROOT_LAYER);
    if same(&v, &root) {
        String::from_str("Files at the repository root")
    } else {
        let mut out = chars_of("Files under ");
        append(&mut out, &v);
        out.push('/');
        proof {
            reveal_strlit("/");
            assert(out@ =~= layer_sentence(id@));
        }
        string_of(&out)
    }
}

/// The layer a node is assigned to: its top-level directory for file nodes,
/// and whatever it held before for symbol nodes.
pub open spec fn assigned(old: Node, new: Node) -> bool {
    &&& new.id == old.id
    &&& new.kind == old.kind
    &&& new.name == old.name
    &&& new.path == old.path
    &&& new.summary == old.summary
    &&& new.range == old.range
    &&& new.significance == old.significance
    &&& new.provenance == old.provenance
    &&& if old.kind == NodeKind::File {
        new.layer is Some && new.layer->0@ == top_dir(old.path@)
    } else {
        new.layer == old.layer
    }
}

/// A layer as the scan publishes it: named after its ID, described
/// mechanically, all of it structural.
pub open spec fn mechanical_layer(l: Layer) -> bool {
    &&& l.name@ == l.id@
    &&& l.provenance == Provenance::Mechanical
    &&& l.description is Some
    &&& l.description->0.text@ == layer_sentence(l.id@)
    &&& l.description->0.provenance == Provenance::Mechanical
}

/// The layer IDs file nodes derive.
pub open spec fn file_layer_ids(nodes: Seq<Node>) -> Set<Seq<char>> {
    Set::new(
        |id: Seq<char>|
            exists|i: int|
                0 <= i < nodes.len() && nodes[i].kind == NodeKind::File && #[trigger] top_dir(
                    nodes[i].path@,
                ) == id,
    )
}

/// Strictly increasing by ID, so sorted and free of repeats.
pub open spec fn layers_sorted(layers: Seq<Layer>) -> bool {
    forall|i: int, j: int| 0 <= i < j < layers.len() ==> lex_lt(layers[i].id@, layers[j].id@)
}


proof fn lemma_file_layer_ids_step(nodes: Seq<Node>, i: int)
    requires
        0 <= i < nodes.len(),
    ensures
        forall|s: Seq<char>|
            #[trigger] file_layer_ids(nodes.take(i + 1)).contains(s) <==> (file_layer_ids(
                nodes.take(i),
            ).contains(s) || (nodes[i].kind == NodeKind::File && top_dir(nodes[i].path@) == s)),
{
    assert forall|s: Seq<char>|
        #[trigger] file_layer_ids(nodes.take(i + 1)).contains(s) <==> (file_layer_ids(
            nodes.take(i),
        ).contains(s) || (nodes[i].kind == NodeKind::File && top_dir(nodes[i].path@) == s)) by {
        let a = nodes.take(i + 1);
        let b = nodes.take(i);
        if file_layer_ids(a).contains(s) {
            let j = choose|j: int|
                0 <= j < a.len() && a[j].kind == NodeKind::File && #[trigger] top_dir(a[j].path@)
                    == s;
            if j < i {
                assert(b[j] == a[j]);
                assert(file_layer_ids(b).contains(s));
            }
        }
        if file_layer_ids(b).contains(s) {
            let j = choose|j: int|
                0 <= j < b.len() && b[j].kind == NodeKind::File && #[trigger] top_dir(b[j].path@)
                    == s;
            assert(b[j] == a[j]);
            assert(file_layer_ids(a).contains(s));
        }
        if nodes[i].kind == NodeKind::File && top_dir(nodes[i].path@) == s {
            assert(a[i] == nodes[i]);
            assert(file_layer_ids(a).contains(s));
        }
    }
}

/// Assigns every file node to exactly one layer derived from its top-level
/// directory and records the layer list, sorted by ID.
pub fn assign_layers(graph: &mut KnowledgeGraph)
    ensures
        final(graph).nodes.len() == old(graph).nodes.len(),
        forall|i: int|
            0 <= i < final(graph).nodes.len() ==> assigned(
                #[trigger] old(graph).nodes[i],
                final(graph).nodes[i],
            ),
        final(graph).edges == old(graph).edges,
        final(graph).project == old(graph).project,
        final(graph).version == old(graph).version,
        final(graph).domain_flows == old(graph).domain_flows,
        final(graph).tour == old(graph).tour,
        layers_sorted(final(graph).layers@),
        forall|i: int| 0 <= i < final(graph).layers.len() ==> mechanical_layer(
            #[trigger] final(graph).layers[i],
        ),
        forall|s: Seq<char>|
            (exists|i: int| 0 <= i < final(graph).layers.len() && #[trigger] final(graph).layers[i].id@ == s)
                <==> file_layer_ids(old(graph).nodes@).contains(s),
{
    let mut ids: Vec<String> = Vec::new();
    let mut i: usize = 0;
    let ghost start = graph.nodes@;
    while i < graph.nodes.len()
        invariant
            i <= graph.nodes.len() == start.len(),
            forall|j: int| 0 <= j < i ==> assigned(#[trigger] start[j], graph.nodes[j]),
            forall|j: int| i <= j < graph.nodes.len() ==> graph.nodes[j] == start[j],
            forall|a: int, b: int| 0 <= a < b < ids.len() ==> lex_lt(ids[a]@, ids[b]@),
            forall|s: Seq<char>|
                #[trigger] listed(ids@, s) <==> file_layer_ids(start.take(i as int)).contains(s),
            graph.edges == old(graph).edges,
            graph.project == old(graph).project,
            graph.version == old(graph).version,
            graph.domain_flows == old(graph).domain_flows,
            graph.tour == old(graph).tour,
        decreases start.len() - i,
    {
        proof {
            lemma_file_layer_ids_step(start, i as int);
        }
        if graph.nodes[i].kind == NodeKind::File {
            let layer = top_directory(graph.nodes[i].path.as_str());
            let copy = layer.clone();
            graph.nodes[i].layer = Some(layer);
            insert_sorted(&mut ids, copy);
        }
        i += 1;
    }
    let mut layers: Vec<Layer> = Vec::new();
    let mut k: usize = 0;
    while k < ids.len()
        invariant
            k <= ids.len(),
            layers.len() == k,
            forall|a: int| 0 <= a < k ==> layers[a].id@ == #[trigger] ids[a]@,
            forall|a: int| 0 <= a < k ==> mechanical_layer(#[trigger] layers[a]),
        decreases ids.len() - k,
    {
        let id = ids[k].clone();
        let text = describe_layer(id.as_str());
        let name = id.clone();
        layers.push(
            Layer {
                id,
                name,
                description: Some(LayerDescription { text, provenance: Provenance::Mechanical }),
                provenance: Provenance::Mechanical,
            },
        );
        k += 1;
    }
    graph.layers = layers;
    proof {
        assert forall|a: int, b: int| 0 <= a < b < graph.layers.len() implies lex_lt(
            graph.layers[a].id@,
            graph.layers[b].id@,
        ) by {
            assert(graph.layers[a].id@ == ids[a]@);
            assert(graph.layers[b].id@ == ids[b]@);
        }
        assert forall|s: Seq<char>|
            (exists|a: int| 0 <= a < graph.layers.len() && #[trigger] graph.layers[a].id@ == s)
                <==> file_layer_ids(start).contains(s) by {
            assert(start.take(start.len() as int) =~= start);
            if exists|a: int| 0 <= a < graph.layers.len() && #[trigger] graph.layers[a].id@ == s {
                let a = choose|a: int| 0 <= a < graph.layers.len() && #[trigger] graph.layers[a].id@ == s;
                assert(ids[a]@ == s);
                assert(listed(ids@, s));
            }
            if file_layer_ids(start).contains(s) {
                let j = choose|j: int|
                    0 <= j < start.len() && start[j].kind == NodeKind::File && #[trigger] top_dir(
                        start[j].path@,
                    ) == s;
                assert(start.take(start.len() as int) =~= start);
                assert(listed(ids@, s));
                let a = choose|a: int| 0 <= a < ids.len() && #[trigger] ids@[a]@ == s;
                assert(graph.layers[a].id@ == s);
            }
        }
    }
}

/// How many `imports` edges arrive at `id`.
pub open spec fn fan_in(edges: Seq<Edge>, id: Seq<char>) -> nat
    decreases edges.len(),
{
    if edges.len() == 0 {
        0
    } else {
        fan_in(edges.drop_last(), id) + if edges.last().kind == EdgeKind::Imports
            && edges.last().target.text() == id {
            1nat
        } else {
            0nat
        }
    }
}

/// How many `imports` edges leave `id`.
pub open spec fn fan_out(edges: Seq<Edge>, id: Seq<char>) -> nat
    decreases edges.len(),
{
    if edges.len() == 0 {
        0
    } else {
        fan_out(edges.drop_last(), id) + if edges.last().kind == EdgeKind::Imports
            && edges.last().source.text() == id {
            1nat
        } else {
            0nat
        }
    }
}

pub proof fn lemma_degree_bounded(edges: Seq<Edge>, id: Seq<char>)
    ensures
        fan_in(edges, id) <= edges.len(),
        fan_out(edges, id) <= edges.len(),
    decreases edges.len(),
{
    if edges.len() > 0 {
        lemma_degree_bounded(edges.drop_last(), id);
    }
}

/// `(fan_in, fan_out)` of `id` over the `imports` edges, in one walk.
pub fn import_degree(edges: &Vec<Edge>, id: &Vec<char>) -> (r: (usize, usize))
    ensures
        r.0 == fan_in(edges@, id@),
        r.1 == fan_out(edges@, id@),
{
    let mut fi: usize = 0;
    let mut fo: usize = 0;
    let mut i: usize = 0;
    while i < edges.len()
        invariant
            i <= edges.len(),
            fi == fan_in(edges@.take(i as int), id@),
            fo == fan_out(edges@.take(i as int), id@),
        decreases edges.len() - i,
    {
        proof {
            assert(edges@.take(i + 1).drop_last() =~= edges@.take(i as int));
            lemma_degree_bounded(edges@.take(i as int), id@);
        }
        if edges[i].kind == EdgeKind::Imports {
            let t = chars_of(edges[i].target.as_str());
            if same(&t, id) {
                fi += 1;
            }
            let s = chars_of(edges[i].source.as_str());
            if same(&s, id) {
                fo += 1;
            }
        }
        i += 1;
    }
    assert(edges@.take(edges.len() as int) =~= edges@);
    (fi, fo)
}

/// Whether some `calls` edge leaves `id`.
pub open spec fn calls_out(edges: Seq<Edge>, id: Seq<char>) -> bool {
    exists|i: int| 0 <= i < edges.len() && edges[i].kind == EdgeKind::Calls && #[trigger] edges[i].source.text() == id
}

/// Whether some `calls` edge arrives at `id`.
pub open spec fn called(edges: Seq<Edge>, id: Seq<char>) -> bool {
    exists|i: int| 0 <= i < edges.len() && edges[i].kind == EdgeKind::Calls && #[trigger] edges[i].target.text() == id
}

/// An entry point: a function nothing calls that itself calls something.
pub open spec fn is_entry_point(n: Node, edges: Seq<Edge>) -> bool {
    n.kind == NodeKind::Function && calls_out(edges, n.id.text()) && !called(edges, n.id.text())
}

/// Whether the file at `path` hosts an entry point.
pub open spec fn hosts_entry(nodes: Seq<Node>, edges: Seq<Edge>, path: Seq<char>) -> bool {
    exists|i: int| 0 <= i < nodes.len() && is_entry_point(nodes[i], edges) && #[trigger] nodes[i].path@ == path
}

/// Whether `id` starts or ends a `calls` edge: `(calls out, called)`.
fn call_ends(edges: &Vec<Edge>, id: &Vec<char>) -> (r: (bool, bool))
    ensures
        r.0 == calls_out(edges@, id@),
        r.1 == called(edges@, id@),
{
    let mut out = false;
    let mut into = false;
    let mut i: usize = 0;
    while i < edges.len()
        invariant
            i <= edges.len(),
            out == exists|j: int| 0 <= j < i && edges@[j].kind == EdgeKind::Calls && #[trigger] edges@[j].source.text() == id@,
            into == exists|j: int| 0 <= j < i && edges@[j].kind == EdgeKind::Calls && #[trigger] edges@[j].target.text() == id@,
        decreases edges.len() - i,
    {
        if edges[i].kind == EdgeKind::Calls {
            let s = chars_of(edges[i].source.as_str());
            if same(&s, id) {
                out = true;
            }
            let t = chars_of(edges[i].target.as_str());
            if same(&t, id) {
                into = true;
            }
        }
        i += 1;
    }
    (out, into)
}

/// The paths of files hosting an entry point (with repeats when a file
/// hosts several).
pub fn entry_point_files(nodes: &Vec<Node>, edges: &Vec<Edge>) -> (r: Vec<String>)
    ensures
        forall|p: Seq<char>| #[trigger] listed(r@, p) <==> hosts_entry(nodes@, edges@, p),
{
    let mut r: Vec<String> = Vec::new();
    let mut i: usize = 0;
    while i < nodes.len()
        invariant
            i <= nodes.len(),
            forall|p: Seq<char>|
                #[trigger] listed(r@, p) <==> exists|j: int|
                    0 <= j < i && is_entry_point(nodes@[j], edges@) && #[trigger] nodes@[j].path@ == p,
        decreases nodes.len() - i,
    {
        if nodes[i].kind == NodeKind::Function {
            let id = chars_of(nodes[i].id.as_str());
            let (out, into) = call_ends(edges, &id);
            if out && !into {
                let ghost before = r@;
                r.push(nodes[i].path.clone());
                proof {
                    assert forall|p: Seq<char>|
                        #[trigger] listed(r@, p) <==> exists|j: int|
                            0 <= j < i + 1 && is_entry_point(nodes@[j], edges@) && #[trigger] nodes@[j].path@ == p by {
                        if listed(r@, p) {
                            let a = choose|a: int| 0 <= a < r.len() && #[trigger] r@[a]@ == p;
                            if a < before.len() {
                                assert(listed(before, p));
                            }
                        }
                        if listed(before, p) {
                            let a = choose|a: int| 0 <= a < before.len() && #[trigger] before[a]@ == p;
                            assert(r@[a] == before[a]);
                        }
                        if nodes@[i as int].path@ == p {
                            assert(r@[before.len() as int] == nodes@[i as int].path);
                        }
                    }
                }
            }
        }
        i += 1;
    }
    r
}


/// A file node's significance: import fan-in + import fan-out + 1 if the
/// file hosts an entry point.
pub open spec fn significance_of(nodes: Seq<Node>, edges: Seq<Edge>, n: Node) -> int {
    fan_in(edges, n.id.text()) + fan_out(edges, n.id.text()) + if hosts_entry(
        nodes,
        edges,
        n.path@,
    ) {
        1int
    } else {
        0int
    }
}

/// Publishes every file node's significance, zeros included; symbol nodes
/// carry none.
pub fn publish_significance(graph: &mut KnowledgeGraph)
    requires
        old(graph).edges.len() <= 0x7fff_ffff,
    ensures
        final(graph).nodes.len() == old(graph).nodes.len(),
        forall|i: int|
            0 <= i < final(graph).nodes.len() ==> {
                let o = #[trigger] old(graph).nodes[i];
                let n = final(graph).nodes[i];
                &&& n.id == o.id && n.kind == o.kind && n.name == o.name && n.path == o.path
                &&& n.summary == o.summary && n.range == o.range && n.layer == o.layer
                &&& n.provenance == o.provenance
                &&& if o.kind == NodeKind::File {
                    n.significance == Some(
                        significance_of(old(graph).nodes@, old(graph).edges@, o) as u32,
                    )
                } else {
                    n.significance is None
                }
            },
        final(graph).edges == old(graph).edges,
        final(graph).layers == old(graph).layers,
        final(graph).project == old(graph).project,
        final(graph).version == old(graph).version,
        final(graph).domain_flows == old(graph).domain_flows,
        final(graph).tour == old(graph).tour,
        forall|i: int|
            0 <= i < old(graph).nodes.len() && (#[trigger] old(graph).nodes[i]).kind == NodeKind::File
                ==> final(graph).nodes[i].significance is Some && final(graph).nodes[i].significance->0
                == imports_into(old(graph).edges@, old(graph).nodes[i].id.text()).len() + imports_from(
                old(graph).edges@,
                old(graph).nodes[i].id.text(),
            ).len() + entry_bonus(old(graph).nodes@, old(graph).edges@, old(graph).nodes[i]),
{
    let entries = entry_point_files(&graph.nodes, &graph.edges);
    let ghost start = graph.nodes@;
    let mut i: usize = 0;
    while i < graph.nodes.len()
        invariant
            i <= graph.nodes.len() == start.len(),
            graph.edges == old(graph).edges,
            graph.layers == old(graph).layers,
            graph.project == old(graph).project,
            graph.version == old(graph).version,
            graph.domain_flows == old(graph).domain_flows,
            graph.tour == old(graph).tour,
            start == old(graph).nodes@,
            graph.edges.len() <= 0x7fff_ffff,
            forall|p: Seq<char>| #[trigger] listed(entries@, p) <==> hosts_entry(start, graph.edges@, p),
            forall|j: int| i <= j < graph.nodes.len() ==> graph.nodes[j] == start[j],
            forall|j: int|
                0 <= j < i ==> {
                    let o = #[trigger] start[j];
                    let n = graph.nodes[j];
                    &&& n.id == o.id && n.kind == o.kind && n.name == o.name && n.path == o.path
                    &&& n.summary == o.summary && n.range == o.range && n.layer == o.layer
                    &&& n.provenance == o.provenance
                    &&& if o.kind == NodeKind::File {
                        n.significance == Some(significance_of(start, graph.edges@, o) as u32)
                    } else {
                        n.significance is None
                    }
                },
        decreases start.len() - i,
    {
        if graph.nodes[i].kind == NodeKind::File {
            let id = chars_of(graph.nodes[i].id.as_str());
            let (fi, fo) = import_degree(&graph.edges, &id);
            proof {
                lemma_degree_bounded(graph.edges@, id@);
            }
            let path = chars_of(graph.nodes[i].path.as_str());
            let bonus: usize = if is_listed(&entries, &path) { 1 } else { 0 };
            graph.nodes[i].significance = Some((fi + fo + bonus) as u32);
        } else {
            graph.nodes[i].significance = None;
        }
        i += 1;
    }
    proof {
        law_significance_counts_import_edges(*old(graph), *graph);
    }
}

/// Whether a `calls` edge runs from `id` to `t`.
pub open spec fn calls_edge(edges: Seq<Edge>, id: Seq<char>, t: Seq<char>) -> bool {
    exists|i: int|
        #![trigger edges[i]]
        0 <= i < edges.len() && edges[i].kind == EdgeKind::Calls && edges[i].source.text() == id
            && edges[i].target.text() == t
}

/// `v` lists the functions `id` calls, each once, in ID order.
pub open spec fn callee_list(edges: Seq<Edge>, id: Seq<char>, v: Seq<Seq<char>>) -> bool {
    strictly_sorted(v) && forall|t: Seq<char>| #[trigger] v.contains(t) <==> calls_edge(edges, id, t)
}

/// The functions `id` calls, each once, in ID order.
pub open spec fn callees_of(edges: Seq<Edge>, id: Seq<char>) -> Seq<Seq<char>> {
    choose|v: Seq<Seq<char>>| callee_list(edges, id, v)
}

/// The functions `id` calls, each once, in ID order.
fn callees(edges: &Vec<Edge>, id: &Vec<char>) -> (r: Vec<String>)
    ensures
        strings(r@) == callees_of(edges@, id@),
        callee_list(edges@, id@, strings(r@)),
{
    let mut r: Vec<String> = Vec::new();
    let mut i: usize = 0;
    while i < edges.len()
        invariant
            i <= edges.len(),
            forall|a: int, b: int| 0 <= a < b < r.len() ==> lex_lt(r[a]@, r[b]@),
            forall|t: Seq<char>| #[trigger] listed(r@, t) <==> calls_edge(edges@.take(i as int), id@, t),
        decreases edges.len() - i,
    {
        let ghost before = edges@.take(i as int);
        let ghost after = edges@.take(i + 1);
        let ghost hit = edges@[i as int].kind == EdgeKind::Calls && edges@[i as int].source.text() == id@;
        let ghost old_r = r@;
        if edges[i].kind == EdgeKind::Calls {
            let source = chars_of(edges[i].source.as_str());
            if same(&source, id) {
                insert_sorted(&mut r, edges[i].target.0.clone());
            }
        }
        proof {
            assert(after[i as int] == edges@[i as int]);
            assert(hit ==> forall|t: Seq<char>| #[trigger] listed(r@, t) <==> (t == edges@[i as int].target.text() || listed(old_r, t)));
            assert(!hit ==> r@ == old_r);
            assert forall|t: Seq<char>| #[trigger] listed(r@, t) <==> calls_edge(after, id@, t) by {
                if calls_edge(before, id@, t) {
                    let j = choose|j: int|
                        #![trigger before[j]]
                        0 <= j < before.len() && before[j].kind == EdgeKind::Calls && before[j].source.text()
                            == id@ && before[j].target.text() == t;
                    assert(after[j] == before[j]);
                }
                if calls_edge(after, id@, t) {
                    let j = choose|j: int|
                        #![trigger after[j]]
                        0 <= j < after.len() && after[j].kind == EdgeKind::Calls && after[j].source.text()
                            == id@ && after[j].target.text() == t;
                    if j < i {
                        assert(before[j] == after[j]);
                    }
                }
            }
        }
        i += 1;
    }
    proof {
        assert(edges@.take(i as int) =~= edges@);
        let v = strings(r@);
        assert forall|t: Seq<char>| #[trigger] v.contains(t) <==> calls_edge(edges@, id@, t) by {
            lemma_listed_strings(r@, t);
        }
        assert(callee_list(edges@, id@, v));
        let w = callees_of(edges@, id@);
        assert(callee_list(edges@, id@, w));
        assert forall|t: Seq<char>| v.contains(t) <==> w.contains(t) by {
            assert(v.contains(t) <==> calls_edge(edges@, id@, t));
            assert(w.contains(t) <==> calls_edge(edges@, id@, t));
        }
        lemma_sorted_unique(v, w);
    }
    r
}

/// Every ID a walk from `root` can meet: the root and every edge target.
pub open spec fn id_universe(edges: Seq<Edge>, root: Seq<char>) -> Set<Seq<char>> {
    edges.map_values(|e: Edge| e.target.text()).to_set().insert(root)
}

/// The walk's state stays within the universe and visits nothing twice.
pub open spec fn walk_ok(edges: Seq<Edge>, root: Seq<char>, stack: Seq<Seq<char>>, steps: Seq<Seq<char>>) -> bool {
    &&& forall|k: int| 0 <= k < stack.len() ==> id_universe(edges, root).contains(#[trigger] stack[k])
    &&& forall|k: int| 0 <= k < steps.len() ==> id_universe(edges, root).contains(#[trigger] steps[k])
    &&& steps.no_duplicates()
}

pub proof fn lemma_fits(s: Seq<Seq<char>>, u: Set<Seq<char>>)
    requires
        u.finite(),
        s.no_duplicates(),
        forall|k: int| 0 <= k < s.len() ==> u.contains(#[trigger] s[k]),
    ensures
        s.len() <= u.len(),
{
    s.unique_seq_to_set();
    assert(s.to_set().subset_of(u));
    vstd::set_lib::lemma_len_subset(s.to_set(), u);
}

pub proof fn lemma_universe_finite(edges: Seq<Edge>, root: Seq<char>)
    ensures
        id_universe(edges, root).finite(),
{
    vstd::seq_lib::seq_to_set_is_finite(edges.map_values(|e: Edge| e.target.text()));
}

/// The depth-first, pre-order walk over `calls` edges from the state
/// `(stack, steps)`: the top of the stack is visited unless it already
/// was, and its callees are stacked so the smallest ID is walked first.
pub open spec fn walk(edges: Seq<Edge>, root: Seq<char>, stack: Seq<Seq<char>>, steps: Seq<Seq<char>>) -> Seq<Seq<char>>
    decreases id_universe(edges, root).len() - steps.len(), stack.len(),
    when walk_ok(edges, root, stack, steps)
{
    if stack.len() == 0 {
        steps
    } else {
        let top = stack.last();
        if steps.contains(top) {
            walk(edges, root, stack.drop_last(), steps)
        } else {
            proof {
                lemma_universe_finite(edges, root);
                assert(id_universe(edges, root).contains(stack[stack.len() - 1]));
                assert forall|k: int| 0 <= k < steps.push(top).len() implies id_universe(edges, root).contains(
                    #[trigger] steps.push(top)[k],
                ) by {
                    if k < steps.len() {
                        assert(steps.push(top)[k] == steps[k]);
                    }
                }
                lemma_fits(steps.push(top), id_universe(edges, root));
            }
            walk(edges, root, stack.drop_last() + callees_of(edges, top).reverse(), steps.push(top))
        }
    }
}

/// The functions a flow rooted at `root` visits, root first.
pub open spec fn flow_steps(edges: Seq<Edge>, root: Seq<char>) -> Seq<Seq<char>> {
    walk(edges, root, seq![root], Seq::<Seq<char>>::empty())
}

/// What a flow calls a step: the name of the node with that ID, or the ID
/// itself when no node has it.
pub open spec fn step_name(nodes: Seq<Node>, id: Seq<char>) -> Seq<char> {
    match last_named(nodes, id) {
        Some(k) => nodes[k].name@,
        None => id,
    }
}

/// The IDs of a list of node IDs.
pub open spec fn id_texts(ids: Seq<NodeId>) -> Seq<Seq<char>> {
    ids.map_values(|n: NodeId| n.text())
}

/// `f` is the mechanical flow rooted at `root`.
pub open spec fn flow_of(nodes: Seq<Node>, edges: Seq<Edge>, root: Node, f: DomainFlow) -> bool {
    let steps = flow_steps(edges, root.id.text());
    &&& f.id@ == "flow:"@ + root.id.text()
    &&& f.name@ == joined(steps.map_values(|s: Seq<char>| step_name(nodes, s)), " → "@)
    &&& f.domain@ == top_dir(root.path@)
    &&& id_texts(f.steps@) == steps
    &&& f.provenance == Provenance::Mechanical
}

/// `flows` is one flow per entry point, in node order.
pub open spec fn is_flow_list(nodes: Seq<Node>, edges: Seq<Edge>, flows: Seq<DomainFlow>) -> bool {
    let roots = kept(nodes.len(), |i: int| is_entry_point(nodes[i], edges));
    &&& flows.len() == roots.len()
    &&& forall|k: int| 0 <= k < flows.len() ==> flow_of(nodes, edges, nodes[roots[k]], #[trigger] flows[k])
}

/// The name a flow gives one step.
fn step_label(nodes: &Vec<Node>, id: &String) -> (r: Vec<char>)
    ensures
        r@ == step_name(nodes@, id@),
{
    let v = chars_of(id.as_str());
    match last_named_index(nodes, &v) {
        Some(k) => {
            proof {
                lemma_last_named(nodes@, v@);
            }
            chars_of(nodes[k].name.as_str())
        },
        None => v,
    }
}

/// The flow rooted at the entry point `root`.
fn flow_from(graph: &KnowledgeGraph, root: &Node) -> (f: DomainFlow)
    ensures
        flow_of(graph.nodes@, graph.edges@, *root, f),
{
    let ghost edges = graph.edges@;
    let ghost rid = root.id.text();
    let mut stack: Vec<String> = Vec::new();
    stack.push(root.id.0.clone());
    let mut steps: Vec<String> = Vec::new();
    proof {
        lemma_universe_finite(edges, rid);
        assert(strings(stack@) =~= seq![rid]);
        assert(strings(steps@) =~= Seq::<Seq<char>>::empty());
        assert(id_universe(edges, rid).contains(rid));
    }
    while stack.len() > 0
        invariant
            edges == graph.edges@,
            id_universe(edges, rid).finite(),
            walk_ok(edges, rid, strings(stack@), strings(steps@)),
            walk(edges, rid, strings(stack@), strings(steps@)) == flow_steps(edges, rid),
        decreases id_universe(edges, rid).len() - steps.len(), stack.len(),
    {
        let ghost st = strings(stack@);
        let ghost sp = strings(steps@);
        proof {
            lemma_fits(sp, id_universe(edges, rid));
        }
        let top = stack.pop().unwrap();
        let tv = chars_of(top.as_str());
        proof {
            assert(st.last() == tv@);
            assert(strings(stack@) =~= st.drop_last());
            lemma_listed_strings(steps@, tv@);
        }
        if !is_listed(&steps, &tv) {
            let next = callees(&graph.edges, &tv);
            steps.push(top);
            proof {
                assert(strings(steps@) =~= sp.push(tv@));
            }
            let ghost base = strings(stack@);
            let mut k: usize = next.len();
            proof {
                assert(strings(next@).subrange(k as int, next.len() as int).reverse() =~= Seq::<Seq<char>>::empty());
                assert(base + Seq::<Seq<char>>::empty() =~= base);
            }
            while k > 0
                invariant
                    k <= next.len(),
                    strings(stack@) == base + strings(next@).subrange(k as int, next.len() as int).reverse(),
                decreases k,
            {
                let ghost before = strings(stack@);
                stack.push(next[k - 1].clone());
                proof {
                    let s = strings(next@);
                    assert(strings(stack@) =~= before.push(s[k - 1]));
                    assert(s.subrange(k - 1, s.len() as int).reverse() =~= s.subrange(k as int, s.len() as int).reverse().push(s[k - 1]));
                }
                k -= 1;
            }
            proof {
                let s = strings(next@);
                assert(s.subrange(0, s.len() as int) =~= s);
                assert(strings(stack@) =~= st.drop_last() + callees_of(edges, tv@).reverse());
                let u = id_universe(edges, rid);
                assert forall|j: int| 0 <= j < strings(stack@).len() implies u.contains(#[trigger] strings(stack@)[j]) by {
                    if j < st.drop_last().len() {
                        assert(strings(stack@)[j] == st[j]);
                    } else {
                        let r = callees_of(edges, tv@).reverse();
                        let c = r[j - st.drop_last().len()];
                        assert(strings(stack@)[j] == c);
                        assert(callees_of(edges, tv@).contains(c));
                        assert(calls_edge(edges, tv@, c));
                        let e = choose|e: int|
                            #![trigger edges[e]]
                            0 <= e < edges.len() && edges[e].kind == EdgeKind::Calls && edges[e].source.text()
                                == tv@ && edges[e].target.text() == c;
                        assert(edges.map_values(|x: Edge| x.target.text())[e] == c);
                    }
                }
                assert forall|j: int| 0 <= j < strings(steps@).len() implies u.contains(#[trigger] strings(steps@)[j]) by {
                    if j < sp.len() {
                        assert(strings(steps@)[j] == sp[j]);
                    } else {
                        assert(strings(steps@)[j] == st[st.len() - 1]);
                    }
                }
                assert(strings(steps@).no_duplicates());
                lemma_fits(strings(steps@), u);
            }
        }
    }
    proof {
        assert(strings(steps@) == flow_steps(edges, rid));
    }
    // The name: each step's name, joined by arrows.
    let mut name: Vec<char> = Vec::new();
    let mut ids: Vec<NodeId> = Vec::new();
    let ghost names = strings(steps@).map_values(|s: Seq<char>| step_name(graph.nodes@, s));
    let mut q: usize = 0;
    while q < steps.len()
        invariant
            q <= steps.len(),
            names == strings(steps@).map_values(|s: Seq<char>| step_name(graph.nodes@, s)),
            name@ == joined(names.take(q as int), " → "@),
            id_texts(ids@) == strings(steps@).take(q as int),
        decreases steps.len() - q,
    {
        let label = step_label(&graph.nodes, &steps[q]);
        proof {
            assert(names.take(q + 1).drop_last() =~= names.take(q as int));
            assert(names.take(q + 1).last() == label@);
        }
        if q > 0 {
            append_str(&mut name, " → ");
        }
        append(&mut name, &label);
        let ghost before = ids@;
        ids.push(NodeId(steps[q].clone()));
        proof {
            assert(id_texts(ids@) =~= id_texts(before).push(steps@[q as int]@));
            assert(strings(steps@).take(q + 1) =~= strings(steps@).take(q as int).push(steps@[q as int]@));
            if q == 0 {
                assert(names.take(1) =~= seq![label@]);
                assert(name@ =~= joined(names.take(1), " → "@));
            } else {
                assert(name@ =~= joined(names.take(q + 1), " → "@));
            }
        }
        q += 1;
    }
    proof {
        assert(names.take(q as int) =~= names);
        assert(strings(steps@).take(q as int) =~= strings(steps@));
    }
    let mut fid = chars_of("flow:");
    append_str(&mut fid, root.id.as_str());
    proof {
        reveal_strlit("flow:");
        assert(fid@ =~= "flow:"@ + rid);
    }
    DomainFlow {
        id: string_of(&fid),
        name: string_of(&name),
        domain: top_directory(root.path.as_str()),
        steps: ids,
        provenance: Provenance::Mechanical,
    }
}

/// Projects domain flows: one per entry point — a function no other
/// function calls that itself calls at least one — in node order, each
/// walking the `calls` edges depth-first with sorted neighbours.
pub fn project_flows(graph: &KnowledgeGraph) -> (flows: Vec<DomainFlow>)
    ensures
        is_flow_list(graph.nodes@, graph.edges@, flows@),
{
    let ghost nodes = graph.nodes@;
    let ghost edges = graph.edges@;
    let ghost keep = |i: int| is_entry_point(nodes[i], edges);
    let mut flows: Vec<DomainFlow> = Vec::new();
    let mut i: usize = 0;
    while i < graph.nodes.len()
        invariant
            i <= graph.nodes.len(),
            nodes == graph.nodes@,
            edges == graph.edges@,
            keep == (|i: int| is_entry_point(nodes[i], edges)),
            flows.len() == kept(i as nat, keep).len(),
            forall|k: int| 0 <= k < flows.len() ==> flow_of(nodes, edges, nodes[kept(i as nat, keep)[k]], #[trigger] flows[k]),
        decreases graph.nodes.len() - i,
    {
        proof {
            assert(kept((i + 1) as nat, keep) == if keep(i as int) {
                kept(i as nat, keep).push(i as int)
            } else {
                kept(i as nat, keep)
            });
        }
        let root = &graph.nodes[i];
        if root.kind == NodeKind::Function {
            let id = chars_of(root.id.as_str());
            let (out, into) = call_ends(&graph.edges, &id);
            if out && !into {
                flows.push(flow_from(graph, root));
            }
        }
        i += 1;
    }
    flows
}

/// The most stops a guided tour may have.
pub const TOUR_MAX_STEPS: usize = 12;

/// A file the tour may stop at: one whose published significance is
/// positive.
pub open spec fn is_candidate(n: Node) -> bool {
    n.kind == NodeKind::File && n.significance is Some && n.significance->0 > 0
}

/// Where a file lands in the walk: fan-out − fan-in + the entry bonus.
pub open spec fn reading_order(nodes: Seq<Node>, edges: Seq<Edge>, n: Node) -> int {
    fan_out(edges, n.id.text()) - fan_in(edges, n.id.text()) + if hosts_entry(
        nodes,
        edges,
        n.path@,
    ) {
        1int
    } else {
        0int
    }
}

/// Selection rank: higher significance first, ties on path.
pub open spec fn selects_before(a: Node, b: Node) -> bool {
    a.significance->0 > b.significance->0 || (a.significance->0 == b.significance->0
        && lex_lt(a.path@, b.path@))
}

/// Walk order: higher reading order first, ties on path.
pub open spec fn reads_before(nodes: Seq<Node>, edges: Seq<Edge>, a: Node, b: Node) -> bool {
    reading_order(nodes, edges, a) > reading_order(nodes, edges, b) || (reading_order(
        nodes,
        edges,
        a,
    ) == reading_order(nodes, edges, b) && lex_lt(a.path@, b.path@))
}

/// The mechanical narration of a tour stop.
pub open spec fn tour_label(nodes: Seq<Node>, edges: Seq<Edge>, n: Node) -> Seq<char> {
    (if hosts_entry(nodes, edges, n.path@) {
        "Entry point: "@
    } else {
        Seq::<char>::empty()
    }) + n.path@ + " — fan-in "@ + decimal(fan_in(edges, n.id.text())) + ", fan-out "@
        + decimal(fan_out(edges, n.id.text()))
}

/// `order` (node indices) is the tour: at most the bound, every candidate
/// when fewer, no repeats, the best-ranked candidates selected, and walked
/// in reading order.
pub open spec fn is_tour_order(nodes: Seq<Node>, edges: Seq<Edge>, order: Seq<int>) -> bool {
    &&& order.len() <= TOUR_MAX_STEPS
    &&& forall|k: int| 0 <= k < order.len() ==> 0 <= #[trigger] order[k] < nodes.len() && is_candidate(nodes[order[k]])
    &&& forall|k: int, l: int| 0 <= k < l < order.len() ==> order[k] != order[l]
    &&& order.len() < TOUR_MAX_STEPS ==> forall|c: int| 0 <= c < nodes.len() && is_candidate(#[trigger] nodes[c]) ==> order.contains(c)
    &&& forall|c: int|
        0 <= c < nodes.len() && is_candidate(#[trigger] nodes[c]) && !order.contains(c)
            ==> forall|k: int| 0 <= k < order.len() ==> !selects_before(nodes[c], #[trigger] nodes[order[k]])
    &&& forall|k: int, l: int|
        0 <= k < l < order.len() ==> !reads_before(nodes, edges, nodes[order[l]], nodes[order[k]])
}

/// The tour the map publishes, over its nodes and edges.
pub open spec fn is_tour(nodes: Seq<Node>, edges: Seq<Edge>, steps: Seq<TourStep>) -> bool {
    exists|order: Seq<int>|
        is_tour_order(nodes, edges, order) && order.len() == steps.len() && forall|k: int|
            0 <= k < steps.len() ==> {
                let n = nodes[order[k]];
                &&& (#[trigger] steps[k]).node.text() == n.id.text()
                &&& steps[k].label@ == tour_label(nodes, edges, n)
                &&& steps[k].provenance == Provenance::Mechanical
            }
}

proof fn lemma_selects_transitive(a: Node, b: Node, c: Node)
    requires
        selects_before(a, b),
        selects_before(b, c),
    ensures
        selects_before(a, c),
{
    if a.significance->0 == b.significance->0 && b.significance->0 == c.significance->0 {
        lemma_lex_transitive(a.path@, b.path@, c.path@);
    }
}

proof fn lemma_reads_transitive(nodes: Seq<Node>, edges: Seq<Edge>, a: Node, b: Node, c: Node)
    requires
        reads_before(nodes, edges, a, b),
        reads_before(nodes, edges, b, c),
    ensures
        reads_before(nodes, edges, a, c),
{
    if reading_order(nodes, edges, a) == reading_order(nodes, edges, b) && reading_order(
        nodes,
        edges,
        b,
    ) == reading_order(nodes, edges, c) {
        lemma_lex_transitive(a.path@, b.path@, c.path@);
    }
}

/// The facts the tour ranks one candidate by.
struct Candidate {
    index: usize,
    significance: u32,
    order: i128,
    path: Vec<char>,
}

spec fn same_candidate(a: Candidate, b: Candidate) -> bool {
    a.index == b.index && a.significance == b.significance && a.order == b.order && a.path@ == b.path@
}

spec fn candidate_of(nodes: Seq<Node>, edges: Seq<Edge>, c: Candidate) -> bool {
    &&& c.index < nodes.len()
    &&& is_candidate(nodes[c.index as int])
    &&& c.significance == nodes[c.index as int].significance->0
    &&& c.order == reading_order(nodes, edges, nodes[c.index as int])
    &&& c.path@ == nodes[c.index as int].path@
}

/// Whether `a` outranks `b`: in selection (`by_order` false) or in the walk.
fn outranks(a: &Candidate, b: &Candidate, by_order: bool) -> (r: bool)
    ensures
        r == if by_order {
            a.order > b.order || (a.order == b.order && lex_lt(a.path@, b.path@))
        } else {
            a.significance > b.significance || (a.significance == b.significance && lex_lt(
                a.path@,
                b.path@,
            ))
        },
{
    if by_order {
        a.order > b.order || (a.order == b.order && lex_less(&a.path, &b.path))
    } else {
        a.significance > b.significance || (a.significance == b.significance && lex_less(
            &a.path,
            &b.path,
        ))
    }
}

spec fn ranks(nodes: Seq<Node>, edges: Seq<Edge>, a: Candidate, b: Candidate, by_order: bool) -> bool {
    if by_order {
        reads_before(nodes, edges, nodes[a.index as int], nodes[b.index as int])
    } else {
        selects_before(nodes[a.index as int], nodes[b.index as int])
    }
}

/// The best candidate of `pool` not yet taken.
fn best(
    pool: &Vec<Candidate>,
    taken: &Vec<bool>,
    by_order: bool,
    Ghost(nodes): Ghost<Seq<Node>>,
    Ghost(edges): Ghost<Seq<Edge>>,
) -> (r: Option<usize>)
    requires
        taken.len() == pool.len(),
        forall|k: int| 0 <= k < pool.len() ==> candidate_of(nodes, edges, #[trigger] pool[k]),
    ensures
        match r {
            Some(b) => b < pool.len() && !taken[b as int] && forall|j: int|
                0 <= j < pool.len() && !taken[j] ==> !ranks(nodes, edges, #[trigger] pool[j], pool[b as int], by_order),
            None => forall|j: int| 0 <= j < pool.len() ==> taken[j],
        },
{
    let mut found: Option<usize> = None;
    let mut j: usize = 0;
    while j < pool.len()
        invariant
            j <= pool.len() == taken.len(),
            forall|k: int| 0 <= k < pool.len() ==> candidate_of(nodes, edges, #[trigger] pool[k]),
            match found {
                Some(b) => b < j && !taken[b as int] && forall|i: int|
                    0 <= i < j && !taken[i] ==> !ranks(nodes, edges, #[trigger] pool[i], pool[b as int], by_order),
                None => forall|i: int| 0 <= i < j ==> taken[i],
            },
        decreases pool.len() - j,
    {
        if !taken[j] {
            match found {
                None => {
                    found = Some(j);
                    proof {
                        let pj = pool[j as int];
                        lemma_lex_irreflexive(pj.path@);
                    }
                },
                Some(b) => {
                    if outranks(&pool[j], &pool[b], by_order) {
                        proof {
                            let pj = pool[j as int];
                            let pb = pool[b as int];
                            lemma_lex_irreflexive(pj.path@);
                            assert forall|i: int| 0 <= i < j + 1 && !taken[i] implies !ranks(
                                nodes,
                                edges,
                                #[trigger] pool[i],
                                pj,
                                by_order,
                            ) by {
                                if i < j && ranks(nodes, edges, pool[i], pj, by_order) {
                                    if by_order {
                                        lemma_reads_transitive(nodes, edges, nodes[pool[i].index as int], nodes[pj.index as int], nodes[pb.index as int]);
                                    } else {
                                        lemma_selects_transitive(nodes[pool[i].index as int], nodes[pj.index as int], nodes[pb.index as int]);
                                    }
                                }
                            }
                        }
                        found = Some(j);
                    }
                },
            }
        }
        j += 1;
    }
    found
}

proof fn lemma_room_left(s: Seq<int>, n: int, b: int)
    requires
        0 <= b < n,
        forall|k: int| 0 <= k < s.len() ==> 0 <= #[trigger] s[k] < n && s[k] != b,
        forall|k: int, l: int| 0 <= k < l < s.len() ==> s[k] != s[l],
    ensures
        s.len() < n,
{
    assert(s.no_duplicates());
    s.unique_seq_to_set();
    vstd::set_lib::lemma_int_range(0, n);
    let r = vstd::set_lib::set_int_range(0, n).remove(b);
    assert(s.to_set().subset_of(r));
    vstd::set_lib::lemma_len_subset(s.to_set(), r);
}

proof fn lemma_covered(s: Seq<int>, n: int)
    requires
        0 <= n,
        forall|k: int| 0 <= k < s.len() ==> 0 <= #[trigger] s[k] < n,
        forall|k: int, l: int| 0 <= k < l < s.len() ==> s[k] != s[l],
        forall|p: int| 0 <= p < n ==> s.contains(p),
    ensures
        s.len() == n,
{
    assert(s.no_duplicates());
    s.unique_seq_to_set();
    vstd::set_lib::lemma_int_range(0, n);
    let r = vstd::set_lib::set_int_range(0, n);
    assert(s.to_set().subset_of(r));
    vstd::set_lib::lemma_len_subset(s.to_set(), r);
    assert(r.subset_of(s.to_set()));
    vstd::set_lib::lemma_len_subset(r, s.to_set());
}

/// Builds the guided tour: the highest-significance files (at most
/// [`TOUR_MAX_STEPS`], ties on path), walked in reading order (fan-out −
/// fan-in + entry bonus, descending, ties on path).
pub fn build_tour(graph: &KnowledgeGraph) -> (steps: Vec<TourStep>)
    ensures
        is_tour(graph.nodes@, graph.edges@, steps@),
        exists|at: Seq<int>| walks_in_rank_order(graph.nodes@, graph.edges@, steps@, at),
{
    let ghost nodes = graph.nodes@;
    let ghost edges = graph.edges@;
    let entries = entry_point_files(&graph.nodes, &graph.edges);
    let mut pool: Vec<Candidate> = Vec::new();
    let mut degrees: Vec<(usize, usize, bool)> = Vec::new();
    let mut i: usize = 0;
    while i < graph.nodes.len()
        invariant
            i <= graph.nodes.len(),
            nodes == graph.nodes@,
            edges == graph.edges@,
            degrees.len() == pool.len(),
            forall|p: Seq<char>| #[trigger] listed(entries@, p) <==> hosts_entry(nodes, edges, p),
            forall|k: int| 0 <= k < pool.len() ==> candidate_of(nodes, edges, #[trigger] pool[k]),
            forall|k: int| 0 <= k < pool.len() ==> (#[trigger] pool[k]).index < i,
            forall|k: int| 0 <= k < pool.len() ==> {
                let n = nodes[(#[trigger] pool[k]).index as int];
                &&& degrees[k].0 == fan_in(edges, n.id.text())
                &&& degrees[k].1 == fan_out(edges, n.id.text())
                &&& degrees[k].2 == hosts_entry(nodes, edges, n.path@)
            },
            forall|k: int, l: int| 0 <= k < l < pool.len() ==> pool[k].index < pool[l].index,
            forall|c: int| 0 <= c < i && is_candidate(#[trigger] nodes[c]) ==> exists|k: int| 0 <= k < pool.len() && pool[k].index == c,
        decreases graph.nodes.len() - i,
    {
        let node = &graph.nodes[i];
        match node.significance {
            Some(sig) => {
                if node.kind == NodeKind::File && sig > 0 {
                    let id = chars_of(node.id.as_str());
                    let (fi, fo) = import_degree(&graph.edges, &id);
                    let path = chars_of(node.path.as_str());
                    let entry = is_listed(&entries, &path);
                    let order: i128 = fo as i128 - fi as i128 + if entry { 1i128 } else { 0i128 };
                    let ghost before = pool@;
                    pool.push(Candidate { index: i, significance: sig, order, path });
                    degrees.push((fi, fo, entry));
                    proof {
                        assert forall|c: int| 0 <= c < i + 1 && is_candidate(#[trigger] nodes[c]) implies exists|k: int| 0 <= k < pool.len() && pool[k].index == c by {
                            if c < i {
                                let k = choose|k: int| 0 <= k < before.len() && before[k].index == c;
                                assert(pool[k] == before[k]);
                            } else {
                                assert(pool[before.len() as int].index == c);
                            }
                        }
                    }
                }
            },
            None => {},
        }
        i += 1;
    }
    // Selection: the best-ranked candidates, at most the bound.
    let mut taken: Vec<bool> = Vec::new();
    let mut t: usize = 0;
    while t < pool.len()
        invariant
            t <= pool.len(),
            taken.len() == t,
            forall|k: int| 0 <= k < t ==> !taken[k],
        decreases pool.len() - t,
    {
        taken.push(false);
        t += 1;
    }
    let mut chosen: Vec<usize> = Vec::new();
    while chosen.len() < TOUR_MAX_STEPS
        invariant
            taken.len() == pool.len(),
            chosen.len() <= TOUR_MAX_STEPS,
            forall|k: int| 0 <= k < pool.len() ==> candidate_of(nodes, edges, #[trigger] pool[k]),
            forall|k: int| 0 <= k < chosen.len() ==> (#[trigger] chosen[k]) < pool.len() && taken[chosen[k] as int],
            forall|k: int, l: int| 0 <= k < l < chosen.len() ==> chosen[k] != chosen[l],
            forall|p: int| 0 <= p < pool.len() && taken[p] ==> chosen@.contains(p as usize),
            forall|k: int, j: int| 0 <= k < chosen.len() && 0 <= j < pool.len() && !taken[j] ==> !selects_before(nodes[pool[j].index as int], nodes[pool[chosen[k] as int].index as int]),
        ensures
            chosen.len() <= TOUR_MAX_STEPS,
            taken.len() == pool.len(),
            forall|k: int| 0 <= k < chosen.len() ==> (#[trigger] chosen[k]) < pool.len() && taken[chosen[k] as int],
            forall|k: int, l: int| 0 <= k < l < chosen.len() ==> chosen[k] != chosen[l],
            forall|p: int| 0 <= p < pool.len() && taken[p] ==> chosen@.contains(p as usize),
            forall|k: int, j: int| 0 <= k < chosen.len() && 0 <= j < pool.len() && !taken[j] ==> !selects_before(nodes[pool[j].index as int], nodes[pool[chosen[k] as int].index as int]),
            chosen.len() < TOUR_MAX_STEPS ==> forall|p: int| 0 <= p < pool.len() ==> taken[p],
        decreases TOUR_MAX_STEPS - chosen.len(),
    {
        match best(&pool, &taken, false, Ghost(nodes), Ghost(edges)) {
            Some(b) => {
                let ghost old_taken = taken@;
                let ghost old_chosen = chosen@;
                taken.set(b, true);
                chosen.push(b);
                proof {
                    assert forall|p: int| 0 <= p < pool.len() && taken[p] implies chosen@.contains(p as usize) by {
                        if p != b {
                            assert(old_taken[p]);
                            let w = choose|w: int| 0 <= w < old_chosen.len() && old_chosen[w] == p as usize;
                            assert(chosen@[w] == p as usize);
                        } else {
                            assert(chosen@[old_chosen.len() as int] == b);
                        }
                    }
                    assert forall|k: int, l: int| 0 <= k < l < chosen.len() implies chosen[k] != chosen[l] by {
                        if l == old_chosen.len() {
                            assert(old_taken[chosen[k] as int]);
                        }
                    }
                }
            },
            None => {
                break;
            },
        }
    }
    // The walk: the chosen candidates in reading order.
    let mut pool2: Vec<Candidate> = Vec::new();
    let mut deg2: Vec<(usize, usize, bool)> = Vec::new();
    let mut k: usize = 0;
    while k < chosen.len()
        invariant
            k <= chosen.len(),
            pool2.len() == k,
            deg2.len() == k,
            forall|q: int| 0 <= q < pool.len() ==> candidate_of(nodes, edges, #[trigger] pool[q]),
            forall|q: int| 0 <= q < chosen.len() ==> (#[trigger] chosen[q]) < pool.len(),
            degrees.len() == pool.len(),
            forall|q: int| 0 <= q < k ==> same_candidate(#[trigger] pool2[q], pool[chosen[q] as int]),
            forall|q: int| 0 <= q < k ==> #[trigger] deg2[q] == degrees[chosen[q] as int],
        decreases chosen.len() - k,
    {
        let c = &pool[chosen[k]];
        pool2.push(Candidate { index: c.index, significance: c.significance, order: c.order, path: c.path.clone() });
        deg2.push(degrees[chosen[k]]);
        proof {
            assert(same_candidate(pool2[k as int], pool[chosen[k as int] as int]));
        }
        k += 1;
    }
    let mut taken2: Vec<bool> = Vec::new();
    let mut t2: usize = 0;
    while t2 < pool2.len()
        invariant
            t2 <= pool2.len(),
            taken2.len() == t2,
            forall|q: int| 0 <= q < t2 ==> !taken2[q],
        decreases pool2.len() - t2,
    {
        taken2.push(false);
        t2 += 1;
    }
    let mut walk: Vec<usize> = Vec::new();
    loop
        invariant
            taken2.len() == pool2.len(),
            walk.len() <= pool2.len(),
            forall|q: int| 0 <= q < pool2.len() ==> candidate_of(nodes, edges, #[trigger] pool2[q]),
            forall|q: int| 0 <= q < walk.len() ==> (#[trigger] walk[q]) < pool2.len() && taken2[walk[q] as int],
            forall|q: int, l: int| 0 <= q < l < walk.len() ==> walk[q] != walk[l],
            forall|p: int| 0 <= p < pool2.len() && taken2[p] ==> walk@.contains(p as usize),
            forall|q: int, j: int| 0 <= q < walk.len() && 0 <= j < pool2.len() && !taken2[j] ==> !reads_before(nodes, edges, nodes[pool2[j].index as int], nodes[pool2[walk[q] as int].index as int]),
            forall|q: int, l: int| 0 <= q < l < walk.len() ==> !reads_before(nodes, edges, nodes[pool2[walk[l] as int].index as int], nodes[pool2[walk[q] as int].index as int]),
        ensures
            walk.len() <= pool2.len(),
            forall|q: int| 0 <= q < walk.len() ==> (#[trigger] walk[q]) < pool2.len(),
            forall|q: int, l: int| 0 <= q < l < walk.len() ==> walk[q] != walk[l],
            forall|p: usize| p < pool2.len() ==> #[trigger] walk@.contains(p),
            forall|q: int, l: int| 0 <= q < l < walk.len() ==> !reads_before(nodes, edges, nodes[pool2[walk[l] as int].index as int], nodes[pool2[walk[q] as int].index as int]),
        decreases pool2.len() - walk.len(),
    {
        match best(&pool2, &taken2, true, Ghost(nodes), Ghost(edges)) {
            Some(b) => {
                proof {
                    lemma_room_left(walk@.map_values(|x: usize| x as int), pool2.len() as int, b as int);
                }
                let ghost old_taken = taken2@;
                let ghost old_walk = walk@;
                taken2.set(b, true);
                walk.push(b);
                proof {
                    assert forall|p: int| 0 <= p < pool2.len() && taken2[p] implies walk@.contains(p as usize) by {
                        if p != b {
                            assert(old_taken[p]);
                            let w = choose|w: int| 0 <= w < old_walk.len() && old_walk[w] == p as usize;
                            assert(walk@[w] == p as usize);
                        } else {
                            assert(walk@[old_walk.len() as int] == b);
                        }
                    }
                    assert forall|q: int, l: int| 0 <= q < l < walk.len() implies walk[q] != walk[l] by {
                        if l == old_walk.len() {
                            assert(old_taken[walk[q] as int]);
                        }
                    }
                    assert forall|q: int, l: int| 0 <= q < l < walk.len() implies !reads_before(nodes, edges, nodes[pool2[walk[l] as int].index as int], nodes[pool2[walk[q] as int].index as int]) by {
                        if l == old_walk.len() {
                            assert(!old_taken[b as int]);
                            assert(walk[q] == old_walk[q]);
                        } else {
                            assert(walk[q] == old_walk[q] && walk[l] == old_walk[l]);
                        }
                    }
                }
            },
            None => {
                proof {
                    assert forall|p: usize| p < pool2.len() implies #[trigger] walk@.contains(p) by {
                        assert(taken2[p as int]);
                    }
                }
                break;
            },
        }
    }
    proof {
        let mapped = walk@.map_values(|x: usize| x as int);
        assert forall|p: int| 0 <= p < pool2.len() implies mapped.contains(p) by {
            assert(walk@.contains(p as usize));
            let w = choose|w: int| 0 <= w < walk.len() && walk@[w] == p as usize;
            assert(mapped[w] == p);
        }
        lemma_covered(mapped, pool2.len() as int);
    }
    // Every slot of `pool2` is walked exactly once.
    let mut steps: Vec<TourStep> = Vec::new();
    let mut w: usize = 0;
    while w < walk.len()
        invariant
            w <= walk.len(),
            steps.len() == w,
            forall|q: int| 0 <= q < walk.len() ==> (#[trigger] walk[q]) < pool2.len(),
            deg2.len() == pool2.len(),
            forall|q: int| 0 <= q < pool2.len() ==> candidate_of(nodes, edges, #[trigger] pool2[q]),
            forall|q: int| 0 <= q < w ==> {
                let n = nodes[pool2[walk[q] as int].index as int];
                &&& (#[trigger] steps[q]).node.text() == n.id.text()
                &&& steps[q].label@ == tour_label(nodes, edges, n)
                &&& steps[q].provenance == Provenance::Mechanical
            },
            forall|q: int| 0 <= q < pool2.len() ==> {
                let n = nodes[(#[trigger] pool2[q]).index as int];
                &&& deg2[q].0 == fan_in(edges, n.id.text())
                &&& deg2[q].1 == fan_out(edges, n.id.text())
                &&& deg2[q].2 == hosts_entry(nodes, edges, n.path@)
            },
            nodes == graph.nodes@,
        decreases walk.len() - w,
    {
        let c = &pool2[walk[w]];
        let (fi, fo, entry) = deg2[walk[w]];
        let node = &graph.nodes[c.index];
        let mut label: Vec<char> = if entry { chars_of("Entry point: ") } else { Vec::new() };
        append(&mut label, &c.path);
        append_str(&mut label, " — fan-in ");
        append(&mut label, &decimal_chars(fi as u64));
        append_str(&mut label, ", fan-out ");
        append(&mut label, &decimal_chars(fo as u64));
        proof {
            assert(label@ =~= tour_label(nodes, edges, nodes[c.index as int]));
        }
        steps.push(TourStep { node: node.id.duplicate(), label: string_of(&label), provenance: Provenance::Mechanical });
        w += 1;
    }
    proof {
        let order = Seq::new(walk.len() as nat, |q: int| pool2[walk[q] as int].index as int);
        assert forall|q: int, l: int| 0 <= q < l < order.len() implies order[q] != order[l] by {
            let a = chosen[walk[q] as int] as int;
            let b = chosen[walk[l] as int] as int;
            assert(same_candidate(pool2[walk[q] as int], pool[a]));
            assert(same_candidate(pool2[walk[l] as int], pool[b]));
            assert(a != b);
            if a < b {
                assert(pool[a].index < pool[b].index);
            } else {
                assert(pool[b].index < pool[a].index);
            }
        }
        assert forall|c: int| 0 <= c < nodes.len() && is_candidate(#[trigger] nodes[c]) && !order.contains(c) implies forall|k: int| 0 <= k < order.len() ==> !selects_before(nodes[c], #[trigger] nodes[order[k]]) by {
            let j = choose|j: int| 0 <= j < pool.len() && pool[j].index == c;
            if taken[j] {
                let m = choose|m: int| 0 <= m < chosen.len() && chosen@[m] == j as usize;
                assert(walk@.contains(m as usize));
                let q = choose|q: int| 0 <= q < walk.len() && walk@[q] == m as usize;
                assert(same_candidate(pool2[m], pool[j]));
                assert(order[q] == c);
            }
            assert forall|k: int| 0 <= k < order.len() implies !selects_before(nodes[c], #[trigger] nodes[order[k]]) by {
                assert(same_candidate(pool2[walk[k] as int], pool[chosen[walk[k] as int] as int]));
            }
        }
        assert(order.len() < TOUR_MAX_STEPS ==> forall|c: int| 0 <= c < nodes.len() && is_candidate(#[trigger] nodes[c]) ==> order.contains(c)) by {
            if order.len() < TOUR_MAX_STEPS {
                assert forall|c: int| 0 <= c < nodes.len() && is_candidate(#[trigger] nodes[c]) implies order.contains(c) by {
                    let j = choose|j: int| 0 <= j < pool.len() && pool[j].index == c;
                    assert(taken[j]);
                    let m = choose|m: int| 0 <= m < chosen.len() && chosen@[m] == j as usize;
                    assert(walk@.contains(m as usize));
                    let q = choose|q: int| 0 <= q < walk.len() && walk@[q] == m as usize;
                    assert(same_candidate(pool2[m], pool[j]));
                    assert(order[q] == c);
                }
            }
        }
        assert forall|k: int| 0 <= k < order.len() implies 0 <= #[trigger] order[k] < nodes.len() && is_candidate(nodes[order[k]]) by {
            assert(candidate_of(nodes, edges, pool2[walk[k] as int]));
        }
        assert(is_tour_order(nodes, edges, order));
        assert(order.len() == steps.len());
    }
    proof {
        law_the_tour_walks_from_importers_to_imported(graph.nodes@, graph.edges@, steps@);
    }
    steps
}

proof fn lemma_hosts_entry_same(a: Seq<Node>, b: Seq<Node>, edges: Seq<Edge>, path: Seq<char>)
    requires
        a.len() == b.len(),
        forall|i: int| 0 <= i < a.len() ==> (#[trigger] a[i]).kind == b[i].kind && a[i].id == b[i].id && a[i].path == b[i].path,
    ensures
        hosts_entry(a, edges, path) == hosts_entry(b, edges, path),
{
    if hosts_entry(a, edges, path) {
        let i = choose|i: int| 0 <= i < a.len() && is_entry_point(a[i], edges) && #[trigger] a[i].path@ == path;
        assert(is_entry_point(b[i], edges) && b[i].path@ == path);
    }
    if hosts_entry(b, edges, path) {
        let i = choose|i: int| 0 <= i < b.len() && is_entry_point(b[i], edges) && #[trigger] b[i].path@ == path;
        assert(a[i].kind == b[i].kind && a[i].id == b[i].id && a[i].path == b[i].path);
        assert(is_entry_point(a[i], edges) && a[i].path@ == path);
    }
}

/// Runs every mechanical projection over a freshly built structural graph:
/// layers, significance, domain flows, and the tour.
pub fn apply(graph: &mut KnowledgeGraph)
    requires
        old(graph).edges.len() <= 0x7fff_ffff,
    ensures
        final(graph).nodes.len() == old(graph).nodes.len(),
        forall|i: int|
            0 <= i < final(graph).nodes.len() ==> {
                let o = #[trigger] old(graph).nodes[i];
                let n = final(graph).nodes[i];
                &&& n.id == o.id && n.kind == o.kind && n.name == o.name && n.path == o.path
                &&& n.summary == o.summary && n.range == o.range && n.provenance == o.provenance
                &&& if o.kind == NodeKind::File {
                    &&& n.layer is Some && n.layer->0@ == top_dir(o.path@)
                    &&& n.significance == Some(significance_of(old(graph).nodes@, old(graph).edges@, o) as u32)
                } else {
                    n.layer == o.layer && n.significance is None
                }
            },
        final(graph).edges == old(graph).edges,
        final(graph).project == old(graph).project,
        final(graph).version == old(graph).version,
        layers_sorted(final(graph).layers@),
        forall|i: int| 0 <= i < final(graph).layers.len() ==> mechanical_layer(#[trigger] final(graph).layers[i]),
        forall|s: Seq<char>|
            (exists|i: int| 0 <= i < final(graph).layers.len() && #[trigger] final(graph).layers[i].id@ == s)
                <==> file_layer_ids(old(graph).nodes@).contains(s),
        is_flow_list(final(graph).nodes@, final(graph).edges@, final(graph).domain_flows@),
        is_tour(final(graph).nodes@, final(graph).edges@, final(graph).tour@),
{
    let ghost start = *graph;
    assign_layers(graph);
    let ghost mid = *graph;
    publish_significance(graph);
    proof {
        assert forall|p: Seq<char>| hosts_entry(mid.nodes@, mid.edges@, p) == hosts_entry(start.nodes@, start.edges@, p) by {
            assert forall|i: int| 0 <= i < mid.nodes.len() implies (#[trigger] mid.nodes@[i]).kind == start.nodes@[i].kind
                && mid.nodes@[i].id == start.nodes@[i].id && mid.nodes@[i].path == start.nodes@[i].path by {
                assert(assigned(start.nodes[i], mid.nodes[i]));
            }
            lemma_hosts_entry_same(mid.nodes@, start.nodes@, start.edges@, p);
        }
        assert forall|i: int| 0 <= i < mid.nodes.len() implies significance_of(mid.nodes@, mid.edges@, #[trigger] mid.nodes@[i])
            == significance_of(start.nodes@, start.edges@, start.nodes@[i]) by {
            assert(assigned(start.nodes[i], mid.nodes[i]));
            assert(hosts_entry(mid.nodes@, mid.edges@, mid.nodes@[i].path@) == hosts_entry(start.nodes@, start.edges@, start.nodes@[i].path@));
        }
    }
    let flows = project_flows(graph);
    graph.domain_flows = flows;
    let tour = build_tour(graph);
    graph.tour = tour;
    proof {
        assert forall|i: int| 0 <= i < graph.nodes.len() implies {
            let o = #[trigger] start.nodes[i];
            let n = graph.nodes[i];
            &&& n.id == o.id && n.kind == o.kind && n.name == o.name && n.path == o.path
            &&& n.summary == o.summary && n.range == o.range && n.provenance == o.provenance
            &&& if o.kind == NodeKind::File {
                &&& n.layer is Some && n.layer->0@ == top_dir(o.path@)
                &&& n.significance == Some(significance_of(start.nodes@, start.edges@, o) as u32)
            } else {
                n.layer == o.layer && n.significance is None
            }
        } by {
            assert(assigned(start.nodes[i], mid.nodes[i]));
            assert(significance_of(mid.nodes@, mid.edges@, mid.nodes@[i]) == significance_of(start.nodes@, start.edges@, start.nodes@[i]));
        }
    }
}


/// The `imports` edges of `edges` that arrive at `id`.
pub open spec fn imports_into(edges: Seq<Edge>, id: Seq<char>) -> Seq<Edge> {
    edges.filter(|e: Edge| e.kind == EdgeKind::Imports && e.target.text() == id)
}

/// The `imports` edges of `edges` that leave `id`.
pub open spec fn imports_from(edges: Seq<Edge>, id: Seq<char>) -> Seq<Edge> {
    edges.filter(|e: Edge| e.kind == EdgeKind::Imports && e.source.text() == id)
}

/// 1 when an entry point lives at the file `n`, else 0.
pub open spec fn entry_bonus(nodes: Seq<Node>, edges: Seq<Edge>, n: Node) -> int {
    if hosts_entry(nodes, edges, n.path@) {
        1int
    } else {
        0int
    }
}

/// The running degree counts are the numbers of importing edges.
proof fn lemma_import_counts(edges: Seq<Edge>, id: Seq<char>)
    ensures
        fan_in(edges, id) == imports_into(edges, id).len(),
        fan_out(edges, id) == imports_from(edges, id).len(),
        imports_into(edges, id).len() <= edges.len(),
        imports_from(edges, id).len() <= edges.len(),
    decreases edges.len(),
{
    reveal(Seq::filter);
    if edges.len() > 0 {
        lemma_import_counts(edges.drop_last(), id);
    }
}

/// The significance law: every file of the map scores exactly the imports
/// edges that arrive at it, plus those that leave it, plus one when an
/// entry point lives there; a file that only imports one other scores 1,
/// and so does the file it imports.
pub proof fn law_significance_counts_import_edges(before: KnowledgeGraph, after: KnowledgeGraph)
    requires
        before.edges.len() <= 0x7fff_ffff,
        after.nodes.len() == before.nodes.len(),
        after.edges == before.edges,
        forall|i: int|
            0 <= i < before.nodes.len() && (#[trigger] before.nodes[i]).kind == NodeKind::File ==> after.nodes[i].significance
                == Some(significance_of(before.nodes@, before.edges@, before.nodes[i]) as u32),
    ensures
        forall|i: int|
            0 <= i < before.nodes.len() && (#[trigger] before.nodes[i]).kind == NodeKind::File ==> after.nodes[i].significance
                is Some && after.nodes[i].significance->0 == imports_into(before.edges@, before.nodes[i].id.text()).len()
                + imports_from(before.edges@, before.nodes[i].id.text()).len() + entry_bonus(before.nodes@, before.edges@, before.nodes[i]),
{
    assert forall|i: int|
        0 <= i < before.nodes.len() && (#[trigger] before.nodes[i]).kind == NodeKind::File implies after.nodes[i].significance
            is Some && after.nodes[i].significance->0 == imports_into(before.edges@, before.nodes[i].id.text()).len()
            + imports_from(before.edges@, before.nodes[i].id.text()).len() + entry_bonus(before.nodes@, before.edges@, before.nodes[i]) by {
        lemma_import_counts(before.edges@, before.nodes[i].id.text());
    }
}

/// Where a file stands in the walk: the imports edges leaving it, less
/// those arriving, plus one when an entry point lives there.
pub open spec fn walk_rank(nodes: Seq<Node>, edges: Seq<Edge>, n: Node) -> int {
    imports_from(edges, n.id.text()).len() - imports_into(edges, n.id.text()).len() + entry_bonus(nodes, edges, n)
}

/// `at` places each tour step on its node, and consecutive places are in
/// walk order: the earlier has at least the later's rank, and on a tie the
/// earlier path sorts first.
pub open spec fn walks_in_rank_order(nodes: Seq<Node>, edges: Seq<Edge>, steps: Seq<TourStep>, at: Seq<int>) -> bool {
    &&& at.len() == steps.len()
    &&& forall|k: int| 0 <= k < at.len() ==> 0 <= #[trigger] at[k] < nodes.len() && steps[k].node.text() == nodes[at[k]].id.text()
    &&& forall|k: int, l: int| #![trigger at[k], at[l]] 0 <= k < l < at.len() ==> {
        ||| walk_rank(nodes, edges, nodes[at[k]]) > walk_rank(nodes, edges, nodes[at[l]])
        ||| walk_rank(nodes, edges, nodes[at[k]]) == walk_rank(nodes, edges, nodes[at[l]]) && !lex_lt(
            nodes[at[l]].path@,
            nodes[at[k]].path@,
        )
    }
}

/// The walk law: the tour visits files from the roots of the import graph
/// towards its foundations. Of any two stops, the earlier has at least the
/// later's excess of outgoing over incoming imports edges (entry points
/// counting one more), and on a tie the earlier path sorts first.
pub proof fn law_the_tour_walks_from_importers_to_imported(nodes: Seq<Node>, edges: Seq<Edge>, steps: Seq<TourStep>)
    requires
        is_tour(nodes, edges, steps),
    ensures
        exists|at: Seq<int>| walks_in_rank_order(nodes, edges, steps, at),
{
    let order = choose|order: Seq<int>|
        is_tour_order(nodes, edges, order) && order.len() == steps.len() && forall|k: int|
            0 <= k < steps.len() ==> {
                let n = nodes[order[k]];
                &&& (#[trigger] steps[k]).node.text() == n.id.text()
                &&& steps[k].label@ == tour_label(nodes, edges, n)
                &&& steps[k].provenance == Provenance::Mechanical
            };
    assert forall|k: int| 0 <= k < order.len() implies 0 <= #[trigger] order[k] < nodes.len() && steps[k].node.text()
        == nodes[order[k]].id.text() by {
        assert(steps[k].node.text() == nodes[order[k]].id.text());
    }
    assert forall|k: int, l: int| #![trigger order[k], order[l]] 0 <= k < l < order.len() implies {
        ||| walk_rank(nodes, edges, nodes[order[k]]) > walk_rank(nodes, edges, nodes[order[l]])
        ||| walk_rank(nodes, edges, nodes[order[k]]) == walk_rank(nodes, edges, nodes[order[l]]) && !lex_lt(
            nodes[order[l]].path@,
            nodes[order[k]].path@,
        )
    } by {
        lemma_import_counts(edges, nodes[order[k]].id.text());
        lemma_import_counts(edges, nodes[order[l]].id.text());
        assert(!reads_before(nodes, edges, nodes[order[l]], nodes[order[k]]));
    }
    assert(walks_in_rank_order(nodes, edges, steps, order));
}

} // verus!

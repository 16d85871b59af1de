//! The diff overlay: changed paths projected onto the map — the nodes at
//! those paths, their one-hop blast radius over edges of any kind, and the
//! changed paths the map does not cover. Asking git what changed belongs
//! to the program around the library; its output is parsed here.

use vstd::prelude::*;

use crate::map::{Edge, KnowledgeGraph, Node};
use crate::text::{chars_of, insert_sorted, is_listed, lex_lt, listed, same, starts_with, string_of};

verus! {

/// The overlay's file name under the output directory.
pub const OVERLAY_FILE: &'static str = "diff-overlay.json";

/// The overlay format version.
pub const OVERLAY_VERSION: u32 = 1;

/// The diff impact overlay; every list strictly increasing.
pub struct DiffOverlay {
    pub version: u32,
    pub changed: Vec<String>,
    pub affected: Vec<String>,
    pub unmapped_paths: Vec<String>,
}

/// Strictly increasing, so sorted and free of repeats.
pub open spec fn ascending(v: Seq<String>) -> bool {
    forall|i: int, j: int| 0 <= i < j < v.len() ==> lex_lt(v[i]@, v[j]@)
}

/// The node `id` names sits at a changed path.
pub open spec fn is_changed(nodes: Seq<Node>, changed_paths: Seq<String>, id: Seq<char>) -> bool {
    exists|i: int| 0 <= i < nodes.len() && #[trigger] nodes[i].id.text() == id && listed(changed_paths, nodes[i].path@)
}

/// A changed path no node sits at.
pub open spec fn is_unmapped(nodes: Seq<Node>, changed_paths: Seq<String>, p: Seq<char>) -> bool {
    listed(changed_paths, p) && forall|i: int| 0 <= i < nodes.len() ==> #[trigger] nodes[i].path@ != p
}

/// One edge away from a changed node, and not changed itself.
pub open spec fn is_affected(nodes: Seq<Node>, edges: Seq<Edge>, changed_paths: Seq<String>, id: Seq<char>) -> bool {
    !is_changed(nodes, changed_paths, id) && exists|e: int|
        #![trigger edges[e]]
        0 <= e < edges.len() && ((edges[e].target.text() == id && is_changed(nodes, changed_paths, edges[e].source.text()))
            || (edges[e].source.text() == id && is_changed(nodes, changed_paths, edges[e].target.text())))
}

/// `o` is the overlay of `changed_paths` on the map.
pub open spec fn overlays(g: KnowledgeGraph, changed_paths: Seq<String>, o: DiffOverlay) -> bool {
    &&& o.version == OVERLAY_VERSION
    &&& ascending(o.changed@) && ascending(o.affected@) && ascending(o.unmapped_paths@)
    &&& forall|s: Seq<char>| #[trigger] listed(o.changed@, s) <==> is_changed(g.nodes@, changed_paths, s)
    &&& forall|s: Seq<char>| #[trigger] listed(o.affected@, s) <==> is_affected(g.nodes@, g.edges@, changed_paths, s)
    &&& forall|s: Seq<char>| #[trigger] listed(o.unmapped_paths@, s) <==> is_unmapped(g.nodes@, changed_paths, s)
}

/// The overlay law: no node is both changed and merely affected, and an
/// affected node always touches a changed one through some edge.
pub proof fn law_changed_and_affected_never_overlap(g: KnowledgeGraph, changed_paths: Seq<String>, o: DiffOverlay)
    requires
        overlays(g, changed_paths, o),
    ensures
        forall|s: Seq<char>| !(#[trigger] listed(o.changed@, s) && listed(o.affected@, s)),
        forall|s: Seq<char>| #[trigger] listed(o.affected@, s) ==> exists|e: int|
            0 <= e < g.edges.len() && ((g.edges[e].target.text() == s && listed(o.changed@, g.edges[e].source.text()))
                || (g.edges[e].source.text() == s && listed(o.changed@, g.edges[e].target.text()))),
{
    assert forall|s: Seq<char>| #[trigger] listed(o.affected@, s) implies exists|e: int|
        0 <= e < g.edges.len() && ((g.edges[e].target.text() == s && listed(o.changed@, g.edges[e].source.text()))
            || (g.edges[e].source.text() == s && listed(o.changed@, g.edges[e].target.text()))) by {
        assert(is_affected(g.nodes@, g.edges@, changed_paths, s));
        let e = choose|e: int|
            #![trigger g.edges@[e]]
            0 <= e < g.edges@.len() && ((g.edges@[e].target.text() == s && is_changed(g.nodes@, changed_paths, g.edges@[e].source.text()))
                || (g.edges@[e].source.text() == s && is_changed(g.nodes@, changed_paths, g.edges@[e].target.text())));
        assert(listed(o.changed@, g.edges[e].source.text()) == is_changed(g.nodes@, changed_paths, g.edges[e].source.text()));
        assert(listed(o.changed@, g.edges[e].target.text()) == is_changed(g.nodes@, changed_paths, g.edges[e].target.text()));
    }
}

/// The projection: changed nodes are every node at a changed path (a file
/// and its symbols); affected nodes are their one-hop blast radius over
/// edges of any kind, in either direction, minus the changed set; changed
/// paths with no node are noted rather than dropped.
pub fn compute(graph: &KnowledgeGraph, changed_paths: &Vec<String>) -> (o: DiffOverlay)
    ensures
        overlays(*graph, changed_paths@, o),
{
    let ghost nodes = graph.nodes@;
    let ghost cp = changed_paths@;
    let mut changed: Vec<String> = Vec::new();
    let mut i: usize = 0;
    while i < graph.nodes.len()
        invariant
            i <= graph.nodes.len(),
            nodes == graph.nodes@,
            cp == changed_paths@,
            ascending(changed@),
            forall|s: Seq<char>| #[trigger] listed(changed@, s) <==> is_changed(nodes.take(i as int), cp, s),
        decreases graph.nodes.len() - i,
    {
        let path = chars_of(graph.nodes[i].path.as_str());
        let ghost before = changed@;
        if is_listed(changed_paths, &path) {
            insert_sorted(&mut changed, graph.nodes[i].id.0.clone());
        }
        proof {
            let a = nodes.take(i + 1);
            let b = nodes.take(i as int);
            assert forall|s: Seq<char>| #[trigger] listed(changed@, s) <==> is_changed(a, cp, s) by {
                if is_changed(b, cp, s) {
                    let k = choose|k: int| 0 <= k < b.len() && #[trigger] b[k].id.text() == s && listed(cp, b[k].path@);
                    assert(a[k] == b[k]);
                }
                if is_changed(a, cp, s) {
                    let k = choose|k: int| 0 <= k < a.len() && #[trigger] a[k].id.text() == s && listed(cp, a[k].path@);
                    if k < i {
                        assert(a[k] == b[k]);
                        assert(is_changed(b, cp, s));
                    }
                }
                if s == nodes[i as int].id.text() && listed(cp, nodes[i as int].path@) {
                    assert(a[i as int] == nodes[i as int]);
                }
            }
        }
        i += 1;
    }
    assert(nodes.take(i as int) =~= nodes);
    let mut unmapped: Vec<String> = Vec::new();
    let mut p: usize = 0;
    while p < changed_paths.len()
        invariant
            p <= changed_paths.len(),
            nodes == graph.nodes@,
            cp == changed_paths@,
            ascending(unmapped@),
            forall|s: Seq<char>| #[trigger] listed(unmapped@, s) <==> (listed(cp.take(p as int), s) && forall|k: int|
                0 <= k < nodes.len() ==> #[trigger] nodes[k].path@ != s),
        decreases changed_paths.len() - p,
    {
        let path = chars_of(changed_paths[p].as_str());
        let mut found = false;
        let mut k: usize = 0;
        while k < graph.nodes.len()
            invariant
                k <= graph.nodes.len(),
                nodes == graph.nodes@,
                found == exists|j: int| 0 <= j < k && #[trigger] nodes[j].path@ == path@,
            decreases graph.nodes.len() - k,
        {
            let np = chars_of(graph.nodes[k].path.as_str());
            if same(&np, &path) {
                found = true;
            }
            k += 1;
        }
        if !found {
            insert_sorted(&mut unmapped, changed_paths[p].clone());
        }
        proof {
            let a = cp.take(p + 1);
            let b = cp.take(p as int);
            assert forall|s: Seq<char>| #[trigger] listed(a, s) <==> (listed(b, s) || s == cp[p as int]@) by {
                if listed(a, s) {
                    let j = choose|j: int| 0 <= j < a.len() && #[trigger] a[j]@ == s;
                    if j < p {
                        assert(b[j] == a[j]);
                    }
                }
                if listed(b, s) {
                    let j = choose|j: int| 0 <= j < b.len() && #[trigger] b[j]@ == s;
                    assert(a[j] == b[j]);
                }
                if s == cp[p as int]@ {
                    assert(a[p as int] == cp[p as int]);
                }
            }
        }
        p += 1;
    }
    assert(cp.take(p as int) =~= cp);
    let mut affected: Vec<String> = Vec::new();
    let mut e: usize = 0;
    while e < graph.edges.len()
        invariant
            e <= graph.edges.len(),
            nodes == graph.nodes@,
            cp == changed_paths@,
            forall|s: Seq<char>| #[trigger] listed(changed@, s) <==> is_changed(nodes, cp, s),
            ascending(affected@),
            forall|s: Seq<char>| #[trigger] listed(affected@, s) <==> is_affected(nodes, graph.edges@.take(e as int), cp, s),
        decreases graph.edges.len() - e,
    {
        let source = chars_of(graph.edges[e].source.as_str());
        let target = chars_of(graph.edges[e].target.as_str());
        let s_in = is_listed(&changed, &source);
        let t_in = is_listed(&changed, &target);
        let ghost before = affected@;
        if s_in && !t_in {
            insert_sorted(&mut affected, graph.edges[e].target.0.clone());
        }
        let ghost mid = affected@;
        if t_in && !s_in {
            insert_sorted(&mut affected, graph.edges[e].source.0.clone());
        }
        proof {
            let a = graph.edges@.take(e + 1);
            let b = graph.edges@.take(e as int);
            assert(a[e as int] == graph.edges@[e as int]);
            assert forall|s: Seq<char>| #[trigger] listed(affected@, s) <==> is_affected(nodes, a, cp, s) by {
                if is_affected(nodes, b, cp, s) {
                    let k = choose|k: int|
                        #![trigger b[k]]
                        0 <= k < b.len() && ((b[k].target.text() == s && is_changed(nodes, cp, b[k].source.text()))
                            || (b[k].source.text() == s && is_changed(nodes, cp, b[k].target.text())));
                    assert(a[k] == b[k]);
                }
                if is_affected(nodes, a, cp, s) {
                    let k = choose|k: int|
                        #![trigger a[k]]
                        0 <= k < a.len() && ((a[k].target.text() == s && is_changed(nodes, cp, a[k].source.text()))
                            || (a[k].source.text() == s && is_changed(nodes, cp, a[k].target.text())));
                    if k < e {
                        assert(b[k] == a[k]);
                        assert(is_affected(nodes, b, cp, s));
                    }
                }
            }
        }
        e += 1;
    }
    assert(graph.edges@.take(e as int) =~= graph.edges@);
    DiffOverlay { version: OVERLAY_VERSION, changed, affected, unmapped_paths: unmapped }
}

/// One path as git reports it, with forward slashes.
pub open spec fn forward_slashes(p: Seq<char>) -> Seq<char> {
    p.map_values(|c: char| if c == '\\' { '/' } else { c })
}

/// The pieces of `s` between NUL characters.
pub open spec fn nul_pieces(s: Seq<char>) -> Seq<Seq<char>>
    decreases s.len(),
{
    if s.len() == 0 {
        seq![Seq::<char>::empty()]
    } else {
        let before = nul_pieces(s.drop_last());
        if s.last() != '\0' {
            before.update(before.len() - 1, before.last().push(s.last()))
        } else {
            before.push(Seq::<char>::empty())
        }
    }
}

proof fn lemma_nul_pieces_nonempty(s: Seq<char>)
    ensures
        nul_pieces(s).len() >= 1,
    decreases s.len(),
{
    if s.len() > 0 {
        lemma_nul_pieces_nonempty(s.drop_last());
    }
}

/// The non-empty pieces of `s`, in order, slashes made forward.
pub open spec fn git_path_list(pieces: Seq<Seq<char>>) -> Seq<Seq<char>>
    decreases pieces.len(),
{
    if pieces.len() == 0 {
        Seq::empty()
    } else {
        git_path_list(pieces.drop_last()) + if pieces.last().len() > 0 {
            seq![forward_slashes(pieces.last())]
        } else {
            Seq::empty()
        }
    }
}

fn flush_piece(paths: &mut Vec<String>, cur: &Vec<char>)
    ensures
        final(paths)@.map_values(|s: String| s@) == old(paths)@.map_values(|s: String| s@) + if cur@.len() > 0 {
            seq![forward_slashes(cur@)]
        } else {
            Seq::empty()
        },
{
    if cur.len() > 0 {
        let mut v: Vec<char> = Vec::new();
        let mut i: usize = 0;
        while i < cur.len()
            invariant
                i <= cur.len(),
                v@ == forward_slashes(cur@.take(i as int)),
            decreases cur.len() - i,
        {
            let c = cur[i];
            v.push(if c == '\\' { '/' } else { c });
            assert(forward_slashes(cur@.take(i + 1)) =~= forward_slashes(cur@.take(i as int)).push(if c == '\\' { '/' } else { c }));
            i += 1;
        }
        assert(cur@.take(i as int) =~= cur@);
        paths.push(string_of(&v));
        assert(paths@.map_values(|s: String| s@) =~= old(paths)@.map_values(|s: String| s@) + seq![forward_slashes(cur@)]);
    } else {
        assert(paths@.map_values(|s: String| s@) =~= old(paths)@.map_values(|s: String| s@) + Seq::<Seq<char>>::empty());
    }
}

/// The paths in git's NUL-separated output: empty pieces dropped,
/// backslashes made forward slashes.
pub fn git_paths(stdout: &str) -> (r: Vec<String>)
    ensures
        r@.map_values(|s: String| s@) == git_path_list(nul_pieces(stdout@)),
{
    let s = chars_of(stdout);
    let mut paths: Vec<String> = Vec::new();
    let mut cur: Vec<char> = Vec::new();
    let mut i: usize = 0;
    assert(s@.take(0) =~= Seq::<char>::empty());
    while i < s.len()
        invariant
            i <= s.len(),
            s@ == stdout@,
            nul_pieces(s@.take(i as int)).len() >= 1,
            nul_pieces(s@.take(i as int)).last() == cur@,
            paths@.map_values(|x: String| x@) == git_path_list(nul_pieces(s@.take(i as int)).drop_last()),
        decreases s.len() - i,
    {
        let c = s[i];
        let ghost before = nul_pieces(s@.take(i as int));
        proof {
            assert(s@.take(i + 1).drop_last() =~= s@.take(i as int));
            lemma_nul_pieces_nonempty(s@.take(i + 1));
        }
        if c != '\0' {
            cur.push(c);
            proof {
                assert(nul_pieces(s@.take(i + 1)).drop_last() =~= before.drop_last());
            }
        } else {
            flush_piece(&mut paths, &cur);
            proof {
                let after = nul_pieces(s@.take(i + 1));
                assert(after.drop_last() =~= before);
                assert(before.drop_last().push(cur@) =~= before);
                assert(git_path_list(before.drop_last().push(cur@)) == git_path_list(before.drop_last()) + if cur@.len() > 0 {
                    seq![forward_slashes(cur@)]
                } else {
                    Seq::<Seq<char>>::empty()
                }) by {
                    assert(before.drop_last().push(cur@).drop_last() =~= before.drop_last());
                }
            }
            cur = Vec::new();
        }
        i += 1;
    }
    let ghost last = nul_pieces(s@.take(i as int));
    flush_piece(&mut paths, &cur);
    proof {
        assert(s@.take(i as int) =~= s@);
        assert(last.drop_last().push(cur@) =~= last);
        assert(last.drop_last().push(cur@).drop_last() =~= last.drop_last());
    }
    paths
}

/// Whether a changed path lies outside the artifact directory, which is
/// never mapped and must not report itself.
pub open spec fn reportable(p: Seq<char>) -> bool {
    p != ".codeatlas"@ && !(p.len() >= 11 && p.take(11) == ".codeatlas/"@)
}

pub fn is_reportable(p: &str) -> (r: bool)
    ensures
        r == reportable(p@),
{
    let v = chars_of(p);
    let dir = chars_of(".codeatlas");
    let prefix = chars_of(".codeatlas/");
    proof {
        reveal_strlit(".codeatlas/");
    }
    !same(&v, &dir) && !starts_with(&v, &prefix)
}

} // verus!

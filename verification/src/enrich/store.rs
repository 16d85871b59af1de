//! The carry-over store's derivations: what a stored annotation is keyed
//! by, when it re-attaches to a rebuilt map, and what a purchasing run
//! writes back. Reading and writing the file belong to the program around
//! the library; the file hashes it needs are handed in as values.

use vstd::prelude::*;

use super::{content_hash, content_hash_of, ProviderIdentity, civil_date, civil_text};
use crate::map::{DomainFlow, KnowledgeGraph, LayerDescription, Node, NodeKind, Provenance, TourStep};
use crate::semantics::{build_tour, id_texts, is_tour};
use crate::text::{
    append, append_str, chars_of, joined, lemma_lex_asymmetric, lemma_lex_irreflexive,
    lemma_lex_total, lemma_lex_transitive, lex_less, lex_lt, same, string_of, strings,
};

verus! {

/// The store's file name under the output directory.
pub const ANNOTATIONS_FILE: &'static str = "annotations.json";

/// The store format version; a store with another version is ignored.
pub const STORE_VERSION: u32 = 2;

/// One stored piece of prose and the hash it was purchased against: a
/// file content hash for a node summary, a derivation-input hash for a
/// layer name or description, a flow name, or a tour label.
pub struct Entry {
    pub hash: String,
    pub text: String,
}

/// Which backend wrote the store, and when (a `YYYY-MM-DD` date).
pub struct ProducedBy {
    pub identity: ProviderIdentity,
    pub date: String,
}

/// The carry-over store: each section maps a key (node ID, layer ID, flow
/// ID, tour node ID) to an entry, keys strictly increasing.
pub struct AnnotationStore {
    pub version: u32,
    pub produced_by: Option<ProducedBy>,
    pub annotations: Vec<(String, Entry)>,
    pub layers: Vec<(String, Entry)>,
    pub layer_descriptions: Vec<(String, Entry)>,
    pub flows: Vec<(String, Entry)>,
    pub tour: Vec<(String, Entry)>,
}

/// A section as key → (hash, text) pairs.
pub open spec fn entries(s: Seq<(String, Entry)>) -> Seq<(Seq<char>, (Seq<char>, Seq<char>))> {
    s.map_values(|p: (String, Entry)| (p.0@, (p.1.hash@, p.1.text@)))
}

/// What the last pair keyed `key` holds, if any.
pub open spec fn last_for(pairs: Seq<(Seq<char>, (Seq<char>, Seq<char>))>, key: Seq<char>) -> Option<(Seq<char>, Seq<char>)>
    decreases pairs.len(),
{
    if pairs.len() == 0 {
        None
    } else if pairs.last().0 == key {
        Some(pairs.last().1)
    } else {
        last_for(pairs.drop_last(), key)
    }
}

pub proof fn lemma_last_for(pairs: Seq<(Seq<char>, (Seq<char>, Seq<char>))>, key: Seq<char>)
    ensures
        match last_for(pairs, key) {
            Some(v) => exists|i: int|
                0 <= i < pairs.len() && pairs[i] == (key, v) && forall|j: int| i < j < pairs.len() ==> pairs[j].0 != key,
            None => forall|i: int| 0 <= i < pairs.len() ==> pairs[i].0 != key,
        },
    decreases pairs.len(),
{
    if pairs.len() > 0 {
        let rest = pairs.drop_last();
        lemma_last_for(rest, key);
        if pairs.last().0 != key {
            match last_for(rest, key) {
                Some(v) => {
                    let i = choose|i: int|
                        0 <= i < rest.len() && rest[i] == (key, v) && forall|j: int| i < j < rest.len() ==> rest[j].0 != key;
                    assert(pairs[i] == rest[i]);
                    assert forall|j: int| i < j < pairs.len() implies pairs[j].0 != key by {
                        if j < rest.len() {
                            assert(pairs[j] == rest[j]);
                        }
                    }
                },
                None => {
                    assert forall|i: int| 0 <= i < pairs.len() implies pairs[i].0 != key by {
                        if i < rest.len() {
                            assert(pairs[i] == rest[i]);
                        }
                    }
                },
            }
        }
    }
}

/// Keys strictly increasing, so sorted and unique.
pub open spec fn keys_sorted(pairs: Seq<(Seq<char>, (Seq<char>, Seq<char>))>) -> bool {
    forall|i: int, j: int| 0 <= i < j < pairs.len() ==> lex_lt(pairs[i].0, pairs[j].0)
}

/// In a section with sorted keys, the entry at `i` is what its key holds.
proof fn lemma_sorted_lookup(pairs: Seq<(Seq<char>, (Seq<char>, Seq<char>))>, i: int)
    requires
        keys_sorted(pairs),
        0 <= i < pairs.len(),
    ensures
        last_for(pairs, pairs[i].0) == Some(pairs[i].1),
{
    lemma_last_for(pairs, pairs[i].0);
    lemma_lex_irreflexive(pairs[i].0);
    match last_for(pairs, pairs[i].0) {
        Some(v) => {
            let k = choose|k: int|
                0 <= k < pairs.len() && pairs[k] == (pairs[i].0, v) && forall|j: int| k < j < pairs.len() ==> pairs[j].0 != pairs[i].0;
            if k < i {
                assert(lex_lt(pairs[k].0, pairs[i].0));
            }
            if k > i {
                assert(lex_lt(pairs[i].0, pairs[k].0));
            }
        },
        None => {},
    }
}

/// Sets what `key` holds in a section with sorted keys, keeping them sorted.
fn upsert(section: &mut Vec<(String, Entry)>, key: String, entry: Entry)
    requires
        keys_sorted(entries(old(section)@)),
    ensures
        keys_sorted(entries(final(section)@)),
        forall|k: Seq<char>|
            #[trigger] last_for(entries(final(section)@), k) == if k == key@ {
                Some((entry.hash@, entry.text@))
            } else {
                last_for(entries(old(section)@), k)
            },
{
    let kv = chars_of(key.as_str());
    let ghost before = entries(section@);
    let mut k: usize = 0;
    while k < section.len()
        invariant
            k <= section.len(),
            section == old(section),
            kv@ == key@,
            before == entries(section@),
            forall|j: int| 0 <= j < k ==> lex_lt(before[j].0, key@),
        ensures
            k <= section.len(),
            section == old(section),
            forall|j: int| 0 <= j < k ==> lex_lt(before[j].0, key@),
            k < section.len() ==> !lex_lt(before[k as int].0, key@),
        decreases section.len() - k,
    {
        let cur = chars_of(section[k].0.as_str());
        assert(before[k as int].0 == cur@);
        if !lex_less(&cur, &kv) {
            break;
        }
        k += 1;
    }
    let ghost value = (entry.hash@, entry.text@);
    if k < section.len() {
        let cur = chars_of(section[k].0.as_str());
        if same(&cur, &kv) {
            section.set(k, (key, entry));
            proof {
                let after = entries(section@);
                assert(after =~= before.update(k as int, (key@, value)));
                assert forall|k2: Seq<char>|
                    #[trigger] last_for(after, k2) == if k2 == key@ { Some(value) } else { last_for(before, k2) } by {
                    lemma_sorted_lookup(after, k as int);
                    lemma_last_for(after, k2);
                    lemma_last_for(before, k2);
                    if k2 != key@ {
                        match last_for(before, k2) {
                            Some(v) => {
                                let i = choose|i: int| 0 <= i < before.len() && before[i] == (k2, v) && forall|j: int| i < j < before.len() ==> before[j].0 != k2;
                                lemma_sorted_lookup(before, i);
                                lemma_sorted_lookup(after, i);
                            },
                            None => {
                                if let Some(v) = last_for(after, k2) {
                                    let i = choose|i: int| 0 <= i < after.len() && after[i] == (k2, v) && forall|j: int| i < j < after.len() ==> after[j].0 != k2;
                                    assert(after[i] == before[i]);
                                }
                            },
                        }
                    }
                }
            }
            return;
        }
        proof {
            lemma_lex_total(key@, before[k as int].0);
            assert forall|m: int| k <= m < before.len() implies lex_lt(key@, #[trigger] before[m].0) by {
                if m > k {
                    lemma_lex_transitive(key@, before[k as int].0, before[m].0);
                }
            }
        }
    }
    assert(forall|m: int| k <= m < before.len() ==> lex_lt(key@, #[trigger] before[m].0));
    section.insert(k, (key, entry));
    proof {
        let after = entries(section@);
        assert(after =~= before.insert(k as int, (key@, value)));
        assert forall|i: int, j: int| 0 <= i < j < after.len() implies lex_lt(after[i].0, after[j].0) by {
            if j < k {
            } else if i > k {
                assert(after[i] == before[i - 1] && after[j] == before[j - 1]);
            } else if i == k {
                assert(after[j] == before[j - 1]);
            } else if j == k {
            } else {
                assert(after[j] == before[j - 1]);
                lemma_lex_transitive(before[i].0, key@, before[j - 1].0);
            }
        }
        assert forall|k2: Seq<char>|
            #[trigger] last_for(after, k2) == if k2 == key@ { Some(value) } else { last_for(before, k2) } by {
            lemma_sorted_lookup(after, k as int);
            lemma_last_for(after, k2);
            lemma_last_for(before, k2);
            if k2 != key@ {
                match last_for(before, k2) {
                    Some(v) => {
                        let i = choose|i: int| 0 <= i < before.len() && before[i] == (k2, v) && forall|j: int| i < j < before.len() ==> before[j].0 != k2;
                        lemma_sorted_lookup(before, i);
                        if i < k {
                            assert(after[i] == before[i]);
                            lemma_sorted_lookup(after, i);
                        } else {
                            assert(after[i + 1] == before[i]);
                            lemma_sorted_lookup(after, i + 1);
                        }
                    },
                    None => {
                        if let Some(v) = last_for(after, k2) {
                            let i = choose|i: int| 0 <= i < after.len() && after[i] == (k2, v) && forall|j: int| i < j < after.len() ==> after[j].0 != k2;
                            if i < k {
                                assert(after[i] == before[i]);
                            } else if i > k {
                                assert(after[i] == before[i - 1]);
                            }
                        }
                    },
                }
            }
        }
    }
}

/// What `key` holds in a section, found.
fn lookup(section: &Vec<(String, Entry)>, key: &Vec<char>) -> (r: Option<usize>)
    ensures
        match r {
            Some(i) => i < section.len() && last_for(entries(section@), key@) == Some(entries(section@)[i as int].1),
            None => last_for(entries(section@), key@) is None,
        },
{
    let ghost all = entries(section@);
    let mut k: usize = section.len();
    assert(all.take(k as int) =~= all);
    while k > 0
        invariant
            k <= section.len(),
            all == entries(section@),
            last_for(all, key@) == last_for(all.take(k as int), key@),
        decreases k,
    {
        let cur = chars_of(section[k - 1].0.as_str());
        assert(all.take(k as int).drop_last() =~= all.take(k - 1));
        if same(&cur, key) {
            return Some(k - 1);
        }
        k -= 1;
    }
    None
}

/// Paths in byte order, repeats allowed: the order member lists are
/// hashed in.
pub open spec fn path_le(a: Seq<char>, b: Seq<char>) -> bool {
    a == b || lex_lt(a, b)
}

pub proof fn lemma_path_order()
    ensures
        vstd::relations::total_ordering(|a: Seq<char>, b: Seq<char>| path_le(a, b)),
{
    let le = |a: Seq<char>, b: Seq<char>| path_le(a, b);
    assert forall|a: Seq<char>, b: Seq<char>| #[trigger] le(a, b) && #[trigger] le(b, a) implies a == b by {
        if a != b {
            lemma_lex_asymmetric(a, b);
        }
    }
    assert forall|a: Seq<char>, b: Seq<char>, c: Seq<char>| #[trigger] le(a, b) && #[trigger] le(b, c) implies le(a, c) by {
        if a != b && b != c {
            lemma_lex_transitive(a, b, c);
        }
    }
    assert forall|a: Seq<char>, b: Seq<char>| #[trigger] le(a, b) || #[trigger] le(b, a) by {
        lemma_lex_total(a, b);
    }
}

/// `paths` in path order.
pub open spec fn sorted_paths(paths: Seq<Seq<char>>) -> Seq<Seq<char>> {
    paths.sort_by(|a: Seq<char>, b: Seq<char>| path_le(a, b))
}

fn sort_paths(v: Vec<String>) -> (r: Vec<String>)
    ensures
        strings(r@) == sorted_paths(strings(v@)),
{
    let ghost le = |a: Seq<char>, b: Seq<char>| path_le(a, b);
    let mut r: Vec<String> = Vec::new();
    let mut i: usize = 0;
    assert(strings(r@) =~= strings(v@).take(0));
    while i < v.len()
        invariant
            i <= v.len(),
            le == (|a: Seq<char>, b: Seq<char>| path_le(a, b)),
            vstd::relations::sorted_by(strings(r@), le),
            strings(r@).to_multiset() == strings(v@).take(i as int).to_multiset(),
        decreases v.len() - i,
    {
        let x = chars_of(v[i].as_str());
        let ghost s = strings(r@);
        let mut k: usize = 0;
        while k < r.len()
            invariant
                k <= r.len(),
                s == strings(r@),
                forall|j: int| 0 <= j < k ==> path_le(s[j], x@),
            ensures
                k <= r.len(),
                forall|j: int| 0 <= j < k ==> path_le(s[j], x@),
                k < r.len() ==> lex_lt(x@, s[k as int]),
            decreases r.len() - k,
        {
            let cur = chars_of(r[k].as_str());
            if lex_less(&x, &cur) {
                break;
            }
            proof {
                lemma_lex_total(x@, cur@);
            }
            k += 1;
        }
        proof {
            assert forall|m: int| k <= m < s.len() implies lex_lt(x@, #[trigger] s[m]) by {
                if m > k {
                    assert(le(s[k as int], s[m]));
                    if s[k as int] != s[m] {
                        lemma_lex_transitive(x@, s[k as int], s[m]);
                    }
                }
            }
        }
        r.insert(k, v[i].clone());
        proof {
            let after = strings(r@);
            assert(after =~= s.insert(k as int, x@));
            assert forall|a: int, b: int| 0 <= a < b < after.len() implies #[trigger] le(after[a], after[b]) by {
                if b < k {
                    assert(le(s[a], s[b]));
                } else if a > k {
                    assert(le(s[a - 1], s[b - 1]));
                } else if a == k {
                    assert(lex_lt(x@, s[b - 1]));
                } else if b == k {
                    assert(path_le(s[a], x@));
                } else {
                    assert(path_le(s[a], x@) && lex_lt(x@, s[b - 1]));
                    if s[a] != x@ {
                        lemma_lex_transitive(s[a], x@, s[b - 1]);
                    }
                }
            }
            vstd::seq_lib::to_multiset_insert(s, k as int, x@);
            assert(strings(v@).take(i + 1) =~= strings(v@).take(i as int).push(x@));
            vstd::seq_lib::to_multiset_build(strings(v@).take(i as int), x@);
        }
        i += 1;
    }
    proof {
        assert(strings(v@).take(i as int) =~= strings(v@));
        lemma_path_order();
        strings(v@).lemma_sort_by_ensures(le);
        vstd::seq_lib::lemma_sorted_unique(strings(r@), sorted_paths(strings(v@)), le);
    }
    r
}

/// The hash a list of lines is stored against: the content hash of the
/// lines joined by newlines.
pub open spec fn lines_hash(lines: Seq<Seq<char>>) -> Seq<char> {
    content_hash_of(vstd::utf8::encode_utf8(joined(lines, "\n"@)))
}

fn hash_lines(lines: &Vec<String>) -> (r: String)
    ensures
        r@ == lines_hash(strings(lines@)),
{
    let mut v: Vec<char> = Vec::new();
    let ghost all = strings(lines@);
    let mut i: usize = 0;
    while i < lines.len()
        invariant
            i <= lines.len(),
            all == strings(lines@),
            v@ == joined(all.take(i as int), "\n"@),
        decreases lines.len() - i,
    {
        proof {
            assert(all.take(i + 1).drop_last() =~= all.take(i as int));
            assert(all.take(i + 1).last() == lines@[i as int]@);
        }
        if i > 0 {
            v.push('\n');
        }
        append_str(&mut v, lines[i].as_str());
        proof {
            reveal_strlit("\n");
            if i == 0 {
                assert(all.take(1) =~= seq![lines@[0]@]);
                assert(v@ =~= joined(all.take(1), "\n"@));
            } else {
                assert(v@ =~= joined(all.take(i + 1), "\n"@));
            }
        }
        i += 1;
    }
    proof {
        assert(all.take(i as int) =~= all);
    }
    let s = string_of(&v);
    content_hash(s.as_str().as_bytes())
}

/// The paths of the files a layer holds, in node order.
pub open spec fn member_paths(nodes: Seq<Node>, id: Seq<char>) -> Seq<Seq<char>>
    decreases nodes.len(),
{
    if nodes.len() == 0 {
        Seq::<Seq<char>>::empty()
    } else {
        let n = nodes.last();
        member_paths(nodes.drop_last(), id) + if n.kind == NodeKind::File && n.layer is Some
            && n.layer->0@ == id {
            seq![n.path@]
        } else {
            Seq::<Seq<char>>::empty()
        }
    }
}

/// A layer's derivation-input hash: its sorted member paths — shared by
/// its name and its description.
pub open spec fn layer_hash(g: KnowledgeGraph, id: Seq<char>) -> Option<Seq<char>> {
    if exists|i: int| 0 <= i < g.layers.len() && #[trigger] g.layers[i].id@ == id {
        Some(lines_hash(sorted_paths(member_paths(g.nodes@, id))))
    } else {
        None
    }
}

/// The index of the last flow with ID `id`.
pub open spec fn last_flow(flows: Seq<DomainFlow>, id: Seq<char>) -> Option<int>
    decreases flows.len(),
{
    if flows.len() == 0 {
        None
    } else if flows.last().id@ == id {
        Some(flows.len() - 1)
    } else {
        last_flow(flows.drop_last(), id)
    }
}

/// A flow's derivation-input hash: its step ID chain, in order.
pub open spec fn flow_hash(flows: Seq<DomainFlow>, id: Seq<char>) -> Option<Seq<char>> {
    match last_flow(flows, id) {
        Some(k) => Some(lines_hash(id_texts(flows[k].steps@))),
        None => None,
    }
}

/// The index of the last tour step at node `id`.
pub open spec fn last_step(steps: Seq<TourStep>, id: Seq<char>) -> Option<int>
    decreases steps.len(),
{
    if steps.len() == 0 {
        None
    } else if steps.last().node.text() == id {
        Some(steps.len() - 1)
    } else {
        last_step(steps.drop_last(), id)
    }
}

/// A tour step's derivation-input hash: its mechanical label, as the tour
/// recomputed from structural facts would carry it.
pub open spec fn tour_hash(recomputed: Seq<TourStep>, id: Seq<char>) -> Option<Seq<char>> {
    match last_step(recomputed, id) {
        Some(k) => Some(content_hash_of(vstd::utf8::encode_utf8(recomputed[k].label@))),
        None => None,
    }
}

/// The content hash of the file at `path`, as the table read it: `None`
/// for a file that could not be read, or that the table does not list.
pub open spec fn file_hash(files: Seq<(String, Option<String>)>, path: Seq<char>) -> Option<Seq<char>>
    decreases files.len(),
{
    if files.len() == 0 {
        None
    } else if files.last().0@ == path {
        match files.last().1 {
            Some(h) => Some(h@),
            None => None,
        }
    } else {
        file_hash(files.drop_last(), path)
    }
}

fn find_file_hash(files: &Vec<(String, Option<String>)>, path: &Vec<char>) -> (r: Option<String>)
    ensures
        match r {
            Some(h) => file_hash(files@, path@) == Some(h@),
            None => file_hash(files@, path@) is None,
        },
{
    let mut k: usize = files.len();
    assert(files@.take(k as int) =~= files@);
    while k > 0
        invariant
            k <= files.len(),
            file_hash(files@, path@) == file_hash(files@.take(k as int), path@),
        decreases k,
    {
        let cur = chars_of(files[k - 1].0.as_str());
        assert(files@.take(k as int).drop_last() =~= files@.take(k - 1));
        if same(&cur, path) {
            return match &files[k - 1].1 {
                Some(h) => Some(h.clone()),
                None => None,
            };
        }
        k -= 1;
    }
    None
}

fn has_layer(layers: &Vec<crate::map::Layer>, id: &Vec<char>) -> (r: bool)
    ensures
        r == exists|i: int| 0 <= i < layers.len() && #[trigger] layers@[i].id@ == id@,
{
    let mut l: usize = 0;
    while l < layers.len()
        invariant
            l <= layers.len(),
            forall|j: int| 0 <= j < l ==> layers@[j].id@ != id@,
        decreases layers.len() - l,
    {
        let lid = chars_of(layers[l].id.as_str());
        if same(&lid, id) {
            return true;
        }
        l += 1;
    }
    false
}

fn layer_inputs_hash(graph: &KnowledgeGraph, id: &Vec<char>) -> (r: Option<String>)
    ensures
        match r {
            Some(h) => layer_hash(*graph, id@) == Some(h@),
            None => layer_hash(*graph, id@) is None,
        },
{
    if !has_layer(&graph.layers, id) {
        return None;
    }
    let mut paths: Vec<String> = Vec::new();
    let mut i: usize = 0;
    while i < graph.nodes.len()
        invariant
            i <= graph.nodes.len(),
            strings(paths@) == member_paths(graph.nodes@.take(i as int), id@),
        decreases graph.nodes.len() - i,
    {
        let node = &graph.nodes[i];
        proof {
            assert(graph.nodes@.take(i + 1).drop_last() =~= graph.nodes@.take(i as int));
        }
        let ghost before = strings(paths@);
        if node.kind == NodeKind::File {
            match &node.layer {
                Some(layer) => {
                    let lv = chars_of(layer.as_str());
                    if same(&lv, id) {
                        paths.push(node.path.clone());
                        assert(strings(paths@) =~= before.push(node.path@));
                    }
                },
                None => {},
            }
        }
        proof {
            assert(member_paths(graph.nodes@.take(i + 1), id@) =~= before + if node.kind == NodeKind::File
                && node.layer is Some && node.layer->0@ == id@ {
                seq![node.path@]
            } else {
                Seq::<Seq<char>>::empty()
            });
        }
        i += 1;
    }
    proof {
        assert(graph.nodes@.take(i as int) =~= graph.nodes@);
    }
    let sorted = sort_paths(paths);
    Some(hash_lines(&sorted))
}

fn flow_inputs_hash(flows: &Vec<DomainFlow>, id: &Vec<char>) -> (r: Option<String>)
    ensures
        match r {
            Some(h) => flow_hash(flows@, id@) == Some(h@),
            None => flow_hash(flows@, id@) is None,
        },
{
    let mut k: usize = flows.len();
    assert(flows@.take(k as int) =~= flows@);
    while k > 0
        invariant
            k <= flows.len(),
            last_flow(flows@, id@) == last_flow(flows@.take(k as int), id@),
        decreases k,
    {
        let cur = chars_of(flows[k - 1].id.as_str());
        assert(flows@.take(k as int).drop_last() =~= flows@.take(k - 1));
        if same(&cur, id) {
            let flow = &flows[k - 1];
            let mut steps: Vec<String> = Vec::new();
            let mut s: usize = 0;
            while s < flow.steps.len()
                invariant
                    s <= flow.steps.len(),
                    strings(steps@) == id_texts(flow.steps@).take(s as int),
                decreases flow.steps.len() - s,
            {
                let ghost before = strings(steps@);
                steps.push(flow.steps[s].0.clone());
                assert(strings(steps@) =~= before.push(flow.steps@[s as int].text()));
                assert(strings(steps@) =~= id_texts(flow.steps@).take(s + 1));
                s += 1;
            }
            assert(id_texts(flow.steps@).take(s as int) =~= id_texts(flow.steps@));
            return Some(hash_lines(&steps));
        }
        k -= 1;
    }
    None
}

fn tour_inputs_hash(steps: &Vec<TourStep>, id: &Vec<char>) -> (r: Option<String>)
    ensures
        match r {
            Some(h) => tour_hash(steps@, id@) == Some(h@),
            None => tour_hash(steps@, id@) is None,
        },
{
    let mut k: usize = steps.len();
    assert(steps@.take(k as int) =~= steps@);
    while k > 0
        invariant
            k <= steps.len(),
            last_step(steps@, id@) == last_step(steps@.take(k as int), id@),
        decreases k,
    {
        let cur = chars_of(steps[k - 1].node.as_str());
        assert(steps@.take(k as int).drop_last() =~= steps@.take(k - 1));
        if same(&cur, id) {
            return Some(content_hash(steps[k - 1].label.as_str().as_bytes()));
        }
        k -= 1;
    }
    None
}

/// The pairs a purchasing run stores for node summaries: each model-written
/// summary under its node ID, against its file's content hash.
pub open spec fn node_candidates(nodes: Seq<Node>, files: Seq<(String, Option<String>)>) -> Seq<(Seq<char>, (Seq<char>, Seq<char>))>
    decreases nodes.len(),
{
    if nodes.len() == 0 {
        Seq::empty()
    } else {
        let n = nodes.last();
        node_candidates(nodes.drop_last(), files) + if n.provenance == Provenance::Llm && file_hash(files, n.path@) is Some {
            seq![(n.id.text(), (file_hash(files, n.path@)->0, n.summary@))]
        } else {
            Seq::empty()
        }
    }
}

/// The pairs stored for layer names: each model-written name under its
/// layer ID, against the layer's derivation-input hash.
pub open spec fn name_candidates(g: KnowledgeGraph, layers: Seq<crate::map::Layer>) -> Seq<(Seq<char>, (Seq<char>, Seq<char>))>
    decreases layers.len(),
{
    if layers.len() == 0 {
        Seq::empty()
    } else {
        let l = layers.last();
        name_candidates(g, layers.drop_last()) + if l.provenance == Provenance::Llm && layer_hash(g, l.id@) is Some {
            seq![(l.id@, (layer_hash(g, l.id@)->0, l.name@))]
        } else {
            Seq::empty()
        }
    }
}

/// The pairs stored for layer descriptions, against the same hash the
/// layer's name uses.
pub open spec fn description_candidates(g: KnowledgeGraph, layers: Seq<crate::map::Layer>) -> Seq<(Seq<char>, (Seq<char>, Seq<char>))>
    decreases layers.len(),
{
    if layers.len() == 0 {
        Seq::empty()
    } else {
        let l = layers.last();
        description_candidates(g, layers.drop_last()) + if l.description is Some && l.description->0.provenance
            == Provenance::Llm && layer_hash(g, l.id@) is Some {
            seq![(l.id@, (layer_hash(g, l.id@)->0, l.description->0.text@))]
        } else {
            Seq::empty()
        }
    }
}

/// The pairs stored for flow names, against each flow's step chain hash.
pub open spec fn flow_candidates(all: Seq<DomainFlow>, flows: Seq<DomainFlow>) -> Seq<(Seq<char>, (Seq<char>, Seq<char>))>
    decreases flows.len(),
{
    if flows.len() == 0 {
        Seq::empty()
    } else {
        let f = flows.last();
        flow_candidates(all, flows.drop_last()) + if f.provenance == Provenance::Llm && flow_hash(all, f.id@) is Some {
            seq![(f.id@, (flow_hash(all, f.id@)->0, f.name@))]
        } else {
            Seq::empty()
        }
    }
}

/// The pairs stored for tour labels, against the recomputed mechanical
/// label's hash.
pub open spec fn step_candidates(recomputed: Seq<TourStep>, steps: Seq<TourStep>) -> Seq<(Seq<char>, (Seq<char>, Seq<char>))>
    decreases steps.len(),
{
    if steps.len() == 0 {
        Seq::empty()
    } else {
        let s = steps.last();
        step_candidates(recomputed, steps.drop_last()) + if s.provenance == Provenance::Llm && tour_hash(
            recomputed,
            s.node.text(),
        ) is Some {
            seq![(s.node.text(), (tour_hash(recomputed, s.node.text())->0, s.label@))]
        } else {
            Seq::empty()
        }
    }
}

/// `section` holds exactly what the candidate pairs say, the last pair for
/// a key winning, keys in order.
pub open spec fn holds(section: Seq<(String, Entry)>, candidates: Seq<(Seq<char>, (Seq<char>, Seq<char>))>) -> bool {
    &&& keys_sorted(entries(section))
    &&& forall|k: Seq<char>| #[trigger] last_for(entries(section), k) == last_for(candidates, k)
}

proof fn lemma_holds_push(
    section: Seq<(String, Entry)>,
    old_section: Seq<(String, Entry)>,
    candidates: Seq<(Seq<char>, (Seq<char>, Seq<char>))>,
    key: Seq<char>,
    value: (Seq<char>, Seq<char>),
)
    requires
        holds(old_section, candidates),
        keys_sorted(entries(section)),
        forall|k: Seq<char>|
            #[trigger] last_for(entries(section), k) == if k == key {
                Some(value)
            } else {
                last_for(entries(old_section), k)
            },
    ensures
        holds(section, candidates.push((key, value))),
{
    assert forall|k: Seq<char>| #[trigger] last_for(entries(section), k) == last_for(candidates.push((key, value)), k) by {
        assert(candidates.push((key, value)).drop_last() =~= candidates);
    }
}

fn entry_of(hash: String, text: &String) -> (e: Entry)
    ensures
        e.hash@ == hash@,
        e.text@ == text@,
{
    Entry { hash, text: text.clone() }
}

/// What a purchasing run writes back: every model-written element, keyed
/// by what derived it. Rebuilt from the map alone, so annotations for
/// deleted elements or changed derivations simply cease to exist. `files`
/// lists the content hash of each file as read; `days` is today, in days
/// since the epoch.
pub fn rebuild_store(
    graph: &KnowledgeGraph,
    files: &Vec<(String, Option<String>)>,
    identity: ProviderIdentity,
    days: i64,
) -> (store: AnnotationStore)
    requires
        days <= i64::MAX - 719_468,
    ensures
        store.version == STORE_VERSION,
        store.produced_by matches Some(p) && p.identity == identity && p.date@ == civil_text(days as int),
        holds(store.annotations@, node_candidates(graph.nodes@, files@)),
        holds(store.layers@, name_candidates(*graph, graph.layers@)),
        holds(store.layer_descriptions@, description_candidates(*graph, graph.layers@)),
        holds(store.flows@, flow_candidates(graph.domain_flows@, graph.domain_flows@)),
        exists|recomputed: Seq<TourStep>|
            is_tour(graph.nodes@, graph.edges@, recomputed) && holds(store.tour@, step_candidates(recomputed, graph.tour@)),
{
    let ghost g = *graph;
    let mut annotations: Vec<(String, Entry)> = Vec::new();
    let mut i: usize = 0;
    while i < graph.nodes.len()
        invariant
            i <= graph.nodes.len(),
            holds(annotations@, node_candidates(graph.nodes@.take(i as int), files@)),
        decreases graph.nodes.len() - i,
    {
        let node = &graph.nodes[i];
        proof {
            assert(graph.nodes@.take(i + 1).drop_last() =~= graph.nodes@.take(i as int));
        }
        if node.provenance == Provenance::Llm {
            let path = chars_of(node.path.as_str());
            match find_file_hash(files, &path) {
                Some(h) => {
                    let ghost before = annotations@;
                    let key = node.id.0.clone();
                    let e = entry_of(h, &node.summary);
                    let ghost value = (e.hash@, e.text@);
                    upsert(&mut annotations, key, e);
                    proof {
                        lemma_holds_push(annotations@, before, node_candidates(graph.nodes@.take(i as int), files@), node.id.text(), value);
                        assert(node_candidates(graph.nodes@.take(i + 1), files@) =~= node_candidates(graph.nodes@.take(i as int), files@).push((node.id.text(), value)));
                    }
                },
                None => {
                    assert(node_candidates(graph.nodes@.take(i + 1), files@) =~= node_candidates(graph.nodes@.take(i as int), files@));
                },
            }
        } else {
            assert(node_candidates(graph.nodes@.take(i + 1), files@) =~= node_candidates(graph.nodes@.take(i as int), files@));
        }
        i += 1;
    }
    assert(graph.nodes@.take(i as int) =~= graph.nodes@);
    let mut names: Vec<(String, Entry)> = Vec::new();
    let mut descriptions: Vec<(String, Entry)> = Vec::new();
    let mut l: usize = 0;
    while l < graph.layers.len()
        invariant
            l <= graph.layers.len(),
            g == *graph,
            holds(names@, name_candidates(g, graph.layers@.take(l as int))),
            holds(descriptions@, description_candidates(g, graph.layers@.take(l as int))),
        decreases graph.layers.len() - l,
    {
        let layer = &graph.layers[l];
        proof {
            assert(graph.layers@.take(l + 1).drop_last() =~= graph.layers@.take(l as int));
        }
        let id = chars_of(layer.id.as_str());
        let hash = layer_inputs_hash(graph, &id);
        let ghost names0 = names@;
        let ghost nc = name_candidates(g, graph.layers@.take(l as int));
        if layer.provenance == Provenance::Llm && hash.is_some() {
            let h = hash.clone().unwrap();
            let e = entry_of(h, &layer.name);
            let ghost value = (e.hash@, e.text@);
            upsert(&mut names, layer.id.clone(), e);
            proof {
                lemma_holds_push(names@, names0, nc, layer.id@, value);
                assert(name_candidates(g, graph.layers@.take(l + 1)) =~= nc.push((layer.id@, value)));
            }
        } else {
            assert(name_candidates(g, graph.layers@.take(l + 1)) =~= nc);
        }
        let ghost desc0 = descriptions@;
        let ghost dc = description_candidates(g, graph.layers@.take(l as int));
        match &layer.description {
            Some(d) => {
                if d.provenance == Provenance::Llm && hash.is_some() {
                    let h = hash.unwrap();
                    let e = entry_of(h, &d.text);
                    let ghost value = (e.hash@, e.text@);
                    upsert(&mut descriptions, layer.id.clone(), e);
                    proof {
                        lemma_holds_push(descriptions@, desc0, dc, layer.id@, value);
                        assert(description_candidates(g, graph.layers@.take(l + 1)) =~= dc.push((layer.id@, value)));
                    }
                } else {
                    assert(description_candidates(g, graph.layers@.take(l + 1)) =~= dc);
                }
            },
            None => {
                assert(description_candidates(g, graph.layers@.take(l + 1)) =~= dc);
            },
        }
        l += 1;
    }
    assert(graph.layers@.take(l as int) =~= graph.layers@);
    let mut flows: Vec<(String, Entry)> = Vec::new();
    let mut f: usize = 0;
    while f < graph.domain_flows.len()
        invariant
            f <= graph.domain_flows.len(),
            holds(flows@, flow_candidates(graph.domain_flows@, graph.domain_flows@.take(f as int))),
        decreases graph.domain_flows.len() - f,
    {
        let flow = &graph.domain_flows[f];
        proof {
            assert(graph.domain_flows@.take(f + 1).drop_last() =~= graph.domain_flows@.take(f as int));
        }
        let ghost fc = flow_candidates(graph.domain_flows@, graph.domain_flows@.take(f as int));
        if flow.provenance == Provenance::Llm {
            let id = chars_of(flow.id.as_str());
            match flow_inputs_hash(&graph.domain_flows, &id) {
                Some(h) => {
                    let ghost before = flows@;
                    let e = entry_of(h, &flow.name);
                    let ghost value = (e.hash@, e.text@);
                    upsert(&mut flows, flow.id.clone(), e);
                    proof {
                        lemma_holds_push(flows@, before, fc, flow.id@, value);
                        assert(flow_candidates(graph.domain_flows@, graph.domain_flows@.take(f + 1)) =~= fc.push((flow.id@, value)));
                    }
                },
                None => {
                    assert(flow_candidates(graph.domain_flows@, graph.domain_flows@.take(f + 1)) =~= fc);
                },
            }
        } else {
            assert(flow_candidates(graph.domain_flows@, graph.domain_flows@.take(f + 1)) =~= fc);
        }
        f += 1;
    }
    assert(graph.domain_flows@.take(f as int) =~= graph.domain_flows@);
    let recomputed = build_tour(graph);
    let mut tour: Vec<(String, Entry)> = Vec::new();
    let mut s: usize = 0;
    while s < graph.tour.len()
        invariant
            s <= graph.tour.len(),
            holds(tour@, step_candidates(recomputed@, graph.tour@.take(s as int))),
        decreases graph.tour.len() - s,
    {
        let step = &graph.tour[s];
        proof {
            assert(graph.tour@.take(s + 1).drop_last() =~= graph.tour@.take(s as int));
        }
        let ghost sc = step_candidates(recomputed@, graph.tour@.take(s as int));
        if step.provenance == Provenance::Llm {
            let id = chars_of(step.node.as_str());
            match tour_inputs_hash(&recomputed, &id) {
                Some(h) => {
                    let ghost before = tour@;
                    let e = entry_of(h, &step.label);
                    let ghost value = (e.hash@, e.text@);
                    upsert(&mut tour, step.node.0.clone(), e);
                    proof {
                        lemma_holds_push(tour@, before, sc, step.node.text(), value);
                        assert(step_candidates(recomputed@, graph.tour@.take(s + 1)) =~= sc.push((step.node.text(), value)));
                    }
                },
                None => {
                    assert(step_candidates(recomputed@, graph.tour@.take(s + 1)) =~= sc);
                },
            }
        } else {
            assert(step_candidates(recomputed@, graph.tour@.take(s + 1)) =~= sc);
        }
        s += 1;
    }
    assert(graph.tour@.take(s as int) =~= graph.tour@);
    let date = civil_date(days);
    AnnotationStore {
        version: STORE_VERSION,
        produced_by: Some(ProducedBy { identity, date }),
        annotations,
        layers: names,
        layer_descriptions: descriptions,
        flows,
        tour,
    }
}

/// What re-attaching does to one node: a stored summary comes back, as
/// model-written, while the node's file still hashes to what it was
/// purchased against; otherwise the node is untouched.
pub open spec fn node_reattached(store: AnnotationStore, files: Seq<(String, Option<String>)>, o: Node, n: Node) -> bool {
    match last_for(entries(store.annotations@), o.id.text()) {
        Some(e) => if file_hash(files, o.path@) == Some(e.0) {
            &&& n.summary@ == e.1 && n.provenance == Provenance::Llm
            &&& n.id == o.id && n.kind == o.kind && n.name == o.name && n.path == o.path
            &&& n.range == o.range && n.layer == o.layer && n.significance == o.significance
        } else {
            n == o
        },
        None => n == o,
    }
}

/// What re-attaching does to one layer: its stored name and description
/// come back while its membership hashes to what they were purchased
/// against.
pub open spec fn layer_reattached(store: AnnotationStore, g: KnowledgeGraph, o: crate::map::Layer, n: crate::map::Layer) -> bool {
    let h = layer_hash(g, o.id@);
    &&& n.id == o.id
    &&& match last_for(entries(store.layers@), o.id@) {
        Some(e) => if h == Some(e.0) {
            n.name@ == e.1 && n.provenance == Provenance::Llm
        } else {
            n.name == o.name && n.provenance == o.provenance
        },
        None => n.name == o.name && n.provenance == o.provenance,
    }
    &&& match last_for(entries(store.layer_descriptions@), o.id@) {
        Some(e) => if h == Some(e.0) {
            n.description matches Some(d) && d.text@ == e.1 && d.provenance == Provenance::Llm
        } else {
            n.description == o.description
        },
        None => n.description == o.description,
    }
}

/// What re-attaching does to one flow.
pub open spec fn flow_reattached(store: AnnotationStore, flows: Seq<DomainFlow>, o: DomainFlow, n: DomainFlow) -> bool {
    match last_for(entries(store.flows@), o.id@) {
        Some(e) => if flow_hash(flows, o.id@) == Some(e.0) {
            n.name@ == e.1 && n.provenance == Provenance::Llm && n.id == o.id && n.domain == o.domain && n.steps == o.steps
        } else {
            n == o
        },
        None => n == o,
    }
}

/// What re-attaching does to one tour step.
pub open spec fn step_reattached(store: AnnotationStore, recomputed: Seq<TourStep>, o: TourStep, n: TourStep) -> bool {
    match last_for(entries(store.tour@), o.node.text()) {
        Some(e) => if tour_hash(recomputed, o.node.text()) == Some(e.0) {
            n.label@ == e.1 && n.provenance == Provenance::Llm && n.node == o.node
        } else {
            n == o
        },
        None => n == o,
    }
}

/// Re-attaches stored prose to a freshly rebuilt map without any provider
/// call: a node whose file still hashes to the recorded hash gets its
/// summary back; a layer, flow, or tour step whose derivation-input hash
/// still matches gets its name, description, or label back. Everything
/// else stays as the scan made it. `files` lists the content hash of each
/// file as read.
pub fn reattach(store: &AnnotationStore, graph: &mut KnowledgeGraph, files: &Vec<(String, Option<String>)>)
    ensures
        final(graph).nodes.len() == old(graph).nodes.len(),
        forall|i: int|
            0 <= i < final(graph).nodes.len() ==> node_reattached(*store, files@, #[trigger] old(graph).nodes[i], final(graph).nodes[i]),
        final(graph).layers.len() == old(graph).layers.len(),
        forall|i: int|
            0 <= i < final(graph).layers.len() ==> layer_reattached(*store, *old(graph), #[trigger] old(graph).layers[i], final(graph).layers[i]),
        final(graph).domain_flows.len() == old(graph).domain_flows.len(),
        forall|i: int|
            0 <= i < final(graph).domain_flows.len() ==> flow_reattached(
                *store,
                old(graph).domain_flows@,
                #[trigger] old(graph).domain_flows[i],
                final(graph).domain_flows[i],
            ),
        final(graph).tour.len() == old(graph).tour.len(),
        exists|recomputed: Seq<TourStep>|
            is_tour(old(graph).nodes@, old(graph).edges@, recomputed) && forall|i: int|
                0 <= i < final(graph).tour.len() ==> step_reattached(*store, recomputed, #[trigger] old(graph).tour[i], final(graph).tour[i]),
        final(graph).edges == old(graph).edges,
        final(graph).project == old(graph).project,
        final(graph).version == old(graph).version,
{
    let ghost start = *graph;
    // Every derivation hash first, from the map as the scan made it.
    let mut layer_hashes: Vec<Option<String>> = Vec::new();
    let mut l: usize = 0;
    while l < graph.layers.len()
        invariant
            l <= graph.layers.len(),
            *graph == start,
            layer_hashes.len() == l,
            forall|j: int| 0 <= j < l ==> match #[trigger] layer_hashes@[j] {
                Some(h) => layer_hash(start, start.layers@[j].id@) == Some(h@),
                None => layer_hash(start, start.layers@[j].id@) is None,
            },
        decreases graph.layers.len() - l,
    {
        let id = chars_of(graph.layers[l].id.as_str());
        layer_hashes.push(layer_inputs_hash(graph, &id));
        l += 1;
    }
    let mut flow_hashes: Vec<Option<String>> = Vec::new();
    let mut f: usize = 0;
    while f < graph.domain_flows.len()
        invariant
            f <= graph.domain_flows.len(),
            *graph == start,
            flow_hashes.len() == f,
            forall|j: int| 0 <= j < f ==> match #[trigger] flow_hashes@[j] {
                Some(h) => flow_hash(start.domain_flows@, start.domain_flows@[j].id@) == Some(h@),
                None => flow_hash(start.domain_flows@, start.domain_flows@[j].id@) is None,
            },
        decreases graph.domain_flows.len() - f,
    {
        let id = chars_of(graph.domain_flows[f].id.as_str());
        flow_hashes.push(flow_inputs_hash(&graph.domain_flows, &id));
        f += 1;
    }
    let recomputed = build_tour(graph);
    // Nodes.
    let mut i: usize = 0;
    while i < graph.nodes.len()
        invariant
            i <= graph.nodes.len() == start.nodes.len(),
            graph.layers == start.layers,
            graph.domain_flows == start.domain_flows,
            graph.tour == start.tour,
            graph.edges == start.edges,
            graph.project == start.project,
            graph.version == start.version,
            forall|j: int| 0 <= j < i ==> node_reattached(*store, files@, #[trigger] start.nodes[j], graph.nodes[j]),
            forall|j: int| i <= j < graph.nodes.len() ==> graph.nodes[j] == start.nodes[j],
        decreases graph.nodes.len() - i,
    {
        let id = chars_of(graph.nodes[i].id.as_str());
        match lookup(&store.annotations, &id) {
            Some(a) => {
                let path = chars_of(graph.nodes[i].path.as_str());
                match find_file_hash(files, &path) {
                    Some(h) => {
                        let stored = chars_of(store.annotations[a].1.hash.as_str());
                        let hv = chars_of(h.as_str());
                        if same(&hv, &stored) {
                            graph.nodes[i].summary = store.annotations[a].1.text.clone();
                            graph.nodes[i].provenance = Provenance::Llm;
                        }
                    },
                    None => {},
                }
            },
            None => {},
        }
        i += 1;
    }
    // Layers.
    let mut l: usize = 0;
    while l < graph.layers.len()
        invariant
            l <= graph.layers.len() == start.layers.len(),
            layer_hashes.len() == start.layers.len(),
            forall|j: int| 0 <= j < start.layers.len() ==> match #[trigger] layer_hashes@[j] {
                Some(h) => layer_hash(start, start.layers@[j].id@) == Some(h@),
                None => layer_hash(start, start.layers@[j].id@) is None,
            },
            graph.nodes.len() == start.nodes.len(),
            forall|j: int| 0 <= j < graph.nodes.len() ==> node_reattached(*store, files@, #[trigger] start.nodes[j], graph.nodes[j]),
            graph.domain_flows == start.domain_flows,
            graph.tour == start.tour,
            graph.edges == start.edges,
            graph.project == start.project,
            graph.version == start.version,
            forall|j: int| 0 <= j < l ==> layer_reattached(*store, start, #[trigger] start.layers[j], graph.layers[j]),
            forall|j: int| l <= j < graph.layers.len() ==> graph.layers[j] == start.layers[j],
        decreases graph.layers.len() - l,
    {
        let id = chars_of(graph.layers[l].id.as_str());
        match &layer_hashes[l] {
            Some(h) => {
                let hv = chars_of(h.as_str());
                match lookup(&store.layers, &id) {
                    Some(a) => {
                        let stored = chars_of(store.layers[a].1.hash.as_str());
                        if same(&hv, &stored) {
                            graph.layers[l].name = store.layers[a].1.text.clone();
                            graph.layers[l].provenance = Provenance::Llm;
                        }
                    },
                    None => {},
                }
                match lookup(&store.layer_descriptions, &id) {
                    Some(a) => {
                        let stored = chars_of(store.layer_descriptions[a].1.hash.as_str());
                        if same(&hv, &stored) {
                            graph.layers[l].description = Some(
                                LayerDescription {
                                    text: store.layer_descriptions[a].1.text.clone(),
                                    provenance: Provenance::Llm,
                                },
                            );
                        }
                    },
                    None => {},
                }
            },
            None => {},
        }
        l += 1;
    }
    // Flows.
    let mut f: usize = 0;
    while f < graph.domain_flows.len()
        invariant
            f <= graph.domain_flows.len() == start.domain_flows.len(),
            flow_hashes.len() == start.domain_flows.len(),
            forall|j: int| 0 <= j < start.domain_flows.len() ==> match #[trigger] flow_hashes@[j] {
                Some(h) => flow_hash(start.domain_flows@, start.domain_flows@[j].id@) == Some(h@),
                None => flow_hash(start.domain_flows@, start.domain_flows@[j].id@) is None,
            },
            graph.nodes.len() == start.nodes.len(),
            forall|j: int| 0 <= j < graph.nodes.len() ==> node_reattached(*store, files@, #[trigger] start.nodes[j], graph.nodes[j]),
            graph.layers.len() == start.layers.len(),
            forall|j: int| 0 <= j < graph.layers.len() ==> layer_reattached(*store, start, #[trigger] start.layers[j], graph.layers[j]),
            graph.tour == start.tour,
            graph.edges == start.edges,
            graph.project == start.project,
            graph.version == start.version,
            forall|j: int| 0 <= j < f ==> flow_reattached(*store, start.domain_flows@, #[trigger] start.domain_flows[j], graph.domain_flows[j]),
            forall|j: int| f <= j < graph.domain_flows.len() ==> graph.domain_flows[j] == start.domain_flows[j],
        decreases graph.domain_flows.len() - f,
    {
        let id = chars_of(graph.domain_flows[f].id.as_str());
        match &flow_hashes[f] {
            Some(h) => {
                let hv = chars_of(h.as_str());
                match lookup(&store.flows, &id) {
                    Some(a) => {
                        let stored = chars_of(store.flows[a].1.hash.as_str());
                        if same(&hv, &stored) {
                            graph.domain_flows[f].name = store.flows[a].1.text.clone();
                            graph.domain_flows[f].provenance = Provenance::Llm;
                        }
                    },
                    None => {},
                }
            },
            None => {},
        }
        f += 1;
    }
    // Tour steps.
    let mut s: usize = 0;
    while s < graph.tour.len()
        invariant
            s <= graph.tour.len() == start.tour.len(),
            graph.nodes.len() == start.nodes.len(),
            forall|j: int| 0 <= j < graph.nodes.len() ==> node_reattached(*store, files@, #[trigger] start.nodes[j], graph.nodes[j]),
            graph.layers.len() == start.layers.len(),
            forall|j: int| 0 <= j < graph.layers.len() ==> layer_reattached(*store, start, #[trigger] start.layers[j], graph.layers[j]),
            graph.domain_flows.len() == start.domain_flows.len(),
            forall|j: int| 0 <= j < graph.domain_flows.len() ==> flow_reattached(*store, start.domain_flows@, #[trigger] start.domain_flows[j], graph.domain_flows[j]),
            graph.edges == start.edges,
            graph.project == start.project,
            graph.version == start.version,
            forall|j: int| 0 <= j < s ==> step_reattached(*store, recomputed@, #[trigger] start.tour[j], graph.tour[j]),
            forall|j: int| s <= j < graph.tour.len() ==> graph.tour[j] == start.tour[j],
        decreases graph.tour.len() - s,
    {
        let id = chars_of(graph.tour[s].node.as_str());
        match tour_inputs_hash(&recomputed, &id) {
            Some(h) => {
                let hv = chars_of(h.as_str());
                match lookup(&store.tour, &id) {
                    Some(a) => {
                        let stored = chars_of(store.tour[a].1.hash.as_str());
                        if same(&hv, &stored) {
                            graph.tour[s].label = store.tour[a].1.text.clone();
                            graph.tour[s].provenance = Provenance::Llm;
                        }
                    },
                    None => {},
                }
            },
            None => {},
        }
        s += 1;
    }
}


/// A lookup past a tail that does not hold the key answers as the head.
proof fn lemma_last_for_skips(
    head: Seq<(Seq<char>, (Seq<char>, Seq<char>))>,
    tail: Seq<(Seq<char>, (Seq<char>, Seq<char>))>,
    key: Seq<char>,
)
    requires
        tail.len() <= 1,
        forall|j: int| 0 <= j < tail.len() ==> tail[j].0 != key,
    ensures
        last_for(head + tail, key) == last_for(head, key),
{
    if tail.len() == 0 {
        assert(head + tail =~= head);
    } else {
        assert((head + tail).drop_last() =~= head);
    }
}

/// The pair a model-written node with its file hashed contributes is the
/// one its ID looks up, when no other node shares that ID.
proof fn lemma_node_candidate(nodes: Seq<Node>, files: Seq<(String, Option<String>)>, i: int)
    requires
        0 <= i < nodes.len(),
        nodes[i].provenance == Provenance::Llm,
        file_hash(files, nodes[i].path@) is Some,
        forall|j: int| 0 <= j < nodes.len() && j != i ==> nodes[j].id.text() != nodes[i].id.text(),
    ensures
        last_for(node_candidates(nodes, files), nodes[i].id.text()) == Some(
            (file_hash(files, nodes[i].path@)->0, nodes[i].summary@),
        ),
    decreases nodes.len(),
{
    let rest = nodes.drop_last();
    let n = nodes.last();
    let tail = if n.provenance == Provenance::Llm && file_hash(files, n.path@) is Some {
        seq![(n.id.text(), (file_hash(files, n.path@)->0, n.summary@))]
    } else {
        Seq::<(Seq<char>, (Seq<char>, Seq<char>))>::empty()
    };
    assert(node_candidates(nodes, files) == node_candidates(rest, files) + tail);
    if i == nodes.len() - 1 {
        assert((node_candidates(rest, files) + tail).last() == tail[0]);
    } else {
        assert forall|j: int| 0 <= j < rest.len() && j != i implies rest[j].id.text() != rest[i].id.text() by {
            assert(rest[j] == nodes[j]);
        }
        lemma_node_candidate(rest, files, i);
        assert(nodes[nodes.len() - 1] == n);
        lemma_last_for_skips(node_candidates(rest, files), tail, nodes[i].id.text());
    }
}

/// The carry-over law for node summaries. A store written from a map (as
/// `rebuild_store` writes it) hands a model-written summary back, as
/// model-written, to the same node of a later scan while its file still
/// hashes to what it was bought against; once the file's hash changes, the
/// node stays exactly as the scan made it. Node IDs are unique in a map.
pub proof fn law_summaries_survive_a_rescan_until_their_file_changes(
    store: AnnotationStore,
    g: KnowledgeGraph,
    files: Seq<(String, Option<String>)>,
    later_files: Seq<(String, Option<String>)>,
    i: int,
    rescanned: Node,
    after: Node,
)
    requires
        holds(store.annotations@, node_candidates(g.nodes@, files)),
        forall|a: int, b: int| 0 <= a < b < g.nodes.len() ==> g.nodes[a].id.text() != g.nodes[b].id.text(),
        0 <= i < g.nodes.len(),
        g.nodes[i].provenance == Provenance::Llm,
        file_hash(files, g.nodes[i].path@) is Some,
        rescanned.id == g.nodes[i].id,
        rescanned.path == g.nodes[i].path,
        node_reattached(store, later_files, rescanned, after),
    ensures
        file_hash(later_files, rescanned.path@) == file_hash(files, g.nodes[i].path@) ==> after.summary@
            == g.nodes[i].summary@ && after.provenance == Provenance::Llm && after.id == rescanned.id,
        file_hash(later_files, rescanned.path@) != file_hash(files, g.nodes[i].path@) ==> after == rescanned,
{
    assert forall|j: int| 0 <= j < g.nodes.len() && j != i implies g.nodes[j].id.text() != g.nodes[i].id.text() by {
        if j < i {
            assert(g.nodes[j].id.text() != g.nodes[i].id.text());
        } else {
            assert(g.nodes[i].id.text() != g.nodes[j].id.text());
        }
    }
    lemma_node_candidate(g.nodes@, files, i);
    assert(last_for(entries(store.annotations@), rescanned.id.text()) == last_for(
        node_candidates(g.nodes@, files),
        rescanned.id.text(),
    ));
}

/// The pair a model-named layer contributes is the one its ID looks up,
/// when no other layer shares that ID.
proof fn lemma_name_candidate(g: KnowledgeGraph, layers: Seq<crate::map::Layer>, i: int)
    requires
        0 <= i < layers.len(),
        layers[i].provenance == Provenance::Llm,
        layer_hash(g, layers[i].id@) is Some,
        forall|j: int| 0 <= j < layers.len() && j != i ==> layers[j].id@ != layers[i].id@,
    ensures
        last_for(name_candidates(g, layers), layers[i].id@) == Some((layer_hash(g, layers[i].id@)->0, layers[i].name@)),
    decreases layers.len(),
{
    let rest = layers.drop_last();
    let l = layers.last();
    let tail = if l.provenance == Provenance::Llm && layer_hash(g, l.id@) is Some {
        seq![(l.id@, (layer_hash(g, l.id@)->0, l.name@))]
    } else {
        Seq::<(Seq<char>, (Seq<char>, Seq<char>))>::empty()
    };
    assert(name_candidates(g, layers) == name_candidates(g, rest) + tail);
    if i == layers.len() - 1 {
        assert((name_candidates(g, rest) + tail).last() == tail[0]);
    } else {
        assert forall|j: int| 0 <= j < rest.len() && j != i implies rest[j].id@ != rest[i].id@ by {
            assert(rest[j] == layers[j]);
        }
        lemma_name_candidate(g, rest, i);
        lemma_last_for_skips(name_candidates(g, rest), tail, layers[i].id@);
    }
}

/// The same for a model-written layer description.
proof fn lemma_description_candidate(g: KnowledgeGraph, layers: Seq<crate::map::Layer>, i: int)
    requires
        0 <= i < layers.len(),
        layers[i].description matches Some(d) && d.provenance == Provenance::Llm,
        layer_hash(g, layers[i].id@) is Some,
        forall|j: int| 0 <= j < layers.len() && j != i ==> layers[j].id@ != layers[i].id@,
    ensures
        last_for(description_candidates(g, layers), layers[i].id@) == Some(
            (layer_hash(g, layers[i].id@)->0, layers[i].description->0.text@),
        ),
    decreases layers.len(),
{
    let rest = layers.drop_last();
    let l = layers.last();
    let tail = if l.description is Some && l.description->0.provenance == Provenance::Llm && layer_hash(g, l.id@) is Some {
        seq![(l.id@, (layer_hash(g, l.id@)->0, l.description->0.text@))]
    } else {
        Seq::<(Seq<char>, (Seq<char>, Seq<char>))>::empty()
    };
    assert(description_candidates(g, layers) == description_candidates(g, rest) + tail);
    if i == layers.len() - 1 {
        assert((description_candidates(g, rest) + tail).last() == tail[0]);
    } else {
        assert forall|j: int| 0 <= j < rest.len() && j != i implies rest[j].id@ != rest[i].id@ by {
            assert(rest[j] == layers[j]);
        }
        lemma_description_candidate(g, rest, i);
        lemma_last_for_skips(description_candidates(g, rest), tail, layers[i].id@);
    }
}

/// The carry-over law for layers. A layer's bought name and bought
/// description are stored against one hash, its membership: while a later
/// scan's layer of that ID has the same members, both come back as
/// model-written; once its membership changes, both expire together and
/// the layer keeps what the scan made. Layer IDs are unique in a map.
pub proof fn law_layer_prose_expires_with_its_membership(
    store: AnnotationStore,
    g: KnowledgeGraph,
    later: KnowledgeGraph,
    i: int,
    rescanned: crate::map::Layer,
    after: crate::map::Layer,
)
    requires
        holds(store.layers@, name_candidates(g, g.layers@)),
        holds(store.layer_descriptions@, description_candidates(g, g.layers@)),
        forall|a: int, b: int| 0 <= a < b < g.layers.len() ==> g.layers[a].id@ != g.layers[b].id@,
        0 <= i < g.layers.len(),
        g.layers[i].provenance == Provenance::Llm,
        g.layers[i].description matches Some(d) && d.provenance == Provenance::Llm,
        layer_hash(g, g.layers[i].id@) is Some,
        rescanned.id == g.layers[i].id,
        layer_reattached(store, later, rescanned, after),
    ensures
        layer_hash(later, rescanned.id@) == layer_hash(g, g.layers[i].id@) ==> {
            &&& after.name@ == g.layers[i].name@ && after.provenance == Provenance::Llm
            &&& after.description matches Some(d) && d.text@ == g.layers[i].description->0.text@ && d.provenance
                == Provenance::Llm
        },
        layer_hash(later, rescanned.id@) != layer_hash(g, g.layers[i].id@) ==> {
            &&& after.name == rescanned.name && after.provenance == rescanned.provenance
            &&& after.description == rescanned.description
        },
{
    assert forall|j: int| 0 <= j < g.layers.len() && j != i implies g.layers[j].id@ != g.layers[i].id@ by {
        if j < i {
            assert(g.layers[j].id@ != g.layers[i].id@);
        } else {
            assert(g.layers[i].id@ != g.layers[j].id@);
        }
    }
    lemma_name_candidate(g, g.layers@, i);
    lemma_description_candidate(g, g.layers@, i);
    assert(last_for(entries(store.layers@), rescanned.id@) == last_for(name_candidates(g, g.layers@), rescanned.id@));
    assert(last_for(entries(store.layer_descriptions@), rescanned.id@) == last_for(
        description_candidates(g, g.layers@),
        rescanned.id@,
    ));
}


/// A stored layer name comes back: a model-named layer saved with its
/// membership hash is model-named again, with the same name, wherever a
/// later scan's layer of that ID has the same members, whatever became of
/// the layer's description.
pub proof fn law_a_saved_layer_name_reattaches(
    store: AnnotationStore,
    g: KnowledgeGraph,
    later: KnowledgeGraph,
    i: int,
    rescanned: crate::map::Layer,
    after: crate::map::Layer,
)
    requires
        holds(store.layers@, name_candidates(g, g.layers@)),
        forall|a: int, b: int| 0 <= a < b < g.layers.len() ==> g.layers[a].id@ != g.layers[b].id@,
        0 <= i < g.layers.len(),
        g.layers[i].provenance == Provenance::Llm,
        layer_hash(g, g.layers[i].id@) is Some,
        rescanned.id == g.layers[i].id,
        layer_hash(later, rescanned.id@) == layer_hash(g, g.layers[i].id@),
        layer_reattached(store, later, rescanned, after),
    ensures
        after.name@ == g.layers[i].name@,
        after.provenance == Provenance::Llm,
{
    assert forall|j: int| 0 <= j < g.layers.len() && j != i implies g.layers[j].id@ != g.layers[i].id@ by {
        if j < i {
            assert(g.layers[j].id@ != g.layers[i].id@);
        } else {
            assert(g.layers[i].id@ != g.layers[j].id@);
        }
    }
    lemma_name_candidate(g, g.layers@, i);
    assert(last_for(entries(store.layers@), rescanned.id@) == last_for(name_candidates(g, g.layers@), rescanned.id@));
}

/// A stored layer description comes back the same way, whatever became of
/// the layer's name.
pub proof fn law_a_saved_layer_description_reattaches(
    store: AnnotationStore,
    g: KnowledgeGraph,
    later: KnowledgeGraph,
    i: int,
    rescanned: crate::map::Layer,
    after: crate::map::Layer,
)
    requires
        holds(store.layer_descriptions@, description_candidates(g, g.layers@)),
        forall|a: int, b: int| 0 <= a < b < g.layers.len() ==> g.layers[a].id@ != g.layers[b].id@,
        0 <= i < g.layers.len(),
        g.layers[i].description matches Some(d) && d.provenance == Provenance::Llm,
        layer_hash(g, g.layers[i].id@) is Some,
        rescanned.id == g.layers[i].id,
        layer_hash(later, rescanned.id@) == layer_hash(g, g.layers[i].id@),
        layer_reattached(store, later, rescanned, after),
    ensures
        after.description matches Some(d) && d.text@ == g.layers[i].description->0.text@ && d.provenance
            == Provenance::Llm,
{
    assert forall|j: int| 0 <= j < g.layers.len() && j != i implies g.layers[j].id@ != g.layers[i].id@ by {
        if j < i {
            assert(g.layers[j].id@ != g.layers[i].id@);
        } else {
            assert(g.layers[i].id@ != g.layers[j].id@);
        }
    }
    lemma_description_candidate(g, g.layers@, i);
    assert(last_for(entries(store.layer_descriptions@), rescanned.id@) == last_for(
        description_candidates(g, g.layers@),
        rescanned.id@,
    ));
}

} // verus!

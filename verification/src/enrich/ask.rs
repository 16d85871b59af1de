//! Questions about a map, answered from a bounded slice of it alone.
//!
//! A question in ordinary words becomes a small, mechanically selected set
//! of nodes: the nodes earlier answers cited first, then the nodes whose
//! name, path or prose best match the question's terms. Every limit is a
//! hard cap enforced here: on the question's length, on how many nodes
//! accompany it, on how large one node's prose may be, and on how many
//! earlier turns ride along.

use vstd::prelude::*;

use super::EnrichmentProvider;
use crate::map::{last_named, last_named_index, lemma_last_named, KnowledgeGraph, Node, NodeKind};
use crate::text::{
    append, append_str, chars_of, decimal, decimal_chars, trim, trimmed, contains, find_from, insert_sorted, is_listed, lemma_lex_irreflexive,
    lemma_lex_total, lemma_lex_transitive, lex_less, slice, lemma_listed_strings, lemma_sorted_unique, lex_lt, listed, same,
    string_of, strictly_sorted, strings, views,
};

verus! {

/// The most nodes that may accompany a question.
pub const CONTEXT_NODES: usize = 40;

/// The longest question accepted, in characters.
pub const MAX_QUESTION_CHARS: usize = 1000;

/// The longest summary one context entry carries, in characters.
pub const MAX_SUMMARY_CHARS: usize = 400;

/// The most previous turns a request may carry.
pub const MAX_TURNS: usize = 6;

/// The longest carried answer one turn may bring back, in characters.
pub const MAX_TURN_ANSWER_CHARS: usize = 2000;

/// Terms shorter than this match too much to be evidence of anything.
pub const MIN_TERM_CHARS: usize = 3;

/// `s` lowercased as std's `str::to_lowercase` lowercases it.
pub uninterp spec fn lowercase(s: Seq<char>) -> Seq<char>;

/// Calls std's `str::to_lowercase`; the result is named, not described:
/// Unicode case mapping is a table, not a formula.
#[verifier::external_body]
fn lowercased(s: &str) -> (r: String)
    ensures
        r@ == lowercase(s@),
{
    s.to_lowercase()
}

/// Whether `c` is alphabetic or numeric in Unicode's sense, as std's
/// `char::is_alphanumeric` decides it.
pub uninterp spec fn alphanumeric(c: char) -> bool;

/// Calls std's `char::is_alphanumeric`; the answer is named, since the
/// Unicode property tables it reads are pages long.
#[verifier::external_body]
fn is_alphanumeric(c: char) -> (r: bool)
    ensures
        r == alphanumeric(c),
{
    c.is_alphanumeric()
}

/// The pieces `s` splits into at every character that is not
/// alphanumeric, empty pieces included (std's `str::split`).
pub open spec fn pieces(s: Seq<char>) -> Seq<Seq<char>>
    decreases s.len(),
{
    if s.len() == 0 {
        seq![Seq::<char>::empty()]
    } else {
        let before = pieces(s.drop_last());
        if alphanumeric(s.last()) {
            before.update(before.len() - 1, before.last().push(s.last()))
        } else {
            before.push(Seq::<char>::empty())
        }
    }
}

proof fn lemma_pieces_nonempty(s: Seq<char>)
    ensures
        pieces(s).len() >= 1,
    decreases s.len(),
{
    if s.len() > 0 {
        lemma_pieces_nonempty(s.drop_last());
    }
}

/// English function words, which rank every node equally and none usefully.
pub open spec fn stopwords() -> Seq<Seq<char>> {
    seq![
        "and"@, "any"@, "are"@, "but"@, "can"@, "did"@, "does"@, "for"@, "from"@, "get"@,
        "has"@, "have"@, "how"@, "into"@, "its"@, "not"@, "the"@, "that"@, "them"@, "then"@,
        "there"@, "these"@, "they"@, "this"@, "was"@, "were"@, "what"@, "when"@, "where"@,
        "which"@, "who"@, "why"@, "will"@, "with"@, "you"@, "your"@,
    ]
}

fn stopword_list() -> (r: Vec<&'static str>)
    ensures
        views(r@) == stopwords(),
{
    let r = vec![
        "and", "any", "are", "but", "can", "did", "does", "for", "from", "get", "has", "have",
        "how", "into", "its", "not", "the", "that", "them", "then", "there", "these", "they",
        "this", "was", "were", "what", "when", "where", "which", "who", "why", "will", "with",
        "you", "your",
    ];
    assert(views(r@) =~= stopwords());
    r
}

/// A piece long enough and meaningful enough to be evidence.
pub open spec fn meaningful(t: Seq<char>) -> bool {
    t.len() >= MIN_TERM_CHARS && !stopwords().contains(t)
}

/// Whether `t` is one of the terms of the (lowercased) text `s`.
pub open spec fn is_term(s: Seq<char>, t: Seq<char>) -> bool {
    pieces(s).contains(t) && meaningful(t)
}

/// `v` lists the terms of `s`, each once, in order.
pub open spec fn term_list(s: Seq<char>, v: Seq<Seq<char>>) -> bool {
    strictly_sorted(v) && forall|t: Seq<char>| #[trigger] v.contains(t) <==> is_term(s, t)
}

/// The distinct meaningful terms of a question, lowercased, in order.
pub open spec fn terms_of(question: Seq<char>) -> Seq<Seq<char>> {
    choose|v: Seq<Seq<char>>| term_list(lowercase(question), v)
}

fn is_stopword(t: &Vec<char>, words: &Vec<&'static str>) -> (r: bool)
    requires
        views(words@) == stopwords(),
    ensures
        r == stopwords().contains(t@),
{
    let mut k: usize = 0;
    while k < words.len()
        invariant
            k <= words.len(),
            views(words@) == stopwords(),
            forall|j: int| 0 <= j < k ==> stopwords()[j] != t@,
        decreases words.len() - k,
    {
        let w = chars_of(words[k]);
        if same(&w, t) {
            assert(stopwords()[k as int] == t@);
            return true;
        }
        k += 1;
    }
    false
}

/// Adds `piece` to the sorted term list when it is meaningful.
fn consider(found: &mut Vec<String>, piece: &Vec<char>, words: &Vec<&'static str>)
    requires
        views(words@) == stopwords(),
        forall|i: int, j: int| 0 <= i < j < old(found).len() ==> lex_lt(old(found)[i]@, old(found)[j]@),
    ensures
        forall|i: int, j: int| 0 <= i < j < final(found).len() ==> lex_lt(final(found)[i]@, final(found)[j]@),
        final(found).len() <= old(found).len() + if meaningful(piece@) { 1int } else { 0int },
        forall|t: Seq<char>|
            #[trigger] listed(final(found)@, t) <==> (listed(old(found)@, t) || (t == piece@
                && meaningful(piece@))),
{
    if piece.len() >= MIN_TERM_CHARS && !is_stopword(piece, words) {
        insert_sorted(found, string_of(piece));
    }
}

/// The distinct, meaningful terms in a question: lowercased, split at every
/// character that is not alphanumeric, pieces shorter than three characters
/// and function words dropped, each once, in order.
pub fn terms(question: &str) -> (r: Vec<String>)
    ensures
        strings(r@) == terms_of(question@),
        3 * r.len() <= usize::MAX,
{
    let lower = lowercased(question);
    let s = chars_of(lower.as_str());
    let words = stopword_list();
    let mut found: Vec<String> = Vec::new();
    let mut cur: Vec<char> = Vec::new();
    let mut i: usize = 0;
    proof {
        assert(s@.take(0) =~= Seq::<char>::empty());
    }
    while i < s.len()
        invariant
            i <= s.len(),
            s@ == lowercase(question@),
            views(words@) == stopwords(),
            pieces(s@.take(i as int)).len() >= 1,
            pieces(s@.take(i as int)).last() == cur@,
            forall|a: int, b: int| 0 <= a < b < found.len() ==> lex_lt(found[a]@, found[b]@),
            forall|t: Seq<char>|
                #[trigger] listed(found@, t) <==> (pieces(s@.take(i as int)).drop_last().contains(t)
                    && meaningful(t)),
            3 * found.len() + cur.len() <= i,
        decreases s.len() - i,
    {
        let c = s[i];
        let ghost before = pieces(s@.take(i as int));
        proof {
            assert(s@.take(i + 1).drop_last() =~= s@.take(i as int));
            assert(s@.take(i + 1).last() == c);
            lemma_pieces_nonempty(s@.take(i + 1));
        }
        if is_alphanumeric(c) {
            cur.push(c);
            proof {
                let after = pieces(s@.take(i + 1));
                assert(after.drop_last() =~= before.drop_last());
            }
        } else {
            let ghost old_found = found@;
            consider(&mut found, &cur, &words);
            proof {
                let after = pieces(s@.take(i + 1));
                assert(after.drop_last() =~= before);
                assert(before =~= before.drop_last().push(cur@));
                assert forall|t: Seq<char>|
                    #[trigger] listed(found@, t) <==> (after.drop_last().contains(t) && meaningful(t)) by {
                    if before.contains(t) && !before.drop_last().contains(t) {
                        let k = choose|k: int| 0 <= k < before.len() && before[k] == t;
                        if k < before.len() - 1 {
                            assert(before.drop_last()[k] == t);
                        }
                    }
                    if before.drop_last().contains(t) {
                        let k = choose|k: int| 0 <= k < before.drop_last().len() && before.drop_last()[k] == t;
                        assert(before[k] == t);
                    }
                    if t == cur@ {
                        assert(before[before.len() - 1] == t);
                    }
                }
            }
            cur = Vec::new();
        }
        i += 1;
    }
    let ghost last_pieces = pieces(s@.take(i as int));
    consider(&mut found, &cur, &words);
    proof {
        assert(s@.take(i as int) =~= s@);
        assert(last_pieces =~= last_pieces.drop_last().push(cur@));
        let v = strings(found@);
        assert forall|t: Seq<char>| #[trigger] v.contains(t) <==> is_term(s@, t) by {
            lemma_listed_strings(found@, t);
            if last_pieces.contains(t) && !last_pieces.drop_last().contains(t) {
                let k = choose|k: int| 0 <= k < last_pieces.len() && last_pieces[k] == t;
                if k < last_pieces.len() - 1 {
                    assert(last_pieces.drop_last()[k] == t);
                }
            }
            if last_pieces.drop_last().contains(t) {
                let k = choose|k: int| 0 <= k < last_pieces.drop_last().len() && last_pieces.drop_last()[k] == t;
                assert(last_pieces[k] == t);
            }
            if t == cur@ {
                assert(last_pieces[last_pieces.len() - 1] == t);
            }
        }
        assert(term_list(lowercase(question@), v));
        let w = terms_of(question@);
        assert(term_list(lowercase(question@), w));
        assert forall|t: Seq<char>| v.contains(t) <==> w.contains(t) by {
            assert(v.contains(t) <==> is_term(s@, t));
            assert(w.contains(t) <==> is_term(s@, t));
        }
        lemma_sorted_unique(v, w);
    }
    found
}

/// How strongly one term answers to a node: in its name, else its path,
/// else its prose — counted once, where it appears most strongly.
pub open spec fn weight(name: Seq<char>, path: Seq<char>, summary: Seq<char>, term: Seq<char>) -> int {
    if contains(lowercase(name), term) {
        3
    } else if contains(lowercase(path), term) {
        2
    } else if contains(lowercase(summary), term) {
        1
    } else {
        0
    }
}

/// How well a node's name, path and prose answer to a list of terms.
pub open spec fn score_of(name: Seq<char>, path: Seq<char>, summary: Seq<char>, terms: Seq<Seq<char>>) -> int
    decreases terms.len(),
{
    if terms.len() == 0 {
        0
    } else {
        score_of(name, path, summary, terms.drop_last()) + weight(name, path, summary, terms.last())
    }
}

pub fn score(entry: &NodeContext, terms: &Vec<String>) -> (r: u64)
    requires
        3 * terms.len() <= usize::MAX,
    ensures
        r == score_of(entry.name@, entry.path@, entry.summary@, strings(terms@)),
{
    let name = chars_of(lowercased(entry.name.as_str()).as_str());
    let path = chars_of(lowercased(entry.path.as_str()).as_str());
    let summary = chars_of(lowercased(entry.summary.as_str()).as_str());
    let mut total: u64 = 0;
    let mut i: usize = 0;
    while i < terms.len()
        invariant
            i <= terms.len(),
            3 * terms.len() <= usize::MAX,
            name@ == lowercase(entry.name@),
            path@ == lowercase(entry.path@),
            summary@ == lowercase(entry.summary@),
            total <= 3 * i,
            total == score_of(entry.name@, entry.path@, entry.summary@, strings(terms@).take(i as int)),
        decreases terms.len() - i,
    {
        let term = chars_of(terms[i].as_str());
        let w: u64 = if find_from(&name, &term, 0).is_some() {
            3
        } else if find_from(&path, &term, 0).is_some() {
            2
        } else if find_from(&summary, &term, 0).is_some() {
            1
        } else {
            0
        };
        proof {
            let all = strings(terms@);
            assert(all.take(i + 1).drop_last() =~= all.take(i as int));
            assert(all.take(i + 1).last() == term@);
            assert(w == weight(entry.name@, entry.path@, entry.summary@, term@));
        }
        total = total + w;
        i += 1;
    }
    proof {
        assert(strings(terms@).take(i as int) =~= strings(terms@));
    }
    total
}

/// `text` cut to at most `most` characters, an ellipsis marking a cut.
pub open spec fn clamped(text: Seq<char>, most: nat) -> Seq<char> {
    if text.len() > most {
        text.take(most as int).push('…')
    } else {
        text
    }
}

/// `text` cut to at most `most` characters — by character, so a
/// multi-byte character is never split.
pub fn clamp(text: &str, most: usize) -> (r: String)
    ensures
        r@ == clamped(text@, most as nat),
{
    let v = chars_of(text);
    if v.len() > most {
        let mut cut = slice(&v, 0, most);
        cut.push('…');
        proof {
            assert(cut@ =~= clamped(text@, most as nat));
        }
        string_of(&cut)
    } else {
        text.to_owned()
    }
}

/// Files before classes before functions.
pub open spec fn kind_order(kind: NodeKind) -> nat {
    match kind {
        NodeKind::File => 0,
        NodeKind::Class => 1,
        NodeKind::Function => 2,
    }
}

fn kind_rank(kind: NodeKind) -> (r: u8)
    ensures
        r == kind_order(kind),
{
    match kind {
        NodeKind::File => 0,
        NodeKind::Class => 1,
        NodeKind::Function => 2,
    }
}

/// `c` is node `n` as the prompt carries it: ID, kind, name, path, and the
/// summary clamped to [`MAX_SUMMARY_CHARS`].
pub open spec fn context_of(c: NodeContext, n: Node) -> bool {
    &&& c.id@ == n.id.text()
    &&& c.kind == n.kind
    &&& c.name@ == n.name@
    &&& c.path@ == n.path@
    &&& c.summary@ == clamped(n.summary@, MAX_SUMMARY_CHARS as nat)
}

/// One node of the graph as the prompt will carry it.
fn context_for(node: &Node) -> (r: NodeContext)
    ensures
        context_of(r, *node),
{
    NodeContext {
        id: node.id.as_str().to_owned(),
        kind: node.kind,
        name: node.name.clone(),
        path: node.path.clone(),
        summary: clamp(node.summary.as_str(), MAX_SUMMARY_CHARS),
    }
}

/// Every carried citation: the newest turn's first, each turn's in the
/// order it carries them.
pub open spec fn cited_ids(turns: Seq<Turn>) -> Seq<Seq<char>>
    decreases turns.len(),
{
    if turns.len() == 0 {
        Seq::<Seq<char>>::empty()
    } else {
        strings(turns.last().citations@) + cited_ids(turns.drop_last())
    }
}

/// The citations that select a node: in carried order, each once, none
/// that names no node, and no more than [`CONTEXT_NODES`].
pub open spec fn picked(nodes: Seq<Node>, ids: Seq<Seq<char>>) -> Seq<Seq<char>>
    decreases ids.len(),
{
    if ids.len() == 0 {
        Seq::<Seq<char>>::empty()
    } else {
        let before = picked(nodes, ids.drop_last());
        let id = ids.last();
        if before.len() < CONTEXT_NODES && last_named(nodes, id) is Some && !before.contains(id) {
            before.push(id)
        } else {
            before
        }
    }
}

/// How well a node answers to the terms, judged on what the prompt carries.
pub open spec fn node_score(n: Node, terms: Seq<Seq<char>>) -> int {
    score_of(n.name@, n.path@, clamped(n.summary@, MAX_SUMMARY_CHARS as nat), terms)
}

/// Node `i` ranks ahead of node `j`: the higher score, then files before
/// classes before functions, then the smaller ID, then map order.
pub open spec fn ranks_ahead(nodes: Seq<Node>, terms: Seq<Seq<char>>, i: int, j: int) -> bool {
    let a = nodes[i];
    let b = nodes[j];
    node_score(a, terms) > node_score(b, terms) || (node_score(a, terms) == node_score(b, terms) && (
    kind_order(a.kind) < kind_order(b.kind) || (kind_order(a.kind) == kind_order(b.kind) && (lex_lt(
        a.id.text(),
        b.id.text(),
    ) || (a.id.text() == b.id.text() && i < j)))))
}

proof fn lemma_ranks_strict(nodes: Seq<Node>, terms: Seq<Seq<char>>, i: int, j: int, k: int)
    ensures
        !ranks_ahead(nodes, terms, i, i),
        ranks_ahead(nodes, terms, i, j) && ranks_ahead(nodes, terms, j, k) ==> ranks_ahead(nodes, terms, i, k),
        i != j ==> ranks_ahead(nodes, terms, i, j) || ranks_ahead(nodes, terms, j, i),
{
    lemma_lex_irreflexive(nodes[i].id.text());
    lemma_lex_total(nodes[i].id.text(), nodes[j].id.text());
    if ranks_ahead(nodes, terms, i, j) && ranks_ahead(nodes, terms, j, k) {
        if lex_lt(nodes[i].id.text(), nodes[j].id.text()) && lex_lt(nodes[j].id.text(), nodes[k].id.text()) {
            lemma_lex_transitive(nodes[i].id.text(), nodes[j].id.text(), nodes[k].id.text());
        }
    }
}

/// A node the citations did not already bring.
pub open spec fn unpicked(nodes: Seq<Node>, taken: Seq<Seq<char>>, i: int) -> bool {
    0 <= i < nodes.len() && !taken.contains(nodes[i].id.text())
}

/// `order` (node indices) is the best `room` of the unpicked nodes, best
/// first — every unpicked node when fewer fit.
pub open spec fn is_ranking(
    nodes: Seq<Node>,
    terms: Seq<Seq<char>>,
    taken: Seq<Seq<char>>,
    room: int,
    order: Seq<int>,
) -> bool {
    &&& order.len() <= room
    &&& forall|k: int| 0 <= k < order.len() ==> unpicked(nodes, taken, #[trigger] order[k])
    &&& forall|k: int, l: int| 0 <= k < l < order.len() ==> ranks_ahead(nodes, terms, order[k], order[l])
    &&& order.len() < room ==> forall|c: int| #[trigger] unpicked(nodes, taken, c) ==> order.contains(c)
    &&& forall|c: int|
        #[trigger] unpicked(nodes, taken, c) && !order.contains(c) ==> forall|k: int|
            0 <= k < order.len() ==> ranks_ahead(nodes, terms, #[trigger] order[k], c)
}

/// `r` is the slice of `nodes` that accompanies `question` after `turns`:
/// the nodes the carried citations name, then the best-ranked others, at
/// most [`CONTEXT_NODES`] in all.
pub open spec fn selects(nodes: Seq<Node>, question: Seq<char>, turns: Seq<Turn>, r: Seq<NodeContext>) -> bool {
    let ids = picked(nodes, cited_ids(turns));
    &&& ids.len() <= r.len()
    &&& forall|k: int| 0 <= k < ids.len() ==> context_of(#[trigger] r[k], nodes[last_named(nodes, ids[k])->0])
    &&& exists|order: Seq<int>|
        is_ranking(nodes, terms_of(question), ids, CONTEXT_NODES - ids.len(), order) && r.len() == ids.len()
            + order.len() && forall|k: int|
            0 <= k < order.len() ==> context_of(#[trigger] r[ids.len() + k], nodes[order[k]])
}

/// Every carried citation that survives names a node of the map.
proof fn lemma_picked_named(nodes: Seq<Node>, ids: Seq<Seq<char>>)
    ensures
        picked(nodes, ids).len() <= CONTEXT_NODES,
        forall|k: int| 0 <= k < picked(nodes, ids).len() ==> last_named(nodes, #[trigger] picked(nodes, ids)[k]) is Some,
    decreases ids.len(),
{
    if ids.len() > 0 {
        lemma_picked_named(nodes, ids.drop_last());
    }
}

/// The bound law: however large the map and however long the history,
/// the slice that accompanies a question holds at most [`CONTEXT_NODES`]
/// entries, and every entry is a node of the map as the prompt carries it.
#[verifier::spinoff_prover]
pub proof fn law_the_slice_is_bounded_and_drawn_from_the_map(
    nodes: Seq<Node>,
    question: Seq<char>,
    turns: Seq<Turn>,
    r: Seq<NodeContext>,
)
    requires
        selects(nodes, question, turns, r),
    ensures
        r.len() <= CONTEXT_NODES,
        forall|k: int| 0 <= k < r.len() ==> exists|i: int| 0 <= i < nodes.len() && context_of(#[trigger] r[k], nodes[i]),
{
    let ids = picked(nodes, cited_ids(turns));
    lemma_picked_named(nodes, cited_ids(turns));
    let order = choose|order: Seq<int>|
        is_ranking(nodes, terms_of(question), ids, CONTEXT_NODES - ids.len(), order) && r.len() == ids.len()
            + order.len() && forall|k: int|
            0 <= k < order.len() ==> context_of(#[trigger] r[ids.len() + k], nodes[order[k]]);
    assert forall|k: int| 0 <= k < r.len() implies exists|i: int| 0 <= i < nodes.len() && context_of(#[trigger] r[k], nodes[i]) by {
        if k < ids.len() {
            crate::map::lemma_last_named(nodes, ids[k]);
            let i = last_named(nodes, ids[k])->0;
            assert(0 <= i < nodes.len() && context_of(r[k], nodes[i]));
        } else {
            let m = k - ids.len();
            assert(unpicked(nodes, ids, order[m]));
            let i = order[m];
            assert(r[ids.len() + m] == r[k]);
            assert(0 <= i < nodes.len() && context_of(r[k], nodes[i]));
        }
    }
}

/// One unpicked node with the facts it is ranked by.
struct Ranked {
    index: usize,
    score: u64,
    rank: u8,
    id: Vec<char>,
}

spec fn ranked_of(nodes: Seq<Node>, terms: Seq<Seq<char>>, r: Ranked) -> bool {
    &&& r.index < nodes.len()
    &&& r.score == node_score(nodes[r.index as int], terms)
    &&& r.rank == kind_order(nodes[r.index as int].kind)
    &&& r.id@ == nodes[r.index as int].id.text()
}

fn ahead(a: &Ranked, b: &Ranked) -> (r: bool)
    ensures
        r == (a.score > b.score || (a.score == b.score && (a.rank < b.rank || (a.rank == b.rank && (
        lex_lt(a.id@, b.id@) || (a.id@ == b.id@ && a.index < b.index)))))),
{
    a.score > b.score || (a.score == b.score && (a.rank < b.rank || (a.rank == b.rank && (lex_less(
        &a.id,
        &b.id,
    ) || (same(&a.id, &b.id) && a.index < b.index)))))
}

/// The best-ranked entry of `pool` not yet taken.
fn best_ranked(
    pool: &Vec<Ranked>,
    taken: &Vec<bool>,
    Ghost(nodes): Ghost<Seq<Node>>,
    Ghost(terms): Ghost<Seq<Seq<char>>>,
) -> (r: Option<usize>)
    requires
        taken.len() == pool.len(),
        forall|k: int| 0 <= k < pool.len() ==> ranked_of(nodes, terms, #[trigger] pool[k]),
    ensures
        match r {
            Some(b) => b < pool.len() && !taken[b as int] && forall|j: int|
                0 <= j < pool.len() && !taken[j] ==> !ranks_ahead(
                    nodes,
                    terms,
                    #[trigger] pool[j].index as int,
                    pool[b as int].index as int,
                ),
            None => forall|j: int| 0 <= j < pool.len() ==> taken[j],
        },
{
    let mut found: Option<usize> = None;
    let mut j: usize = 0;
    while j < pool.len()
        invariant
            j <= pool.len() == taken.len(),
            forall|k: int| 0 <= k < pool.len() ==> ranked_of(nodes, terms, #[trigger] pool[k]),
            match found {
                Some(b) => b < j && !taken[b as int] && forall|i: int|
                    0 <= i < j && !taken[i] ==> !ranks_ahead(
                        nodes,
                        terms,
                        #[trigger] pool[i].index as int,
                        pool[b as int].index as int,
                    ),
                None => forall|i: int| 0 <= i < j ==> taken[i],
            },
        decreases pool.len() - j,
    {
        if !taken[j] {
            match found {
                None => {
                    proof {
                        lemma_ranks_strict(nodes, terms, pool[j as int].index as int, 0, 0);
                    }
                    found = Some(j);
                },
                Some(b) => {
                    if ahead(&pool[j], &pool[b]) {
                        proof {
                            let pj = pool[j as int].index as int;
                            let pb = pool[b as int].index as int;
                            lemma_ranks_strict(nodes, terms, pj, pb, pb);
                            assert forall|i: int| 0 <= i < j + 1 && !taken[i] implies !ranks_ahead(
                                nodes,
                                terms,
                                #[trigger] pool[i].index as int,
                                pj,
                            ) by {
                                lemma_ranks_strict(nodes, terms, pool[i].index as int, pj, pb);
                            }
                        }
                        found = Some(j);
                    }
                },
            }
        }
        j += 1;
    }
    found
}

/// The slice of the map that accompanies a question: the carried citations
/// first (newest turn first, each once, only those naming a real node),
/// then the best-scoring other nodes — hard-capped at [`CONTEXT_NODES`].
pub fn select_context(graph: &KnowledgeGraph, question: &str, turns: &[Turn]) -> (r: Vec<NodeContext>)
    ensures
        selects(graph.nodes@, question@, turns@, r@),
{
    let ghost nodes = graph.nodes@;
    // Every carried citation, newest turn first.
    let mut flat: Vec<String> = Vec::new();
    let mut t: usize = turns.len();
    proof {
        assert(turns@.take(turns.len() as int) =~= turns@);
        assert(strings(flat@) + cited_ids(turns@) =~= cited_ids(turns@));
    }
    while t > 0
        invariant
            t <= turns.len(),
            strings(flat@) + cited_ids(turns@.take(t as int)) == cited_ids(turns@),
        decreases t,
    {
        let turn = &turns[t - 1];
        let ghost start = strings(flat@);
        let mut c: usize = 0;
        while c < turn.citations.len()
            invariant
                c <= turn.citations.len(),
                strings(flat@) == start + strings(turn.citations@).take(c as int),
            decreases turn.citations.len() - c,
        {
            let ghost before = flat@;
            flat.push(turn.citations[c].clone());
            proof {
                assert(strings(flat@) =~= strings(before).push(turn.citations@[c as int]@));
                assert(strings(turn.citations@).take(c + 1) =~= strings(turn.citations@).take(c as int).push(turn.citations@[c as int]@));
                assert(strings(flat@) =~= start + strings(turn.citations@).take(c + 1));
            }
            c += 1;
        }
        proof {
            let prefix = turns@.take(t as int);
            assert(prefix.drop_last() =~= turns@.take(t - 1));
            assert(prefix.last() == turns@[t - 1]);
            assert(strings(turn.citations@).take(c as int) =~= strings(turn.citations@));
            assert(strings(flat@) + cited_ids(turns@.take(t - 1)) =~= start + cited_ids(prefix));
        }
        t -= 1;
    }
    proof {
        assert(turns@.take(0) =~= Seq::<Turn>::empty());
        assert(strings(flat@) =~= cited_ids(turns@));
    }
    // The cited nodes, in carried order, each once.
    let mut taken: Vec<String> = Vec::new();
    let mut context: Vec<NodeContext> = Vec::new();
    let mut i: usize = 0;
    proof {
        assert(strings(flat@).take(0) =~= Seq::<Seq<char>>::empty());
        assert(strings(taken@) =~= Seq::<Seq<char>>::empty());
    }
    while i < flat.len()
        invariant
            i <= flat.len(),
            nodes == graph.nodes@,
            strings(flat@) == cited_ids(turns@),
            strings(taken@) == picked(nodes, strings(flat@).take(i as int)),
            context.len() == taken.len(),
            taken.len() <= CONTEXT_NODES,
            forall|k: int| 0 <= k < taken.len() ==> last_named(nodes, #[trigger] taken[k]@) is Some,
            forall|k: int|
                0 <= k < taken.len() ==> context_of(#[trigger] context[k], nodes[last_named(nodes, taken[k]@)->0]),
        decreases flat.len() - i,
    {
        let ghost all = strings(flat@);
        proof {
            assert(all.take(i + 1).drop_last() =~= all.take(i as int));
            assert(all.take(i + 1).last() == flat@[i as int]@);
        }
        if context.len() < CONTEXT_NODES {
            let id = chars_of(flat[i].as_str());
            match last_named_index(&graph.nodes, &id) {
                Some(n) => {
                    proof {
                        lemma_listed_strings(taken@, id@);
                        lemma_last_named(nodes, id@);
                    }
                    if !is_listed(&taken, &id) {
                        let ghost before = taken@;
                        taken.push(flat[i].clone());
                        context.push(context_for(&graph.nodes[n]));
                        proof {
                            assert(strings(taken@) =~= strings(before).push(id@));
                        }
                    }
                },
                None => {},
            }
        }
        i += 1;
    }
    proof {
        assert(strings(flat@).take(i as int) =~= strings(flat@));
    }
    let ghost ids = strings(taken@);
    // The rest, ranked.
    let words = terms(question);
    let ghost terms = terms_of(question@);
    let mut pool: Vec<Ranked> = Vec::new();
    let mut j: usize = 0;
    while j < graph.nodes.len()
        invariant
            j <= graph.nodes.len(),
            nodes == graph.nodes@,
            ids == strings(taken@),
            strings(words@) == terms,
            3 * words.len() <= usize::MAX,
            forall|k: int| 0 <= k < pool.len() ==> ranked_of(nodes, terms, #[trigger] pool[k]),
            forall|k: int| 0 <= k < pool.len() ==> unpicked(nodes, ids, (#[trigger] pool[k]).index as int),
            forall|k: int| 0 <= k < pool.len() ==> (#[trigger] pool[k]).index < j,
            forall|k: int, l: int| 0 <= k < l < pool.len() ==> pool[k].index < pool[l].index,
            forall|c: int| 0 <= c < j && #[trigger] unpicked(nodes, ids, c) ==> exists|k: int|
                0 <= k < pool.len() && pool[k].index == c,
        decreases graph.nodes.len() - j,
    {
        let node = &graph.nodes[j];
        let id = chars_of(node.id.as_str());
        proof {
            lemma_listed_strings(taken@, id@);
        }
        if !is_listed(&taken, &id) {
            let entry = context_for(node);
            let s = score(&entry, &words);
            let ghost before = pool@;
            pool.push(Ranked { index: j, score: s, rank: kind_rank(node.kind), id });
            proof {
                assert forall|c: int| 0 <= c < j + 1 && #[trigger] unpicked(nodes, ids, c) implies exists|k: int|
                    0 <= k < pool.len() && pool[k].index == c by {
                    if c < j {
                        let k = choose|k: int| 0 <= k < before.len() && before[k].index == c;
                        assert(pool[k] == before[k]);
                    } else {
                        assert(pool[before.len() as int].index == c);
                    }
                }
            }
        }
        j += 1;
    }
    let room = CONTEXT_NODES - context.len();
    let mut flags: Vec<bool> = Vec::new();
    let mut f: usize = 0;
    while f < pool.len()
        invariant
            f <= pool.len(),
            flags.len() == f,
            forall|k: int| 0 <= k < f ==> !flags[k],
        decreases pool.len() - f,
    {
        flags.push(false);
        f += 1;
    }
    let mut chosen: Vec<usize> = Vec::new();
    while chosen.len() < room
        invariant
            flags.len() == pool.len(),
            chosen.len() <= room,
            forall|k: int| 0 <= k < pool.len() ==> ranked_of(nodes, terms, #[trigger] pool[k]),
            forall|k: int, l: int| 0 <= k < l < pool.len() ==> pool[k].index < pool[l].index,
            forall|k: int| 0 <= k < chosen.len() ==> (#[trigger] chosen[k]) < pool.len() && flags[chosen[k] as int],
            forall|p: int| 0 <= p < pool.len() && flags[p] ==> chosen@.contains(p as usize),
            forall|k: int, l: int|
                0 <= k < l < chosen.len() ==> ranks_ahead(
                    nodes,
                    terms,
                    pool[chosen[k] as int].index as int,
                    pool[chosen[l] as int].index as int,
                ),
            forall|k: int, p: int|
                0 <= k < chosen.len() && 0 <= p < pool.len() && !flags[p] ==> ranks_ahead(
                    nodes,
                    terms,
                    pool[#[trigger] chosen[k] as int].index as int,
                    #[trigger] pool[p].index as int,
                ),
        ensures
            flags.len() == pool.len(),
            chosen.len() <= room,
            forall|k: int| 0 <= k < chosen.len() ==> (#[trigger] chosen[k]) < pool.len() && flags[chosen[k] as int],
            forall|p: int| 0 <= p < pool.len() && flags[p] ==> chosen@.contains(p as usize),
            forall|k: int, l: int|
                0 <= k < l < chosen.len() ==> ranks_ahead(
                    nodes,
                    terms,
                    pool[chosen[k] as int].index as int,
                    pool[chosen[l] as int].index as int,
                ),
            forall|k: int, p: int|
                0 <= k < chosen.len() && 0 <= p < pool.len() && !flags[p] ==> ranks_ahead(
                    nodes,
                    terms,
                    pool[#[trigger] chosen[k] as int].index as int,
                    #[trigger] pool[p].index as int,
                ),
            chosen.len() < room ==> forall|p: int| 0 <= p < pool.len() ==> flags[p],
        decreases room - chosen.len(),
    {
        match best_ranked(&pool, &flags, Ghost(nodes), Ghost(terms)) {
            Some(b) => {
                let ghost old_flags = flags@;
                let ghost old_chosen = chosen@;
                proof {
                    assert forall|p: int| 0 <= p < pool.len() && !old_flags[p] && p != b implies ranks_ahead(
                        nodes,
                        terms,
                        pool[b as int].index as int,
                        #[trigger] pool[p].index as int,
                    ) by {
                        if p < b {
                            assert(pool[p].index < pool[b as int].index);
                        } else {
                            assert(pool[b as int].index < pool[p].index);
                        }
                        lemma_ranks_strict(nodes, terms, pool[b as int].index as int, pool[p].index as int, 0);
                    }
                }
                flags.set(b, true);
                chosen.push(b);
                proof {
                    assert forall|p: int| 0 <= p < pool.len() && flags[p] implies chosen@.contains(p as usize) by {
                        if p != b {
                            assert(old_flags[p]);
                            let w = choose|w: int| 0 <= w < old_chosen.len() && old_chosen[w] == p as usize;
                            assert(chosen@[w] == p as usize);
                        } else {
                            assert(chosen@[old_chosen.len() as int] == b);
                        }
                    }
                    assert forall|k: int, l: int| 0 <= k < l < chosen.len() implies ranks_ahead(
                        nodes,
                        terms,
                        pool[chosen[k] as int].index as int,
                        pool[chosen[l] as int].index as int,
                    ) by {
                        if l == old_chosen.len() {
                            assert(chosen[k] == old_chosen[k]);
                            assert(!old_flags[b as int]);
                        } else {
                            assert(chosen[k] == old_chosen[k] && chosen[l] == old_chosen[l]);
                        }
                    }
                    assert forall|k: int, p: int|
                        0 <= k < chosen.len() && 0 <= p < pool.len() && !flags[p] implies ranks_ahead(
                        nodes,
                        terms,
                        pool[#[trigger] chosen[k] as int].index as int,
                        #[trigger] pool[p].index as int,
                    ) by {
                        if k < old_chosen.len() {
                            assert(chosen[k] == old_chosen[k]);
                        }
                    }
                }
            },
            None => {
                break;
            },
        }
    }
    let ghost cited = context@;
    let mut q: usize = 0;
    while q < chosen.len()
        invariant
            q <= chosen.len(),
            nodes == graph.nodes@,
            context.len() == cited.len() + q,
            forall|k: int| 0 <= k < cited.len() ==> context[k] == cited[k],
            forall|k: int| 0 <= k < chosen.len() ==> (#[trigger] chosen[k]) < pool.len(),
            forall|k: int| 0 <= k < pool.len() ==> ranked_of(nodes, terms, #[trigger] pool[k]),
            forall|k: int|
                0 <= k < q ==> context_of(
                    #[trigger] context[cited.len() + k],
                    nodes[pool[chosen[k] as int].index as int],
                ),
        decreases chosen.len() - q,
    {
        context.push(context_for(&graph.nodes[pool[chosen[q]].index]));
        q += 1;
    }
    proof {
        let order = Seq::new(chosen.len() as nat, |k: int| pool[chosen[k] as int].index as int);
        assert forall|k: int| 0 <= k < order.len() implies unpicked(nodes, ids, #[trigger] order[k]) by {
            assert(unpicked(nodes, ids, pool[chosen[k] as int].index as int));
        }
        assert forall|c: int| #[trigger] unpicked(nodes, ids, c) && !order.contains(c) implies forall|k: int|
            0 <= k < order.len() ==> ranks_ahead(nodes, terms, #[trigger] order[k], c) by {
            let p = choose|p: int| 0 <= p < pool.len() && pool[p].index == c;
            if flags[p] {
                let w = choose|w: int| 0 <= w < chosen.len() && chosen@[w] == p as usize;
                assert(order[w] == c);
            }
            assert forall|k: int| 0 <= k < order.len() implies ranks_ahead(nodes, terms, #[trigger] order[k], c) by {
                assert(ranks_ahead(nodes, terms, pool[chosen[k] as int].index as int, pool[p].index as int));
            }
        }
        if order.len() < room {
            assert forall|c: int| #[trigger] unpicked(nodes, ids, c) implies order.contains(c) by {
                let p = choose|p: int| 0 <= p < pool.len() && pool[p].index == c;
                assert(flags[p]);
                let w = choose|w: int| 0 <= w < chosen.len() && chosen@[w] == p as usize;
                assert(order[w] == c);
            }
        }
        assert(is_ranking(nodes, terms, ids, CONTEXT_NODES - ids.len(), order));
        assert forall|k: int| 0 <= k < order.len() implies context_of(
            #[trigger] context@[ids.len() + k],
            nodes[order[k]],
        ) by {}
        assert forall|k: int| 0 <= k < ids.len() implies context_of(
            #[trigger] context@[k],
            nodes[last_named(nodes, ids[k])->0],
        ) by {
            assert(context@[k] == cited[k]);
            assert(ids[k] == taken[k]@);
        }
    }
    context
}

/// `t` is the carried turn `orig` as the prompt admits it: the question
/// and the answer clamped, the citations as carried.
pub open spec fn turn_clamped(orig: Turn, t: Turn) -> bool {
    &&& t.question@ == clamped(orig.question@, MAX_QUESTION_CHARS as nat)
    &&& t.answer@ == clamped(orig.answer@, MAX_TURN_ANSWER_CHARS as nat)
    &&& strings(t.citations@) == strings(orig.citations@)
}

/// Where the admitted history starts: only the newest [`MAX_TURNS`] turns.
pub open spec fn first_kept_turn(len: nat) -> int {
    if len > MAX_TURNS {
        len - MAX_TURNS
    } else {
        0
    }
}

/// `r` is the carried history `orig` cut to what a request admits.
pub open spec fn turns_clamped(orig: Seq<Turn>, r: Seq<Turn>) -> bool {
    let start = first_kept_turn(orig.len());
    &&& r.len() == orig.len() - start
    &&& forall|k: int| 0 <= k < r.len() ==> turn_clamped(orig[start + k], #[trigger] r[k])
}

fn copy_strings(v: &Vec<String>) -> (r: Vec<String>)
    ensures
        strings(r@) == strings(v@),
{
    let mut r: Vec<String> = Vec::new();
    let mut i: usize = 0;
    while i < v.len()
        invariant
            i <= v.len(),
            strings(r@) == strings(v@).take(i as int),
        decreases v.len() - i,
    {
        let ghost before = r@;
        r.push(v[i].clone());
        proof {
            assert(strings(r@) =~= strings(before).push(v@[i as int]@));
            assert(strings(v@).take(i + 1) =~= strings(v@).take(i as int).push(v@[i as int]@));
        }
        i += 1;
    }
    assert(strings(v@).take(i as int) =~= strings(v@));
    r
}

/// The carried conversation cut to what a request admits: the newest
/// [`MAX_TURNS`] turns, each question clamped to [`MAX_QUESTION_CHARS`] and
/// each answer to [`MAX_TURN_ANSWER_CHARS`] — clamped, never refused.
fn clamped_turns(turns: &[Turn]) -> (r: Vec<Turn>)
    ensures
        turns_clamped(turns@, r@),
{
    let start: usize = if turns.len() > MAX_TURNS {
        turns.len() - MAX_TURNS
    } else {
        0
    };
    let mut r: Vec<Turn> = Vec::new();
    let mut i: usize = start;
    while i < turns.len()
        invariant
            start <= i <= turns.len(),
            start == first_kept_turn(turns@.len()),
            r.len() == i - start,
            forall|k: int| 0 <= k < r.len() ==> turn_clamped(turns@[start + k], #[trigger] r[k]),
        decreases turns.len() - i,
    {
        let turn = &turns[i];
        r.push(
            Turn {
                question: clamp(turn.question.as_str(), MAX_QUESTION_CHARS),
                answer: clamp(turn.answer.as_str(), MAX_TURN_ANSWER_CHARS),
                citations: copy_strings(&turn.citations),
            },
        );
        i += 1;
    }
    r
}

/// Why an empty question is refused.
pub open spec fn empty_question_text() -> Seq<char> {
    "the question is empty"@
}

/// Why an over-long question is refused.
pub open spec fn long_question_text(length: nat) -> Seq<char> {
    "the question is "@ + decimal(length) + " characters; the limit is "@ + decimal(
        MAX_QUESTION_CHARS as nat,
    )
}

/// `q` is the bounded question `text` asks of `graph` after `turns`.
pub open spec fn built(graph: KnowledgeGraph, text: Seq<char>, turns: Seq<Turn>, q: Question) -> bool {
    &&& q.project@ == graph.project.name@
    &&& q.text@ == trimmed(text)
    &&& turns_clamped(turns, q.turns@)
    &&& selects(graph.nodes@, q.text@, q.turns@, q.context@)
}

/// Builds a bounded question, or says why the text is not one: the text is
/// trimmed, and a blank or over-long question is refused; the carried turns
/// are clamped, never refused, before the slice is selected.
pub fn build(graph: &KnowledgeGraph, text: &str, turns: &[Turn]) -> (r: Result<Question, String>)
    ensures
        match r {
            Ok(q) => 0 < trimmed(text@).len() <= MAX_QUESTION_CHARS && built(*graph, text@, turns@, q),
            Err(e) => (trimmed(text@).len() == 0 && e@ == empty_question_text()) || (trimmed(text@).len()
                > MAX_QUESTION_CHARS && e@ == long_question_text(trimmed(text@).len())),
        },
{
    let text = trim(text);
    let length = chars_of(text.as_str()).len();
    if length == 0 {
        return Err(String::from_str("the question is empty"));
    }
    if length > MAX_QUESTION_CHARS {
        let mut message = chars_of("the question is ");
        append(&mut message, &decimal_chars(length as u64));
        append_str(&mut message, " characters; the limit is ");
        append(&mut message, &decimal_chars(MAX_QUESTION_CHARS as u64));
        proof {
            assert(message@ =~= long_question_text(length as nat));
        }
        return Err(string_of(&message));
    }
    let turns = clamped_turns(turns);
    let context = select_context(graph, text.as_str(), turns.as_slice());
    Ok(Question { project: graph.project.name.clone(), text, context, turns })
}

/// The IDs of the nodes a question showed the provider.
pub open spec fn shown_ids(question: Question) -> Seq<Seq<char>> {
    question.context@.map_values(|c: NodeContext| c.id@)
}

/// The citations that check out: shown to the provider, each once, in the
/// order they were given.
pub open spec fn kept_citations(shown: Seq<Seq<char>>, ids: Seq<Seq<char>>) -> Seq<Seq<char>>
    decreases ids.len(),
{
    if ids.len() == 0 {
        Seq::<Seq<char>>::empty()
    } else {
        let before = kept_citations(shown, ids.drop_last());
        let id = ids.last();
        if shown.contains(id) && !before.contains(id) {
            before.push(id)
        } else {
            before
        }
    }
}

/// The citation law: what survives verification was shown to the
/// provider, and appears once.
pub proof fn law_kept_citations_were_shown_and_appear_once(shown: Seq<Seq<char>>, ids: Seq<Seq<char>>)
    ensures
        forall|k: int| 0 <= k < kept_citations(shown, ids).len() ==> shown.contains(#[trigger] kept_citations(shown, ids)[k]),
        forall|a: int, b: int|
            0 <= a < b < kept_citations(shown, ids).len() ==> kept_citations(shown, ids)[a] != kept_citations(shown, ids)[b],
    decreases ids.len(),
{
    if ids.len() > 0 {
        law_kept_citations_were_shown_and_appear_once(shown, ids.drop_last());
        let before = kept_citations(shown, ids.drop_last());
        let id = ids.last();
        if shown.contains(id) && !before.contains(id) {
            let now = before.push(id);
            assert forall|a: int, b: int| 0 <= a < b < now.len() implies now[a] != now[b] by {
                if b == now.len() - 1 {
                    assert(now[a] == before[a]);
                    assert(before.contains(before[a]));
                }
            }
        }
    }
}

/// Drops citations the provider was never shown, and collapses repeats;
/// the prose and the usage pass through untouched.
pub fn verified(answer: Answer, question: &Question) -> (r: Answer)
    ensures
        r.text@ == answer.text@,
        r.usage == answer.usage,
        strings(r.citations@) == kept_citations(shown_ids(*question), strings(answer.citations@)),
{
    let ghost shown = shown_ids(*question);
    let mut shown_list: Vec<String> = Vec::new();
    let mut c: usize = 0;
    while c < question.context.len()
        invariant
            c <= question.context.len(),
            shown == shown_ids(*question),
            strings(shown_list@) == shown.take(c as int),
        decreases question.context.len() - c,
    {
        let ghost before = shown_list@;
        shown_list.push(question.context[c].id.clone());
        proof {
            assert(strings(shown_list@) =~= strings(before).push(question.context@[c as int].id@));
            assert(shown.take(c + 1) =~= shown.take(c as int).push(shown[c as int]));
        }
        c += 1;
    }
    proof {
        assert(shown.take(c as int) =~= shown);
    }
    let mut kept: Vec<String> = Vec::new();
    let mut i: usize = 0;
    while i < answer.citations.len()
        invariant
            i <= answer.citations.len(),
            strings(shown_list@) == shown,
            strings(kept@) == kept_citations(shown, strings(answer.citations@).take(i as int)),
        decreases answer.citations.len() - i,
    {
        let id = chars_of(answer.citations[i].as_str());
        let ghost all = strings(answer.citations@);
        proof {
            assert(all.take(i + 1).drop_last() =~= all.take(i as int));
            assert(all.take(i + 1).last() == id@);
            lemma_listed_strings(shown_list@, id@);
            lemma_listed_strings(kept@, id@);
        }
        if is_listed(&shown_list, &id) && !is_listed(&kept, &id) {
            let ghost before = kept@;
            kept.push(answer.citations[i].clone());
            proof {
                assert(strings(kept@) =~= strings(before).push(id@));
            }
        }
        i += 1;
    }
    proof {
        assert(strings(answer.citations@).take(i as int) =~= strings(answer.citations@));
    }
    Answer { text: answer.text, citations: kept, usage: answer.usage }
}

/// What `answer` gives for what the provider gave back: its error as it
/// came, or its answer with the prose and the usage kept and the
/// citations checked against the nodes it was shown.
pub open spec fn answer_from(given: Result<Answer, String>, question: Question, r: Result<Answer, String>) -> bool {
    match given {
        Err(e) => r matches Err(m) && m@ == e@,
        Ok(a) => r matches Ok(v) && v.text@ == a.text@ && v.usage == a.usage
            && strings(v.citations@) == kept_citations(shown_ids(question), strings(a.citations@)),
    }
}


/// The carried citations that survive are distinct.
proof fn lemma_picked_distinct(nodes: Seq<Node>, ids: Seq<Seq<char>>)
    ensures
        picked(nodes, ids).no_duplicates(),
    decreases ids.len(),
{
    if ids.len() > 0 {
        lemma_picked_distinct(nodes, ids.drop_last());
        let before = picked(nodes, ids.drop_last());
        let now = picked(nodes, ids);
        if now.len() > before.len() {
            assert forall|a: int, b: int| 0 <= a < now.len() && 0 <= b < now.len() && a != b implies now[a] != now[b] by {
                if a == now.len() - 1 {
                    assert(before.contains(before[b]));
                } else if b == now.len() - 1 {
                    assert(before.contains(before[a]));
                } else {
                    assert(now[a] == before[a] && now[b] == before[b]);
                }
            }
        }
    }
}

/// The fullness law: where node IDs are unique, as in any map, the slice
/// holds as many nodes as the bound allows — [`CONTEXT_NODES`], or every
/// node of a smaller map — whatever the question and the history.
pub proof fn law_the_slice_is_full(nodes: Seq<Node>, question: Seq<char>, turns: Seq<Turn>, r: Seq<NodeContext>)
    requires
        selects(nodes, question, turns, r),
        forall|a: int, b: int| 0 <= a < b < nodes.len() ==> nodes[a].id.text() != nodes[b].id.text(),
    ensures
        r.len() == if nodes.len() < CONTEXT_NODES { nodes.len() } else { CONTEXT_NODES as nat },
{
    let ids = picked(nodes, cited_ids(turns));
    lemma_picked_named(nodes, cited_ids(turns));
    lemma_picked_distinct(nodes, cited_ids(turns));
    let room = CONTEXT_NODES - ids.len();
    let terms = terms_of(question);
    let order = choose|order: Seq<int>|
        is_ranking(nodes, terms, ids, room, order) && r.len() == ids.len() + order.len() && forall|k: int|
            0 <= k < order.len() ==> context_of(#[trigger] r[ids.len() + k], nodes[order[k]]);
    let n = nodes.len() as int;
    let idx = ids.map_values(|p: Seq<char>| last_named(nodes, p)->0);
    assert forall|k: int| 0 <= k < ids.len() implies 0 <= #[trigger] idx[k] < n && nodes[idx[k]].id.text() == ids[k] by {
        crate::map::lemma_last_named(nodes, ids[k]);
    }
    assert forall|i: int, j: int| 0 <= i < idx.len() && 0 <= j < idx.len() && i != j implies idx[i] != idx[j] by {
        if idx[i] == idx[j] {
            assert(nodes[idx[i]].id.text() == ids[i]);
            assert(nodes[idx[j]].id.text() == ids[j]);
        }
    }
    assert(idx.no_duplicates());
    idx.unique_seq_to_set();
    let t = idx.to_set();
    let all = vstd::set_lib::set_int_range(0, n);
    vstd::set_lib::lemma_int_range(0, n);
    let u = all.difference(t);
    assert forall|c: int| unpicked(nodes, ids, c) <==> u.contains(c) by {
        if 0 <= c < n {
            if ids.contains(nodes[c].id.text()) {
                let k = choose|k: int| 0 <= k < ids.len() && ids[k] == nodes[c].id.text();
                assert(nodes[idx[k]].id.text() == nodes[c].id.text());
                if idx[k] != c {
                    if idx[k] < c {
                        assert(nodes[idx[k]].id.text() != nodes[c].id.text());
                    } else {
                        assert(nodes[c].id.text() != nodes[idx[k]].id.text());
                    }
                }
                assert(t.contains(idx[k]));
            }
            if t.contains(c) {
                let k = choose|k: int| 0 <= k < idx.len() && idx[k] == c;
                assert(ids.contains(ids[k]));
            }
        }
    }
    assert(t.subset_of(all));
    vstd::set_lib::lemma_len_subset(t, all);
    assert(u.disjoint(t));
    assert(u + t =~= all);
    vstd::set_lib::lemma_set_disjoint_lens(u, t);
    assert(u.len() == n - ids.len());
    assert forall|i: int, j: int| 0 <= i < order.len() && 0 <= j < order.len() && i != j implies order[i] != order[j] by {
        lemma_ranks_strict(nodes, terms, order[i], order[i], order[i]);
        if i < j {
            assert(ranks_ahead(nodes, terms, order[i], order[j]));
        } else {
            assert(ranks_ahead(nodes, terms, order[j], order[i]));
        }
    }
    assert(order.no_duplicates());
    order.unique_seq_to_set();
    let o = order.to_set();
    assert forall|c: int| o.contains(c) implies u.contains(c) by {
        let k = choose|k: int| 0 <= k < order.len() && order[k] == c;
        assert(unpicked(nodes, ids, order[k]));
    }
    assert(o.subset_of(u));
    vstd::set_lib::lemma_len_subset(o, u);
    if order.len() < room {
        assert forall|c: int| u.contains(c) implies o.contains(c) by {
            assert(unpicked(nodes, ids, c));
            assert(order.contains(c));
        }
        assert(u.subset_of(o));
        vstd::set_lib::lemma_len_subset(u, o);
    }
}

/// Finishes a question from the provider's reply: an error passes through
/// unchanged, an answer is checked by [`verified`].
pub fn answer_with(given: Result<Answer, String>, question: &Question) -> (r: Result<Answer, String>)
    ensures
        answer_from(given, *question, r),
{
    match given {
        Ok(a) => Ok(verified(a, question)),
        Err(e) => Err(e),
    }
}

/// Asks a built question and keeps the citations that check out. Whatever
/// the provider answers, an error comes back as it came, and every
/// citation that comes back names a node it was shown, and names it once.
pub fn answer(provider: &dyn EnrichmentProvider, question: &Question) -> (r: Result<Answer, String>)
    ensures
        exists|given: Result<Answer, String>| answer_from(given, *question, r),
{
    let given = provider.ask(question);
    let r = answer_with(given, question);
    proof {
        assert(answer_from(given, *question, r));
    }
    r
}

/// One node as it accompanies a question.
pub struct NodeContext {
    pub id: String,
    pub kind: NodeKind,
    pub name: String,
    pub path: String,
    pub summary: String,
}

/// One previous turn as the client carries it.
pub struct Turn {
    pub question: String,
    pub answer: String,
    pub citations: Vec<String>,
}

/// A question plus the slice of the map selected to answer it.
pub struct Question {
    pub project: String,
    pub text: String,
    pub context: Vec<NodeContext>,
    pub turns: Vec<Turn>,
}

/// Token counts a provider reported for one exchange.
#[derive(Clone, Copy, PartialEq, Eq, Debug, Structural)]
pub struct Usage {
    pub input_tokens: u64,
    pub output_tokens: u64,
}

impl Usage {
    /// Both token counts an envelope reported, or nothing: anything short of
    /// two measured counts is absent, never a fabricated zero.
    pub fn from_envelope(input_tokens: Option<u64>, output_tokens: Option<u64>) -> (r: Option<Usage>)
        ensures
            r matches Some(u) ==> input_tokens == Some(u.input_tokens) && output_tokens == Some(
                u.output_tokens,
            ),
            r is None <==> (input_tokens is None || output_tokens is None),
    {
        match (input_tokens, output_tokens) {
            (Some(input_tokens), Some(output_tokens)) => Some(Usage { input_tokens, output_tokens }),
            _ => None,
        }
    }
}

/// An answer and the nodes it was drawn from.
pub struct Answer {
    pub text: String,
    pub citations: Vec<String>,
    pub usage: Option<Usage>,
}

} // verus!

//! The map contract types: the single source of truth for the CodeAtlas map
//! format. Identity goes through [`NodeId`], whose constructors are the only
//! place an ID is minted.

use vstd::prelude::*;

use crate::text::{chars_of, same, string_of};

verus! {

/// Semver version of the map contract carried by every emitted map.
pub const MAP_CONTRACT_VERSION: &'static str = "0.4.0";

/// The whole map: project, nodes, edges, and the mechanical semantics.
pub struct KnowledgeGraph {
    /// Semver version of the map contract this map conforms to.
    pub version: String,
    pub project: Project,
    pub nodes: Vec<Node>,
    pub edges: Vec<Edge>,
    /// Directory-derived layers every file node is assigned to.
    pub layers: Vec<Layer>,
    /// Mechanically projected domain flows.
    pub domain_flows: Vec<DomainFlow>,
    /// The guided tour: a bounded, ordered walk over file nodes.
    pub tour: Vec<TourStep>,
}

/// One stop on the guided tour; the label is the enrichable slot.
pub struct TourStep {
    pub node: NodeId,
    pub label: String,
    pub provenance: Provenance,
}

/// A call chain rooted at an entry point; the name is the enrichable slot.
pub struct DomainFlow {
    /// `flow:` followed by the root function's node ID.
    pub id: String,
    pub name: String,
    /// Top-level directory of the root function's file, or `root`.
    pub domain: String,
    /// Function node IDs along the chain, root first.
    pub steps: Vec<NodeId>,
    pub provenance: Provenance,
}

/// A horizontal grouping of files; the name and the description are the
/// enrichable slots.
pub struct Layer {
    /// The top-level directory that derived the layer, or `root`.
    pub id: String,
    pub name: String,
    pub description: Option<LayerDescription>,
    pub provenance: Provenance,
}

/// A layer's prose description, with its own provenance.
pub struct LayerDescription {
    pub text: String,
    pub provenance: Provenance,
}

pub struct Project {
    pub name: String,
}

/// Typed node ID: `<kind-prefix>:<path>` for files,
/// `<kind-prefix>:<path>:<symbol>` for symbols.
pub struct NodeId(pub String);

/// The text of the ID a kind, a path and (for symbols) a name mint.
pub open spec fn file_id(path: Seq<char>) -> Seq<char> {
    "file"@ + ":"@ + path
}

pub open spec fn symbol_id(kind: NodeKind, path: Seq<char>, name: Seq<char>) -> Seq<char> {
    prefix_of(kind) + ":"@ + path + ":"@ + name
}

impl NodeId {
    pub open spec fn text(&self) -> Seq<char> {
        self.0@
    }

    pub fn file(path: &str) -> (id: NodeId)
        ensures
            id.text() == file_id(path@),
    {
        let mut v = chars_of(NodeKind::File.id_prefix());
        v.push(':');
        crate::text::append_str(&mut v, path);
        proof {
            reveal_strlit("file");
            reveal_strlit(":");
            assert(v@ =~= file_id(path@));
        }
        NodeId(string_of(&v))
    }

    pub fn symbol(kind: NodeKind, path: &str, name: &str) -> (id: NodeId)
        ensures
            id.text() == symbol_id(kind, path@, name@),
    {
        let mut v = chars_of(kind.id_prefix());
        v.push(':');
        crate::text::append_str(&mut v, path);
        v.push(':');
        crate::text::append_str(&mut v, name);
        proof {
            reveal_strlit(":");
            assert(v@ =~= symbol_id(kind, path@, name@));
        }
        NodeId(string_of(&v))
    }

    pub fn as_str(&self) -> (s: &str)
        ensures
            s@ == self.text(),
    {
        self.0.as_str()
    }

    /// An owned copy of this ID.
    pub fn duplicate(&self) -> (id: NodeId)
        ensures
            id == *self,
    {
        NodeId(self.0.clone())
    }
}

/// A node of the map.
pub struct Node {
    pub id: NodeId,
    pub kind: NodeKind,
    pub name: String,
    /// Repo-relative path with forward slashes.
    pub path: String,
    /// Mechanical or enriched description; provenance says which.
    pub summary: String,
    pub range: Option<Range>,
    /// ID of the layer this file node belongs to; absent on symbol nodes.
    pub layer: Option<String>,
    /// Import fan-in + import fan-out + 1 if the file hosts an entry point;
    /// absent on symbol nodes.
    pub significance: Option<u32>,
    pub provenance: Provenance,
}

#[derive(Clone, Copy, PartialEq, Eq, Debug, Structural)]
pub enum NodeKind {
    File,
    Function,
    Class,
}

/// The ID prefix of a kind — the single kind → prefix table.
pub open spec fn prefix_of(kind: NodeKind) -> Seq<char> {
    match kind {
        NodeKind::File => "file"@,
        NodeKind::Function => "function"@,
        NodeKind::Class => "class"@,
    }
}

impl NodeKind {
    pub fn id_prefix(self) -> (s: &'static str)
        ensures
            s@ == prefix_of(self),
    {
        match self {
            NodeKind::File => "file",
            NodeKind::Function => "function",
            NodeKind::Class => "class",
        }
    }
}

/// 1-based inclusive line range within the node's file.
#[derive(Clone, Copy, PartialEq, Eq, Debug, Structural)]
pub struct Range {
    pub start_line: u32,
    pub end_line: u32,
}

/// Whether a slot's prose was produced mechanically or by a model.
#[derive(Clone, Copy, PartialEq, Eq, Debug, Structural)]
pub enum Provenance {
    Mechanical,
    Llm,
}

/// An edge between two nodes. Its weight is a fixed function of its kind,
/// attached where the map is serialized.
pub struct Edge {
    pub source: NodeId,
    pub target: NodeId,
    pub kind: EdgeKind,
}

#[derive(Clone, Copy, PartialEq, Eq, Debug, Structural)]
pub enum EdgeKind {
    Contains,
    Imports,
    Exports,
    Calls,
}

impl Edge {
    /// The only way edges are built.
    pub fn new(source: NodeId, target: NodeId, kind: EdgeKind) -> (e: Edge)
        ensures
            e.source == source,
            e.target == target,
            e.kind == kind,
    {
        Edge { source, target, kind }
    }
}

/// The index of the last node whose ID is `id`, if any.
pub open spec fn last_named(nodes: Seq<Node>, id: Seq<char>) -> Option<int>
    decreases nodes.len(),
{
    if nodes.len() == 0 {
        None
    } else if nodes.last().id.text() == id {
        Some(nodes.len() - 1)
    } else {
        last_named(nodes.drop_last(), id)
    }
}

pub proof fn lemma_last_named(nodes: Seq<Node>, id: Seq<char>)
    ensures
        match last_named(nodes, id) {
            Some(k) => 0 <= k < nodes.len() && nodes[k].id.text() == id,
            None => forall|k: int| 0 <= k < nodes.len() ==> nodes[k].id.text() != id,
        },
    decreases nodes.len(),
{
    if nodes.len() > 0 {
        lemma_last_named(nodes.drop_last(), id);
        if last_named(nodes, id) is None {
            assert forall|k: int| 0 <= k < nodes.len() implies nodes[k].id.text() != id by {
                if k < nodes.len() - 1 {
                    assert(nodes.drop_last()[k] == nodes[k]);
                }
            }
        }
    }
}

/// The index of the last node named `id`.
pub fn last_named_index(nodes: &Vec<Node>, id: &Vec<char>) -> (r: Option<usize>)
    ensures
        r matches Some(k) ==> last_named(nodes@, id@) == Some(k as int),
        r is None ==> last_named(nodes@, id@) is None,
{
    let mut k: usize = nodes.len();
    assert(nodes@.take(k as int) =~= nodes@);
    while k > 0
        invariant
            k <= nodes.len(),
            last_named(nodes@, id@) == last_named(nodes@.take(k as int), id@),
        decreases k,
    {
        let here = chars_of(nodes[k - 1].id.as_str());
        assert(nodes@.take(k as int).drop_last() =~= nodes@.take(k - 1));
        if same(&here, id) {
            return Some(k - 1);
        }
        k -= 1;
    }
    None
}

} // verus!

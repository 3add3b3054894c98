//! The web UI's data: which nodes the graph view shows, how they are grouped,
//! and the records the view draws.
//!
//! Serving HTTP and opening the store are the application's.

use vstd::prelude::*;
use crate::models::{Node, NodeView, NodeLabel, label_name, label_of_str, Edge, EdgeView, edge_type_name, json_text};

verus! {

/// The web UI server's settings.
pub struct UIServer {
    db_path: String,
}

impl UIServer {
    /// A server on the given database.
    pub fn new(db_path: &str) -> (r: Self)
        ensures
            r.db_path_view() == db_path@,
    {
        UIServer { db_path: db_path.to_owned() }
    }

    /// The database path, as a specification.
    pub closed spec fn db_path_view(&self) -> Seq<char> {
        self.db_path@
    }

    /// The database path.
    pub fn db_path(&self) -> (r: &str)
        ensures
            r@ == self.db_path_view(),
    {
        self.db_path.as_str()
    }
}

/// The labels the graph view shows, in the order it loads them.
pub open spec fn view_labels() -> Seq<NodeLabel> {
    seq![
        NodeLabel::Character,
        NodeLabel::Location,
        NodeLabel::File,
        NodeLabel::Scene,
        NodeLabel::Item,
        NodeLabel::Note,
    ]
}

/// The labels the graph view shows, in the order it loads them.
pub fn graph_view_labels() -> (r: Vec<NodeLabel>)
    ensures
        r@ == view_labels(),
{
    let mut v: Vec<NodeLabel> = Vec::new();
    v.push(NodeLabel::Character);
    v.push(NodeLabel::Location);
    v.push(NodeLabel::File);
    v.push(NodeLabel::Scene);
    v.push(NodeLabel::Item);
    v.push(NodeLabel::Note);
    assert(v@ =~= view_labels());
    v
}

/// The colour group of a label in the graph view.
pub open spec fn group_of(l: NodeLabel) -> Seq<char> {
    match l {
        NodeLabel::Character => "character"@,
        NodeLabel::Location => "location"@,
        NodeLabel::File => "file"@,
        NodeLabel::Scene => "scene"@,
        NodeLabel::Item => "item"@,
        _ => "note"@,
    }
}

/// Each label the graph view shows is grouped under a name that reads back
/// as that label; every other label is grouped with the notes.
#[verifier::spinoff_prover]
pub proof fn lemma_groups(l: NodeLabel)
    ensures
        view_labels().contains(l) ==> label_of_str(group_of(l)) == Some(l),
        !view_labels().contains(l) ==> group_of(l) == group_of(NodeLabel::Note),
{
    reveal_strlit("character");
    reveal_strlit("Character");
    reveal_strlit("location");
    reveal_strlit("Location");
    reveal_strlit("scene");
    reveal_strlit("Scene");
    reveal_strlit("chapter");
    reveal_strlit("Chapter");
    reveal_strlit("plotline");
    reveal_strlit("Plotline");
    reveal_strlit("timeline");
    reveal_strlit("Timeline");
    reveal_strlit("item");
    reveal_strlit("Item");
    reveal_strlit("note");
    reveal_strlit("Note");
    reveal_strlit("project");
    reveal_strlit("Project");
    reveal_strlit("file");
    reveal_strlit("File");
    assert("character"@.len() == 9);
    assert("Character"@.len() == 9);
    assert("location"@.len() == 8);
    assert("Location"@.len() == 8);
    assert("scene"@.len() == 5);
    assert("Scene"@.len() == 5);
    assert("chapter"@.len() == 7);
    assert("Chapter"@.len() == 7);
    assert("plotline"@.len() == 8);
    assert("Plotline"@.len() == 8);
    assert("timeline"@.len() == 8);
    assert("Timeline"@.len() == 8);
    assert("item"@.len() == 4);
    assert("Item"@.len() == 4);
    assert("note"@.len() == 4);
    assert("Note"@.len() == 4);
    assert("project"@.len() == 7);
    assert("Project"@.len() == 7);
    assert("file"@.len() == 4);
    assert("File"@.len() == 4);
    assert("item"@[0] == 'i');
    assert("Item"@[0] == 'I');
    assert("note"@[0] == 'n');
    assert("Note"@[0] == 'N');
    assert("file"@[0] == 'f');
    assert("File"@[0] == 'F');
    assert("location"@[0] != "plotline"@[0] && "location"@[0] != "timeline"@[0]);
    assert("location"@[0] != "Plotline"@[0] && "location"@[0] != "Timeline"@[0]);
    let v = view_labels();
    assert(v[0] == NodeLabel::Character);
    assert(v[1] == NodeLabel::Location);
    assert(v[2] == NodeLabel::File);
    assert(v[3] == NodeLabel::Scene);
    assert(v[4] == NodeLabel::Item);
    assert(v[5] == NodeLabel::Note);
    if !v.contains(l) {
        assert(l != NodeLabel::Character);
        assert(l != NodeLabel::Location);
        assert(l != NodeLabel::File);
        assert(l != NodeLabel::Scene);
        assert(l != NodeLabel::Item);
        assert(l != NodeLabel::Note);
    }
}

/// The colour group of a label in the graph view.
pub fn node_group(l: NodeLabel) -> (r: &'static str)
    ensures
        r@ == group_of(l),
{
    match l {
        NodeLabel::Character => "character",
        NodeLabel::Location => "location",
        NodeLabel::File => "file",
        NodeLabel::Scene => "scene",
        NodeLabel::Item => "item",
        _ => "note",
    }
}

/// A node as the graph view draws it.
pub struct GraphNode {
    pub id: i64,
    pub name: String,
    /// The label's name.
    pub label: String,
    /// The colour group.
    pub group: String,
    /// The properties as JSON text.
    pub props: String,
}

/// A link as the graph view draws it.
pub struct GraphLink {
    pub source: i64,
    pub target: i64,
    /// The edge type's name.
    pub edge_type: String,
}

/// Whether a drawn node shows a node.
pub open spec fn draws_node(g: GraphNode, n: NodeView) -> bool {
    &&& g.id == n.id
    &&& g.name@ == n.name
    &&& g.label@ == label_name(n.label)
    &&& g.group@ == group_of(n.label)
    &&& g.props@ == json_text(n.properties)
}

/// Whether a drawn link shows an edge.
pub open spec fn draws_link(g: GraphLink, e: EdgeView) -> bool {
    &&& g.source == e.source_id
    &&& g.target == e.target_id
    &&& g.edge_type@ == edge_type_name(e.edge_type)
}

/// The drawn nodes of some nodes, one each, in order.
pub fn graph_nodes(nodes: &Vec<Node>) -> (r: Vec<GraphNode>)
    ensures
        r.len() == nodes.len(),
        forall|i: int| 0 <= i < r.len() ==> draws_node(#[trigger] r@[i], nodes@[i]@),
{
    let mut out: Vec<GraphNode> = Vec::new();
    let mut i: usize = 0;
    while i < nodes.len()
        invariant
            i <= nodes.len(),
            out.len() == i,
            forall|j: int| 0 <= j < i ==> draws_node(#[trigger] out@[j], nodes@[j]@),
        decreases nodes.len() - i,
    {
        let n = &nodes[i];
        out.push(
            GraphNode {
                id: n.id,
                name: n.name.clone(),
                label: n.label.as_str().to_owned(),
                group: node_group(n.label).to_owned(),
                props: n.properties.to_json(),
            },
        );
        i = i + 1;
    }
    out
}

/// The drawn links of some edges, one each, in order.
pub fn graph_links(edges: &Vec<Edge>) -> (r: Vec<GraphLink>)
    ensures
        r.len() == edges.len(),
        forall|i: int| 0 <= i < r.len() ==> draws_link(#[trigger] r@[i], edges@[i]@),
{
    let mut out: Vec<GraphLink> = Vec::new();
    let mut i: usize = 0;
    while i < edges.len()
        invariant
            i <= edges.len(),
            out.len() == i,
            forall|j: int| 0 <= j < i ==> draws_link(#[trigger] out@[j], edges@[j]@),
        decreases edges.len() - i,
    {
        let e = &edges[i];
        out.push(
            GraphLink {
                source: e.source_id,
                target: e.target_id,
                edge_type: e.edge_type.as_str().to_owned(),
            },
        );
        i = i + 1;
    }
    out
}

} // verus!

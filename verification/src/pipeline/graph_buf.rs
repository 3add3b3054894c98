//! GraphBuffer: the in-memory graph that the passes fill before it is
//! written to the store.
//!
//! Nodes are unique by qualified name, edges by (source, target, type); every
//! node and edge gets a fresh id from one counter.

use vstd::prelude::*;
use crate::models::{Node, NodeView, NodeLabel, Edge, EdgeView, EdgeType};
use crate::text::seq_views;

verus! {

broadcast use vstd::seq_lib::group_seq_properties;

/// The view of a graph buffer.
pub struct GraphModel {
    pub project: Seq<char>,
    pub nodes: Seq<NodeView>,
    pub edges: Seq<EdgeView>,
    pub next_id: int,
}

/// Whether an edge has the given (source, target, type) key.
pub open spec fn has_key(e: EdgeView, source: i64, target: i64, t: EdgeType) -> bool {
    e.source_id == source && e.target_id == target && e.edge_type == t
}

/// Whether two edges have the same key.
pub open spec fn same_key(a: EdgeView, b: EdgeView) -> bool {
    has_key(a, b.source_id, b.target_id, b.edge_type)
}

/// Node ids are positive, below `next` and distinct; qualified names are distinct.
pub open spec fn nodes_ok(ns: Seq<NodeView>, next: int) -> bool {
    &&& forall|i: int| 0 <= i < ns.len() ==> 1 <= #[trigger] ns[i].id < next
    &&& forall|i: int, j: int|
        0 <= i < j < ns.len() ==> #[trigger] ns[i].id != #[trigger] ns[j].id
            && ns[i].qualified_name != ns[j].qualified_name
}

/// Edge ids are positive, below `next` and distinct; edge keys are distinct.
pub open spec fn edges_ok(es: Seq<EdgeView>, next: int) -> bool {
    &&& forall|i: int| 0 <= i < es.len() ==> 1 <= #[trigger] es[i].id < next
    &&& forall|i: int, j: int|
        0 <= i < j < es.len() ==> #[trigger] es[i].id != #[trigger] es[j].id && !same_key(
            es[i],
            es[j],
        )
}

/// The graph invariant: ids are positive, below the next id and distinct;
/// qualified names of nodes and keys of edges are distinct.
pub open spec fn model_wf(g: GraphModel) -> bool {
    &&& 1 <= g.next_id <= i64::MAX
    &&& nodes_ok(g.nodes, g.next_id)
    &&& edges_ok(g.edges, g.next_id)
}

/// Filtering keeps the node invariant.
#[verifier::spinoff_prover]
proof fn lemma_filter_nodes_ok(s: Seq<NodeView>, p: spec_fn(NodeView) -> bool, next: int)
    requires
        nodes_ok(s, next),
    ensures
        nodes_ok(s.filter(p), next),
    decreases s.len(),
{
    reveal(Seq::filter);
    if s.len() > 0 {
        let d = s.drop_last();
        assert(nodes_ok(d, next)) by {
            assert forall|i: int, j: int| 0 <= i < j < d.len() implies #[trigger] d[i].id
                != #[trigger] d[j].id && d[i].qualified_name != d[j].qualified_name by {
                assert(s[i].id != s[j].id);
            }
            assert forall|i: int| 0 <= i < d.len() implies 1 <= #[trigger] d[i].id < next by {
                assert(1 <= s[i].id < next);
            }
        }
        lemma_filter_nodes_ok(d, p, next);
        let f = d.filter(p);
        if p(s.last()) {
            let r = f.push(s.last());
            assert(r == s.filter(p));
            assert forall|i: int, j: int| 0 <= i < j < r.len() implies #[trigger] r[i].id
                != #[trigger] r[j].id && r[i].qualified_name != r[j].qualified_name by {
                if j == r.len() - 1 {
                    assert(f.contains(f[i]));
                    d.lemma_filter_contains_rev(p, f[i]);
                    let k = choose|k: int| 0 <= k < d.len() && d[k] == f[i];
                    assert(s[k].id != s[s.len() - 1].id);
                } else {
                    assert(f[i].id != f[j].id);
                }
            }
            assert forall|i: int| 0 <= i < r.len() implies 1 <= #[trigger] r[i].id < next by {
                if i == r.len() - 1 {
                    assert(1 <= s[s.len() - 1].id < next);
                } else {
                    assert(1 <= f[i].id < next);
                }
            }
            assert(nodes_ok(r, next));
        } else {
            assert(s.filter(p) == f);
        }
    } else {
        assert(s.filter(p) =~= s);
    }
}

/// Filtering keeps the edge invariant.
#[verifier::spinoff_prover]
proof fn lemma_filter_edges_ok(s: Seq<EdgeView>, p: spec_fn(EdgeView) -> bool, next: int)
    requires
        edges_ok(s, next),
    ensures
        edges_ok(s.filter(p), next),
    decreases s.len(),
{
    reveal(Seq::filter);
    if s.len() > 0 {
        let d = s.drop_last();
        assert(edges_ok(d, next)) by {
            assert forall|i: int, j: int| 0 <= i < j < d.len() implies #[trigger] d[i].id
                != #[trigger] d[j].id && !same_key(d[i], d[j]) by {
                assert(s[i].id != s[j].id);
            }
            assert forall|i: int| 0 <= i < d.len() implies 1 <= #[trigger] d[i].id < next by {
                assert(1 <= s[i].id < next);
            }
        }
        lemma_filter_edges_ok(d, p, next);
        let f = d.filter(p);
        if p(s.last()) {
            let r = f.push(s.last());
            assert(r == s.filter(p));
            assert forall|i: int, j: int| 0 <= i < j < r.len() implies #[trigger] r[i].id
                != #[trigger] r[j].id && !same_key(r[i], r[j]) by {
                if j == r.len() - 1 {
                    assert(f.contains(f[i]));
                    d.lemma_filter_contains_rev(p, f[i]);
                    let k = choose|k: int| 0 <= k < d.len() && d[k] == f[i];
                    assert(s[k].id != s[s.len() - 1].id);
                } else {
                    assert(f[i].id != f[j].id);
                }
            }
            assert forall|i: int| 0 <= i < r.len() implies 1 <= #[trigger] r[i].id < next by {
                if i == r.len() - 1 {
                    assert(1 <= s[s.len() - 1].id < next);
                } else {
                    assert(1 <= f[i].id < next);
                }
            }
        }
    }
}

/// Whether `i` is the first node with qualified name `qn`.
pub open spec fn qn_at(nodes: Seq<NodeView>, qn: Seq<char>, i: int) -> bool {
    &&& 0 <= i < nodes.len()
    &&& nodes[i].qualified_name == qn
    &&& forall|j: int| 0 <= j < i ==> (#[trigger] nodes[j]).qualified_name != qn
}

/// The position of the node with qualified name `qn`.
pub open spec fn qn_index(nodes: Seq<NodeView>, qn: Seq<char>) -> Option<int> {
    if exists|i: int| qn_at(nodes, qn, i) {
        Some(choose|i: int| qn_at(nodes, qn, i))
    } else {
        None
    }
}

/// Whether `i` is the first edge with the given key.
pub open spec fn key_at(edges: Seq<EdgeView>, s: i64, t: i64, ty: EdgeType, i: int) -> bool {
    &&& 0 <= i < edges.len()
    &&& has_key(edges[i], s, t, ty)
    &&& forall|j: int| 0 <= j < i ==> !has_key(#[trigger] edges[j], s, t, ty)
}

/// The position of the edge with the given key.
pub open spec fn key_index(edges: Seq<EdgeView>, s: i64, t: i64, ty: EdgeType) -> Option<int> {
    if exists|i: int| key_at(edges, s, t, ty, i) {
        Some(choose|i: int| key_at(edges, s, t, ty, i))
    } else {
        None
    }
}

/// Upserting a node: a node with the same qualified name is replaced and keeps
/// its id; otherwise the node is added under the next id.  Gives the new graph and the id.
pub open spec fn spec_upsert_node(g: GraphModel, n: NodeView) -> (GraphModel, i64) {
    match qn_index(g.nodes, n.qualified_name) {
        Some(i) => {
            let id = g.nodes[i].id;
            (GraphModel { nodes: g.nodes.update(i, NodeView { id, ..n }), ..g }, id)
        },
        None => {
            let id = g.next_id as i64;
            (
                GraphModel {
                    nodes: g.nodes.push(NodeView { id, ..n }),
                    next_id: g.next_id + 1,
                    ..g
                },
                id,
            )
        },
    }
}

/// Inserting an edge: if an edge with the same (source, target, type) exists,
/// nothing changes and its id is given; otherwise the edge is added under the next id.
pub open spec fn spec_insert_edge(g: GraphModel, e: EdgeView) -> (GraphModel, i64) {
    match key_index(g.edges, e.source_id, e.target_id, e.edge_type) {
        Some(i) => (g, g.edges[i].id),
        None => {
            let id = g.next_id as i64;
            (
                GraphModel {
                    edges: g.edges.push(EdgeView { id, ..e }),
                    next_id: g.next_id + 1,
                    ..g
                },
                id,
            )
        },
    }
}

/// Whether an edge touches a node.
pub open spec fn touches(e: EdgeView, id: i64) -> bool {
    e.source_id == id || e.target_id == id
}

/// Whether a graph has a node with the given id.
pub open spec fn has_node_id(g: GraphModel, id: i64) -> bool {
    exists|i: int| 0 <= i < g.nodes.len() && #[trigger] g.nodes[i].id == id
}

/// Whether a graph has an edge with the given id.
pub open spec fn has_edge_id(g: GraphModel, id: i64) -> bool {
    exists|i: int| 0 <= i < g.edges.len() && #[trigger] g.edges[i].id == id
}

/// Deleting a node: the node and every edge that touches it go.
pub open spec fn spec_delete_node(g: GraphModel, id: i64) -> GraphModel {
    GraphModel {
        nodes: g.nodes.filter(|n: NodeView| n.id != id),
        edges: g.edges.filter(|e: EdgeView| !touches(e, id)),
        ..g
    }
}

/// Deleting an edge.
pub open spec fn spec_delete_edge(g: GraphModel, id: i64) -> GraphModel {
    GraphModel { edges: g.edges.filter(|e: EdgeView| e.id != id), ..g }
}

/// Upserting nodes one after another.
pub open spec fn upsert_all(g: GraphModel, ns: Seq<NodeView>) -> GraphModel
    decreases ns.len(),
{
    if ns.len() == 0 {
        g
    } else {
        spec_upsert_node(upsert_all(g, ns.drop_last()), ns.last()).0
    }
}

/// Inserting edges one after another.
pub open spec fn insert_all(g: GraphModel, es: Seq<EdgeView>) -> GraphModel
    decreases es.len(),
{
    if es.len() == 0 {
        g
    } else {
        spec_insert_edge(insert_all(g, es.drop_last()), es.last()).0
    }
}

/// The id that an endpoint of a merged edge takes: when a node of the source
/// has the id, the id of the node with the same qualified name in `nodes`
/// (the destination after the upserts); otherwise the id as it is.
pub open spec fn merged_id(nodes: Seq<NodeView>, src_nodes: Seq<NodeView>, x: i64) -> i64 {
    if exists|k: int| 0 <= k < src_nodes.len() && #[trigger] src_nodes[k].id == x {
        let k = choose|k: int| 0 <= k < src_nodes.len() && #[trigger] src_nodes[k].id == x;
        match qn_index(nodes, src_nodes[k].qualified_name) {
            Some(i) => nodes[i].id,
            None => x,
        }
    } else {
        x
    }
}

/// A source edge with its endpoints moved to the destination's ids.
pub open spec fn remap_edge(nodes: Seq<NodeView>, src_nodes: Seq<NodeView>, e: EdgeView) -> EdgeView {
    EdgeView {
        source_id: merged_id(nodes, src_nodes, e.source_id),
        target_id: merged_id(nodes, src_nodes, e.target_id),
        ..e
    }
}

/// The source edges with their endpoints moved to the destination's ids.
pub open spec fn remap_edges(nodes: Seq<NodeView>, src_nodes: Seq<NodeView>, es: Seq<EdgeView>) -> Seq<EdgeView> {
    es.map_values(|e: EdgeView| remap_edge(nodes, src_nodes, e))
}

/// Merging a graph: its nodes are upserted by qualified name, then its edges
/// inserted, each endpoint moved to the id that the node with the same
/// qualified name has in the merged graph.
pub open spec fn spec_merge(g: GraphModel, src: GraphModel) -> GraphModel {
    let u = upsert_all(g, src.nodes);
    insert_all(u, remap_edges(u.nodes, src.nodes, src.edges))
}

/// The store id that replaces a node id: that of the node with this id,
/// when there is one.
pub open spec fn mapped_id(ns: Seq<NodeView>, store_ids: Seq<i64>, id: i64) -> i64 {
    if exists|k: int| 0 <= k < ns.len() && #[trigger] ns[k].id == id {
        store_ids[choose|k: int| 0 <= k < ns.len() && #[trigger] ns[k].id == id]
    } else {
        id
    }
}

/// A graph after it was written to the store: each node takes the id the
/// store gave it, and each edge endpoint follows its node.
pub open spec fn with_store_ids(g: GraphModel, store_ids: Seq<i64>) -> GraphModel {
    GraphModel {
        nodes: Seq::new(g.nodes.len(), |k: int| NodeView { id: store_ids[k], ..g.nodes[k] }),
        edges: Seq::new(
            g.edges.len(),
            |k: int|
                EdgeView {
                    source_id: mapped_id(g.nodes, store_ids, g.edges[k].source_id),
                    target_id: mapped_id(g.nodes, store_ids, g.edges[k].target_id),
                    ..g.edges[k]
                },
        ),
        ..g
    }
}

/// The in-memory graph buffer.
pub struct GraphBuffer {
    project: String,
    nodes: Vec<Node>,
    edges: Vec<Edge>,
    next_id: i64,
}

impl View for GraphBuffer {
    type V = GraphModel;

    closed spec fn view(&self) -> GraphModel {
        GraphModel {
            project: self.project@,
            nodes: seq_views(self.nodes@),
            edges: seq_views(self.edges@),
            next_id: self.next_id as int,
        }
    }
}

proof fn lemma_qn_first_unique(nodes: Seq<NodeView>, qn: Seq<char>, i: int, k: int)
    requires
        qn_at(nodes, qn, i),
        qn_at(nodes, qn, k),
    ensures
        i == k,
{
    if i < k {
        assert(nodes[i].qualified_name == qn);
    } else if k < i {
        assert(nodes[k].qualified_name == qn);
    }
}

proof fn lemma_key_first_unique(edges: Seq<EdgeView>, s: i64, t: i64, ty: EdgeType, i: int, k: int)
    requires
        key_at(edges, s, t, ty, i),
        key_at(edges, s, t, ty, k),
    ensures
        i == k,
{
    if i < k {
        assert(has_key(edges[i], s, t, ty));
    } else if k < i {
        assert(has_key(edges[k], s, t, ty));
    }
}

/// A node with a qualified name means a first such node.
proof fn lemma_some_first_qn(nodes: Seq<NodeView>, qn: Seq<char>, a: int)
    requires
        0 <= a < nodes.len(),
        nodes[a].qualified_name == qn,
    ensures
        exists|i: int| qn_at(nodes, qn, i),
    decreases a,
{
    if exists|j: int| 0 <= j < a && (#[trigger] nodes[j]).qualified_name == qn {
        let j = choose|j: int| 0 <= j < a && (#[trigger] nodes[j]).qualified_name == qn;
        lemma_some_first_qn(nodes, qn, j);
    } else {
        assert(qn_at(nodes, qn, a));
    }
}

/// An edge with a key means a first such edge.
proof fn lemma_some_first_key(edges: Seq<EdgeView>, s: i64, t: i64, ty: EdgeType, a: int)
    requires
        0 <= a < edges.len(),
        has_key(edges[a], s, t, ty),
    ensures
        exists|i: int| key_at(edges, s, t, ty, i),
    decreases a,
{
    if exists|j: int| 0 <= j < a && has_key(#[trigger] edges[j], s, t, ty) {
        let j = choose|j: int| 0 <= j < a && has_key(#[trigger] edges[j], s, t, ty);
        lemma_some_first_key(edges, s, t, ty, j);
    } else {
        assert(key_at(edges, s, t, ty, a));
    }
}

impl GraphBuffer {
    /// Whether the graph invariant holds.
    pub open spec fn wf(&self) -> bool {
        model_wf(self@)
    }

    /// Whether `n` more ids can be handed out.
    pub open spec fn has_room(&self, n: int) -> bool {
        self@.next_id + n <= i64::MAX
    }

    /// Whether `n` more ids can be handed out.
    pub fn has_room_for(&self, n: u128) -> (r: bool)
        ensures
            r == self.has_room(n as int),
    {
        let left: i128 = (i64::MAX as i128) - (self.next_id as i128);
        left >= 0 && (left as u128) >= n
    }

    /// An empty graph buffer for a project.
    pub fn new(project: &str) -> (r: Self)
        ensures
            r@ == (GraphModel {
                project: project@,
                nodes: Seq::empty(),
                edges: Seq::empty(),
                next_id: 1,
            }),
            r.wf(),
    {
        let r = GraphBuffer {
            project: project.to_owned(),
            nodes: Vec::new(),
            edges: Vec::new(),
            next_id: 1,
        };
        assert(seq_views(r.nodes@) =~= Seq::<NodeView>::empty());
        assert(seq_views(r.edges@) =~= Seq::<EdgeView>::empty());
        r
    }

    /// The position of the node with qualified name `qn`.
    fn position_of_qn(&self, qn: &String) -> (r: Option<usize>)
        ensures
            match r {
                Some(i) => qn_index(self@.nodes, qn@) == Some(i as int),
                None => qn_index(self@.nodes, qn@) is None,
            },
    {
        let ghost ns = self@.nodes;
        let mut i: usize = 0;
        while i < self.nodes.len()
            invariant
                i <= self.nodes.len(),
                ns == seq_views(self.nodes@),
                forall|j: int| 0 <= j < i ==> (#[trigger] ns[j]).qualified_name != qn@,
            decreases self.nodes.len() - i,
        {
            if self.nodes[i].qualified_name == *qn {
                assert(qn_at(ns, qn@, i as int));
                proof {
                    let k = choose|k: int| qn_at(ns, qn@, k);
                    lemma_qn_first_unique(ns, qn@, i as int, k);
                }
                return Some(i);
            }
            i = i + 1;
        }
        assert forall|k: int| !#[trigger] qn_at(ns, qn@, k) by {
            if qn_at(ns, qn@, k) {
                assert(ns[k].qualified_name == qn@);
            }
        }
        None
    }

    /// The position of the edge with the given key.
    fn position_of_key(&self, s: i64, t: i64, ty: EdgeType) -> (r: Option<usize>)
        ensures
            match r {
                Some(i) => key_index(self@.edges, s, t, ty) == Some(i as int),
                None => key_index(self@.edges, s, t, ty) is None,
            },
    {
        let ghost es = self@.edges;
        let mut i: usize = 0;
        while i < self.edges.len()
            invariant
                i <= self.edges.len(),
                es == seq_views(self.edges@),
                forall|j: int| 0 <= j < i ==> !has_key(#[trigger] es[j], s, t, ty),
            decreases self.edges.len() - i,
        {
            let e = &self.edges[i];
            if e.source_id == s && e.target_id == t && e.edge_type == ty {
                assert(key_at(es, s, t, ty, i as int));
                proof {
                    let k = choose|k: int| key_at(es, s, t, ty, k);
                    lemma_key_first_unique(es, s, t, ty, i as int, k);
                }
                return Some(i);
            }
            i = i + 1;
        }
        assert forall|k: int| !#[trigger] key_at(es, s, t, ty, k) by {
            if key_at(es, s, t, ty, k) {
                assert(has_key(es[k], s, t, ty));
            }
        }
        None
    }

    /// Inserts a node or replaces the node with the same qualified name
    /// (which keeps its id); gives the node's id.
    #[verifier::spinoff_prover]
    pub fn upsert_node(&mut self, node: Node) -> (id: i64)
        requires
            old(self).wf(),
            old(self).has_room(1),
        ensures
            (final(self)@, id) == spec_upsert_node(old(self)@, node@),
            final(self).wf(),
    {
        let ghost g = self@;
        let mut node = node;
        match self.position_of_qn(&node.qualified_name) {
            Some(i) => {
                let id = self.nodes[i].id;
                node.id = id;
                let ghost nv = node@;
                self.nodes.set(i, node);
                assert(seq_views(self.nodes@) =~= g.nodes.update(i as int, nv));
                proof {
                    let ns = seq_views(self.nodes@);
                    assert forall|a: int, b: int| 0 <= a < b < ns.len() implies #[trigger] ns[a].id
                        != #[trigger] ns[b].id && ns[a].qualified_name
                        != ns[b].qualified_name by {
                        assert(g.nodes[a].id != g.nodes[b].id);
                    }
                    assert forall|a: int| 0 <= a < ns.len() implies 1 <= #[trigger] ns[a].id
                        < g.next_id by {
                        assert(1 <= g.nodes[a].id < g.next_id);
                    }
                    assert(nodes_ok(ns, g.next_id));
                    assert(self@.edges == g.edges);
                }
                id
            },
            None => {
                let id = self.next_id;
                node.id = id;
                let ghost nv = node@;
                self.nodes.push(node);
                self.next_id = self.next_id + 1;
                assert(seq_views(self.nodes@) =~= g.nodes.push(nv));
                proof {
                    let ns = seq_views(self.nodes@);
                    assert forall|a: int, b: int| 0 <= a < b < ns.len() implies #[trigger] ns[a].id
                        != #[trigger] ns[b].id && ns[a].qualified_name
                        != ns[b].qualified_name by {
                        if b == ns.len() - 1 {
                            assert(1 <= g.nodes[a].id < g.next_id);
                            if ns[a].qualified_name == ns[b].qualified_name {
                                lemma_some_first_qn(g.nodes, nv.qualified_name, a);
                            }
                        } else {
                            assert(g.nodes[a].id != g.nodes[b].id);
                        }
                    }
                    assert forall|a: int| 0 <= a < ns.len() implies 1 <= #[trigger] ns[a].id
                        < self.next_id by {
                        if a < g.nodes.len() {
                            assert(1 <= g.nodes[a].id < g.next_id);
                        }
                    }
                    assert forall|a: int| 0 <= a < g.edges.len() implies 1 <= #[trigger] g.edges[a].id
                        < self.next_id by {
                        assert(1 <= g.edges[a].id < g.next_id);
                    }
                    assert(nodes_ok(ns, self.next_id as int));
                    assert(self@.edges == g.edges);
                    assert(edges_ok(g.edges, self.next_id as int));
                }
                id
            },
        }
    }

    /// The node with qualified name `qn`.
    pub fn find_by_qn(&self, qn: &str) -> (r: Option<&Node>)
        ensures
            match qn_index(self@.nodes, qn@) {
                Some(i) => r matches Some(n) && n@ == self@.nodes[i],
                None => r is None,
            },
    {
        let q = qn.to_owned();
        match self.position_of_qn(&q) {
            Some(i) => Some(&self.nodes[i]),
            None => None,
        }
    }

    /// The nodes with the given label, in insertion order.
    pub fn find_by_label(&self, label: NodeLabel) -> (r: Vec<&Node>)
        ensures
            seq_views(r@) == self@.nodes.filter(|n: NodeView| n.label == label),
    {
        let ghost ns = self@.nodes;
        let ghost p = |n: NodeView| n.label == label;
        let mut out: Vec<&Node> = Vec::new();
        let mut i: usize = 0;
        while i < self.nodes.len()
            invariant
                i <= self.nodes.len(),
                ns == seq_views(self.nodes@),
                p == (|n: NodeView| n.label == label),
                seq_views(out@) == ns.take(i as int).filter(p),
            decreases self.nodes.len() - i,
        {
            proof {
                reveal(Seq::filter);
                assert(ns.take(i + 1).drop_last() =~= ns.take(i as int));
            }
            let ghost before = seq_views(out@);
            if self.nodes[i].label == label {
                out.push(&self.nodes[i]);
                assert(seq_views(out@) =~= before.push(ns[i as int]));
            }
            i = i + 1;
        }
        assert(ns.take(ns.len() as int) =~= ns);
        out
    }

    /// Inserts an edge unless one with the same (source, target, type)
    /// exists; gives the id of the edge.
    #[verifier::spinoff_prover]
    pub fn insert_edge(&mut self, edge: Edge) -> (id: i64)
        requires
            old(self).wf(),
            old(self).has_room(1),
        ensures
            (final(self)@, id) == spec_insert_edge(old(self)@, edge@),
            final(self).wf(),
    {
        let ghost g = self@;
        match self.position_of_key(edge.source_id, edge.target_id, edge.edge_type) {
            Some(i) => self.edges[i].id,
            None => {
                let mut edge = edge;
                let id = self.next_id;
                edge.id = id;
                let ghost ev = edge@;
                self.edges.push(edge);
                self.next_id = self.next_id + 1;
                assert(seq_views(self.edges@) =~= g.edges.push(ev));
                proof {
                    let es = seq_views(self.edges@);
                    assert forall|a: int, b: int| 0 <= a < b < es.len() implies #[trigger] es[a].id
                        != #[trigger] es[b].id && !same_key(es[a], es[b]) by {
                        if b == es.len() - 1 {
                            assert(1 <= g.edges[a].id < g.next_id);
                            if same_key(es[a], es[b]) {
                                lemma_some_first_key(
                                    g.edges,
                                    ev.source_id,
                                    ev.target_id,
                                    ev.edge_type,
                                    a,
                                );
                            }
                        } else {
                            assert(g.edges[a].id != g.edges[b].id);
                        }
                    }
                    assert forall|a: int| 0 <= a < es.len() implies 1 <= #[trigger] es[a].id
                        < self.next_id by {
                        if a < g.edges.len() {
                            assert(1 <= g.edges[a].id < g.next_id);
                        }
                    }
                    assert forall|a: int| 0 <= a < g.nodes.len() implies 1 <= #[trigger] g.nodes[a].id
                        < self.next_id by {
                        assert(1 <= g.nodes[a].id < g.next_id);
                    }
                    assert(edges_ok(es, self.next_id as int));
                    assert(self@.nodes == g.nodes);
                    assert(nodes_ok(g.nodes, self.next_id as int));
                }
                id
            },
        }
    }

    /// The number of nodes.
    pub fn node_count(&self) -> (r: usize)
        ensures
            r == self@.nodes.len(),
    {
        self.nodes.len()
    }

    /// The number of edges.
    pub fn edge_count(&self) -> (r: usize)
        ensures
            r == self@.edges.len(),
    {
        self.edges.len()
    }

    /// The nodes, in insertion order.
    pub fn node_list(&self) -> (r: &Vec<Node>)
        ensures
            seq_views(r@) == self@.nodes,
    {
        &self.nodes
    }

    /// The edges, in insertion order.
    pub fn edge_list(&self) -> (r: &Vec<Edge>)
        ensures
            seq_views(r@) == self@.edges,
    {
        &self.edges
    }

    /// Removes the edges that touch a node.
    fn remove_edges_touching(&mut self, id: i64)
        requires
            old(self).wf(),
        ensures
            final(self)@ == (GraphModel {
                edges: old(self)@.edges.filter(|e: EdgeView| !touches(e, id)),
                ..old(self)@
            }),
            final(self).wf(),
    {
        let ghost g = self@;
        let ghost p = |e: EdgeView| !touches(e, id);
        let mut i: usize = 0;
        let ghost mut j: int = 0;
        assert(g.edges.take(0).filter(p) =~= Seq::<EdgeView>::empty()) by {
            reveal(Seq::filter);
        }
        assert(g.edges.skip(0) =~= g.edges);
        while i < self.edges.len()
            invariant
                0 <= j <= g.edges.len(),
                p == (|e: EdgeView| !touches(e, id)),
                i == g.edges.take(j).filter(p).len(),
                seq_views(self.edges@) == g.edges.take(j).filter(p) + g.edges.skip(j),
                self.project == old(self).project,
                self.nodes == old(self).nodes,
                self.next_id == old(self).next_id,
            decreases g.edges.len() - j,
        {
            proof {
                reveal(Seq::filter);
                assert(g.edges.take(j + 1).drop_last() =~= g.edges.take(j));
                assert(seq_views(self.edges@)[i as int] == g.edges[j]);
            }
            let ghost before = seq_views(self.edges@);
            let e = &self.edges[i];
            if e.source_id == id || e.target_id == id {
                self.edges.remove(i);
                proof {
                    assert(!p(g.edges[j]));
                    assert(g.edges.take(j + 1).filter(p) == g.edges.take(j).filter(p));
                    assert(seq_views(self.edges@) =~= before.remove(i as int));
                    assert(before.remove(i as int) =~= g.edges.take(j).filter(p) + g.edges.skip(
                        j + 1,
                    ));
                }
            } else {
                i = i + 1;
                proof {
                    assert(p(g.edges[j]));
                    assert(g.edges.take(j + 1).filter(p) == g.edges.take(j).filter(p).push(
                        g.edges[j],
                    ));
                    assert(seq_views(self.edges@) =~= g.edges.take(j + 1).filter(p)
                        + g.edges.skip(j + 1));
                }
            }
            proof {
                j = j + 1;
            }
        }
        proof {
            assert(g.edges.take(j).filter(p).len() + g.edges.skip(j).len() == i);
            assert(g.edges.skip(j).len() == 0);
            assert(g.edges.take(j) =~= g.edges);
            assert(seq_views(self.edges@) =~= g.edges.filter(p));
            lemma_filter_edges_ok(g.edges, p, g.next_id);
        }
    }

    /// The position of the node with the given id.
    fn position_of_node_id(&self, id: i64) -> (r: Option<usize>)
        ensures
            match r {
                Some(i) => i < self@.nodes.len() && self@.nodes[i as int].id == id,
                None => forall|k: int| 0 <= k < self@.nodes.len() ==> (#[trigger] self@.nodes[k]).id != id,
            },
    {
        let mut i: usize = 0;
        while i < self.nodes.len()
            invariant
                i <= self.nodes.len(),
                forall|k: int| 0 <= k < i ==> (#[trigger] self@.nodes[k]).id != id,
            decreases self.nodes.len() - i,
        {
            if self.nodes[i].id == id {
                return Some(i);
            }
            i = i + 1;
        }
        None
    }

    /// The position of the edge with the given id.
    fn position_of_edge_id(&self, id: i64) -> (r: Option<usize>)
        ensures
            match r {
                Some(i) => i < self@.edges.len() && self@.edges[i as int].id == id,
                None => forall|k: int| 0 <= k < self@.edges.len() ==> (#[trigger] self@.edges[k]).id != id,
            },
    {
        let mut i: usize = 0;
        while i < self.edges.len()
            invariant
                i <= self.edges.len(),
                forall|k: int| 0 <= k < i ==> (#[trigger] self@.edges[k]).id != id,
            decreases self.edges.len() - i,
        {
            if self.edges[i].id == id {
                return Some(i);
            }
            i = i + 1;
        }
        None
    }

    /// Deletes a node and every edge that touches it; tells whether the node existed.
    pub fn delete_node(&mut self, id: i64) -> (r: bool)
        requires
            old(self).wf(),
        ensures
            final(self)@ == spec_delete_node(old(self)@, id),
            r == has_node_id(old(self)@, id),
            final(self).wf(),
    {
        let ghost g = self@;
        self.remove_edges_touching(id);
        match self.position_of_node_id(id) {
            Some(i) => {
                self.nodes.remove(i);
                proof {
                    assert(seq_views(self.nodes@) =~= g.nodes.remove(i as int));
                    assert forall|k: int| 0 <= k < g.nodes.len() && k != i implies (
                    #[trigger] g.nodes[k]).id != id by {
                        if k < i {
                            assert(g.nodes[k].id != g.nodes[i as int].id);
                        } else {
                            assert(g.nodes[i as int].id != g.nodes[k].id);
                        }
                    }
                    lemma_filter_remove_unique(g.nodes, id, i as int);
                    lemma_filter_nodes_ok(g.nodes, |n: NodeView| n.id != id, g.next_id);
                    assert(g.nodes[i as int].id == id);
                    assert(self@ =~= spec_delete_node(g, id));
                }
                true
            },
            None => {
                proof {
                    lemma_filter_none(g.nodes, id);
                    assert(self@ =~= spec_delete_node(g, id));
                }
                false
            },
        }
    }

    /// Deletes an edge; tells whether it existed.
    pub fn delete_edge(&mut self, id: i64) -> (r: bool)
        requires
            old(self).wf(),
        ensures
            final(self)@ == spec_delete_edge(old(self)@, id),
            r == has_edge_id(old(self)@, id),
            final(self).wf(),
    {
        let ghost g = self@;
        match self.position_of_edge_id(id) {
            Some(i) => {
                self.edges.remove(i);
                proof {
                    assert(seq_views(self.edges@) =~= g.edges.remove(i as int));
                    assert forall|k: int| 0 <= k < g.edges.len() && k != i implies (
                    #[trigger] g.edges[k]).id != id by {
                        if k < i {
                            assert(g.edges[k].id != g.edges[i as int].id);
                        } else {
                            assert(g.edges[i as int].id != g.edges[k].id);
                        }
                    }
                    lemma_filter_remove_unique_edge(g.edges, id, i as int);
                    lemma_filter_edges_ok(g.edges, |e: EdgeView| e.id != id, g.next_id);
                    assert(g.edges[i as int].id == id);
                    assert(self@ =~= spec_delete_edge(g, id));
                }
                true
            },
            None => {
                proof {
                    lemma_filter_none_edge(g.edges, id);
                    assert(self@ =~= spec_delete_edge(g, id));
                }
                false
            },
        }
    }

    /// Deletes a file node, the edges that touch it and the node itself.
    pub fn delete_by_file(&mut self, file_id: i64)
        requires
            old(self).wf(),
        ensures
            final(self)@ == spec_delete_node(old(self)@, file_id),
            final(self).wf(),
    {
        self.delete_node(file_id);
    }

    /// The id that replaces a node id once the nodes have their store ids.
    fn store_id_of(&self, store_ids: &Vec<i64>, id: i64) -> (r: i64)
        requires
            self.wf(),
            store_ids.len() == self@.nodes.len(),
        ensures
            r == mapped_id(self@.nodes, store_ids@, id),
    {
        match self.position_of_node_id(id) {
            Some(i) => {
                proof {
                    let ns = self@.nodes;
                    assert(0 <= i < ns.len() && ns[i as int].id == id);
                    let k = choose|k: int| 0 <= k < ns.len() && #[trigger] ns[k].id == id;
                    if k != i as int {
                        if k < i {
                            assert(ns[k].id != ns[i as int].id);
                        } else {
                            assert(ns[i as int].id != ns[k].id);
                        }
                    }
                }
                store_ids[i]
            },
            None => id,
        }
    }

    /// Gives every node the id the store gave it (`store_ids`, in node order)
    /// and moves every edge endpoint along with its node.  The buffer then
    /// mirrors the store, and only its contents and counts are read.
    pub fn apply_store_ids(&mut self, store_ids: &Vec<i64>)
        requires
            old(self).wf(),
            store_ids.len() == old(self)@.nodes.len(),
        ensures
            final(self)@ == with_store_ids(old(self)@, store_ids@),
    {
        let ghost g = self@;
        let mut edges: Vec<Edge> = Vec::new();
        let mut k: usize = 0;
        while k < self.edges.len()
            invariant
                k <= self.edges.len(),
                self@ == g,
                self.wf(),
                store_ids.len() == g.nodes.len(),
                edges.len() == k,
                forall|j: int|
                    0 <= j < k ==> (#[trigger] edges@[j])@ == with_store_ids(g, store_ids@).edges[j],
            decreases self.edges.len() - k,
        {
            let mut e = self.edges[k].duplicate();
            e.source_id = self.store_id_of(store_ids, e.source_id);
            e.target_id = self.store_id_of(store_ids, e.target_id);
            edges.push(e);
            k = k + 1;
        }
        let mut nodes: Vec<Node> = Vec::new();
        let mut i: usize = 0;
        while i < self.nodes.len()
            invariant
                i <= self.nodes.len(),
                self@ == g,
                store_ids.len() == g.nodes.len(),
                nodes.len() == i,
                forall|j: int|
                    0 <= j < i ==> (#[trigger] nodes@[j])@ == with_store_ids(g, store_ids@).nodes[j],
            decreases self.nodes.len() - i,
        {
            let mut n = self.nodes[i].duplicate();
            n.id = store_ids[i];
            nodes.push(n);
            i = i + 1;
        }
        self.nodes = nodes;
        self.edges = edges;
        assert(self@.nodes =~= with_store_ids(g, store_ids@).nodes);
        assert(self@.edges =~= with_store_ids(g, store_ids@).edges);
    }

    /// The id that a source endpoint takes in this buffer: that of the node
    /// with the same qualified name as the source node with the id.
    fn merged_id_of(&self, src: &GraphBuffer, x: i64) -> (r: i64)
        requires
            src.wf(),
        ensures
            r == merged_id(self@.nodes, src@.nodes, x),
    {
        match src.position_of_node_id(x) {
            Some(k) => {
                proof {
                    let sn = src@.nodes;
                    let k2 = choose|k2: int| 0 <= k2 < sn.len() && #[trigger] sn[k2].id == x;
                    if k2 != k as int {
                        if k2 < k {
                            assert(sn[k2].id != sn[k as int].id);
                        } else {
                            assert(sn[k as int].id != sn[k2].id);
                        }
                    }
                }
                match self.position_of_qn(&src.nodes[k].qualified_name) {
                    Some(i) => self.nodes[i].id,
                    None => x,
                }
            },
            None => x,
        }
    }

    /// Merges another buffer into this one: its nodes are upserted by
    /// qualified name, then its edges inserted unless their key exists, each
    /// endpoint moved to the id of the node with the same qualified name.
    pub fn merge(&mut self, src: GraphBuffer)
        requires
            old(self).wf(),
            src.wf(),
            old(self).has_room(src@.nodes.len() + src@.edges.len() as int),
        ensures
            final(self)@ == spec_merge(old(self)@, src@),
            final(self).wf(),
    {
        let ghost g = self@;
        let ghost sn = src@.nodes;
        let ghost se = src@.edges;
        let mut i: usize = 0;
        assert(sn.take(0) =~= Seq::<NodeView>::empty());
        while i < src.nodes.len()
            invariant
                i <= src.nodes.len(),
                sn == seq_views(src.nodes@),
                se == seq_views(src.edges@),
                self.wf(),
                self@ == upsert_all(g, sn.take(i as int)),
                self@.next_id <= g.next_id + i,
                g.next_id + sn.len() + se.len() <= i64::MAX,
            decreases src.nodes.len() - i,
        {
            assert(sn.take(i + 1).drop_last() =~= sn.take(i as int));
            let n = src.nodes[i].duplicate();
            self.upsert_node(n);
            i = i + 1;
        }
        assert(sn.take(sn.len() as int) =~= sn);
        let ghost mid = self@;
        let ghost re = remap_edges(mid.nodes, sn, se);
        let mut k: usize = 0;
        assert(re.take(0) =~= Seq::<EdgeView>::empty());
        while k < src.edges.len()
            invariant
                k <= src.edges.len(),
                sn == src@.nodes,
                se == seq_views(src.edges@),
                src.wf(),
                re == remap_edges(mid.nodes, sn, se),
                self.wf(),
                self@ == insert_all(mid, re.take(k as int)),
                self@.nodes == mid.nodes,
                self@.next_id <= g.next_id + sn.len() + k,
                g.next_id + sn.len() + se.len() <= i64::MAX,
            decreases src.edges.len() - k,
        {
            assert(re.take(k + 1).drop_last() =~= re.take(k as int));
            let mut e = src.edges[k].duplicate();
            e.source_id = self.merged_id_of(&src, e.source_id);
            e.target_id = self.merged_id_of(&src, e.target_id);
            assert(e@ == re[k as int]);
            self.insert_edge(e);
            k = k + 1;
        }
        assert(re.take(re.len() as int) =~= re);
    }
}

/// Filtering out the only node with an id is removing it.
proof fn lemma_filter_remove_unique(ns: Seq<NodeView>, id: i64, i: int)
    requires
        0 <= i < ns.len(),
        ns[i].id == id,
        forall|k: int| 0 <= k < ns.len() && k != i ==> (#[trigger] ns[k]).id != id,
    ensures
        ns.filter(|n: NodeView| n.id != id) == ns.remove(i),
    decreases ns.len(),
{
    reveal(Seq::filter);
    let d = ns.drop_last();
    if i == ns.len() - 1 {
        assert forall|k: int| 0 <= k < d.len() implies (#[trigger] d[k]).id != id by {
            assert(ns[k].id != id);
        }
        lemma_filter_none(d, id);
        assert(d =~= ns.remove(i));
    } else {
        assert forall|k: int| 0 <= k < d.len() && k != i implies (#[trigger] d[k]).id != id by {
            assert(ns[k].id != id);
        }
        assert(ns[ns.len() - 1].id != id);
        lemma_filter_remove_unique(d, id, i);
        assert(d.remove(i).push(ns.last()) =~= ns.remove(i));
    }
}

/// Filtering out the only edge with an id is removing it.
proof fn lemma_filter_remove_unique_edge(es: Seq<EdgeView>, id: i64, i: int)
    requires
        0 <= i < es.len(),
        es[i].id == id,
        forall|k: int| 0 <= k < es.len() && k != i ==> (#[trigger] es[k]).id != id,
    ensures
        es.filter(|e: EdgeView| e.id != id) == es.remove(i),
    decreases es.len(),
{
    reveal(Seq::filter);
    let d = es.drop_last();
    if i == es.len() - 1 {
        assert forall|k: int| 0 <= k < d.len() implies (#[trigger] d[k]).id != id by {
            assert(es[k].id != id);
        }
        lemma_filter_none_edge(d, id);
        assert(d =~= es.remove(i));
    } else {
        assert forall|k: int| 0 <= k < d.len() && k != i implies (#[trigger] d[k]).id != id by {
            assert(es[k].id != id);
        }
        assert(es[es.len() - 1].id != id);
        lemma_filter_remove_unique_edge(d, id, i);
        assert(d.remove(i).push(es.last()) =~= es.remove(i));
    }
}

/// Filtering by an id no node has changes nothing.
proof fn lemma_filter_none(ns: Seq<NodeView>, id: i64)
    requires
        forall|k: int| 0 <= k < ns.len() ==> (#[trigger] ns[k]).id != id,
    ensures
        ns.filter(|n: NodeView| n.id != id) == ns,
    decreases ns.len(),
{
    reveal(Seq::filter);
    if ns.len() > 0 {
        let d = ns.drop_last();
        assert forall|k: int| 0 <= k < d.len() implies (#[trigger] d[k]).id != id by {
            assert(ns[k].id != id);
        }
        lemma_filter_none(d, id);
        assert(ns[ns.len() - 1].id != id);
        assert(d.push(ns.last()) =~= ns);
    }
}

/// Filtering by an id no edge has changes nothing.
proof fn lemma_filter_none_edge(es: Seq<EdgeView>, id: i64)
    requires
        forall|k: int| 0 <= k < es.len() ==> (#[trigger] es[k]).id != id,
    ensures
        es.filter(|e: EdgeView| e.id != id) == es,
    decreases es.len(),
{
    reveal(Seq::filter);
    if es.len() > 0 {
        let d = es.drop_last();
        assert forall|k: int| 0 <= k < d.len() implies (#[trigger] d[k]).id != id by {
            assert(es[k].id != id);
        }
        lemma_filter_none_edge(d, id);
        assert(es[es.len() - 1].id != id);
        assert(d.push(es.last()) =~= es);
    }
}

// ============================================================
// Laws
// ============================================================

/// The qualified names of a sequence of nodes.
pub open spec fn qns(ns: Seq<NodeView>) -> Seq<Seq<char>> {
    ns.map_values(|n: NodeView| n.qualified_name)
}

/// Whether no two nodes share a qualified name.
pub open spec fn qns_distinct(ns: Seq<NodeView>) -> bool {
    forall|i: int, j: int|
        0 <= i < j < ns.len() ==> (#[trigger] ns[i]).qualified_name != (#[trigger] ns[j]).qualified_name
}

/// No node before position `i` has qualified name `qn`.
proof fn lemma_qn_absent_before(nodes: Seq<NodeView>, qn: Seq<char>)
    requires
        qn_index(nodes, qn) is None,
    ensures
        forall|k: int| 0 <= k < nodes.len() ==> (#[trigger] nodes[k]).qualified_name != qn,
{
    assert forall|k: int| 0 <= k < nodes.len() implies (#[trigger] nodes[k]).qualified_name != qn by {
        if nodes[k].qualified_name == qn {
            lemma_some_first_qn(nodes, qn, k);
        }
    }
}

/// No edge has the given key.
proof fn lemma_key_absent(edges: Seq<EdgeView>, s: i64, t: i64, ty: EdgeType)
    requires
        key_index(edges, s, t, ty) is None,
    ensures
        forall|k: int| 0 <= k < edges.len() ==> !has_key(#[trigger] edges[k], s, t, ty),
{
    assert forall|k: int| 0 <= k < edges.len() implies !has_key(#[trigger] edges[k], s, t, ty) by {
        if has_key(edges[k], s, t, ty) {
            lemma_some_first_key(edges, s, t, ty, k);
        }
    }
}

/// Read after write: after an upsert, looking the qualified name up finds
/// the node as it was upserted, under the id the upsert gave.
pub proof fn lemma_upsert_then_find(g: GraphModel, n: NodeView)
    ensures
        ({
            let (g1, id) = spec_upsert_node(g, n);
            qn_index(g1.nodes, n.qualified_name) matches Some(i) && 0 <= i < g1.nodes.len()
                && g1.nodes[i] == (NodeView { id, ..n })
        }),
{
    let qn = n.qualified_name;
    let (g1, id) = spec_upsert_node(g, n);
    match qn_index(g.nodes, qn) {
        Some(i) => {
            let k = choose|k: int| qn_at(g.nodes, qn, k);
            assert(qn_at(g.nodes, qn, k));
            assert(k == i);
            assert(qn_at(g1.nodes, qn, i)) by {
                assert forall|j: int| 0 <= j < i implies (#[trigger] g1.nodes[j]).qualified_name
                    != qn by {
                    assert(g1.nodes[j] == g.nodes[j]);
                }
            }
            let k1 = choose|k: int| qn_at(g1.nodes, qn, k);
            lemma_qn_first_unique(g1.nodes, qn, i, k1);
        },
        None => {
            lemma_qn_absent_before(g.nodes, qn);
            let i = g.nodes.len() as int;
            assert(qn_at(g1.nodes, qn, i)) by {
                assert forall|j: int| 0 <= j < i implies (#[trigger] g1.nodes[j]).qualified_name
                    != qn by {
                    assert(g1.nodes[j] == g.nodes[j]);
                }
            }
            let k1 = choose|k: int| qn_at(g1.nodes, qn, k);
            lemma_qn_first_unique(g1.nodes, qn, i, k1);
        },
    }
}

/// Upserting two nodes with one qualified name gives one id: the second
/// upsert adds no node and takes no id, and the node then found is the second.
pub proof fn lemma_upsert_same_qn(g: GraphModel, n1: NodeView, n2: NodeView)
    requires
        n1.qualified_name == n2.qualified_name,
    ensures
        ({
            let (g1, id1) = spec_upsert_node(g, n1);
            let (g2, id2) = spec_upsert_node(g1, n2);
            &&& id2 == id1
            &&& g2.nodes.len() == g1.nodes.len()
            &&& g2.next_id == g1.next_id
            &&& g2.edges == g1.edges
            &&& qn_index(g2.nodes, n2.qualified_name) matches Some(i) && 0 <= i < g2.nodes.len()
                && g2.nodes[i] == (NodeView { id: id1, ..n2 })
        }),
{
    let (g1, id1) = spec_upsert_node(g, n1);
    lemma_upsert_then_find(g, n1);
    lemma_upsert_then_find(g1, n2);
}

/// Inserting two edges with one (source, target, type) key gives one id,
/// and the second insertion changes nothing.
pub proof fn lemma_insert_edge_same_key(g: GraphModel, e1: EdgeView, e2: EdgeView)
    requires
        same_key(e1, e2),
    ensures
        ({
            let (g1, id1) = spec_insert_edge(g, e1);
            let (g2, id2) = spec_insert_edge(g1, e2);
            id2 == id1 && g2 == g1
        }),
{
    let (s, t, ty) = (e1.source_id, e1.target_id, e1.edge_type);
    let (g1, id1) = spec_insert_edge(g, e1);
    match key_index(g.edges, s, t, ty) {
        Some(i) => {
            let k = choose|k: int| key_at(g.edges, s, t, ty, k);
            assert(key_at(g.edges, s, t, ty, k));
            assert(k == i);
            assert(key_at(g1.edges, s, t, ty, i));
            let k1 = choose|k: int| key_at(g1.edges, s, t, ty, k);
            lemma_key_first_unique(g1.edges, s, t, ty, i, k1);
        },
        None => {
            lemma_key_absent(g.edges, s, t, ty);
            let i = g.edges.len() as int;
            assert(key_at(g1.edges, s, t, ty, i)) by {
                assert forall|j: int| 0 <= j < i implies !has_key(#[trigger] g1.edges[j], s, t, ty) by {
                    assert(g1.edges[j] == g.edges[j]);
                }
            }
            let k1 = choose|k: int| key_at(g1.edges, s, t, ty, k);
            lemma_key_first_unique(g1.edges, s, t, ty, i, k1);
        },
    }
}

/// Deleting a node removes it and every edge that touches it, and keeps
/// every other node and every other edge.
pub proof fn lemma_delete_node_effect(g: GraphModel, id: i64)
    ensures
        !has_node_id(spec_delete_node(g, id), id),
        forall|k: int|
            0 <= k < spec_delete_node(g, id).edges.len() ==> !touches(
                #[trigger] spec_delete_node(g, id).edges[k],
                id,
            ),
        forall|k: int|
            0 <= k < g.nodes.len() && (#[trigger] g.nodes[k]).id != id ==> spec_delete_node(
                g,
                id,
            ).nodes.contains(g.nodes[k]),
        forall|k: int|
            0 <= k < g.edges.len() && !touches(#[trigger] g.edges[k], id) ==> spec_delete_node(
                g,
                id,
            ).edges.contains(g.edges[k]),
{
    broadcast use vstd::seq_lib::group_filter_ensures;

    let r = spec_delete_node(g, id);
    let pn = |n: NodeView| n.id != id;
    let pe = |e: EdgeView| !touches(e, id);
    assert(r.nodes == g.nodes.filter(pn));
    assert(r.edges == g.edges.filter(pe));
    assert forall|k: int| 0 <= k < r.nodes.len() implies (#[trigger] r.nodes[k]).id != id by {
        g.nodes.lemma_filter_pred(pn, k);
    }
    assert forall|k: int| 0 <= k < r.edges.len() implies !touches(#[trigger] r.edges[k], id) by {
        g.edges.lemma_filter_pred(pe, k);
    }
    assert forall|k: int| 0 <= k < g.nodes.len() && (#[trigger] g.nodes[k]).id != id implies r.nodes.contains(
        g.nodes[k],
    ) by {
        g.nodes.lemma_filter_contains(pn, k);
    }
    assert forall|k: int| 0 <= k < g.edges.len() && !touches(#[trigger] g.edges[k], id) implies r.edges.contains(
        g.edges[k],
    ) by {
        g.edges.lemma_filter_contains(pe, k);
    }
}

/// After a node is deleted, its qualified name no longer resolves, and the
/// key of every edge that touched it is free: inserting an edge with that key
/// adds a new edge under the next id.
pub proof fn lemma_delete_node_forgets(g: GraphModel, id: i64, k: int, e: EdgeView)
    requires
        model_wf(g),
        0 <= k < g.nodes.len(),
        g.nodes[k].id == id,
        touches(e, id),
    ensures
        qn_index(spec_delete_node(g, id).nodes, g.nodes[k].qualified_name) is None,
        key_index(spec_delete_node(g, id).edges, e.source_id, e.target_id, e.edge_type) is None,
        spec_insert_edge(spec_delete_node(g, id), e).1 == spec_delete_node(g, id).next_id,
        spec_insert_edge(spec_delete_node(g, id), e).0.edges.len() == spec_delete_node(g, id).edges.len() + 1,
{
    let r = spec_delete_node(g, id);
    let pn = |n: NodeView| n.id != id;
    let pe = |x: EdgeView| !touches(x, id);
    let q = g.nodes[k].qualified_name;
    if qn_index(r.nodes, q) is Some {
        let i = choose|i: int| qn_at(r.nodes, q, i);
        assert(qn_at(r.nodes, q, i));
        g.nodes.lemma_filter_pred(pn, i);
        assert(r.nodes.contains(r.nodes[i]));
        g.nodes.lemma_filter_contains_rev(pn, r.nodes[i]);
        let j = choose|j: int| 0 <= j < g.nodes.len() && g.nodes[j] == r.nodes[i];
        if j < k {
            assert(g.nodes[j].qualified_name != g.nodes[k].qualified_name);
        } else if k < j {
            assert(g.nodes[k].qualified_name != g.nodes[j].qualified_name);
        }
        assert(false);
    }
    if key_index(r.edges, e.source_id, e.target_id, e.edge_type) is Some {
        let i = choose|i: int| key_at(r.edges, e.source_id, e.target_id, e.edge_type, i);
        assert(key_at(r.edges, e.source_id, e.target_id, e.edge_type, i));
        g.edges.lemma_filter_pred(pe, i);
        assert(false);
    }
}

/// An upsert adds the node's qualified name to the names of the graph and
/// keeps them distinct.
proof fn lemma_upsert_qns(g: GraphModel, n: NodeView)
    requires
        qns_distinct(g.nodes),
    ensures
        qns_distinct(spec_upsert_node(g, n).0.nodes),
        qns(spec_upsert_node(g, n).0.nodes).to_set() == qns(g.nodes).to_set().insert(
            n.qualified_name,
        ),
{
    let qn = n.qualified_name;
    let g1 = spec_upsert_node(g, n).0;
    match qn_index(g.nodes, qn) {
        Some(i) => {
            let k = choose|k: int| qn_at(g.nodes, qn, k);
            assert(qn_at(g.nodes, qn, k));
            assert(qns(g1.nodes) =~= qns(g.nodes));
            assert(qns(g.nodes)[i] == qn);
            assert(qns(g.nodes).to_set().insert(qn) =~= qns(g.nodes).to_set());
            assert forall|a: int, b: int| 0 <= a < b < g1.nodes.len() implies (
            #[trigger] g1.nodes[a]).qualified_name != (#[trigger] g1.nodes[b]).qualified_name by {
                assert(g.nodes[a].qualified_name != g.nodes[b].qualified_name);
            }
        },
        None => {
            lemma_qn_absent_before(g.nodes, qn);
            assert(qns(g1.nodes) =~= qns(g.nodes).push(qn));
            assert forall|a: int, b: int| 0 <= a < b < g1.nodes.len() implies (
            #[trigger] g1.nodes[a]).qualified_name != (#[trigger] g1.nodes[b]).qualified_name by {
                if b < g.nodes.len() {
                    assert(g.nodes[a].qualified_name != g.nodes[b].qualified_name);
                } else {
                    assert(g.nodes[a].qualified_name != qn);
                }
            }
        },
    }
}

proof fn lemma_upsert_all_qns(g: GraphModel, ns: Seq<NodeView>)
    requires
        qns_distinct(g.nodes),
    ensures
        qns_distinct(upsert_all(g, ns).nodes),
        qns(upsert_all(g, ns).nodes).to_set() == qns(g.nodes).to_set() + qns(ns).to_set(),
    decreases ns.len(),
{
    if ns.len() == 0 {
        assert(qns(ns).to_set() =~= Set::<Seq<char>>::empty());
        assert(qns(g.nodes).to_set() + qns(ns).to_set() =~= qns(g.nodes).to_set());
    } else {
        let d = ns.drop_last();
        lemma_upsert_all_qns(g, d);
        lemma_upsert_qns(upsert_all(g, d), ns.last());
        assert(qns(ns) =~= qns(d).push(ns.last().qualified_name));
        assert(qns(upsert_all(g, ns).nodes).to_set() =~= qns(g.nodes).to_set() + qns(ns).to_set());
    }
}

proof fn lemma_insert_all_nodes(g: GraphModel, es: Seq<EdgeView>)
    ensures
        insert_all(g, es).nodes == g.nodes,
    decreases es.len(),
{
    if es.len() > 0 {
        lemma_insert_all_nodes(g, es.drop_last());
    }
}

/// Merging keeps one node per qualified name: the names after a merge are
/// those of both graphs, and there are as many nodes as names.
pub proof fn lemma_merge_node_names(g: GraphModel, src: GraphModel)
    requires
        model_wf(g),
    ensures
        qns(spec_merge(g, src).nodes).to_set() == qns(g.nodes).to_set() + qns(src.nodes).to_set(),
        spec_merge(g, src).nodes.len() == (qns(g.nodes).to_set() + qns(src.nodes).to_set()).len(),
{
    assert(qns_distinct(g.nodes)) by {
        assert forall|i: int, j: int| 0 <= i < j < g.nodes.len() implies (
        #[trigger] g.nodes[i]).qualified_name != (#[trigger] g.nodes[j]).qualified_name by {
            assert(g.nodes[i].id != g.nodes[j].id);
        }
    }
    lemma_upsert_all_qns(g, src.nodes);
    let u = upsert_all(g, src.nodes);
    lemma_insert_all_nodes(u, remap_edges(u.nodes, src.nodes, src.edges));
    let q = qns(u.nodes);
    assert(q.no_duplicates()) by {
        assert forall|i: int, j: int| 0 <= i < q.len() && 0 <= j < q.len() && i != j implies q[i]
            != q[j] by {
            if i < j {
                assert(u.nodes[i].qualified_name != u.nodes[j].qualified_name);
            } else {
                assert(u.nodes[j].qualified_name != u.nodes[i].qualified_name);
            }
        }
    }
    q.unique_seq_to_set();
}

/// Whether some edge has the given (source, target, type) key.
pub open spec fn has_edge_key(g: GraphModel, s: i64, t: i64, ty: EdgeType) -> bool {
    exists|j: int| 0 <= j < g.edges.len() && has_key(#[trigger] g.edges[j], s, t, ty)
}

pub proof fn lemma_insert_edge_keys(g: GraphModel, e: EdgeView)
    ensures
        spec_insert_edge(g, e).0.nodes == g.nodes,
        has_edge_key(spec_insert_edge(g, e).0, e.source_id, e.target_id, e.edge_type),
        forall|s: i64, t: i64, ty: EdgeType|
            has_edge_key(g, s, t, ty) ==> #[trigger] has_edge_key(spec_insert_edge(g, e).0, s, t, ty),
{
    let r = spec_insert_edge(g, e).0;
    match key_index(g.edges, e.source_id, e.target_id, e.edge_type) {
        Some(i) => {
            let k = choose|k: int| key_at(g.edges, e.source_id, e.target_id, e.edge_type, k);
            assert(key_at(g.edges, e.source_id, e.target_id, e.edge_type, k));
        },
        None => {
            assert(has_key(r.edges[g.edges.len() as int], e.source_id, e.target_id, e.edge_type));
            assert forall|s: i64, t: i64, ty: EdgeType| has_edge_key(g, s, t, ty) implies #[trigger] has_edge_key(
                r,
                s,
                t,
                ty,
            ) by {
                let j = choose|j: int| 0 <= j < g.edges.len() && has_key(#[trigger] g.edges[j], s, t, ty);
                assert(r.edges[j] == g.edges[j]);
            }
        },
    }
}

proof fn lemma_insert_all_keys(g: GraphModel, es: Seq<EdgeView>)
    ensures
        insert_all(g, es).nodes == g.nodes,
        forall|k: int|
            0 <= k < es.len() ==> has_edge_key(
                insert_all(g, es),
                (#[trigger] es[k]).source_id,
                es[k].target_id,
                es[k].edge_type,
            ),
    decreases es.len(),
{
    if es.len() > 0 {
        let d = es.drop_last();
        let m = insert_all(g, d);
        lemma_insert_all_keys(g, d);
        lemma_insert_edge_keys(m, es.last());
        let r = insert_all(g, es);
        assert forall|k: int| 0 <= k < es.len() implies has_edge_key(
            r,
            (#[trigger] es[k]).source_id,
            es[k].target_id,
            es[k].edge_type,
        ) by {
            if k < es.len() - 1 {
                assert(d[k] == es[k]);
                assert(has_edge_key(m, d[k].source_id, d[k].target_id, d[k].edge_type));
            }
        }
    }
}

/// After the upserts of a merge, every node name of the source resolves.
proof fn lemma_upsert_all_finds(g: GraphModel, sn: Seq<NodeView>, a: int)
    requires
        model_wf(g),
        0 <= a < sn.len(),
    ensures
        qn_index(upsert_all(g, sn).nodes, sn[a].qualified_name) is Some,
{
    assert(qns_distinct(g.nodes)) by {
        assert forall|i: int, j: int| 0 <= i < j < g.nodes.len() implies (
        #[trigger] g.nodes[i]).qualified_name != (#[trigger] g.nodes[j]).qualified_name by {
            assert(g.nodes[i].id != g.nodes[j].id);
        }
    }
    lemma_upsert_all_qns(g, sn);
    let u = upsert_all(g, sn);
    let q = sn[a].qualified_name;
    assert(qns(sn)[a] == q);
    assert(qns(sn).to_set().contains(q));
    assert(qns(u.nodes).to_set().contains(q));
    let i = choose|i: int| 0 <= i < qns(u.nodes).len() && qns(u.nodes)[i] == q;
    lemma_some_first_qn(u.nodes, q, i);
}

/// Merging keeps the source's edges between the same names: for every source
/// edge between two nodes of the source, the merged graph has an edge of the
/// same type from the node with the first node's qualified name to the node
/// with the second's.
pub proof fn lemma_merge_edges_follow_names(g: GraphModel, src: GraphModel, j: int, a: int, b: int)
    requires
        model_wf(g),
        model_wf(src),
        0 <= j < src.edges.len(),
        0 <= a < src.nodes.len(),
        0 <= b < src.nodes.len(),
        src.nodes[a].id == src.edges[j].source_id,
        src.nodes[b].id == src.edges[j].target_id,
    ensures
        ({
            let m = spec_merge(g, src);
            &&& qn_index(m.nodes, src.nodes[a].qualified_name) is Some
            &&& qn_index(m.nodes, src.nodes[b].qualified_name) is Some
            &&& has_edge_key(
                m,
                m.nodes[qn_index(m.nodes, src.nodes[a].qualified_name)->0].id,
                m.nodes[qn_index(m.nodes, src.nodes[b].qualified_name)->0].id,
                src.edges[j].edge_type,
            )
        }),
{
    let sn = src.nodes;
    let u = upsert_all(g, sn);
    let re = remap_edges(u.nodes, sn, src.edges);
    lemma_upsert_all_finds(g, sn, a);
    lemma_upsert_all_finds(g, sn, b);
    lemma_insert_all_keys(u, re);
    let ka = choose|k: int| 0 <= k < sn.len() && #[trigger] sn[k].id == src.edges[j].source_id;
    let kb = choose|k: int| 0 <= k < sn.len() && #[trigger] sn[k].id == src.edges[j].target_id;
    if ka != a {
        if ka < a {
            assert(sn[ka].id != sn[a].id);
        } else {
            assert(sn[a].id != sn[ka].id);
        }
    }
    if kb != b {
        if kb < b {
            assert(sn[kb].id != sn[b].id);
        } else {
            assert(sn[b].id != sn[kb].id);
        }
    }
    assert(re[j] == remap_edge(u.nodes, sn, src.edges[j]));
}

/// The node under a qualified name, if any.
pub open spec fn found(g: GraphModel, q: Seq<char>) -> Option<NodeView> {
    match qn_index(g.nodes, q) {
        Some(i) => Some(g.nodes[i]),
        None => None,
    }
}

/// Upserting a node under one qualified name leaves the node under any other
/// qualified name as it was.
pub proof fn lemma_upsert_keeps_other(g: GraphModel, n: NodeView, q: Seq<char>)
    requires
        q != n.qualified_name,
    ensures
        found(spec_upsert_node(g, n).0, q) == found(g, q),
{
    let g1 = spec_upsert_node(g, n).0;
    match qn_index(g.nodes, n.qualified_name) {
        Some(k) => {
            let kk = choose|kk: int| qn_at(g.nodes, n.qualified_name, kk);
            assert(qn_at(g.nodes, n.qualified_name, kk));
            assert forall|j: int| 0 <= j < g1.nodes.len() implies (#[trigger] g1.nodes[j]).qualified_name
                == g.nodes[j].qualified_name by {}
        },
        None => {},
    }
    match qn_index(g.nodes, q) {
        Some(i) => {
            let ii = choose|ii: int| qn_at(g.nodes, q, ii);
            assert(qn_at(g.nodes, q, ii));
            assert(qn_at(g1.nodes, q, i));
            let i1 = choose|i1: int| qn_at(g1.nodes, q, i1);
            lemma_qn_first_unique(g1.nodes, q, i, i1);
            assert(g1.nodes[i] == g.nodes[i]);
        },
        None => {
            lemma_qn_absent_before(g.nodes, q);
            assert forall|i: int| !#[trigger] qn_at(g1.nodes, q, i) by {
                if qn_at(g1.nodes, q, i) {
                    if i < g.nodes.len() {
                        assert(g.nodes[i].qualified_name == q);
                    }
                }
            }
        },
    }
}

} // verus!

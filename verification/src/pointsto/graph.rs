//! The constraint graph: an arena of nodes, one for each distinct
//! `ConstraintNode`, and the edges between them.

use crate::ir::{Constant, Place};
use crate::pointsto::node::{ConstraintEdge, ConstraintNode, Edge, NodeView};
use petgraph::graph::{Graph, NodeIndex};
use petgraph::visit::EdgeRef;
use petgraph::{Directed, Direction};
use vstd::prelude::*;

verus! {

/// `Graph` of petgraph: a graph that keeps its nodes and its edges in the
/// order in which they were added. Nothing is known of a value of it but
/// what the functions below say.
#[verifier::external_type_specification]
#[verifier::external_body]
#[verifier::reject_recursive_types(N)]
#[verifier::reject_recursive_types(E)]
#[verifier::reject_recursive_types(Ty)]
#[verifier::reject_recursive_types(Ix)]
pub struct ExGraph<N, E, Ty, Ix>(Graph<N, E, Ty, Ix>);

/// `Directed` of petgraph: the marker of a graph whose edges have a
/// direction.
#[verifier::external_type_specification]
#[verifier::external_body]
pub struct ExDirected(Directed);

/// The graph type that holds the constraints.
pub type Arena = Graph<ConstraintNode, ConstraintEdge, Directed, usize>;

/// The weights of the nodes of a graph, by node index.
pub uninterp spec fn node_weights(g: Arena) -> Seq<ConstraintNode>;

/// The edges of a graph, by edge index: the indices of the two ends and the
/// weight of each.
pub uninterp spec fn edge_list(g: Arena) -> Seq<Edge>;

/// The edges of `edges` that leave `a` (or, with `outgoing` false, that
/// enter `a`), the last of `edges` first.
pub open spec fn incident(edges: Seq<Edge>, a: int, outgoing: bool) -> Seq<Edge>
    decreases edges.len(),
{
    if edges.len() == 0 {
        Seq::empty()
    } else {
        let last = edges.last();
        let end = if outgoing {
            last.source
        } else {
            last.target
        };
        let rest = incident(edges.drop_last(), a, outgoing);
        if end == a {
            seq![last] + rest
        } else {
            rest
        }
    }
}

/// `Graph::default` of petgraph: a graph without nodes and without edges.
#[verifier::external_body]
fn arena_new() -> (g: Arena)
    ensures
        node_weights(g).len() == 0,
        edge_list(g).len() == 0,
{
    Graph::default()
}

/// `Graph::node_count` of petgraph: the number of nodes.
#[verifier::external_body]
fn arena_node_count(g: &Arena) -> (n: usize)
    ensures
        n == node_weights(*g).len(),
{
    g.node_count()
}

/// `Graph::edge_count` of petgraph: the number of edges.
#[verifier::external_body]
fn arena_edge_count(g: &Arena) -> (n: usize)
    ensures
        n == edge_list(*g).len(),
{
    g.edge_count()
}

/// `Graph::add_node` of petgraph: the node is added behind the nodes that
/// are there, and its index is returned. The edges stay. With `usize` as
/// the index type the call has no limit of its own.
#[verifier::external_body]
fn arena_add_node(g: &mut Arena, weight: ConstraintNode) -> (idx: usize)
    ensures
        node_weights(*final(g)) == node_weights(*old(g)).push(weight),
        edge_list(*final(g)) == edge_list(*old(g)),
        idx == node_weights(*old(g)).len(),
{
    g.add_node(weight).index()
}

/// `Graph::add_edge` of petgraph: an edge from `a` to `b` is added behind
/// the edges that are there, also where an equal edge exists. The nodes
/// stay. The call panics where `a` or `b` is not a node.
#[verifier::external_body]
fn arena_add_edge(g: &mut Arena, a: usize, b: usize, weight: ConstraintEdge)
    requires
        a < node_weights(*old(g)).len(),
        b < node_weights(*old(g)).len(),
    ensures
        edge_list(*final(g)) == edge_list(*old(g)).push(
            Edge { source: a, target: b, kind: weight },
        ),
        node_weights(*final(g)) == node_weights(*old(g)),
{
    g.add_edge(NodeIndex::new(a), NodeIndex::new(b), weight);
}

/// `Graph::node_weight` of petgraph: the weight of the node with index `a`,
/// or `None` where there is no such node.
#[verifier::external_body]
fn arena_node_weight(g: &Arena, a: usize) -> (w: Option<&ConstraintNode>)
    ensures
        a < node_weights(*g).len() ==> w == Some(&node_weights(*g)[a as int]),
        a >= node_weights(*g).len() ==> w.is_none(),
{
    g.node_weight(NodeIndex::new(a))
}

/// `Graph::edges` of petgraph on a directed graph: the edges that leave
/// `a`, the one added last first.
#[verifier::external_body]
fn arena_edges_from(g: &Arena, a: usize) -> (r: Vec<Edge>)
    ensures
        r@ == incident(edge_list(*g), a as int, true),
{
    g.edges(NodeIndex::new(a)).map(
        |e| Edge { source: e.source().index(), target: e.target().index(), kind: *e.weight() },
    ).collect()
}

/// `Graph::edges_directed` of petgraph on a directed graph, with
/// `Direction::Incoming`: the edges that enter `a`, the one added last
/// first.
#[verifier::external_body]
fn arena_edges_into(g: &Arena, a: usize) -> (r: Vec<Edge>)
    ensures
        r@ == incident(edge_list(*g), a as int, false),
{
    g.edges_directed(NodeIndex::new(a), Direction::Incoming).map(
        |e| Edge { source: e.source().index(), target: e.target().index(), kind: *e.weight() },
    ).collect()
}

/// `Graph::edge_references` of petgraph: all edges, by edge index.
#[verifier::external_body]
fn arena_edges(g: &Arena) -> (r: Vec<Edge>)
    ensures
        r@ == edge_list(*g),
{
    g.edge_references().map(
        |e| Edge { source: e.source().index(), target: e.target().index(), kind: *e.weight() },
    ).collect()
}

/// A constraint graph as a mathematical value: its nodes by number, and its
/// edges in the order in which they were added.
pub struct GraphView {
    pub nodes: Seq<NodeView>,
    pub edges: Seq<Edge>,
}

impl GraphView {
    /// No node occurs twice, the numbers of the nodes are machine numbers,
    /// no edge occurs twice with the same ends and the same kind, and every
    /// edge joins two nodes of the graph.
    pub open spec fn wf(self) -> bool {
        &&& self.nodes.no_duplicates()
        &&& self.nodes.len() <= usize::MAX
        &&& self.edges.no_duplicates()
        &&& forall|i: int|
            0 <= i < self.edges.len() ==> (#[trigger] self.edges[i]).source < self.nodes.len()
                && self.edges[i].target < self.nodes.len()
    }

    /// The number of the node `n`, where the graph has it.
    pub open spec fn index_of(self, n: NodeView) -> int {
        choose|i: int| 0 <= i < self.nodes.len() && self.nodes[i] == n
    }

    /// The graph with the node `n`: unchanged where it has the node, else
    /// with `n` as its last node.
    pub open spec fn with_node(self, n: NodeView) -> GraphView {
        if self.nodes.contains(n) {
            self
        } else {
            GraphView { nodes: self.nodes.push(n), edges: self.edges }
        }
    }

    /// The graph with one more edge, from `source` to `target`.
    pub open spec fn with_edge(self, source: int, target: int, kind: ConstraintEdge) -> GraphView {
        GraphView {
            nodes: self.nodes,
            edges: self.edges.push(
                Edge { source: source as usize, target: target as usize, kind },
            ),
        }
    }

    /// The graph with an edge of this kind from `source` to `target`:
    /// unchanged where it has one, else with the edge as its last.
    pub open spec fn with_new_edge(self, source: int, target: int, kind: ConstraintEdge) -> GraphView {
        if self.has_edge(source, target, kind) {
            self
        } else {
            self.with_edge(source, target, kind)
        }
    }

    /// The graph after the constraint `kind` from `rhs` to `lhs` has been
    /// recorded: `lhs` is made a node, then `rhs`, and the edge from `rhs`
    /// to `lhs` is added unless it is there.
    pub open spec fn with_constraint(
        self,
        lhs: NodeView,
        rhs: NodeView,
        kind: ConstraintEdge,
    ) -> GraphView {
        let g = self.with_node(lhs).with_node(rhs);
        g.with_new_edge(g.index_of(rhs), g.index_of(lhs), kind)
    }

    /// There is an edge of this kind from `source` to `target`.
    pub open spec fn has_edge(self, source: int, target: int, kind: ConstraintEdge) -> bool {
        exists|i: int|
            0 <= i < self.edges.len() && (#[trigger] self.edges[i]).source == source
                && self.edges[i].target == target && self.edges[i].kind == kind
    }

    /// The node is the storage behind a place.
    pub open spec fn is_alloc(self, i: int) -> bool {
        0 <= i < self.nodes.len() && self.nodes[i] is Alloc
    }

    /// Where a copy into the node `t` arrives. A copy into the storage
    /// behind a place goes on along the address edge that was added to that
    /// storage last; without such an edge it arrives nowhere.
    pub open spec fn copy_arrival(self, t: int) -> Option<int> {
        if self.is_alloc(t) {
            first_address_target(incident(self.edges, t, true))
        } else {
            Some(t)
        }
    }
}

/// In a graph without double nodes a node has one number.
pub proof fn lemma_index_unique(g: GraphView, i: int, n: NodeView)
    requires
        g.nodes.no_duplicates(),
        0 <= i < g.nodes.len(),
        g.nodes[i] == n,
    ensures
        g.index_of(n) == i,
{
}

/// A node that is added to a well-formed graph leaves it well formed, as
/// long as the numbers of its nodes stay machine numbers.
pub proof fn lemma_with_node_wf(g: GraphView, n: NodeView)
    requires
        g.wf(),
        g.with_node(n).nodes.len() <= usize::MAX,
    ensures
        g.with_node(n).wf(),
        g.with_node(n).nodes.contains(n),
        forall|i: int| 0 <= i < g.nodes.len() ==> #[trigger] g.with_node(n).nodes[i] == g.nodes[i],
{
    let h = g.with_node(n);
    if g.nodes.contains(n) {
    } else {
        assert(h.nodes[g.nodes.len() as int] == n);
        assert forall|i: int, j: int|
            0 <= i < h.nodes.len() && 0 <= j < h.nodes.len() && i != j implies h.nodes[i]
            != h.nodes[j] by {
            if i < g.nodes.len() && j < g.nodes.len() {
                assert(g.nodes[i] != g.nodes[j]);
            } else if i < g.nodes.len() {
                assert(g.nodes.contains(g.nodes[i]));
            } else if j < g.nodes.len() {
                assert(g.nodes.contains(g.nodes[j]));
            }
        }
        assert forall|k: int| 0 <= k < h.edges.len() implies (#[trigger] h.edges[k]).source
            < h.nodes.len() && h.edges[k].target < h.nodes.len() by {
            assert(g.edges[k] == h.edges[k]);
        }
    }
}

/// An edge that is added to a well-formed graph unless it is there leaves
/// the graph well formed.
pub proof fn lemma_with_new_edge_wf(g: GraphView, source: int, target: int, kind: ConstraintEdge)
    requires
        g.wf(),
        0 <= source < g.nodes.len(),
        0 <= target < g.nodes.len(),
    ensures
        g.with_new_edge(source, target, kind).wf(),
        g.with_new_edge(source, target, kind).has_edge(source, target, kind),
        forall|s: int, t: int, k: ConstraintEdge| #[trigger]
            g.with_new_edge(source, target, kind).has_edge(s, t, k) <==> g.has_edge(s, t, k) || (s
                == source && t == target && k == kind),
{
    let h = g.with_new_edge(source, target, kind);
    if !g.has_edge(source, target, kind) {
        let e = Edge { source: source as usize, target: target as usize, kind };
        assert(h.edges[g.edges.len() as int].source == source);
        assert(!g.edges.contains(e)) by {
            if g.edges.contains(e) {
                let j = choose|j: int| 0 <= j < g.edges.len() && g.edges[j] == e;
                assert(g.edges[j].source == source);
            }
        }
        assert forall|i: int, j: int|
            0 <= i < h.edges.len() && 0 <= j < h.edges.len() && i != j implies h.edges[i]
            != h.edges[j] by {
            if i < g.edges.len() && j < g.edges.len() {
                assert(g.edges[i] != g.edges[j]);
            } else if i < g.edges.len() {
                assert(g.edges.contains(g.edges[i]));
            } else if j < g.edges.len() {
                assert(g.edges.contains(g.edges[j]));
            }
        }
        assert forall|k: int| 0 <= k < h.edges.len() implies (#[trigger] h.edges[k]).source
            < h.nodes.len() && h.edges[k].target < h.nodes.len() by {
            if k < g.edges.len() {
                assert(g.edges[k] == h.edges[k]);
            }
        }
    }
    assert forall|s: int, t: int, k: ConstraintEdge| #[trigger]
        h.has_edge(s, t, k) <==> g.has_edge(s, t, k) || (s == source && t == target && k
            == kind) by {
        if h.has_edge(s, t, k) {
            let i = choose|i: int|
                0 <= i < h.edges.len() && (#[trigger] h.edges[i]).source == s && h.edges[i].target
                    == t && h.edges[i].kind == k;
            if i < g.edges.len() {
                assert(g.edges[i] == h.edges[i]);
            }
        }
        if g.has_edge(s, t, k) {
            let i = choose|i: int|
                0 <= i < g.edges.len() && (#[trigger] g.edges[i]).source == s && g.edges[i].target
                    == t && g.edges[i].kind == k;
            assert(h.edges[i] == g.edges[i]);
        }
    }
}

/// The target of the first address edge in `edges`.
pub open spec fn first_address_target(edges: Seq<Edge>) -> Option<int>
    decreases edges.len(),
{
    if edges.len() == 0 {
        None
    } else if edges[0].kind == ConstraintEdge::Address {
        Some(edges[0].target as int)
    } else {
        first_address_target(edges.subrange(1, edges.len() as int))
    }
}

/// `incident` keeps exactly the edges at `a`.
pub proof fn lemma_incident_members(edges: Seq<Edge>, a: int, outgoing: bool)
    ensures
        forall|e: Edge| #[trigger]
            incident(edges, a, outgoing).contains(e) <==> edges.contains(e) && (if outgoing {
                e.source
            } else {
                e.target
            }) == a,
    decreases edges.len(),
{
    let inc = incident(edges, a, outgoing);
    if edges.len() == 0 {
    } else {
        let last = edges.last();
        let front = edges.drop_last();
        let rest = incident(front, a, outgoing);
        lemma_incident_members(front, a, outgoing);
        let end = if outgoing {
            last.source
        } else {
            last.target
        };
        assert forall|e: Edge| #[trigger]
            inc.contains(e) <==> edges.contains(e) && (if outgoing {
                e.source
            } else {
                e.target
            }) == a by {
            if inc.contains(e) {
                let k = choose|k: int| 0 <= k < inc.len() && inc[k] == e;
                if end == a {
                    if k == 0 {
                        assert(edges[edges.len() - 1] == e);
                    } else {
                        assert(rest[k - 1] == e);
                        assert(rest.contains(e));
                        let j = choose|j: int| 0 <= j < front.len() && front[j] == e;
                        assert(edges[j] == e);
                    }
                } else {
                    assert(rest.contains(e));
                    let j = choose|j: int| 0 <= j < front.len() && front[j] == e;
                    assert(edges[j] == e);
                }
            }
            if edges.contains(e) && (if outgoing {
                e.source
            } else {
                e.target
            }) == a {
                let j = choose|j: int| 0 <= j < edges.len() && edges[j] == e;
                if j == edges.len() - 1 {
                    assert(inc[0] == e);
                } else {
                    assert(front[j] == e);
                    assert(rest.contains(e));
                    let k = choose|k: int| 0 <= k < rest.len() && rest[k] == e;
                    if end == a {
                        assert(inc[k + 1] == e);
                    } else {
                        assert(inc[k] == e);
                    }
                }
            }
        }
    }
}

/// The graph of the constraints of one function body.
pub struct ConstraintGraph {
    graph: Arena,
}

impl View for ConstraintGraph {
    type V = GraphView;

    closed spec fn view(&self) -> GraphView {
        GraphView {
            nodes: node_weights(self.graph).map_values(|n: ConstraintNode| n@),
            edges: edge_list(self.graph),
        }
    }
}

impl ConstraintGraph {
    /// A graph without nodes and edges.
    pub fn new() -> (r: Self)
        ensures
            r@.nodes.len() == 0,
            r@.edges.len() == 0,
            r@.wf(),
    {
        ConstraintGraph { graph: arena_new() }
    }

    /// The number of nodes.
    pub fn node_count(&self) -> (n: usize)
        ensures
            n == self@.nodes.len(),
    {
        arena_node_count(&self.graph)
    }

    /// The number of edges.
    pub fn edge_count(&self) -> (n: usize)
        ensures
            n == self@.edges.len(),
    {
        arena_edge_count(&self.graph)
    }

    /// The node with number `i`.
    pub fn node(&self, i: usize) -> (r: &ConstraintNode)
        requires
            i < self@.nodes.len(),
        ensures
            r@ == self@.nodes[i as int],
    {
        arena_node_weight(&self.graph, i).unwrap()
    }

    /// The number of `node`, or `None` where the graph does not have it.
    pub fn get_node(&self, node: &ConstraintNode) -> (r: Option<usize>)
        ensures
            match r {
                Some(i) => i < self@.nodes.len() && self@.nodes[i as int] == node@,
                None => !self@.nodes.contains(node@),
            },
    {
        let n = self.node_count();
        let mut i: usize = 0;
        while i < n
            invariant
                i <= n,
                n == self@.nodes.len(),
                forall|k: int| 0 <= k < i ==> self@.nodes[k] != node@,
            decreases n - i,
        {
            if self.node(i).same(node) {
                return Some(i);
            }
            i += 1;
        }
        None
    }

    /// The number of `node`, which is made the last node of the graph where
    /// the graph does not have it.
    pub fn get_or_insert_node(&mut self, node: ConstraintNode) -> (idx: usize)
        requires
            old(self)@.wf(),
        ensures
            final(self)@ == old(self)@.with_node(node@),
            final(self)@.wf(),
            idx < final(self)@.nodes.len(),
            final(self)@.nodes[idx as int] == node@,
            idx == final(self)@.index_of(node@),
    {
        match self.get_node(&node) {
            Some(idx) => {
                proof {
                    lemma_index_unique(self@, idx as int, node@);
                }
                idx
            },
            None => {
                let ghost before = self@;
                let idx = arena_add_node(&mut self.graph, node);
                // The count is read back to learn that it is a machine number.
                let _ = arena_node_count(&self.graph);
                proof {
                    assert(self@.nodes =~= before.nodes.push(node@));
                    assert(self@ == before.with_node(node@));
                    lemma_index_unique(self@, idx as int, node@);
                }
                idx
            },
        }
    }

    /// Records the constraint `kind` from `rhs` to `lhs`: both become nodes
    /// where they are not, `lhs` first, and an edge from `rhs` to `lhs` is
    /// added unless there is one.
    pub fn add_constraint(&mut self, lhs: ConstraintNode, rhs: ConstraintNode, kind: ConstraintEdge)
        requires
            old(self)@.wf(),
        ensures
            final(self)@ == old(self)@.with_constraint(lhs@, rhs@, kind),
            final(self)@.wf(),
    {
        let ghost l = lhs@;
        let ghost r = rhs@;
        let lhs = self.get_or_insert_node(lhs);
        let ghost mid = self@;
        let rhs = self.get_or_insert_node(rhs);
        let ghost g = self@;
        proof {
            assert(g.nodes[lhs as int] == l);
            assert(lhs == g.index_of(l));
        }
        let _ = self.insert_edge(rhs, lhs, kind);
    }

    /// All edges, in the order in which they were added.
    pub fn edges(&self) -> (r: Vec<Edge>)
        ensures
            r@ == self@.edges,
    {
        arena_edges(&self.graph)
    }

    /// The edges that leave the node `a`, the one added last first.
    pub fn edges_from(&self, a: usize) -> (r: Vec<Edge>)
        ensures
            r@ == incident(self@.edges, a as int, true),
    {
        arena_edges_from(&self.graph, a)
    }

    /// The edges that enter the node `a`, the one added last first.
    pub fn edges_into(&self, a: usize) -> (r: Vec<Edge>)
        ensures
            r@ == incident(self@.edges, a as int, false),
    {
        arena_edges_into(&self.graph, a)
    }

    /// Whether there is an edge of this kind from `from` to `to`.
    pub fn has_edge(&self, from: usize, to: usize, kind: ConstraintEdge) -> (r: bool)
        ensures
            r == self@.has_edge(from as int, to as int, kind),
    {
        let out = self.edges_from(from);
        let mut i: usize = 0;
        while i < out.len()
            invariant
                i <= out.len(),
                out@ == incident(self@.edges, from as int, true),
                forall|k: int| 0 <= k < i ==> !(out@[k].target == to && out@[k].kind == kind),
            decreases out.len() - i,
        {
            if out[i].target == to && out[i].kind == kind {
                proof {
                    lemma_incident_members(self@.edges, from as int, true);
                    assert(out@.contains(out@[i as int]));
                    let e = out@[i as int];
                    assert(self@.edges.contains(e));
                    let j = choose|j: int| 0 <= j < self@.edges.len() && self@.edges[j] == e;
                    assert(self@.edges[j].source == from);
                }
                return true;
            }
            i += 1;
        }
        proof {
            lemma_incident_members(self@.edges, from as int, true);
            if self@.has_edge(from as int, to as int, kind) {
                let j = choose|j: int|
                    0 <= j < self@.edges.len() && (#[trigger] self@.edges[j]).source == from
                        && self@.edges[j].target == to && self@.edges[j].kind == kind;
                let e = self@.edges[j];
                assert(self@.edges.contains(e));
                assert(out@.contains(e));
                let k = choose|k: int| 0 <= k < out@.len() && out@[k] == e;
                assert(false);
            }
        }
        false
    }

    /// Adds an edge of this kind from `from` to `to` unless there is one.
    /// Returns whether the edge was added.
    pub fn insert_edge(&mut self, from: usize, to: usize, kind: ConstraintEdge) -> (added: bool)
        requires
            old(self)@.wf(),
            from < old(self)@.nodes.len(),
            to < old(self)@.nodes.len(),
        ensures
            added == !old(self)@.has_edge(from as int, to as int, kind),
            final(self)@ == old(self)@.with_new_edge(from as int, to as int, kind),
            final(self)@.wf(),
            final(self)@.has_edge(from as int, to as int, kind),
    {
        if self.has_edge(from, to, kind) {
            return false;
        }
        let ghost g = self@;
        arena_add_edge(&mut self.graph, from, to, kind);
        proof {
            assert(self@.nodes =~= g.nodes);
            assert(self@ == g.with_edge(from as int, to as int, kind));
            assert(self@.edges[g.edges.len() as int].source == from);
            lemma_with_new_edge_wf(g, from as int, to as int, kind);
        }
        true
    }
}

impl GraphView {
    /// A copy out of `n` arrives at `t`.
    pub open spec fn is_copy_target(self, n: int, t: int) -> bool {
        exists|x: int| #[trigger]
            self.has_edge(n, x, ConstraintEdge::Copy) && self.copy_arrival(x) == Some(t)
    }

    /// `n` is a second handle on some `x`, and `t` takes the address of `x`.
    pub open spec fn is_alias_copy_target(self, n: int, t: int) -> bool {
        exists|x: int| #[trigger]
            self.has_edge(n, x, ConstraintEdge::AliasCopy) && self.has_edge(
                x,
                t,
                ConstraintEdge::Address,
            )
    }
}

/// An edge that is in the sequence is an edge of the graph with these ends
/// and this kind.
pub proof fn lemma_edge_in_graph(g: GraphView, e: Edge)
    requires
        g.edges.contains(e),
    ensures
        g.has_edge(e.source as int, e.target as int, e.kind),
        g.wf() ==> e.source < g.nodes.len() && e.target < g.nodes.len(),
{
    let j = choose|j: int| 0 <= j < g.edges.len() && g.edges[j] == e;
    assert(g.edges[j].source == e.source);
}

/// An edge of the graph is in the sequence.
pub proof fn lemma_graph_has_edge(g: GraphView, source: int, target: int, kind: ConstraintEdge)
    requires
        g.has_edge(source, target, kind),
    ensures
        0 <= source <= usize::MAX,
        0 <= target <= usize::MAX,
        g.edges.contains(Edge { source: source as usize, target: target as usize, kind }),
        g.wf() ==> source < g.nodes.len() && target < g.nodes.len(),
{
    let j = choose|j: int|
        0 <= j < g.edges.len() && (#[trigger] g.edges[j]).source == source && g.edges[j].target
            == target && g.edges[j].kind == kind;
    assert(g.edges[j] == Edge { source: source as usize, target: target as usize, kind });
}

/// `first_address_target` finds an address edge of the sequence.
pub proof fn lemma_first_address_target(edges: Seq<Edge>)
    ensures
        match first_address_target(edges) {
            Some(t) => exists|k: int|
                0 <= k < edges.len() && (#[trigger] edges[k]).kind == ConstraintEdge::Address
                    && edges[k].target == t,
            None => forall|k: int|
                0 <= k < edges.len() ==> (#[trigger] edges[k]).kind != ConstraintEdge::Address,
        },
    decreases edges.len(),
{
    if edges.len() == 0 {
    } else if edges[0].kind == ConstraintEdge::Address {
    } else {
        let rest = edges.subrange(1, edges.len() as int);
        lemma_first_address_target(rest);
        match first_address_target(rest) {
            Some(t) => {
                let k = choose|k: int|
                    0 <= k < rest.len() && (#[trigger] rest[k]).kind == ConstraintEdge::Address
                        && rest[k].target == t;
                assert(edges[k + 1] == rest[k]);
            },
            None => {
                assert forall|k: int| 0 <= k < edges.len() implies (#[trigger] edges[k]).kind
                    != ConstraintEdge::Address by {
                    if k > 0 {
                        assert(edges[k] == rest[k - 1]);
                    }
                }
            },
        }
    }
}

impl ConstraintGraph {
    /// The sources of the store edges into `lhs`: the nodes that are
    /// assigned to what `lhs` points to.
    pub fn store_sources(&self, lhs: usize) -> (r: Vec<usize>)
        ensures
            forall|s: usize| #[trigger]
                r@.contains(s) <==> self@.has_edge(s as int, lhs as int, ConstraintEdge::Store),
    {
        let edges = self.edges_into(lhs);
        let mut r: Vec<usize> = Vec::new();
        let mut i: usize = 0;
        while i < edges.len()
            invariant
                i <= edges.len(),
                edges@ == incident(self@.edges, lhs as int, false),
                forall|s: usize| #[trigger]
                    r@.contains(s) <==> exists|k: int|
                        0 <= k < i && (#[trigger] edges@[k]).kind == ConstraintEdge::Store
                            && edges@[k].source == s,
            decreases edges.len() - i,
        {
            let ghost before = r@;
            if edges[i].kind == ConstraintEdge::Store {
                r.push(edges[i].source);
                proof {
                    let x = edges@[i as int].source;
                    assert(r@[before.len() as int] == x);
                    assert forall|s: usize| #[trigger]
                        r@.contains(s) <==> exists|k: int|
                            0 <= k < i + 1 && (#[trigger] edges@[k]).kind == ConstraintEdge::Store
                                && edges@[k].source == s by {
                        if r@.contains(s) {
                            let j = choose|j: int| 0 <= j < r@.len() && r@[j] == s;
                            if j < before.len() {
                                assert(before[j] == s);
                                assert(before.contains(s));
                            } else {
                                assert(edges@[i as int].source == s);
                            }
                        }
                        if exists|k: int|
                            0 <= k < i + 1 && (#[trigger] edges@[k]).kind == ConstraintEdge::Store
                                && edges@[k].source == s {
                            let k = choose|k: int|
                                0 <= k < i + 1 && (#[trigger] edges@[k]).kind
                                    == ConstraintEdge::Store && edges@[k].source == s;
                            if k < i {
                                assert(before.contains(s));
                                let j = choose|j: int| 0 <= j < before.len() && before[j] == s;
                                assert(r@[j] == s);
                            }
                        }
                    }
                }
            }
            i += 1;
        }
        proof {
            lemma_incident_members(self@.edges, lhs as int, false);
            assert forall|s: usize| #[trigger]
                r@.contains(s) <==> self@.has_edge(
                    s as int,
                    lhs as int,
                    ConstraintEdge::Store,
                ) by {
                if r@.contains(s) {
                    let k = choose|k: int|
                        0 <= k < i && (#[trigger] edges@[k]).kind == ConstraintEdge::Store
                            && edges@[k].source == s;
                    assert(edges@.contains(edges@[k]));
                    lemma_edge_in_graph(self@, edges@[k]);
                }
                if self@.has_edge(s as int, lhs as int, ConstraintEdge::Store) {
                    lemma_graph_has_edge(self@, s as int, lhs as int, ConstraintEdge::Store);
                    let e = Edge { source: s, target: lhs, kind: ConstraintEdge::Store };
                    assert(edges@.contains(e));
                    let k = choose|k: int| 0 <= k < edges@.len() && edges@[k] == e;
                    assert(edges@[k].kind == ConstraintEdge::Store);
                }
            }
        }
        r
    }

    /// The targets of the edges of this kind out of `rhs`.
    pub fn targets(&self, rhs: usize, kind: ConstraintEdge) -> (r: Vec<usize>)
        ensures
            forall|t: usize| #[trigger]
                r@.contains(t) <==> self@.has_edge(rhs as int, t as int, kind),
    {
        let edges = self.edges_from(rhs);
        let mut r: Vec<usize> = Vec::new();
        let mut i: usize = 0;
        while i < edges.len()
            invariant
                i <= edges.len(),
                edges@ == incident(self@.edges, rhs as int, true),
                forall|t: usize| #[trigger]
                    r@.contains(t) <==> exists|k: int|
                        0 <= k < i && (#[trigger] edges@[k]).kind == kind && edges@[k].target == t,
            decreases edges.len() - i,
        {
            let ghost before = r@;
            if edges[i].kind == kind {
                r.push(edges[i].target);
                proof {
                    let x = edges@[i as int].target;
                    assert(r@[before.len() as int] == x);
                    assert forall|t: usize| #[trigger]
                        r@.contains(t) <==> exists|k: int|
                            0 <= k < i + 1 && (#[trigger] edges@[k]).kind == kind
                                && edges@[k].target == t by {
                        if r@.contains(t) {
                            let j = choose|j: int| 0 <= j < r@.len() && r@[j] == t;
                            if j < before.len() {
                                assert(before[j] == t);
                                assert(before.contains(t));
                            } else {
                                assert(edges@[i as int].target == t);
                            }
                        }
                        if exists|k: int|
                            0 <= k < i + 1 && (#[trigger] edges@[k]).kind == kind
                                && edges@[k].target == t {
                            let k = choose|k: int|
                                0 <= k < i + 1 && (#[trigger] edges@[k]).kind == kind
                                    && edges@[k].target == t;
                            if k < i {
                                assert(before.contains(t));
                                let j = choose|j: int| 0 <= j < before.len() && before[j] == t;
                                assert(r@[j] == t);
                            }
                        }
                    }
                }
            }
            i += 1;
        }
        proof {
            lemma_incident_members(self@.edges, rhs as int, true);
            assert forall|t: usize| #[trigger]
                r@.contains(t) <==> self@.has_edge(rhs as int, t as int, kind) by {
                if r@.contains(t) {
                    let k = choose|k: int|
                        0 <= k < i && (#[trigger] edges@[k]).kind == kind && edges@[k].target
                            == t;
                    assert(edges@.contains(edges@[k]));
                    lemma_edge_in_graph(self@, edges@[k]);
                }
                if self@.has_edge(rhs as int, t as int, kind) {
                    lemma_graph_has_edge(self@, rhs as int, t as int, kind);
                    let e = Edge { source: rhs, target: t, kind };
                    assert(edges@.contains(e));
                    let k = choose|k: int| 0 <= k < edges@.len() && edges@[k] == e;
                    assert(edges@[k].kind == kind);
                }
            }
        }
        r
    }

    /// The targets of the load edges out of `rhs`: the nodes that are
    /// assigned what `rhs` points to.
    pub fn load_targets(&self, rhs: usize) -> (r: Vec<usize>)
        ensures
            forall|t: usize| #[trigger]
                r@.contains(t) <==> self@.has_edge(rhs as int, t as int, ConstraintEdge::Load),
    {
        self.targets(rhs, ConstraintEdge::Load)
    }

    /// Where a copy into the node `t` arrives.
    pub fn copy_arrival(&self, t: usize) -> (r: Option<usize>)
        requires
            t < self@.nodes.len(),
        ensures
            match r {
                Some(a) => self@.copy_arrival(t as int) == Some(a as int),
                None => self@.copy_arrival(t as int).is_none(),
            },
    {
        match self.node(t) {
            ConstraintNode::Alloc(_) => {
                let out = self.edges_from(t);
                let mut i: usize = 0;
                assert(out@.subrange(0, out@.len() as int) =~= out@);
                while i < out.len()
                    invariant
                        i <= out.len(),
                        self@.is_alloc(t as int),
                        out@ == incident(self@.edges, t as int, true),
                        first_address_target(out@) == first_address_target(
                            out@.subrange(i as int, out@.len() as int),
                        ),
                    decreases out.len() - i,
                {
                    let ghost rest = out@.subrange(i as int, out@.len() as int);
                    assert(rest[0] == out@[i as int]);
                    if out[i].kind == ConstraintEdge::Address {
                        return Some(out[i].target);
                    }
                    assert(rest.subrange(1, rest.len() as int) =~= out@.subrange(
                        i + 1,
                        out@.len() as int,
                    ));
                    i += 1;
                }
                assert(out@.subrange(i as int, out@.len() as int).len() == 0);
                None
            },
            _ => Some(t),
        }
    }

    /// The nodes at which the copies out of `rhs` arrive.
    pub fn copy_targets(&self, rhs: usize) -> (r: Vec<usize>)
        requires
            self@.wf(),
        ensures
            forall|t: usize| #[trigger] r@.contains(t) <==> self@.is_copy_target(rhs as int, t as int),
    {
        let direct = self.targets(rhs, ConstraintEdge::Copy);
        let mut r: Vec<usize> = Vec::new();
        let mut i: usize = 0;
        while i < direct.len()
            invariant
                i <= direct.len(),
                self@.wf(),
                forall|t: usize| #[trigger]
                    direct@.contains(t) <==> self@.has_edge(
                        rhs as int,
                        t as int,
                        ConstraintEdge::Copy,
                    ),
                forall|t: usize| #[trigger]
                    r@.contains(t) <==> exists|k: int|
                        0 <= k < i && self@.copy_arrival(#[trigger] direct@[k] as int) == Some(
                            t as int,
                        ),
            decreases direct.len() - i,
        {
            let ghost before = r@;
            let x = direct[i];
            proof {
                assert(direct@.contains(x));
                lemma_graph_has_edge(self@, rhs as int, x as int, ConstraintEdge::Copy);
            }
            let arrival = self.copy_arrival(x);
            match arrival {
                Some(a) => {
                    r.push(a);
                    proof {
                        assert(r@[before.len() as int] == a);
                        assert forall|t: usize| #[trigger]
                            r@.contains(t) <==> exists|k: int|
                                0 <= k < i + 1 && self@.copy_arrival(
                                    #[trigger] direct@[k] as int,
                                ) == Some(t as int) by {
                            if r@.contains(t) {
                                let j = choose|j: int| 0 <= j < r@.len() && r@[j] == t;
                                if j < before.len() {
                                    assert(before[j] == t);
                                    assert(before.contains(t));
                                } else {
                                    assert(self@.copy_arrival(direct@[i as int] as int) == Some(
                                        t as int,
                                    ));
                                }
                            }
                            if exists|k: int|
                                0 <= k < i + 1 && self@.copy_arrival(
                                    #[trigger] direct@[k] as int,
                                ) == Some(t as int) {
                                let k = choose|k: int|
                                    0 <= k < i + 1 && self@.copy_arrival(
                                        #[trigger] direct@[k] as int,
                                    ) == Some(t as int);
                                if k < i {
                                    assert(before.contains(t));
                                    let j = choose|j: int| 0 <= j < before.len() && before[j] == t;
                                    assert(r@[j] == t);
                                }
                            }
                        }
                    }
                },
                None => {},
            }
            i += 1;
        }
        proof {
            assert forall|t: usize| #[trigger]
                r@.contains(t) <==> self@.is_copy_target(rhs as int, t as int) by {
                if r@.contains(t) {
                    let k = choose|k: int|
                        0 <= k < i && self@.copy_arrival(#[trigger] direct@[k] as int) == Some(
                            t as int,
                        );
                    assert(direct@.contains(direct@[k]));
                    assert(self@.has_edge(rhs as int, direct@[k] as int, ConstraintEdge::Copy));
                }
                if self@.is_copy_target(rhs as int, t as int) {
                    let x = choose|x: int| #[trigger]
                        self@.has_edge(rhs as int, x, ConstraintEdge::Copy) && self@.copy_arrival(
                            x,
                        ) == Some(t as int);
                    lemma_graph_has_edge(self@, rhs as int, x, ConstraintEdge::Copy);
                    assert(direct@.contains(x as usize));
                    let k = choose|k: int| 0 <= k < direct@.len() && direct@[k] == x as usize;
                    assert(self@.copy_arrival(direct@[k] as int) == Some(t as int));
                }
            }
        }
        r
    }

    /// The nodes that take the address of something that `rhs` is a second
    /// handle on.
    pub fn alias_copy_targets(&self, rhs: usize) -> (r: Vec<usize>)
        ensures
            forall|t: usize| #[trigger]
                r@.contains(t) <==> self@.is_alias_copy_target(rhs as int, t as int),
    {
        let aliases = self.targets(rhs, ConstraintEdge::AliasCopy);
        let mut r: Vec<usize> = Vec::new();
        let mut i: usize = 0;
        while i < aliases.len()
            invariant
                i <= aliases.len(),
                forall|t: usize| #[trigger]
                    aliases@.contains(t) <==> self@.has_edge(
                        rhs as int,
                        t as int,
                        ConstraintEdge::AliasCopy,
                    ),
                forall|t: usize| #[trigger]
                    r@.contains(t) <==> exists|k: int|
                        0 <= k < i && self@.has_edge(
                            #[trigger] aliases@[k] as int,
                            t as int,
                            ConstraintEdge::Address,
                        ),
            decreases aliases.len() - i,
        {
            let ghost before = r@;
            let x = aliases[i];
            let mut found = self.targets(x, ConstraintEdge::Address);
            let ghost found_seq = found@;
            r.append(&mut found);
            proof {
                assert(r@ == before + found_seq);
                assert forall|t: usize| #[trigger]
                    r@.contains(t) <==> exists|k: int|
                        0 <= k < i + 1 && self@.has_edge(
                            #[trigger] aliases@[k] as int,
                            t as int,
                            ConstraintEdge::Address,
                        ) by {
                    if r@.contains(t) {
                        let j = choose|j: int| 0 <= j < r@.len() && r@[j] == t;
                        if j < before.len() {
                            assert(before[j] == t);
                            assert(before.contains(t));
                        } else {
                            assert(found_seq[j - before.len()] == t);
                            assert(found_seq.contains(t));
                            assert(self@.has_edge(
                                aliases@[i as int] as int,
                                t as int,
                                ConstraintEdge::Address,
                            ));
                        }
                    }
                    if exists|k: int|
                        0 <= k < i + 1 && self@.has_edge(
                            #[trigger] aliases@[k] as int,
                            t as int,
                            ConstraintEdge::Address,
                        ) {
                        let k = choose|k: int|
                            0 <= k < i + 1 && self@.has_edge(
                                #[trigger] aliases@[k] as int,
                                t as int,
                                ConstraintEdge::Address,
                            );
                        if k < i {
                            assert(before.contains(t));
                            let j = choose|j: int| 0 <= j < before.len() && before[j] == t;
                            assert(r@[j] == t);
                        } else {
                            assert(found_seq.contains(t));
                            let j = choose|j: int| 0 <= j < found_seq.len() && found_seq[j] == t;
                            assert(r@[before.len() + j] == t);
                        }
                    }
                }
            }
            i += 1;
        }
        proof {
            assert forall|t: usize| #[trigger]
                r@.contains(t) <==> self@.is_alias_copy_target(rhs as int, t as int) by {
                if r@.contains(t) {
                    let k = choose|k: int|
                        0 <= k < i && self@.has_edge(
                            #[trigger] aliases@[k] as int,
                            t as int,
                            ConstraintEdge::Address,
                        );
                    assert(aliases@.contains(aliases@[k]));
                    assert(self@.has_edge(
                        rhs as int,
                        aliases@[k] as int,
                        ConstraintEdge::AliasCopy,
                    ));
                }
                if self@.is_alias_copy_target(rhs as int, t as int) {
                    let x = choose|x: int| #[trigger]
                        self@.has_edge(rhs as int, x, ConstraintEdge::AliasCopy) && self@.has_edge(
                            x,
                            t as int,
                            ConstraintEdge::Address,
                        );
                    lemma_graph_has_edge(self@, rhs as int, x, ConstraintEdge::AliasCopy);
                    assert(aliases@.contains(x as usize));
                    let k = choose|k: int| 0 <= k < aliases@.len() && aliases@[k] == x as usize;
                    assert(self@.has_edge(aliases@[k] as int, t as int, ConstraintEdge::Address));
                }
            }
        }
        r
    }
}

impl ConstraintGraph {
    /// `lhs = &rhs`: `lhs` points to `rhs`.
    pub fn add_address(&mut self, lhs: &Place, rhs: &Place)
        requires
            old(self)@.wf(),
        ensures
            final(self)@ == old(self)@.with_constraint(
                NodeView::Place(lhs@),
                NodeView::Place(rhs@),
                ConstraintEdge::Address,
            ),
            final(self)@.wf(),
    {
        self.add_constraint(
            ConstraintNode::Place(lhs.clone()),
            ConstraintNode::Place(rhs.clone()),
            ConstraintEdge::Address,
        );
    }

    /// `lhs = rhs`: `lhs` points to whatever `rhs` points to.
    pub fn add_copy(&mut self, lhs: &Place, rhs: &Place)
        requires
            old(self)@.wf(),
        ensures
            final(self)@ == old(self)@.with_constraint(
                NodeView::Place(lhs@),
                NodeView::Place(rhs@),
                ConstraintEdge::Copy,
            ),
            final(self)@.wf(),
    {
        self.add_constraint(
            ConstraintNode::Place(lhs.clone()),
            ConstraintNode::Place(rhs.clone()),
            ConstraintEdge::Copy,
        );
    }

    /// `lhs` holds what a call that is not analysed returned, and `rhs` was
    /// the first place handed to that call.
    pub fn add_func_ret(&mut self, lhs: &Place, rhs: &Place)
        requires
            old(self)@.wf(),
        ensures
            final(self)@ == old(self)@.with_constraint(
                NodeView::Place(lhs@),
                NodeView::FunctionRet(rhs@),
                ConstraintEdge::Address,
            ),
            final(self)@.wf(),
    {
        self.add_constraint(
            ConstraintNode::Place(lhs.clone()),
            ConstraintNode::FunctionRet(rhs.clone()),
            ConstraintEdge::Address,
        );
    }

    /// `lhs` went into a conversion between a raw pointer and a smart
    /// pointer, and `rhs` holds what came out.
    pub fn add_smart_pointer(&mut self, lhs: &Place, rhs: &Place)
        requires
            old(self)@.wf(),
        ensures
            final(self)@ == old(self)@.with_constraint(
                NodeView::Place(lhs@),
                NodeView::SmartPointer(rhs@),
                ConstraintEdge::Address,
            ),
            final(self)@.wf(),
    {
        self.add_constraint(
            ConstraintNode::Place(lhs.clone()),
            ConstraintNode::SmartPointer(rhs.clone()),
            ConstraintEdge::Address,
        );
    }

    /// `lhs` was handed to a call that is not analysed, whose result went
    /// to `rhs`.
    pub fn add_parameter_into(&mut self, lhs: &Place, rhs: &Place)
        requires
            old(self)@.wf(),
        ensures
            final(self)@ == old(self)@.with_constraint(
                NodeView::Place(lhs@),
                NodeView::ParameterInto(rhs@),
                ConstraintEdge::Address,
            ),
            final(self)@.wf(),
    {
        self.add_constraint(
            ConstraintNode::Place(lhs.clone()),
            ConstraintNode::ParameterInto(rhs.clone()),
            ConstraintEdge::Address,
        );
    }

    /// `lhs` is an aggregate built from `rhs` as its first field: `lhs`
    /// points to the allocation that building it implies.
    pub fn add_initialize_copy(&mut self, lhs: &Place, rhs: &Place)
        requires
            old(self)@.wf(),
        ensures
            final(self)@ == old(self)@.with_constraint(
                NodeView::Place(lhs@),
                NodeView::Construct(rhs@),
                ConstraintEdge::Address,
            ),
            final(self)@.wf(),
    {
        self.add_constraint(
            ConstraintNode::Place(lhs.clone()),
            ConstraintNode::Construct(rhs.clone()),
            ConstraintEdge::Address,
        );
    }

    /// `lhs = rhs` for a literal `rhs`.
    pub fn add_copy_constant(&mut self, lhs: &Place, rhs: &Constant)
        requires
            old(self)@.wf(),
        ensures
            final(self)@ == old(self)@.with_constraint(
                NodeView::Place(lhs@),
                NodeView::Constant(rhs@),
                ConstraintEdge::Copy,
            ),
            final(self)@.wf(),
    {
        self.add_constraint(
            ConstraintNode::Place(lhs.clone()),
            ConstraintNode::Constant(rhs.clone()),
            ConstraintEdge::Copy,
        );
    }

    /// `lhs = *rhs`: `lhs` points to whatever the pointees of `rhs` point
    /// to.
    pub fn add_load(&mut self, lhs: &Place, rhs: &Place)
        requires
            old(self)@.wf(),
        ensures
            final(self)@ == old(self)@.with_constraint(
                NodeView::Place(lhs@),
                NodeView::Place(rhs@),
                ConstraintEdge::Load,
            ),
            final(self)@.wf(),
    {
        self.add_constraint(
            ConstraintNode::Place(lhs.clone()),
            ConstraintNode::Place(rhs.clone()),
            ConstraintEdge::Load,
        );
    }

    /// `*lhs = rhs`: the pointees of `lhs` point to whatever `rhs` points
    /// to.
    pub fn add_store(&mut self, lhs: &Place, rhs: &Place)
        requires
            old(self)@.wf(),
        ensures
            final(self)@ == old(self)@.with_constraint(
                NodeView::Place(lhs@),
                NodeView::Place(rhs@),
                ConstraintEdge::Store,
            ),
            final(self)@.wf(),
    {
        self.add_constraint(
            ConstraintNode::Place(lhs.clone()),
            ConstraintNode::Place(rhs.clone()),
            ConstraintEdge::Store,
        );
    }

    /// `*lhs` is an aggregate built from `rhs` as its first field.
    pub fn add_initialize_store(&mut self, lhs: &Place, rhs: &Place)
        requires
            old(self)@.wf(),
        ensures
            final(self)@ == old(self)@.with_constraint(
                NodeView::Place(lhs@),
                NodeView::Construct(rhs@),
                ConstraintEdge::Address,
            ),
            final(self)@.wf(),
    {
        self.add_constraint(
            ConstraintNode::Place(lhs.clone()),
            ConstraintNode::Construct(rhs.clone()),
            ConstraintEdge::Address,
        );
    }

    /// `*lhs = rhs` for a literal `rhs`.
    pub fn add_store_constant(&mut self, lhs: &Place, rhs: &Constant)
        requires
            old(self)@.wf(),
        ensures
            final(self)@ == old(self)@.with_constraint(
                NodeView::Place(lhs@),
                NodeView::Constant(rhs@),
                ConstraintEdge::Store,
            ),
            final(self)@.wf(),
    {
        self.add_constraint(
            ConstraintNode::Place(lhs.clone()),
            ConstraintNode::Constant(rhs.clone()),
            ConstraintEdge::Store,
        );
    }

    /// `lhs` is a second handle on what `rhs` is a handle on.
    pub fn add_alias_copy(&mut self, lhs: &Place, rhs: &Place)
        requires
            old(self)@.wf(),
        ensures
            final(self)@ == old(self)@.with_constraint(
                NodeView::Place(lhs@),
                NodeView::Place(rhs@),
                ConstraintEdge::AliasCopy,
            ),
            final(self)@.wf(),
    {
        self.add_constraint(
            ConstraintNode::Place(lhs.clone()),
            ConstraintNode::Place(rhs.clone()),
            ConstraintEdge::AliasCopy,
        );
    }

    /// Gives the place its storage: the node `Alloc(place)` and an address
    /// edge from it to `Place(place)`.
    pub fn add_alloc(&mut self, place: &Place)
        requires
            old(self)@.wf(),
        ensures
            final(self)@ == old(self)@.with_constraint(
                NodeView::Place(place@),
                NodeView::Alloc(place@),
                ConstraintEdge::Address,
            ),
            final(self)@.wf(),
    {
        self.add_constraint(
            ConstraintNode::Place(place.clone()),
            ConstraintNode::Alloc(place.clone()),
            ConstraintEdge::Address,
        );
    }

    /// Gives the literal what it points to: the node
    /// `ConstantDeref(constant)`, an address edge from it to
    /// `Constant(constant)`, and an address edge from it to itself, so that
    /// dereferencing the literal any number of times ends at that one node.
    pub fn add_constant(&mut self, constant: &Constant)
        requires
            old(self)@.wf(),
        ensures
            final(self)@ == old(self)@.with_constraint(
                NodeView::Constant(constant@),
                NodeView::ConstantDeref(constant@),
                ConstraintEdge::Address,
            ).with_constraint(
                NodeView::ConstantDeref(constant@),
                NodeView::ConstantDeref(constant@),
                ConstraintEdge::Address,
            ),
            final(self)@.wf(),
    {
        self.add_constraint(
            ConstraintNode::Constant(constant.clone()),
            ConstraintNode::ConstantDeref(constant.clone()),
            ConstraintEdge::Address,
        );
        self.add_constraint(
            ConstraintNode::ConstantDeref(constant.clone()),
            ConstraintNode::ConstantDeref(constant.clone()),
            ConstraintEdge::Address,
        );
    }

    /// The nodes of the graph, by number.
    pub fn nodes(&self) -> (r: Vec<ConstraintNode>)
        ensures
            r@.len() == self@.nodes.len(),
            forall|i: int| 0 <= i < r@.len() ==> (#[trigger] r@[i])@ == self@.nodes[i],
    {
        let n = self.node_count();
        let mut r: Vec<ConstraintNode> = Vec::new();
        let mut i: usize = 0;
        while i < n
            invariant
                i <= n,
                n == self@.nodes.len(),
                r@.len() == i,
                forall|k: int| 0 <= k < i ==> (#[trigger] r@[k])@ == self@.nodes[k],
            decreases n - i,
        {
            r.push(self.node(i).clone());
            i += 1;
        }
        r
    }
}

} // verus!

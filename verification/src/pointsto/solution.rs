//! What the points-to analysis computes: the least points-to sets, and the
//! least set of copy edges, that are closed under the propagation rules.

use crate::pointsto::graph::{first_address_target, incident, GraphView};
use crate::pointsto::node::{ConstraintEdge, Edge};
use vstd::prelude::*;

verus! {

/// Points-to sets by node number: `sets[n]` holds the numbers of the nodes
/// that the node `n` may point to.
pub type Pointees = Seq<Set<int>>;

/// There is a set for every node of `g`, and the sets hold nodes of `g`.
pub open spec fn sets_fit(g: GraphView, p: Pointees) -> bool {
    &&& p.len() == g.nodes.len()
    &&& forall|n: int, o: int|
        0 <= n < p.len() && (#[trigger] p[n].contains(o)) ==> 0 <= o < g.nodes.len()
}

/// Every set of `p` is within the set of `q` for the same node.
pub open spec fn sets_within(p: Pointees, q: Pointees) -> bool {
    &&& p.len() == q.len()
    &&& forall|n: int, o: int| 0 <= n < p.len() && (#[trigger] p[n].contains(o)) ==> q[n].contains(o)
}

/// The target of every address edge points to the source of the edge.
pub open spec fn address_closed(g: GraphView, p: Pointees) -> bool {
    forall|s: int, t: int| #[trigger]
        g.has_edge(s, t, ConstraintEdge::Address) ==> 0 <= t < p.len() && p[t].contains(s)
}

/// For every pointee `o` of `n` and every store edge from `s` into `n`
/// there is a copy edge from `s` to `o`.
pub open spec fn store_closed_at(g: GraphView, p: Pointees, n: int) -> bool {
    forall|o: int, s: int|
        (#[trigger] p[n].contains(o)) && (#[trigger] g.has_edge(s, n, ConstraintEdge::Store))
            ==> g.has_edge(s, o, ConstraintEdge::Copy)
}

/// For every pointee `o` of `n` and every load edge from `n` to `t` there is
/// a copy edge from `o` to `t`.
pub open spec fn load_closed_at(g: GraphView, p: Pointees, n: int) -> bool {
    forall|o: int, t: int|
        (#[trigger] p[n].contains(o)) && (#[trigger] g.has_edge(n, t, ConstraintEdge::Load))
            ==> g.has_edge(o, t, ConstraintEdge::Copy)
}

/// Where `n` points to anything, there is a copy edge from `n` to every
/// node that takes the address of something `n` is a second handle on.
pub open spec fn alias_closed_at(g: GraphView, p: Pointees, n: int) -> bool {
    forall|t: int| #[trigger]
        g.is_alias_copy_target(n, t) && p[n] != Set::<int>::empty() ==> g.has_edge(
            n,
            t,
            ConstraintEdge::Copy,
        )
}

/// Every node at which a copy out of `n` arrives, and which is not the
/// storage behind a place, points to whatever `n` points to.
pub open spec fn copy_closed_at(g: GraphView, p: Pointees, n: int) -> bool {
    forall|t: int| #[trigger]
        g.is_copy_target(n, t) && !g.is_alloc(t) ==> 0 <= t < p.len() && p[n].subset_of(p[t])
}

/// All rules that start from the node `n` are satisfied.
pub open spec fn settled(g: GraphView, p: Pointees, n: int) -> bool {
    &&& store_closed_at(g, p, n)
    &&& load_closed_at(g, p, n)
    &&& alias_closed_at(g, p, n)
    &&& copy_closed_at(g, p, n)
}

/// The graph and the sets are closed under the propagation rules: no rule
/// asks for a copy edge that is missing or for a pointee that is missing.
pub open spec fn closed(g: GraphView, p: Pointees) -> bool {
    &&& sets_fit(g, p)
    &&& address_closed(g, p)
    &&& forall|n: int| 0 <= n < g.nodes.len() ==> #[trigger] settled(g, p, n)
}

/// `g` is `start` with nothing but copy edges added behind its edges.
pub open spec fn copy_extension(start: GraphView, g: GraphView) -> bool {
    &&& g.nodes == start.nodes
    &&& start.edges.len() <= g.edges.len()
    &&& g.edges.subrange(0, start.edges.len() as int) == start.edges
    &&& forall|k: int|
        start.edges.len() <= k < g.edges.len() ==> (#[trigger] g.edges[k]).kind
            == ConstraintEdge::Copy
}

/// `g` and `p` solve the constraints of `start`: `g` adds copy edges only,
/// and together with `p` it is closed.
pub open spec fn solves(start: GraphView, g: GraphView, p: Pointees) -> bool {
    &&& g.wf()
    &&& copy_extension(start, g)
    &&& closed(g, p)
}

/// Every copy edge of `g` is in `h`, and every set of `p` is within the
/// set of `q`.
pub open spec fn within(g: GraphView, p: Pointees, h: GraphView, q: Pointees) -> bool {
    &&& forall|s: int, t: int| #[trigger]
        g.has_edge(s, t, ConstraintEdge::Copy) ==> h.has_edge(s, t, ConstraintEdge::Copy)
    &&& sets_within(p, q)
}

/// `g` and `p` are within every solution of `start`.
pub open spec fn below_all_solutions(start: GraphView, g: GraphView, p: Pointees) -> bool {
    forall|h: GraphView, q: Pointees| #[trigger] solves(start, h, q) ==> within(g, p, h, q)
}

/// `g` and `p` are the least solution of the constraints of `start`.
pub open spec fn is_least_solution(start: GraphView, g: GraphView, p: Pointees) -> bool {
    solves(start, g, p) && below_all_solutions(start, g, p)
}

/// What an added edge changes of the edges of a graph.
pub proof fn lemma_with_edge(g: GraphView, a: int, b: int, kind: ConstraintEdge)
    requires
        0 <= a <= usize::MAX,
        0 <= b <= usize::MAX,
    ensures
        forall|s: int, t: int, k: ConstraintEdge| #[trigger]
            g.with_edge(a, b, kind).has_edge(s, t, k) <==> g.has_edge(s, t, k) || (s == a && t == b
                && k == kind),
{
    let h = g.with_edge(a, b, kind);
    assert forall|s: int, t: int, k: ConstraintEdge| #[trigger]
        h.has_edge(s, t, k) <==> g.has_edge(s, t, k) || (s == a && t == b && k == kind) by {
        if h.has_edge(s, t, k) {
            let i = choose|i: int|
                0 <= i < h.edges.len() && (#[trigger] h.edges[i]).source == s && h.edges[i].target
                    == t && h.edges[i].kind == k;
            if i < g.edges.len() {
                assert(g.edges[i] == h.edges[i]);
            }
        }
        if g.has_edge(s, t, k) {
            let i = choose|i: int|
                0 <= i < g.edges.len() && (#[trigger] g.edges[i]).source == s && g.edges[i].target
                    == t && g.edges[i].kind == k;
            assert(h.edges[i] == g.edges[i]);
        }
        if s == a && t == b && k == kind {
            assert(h.edges[g.edges.len() as int].source == s);
        }
    }
}

/// The edges at a node that are not copy edges, in their order.
pub open spec fn without_copies(edges: Seq<Edge>) -> Seq<Edge> {
    edges.filter(|e: Edge| e.kind != ConstraintEdge::Copy)
}

/// Copy edges do not matter to `first_address_target`.
pub proof fn lemma_first_address_ignores_copies(edges: Seq<Edge>)
    ensures
        first_address_target(edges) == first_address_target(without_copies(edges)),
    decreases edges.len(),
{
    let pred = |e: Edge| e.kind != ConstraintEdge::Copy;
    if edges.len() == 0 {
        assert(edges.filter(pred) =~= edges);
    } else {
        let rest = edges.subrange(1, edges.len() as int);
        lemma_first_address_ignores_copies(rest);
        assert(edges =~= seq![edges[0]] + rest);
        Seq::filter_distributes_over_add(seq![edges[0]], rest, pred);
        reveal_with_fuel(Seq::filter, 2);
        assert(seq![edges[0]].drop_last() =~= Seq::<Edge>::empty());
        if pred(edges[0]) {
            assert(seq![edges[0]].filter(pred) =~= seq![edges[0]]);
            let f = seq![edges[0]] + rest.filter(pred);
            assert(f.subrange(1, f.len() as int) =~= rest.filter(pred));
            assert(f[0] == edges[0]);
        } else {
            assert(seq![edges[0]].filter(pred) =~= Seq::<Edge>::empty());
            assert(Seq::<Edge>::empty() + rest.filter(pred) =~= rest.filter(pred));
        }
    }
}

/// The edges at a node other than copy edges are those of the start graph,
/// whatever copy edges were added.
pub proof fn lemma_incident_without_copies(start: GraphView, g: GraphView, a: int, outgoing: bool)
    requires
        copy_extension(start, g),
    ensures
        without_copies(incident(g.edges, a, outgoing)) == without_copies(
            incident(start.edges, a, outgoing),
        ),
    decreases g.edges.len(),
{
    let pred = |e: Edge| e.kind != ConstraintEdge::Copy;
    if g.edges.len() == start.edges.len() {
        assert(g.edges =~= start.edges);
    } else {
        let last = g.edges.last();
        let front = GraphView { nodes: g.nodes, edges: g.edges.drop_last() };
        assert(front.edges.subrange(0, start.edges.len() as int) =~= g.edges.subrange(
            0,
            start.edges.len() as int,
        ));
        assert forall|k: int| start.edges.len() <= k < front.edges.len() implies (
        #[trigger] front.edges[k]).kind == ConstraintEdge::Copy by {
            assert(front.edges[k] == g.edges[k]);
        }
        lemma_incident_without_copies(start, front, a, outgoing);
        assert(last == g.edges[g.edges.len() - 1]);
        assert(last.kind == ConstraintEdge::Copy);
        let rest = incident(front.edges, a, outgoing);
        let end = if outgoing {
            last.source
        } else {
            last.target
        };
        if end == a {
            Seq::filter_distributes_over_add(seq![last], rest, pred);
            reveal_with_fuel(Seq::filter, 2);
            assert(seq![last].drop_last() =~= Seq::<Edge>::empty());
            assert(seq![last].filter(pred) =~= Seq::<Edge>::empty());
            assert(Seq::<Edge>::empty() + rest.filter(pred) =~= rest.filter(pred));
        }
    }
}

/// Where a copy arrives does not depend on the copy edges that were added.
pub proof fn lemma_copy_arrival_stable(start: GraphView, g: GraphView, t: int)
    requires
        copy_extension(start, g),
    ensures
        g.copy_arrival(t) == start.copy_arrival(t),
        g.is_alloc(t) == start.is_alloc(t),
{
    lemma_incident_without_copies(start, g, t, true);
    lemma_first_address_ignores_copies(incident(g.edges, t, true));
    lemma_first_address_ignores_copies(incident(start.edges, t, true));
}

/// The edges other than copy edges are those of the start graph.
pub proof fn lemma_static_edges(start: GraphView, g: GraphView)
    requires
        copy_extension(start, g),
    ensures
        forall|s: int, t: int, k: ConstraintEdge|
            k != ConstraintEdge::Copy ==> (#[trigger] g.has_edge(s, t, k) <==> start.has_edge(
                s,
                t,
                k,
            )),
        forall|s: int, t: int| #[trigger]
            start.has_edge(s, t, ConstraintEdge::Copy) ==> g.has_edge(s, t, ConstraintEdge::Copy),
        forall|n: int, t: int| #[trigger]
            g.is_alias_copy_target(n, t) <==> start.is_alias_copy_target(n, t),
{
    assert forall|s: int, t: int, k: ConstraintEdge| k != ConstraintEdge::Copy implies (
    #[trigger] g.has_edge(s, t, k) <==> start.has_edge(s, t, k)) by {
        if g.has_edge(s, t, k) {
            let i = choose|i: int|
                0 <= i < g.edges.len() && (#[trigger] g.edges[i]).source == s && g.edges[i].target
                    == t && g.edges[i].kind == k;
            assert(i < start.edges.len());
            assert(start.edges[i] == g.edges.subrange(0, start.edges.len() as int)[i]);
        }
        if start.has_edge(s, t, k) {
            let i = choose|i: int|
                0 <= i < start.edges.len() && (#[trigger] start.edges[i]).source == s
                    && start.edges[i].target == t && start.edges[i].kind == k;
            assert(start.edges[i] == g.edges.subrange(0, start.edges.len() as int)[i]);
            assert(g.edges[i].source == s);
        }
    }
    assert forall|s: int, t: int| #[trigger]
        start.has_edge(s, t, ConstraintEdge::Copy) implies g.has_edge(
        s,
        t,
        ConstraintEdge::Copy,
    ) by {
        let i = choose|i: int|
            0 <= i < start.edges.len() && (#[trigger] start.edges[i]).source == s
                && start.edges[i].target == t && start.edges[i].kind == ConstraintEdge::Copy;
        assert(start.edges[i] == g.edges.subrange(0, start.edges.len() as int)[i]);
        assert(g.edges[i].source == s);
    }
    assert forall|n: int, t: int| #[trigger]
        g.is_alias_copy_target(n, t) <==> start.is_alias_copy_target(n, t) by {
        if g.is_alias_copy_target(n, t) {
            let x = choose|x: int| #[trigger]
                g.has_edge(n, x, ConstraintEdge::AliasCopy) && g.has_edge(
                    x,
                    t,
                    ConstraintEdge::Address,
                );
            assert(start.has_edge(n, x, ConstraintEdge::AliasCopy));
            assert(start.has_edge(x, t, ConstraintEdge::Address));
        }
        if start.is_alias_copy_target(n, t) {
            let x = choose|x: int| #[trigger]
                start.has_edge(n, x, ConstraintEdge::AliasCopy) && start.has_edge(
                    x,
                    t,
                    ConstraintEdge::Address,
                );
            assert(g.has_edge(n, x, ConstraintEdge::AliasCopy));
            assert(g.has_edge(x, t, ConstraintEdge::Address));
        }
    }
}

/// A copy edge added behind a copy extension gives a copy extension.
pub proof fn lemma_extension_step(start: GraphView, g: GraphView, a: int, b: int)
    requires
        copy_extension(start, g),
    ensures
        copy_extension(start, g.with_edge(a, b, ConstraintEdge::Copy)),
{
    let h = g.with_edge(a, b, ConstraintEdge::Copy);
    assert(h.edges.subrange(0, start.edges.len() as int) =~= g.edges.subrange(
        0,
        start.edges.len() as int,
    ));
}

} // verus!

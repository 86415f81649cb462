//! The propagation of points-to sets along the constraint graph until
//! nothing changes.

use crate::ir::Body;
use crate::pointsto::bits::{
    lemma_matrix_replace_row, lemma_row_monotone, lemma_row_set, lemma_row_strictly_monotone,
    row_below, unset_in_matrix,
};
use crate::pointsto::collector::{
    body_constraints, with_partial_copies, ConstraintGraphCollector,
};
use crate::pointsto::graph::{
    lemma_graph_has_edge, lemma_index_unique, lemma_with_new_edge_wf, lemma_with_node_wf,
    ConstraintGraph, GraphView,
};
use crate::pointsto::node::{ConstraintEdge, ConstraintNode, NodeView};
use crate::pointsto::solution::{
    address_closed, alias_closed_at, below_all_solutions, closed, copy_closed_at, copy_extension,
    is_least_solution, lemma_copy_arrival_stable, lemma_extension_step, lemma_static_edges,
    lemma_with_edge, load_closed_at, sets_fit, sets_within, settled, solves, store_closed_at,
    within, Pointees,
};
use std::collections::VecDeque;
use vstd::prelude::*;

verus! {

/// The flags of `rows` as sets: set `n` holds `o` where flag `o` of row `n`
/// is set.
pub open spec fn sets_of(rows: Seq<Vec<bool>>) -> Pointees {
    Seq::new(rows.len(), |n: int| Set::new(|o: int| 0 <= o < rows[n]@.len() && rows[n]@[o]))
}

/// The flags of `rows` as a matrix.
pub open spec fn matrix_of(rows: Seq<Vec<bool>>) -> Seq<Seq<bool>> {
    Seq::new(rows.len(), |n: int| rows[n]@)
}

/// `rows` has `n` rows of `n` flags each.
pub open spec fn is_square(rows: Seq<Vec<bool>>, n: nat) -> bool {
    rows.len() == n && forall|i: int| 0 <= i < n ==> (#[trigger] rows[i])@.len() == n
}

/// The copy edges of `g` as a matrix of flags.
pub open spec fn copy_matrix(g: GraphView) -> Seq<Seq<bool>> {
    Seq::new(
        g.nodes.len(),
        |s: int| Seq::new(g.nodes.len(), |t: int| g.has_edge(s, t, ConstraintEdge::Copy)),
    )
}

/// How much is left to derive: the pointees that are not in a set, and the
/// copy edges that are not in the graph.
pub open spec fn remaining(g: GraphView, rows: Seq<Vec<bool>>) -> nat {
    unset_in_matrix(matrix_of(rows)) + unset_in_matrix(copy_matrix(g))
}

/// A node that points to nothing asks for nothing.
pub proof fn lemma_empty_settled(g: GraphView, p: Pointees, n: int)
    requires
        g.wf(),
        sets_fit(g, p),
        0 <= n < p.len(),
        p[n] == Set::<int>::empty(),
    ensures
        settled(g, p, n),
{
    assert forall|t: int| #[trigger] g.is_copy_target(n, t) && !g.is_alloc(t) implies 0 <= t
        < p.len() && p[n].subset_of(p[t]) by {
        lemma_copy_target_in_graph(g, n, t);
    }
}

/// Copies arrive at nodes of the graph.
pub proof fn lemma_copy_target_in_graph(g: GraphView, n: int, t: int)
    requires
        g.wf(),
        g.is_copy_target(n, t),
    ensures
        0 <= t < g.nodes.len(),
{
    let x = choose|x: int| #[trigger]
        g.has_edge(n, x, ConstraintEdge::Copy) && g.copy_arrival(x) == Some(t);
    lemma_graph_has_edge(g, n, x, ConstraintEdge::Copy);
    if g.is_alloc(x) {
        let out = crate::pointsto::graph::incident(g.edges, x, true);
        crate::pointsto::graph::lemma_first_address_target(out);
        crate::pointsto::graph::lemma_incident_members(g.edges, x, true);
        let k = choose|k: int|
            0 <= k < out.len() && (#[trigger] out[k]).kind == ConstraintEdge::Address
                && out[k].target == t;
        assert(out.contains(out[k]));
        crate::pointsto::graph::lemma_edge_in_graph(g, out[k]);
    }
}

/// A copy edge out of `a` leaves the other nodes settled.
pub proof fn lemma_settled_after_copy_edge(
    start: GraphView,
    g: GraphView,
    p: Pointees,
    a: int,
    b: int,
    m: int,
)
    requires
        copy_extension(start, g),
        0 <= a < g.nodes.len(),
        0 <= b < g.nodes.len(),
        a <= usize::MAX,
        b <= usize::MAX,
        0 <= m < p.len(),
        settled(g, p, m),
        m != a,
    ensures
        settled(g.with_edge(a, b, ConstraintEdge::Copy), p, m),
{
    let h = g.with_edge(a, b, ConstraintEdge::Copy);
    lemma_with_edge(g, a, b, ConstraintEdge::Copy);
    lemma_extension_step(start, g, a, b);
    lemma_static_edges(start, g);
    lemma_static_edges(start, h);
    assert(store_closed_at(h, p, m)) by {
        assert forall|o: int, s: int|
            (#[trigger] p[m].contains(o)) && (#[trigger] h.has_edge(
                s,
                m,
                ConstraintEdge::Store,
            )) implies h.has_edge(s, o, ConstraintEdge::Copy) by {
            assert(g.has_edge(s, m, ConstraintEdge::Store));
            assert(g.has_edge(s, o, ConstraintEdge::Copy));
        }
    }
    assert(load_closed_at(h, p, m)) by {
        assert forall|o: int, t: int|
            (#[trigger] p[m].contains(o)) && (#[trigger] h.has_edge(
                m,
                t,
                ConstraintEdge::Load,
            )) implies h.has_edge(o, t, ConstraintEdge::Copy) by {
            assert(g.has_edge(m, t, ConstraintEdge::Load));
            assert(g.has_edge(o, t, ConstraintEdge::Copy));
        }
    }
    assert(alias_closed_at(h, p, m)) by {
        assert forall|t: int| #[trigger]
            h.is_alias_copy_target(m, t) && p[m] != Set::<int>::empty() implies h.has_edge(
            m,
            t,
            ConstraintEdge::Copy,
        ) by {
            assert(g.is_alias_copy_target(m, t));
            assert(g.has_edge(m, t, ConstraintEdge::Copy));
        }
    }
    assert(copy_closed_at(h, p, m)) by {
        assert forall|t: int| #[trigger] h.is_copy_target(m, t) && !h.is_alloc(t) implies 0 <= t
            < p.len() && p[m].subset_of(p[t]) by {
            let x = choose|x: int| #[trigger]
                h.has_edge(m, x, ConstraintEdge::Copy) && h.copy_arrival(x) == Some(t);
            lemma_copy_arrival_stable(start, g, x);
            lemma_copy_arrival_stable(start, h, x);
            assert(g.has_edge(m, x, ConstraintEdge::Copy));
            assert(g.is_copy_target(m, t));
        }
    }
}

/// Growing the set of `t` leaves the other nodes settled.
pub proof fn lemma_settled_after_growth(g: GraphView, p: Pointees, q: Pointees, t: int, m: int)
    requires
        settled(g, p, m),
        sets_within(p, q),
        0 <= m < p.len(),
        q[m] == p[m],
    ensures
        settled(g, q, m),
{
    assert(copy_closed_at(g, q, m)) by {
        assert forall|x: int| #[trigger] g.is_copy_target(m, x) && !g.is_alloc(x) implies 0 <= x
            < q.len() && q[m].subset_of(q[x]) by {
            assert(p[m].subset_of(p[x]));
            assert forall|o: int| q[m].contains(o) implies q[x].contains(o) by {
                assert(p[x].contains(o));
            }
        }
    }
}

/// The points-to analysis of one function body: the constraint graph of the
/// body and the points-to sets of its nodes.
pub struct Andersen<'a> {
    body: &'a Body,
    graph: ConstraintGraph,
    pts: Vec<Vec<bool>>,
    start: Ghost<GraphView>,
}

impl<'a> Andersen<'a> {
    /// The body that is analysed.
    pub closed spec fn body(&self) -> Body {
        *self.body
    }

    /// The constraint graph as it is now, with the copy edges derived so
    /// far.
    pub closed spec fn graph(&self) -> GraphView {
        self.graph@
    }

    /// The constraint graph from which the propagation started.
    pub closed spec fn start(&self) -> GraphView {
        self.start@
    }

    /// The points-to sets as they are now, by node number.
    pub closed spec fn sets(&self) -> Pointees {
        sets_of(self.pts@)
    }

    /// How much is left to derive.
    pub closed spec fn remaining(&self) -> nat {
        remaining(self.graph@, self.pts@)
    }

    /// What holds between two steps of the propagation, with `w` as the
    /// nodes that wait to be processed and `busy` as the node that is being
    /// processed: the graph has only gained copy edges, the address edges
    /// are satisfied, every node that does not wait is settled, and nothing
    /// has been derived that some solution lacks.
    pub closed spec fn inv(&self, w: Seq<usize>, busy: int) -> bool {
        let g = self.graph@;
        let p = sets_of(self.pts@);
        &&& g.wf()
        &&& copy_extension(self.start@, g)
        &&& is_square(self.pts@, g.nodes.len())
        &&& address_closed(g, p)
        &&& forall|m: int|
            0 <= m < g.nodes.len() ==> m == busy || w.contains(m as usize) || #[trigger] settled(
                g,
                p,
                m,
            )
        &&& forall|k: int| 0 <= k < w.len() ==> (#[trigger] w[k]) < g.nodes.len()
        &&& below_all_solutions(self.start@, g, p)
    }

    /// The state `self` has come out of the state `before` by steps of the
    /// propagation: sets and copy edges have only grown, every node that
    /// waited still waits, and every node that was made to wait is paid for
    /// by something that was derived.
    pub closed spec fn advanced_from(&self, before: Self, w0: Seq<usize>, w1: Seq<usize>) -> bool {
        &&& self.start@ == before.start@
        &&& self.body == before.body
        &&& self.graph@.nodes == before.graph@.nodes
        &&& sets_within(sets_of(before.pts@), sets_of(self.pts@))
        &&& forall|s: int, t: int| #[trigger]
            before.graph@.has_edge(s, t, ConstraintEdge::Copy) ==> self.graph@.has_edge(
                s,
                t,
                ConstraintEdge::Copy,
            )
        &&& remaining(self.graph@, self.pts@) + w1.len() <= remaining(before.graph@, before.pts@)
            + w0.len()
        &&& forall|x: usize| #[trigger] w0.contains(x) ==> w1.contains(x)
    }

    /// Points-to sets only grow: where `self` has come out of `before` by
    /// steps of the propagation, there is a set for every node that had
    /// one, and it holds whatever the set of that node held.
    pub proof fn lemma_sets_only_grow(&self, before: Self, w0: Seq<usize>, w1: Seq<usize>)
        requires
            self.advanced_from(before, w0, w1),
        ensures
            self.graph().nodes == before.graph().nodes,
            self.sets().len() == before.sets().len(),
            forall|n: int|
                0 <= n < before.sets().len() ==> (#[trigger] before.sets()[n]).subset_of(
                    self.sets()[n],
                ),
    {
    }

    /// Adds the copy edge from `from` to `to` unless it is there, and makes
    /// `from` wait where the edge is new.
    fn add_copy_edge(
        &mut self,
        from: usize,
        to: usize,
        worklist: &mut VecDeque<usize>,
        Ghost(busy): Ghost<int>,
    )
        requires
            old(self).inv(old(worklist)@, busy),
            from < old(self).graph().nodes.len(),
            to < old(self).graph().nodes.len(),
            forall|h: GraphView, q: Pointees| #[trigger]
                solves(old(self).start(), h, q) ==> h.has_edge(
                    from as int,
                    to as int,
                    ConstraintEdge::Copy,
                ),
        ensures
            final(self).inv(final(worklist)@, busy),
            final(self).advanced_from(*old(self), old(worklist)@, final(worklist)@),
            final(self).sets() == old(self).sets(),
            forall|s: int, t: int, k: ConstraintEdge| #[trigger]
                final(self).graph().has_edge(s, t, k) <==> old(self).graph().has_edge(s, t, k) || (
                s == from && t == to && k == ConstraintEdge::Copy),
    {
        let ghost g0 = self.graph@;
        let ghost w0 = worklist@;
        let ghost p = sets_of(self.pts@);
        let added = self.graph.insert_edge(from, to, ConstraintEdge::Copy);
        if added {
            worklist.push_back(from);
            proof {
                let g1 = self.graph@;
                let w1 = worklist@;
                let start = self.start@;
                assert(start == old(self).start());
                lemma_with_edge(g0, from as int, to as int, ConstraintEdge::Copy);
                lemma_extension_step(start, g0, from as int, to as int);
                assert(w1[w0.len() as int] == from);
                assert forall|x: usize| #[trigger] w0.contains(x) implies w1.contains(x) by {
                    let k = choose|k: int| 0 <= k < w0.len() && w0[k] == x;
                    assert(w1[k] == x);
                }
                assert forall|m: int| 0 <= m < g1.nodes.len() implies m == busy || w1.contains(
                    m as usize,
                ) || #[trigger] settled(g1, p, m) by {
                    if m == from {
                        assert(w1.contains(from));
                    } else if m != busy && !w0.contains(m as usize) {
                        assert(settled(g0, p, m));
                        lemma_settled_after_copy_edge(start, g0, p, from as int, to as int, m);
                    }
                }
                assert(below_all_solutions(start, g1, p)) by {
                    assert forall|h: GraphView, q: Pointees| #[trigger]
                        solves(start, h, q) implies within(g1, p, h, q) by {
                        assert(within(g0, p, h, q));
                        assert(solves(old(self).start(), h, q));
                        assert(h.has_edge(from as int, to as int, ConstraintEdge::Copy));
                        assert forall|s: int, t: int| #[trigger]
                            g1.has_edge(s, t, ConstraintEdge::Copy) implies h.has_edge(
                            s,
                            t,
                            ConstraintEdge::Copy,
                        ) by {
                            if !(s == from && t == to) {
                                assert(g0.has_edge(s, t, ConstraintEdge::Copy));
                            }
                        }
                    }
                }
                // The new edge takes one off what is left.
                let m0 = copy_matrix(g0);
                let m1 = copy_matrix(g1);
                let row = m0[from as int].update(to as int, true);
                assert(m1 =~= m0.update(from as int, row)) by {
                    assert forall|s: int| 0 <= s < m1.len() implies #[trigger] m1[s] =~= m0.update(
                        from as int,
                        row,
                    )[s] by {}
                }
                lemma_row_set(m0[from as int], to as int);
                lemma_matrix_replace_row(m0, from as int, row);
            }
        }
    }
}

/// Setting flags of one row takes off what is left at least what it adds to
/// that row.
pub proof fn lemma_remaining_after_row(
    g: GraphView,
    rows: Seq<Vec<bool>>,
    after: Seq<Vec<bool>>,
    t: int,
)
    requires
        0 <= t < rows.len(),
        after.len() == rows.len(),
        forall|m: int| 0 <= m < rows.len() && m != t ==> (#[trigger] after[m])@ == rows[m]@,
        row_below(rows[t]@, after[t]@),
    ensures
        remaining(g, after) <= remaining(g, rows),
        forall|j: int|
            0 <= j < rows[t]@.len() && !rows[t]@[j] && after[t]@[j] ==> remaining(g, after)
                < remaining(g, rows),
{
    let m0 = matrix_of(rows);
    let m1 = matrix_of(after);
    assert(m1 =~= m0.update(t, after[t]@));
    lemma_matrix_replace_row(m0, t, after[t]@);
    lemma_row_monotone(rows[t]@, after[t]@);
    assert forall|j: int| 0 <= j < rows[t]@.len() && !rows[t]@[j] && after[t]@[j] implies remaining(
        g,
        after,
    ) < remaining(g, rows) by {
        lemma_row_strictly_monotone(rows[t]@, after[t]@, j);
    }
}

impl<'a> Andersen<'a> {
    /// The pointees of `node`, by number, in rising order.
    fn pointees(&self, node: usize) -> (r: Vec<usize>)
        requires
            is_square(self.pts@, self.graph@.nodes.len()),
            node < self.pts@.len(),
        ensures
            forall|o: usize| #[trigger] r@.contains(o) <==> self.sets()[node as int].contains(o as int),
            r@.len() == 0 <==> self.sets()[node as int] == Set::<int>::empty(),
    {
        let row = &self.pts[node];
        let mut r: Vec<usize> = Vec::new();
        let mut j: usize = 0;
        while j < row.len()
            invariant
                j <= row.len(),
                forall|o: usize| #[trigger] r@.contains(o) <==> o < j && row@[o as int],
            decreases row.len() - j,
        {
            let ghost before = r@;
            if row[j] {
                r.push(j);
                proof {
                    assert(r@[before.len() as int] == j);
                    assert forall|o: usize| #[trigger] r@.contains(o) <==> o < j + 1 && row@[o as int] by {
                        if r@.contains(o) {
                            let k = choose|k: int| 0 <= k < r@.len() && r@[k] == o;
                            if k < before.len() {
                                assert(before[k] == o);
                                assert(before.contains(o));
                            }
                        }
                        if o < j && row@[o as int] {
                            assert(before.contains(o));
                            let k = choose|k: int| 0 <= k < before.len() && before[k] == o;
                            assert(r@[k] == o);
                        }
                    }
                }
            }
            j += 1;
        }
        proof {
            let set = self.sets()[node as int];
            assert forall|o: usize| #[trigger] r@.contains(o) <==> set.contains(o as int) by {}
            if r@.len() == 0 {
                assert forall|o: int| !set.contains(o) by {
                    if set.contains(o) {
                        assert(r@.contains(o as usize));
                    }
                }
                assert(set =~= Set::<int>::empty());
            } else {
                assert(r@.contains(r@[0]));
                assert(set.contains(r@[0] as int));
            }
        }
        r
    }

    /// Makes `target` point to whatever `source` points to, unless `target`
    /// is the storage behind a place, whose set stays empty. Returns
    /// whether the set of `target` has grown.
    fn union_pts(&mut self, target: usize, source: usize) -> (changed: bool)
        requires
            old(self).graph().wf(),
            is_square(old(self).pts@, old(self).graph().nodes.len()),
            target < old(self).graph().nodes.len(),
            source < old(self).graph().nodes.len(),
        ensures
            final(self).graph() == old(self).graph(),
            final(self).start() == old(self).start(),
            final(self).body() == old(self).body(),
            is_square(final(self).pts@, final(self).graph().nodes.len()),
            final(self).sets().len() == old(self).sets().len(),
            forall|m: int|
                0 <= m < old(self).sets().len() && m != target ==> (#[trigger] final(self).sets()[m])
                    == old(self).sets()[m],
            final(self).sets()[target as int] == if old(self).graph().is_alloc(target as int) {
                old(self).sets()[target as int]
            } else {
                old(self).sets()[target as int].union(old(self).sets()[source as int])
            },
            changed == (final(self).sets()[target as int] != old(self).sets()[target as int]),
            sets_within(old(self).sets(), final(self).sets()),
            final(self).remaining() <= old(self).remaining(),
            changed ==> final(self).remaining() < old(self).remaining(),
    {
        let ghost rows0 = self.pts@;
        let ghost sets_before = sets_of(self.pts@);
        match self.graph.node(target) {
            ConstraintNode::Alloc(_) => {
                return false;
            },
            _ => {},
        }
        let n = self.pts.len();
        let mut row: Vec<bool> = Vec::new();
        let mut changed = false;
        let mut j: usize = 0;
        while j < n
            invariant
                j <= n,
                n == self.pts@.len(),
                self.pts@ == rows0,
                is_square(rows0, n as nat),
                target < n,
                source < n,
                row@.len() == j,
                forall|k: int|
                    0 <= k < j ==> row@[k] == (rows0[target as int]@[k] || rows0[source as int]@[k]),
                changed <==> exists|k: int|
                    0 <= k < j && !rows0[target as int]@[k] && rows0[source as int]@[k],
            decreases n - j,
        {
            let t = self.pts[target][j];
            let s = self.pts[source][j];
            if s && !t {
                changed = true;
            }
            row.push(t || s);
            j += 1;
        }
        self.pts.set(target, row);
        proof {
            let rows1 = self.pts@;
            let sets_now = sets_of(rows1);
            assert(sets_now[target as int] =~= sets_before[target as int].union(
                sets_before[source as int],
            ));
            assert forall|m: int| 0 <= m < sets_before.len() && m != target implies (#[trigger] sets_now[m])
                == sets_before[m] by {
                assert(rows1[m] == rows0[m]);
                assert(sets_now[m] =~= sets_before[m]);
            }
            assert(row_below(rows0[target as int]@, rows1[target as int]@));
            lemma_remaining_after_row(self.graph@, rows0, rows1, target as int);
            if changed {
                let k = choose|k: int|
                    0 <= k < n && !rows0[target as int]@[k] && rows0[source as int]@[k];
                assert(sets_now[target as int].contains(k));
                assert(!sets_before[target as int].contains(k));
            } else {
                assert(sets_now[target as int] =~= sets_before[target as int]);
            }
        }
        changed
    }

    /// Propagates along the copy from `source` that arrives at `target`,
    /// and makes `target` wait where its set has grown.
    fn propagate_copy(
        &mut self,
        target: usize,
        source: usize,
        worklist: &mut VecDeque<usize>,
    )
        requires
            old(self).inv(old(worklist)@, source as int),
            target < old(self).graph().nodes.len(),
            source < old(self).graph().nodes.len(),
            old(self).graph().is_copy_target(source as int, target as int),
        ensures
            final(self).inv(final(worklist)@, source as int),
            final(self).advanced_from(*old(self), old(worklist)@, final(worklist)@),
            final(self).graph() == old(self).graph(),
            final(self).sets()[source as int] == old(self).sets()[source as int],
            !old(self).graph().is_alloc(target as int) ==> final(self).sets()[source as int].subset_of(
                final(self).sets()[target as int],
            ),
    {
        let ghost before = *self;
        let ghost g = self.graph@;
        let ghost sets_before = sets_of(self.pts@);
        let ghost w0 = worklist@;
        let ghost start = self.start@;
        let changed = self.union_pts(target, source);
        let ghost sets_now = sets_of(self.pts@);
        if changed {
            worklist.push_back(target);
        }
        proof {
            let w1 = worklist@;
            if changed {
                assert(w1[w0.len() as int] == target);
            }
            assert forall|x: usize| #[trigger] w0.contains(x) implies w1.contains(x) by {
                let k = choose|k: int| 0 <= k < w0.len() && w0[k] == x;
                assert(w1[k] == x);
            }
            assert(address_closed(g, sets_now));
            assert forall|m: int| 0 <= m < g.nodes.len() implies m == source || w1.contains(
                m as usize,
            ) || #[trigger] settled(g, sets_now, m) by {
                if m != source && !w0.contains(m as usize) {
                    assert(settled(g, sets_before, m));
                    if m == target {
                        if changed {
                            assert(w1.contains(target));
                        } else {
                            assert(sets_now =~= sets_before);
                        }
                    } else {
                        lemma_settled_after_growth(g, sets_before, sets_now, target as int, m);
                    }
                }
            }
            assert(below_all_solutions(start, g, sets_now)) by {
                assert forall|h: GraphView, q: Pointees| #[trigger]
                    solves(start, h, q) implies within(g, sets_now, h, q) by {
                    assert(within(g, sets_before, h, q));
                    if !g.is_alloc(target as int) {
                        let x = choose|x: int| #[trigger]
                            g.has_edge(source as int, x, ConstraintEdge::Copy) && g.copy_arrival(x)
                                == Some(target as int);
                        lemma_copy_arrival_stable(start, g, x);
                        lemma_copy_arrival_stable(start, h, x);
                        lemma_copy_arrival_stable(start, g, target as int);
                        lemma_copy_arrival_stable(start, h, target as int);
                        assert(h.has_edge(source as int, x, ConstraintEdge::Copy));
                        assert(h.is_copy_target(source as int, target as int));
                        assert(settled(h, q, source as int));
                        assert(q[source as int].subset_of(q[target as int]));
                        assert forall|n: int, o: int|
                            0 <= n < sets_now.len() && (#[trigger] sets_now[n].contains(o)) implies q[n].contains(
                            o,
                        ) by {
                            if n == target {
                                if !sets_before[n].contains(o) {
                                    assert(sets_before[source as int].contains(o));
                                    assert(q[source as int].contains(o));
                                }
                            } else {
                                assert(sets_before[n].contains(o));
                            }
                        }
                    } else {
                        assert(sets_now =~= sets_before);
                    }
                }
            }
            if target == source {
                assert(sets_now[source as int] =~= sets_before[source as int]);
            }
        }
    }
}

/// Every solution has the copy edge that the store rule asks for.
pub proof fn lemma_store_rule(
    start: GraphView,
    g: GraphView,
    p: Pointees,
    node: int,
    o: int,
    s: int,
)
    requires
        copy_extension(start, g),
        below_all_solutions(start, g, p),
        0 <= node < p.len(),
        p[node].contains(o),
        g.has_edge(s, node, ConstraintEdge::Store),
    ensures
        forall|h: GraphView, q: Pointees| #[trigger]
            solves(start, h, q) ==> h.has_edge(s, o, ConstraintEdge::Copy),
{
    lemma_static_edges(start, g);
    assert forall|h: GraphView, q: Pointees| #[trigger] solves(start, h, q) implies h.has_edge(
        s,
        o,
        ConstraintEdge::Copy,
    ) by {
        assert(within(g, p, h, q));
        lemma_static_edges(start, h);
        assert(start.has_edge(s, node, ConstraintEdge::Store));
        assert(h.has_edge(s, node, ConstraintEdge::Store));
        lemma_graph_has_edge(h, s, node, ConstraintEdge::Store);
        assert(settled(h, q, node));
        assert(q[node].contains(o));
    }
}

/// Every solution has the copy edge that the load rule asks for.
pub proof fn lemma_load_rule(start: GraphView, g: GraphView, p: Pointees, node: int, o: int, t: int)
    requires
        copy_extension(start, g),
        below_all_solutions(start, g, p),
        0 <= node < p.len(),
        p[node].contains(o),
        g.has_edge(node, t, ConstraintEdge::Load),
    ensures
        forall|h: GraphView, q: Pointees| #[trigger]
            solves(start, h, q) ==> h.has_edge(o, t, ConstraintEdge::Copy),
{
    lemma_static_edges(start, g);
    assert forall|h: GraphView, q: Pointees| #[trigger] solves(start, h, q) implies h.has_edge(
        o,
        t,
        ConstraintEdge::Copy,
    ) by {
        assert(within(g, p, h, q));
        lemma_static_edges(start, h);
        assert(start.has_edge(node, t, ConstraintEdge::Load));
        assert(h.has_edge(node, t, ConstraintEdge::Load));
        lemma_graph_has_edge(h, node, t, ConstraintEdge::Load);
        assert(settled(h, q, node));
        assert(q[node].contains(o));
    }
}

/// Every solution has the copy edge that the alias rule asks for.
pub proof fn lemma_alias_rule(start: GraphView, g: GraphView, p: Pointees, node: int, o: int, t: int)
    requires
        copy_extension(start, g),
        g.wf(),
        below_all_solutions(start, g, p),
        0 <= node < p.len(),
        p.len() == g.nodes.len(),
        p[node].contains(o),
        g.is_alias_copy_target(node, t),
    ensures
        forall|h: GraphView, q: Pointees| #[trigger]
            solves(start, h, q) ==> h.has_edge(node, t, ConstraintEdge::Copy),
{
    lemma_static_edges(start, g);
    assert forall|h: GraphView, q: Pointees| #[trigger] solves(start, h, q) implies h.has_edge(
        node,
        t,
        ConstraintEdge::Copy,
    ) by {
        assert(within(g, p, h, q));
        lemma_static_edges(start, h);
        assert(start.is_alias_copy_target(node, t));
        assert(h.is_alias_copy_target(node, t));
        assert(settled(h, q, node));
        assert(q[node].contains(o));
        assert(q[node] != Set::<int>::empty());
    }
}

impl<'a> Andersen<'a> {
    /// Chains two runs of steps.
    proof fn lemma_advanced_twice(
        self,
        mid: Self,
        before: Self,
        w0: Seq<usize>,
        w1: Seq<usize>,
        w2: Seq<usize>,
    )
        requires
            mid.advanced_from(before, w0, w1),
            self.advanced_from(mid, w1, w2),
        ensures
            self.advanced_from(before, w0, w2),
    {
        let sets_before = sets_of(before.pts@);
        let sets_now = sets_of(mid.pts@);
        let sets_last = sets_of(self.pts@);
        assert forall|n: int, o: int|
            0 <= n < sets_before.len() && (#[trigger] sets_before[n].contains(
                o,
            )) implies sets_last[n].contains(o) by {
            assert(sets_now[n].contains(o));
        }
        assert forall|s: int, t: int| #[trigger]
            before.graph@.has_edge(s, t, ConstraintEdge::Copy) implies self.graph@.has_edge(
            s,
            t,
            ConstraintEdge::Copy,
        ) by {
            assert(mid.graph@.has_edge(s, t, ConstraintEdge::Copy));
        }
        assert forall|x: usize| #[trigger] w0.contains(x) implies w2.contains(x) by {
            assert(w1.contains(x));
        }
    }

    /// Nothing has happened.
    proof fn lemma_advanced_none(self, w: Seq<usize>)
        ensures
            self.advanced_from(self, w, w),
    {
    }

    /// For one pointee `o` of `node`: every node stored through `node` is
    /// copied into `o`, and `o` is copied into every node loaded through
    /// `node`.
    fn propagate_pointee(
        &mut self,
        node: usize,
        o: usize,
        sources: &Vec<usize>,
        targets: &Vec<usize>,
        worklist: &mut VecDeque<usize>,
    )
        requires
            old(self).inv(old(worklist)@, node as int),
            node < old(self).graph().nodes.len(),
            old(self).sets()[node as int].contains(o as int),
            forall|s: usize| #[trigger]
                sources@.contains(s) <==> old(self).graph().has_edge(
                    s as int,
                    node as int,
                    ConstraintEdge::Store,
                ),
            forall|t: usize| #[trigger]
                targets@.contains(t) <==> old(self).graph().has_edge(
                    node as int,
                    t as int,
                    ConstraintEdge::Load,
                ),
        ensures
            final(self).inv(final(worklist)@, node as int),
            final(self).advanced_from(*old(self), old(worklist)@, final(worklist)@),
            final(self).sets() == old(self).sets(),
            forall|s: int, t: int, k: ConstraintEdge|
                k != ConstraintEdge::Copy ==> (#[trigger] final(self).graph().has_edge(s, t, k)
                    <==> old(self).graph().has_edge(s, t, k)),
            forall|s: usize| #[trigger]
                sources@.contains(s) ==> final(self).graph().has_edge(
                    s as int,
                    o as int,
                    ConstraintEdge::Copy,
                ),
            forall|t: usize| #[trigger]
                targets@.contains(t) ==> final(self).graph().has_edge(
                    o as int,
                    t as int,
                    ConstraintEdge::Copy,
                ),
    {
        let ghost before = *self;
        let ghost w0 = worklist@;
        let ghost p = self.sets();
        let ghost g0 = self.graph@;
        proof {
            self.lemma_advanced_none(w0);
            assert(sets_fit(g0, p)) by {
                assert(is_square(self.pts@, g0.nodes.len()));
            }
        }
        let mut i: usize = 0;
        while i < sources.len()
            invariant
                i <= sources.len(),
                self.inv(worklist@, node as int),
                self.advanced_from(before, w0, worklist@),
                self.sets() == p,
                node < g0.nodes.len(),
                o < g0.nodes.len(),
                self.graph@.nodes == g0.nodes,
                p[node as int].contains(o as int),
                forall|s: int, t: int, k: ConstraintEdge|
                    k != ConstraintEdge::Copy ==> (#[trigger] self.graph@.has_edge(s, t, k)
                        <==> g0.has_edge(s, t, k)),
                forall|s: usize| #[trigger]
                    sources@.contains(s) <==> g0.has_edge(
                        s as int,
                        node as int,
                        ConstraintEdge::Store,
                    ),
                forall|k: int|
                    0 <= k < i ==> self.graph@.has_edge(
                        #[trigger] sources@[k] as int,
                        o as int,
                        ConstraintEdge::Copy,
                    ),
            decreases sources.len() - i,
        {
            let s = sources[i];
            let ghost mid = *self;
            let ghost w1 = worklist@;
            proof {
                assert(sources@.contains(s));
                lemma_graph_has_edge(self.graph@, s as int, node as int, ConstraintEdge::Store);
                lemma_store_rule(self.start@, self.graph@, p, node as int, o as int, s as int);
            }
            self.add_copy_edge(s, o, worklist, Ghost(node as int));
            proof {
                assert(self.graph() == self.graph@ && mid.graph() == mid.graph@);
                self.lemma_advanced_twice(mid, before, w0, w1, worklist@);
            }
            i += 1;
        }
        let mut j: usize = 0;
        while j < targets.len()
            invariant
                j <= targets.len(),
                self.inv(worklist@, node as int),
                self.advanced_from(before, w0, worklist@),
                self.sets() == p,
                node < g0.nodes.len(),
                o < g0.nodes.len(),
                self.graph@.nodes == g0.nodes,
                p[node as int].contains(o as int),
                forall|s: int, t: int, k: ConstraintEdge|
                    k != ConstraintEdge::Copy ==> (#[trigger] self.graph@.has_edge(s, t, k)
                        <==> g0.has_edge(s, t, k)),
                forall|t: usize| #[trigger]
                    targets@.contains(t) <==> g0.has_edge(
                        node as int,
                        t as int,
                        ConstraintEdge::Load,
                    ),
                forall|k: int|
                    0 <= k < sources@.len() ==> self.graph@.has_edge(
                        #[trigger] sources@[k] as int,
                        o as int,
                        ConstraintEdge::Copy,
                    ),
                forall|k: int|
                    0 <= k < j ==> self.graph@.has_edge(
                        o as int,
                        #[trigger] targets@[k] as int,
                        ConstraintEdge::Copy,
                    ),
            decreases targets.len() - j,
        {
            let t = targets[j];
            let ghost mid = *self;
            let ghost w1 = worklist@;
            proof {
                assert(targets@.contains(t));
                lemma_graph_has_edge(self.graph@, node as int, t as int, ConstraintEdge::Load);
                lemma_load_rule(self.start@, self.graph@, p, node as int, o as int, t as int);
            }
            self.add_copy_edge(o, t, worklist, Ghost(node as int));
            proof {
                assert(self.graph() == self.graph@ && mid.graph() == mid.graph@);
                self.lemma_advanced_twice(mid, before, w0, w1, worklist@);
            }
            j += 1;
        }
        proof {
            assert forall|s: usize| #[trigger] sources@.contains(s) implies self.graph@.has_edge(
                s as int,
                o as int,
                ConstraintEdge::Copy,
            ) by {
                let k = choose|k: int| 0 <= k < sources@.len() && sources@[k] == s;
                assert(self.graph@.has_edge(sources@[k] as int, o as int, ConstraintEdge::Copy));
            }
            assert forall|t: usize| #[trigger] targets@.contains(t) implies self.graph@.has_edge(
                o as int,
                t as int,
                ConstraintEdge::Copy,
            ) by {
                let k = choose|k: int| 0 <= k < targets@.len() && targets@[k] == t;
                assert(self.graph@.has_edge(o as int, targets@[k] as int, ConstraintEdge::Copy));
            }
        }
    }
}

/// Copy edges that are added leave the store, load and alias rules at a
/// node satisfied, as long as the sets stay.
pub proof fn lemma_rules_kept(start: GraphView, g: GraphView, h: GraphView, p: Pointees, n: int)
    requires
        copy_extension(start, g),
        copy_extension(start, h),
        forall|s: int, t: int| #[trigger]
            g.has_edge(s, t, ConstraintEdge::Copy) ==> h.has_edge(s, t, ConstraintEdge::Copy),
        0 <= n < p.len(),
    ensures
        store_closed_at(g, p, n) ==> store_closed_at(h, p, n),
        load_closed_at(g, p, n) ==> load_closed_at(h, p, n),
        alias_closed_at(g, p, n) ==> alias_closed_at(h, p, n),
{
    lemma_static_edges(start, g);
    lemma_static_edges(start, h);
    if store_closed_at(g, p, n) {
        assert forall|o: int, s: int|
            (#[trigger] p[n].contains(o)) && (#[trigger] h.has_edge(
                s,
                n,
                ConstraintEdge::Store,
            )) implies h.has_edge(s, o, ConstraintEdge::Copy) by {
            assert(g.has_edge(s, n, ConstraintEdge::Store));
            assert(g.has_edge(s, o, ConstraintEdge::Copy));
        }
    }
    if load_closed_at(g, p, n) {
        assert forall|o: int, t: int|
            (#[trigger] p[n].contains(o)) && (#[trigger] h.has_edge(
                n,
                t,
                ConstraintEdge::Load,
            )) implies h.has_edge(o, t, ConstraintEdge::Copy) by {
            assert(g.has_edge(n, t, ConstraintEdge::Load));
            assert(g.has_edge(o, t, ConstraintEdge::Copy));
        }
    }
    if alias_closed_at(g, p, n) {
        assert forall|t: int| #[trigger]
            h.is_alias_copy_target(n, t) && p[n] != Set::<int>::empty() implies h.has_edge(
            n,
            t,
            ConstraintEdge::Copy,
        ) by {
            assert(g.is_alias_copy_target(n, t));
            assert(g.has_edge(n, t, ConstraintEdge::Copy));
        }
    }
}

impl<'a> Andersen<'a> {
    /// Applies the store rule and the load rule to every pointee of `node`.
    fn propagate_pointees(&mut self, node: usize, os: &Vec<usize>, worklist: &mut VecDeque<usize>)
        requires
            old(self).inv(old(worklist)@, node as int),
            node < old(self).graph().nodes.len(),
            forall|o: usize| #[trigger]
                os@.contains(o) <==> old(self).sets()[node as int].contains(o as int),
        ensures
            final(self).inv(final(worklist)@, node as int),
            final(self).advanced_from(*old(self), old(worklist)@, final(worklist)@),
            final(self).sets() == old(self).sets(),
            store_closed_at(final(self).graph(), final(self).sets(), node as int),
            load_closed_at(final(self).graph(), final(self).sets(), node as int),
    {
        let ghost before = *self;
        let ghost w0 = worklist@;
        let ghost p = self.sets();
        let ghost g0 = self.graph@;
        let ghost start = self.start@;
        let sources = self.graph.store_sources(node);
        let targets = self.graph.load_targets(node);
        proof {
            self.lemma_advanced_none(w0);
        }
        let mut i: usize = 0;
        while i < os.len()
            invariant
                i <= os.len(),
                g0.nodes.len() <= usize::MAX,
                self.inv(worklist@, node as int),
                self.advanced_from(before, w0, worklist@),
                self.sets() == p,
                self.start@ == start,
                node < g0.nodes.len(),
                self.graph@.nodes == g0.nodes,
                copy_extension(start, g0),
                forall|o: usize| #[trigger] os@.contains(o) <==> p[node as int].contains(o as int),
                forall|s: usize| #[trigger]
                    sources@.contains(s) <==> g0.has_edge(
                        s as int,
                        node as int,
                        ConstraintEdge::Store,
                    ),
                forall|t: usize| #[trigger]
                    targets@.contains(t) <==> g0.has_edge(
                        node as int,
                        t as int,
                        ConstraintEdge::Load,
                    ),
                forall|k: int, s: usize|
                    0 <= k < i && sources@.contains(s) ==> #[trigger] self.graph@.has_edge(
                        s as int,
                        os@[k] as int,
                        ConstraintEdge::Copy,
                    ),
                forall|k: int, t: usize|
                    0 <= k < i && targets@.contains(t) ==> #[trigger] self.graph@.has_edge(
                        os@[k] as int,
                        t as int,
                        ConstraintEdge::Copy,
                    ),
            decreases os.len() - i,
        {
            let o = os[i];
            let ghost mid = *self;
            let ghost w1 = worklist@;
            proof {
                assert(os@.contains(o));
                lemma_static_edges(start, g0);
                lemma_static_edges(start, self.graph@);
                assert(self.graph() == self.graph@);
                assert(self.sets() == sets_of(self.pts@));
            }
            self.propagate_pointee(node, o, &sources, &targets, worklist);
            proof {
                assert(self.graph() == self.graph@ && mid.graph() == mid.graph@);
                self.lemma_advanced_twice(mid, before, w0, w1, worklist@);
                assert forall|k: int, s: usize|
                    0 <= k < i + 1 && sources@.contains(s) implies #[trigger] self.graph@.has_edge(
                    s as int,
                    os@[k] as int,
                    ConstraintEdge::Copy,
                ) by {
                    if k < i {
                        assert(mid.graph@.has_edge(s as int, os@[k] as int, ConstraintEdge::Copy));
                    }
                }
                assert forall|k: int, t: usize|
                    0 <= k < i + 1 && targets@.contains(t) implies #[trigger] self.graph@.has_edge(
                    os@[k] as int,
                    t as int,
                    ConstraintEdge::Copy,
                ) by {
                    if k < i {
                        assert(mid.graph@.has_edge(os@[k] as int, t as int, ConstraintEdge::Copy));
                    }
                }
            }
            i += 1;
        }
        proof {
            let g = self.graph@;
            lemma_static_edges(start, g0);
            lemma_static_edges(start, g);
            assert(is_square(self.pts@, g.nodes.len()));
            assert(p == sets_of(self.pts@));
            assert forall|o: int, s: int|
                (#[trigger] p[node as int].contains(o)) && (#[trigger] g.has_edge(
                    s,
                    node as int,
                    ConstraintEdge::Store,
                )) implies g.has_edge(s, o, ConstraintEdge::Copy) by {
                lemma_graph_has_edge(g, s, node as int, ConstraintEdge::Store);
                assert(0 <= o < self.pts@[node as int]@.len());
                assert(os@.contains(o as usize));
                let k = choose|k: int| 0 <= k < os@.len() && os@[k] == o as usize;
                assert(sources@.contains(s as usize));
                assert(g.has_edge(s as usize as int, os@[k] as int, ConstraintEdge::Copy));
            }
            assert forall|o: int, t: int|
                (#[trigger] p[node as int].contains(o)) && (#[trigger] g.has_edge(
                    node as int,
                    t,
                    ConstraintEdge::Load,
                )) implies g.has_edge(o, t, ConstraintEdge::Copy) by {
                lemma_graph_has_edge(g, node as int, t, ConstraintEdge::Load);
                assert(0 <= o < self.pts@[node as int]@.len());
                assert(os@.contains(o as usize));
                let k = choose|k: int| 0 <= k < os@.len() && os@[k] == o as usize;
                assert(targets@.contains(t as usize));
                assert(g.has_edge(os@[k] as int, t as usize as int, ConstraintEdge::Copy));
            }
        }
    }

    /// Applies the alias rule to `node`, which points to `o`.
    fn propagate_aliases(&mut self, node: usize, Ghost(o): Ghost<int>, worklist: &mut VecDeque<usize>)
        requires
            old(self).inv(old(worklist)@, node as int),
            node < old(self).graph().nodes.len(),
            old(self).sets()[node as int].contains(o),
        ensures
            final(self).inv(final(worklist)@, node as int),
            final(self).advanced_from(*old(self), old(worklist)@, final(worklist)@),
            final(self).sets() == old(self).sets(),
            alias_closed_at(final(self).graph(), final(self).sets(), node as int),
    {
        let ghost before = *self;
        let ghost w0 = worklist@;
        let ghost p = self.sets();
        let ghost g0 = self.graph@;
        let ghost start = self.start@;
        let aliases = self.graph.alias_copy_targets(node);
        proof {
            self.lemma_advanced_none(w0);
        }
        let mut i: usize = 0;
        while i < aliases.len()
            invariant
                i <= aliases.len(),
                self.inv(worklist@, node as int),
                self.advanced_from(before, w0, worklist@),
                self.sets() == p,
                self.start@ == start,
                node < g0.nodes.len(),
                g0.wf(),
                self.graph@.nodes == g0.nodes,
                copy_extension(start, g0),
                p[node as int].contains(o),
                forall|t: usize| #[trigger]
                    aliases@.contains(t) <==> g0.is_alias_copy_target(node as int, t as int),
                forall|k: int|
                    0 <= k < i ==> self.graph@.has_edge(
                        node as int,
                        #[trigger] aliases@[k] as int,
                        ConstraintEdge::Copy,
                    ),
            decreases aliases.len() - i,
        {
            let t = aliases[i];
            let ghost mid = *self;
            let ghost w1 = worklist@;
            proof {
                assert(aliases@.contains(t));
                lemma_static_edges(start, g0);
                lemma_static_edges(start, self.graph@);
                assert(self.graph@.is_alias_copy_target(node as int, t as int));
                let x = choose|x: int| #[trigger]
                    g0.has_edge(node as int, x, ConstraintEdge::AliasCopy) && g0.has_edge(
                        x,
                        t as int,
                        ConstraintEdge::Address,
                    );
                lemma_graph_has_edge(g0, x, t as int, ConstraintEdge::Address);
                assert(is_square(self.pts@, self.graph@.nodes.len()));
                assert(self.sets() == sets_of(self.pts@));
                lemma_alias_rule(start, self.graph@, p, node as int, o, t as int);
                assert(self.graph() == self.graph@);
            }
            self.add_copy_edge(node, t, worklist, Ghost(node as int));
            proof {
                assert(self.graph() == self.graph@ && mid.graph() == mid.graph@);
                self.lemma_advanced_twice(mid, before, w0, w1, worklist@);
                assert forall|k: int| 0 <= k < i + 1 implies self.graph@.has_edge(
                    node as int,
                    #[trigger] aliases@[k] as int,
                    ConstraintEdge::Copy,
                ) by {
                    if k < i {
                        assert(mid.graph@.has_edge(
                            node as int,
                            aliases@[k] as int,
                            ConstraintEdge::Copy,
                        ));
                    }
                }
            }
            i += 1;
        }
        proof {
            let g = self.graph@;
            lemma_static_edges(start, g0);
            lemma_static_edges(start, g);
            assert forall|t: int| #[trigger]
                g.is_alias_copy_target(node as int, t) && p[node as int] != Set::<int>::empty() implies g.has_edge(
                node as int,
                t,
                ConstraintEdge::Copy,
            ) by {
                assert(g0.is_alias_copy_target(node as int, t));
                let x = choose|x: int| #[trigger]
                    g0.has_edge(node as int, x, ConstraintEdge::AliasCopy) && g0.has_edge(
                        x,
                        t,
                        ConstraintEdge::Address,
                    );
                lemma_graph_has_edge(g0, x, t, ConstraintEdge::Address);
                assert(aliases@.contains(t as usize));
                let k = choose|k: int| 0 <= k < aliases@.len() && aliases@[k] == t as usize;
                assert(g.has_edge(node as int, aliases@[k] as int, ConstraintEdge::Copy));
            }
        }
    }

    /// Applies the copy rule to `node`.
    fn propagate_copies(&mut self, node: usize, worklist: &mut VecDeque<usize>)
        requires
            old(self).inv(old(worklist)@, node as int),
            node < old(self).graph().nodes.len(),
        ensures
            final(self).inv(final(worklist)@, node as int),
            final(self).advanced_from(*old(self), old(worklist)@, final(worklist)@),
            final(self).graph() == old(self).graph(),
            final(self).sets()[node as int] == old(self).sets()[node as int],
            copy_closed_at(final(self).graph(), final(self).sets(), node as int),
    {
        let ghost before = *self;
        let ghost w0 = worklist@;
        let ghost p = self.sets();
        let ghost g = self.graph@;
        let copies = self.graph.copy_targets(node);
        proof {
            self.lemma_advanced_none(w0);
            assert(is_square(self.pts@, g.nodes.len()));
            assert(p == sets_of(self.pts@));
        }
        let mut i: usize = 0;
        while i < copies.len()
            invariant
                i <= copies.len(),
                self.inv(worklist@, node as int),
                self.advanced_from(before, w0, worklist@),
                self.graph@ == g,
                g.wf(),
                node < g.nodes.len(),
                g.nodes.len() <= usize::MAX,
                p.len() == g.nodes.len(),
                self.sets().len() == g.nodes.len(),
                self.sets()[node as int] == p[node as int],
                forall|t: usize| #[trigger]
                    copies@.contains(t) <==> g.is_copy_target(node as int, t as int),
                forall|k: int|
                    0 <= k < i && !g.is_alloc(#[trigger] copies@[k] as int)
                        ==> self.sets()[node as int].subset_of(self.sets()[copies@[k] as int]),
            decreases copies.len() - i,
        {
            let t = copies[i];
            let ghost mid = *self;
            let ghost w1 = worklist@;
            proof {
                assert(copies@.contains(t));
                lemma_copy_target_in_graph(g, node as int, t as int);
                assert(self.graph() == self.graph@);
            }
            self.propagate_copy(t, node, worklist);
            proof {
                assert(self.graph() == self.graph@ && mid.graph() == mid.graph@);
                self.lemma_advanced_twice(mid, before, w0, w1, worklist@);
                assert(sets_within(mid.sets(), self.sets()));
                assert forall|k: int|
                    0 <= k < i + 1 && !g.is_alloc(
                        #[trigger] copies@[k] as int,
                    ) implies self.sets()[node as int].subset_of(
                    self.sets()[copies@[k] as int],
                ) by {
                    if k < i {
                        assert(copies@.contains(copies@[k]));
                        lemma_copy_target_in_graph(g, node as int, copies@[k] as int);
                        let a = mid.sets()[node as int];
                        let b = mid.sets()[copies@[k] as int];
                        assert(a.subset_of(b));
                        assert forall|x: int| self.sets()[node as int].contains(
                            x,
                        ) implies self.sets()[copies@[k] as int].contains(x) by {
                            assert(b.contains(x));
                        }
                    }
                }
            }
            i += 1;
        }
        proof {
            assert forall|t: int| #[trigger] g.is_copy_target(node as int, t) && !g.is_alloc(
                t,
            ) implies 0 <= t < self.sets().len() && self.sets()[node as int].subset_of(
                self.sets()[t],
            ) by {
                lemma_copy_target_in_graph(g, node as int, t);
                assert(copies@.contains(t as usize));
                let k = choose|k: int| 0 <= k < copies@.len() && copies@[k] == t as usize;
                assert(!g.is_alloc(copies@[k] as int));
            }
        }
    }

    /// One step of the propagation: applies every rule to `node`. No set
    /// and no edge is taken away.
    fn process(&mut self, node: usize, worklist: &mut VecDeque<usize>)
        requires
            old(self).inv(old(worklist)@, node as int),
            node < old(self).graph().nodes.len(),
        ensures
            final(self).inv(final(worklist)@, -1),
            final(self).advanced_from(*old(self), old(worklist)@, final(worklist)@),
            sets_within(old(self).sets(), final(self).sets()),
    {
        let ghost before = *self;
        let ghost w0 = worklist@;
        let ghost start = self.start@;
        let os = self.pointees(node);
        if os.len() == 0 {
            proof {
                self.lemma_advanced_none(w0);
                let g = self.graph@;
                let p = sets_of(self.pts@);
                assert(sets_fit(g, p));
                lemma_empty_settled(g, p, node as int);
            }
            return ;
        }
        let ghost o = os@[0] as int;
        proof {
            assert(os@.contains(os@[0]));
        }
        self.propagate_pointees(node, &os, worklist);
        let ghost s1 = *self;
        let ghost w1 = worklist@;
        self.propagate_aliases(node, Ghost(o), worklist);
        let ghost s2 = *self;
        let ghost w2 = worklist@;
        proof {
            s2.lemma_advanced_twice(s1, before, w0, w1, w2);
            lemma_rules_kept(start, s1.graph@, s2.graph@, s2.sets(), node as int);
        }
        self.propagate_copies(node, worklist);
        proof {
            self.lemma_advanced_twice(s2, before, w0, w2, worklist@);
            let g = self.graph@;
            let p = self.sets();
            assert(self.graph() == g && s2.graph() == s2.graph@ && s1.graph() == s1.graph@);
            assert(store_closed_at(g, s2.sets(), node as int));
            assert(load_closed_at(g, s2.sets(), node as int));
            assert(alias_closed_at(g, s2.sets(), node as int));
            assert(p[node as int] == s2.sets()[node as int]);
            assert(store_closed_at(g, p, node as int));
            assert(load_closed_at(g, p, node as int));
            assert(alias_closed_at(g, p, node as int));
            assert(settled(g, p, node as int));
        }
    }
}

/// The graph `g` with what a node of the collected graph is given before
/// the propagation starts: a place gets its storage, a literal gets what it
/// points to.
pub open spec fn anchor_node(g: GraphView, node: NodeView) -> GraphView {
    match node {
        NodeView::Place(p) => g.with_constraint(
            NodeView::Place(p),
            NodeView::Alloc(p),
            ConstraintEdge::Address,
        ),
        NodeView::Constant(c) => g.with_constraint(
            NodeView::Constant(c),
            NodeView::ConstantDeref(c),
            ConstraintEdge::Address,
        ).with_constraint(
            NodeView::ConstantDeref(c),
            NodeView::ConstantDeref(c),
            ConstraintEdge::Address,
        ),
        _ => g,
    }
}

/// The collected graph after its first `n` nodes have been given their
/// storage.
pub open spec fn anchored(collected: GraphView, n: nat) -> GraphView
    decreases n,
{
    if n == 0 {
        collected
    } else {
        anchor_node(anchored(collected, (n - 1) as nat), collected.nodes[n - 1])
    }
}

/// Every place among the first `n` nodes of `g` points to its storage.
pub open spec fn places_point_to_storage(g: GraphView, p: Pointees, n: int) -> bool {
    forall|i: int|
        0 <= i < n && i < g.nodes.len() && (#[trigger] g.nodes[i]) is Place ==> exists|j: int|
            0 <= j < g.nodes.len() && g.nodes[j] == NodeView::Alloc(g.nodes[i]->Place_0)
                && 0 <= i < p.len() && #[trigger] p[i].contains(j)
}

/// A recorded constraint keeps the graph well formed, and keeps the nodes
/// and the edges that were there.
pub proof fn lemma_with_constraint_keeps(
    g: GraphView,
    lhs: NodeView,
    rhs: NodeView,
    kind: ConstraintEdge,
)
    requires
        g.wf(),
        g.with_constraint(lhs, rhs, kind).nodes.len() <= usize::MAX,
    ensures
        g.with_constraint(lhs, rhs, kind).wf(),
        g.nodes.len() <= g.with_constraint(lhs, rhs, kind).nodes.len(),
        forall|i: int|
            0 <= i < g.nodes.len() ==> #[trigger] g.with_constraint(lhs, rhs, kind).nodes[i]
                == g.nodes[i],
        forall|s: int, t: int, k: ConstraintEdge| #[trigger]
            g.has_edge(s, t, k) ==> g.with_constraint(lhs, rhs, kind).has_edge(s, t, k),
        g.with_constraint(lhs, rhs, kind).nodes.contains(lhs),
        g.with_constraint(lhs, rhs, kind).nodes.contains(rhs),
        g.with_constraint(lhs, rhs, kind).has_edge(
            g.with_constraint(lhs, rhs, kind).index_of(rhs),
            g.with_constraint(lhs, rhs, kind).index_of(lhs),
            kind,
        ),
{
    let g1 = g.with_node(lhs);
    let g2 = g1.with_node(rhs);
    let h = g.with_constraint(lhs, rhs, kind);
    assert(h.nodes == g2.nodes);
    assert(g1.nodes.len() <= g2.nodes.len());
    lemma_with_node_wf(g, lhs);
    lemma_with_node_wf(g1, rhs);
    let il = choose|i: int| 0 <= i < g1.nodes.len() && g1.nodes[i] == lhs;
    assert(g2.nodes[il] == lhs);
    assert(g2.nodes.contains(lhs));
    let a = g2.index_of(rhs);
    let b = g2.index_of(lhs);
    assert(0 <= a < g2.nodes.len());
    assert(0 <= b < g2.nodes.len());
    lemma_with_new_edge_wf(g2, a, b, kind);
    assert forall|i: int| 0 <= i < g.nodes.len() implies #[trigger] h.nodes[i] == g.nodes[i] by {
        assert(g1.nodes[i] == g.nodes[i]);
    }
    assert forall|s: int, t: int, k: ConstraintEdge| #[trigger]
        g.has_edge(s, t, k) implies h.has_edge(s, t, k) by {
        assert(g2.edges == g.edges);
        assert(g2.has_edge(s, t, k));
    }
}

/// Every place among the first `n` nodes of `g` has its storage in `g`,
/// with an address edge from the storage to the place.
pub open spec fn places_have_storage(g: GraphView, n: int) -> bool {
    forall|i: int|
        0 <= i < n && i < g.nodes.len() && (#[trigger] g.nodes[i]) is Place ==> exists|j: int|
            0 <= j < g.nodes.len() && g.nodes[j] == NodeView::Alloc(g.nodes[i]->Place_0)
                && #[trigger] g.has_edge(j, i, ConstraintEdge::Address)
}

impl<'a> Andersen<'a> {
    /// There is a set for every node of the graph, and the graph is well
    /// formed.
    pub closed spec fn wf(&self) -> bool {
        &&& self.graph@.wf()
        &&& is_square(self.pts@, self.graph@.nodes.len())
    }

    /// An analysis of `body` that has not run yet.
    pub fn new(body: &'a Body) -> (r: Self)
        ensures
            r.wf(),
            r.body() == *body,
            r.graph().nodes.len() == 0,
            r.sets().len() == 0,
    {
        let graph = ConstraintGraph::new();
        Andersen { body, graph, pts: Vec::new(), start: Ghost(graph@) }
    }

    /// Gives every place of the graph its storage and every literal what it
    /// points to.
    fn anchor(&mut self)
        requires
            old(self).graph().wf(),
        ensures
            final(self).graph() == anchored(old(self).graph(), old(self).graph().nodes.len()),
            final(self).graph().wf(),
            final(self).body() == old(self).body(),
            old(self).graph().nodes.len() <= final(self).graph().nodes.len(),
            forall|i: int|
                0 <= i < old(self).graph().nodes.len() ==> #[trigger] final(self).graph().nodes[i]
                    == old(self).graph().nodes[i],
            places_have_storage(final(self).graph(), old(self).graph().nodes.len() as int),
    {
        let ghost collected = self.graph@;
        let n = self.graph.node_count();
        let mut i: usize = 0;
        while i < n
            invariant
                i <= n,
                n == collected.nodes.len(),
                self.body == old(self).body,
                self.graph@.wf(),
                self.graph@ == anchored(collected, i as nat),
                n <= self.graph@.nodes.len(),
                forall|k: int| 0 <= k < n ==> #[trigger] self.graph@.nodes[k] == collected.nodes[k],
                places_have_storage(self.graph@, i as int),
            decreases n - i,
        {
            let node = self.graph.node(i).clone();
            let ghost g0 = self.graph@;
            match node {
                ConstraintNode::Place(place) => {
                    self.graph.add_alloc(&place);
                    proof {
                        let lhs = NodeView::Place(place@);
                        let rhs = NodeView::Alloc(place@);
                        let g1 = self.graph@;
                        lemma_with_constraint_keeps(g0, lhs, rhs, ConstraintEdge::Address);
                        let j = g1.index_of(rhs);
                        let l = g1.index_of(lhs);
                        lemma_index_unique(g1, i as int, lhs);
                        assert(g1.has_edge(j, i as int, ConstraintEdge::Address));
                        assert forall|k: int|
                            0 <= k < i + 1 && k < g1.nodes.len() && (#[trigger] g1.nodes[k]) is Place implies exists|
                            j: int,
                        |
                            0 <= j < g1.nodes.len() && g1.nodes[j] == NodeView::Alloc(
                                g1.nodes[k]->Place_0,
                            ) && #[trigger] g1.has_edge(j, k, ConstraintEdge::Address) by {
                            if k < i {
                                let j0 = choose|j: int|
                                    0 <= j < g0.nodes.len() && g0.nodes[j] == NodeView::Alloc(
                                        g0.nodes[k]->Place_0,
                                    ) && #[trigger] g0.has_edge(j, k, ConstraintEdge::Address);
                                assert(g1.nodes[j0] == g0.nodes[j0]);
                                assert(g1.has_edge(j0, k, ConstraintEdge::Address));
                            } else {
                                assert(g1.has_edge(j, k, ConstraintEdge::Address));
                            }
                        }
                    }
                },
                ConstraintNode::Constant(constant) => {
                    self.graph.add_constant(&constant);
                    proof {
                        let c = NodeView::Constant(constant@);
                        let d = NodeView::ConstantDeref(constant@);
                        let g1 = g0.with_constraint(c, d, ConstraintEdge::Address);
                        let g2 = self.graph@;
                        assert(g1.nodes.len() <= g2.nodes.len()) by {
                            assert(g2.nodes == g1.with_node(d).with_node(d).nodes);
                        }
                        lemma_with_constraint_keeps(g0, c, d, ConstraintEdge::Address);
                        lemma_with_constraint_keeps(g1, d, d, ConstraintEdge::Address);
                        assert forall|k: int|
                            0 <= k < i + 1 && k < g2.nodes.len() && (#[trigger] g2.nodes[k]) is Place implies exists|
                            j: int,
                        |
                            0 <= j < g2.nodes.len() && g2.nodes[j] == NodeView::Alloc(
                                g2.nodes[k]->Place_0,
                            ) && #[trigger] g2.has_edge(j, k, ConstraintEdge::Address) by {
                            assert(g2.nodes[k] == g1.nodes[k]);
                            assert(g1.nodes[k] == g0.nodes[k]);
                            let j0 = choose|j: int|
                                0 <= j < g0.nodes.len() && g0.nodes[j] == NodeView::Alloc(
                                    g0.nodes[k]->Place_0,
                                ) && #[trigger] g0.has_edge(j, k, ConstraintEdge::Address);
                            assert(g1.nodes[j0] == g0.nodes[j0]);
                            assert(g2.nodes[j0] == g1.nodes[j0]);
                            assert(g1.has_edge(j0, k, ConstraintEdge::Address));
                            assert(g2.has_edge(j0, k, ConstraintEdge::Address));
                        }
                        assert forall|k: int| 0 <= k < n implies #[trigger] g2.nodes[k]
                            == collected.nodes[k] by {
                            assert(g2.nodes[k] == g1.nodes[k]);
                            assert(g1.nodes[k] == g0.nodes[k]);
                        }
                    }
                },
                _ => {},
            }
            i += 1;
        }
    }
}

impl<'a> Andersen<'a> {
    /// Empty sets for the `n` nodes of the graph.
    fn clear_sets(&mut self, n: usize)
        ensures
            final(self).graph() == old(self).graph(),
            final(self).start() == old(self).start(),
            final(self).body() == old(self).body(),
            is_square(final(self).pts@, n as nat),
            forall|i: int, j: int|
                0 <= i < n && 0 <= j < n ==> !(#[trigger] final(self).pts@[i]@[j]),
    {
        let mut rows: Vec<Vec<bool>> = Vec::new();
        let mut i: usize = 0;
        while i < n
            invariant
                i <= n,
                rows@.len() == i,
                forall|k: int| 0 <= k < i ==> (#[trigger] rows@[k])@.len() == n,
                forall|k: int, j: int| 0 <= k < i && 0 <= j < n ==> !(#[trigger] rows@[k]@[j]),
            decreases n - i,
        {
            let mut row: Vec<bool> = Vec::new();
            let mut j: usize = 0;
            while j < n
                invariant
                    j <= n,
                    row@.len() == j,
                    forall|k: int| 0 <= k < j ==> !row@[k],
                decreases n - j,
            {
                row.push(false);
                j += 1;
            }
            rows.push(row);
            i += 1;
        }
        self.pts = rows;
    }

    /// Makes the node `n` point to the node `o`.
    fn add_pointee(&mut self, n: usize, o: usize)
        requires
            is_square(old(self).pts@, old(self).graph().nodes.len()),
            n < old(self).graph().nodes.len(),
            o < old(self).graph().nodes.len(),
        ensures
            final(self).graph() == old(self).graph(),
            final(self).start() == old(self).start(),
            final(self).body() == old(self).body(),
            is_square(final(self).pts@, final(self).graph().nodes.len()),
            final(self).sets() == old(self).sets().update(
                n as int,
                old(self).sets()[n as int].insert(o as int),
            ),
    {
        let ghost rows0 = self.pts@;
        let len = self.pts[n].len();
        let mut row: Vec<bool> = Vec::new();
        let mut j: usize = 0;
        while j < len
            invariant
                j <= len,
                n < self.pts@.len(),
                len == self.pts@[n as int]@.len(),
                self.pts@ == rows0,
                row@.len() == j,
                forall|k: int| 0 <= k < j ==> row@[k] == (rows0[n as int]@[k] || k == o),
            decreases len - j,
        {
            row.push(self.pts[n][j] || j == o);
            j += 1;
        }
        self.pts.set(n, row);
        proof {
            let sets_before = sets_of(rows0);
            let sets_now = sets_of(self.pts@);
            let q = sets_before.update(n as int, sets_before[n as int].insert(o as int));
            assert(sets_now.len() == q.len());
            assert forall|m: int| 0 <= m < sets_now.len() implies #[trigger] sets_now[m] == q[m] by {
                if m == n {
                    assert(sets_now[m] =~= q[m]);
                } else {
                    assert(self.pts@[m] == rows0[m]);
                    assert(sets_now[m] =~= q[m]);
                }
            }
            assert(sets_now =~= q);
        }
    }

    /// Every place among the first `n` nodes points to its storage.
    pub open spec fn places_point_to_storage(&self, n: int) -> bool {
        places_point_to_storage(self.graph(), self.sets(), n)
    }

    /// Propagates points-to sets along the graph until nothing changes.
    ///
    /// The graph as it is on entry holds the collected constraints. Its
    /// places get their storage and its literals what they point to, the
    /// address edges give the first pointees, and then the rules are
    /// applied to one waiting node after the other until no node waits.
    /// Every derivation adds a pointee or a copy edge that was not there,
    /// and there are finitely many of both, so the propagation ends.
    fn solve(&mut self)
        requires
            old(self).graph().wf(),
        ensures
            final(self).body() == old(self).body(),
            final(self).start() == anchored(old(self).graph(), old(self).graph().nodes.len()),
            is_least_solution(final(self).start(), final(self).graph(), final(self).sets()),
            final(self).places_point_to_storage(old(self).graph().nodes.len() as int),
            final(self).wf(),
    {
        let ghost collected = self.graph@;
        self.anchor();
        let ghost start = self.graph@;
        self.start = Ghost(start);
        let n = self.graph.node_count();
        self.clear_sets(n);
        let mut worklist: VecDeque<usize> = VecDeque::new();
        let mut i: usize = 0;
        while i < n
            invariant
                i <= n,
                worklist@.len() == i,
                forall|k: int| 0 <= k < i ==> worklist@[k] == k,
            decreases n - i,
        {
            worklist.push_back(i);
            i += 1;
        }
        let edges = self.graph.edges();
        let mut e: usize = 0;
        proof {
            assert(sets_of(self.pts@) =~= Seq::new(n as nat, |m: int| Set::<int>::empty())) by {
                assert forall|m: int| 0 <= m < n implies #[trigger] sets_of(self.pts@)[m]
                    =~= Set::<int>::empty() by {}
            }
        }
        while e < edges.len()
            invariant
                e <= edges.len(),
                edges@ == start.edges,
                self.graph@ == start,
                self.start@ == start,
                self.body == old(self).body,
                start.wf(),
                n == start.nodes.len(),
                is_square(self.pts@, n as nat),
                worklist@.len() >= n,
                forall|k: int| 0 <= k < n ==> worklist@[k] == k,
                forall|k: int| 0 <= k < worklist@.len() ==> (#[trigger] worklist@[k]) < n,
                forall|k: int|
                    0 <= k < e && (#[trigger] edges@[k]).kind == ConstraintEdge::Address
                        ==> sets_of(self.pts@)[edges@[k].target as int].contains(
                        edges@[k].source as int,
                    ),
                forall|m: int, o: int|
                    0 <= m < n && (#[trigger] sets_of(self.pts@)[m].contains(o)) ==> start.has_edge(
                        o,
                        m,
                        ConstraintEdge::Address,
                    ),
            decreases edges.len() - e,
        {
            let edge = edges[e];
            if edge.kind == ConstraintEdge::Address {
                let ghost sets_before = sets_of(self.pts@);
                proof {
                    assert(start.edges[e as int].source < n);
                    assert(self.graph() == self.graph@);
                }
                self.add_pointee(edge.target, edge.source);
                worklist.push_back(edge.target);
                proof {
                    let sets_now = sets_of(self.pts@);
                    assert(self.sets() == sets_now);
                    assert forall|k: int|
                        0 <= k < e + 1 && (#[trigger] edges@[k]).kind
                            == ConstraintEdge::Address implies sets_now[edges@[k].target as int].contains(
                        edges@[k].source as int,
                    ) by {
                        if k < e {
                            assert(start.edges[k].target < n);
                            assert(sets_before[edges@[k].target as int].contains(edges@[k].source as int));
                        }
                    }
                    assert forall|m: int, o: int|
                        0 <= m < n && (#[trigger] sets_now[m].contains(o)) implies start.has_edge(
                        o,
                        m,
                        ConstraintEdge::Address,
                    ) by {
                        if m == edge.target && o == edge.source {
                            assert(start.edges[e as int].source == o);
                        } else {
                            assert(sets_before[m].contains(o));
                        }
                    }
                }
            }
            e += 1;
        }
        proof {
            let g = self.graph@;
            let p = sets_of(self.pts@);
            let w = worklist@;
            assert(copy_extension(start, g)) by {
                assert(g.edges.subrange(0, start.edges.len() as int) =~= start.edges);
            }
            assert(address_closed(g, p)) by {
                assert forall|s: int, t: int| #[trigger]
                    g.has_edge(s, t, ConstraintEdge::Address) implies 0 <= t < p.len()
                    && p[t].contains(s) by {
                    let k = choose|k: int|
                        0 <= k < g.edges.len() && (#[trigger] g.edges[k]).source == s
                            && g.edges[k].target == t && g.edges[k].kind
                            == ConstraintEdge::Address;
                    assert(edges@[k].kind == ConstraintEdge::Address);
                }
            }
            assert forall|m: int| 0 <= m < g.nodes.len() implies m == -1 || w.contains(
                m as usize,
            ) || #[trigger] settled(g, p, m) by {
                assert(w[m] == m as usize);
            }
            assert(below_all_solutions(start, g, p)) by {
                assert forall|h: GraphView, q: Pointees| #[trigger]
                    solves(start, h, q) implies within(g, p, h, q) by {
                    lemma_static_edges(start, h);
                    assert forall|m: int, o: int|
                        0 <= m < p.len() && (#[trigger] p[m].contains(o)) implies q[m].contains(
                        o,
                    ) by {
                        assert(start.has_edge(o, m, ConstraintEdge::Address));
                        assert(h.has_edge(o, m, ConstraintEdge::Address));
                    }
                }
            }
            assert(self.inv(w, -1));
        }
        let ghost first = sets_of(self.pts@);
        while worklist.len() > 0
            invariant
                self.inv(worklist@, -1),
                self.start@ == start,
                self.graph@.nodes.len() == n,
                self.body == old(self).body,
                sets_within(first, sets_of(self.pts@)),
            decreases self.remaining() + worklist@.len(),
        {
            let ghost before = *self;
            let ghost w0 = worklist@;
            let node = worklist.pop_front().unwrap();
            proof {
                let w1 = worklist@;
                let g = self.graph@;
                let p = sets_of(self.pts@);
                assert(w0[0] == node);
                assert forall|m: int| 0 <= m < g.nodes.len() implies m == node || w1.contains(
                    m as usize,
                ) || #[trigger] settled(g, p, m) by {
                    if m != node && w0.contains(m as usize) {
                        let k = choose|k: int| 0 <= k < w0.len() && w0[k] == m as usize;
                        assert(w1[k - 1] == m as usize);
                    }
                }
                assert forall|k: int| 0 <= k < w1.len() implies (#[trigger] w1[k])
                    < g.nodes.len() by {
                    assert(w1[k] == w0[k + 1]);
                }
                assert(self.inv(w1, node as int));
                assert(self.graph() == g);
            }
            let ghost w1 = worklist@;
            self.process(node, &mut worklist);
            proof {
                assert(self.advanced_from(before, w1, worklist@));
                let sets_before = sets_of(before.pts@);
                let sets_now = sets_of(self.pts@);
                assert forall|m: int, o: int|
                    0 <= m < first.len() && (#[trigger] first[m].contains(o)) implies sets_now[m].contains(
                    o,
                ) by {
                    assert(sets_before[m].contains(o));
                }
            }
        }
        proof {
            let g = self.graph@;
            let p = sets_of(self.pts@);
            assert(worklist@.len() == 0);
            assert forall|m: int| 0 <= m < g.nodes.len() implies #[trigger] settled(g, p, m) by {
                assert(!worklist@.contains(m as usize));
            }
            assert(sets_fit(g, p));
            assert(closed(g, p));
            // The places still point to their storage.
            let n0 = collected.nodes.len() as int;
            assert forall|i: int|
                0 <= i < n0 && i < g.nodes.len() && (#[trigger] g.nodes[i]) is Place implies exists|
                j: int,
            |
                0 <= j < g.nodes.len() && g.nodes[j] == NodeView::Alloc(g.nodes[i]->Place_0) && 0
                    <= i < p.len() && #[trigger] p[i].contains(j) by {
                assert(start.nodes[i] is Place);
                let j = choose|j: int|
                    0 <= j < start.nodes.len() && start.nodes[j] == NodeView::Alloc(
                        start.nodes[i]->Place_0,
                    ) && #[trigger] start.has_edge(j, i, ConstraintEdge::Address);
                lemma_static_edges(start, g);
                assert(g.has_edge(j, i, ConstraintEdge::Address));
                assert(p[i].contains(j));
            }
        }
    }
}

/// The result of the points-to analysis of a function body: the nodes of
/// its constraint graph and, for each node, the nodes it may point to.
#[derive(Debug)]
pub struct PointsToMap {
    nodes: Vec<ConstraintNode>,
    sets: Vec<Vec<bool>>,
}

/// A `PointsToMap` as a mathematical value: the nodes by number, and for
/// each node the set of the numbers of its pointees.
pub struct PointsToView {
    pub nodes: Seq<NodeView>,
    pub sets: Pointees,
}

impl PointsToView {
    /// No node occurs twice, every node has a set, and the sets hold
    /// numbers of nodes.
    pub open spec fn wf(self) -> bool {
        &&& self.nodes.no_duplicates()
        &&& self.sets.len() == self.nodes.len()
        &&& forall|n: int, o: int|
            0 <= n < self.sets.len() && (#[trigger] self.sets[n].contains(o)) ==> 0 <= o
                < self.nodes.len()
    }

    /// Whether the node `n` is known and points to the node `o`.
    pub open spec fn points_to(self, n: NodeView, o: NodeView) -> bool {
        exists|i: int, j: int|
            0 <= i < self.nodes.len() && 0 <= j < self.nodes.len() && self.nodes[i] == n
                && self.nodes[j] == o && i < self.sets.len() && #[trigger] self.sets[i].contains(j)
    }

    /// The points-to sets as a map from nodes to sets of nodes. The keys
    /// are the nodes that point to something.
    pub open spec fn as_map(self) -> Map<NodeView, Set<NodeView>> {
        Map::new(
            |n: NodeView| exists|o: NodeView| self.points_to(n, o),
            |n: NodeView| Set::new(|o: NodeView| self.points_to(n, o)),
        )
    }
}

/// The constraint graph of `body` from which the propagation starts: the
/// constraints of its statements and calls, the partial copies, and the
/// storage of its places and literals.
pub open spec fn start_graph(body: Body) -> GraphView {
    let collected = with_partial_copies(body_constraints(body));
    anchored(collected, collected.nodes.len())
}

/// `m` is the result of the points-to analysis of `body`: its nodes are
/// those of the constraint graph of `body`, and its sets are the least sets
/// that satisfy the constraints.
pub open spec fn is_points_to_of(body: Body, m: PointsToView) -> bool {
    exists|g: GraphView| #[trigger]
        is_least_solution(start_graph(body), g, m.sets) && g.nodes == m.nodes
}

/// There is one result of the points-to analysis of a body.
pub proof fn lemma_points_to_unique(body: Body, a: PointsToView, b: PointsToView)
    requires
        is_points_to_of(body, a),
        is_points_to_of(body, b),
    ensures
        a == b,
{
    let start = start_graph(body);
    let g = choose|g: GraphView| #[trigger]
        is_least_solution(start, g, a.sets) && g.nodes == a.nodes;
    let h = choose|h: GraphView| #[trigger]
        is_least_solution(start, h, b.sets) && h.nodes == b.nodes;
    assert(within(g, a.sets, h, b.sets));
    assert(within(h, b.sets, g, a.sets));
    assert(a.nodes == b.nodes);
    assert(a.sets =~= b.sets) by {
        assert forall|n: int| 0 <= n < a.sets.len() implies #[trigger] a.sets[n] =~= b.sets[n] by {
            assert forall|o: int| a.sets[n].contains(o) <==> b.sets[n].contains(o) by {}
        }
    }
}

/// The result of the points-to analysis of `body`.
pub open spec fn points_to(body: Body) -> PointsToView {
    choose|m: PointsToView| is_points_to_of(body, m)
}

impl View for PointsToMap {
    type V = PointsToView;

    closed spec fn view(&self) -> PointsToView {
        PointsToView {
            nodes: self.nodes@.map_values(|n: ConstraintNode| n@),
            sets: sets_of(self.sets@),
        }
    }
}

impl PointsToMap {
    /// The flags have the shape of a square over the nodes, and no node
    /// occurs twice.
    pub closed spec fn wf(&self) -> bool {
        &&& is_square(self.sets@, self.nodes@.len())
        &&& self@.nodes.no_duplicates()
    }

    /// A well-formed map has a well-formed view.
    pub proof fn lemma_view_wf(&self)
        requires
            self.wf(),
        ensures
            self@.wf(),
    {
    }

    /// The number of nodes.
    pub fn node_count(&self) -> (n: usize)
        ensures
            n == self@.nodes.len(),
    {
        self.nodes.len()
    }

    /// The node with number `i`.
    pub fn node(&self, i: usize) -> (r: &ConstraintNode)
        requires
            i < self@.nodes.len(),
        ensures
            r@ == self@.nodes[i as int],
    {
        &self.nodes[i]
    }

    /// The number of `node`, or `None` where the map does not know it.
    pub fn index_of(&self, node: &ConstraintNode) -> (r: Option<usize>)
        ensures
            match r {
                Some(i) => i < self@.nodes.len() && self@.nodes[i as int] == node@,
                None => !self@.nodes.contains(node@),
            },
    {
        let mut i: usize = 0;
        while i < self.nodes.len()
            invariant
                i <= self.nodes.len(),
                forall|k: int| 0 <= k < i ==> self@.nodes[k] != node@,
            decreases self.nodes.len() - i,
        {
            if self.nodes[i].same(node) {
                return Some(i);
            }
            i += 1;
        }
        None
    }

    /// Whether the node `n` points to the node `o`.
    pub fn points_to(&self, n: usize, o: usize) -> (r: bool)
        requires
            self.wf(),
            n < self@.nodes.len(),
            o < self@.nodes.len(),
        ensures
            r == self@.sets[n as int].contains(o as int),
    {
        self.sets[n][o]
    }

    /// The numbers of the pointees of the node `n`, in rising order.
    pub fn pointees(&self, n: usize) -> (r: Vec<usize>)
        requires
            self.wf(),
            n < self@.nodes.len(),
        ensures
            forall|o: usize| #[trigger] r@.contains(o) <==> self@.sets[n as int].contains(o as int),
            forall|i: int, j: int| 0 <= i < j < r@.len() ==> r@[i] < r@[j],
            forall|i: int| 0 <= i < r@.len() ==> (#[trigger] r@[i]) < self@.nodes.len(),
    {
        let row = &self.sets[n];
        let mut r: Vec<usize> = Vec::new();
        let mut j: usize = 0;
        while j < row.len()
            invariant
                j <= row.len(),
                forall|o: usize| #[trigger] r@.contains(o) <==> o < j && row@[o as int],
                forall|a: int, b: int| 0 <= a < b < r@.len() ==> r@[a] < r@[b],
                forall|a: int| 0 <= a < r@.len() ==> (#[trigger] r@[a]) < j,
            decreases row.len() - j,
        {
            let ghost before = r@;
            if row[j] {
                r.push(j);
                proof {
                    assert(r@[before.len() as int] == j);
                    assert forall|o: usize| #[trigger] r@.contains(o) <==> o < j + 1 && row@[o as int] by {
                        if r@.contains(o) {
                            let k = choose|k: int| 0 <= k < r@.len() && r@[k] == o;
                            if k < before.len() {
                                assert(before[k] == o);
                                assert(before.contains(o));
                            }
                        }
                        if o < j && row@[o as int] {
                            assert(before.contains(o));
                            let k = choose|k: int| 0 <= k < before.len() && before[k] == o;
                            assert(r@[k] == o);
                        }
                    }
                }
            }
            j += 1;
        }
        r
    }

    /// The pointees of `node`, or `None` where the map does not know the
    /// node or the node points to nothing.
    pub fn get(&self, node: &ConstraintNode) -> (r: Option<Vec<usize>>)
        requires
            self.wf(),
        ensures
            match r {
                Some(os) => exists|n: int|
                    0 <= n < self@.nodes.len() && self@.nodes[n] == node@ && os@.len() > 0 && (
                    forall|o: usize| #[trigger]
                        os@.contains(o) <==> self@.sets[n].contains(o as int)) && (forall|
                        i: int,
                        j: int,
                    | 0 <= i < j < os@.len() ==> os@[i] < os@[j]) && (forall|i: int|
                        0 <= i < os@.len() ==> (#[trigger] os@[i]) < self@.nodes.len()),
                None => forall|n: int|
                    0 <= n < self@.nodes.len() && self@.nodes[n] == node@ ==> self@.sets[n]
                        == Set::<int>::empty(),
            },
    {
        let count = self.nodes.len();
        match self.index_of(node) {
            Some(n) => {
                let os = self.pointees(n);
                if os.len() == 0 {
                    proof {
                        assert forall|m: int|
                            0 <= m < self@.nodes.len() && self@.nodes[m] == node@ implies self@.sets[m]
                            == Set::<int>::empty() by {
                            assert(m == n);
                            assert forall|o: int| !self@.sets[m].contains(o) by {
                                if self@.sets[m].contains(o) {
                                    assert(0 <= o < self.sets@[m]@.len());
                                    assert(self.sets@[m]@.len() == count);
                                    assert(os@.contains(o as usize));
                                }
                            }
                            assert(self@.sets[m] =~= Set::<int>::empty());
                        }
                    }
                    None
                } else {
                    Some(os)
                }
            },
            None => None,
        }
    }
}

impl Clone for PointsToMap {
    fn clone(&self) -> (r: Self)
        ensures
            r@ == self@,
            self.wf() ==> r.wf(),
    {
        let mut nodes: Vec<ConstraintNode> = Vec::new();
        let mut i: usize = 0;
        while i < self.nodes.len()
            invariant
                i <= self.nodes.len(),
                nodes@.len() == i,
                forall|k: int| 0 <= k < i ==> (#[trigger] nodes@[k])@ == self.nodes@[k]@,
            decreases self.nodes.len() - i,
        {
            nodes.push(self.nodes[i].clone());
            i += 1;
        }
        let mut sets: Vec<Vec<bool>> = Vec::new();
        let mut n: usize = 0;
        while n < self.sets.len()
            invariant
                n <= self.sets.len(),
                sets@.len() == n,
                forall|k: int| 0 <= k < n ==> (#[trigger] sets@[k])@ == self.sets@[k]@,
            decreases self.sets.len() - n,
        {
            let source = &self.sets[n];
            let mut row: Vec<bool> = Vec::new();
            let mut j: usize = 0;
            while j < source.len()
                invariant
                    j <= source.len(),
                    row@.len() == j,
                    forall|k: int| 0 <= k < j ==> row@[k] == source@[k],
                decreases source.len() - j,
            {
                row.push(source[j]);
                j += 1;
            }
            assert(row@ =~= source@);
            sets.push(row);
            n += 1;
        }
        let r = PointsToMap { nodes, sets };
        proof {
            assert(r@.nodes =~= self@.nodes);
            assert(r@.sets =~= self@.sets) by {
                assert forall|k: int| 0 <= k < r@.sets.len() implies #[trigger] r@.sets[k]
                    =~= self@.sets[k] by {}
            }
        }
        r
    }
}

impl<'a> Andersen<'a> {
    /// Runs the analysis: collects the constraints of the body, closes them
    /// under partial copies, and propagates points-to sets until nothing
    /// changes. Afterwards the graph and the sets are the least solution of
    /// the constraints, and every place that the constraints of the body
    /// name points to its storage.
    pub fn analyze(&mut self)
        ensures
            final(self).wf(),
            final(self).body() == old(self).body(),
            final(self).start() == start_graph(old(self).body()),
            is_least_solution(final(self).start(), final(self).graph(), final(self).sets()),
            final(self).places_point_to_storage(
                body_constraints(old(self).body()).nodes.len() as int,
            ),
    {
        let mut collector = ConstraintGraphCollector::new(self.body);
        proof {
            let empty = GraphView { nodes: Seq::empty(), edges: Seq::empty() };
            assert(collector.graph().nodes =~= empty.nodes);
            assert(collector.graph().edges =~= empty.edges);
            assert(collector.graph() == empty);
        }
        collector.visit_body();
        let ghost collected = collector.graph();
        let graph = collector.finish();
        let ghost c = graph@;
        self.graph = graph;
        self.solve();
    }

    /// Hands out the result of the analysis.
    pub fn finish(self) -> (r: PointsToMap)
        requires
            self.wf(),
        ensures
            r@.nodes == self.graph().nodes,
            r@.sets == self.sets(),
            r.wf(),
            is_least_solution(start_graph(self.body()), self.graph(), self.sets()) ==> r@
                == points_to(self.body()),
    {
        let nodes = self.graph.nodes();
        let r = PointsToMap { nodes, sets: self.pts };
        proof {
            assert(r@.nodes =~= self.graph@.nodes);
            if is_least_solution(start_graph(self.body()), self.graph(), self.sets()) {
                assert(r@.sets == self.sets());
                assert(is_least_solution(start_graph(self.body()), self.graph(), r@.sets)
                    && self.graph().nodes == r@.nodes);
                assert(is_points_to_of(self.body(), r@));
                lemma_points_to_unique(self.body(), r@, points_to(self.body()));
            }
        }
        r
    }
}

/// In a closed graph, what `a` points to reaches `c` along two copy edges
/// from `a` over `b` to `c`, where neither `b` nor `c` is the storage
/// behind a place.
pub proof fn lemma_copy_transitive(g: GraphView, p: Pointees, a: int, b: int, c: int)
    requires
        g.wf(),
        closed(g, p),
        g.has_edge(a, b, ConstraintEdge::Copy),
        g.has_edge(b, c, ConstraintEdge::Copy),
        !g.is_alloc(b),
        !g.is_alloc(c),
    ensures
        p[a].subset_of(p[c]),
{
    lemma_graph_has_edge(g, a, b, ConstraintEdge::Copy);
    lemma_graph_has_edge(g, b, c, ConstraintEdge::Copy);
    assert(g.copy_arrival(b) == Some(b));
    assert(g.copy_arrival(c) == Some(c));
    assert(g.is_copy_target(a, b));
    assert(g.is_copy_target(b, c));
    assert(settled(g, p, a));
    assert(settled(g, p, b));
    assert(p[a].subset_of(p[b]));
    assert(p[b].subset_of(p[c]));
}

/// Where `b` takes the address of `a`, `c` is a copy of `b` and `d` is
/// loaded through `c`, in a closed graph `b` and `c` point to `a`, and `d`
/// points to whatever `a` points to: to the storage of `a`, where `a` is a
/// place that has its storage.
pub proof fn lemma_load_through_copy(g: GraphView, p: Pointees, a: int, b: int, c: int, d: int)
    requires
        g.wf(),
        closed(g, p),
        g.has_edge(a, b, ConstraintEdge::Address),
        g.has_edge(b, c, ConstraintEdge::Copy),
        g.has_edge(c, d, ConstraintEdge::Load),
        !g.is_alloc(c),
        !g.is_alloc(d),
    ensures
        p[b].contains(a),
        p[c].contains(a),
        p[a].subset_of(p[d]),
{
    lemma_graph_has_edge(g, a, b, ConstraintEdge::Address);
    lemma_graph_has_edge(g, b, c, ConstraintEdge::Copy);
    lemma_graph_has_edge(g, c, d, ConstraintEdge::Load);
    assert(g.copy_arrival(c) == Some(c));
    assert(g.is_copy_target(b, c));
    assert(settled(g, p, b));
    assert(p[b].subset_of(p[c]));
    assert(settled(g, p, c));
    assert(g.has_edge(a, d, ConstraintEdge::Copy));
    assert(g.copy_arrival(d) == Some(d));
    assert(g.is_copy_target(a, d));
    assert(settled(g, p, a));
}

/// An edge of the graph from which the propagation starts is an edge of
/// every graph that adds copy edges to it.
pub proof fn lemma_start_edge_kept(
    start: GraphView,
    g: GraphView,
    s: int,
    t: int,
    kind: ConstraintEdge,
)
    requires
        copy_extension(start, g),
        start.has_edge(s, t, kind),
    ensures
        g.has_edge(s, t, kind),
{
    let i = choose|i: int|
        0 <= i < start.edges.len() && (#[trigger] start.edges[i]).source == s
            && start.edges[i].target == t && start.edges[i].kind == kind;
    assert(g.edges.subrange(0, start.edges.len() as int)[i] == g.edges[i]);
}

/// The result of the analysis of a body in which `b` takes the address of
/// `a`, `c` is a copy of `b` and `d` is loaded through `c`: `b` and `c`
/// point to `a`, and `d` points to whatever `a` points to.
pub proof fn lemma_loaded_through_a_copy(
    body: Body,
    m: PointsToView,
    a: int,
    b: int,
    c: int,
    d: int,
)
    requires
        is_points_to_of(body, m),
        start_graph(body).has_edge(a, b, ConstraintEdge::Address),
        start_graph(body).has_edge(b, c, ConstraintEdge::Copy),
        start_graph(body).has_edge(c, d, ConstraintEdge::Load),
        !(m.nodes[c] is Alloc),
        !(m.nodes[d] is Alloc),
    ensures
        m.sets[b].contains(a),
        m.sets[c].contains(a),
        m.sets[a].subset_of(m.sets[d]),
{
    let start = start_graph(body);
    let g = choose|g: GraphView| #[trigger]
        is_least_solution(start, g, m.sets) && g.nodes == m.nodes;
    lemma_start_edge_kept(start, g, a, b, ConstraintEdge::Address);
    lemma_start_edge_kept(start, g, b, c, ConstraintEdge::Copy);
    lemma_start_edge_kept(start, g, c, d, ConstraintEdge::Load);
    lemma_load_through_copy(g, m.sets, a, b, c, d);
}

/// In a closed graph the target of an address edge points to its source.
pub proof fn lemma_address_sound(g: GraphView, p: Pointees, s: int, t: int)
    requires
        closed(g, p),
        g.has_edge(s, t, ConstraintEdge::Address),
    ensures
        p[t].contains(s),
{
}

} // verus!

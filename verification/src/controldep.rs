//! Control dependence: which branches decide whether a node of a
//! control-flow graph runs.

use crate::fx::{set_insert, set_new};
use rustc_hash::FxHashSet;
use vstd::prelude::*;

verus! {

/// A control-flow graph together with its post-dominator tree.
#[derive(Debug, PartialEq, Eq)]
pub struct FlowGraph {
    /// For each node, the nodes that may run next.
    pub successors: Vec<Vec<usize>>,
    /// The node at which control enters.
    pub start_node: usize,
    /// For each node, the nodes that post-dominate it, the nearest first.
    /// The chain of a node begins with the node itself.
    pub post_dominators: Vec<Vec<usize>>,
}

impl FlowGraph {
    /// The number of nodes.
    pub open spec fn num_nodes(self) -> nat {
        self.successors.len() as nat
    }

    /// There is a chain of post-dominators for every node, and the
    /// successors, the chains and the start node name nodes of the graph. A
    /// graph without nodes, as for a function without a body, is well
    /// formed whatever its start node.
    pub open spec fn wf(self) -> bool {
        &&& self.post_dominators.len() == self.successors.len()
        &&& (self.start_node < self.successors.len() || self.successors.len() == 0)
        &&& forall|a: int, i: int|
            0 <= a < self.successors.len() && 0 <= i < self.successors[a].len() ==> (
            #[trigger] self.successors[a][i]) < self.successors.len()
        &&& forall|a: int, i: int|
            0 <= a < self.post_dominators.len() && 0 <= i < self.post_dominators[a].len() ==> (
            #[trigger] self.post_dominators[a][i]) < self.successors.len()
    }

    /// The chain of post-dominators of `a`.
    pub open spec fn chain(self, a: int) -> Seq<usize> {
        self.post_dominators[a]@
    }

    /// `b` is among the post-dominators of `a`.
    pub open spec fn is_post_dominated_by(self, a: int, b: int) -> bool {
        exists|i: int| 0 <= i < self.chain(a).len() && #[trigger] self.chain(a)[i] == b
    }

    /// The place in the chain of `a`, from `from` on, of the first node
    /// that also post-dominates `b`; the length of the chain where there is
    /// none.
    pub open spec fn common_at(self, a: int, b: int, from: int) -> int
        decreases self.chain(a).len() - from,
    {
        if from < 0 || from >= self.chain(a).len() {
            self.chain(a).len() as int
        } else if self.is_post_dominated_by(b, self.chain(a)[from] as int) {
            from
        } else {
            self.common_at(a, b, from + 1)
        }
    }

    /// The nearest node that post-dominates both `a` and `b`.
    pub open spec fn nearest_common_dominator(self, a: int, b: int) -> Option<usize> {
        let i = self.common_at(a, b, 0);
        if i < self.chain(a).len() {
            Some(self.chain(a)[i])
        } else {
            None
        }
    }

    /// The place of the first `l` in the chain of `b`, from `from` on; the
    /// length of the chain where `l` is not in it.
    pub open spec fn first_at(self, b: int, l: int, from: int) -> int
        decreases self.chain(b).len() - from,
    {
        if from < 0 || from >= self.chain(b).len() {
            self.chain(b).len() as int
        } else if self.chain(b)[from] == l {
            from
        } else {
            self.first_at(b, l, from + 1)
        }
    }

    /// The edge from `a` to `b` makes nodes depend on `a`: `b` does not
    /// post-dominate `a`, or the edge is a loop from `a` to itself.
    pub open spec fn is_branch_edge(self, a: int, b: int) -> bool {
        !(a != b && self.is_post_dominated_by(a, b))
    }

    /// The nodes that depend on `a` because of the edge from `a` to `b`:
    /// the post-dominators of `b` before the nearest node that
    /// post-dominates both `a` and `b`, or all of them where no node does.
    pub open spec fn dependents_of_edge(self, a: int, b: int) -> Seq<usize> {
        if !self.is_branch_edge(a, b) {
            Seq::empty()
        } else {
            match self.nearest_common_dominator(a, b) {
                Some(l) => self.chain(b).take(self.first_at(b, l as int, 0)),
                None => self.chain(b),
            }
        }
    }

    /// The edge from `a` to `b` makes `a` depend on itself: `a` is the
    /// nearest node that post-dominates both.
    pub open spec fn depends_on_itself(self, a: int, b: int) -> bool {
        self.is_branch_edge(a, b) && self.nearest_common_dominator(a, b) == Some(a as usize)
    }

    /// `c` is control-dependent on `a` because of the `i`th edge out of
    /// `a`.
    pub open spec fn depends_by_edge(self, c: int, a: int, i: int) -> bool {
        let b = self.successors[a][i] as int;
        self.dependents_of_edge(a, b).contains(c as usize) || (c == a && self.depends_on_itself(
            a,
            b,
        ))
    }

    /// `c` is control-dependent on `a`: because of an edge out of `a`, or
    /// because `a` is the start node and `c` post-dominates it.
    pub open spec fn depends_on(self, c: int, a: int) -> bool {
        ||| exists|i: int|
            0 <= i < self.successors[a].len() && #[trigger] self.depends_by_edge(c, a, i)
        ||| (a == self.start_node && self.is_post_dominated_by(a, c))
    }

    /// Some node is control-dependent on `a` because of an edge out of `a`.
    pub open spec fn is_branch(self, a: int) -> bool {
        exists|c: int, i: int|
            0 <= c < self.num_nodes() && 0 <= i < self.successors[a].len()
                && #[trigger] self.depends_by_edge(c, a, i)
    }

    /// Whether the graph is well formed.
    pub fn is_wf(&self) -> (r: bool)
        ensures
            r == self.wf(),
    {
        let n = self.successors.len();
        if self.post_dominators.len() != n || (self.start_node >= n && n != 0) {
            return false;
        }
        let mut a: usize = 0;
        while a < n
            invariant
                a <= n,
                n == self.successors.len(),
                n == self.post_dominators.len(),
                forall|x: int, i: int|
                    0 <= x < a && 0 <= i < self.successors[x].len() ==> (
                    #[trigger] self.successors[x][i]) < n,
                forall|x: int, i: int|
                    0 <= x < a && 0 <= i < self.post_dominators[x].len() ==> (
                    #[trigger] self.post_dominators[x][i]) < n,
            decreases n - a,
        {
            let mut i: usize = 0;
            while i < self.successors[a].len()
                invariant
                    a < n,
                    n == self.successors.len(),
                    i <= self.successors[a as int].len(),
                    forall|k: int| 0 <= k < i ==> (#[trigger] self.successors[a as int][k]) < n,
                decreases self.successors[a as int].len() - i,
            {
                if self.successors[a][i] >= n {
                    return false;
                }
                i += 1;
            }
            let mut j: usize = 0;
            while j < self.post_dominators[a].len()
                invariant
                    a < n,
                    n == self.successors.len(),
                    n == self.post_dominators.len(),
                    j <= self.post_dominators[a as int].len(),
                    forall|k: int| 0 <= k < j ==> (#[trigger] self.post_dominators[a as int][k]) < n,
                decreases self.post_dominators[a as int].len() - j,
            {
                if self.post_dominators[a][j] >= n {
                    return false;
                }
                j += 1;
            }
            a += 1;
        }
        true
    }

    /// Whether `b` is among the post-dominators of `a`.
    pub fn post_dominates(&self, a: usize, b: usize) -> (r: bool)
        requires
            a < self.post_dominators.len(),
        ensures
            r == self.is_post_dominated_by(a as int, b as int),
    {
        let chain = &self.post_dominators[a];
        let mut i: usize = 0;
        while i < chain.len()
            invariant
                i <= chain.len(),
                chain@ == self.chain(a as int),
                forall|k: int| 0 <= k < i ==> chain@[k] != b,
            decreases chain.len() - i,
        {
            if chain[i] == b {
                return true;
            }
            i += 1;
        }
        false
    }

    /// The nearest node that post-dominates both `a` and `b`.
    pub fn find_nearest_common_dominator(&self, a: usize, b: usize) -> (r: Option<usize>)
        requires
            a < self.post_dominators.len(),
            b < self.post_dominators.len(),
        ensures
            r == self.nearest_common_dominator(a as int, b as int),
    {
        let chain = &self.post_dominators[a];
        let mut i: usize = 0;
        while i < chain.len()
            invariant
                i <= chain.len(),
                b < self.post_dominators.len(),
                chain@ == self.chain(a as int),
                self.common_at(a as int, b as int, 0) == self.common_at(a as int, b as int, i as int),
            decreases chain.len() - i,
        {
            if self.post_dominates(b, chain[i]) {
                return Some(chain[i]);
            }
            i += 1;
        }
        None
    }
}

/// For each node of a control-flow graph the nodes it is control-dependent
/// on, and the nodes that something is control-dependent on because of a
/// branch.
#[derive(Debug)]
pub struct ControlDeps {
    pub parents: Vec<FxHashSet<usize>>,
    pub banch_node: FxHashSet<usize>,
}

impl ControlDeps {
    /// `self` holds the control dependences of `graph`.
    pub open spec fn describes(self, graph: FlowGraph) -> bool {
        &&& self.parents.len() == graph.num_nodes()
        &&& forall|c: int, a: usize|
            0 <= c < graph.num_nodes() ==> (#[trigger] self.parents[c]@.contains(a) <==> a
                < graph.num_nodes() && graph.depends_on(c, a as int))
        &&& forall|a: usize| #[trigger]
            self.banch_node@.contains(a) <==> a < graph.num_nodes() && graph.is_branch(a as int)
    }
}

/// Records that the node `c` is control-dependent on the node `a`.
fn add_parent(parents: &mut Vec<FxHashSet<usize>>, c: usize, a: usize)
    requires
        c < old(parents).len(),
    ensures
        final(parents).len() == old(parents).len(),
        final(parents)[c as int]@ == old(parents)[c as int]@.insert(a),
        forall|x: int|
            0 <= x < old(parents).len() && x != c ==> (#[trigger] final(parents)[x])@ == old(
                parents,
            )[x]@,
{
    set_insert(&mut parents[c], a);
}

impl FlowGraph {
    /// `c` is control-dependent on `x` because of an edge that comes
    /// before the `idx`th edge out of `a`, nodes and their edges taken in
    /// order.
    pub open spec fn depends_by_earlier_edge(self, c: int, x: int, a: int, idx: int) -> bool {
        exists|i: int|
            0 <= i < self.successors[x].len() && (x < a || (x == a && i < idx))
                && #[trigger] self.depends_by_edge(c, x, i)
    }

    /// Some node is control-dependent on `x` because of an edge that comes
    /// before the `idx`th edge out of `a`.
    pub open spec fn is_earlier_branch(self, x: int, a: int, idx: int) -> bool {
        exists|c: int, i: int|
            0 <= c < self.num_nodes() && 0 <= i < self.successors[x].len() && (x < a || (x == a
                && i < idx)) && #[trigger] self.depends_by_edge(c, x, i)
    }

    /// Walking the chain of `b` finds the first `l`.
    proof fn lemma_first_at(self, b: int, l: int, k: int)
        requires
            0 <= k <= self.chain(b).len(),
            forall|j: int| 0 <= j < k ==> self.chain(b)[j] != l,
        ensures
            self.first_at(b, l, 0) == self.first_at(b, l, k),
        decreases k,
    {
        if k > 0 {
            self.lemma_first_at(b, l, k - 1);
        }
    }
}

/// The control dependences of `graph`.
///
/// For every edge from `a` to `b` where `b` does not post-dominate `a`, or
/// where `b` is `a`, the post-dominators of `b` up to the nearest node that
/// post-dominates both are control-dependent on `a`, and `a` is
/// control-dependent on itself where it is that nearest node. Every node
/// that post-dominates the start node is control-dependent on the start
/// node.
pub fn control_deps(graph: &FlowGraph) -> (r: ControlDeps)
    requires
        graph.wf(),
    ensures
        r.describes(*graph),
{
    let n = graph.successors.len();
    let mut parents: Vec<FxHashSet<usize>> = Vec::new();
    let mut k: usize = 0;
    while k < n
        invariant
            k <= n,
            parents@.len() == k,
            forall|c: int| 0 <= c < k ==> (#[trigger] parents@[c])@ == Set::<usize>::empty(),
        decreases n - k,
    {
        parents.push(set_new());
        k += 1;
    }
    let mut banch_node: FxHashSet<usize> = set_new();
    let mut a: usize = 0;
    while a < n
        invariant
            a <= n,
            n == graph.successors.len(),
            graph.wf(),
            parents@.len() == n,
            forall|c: int, x: usize|
                0 <= c < n ==> (#[trigger] parents@[c]@.contains(x) <==> x < n
                    && graph.depends_by_earlier_edge(c, x as int, a as int, 0)),
            forall|x: usize| #[trigger]
                banch_node@.contains(x) <==> x < n && graph.is_earlier_branch(
                    x as int,
                    a as int,
                    0,
                ),
        decreases n - a,
    {
        let mut i: usize = 0;
        while i < graph.successors[a].len()
            invariant
                a < n,
                i <= graph.successors[a as int].len(),
                n == graph.successors.len(),
                graph.wf(),
                parents@.len() == n,
                forall|c: int, x: usize|
                    0 <= c < n ==> (#[trigger] parents@[c]@.contains(x) <==> x < n
                        && graph.depends_by_earlier_edge(c, x as int, a as int, i as int)),
                forall|x: usize| #[trigger]
                    banch_node@.contains(x) <==> x < n && graph.is_earlier_branch(
                        x as int,
                        a as int,
                        i as int,
                    ),
            decreases graph.successors[a as int].len() - i,
        {
            let b = graph.successors[a][i];
            let ghost before = parents@;
            let ghost before_branches = banch_node@;
            let skip = a != b && graph.post_dominates(a, b);
            if !skip {
                let common = graph.find_nearest_common_dominator(a, b);
                match common {
                    Some(l) => {
                        if a == l {
                            add_parent(&mut parents, a, a);
                            set_insert(&mut banch_node, a);
                        }
                    },
                    None => {},
                }
                let chain = &graph.post_dominators[b];
                let ghost stop = match common {
                    Some(l) => graph.first_at(b as int, l as int, 0),
                    None => chain@.len() as int,
                };
                let ghost itself = common == Some(a);
                let mut j: usize = 0;
                let mut done = false;
                while j < chain.len() && !done
                    invariant
                        a < n,
                        b < n,
                        j <= chain.len(),
                        n == graph.successors.len(),
                        graph.wf(),
                        chain@ == graph.chain(b as int),
                        parents@.len() == n,
                        before.len() == n,
                        stop == match common {
                            Some(l) => graph.first_at(b as int, l as int, 0),
                            None => chain@.len() as int,
                        },
                        done ==> j == stop,
                        !done ==> match common {
                            Some(l) => forall|q: int| 0 <= q < j ==> chain@[q] != l,
                            None => true,
                        },
                        forall|c: int, x: usize|
                            0 <= c < n ==> (#[trigger] parents@[c]@.contains(x) <==> before[c]@.contains(
                                x,
                            ) || (x == a && (chain@.take(j as int).contains(c as usize) || (c == a
                                && itself)))),
                        forall|x: usize| #[trigger]
                            banch_node@.contains(x) <==> before_branches.contains(x) || (x == a && (
                            j > 0 || itself)),
                    decreases chain.len() - j + if done { 0int } else { 1int },
                {
                    let c = chain[j];
                    let stop_here = match common {
                        Some(l) => c == l,
                        None => false,
                    };
                    if stop_here {
                        done = true;
                        proof {
                            graph.lemma_first_at(b as int, common.unwrap() as int, j as int);
                        }
                    } else {
                        let ghost mid = parents@;
                        add_parent(&mut parents, c, a);
                        set_insert(&mut banch_node, a);
                        proof {
                            assert(chain@.take(j + 1) =~= chain@.take(j as int).push(c));
                            assert forall|d: int, x: usize| 0 <= d < n implies (
                            #[trigger] parents@[d]@.contains(x) <==> before[d]@.contains(x) || (x
                                == a && (chain@.take(j + 1).contains(d as usize) || (d == a
                                && itself)))) by {
                                if d == c {
                                    assert(chain@.take(j + 1)[j as int] == c);
                                } else {
                                    assert(parents@[d]@ == mid[d]@);
                                }
                                let shorter = chain@.take(j as int);
                                if shorter.contains(d as usize) {
                                    let q = choose|q: int|
                                        0 <= q < shorter.len() && shorter[q] == d as usize;
                                    assert(chain@.take(j + 1)[q] == d as usize);
                                }
                                let longer = chain@.take(j + 1);
                                if longer.contains(d as usize) && d != c {
                                    let q = choose|q: int|
                                        0 <= q < longer.len() && longer[q] == d as usize;
                                    assert(chain@.take(j as int)[q] == d as usize);
                                }
                            }
                        }
                        j += 1;
                    }
                }
                proof {
                    if !done {
                        match common {
                            Some(l) => {
                                graph.lemma_first_at(b as int, l as int, j as int);
                            },
                            None => {},
                        }
                    }
                }
                proof {
                    // The walk has stopped where the dependents of the edge end.
                    assert(j == stop);
                    let deps = graph.dependents_of_edge(a as int, b as int);
                    assert(chain@.take(chain@.len() as int) =~= chain@);
                    assert(deps == chain@.take(stop));
                    assert(graph.depends_on_itself(a as int, b as int) == itself);
                    assert forall|c: int, x: usize| 0 <= c < n implies (
                    #[trigger] parents@[c]@.contains(x) <==> x < n && graph.depends_by_earlier_edge(
                        c,
                        x as int,
                        a as int,
                        i + 1,
                    )) by {
                        if x == a && (deps.contains(c as usize) || (c == a && itself)) {
                            assert(graph.depends_by_edge(c, a as int, i as int));
                        }
                        if graph.depends_by_earlier_edge(c, x as int, a as int, i + 1) {
                            let q = choose|q: int|
                                0 <= q < graph.successors[x as int].len() && (x < a || (x == a
                                    && q < i + 1)) && #[trigger] graph.depends_by_edge(
                                    c,
                                    x as int,
                                    q,
                                );
                            if !(x == a && q == i) {
                                assert(graph.depends_by_earlier_edge(
                                    c,
                                    x as int,
                                    a as int,
                                    i as int,
                                ));
                            }
                        }
                        if graph.depends_by_earlier_edge(c, x as int, a as int, i as int) {
                            let q = choose|q: int|
                                0 <= q < graph.successors[x as int].len() && (x < a || (x == a
                                    && q < i)) && #[trigger] graph.depends_by_edge(c, x as int, q);
                            assert(graph.depends_by_edge(c, x as int, q));
                        }
                    }
                    assert forall|x: usize| #[trigger]
                        banch_node@.contains(x) <==> x < n && graph.is_earlier_branch(
                            x as int,
                            a as int,
                            i + 1,
                        ) by {
                        if x == a && (j > 0 || itself) {
                            let c = if itself {
                                a as int
                            } else {
                                chain@[0] as int
                            };
                            if !itself {
                                assert(deps[0] == chain@[0]);
                                assert(deps.contains(c as usize));
                            }
                            assert(graph.depends_by_edge(c, a as int, i as int));
                        }
                        if graph.is_earlier_branch(x as int, a as int, i + 1) {
                            let (c, q) = choose|c: int, q: int|
                                0 <= c < graph.num_nodes() && 0 <= q
                                    < graph.successors[x as int].len() && (x < a || (x == a && q < i
                                    + 1)) && #[trigger] graph.depends_by_edge(c, x as int, q);
                            if x == a && q == i {
                                if deps.contains(c as usize) {
                                    assert(deps.len() > 0);
                                }
                            } else {
                                assert(graph.is_earlier_branch(x as int, a as int, i as int));
                            }
                        }
                        if graph.is_earlier_branch(x as int, a as int, i as int) {
                            let (c, q) = choose|c: int, q: int|
                                0 <= c < graph.num_nodes() && 0 <= q
                                    < graph.successors[x as int].len() && (x < a || (x == a && q
                                    < i)) && #[trigger] graph.depends_by_edge(c, x as int, q);
                            assert(graph.depends_by_edge(c, x as int, q));
                        }
                    }
                }
            } else {
                proof {
                    assert(graph.dependents_of_edge(a as int, b as int) =~= Seq::<usize>::empty());
                    assert forall|c: int| !graph.depends_by_edge(c, a as int, i as int) by {}
                    assert forall|c: int, x: usize| 0 <= c < n implies (
                    #[trigger] parents@[c]@.contains(x) <==> x < n && graph.depends_by_earlier_edge(
                        c,
                        x as int,
                        a as int,
                        i + 1,
                    )) by {
                        if graph.depends_by_earlier_edge(c, x as int, a as int, i + 1) {
                            let q = choose|q: int|
                                0 <= q < graph.successors[x as int].len() && (x < a || (x == a
                                    && q < i + 1)) && #[trigger] graph.depends_by_edge(
                                    c,
                                    x as int,
                                    q,
                                );
                            assert(graph.depends_by_earlier_edge(c, x as int, a as int, i as int));
                        }
                        if graph.depends_by_earlier_edge(c, x as int, a as int, i as int) {
                            let q = choose|q: int|
                                0 <= q < graph.successors[x as int].len() && (x < a || (x == a
                                    && q < i)) && #[trigger] graph.depends_by_edge(c, x as int, q);
                            assert(graph.depends_by_edge(c, x as int, q));
                        }
                    }
                    assert forall|x: usize| #[trigger]
                        banch_node@.contains(x) <==> x < n && graph.is_earlier_branch(
                            x as int,
                            a as int,
                            i + 1,
                        ) by {
                        if graph.is_earlier_branch(x as int, a as int, i + 1) {
                            let (c, q) = choose|c: int, q: int|
                                0 <= c < graph.num_nodes() && 0 <= q
                                    < graph.successors[x as int].len() && (x < a || (x == a && q < i
                                    + 1)) && #[trigger] graph.depends_by_edge(c, x as int, q);
                            assert(graph.is_earlier_branch(x as int, a as int, i as int));
                        }
                        if graph.is_earlier_branch(x as int, a as int, i as int) {
                            let (c, q) = choose|c: int, q: int|
                                0 <= c < graph.num_nodes() && 0 <= q
                                    < graph.successors[x as int].len() && (x < a || (x == a && q
                                    < i)) && #[trigger] graph.depends_by_edge(c, x as int, q);
                            assert(graph.depends_by_edge(c, x as int, q));
                        }
                    }
                }
            }
            i += 1;
        }
        proof {
            let len = graph.successors[a as int].len() as int;
            assert forall|c: int, x: usize| 0 <= c < n implies (
            #[trigger] parents@[c]@.contains(x) <==> x < n && graph.depends_by_earlier_edge(
                c,
                x as int,
                a + 1,
                0,
            )) by {
                if graph.depends_by_earlier_edge(c, x as int, a + 1, 0) {
                    let q = choose|q: int|
                        0 <= q < graph.successors[x as int].len() && (x < a + 1 || (x == a + 1 && q
                            < 0)) && #[trigger] graph.depends_by_edge(c, x as int, q);
                    assert(graph.depends_by_earlier_edge(c, x as int, a as int, len));
                }
                if graph.depends_by_earlier_edge(c, x as int, a as int, len) {
                    let q = choose|q: int|
                        0 <= q < graph.successors[x as int].len() && (x < a || (x == a && q < len))
                            && #[trigger] graph.depends_by_edge(c, x as int, q);
                    assert(graph.depends_by_edge(c, x as int, q));
                }
            }
            assert forall|x: usize| #[trigger]
                banch_node@.contains(x) <==> x < n && graph.is_earlier_branch(
                    x as int,
                    a + 1,
                    0,
                ) by {
                if graph.is_earlier_branch(x as int, a + 1, 0) {
                    let (c, q) = choose|c: int, q: int|
                        0 <= c < graph.num_nodes() && 0 <= q < graph.successors[x as int].len() && (
                        x < a + 1 || (x == a + 1 && q < 0)) && #[trigger] graph.depends_by_edge(
                            c,
                            x as int,
                            q,
                        );
                    assert(graph.is_earlier_branch(x as int, a as int, len));
                }
                if graph.is_earlier_branch(x as int, a as int, len) {
                    let (c, q) = choose|c: int, q: int|
                        0 <= c < graph.num_nodes() && 0 <= q < graph.successors[x as int].len() && (
                        x < a || (x == a && q < len)) && #[trigger] graph.depends_by_edge(
                            c,
                            x as int,
                            q,
                        );
                    assert(graph.depends_by_edge(c, x as int, q));
                }
            }
        }
        a += 1;
    }
    if n == 0 {
        let r = ControlDeps { parents, banch_node };
        assert forall|a: usize| #[trigger]
            r.banch_node@.contains(a) <==> a < graph.num_nodes() && graph.is_branch(a as int) by {}
        return r;
    }
    let root = graph.start_node;
    let chain = &graph.post_dominators[root];
    let ghost before = parents@;
    let mut j: usize = 0;
    while j < chain.len()
        invariant
            j <= chain.len(),
            n == graph.successors.len(),
            graph.wf(),
            root == graph.start_node,
            root < n,
            chain@ == graph.chain(root as int),
            parents@.len() == n,
            before.len() == n,
            forall|c: int, x: usize|
                0 <= c < n ==> (#[trigger] parents@[c]@.contains(x) <==> before[c]@.contains(x) || (
                x == root && chain@.take(j as int).contains(c as usize))),
        decreases chain.len() - j,
    {
        let c = chain[j];
        let ghost mid = parents@;
        add_parent(&mut parents, c, root);
        proof {
            assert(chain@.take(j + 1) =~= chain@.take(j as int).push(c));
            assert forall|d: int, x: usize| 0 <= d < n implies (#[trigger] parents@[d]@.contains(x)
                <==> before[d]@.contains(x) || (x == root && chain@.take(j + 1).contains(
                d as usize,
            ))) by {
                if d == c {
                    assert(chain@.take(j + 1)[j as int] == c);
                } else {
                    assert(parents@[d]@ == mid[d]@);
                }
                let shorter = chain@.take(j as int);
                if shorter.contains(d as usize) {
                    let q = choose|q: int| 0 <= q < shorter.len() && shorter[q] == d as usize;
                    assert(chain@.take(j + 1)[q] == d as usize);
                }
                let longer = chain@.take(j + 1);
                if longer.contains(d as usize) && d != c {
                    let q = choose|q: int| 0 <= q < longer.len() && longer[q] == d as usize;
                    assert(chain@.take(j as int)[q] == d as usize);
                }
            }
        }
        j += 1;
    }
    let r = ControlDeps { parents, banch_node };
    proof {
        assert(chain@.take(chain@.len() as int) =~= chain@);
        assert forall|c: int, a: usize| 0 <= c < graph.num_nodes() implies (
        #[trigger] r.parents[c]@.contains(a) <==> a < graph.num_nodes() && graph.depends_on(
            c,
            a as int,
        )) by {
            if graph.depends_by_earlier_edge(c, a as int, n as int, 0) {
                let q = choose|q: int|
                    0 <= q < graph.successors[a as int].len() && (a < n || (a == n && q < 0))
                        && #[trigger] graph.depends_by_edge(c, a as int, q);
                assert(graph.depends_by_edge(c, a as int, q));
            }
            if a < n && graph.depends_on(c, a as int) {
                if exists|i: int|
                    0 <= i < graph.successors[a as int].len() && #[trigger] graph.depends_by_edge(
                        c,
                        a as int,
                        i,
                    ) {
                    let q = choose|i: int|
                        0 <= i < graph.successors[a as int].len()
                            && #[trigger] graph.depends_by_edge(c, a as int, i);
                    assert(graph.depends_by_earlier_edge(c, a as int, n as int, 0));
                } else {
                    let q = choose|q: int|
                        0 <= q < chain@.len() && #[trigger] graph.chain(a as int)[q] == c;
                    assert(chain@[q] == c as usize);
                    assert(chain@.contains(c as usize));
                }
            }
            if a == root && chain@.contains(c as usize) {
                let q = choose|q: int| 0 <= q < chain@.len() && chain@[q] == c as usize;
                assert(graph.chain(a as int)[q] == c);
            }
        }
        assert forall|a: usize| #[trigger]
            r.banch_node@.contains(a) <==> a < graph.num_nodes() && graph.is_branch(a as int) by {
            if graph.is_earlier_branch(a as int, n as int, 0) {
                let (c, q) = choose|c: int, q: int|
                    0 <= c < graph.num_nodes() && 0 <= q < graph.successors[a as int].len() && (a
                        < n || (a == n && q < 0)) && #[trigger] graph.depends_by_edge(
                        c,
                        a as int,
                        q,
                    );
                assert(graph.depends_by_edge(c, a as int, q));
            }
            if a < n && graph.is_branch(a as int) {
                let (c, q) = choose|c: int, q: int|
                    0 <= c < graph.num_nodes() && 0 <= q < graph.successors[a as int].len()
                        && #[trigger] graph.depends_by_edge(c, a as int, q);
                assert(graph.is_earlier_branch(a as int, n as int, 0));
            }
        }
    }
    r
}

} // verus!

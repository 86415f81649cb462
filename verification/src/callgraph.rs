//! The functions of the analysed program and the calls between them, as the
//! detector reads them.

use crate::controldep::FlowGraph;
use crate::ir::{Body, Local};
use vstd::prelude::*;

verus! {

/// A function of the call graph, by its number in the graph.
pub type InstanceId = usize;

/// A function of the program, by its number in the program.
pub type DefId = usize;

/// A point of a function body.
#[derive(Copy, Clone, Debug, PartialEq, Eq, Hash, Structural)]
pub struct Location {
    pub block: usize,
    pub statement_index: usize,
}

/// Where a call is made.
#[derive(Copy, Clone, Debug, PartialEq, Eq, Hash, Structural)]
pub enum CallSiteLocation {
    /// At the terminator of a block.
    Direct(Location),
    /// Where a closure is defined, in the local that holds it.
    ClosureDef(Local),
}

impl CallSiteLocation {
    /// The point of the call, for a call at a terminator.
    pub open spec fn spec_location(self) -> Option<Location> {
        match self {
            CallSiteLocation::Direct(l) => Some(l),
            CallSiteLocation::ClosureDef(_) => None,
        }
    }

    /// The point of the call, for a call at a terminator.
    pub fn location(&self) -> (r: Option<Location>)
        ensures
            r == self.spec_location(),
    {
        match self {
            CallSiteLocation::Direct(l) => Some(*l),
            CallSiteLocation::ClosureDef(_) => None,
        }
    }
}

/// A function with the generic arguments it is called with.
#[derive(Debug, PartialEq, Eq)]
pub struct Instance {
    /// The function.
    pub def_id: DefId,
    /// The path of the function with its generic arguments.
    pub path: String,
}

/// A node of the call graph.
#[derive(Debug, PartialEq, Eq)]
pub enum CallGraphNode {
    WithBody(Instance),
    WithoutBody(Instance),
}

impl CallGraphNode {
    /// The function of the node.
    pub open spec fn spec_instance(self) -> Instance {
        match self {
            CallGraphNode::WithBody(i) => i,
            CallGraphNode::WithoutBody(i) => i,
        }
    }

    /// The function of the node.
    pub fn instance(&self) -> (r: &Instance)
        ensures
            *r == self.spec_instance(),
    {
        match self {
            CallGraphNode::WithBody(i) => i,
            CallGraphNode::WithoutBody(i) => i,
        }
    }
}

/// The calls that one function makes of another.
#[derive(Debug, PartialEq, Eq)]
pub struct CallEdge {
    pub source: InstanceId,
    pub target: InstanceId,
    pub callsites: Vec<CallSiteLocation>,
}

/// The call graph of the program.
#[derive(Debug, PartialEq, Eq)]
pub struct CallGraph {
    pub nodes: Vec<CallGraphNode>,
    pub edges: Vec<CallEdge>,
}

/// What is known of one function of the program: its body, the flow of
/// control between its blocks, and what the dependence analyses have found
/// in the body.
#[derive(Debug, PartialEq, Eq)]
pub struct Function {
    pub body: Body,
    /// The control-flow graph of the blocks of the body, with its
    /// post-dominator tree.
    pub flow: FlowGraph,
    /// For each local, the locals whose value depends on it, directly or
    /// through other locals.
    pub dependents: Vec<Vec<Local>>,
    /// For each local, the blocks in which it is used.
    pub uses: Vec<Vec<usize>>,
}

/// The analysed program: its functions, by number.
#[derive(Debug, PartialEq, Eq)]
pub struct Program {
    pub functions: Vec<Function>,
}

impl CallGraph {
    /// The edges `d` and `e` join the same caller to the same callee.
    pub open spec fn parallel(self, d: int, e: int) -> bool {
        self.edges[d].source == self.edges[e].source && self.edges[d].target
            == self.edges[e].target
    }

    /// No two edges join the same caller to the same callee: the calls that
    /// one function makes of another stand on one edge.
    pub open spec fn edges_distinct(self) -> bool {
        forall|d: int, e: int|
            0 <= d < e < self.edges.len() ==> !#[trigger] self.parallel(d, e)
    }

    /// Every node is a function of `program`, every edge joins two nodes,
    /// and no two edges join the same pair of nodes.
    pub open spec fn consistent(self, program: Program) -> bool {
        &&& forall|i: int|
            0 <= i < self.nodes.len() ==> (#[trigger] self.nodes[i]).spec_instance().def_id
                < program.functions.len()
        &&& forall|e: int|
            0 <= e < self.edges.len() ==> (#[trigger] self.edges[e]).source < self.nodes.len()
                && self.edges[e].target < self.nodes.len()
        &&& self.edges_distinct()
    }

    /// Whether no two edges join the same caller to the same callee.
    pub fn has_distinct_edges(&self) -> (r: bool)
        ensures
            r == self.edges_distinct(),
    {
        let mut e: usize = 0;
        while e < self.edges.len()
            invariant
                e <= self.edges.len(),
                forall|a: int, b: int| 0 <= a < b < e ==> !#[trigger] self.parallel(a, b),
            decreases self.edges.len() - e,
        {
            let mut d: usize = 0;
            while d < e
                invariant
                    d <= e,
                    e < self.edges.len(),
                    forall|a: int| 0 <= a < d ==> !#[trigger] self.parallel(a, e as int),
                decreases e - d,
            {
                if self.edges[d].source == self.edges[e].source && self.edges[d].target
                    == self.edges[e].target {
                    assert(self.parallel(d as int, e as int));
                    return false;
                }
                d += 1;
            }
            e += 1;
        }
        true
    }

    /// Whether every node is a function of `program`, every edge joins two
    /// nodes, and no two edges join the same pair of nodes.
    pub fn is_consistent(&self, program: &Program) -> (r: bool)
        ensures
            r == self.consistent(*program),
    {
        let mut i: usize = 0;
        while i < self.nodes.len()
            invariant
                i <= self.nodes.len(),
                forall|k: int|
                    0 <= k < i ==> (#[trigger] self.nodes[k]).spec_instance().def_id
                        < program.functions.len(),
            decreases self.nodes.len() - i,
        {
            if self.nodes[i].instance().def_id >= program.functions.len() {
                return false;
            }
            i += 1;
        }
        let mut e: usize = 0;
        while e < self.edges.len()
            invariant
                e <= self.edges.len(),
                forall|k: int|
                    0 <= k < self.nodes.len() ==> (#[trigger] self.nodes[k]).spec_instance().def_id
                        < program.functions.len(),
                forall|k: int|
                    0 <= k < e ==> (#[trigger] self.edges[k]).source < self.nodes.len()
                        && self.edges[k].target < self.nodes.len(),
            decreases self.edges.len() - e,
        {
            if self.edges[e].source >= self.nodes.len() || self.edges[e].target
                >= self.nodes.len() {
                return false;
            }
            e += 1;
        }
        self.has_distinct_edges()
    }

    /// The node with this number.
    pub fn index_to_instance(&self, id: InstanceId) -> (r: Option<&CallGraphNode>)
        ensures
            match r {
                Some(n) => id < self.nodes.len() && *n == self.nodes[id as int],
                None => id >= self.nodes.len(),
            },
    {
        if id < self.nodes.len() {
            Some(&self.nodes[id])
        } else {
            None
        }
    }

    /// The first edge from `source` to `target` among the first `n` edges.
    pub open spec fn find_edge(self, source: InstanceId, target: InstanceId, n: int) -> Option<int>
        decreases n,
    {
        if n <= 0 || n > self.edges.len() {
            None
        } else {
            match self.find_edge(source, target, n - 1) {
                Some(e) => Some(e),
                None => if self.edges[n - 1].source == source && self.edges[n - 1].target
                    == target {
                    Some(n - 1)
                } else {
                    None
                },
            }
        }
    }

    /// The calls that `source` makes of `target`: those of the first edge
    /// from `source` to `target`, or `None` where there is no such edge.
    pub open spec fn spec_callsites(self, source: InstanceId, target: InstanceId) -> Option<
        Seq<CallSiteLocation>,
    > {
        match self.find_edge(source, target, self.edges.len() as int) {
            Some(e) => Some(self.edges[e].callsites@),
            None => None,
        }
    }

    /// The calls that `source` makes of `target`.
    pub fn callsites(&self, source: InstanceId, target: InstanceId) -> (r: Option<
        &Vec<CallSiteLocation>,
    >)
        ensures
            match r {
                Some(v) => self.spec_callsites(source, target) == Some(v@),
                None => self.spec_callsites(source, target).is_none(),
            },
    {
        let mut e: usize = 0;
        while e < self.edges.len()
            invariant
                e <= self.edges.len(),
                self.find_edge(source, target, e as int).is_none(),
            decreases self.edges.len() - e,
        {
            if self.edges[e].source == source && self.edges[e].target == target {
                proof {
                    self.lemma_find_edge_stays(source, target, e as int + 1, self.edges.len() as int);
                }
                return Some(&self.edges[e].callsites);
            }
            e += 1;
        }
        None
    }

    /// No edge is found where none of the edges searched joins the pair.
    pub proof fn lemma_find_edge_none(self, source: InstanceId, target: InstanceId, n: int)
        requires
            0 <= n <= self.edges.len(),
            forall|k: int|
                0 <= k < n ==> !((#[trigger] self.edges[k]).source == source && self.edges[k].target
                    == target),
        ensures
            self.find_edge(source, target, n).is_none(),
        decreases n,
    {
        if n > 0 {
            self.lemma_find_edge_none(source, target, n - 1);
        }
    }

    /// Where no two edges join the same pair, the calls that the source of
    /// an edge makes of its target are the calls of that edge.
    pub proof fn lemma_callsites_of_edge(self, e: int)
        requires
            self.edges_distinct(),
            0 <= e < self.edges.len(),
        ensures
            self.spec_callsites(self.edges[e].source, self.edges[e].target) == Some(
                self.edges[e].callsites@,
            ),
    {
        let source = self.edges[e].source;
        let target = self.edges[e].target;
        assert forall|k: int| 0 <= k < e implies !((#[trigger] self.edges[k]).source == source
            && self.edges[k].target == target) by {
            assert(!self.parallel(k, e));
        }
        self.lemma_find_edge_none(source, target, e);
        assert(self.find_edge(source, target, e + 1) == Some(e));
        self.lemma_find_edge_stays(source, target, e + 1, self.edges.len() as int);
    }

    /// An edge that has been found stays the one found when more edges are
    /// searched.
    pub proof fn lemma_find_edge_stays(
        self,
        source: InstanceId,
        target: InstanceId,
        n: int,
        m: int,
    )
        requires
            0 <= n <= m <= self.edges.len(),
            self.find_edge(source, target, n).is_some(),
        ensures
            self.find_edge(source, target, m) == self.find_edge(source, target, n),
        decreases m - n,
    {
        if n < m {
            self.lemma_find_edge_stays(source, target, n, m - 1);
        }
    }
}

/// The points of `callsites` that are calls at a terminator, in order.
pub open spec fn direct_locations(callsites: Seq<CallSiteLocation>) -> Seq<Location> {
    callsites.filter(|c: CallSiteLocation| c.spec_location().is_some()).map_values(
        |c: CallSiteLocation| c.spec_location().unwrap(),
    )
}

/// The points at which `source` calls `target` at a terminator, or `None`
/// where `source` does not call `target`.
pub fn callsite_locations(callgraph: &CallGraph, source: InstanceId, target: InstanceId) -> (r:
    Option<Vec<Location>>)
    ensures
        match r {
            Some(v) => callgraph.spec_callsites(source, target).is_some() && v@
                == direct_locations(callgraph.spec_callsites(source, target).unwrap()),
            None => callgraph.spec_callsites(source, target).is_none(),
        },
{
    match callgraph.callsites(source, target) {
        Some(callsites) => {
            let mut v: Vec<Location> = Vec::new();
            let mut i: usize = 0;
            while i < callsites.len()
                invariant
                    i <= callsites.len(),
                    v@ == direct_locations(callsites@.take(i as int)),
                decreases callsites.len() - i,
            {
                let ghost pred = |c: CallSiteLocation| c.spec_location().is_some();
                proof {
                    let front = callsites@.take(i as int);
                    let next = callsites@.take(i + 1);
                    assert(next =~= front.push(callsites@[i as int]));
                    assert(next.drop_last() =~= front);
                    reveal_with_fuel(Seq::filter, 2);
                }
                match callsites[i].location() {
                    Some(l) => {
                        v.push(l);
                        proof {
                            let front = callsites@.take(i as int);
                            let next = callsites@.take(i + 1);
                            assert(next.filter(pred) =~= front.filter(pred).push(
                                callsites@[i as int],
                            ));
                            assert(v@ =~= direct_locations(next));
                        }
                    },
                    None => {
                        proof {
                            let front = callsites@.take(i as int);
                            let next = callsites@.take(i + 1);
                            assert(next.filter(pred) =~= front.filter(pred));
                        }
                    },
                }
                i += 1;
            }
            assert(callsites@.take(callsites@.len() as int) =~= callsites@);
            Some(v)
        },
        None => None,
    }
}

impl Program {
    /// The control-flow graph of every function is well formed.
    pub open spec fn wf(self) -> bool {
        forall|d: int| 0 <= d < self.functions.len() ==> (#[trigger] self.functions[d]).flow.wf()
    }

    /// Whether the control-flow graph of every function is well formed.
    pub fn is_wf(&self) -> (r: bool)
        ensures
            r == self.wf(),
    {
        let mut d: usize = 0;
        while d < self.functions.len()
            invariant
                d <= self.functions.len(),
                forall|k: int| 0 <= k < d ==> (#[trigger] self.functions[k]).flow.wf(),
            decreases self.functions.len() - d,
        {
            if !self.functions[d].flow.is_wf() {
                return false;
            }
            d += 1;
        }
        true
    }
}

} // verus!

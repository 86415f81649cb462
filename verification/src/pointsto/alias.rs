//! A cache of the points-to results of the functions of a program.

use crate::callgraph::{DefId, InstanceId, Program};
use crate::ir::{Body, Local, Place};
use crate::pointsto::andersen::{points_to, Andersen, PointsToMap, PointsToView};
use crate::pointsto::collector::{body_constraints, ConstraintGraphCollector};
use crate::pointsto::graph::GraphView;
use crate::pointsto::node::{ConstraintEdge, NodeView};
use rustc_hash::FxHashMap;
use vstd::prelude::*;

verus! {

/// A memory cell of the program: a local of a function of the call graph.
#[derive(Copy, Clone, Debug, PartialEq, Eq, Hash, Structural)]
pub struct AliasId {
    pub instance_id: InstanceId,
    pub local: Local,
}

/// The node is a place, or the storage behind a place, with the local
/// `local`.
pub open spec fn rooted_at(node: NodeView, local: Local) -> bool {
    match node.storage() {
        Some(p) => p.local == local,
        None => false,
    }
}

/// Some load edge of `g` leaves a node that is a place, or the storage
/// behind a place, with the local `local`.
pub open spec fn loads_through(g: GraphView, local: Local) -> bool {
    exists|e: int|
        0 <= e < g.edges.len() && (#[trigger] g.edges[e]).kind == ConstraintEdge::Load
            && g.edges[e].source < g.nodes.len() && rooted_at(
            g.nodes[g.edges[e].source as int],
            local,
        )
}

/// The body dereferences one of `places`: the constraints of `body` hold a
/// load through the local of one of them.
pub open spec fn dereferences_any(body: Body, places: Seq<Place>) -> bool {
    exists|i: int|
        0 <= i < places.len() && loads_through(body_constraints(body), (#[trigger] places[i]).local)
}

/// Whether `body` dereferences one of `places`.
pub fn dereferences(body: &Body, load_interimval: &Vec<Place>) -> (r: bool)
    ensures
        r == dereferences_any(*body, load_interimval@),
{
    let mut collector = ConstraintGraphCollector::new(body);
    proof {
        let empty = GraphView { nodes: Seq::empty(), edges: Seq::empty() };
        assert(collector.graph().nodes =~= empty.nodes);
        assert(collector.graph().edges =~= empty.edges);
    }
    collector.visit_body();
    let ghost g = collector.graph();
    let graph = collector.finish();
    let edges = graph.edges();
    let ghost c = graph@;
    proof {
        assert forall|e: int| 0 <= e < g.edges.len() implies c.edges[e] == #[trigger] g.edges[e] by {
            assert(c.edges.subrange(0, g.edges.len() as int)[e] == g.edges[e]);
        }
    }
    let mut i: usize = 0;
    while i < load_interimval.len()
        invariant
            i <= load_interimval.len(),
            g == body_constraints(*body),
            c.wf(),
            c.nodes == g.nodes,
            g.edges.len() <= c.edges.len(),
            forall|e: int| 0 <= e < g.edges.len() ==> c.edges[e] == #[trigger] g.edges[e],
            forall|e: int|
                g.edges.len() <= e < c.edges.len() ==> (#[trigger] c.edges[e]).kind
                    == ConstraintEdge::Copy,
            c == graph@,
            edges@ == c.edges,
            forall|k: int| 0 <= k < i ==> !loads_through(g, (#[trigger] load_interimval@[k]).local),
        decreases load_interimval.len() - i,
    {
        let local = load_interimval[i].local;
        let mut e: usize = 0;
        while e < edges.len()
            invariant
                e <= edges.len(),
                i < load_interimval.len(),
                local == load_interimval@[i as int].local,
                g == body_constraints(*body),
                c.wf(),
                c.nodes == g.nodes,
                g.edges.len() <= c.edges.len(),
                forall|k: int| 0 <= k < g.edges.len() ==> c.edges[k] == #[trigger] g.edges[k],
                forall|k: int|
                    g.edges.len() <= k < c.edges.len() ==> (#[trigger] c.edges[k]).kind
                        == ConstraintEdge::Copy,
                c == graph@,
                edges@ == c.edges,
                forall|k: int|
                    0 <= k < e ==> !((#[trigger] c.edges[k]).kind == ConstraintEdge::Load
                        && rooted_at(c.nodes[c.edges[k].source as int], local)),
            decreases edges.len() - e,
        {
            let edge = edges[e];
            if edge.kind == ConstraintEdge::Load {
                assert(c.edges[e as int].source < c.nodes.len());
                match graph.node(edge.source).storage() {
                    Some(p) => {
                        if p.local == local {
                            proof {
                                assert(e < g.edges.len());
                                assert(g.edges[e as int] == c.edges[e as int]);
                                assert(loads_through(g, load_interimval@[i as int].local));
                                assert(dereferences_any(*body, load_interimval@));
                            }
                            return true;
                        }
                    },
                    None => {},
                }
            }
            e += 1;
        }
        proof {
            if loads_through(g, local) {
                let k = choose|k: int|
                    0 <= k < g.edges.len() && (#[trigger] g.edges[k]).kind
                        == ConstraintEdge::Load && g.edges[k].source < g.nodes.len()
                        && rooted_at(g.nodes[g.edges[k].source as int], local);
                assert(c.edges[k] == g.edges[k]);
                assert(false);
            }
        }
        i += 1;
    }
    false
}

/// `Default::default` of std's `HashMap` with the hasher of rustc-hash: a
/// map that holds nothing.
#[verifier::external_body]
fn map_new() -> (r: FxHashMap<DefId, PointsToMap>)
    ensures
        r@.dom() == Set::<DefId>::empty(),
{
    FxHashMap::default()
}

/// `HashMap::insert` of std on a map with the hasher of rustc-hash: after
/// the call the map takes `key` to `value` and every other key to what it
/// took it to.
#[verifier::external_body]
fn map_insert(map: &mut FxHashMap<DefId, PointsToMap>, key: DefId, value: PointsToMap)
    ensures
        final(map)@ == old(map)@.insert(key, value),
{
    map.insert(key, value);
}

/// `HashMap::get` of std on a map with the hasher of rustc-hash: what the
/// map takes `key` to, or `None` where it holds no such key.
#[verifier::external_body]
fn map_get(map: &FxHashMap<DefId, PointsToMap>, key: DefId) -> (r: Option<&PointsToMap>)
    ensures
        match r {
            Some(v) => map@.contains_key(key) && *v == map@[key],
            None => !map@.contains_key(key),
        },
{
    map.get(&key)
}

/// Points-to results by function. The analysis of a function runs when its
/// result is first asked for, and the result is kept for later.
pub struct AliasAnalysis {
    pts: FxHashMap<DefId, PointsToMap>,
}

impl AliasAnalysis {
    /// The results that are kept, by function.
    pub closed spec fn cached(&self) -> Map<DefId, PointsToView> {
        Map::new(|d: DefId| self.pts@.contains_key(d), |d: DefId| self.pts@[d]@)
    }

    /// Every result that is kept is well formed.
    pub closed spec fn wf(&self) -> bool {
        forall|d: DefId| self.pts@.contains_key(d) ==> (#[trigger] self.pts@[d]).wf()
    }

    /// A cache that holds nothing.
    pub fn new() -> (r: Self)
        ensures
            r.wf(),
            r.cached() == Map::<DefId, PointsToView>::empty(),
    {
        let r = AliasAnalysis { pts: map_new() };
        assert(r.cached() =~= Map::<DefId, PointsToView>::empty());
        r
    }

    /// Whether `body` dereferences one of `load_interimval`, which is
    /// decided on the constraints of the body alone.
    pub fn load_corrlation(&mut self, body: &Body, load_interimval: &Vec<Place>) -> (r: bool)
        ensures
            r == dereferences_any(*body, load_interimval@),
            final(self).cached() == old(self).cached(),
            final(self).wf() == old(self).wf(),
    {
        dereferences(body, load_interimval)
    }

    /// The points-to result of the function `def_id`, whose body is `body`.
    /// The result that is kept for `def_id` is returned where there is one.
    /// Otherwise `body` is analysed and the result is kept.
    pub fn get_or_insert_pts(&mut self, def_id: DefId, body: &Body) -> (r: PointsToMap)
        requires
            old(self).wf(),
        ensures
            final(self).wf(),
            r.wf(),
            old(self).cached().contains_key(def_id) ==> r@ == old(self).cached()[def_id]
                && final(self).cached() == old(self).cached(),
            !old(self).cached().contains_key(def_id) ==> r@ == points_to(*body)
                && final(self).cached() == old(self).cached().insert(def_id, r@),
    {
        if let Some(kept) = map_get(&self.pts, def_id) {
            kept.clone()
        } else {
            let mut analysis = Andersen::new(body);
            analysis.analyze();
            let pts = analysis.finish();
            let r = pts.clone();
            map_insert(&mut self.pts, def_id, pts);
            proof {
                assert(self.cached() =~= old(self).cached().insert(def_id, r@));
            }
            r
        }
    }
}

/// The points-to results of the functions of `program`, by function.
pub open spec fn points_to_results(program: Program) -> Map<DefId, PointsToView> {
    Map::new(
        |d: DefId| d < program.functions.len(),
        |d: DefId| points_to(program.functions[d as int].body),
    )
}

/// Every result that `a` keeps is kept by `b`, unchanged.
pub open spec fn cache_extends(a: Map<DefId, PointsToView>, b: Map<DefId, PointsToView>) -> bool {
    forall|d: DefId| #[trigger] a.contains_key(d) ==> b.contains_key(d) && b[d] == a[d]
}

impl AliasAnalysis {
    /// Every result that is kept is the points-to result of the body of
    /// its function in `program`.
    pub open spec fn sound_for(&self, program: Program) -> bool {
        forall|d: DefId| #[trigger]
            self.cached().contains_key(d) ==> d < program.functions.len() && self.cached()[d]
                == points_to(program.functions[d as int].body)
    }

    /// The points-to result of the function `def_id` of `program`, which is
    /// kept from then on.
    pub fn points_to_of(&mut self, program: &Program, def_id: DefId) -> (r: PointsToMap)
        requires
            old(self).wf(),
            old(self).sound_for(*program),
            def_id < program.functions.len(),
        ensures
            final(self).wf(),
            final(self).sound_for(*program),
            cache_extends(old(self).cached(), final(self).cached()),
            final(self).cached().contains_key(def_id),
            r@ == final(self).cached()[def_id],
            r.wf(),
            r@.wf(),
    {
        let r = self.get_or_insert_pts(def_id, &program.functions[def_id].body);
        proof {
            r.lemma_view_wf();
        }
        r
    }
}

impl AliasAnalysis {
    /// The result of every function of `program` is kept.
    pub open spec fn covers(&self, program: Program) -> bool {
        &&& self.wf()
        &&& self.sound_for(program)
        &&& forall|d: DefId| d < program.functions.len() ==> #[trigger] self.cached().contains_key(d)
    }

    /// A cache that covers a program holds the points-to results of the
    /// program and nothing else.
    pub proof fn lemma_covers(&self, program: Program)
        requires
            self.covers(program),
        ensures
            self.cached() == points_to_results(program),
    {
        assert(self.cached() =~= points_to_results(program));
    }

    /// Analyses every function of `program` whose result is not kept yet.
    pub fn populate(&mut self, program: &Program)
        requires
            old(self).wf(),
            old(self).sound_for(*program),
        ensures
            final(self).covers(*program),
            cache_extends(old(self).cached(), final(self).cached()),
    {
        let mut d: usize = 0;
        while d < program.functions.len()
            invariant
                d <= program.functions.len(),
                self.wf(),
                self.sound_for(*program),
                cache_extends(old(self).cached(), self.cached()),
                forall|k: DefId| k < d ==> #[trigger] self.cached().contains_key(k),
            decreases program.functions.len() - d,
        {
            let ghost before = self.cached();
            let _ = self.points_to_of(program, d);
            proof {
                assert forall|k: DefId| k < d + 1 implies #[trigger] self.cached().contains_key(
                    k,
                ) by {
                    if k < d {
                        assert(before.contains_key(k));
                    }
                }
                assert forall|k: DefId| #[trigger]
                    old(self).cached().contains_key(k) implies self.cached().contains_key(k)
                    && self.cached()[k] == old(self).cached()[k] by {
                    assert(before.contains_key(k));
                }
            }
            d += 1;
        }
    }

    /// The result that is kept for the function `def_id`.
    pub fn get(&self, def_id: DefId) -> (r: &PointsToMap)
        requires
            self.wf(),
            self.cached().contains_key(def_id),
        ensures
            r@ == self.cached()[def_id],
            r.wf(),
    {
        map_get(&self.pts, def_id).unwrap()
    }
}

} // verus!

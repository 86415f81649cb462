//! The analysis of one cluster of operations on atomic pointers.

use crate::atomic::place_views;
use crate::atompart::{partner_view, partner_views, AtomPart, Partner, PartnerView};
use crate::callgraph::{CallGraph, DefId, Program};
use crate::correlation::{atomptr_side_correlations, is_atomptr_correlation};
use crate::detector::cluster::{caller_known, callers_known, lemma_factor_members};
use crate::detector::factors::{factor_view, factor_views, factors_of, spec_factors, FactorView};
use crate::detector::rules::{
    candidate_views, require_all, with_requirements, Candidate, CandidateView,
};
use crate::ir::{Body, Place, PlaceView};
use crate::ordering::{AtomicOrd, OrderingSet};
use crate::pointsto::alias::{dereferences, loads_through, AliasAnalysis};
use crate::pointsto::andersen::{PointsToMap, PointsToView};
use crate::pointsto::collector::body_constraints;
use crate::pointsto::node::{ConstraintNode, NodeView};
use vstd::prelude::*;

verus! {

/// What a pointee of a pointer says of the pointer.
#[derive(Copy, Clone, Debug, PartialEq, Eq, Structural)]
pub enum PointeeKind {
    /// A place or the storage behind a place: the pointer points into
    /// memory that the function can name.
    Storage,
    /// An aggregate that was built, or the result of a call of which
    /// nothing is known: the pointer points to something new.
    Fresh,
    /// A conversion into a smart pointer, or an argument of a call of
    /// which nothing is known: the pointer may be dereferenced elsewhere.
    Escaping,
}

/// What the pointee `node` says of a pointer.
pub open spec fn pointee_kind(node: NodeView) -> Option<PointeeKind> {
    match node {
        NodeView::Alloc(_) => Some(PointeeKind::Storage),
        NodeView::Place(_) => Some(PointeeKind::Storage),
        NodeView::Construct(_) => Some(PointeeKind::Fresh),
        NodeView::FunctionRet(_) => Some(PointeeKind::Fresh),
        NodeView::SmartPointer(_) => Some(PointeeKind::Escaping),
        NodeView::ParameterInto(_) => Some(PointeeKind::Escaping),
        _ => None,
    }
}

/// The place `place` points to a node of kind `kind`.
pub open spec fn place_reaches(m: PointsToView, place: PlaceView, kind: PointeeKind) -> bool {
    match m.find(NodeView::Place(place)) {
        Some(n) => exists|o: int|
            0 <= o < m.nodes.len() && m.sets[n].contains(o) && pointee_kind(#[trigger] m.nodes[o])
                == Some(kind),
        None => false,
    }
}

/// A correlation of the operation on the side named points to a node of
/// kind `kind`.
pub open spec fn side_reaches(
    m: PointsToView,
    partner: PartnerView,
    on_load_side: bool,
    kind: PointeeKind,
) -> bool {
    exists|p: PlaceView| #[trigger]
        is_atomptr_correlation(partner, on_load_side, p) && place_reaches(m, p, kind)
}

/// The node is a field of an aggregate that is a parameter.
pub open spec fn is_parameter_field(body: Body, node: NodeView) -> bool {
    match node.storage() {
        Some(arg) => body.spec_is_parameter(arg.local) && arg.has_field(),
        None => false,
    }
}

/// Some node that points to something is a field of a parameter.
pub open spec fn has_parameter_field(m: PointsToView, body: Body) -> bool {
    exists|n: int|
        0 <= n < m.nodes.len() && m.sets[n] != Set::<int>::empty() && is_parameter_field(
            body,
            #[trigger] m.nodes[n],
        )
}

/// What the write of a pair of operations on an atomic pointer requires.
///
/// Where the value written points into memory that the function can name,
/// the write must release if some field of a parameter points to something,
/// and need only be relaxed otherwise. Where the value written points to
/// something new, the write must release.
pub open spec fn store_required(m: PointsToView, body: Body, store: PartnerView) -> Set<AtomicOrd> {
    let named = side_reaches(m, store, false, PointeeKind::Storage);
    let fresh = side_reaches(m, store, false, PointeeKind::Fresh);
    let shared = has_parameter_field(m, body);
    Set::new(
        |o: AtomicOrd|
            (o == AtomicOrd::Release && ((named && shared) || fresh)) || (o == AtomicOrd::Relaxed
                && named && !shared),
    )
}

/// The function dereferences a correlation of what the operation reads.
pub open spec fn side_dereferenced(body: Body, load: PartnerView) -> bool {
    exists|p: PlaceView| #[trigger]
        is_atomptr_correlation(load, true, p) && loads_through(body_constraints(body), p.local)
}

/// What the read of a pair of operations on an atomic pointer requires.
///
/// The read must acquire where the function dereferences what was read, or
/// where what was read may be dereferenced elsewhere. Where the function
/// does not dereference it, the read is also required to be relaxed.
pub open spec fn load_required(m: PointsToView, body: Body, load: PartnerView) -> Set<AtomicOrd> {
    let here = side_dereferenced(body, load);
    let elsewhere = side_reaches(m, load, true, PointeeKind::Escaping);
    Set::new(
        |o: AtomicOrd|
            (o == AtomicOrd::Acquire && (here || elsewhere)) || (o == AtomicOrd::Relaxed && !here),
    )
}

/// Whether one of `places` points to a node of kind `kind`.
pub fn reaches(pts: &PointsToMap, places: &Vec<Place>, kind: PointeeKind) -> (r: bool)
    requires
        pts.wf(),
    ensures
        r == exists|i: int|
            0 <= i < places@.len() && place_reaches(pts@, (#[trigger] places@[i])@, kind),
{
    proof {
        pts.lemma_view_wf();
    }
    let count = pts.node_count();
    let mut i: usize = 0;
    while i < places.len()
        invariant
            i <= places.len(),
            pts.wf(),
            pts@.wf(),
            count == pts@.nodes.len(),
            forall|k: int| 0 <= k < i ==> !place_reaches(pts@, (#[trigger] places@[k])@, kind),
        decreases places.len() - i,
    {
        let node = ConstraintNode::Place(places[i].clone());
        match pts.index_of(&node) {
            Some(n) => {
                let mut o: usize = 0;
                while o < count
                    invariant
                        o <= count,
                        i < places.len(),
                        pts.wf(),
                        pts@.wf(),
                        count == pts@.nodes.len(),
                        n < count,
                        pts@.find(NodeView::Place(places@[i as int]@)) == Some(n as int),
                        forall|x: int|
                            0 <= x < o ==> !(pts@.sets[n as int].contains(x) && pointee_kind(
                                #[trigger] pts@.nodes[x],
                            ) == Some(kind)),
                    decreases count - o,
                {
                    if pts.points_to(n, o) {
                        let found = match pts.node(o) {
                            ConstraintNode::Alloc(_) => kind == PointeeKind::Storage,
                            ConstraintNode::Place(_) => kind == PointeeKind::Storage,
                            ConstraintNode::Construct(_) => kind == PointeeKind::Fresh,
                            ConstraintNode::FunctionRet(_) => kind == PointeeKind::Fresh,
                            ConstraintNode::SmartPointer(_) => kind == PointeeKind::Escaping,
                            ConstraintNode::ParameterInto(_) => kind == PointeeKind::Escaping,
                            _ => false,
                        };
                        if found {
                            proof {
                                assert(place_reaches(pts@, places@[i as int]@, kind));
                            }
                            return true;
                        }
                    }
                    o += 1;
                }
            },
            None => {},
        }
        i += 1;
    }
    false
}

/// Whether some node that points to something is a field of a parameter.
pub fn parameter_field_known(pts: &PointsToMap, body: &Body) -> (r: bool)
    requires
        pts.wf(),
    ensures
        r == has_parameter_field(pts@, *body),
{
    proof {
        pts.lemma_view_wf();
    }
    let count = pts.node_count();
    let mut n: usize = 0;
    while n < count
        invariant
            n <= count,
            pts.wf(),
            pts@.wf(),
            count == pts@.nodes.len(),
            forall|k: int|
                0 <= k < n ==> !(pts@.sets[k] != Set::<int>::empty() && is_parameter_field(
                    *body,
                    #[trigger] pts@.nodes[k],
                )),
        decreases count - n,
    {
        let is_field = match pts.node(n).storage() {
            Some(arg) => body.is_parameter(arg.local) && arg.has_field(),
            None => false,
        };
        if is_field {
            let os = pts.pointees(n);
            if os.len() > 0 {
                proof {
                    assert(os@.contains(os@[0]));
                    assert(pts@.sets[n as int].contains(os@[0] as int));
                }
                return true;
            } else {
                proof {
                    assert forall|o: int| !pts@.sets[n as int].contains(o) by {
                        if pts@.sets[n as int].contains(o) {
                            assert(0 <= o < count);
                            assert(os@.contains(o as usize));
                        }
                    }
                    assert(pts@.sets[n as int] =~= Set::<int>::empty());
                }
            }
        }
        n += 1;
    }
    false
}

/// What the write `store` of a pair requires.
pub fn store_required_of(pts: &PointsToMap, body: &Body, store: &Partner) -> (r: OrderingSet)
    requires
        pts.wf(),
    ensures
        r@ == store_required(pts@, *body, partner_view(*store)),
{
    let correlations = atomptr_side_correlations(store, false);
    let named = reaches(pts, &correlations, PointeeKind::Storage);
    let fresh = reaches(pts, &correlations, PointeeKind::Fresh);
    let shared = parameter_field_known(pts, body);
    proof {
        lemma_side_reaches(pts@, partner_view(*store), false, correlations@, PointeeKind::Storage);
        lemma_side_reaches(pts@, partner_view(*store), false, correlations@, PointeeKind::Fresh);
    }
    let mut r = OrderingSet::new();
    if (named && shared) || fresh {
        let _ = r.insert(AtomicOrd::Release);
    }
    if named && !shared {
        let _ = r.insert(AtomicOrd::Relaxed);
    }
    assert(r@ =~= store_required(pts@, *body, partner_view(*store)));
    r
}

/// What the read `load` of a pair requires.
pub fn load_required_of(pts: &PointsToMap, body: &Body, load: &Partner) -> (r: OrderingSet)
    requires
        pts.wf(),
    ensures
        r@ == load_required(pts@, *body, partner_view(*load)),
{
    let correlations = atomptr_side_correlations(load, true);
    let here = dereferences(body, &correlations);
    let elsewhere = reaches(pts, &correlations, PointeeKind::Escaping);
    proof {
        lemma_side_reaches(pts@, partner_view(*load), true, correlations@, PointeeKind::Escaping);
        let views = place_views(correlations@);
        let lv = partner_view(*load);
        if here {
            let i = choose|i: int|
                0 <= i < correlations@.len() && loads_through(
                    body_constraints(*body),
                    (#[trigger] correlations@[i]).local,
                );
            assert(views.contains(views[i]));
            assert(is_atomptr_correlation(lv, true, views[i]));
        }
        if side_dereferenced(*body, lv) {
            let p = choose|p: PlaceView| #[trigger]
                is_atomptr_correlation(lv, true, p) && loads_through(
                    body_constraints(*body),
                    p.local,
                );
            assert(views.contains(p));
            let i = choose|i: int| 0 <= i < views.len() && views[i] == p;
            assert(correlations@[i].local == p.local);
        }
    }
    let mut r = OrderingSet::new();
    if here || elsewhere {
        let _ = r.insert(AtomicOrd::Acquire);
    }
    if !here {
        let _ = r.insert(AtomicOrd::Relaxed);
    }
    assert(r@ =~= load_required(pts@, *body, partner_view(*load)));
    r
}

/// Places that are the correlations of a side reach what the side reaches.
proof fn lemma_side_reaches(
    m: PointsToView,
    partner: PartnerView,
    on_load_side: bool,
    places: Seq<Place>,
    kind: PointeeKind,
)
    requires
        forall|p: PlaceView| #[trigger]
            place_views(places).contains(p) <==> is_atomptr_correlation(partner, on_load_side, p),
    ensures
        side_reaches(m, partner, on_load_side, kind) <==> exists|i: int|
            0 <= i < places.len() && place_reaches(m, (#[trigger] places[i])@, kind),
{
    let views = place_views(places);
    if side_reaches(m, partner, on_load_side, kind) {
        let p = choose|p: PlaceView| #[trigger]
            is_atomptr_correlation(partner, on_load_side, p) && place_reaches(m, p, kind);
        assert(views.contains(p));
        let i = choose|i: int| 0 <= i < views.len() && views[i] == p;
        assert(places[i]@ == p);
    }
    if exists|i: int| 0 <= i < places.len() && place_reaches(m, (#[trigger] places[i])@, kind) {
        let i = choose|i: int|
            0 <= i < places.len() && place_reaches(m, (#[trigger] places[i])@, kind);
        assert(views[i] == places[i]@);
        assert(views.contains(views[i]));
        assert(is_atomptr_correlation(partner, on_load_side, places[i]@));
    }
}

/// What the operations require after the first `n` of `factors` have been
/// looked at: for each pair, first what the write requires is added, then
/// what the read requires.
pub open spec fn after_atomptr_factors(
    cache: Map<DefId, PointsToView>,
    program: Program,
    callgraph: CallGraph,
    factors: Seq<FactorView>,
    n: nat,
) -> Seq<CandidateView>
    decreases n,
{
    if n == 0 {
        Seq::empty()
    } else {
        let load = factors[n - 1].0;
        let store = factors[n - 1].1;
        with_requirements(
            with_requirements(
                after_atomptr_factors(cache, program, callgraph, factors, (n - 1) as nat),
                store.0,
                store_required(
                    cache[AtomPart::caller_def(callgraph, store.0)],
                    AtomPart::caller_body(program, callgraph, store.0),
                    store,
                ),
            ),
            load.0,
            load_required(
                cache[AtomPart::caller_def(callgraph, load.0)],
                AtomPart::caller_body(program, callgraph, load.0),
                load,
            ),
        )
    }
}

/// What the operations of a cluster of operations on atomic pointers
/// require.
pub fn atomptr_candidates(
    program: &Program,
    callgraph: &CallGraph,
    alias_analysis: &AliasAnalysis,
    atomic_infos: &Vec<Partner>,
) -> (r: Vec<Candidate>)
    requires
        callgraph.consistent(*program),
        alias_analysis.covers(*program),
        callers_known(*callgraph, partner_views(atomic_infos@)),
    ensures
        candidate_views(r@) == after_atomptr_factors(
            alias_analysis.cached(),
            *program,
            *callgraph,
            spec_factors(partner_views(atomic_infos@)),
            spec_factors(partner_views(atomic_infos@)).len(),
        ),
{
    let factors = factors_of(atomic_infos);
    let ghost partners = partner_views(atomic_infos@);
    let ghost views = factor_views(factors@);
    let mut r: Vec<Candidate> = Vec::new();
    proof {
        lemma_factor_members(partners);
        assert(candidate_views(r@) =~= Seq::<CandidateView>::empty());
    }
    let mut i: usize = 0;
    while i < factors.len()
        invariant
            i <= factors.len(),
            callgraph.consistent(*program),
            alias_analysis.covers(*program),
            callers_known(*callgraph, partners),
            views == factor_views(factors@),
            views == spec_factors(partners),
            forall|k: int|
                0 <= k < views.len() ==> partners.contains((#[trigger] views[k]).0)
                    && partners.contains(views[k].1),
            candidate_views(r@) == after_atomptr_factors(
                alias_analysis.cached(),
                *program,
                *callgraph,
                views,
                i as nat,
            ),
        decreases factors.len() - i,
    {
        let factor = &factors[i];
        proof {
            let v = views[i as int];
            assert(v == factor_view(*factor));
            assert(partners.contains(v.0) && partners.contains(v.1));
            let a = choose|a: int| 0 <= a < partners.len() && partners[a] == v.0;
            let b = choose|b: int| 0 <= b < partners.len() && partners[b] == v.1;
            assert(caller_known(*callgraph, partners[a]));
            assert(caller_known(*callgraph, partners[b]));
        }
        let load = &factor.0;
        let store = &factor.1;
        let store_node = callgraph.index_to_instance(store.0.caller_instance).unwrap();
        let store_def = store_node.instance().def_id;
        let store_set = store_required_of(
            alias_analysis.get(store_def),
            &program.functions[store_def].body,
            store,
        );
        let load_node = callgraph.index_to_instance(load.0.caller_instance).unwrap();
        let load_def = load_node.instance().def_id;
        let load_set = load_required_of(
            alias_analysis.get(load_def),
            &program.functions[load_def].body,
            load,
        );
        require_all(&mut r, &store.0, store_set);
        require_all(&mut r, &load.0, load_set);
        i += 1;
    }
    r
}

} // verus!

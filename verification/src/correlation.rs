//! Which locals near an atomic operation are correlated with it: they
//! point into the aggregate that holds the atomic variable, at another
//! field.

use crate::atomic::{place_views, AtomicInfoView, AtomicInstructions};
use crate::atompart::{partner_view, Partner, PartnerView};
use crate::callgraph::{CallGraph, DefId, Program};
use crate::ir::{Local, Place, PlaceView};
use crate::pointsto::alias::{cache_extends, AliasAnalysis};
use crate::pointsto::andersen::{PointsToMap, PointsToView};
use crate::pointsto::node::{ConstraintNode, NodeView};
use vstd::prelude::*;

verus! {

impl PointsToView {
    /// The number of the node `node`, where it is known.
    pub open spec fn find(self, node: NodeView) -> Option<int> {
        if self.nodes.contains(node) {
            Some(choose|i: int| 0 <= i < self.nodes.len() && self.nodes[i] == node)
        } else {
            None
        }
    }

    /// The number of the node of the value of the local `local`.
    pub open spec fn find_local(self, local: Local) -> Option<int> {
        self.find(NodeView::Place(PlaceView::of_local(local)))
    }
}

/// The node is a place, or the storage behind a place, that lies inside an
/// aggregate.
pub open spec fn is_field_node(node: NodeView) -> bool {
    match node.storage() {
        Some(p) => p.has_field(),
        None => false,
    }
}

/// The first pointee of the node `n`, from the node `from` on, that lies
/// inside an aggregate.
pub open spec fn first_field_from(m: PointsToView, n: int, from: int) -> Option<int>
    decreases m.nodes.len() - from,
{
    if from < 0 || from >= m.nodes.len() {
        None
    } else if m.sets[n].contains(from) && is_field_node(m.nodes[from]) {
        Some(from)
    } else {
        first_field_from(m, n, from + 1)
    }
}

/// The field that the atomic variable in the local `local` is: the first
/// place inside an aggregate that the local points to.
pub open spec fn atomic_field(m: PointsToView, local: Local) -> Option<PlaceView> {
    match m.find_local(local) {
        Some(n) => match first_field_from(m, n, 0) {
            Some(o) => m.nodes[o].storage(),
            None => None,
        },
        None => None,
    }
}

/// The node is the storage of a field of the aggregate of `field`, other
/// than `field` itself.
pub open spec fn correlates(field: PlaceView, node: NodeView) -> bool {
    match node {
        NodeView::Alloc(place) => field.local == place.local && field.projection
            != place.projection && place.has_field(),
        _ => false,
    }
}

/// The local `local` points to the storage of `place`, which is a field
/// beside `field`.
pub open spec fn correlated_through(
    m: PointsToView,
    field: PlaceView,
    local: Local,
    place: PlaceView,
) -> bool {
    match m.find_local(local) {
        Some(n) => exists|o: int|
            0 <= o < m.nodes.len() && m.sets[n].contains(o) && #[trigger] m.nodes[o]
                == NodeView::Alloc(place) && correlates(field, m.nodes[o]),
        None => false,
    }
}

/// Some local of `window` points to the storage of `place`, which is a
/// field beside the field that the atomic variable in `atomic_local` is.
pub open spec fn correlated(
    m: PointsToView,
    atomic_local: Local,
    window: Seq<Local>,
    place: PlaceView,
) -> bool {
    match atomic_field(m, atomic_local) {
        Some(field) => exists|i: int|
            0 <= i < window.len() && correlated_through(m, field, #[trigger] window[i], place),
        None => false,
    }
}

/// The place of the first `local` in `window`, from `from` on.
pub open spec fn position_from(window: Seq<Local>, local: Local, from: int) -> Option<int>
    decreases window.len() - from,
{
    if from < 0 || from >= window.len() {
        None
    } else if window[from] == local {
        Some(from)
    } else {
        position_from(window, local, from + 1)
    }
}

/// The kind reads and writes in one step.
pub open spec fn reads_and_writes(operate: Option<AtomicInstructions>) -> bool {
    operate == Some(AtomicInstructions::CompareExchange) || operate == Some(
        AtomicInstructions::ReadModifyWrite,
    )
}

/// The part of the window in which what an operation reads is used: for an
/// operation that reads and writes, the locals behind the atomic variable;
/// for any other, the whole window.
pub open spec fn load_side(
    operate: Option<AtomicInstructions>,
    window: Seq<Local>,
    atomic_local: Local,
) -> Seq<Local> {
    if reads_and_writes(operate) {
        match position_from(window, atomic_local, 0) {
            Some(p) => window.subrange(p + 1, window.len() as int),
            None => Seq::empty(),
        }
    } else {
        window
    }
}

/// The part of the window in which what an operation writes is made: for
/// an operation that reads and writes, the locals before the atomic
/// variable; for any other, the whole window.
pub open spec fn store_side(
    operate: Option<AtomicInstructions>,
    window: Seq<Local>,
    atomic_local: Local,
) -> Seq<Local> {
    if reads_and_writes(operate) {
        match position_from(window, atomic_local, 0) {
            Some(p) => window.subrange(0, p),
            None => Seq::empty(),
        }
    } else {
        window
    }
}

/// `place` is correlated with the operation `partner` on the side that
/// `on_load_side` names. Nothing is correlated with an operation whose
/// atomic variable is not known.
pub open spec fn is_correlation(
    m: PointsToView,
    partner: PartnerView,
    on_load_side: bool,
    place: PlaceView,
) -> bool {
    match partner.0.atomic_place {
        Some(p) => correlated(
            m,
            p.local,
            if on_load_side {
                load_side(partner.0.atomic_operate, partner.1, p.local)
            } else {
                store_side(partner.0.atomic_operate, partner.1, p.local)
            },
            place,
        ),
        None => false,
    }
}

/// Adds `place` to `places` unless it is there.
pub fn insert_place(places: &mut Vec<Place>, place: &Place)
    requires
        place_views(old(places)@).no_duplicates(),
    ensures
        place_views(final(places)@).no_duplicates(),
        forall|p: PlaceView| #[trigger]
            place_views(final(places)@).contains(p) <==> place_views(old(places)@).contains(p)
                || p == place@,
{
    let ghost before = place_views(places@);
    let mut i: usize = 0;
    while i < places.len()
        invariant
            i <= places.len(),
            places@ == old(places)@,
            before == place_views(places@),
            before.no_duplicates(),
            forall|k: int| 0 <= k < i ==> (#[trigger] places@[k])@ != place@,
        decreases places.len() - i,
    {
        if places[i].same(place) {
            proof {
                assert(before[i as int] == place@);
            }
            return ;
        }
        i += 1;
    }
    places.push(place.clone());
    proof {
        let after = place_views(places@);
        assert(after =~= before.push(place@));
        assert(!before.contains(place@)) by {
            if before.contains(place@) {
                let k = choose|k: int| 0 <= k < before.len() && before[k] == place@;
                assert(old(places)@[k]@ == place@);
            }
        }
        assert forall|p: PlaceView| #[trigger] after.contains(p) <==> before.contains(p) || p == place@ by {
            if after.contains(p) {
                let k = choose|k: int| 0 <= k < after.len() && after[k] == p;
                if k < before.len() {
                    assert(before[k] == p);
                }
            }
            if before.contains(p) {
                let k = choose|k: int| 0 <= k < before.len() && before[k] == p;
                assert(after[k] == p);
            }
            assert(after[before.len() as int] == place@);
        }
    }
}

/// The number of the node of the value of the local `local`.
pub fn find_local(pts: &PointsToMap, local: Local) -> (r: Option<usize>)
    requires
        pts.wf(),
    ensures
        match r {
            Some(n) => pts@.find_local(local) == Some(n as int) && n < pts@.nodes.len(),
            None => pts@.find_local(local).is_none(),
        },
{
    let node = ConstraintNode::Place(Place::from_local(local));
    let r = pts.index_of(&node);
    proof {
        pts.lemma_view_wf();
    }
    r
}

/// The field that the atomic variable in the local `local` is.
pub fn first_field(pts: &PointsToMap, local: Local) -> (r: Option<Place>)
    requires
        pts.wf(),
    ensures
        match r {
            Some(p) => atomic_field(pts@, local) == Some(p@),
            None => atomic_field(pts@, local).is_none(),
        },
{
    proof {
        pts.lemma_view_wf();
    }
    match find_local(pts, local) {
        Some(n) => {
            let count = pts.node_count();
            let mut o: usize = 0;
            while o < count
                invariant
                    o <= count,
                    count == pts@.nodes.len(),
                    pts.wf(),
                    pts@.wf(),
                    pts@.find_local(local) == Some(n as int),
                    n < count,
                    first_field_from(pts@, n as int, 0) == first_field_from(
                        pts@,
                        n as int,
                        o as int,
                    ),
                decreases count - o,
            {
                if pts.points_to(n, o) {
                    match pts.node(o).storage() {
                        Some(p) => {
                            if p.has_field() {
                                return Some(p.clone());
                            }
                        },
                        None => {},
                    }
                }
                o += 1;
            }
            None
        },
        None => None,
    }
}

/// The places that are correlated with the atomic variable in
/// `atomic_local` through the locals of `window` from `from` up to `to`.
pub fn correlations_in(
    pts: &PointsToMap,
    atomic_local: Local,
    window: &Vec<Local>,
    from: usize,
    to: usize,
) -> (r: Vec<Place>)
    requires
        pts.wf(),
        from <= to <= window.len(),
    ensures
        place_views(r@).no_duplicates(),
        forall|p: PlaceView| #[trigger]
            place_views(r@).contains(p) <==> correlated(
                pts@,
                atomic_local,
                window@.subrange(from as int, to as int),
                p,
            ),
{
    let mut r: Vec<Place> = Vec::new();
    let ghost slice = window@.subrange(from as int, to as int);
    let field = match first_field(pts, atomic_local) {
        Some(f) => f,
        None => {
            return r;
        },
    };
    let count = pts.node_count();
    proof {
        pts.lemma_view_wf();
    }
    let mut i: usize = from;
    while i < to
        invariant
            from <= i <= to <= window.len(),
            pts.wf(),
            pts@.wf(),
            count == pts@.nodes.len(),
            slice == window@.subrange(from as int, to as int),
            atomic_field(pts@, atomic_local) == Some(field@),
            place_views(r@).no_duplicates(),
            forall|p: PlaceView| #[trigger]
                place_views(r@).contains(p) <==> exists|k: int|
                    0 <= k < i - from && correlated_through(pts@, field@, #[trigger] slice[k], p),
        decreases to - i,
    {
        let local = window[i];
        let ghost before = place_views(r@);
        assert(slice[i - from] == local);
        match find_local(pts, local) {
            Some(n) => {
                let mut o: usize = 0;
                while o < count
                    invariant
                        o <= count,
                        from <= i < to <= window.len(),
                        pts.wf(),
                        pts@.wf(),
                        count == pts@.nodes.len(),
                        n < count,
                        pts@.find_local(local) == Some(n as int),
                        place_views(r@).no_duplicates(),
                        forall|p: PlaceView| #[trigger]
                            place_views(r@).contains(p) <==> before.contains(p) || exists|x: int|
                                0 <= x < o && pts@.sets[n as int].contains(x) && #[trigger] pts@.nodes[x]
                                    == NodeView::Alloc(p) && correlates(field@, pts@.nodes[x]),
                    decreases count - o,
                {
                    let ghost mid = place_views(r@);
                    let mut added = false;
                    if pts.points_to(n, o) {
                        match pts.node(o) {
                            ConstraintNode::Alloc(place) => {
                                if field.local == place.local && !crate::ir::same_projection(
                                    &field.projection,
                                    &place.projection,
                                ) && place.has_field() {
                                    insert_place(&mut r, place);
                                    added = true;
                                }
                            },
                            _ => {},
                        }
                    }
                    proof {
                        let now = place_views(r@);
                        assert forall|p: PlaceView| #[trigger]
                            now.contains(p) <==> before.contains(p) || exists|x: int|
                                0 <= x < o + 1 && pts@.sets[n as int].contains(x)
                                    && #[trigger] pts@.nodes[x] == NodeView::Alloc(p)
                                    && correlates(field@, pts@.nodes[x]) by {
                            if now.contains(p) && !mid.contains(p) {
                                assert(added);
                                assert(pts@.nodes[o as int] == NodeView::Alloc(p));
                            }
                            if exists|x: int|
                                0 <= x < o + 1 && pts@.sets[n as int].contains(x)
                                    && #[trigger] pts@.nodes[x] == NodeView::Alloc(p)
                                    && correlates(field@, pts@.nodes[x]) {
                                let x = choose|x: int|
                                    0 <= x < o + 1 && pts@.sets[n as int].contains(x)
                                        && #[trigger] pts@.nodes[x] == NodeView::Alloc(p)
                                        && correlates(field@, pts@.nodes[x]);
                                if x < o {
                                    assert(mid.contains(p));
                                } else {
                                    assert(added);
                                }
                            }
                        }
                    }
                    o += 1;
                }
                proof {
                    let now = place_views(r@);
                    assert forall|p: PlaceView| #[trigger]
                        now.contains(p) <==> exists|k: int|
                            0 <= k < i + 1 - from && correlated_through(
                                pts@,
                                field@,
                                #[trigger] slice[k],
                                p,
                            ) by {
                        if now.contains(p) && !before.contains(p) {
                            assert(correlated_through(pts@, field@, slice[i - from], p));
                        }
                        if exists|k: int|
                            0 <= k < i + 1 - from && correlated_through(
                                pts@,
                                field@,
                                #[trigger] slice[k],
                                p,
                            ) {
                            let k = choose|k: int|
                                0 <= k < i + 1 - from && correlated_through(
                                    pts@,
                                    field@,
                                    #[trigger] slice[k],
                                    p,
                                );
                            if k < i - from {
                                assert(before.contains(p));
                            }
                        }
                    }
                }
            },
            None => {
                proof {
                    assert forall|p: PlaceView| #[trigger]
                        before.contains(p) <==> exists|k: int|
                            0 <= k < i + 1 - from && correlated_through(
                                pts@,
                                field@,
                                #[trigger] slice[k],
                                p,
                            ) by {
                        if exists|k: int|
                            0 <= k < i + 1 - from && correlated_through(
                                pts@,
                                field@,
                                #[trigger] slice[k],
                                p,
                            ) {
                            let k = choose|k: int|
                                0 <= k < i + 1 - from && correlated_through(
                                    pts@,
                                    field@,
                                    #[trigger] slice[k],
                                    p,
                                );
                            assert(k < i - from);
                        }
                    }
                }
            },
        }
        i += 1;
    }
    r
}

/// The place of the first `local` in `window`.
pub fn position(window: &Vec<Local>, local: Local) -> (r: Option<usize>)
    ensures
        match r {
            Some(p) => position_from(window@, local, 0) == Some(p as int) && p < window.len(),
            None => position_from(window@, local, 0).is_none(),
        },
{
    let mut i: usize = 0;
    while i < window.len()
        invariant
            i <= window.len(),
            position_from(window@, local, 0) == position_from(window@, local, i as int),
        decreases window.len() - i,
    {
        if window[i] == local {
            return Some(i);
        }
        i += 1;
    }
    None
}

/// The places correlated with the operation `partner` on one side.
pub fn side_correlations(pts: &PointsToMap, partner: &Partner, on_load_side: bool) -> (r: Vec<
    Place,
>)
    requires
        pts.wf(),
    ensures
        place_views(r@).no_duplicates(),
        forall|p: PlaceView| #[trigger]
            place_views(r@).contains(p) <==> is_correlation(
                pts@,
                partner_view(*partner),
                on_load_side,
                p,
            ),
{
    let info = &partner.0;
    let window = &partner.1;
    let atomic_local = match &info.atomic_place {
        Some(p) => p.local,
        None => {
            return Vec::new();
        },
    };
    let both = match info.atomic_operate {
        Some(AtomicInstructions::CompareExchange) => true,
        Some(AtomicInstructions::ReadModifyWrite) => true,
        _ => false,
    };
    if both {
        match position(window, atomic_local) {
            Some(p) => {
                if on_load_side {
                    correlations_in(pts, atomic_local, window, p + 1, window.len())
                } else {
                    correlations_in(pts, atomic_local, window, 0, p)
                }
            },
            None => {
                let r: Vec<Place> = Vec::new();
                proof {
                    assert forall|p: PlaceView|
                        !correlated(pts@, atomic_local, Seq::<Local>::empty(), p) by {}
                }
                r
            },
        }
    } else {
        assert(window@.subrange(0, window@.len() as int) =~= window@);
        correlations_in(pts, atomic_local, window, 0, window.len())
    }
}

/// Resolves, for one atomic operation with its window, the places that
/// are correlated with it.
pub struct CorrelationAnalyzer<'a> {
    pub tcx: &'a Program,
    pub partner: Partner,
    pub correlations: Vec<Place>,
}

impl<'a> CorrelationAnalyzer<'a> {
    /// For the operation `partner`, with nothing resolved yet.
    pub fn new(tcx: &'a Program, partner: Partner) -> (r: Self)
        ensures
            r.tcx == tcx,
            r.partner == partner,
            r.correlations@.len() == 0,
    {
        CorrelationAnalyzer { tcx, partner, correlations: Vec::new() }
    }

    /// The function that makes the call of the operation.
    pub open spec fn caller(&self, callgraph: CallGraph) -> DefId {
        callgraph.nodes[self.partner.0.caller_instance as int].spec_instance().def_id
    }

    /// What `resolve_load_collelation` and `resolve_store_collelation`
    /// require: the call graph fits the program, and the caller of the
    /// operation is a node of the call graph.
    pub open spec fn ready(&self, callgraph: CallGraph, alias_analysis: AliasAnalysis) -> bool {
        &&& callgraph.consistent(*self.tcx)
        &&& self.partner.0.caller_instance < callgraph.nodes.len()
        &&& alias_analysis.wf()
        &&& alias_analysis.sound_for(*self.tcx)
    }

    /// What holds after a resolution on the side that `on_load_side` names.
    pub open spec fn resolved(
        &self,
        before: Self,
        callgraph: CallGraph,
        kept: AliasAnalysis,
        kept_before: AliasAnalysis,
        on_load_side: bool,
    ) -> bool {
        &&& self.tcx == before.tcx
        &&& self.partner == before.partner
        &&& kept.wf()
        &&& kept.sound_for(*self.tcx)
        &&& cache_extends(kept_before.cached(), kept.cached())
        &&& kept.cached().contains_key(self.caller(callgraph))
        &&& place_views(self.correlations@).no_duplicates()
        &&& forall|p: PlaceView| #[trigger]
            place_views(self.correlations@).contains(p) <==> is_correlation(
                kept.cached()[self.caller(callgraph)],
                partner_view(self.partner),
                on_load_side,
                p,
            )
    }

    /// Sets `correlations` to the places that are correlated with what the
    /// operation reads.
    pub fn resolve_load_collelation(
        &mut self,
        callgraph: &CallGraph,
        alias_analysis: &mut AliasAnalysis,
    )
        requires
            old(self).ready(*callgraph, *old(alias_analysis)),
        ensures
            final(self).resolved(
                *old(self),
                *callgraph,
                *final(alias_analysis),
                *old(alias_analysis),
                true,
            ),
    {
        let node = callgraph.index_to_instance(self.partner.0.caller_instance).unwrap();
        let pts = alias_analysis.points_to_of(self.tcx, node.instance().def_id);
        self.correlations = side_correlations(&pts, &self.partner, true);
    }

    /// Sets `correlations` to the places that are correlated with what the
    /// operation writes.
    pub fn resolve_store_collelation(
        &mut self,
        callgraph: &CallGraph,
        alias_analysis: &mut AliasAnalysis,
    )
        requires
            old(self).ready(*callgraph, *old(alias_analysis)),
        ensures
            final(self).resolved(
                *old(self),
                *callgraph,
                *final(alias_analysis),
                *old(alias_analysis),
                false,
            ),
    {
        let node = callgraph.index_to_instance(self.partner.0.caller_instance).unwrap();
        let pts = alias_analysis.points_to_of(self.tcx, node.instance().def_id);
        self.correlations = side_correlations(&pts, &self.partner, false);
    }
}

/// The part of the window of an operation on an atomic pointer that
/// belongs to one side: for an operation that reads and writes, the locals
/// from the value read on, or the locals up to the value written; for a
/// load or a store on its own side, the whole window; nothing otherwise.
pub open spec fn atomptr_side(info: AtomicInfoView, window: Seq<Local>, on_load_side: bool) -> Seq<
    Local,
> {
    if reads_and_writes(info.atomic_operate) {
        let which: int = if on_load_side {
            0
        } else {
            1
        };
        if info.atomic_value.len() > which {
            match position_from(window, info.atomic_value[which].local, 0) {
                Some(p) => if on_load_side {
                    window.subrange(p, window.len() as int)
                } else {
                    window.subrange(0, p + 1)
                },
                None => Seq::empty(),
            }
        } else {
            Seq::empty()
        }
    } else if on_load_side && info.atomic_operate == Some(AtomicInstructions::Load) {
        window
    } else if !on_load_side && info.atomic_operate == Some(AtomicInstructions::Store) {
        window
    } else {
        Seq::empty()
    }
}

/// `place` is a local of the side of the window.
pub open spec fn is_atomptr_correlation(
    partner: PartnerView,
    on_load_side: bool,
    place: PlaceView,
) -> bool {
    exists|i: int|
        0 <= i < atomptr_side(partner.0, partner.1, on_load_side).len() && place
            == PlaceView::of_local(#[trigger] atomptr_side(partner.0, partner.1, on_load_side)[i])
}

/// The locals of `window` from `from` up to `to`, as places, each once.
fn locals_as_places(window: &Vec<Local>, from: usize, to: usize) -> (r: Vec<Place>)
    requires
        from <= to <= window.len(),
    ensures
        place_views(r@).no_duplicates(),
        forall|p: PlaceView| #[trigger]
            place_views(r@).contains(p) <==> exists|i: int|
                0 <= i < to - from && p == PlaceView::of_local(
                    #[trigger] window@.subrange(from as int, to as int)[i],
                ),
{
    let mut r: Vec<Place> = Vec::new();
    let ghost slice = window@.subrange(from as int, to as int);
    let mut i: usize = from;
    while i < to
        invariant
            from <= i <= to <= window.len(),
            slice == window@.subrange(from as int, to as int),
            place_views(r@).no_duplicates(),
            forall|p: PlaceView| #[trigger]
                place_views(r@).contains(p) <==> exists|k: int|
                    0 <= k < i - from && p == PlaceView::of_local(#[trigger] slice[k]),
        decreases to - i,
    {
        let ghost before = place_views(r@);
        let place = Place::from_local(window[i]);
        insert_place(&mut r, &place);
        proof {
            let now = place_views(r@);
            assert(slice[i - from] == window@[i as int]);
            assert forall|p: PlaceView| #[trigger]
                now.contains(p) <==> exists|k: int|
                    0 <= k < i + 1 - from && p == PlaceView::of_local(#[trigger] slice[k]) by {
                if now.contains(p) && !before.contains(p) {
                    assert(p == PlaceView::of_local(slice[i - from]));
                }
                if exists|k: int|
                    0 <= k < i + 1 - from && p == PlaceView::of_local(#[trigger] slice[k]) {
                    let k = choose|k: int|
                        0 <= k < i + 1 - from && p == PlaceView::of_local(#[trigger] slice[k]);
                    if k < i - from {
                        assert(before.contains(p));
                    }
                }
            }
        }
        i += 1;
    }
    r
}

/// The places correlated with the operation `partner` on an atomic pointer
/// on one side.
pub fn atomptr_side_correlations(partner: &Partner, on_load_side: bool) -> (r: Vec<Place>)
    ensures
        place_views(r@).no_duplicates(),
        forall|p: PlaceView| #[trigger]
            place_views(r@).contains(p) <==> is_atomptr_correlation(
                partner_view(*partner),
                on_load_side,
                p,
            ),
{
    let info = &partner.0;
    let window = &partner.1;
    let both = match info.atomic_operate {
        Some(AtomicInstructions::CompareExchange) => true,
        Some(AtomicInstructions::ReadModifyWrite) => true,
        _ => false,
    };
    let whole = match info.atomic_operate {
        Some(AtomicInstructions::Load) => on_load_side,
        Some(AtomicInstructions::Store) => !on_load_side,
        _ => false,
    };
    let which: usize = if on_load_side {
        0
    } else {
        1
    };
    if both {
        if info.atomic_value.len() > which {
            assert(info@.atomic_value[which as int] == info.atomic_value@[which as int]@);
            match position(window, info.atomic_value[which].local) {
                Some(p) => {
                    let (from, to) = if on_load_side {
                        (p, window.len())
                    } else {
                        (0, p + 1)
                    };
                    let r = locals_as_places(window, from, to);
                    proof {
                        lemma_side_members(
                            partner_view(*partner),
                            on_load_side,
                            place_views(r@),
                            window@.subrange(from as int, to as int),
                        );
                    }
                    return r;
                },
                None => {},
            }
        }
        let r: Vec<Place> = Vec::new();
        proof {
            lemma_side_members(partner_view(*partner), on_load_side, place_views(r@), Seq::empty());
        }
        r
    } else if whole {
        assert(window@.subrange(0, window@.len() as int) =~= window@);
        let r = locals_as_places(window, 0, window.len());
        proof {
            lemma_side_members(partner_view(*partner), on_load_side, place_views(r@), window@);
        }
        r
    } else {
        let r: Vec<Place> = Vec::new();
        proof {
            lemma_side_members(partner_view(*partner), on_load_side, place_views(r@), Seq::empty());
        }
        r
    }
}

/// Places that are the locals of the side of a window are the correlations
/// of that side.
proof fn lemma_side_members(
    partner: PartnerView,
    on_load_side: bool,
    places: Seq<PlaceView>,
    side: Seq<Local>,
)
    requires
        side == atomptr_side(partner.0, partner.1, on_load_side),
        forall|p: PlaceView| #[trigger]
            places.contains(p) <==> exists|i: int|
                0 <= i < side.len() && p == PlaceView::of_local(#[trigger] side[i]),
    ensures
        forall|p: PlaceView| #[trigger]
            places.contains(p) <==> is_atomptr_correlation(partner, on_load_side, p),
{
    assert forall|p: PlaceView| #[trigger]
        places.contains(p) <==> is_atomptr_correlation(partner, on_load_side, p) by {
        if places.contains(p) {
            let i = choose|i: int|
                0 <= i < side.len() && p == PlaceView::of_local(#[trigger] side[i]);
            assert(p == PlaceView::of_local(
                atomptr_side(partner.0, partner.1, on_load_side)[i],
            ));
        }
        if is_atomptr_correlation(partner, on_load_side, p) {
            let i = choose|i: int|
                0 <= i < atomptr_side(partner.0, partner.1, on_load_side).len() && p
                    == PlaceView::of_local(
                    #[trigger] atomptr_side(partner.0, partner.1, on_load_side)[i],
                );
            assert(p == PlaceView::of_local(side[i]));
        }
    }
}

impl<'a> CorrelationAnalyzer<'a> {
    /// Sets `correlations` to the locals, as places, in which what an
    /// operation on an atomic pointer reads lives on.
    pub fn resolve_atomptr_load_collelation(&mut self)
        ensures
            final(self).tcx == old(self).tcx,
            final(self).partner == old(self).partner,
            place_views(final(self).correlations@).no_duplicates(),
            forall|p: PlaceView| #[trigger]
                place_views(final(self).correlations@).contains(p) <==> is_atomptr_correlation(
                    partner_view(old(self).partner),
                    true,
                    p,
                ),
    {
        self.correlations = atomptr_side_correlations(&self.partner, true);
    }

    /// Sets `correlations` to the locals, as places, from which what an
    /// operation on an atomic pointer writes is made.
    pub fn resolve_atomptr_store_collelation(&mut self)
        ensures
            final(self).tcx == old(self).tcx,
            final(self).partner == old(self).partner,
            place_views(final(self).correlations@).no_duplicates(),
            forall|p: PlaceView| #[trigger]
                place_views(final(self).correlations@).contains(p) <==> is_atomptr_correlation(
                    partner_view(old(self).partner),
                    false,
                    p,
                ),
    {
        self.correlations = atomptr_side_correlations(&self.partner, false);
    }
}

} // verus!

//! For each atomic operation, the locals that are candidates for being
//! correlated with it, and the clustering of the operations by the memory
//! they work on.

use crate::atomic::{AtomicInfo, AtomicInfoView, AtomicInstructions};
use crate::callgraph::{CallGraph, Function, Program};
use crate::ir::{Body, Local, LocalTy, Place, ProjectionElem};
use crate::pointsto::alias::AliasAnalysis;
use crate::pointsto::andersen::{PointsToMap, PointsToView};
use crate::pointsto::node::{ConstraintNode, NodeView};
use vstd::prelude::*;

verus! {

/// An atomic operation with its window of locals.
pub type Partner = (AtomicInfo, Vec<Local>);

/// A `Partner` as a mathematical value.
pub type PartnerView = (AtomicInfoView, Seq<Local>);

/// The view of an operation with its window.
pub open spec fn partner_view(p: Partner) -> PartnerView {
    (p.0@, p.1@)
}

/// The views of the operations of `partners` with their windows.
pub open spec fn partner_views(partners: Seq<Partner>) -> Seq<PartnerView> {
    partners.map_values(|p: Partner| partner_view(p))
}

/// A copy of a list of locals.
pub fn clone_locals(locals: &Vec<Local>) -> (r: Vec<Local>)
    ensures
        r@ == locals@,
{
    let mut r: Vec<Local> = Vec::new();
    let mut i: usize = 0;
    while i < locals.len()
        invariant
            i <= locals.len(),
            r@ == locals@.take(i as int),
        decreases locals.len() - i,
    {
        r.push(locals[i]);
        assert(r@ =~= locals@.take(i + 1));
        i += 1;
    }
    assert(locals@.take(locals@.len() as int) =~= locals@);
    r
}

/// A copy of an operation with its window.
pub fn clone_partner(p: &Partner) -> (r: Partner)
    ensures
        partner_view(r) == partner_view(*p),
{
    (p.0.clone(), clone_locals(&p.1))
}

/// The share of the locals of a function, in percent, that the window of
/// an operation reaches to each side, unless another share is set.
pub const DEFAULT_WINDOW_PERCENT: usize = 30;

/// The number of variables and temporaries of a body: its locals behind
/// the return place and the parameters.
pub open spec fn var_count(body: Body) -> nat {
    if body.local_decls.len() > body.arg_count + 1 {
        (body.local_decls.len() - body.arg_count - 1) as nat
    } else {
        0
    }
}

/// The place of `local` among the variables and temporaries of the body;
/// 0 where it is not among them.
pub open spec fn var_position(body: Body, local: Local) -> nat {
    if body.arg_count + 1 <= local < body.local_decls.len() {
        (local - body.arg_count - 1) as nat
    } else {
        0
    }
}

/// How many locals the window reaches to each side: `percent` hundredths
/// of `total`, rounded to the nearest number, halves upwards, and not more
/// than `total`.
pub open spec fn window_reach(total: nat, percent: nat) -> nat {
    let reach = (total * percent + 50) / 100;
    if reach > total {
        total
    } else {
        reach
    }
}

/// The first position of the window and the position behind its last.
pub open spec fn window_bounds(
    operate: AtomicInstructions,
    total: int,
    index: int,
    reach: int,
) -> (int, int) {
    let before: int = if index >= reach {
        index - reach
    } else {
        0
    };
    let after: int = if index + reach < total {
        index + reach
    } else {
        total
    };
    match operate {
        AtomicInstructions::Store => (before, index),
        AtomicInstructions::Load => (
            if index == 0 {
                0int
            } else {
                index + 1
            },
            after,
        ),
        AtomicInstructions::ReadModifyWrite => (before, after - 1),
        AtomicInstructions::CompareExchange => (before, after - 1),
    }
}

/// The window of an operation of kind `operate` on the atomic variable
/// `local`: for a store the locals before the variable, for a load the
/// locals behind it, for the other kinds the locals on both sides, each as
/// far as the window reaches. A window whose bounds cross is empty.
pub open spec fn spec_interim_window(
    body: Body,
    operate: AtomicInstructions,
    local: Local,
    percent: nat,
) -> Seq<Local> {
    let total = var_count(body);
    let (start, end) = window_bounds(
        operate,
        total as int,
        var_position(body, local) as int,
        window_reach(total, percent) as int,
    );
    if 0 <= start < end <= total {
        Seq::new((end - start) as nat, |i: int| (body.arg_count + 1 + start + i) as usize)
    } else {
        Seq::empty()
    }
}

/// `percent` hundredths of `total`, rounded, and not more than `total`.
pub fn window_reach_of(total: usize, percent: usize) -> (r: usize)
    ensures
        r == window_reach(total as nat, percent as nat),
{
    let wide_total: u128 = total as u128;
    let wide_percent: u128 = percent as u128;
    assert(wide_total * wide_percent <= 0xffff_ffff_ffff_ffff * 0xffff_ffff_ffff_ffff)
        by (nonlinear_arith)
        requires
            wide_total <= 0xffff_ffff_ffff_ffff,
            wide_percent <= 0xffff_ffff_ffff_ffff,
    ;
    let product: u128 = wide_total * wide_percent;
    let reach: u128 = (product + 50) / 100;
    if reach > total as u128 {
        total
    } else {
        reach as usize
    }
}

/// The window of an operation of kind `operate` on the atomic variable
/// `local` in `body`.
pub fn interim_window(body: &Body, operate: AtomicInstructions, local: Local, percent: usize) -> (r:
    Vec<Local>)
    ensures
        r@ == spec_interim_window(*body, operate, local, percent as nat),
{
    let count = body.local_decls.len();
    if body.arg_count >= count || count - body.arg_count == 1 {
        return Vec::new();
    }
    let first = body.arg_count + 1;
    let total = count - first;
    let index = if first <= local && local < count {
        local - first
    } else {
        0
    };
    let reach = window_reach_of(total, percent);
    let before = if index >= reach {
        index - reach
    } else {
        0
    };
    let after = if reach < total - index {
        index + reach
    } else {
        total
    };
    let (start, end) = match operate {
        AtomicInstructions::Store => (before, index),
        AtomicInstructions::Load => (
            if index == 0 {
                0
            } else {
                index + 1
            },
            after,
        ),
        AtomicInstructions::ReadModifyWrite => (
            before,
            if after > 0 {
                after - 1
            } else {
                0
            },
        ),
        AtomicInstructions::CompareExchange => (
            before,
            if after > 0 {
                after - 1
            } else {
                0
            },
        ),
    };
    let mut r: Vec<Local> = Vec::new();
    if start >= end {
        return r;
    }
    let mut i: usize = start;
    while i < end
        invariant
            start <= i <= end <= total,
            first + total == count,
            r@.len() == i - start,
            forall|k: int| 0 <= k < r@.len() ==> r@[k] == first + start + k,
        decreases end - i,
    {
        r.push(first + i);
        i += 1;
    }
    assert(r@ =~= spec_interim_window(*body, operate, local, percent as nat));
    r
}

/// Whether the type of the local of `place` is a struct, enum or union, or
/// an array, slice, reference or raw pointer to one.
pub open spec fn spec_from_adt(body: Body, local: Local) -> bool {
    local < body.local_decls.len() && match body.local_decls[local as int] {
        LocalTy::Adt => true,
        LocalTy::Array { of_adt } => of_adt,
        LocalTy::Slice { of_adt } => of_adt,
        LocalTy::Ref { of_adt } => of_adt,
        LocalTy::RawPtr { of_adt } => of_adt,
        LocalTy::Other => false,
    }
}

/// Finds the window of an atomic operation and the cluster it belongs to.
pub struct AtomPart<'a> {
    pub tcx: &'a Program,
    pub atom_info: AtomicInfo,
    pub partner: Vec<Partner>,
    pub partner_atomptr: Vec<Partner>,
    /// The share of the locals, in percent, that a window reaches to each
    /// side.
    pub window_percent: usize,
}

impl<'a> AtomPart<'a> {
    /// For the operation `atom_info`, with no window yet.
    pub fn new(tcx: &'a Program, atom_info: AtomicInfo) -> (r: AtomPart<'a>)
        ensures
            r.tcx == tcx,
            r.atom_info == atom_info,
            r.partner@.len() == 0,
            r.partner_atomptr@.len() == 0,
            r.window_percent == DEFAULT_WINDOW_PERCENT,
    {
        AtomPart {
            tcx,
            atom_info,
            partner: Vec::new(),
            partner_atomptr: Vec::new(),
            window_percent: DEFAULT_WINDOW_PERCENT,
        }
    }

    /// Whether the local of `place_ref` holds a struct, enum or union, or
    /// an array, slice, reference or raw pointer to one.
    pub fn from_adt(body: &Body, place_ref: &Place) -> (r: bool)
        ensures
            r == spec_from_adt(*body, place_ref.local),
    {
        if place_ref.local >= body.local_decls.len() {
            return false;
        }
        match body.local_decls[place_ref.local] {
            LocalTy::Adt => true,
            LocalTy::Array { of_adt } => of_adt,
            LocalTy::Slice { of_adt } => of_adt,
            LocalTy::Ref { of_adt } => of_adt,
            LocalTy::RawPtr { of_adt } => of_adt,
            LocalTy::Other => false,
        }
    }

    /// The body of the function that makes the call of an operation.
    pub open spec fn caller_body(program: Program, callgraph: CallGraph, info: AtomicInfoView) -> Body {
        program.functions[callgraph.nodes[info.caller_instance as int].spec_instance().def_id as int].body
    }

    /// The window of the operation `info` in the function that calls it.
    /// An operation whose kind is not known has an empty window, and one
    /// whose atomic variable is not known is taken to stand first.
    pub open spec fn window_of(
        program: Program,
        callgraph: CallGraph,
        info: AtomicInfoView,
        percent: nat,
    ) -> Seq<Local> {
        match info.atomic_operate {
            Some(operate) => spec_interim_window(
                Self::caller_body(program, callgraph, info),
                operate,
                match info.atomic_place {
                    Some(p) => p.local,
                    None => 0,
                },
                percent,
            ),
            None => Seq::empty(),
        }
    }

    /// Adds the operation with its window to `partner`.
    pub fn infer_interival(&mut self, callgraph: &CallGraph)
        requires
            callgraph.consistent(*old(self).tcx),
            old(self).atom_info.caller_instance < callgraph.nodes.len(),
        ensures
            final(self).tcx == old(self).tcx,
            final(self).atom_info == old(self).atom_info,
            final(self).partner_atomptr == old(self).partner_atomptr,
            final(self).window_percent == old(self).window_percent,
            partner_views(final(self).partner@) == partner_views(old(self).partner@).push(
                (
                    old(self).atom_info@,
                    Self::window_of(
                        *old(self).tcx,
                        *callgraph,
                        old(self).atom_info@,
                        old(self).window_percent as nat,
                    ),
                ),
            ),
    {
        let node = callgraph.index_to_instance(self.atom_info.caller_instance).unwrap();
        let body = &self.tcx.functions[node.instance().def_id].body;
        let local = match &self.atom_info.atomic_place {
            Some(p) => p.local,
            None => 0,
        };
        let window = match self.atom_info.atomic_operate {
            Some(operate) => interim_window(body, operate, local, self.window_percent),
            None => Vec::new(),
        };
        let ghost before = self.partner@;
        let entry = (self.atom_info.clone(), window);
        let ghost view = partner_view(entry);
        self.partner.push(entry);
        proof {
            assert(partner_views(self.partner@) =~= partner_views(before).push(view));
        }
    }
}

/// What a cluster of atomic operations has in common: the field that holds
/// the atomic variable, or the literal through which it is reached.
#[derive(Debug, PartialEq, Eq)]
pub enum ClusterKey {
    /// The first step from the aggregate to the atomic variable.
    Field(ProjectionElem),
    /// The value of the literal, as it is printed.
    Constant(String),
}

/// A `ClusterKey` as a mathematical value.
pub enum KeyView {
    Field(ProjectionElem),
    Constant(Seq<char>),
}

impl View for ClusterKey {
    type V = KeyView;

    open spec fn view(&self) -> KeyView {
        match self {
            ClusterKey::Field(e) => KeyView::Field(*e),
            ClusterKey::Constant(s) => KeyView::Constant(s@),
        }
    }
}

impl ClusterKey {
    /// Whether `self` and `other` are the same key.
    pub fn same(&self, other: &ClusterKey) -> (r: bool)
        ensures
            r == (self@ == other@),
    {
        match self {
            ClusterKey::Field(a) => match other {
                ClusterKey::Field(b) => *a == *b,
                ClusterKey::Constant(_) => false,
            },
            ClusterKey::Constant(a) => match other {
                ClusterKey::Field(_) => false,
                ClusterKey::Constant(b) => *a == *b,
            },
        }
    }
}

/// The key that a pointee of an atomic variable gives: the first step of a
/// place inside a local that holds an aggregate, or the value of a literal.
pub open spec fn key_of_node(body: Body, node: NodeView) -> Option<KeyView> {
    match node {
        NodeView::Alloc(p) => if p.projection.len() > 0 && spec_from_adt(body, p.local) {
            Some(KeyView::Field(p.projection[0]))
        } else {
            None
        },
        NodeView::Place(p) => if p.projection.len() > 0 && spec_from_adt(body, p.local) {
            Some(KeyView::Field(p.projection[0]))
        } else {
            None
        },
        NodeView::ConstantDeref(c) => match c.value {
            Some(v) => Some(KeyView::Constant(v)),
            None => None,
        },
        _ => None,
    }
}

/// The key that the first pointee of the node `n`, from the node `from` on,
/// gives.
pub open spec fn first_key_from(m: PointsToView, body: Body, n: int, from: int) -> Option<KeyView>
    decreases m.nodes.len() - from,
{
    if from < 0 || from >= m.nodes.len() {
        None
    } else if m.sets[n].contains(from) && key_of_node(body, m.nodes[from]).is_some() {
        key_of_node(body, m.nodes[from])
    } else {
        first_key_from(m, body, n, from + 1)
    }
}

/// The key of the cluster of the atomic variable in the local `local`.
pub open spec fn spec_cluster_key(m: PointsToView, body: Body, local: Local) -> Option<KeyView> {
    match m.find_local(local) {
        Some(n) => first_key_from(m, body, n, 0),
        None => None,
    }
}

/// The key of the cluster of the atomic variable in the local `local`.
pub fn cluster_key(pts: &PointsToMap, body: &Body, local: Local) -> (r: Option<ClusterKey>)
    requires
        pts.wf(),
    ensures
        match r {
            Some(k) => spec_cluster_key(pts@, *body, local) == Some(k@),
            None => spec_cluster_key(pts@, *body, local).is_none(),
        },
{
    proof {
        pts.lemma_view_wf();
    }
    match crate::correlation::find_local(pts, local) {
        Some(n) => {
            let count = pts.node_count();
            let mut o: usize = 0;
            while o < count
                invariant
                    o <= count,
                    count == pts@.nodes.len(),
                    pts.wf(),
                    pts@.wf(),
                    n < count,
                    pts@.find_local(local) == Some(n as int),
                    first_key_from(pts@, *body, n as int, 0) == first_key_from(
                        pts@,
                        *body,
                        n as int,
                        o as int,
                    ),
                decreases count - o,
            {
                if pts.points_to(n, o) {
                    match pts.node(o) {
                        ConstraintNode::Alloc(p) => {
                            if p.projection.len() > 0 && AtomPart::from_adt(body, p) {
                                return Some(ClusterKey::Field(p.projection[0]));
                            }
                        },
                        ConstraintNode::Place(p) => {
                            if p.projection.len() > 0 && AtomPart::from_adt(body, p) {
                                return Some(ClusterKey::Field(p.projection[0]));
                            }
                        },
                        ConstraintNode::ConstantDeref(c) => {
                            match &c.value {
                                Some(v) => {
                                    return Some(ClusterKey::Constant(v.clone()));
                                },
                                None => {},
                            }
                        },
                        _ => {},
                    }
                }
                o += 1;
            }
            None
        },
        None => None,
    }
}

/// A cluster: its key and its operations with their windows.
pub type Cluster = (ClusterKey, Vec<Partner>);

/// A `Cluster` as a mathematical value.
pub type ClusterView = (KeyView, Seq<PartnerView>);

/// The view of a cluster.
pub open spec fn cluster_view(c: Cluster) -> ClusterView {
    (c.0@, partner_views(c.1@))
}

/// The views of the clusters of `clusters`.
pub open spec fn cluster_views(clusters: Seq<Cluster>) -> Seq<ClusterView> {
    clusters.map_values(|c: Cluster| cluster_view(c))
}

/// The place of the first cluster with the key `key`, from `from` on.
pub open spec fn cluster_index(clusters: Seq<ClusterView>, key: KeyView, from: int) -> Option<int>
    decreases clusters.len() - from,
{
    if from < 0 || from >= clusters.len() {
        None
    } else if clusters[from].0 == key {
        Some(from)
    } else {
        cluster_index(clusters, key, from + 1)
    }
}

/// `clusters` with `partners` added to the cluster with the key `key`,
/// which is made the last cluster where there is none.
pub open spec fn with_members(
    clusters: Seq<ClusterView>,
    key: KeyView,
    partners: Seq<PartnerView>,
) -> Seq<ClusterView> {
    match cluster_index(clusters, key, 0) {
        Some(i) => clusters.update(i, (key, clusters[i].1 + partners)),
        None => clusters.push((key, partners)),
    }
}

/// Adds `partners` to the cluster with the key `key`.
pub fn add_members(clusters: &mut Vec<Cluster>, key: ClusterKey, partners: Vec<Partner>)
    ensures
        cluster_views(final(clusters)@) == with_members(
            cluster_views(old(clusters)@),
            key@,
            partner_views(partners@),
        ),
{
    let ghost before = cluster_views(clusters@);
    let mut i: usize = 0;
    while i < clusters.len()
        invariant
            i <= clusters.len(),
            clusters@ == old(clusters)@,
            before == cluster_views(clusters@),
            cluster_index(before, key@, 0) == cluster_index(before, key@, i as int),
        decreases clusters.len() - i,
    {
        if clusters[i].0.same(&key) {
            let ghost members = partner_views(clusters@[i as int].1@);
            let mut partners = partners;
            let ghost added = partner_views(partners@);
            clusters[i].1.append(&mut partners);
            proof {
                assert(before[i as int].0 == key@);
                assert(partner_views(clusters@[i as int].1@) =~= members + added);
                assert(cluster_views(clusters@) =~= before.update(
                    i as int,
                    (key@, members + added),
                ));
            }
            return ;
        }
        i += 1;
    }
    let ghost k = key@;
    let ghost added = partner_views(partners@);
    clusters.push((key, partners));
    proof {
        assert(cluster_views(clusters@) =~= before.push((k, added)));
    }
}

impl<'a> AtomPart<'a> {
    /// The function that makes the call of an operation.
    pub open spec fn caller_def(callgraph: CallGraph, info: AtomicInfoView) -> crate::callgraph::DefId {
        callgraph.nodes[info.caller_instance as int].spec_instance().def_id
    }

    /// The clusters of the first `n` of `partners`: each operation goes
    /// into the cluster of the key that the atomic variable in `local`
    /// has in the function that calls the operation; an operation for
    /// which there is no key goes into no cluster.
    pub open spec fn classified(
        cache: Map<crate::callgraph::DefId, PointsToView>,
        program: Program,
        callgraph: CallGraph,
        local: Local,
        partners: Seq<PartnerView>,
        n: nat,
    ) -> Seq<ClusterView>
        decreases n,
    {
        if n == 0 {
            Seq::empty()
        } else {
            let rest = Self::classified(cache, program, callgraph, local, partners, (n - 1) as nat);
            let partner = partners[n - 1];
            match spec_cluster_key(
                cache[Self::caller_def(callgraph, partner.0)],
                Self::caller_body(program, callgraph, partner.0),
                local,
            ) {
                Some(key) => with_members(rest, key, seq![partner]),
                None => rest,
            }
        }
    }

    /// Every operation of `partners` is called by a node of the call graph.
    pub open spec fn callers_known(callgraph: CallGraph, partners: Seq<Partner>) -> bool {
        forall|i: int|
            0 <= i < partners.len() ==> (#[trigger] partners[i]).0.caller_instance
                < callgraph.nodes.len()
    }

    /// Sorts the operations of `partner` into clusters by the memory that
    /// the atomic variable of this operation lies in. Without an atomic
    /// variable there are no clusters.
    pub fn classify_atomic(&self, callgraph: &CallGraph, alias_analysis: &AliasAnalysis) -> (r: Vec<
        Cluster,
    >)
        requires
            callgraph.consistent(*self.tcx),
            alias_analysis.covers(*self.tcx),
            Self::callers_known(*callgraph, self.partner@),
        ensures
            cluster_views(r@) == match self.atom_info.atomic_place {
                Some(p) => Self::classified(
                    alias_analysis.cached(),
                    *self.tcx,
                    *callgraph,
                    p.local,
                    partner_views(self.partner@),
                    self.partner@.len(),
                ),
                None => Seq::empty(),
            },
    {
        let mut r: Vec<Cluster> = Vec::new();
        let local = match &self.atom_info.atomic_place {
            Some(p) => p.local,
            None => {
                assert(cluster_views(r@) =~= Seq::<ClusterView>::empty());
                return r;
            },
        };
        assert(cluster_views(r@) =~= Seq::<ClusterView>::empty());
        let mut i: usize = 0;
        while i < self.partner.len()
            invariant
                i <= self.partner.len(),
                callgraph.consistent(*self.tcx),
                alias_analysis.covers(*self.tcx),
                Self::callers_known(*callgraph, self.partner@),
                cluster_views(r@) == Self::classified(
                    alias_analysis.cached(),
                    *self.tcx,
                    *callgraph,
                    local,
                    partner_views(self.partner@),
                    i as nat,
                ),
            decreases self.partner.len() - i,
        {
            let partner = &self.partner[i];
            assert(partner_views(self.partner@)[i as int] == partner_view(*partner));
            let node = callgraph.index_to_instance(partner.0.caller_instance).unwrap();
            let def_id = node.instance().def_id;
            let body = &self.tcx.functions[def_id].body;
            let pts = alias_analysis.get(def_id);
            match cluster_key(pts, body, local) {
                Some(key) => {
                    let mut members: Vec<Partner> = Vec::new();
                    members.push(clone_partner(partner));
                    assert(partner_views(members@) =~= seq![partner_view(*partner)]);
                    add_members(&mut r, key, members);
                },
                None => {},
            }
            i += 1;
        }
        r
    }
}

/// The local of a pointee that counts for the window of an operation on an
/// atomic pointer: the pointee is a place, or the storage behind a place,
/// whose local comes before `below` and is not `except`.
pub open spec fn pointee_local(node: NodeView, below: Local, except: Option<Local>) -> Option<
    Local,
> {
    match node.storage() {
        Some(p) => if p.local < below && Some(p.local) != except {
            Some(p.local)
        } else {
            None
        },
        None => None,
    }
}

/// The locals that count among the pointees of the node `n` with a number
/// under `upto`, in the order of the nodes.
pub open spec fn pointee_locals(
    m: PointsToView,
    n: int,
    below: Local,
    except: Option<Local>,
    upto: nat,
) -> Seq<Local>
    decreases upto,
{
    if upto == 0 {
        Seq::empty()
    } else {
        let o = upto - 1;
        pointee_locals(m, n, below, except, o as nat) + if m.sets[n].contains(o) {
            match pointee_local(m.nodes[o], below, except) {
                Some(l) => seq![l],
                None => Seq::empty(),
            }
        } else {
            Seq::empty()
        }
    }
}

/// The locals that count among what the local `local` points to.
pub open spec fn locals_pointed_from(
    m: PointsToView,
    local: Local,
    below: Local,
    except: Option<Local>,
) -> Seq<Local> {
    match m.find_local(local) {
        Some(n) => pointee_locals(m, n, below, except, m.nodes.len()),
        None => Seq::empty(),
    }
}

/// The locals among the first `n` of `deps` that come behind `above` and
/// are not `except`.
pub open spec fn later_dependents(
    deps: Seq<Local>,
    above: Local,
    except: Option<Local>,
    n: nat,
) -> Seq<Local>
    decreases n,
{
    if n == 0 {
        Seq::empty()
    } else {
        later_dependents(deps, above, except, (n - 1) as nat) + if deps[n - 1] > above && Some(
            deps[n - 1],
        ) != except {
            seq![deps[n - 1]]
        } else {
            Seq::empty()
        }
    }
}

/// The locals whose value depends on `local`.
pub open spec fn dependents_of(function: Function, local: Local) -> Seq<Local> {
    if local < function.dependents.len() {
        function.dependents[local as int]@
    } else {
        Seq::empty()
    }
}

/// The window of an operation on an atomic pointer.
///
/// For an operation that writes, the window holds the locals before the
/// value written that this value points to, and the value written. For an
/// operation that reads, it holds the value read and the later locals that
/// depend on it. An operation that does both has both, the part for the
/// write first, and neither part holds the value of the other part twice.
pub open spec fn atomptr_window(m: PointsToView, function: Function, info: AtomicInfoView) -> Seq<
    Local,
> {
    match info.atomic_operate {
        Some(AtomicInstructions::Load) => if info.atomic_value.len() >= 1 {
            let read = info.atomic_value[0].local;
            seq![read] + later_dependents(
                dependents_of(function, read),
                read,
                None,
                dependents_of(function, read).len(),
            )
        } else {
            Seq::empty()
        },
        Some(AtomicInstructions::Store) => if info.atomic_value.len() >= 1 {
            let written = info.atomic_value[0].local;
            locals_pointed_from(m, written, written, None) + seq![written]
        } else {
            Seq::empty()
        },
        Some(_) => if info.atomic_value.len() >= 2 {
            let read = info.atomic_value[0].local;
            let written = info.atomic_value[1].local;
            locals_pointed_from(m, written, written, Some(read)) + seq![written, read]
                + later_dependents(
                dependents_of(function, read),
                read,
                Some(written),
                dependents_of(function, read).len(),
            )
        } else {
            Seq::empty()
        },
        None => Seq::empty(),
    }
}

/// Appends to `out` the locals that count among what `local` points to.
fn push_pointed_locals(
    pts: &PointsToMap,
    local: Local,
    below: Local,
    except: Option<Local>,
    out: &mut Vec<Local>,
)
    requires
        pts.wf(),
    ensures
        final(out)@ == old(out)@ + locals_pointed_from(pts@, local, below, except),
{
    proof {
        pts.lemma_view_wf();
    }
    match crate::correlation::find_local(pts, local) {
        Some(n) => {
            let count = pts.node_count();
            let mut o: usize = 0;
            assert(out@ =~= old(out)@ + Seq::<Local>::empty());
            while o < count
                invariant
                    o <= count,
                    count == pts@.nodes.len(),
                    pts.wf(),
                    pts@.wf(),
                    n < count,
                    out@ == old(out)@ + pointee_locals(pts@, n as int, below, except, o as nat),
                decreases count - o,
            {
                let ghost sofar = pointee_locals(pts@, n as int, below, except, o as nat);
                let mut pushed = false;
                if pts.points_to(n, o) {
                    match pts.node(o).storage() {
                        Some(p) => {
                            let excluded = match except {
                                Some(e) => e == p.local,
                                None => false,
                            };
                            if p.local < below && !excluded {
                                out.push(p.local);
                                pushed = true;
                                assert(out@ =~= old(out)@ + (sofar + seq![p.local]));
                            }
                        },
                        None => {},
                    }
                }
                if !pushed {
                    assert(out@ =~= old(out)@ + (sofar + Seq::<Local>::empty()));
                }
                o += 1;
            }
        },
        None => {
            assert(out@ =~= old(out)@ + Seq::<Local>::empty());
        },
    }
}

/// Appends to `out` the locals that depend on `local`, come behind it and
/// are not `except`.
fn push_later_dependents(function: &Function, local: Local, except: Option<Local>, out: &mut Vec<
    Local,
>)
    ensures
        final(out)@ == old(out)@ + later_dependents(
            dependents_of(*function, local),
            local,
            except,
            dependents_of(*function, local).len(),
        ),
{
    if local < function.dependents.len() {
        let deps = &function.dependents[local];
        let mut i: usize = 0;
        assert(out@ =~= old(out)@ + Seq::<Local>::empty());
        while i < deps.len()
            invariant
                i <= deps.len(),
                deps@ == dependents_of(*function, local),
                out@ == old(out)@ + later_dependents(deps@, local, except, i as nat),
            decreases deps.len() - i,
        {
            let ghost sofar = later_dependents(deps@, local, except, i as nat);
            let dep = deps[i];
            let excluded = match except {
                Some(e) => e == dep,
                None => false,
            };
            if dep > local && !excluded {
                out.push(dep);
                assert(out@ =~= old(out)@ + (sofar + seq![dep]));
            } else {
                assert(out@ =~= old(out)@ + (sofar + Seq::<Local>::empty()));
            }
            i += 1;
        }
    } else {
        assert(out@ =~= old(out)@ + Seq::<Local>::empty());
    }
}

/// The window of the operation `info` on an atomic pointer, in the function
/// `function` with the points-to result `pts`.
pub fn atomptr_interim_window(pts: &PointsToMap, function: &Function, info: &AtomicInfo) -> (r:
    Vec<Local>)
    requires
        pts.wf(),
    ensures
        r@ == atomptr_window(pts@, *function, info@),
{
    let mut r: Vec<Local> = Vec::new();
    match info.atomic_operate {
        Some(AtomicInstructions::Load) => {
            if info.atomic_value.len() >= 1 {
                let read = info.atomic_value[0].local;
                assert(info@.atomic_value[0] == info.atomic_value@[0]@);
                r.push(read);
                push_later_dependents(function, read, None, &mut r);
            }
        },
        Some(AtomicInstructions::Store) => {
            if info.atomic_value.len() >= 1 {
                let written = info.atomic_value[0].local;
                assert(info@.atomic_value[0] == info.atomic_value@[0]@);
                push_pointed_locals(pts, written, written, None, &mut r);
                r.push(written);
            }
        },
        Some(_) => {
            if info.atomic_value.len() >= 2 {
                let read = info.atomic_value[0].local;
                let written = info.atomic_value[1].local;
                assert(info@.atomic_value[0] == info.atomic_value@[0]@);
                assert(info@.atomic_value[1] == info.atomic_value@[1]@);
                push_pointed_locals(pts, written, written, Some(read), &mut r);
                r.push(written);
                r.push(read);
                let ghost front = r@;
                push_later_dependents(function, read, Some(written), &mut r);
                assert(front =~= locals_pointed_from(pts@, written, written, Some(read)) + seq![
                    written,
                    read,
                ]);
            }
        },
        None => {},
    }
    r
}

impl<'a> AtomPart<'a> {
    /// The function that makes the call of an operation.
    pub open spec fn caller_function(
        program: Program,
        callgraph: CallGraph,
        info: AtomicInfoView,
    ) -> Function {
        program.functions[Self::caller_def(callgraph, info) as int]
    }

    /// Adds the operation, which works on an atomic pointer, with its
    /// window to `partner`.
    pub fn infer_atomptr_interival(&mut self, callgraph: &CallGraph, alias_analysis: &AliasAnalysis)
        requires
            callgraph.consistent(*old(self).tcx),
            alias_analysis.covers(*old(self).tcx),
            old(self).atom_info.caller_instance < callgraph.nodes.len(),
        ensures
            final(self).tcx == old(self).tcx,
            final(self).atom_info == old(self).atom_info,
            final(self).partner_atomptr == old(self).partner_atomptr,
            final(self).window_percent == old(self).window_percent,
            partner_views(final(self).partner@) == partner_views(old(self).partner@).push(
                (
                    old(self).atom_info@,
                    atomptr_window(
                        alias_analysis.cached()[Self::caller_def(*callgraph, old(self).atom_info@)],
                        Self::caller_function(*old(self).tcx, *callgraph, old(self).atom_info@),
                        old(self).atom_info@,
                    ),
                ),
            ),
    {
        let node = callgraph.index_to_instance(self.atom_info.caller_instance).unwrap();
        let def_id = node.instance().def_id;
        let function = &self.tcx.functions[def_id];
        let pts = alias_analysis.get(def_id);
        let window = atomptr_interim_window(pts, function, &self.atom_info);
        let ghost before = self.partner@;
        let entry = (self.atom_info.clone(), window);
        let ghost view = partner_view(entry);
        self.partner.push(entry);
        proof {
            assert(partner_views(self.partner@) =~= partner_views(before).push(view));
        }
    }
}

} // verus!

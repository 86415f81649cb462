//! The analysis of one cluster of atomic operations on ordinary atomic
//! variables.

use crate::atomic::{place_views, AtomicInfo, AtomicInfoView};
use crate::atompart::{dependents_of, partner_view, partner_views, AtomPart, Partner, PartnerView};
use crate::callgraph::{CallGraph, DefId, Function, Program};
use crate::controldep::control_deps;
use crate::correlation::{is_correlation, side_correlations};
use crate::fx::set_contains;
use crate::detector::factors::{
    factor_view, factor_views, factors_of, of_class, paired_with, pairs, spec_factors,
    AccessClass, Factor, FactorView,
};
use crate::detector::rules::{
    candidate_views, optional_set, require_all, requirement, spec_requirement, with_requirements,
    Candidate, CandidateView, Requirement,
};
use crate::ir::{same_projection, Local, Place, PlaceView};
use crate::ordering::{calculate_min_ordering, min_ordering, AtomicOrd, OrderingSet};
use crate::pointsto::alias::AliasAnalysis;
use crate::pointsto::andersen::PointsToView;
use crate::report::{judge, judged, report_of, report_views, spec_report, Report, ReportView};
use vstd::prelude::*;

verus! {

/// The blocks in which `local` is used.
pub open spec fn uses_of(function: Function, local: Local) -> Seq<usize> {
    if local < function.uses.len() {
        function.uses[local as int]@
    } else {
        Seq::empty()
    }
}

/// `local` is used in a block that is a branch on which something is
/// control-dependent.
pub open spec fn used_in_branch(function: Function, local: Local) -> bool {
    exists|u: int|
        0 <= u < uses_of(function, local).len() && (#[trigger] uses_of(function, local)[u])
            < function.flow.num_nodes() && function.flow.is_branch(
            uses_of(function, local)[u] as int,
        )
}

/// What the operation reads decides a branch: a local that depends on the
/// first value of the operation is used in a branch.
pub open spec fn drives_branch(function: Function, info: AtomicInfoView) -> bool {
    info.atomic_value.len() > 0 && exists|d: int|
        0 <= d < dependents_of(function, info.atomic_value[0].local).len() && used_in_branch(
            function,
            #[trigger] dependents_of(function, info.atomic_value[0].local)[d],
        )
}

/// Whether what the operation reads decides a branch.
pub fn drives_branch_of(function: &Function, info: &AtomicInfo) -> (r: bool)
    requires
        function.flow.wf(),
    ensures
        r == drives_branch(*function, info@),
{
    if info.atomic_value.len() == 0 {
        return false;
    }
    let local = info.atomic_value[0].local;
    assert(info@.atomic_value[0] == info.atomic_value@[0]@);
    if local >= function.dependents.len() {
        return false;
    }
    let deps = &function.dependents[local];
    let control = control_deps(&function.flow);
    let mut d: usize = 0;
    while d < deps.len()
        invariant
            d <= deps.len(),
            info@.atomic_value.len() > 0,
            info@.atomic_value[0].local == local,
            deps@ == dependents_of(*function, local),
            control.describes(function.flow),
            forall|k: int| 0 <= k < d ==> !used_in_branch(*function, #[trigger] deps@[k]),
        decreases deps.len() - d,
    {
        let dep = deps[d];
        if dep < function.uses.len() {
            let uses = &function.uses[dep];
            let mut u: usize = 0;
            while u < uses.len()
                invariant
                    u <= uses.len(),
                    d < deps.len(),
                    info@.atomic_value.len() > 0,
                    info@.atomic_value[0].local == local,
                    dep == deps@[d as int],
                    deps@ == dependents_of(*function, local),
                    uses@ == uses_of(*function, dep),
                    control.describes(function.flow),
                    forall|k: int|
                        0 <= k < u ==> !((#[trigger] uses@[k]) < function.flow.num_nodes()
                            && function.flow.is_branch(uses@[k] as int)),
                decreases uses.len() - u,
            {
                if set_contains(&control.banch_node, uses[u]) {
                    proof {
                        assert(uses_of(*function, dep)[u as int] == uses@[u as int]);
                        assert(used_in_branch(*function, deps@[d as int]));
                        assert(used_in_branch(
                            *function,
                            dependents_of(*function, info@.atomic_value[0].local)[d as int],
                        ));
                    }
                    return true;
                }
                u += 1;
            }
        }
        d += 1;
    }
    false
}

/// The operation has a correlation on the side that `on_load_side` names.
pub open spec fn any_correlation(m: PointsToView, partner: PartnerView, on_load_side: bool) -> bool {
    exists|p: PlaceView| #[trigger] is_correlation(m, partner, on_load_side, p)
}

/// A correlation of what `load` reads and a correlation of what `store`
/// writes are the same field: they have the same path.
pub open spec fn common_field(
    load_pts: PointsToView,
    load: PartnerView,
    store_pts: PointsToView,
    store: PartnerView,
) -> bool {
    exists|l: PlaceView, s: PlaceView|
        #![trigger is_correlation(load_pts, load, true, l), is_correlation(store_pts, store, false, s)]
        is_correlation(load_pts, load, true, l) && is_correlation(store_pts, store, false, s)
            && l.projection == s.projection
}

/// Whether a place of `a` and a place of `b` have the same path.
pub fn shares_projection(a: &Vec<Place>, b: &Vec<Place>) -> (r: bool)
    ensures
        r == exists|i: int, j: int|
            0 <= i < a@.len() && 0 <= j < b@.len() && (#[trigger] a@[i]).projection@ == (
            #[trigger] b@[j]).projection@,
{
    let mut i: usize = 0;
    while i < a.len()
        invariant
            i <= a.len(),
            forall|x: int, y: int|
                0 <= x < i && 0 <= y < b@.len() ==> (#[trigger] a@[x]).projection@ != (
                #[trigger] b@[y]).projection@,
        decreases a.len() - i,
    {
        let mut j: usize = 0;
        while j < b.len()
            invariant
                j <= b.len(),
                i < a.len(),
                forall|y: int|
                    0 <= y < j ==> a@[i as int].projection@ != (#[trigger] b@[y]).projection@,
            decreases b.len() - j,
        {
            if same_projection(&a[i].projection, &b[j].projection) {
                return true;
            }
            j += 1;
        }
        i += 1;
    }
    false
}

/// The function that makes the call of the operation, in a call graph that
/// fits the program.
pub open spec fn caller_known(callgraph: CallGraph, partner: PartnerView) -> bool {
    partner.0.caller_instance < callgraph.nodes.len()
}

/// What the pair `factor` requires.
pub open spec fn factor_requirement(
    cache: Map<DefId, PointsToView>,
    program: Program,
    callgraph: CallGraph,
    factor: FactorView,
) -> Requirement {
    let load = factor.0;
    let store = factor.1;
    let load_pts = cache[AtomPart::caller_def(callgraph, load.0)];
    let store_pts = cache[AtomPart::caller_def(callgraph, store.0)];
    spec_requirement(
        drives_branch(AtomPart::caller_function(program, callgraph, load.0), load.0),
        any_correlation(load_pts, load, true),
        any_correlation(store_pts, store, false),
        common_field(load_pts, load, store_pts, store),
        load.0.ordering,
        store.0.ordering,
    )
}

/// What the pair `factor` requires.
pub fn factor_requirement_of(
    program: &Program,
    callgraph: &CallGraph,
    alias_analysis: &AliasAnalysis,
    factor: &Factor,
) -> (r: Requirement)
    requires
        program.wf(),
        callgraph.consistent(*program),
        alias_analysis.covers(*program),
        caller_known(*callgraph, partner_view(factor.0)),
        caller_known(*callgraph, partner_view(factor.1)),
    ensures
        r == factor_requirement(
            alias_analysis.cached(),
            *program,
            *callgraph,
            factor_view(*factor),
        ),
{
    let load = &factor.0;
    let store = &factor.1;
    let load_node = callgraph.index_to_instance(load.0.caller_instance).unwrap();
    let load_def = load_node.instance().def_id;
    let drives = drives_branch_of(&program.functions[load_def], &load.0);
    if !drives {
        return requirement(false, false, false, false, &load.0.ordering, &store.0.ordering);
    }
    let store_node = callgraph.index_to_instance(store.0.caller_instance).unwrap();
    let store_def = store_node.instance().def_id;
    let load_pts = alias_analysis.get(load_def);
    let store_pts = alias_analysis.get(store_def);
    let load_corr = side_correlations(load_pts, load, true);
    let store_corr = side_correlations(store_pts, store, false);
    let common = shares_projection(&load_corr, &store_corr);
    proof {
        let lv = partner_view(*load);
        let sv = partner_view(*store);
        let lp = place_views(load_corr@);
        let sp = place_views(store_corr@);
        if load_corr@.len() > 0 {
            assert(lp.contains(lp[0]));
            assert(is_correlation(load_pts@, lv, true, lp[0]));
        }
        if any_correlation(load_pts@, lv, true) {
            let p = choose|p: PlaceView| #[trigger] is_correlation(load_pts@, lv, true, p);
            assert(lp.contains(p));
        }
        if store_corr@.len() > 0 {
            assert(sp.contains(sp[0]));
            assert(is_correlation(store_pts@, sv, false, sp[0]));
        }
        if any_correlation(store_pts@, sv, false) {
            let p = choose|p: PlaceView| #[trigger] is_correlation(store_pts@, sv, false, p);
            assert(sp.contains(p));
        }
        if common {
            let (i, j) = choose|i: int, j: int|
                0 <= i < load_corr@.len() && 0 <= j < store_corr@.len() && (
                #[trigger] load_corr@[i]).projection@ == (#[trigger] store_corr@[j]).projection@;
            assert(lp.contains(lp[i]));
            assert(sp.contains(sp[j]));
            assert(is_correlation(load_pts@, lv, true, lp[i]));
            assert(is_correlation(store_pts@, sv, false, sp[j]));
        }
        if common_field(load_pts@, lv, store_pts@, sv) {
            let (l, s) = choose|l: PlaceView, s: PlaceView|
                #![trigger is_correlation(load_pts@, lv, true, l), is_correlation(store_pts@, sv, false, s)]
                is_correlation(load_pts@, lv, true, l) && is_correlation(store_pts@, sv, false, s)
                    && l.projection == s.projection;
            assert(lp.contains(l));
            assert(sp.contains(s));
            let i = choose|i: int| 0 <= i < lp.len() && lp[i] == l;
            let j = choose|j: int| 0 <= j < sp.len() && sp[j] == s;
            assert(load_corr@[i].projection@ == store_corr@[j].projection@);
        }
    }
    requirement(
        true,
        load_corr.len() > 0,
        store_corr.len() > 0,
        common,
        &load.0.ordering,
        &store.0.ordering,
    )
}

/// What the operations require after the pair `factor` has been looked at:
/// first what the read requires is added, then what the write requires.
pub open spec fn after_factor(
    candidates: Seq<CandidateView>,
    factor: FactorView,
    required: Requirement,
) -> Seq<CandidateView> {
    with_requirements(
        with_requirements(candidates, factor.0.0, optional_set(required.load)),
        factor.1.0,
        optional_set(required.store),
    )
}

/// What the operations require after the first `n` of `factors` have been
/// looked at.
pub open spec fn after_factors(
    cache: Map<DefId, PointsToView>,
    program: Program,
    callgraph: CallGraph,
    factors: Seq<FactorView>,
    n: nat,
) -> Seq<CandidateView>
    decreases n,
{
    if n == 0 {
        Seq::empty()
    } else {
        after_factor(
            after_factors(cache, program, callgraph, factors, (n - 1) as nat),
            factors[n - 1],
            factor_requirement(cache, program, callgraph, factors[n - 1]),
        )
    }
}

/// The set of `ord`, or the empty set.
pub fn optional_ordering(ord: Option<AtomicOrd>) -> (r: OrderingSet)
    ensures
        r@ == optional_set(ord),
{
    let mut r = OrderingSet::new();
    match ord {
        Some(o) => {
            let _ = r.insert(o);
            assert(r@ =~= set![o]);
        },
        None => {},
    }
    r
}

/// The reports for the first `n` of `candidates`: one for each operation
/// whose ordering is held to be weaker or stronger than the least ordering
/// that satisfies what the operation requires.
pub open spec fn candidate_reports(candidates: Seq<CandidateView>, n: nat) -> Seq<ReportView>
    decreases n,
{
    if n == 0 {
        Seq::empty()
    } else {
        let c = candidates[n - 1];
        candidate_reports(candidates, (n - 1) as nat) + match judged(
            c.0.atomic_operate,
            c.0.ordering,
            min_ordering(c.1),
        ) {
            Some(finding) => seq![spec_report(c.0.source_info, finding)],
            None => Seq::empty(),
        }
    }
}

/// Appends to `reports` the reports for `candidates`.
pub fn emit_reports(candidates: &Vec<Candidate>, reports: &mut Vec<Report>)
    ensures
        report_views(final(reports)@) == report_views(old(reports)@) + candidate_reports(
            candidate_views(candidates@),
            candidates@.len(),
        ),
{
    let ghost start = report_views(reports@);
    let ghost views = candidate_views(candidates@);
    let mut i: usize = 0;
    assert(report_views(reports@) =~= start + Seq::<ReportView>::empty());
    while i < candidates.len()
        invariant
            i <= candidates.len(),
            views == candidate_views(candidates@),
            report_views(reports@) == start + candidate_reports(views, i as nat),
        decreases candidates.len() - i,
    {
        let ghost sofar = candidate_reports(views, i as nat);
        let ghost before = report_views(reports@);
        let candidate = &candidates[i];
        assert(views[i as int] == (candidate.0@, candidate.1@));
        let minimum = calculate_min_ordering(&candidate.1);
        match judge(candidate.0.atomic_operate, &candidate.0.ordering, &minimum) {
            Some(finding) => {
                let report = report_of(&candidate.0.source_info, finding);
                let ghost view = report@;
                reports.push(report);
                assert(report_views(reports@) =~= before.push(view));
                assert(report_views(reports@) =~= start + (sofar + seq![view]));
            },
            None => {
                assert(report_views(reports@) =~= start + (sofar + Seq::<ReportView>::empty()));
            },
        }
        i += 1;
    }
}

/// The reports for a cluster of operations on the same atomic variable.
pub open spec fn cluster_reports(
    cache: Map<DefId, PointsToView>,
    program: Program,
    callgraph: CallGraph,
    partners: Seq<PartnerView>,
) -> Seq<ReportView> {
    let factors = spec_factors(partners);
    let candidates = after_factors(cache, program, callgraph, factors, factors.len());
    candidate_reports(candidates, candidates.len())
}

/// Every operation of `partners` is called by a node of the call graph.
pub open spec fn callers_known(callgraph: CallGraph, partners: Seq<PartnerView>) -> bool {
    forall|i: int| 0 <= i < partners.len() ==> caller_known(callgraph, #[trigger] partners[i])
}

/// The operations of a class are operations of the cluster.
pub proof fn lemma_of_class_members(partners: Seq<PartnerView>, class: AccessClass, n: nat)
    requires
        n <= partners.len(),
    ensures
        forall|i: int|
            0 <= i < of_class(partners, class, n).len() ==> partners.contains(
                #[trigger] of_class(partners, class, n)[i],
            ),
    decreases n,
{
    if n > 0 {
        lemma_of_class_members(partners, class, (n - 1) as nat);
        let prev = of_class(partners, class, (n - 1) as nat);
        let now = of_class(partners, class, n);
        assert forall|i: int| 0 <= i < now.len() implies partners.contains(#[trigger] now[i]) by {
            if i < prev.len() {
                assert(now[i] == prev[i]);
            } else {
                assert(now[i] == partners[n - 1]);
            }
        }
    }
}

/// The operations of a pair are operations of the two lists paired.
pub proof fn lemma_pairs_members(firsts: Seq<PartnerView>, seconds: Seq<PartnerView>, n: nat)
    requires
        n <= firsts.len(),
    ensures
        forall|i: int|
            0 <= i < pairs(firsts, seconds, n).len() ==> firsts.contains(
                (#[trigger] pairs(firsts, seconds, n)[i]).0,
            ) && seconds.contains(pairs(firsts, seconds, n)[i].1),
    decreases n,
{
    if n > 0 {
        lemma_pairs_members(firsts, seconds, (n - 1) as nat);
        lemma_row_members(firsts[n - 1], seconds, seconds.len());
        let prev = pairs(firsts, seconds, (n - 1) as nat);
        let row = paired_with(firsts[n - 1], seconds, seconds.len());
        let now = pairs(firsts, seconds, n);
        assert forall|i: int| 0 <= i < now.len() implies firsts.contains((#[trigger] now[i]).0)
            && seconds.contains(now[i].1) by {
            if i < prev.len() {
                assert(now[i] == prev[i]);
            } else {
                assert(now[i] == row[i - prev.len()]);
            }
        }
    }
}

/// The pairs of one operation with a list hold that operation and
/// operations of the list.
pub proof fn lemma_row_members(first: PartnerView, seconds: Seq<PartnerView>, n: nat)
    requires
        n <= seconds.len(),
    ensures
        paired_with(first, seconds, n).len() == n,
        forall|i: int|
            0 <= i < n ==> (#[trigger] paired_with(first, seconds, n)[i]) == (first, seconds[i]),
    decreases n,
{
    if n > 0 {
        lemma_row_members(first, seconds, (n - 1) as nat);
    }
}

/// The operations of the pairs of a cluster are operations of the cluster.
pub proof fn lemma_factor_members(partners: Seq<PartnerView>)
    ensures
        forall|i: int|
            0 <= i < spec_factors(partners).len() ==> partners.contains(
                (#[trigger] spec_factors(partners)[i]).0,
            ) && partners.contains(spec_factors(partners)[i].1),
{
    let n = partners.len();
    let reads = of_class(partners, AccessClass::Read, n);
    let writes = of_class(partners, AccessClass::Write, n);
    let both = of_class(partners, AccessClass::ReadWrite, n);
    lemma_of_class_members(partners, AccessClass::Read, n);
    lemma_of_class_members(partners, AccessClass::Write, n);
    lemma_of_class_members(partners, AccessClass::ReadWrite, n);
    lemma_pairs_members(reads, writes, reads.len());
    lemma_pairs_members(reads, both, reads.len());
    lemma_pairs_members(both, both, both.len());
    let a = pairs(reads, writes, reads.len());
    let b = pairs(reads, both, reads.len());
    let d = pairs(both, both, both.len());
    let all = spec_factors(partners);
    assert forall|i: int| 0 <= i < all.len() implies partners.contains((#[trigger] all[i]).0)
        && partners.contains(all[i].1) by {
        let f = all[i];
        if i < a.len() {
            assert(f == a[i]);
            assert(reads.contains(f.0) && writes.contains(f.1));
        } else if i < a.len() + b.len() {
            assert(f == b[i - a.len()]);
            assert(reads.contains(f.0) && both.contains(f.1));
        } else {
            assert(f == d[i - a.len() - b.len()]);
            assert(both.contains(f.0) && both.contains(f.1));
        }
        if reads.contains(f.0) {
            let k = choose|k: int| 0 <= k < reads.len() && reads[k] == f.0;
            assert(partners.contains(reads[k]));
        }
        if both.contains(f.0) {
            let k = choose|k: int| 0 <= k < both.len() && both[k] == f.0;
            assert(partners.contains(both[k]));
        }
        if writes.contains(f.1) {
            let k = choose|k: int| 0 <= k < writes.len() && writes[k] == f.1;
            assert(partners.contains(writes[k]));
        }
        if both.contains(f.1) {
            let k = choose|k: int| 0 <= k < both.len() && both[k] == f.1;
            assert(partners.contains(both[k]));
        }
    }
}

/// What the operations of a cluster require.
pub fn cluster_candidates(
    program: &Program,
    callgraph: &CallGraph,
    alias_analysis: &AliasAnalysis,
    atomic_infos: &Vec<Partner>,
) -> (r: Vec<Candidate>)
    requires
        program.wf(),
        callgraph.consistent(*program),
        alias_analysis.covers(*program),
        callers_known(*callgraph, partner_views(atomic_infos@)),
    ensures
        candidate_views(r@) == after_factors(
            alias_analysis.cached(),
            *program,
            *callgraph,
            spec_factors(partner_views(atomic_infos@)),
            spec_factors(partner_views(atomic_infos@)).len(),
        ),
{
    let factors = factors_of(atomic_infos);
    let ghost partners = partner_views(atomic_infos@);
    let ghost views = factor_views(factors@);
    let mut r: Vec<Candidate> = Vec::new();
    proof {
        lemma_factor_members(partners);
        assert(candidate_views(r@) =~= Seq::<CandidateView>::empty());
    }
    let mut i: usize = 0;
    while i < factors.len()
        invariant
            i <= factors.len(),
            program.wf(),
            callgraph.consistent(*program),
            alias_analysis.covers(*program),
            callers_known(*callgraph, partners),
            views == factor_views(factors@),
            views == spec_factors(partners),
            forall|k: int|
                0 <= k < views.len() ==> partners.contains((#[trigger] views[k]).0)
                    && partners.contains(views[k].1),
            candidate_views(r@) == after_factors(
                alias_analysis.cached(),
                *program,
                *callgraph,
                views,
                i as nat,
            ),
        decreases factors.len() - i,
    {
        let factor = &factors[i];
        proof {
            let v = views[i as int];
            assert(v == factor_view(*factor));
            assert(partners.contains(v.0) && partners.contains(v.1));
            let a = choose|a: int| 0 <= a < partners.len() && partners[a] == v.0;
            let b = choose|b: int| 0 <= b < partners.len() && partners[b] == v.1;
            assert(caller_known(*callgraph, partners[a]));
            assert(caller_known(*callgraph, partners[b]));
        }
        let required = factor_requirement_of(program, callgraph, alias_analysis, factor);
        require_all(&mut r, &factor.0.0, optional_ordering(required.load));
        require_all(&mut r, &factor.1.0, optional_ordering(required.store));
        i += 1;
    }
    r
}

} // verus!

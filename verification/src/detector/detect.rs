//! The detector of atomic operations whose memory ordering is weaker or
//! stronger than the operations on the same memory require.

use crate::atomic::{info_views, AtomicCollector, AtomicInfo, AtomicInfoView};
use crate::atompart::{
    add_members, atomptr_interim_window, cluster_key, cluster_views, interim_window,
    partner_view, partner_views, AtomPart, Cluster, ClusterView, Partner, PartnerView,
    DEFAULT_WINDOW_PERCENT,
};
use crate::callgraph::{CallGraph, DefId, InstanceId, Program};
use crate::detector::atomptr::{after_atomptr_factors, atomptr_candidates};
use crate::detector::cluster::{
    caller_known, callers_known, candidate_reports, cluster_candidates, cluster_reports,
    emit_reports,
};
use crate::detector::collect::{
    find_operations, group_views, operations_among, PointerGroup, PointerGroupView,
};
use crate::detector::factors::{factor_views, factors_of, spec_factors, Factor};
use crate::detector::gather::{
    clusters_known, clusters_of, group_partners, infos_of, lemma_infos_known,
    lemma_operations_in_graph, lemma_with_members_known, pointer_cluster_views, pointer_clusters,
    pointer_partners, with_infos,
};
use crate::pointsto::alias::{points_to_results, AliasAnalysis};
use crate::pointsto::andersen::PointsToView;
use crate::report::{report_views, Report, ReportView};
use vstd::prelude::*;

verus! {

/// The reports for the first `n` of the clusters of operations on ordinary
/// atomic variables.
pub open spec fn clusters_reports(
    cache: Map<DefId, PointsToView>,
    program: Program,
    callgraph: CallGraph,
    clusters: Seq<ClusterView>,
    n: nat,
) -> Seq<ReportView>
    decreases n,
{
    if n == 0 {
        Seq::empty()
    } else {
        clusters_reports(cache, program, callgraph, clusters, (n - 1) as nat) + cluster_reports(
            cache,
            program,
            callgraph,
            clusters[n - 1].1,
        )
    }
}

/// The reports for a cluster of operations on atomic pointers.
pub open spec fn pointer_cluster_reports(
    cache: Map<DefId, PointsToView>,
    program: Program,
    callgraph: CallGraph,
    partners: Seq<PartnerView>,
) -> Seq<ReportView> {
    let factors = spec_factors(partners);
    let candidates = after_atomptr_factors(cache, program, callgraph, factors, factors.len());
    candidate_reports(candidates, candidates.len())
}

/// The reports for the first `n` of the clusters of operations on atomic
/// pointers.
pub open spec fn pointers_reports(
    cache: Map<DefId, PointsToView>,
    program: Program,
    callgraph: CallGraph,
    clusters: Seq<Seq<PartnerView>>,
    n: nat,
) -> Seq<ReportView>
    decreases n,
{
    if n == 0 {
        Seq::empty()
    } else {
        pointers_reports(cache, program, callgraph, clusters, (n - 1) as nat)
            + pointer_cluster_reports(cache, program, callgraph, clusters[n - 1])
    }
}

/// The reports of the detector for a program: those for the clusters of
/// operations on ordinary atomic variables, cluster by cluster, and then
/// those for the clusters of operations on atomic pointers.
pub open spec fn spec_detect(
    cache: Map<DefId, PointsToView>,
    program: Program,
    callgraph: CallGraph,
    percent: nat,
) -> Seq<ReportView> {
    let operations = operations_among(callgraph, callgraph.nodes@.len());
    let clusters = clusters_of(
        cache,
        program,
        callgraph,
        percent,
        operations.atomics,
        operations.atomics.len(),
    );
    let pointers = pointer_clusters(
        cache,
        program,
        callgraph,
        operations.pointers,
        operations.pointers.len(),
    );
    clusters_reports(cache, program, callgraph, clusters, clusters.len()) + pointers_reports(
        cache,
        program,
        callgraph,
        pointers,
        pointers.len(),
    )
}

/// Every operation of `ids` is a node of the call graph.
pub open spec fn in_graph(callgraph: CallGraph, ids: Seq<InstanceId>) -> bool {
    forall|i: int| 0 <= i < ids.len() ==> (#[trigger] ids[i]) < callgraph.nodes.len()
}

/// Every operation of every group is a node of the call graph.
pub open spec fn groups_in_graph(callgraph: CallGraph, groups: Seq<PointerGroupView>) -> bool {
    forall|g: int| 0 <= g < groups.len() ==> in_graph(callgraph, (#[trigger] groups[g]).1)
}

/// Every operation of every cluster is called by a node of the call graph.
pub open spec fn pointers_known(callgraph: CallGraph, clusters: Seq<Seq<PartnerView>>) -> bool {
    forall|c: int| 0 <= c < clusters.len() ==> callers_known(callgraph, #[trigger] clusters[c])
}

/// Detects atomic operations whose memory ordering is weaker or stronger
/// than necessary.
pub struct AtomicityViolationDetector<'a> {
    pub tcx: &'a Program,
    /// The points-to results of the functions of the program.
    pub alias_analysis: AliasAnalysis,
    /// The share of the locals of a function, in percent, that the window
    /// of an operation reaches to each side.
    pub window_percent: usize,
}

impl<'a> AtomicityViolationDetector<'a> {
    /// The points-to results that are kept are well formed, and each is
    /// the result of its function.
    pub open spec fn wf(&self) -> bool {
        self.alias_analysis.wf() && self.alias_analysis.sound_for(*self.tcx)
    }

    /// A detector for `tcx`, with no points-to result yet.
    pub fn new(tcx: &'a Program) -> (r: Self)
        ensures
            r.tcx == tcx,
            r.wf(),
            r.window_percent == DEFAULT_WINDOW_PERCENT,
    {
        AtomicityViolationDetector {
            tcx,
            alias_analysis: AliasAnalysis::new(),
            window_percent: DEFAULT_WINDOW_PERCENT,
        }
    }

    /// The pairs of the operations of a cluster on an ordinary atomic
    /// variable: every read with every write and with every read-write, and
    /// every read-write with every read-write.
    pub fn get_factors(atomic_infos: Vec<Partner>) -> (r: Vec<Factor>)
        ensures
            factor_views(r@) == spec_factors(partner_views(atomic_infos@)),
    {
        factors_of(&atomic_infos)
    }

    /// The pairs of the operations of a cluster on an atomic pointer, made
    /// as for an ordinary atomic variable.
    pub fn get_atomptr_factors(atomic_infos: Vec<Partner>) -> (r: Vec<Factor>)
        ensures
            factor_views(r@) == spec_factors(partner_views(atomic_infos@)),
    {
        factors_of(&atomic_infos)
    }

    /// The calls of the operation that is the node `id`, as they are
    /// recorded.
    fn infos_at(&self, callgraph: &CallGraph, id: InstanceId) -> (r: Vec<AtomicInfo>)
        requires
            callgraph.consistent(*self.tcx),
            id < callgraph.nodes.len(),
        ensures
            info_views(r@) == infos_of(*self.tcx, *callgraph, id),
            forall|i: int|
                0 <= i < r@.len() ==> (#[trigger] r@[i]).caller_instance < callgraph.nodes.len(),
    {
        let instance = callgraph.nodes[id].instance();
        let mut collector = AtomicCollector::new(self.tcx, id, instance);
        assert(info_views(collector.atomics@) =~= Seq::<AtomicInfoView>::empty());
        collector.analyze(callgraph);
        proof {
            let infos = infos_of(*self.tcx, *callgraph, id);
            assert(info_views(collector.atomics@) =~= infos);
            lemma_infos_known(
                instance.path@,
                *self.tcx,
                *callgraph,
                id,
                callgraph.edges@.len(),
            );
            assert forall|i: int| 0 <= i < collector.atomics@.len() implies (
            #[trigger] collector.atomics@[i]).caller_instance < callgraph.nodes.len() by {
                assert(infos[i] == collector.atomics@[i]@);
            }
        }
        collector.atomics
    }

    /// Gathers the calls of the operations `atomics` into clusters by the
    /// memory they work on, and the calls of each group of `atomics_atomptr`
    /// into one cluster, each call with its window.
    pub fn gen_atomic_info(
        &self,
        atomics: Vec<InstanceId>,
        atomics_atomptr: Vec<PointerGroup>,
        callgraph: &CallGraph,
    ) -> (r: (Vec<Vec<Partner>>, Vec<Cluster>))
        requires
            callgraph.consistent(*self.tcx),
            self.alias_analysis.covers(*self.tcx),
            in_graph(*callgraph, atomics@),
            groups_in_graph(*callgraph, group_views(atomics_atomptr@)),
        ensures
            cluster_views(r.1@) == clusters_of(
                self.alias_analysis.cached(),
                *self.tcx,
                *callgraph,
                self.window_percent as nat,
                atomics@,
                atomics@.len(),
            ),
            pointer_cluster_views(r.0@) == pointer_clusters(
                self.alias_analysis.cached(),
                *self.tcx,
                *callgraph,
                group_views(atomics_atomptr@),
                atomics_atomptr@.len(),
            ),
            clusters_known(*callgraph, cluster_views(r.1@)),
            pointers_known(*callgraph, pointer_cluster_views(r.0@)),
    {
        let ghost cache = self.alias_analysis.cached();
        let ghost percent = self.window_percent as nat;
        let mut clusters: Vec<Cluster> = Vec::new();
        assert(cluster_views(clusters@) =~= Seq::<ClusterView>::empty());
        let mut k: usize = 0;
        while k < atomics.len()
            invariant
                k <= atomics.len(),
                callgraph.consistent(*self.tcx),
                self.alias_analysis.covers(*self.tcx),
                in_graph(*callgraph, atomics@),
                cache == self.alias_analysis.cached(),
                percent == self.window_percent as nat,
                clusters_known(*callgraph, cluster_views(clusters@)),
                cluster_views(clusters@) == clusters_of(
                    cache,
                    *self.tcx,
                    *callgraph,
                    percent,
                    atomics@,
                    k as nat,
                ),
            decreases atomics.len() - k,
        {
            let id = atomics[k];
            let infos = self.infos_at(callgraph, id);
            let ghost start = cluster_views(clusters@);
            let ghost views = info_views(infos@);
            let mut j: usize = 0;
            while j < infos.len()
                invariant
                    j <= infos.len(),
                    callgraph.consistent(*self.tcx),
                    self.alias_analysis.covers(*self.tcx),
                    cache == self.alias_analysis.cached(),
                    percent == self.window_percent as nat,
                    views == info_views(infos@),
                    forall|i: int|
                        0 <= i < infos@.len() ==> (#[trigger] infos@[i]).caller_instance
                            < callgraph.nodes.len(),
                    clusters_known(*callgraph, cluster_views(clusters@)),
                    cluster_views(clusters@) == with_infos(
                        cache,
                        *self.tcx,
                        *callgraph,
                        percent,
                        start,
                        views,
                        j as nat,
                    ),
                decreases infos.len() - j,
            {
                let info = &infos[j];
                assert(views[j as int] == info@);
                match &info.atomic_place {
                    Some(place) => {
                        let node = callgraph.index_to_instance(info.caller_instance).unwrap();
                        let def_id = node.instance().def_id;
                        let body = &self.tcx.functions[def_id].body;
                        match cluster_key(self.alias_analysis.get(def_id), body, place.local) {
                            Some(key) => {
                                let window = match info.atomic_operate {
                                    Some(operate) => interim_window(
                                        body,
                                        operate,
                                        place.local,
                                        self.window_percent,
                                    ),
                                    None => Vec::new(),
                                };
                                let mut members: Vec<Partner> = Vec::new();
                                members.push((info.clone(), window));
                                proof {
                                    let member = (
                                        info@,
                                        AtomPart::window_of(*self.tcx, *callgraph, info@, percent),
                                    );
                                    assert(partner_views(members@) =~= seq![member]);
                                    lemma_with_members_known(
                                        *callgraph,
                                        cluster_views(clusters@),
                                        key@,
                                        seq![member],
                                    );
                                }
                                add_members(&mut clusters, key, members);
                            },
                            None => {},
                        }
                    },
                    None => {},
                }
                j += 1;
            }
            k += 1;
        }
        let mut pointers: Vec<Vec<Partner>> = Vec::new();
        assert(pointer_cluster_views(pointers@) =~= Seq::<Seq<PartnerView>>::empty());
        let ghost groups = group_views(atomics_atomptr@);
        let mut g: usize = 0;
        while g < atomics_atomptr.len()
            invariant
                g <= atomics_atomptr.len(),
                callgraph.consistent(*self.tcx),
                self.alias_analysis.covers(*self.tcx),
                groups == group_views(atomics_atomptr@),
                groups_in_graph(*callgraph, groups),
                cache == self.alias_analysis.cached(),
                pointers_known(*callgraph, pointer_cluster_views(pointers@)),
                pointer_cluster_views(pointers@) == pointer_clusters(
                    cache,
                    *self.tcx,
                    *callgraph,
                    groups,
                    g as nat,
                ),
            decreases atomics_atomptr.len() - g,
        {
            let ids = &atomics_atomptr[g].1;
            assert(groups[g as int].1 == ids@);
            assert(in_graph(*callgraph, groups[g as int].1));
            let mut partners: Vec<Partner> = Vec::new();
            assert(partner_views(partners@) =~= Seq::<PartnerView>::empty());
            let mut k: usize = 0;
            while k < ids.len()
                invariant
                    k <= ids.len(),
                    callgraph.consistent(*self.tcx),
                    self.alias_analysis.covers(*self.tcx),
                    in_graph(*callgraph, ids@),
                    cache == self.alias_analysis.cached(),
                    callers_known(*callgraph, partner_views(partners@)),
                    partner_views(partners@) == group_partners(
                        cache,
                        *self.tcx,
                        *callgraph,
                        ids@,
                        k as nat,
                    ),
                decreases ids.len() - k,
            {
                let infos = self.infos_at(callgraph, ids[k]);
                let ghost views = info_views(infos@);
                let ghost start = partner_views(partners@);
                let mut j: usize = 0;
                assert(partner_views(partners@) =~= start + Seq::<PartnerView>::empty());
                while j < infos.len()
                    invariant
                        j <= infos.len(),
                        callgraph.consistent(*self.tcx),
                        self.alias_analysis.covers(*self.tcx),
                        cache == self.alias_analysis.cached(),
                        views == info_views(infos@),
                        forall|i: int|
                            0 <= i < infos@.len() ==> (#[trigger] infos@[i]).caller_instance
                                < callgraph.nodes.len(),
                        callers_known(*callgraph, partner_views(partners@)),
                        partner_views(partners@) == start + pointer_partners(
                            cache,
                            *self.tcx,
                            *callgraph,
                            views,
                            j as nat,
                        ),
                    decreases infos.len() - j,
                {
                    let info = &infos[j];
                    assert(views[j as int] == info@);
                    let ghost sofar = pointer_partners(
                        cache,
                        *self.tcx,
                        *callgraph,
                        views,
                        j as nat,
                    );
                    let ghost before = partner_views(partners@);
                    let node = callgraph.index_to_instance(info.caller_instance).unwrap();
                    let def_id = node.instance().def_id;
                    let window = atomptr_interim_window(
                        self.alias_analysis.get(def_id),
                        &self.tcx.functions[def_id],
                        info,
                    );
                    let entry = (info.clone(), window);
                    let ghost view = partner_view(entry);
                    partners.push(entry);
                    proof {
                        assert(partner_views(partners@) =~= before.push(view));
                        assert(partner_views(partners@) =~= start + sofar.push(view));
                        assert forall|i: int|
                            0 <= i < partner_views(partners@).len() implies caller_known(
                            *callgraph,
                            #[trigger] partner_views(partners@)[i],
                        ) by {
                            if i < before.len() {
                                assert(partner_views(partners@)[i] == before[i]);
                            }
                        }
                    }
                    j += 1;
                }
                k += 1;
            }
            let ghost before = pointer_cluster_views(pointers@);
            let ghost view = partner_views(partners@);
            pointers.push(partners);
            proof {
                assert(pointer_cluster_views(pointers@) =~= before.push(view));
                assert forall|c: int|
                    0 <= c < pointer_cluster_views(pointers@).len() implies callers_known(
                    *callgraph,
                    #[trigger] pointer_cluster_views(pointers@)[c],
                ) by {
                    if c < before.len() {
                        assert(pointer_cluster_views(pointers@)[c] == before[c]);
                    }
                }
            }
            g += 1;
        }
        (pointers, clusters)
    }

    /// Runs the detector: finds the atomic operations of the call graph,
    /// gathers their calls into clusters, and reports the calls whose
    /// ordering is weaker or stronger than the calls of their cluster
    /// require.
    pub fn detect(&mut self, callgraph: &CallGraph) -> (r: Vec<Report>)
        requires
            old(self).wf(),
            old(self).tcx.wf(),
            callgraph.consistent(*old(self).tcx),
        ensures
            final(self).tcx == old(self).tcx,
            final(self).window_percent == old(self).window_percent,
            final(self).alias_analysis.covers(*final(self).tcx),
            report_views(r@) == spec_detect(
                points_to_results(*old(self).tcx),
                *old(self).tcx,
                *callgraph,
                old(self).window_percent as nat,
            ),
    {
        self.alias_analysis.populate(self.tcx);
        let ghost cache = self.alias_analysis.cached();
        proof {
            self.alias_analysis.lemma_covers(*self.tcx);
        }
        let operations = find_operations(callgraph);
        proof {
            lemma_operations_in_graph(*callgraph, callgraph.nodes@.len());
            let found = operations_among(*callgraph, callgraph.nodes@.len());
            assert(operations@ == found);
            assert forall|i: int| 0 <= i < operations.atomics@.len() implies (
            #[trigger] operations.atomics@[i]) < callgraph.nodes.len() by {
                assert(found.atomics[i] < callgraph.nodes.len());
            }
            assert forall|g: int|
                0 <= g < group_views(operations.pointers@).len() implies in_graph(
                *callgraph,
                (#[trigger] group_views(operations.pointers@)[g]).1,
            ) by {
                assert forall|i: int|
                    0 <= i < found.pointers[g].1.len() implies (#[trigger] found.pointers[g].1[i])
                    < callgraph.nodes.len() by {}
            }
        }
        let ghost found = operations@;
        let (pointers, clusters) = self.gen_atomic_info(
            operations.atomics,
            operations.pointers,
            callgraph,
        );
        let ghost cluster_seq = cluster_views(clusters@);
        let ghost pointer_seq = pointer_cluster_views(pointers@);
        let mut reports: Vec<Report> = Vec::new();
        assert(report_views(reports@) =~= Seq::<ReportView>::empty());
        let mut c: usize = 0;
        while c < clusters.len()
            invariant
                c <= clusters.len(),
                self.tcx == old(self).tcx,
                self.window_percent == old(self).window_percent,
                self.tcx.wf(),
                callgraph.consistent(*self.tcx),
                self.alias_analysis.covers(*self.tcx),
                cache == self.alias_analysis.cached(),
                cluster_seq == cluster_views(clusters@),
                clusters_known(*callgraph, cluster_seq),
                report_views(reports@) == clusters_reports(
                    cache,
                    *self.tcx,
                    *callgraph,
                    cluster_seq,
                    c as nat,
                ),
            decreases clusters.len() - c,
        {
            assert(cluster_seq[c as int].1 == partner_views(clusters@[c as int].1@));
            let candidates = cluster_candidates(
                self.tcx,
                callgraph,
                &self.alias_analysis,
                &clusters[c].1,
            );
            emit_reports(&candidates, &mut reports);
            c += 1;
        }
        let ghost first = report_views(reports@);
        let mut p: usize = 0;
        assert(report_views(reports@) =~= first + Seq::<ReportView>::empty());
        while p < pointers.len()
            invariant
                p <= pointers.len(),
                self.tcx == old(self).tcx,
                self.window_percent == old(self).window_percent,
                callgraph.consistent(*self.tcx),
                self.alias_analysis.covers(*self.tcx),
                cache == self.alias_analysis.cached(),
                pointer_seq == pointer_cluster_views(pointers@),
                pointers_known(*callgraph, pointer_seq),
                report_views(reports@) == first + pointers_reports(
                    cache,
                    *self.tcx,
                    *callgraph,
                    pointer_seq,
                    p as nat,
                ),
            decreases pointers.len() - p,
        {
            assert(pointer_seq[p as int] == partner_views(pointers@[p as int]@));
            let ghost sofar = pointers_reports(cache, *self.tcx, *callgraph, pointer_seq, p as nat);
            let candidates = atomptr_candidates(
                self.tcx,
                callgraph,
                &self.alias_analysis,
                &pointers[p],
            );
            emit_reports(&candidates, &mut reports);
            proof {
                assert(report_views(reports@) =~= first + (sofar + pointer_cluster_reports(
                    cache,
                    *self.tcx,
                    *callgraph,
                    pointer_seq[p as int],
                )));
            }
            p += 1;
        }
        reports
    }
}

} // verus!

//! Gathering the atomic operations of a program into clusters.

use crate::atomic::{callers_infos, edge_infos, site_info, sites_infos, AtomicInfoView};
use crate::atompart::{
    atomptr_window, cluster_index, partner_views, spec_cluster_key, with_members, AtomPart,
    ClusterView, KeyView, Partner, PartnerView,
};
use crate::callgraph::{direct_locations, CallGraph, DefId, InstanceId, Location, Program};
use crate::detector::cluster::{caller_known, callers_known};
use crate::detector::collect::{group_index, operations_among, PointerGroupView};
use crate::pointsto::andersen::PointsToView;
use vstd::prelude::*;

verus! {

/// What is recorded of the calls of the atomic operation that is the node
/// `id` of the call graph.
pub open spec fn infos_of(program: Program, callgraph: CallGraph, id: InstanceId) -> Seq<
    AtomicInfoView,
> {
    callers_infos(
        callgraph.nodes[id as int].spec_instance().path@,
        program,
        callgraph,
        id,
        callgraph.edges@.len(),
    )
}

/// The key of the cluster of the operation `info`: that of its atomic
/// variable in the function that calls the operation.
pub open spec fn key_of_info(
    cache: Map<DefId, PointsToView>,
    program: Program,
    callgraph: CallGraph,
    info: AtomicInfoView,
) -> Option<KeyView> {
    match info.atomic_place {
        Some(p) => spec_cluster_key(
            cache[AtomPart::caller_def(callgraph, info)],
            AtomPart::caller_body(program, callgraph, info),
            p.local,
        ),
        None => None,
    }
}

/// `clusters` with the first `n` of `infos` added, each with its window to
/// the cluster of its key.
pub open spec fn with_infos(
    cache: Map<DefId, PointsToView>,
    program: Program,
    callgraph: CallGraph,
    percent: nat,
    clusters: Seq<ClusterView>,
    infos: Seq<AtomicInfoView>,
    n: nat,
) -> Seq<ClusterView>
    decreases n,
{
    if n == 0 {
        clusters
    } else {
        let rest = with_infos(cache, program, callgraph, percent, clusters, infos, (n - 1) as nat);
        let info = infos[n - 1];
        match key_of_info(cache, program, callgraph, info) {
            Some(key) => with_members(
                rest,
                key,
                seq![(info, AtomPart::window_of(program, callgraph, info, percent))],
            ),
            None => rest,
        }
    }
}

/// The clusters of the calls of the first `n` of the operations `atomics`.
pub open spec fn clusters_of(
    cache: Map<DefId, PointsToView>,
    program: Program,
    callgraph: CallGraph,
    percent: nat,
    atomics: Seq<InstanceId>,
    n: nat,
) -> Seq<ClusterView>
    decreases n,
{
    if n == 0 {
        Seq::empty()
    } else {
        let infos = infos_of(program, callgraph, atomics[n - 1]);
        with_infos(
            cache,
            program,
            callgraph,
            percent,
            clusters_of(cache, program, callgraph, percent, atomics, (n - 1) as nat),
            infos,
            infos.len(),
        )
    }
}

/// The first `n` of `infos`, which are calls of operations on atomic
/// pointers, each with its window.
pub open spec fn pointer_partners(
    cache: Map<DefId, PointsToView>,
    program: Program,
    callgraph: CallGraph,
    infos: Seq<AtomicInfoView>,
    n: nat,
) -> Seq<PartnerView>
    decreases n,
{
    if n == 0 {
        Seq::empty()
    } else {
        let info = infos[n - 1];
        pointer_partners(cache, program, callgraph, infos, (n - 1) as nat).push(
            (
                info,
                atomptr_window(
                    cache[AtomPart::caller_def(callgraph, info)],
                    AtomPart::caller_function(program, callgraph, info),
                    info,
                ),
            ),
        )
    }
}

/// The calls of the first `n` of the operations `ids`, each with its
/// window.
pub open spec fn group_partners(
    cache: Map<DefId, PointsToView>,
    program: Program,
    callgraph: CallGraph,
    ids: Seq<InstanceId>,
    n: nat,
) -> Seq<PartnerView>
    decreases n,
{
    if n == 0 {
        Seq::empty()
    } else {
        let infos = infos_of(program, callgraph, ids[n - 1]);
        group_partners(cache, program, callgraph, ids, (n - 1) as nat) + pointer_partners(
            cache,
            program,
            callgraph,
            infos,
            infos.len(),
        )
    }
}

/// The clusters of the first `n` groups of operations on atomic pointers:
/// one cluster for each group.
pub open spec fn pointer_clusters(
    cache: Map<DefId, PointsToView>,
    program: Program,
    callgraph: CallGraph,
    groups: Seq<PointerGroupView>,
    n: nat,
) -> Seq<Seq<PartnerView>>
    decreases n,
{
    if n == 0 {
        Seq::empty()
    } else {
        pointer_clusters(cache, program, callgraph, groups, (n - 1) as nat).push(
            group_partners(cache, program, callgraph, groups[n - 1].1, groups[n - 1].1.len()),
        )
    }
}

/// The views of the clusters of operations on atomic pointers.
pub open spec fn pointer_cluster_views(clusters: Seq<Vec<Partner>>) -> Seq<Seq<PartnerView>> {
    clusters.map_values(|c: Vec<Partner>| partner_views(c@))
}

/// Every operation recorded at calls by `caller` is called by `caller`.
pub proof fn lemma_sites_caller(
    path: Seq<char>,
    program: Program,
    callgraph: CallGraph,
    caller: InstanceId,
    locations: Seq<Location>,
    n: nat,
)
    ensures
        forall|i: int|
            0 <= i < sites_infos(path, program, callgraph, caller, locations, n).len() ==> (
            #[trigger] sites_infos(path, program, callgraph, caller, locations, n)[i]).caller_instance
                == caller,
    decreases n,
{
    if n > 0 {
        lemma_sites_caller(path, program, callgraph, caller, locations, (n - 1) as nat);
        let prev = sites_infos(path, program, callgraph, caller, locations, (n - 1) as nat);
        let now = sites_infos(path, program, callgraph, caller, locations, n);
        assert forall|i: int| 0 <= i < now.len() implies (#[trigger] now[i]).caller_instance
            == caller by {
            if i < prev.len() {
                assert(now[i] == prev[i]);
            } else {
                assert(now[i] == site_info(path, program, callgraph, caller, locations[n - 1]).unwrap());
            }
        }
    }
}

/// Every operation recorded is called by a node of the call graph.
pub proof fn lemma_infos_known(
    path: Seq<char>,
    program: Program,
    callgraph: CallGraph,
    target: InstanceId,
    n: nat,
)
    requires
        callgraph.consistent(program),
        n <= callgraph.edges.len(),
    ensures
        forall|i: int|
            0 <= i < callers_infos(path, program, callgraph, target, n).len() ==> (
            #[trigger] callers_infos(path, program, callgraph, target, n)[i]).caller_instance
                < callgraph.nodes.len(),
    decreases n,
{
    if n > 0 {
        lemma_infos_known(path, program, callgraph, target, (n - 1) as nat);
        let prev = callers_infos(path, program, callgraph, target, (n - 1) as nat);
        let edge = edge_infos(path, program, callgraph, target, n - 1);
        let now = callers_infos(path, program, callgraph, target, n);
        let e = callgraph.edges[n - 1];
        if e.target == target {
            let locations = direct_locations(e.callsites@);
            lemma_sites_caller(path, program, callgraph, e.source, locations, locations.len());
        }
        assert forall|i: int| 0 <= i < now.len() implies (#[trigger] now[i]).caller_instance
            < callgraph.nodes.len() by {
            if i < prev.len() {
                assert(now[i] == prev[i]);
            } else {
                assert(now[i] == edge[i - prev.len()]);
                assert(edge[i - prev.len()].caller_instance == e.source);
            }
        }
    }
}

/// Every operation of every cluster is called by a node of the call graph.
pub open spec fn clusters_known(callgraph: CallGraph, clusters: Seq<ClusterView>) -> bool {
    forall|c: int| 0 <= c < clusters.len() ==> callers_known(callgraph, (#[trigger] clusters[c]).1)
}

/// Operations with known callers keep the callers of the clusters known.
pub proof fn lemma_with_members_known(
    callgraph: CallGraph,
    clusters: Seq<ClusterView>,
    key: KeyView,
    partners: Seq<PartnerView>,
)
    requires
        clusters_known(callgraph, clusters),
        callers_known(callgraph, partners),
    ensures
        clusters_known(callgraph, with_members(clusters, key, partners)),
{
    let now = with_members(clusters, key, partners);
    lemma_cluster_index(clusters, key, 0);
    assert forall|c: int| 0 <= c < now.len() implies callers_known(
        callgraph,
        (#[trigger] now[c]).1,
    ) by {
        match cluster_index(clusters, key, 0) {
            Some(i) => {
                if c == i {
                    let old = clusters[i].1;
                    assert(callers_known(callgraph, old));
                    assert forall|k: int| 0 <= k < now[c].1.len() implies caller_known(
                        callgraph,
                        #[trigger] now[c].1[k],
                    ) by {
                        if k < old.len() {
                            assert(now[c].1[k] == old[k]);
                        } else {
                            assert(now[c].1[k] == partners[k - old.len()]);
                        }
                    }
                } else {
                    assert(now[c] == clusters[c]);
                }
            },
            None => {
                if c < clusters.len() {
                    assert(now[c] == clusters[c]);
                }
            },
        }
    }
}

/// A cluster that is found is one of the clusters.
pub proof fn lemma_cluster_index(clusters: Seq<ClusterView>, key: KeyView, from: int)
    requires
        0 <= from,
    ensures
        match cluster_index(clusters, key, from) {
            Some(i) => from <= i < clusters.len(),
            None => true,
        },
    decreases clusters.len() - from,
{
    if from < clusters.len() && clusters[from].0 != key {
        lemma_cluster_index(clusters, key, from + 1);
    }
}

/// Every operation found among the first `n` nodes is one of those nodes.
pub proof fn lemma_operations_in_graph(callgraph: CallGraph, n: nat)
    requires
        n <= callgraph.nodes.len(),
    ensures
        forall|i: int|
            0 <= i < operations_among(callgraph, n).atomics.len() ==> (
            #[trigger] operations_among(callgraph, n).atomics[i]) < n,
        forall|g: int, i: int|
            0 <= g < operations_among(callgraph, n).pointers.len() && 0 <= i
                < operations_among(callgraph, n).pointers[g].1.len() ==> (
            #[trigger] operations_among(callgraph, n).pointers[g].1[i]) < n,
    decreases n,
{
    if n > 0 {
        lemma_operations_in_graph(callgraph, (n - 1) as nat);
        let found = operations_among(callgraph, (n - 1) as nat);
        let now = operations_among(callgraph, n);
        assert forall|i: int| 0 <= i < now.atomics.len() implies (#[trigger] now.atomics[i])
            < n by {
            if i < found.atomics.len() {
                assert(now.atomics[i] == found.atomics[i]);
            }
        }
        assert forall|g: int, i: int|
            0 <= g < now.pointers.len() && 0 <= i < now.pointers[g].1.len() implies (
        #[trigger] now.pointers[g].1[i]) < n by {
            if now.pointers != found.pointers {
                let pointee = now.pointee;
                lemma_group_index(found.pointers, pointee, 0);
                match group_index(found.pointers, pointee, 0) {
                    Some(k) => {
                        if g == k {
                            if i < found.pointers[k].1.len() {
                                assert(now.pointers[g].1[i] == found.pointers[k].1[i]);
                            }
                        } else {
                            assert(now.pointers[g] == found.pointers[g]);
                        }
                    },
                    None => {
                        if g < found.pointers.len() {
                            assert(now.pointers[g] == found.pointers[g]);
                        }
                    },
                }
            }
        }
    }
}

/// A group that is found is one of the groups.
pub proof fn lemma_group_index(groups: Seq<PointerGroupView>, pointee: Seq<char>, from: int)
    requires
        0 <= from,
    ensures
        match group_index(groups, pointee, from) {
            Some(i) => from <= i < groups.len(),
            None => true,
        },
    decreases groups.len() - from,
{
    if from < groups.len() && groups[from].0 != pointee {
        lemma_group_index(groups, pointee, from + 1);
    }
}

} // verus!

//! The rules by which a pair of operations gives rise to required
//! orderings, and the bookkeeping of what each operation requires.

use crate::atomic::{AtomicInfo, AtomicInfoView};
use crate::ordering::{AtomicOrd, OrderingSet};
use vstd::prelude::*;

verus! {

/// What a pair of operations requires of its two operations.
#[derive(Copy, Clone, Debug, PartialEq, Eq, Structural)]
pub struct Requirement {
    /// What the operation that reads is required to be at least.
    pub load: Option<AtomicOrd>,
    /// What the operation that writes is required to be at least.
    pub store: Option<AtomicOrd>,
}

/// The strongest of `AcqRel`, `Release` and `Relaxed` that the operation
/// already names; `Relaxed` where it names none of them.
pub open spec fn already_attempted(actual: Seq<AtomicOrd>) -> AtomicOrd {
    if actual.contains(AtomicOrd::AcqRel) {
        AtomicOrd::AcqRel
    } else if actual.contains(AtomicOrd::Release) {
        AtomicOrd::Release
    } else {
        AtomicOrd::Relaxed
    }
}

/// What a pair requires.
///
/// Where the value read decides a branch (`drives`): if both operations
/// have correlations and they share a field, the read must acquire and the
/// write must release; if both have correlations without a shared field,
/// the read must acquire and the write need be no more than it already
/// attempts; if one of them has none, nothing is required. Where the value
/// read decides no branch, the read is required to be `Relaxed`, unless it
/// already names `Acquire`, `Release` or `AcqRel`, in which case nothing is
/// required.
pub open spec fn spec_requirement(
    drives: bool,
    load_correlated: bool,
    store_correlated: bool,
    common_field: bool,
    load_actual: Seq<AtomicOrd>,
    store_actual: Seq<AtomicOrd>,
) -> Requirement {
    if drives {
        if load_correlated && store_correlated {
            if common_field {
                Requirement { load: Some(AtomicOrd::Acquire), store: Some(AtomicOrd::Release) }
            } else {
                Requirement {
                    load: Some(AtomicOrd::Acquire),
                    store: Some(already_attempted(store_actual)),
                }
            }
        } else {
            Requirement { load: None, store: None }
        }
    } else if load_actual.contains(AtomicOrd::AcqRel) || load_actual.contains(AtomicOrd::Acquire)
        || load_actual.contains(AtomicOrd::Release) {
        Requirement { load: None, store: None }
    } else {
        Requirement { load: Some(AtomicOrd::Relaxed), store: None }
    }
}

/// Whether `ord` is among `orderings`.
pub fn names(orderings: &Vec<AtomicOrd>, ord: AtomicOrd) -> (r: bool)
    ensures
        r == orderings@.contains(ord),
{
    let mut i: usize = 0;
    while i < orderings.len()
        invariant
            i <= orderings.len(),
            forall|k: int| 0 <= k < i ==> orderings@[k] != ord,
        decreases orderings.len() - i,
    {
        if orderings[i] == ord {
            return true;
        }
        i += 1;
    }
    false
}

/// What a pair requires.
pub fn requirement(
    drives: bool,
    load_correlated: bool,
    store_correlated: bool,
    common_field: bool,
    load_actual: &Vec<AtomicOrd>,
    store_actual: &Vec<AtomicOrd>,
) -> (r: Requirement)
    ensures
        r == spec_requirement(
            drives,
            load_correlated,
            store_correlated,
            common_field,
            load_actual@,
            store_actual@,
        ),
{
    if drives {
        if load_correlated && store_correlated {
            if common_field {
                Requirement { load: Some(AtomicOrd::Acquire), store: Some(AtomicOrd::Release) }
            } else {
                let store = if names(store_actual, AtomicOrd::AcqRel) {
                    AtomicOrd::AcqRel
                } else if names(store_actual, AtomicOrd::Release) {
                    AtomicOrd::Release
                } else {
                    AtomicOrd::Relaxed
                };
                Requirement { load: Some(AtomicOrd::Acquire), store: Some(store) }
            }
        } else {
            Requirement { load: None, store: None }
        }
    } else if names(load_actual, AtomicOrd::AcqRel) || names(load_actual, AtomicOrd::Acquire)
        || names(load_actual, AtomicOrd::Release) {
        Requirement { load: None, store: None }
    } else {
        Requirement { load: Some(AtomicOrd::Relaxed), store: None }
    }
}

/// An operation with the orderings it has been found to require.
pub type Candidate = (AtomicInfo, OrderingSet);

/// A `Candidate` as a mathematical value.
pub type CandidateView = (AtomicInfoView, Set<AtomicOrd>);

/// The view of an operation with its requirements.
pub open spec fn candidate_view(c: Candidate) -> CandidateView {
    (c.0@, c.1@)
}

/// The views of the operations of `candidates` with their requirements.
pub open spec fn candidate_views(candidates: Seq<Candidate>) -> Seq<CandidateView> {
    candidates.map_values(|c: Candidate| candidate_view(c))
}

/// The place of the operation `info` in `candidates`, from `from` on.
pub open spec fn candidate_index(candidates: Seq<CandidateView>, info: AtomicInfoView, from: int) -> Option<
    int,
>
    decreases candidates.len() - from,
{
    if from < 0 || from >= candidates.len() {
        None
    } else if candidates[from].0 == info {
        Some(from)
    } else {
        candidate_index(candidates, info, from + 1)
    }
}

/// `candidates` with `required` added to what the operation `info`
/// requires. An operation that is not among the candidates becomes the last
/// of them, unless `required` is empty.
pub open spec fn with_requirements(
    candidates: Seq<CandidateView>,
    info: AtomicInfoView,
    required: Set<AtomicOrd>,
) -> Seq<CandidateView> {
    if required == Set::<AtomicOrd>::empty() {
        candidates
    } else {
        match candidate_index(candidates, info, 0) {
            Some(i) => candidates.update(i, (info, candidates[i].1.union(required))),
            None => candidates.push((info, required)),
        }
    }
}

/// The set of one ordering, or the empty set.
pub open spec fn optional_set(ord: Option<AtomicOrd>) -> Set<AtomicOrd> {
    match ord {
        Some(o) => set![o],
        None => Set::empty(),
    }
}

/// Adds `required` to what the operation `info` requires.
pub fn require_all(candidates: &mut Vec<Candidate>, info: &AtomicInfo, required: OrderingSet)
    ensures
        candidate_views(final(candidates)@) == with_requirements(
            candidate_views(old(candidates)@),
            info@,
            required@,
        ),
{
    if required.is_empty() {
        return ;
    }
    let ghost before = candidate_views(candidates@);
    let mut i: usize = 0;
    while i < candidates.len()
        invariant
            i <= candidates.len(),
            candidates@ == old(candidates)@,
            before == candidate_views(candidates@),
            required@ != Set::<AtomicOrd>::empty(),
            candidate_index(before, info@, 0) == candidate_index(before, info@, i as int),
        decreases candidates.len() - i,
    {
        if candidates[i].0.same(info) {
            let ghost had = candidates@[i as int].1@;
            let merged = candidates[i].1.union(&required);
            candidates[i].1 = merged;
            proof {
                assert(before[i as int].0 == info@);
                assert(candidate_views(candidates@) =~= before.update(
                    i as int,
                    (info@, had.union(required@)),
                ));
            }
            return ;
        }
        i += 1;
    }
    candidates.push((info.clone(), required));
    proof {
        assert(candidate_views(candidates@) =~= before.push((info@, required@)));
    }
}

} // verus!

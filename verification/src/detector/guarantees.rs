//! What the rules of the detector guarantee of its reports, whatever the
//! program looks like.

use crate::atomic::AtomicInstructions;
use crate::atompart::PartnerView;
use crate::detector::atomptr::{has_parameter_field, side_reaches, store_required, PointeeKind};
use crate::detector::cluster::after_factor;
use crate::detector::factors::FactorView;
use crate::detector::rules::{already_attempted, spec_requirement, CandidateView, Requirement};
use crate::ir::Body;
use crate::ordering::{min_ordering, AtomicOrd};
use crate::pointsto::andersen::PointsToView;
use crate::report::{judged, Finding, Sufficient};
use vstd::prelude::*;

verus! {

/// The least ordering that satisfies a single requirement is that
/// requirement.
pub proof fn lemma_min_of_one(o: AtomicOrd)
    ensures
        min_ordering(set![o]) == seq![o],
{
    assert(min_ordering(set![o]) =~= seq![o]);
}

/// An operation that names the one ordering it requires is not reported.
pub proof fn lemma_equal_is_accepted(operate: Option<AtomicInstructions>, o: AtomicOrd)
    ensures
        judged(operate, seq![o], min_ordering(set![o])).is_none(),
{
    lemma_min_of_one(o);
}

/// A read whose value decides no branch and which already names `Acquire`,
/// `Release` or `AcqRel` is left alone: its pair requires nothing, of
/// neither operation, and what the operations require stays as it was. No
/// pair asks such a read to be no more than `Relaxed`.
pub proof fn lemma_settled_read_is_left_alone(
    candidates: Seq<CandidateView>,
    factor: FactorView,
    load_correlated: bool,
    store_correlated: bool,
    common_field: bool,
    load_actual: Seq<AtomicOrd>,
    store_actual: Seq<AtomicOrd>,
)
    requires
        load_actual.contains(AtomicOrd::Acquire) || load_actual.contains(AtomicOrd::Release)
            || load_actual.contains(AtomicOrd::AcqRel),
    ensures
        spec_requirement(
            false,
            load_correlated,
            store_correlated,
            common_field,
            load_actual,
            store_actual,
        ) == (Requirement { load: None, store: None }),
        after_factor(
            candidates,
            factor,
            spec_requirement(
                false,
                load_correlated,
                store_correlated,
                common_field,
                load_actual,
                store_actual,
            ),
        ) == candidates,
{
}

/// Where the value read decides a branch and both operations have
/// correlations but no field in common, the write is held to what it
/// already attempts: a write that names one of `Relaxed`, `Release` and
/// `AcqRel` is required to be just that, and a write that is required
/// nothing else is not reported.
pub proof fn lemma_store_is_held_to_what_it_attempts(load_actual: Seq<AtomicOrd>, attempted: AtomicOrd)
    requires
        attempted == AtomicOrd::Relaxed || attempted == AtomicOrd::Release || attempted
            == AtomicOrd::AcqRel,
    ensures
        already_attempted(seq![attempted]) == attempted,
        spec_requirement(true, true, true, false, load_actual, seq![attempted]) == (Requirement {
            load: Some(AtomicOrd::Acquire),
            store: Some(attempted),
        }),
        judged(
            Some(AtomicInstructions::Store),
            seq![attempted],
            min_ordering(set![attempted]),
        ).is_none(),
{
    let actual = seq![attempted];
    assert(actual[0] == attempted);
    assert(actual.contains(attempted));
    assert(forall|o: AtomicOrd| actual.contains(o) ==> o == attempted);
    lemma_min_of_one(attempted);
}

/// A write of a pointer into an atomic pointer must release where the
/// pointer written points into memory that the function can name and some
/// field of a parameter points to something: `Release` is all that such a
/// write requires. Held against that alone, a relaxed write is reported as
/// weaker than necessary, with `Release` as sufficient, and a write that
/// releases is not reported.
pub proof fn lemma_shared_pointer_store_must_release(m: PointsToView, body: Body, store: PartnerView)
    requires
        side_reaches(m, store, false, PointeeKind::Storage),
        has_parameter_field(m, body),
    ensures
        store_required(m, body, store) == set![AtomicOrd::Release],
        judged(
            Some(AtomicInstructions::Store),
            seq![AtomicOrd::Relaxed],
            min_ordering(store_required(m, body, store)),
        ) == Some(Finding::Weaker(Sufficient::One(AtomicOrd::Release))),
        judged(
            Some(AtomicInstructions::Store),
            seq![AtomicOrd::Release],
            min_ordering(store_required(m, body, store)),
        ).is_none(),
{
    assert(store_required(m, body, store) =~= set![AtomicOrd::Release]);
    lemma_min_of_one(AtomicOrd::Release);
}

} // verus!

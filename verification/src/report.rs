//! The findings of the detector and the reports that tell of them.

use crate::atomic::AtomicInstructions;
use crate::ordering::AtomicOrd;
use vstd::prelude::*;

verus! {

/// Where the atomic operation of a report stands in the source text.
#[derive(Debug, PartialEq, Eq)]
pub struct AtomicityViolationDiagnosis {
    pub atomic: String,
}

/// What a report says.
#[derive(Debug, PartialEq, Eq)]
pub struct ReportContent {
    /// The kind of the finding.
    pub bug_kind: String,
    /// How sure the finding is.
    pub possibility: String,
    pub diagnosis: AtomicityViolationDiagnosis,
    /// Why the ordering is reported, and which ordering is sufficient.
    pub explanation: String,
}

/// A report of the detector.
#[derive(Debug, PartialEq, Eq)]
pub enum Report {
    AtomicCorrelationViolation(ReportContent),
}

/// A `Report` as a mathematical value.
pub struct ReportView {
    pub bug_kind: Seq<char>,
    pub possibility: Seq<char>,
    pub atomic: Seq<char>,
    pub explanation: Seq<char>,
}

impl View for Report {
    type V = ReportView;

    open spec fn view(&self) -> ReportView {
        match self {
            Report::AtomicCorrelationViolation(c) => ReportView {
                bug_kind: c.bug_kind@,
                possibility: c.possibility@,
                atomic: c.diagnosis.atomic@,
                explanation: c.explanation@,
            },
        }
    }
}

/// The views of the reports of `reports`.
pub open spec fn report_views(reports: Seq<Report>) -> Seq<ReportView> {
    reports.map_values(|r: Report| r@)
}

/// The ordering that would be sufficient for an operation.
#[derive(Copy, Clone, Debug, PartialEq, Eq, Structural)]
pub enum Sufficient {
    /// The one ordering that the operation requires.
    One(AtomicOrd),
    /// `AcqRel`, for an operation that is required to acquire and to
    /// release.
    AcqRel,
    /// `AcqRel` on success and `Acquire` on failure, for a compare-exchange
    /// that is required to acquire and to release.
    AcqRelAndAcquire,
}

/// What is wrong with the ordering of an operation.
#[derive(Copy, Clone, Debug, PartialEq, Eq, Structural)]
pub enum Finding {
    /// The ordering is stronger than necessary, which costs time.
    Stronger(Sufficient),
    /// The ordering is weaker than necessary, which may leave memory in an
    /// inconsistent state.
    Weaker(Sufficient),
}

/// The operation is a load, a store or a read-modify-write: it names one
/// ordering.
pub open spec fn names_one_ordering(operate: Option<AtomicInstructions>) -> bool {
    operate == Some(AtomicInstructions::Load) || operate == Some(AtomicInstructions::Store)
        || operate == Some(AtomicInstructions::ReadModifyWrite)
}

/// The finding for an operation of kind `operate` that names the orderings
/// `actual` and requires the orderings `minimum`, if there is anything to
/// report.
///
/// Where one ordering is required, the first ordering named is held
/// against it. Where two are required, which are `Acquire` and `Release`,
/// the first ordering named is held against `AcqRel`, and for a
/// compare-exchange the second, where it is named, against `Acquire`; a
/// compare-exchange that is too weak in one place is reported as too weak
/// even where it is too strong in the other. An operation that names no
/// ordering, or that requires none, is not reported.
pub open spec fn judged(
    operate: Option<AtomicInstructions>,
    actual: Seq<AtomicOrd>,
    minimum: Seq<AtomicOrd>,
) -> Option<Finding> {
    if actual.len() == 0 {
        None
    } else if minimum.len() == 1 {
        if minimum[0].weaker(actual[0]) {
            Some(Finding::Stronger(Sufficient::One(minimum[0])))
        } else if actual[0].weaker(minimum[0]) {
            Some(Finding::Weaker(Sufficient::One(minimum[0])))
        } else {
            None
        }
    } else if minimum.len() == 2 {
        if names_one_ordering(operate) {
            if AtomicOrd::AcqRel.weaker(actual[0]) {
                Some(Finding::Stronger(Sufficient::AcqRel))
            } else if actual[0].weaker(AtomicOrd::AcqRel) {
                Some(Finding::Weaker(Sufficient::AcqRel))
            } else {
                None
            }
        } else {
            if actual[0].weaker(AtomicOrd::AcqRel) || (actual.len() > 1 && actual[1].weaker(
                AtomicOrd::Acquire,
            )) {
                Some(Finding::Weaker(Sufficient::AcqRelAndAcquire))
            } else if AtomicOrd::AcqRel.weaker(actual[0]) || (actual.len() > 1
                && AtomicOrd::Acquire.weaker(actual[1])) {
                Some(Finding::Stronger(Sufficient::AcqRelAndAcquire))
            } else {
                None
            }
        }
    } else {
        None
    }
}

/// The finding for an operation of kind `operate` that names the orderings
/// `actual` and requires the orderings `minimum`.
pub fn judge(operate: Option<AtomicInstructions>, actual: &Vec<AtomicOrd>, minimum: &Vec<AtomicOrd>) -> (r:
    Option<Finding>)
    ensures
        r == judged(operate, actual@, minimum@),
{
    if actual.len() == 0 {
        return None;
    }
    let first: u8 = actual[0].rank();
    if minimum.len() == 1 {
        let required: u8 = minimum[0].rank();
        if required < first {
            Some(Finding::Stronger(Sufficient::One(minimum[0])))
        } else if first < required {
            Some(Finding::Weaker(Sufficient::One(minimum[0])))
        } else {
            None
        }
    } else if minimum.len() == 2 {
        let one = match operate {
            Some(AtomicInstructions::Load) => true,
            Some(AtomicInstructions::Store) => true,
            Some(AtomicInstructions::ReadModifyWrite) => true,
            _ => false,
        };
        let acq_rel: u8 = AtomicOrd::AcqRel.rank();
        if one {
            if acq_rel < first {
                Some(Finding::Stronger(Sufficient::AcqRel))
            } else if first < acq_rel {
                Some(Finding::Weaker(Sufficient::AcqRel))
            } else {
                None
            }
        } else {
            let acquire: u8 = AtomicOrd::Acquire.rank();
            let second_weaker = actual.len() > 1 && actual[1].rank() < acquire;
            let second_stronger = actual.len() > 1 && acquire < actual[1].rank();
            if first < acq_rel || second_weaker {
                Some(Finding::Weaker(Sufficient::AcqRelAndAcquire))
            } else if acq_rel < first || second_stronger {
                Some(Finding::Stronger(Sufficient::AcqRelAndAcquire))
            } else {
                None
            }
        }
    } else {
        None
    }
}

/// The kind of every finding of the detector.
pub open spec fn spec_bug_kind() -> Seq<char> {
    "AtomicCorrelationViolation"@
}

/// How sure every finding of the detector is.
pub open spec fn spec_possibility() -> Seq<char> {
    "Possibly"@
}

/// The explanation of a finding.
pub open spec fn spec_explanation(finding: Finding) -> Seq<char> {
    match finding {
        Finding::Stronger(Sufficient::One(o)) => "Using an atomic operation with a stronger memory ordering than necessary can lead to unnecessary performance overhead. Using "@
            + o.spec_name() + " is sufficient to ensure the correctness of the program"@,
        Finding::Weaker(Sufficient::One(o)) => "Using an atomic operation with a weaker memory ordering than necessary can lead to an inconsistent memory state. Using "@
            + o.spec_name() + " is sufficient to ensure the program's correctness."@,
        Finding::Stronger(Sufficient::AcqRel) => "Using an atomic operation with a stronger memory ordering than necessary can lead to unnecessary performance overhead. Using AcqRel is sufficient to ensure the correctness of the program."@,
        Finding::Weaker(Sufficient::AcqRel) => "Using an atomic operation with a weaker memory ordering than necessary can lead to an inconsistent memory state. Using AcqRel is sufficient to ensure the program's correctness."@,
        Finding::Stronger(Sufficient::AcqRelAndAcquire) => "Using an atomic compare_exchange operation with a stronger memory ordering than necessary can lead to unnecessary performance overhead, Using AcqRel and Acquire is sufficient to ensure the correctness of the program"@,
        Finding::Weaker(Sufficient::AcqRelAndAcquire) => "Using an atomic compare_exchange operation with a weaker memory ordering than necessary can lead to an inconsistent memory state, Using AcqRel and Acquire is sufficient to ensure the correctness of the program"@,
    }
}

/// The explanation of a finding.
pub fn explanation(finding: Finding) -> (r: String)
    ensures
        r@ == spec_explanation(finding),
{
    match finding {
        Finding::Stronger(Sufficient::One(o)) => {
            let mut s = String::from_str(
                "Using an atomic operation with a stronger memory ordering than necessary can lead to unnecessary performance overhead. Using ",
            );
            s.append(o.name());
            s.append(" is sufficient to ensure the correctness of the program");
            s
        },
        Finding::Weaker(Sufficient::One(o)) => {
            let mut s = String::from_str(
                "Using an atomic operation with a weaker memory ordering than necessary can lead to an inconsistent memory state. Using ",
            );
            s.append(o.name());
            s.append(" is sufficient to ensure the program's correctness.");
            s
        },
        Finding::Stronger(Sufficient::AcqRel) => String::from_str(
            "Using an atomic operation with a stronger memory ordering than necessary can lead to unnecessary performance overhead. Using AcqRel is sufficient to ensure the correctness of the program.",
        ),
        Finding::Weaker(Sufficient::AcqRel) => String::from_str(
            "Using an atomic operation with a weaker memory ordering than necessary can lead to an inconsistent memory state. Using AcqRel is sufficient to ensure the program's correctness.",
        ),
        Finding::Stronger(Sufficient::AcqRelAndAcquire) => String::from_str(
            "Using an atomic compare_exchange operation with a stronger memory ordering than necessary can lead to unnecessary performance overhead, Using AcqRel and Acquire is sufficient to ensure the correctness of the program",
        ),
        Finding::Weaker(Sufficient::AcqRelAndAcquire) => String::from_str(
            "Using an atomic compare_exchange operation with a weaker memory ordering than necessary can lead to an inconsistent memory state, Using AcqRel and Acquire is sufficient to ensure the correctness of the program",
        ),
    }
}

/// The report of `finding` for the operation that stands at `source_info`.
pub open spec fn spec_report(source_info: Seq<char>, finding: Finding) -> ReportView {
    ReportView {
        bug_kind: spec_bug_kind(),
        possibility: spec_possibility(),
        atomic: source_info,
        explanation: spec_explanation(finding),
    }
}

impl ReportContent {
    /// A report with this content.
    pub fn new(
        bug_kind: String,
        possibility: String,
        diagnosis: AtomicityViolationDiagnosis,
        explanation: String,
    ) -> (r: Self)
        ensures
            r.bug_kind == bug_kind,
            r.possibility == possibility,
            r.diagnosis == diagnosis,
            r.explanation == explanation,
    {
        ReportContent { bug_kind, possibility, diagnosis, explanation }
    }
}

/// The report of `finding` for the operation that stands at `source_info`.
pub fn report_of(source_info: &String, finding: Finding) -> (r: Report)
    ensures
        r@ == spec_report(source_info@, finding),
{
    let content = ReportContent::new(
        String::from_str("AtomicCorrelationViolation"),
        String::from_str("Possibly"),
        AtomicityViolationDiagnosis { atomic: source_info.clone() },
        explanation(finding),
    );
    Report::AtomicCorrelationViolation(content)
}

} // verus!

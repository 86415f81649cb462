//! What the checker is told to do, and the summary of what it found.

use crate::report::Report;
use crate::text::{contains, occurs_in, str_eq};
use vstd::prelude::*;

verus! {

/// The crates to analyse or to leave out, by name.
#[derive(Debug, PartialEq, Eq)]
pub enum CrateNameList {
    /// Only these crates are analysed; every crate, where the list is
    /// empty.
    White(Vec<String>),
    /// These crates are not analysed.
    Black(Vec<String>),
}

/// The detector to run.
#[derive(Copy, Clone, Debug, PartialEq, Eq, Structural)]
pub enum DetectorKind {
    AtomicityViolation,
}

/// The options of a run of the checker.
#[derive(Debug, PartialEq, Eq)]
pub struct Options {
    pub detector_kind: DetectorKind,
    pub crate_name_list: CrateNameList,
}

/// `name` is one of `names`.
pub open spec fn is_listed(names: Seq<String>, name: Seq<char>) -> bool {
    exists|i: int| 0 <= i < names.len() && (#[trigger] names[i])@ == name
}

/// Whether `name` is one of `names`.
pub fn listed(names: &Vec<String>, name: &str) -> (r: bool)
    ensures
        r == is_listed(names@, name@),
{
    let mut i: usize = 0;
    while i < names.len()
        invariant
            i <= names.len(),
            forall|k: int| 0 <= k < i ==> (#[trigger] names@[k])@ != name@,
        decreases names.len() - i,
    {
        if str_eq(names[i].as_str(), name) {
            return true;
        }
        i += 1;
    }
    false
}

/// The state of the checker across the analysis of one crate.
#[derive(Debug, PartialEq, Eq)]
pub struct ATOMVCHECKERCallbacks {
    pub options: Options,
    /// The name of the source file that is compiled.
    pub file_name: String,
    /// Where the compiler writes its output.
    pub output_directory: String,
    /// Whether the run is a test of the checker, after which no code is
    /// generated.
    pub test_run: bool,
}

impl ATOMVCHECKERCallbacks {
    /// The state before the compiler has been configured.
    pub fn new(options: Options) -> (r: Self)
        ensures
            r.options == options,
            r.file_name@ == Seq::<char>::empty(),
            r.output_directory@ == Seq::<char>::empty(),
            !r.test_run,
    {
        ATOMVCHECKERCallbacks {
            options,
            file_name: String::new(),
            output_directory: String::new(),
            test_run: false,
        }
    }

    /// The crate `crate_name` is to be analysed: it is on the white list,
    /// or the white list is empty, or it is not on the black list.
    pub open spec fn wants(&self, crate_name: Seq<char>) -> bool {
        match self.options.crate_name_list {
            CrateNameList::White(crates) => crates@.len() == 0 || is_listed(crates@, crate_name),
            CrateNameList::Black(crates) => !is_listed(crates@, crate_name),
        }
    }

    /// Whether the crate `crate_name` is to be analysed.
    pub fn should_analyze(&self, crate_name: &str) -> (r: bool)
        ensures
            r == self.wants(crate_name@),
    {
        match &self.options.crate_name_list {
            CrateNameList::White(crates) => crates.len() == 0 || listed(crates, crate_name),
            CrateNameList::Black(crates) => !listed(crates, crate_name),
        }
    }

    /// Whether what is compiled is a build script, which is not analysed:
    /// the output goes to a directory under `build`.
    pub fn is_build_script(&self) -> (r: bool)
        ensures
            r == occurs_in("/build/"@, self.output_directory@),
    {
        contains(self.output_directory.as_str(), "/build/")
    }
}

/// The digit `d` as a character.
pub open spec fn digit(d: nat) -> Seq<char> {
    if d == 0 {
        "0"@
    } else if d == 1 {
        "1"@
    } else if d == 2 {
        "2"@
    } else if d == 3 {
        "3"@
    } else if d == 4 {
        "4"@
    } else if d == 5 {
        "5"@
    } else if d == 6 {
        "6"@
    } else if d == 7 {
        "7"@
    } else if d == 8 {
        "8"@
    } else {
        "9"@
    }
}

/// The number `n` in decimal digits.
pub open spec fn decimal(n: nat) -> Seq<char>
    decreases n,
{
    if n < 10 {
        digit(n)
    } else {
        decimal(n / 10) + digit(n % 10)
    }
}

fn digit_of(d: usize) -> (r: &'static str)
    requires
        d < 10,
    ensures
        r@ == digit(d as nat),
{
    if d == 0 {
        "0"
    } else if d == 1 {
        "1"
    } else if d == 2 {
        "2"
    } else if d == 3 {
        "3"
    } else if d == 4 {
        "4"
    } else if d == 5 {
        "5"
    } else if d == 6 {
        "6"
    } else if d == 7 {
        "7"
    } else if d == 8 {
        "8"
    } else {
        "9"
    }
}

/// The number `n` in decimal digits.
pub fn decimal_of(n: usize) -> (r: String)
    ensures
        r@ == decimal(n as nat),
    decreases n,
{
    if n < 10 {
        String::from_str(digit_of(n))
    } else {
        let mut s = decimal_of(n / 10);
        s.append(digit_of(n % 10));
        s
    }
}

/// The summary of the reports for the crate `crate_name`.
pub open spec fn spec_report_stats(crate_name: Seq<char>, reports: nat) -> Seq<char> {
    "crate "@ + crate_name + " contains atomic_correlation_violation: { possibly: "@ + decimal(
        reports,
    ) + " }"@
}

/// The summary of the reports for the crate `crate_name`: how many
/// findings there are.
pub fn report_stats(crate_name: &str, reports: &[Report]) -> (r: String)
    ensures
        r@ == spec_report_stats(crate_name@, reports@.len()),
{
    let mut atomic_correlation_violation_possibly: usize = 0;
    let mut i: usize = 0;
    while i < reports.len()
        invariant
            i <= reports.len(),
            atomic_correlation_violation_possibly == i,
        decreases reports.len() - i,
    {
        match &reports[i] {
            Report::AtomicCorrelationViolation(_) => {
                atomic_correlation_violation_possibly += 1;
            },
        }
        i += 1;
    }
    let mut s = String::from_str("crate ");
    s.append(crate_name);
    s.append(" contains atomic_correlation_violation: { possibly: ");
    s.append(decimal_of(atomic_correlation_violation_possibly).as_str());
    s.append(" }");
    s
}

} // verus!

use atomvchecker::callbacks::{
    decimal_of, report_stats, ATOMVCHECKERCallbacks, CrateNameList, DetectorKind, Options,
};
use atomvchecker::report::{report_of, Finding, Report, Sufficient};
use atomvchecker::ordering::AtomicOrd;

fn options(list: CrateNameList) -> Options {
    Options { detector_kind: DetectorKind::AtomicityViolation, crate_name_list: list }
}

fn names(names: &[&str]) -> Vec<String> {
    names.iter().map(|s| s.to_string()).collect()
}

fn some_report() -> Report {
    report_of(&"src/main.rs:1:1".to_string(), Finding::Weaker(Sufficient::One(AtomicOrd::Acquire)))
}

#[test]
fn new_callbacks_start_empty() {
    let callbacks = ATOMVCHECKERCallbacks::new(options(CrateNameList::White(vec![])));
    assert_eq!(callbacks.file_name, "");
    assert_eq!(callbacks.output_directory, "");
    assert!(!callbacks.test_run);
    assert_eq!(callbacks.options, options(CrateNameList::White(vec![])));
}

#[test]
fn white_list_admits_its_crates_and_all_when_empty() {
    let all = ATOMVCHECKERCallbacks::new(options(CrateNameList::White(vec![])));
    assert!(all.should_analyze("anything"));
    let some = ATOMVCHECKERCallbacks::new(options(CrateNameList::White(names(&["a", "b"]))));
    assert!(some.should_analyze("a"));
    assert!(some.should_analyze("b"));
    assert!(!some.should_analyze("c"));
    assert!(!some.should_analyze("ab"));
}

#[test]
fn black_list_shuts_out_its_crates() {
    let none = ATOMVCHECKERCallbacks::new(options(CrateNameList::Black(vec![])));
    assert!(none.should_analyze("anything"));
    let some = ATOMVCHECKERCallbacks::new(options(CrateNameList::Black(names(&["a", "b"]))));
    assert!(!some.should_analyze("a"));
    assert!(!some.should_analyze("b"));
    assert!(some.should_analyze("c"));
}

#[test]
fn build_scripts_are_told_by_the_output_directory() {
    let mut callbacks = ATOMVCHECKERCallbacks::new(options(CrateNameList::White(vec![])));
    assert!(!callbacks.is_build_script());
    callbacks.output_directory = "/tmp/target/debug/build/foo-1234".to_string();
    assert!(callbacks.is_build_script());
    callbacks.output_directory = "/tmp/target/debug/deps".to_string();
    assert!(!callbacks.is_build_script());
}

#[test]
fn numbers_print_in_decimal() {
    assert_eq!(decimal_of(0), "0");
    assert_eq!(decimal_of(7), "7");
    assert_eq!(decimal_of(10), "10");
    assert_eq!(decimal_of(1234567890), "1234567890");
    assert_eq!(decimal_of(usize::MAX), usize::MAX.to_string());
}

#[test]
fn stats_count_the_reports() {
    assert_eq!(
        report_stats("demo", &vec![]),
        "crate demo contains atomic_correlation_violation: { possibly: 0 }"
    );
    let reports: Vec<Report> = (0..12).map(|_| some_report()).collect();
    assert_eq!(
        report_stats("my_crate", &reports),
        "crate my_crate contains atomic_correlation_violation: { possibly: 12 }"
    );
}

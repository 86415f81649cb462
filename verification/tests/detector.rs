use atomvchecker::atomic::{AtomicInfo, AtomicInstructions};
use atomvchecker::callgraph::{
    CallEdge, CallGraph, CallGraphNode, CallSiteLocation, Function, Instance, Location, Program,
};
use atomvchecker::controldep::FlowGraph;
use atomvchecker::detector::detect::AtomicityViolationDetector;
use atomvchecker::detector::rules::{requirement, Requirement};
use atomvchecker::ir::{
    BasicBlock, Body, Callee, Constant, LocalTy, Operand, Place, ProjectionElem, Rvalue, Statement,
    Terminator,
};
use atomvchecker::ordering::AtomicOrd;
use atomvchecker::report::{explanation, judge, report_of, Finding, Report, Sufficient};

const WEAKER: &str = "Using an atomic operation with a weaker memory ordering than necessary can lead to an inconsistent memory state. Using ";
const STRONGER: &str = "Using an atomic operation with a stronger memory ordering than necessary can lead to unnecessary performance overhead. Using ";

fn local(l: usize) -> Place {
    Place::from_local(l)
}

/// `&(*_1).field`
fn field_of_self(field: usize) -> Rvalue {
    Rvalue::Ref(Place { local: 1, projection: vec![ProjectionElem::Deref, ProjectionElem::Field(field)] })
}

fn ordering(place: usize, name: &str) -> Statement {
    Statement::Assign(
        local(place),
        Rvalue::Use(Operand::Constant(Constant {
            text: format!("const std::sync::atomic::Ordering::{}", name),
            value: None,
        })),
    )
}

fn call(path: &str, args: &[usize], destination: usize, span: &str) -> Terminator {
    Terminator::Call {
        func: Some(Callee {
            path: path.to_string(),
            path_with_args: path.to_string(),
            type_args: vec![],
        }),
        args: args.iter().map(|l| Operand::Move(local(*l))).collect(),
        destination: local(destination),
        span: span.to_string(),
    }
}

fn plain() -> BasicBlock {
    BasicBlock { statements: vec![], terminator: Terminator::Other }
}

fn straight_flow(blocks: usize) -> FlowGraph {
    FlowGraph {
        successors: (0..blocks).map(|b| if b + 1 < blocks { vec![b + 1] } else { vec![] }).collect(),
        start_node: 0,
        post_dominators: (0..blocks).map(|b| (b..blocks).collect()).collect(),
    }
}

/// Blocks 0, 1 (a branch), 2 and 3 (its arms) and 4 (where they join).
fn branching_flow() -> FlowGraph {
    FlowGraph {
        successors: vec![vec![1], vec![2, 3], vec![4], vec![4], vec![]],
        start_node: 0,
        post_dominators: vec![vec![0, 1, 4], vec![1, 4], vec![2, 4], vec![3, 4], vec![4]],
    }
}

fn function(blocks: Vec<BasicBlock>, flow: FlowGraph, locals: usize) -> Function {
    let mut local_decls = vec![LocalTy::Other; locals];
    local_decls[1] = LocalTy::Ref { of_adt: true };
    Function {
        body: Body { arg_count: 1, local_decls, blocks },
        flow,
        dependents: vec![vec![]; locals],
        uses: vec![vec![]; locals],
    }
}

fn external() -> Function {
    Function {
        body: Body { arg_count: 0, local_decls: vec![], blocks: vec![] },
        flow: FlowGraph { successors: vec![], start_node: 0, post_dominators: vec![] },
        dependents: vec![],
        uses: vec![],
    }
}

fn instance(def_id: usize, path: &str) -> Instance {
    Instance { def_id, path: path.to_string() }
}

/// A program of one function with a body, in which the atomic operations
/// `operations` are called, each at the end of the block given with it.
fn program_of(caller: Function, operations: &[(&str, usize)]) -> (Program, CallGraph) {
    let mut functions = vec![caller];
    let mut nodes = vec![CallGraphNode::WithBody(instance(0, "demo::run"))];
    let mut edges = vec![];
    for (i, (path, block)) in operations.iter().enumerate() {
        functions.push(external());
        nodes.push(CallGraphNode::WithoutBody(instance(i + 1, path)));
        edges.push(CallEdge {
            source: 0,
            target: i + 1,
            callsites: vec![CallSiteLocation::Direct(Location { block: *block, statement_index: 0 })],
        });
    }
    (Program { functions }, CallGraph { nodes, edges })
}

fn detect(program: &Program, callgraph: &CallGraph) -> Vec<Report> {
    assert!(program.is_wf());
    assert!(callgraph.is_consistent(program));
    let mut detector = AtomicityViolationDetector::new(program);
    detector.detect(callgraph)
}

fn expect(span: &str, text: String) -> Report {
    let mut report = report_of(&span.to_string(), Finding::Weaker(Sufficient::AcqRel));
    let Report::AtomicCorrelationViolation(content) = &mut report;
    content.explanation = text;
    report
}

/// A load of field `load_field` of `self` in block 0 and a store to field
/// `store_field` in block 1.
fn load_and_store(load_order: &str, load_field: usize, store_field: usize) -> (Program, CallGraph) {
    let blocks = vec![
        BasicBlock {
            statements: vec![
                Statement::Assign(local(2), field_of_self(load_field)),
                ordering(3, load_order),
            ],
            terminator: call("std::sync::atomic::AtomicUsize::load", &[2, 3], 4, "src/demo.rs:10:5"),
        },
        BasicBlock {
            statements: vec![
                Statement::Assign(local(5), field_of_self(store_field)),
                ordering(7, "Relaxed"),
            ],
            terminator: call("std::sync::atomic::AtomicUsize::store", &[5, 6, 7], 0, "src/demo.rs:20:5"),
        },
    ];
    program_of(
        function(blocks, straight_flow(2), 8),
        &[("std::sync::atomic::AtomicUsize::load", 0), ("std::sync::atomic::AtomicUsize::store", 1)],
    )
}

#[test]
fn an_acquire_load_that_decides_nothing_is_left_alone() {
    let (program, callgraph) = load_and_store("Acquire", 0, 0);
    assert_eq!(detect(&program, &callgraph), vec![]);
}

#[test]
fn a_relaxed_load_that_decides_nothing_is_left_alone() {
    let (program, callgraph) = load_and_store("Relaxed", 0, 0);
    assert_eq!(detect(&program, &callgraph), vec![]);
}

#[test]
fn a_seqcst_load_that_decides_nothing_is_too_strong() {
    let (program, callgraph) = load_and_store("SeqCst", 0, 0);
    assert_eq!(
        detect(&program, &callgraph),
        vec![expect(
            "src/demo.rs:10:5",
            format!("{}Relaxed is sufficient to ensure the correctness of the program", STRONGER)
        )]
    );
}

#[test]
fn operations_on_different_memory_are_not_paired() {
    let (program, callgraph) = load_and_store("SeqCst", 0, 5);
    assert_eq!(detect(&program, &callgraph), vec![]);
}

#[test]
fn an_operation_without_a_fixed_ordering_is_not_looked_at() {
    let (mut program, callgraph) = load_and_store("SeqCst", 0, 0);
    // The store takes its ordering from a parameter.
    program.functions[0].body.blocks[1].statements.pop();
    assert_eq!(detect(&program, &callgraph), vec![]);
}

#[test]
fn calls_in_dependencies_are_not_looked_at() {
    let (mut program, callgraph) = load_and_store("SeqCst", 0, 0);
    if let Terminator::Call { span, .. } = &mut program.functions[0].body.blocks[0].terminator {
        *span = "/home/me/.cargo/registry/src/x/lib.rs:1:1".to_string();
    }
    assert_eq!(detect(&program, &callgraph), vec![]);
}

/// An operation that reads field 0 in block 0, whose result is used in the
/// branch of block 1, and a store to field 0 in block 2. The local behind
/// the atomic variable of the first operation points to field
/// `read_field`, a local before the atomic variable of the store to field
/// `written_field`. The first operation is a load, or a compare-exchange
/// where `exchange` is set; its orderings are relaxed.
fn read_and_store(
    exchange: bool,
    store_order: &str,
    read_field: usize,
    written_field: usize,
) -> (Program, CallGraph) {
    let reader = if exchange {
        "std::sync::atomic::AtomicUsize::compare_exchange"
    } else {
        "std::sync::atomic::AtomicUsize::load"
    };
    let arguments: &[usize] = if exchange { &[4, 6, 7, 2, 3] } else { &[4, 2] };
    let blocks = vec![
        BasicBlock {
            statements: vec![
                ordering(2, "Relaxed"),
                ordering(3, "Relaxed"),
                Statement::Assign(local(4), field_of_self(0)),
                Statement::Assign(local(5), field_of_self(read_field)),
            ],
            terminator: call(reader, arguments, 10, "src/demo.rs:30:9"),
        },
        plain(),
        BasicBlock {
            statements: vec![
                Statement::Assign(local(9), field_of_self(0)),
                Statement::Assign(local(8), field_of_self(written_field)),
                ordering(11, store_order),
            ],
            terminator: call("std::sync::atomic::AtomicUsize::store", &[9, 7, 11], 0, "src/demo.rs:40:9"),
        },
        plain(),
        plain(),
    ];
    let mut caller = function(blocks, branching_flow(), 12);
    caller.dependents[10] = vec![10];
    caller.uses[10] = vec![1];
    program_of(caller, &[(reader, 0), ("std::sync::atomic::AtomicUsize::store", 2)])
}

fn exchange_and_store(store_order: &str, read_field: usize, written_field: usize) -> (Program, CallGraph) {
    read_and_store(true, store_order, read_field, written_field)
}

fn load_and_later_store(store_order: &str, read_field: usize, written_field: usize) -> (Program, CallGraph) {
    read_and_store(false, store_order, read_field, written_field)
}

#[test]
fn a_store_beside_an_unshared_field_need_be_no_more_than_it_attempts() {
    let (program, callgraph) = load_and_later_store("Relaxed", 1, 2);
    let reports = detect(&program, &callgraph);
    // Nothing is said of the store; the load is asked to acquire.
    assert_eq!(
        reports,
        vec![expect(
            "src/demo.rs:30:9",
            format!("{}Acquire is sufficient to ensure the program's correctness.", WEAKER)
        )]
    );
}

#[test]
fn a_release_store_beside_an_unshared_field_is_accepted_as_it_is() {
    let (program, callgraph) = load_and_later_store("Release", 1, 2);
    let reports = detect(&program, &callgraph);
    assert_eq!(reports.len(), 1);
    assert_eq!(
        reports[0],
        expect(
            "src/demo.rs:30:9",
            format!("{}Acquire is sufficient to ensure the program's correctness.", WEAKER)
        )
    );
}

#[test]
fn a_store_beside_a_shared_field_must_release() {
    let (program, callgraph) = load_and_later_store("Relaxed", 1, 1);
    assert_eq!(
        detect(&program, &callgraph),
        vec![
            expect(
                "src/demo.rs:30:9",
                format!("{}Acquire is sufficient to ensure the program's correctness.", WEAKER)
            ),
            expect(
                "src/demo.rs:40:9",
                format!("{}Release is sufficient to ensure the program's correctness.", WEAKER)
            ),
        ]
    );
}

#[test]
fn a_relaxed_exchange_before_a_relaxed_store_is_not_reported() {
    // The exchange is held against itself only, and nothing before its
    // atomic variable is correlated with it.
    let (program, callgraph) = exchange_and_store("Relaxed", 1, 2);
    assert_eq!(detect(&program, &callgraph), vec![]);
    let (program, callgraph) = exchange_and_store("Relaxed", 1, 1);
    assert_eq!(detect(&program, &callgraph), vec![]);
    let (program, callgraph) = exchange_and_store("Release", 1, 2);
    assert_eq!(detect(&program, &callgraph), vec![]);
}

#[test]
fn without_a_branch_the_exchange_is_only_held_to_relaxed() {
    let (mut program, callgraph) = exchange_and_store("Relaxed", 1, 1);
    program.functions[0].uses[10] = vec![0];
    assert_eq!(detect(&program, &callgraph), vec![]);
}

/// A store of a pointer into an atomic pointer in block 0 and a load of
/// the atomic pointer in block 1. The pointer stored points to a local.
fn pointer_store_and_load(store_order: &str, dereferenced: bool) -> (Program, CallGraph) {
    let mut after = vec![];
    if dereferenced {
        after.push(Statement::Assign(
            local(10),
            Rvalue::Use(Operand::Copy(Place { local: 9, projection: vec![ProjectionElem::Deref] })),
        ));
    }
    let blocks = vec![
        BasicBlock {
            statements: vec![
                Statement::Assign(local(4), field_of_self(0)),
                Statement::Assign(local(5), Rvalue::Ref(local(3))),
                ordering(6, store_order),
            ],
            terminator: call(
                "std::sync::atomic::AtomicPtr::<Node>::store",
                &[4, 5, 6],
                0,
                "src/demo.rs:50:9",
            ),
        },
        BasicBlock {
            statements: vec![Statement::Assign(local(7), field_of_self(0)), ordering(8, "Relaxed")],
            terminator: call("std::sync::atomic::AtomicPtr::<Node>::load", &[7, 8], 9, "src/demo.rs:60:9"),
        },
        BasicBlock { statements: after, terminator: Terminator::Other },
    ];
    program_of(
        function(blocks, straight_flow(3), 11),
        &[
            ("std::sync::atomic::AtomicPtr::<Node>::store", 0),
            ("std::sync::atomic::AtomicPtr::<Node>::load", 1),
        ],
    )
}

#[test]
fn a_relaxed_store_of_a_shared_pointer_is_too_weak() {
    let (program, callgraph) = pointer_store_and_load("Relaxed", false);
    assert_eq!(
        detect(&program, &callgraph),
        vec![expect(
            "src/demo.rs:50:9",
            format!("{}Release is sufficient to ensure the program's correctness.", WEAKER)
        )]
    );
}

#[test]
fn a_release_store_of_a_shared_pointer_is_right() {
    let (program, callgraph) = pointer_store_and_load("Release", false);
    assert_eq!(detect(&program, &callgraph), vec![]);
}

#[test]
fn a_loaded_pointer_that_is_dereferenced_must_be_acquired() {
    let (program, callgraph) = pointer_store_and_load("Release", true);
    assert_eq!(
        detect(&program, &callgraph),
        vec![expect(
            "src/demo.rs:60:9",
            format!("{}Acquire is sufficient to ensure the program's correctness.", WEAKER)
        )]
    );
}

#[test]
fn a_program_without_atomics_has_no_reports() {
    let blocks = vec![BasicBlock {
        statements: vec![Statement::Assign(local(2), Rvalue::Ref(local(1)))],
        terminator: call("demo::helper", &[2], 3, "src/demo.rs:1:1"),
    }];
    let (program, callgraph) = program_of(function(blocks, straight_flow(1), 4), &[("demo::helper", 0)]);
    assert_eq!(detect(&program, &callgraph), vec![]);
    let mut detector = AtomicityViolationDetector::new(&program);
    assert_eq!(detector.window_percent, 30);
    assert_eq!(detector.detect(&callgraph), vec![]);
}

#[test]
fn pairs_require_by_the_rules() {
    let relaxed = vec![AtomicOrd::Relaxed];
    let none = Requirement { load: None, store: None };
    assert_eq!(
        requirement(true, true, true, true, &relaxed, &relaxed),
        Requirement { load: Some(AtomicOrd::Acquire), store: Some(AtomicOrd::Release) }
    );
    assert_eq!(
        requirement(true, true, true, false, &relaxed, &relaxed),
        Requirement { load: Some(AtomicOrd::Acquire), store: Some(AtomicOrd::Relaxed) }
    );
    assert_eq!(
        requirement(true, true, true, false, &relaxed, &vec![AtomicOrd::Release]),
        Requirement { load: Some(AtomicOrd::Acquire), store: Some(AtomicOrd::Release) }
    );
    assert_eq!(
        requirement(true, true, true, false, &relaxed, &vec![AtomicOrd::Release, AtomicOrd::AcqRel]),
        Requirement { load: Some(AtomicOrd::Acquire), store: Some(AtomicOrd::AcqRel) }
    );
    assert_eq!(
        requirement(true, true, true, false, &relaxed, &vec![AtomicOrd::SeqCst]),
        Requirement { load: Some(AtomicOrd::Acquire), store: Some(AtomicOrd::Relaxed) }
    );
    assert_eq!(requirement(true, false, true, false, &relaxed, &relaxed), none);
    assert_eq!(requirement(true, true, false, false, &relaxed, &relaxed), none);
    assert_eq!(requirement(true, false, false, false, &relaxed, &relaxed), none);
    assert_eq!(
        requirement(false, true, true, true, &relaxed, &relaxed),
        Requirement { load: Some(AtomicOrd::Relaxed), store: None }
    );
    assert_eq!(
        requirement(false, false, false, false, &vec![AtomicOrd::SeqCst], &relaxed),
        Requirement { load: Some(AtomicOrd::Relaxed), store: None }
    );
    for kept in [AtomicOrd::Acquire, AtomicOrd::Release, AtomicOrd::AcqRel] {
        assert_eq!(requirement(false, true, true, true, &vec![kept], &relaxed), none);
    }
}

#[test]
fn one_required_ordering_is_held_against_the_first_named() {
    let load = Some(AtomicInstructions::Load);
    let min = vec![AtomicOrd::Acquire];
    assert_eq!(
        judge(load, &vec![AtomicOrd::Relaxed], &min),
        Some(Finding::Weaker(Sufficient::One(AtomicOrd::Acquire)))
    );
    assert_eq!(
        judge(load, &vec![AtomicOrd::SeqCst], &min),
        Some(Finding::Stronger(Sufficient::One(AtomicOrd::Acquire)))
    );
    assert_eq!(judge(load, &vec![AtomicOrd::Acquire], &min), None);
    assert_eq!(judge(load, &vec![AtomicOrd::Release], &min), None);
    assert_eq!(judge(load, &vec![], &min), None);
    assert_eq!(judge(load, &vec![AtomicOrd::SeqCst], &vec![]), None);
    let exchange = Some(AtomicInstructions::CompareExchange);
    assert_eq!(
        judge(exchange, &vec![AtomicOrd::Relaxed, AtomicOrd::SeqCst], &min),
        Some(Finding::Weaker(Sufficient::One(AtomicOrd::Acquire)))
    );
    assert_eq!(
        judge(exchange, &vec![AtomicOrd::AcqRel, AtomicOrd::Relaxed], &min),
        Some(Finding::Stronger(Sufficient::One(AtomicOrd::Acquire)))
    );
}

#[test]
fn two_required_orderings_are_held_against_acqrel() {
    let min = vec![AtomicOrd::Acquire, AtomicOrd::Release];
    let update = Some(AtomicInstructions::ReadModifyWrite);
    assert_eq!(judge(update, &vec![AtomicOrd::AcqRel], &min), None);
    assert_eq!(
        judge(update, &vec![AtomicOrd::SeqCst], &min),
        Some(Finding::Stronger(Sufficient::AcqRel))
    );
    assert_eq!(
        judge(update, &vec![AtomicOrd::Release], &min),
        Some(Finding::Weaker(Sufficient::AcqRel))
    );
    let exchange = Some(AtomicInstructions::CompareExchange);
    assert_eq!(judge(exchange, &vec![AtomicOrd::AcqRel, AtomicOrd::Acquire], &min), None);
    assert_eq!(judge(exchange, &vec![AtomicOrd::AcqRel, AtomicOrd::Release], &min), None);
    assert_eq!(
        judge(exchange, &vec![AtomicOrd::AcqRel, AtomicOrd::Relaxed], &min),
        Some(Finding::Weaker(Sufficient::AcqRelAndAcquire))
    );
    assert_eq!(
        judge(exchange, &vec![AtomicOrd::Relaxed, AtomicOrd::SeqCst], &min),
        Some(Finding::Weaker(Sufficient::AcqRelAndAcquire))
    );
    assert_eq!(
        judge(exchange, &vec![AtomicOrd::SeqCst, AtomicOrd::Acquire], &min),
        Some(Finding::Stronger(Sufficient::AcqRelAndAcquire))
    );
    assert_eq!(
        judge(exchange, &vec![AtomicOrd::AcqRel, AtomicOrd::SeqCst], &min),
        Some(Finding::Stronger(Sufficient::AcqRelAndAcquire))
    );
    assert_eq!(
        judge(exchange, &vec![AtomicOrd::SeqCst], &min),
        Some(Finding::Stronger(Sufficient::AcqRelAndAcquire))
    );
    assert_eq!(judge(None, &vec![AtomicOrd::AcqRel], &min), None);
}

#[test]
fn explanations_name_the_sufficient_ordering() {
    assert_eq!(
        explanation(Finding::Stronger(Sufficient::One(AtomicOrd::Release))),
        format!("{}Release is sufficient to ensure the correctness of the program", STRONGER)
    );
    assert_eq!(
        explanation(Finding::Weaker(Sufficient::One(AtomicOrd::SeqCst))),
        format!("{}SeqCst is sufficient to ensure the program's correctness.", WEAKER)
    );
    assert_eq!(
        explanation(Finding::Stronger(Sufficient::AcqRel)),
        format!("{}AcqRel is sufficient to ensure the correctness of the program.", STRONGER)
    );
    assert_eq!(
        explanation(Finding::Weaker(Sufficient::AcqRel)),
        format!("{}AcqRel is sufficient to ensure the program's correctness.", WEAKER)
    );
    assert_eq!(
        explanation(Finding::Stronger(Sufficient::AcqRelAndAcquire)),
        "Using an atomic compare_exchange operation with a stronger memory ordering than necessary can lead to unnecessary performance overhead, Using AcqRel and Acquire is sufficient to ensure the correctness of the program"
    );
    assert_eq!(
        explanation(Finding::Weaker(Sufficient::AcqRelAndAcquire)),
        "Using an atomic compare_exchange operation with a weaker memory ordering than necessary can lead to an inconsistent memory state, Using AcqRel and Acquire is sufficient to ensure the correctness of the program"
    );
}

#[test]
fn reports_carry_kind_confidence_and_place() {
    let report = report_of(&"src/a.rs:3:7".to_string(), Finding::Weaker(Sufficient::One(AtomicOrd::Acquire)));
    let Report::AtomicCorrelationViolation(content) = report;
    assert_eq!(content.bug_kind, "AtomicCorrelationViolation");
    assert_eq!(content.possibility, "Possibly");
    assert_eq!(content.diagnosis.atomic, "src/a.rs:3:7");
    assert_eq!(
        content.explanation,
        format!("{}Acquire is sufficient to ensure the program's correctness.", WEAKER)
    );
}

#[test]
fn factors_pair_reads_with_writes() {
    let info = |operate, span: &str| AtomicInfo {
        atomic_place: Some(local(1)),
        atomic_value: vec![],
        atomic_operate: Some(operate),
        caller_instance: 0,
        ordering: vec![AtomicOrd::Relaxed],
        source_info: span.to_string(),
    };
    let partners = vec![
        (info(AtomicInstructions::Store, "w1"), vec![]),
        (info(AtomicInstructions::Load, "r1"), vec![2]),
        (info(AtomicInstructions::CompareExchange, "x1"), vec![]),
        (info(AtomicInstructions::Load, "r2"), vec![]),
        (info(AtomicInstructions::ReadModifyWrite, "x2"), vec![]),
    ];
    let names = |factors: Vec<((AtomicInfo, Vec<usize>), (AtomicInfo, Vec<usize>))>| -> Vec<String> {
        factors.iter().map(|(a, b)| format!("{}-{}", a.0.source_info, b.0.source_info)).collect()
    };
    let expected = vec![
        "r1-w1", "r2-w1", "r1-x1", "r1-x2", "r2-x1", "r2-x2", "x1-x1", "x1-x2", "x2-x1", "x2-x2",
    ];
    let copy: Vec<(AtomicInfo, Vec<usize>)> =
        partners.iter().map(|(i, w)| (i.clone(), w.clone())).collect();
    let factors = AtomicityViolationDetector::get_factors(partners);
    assert_eq!(factors[0].0 .1, vec![2]);
    assert_eq!(names(factors), expected);
    assert_eq!(names(AtomicityViolationDetector::get_atomptr_factors(copy)), expected);
    assert_eq!(names(AtomicityViolationDetector::get_factors(vec![])), Vec::<String>::new());
}

#[test]
fn an_exchange_is_not_paired_with_a_store() {
    let info = |operate, span: &str| AtomicInfo {
        atomic_place: None,
        atomic_value: vec![],
        atomic_operate: Some(operate),
        caller_instance: 0,
        ordering: vec![AtomicOrd::Relaxed],
        source_info: span.to_string(),
    };
    let partners = vec![
        (info(AtomicInstructions::Load, "l"), vec![]),
        (info(AtomicInstructions::Store, "s"), vec![]),
        (info(AtomicInstructions::CompareExchange, "c"), vec![]),
    ];
    let factors = AtomicityViolationDetector::get_factors(partners);
    let names: Vec<String> =
        factors.iter().map(|(a, b)| format!("{}-{}", a.0.source_info, b.0.source_info)).collect();
    assert_eq!(names, vec!["l-s", "l-c", "c-c"]);
}

#[test]
fn operations_are_gathered_into_clusters() {
    let (program, callgraph) = load_and_store("SeqCst", 0, 5);
    let mut detector = AtomicityViolationDetector::new(&program);
    detector.alias_analysis.populate(&program);
    let (pointers, clusters) = detector.gen_atomic_info(vec![1, 2], vec![], &callgraph);
    assert_eq!(pointers.len(), 0);
    let shape: Vec<(String, Vec<(&str, Vec<usize>)>)> = clusters
        .iter()
        .map(|(key, members)| {
            (
                format!("{:?}", key),
                members.iter().map(|(i, w)| (i.source_info.as_str(), w.clone())).collect(),
            )
        })
        .collect();
    // Six variables: the load at 2 looks two locals ahead, the store at 5
    // two locals back.
    assert_eq!(
        shape,
        vec![
            ("Field(Field(0))".to_string(), vec![("src/demo.rs:10:5", vec![2, 3])]),
            ("Field(Field(5))".to_string(), vec![("src/demo.rs:20:5", vec![3, 4])]),
        ]
    );
    let (program, callgraph) = pointer_store_and_load("Relaxed", false);
    let mut detector = AtomicityViolationDetector::new(&program);
    detector.alias_analysis.populate(&program);
    let (pointers, clusters) =
        detector.gen_atomic_info(vec![], vec![("Node".to_string(), vec![1, 2])], &callgraph);
    assert_eq!(clusters.len(), 0);
    let windows: Vec<Vec<(&str, Vec<usize>)>> = pointers
        .iter()
        .map(|c| c.iter().map(|(i, w)| (i.source_info.as_str(), w.clone())).collect())
        .collect();
    assert_eq!(
        windows,
        vec![vec![("src/demo.rs:50:9", vec![3, 5]), ("src/demo.rs:60:9", vec![9])]]
    );
}

#[test]
fn a_wider_window_finds_more() {
    let (program, callgraph) = exchange_and_store("Relaxed", 1, 1);
    let mut detector = AtomicityViolationDetector::new(&program);
    detector.window_percent = 0;
    // Without a window nothing is correlated, and nothing is required.
    assert_eq!(detector.detect(&callgraph), vec![]);
}

#[test]
fn ill_formed_programs_are_recognised() {
    let (mut program, callgraph) = load_and_store("SeqCst", 0, 0);
    assert!(program.is_wf());
    program.functions[0].flow.successors[1].push(7);
    assert!(!program.is_wf());
    let (program, mut callgraph2) = load_and_store("SeqCst", 0, 0);
    callgraph2.edges[0].source = 9;
    assert!(!callgraph2.is_consistent(&program));
    assert!(callgraph.is_consistent(&program));
}

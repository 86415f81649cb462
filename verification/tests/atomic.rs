use atomvchecker::atomic::{
    call_shape, read_call, same_orderings, same_places, AtomicCollector, AtomicInfo,
    AtomicInstructions, CallShape,
};
use atomvchecker::callgraph::{
    callsite_locations, CallEdge, CallGraph, CallGraphNode, CallSiteLocation, Function, Instance,
    Location, Program,
};
use atomvchecker::controldep::FlowGraph;
use atomvchecker::ir::{
    BasicBlock, Body, Callee, Constant, LocalTy, Operand, Place, ProjectionElem, Rvalue, Statement,
    Terminator,
};
use atomvchecker::ordering::AtomicOrd;

fn local(l: usize) -> Place {
    Place::from_local(l)
}

fn literal(text: &str) -> Operand {
    Operand::Constant(Constant { text: text.to_string(), value: None })
}

fn assign_literal(place: usize, text: &str) -> Statement {
    Statement::Assign(local(place), Rvalue::Use(literal(text)))
}

fn call_block(statements: Vec<Statement>, args: Vec<Operand>, destination: usize, span: &str) -> BasicBlock {
    BasicBlock {
        statements,
        terminator: Terminator::Call {
            func: Some(Callee {
                path: "f".to_string(),
                path_with_args: "f".to_string(),
                type_args: vec![],
            }),
            args,
            destination: local(destination),
            span: span.to_string(),
        },
    }
}

fn moved(locals: &[usize]) -> Vec<Operand> {
    locals.iter().map(|l| Operand::Move(local(*l))).collect()
}

fn instance(path: &str) -> Instance {
    Instance { def_id: 0, path: path.to_string() }
}

#[test]
fn operations_are_named_by_the_end_of_the_path() {
    let kind = |path: &str| AtomicInstructions::from_instance(&instance(path));
    assert_eq!(kind("std::sync::atomic::AtomicUsize::load"), Some(AtomicInstructions::Load));
    assert_eq!(kind("std::sync::atomic::AtomicUsize::store"), Some(AtomicInstructions::Store));
    for path in ["a::compare_exchange", "a::compare_exchange_weak", "a::fetch_update"] {
        assert_eq!(kind(path), Some(AtomicInstructions::CompareExchange));
    }
    for path in [
        "a::swap",
        "a::fetch_add",
        "a::fetch_sub",
        "a::fetch_and",
        "a::fetch_or",
        "a::fetch_xor",
        "a::fetch_max",
        "a::compare_and_swap",
        "std::sync::atomic::AtomicUsize::fetch_and",
    ] {
        assert_eq!(kind(path), Some(AtomicInstructions::ReadModifyWrite));
    }
    assert_eq!(kind("a::fetch_min"), None);
    assert_eq!(kind("a::fetch_nand"), None);
    assert_eq!(kind("a::new"), None);
    assert_eq!(kind(""), None);
}

#[test]
fn orderings_are_read_off_the_first_literal() {
    let block = call_block(
        vec![
            Statement::Other,
            assign_literal(4, "const 1_usize"),
            Statement::Assign(local(5), Rvalue::Use(Operand::Copy(local(4)))),
            assign_literal(5, "const std::sync::atomic::Ordering::Release"),
            assign_literal(5, "const std::sync::atomic::Ordering::SeqCst"),
            assign_literal(6, "const AcqRel"),
            assign_literal(7, "Relaxed"),
            assign_literal(8, "const Acquire"),
        ],
        vec![],
        0,
        "",
    );
    assert_eq!(AtomicOrd::from_ordering(&block, &local(5)), Some(AtomicOrd::Release));
    assert_eq!(AtomicOrd::from_ordering(&block, &local(6)), Some(AtomicOrd::AcqRel));
    assert_eq!(AtomicOrd::from_ordering(&block, &local(7)), Some(AtomicOrd::Relaxed));
    assert_eq!(AtomicOrd::from_ordering(&block, &local(8)), Some(AtomicOrd::Acquire));
    assert_eq!(AtomicOrd::from_ordering(&block, &local(4)), None);
    assert_eq!(AtomicOrd::from_ordering(&block, &local(9)), None);
    let field = Place { local: 5, projection: vec![ProjectionElem::Field(0)] };
    assert_eq!(AtomicOrd::from_ordering(&block, &field), Some(AtomicOrd::Release));
}

#[test]
fn shapes_follow_the_kind() {
    assert_eq!(
        call_shape(AtomicInstructions::CompareExchange, "a::compare_exchange"),
        CallShape { reads: true, written: Some(2), ordering: 3, failure_ordering: Some(4) }
    );
    assert_eq!(
        call_shape(AtomicInstructions::Load, "a::load"),
        CallShape { reads: true, written: None, ordering: 1, failure_ordering: None }
    );
    assert_eq!(
        call_shape(AtomicInstructions::Store, "a::store"),
        CallShape { reads: false, written: Some(1), ordering: 2, failure_ordering: None }
    );
    assert_eq!(
        call_shape(AtomicInstructions::ReadModifyWrite, "a::fetch_add"),
        CallShape { reads: true, written: Some(1), ordering: 2, failure_ordering: None }
    );
    assert_eq!(
        call_shape(AtomicInstructions::ReadModifyWrite, "a::compare_and_swap"),
        CallShape { reads: true, written: Some(2), ordering: 3, failure_ordering: None }
    );
}

#[test]
fn a_load_is_read_off_its_call() {
    let block = call_block(vec![assign_literal(5, "const Acquire")], moved(&[4, 5]), 3, "src/a.rs:1:2");
    assert_eq!(
        read_call("std::sync::atomic::AtomicUsize::load", &block, 7),
        Some(AtomicInfo {
            atomic_place: Some(local(4)),
            atomic_value: vec![local(3)],
            atomic_operate: Some(AtomicInstructions::Load),
            caller_instance: 7,
            ordering: vec![AtomicOrd::Acquire],
            source_info: "src/a.rs:1:2".to_string(),
        })
    );
}

#[test]
fn a_store_is_read_off_its_call() {
    let block = call_block(vec![assign_literal(6, "const Release")], moved(&[4, 5, 6]), 3, "s");
    let info = read_call("std::sync::atomic::AtomicBool::store", &block, 0).unwrap();
    assert_eq!(info.atomic_place, Some(local(4)));
    assert_eq!(info.atomic_value, vec![local(5)]);
    assert_eq!(info.atomic_operate, Some(AtomicInstructions::Store));
    assert_eq!(info.ordering, vec![AtomicOrd::Release]);
    let literal_value = call_block(
        vec![assign_literal(6, "const Release")],
        vec![Operand::Move(local(4)), literal("const true"), Operand::Move(local(6))],
        3,
        "s",
    );
    let info = read_call("std::sync::atomic::AtomicBool::store", &literal_value, 0).unwrap();
    assert_eq!(info.atomic_value, vec![]);
}

#[test]
fn an_exchange_is_read_off_its_call() {
    let statements = vec![assign_literal(20, "const AcqRel"), assign_literal(21, "const Relaxed")];
    let block = call_block(statements, moved(&[15, 16, 17, 20, 21]), 14, "s");
    let info = read_call("std::sync::atomic::AtomicPtr::<W>::compare_exchange", &block, 1).unwrap();
    assert_eq!(info.atomic_place, Some(local(15)));
    assert_eq!(info.atomic_value, vec![local(14), local(17)]);
    assert_eq!(info.atomic_operate, Some(AtomicInstructions::CompareExchange));
    assert_eq!(info.ordering, vec![AtomicOrd::AcqRel, AtomicOrd::Relaxed]);
}

#[test]
fn an_exchange_with_an_ordering_that_is_not_fixed_is_not_recorded() {
    let args = || moved(&[15, 16, 17, 20, 21]);
    let failure_only = call_block(vec![assign_literal(21, "const Relaxed")], args(), 14, "s");
    assert_eq!(read_call("a::compare_exchange_weak", &failure_only, 1), None);
    let success_only = call_block(vec![assign_literal(20, "const AcqRel")], args(), 14, "s");
    assert_eq!(read_call("a::compare_exchange", &success_only, 1), None);
    assert_eq!(read_call("a::fetch_update", &success_only, 1), None);
    let neither = call_block(vec![], args(), 14, "s");
    assert_eq!(read_call("a::compare_exchange", &neither, 1), None);
    let both = call_block(
        vec![assign_literal(21, "const Relaxed"), assign_literal(20, "const AcqRel")],
        args(),
        14,
        "s",
    );
    let info = read_call("a::compare_exchange", &both, 1).unwrap();
    assert_eq!(info.ordering, vec![AtomicOrd::AcqRel, AtomicOrd::Relaxed]);
}

#[test]
fn a_read_modify_write_is_read_off_its_call() {
    let block = call_block(vec![assign_literal(5, "const SeqCst")], moved(&[3, 4, 5]), 2, "s");
    let info = read_call("std::sync::atomic::AtomicUsize::fetch_add", &block, 1).unwrap();
    assert_eq!(info.atomic_value, vec![local(2), local(4)]);
    assert_eq!(info.atomic_operate, Some(AtomicInstructions::ReadModifyWrite));
    assert_eq!(info.ordering, vec![AtomicOrd::SeqCst]);
    let old = call_block(vec![assign_literal(6, "const SeqCst")], moved(&[3, 4, 5, 6]), 2, "s");
    let info = read_call("std::sync::atomic::AtomicUsize::compare_and_swap", &old, 1).unwrap();
    assert_eq!(info.atomic_value, vec![local(2), local(5)]);
    assert_eq!(info.ordering, vec![AtomicOrd::SeqCst]);
}

#[test]
fn calls_that_are_not_recorded() {
    let good = || call_block(vec![assign_literal(5, "const Acquire")], moved(&[4, 5]), 3, "src/a.rs:1:2");
    assert!(read_call("a::load", &good(), 0).is_some());
    assert_eq!(read_call("a::new", &good(), 0), None);
    let no_ordering = call_block(vec![], moved(&[4, 5]), 3, "src/a.rs:1:2");
    assert_eq!(read_call("a::load", &no_ordering, 0), None);
    let too_few = call_block(vec![assign_literal(5, "const Acquire")], moved(&[4]), 3, "s");
    assert_eq!(read_call("a::load", &too_few, 0), None);
    let literal_ordering = call_block(
        vec![],
        vec![Operand::Move(local(4)), literal("const Acquire")],
        3,
        "s",
    );
    assert_eq!(read_call("a::load", &literal_ordering, 0), None);
    let foreign = call_block(
        vec![assign_literal(5, "const Acquire")],
        moved(&[4, 5]),
        3,
        "/root/.cargo/registry/x.rs:1:2",
    );
    assert_eq!(read_call("a::load", &foreign, 0), None);
    let no_call = BasicBlock { statements: vec![assign_literal(5, "const Acquire")], terminator: Terminator::Other };
    assert_eq!(read_call("a::load", &no_call, 0), None);
}

#[test]
fn operations_compare_by_what_they_hold() {
    let block = call_block(vec![assign_literal(5, "const Acquire")], moved(&[4, 5]), 3, "s");
    let a = read_call("a::load", &block, 0).unwrap();
    let b = a.clone();
    assert!(a.same(&b));
    assert_eq!(a, b);
    let mut c = a.clone();
    c.source_info = "t".to_string();
    assert!(!a.same(&c));
    let mut d = a.clone();
    d.ordering = vec![AtomicOrd::Release];
    assert!(!a.same(&d));
    let mut e = a.clone();
    e.atomic_place = None;
    assert!(!a.same(&e));
    assert!(same_places(&vec![local(1), local(2)], &vec![local(1), local(2)]));
    assert!(!same_places(&vec![local(1), local(2)], &vec![local(2), local(1)]));
    assert!(!same_places(&vec![local(1)], &vec![local(1), local(1)]));
    assert!(same_orderings(&vec![], &vec![]));
    assert!(!same_orderings(&vec![AtomicOrd::Acquire], &vec![AtomicOrd::Release]));
}

fn two_callers() -> (Program, CallGraph) {
    let body = |blocks| Function {
        body: Body { arg_count: 0, local_decls: vec![LocalTy::Other; 8], blocks },
        flow: FlowGraph { successors: vec![], start_node: 0, post_dominators: vec![] },
        dependents: vec![],
        uses: vec![],
    };
    let first = body(vec![
        call_block(vec![assign_literal(5, "const Acquire")], moved(&[4, 5]), 3, "src/a.rs:1:1"),
        call_block(vec![], moved(&[4, 5]), 3, "src/a.rs:2:1"),
        call_block(vec![assign_literal(5, "const Relaxed")], moved(&[4, 5]), 3, "src/a.rs:3:1"),
    ]);
    let second = body(vec![call_block(
        vec![assign_literal(2, "const SeqCst")],
        moved(&[1, 2]),
        3,
        "src/b.rs:1:1",
    )]);
    let program = Program { functions: vec![body(vec![]), first, second] };
    let node = |def_id, path: &str| CallGraphNode::WithBody(Instance { def_id, path: path.to_string() });
    let site = |block| CallSiteLocation::Direct(Location { block, statement_index: 0 });
    let callgraph = CallGraph {
        nodes: vec![
            CallGraphNode::WithoutBody(Instance {
                def_id: 0,
                path: "std::sync::atomic::AtomicUsize::load".to_string(),
            }),
            node(1, "demo::first"),
            node(2, "demo::second"),
        ],
        edges: vec![
            CallEdge { source: 1, target: 2, callsites: vec![site(0)] },
            CallEdge { source: 2, target: 0, callsites: vec![site(0)] },
            CallEdge {
                source: 1,
                target: 0,
                callsites: vec![site(0), CallSiteLocation::ClosureDef(3), site(1), site(2), site(9)],
            },
        ],
    };
    (program, callgraph)
}

#[test]
fn call_sites_are_looked_up_by_the_edge() {
    let (program, callgraph) = two_callers();
    assert!(callgraph.is_consistent(&program));
    let at = |block| Location { block, statement_index: 0 };
    assert_eq!(callsite_locations(&callgraph, 1, 0), Some(vec![at(0), at(1), at(2), at(9)]));
    assert_eq!(callsite_locations(&callgraph, 2, 0), Some(vec![at(0)]));
    assert_eq!(callsite_locations(&callgraph, 0, 1), None);
    assert_eq!(callgraph.index_to_instance(1), Some(&callgraph.nodes[1]));
    assert_eq!(callgraph.index_to_instance(3), None);
    let mut broken = two_callers().1;
    broken.edges[0].target = 3;
    assert!(!broken.is_consistent(&program));
    let mut broken = two_callers().1;
    broken.nodes.push(CallGraphNode::WithoutBody(Instance { def_id: 3, path: String::new() }));
    assert!(!broken.is_consistent(&program));
}

#[test]
fn two_edges_between_the_same_pair_are_not_consistent() {
    let (program, callgraph) = two_callers();
    assert!(callgraph.has_distinct_edges());
    let mut doubled = two_callers().1;
    doubled.edges.push(CallEdge {
        source: 2,
        target: 0,
        callsites: vec![CallSiteLocation::Direct(Location { block: 0, statement_index: 0 })],
    });
    assert!(!doubled.has_distinct_edges());
    assert!(!doubled.is_consistent(&program));
    let mut reversed = two_callers().1;
    reversed.edges.push(CallEdge { source: 0, target: 2, callsites: vec![] });
    assert!(reversed.has_distinct_edges());
    assert!(reversed.is_consistent(&program));
}

#[test]
fn the_collector_records_the_calls_of_every_caller() {
    let (program, callgraph) = two_callers();
    let operation = callgraph.nodes[0].instance();
    let mut collector = AtomicCollector::new(&program, 0, operation);
    collector.analyze(&callgraph);
    let seen: Vec<(usize, &str, Vec<AtomicOrd>)> = collector
        .atomics
        .iter()
        .map(|i| (i.caller_instance, i.source_info.as_str(), i.ordering.clone()))
        .collect();
    assert_eq!(
        seen,
        vec![
            (2, "src/b.rs:1:1", vec![AtomicOrd::SeqCst]),
            (1, "src/a.rs:1:1", vec![AtomicOrd::Acquire]),
            (1, "src/a.rs:3:1", vec![AtomicOrd::Relaxed]),
        ]
    );
    let mut other = AtomicCollector::new(&program, 2, callgraph.nodes[2].instance());
    other.analyze(&callgraph);
    assert_eq!(other.atomics, vec![]);
}

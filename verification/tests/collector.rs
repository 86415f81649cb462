use atomvchecker::ir::{
    BasicBlock, Body, Callee, Constant, LocalTy, Operand, Place, ProjectionElem, Rvalue, Statement,
    Terminator,
};
use atomvchecker::pointsto::collector::{
    call_policy, AccessPattern, CallEffect, CallPolicy, ConstraintGraphCollector,
};
use atomvchecker::pointsto::graph::ConstraintGraph;
use atomvchecker::pointsto::node::{ConstraintEdge, ConstraintNode, Edge};

fn local(l: usize) -> Place {
    Place::from_local(l)
}

fn place(l: usize, projection: Vec<ProjectionElem>) -> Place {
    Place { local: l, projection }
}

fn constant(text: &str) -> Constant {
    Constant { text: text.to_string(), value: None }
}

fn callee(path: &str, type_args: &[&str]) -> Callee {
    Callee {
        path: path.to_string(),
        path_with_args: path.to_string(),
        type_args: type_args.iter().map(|s| s.to_string()).collect(),
    }
}

fn call(path: &str, args: Vec<Operand>, destination: Place) -> Terminator {
    Terminator::Call { func: Some(callee(path, &[])), args, destination, span: "src/lib.rs:1:1".to_string() }
}

fn body_of(blocks: Vec<BasicBlock>) -> Body {
    Body { arg_count: 0, local_decls: vec![LocalTy::Other; 16], blocks }
}

fn collect(blocks: Vec<BasicBlock>) -> ConstraintGraph {
    let body = body_of(blocks);
    let mut collector = ConstraintGraphCollector::new(&body);
    collector.visit_body();
    collector.finish()
}

fn collect_statement(statement: Statement) -> ConstraintGraph {
    collect(vec![BasicBlock { statements: vec![statement], terminator: Terminator::Other }])
}

fn collect_call(terminator: Terminator) -> ConstraintGraph {
    collect(vec![BasicBlock { statements: vec![], terminator }])
}

fn edge(source: usize, target: usize, kind: ConstraintEdge) -> Edge {
    Edge { source, target, kind }
}

#[test]
fn places_are_direct_or_indirect() {
    assert_eq!(ConstraintGraphCollector::process_place(&local(3)), AccessPattern::Direct(local(3)));
    assert_eq!(
        ConstraintGraphCollector::process_place(&place(3, vec![ProjectionElem::Field(1)])),
        AccessPattern::Direct(place(3, vec![ProjectionElem::Field(1)]))
    );
    assert_eq!(
        ConstraintGraphCollector::process_place(&place(
            3,
            vec![ProjectionElem::Deref, ProjectionElem::Field(1)]
        )),
        AccessPattern::Indirect(place(3, vec![ProjectionElem::Field(1)]))
    );
}

#[test]
fn right_hand_sides_are_classified() {
    let p = ConstraintGraphCollector::process_rvalue;
    assert_eq!(p(&Rvalue::Use(Operand::Copy(local(1)))), Some(AccessPattern::Direct(local(1))));
    assert_eq!(
        p(&Rvalue::Cast(Operand::Move(place(1, vec![ProjectionElem::Deref])))),
        Some(AccessPattern::Indirect(local(1)))
    );
    assert_eq!(
        p(&Rvalue::Repeat(Operand::Constant(constant("const 1_i32")))),
        Some(AccessPattern::Constant(constant("const 1_i32")))
    );
    assert_eq!(p(&Rvalue::Ref(local(2))), Some(AccessPattern::Ref(local(2))));
    assert_eq!(p(&Rvalue::AddressOf(local(2))), Some(AccessPattern::Ref(local(2))));
    assert_eq!(p(&Rvalue::CopyForDeref(local(2))), Some(AccessPattern::Ref(local(2))));
    assert_eq!(
        p(&Rvalue::Aggregate(vec![Operand::Move(local(7)), Operand::Move(local(8))])),
        Some(AccessPattern::Initialize(local(7)))
    );
    assert_eq!(p(&Rvalue::Aggregate(vec![Operand::Constant(constant("c")), Operand::Move(local(8))])), None);
    assert_eq!(p(&Rvalue::Aggregate(vec![])), None);
    assert_eq!(p(&Rvalue::Other), None);
}

#[test]
fn address_of_a_place_is_an_address_edge() {
    let graph = collect_statement(Statement::Assign(local(1), Rvalue::Ref(local(2))));
    assert_eq!(graph.nodes(), vec![ConstraintNode::Place(local(1)), ConstraintNode::Place(local(2))]);
    assert_eq!(graph.edges(), vec![edge(1, 0, ConstraintEdge::Address)]);
}

#[test]
fn address_of_a_dereference_is_a_load_and_a_copy() {
    let graph = collect_statement(Statement::Assign(
        local(1),
        Rvalue::Ref(place(2, vec![ProjectionElem::Deref])),
    ));
    assert_eq!(graph.nodes(), vec![ConstraintNode::Place(local(2)), ConstraintNode::Place(local(1))]);
    assert_eq!(graph.edges(), vec![edge(0, 0, ConstraintEdge::Load), edge(0, 1, ConstraintEdge::Copy)]);
}

#[test]
fn assignments_give_copy_load_and_store_edges() {
    let copy = collect_statement(Statement::Assign(local(1), Rvalue::Use(Operand::Copy(local(2)))));
    assert_eq!(copy.edges(), vec![edge(1, 0, ConstraintEdge::Copy)]);

    let load = collect_statement(Statement::Assign(
        local(1),
        Rvalue::Use(Operand::Copy(place(2, vec![ProjectionElem::Deref]))),
    ));
    assert_eq!(load.nodes(), vec![ConstraintNode::Place(local(1)), ConstraintNode::Place(local(2))]);
    assert_eq!(load.edges(), vec![edge(1, 0, ConstraintEdge::Load)]);

    let store = collect_statement(Statement::Assign(
        place(1, vec![ProjectionElem::Deref]),
        Rvalue::Use(Operand::Move(local(2))),
    ));
    assert_eq!(store.nodes(), vec![ConstraintNode::Place(local(1)), ConstraintNode::Place(local(2))]);
    assert_eq!(store.edges(), vec![edge(1, 0, ConstraintEdge::Store)]);
}

#[test]
fn literals_give_constant_nodes() {
    let copy = collect_statement(Statement::Assign(
        local(1),
        Rvalue::Use(Operand::Constant(constant("const 5_usize"))),
    ));
    assert_eq!(
        copy.nodes(),
        vec![ConstraintNode::Place(local(1)), ConstraintNode::Constant(constant("const 5_usize"))]
    );
    assert_eq!(copy.edges(), vec![edge(1, 0, ConstraintEdge::Copy)]);
    let store = collect_statement(Statement::Assign(
        place(1, vec![ProjectionElem::Deref]),
        Rvalue::Use(Operand::Constant(constant("const 5_usize"))),
    ));
    assert_eq!(store.edges(), vec![edge(1, 0, ConstraintEdge::Store)]);
}

#[test]
fn aggregates_give_a_construct_node() {
    for lhs in [local(1), place(1, vec![ProjectionElem::Deref])] {
        let graph = collect_statement(Statement::Assign(
            lhs,
            Rvalue::Aggregate(vec![Operand::Move(local(7)), Operand::Move(local(8))]),
        ));
        assert_eq!(
            graph.nodes(),
            vec![ConstraintNode::Place(local(1)), ConstraintNode::Construct(local(7))]
        );
        assert_eq!(graph.edges(), vec![edge(1, 0, ConstraintEdge::Address)]);
    }
}

#[test]
fn statements_without_pointers_give_nothing() {
    let graph = collect(vec![BasicBlock {
        statements: vec![
            Statement::Other,
            Statement::Assign(local(1), Rvalue::Other),
            Statement::Assign(place(1, vec![ProjectionElem::Deref]), Rvalue::Ref(local(2))),
        ],
        terminator: Terminator::Other,
    }]);
    assert_eq!(graph.node_count(), 0);
    assert_eq!(graph.edge_count(), 0);
}

#[test]
fn call_policies_follow_the_names() {
    let policy = |path: &str, args: &[&str]| call_policy(&callee(path, args));
    assert_eq!(
        policy("std::clone::Clone::clone", &["std::sync::Arc<u8>"]),
        CallPolicy { alias: true, effect: CallEffect::Nothing }
    );
    assert_eq!(
        policy("std::ptr::read::<u8>", &[]),
        CallPolicy { alias: true, effect: CallEffect::ForwardFirst }
    );
    assert_eq!(
        policy("std::ptr::mut_ptr::<impl *mut T>::addr", &[]),
        CallPolicy { alias: true, effect: CallEffect::ForwardFirst }
    );
    assert_eq!(
        policy("std::sync::atomic::AtomicUsize::load", &[]),
        CallPolicy { alias: false, effect: CallEffect::ForwardFirst }
    );
    assert_eq!(
        policy("core::slice::<impl [T]>::get_unchecked", &[]),
        CallPolicy { alias: false, effect: CallEffect::ForwardFirst }
    );
    assert_eq!(
        policy("std::boxed::Box::<T>::from_raw", &[]),
        CallPolicy { alias: false, effect: CallEffect::SmartPointer }
    );
    assert_eq!(
        policy("std::ptr::mut_ptr::<impl *mut T>::is_null", &[]),
        CallPolicy { alias: false, effect: CallEffect::Nothing }
    );
    assert_eq!(policy("demo::helper", &[]), CallPolicy { alias: false, effect: CallEffect::Opaque });
}

#[test]
fn alias_calls_give_a_copy_and_an_alias_edge() {
    let graph = collect_call(Terminator::Call {
        func: Some(callee("std::clone::Clone::clone", &["std::sync::Arc<u8>"])),
        args: vec![Operand::Move(local(2))],
        destination: local(1),
        span: "src/lib.rs:1:1".to_string(),
    });
    assert_eq!(graph.nodes(), vec![ConstraintNode::Place(local(1)), ConstraintNode::Place(local(2))]);
    assert_eq!(
        graph.edges(),
        vec![edge(1, 0, ConstraintEdge::Copy), edge(1, 0, ConstraintEdge::AliasCopy)]
    );
}

#[test]
fn unknown_calls_with_one_place_copy_and_mark() {
    let graph = collect_call(call("demo::helper", vec![Operand::Move(local(2))], local(1)));
    assert_eq!(
        graph.nodes(),
        vec![
            ConstraintNode::Place(local(1)),
            ConstraintNode::Place(local(2)),
            ConstraintNode::FunctionRet(local(2)),
            ConstraintNode::ParameterInto(local(1)),
        ]
    );
    assert_eq!(
        graph.edges(),
        vec![
            edge(1, 0, ConstraintEdge::Copy),
            edge(2, 0, ConstraintEdge::Address),
            edge(3, 1, ConstraintEdge::Address),
        ]
    );
}

#[test]
fn unknown_calls_mark_their_first_place() {
    let graph = collect_call(call(
        "demo::helper",
        vec![Operand::Constant(constant("const 1_u8")), Operand::Copy(local(3)), Operand::Copy(local(4))],
        local(1),
    ));
    assert_eq!(
        graph.nodes(),
        vec![
            ConstraintNode::Place(local(1)),
            ConstraintNode::FunctionRet(local(3)),
            ConstraintNode::Place(local(3)),
            ConstraintNode::ParameterInto(local(1)),
        ]
    );
    assert_eq!(
        graph.edges(),
        vec![edge(1, 0, ConstraintEdge::Address), edge(3, 2, ConstraintEdge::Address)]
    );
}

#[test]
fn atomic_calls_forward_their_first_argument() {
    let graph = collect_call(call(
        "std::sync::atomic::AtomicUsize::store",
        vec![Operand::Move(local(2)), Operand::Move(local(3)), Operand::Move(local(4))],
        local(1),
    ));
    assert_eq!(graph.nodes(), vec![ConstraintNode::Place(local(1)), ConstraintNode::Place(local(2))]);
    assert_eq!(graph.edges(), vec![edge(1, 0, ConstraintEdge::Copy)]);
}

#[test]
fn smart_pointer_calls_mark_the_argument() {
    let graph = collect_call(call(
        "std::boxed::Box::<T>::from_raw",
        vec![Operand::Move(local(2)), Operand::Move(local(3))],
        local(1),
    ));
    assert_eq!(
        graph.nodes(),
        vec![ConstraintNode::Place(local(2)), ConstraintNode::SmartPointer(local(1))]
    );
    assert_eq!(graph.edges(), vec![edge(1, 0, ConstraintEdge::Address)]);
}

#[test]
fn calls_that_move_no_pointer_give_nothing() {
    let null = collect_call(call(
        "std::ptr::mut_ptr::<impl *mut T>::is_null",
        vec![Operand::Move(local(2)), Operand::Move(local(3))],
        local(1),
    ));
    assert_eq!(null.edge_count(), 0);
    let no_args = collect_call(call("demo::helper", vec![], local(1)));
    assert_eq!(no_args.edge_count(), 0);
    let no_callee = collect_call(Terminator::Call {
        func: None,
        args: vec![Operand::Move(local(2)), Operand::Move(local(3))],
        destination: local(1),
        span: String::new(),
    });
    assert_eq!(no_callee.edge_count(), 0);
}

#[test]
fn parts_of_a_place_are_copied_into_the_place() {
    // _1.0.1 = _2; _1.0 = _3; _1 = _4; _5.0 = _6
    let f = ProjectionElem::Field;
    let graph = collect(vec![BasicBlock {
        statements: vec![
            Statement::Assign(place(1, vec![f(0), f(1)]), Rvalue::Use(Operand::Copy(local(2)))),
            Statement::Assign(place(1, vec![f(0)]), Rvalue::Use(Operand::Copy(local(3)))),
            Statement::Assign(local(1), Rvalue::Use(Operand::Copy(local(4)))),
            Statement::Assign(place(5, vec![f(0)]), Rvalue::Use(Operand::Copy(local(6)))),
        ],
        terminator: Terminator::Other,
    }]);
    // Nodes: 0 = _1.0.1, 1 = _2, 2 = _1.0, 3 = _3, 4 = _1, 5 = _4, 6 = _5.0, 7 = _6.
    assert_eq!(graph.node_count(), 8);
    let edges = graph.edges();
    assert_eq!(
        edges[..4],
        [
            edge(1, 0, ConstraintEdge::Copy),
            edge(3, 2, ConstraintEdge::Copy),
            edge(5, 4, ConstraintEdge::Copy),
            edge(7, 6, ConstraintEdge::Copy),
        ]
    );
    let mut added: Vec<(usize, usize)> = edges[4..].iter().map(|e| (e.source, e.target)).collect();
    added.sort();
    assert_eq!(added, vec![(0, 2), (0, 4), (2, 4)]);
    assert!(edges[4..].iter().all(|e| e.kind == ConstraintEdge::Copy));
}

#[test]
fn a_constraint_that_is_there_is_not_recorded_again() {
    let copy = || Statement::Assign(local(1), Rvalue::Use(Operand::Copy(local(2))));
    let graph = collect(vec![
        BasicBlock { statements: vec![copy(), copy()], terminator: Terminator::Other },
        BasicBlock {
            statements: vec![
                copy(),
                Statement::Assign(
                    local(1),
                    Rvalue::Use(Operand::Copy(place(2, vec![ProjectionElem::Deref]))),
                ),
            ],
            terminator: Terminator::Other,
        },
    ]);
    assert_eq!(graph.node_count(), 2);
    assert_eq!(graph.edges(), vec![edge(1, 0, ConstraintEdge::Copy), edge(1, 0, ConstraintEdge::Load)]);
    // A copy that the statements record is not added once more as a partial copy.
    let own = collect_statement(Statement::Assign(
        local(1),
        Rvalue::Use(Operand::Copy(place(1, vec![ProjectionElem::Field(0)]))),
    ));
    assert_eq!(own.edges(), vec![edge(1, 0, ConstraintEdge::Copy)]);
}

#[test]
fn steps_of_different_kinds_are_different_places() {
    let steps = [
        ProjectionElem::Field(1),
        ProjectionElem::Index(1),
        ProjectionElem::Downcast(1),
        ProjectionElem::ConstantIndex { offset: 1, min_length: 2, from_end: false },
        ProjectionElem::ConstantIndex { offset: 1, min_length: 2, from_end: true },
        ProjectionElem::Subslice { from: 1, to: 2, from_end: false },
        ProjectionElem::OpaqueCast,
    ];
    for (i, a) in steps.iter().enumerate() {
        for (j, b) in steps.iter().enumerate() {
            assert_eq!(place(3, vec![*a]).same(&place(3, vec![*b])), i == j);
        }
        assert!(place(3, vec![*a]).has_field());
        assert_eq!(
            ConstraintGraphCollector::process_place(&place(3, vec![ProjectionElem::Deref, *a])),
            AccessPattern::Indirect(place(3, vec![*a]))
        );
    }
    assert!(!place(3, vec![ProjectionElem::Deref]).has_field());
}

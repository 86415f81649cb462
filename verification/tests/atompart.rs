use atomvchecker::atomic::{AtomicInfo, AtomicInstructions};
use atomvchecker::atompart::{
    add_members, atomptr_interim_window, cluster_key, interim_window, window_reach_of, AtomPart,
    ClusterKey,
};
use atomvchecker::callgraph::{CallGraph, CallGraphNode, Function, Instance, Program};
use atomvchecker::controldep::FlowGraph;
use atomvchecker::correlation::{
    atomptr_side_correlations, first_field, position, side_correlations, CorrelationAnalyzer,
};
use atomvchecker::ir::{
    BasicBlock, Body, Constant, LocalTy, Operand, Place, ProjectionElem, Rvalue, Statement,
    Terminator,
};
use atomvchecker::ordering::AtomicOrd;
use atomvchecker::pointsto::alias::{dereferences, AliasAnalysis, AliasId};
use atomvchecker::pointsto::andersen::{Andersen, PointsToMap};

fn local(l: usize) -> Place {
    Place::from_local(l)
}

fn field(l: usize, f: usize) -> Place {
    Place { local: l, projection: vec![ProjectionElem::Field(f)] }
}

/// `&(*_l).f`
fn field_behind(l: usize, f: usize) -> Rvalue {
    Rvalue::Ref(Place { local: l, projection: vec![ProjectionElem::Deref, ProjectionElem::Field(f)] })
}

fn body_with(arg_count: usize, locals: usize, statements: Vec<Statement>) -> Body {
    let mut local_decls = vec![LocalTy::Other; locals];
    if locals > 1 {
        local_decls[1] = LocalTy::Ref { of_adt: true };
    }
    Body {
        arg_count,
        local_decls,
        blocks: vec![BasicBlock { statements, terminator: Terminator::Other }],
    }
}

fn analyse(body: &Body) -> PointsToMap {
    let mut analysis = Andersen::new(body);
    analysis.analyze();
    analysis.finish()
}

fn info(operate: AtomicInstructions, atomic: usize, values: &[usize]) -> AtomicInfo {
    AtomicInfo {
        atomic_place: Some(local(atomic)),
        atomic_value: values.iter().map(|l| local(*l)).collect(),
        atomic_operate: Some(operate),
        caller_instance: 0,
        ordering: vec![AtomicOrd::Relaxed],
        source_info: "s".to_string(),
    }
}

#[test]
fn reach_is_the_rounded_share() {
    assert_eq!(window_reach_of(10, 30), 3);
    assert_eq!(window_reach_of(5, 30), 2);
    assert_eq!(window_reach_of(4, 30), 1);
    assert_eq!(window_reach_of(1, 30), 0);
    assert_eq!(window_reach_of(2, 30), 1);
    assert_eq!(window_reach_of(15, 30), 5);
    assert_eq!(window_reach_of(0, 30), 0);
    assert_eq!(window_reach_of(10, 0), 0);
    assert_eq!(window_reach_of(10, 100), 10);
    assert_eq!(window_reach_of(10, 250), 10);
    assert_eq!(window_reach_of(usize::MAX, usize::MAX), usize::MAX);
}

#[test]
fn a_store_looks_back() {
    // One parameter, ten variables: the locals 2 to 11.
    let body = body_with(1, 12, vec![]);
    let window = |l| interim_window(&body, AtomicInstructions::Store, l, 30);
    assert_eq!(window(7), vec![4, 5, 6]);
    assert_eq!(window(3), vec![2]);
    assert_eq!(window(2), vec![]);
    assert_eq!(window(11), vec![8, 9, 10]);
    // A local that is no variable counts as the first variable.
    assert_eq!(window(1), vec![]);
    assert_eq!(window(40), vec![]);
}

#[test]
fn a_load_looks_ahead() {
    let body = body_with(1, 12, vec![]);
    let window = |l| interim_window(&body, AtomicInstructions::Load, l, 30);
    assert_eq!(window(5), vec![6, 7]);
    assert_eq!(window(2), vec![2, 3, 4]);
    assert_eq!(window(10), vec![11]);
    assert_eq!(window(11), vec![]);
    assert_eq!(interim_window(&body, AtomicInstructions::Load, 5, 0), vec![]);
}

#[test]
fn an_exchange_looks_both_ways() {
    let body = body_with(1, 12, vec![]);
    for operate in [AtomicInstructions::CompareExchange, AtomicInstructions::ReadModifyWrite] {
        let window = |l| interim_window(&body, operate, l, 30);
        assert_eq!(window(6), vec![3, 4, 5, 6, 7]);
        assert_eq!(window(2), vec![2, 3]);
        assert_eq!(window(11), vec![8, 9, 10]);
        assert_eq!(interim_window(&body, operate, 6, 0), vec![]);
        assert_eq!(interim_window(&body, operate, 6, 100), vec![2, 3, 4, 5, 6, 7, 8, 9, 10]);
    }
}

#[test]
fn bodies_without_variables_have_empty_windows() {
    for locals in [0, 1, 2] {
        let body = Body { arg_count: 1, local_decls: vec![LocalTy::Other; locals], blocks: vec![] };
        for operate in [
            AtomicInstructions::Store,
            AtomicInstructions::Load,
            AtomicInstructions::CompareExchange,
        ] {
            assert_eq!(interim_window(&body, operate, 0, 30), vec![]);
        }
    }
}

#[test]
fn aggregates_are_told_by_the_type_of_the_local() {
    let mut body = body_with(0, 7, vec![]);
    body.local_decls = vec![
        LocalTy::Adt,
        LocalTy::Array { of_adt: true },
        LocalTy::Slice { of_adt: false },
        LocalTy::Ref { of_adt: true },
        LocalTy::RawPtr { of_adt: true },
        LocalTy::RawPtr { of_adt: false },
        LocalTy::Other,
    ];
    let answers: Vec<bool> = (0..8).map(|l| AtomPart::from_adt(&body, &local(l))).collect();
    assert_eq!(answers, vec![true, true, false, true, true, false, false, false]);
}

#[test]
fn the_cluster_key_is_the_field_of_the_atomic_variable() {
    let body = body_with(1, 6, vec![
        Statement::Assign(local(2), field_behind(1, 3)),
        Statement::Assign(local(4), Rvalue::Ref(local(3))),
        Statement::Assign(
            local(5),
            Rvalue::Use(Operand::Constant(Constant {
                text: "const COUNTER".to_string(),
                value: Some("alloc7".to_string()),
            })),
        ),
    ]);
    let pts = analyse(&body);
    assert_eq!(cluster_key(&pts, &body, 2), Some(ClusterKey::Field(ProjectionElem::Field(3))));
    assert_eq!(cluster_key(&pts, &body, 4), None);
    assert_eq!(cluster_key(&pts, &body, 5), Some(ClusterKey::Constant("alloc7".to_string())));
    assert_eq!(cluster_key(&pts, &body, 9), None);
    let mut plain = body_with(1, 6, vec![Statement::Assign(local(2), field_behind(1, 3))]);
    plain.local_decls[1] = LocalTy::Other;
    assert_eq!(cluster_key(&analyse(&plain), &plain, 2), None);
    assert_eq!(first_field(&pts, 2), Some(field(1, 3)));
    assert_eq!(first_field(&pts, 4), None);
}

#[test]
fn members_join_the_cluster_of_their_key() {
    let mut clusters = vec![];
    let member = |span: &str| {
        let mut i = info(AtomicInstructions::Load, 1, &[]);
        i.source_info = span.to_string();
        (i, vec![1usize])
    };
    let key = |f| ClusterKey::Field(ProjectionElem::Field(f));
    add_members(&mut clusters, key(0), vec![member("a")]);
    add_members(&mut clusters, key(1), vec![member("b")]);
    add_members(&mut clusters, key(0), vec![member("c"), member("d")]);
    add_members(&mut clusters, ClusterKey::Constant("x".to_string()), vec![]);
    let shape: Vec<(ClusterKey, Vec<String>)> = clusters
        .into_iter()
        .map(|(k, members)| (k, members.into_iter().map(|m| m.0.source_info).collect()))
        .collect();
    assert_eq!(
        shape,
        vec![
            (key(0), vec!["a".to_string(), "c".to_string(), "d".to_string()]),
            (key(1), vec!["b".to_string()]),
            (ClusterKey::Constant("x".to_string()), vec![]),
        ]
    );
}

fn one_function(body: Body, dependents: Vec<Vec<usize>>) -> (Program, CallGraph) {
    let program = Program {
        functions: vec![Function {
            body,
            flow: FlowGraph { successors: vec![vec![]], start_node: 0, post_dominators: vec![vec![0]] },
            dependents,
            uses: vec![],
        }],
    };
    let callgraph = CallGraph {
        nodes: vec![CallGraphNode::WithBody(Instance { def_id: 0, path: "demo::run".to_string() })],
        edges: vec![],
    };
    (program, callgraph)
}

#[test]
fn the_part_keeps_the_operation_with_its_window() {
    let (program, callgraph) = one_function(
        body_with(1, 12, vec![Statement::Assign(local(7), field_behind(1, 0))]),
        vec![],
    );
    let mut part = AtomPart::new(&program, info(AtomicInstructions::Store, 7, &[3]));
    assert_eq!(part.window_percent, 30);
    part.infer_interival(&callgraph);
    assert_eq!(part.partner, vec![(info(AtomicInstructions::Store, 7, &[3]), vec![4, 5, 6])]);
    part.window_percent = 50;
    part.infer_interival(&callgraph);
    assert_eq!(part.partner[1].1, vec![2, 3, 4, 5, 6]);
    let mut analysis = AliasAnalysis::new();
    analysis.populate(&program);
    let clusters = part.classify_atomic(&callgraph, &analysis);
    assert_eq!(clusters.len(), 1);
    assert_eq!(clusters[0].0, ClusterKey::Field(ProjectionElem::Field(0)));
    assert_eq!(clusters[0].1, part.partner);
    let mut unknown = AtomPart::new(&program, info(AtomicInstructions::Store, 3, &[3]));
    unknown.infer_interival(&callgraph);
    assert_eq!(unknown.classify_atomic(&callgraph, &analysis), vec![]);
}

#[test]
fn the_window_of_a_pointer_operation_follows_the_data() {
    // _5 = &_3; _6 = &_8; _5 = _6 : the value written, _5, points to _3 and _8.
    let body = body_with(1, 10, vec![
        Statement::Assign(local(5), Rvalue::Ref(local(3))),
        Statement::Assign(local(6), Rvalue::Ref(local(8))),
        Statement::Assign(local(5), Rvalue::Use(Operand::Copy(local(6)))),
    ]);
    let (program, callgraph) = one_function(body, vec![vec![]; 10]);
    let mut function = program.functions.into_iter().next().unwrap();
    function.dependents[4] = vec![9, 2, 4, 5, 7];
    let pts = analyse(&function.body);
    let window = |i: &AtomicInfo| atomptr_interim_window(&pts, &function, i);
    assert_eq!(window(&info(AtomicInstructions::Store, 1, &[5])), vec![3, 5]);
    assert_eq!(window(&info(AtomicInstructions::Load, 1, &[4])), vec![4, 9, 5, 7]);
    assert_eq!(window(&info(AtomicInstructions::CompareExchange, 1, &[4, 5])), vec![3, 5, 4, 9, 7]);
    assert_eq!(window(&info(AtomicInstructions::ReadModifyWrite, 1, &[3, 5])), vec![5, 3]);
    assert_eq!(window(&info(AtomicInstructions::CompareExchange, 1, &[4])), vec![]);
    assert_eq!(window(&info(AtomicInstructions::Store, 1, &[])), vec![]);
    let program = Program { functions: vec![function] };
    let mut analysis = AliasAnalysis::new();
    analysis.populate(&program);
    let mut part = AtomPart::new(&program, info(AtomicInstructions::Store, 1, &[5]));
    part.infer_atomptr_interival(&callgraph, &analysis);
    assert_eq!(part.partner, vec![(info(AtomicInstructions::Store, 1, &[5]), vec![3, 5])]);
}

fn fields_body() -> Body {
    // _4 is the atomic variable, field 0 of what _1 points to; _3 and _6
    // point to field 1, _7 to field 2, _8 to field 0 itself.
    body_with(1, 12, vec![
        Statement::Assign(local(4), field_behind(1, 0)),
        Statement::Assign(local(3), field_behind(1, 1)),
        Statement::Assign(local(6), field_behind(1, 1)),
        Statement::Assign(local(7), field_behind(1, 2)),
        Statement::Assign(local(8), field_behind(1, 0)),
        Statement::Assign(local(9), Rvalue::Ref(local(2))),
    ])
}

#[test]
fn correlations_are_the_other_fields_the_window_points_to() {
    let body = fields_body();
    let pts = analyse(&body);
    let window = vec![2, 3, 4, 5, 6, 7, 8, 9];
    let load = (info(AtomicInstructions::Load, 4, &[5]), window.clone());
    assert_eq!(side_correlations(&pts, &load, true), vec![field(1, 1), field(1, 2)]);
    assert_eq!(side_correlations(&pts, &load, false), vec![field(1, 1), field(1, 2)]);
    let exchange = (info(AtomicInstructions::CompareExchange, 4, &[5, 6]), window.clone());
    assert_eq!(side_correlations(&pts, &exchange, true), vec![field(1, 1), field(1, 2)]);
    assert_eq!(side_correlations(&pts, &exchange, false), vec![field(1, 1)]);
    let absent = (info(AtomicInstructions::ReadModifyWrite, 4, &[5, 6]), vec![2, 3, 6]);
    assert_eq!(side_correlations(&pts, &absent, true), vec![]);
    assert_eq!(side_correlations(&pts, &absent, false), vec![]);
    let no_field = (info(AtomicInstructions::Load, 9, &[5]), window.clone());
    assert_eq!(side_correlations(&pts, &no_field, true), vec![]);
    let mut nameless = load.0.clone();
    nameless.atomic_place = None;
    assert_eq!(side_correlations(&pts, &(nameless, window), true), vec![]);
    assert_eq!(position(&vec![4, 5, 4], 4), Some(0));
    assert_eq!(position(&vec![4, 5, 4], 6), None);
}

#[test]
fn the_analyzer_resolves_both_sides() {
    let (program, callgraph) = one_function(fields_body(), vec![]);
    let partner = (info(AtomicInstructions::CompareExchange, 4, &[5, 6]), vec![2, 3, 4, 5, 6, 7]);
    let mut analysis = AliasAnalysis::new();
    let mut analyzer = CorrelationAnalyzer::new(&program, (partner.0.clone(), partner.1.clone()));
    assert_eq!(analyzer.correlations, vec![]);
    analyzer.resolve_load_collelation(&callgraph, &mut analysis);
    assert_eq!(analyzer.correlations, vec![field(1, 1), field(1, 2)]);
    analyzer.resolve_store_collelation(&callgraph, &mut analysis);
    assert_eq!(analyzer.correlations, vec![field(1, 1)]);
    assert_eq!(analyzer.partner, partner);
}

#[test]
fn pointer_correlations_are_the_locals_of_the_side() {
    let exchange = (info(AtomicInstructions::CompareExchange, 1, &[4, 5]), vec![3, 5, 4, 9, 7, 9]);
    assert_eq!(atomptr_side_correlations(&exchange, true), vec![local(4), local(9), local(7)]);
    assert_eq!(atomptr_side_correlations(&exchange, false), vec![local(3), local(5)]);
    let load = (info(AtomicInstructions::Load, 1, &[4]), vec![4, 9]);
    assert_eq!(atomptr_side_correlations(&load, true), vec![local(4), local(9)]);
    assert_eq!(atomptr_side_correlations(&load, false), vec![]);
    let store = (info(AtomicInstructions::Store, 1, &[5]), vec![3, 5]);
    assert_eq!(atomptr_side_correlations(&store, false), vec![local(3), local(5)]);
    assert_eq!(atomptr_side_correlations(&store, true), vec![]);
    let lost = (info(AtomicInstructions::ReadModifyWrite, 1, &[4, 5]), vec![3, 9]);
    assert_eq!(atomptr_side_correlations(&lost, true), vec![]);
    assert_eq!(atomptr_side_correlations(&lost, false), vec![]);
    let (program, _) = one_function(fields_body(), vec![]);
    let mut analyzer = CorrelationAnalyzer::new(&program, load);
    analyzer.resolve_atomptr_load_collelation();
    assert_eq!(analyzer.correlations, vec![local(4), local(9)]);
    analyzer.resolve_atomptr_store_collelation();
    assert_eq!(analyzer.correlations, vec![]);
}

#[test]
fn the_cache_analyses_each_function_once() {
    let first = fields_body();
    let second = body_with(1, 4, vec![Statement::Assign(local(2), Rvalue::Ref(local(3)))]);
    let mut analysis = AliasAnalysis::new();
    let a = analysis.get_or_insert_pts(5, &first);
    assert_eq!(a.node_count(), analyse(&first).node_count());
    // The result for a function that is known is the one that is kept.
    let b = analysis.get_or_insert_pts(5, &second);
    assert_eq!(b.node_count(), a.node_count());
    let c = analysis.get_or_insert_pts(6, &second);
    assert_eq!(c.node_count(), analyse(&second).node_count());
    assert_eq!(analysis.get(5).node_count(), a.node_count());
    let id = AliasId { instance_id: 1, local: 2 };
    assert_eq!(id, AliasId { instance_id: 1, local: 2 });
}

#[test]
fn dereferences_are_loads_through_the_local() {
    let body = body_with(1, 8, vec![
        Statement::Assign(
            local(2),
            Rvalue::Use(Operand::Copy(Place { local: 3, projection: vec![ProjectionElem::Deref] })),
        ),
        Statement::Assign(local(4), Rvalue::Ref(local(5))),
    ]);
    assert!(dereferences(&body, &vec![local(3)]));
    assert!(dereferences(&body, &vec![local(7), field(3, 1)]));
    assert!(!dereferences(&body, &vec![local(2), local(4), local(5)]));
    assert!(!dereferences(&body, &vec![]));
    let mut analysis = AliasAnalysis::new();
    assert!(analysis.load_corrlation(&body, &vec![local(3)]));
    assert!(!analysis.load_corrlation(&body, &vec![local(2)]));
}

use atomvchecker::ir::{BasicBlock, Body, LocalTy, Operand, Place, ProjectionElem, Rvalue, Statement, Terminator};
use atomvchecker::pointsto::andersen::{Andersen, PointsToMap};
use atomvchecker::pointsto::graph::ConstraintGraph;
use atomvchecker::pointsto::node::{ConstraintEdge, ConstraintNode, Edge};

fn local(l: usize) -> Place {
    Place::from_local(l)
}

fn deref(l: usize) -> Place {
    Place { local: l, projection: vec![ProjectionElem::Deref] }
}

fn body_of(statements: Vec<Statement>, locals: usize) -> Body {
    Body {
        arg_count: 0,
        local_decls: vec![LocalTy::Other; locals],
        blocks: vec![BasicBlock { statements, terminator: Terminator::Other }],
    }
}

fn analyse(body: &Body) -> PointsToMap {
    let mut analysis = Andersen::new(body);
    analysis.analyze();
    analysis.finish()
}

fn points_to(map: &PointsToMap, from: &ConstraintNode, to: &ConstraintNode) -> bool {
    match (map.index_of(from), map.index_of(to)) {
        (Some(n), Some(o)) => map.points_to(n, o),
        _ => false,
    }
}

#[test]
fn address_copy_load_reaches_the_storage() {
    // b = &a; c = b; d = *c, with a = 1, b = 2, c = 3, d = 4.
    let body = body_of(
        vec![
            Statement::Assign(local(2), Rvalue::Ref(local(1))),
            Statement::Assign(local(3), Rvalue::Use(Operand::Copy(local(2)))),
            Statement::Assign(local(4), Rvalue::Use(Operand::Copy(deref(3)))),
        ],
        5,
    );
    let map = analyse(&body);
    let place = |l| ConstraintNode::Place(local(l));
    let alloc = |l| ConstraintNode::Alloc(local(l));
    assert!(points_to(&map, &place(2), &place(1)));
    assert!(points_to(&map, &place(3), &place(1)));
    assert!(points_to(&map, &place(4), &alloc(1)));
    assert!(!points_to(&map, &place(1), &place(2)));
    assert!(!points_to(&map, &place(4), &place(1)));
}

#[test]
fn every_place_points_to_its_storage() {
    let body = body_of(
        vec![
            Statement::Assign(local(2), Rvalue::Ref(local(1))),
            Statement::Assign(local(3), Rvalue::Use(Operand::Copy(local(2)))),
        ],
        4,
    );
    let map = analyse(&body);
    for l in 1..4 {
        assert!(points_to(&map, &ConstraintNode::Place(local(l)), &ConstraintNode::Alloc(local(l))));
    }
}

#[test]
fn graph_keeps_one_node_for_each_value() {
    let mut graph = ConstraintGraph::new();
    let a = graph.get_or_insert_node(ConstraintNode::Place(local(1)));
    let b = graph.get_or_insert_node(ConstraintNode::Place(local(2)));
    let again = graph.get_or_insert_node(ConstraintNode::Place(local(1)));
    assert_eq!(a, 0);
    assert_eq!(b, 1);
    assert_eq!(again, 0);
    assert_eq!(graph.node_count(), 2);
    assert_eq!(graph.get_node(&ConstraintNode::Alloc(local(1))), None);
    assert_eq!(graph.node(1), &ConstraintNode::Place(local(2)));
}

#[test]
fn graph_lists_edges_newest_first() {
    let mut graph = ConstraintGraph::new();
    graph.add_copy(&local(1), &local(2));
    graph.add_load(&local(1), &local(2));
    graph.add_store(&local(3), &local(2));
    assert_eq!(graph.edge_count(), 3);
    let copy = Edge { source: 1, target: 0, kind: ConstraintEdge::Copy };
    let load = Edge { source: 1, target: 0, kind: ConstraintEdge::Load };
    let store = Edge { source: 1, target: 2, kind: ConstraintEdge::Store };
    assert_eq!(graph.edges(), vec![copy, load, store]);
    assert_eq!(graph.edges_from(1), vec![store, load, copy]);
    assert_eq!(graph.edges_into(0), vec![load, copy]);
    assert_eq!(graph.edges_into(1), vec![]);
    assert_eq!(graph.store_sources(2), vec![1]);
    assert_eq!(graph.load_targets(1), vec![0]);
    assert!(graph.insert_edge(0, 2, ConstraintEdge::Copy));
    assert!(!graph.insert_edge(0, 2, ConstraintEdge::Copy));
    assert!(graph.insert_edge(0, 2, ConstraintEdge::Load));
    assert_eq!(graph.edge_count(), 5);
}

#[test]
fn copies_carry_pointees_along_a_chain() {
    // a = &x; b = a; c = b, with x = 1, a = 2, b = 3, c = 4.
    let body = body_of(
        vec![
            Statement::Assign(local(2), Rvalue::Ref(local(1))),
            Statement::Assign(local(3), Rvalue::Use(Operand::Copy(local(2)))),
            Statement::Assign(local(4), Rvalue::Use(Operand::Copy(local(3)))),
        ],
        5,
    );
    let map = analyse(&body);
    let a = map.index_of(&ConstraintNode::Place(local(2))).unwrap();
    let c = map.index_of(&ConstraintNode::Place(local(4))).unwrap();
    for o in map.pointees(a) {
        assert!(map.points_to(c, o));
    }
    assert!(points_to(&map, &ConstraintNode::Place(local(4)), &ConstraintNode::Place(local(1))));
}

#[test]
fn stores_reach_what_the_pointer_points_to() {
    // p = &x; y = &z; *p = y, with x = 1, z = 2, p = 3, y = 4.
    let body = body_of(
        vec![
            Statement::Assign(local(3), Rvalue::Ref(local(1))),
            Statement::Assign(local(4), Rvalue::Ref(local(2))),
            Statement::Assign(deref(3), Rvalue::Use(Operand::Copy(local(4)))),
        ],
        5,
    );
    let map = analyse(&body);
    assert!(points_to(&map, &ConstraintNode::Place(local(1)), &ConstraintNode::Place(local(2))));
    assert!(!points_to(&map, &ConstraintNode::Place(local(2)), &ConstraintNode::Place(local(1))));
}

#[test]
fn copies_in_a_circle_end() {
    // a = b; b = c; c = a; a = &x, with x = 1, a = 2, b = 3, c = 4.
    let body = body_of(
        vec![
            Statement::Assign(local(2), Rvalue::Use(Operand::Copy(local(3)))),
            Statement::Assign(local(3), Rvalue::Use(Operand::Copy(local(4)))),
            Statement::Assign(local(4), Rvalue::Use(Operand::Copy(local(2)))),
            Statement::Assign(local(2), Rvalue::Ref(local(1))),
        ],
        5,
    );
    let map = analyse(&body);
    for l in 2..5 {
        assert!(points_to(&map, &ConstraintNode::Place(local(l)), &ConstraintNode::Place(local(1))));
    }
}

#[test]
fn storage_points_to_nothing() {
    let body = body_of(
        vec![
            Statement::Assign(local(2), Rvalue::Ref(local(1))),
            Statement::Assign(deref(2), Rvalue::Use(Operand::Copy(local(2)))),
        ],
        3,
    );
    let map = analyse(&body);
    for n in 0..map.node_count() {
        if let ConstraintNode::Alloc(_) = map.node(n) {
            assert_eq!(map.pointees(n), vec![]);
            assert_eq!(map.get(map.node(n)), None);
        }
    }
    assert_eq!(map.get(&ConstraintNode::Place(local(9))), None);
    let known = map.get(&ConstraintNode::Place(local(2))).unwrap();
    assert!(!known.is_empty());
}

#[test]
fn literals_point_to_their_dereference() {
    let c = atomvchecker::ir::Constant { text: "const X".to_string(), value: None };
    let body = body_of(
        vec![Statement::Assign(local(1), Rvalue::Use(Operand::Constant(atomvchecker::ir::Constant {
            text: "const X".to_string(),
            value: None,
        })))],
        2,
    );
    let map = analyse(&body);
    let constant = ConstraintNode::Constant(c.clone());
    let behind = ConstraintNode::ConstantDeref(c.clone());
    assert!(points_to(&map, &constant, &behind));
    assert!(points_to(&map, &behind, &behind));
    assert!(points_to(&map, &ConstraintNode::Place(local(1)), &behind));
}

#[test]
fn clone_of_a_map_is_the_same_map() {
    let body = body_of(vec![Statement::Assign(local(2), Rvalue::Ref(local(1)))], 3);
    let map = analyse(&body);
    let copy = map.clone();
    assert_eq!(copy.node_count(), map.node_count());
    for n in 0..map.node_count() {
        assert_eq!(copy.node(n), map.node(n));
        assert_eq!(copy.pointees(n), map.pointees(n));
    }
}

#[test]
fn an_empty_body_has_an_empty_result() {
    let body = body_of(vec![], 1);
    let map = analyse(&body);
    assert_eq!(map.node_count(), 0);
    let unanalysed = Andersen::new(&body).finish();
    assert_eq!(unanalysed.node_count(), 0);
}

#[test]
fn a_copy_into_storage_arrives_at_the_place() {
    // c = b; *c = x; d = *c, with x = 2, b = 3, c = 4, d = 5.
    let body = body_of(
        vec![
            Statement::Assign(local(4), Rvalue::Use(Operand::Copy(local(3)))),
            Statement::Assign(deref(4), Rvalue::Use(Operand::Copy(local(2)))),
            Statement::Assign(local(5), Rvalue::Use(Operand::Copy(deref(4)))),
        ],
        6,
    );
    let map = analyse(&body);
    let place = |l| ConstraintNode::Place(local(l));
    let alloc = |l| ConstraintNode::Alloc(local(l));
    // c points to the storage of b, so what is stored through c reaches b.
    assert!(points_to(&map, &place(4), &alloc(3)));
    assert!(points_to(&map, &place(3), &alloc(2)));
    assert!(points_to(&map, &place(4), &alloc(2)));
    // The storage itself points to nothing, so what is loaded through it
    // does not carry what was stored.
    assert!(!points_to(&map, &alloc(3), &alloc(2)));
    assert!(!points_to(&map, &place(5), &alloc(2)));
    let d = map.index_of(&place(5)).unwrap();
    assert_eq!(map.pointees(d), vec![map.index_of(&alloc(5)).unwrap()]);
}

#[test]
fn the_result_does_not_depend_on_the_run() {
    let statements = || {
        vec![
            Statement::Assign(local(2), Rvalue::Ref(local(1))),
            Statement::Assign(local(3), Rvalue::Use(Operand::Copy(local(2)))),
            Statement::Assign(deref(3), Rvalue::Use(Operand::Copy(local(4)))),
            Statement::Assign(local(5), Rvalue::Use(Operand::Copy(deref(2)))),
        ]
    };
    let body = body_of(statements(), 6);
    let mut analysis = Andersen::new(&body);
    analysis.analyze();
    analysis.analyze();
    let twice = analysis.finish();
    let once = analyse(&body);
    assert_eq!(once.node_count(), twice.node_count());
    for n in 0..once.node_count() {
        assert_eq!(once.node(n), twice.node(n));
        assert_eq!(once.pointees(n), twice.pointees(n));
    }
}

#[test]
fn more_constraints_take_no_pointee_away() {
    let mut statements = vec![
        Statement::Assign(local(2), Rvalue::Ref(local(1))),
        Statement::Assign(local(3), Rvalue::Use(Operand::Copy(local(2)))),
    ];
    let small = analyse(&body_of(
        vec![
            Statement::Assign(local(2), Rvalue::Ref(local(1))),
            Statement::Assign(local(3), Rvalue::Use(Operand::Copy(local(2)))),
        ],
        6,
    ));
    statements.push(Statement::Assign(local(2), Rvalue::Ref(local(4))));
    statements.push(Statement::Assign(deref(3), Rvalue::Use(Operand::Copy(local(5)))));
    let large = analyse(&body_of(statements, 6));
    for n in 0..small.node_count() {
        for o in small.pointees(n) {
            assert!(points_to(&large, small.node(n), small.node(o)));
        }
    }
    assert!(points_to(&large, &ConstraintNode::Place(local(3)), &ConstraintNode::Place(local(4))));
    assert!(!points_to(&small, &ConstraintNode::Place(local(3)), &ConstraintNode::Place(local(4))));
}

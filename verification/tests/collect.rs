use atomvchecker::callgraph::{CallGraph, CallGraphNode, Instance};
use atomvchecker::detector::collect::{atomic_family, family_of, find_operations, AtomicFamily};

fn graph_of(paths: &[&str]) -> CallGraph {
    CallGraph {
        nodes: paths
            .iter()
            .enumerate()
            .map(|(i, p)| CallGraphNode::WithoutBody(Instance { def_id: i, path: p.to_string() }))
            .collect(),
        edges: vec![],
    }
}

#[test]
fn families_are_told_by_the_path() {
    assert_eq!(family_of("std::sync::atomic::AtomicUsize::load"), Some(AtomicFamily::Generic));
    assert_eq!(family_of("core::sync::atomic::AtomicBool::fetch_and"), Some(AtomicFamily::Generic));
    assert_eq!(
        family_of("std::sync::atomic::AtomicPtr::<Node<T>>::store"),
        Some(AtomicFamily::Pointer(Some("Node<T>".to_string())))
    );
    assert_eq!(family_of("std::sync::atomic::AtomicPtr::swap"), Some(AtomicFamily::Pointer(None)));
    assert_eq!(family_of("std::sync::atomic::AtomicUsize::new"), None);
    assert_eq!(family_of("std::sync::atomic::fence"), None);
    assert_eq!(family_of("demo::std::sync::atomic::AtomicUsize::load"), None);
}

#[test]
fn families_are_read_off_the_groups() {
    let text = |s: &str| Some(s.to_string());
    let mut groups = vec![None; 14];
    groups[0] = text("whole");
    assert_eq!(atomic_family(&Some(groups.clone())), None);
    groups[6] = text("AtomicUsize");
    assert_eq!(atomic_family(&Some(groups.clone())), Some(AtomicFamily::Generic));
    groups[3] = text("AtomicPtr");
    assert_eq!(atomic_family(&Some(groups.clone())), Some(AtomicFamily::Pointer(None)));
    groups[5] = text("T");
    assert_eq!(atomic_family(&Some(groups.clone())), Some(AtomicFamily::Pointer(text("T"))));
    assert_eq!(atomic_family(&Some(groups[..4].to_vec())), Some(AtomicFamily::Pointer(None)));
    assert_eq!(atomic_family(&Some(groups[..3].to_vec())), None);
    assert_eq!(atomic_family(&Some(vec![])), None);
    assert_eq!(atomic_family(&None), None);
}

#[test]
fn operations_are_gathered_by_family() {
    let callgraph = graph_of(&[
        "demo::main",
        "std::sync::atomic::AtomicPtr::swap",
        "std::sync::atomic::AtomicUsize::load",
        "std::sync::atomic::AtomicPtr::<A>::load",
        "std::sync::atomic::AtomicPtr::store",
        "std::sync::atomic::AtomicPtr::<B>::load",
        "std::sync::atomic::AtomicBool::store",
        "std::sync::atomic::AtomicPtr::<A>::store",
    ]);
    let found = find_operations(&callgraph);
    assert_eq!(found.atomics, vec![2, 6]);
    assert_eq!(
        found.pointers,
        vec![
            ("".to_string(), vec![1]),
            ("A".to_string(), vec![3, 4, 7]),
            ("B".to_string(), vec![5]),
        ]
    );
    assert_eq!(found.pointee, "A");
    let none = find_operations(&graph_of(&[]));
    assert_eq!(none.atomics, vec![]);
    assert_eq!(none.pointers, vec![]);
}

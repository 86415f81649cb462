use atomvchecker::controldep::{control_deps, FlowGraph};
use rustc_hash::FxHashSet;

fn set(items: &[usize]) -> FxHashSet<usize> {
    items.iter().copied().collect()
}

fn diamond() -> FlowGraph {
    FlowGraph {
        successors: vec![vec![1, 2], vec![3], vec![3], vec![]],
        start_node: 0,
        post_dominators: vec![vec![0, 3], vec![1, 3], vec![2, 3], vec![3]],
    }
}

#[test]
fn both_arms_of_a_branch_depend_on_it() {
    let graph = diamond();
    assert!(graph.is_wf());
    let deps = control_deps(&graph);
    assert_eq!(deps.parents, vec![set(&[0]), set(&[0]), set(&[0]), set(&[0])]);
    assert_eq!(deps.banch_node, set(&[0]));
}

#[test]
fn a_loop_depends_on_itself() {
    let graph = FlowGraph {
        successors: vec![vec![1], vec![1, 2], vec![]],
        start_node: 0,
        post_dominators: vec![vec![0, 1, 2], vec![1, 2], vec![2]],
    };
    let deps = control_deps(&graph);
    assert_eq!(deps.parents, vec![set(&[0]), set(&[0, 1]), set(&[0])]);
    assert_eq!(deps.banch_node, set(&[1]));
}

#[test]
fn a_branch_that_never_joins_reaches_the_whole_chain() {
    // 0 branches to 1 and 2, which both end; nothing post-dominates 0 but itself.
    let graph = FlowGraph {
        successors: vec![vec![1, 2], vec![], vec![]],
        start_node: 0,
        post_dominators: vec![vec![0], vec![1], vec![2]],
    };
    let deps = control_deps(&graph);
    assert_eq!(deps.parents, vec![set(&[0]), set(&[0]), set(&[0])]);
    assert_eq!(deps.banch_node, set(&[0]));
}

#[test]
fn a_straight_line_has_no_branch() {
    let graph = FlowGraph {
        successors: vec![vec![1], vec![2], vec![]],
        start_node: 0,
        post_dominators: vec![vec![0, 1, 2], vec![1, 2], vec![2]],
    };
    let deps = control_deps(&graph);
    assert_eq!(deps.parents, vec![set(&[0]), set(&[0]), set(&[0])]);
    assert_eq!(deps.banch_node, set(&[]));
}

#[test]
fn post_dominator_queries_read_the_chains() {
    let graph = diamond();
    assert!(graph.post_dominates(0, 3));
    assert!(graph.post_dominates(0, 0));
    assert!(!graph.post_dominates(0, 1));
    assert_eq!(graph.find_nearest_common_dominator(1, 2), Some(3));
    assert_eq!(graph.find_nearest_common_dominator(1, 1), Some(1));
    assert_eq!(graph.find_nearest_common_dominator(0, 1), Some(3));
    let apart = FlowGraph {
        successors: vec![vec![], vec![]],
        start_node: 0,
        post_dominators: vec![vec![0], vec![1]],
    };
    assert_eq!(apart.find_nearest_common_dominator(0, 1), None);
}

#[test]
fn ill_formed_graphs_are_recognised() {
    let mut graph = diamond();
    graph.successors[3].push(4);
    assert!(!graph.is_wf());
    let mut graph = diamond();
    graph.post_dominators[1].push(9);
    assert!(!graph.is_wf());
    let mut graph = diamond();
    graph.start_node = 4;
    assert!(!graph.is_wf());
    let mut graph = diamond();
    graph.post_dominators.pop();
    assert!(!graph.is_wf());
}

use leanness::classifier::{
    analyze_graph_for_package, analyze_graph_for_package2, traverse_node_downwards,
};
use leanness::error::AnalysisError;
use leanness::graph::{Edge, Node, NodeType};

fn edges(targets: &[usize]) -> Vec<Edge> {
    targets.iter().map(|&target| Edge { target, some_bool: false }).collect()
}

fn node(
    unit: &str,
    owner: Option<(&str, &str)>,
    visible: bool,
    out: &[usize],
    inward: &[usize],
) -> Node {
    Node {
        id: 0,
        package_name: owner.map(|(name, _)| name.to_string()),
        package_version: owner.map(|(_, version)| version.to_string()),
        crate_name: unit.to_string(),
        relative_def_id: String::new(),
        inward_edges: edges(inward),
        outward_edges: edges(out),
        num_lines: 1,
        is_externally_visible: visible,
        node_type: NodeType::Unclassified,
    }
}

fn numbered(mut graph: Vec<Node>) -> Vec<Node> {
    for (position, node) in graph.iter_mut().enumerate() {
        node.id = position;
    }
    graph
}

fn types(graph: &[Node]) -> Vec<NodeType> {
    graph.iter().map(|node| node.node_type).collect()
}

fn diamond() -> Vec<Node> {
    numbered(vec![
        node("P", Some(("P", "1.0.0")), false, &[1, 2], &[]),
        node("P", Some(("P", "1.0.0")), false, &[3], &[0]),
        node("Q", Some(("Q", "1.0.0")), true, &[3], &[0]),
        node("std", None, false, &[], &[1, 2]),
    ])
}

#[test]
fn self_policy_labels_own_std_and_used_dependency_nodes() {
    let classified = analyze_graph_for_package(diamond(), &"P".to_string()).unwrap();
    assert_eq!(
        types(&classified),
        vec![NodeType::Local, NodeType::Local, NodeType::UsedDep, NodeType::Std]
    );
}

#[test]
fn self_policy_changes_nothing_but_the_categories() {
    let before = diamond();
    let classified = analyze_graph_for_package(diamond(), &"P".to_string()).unwrap();
    assert_eq!(classified.len(), before.len());
    for (old, new) in before.iter().zip(classified.iter()) {
        let mut expected = old.clone();
        expected.node_type = new.node_type;
        assert_eq!(&expected, new);
    }
}

#[test]
fn self_policy_leaves_unreachable_nodes_unclassified() {
    let graph = numbered(vec![
        node("P", Some(("P", "1.0.0")), false, &[], &[]),
        node("Q", Some(("Q", "1.0.0")), true, &[2], &[]),
        node("std", None, false, &[], &[1]),
    ]);
    let classified = analyze_graph_for_package(graph, &"P".to_string()).unwrap();
    assert_eq!(
        types(&classified),
        vec![NodeType::Local, NodeType::Unclassified, NodeType::Unclassified]
    );
}

#[test]
fn self_policy_without_a_node_of_the_package_classifies_nothing() {
    let classified = analyze_graph_for_package(diamond(), &"Z".to_string()).unwrap();
    assert_eq!(types(&classified), vec![NodeType::Unclassified; 4]);
}

#[test]
fn self_policy_on_an_empty_graph() {
    let classified = analyze_graph_for_package(Vec::new(), &"P".to_string()).unwrap();
    assert!(classified.is_empty());
}

#[test]
fn dependency_usage_labels_the_public_surface() {
    let classified =
        analyze_graph_for_package2(diamond(), &"Q".to_string(), &"P".to_string(), &Vec::new())
            .unwrap();
    assert_eq!(
        types(&classified),
        vec![
            NodeType::Unclassified,
            NodeType::Unclassified,
            NodeType::LocalPublic,
            NodeType::Std
        ]
    );
}

fn dependency_graph() -> Vec<Node> {
    numbered(vec![
        node("main", Some(("main", "0.1.0")), false, &[1], &[]),
        node("D", Some(("D", "1.0.0")), true, &[3], &[0]),
        node("D", Some(("D", "1.0.0")), true, &[4, 3], &[]),
        node("E", Some(("E", "2.0.0")), false, &[5], &[1, 2]),
        node("E", Some(("E", "2.0.0")), false, &[], &[2]),
        node("core", None, false, &[], &[3]),
        node("D", Some(("D", "1.0.0")), false, &[], &[]),
        node("E", Some(("E", "2.0.0")), true, &[], &[]),
        node("E", Some(("E", "3.0.0")), true, &[], &[]),
        node("F", Some(("F", "1.0.0")), true, &[], &[]),
    ])
}

#[test]
fn dependency_usage_runs_public_then_private_then_labels_the_rest() {
    let mut graph = dependency_graph();
    graph[9].package_version = None;
    let deps = vec![
        ("E".to_string(), "2.0.0".to_string()),
        ("F".to_string(), "1.0.0".to_string()),
    ];
    let classified =
        analyze_graph_for_package2(graph, &"D".to_string(), &"main".to_string(), &deps).unwrap();
    assert_eq!(
        types(&classified),
        vec![
            NodeType::Unclassified,
            NodeType::LocalPublic,
            NodeType::Local,
            NodeType::UsedDepPublic,
            NodeType::UsedDep,
            NodeType::Std,
            NodeType::Unclassified,
            NodeType::Local,
            NodeType::Unclassified,
            NodeType::Unclassified,
        ]
    );
}

#[test]
fn dependency_usage_without_dependencies_labels_no_unreached_node() {
    let classified = analyze_graph_for_package2(
        dependency_graph(),
        &"D".to_string(),
        &"main".to_string(),
        &Vec::new(),
    )
    .unwrap();
    assert_eq!(classified[7].node_type, NodeType::Unclassified);
    assert_eq!(classified[8].node_type, NodeType::Unclassified);
    assert_eq!(classified[9].node_type, NodeType::Unclassified);
}

#[test]
fn dependency_usage_matches_dependencies_by_name_and_exact_version() {
    let deps = vec![("E".to_string(), "3.0.0".to_string())];
    let classified =
        analyze_graph_for_package2(dependency_graph(), &"D".to_string(), &"main".to_string(), &deps)
            .unwrap();
    assert_eq!(classified[7].node_type, NodeType::Unclassified);
    assert_eq!(classified[8].node_type, NodeType::Local);
}

#[test]
fn dependency_usage_takes_hidden_nodes_for_no_seed() {
    let graph = numbered(vec![
        node("main", Some(("main", "0.1.0")), false, &[1], &[]),
        node("D", Some(("D", "1.0.0")), false, &[2], &[0]),
        node("D", Some(("D", "1.0.0")), false, &[], &[1]),
    ]);
    let classified =
        analyze_graph_for_package2(graph, &"D".to_string(), &"main".to_string(), &Vec::new())
            .unwrap();
    assert_eq!(types(&classified), vec![NodeType::Unclassified; 3]);
}

#[test]
fn dependency_usage_public_label_wins_where_both_passes_reach() {
    // Node 3 is reachable from the public seed 1 and from the private seed 2.
    let classified = analyze_graph_for_package2(
        dependency_graph(),
        &"D".to_string(),
        &"main".to_string(),
        &Vec::new(),
    )
    .unwrap();
    assert_eq!(classified[3].node_type, NodeType::UsedDepPublic);
    assert_eq!(classified[5].node_type, NodeType::Std);
}

#[test]
fn dependency_usage_reports_a_caller_beyond_the_graph() {
    let graph = numbered(vec![
        node("main", Some(("main", "0.1.0")), false, &[1], &[]),
        node("D", Some(("D", "1.0.0")), true, &[], &[7, 0]),
    ]);
    let result =
        analyze_graph_for_package2(graph, &"D".to_string(), &"main".to_string(), &Vec::new());
    assert_eq!(result, Err(AnalysisError::InconsistentGraph));
}

#[test]
fn dependency_usage_stops_the_search_at_the_first_caller() {
    // The second inward edge leads nowhere, but the first one settles the
    // question, so it is never looked up.
    let graph = numbered(vec![
        node("main", Some(("main", "0.1.0")), false, &[1], &[]),
        node("D", Some(("D", "1.0.0")), true, &[], &[0, 7]),
    ]);
    let classified =
        analyze_graph_for_package2(graph, &"D".to_string(), &"main".to_string(), &Vec::new())
            .unwrap();
    assert_eq!(types(&classified), vec![NodeType::Unclassified, NodeType::LocalPublic]);
}

#[test]
fn dependency_usage_ignores_callers_of_hidden_nodes() {
    let graph = numbered(vec![
        node("main", Some(("main", "0.1.0")), false, &[], &[]),
        node("D", Some(("D", "1.0.0")), false, &[], &[42]),
    ]);
    let classified =
        analyze_graph_for_package2(graph, &"D".to_string(), &"main".to_string(), &Vec::new())
            .unwrap();
    assert_eq!(types(&classified), vec![NodeType::Unclassified; 2]);
}

#[test]
fn dependency_usage_reports_a_dangling_edge_in_the_private_pass() {
    let graph = numbered(vec![
        node("main", Some(("main", "0.1.0")), false, &[], &[]),
        node("D", Some(("D", "1.0.0")), true, &[9], &[]),
    ]);
    let result =
        analyze_graph_for_package2(graph, &"D".to_string(), &"main".to_string(), &Vec::new());
    assert_eq!(result, Err(AnalysisError::InconsistentGraph));
}

#[test]
fn traversal_labels_by_policy() {
    let mut plain = diamond();
    assert_eq!(traverse_node_downwards(&mut plain, 2, &"Q".to_string(), false), Ok(()));
    assert_eq!(
        types(&plain),
        vec![NodeType::Unclassified, NodeType::Unclassified, NodeType::Local, NodeType::Std]
    );
    let mut public = diamond();
    assert_eq!(traverse_node_downwards(&mut public, 0, &"Q".to_string(), true), Ok(()));
    assert_eq!(
        types(&public),
        vec![
            NodeType::UsedDepPublic,
            NodeType::UsedDepPublic,
            NodeType::LocalPublic,
            NodeType::Std
        ]
    );
}

#[test]
fn traversal_does_not_touch_or_expand_a_classified_node() {
    let mut graph = numbered(vec![
        node("P", Some(("P", "1.0.0")), false, &[1], &[]),
        node("Q", Some(("Q", "1.0.0")), false, &[2], &[0]),
        node("Q", Some(("Q", "1.0.0")), false, &[], &[1]),
    ]);
    graph[1].node_type = NodeType::LocalPublic;
    assert_eq!(traverse_node_downwards(&mut graph, 0, &"P".to_string(), false), Ok(()));
    assert_eq!(
        types(&graph),
        vec![NodeType::Local, NodeType::LocalPublic, NodeType::Unclassified]
    );
}

#[test]
fn public_traversal_does_not_relabel_a_classified_node() {
    let mut graph = numbered(vec![
        node("P", Some(("P", "1.0.0")), false, &[1], &[]),
        node("P", Some(("P", "1.0.0")), false, &[], &[0]),
    ]);
    graph[0].node_type = NodeType::Local;
    assert_eq!(traverse_node_downwards(&mut graph, 0, &"P".to_string(), true), Ok(()));
    assert_eq!(types(&graph), vec![NodeType::Local, NodeType::Unclassified]);
}

#[test]
fn traversal_run_again_changes_nothing() {
    let mut graph = diamond();
    assert_eq!(traverse_node_downwards(&mut graph, 0, &"P".to_string(), false), Ok(()));
    let once = graph.clone();
    assert_eq!(traverse_node_downwards(&mut graph, 0, &"P".to_string(), false), Ok(()));
    assert_eq!(graph, once);
    let again = analyze_graph_for_package(once.clone(), &"P".to_string()).unwrap();
    assert_eq!(again, once);
}

#[test]
fn traversal_ends_on_cycles() {
    let mut graph = numbered(vec![
        node("P", Some(("P", "1.0.0")), false, &[1, 0], &[2, 0]),
        node("P", Some(("P", "1.0.0")), false, &[2], &[0]),
        node("Q", Some(("Q", "1.0.0")), false, &[0, 2, 1], &[1, 2]),
    ]);
    assert_eq!(traverse_node_downwards(&mut graph, 0, &"P".to_string(), false), Ok(()));
    assert_eq!(types(&graph), vec![NodeType::Local, NodeType::Local, NodeType::UsedDep]);
}

#[test]
fn traversal_result_does_not_depend_on_the_order_of_seeds() {
    let make = || {
        numbered(vec![
            node("P", Some(("P", "1.0.0")), false, &[2], &[]),
            node("P", Some(("P", "1.0.0")), false, &[3, 2], &[]),
            node("Q", Some(("Q", "1.0.0")), false, &[4], &[0, 1]),
            node("R", Some(("R", "1.0.0")), false, &[4], &[1]),
            node("std", None, false, &[], &[2, 3]),
        ])
    };
    let unit = "P".to_string();
    let mut forward = make();
    assert_eq!(traverse_node_downwards(&mut forward, 0, &unit, false), Ok(()));
    assert_eq!(traverse_node_downwards(&mut forward, 1, &unit, false), Ok(()));
    let mut backward = make();
    assert_eq!(traverse_node_downwards(&mut backward, 1, &unit, false), Ok(()));
    assert_eq!(traverse_node_downwards(&mut backward, 0, &unit, false), Ok(()));
    assert_eq!(forward, backward);
    assert_eq!(
        types(&forward),
        vec![
            NodeType::Local,
            NodeType::Local,
            NodeType::UsedDep,
            NodeType::UsedDep,
            NodeType::Std
        ]
    );
}

#[test]
fn traversal_reports_an_edge_beyond_the_graph() {
    let mut graph = numbered(vec![
        node("P", Some(("P", "1.0.0")), false, &[1], &[]),
        node("P", Some(("P", "1.0.0")), false, &[2], &[0]),
    ]);
    assert_eq!(
        traverse_node_downwards(&mut graph, 0, &"P".to_string(), false),
        Err(AnalysisError::InconsistentGraph)
    );
    assert_eq!(graph.len(), 2);
}

#[test]
fn traversal_reports_a_seed_beyond_the_graph() {
    let mut graph = diamond();
    assert_eq!(
        traverse_node_downwards(&mut graph, 4, &"P".to_string(), false),
        Err(AnalysisError::InconsistentGraph)
    );
    assert_eq!(graph, diamond());
}

#[test]
fn traversal_does_not_follow_the_edges_of_nodes_it_does_not_reach() {
    let mut graph = numbered(vec![
        node("P", Some(("P", "1.0.0")), false, &[], &[]),
        node("Q", Some(("Q", "1.0.0")), false, &[17], &[]),
    ]);
    assert_eq!(traverse_node_downwards(&mut graph, 0, &"P".to_string(), false), Ok(()));
    let classified = analyze_graph_for_package(graph, &"P".to_string()).unwrap();
    assert_eq!(types(&classified), vec![NodeType::Local, NodeType::Unclassified]);
}

#[test]
fn self_policy_reports_an_edge_beyond_the_graph() {
    let graph = numbered(vec![
        node("Q", Some(("Q", "1.0.0")), false, &[], &[]),
        node("P", Some(("P", "1.0.0")), false, &[0, 2], &[]),
    ]);
    assert_eq!(
        analyze_graph_for_package(graph, &"P".to_string()),
        Err(AnalysisError::InconsistentGraph)
    );
}

#[test]
fn label_depends_on_the_owner_and_not_on_the_path() {
    // Node 3 is reached directly from a seed and through node 2.
    let graph = numbered(vec![
        node("P", Some(("P", "1.0.0")), false, &[3, 2], &[]),
        node("P", Some(("P", "1.0.0")), false, &[2], &[]),
        node("Q", Some(("Q", "1.0.0")), false, &[3], &[0, 1]),
        node("R", Some(("R", "1.0.0")), false, &[], &[0, 2]),
    ]);
    let classified = analyze_graph_for_package(graph, &"P".to_string()).unwrap();
    assert_eq!(
        types(&classified),
        vec![NodeType::Local, NodeType::Local, NodeType::UsedDep, NodeType::UsedDep]
    );
}

#[test]
fn a_node_of_the_package_without_owner_is_local() {
    let graph = numbered(vec![node("P", None, false, &[], &[])]);
    let classified = analyze_graph_for_package(graph, &"P".to_string()).unwrap();
    assert_eq!(types(&classified), vec![NodeType::Local]);
}

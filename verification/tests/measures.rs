use leanness::classifier::{analyze_graph_for_package, analyze_graph_for_package2};
use leanness::graph::{Edge, Node, NodeType};
use leanness::index_calculator::total_lines_fit;
use leanness::metrics::{measure_dependency, measure_graph, CrateData, DepMetric, Metrics};

fn edges(targets: &[usize]) -> Vec<Edge> {
    targets.iter().map(|&target| Edge { target, some_bool: true }).collect()
}

fn node(
    id: usize,
    unit: &str,
    owner: Option<(&str, &str)>,
    visible: bool,
    lines: isize,
    out: &[usize],
    inward: &[usize],
) -> Node {
    Node {
        id,
        package_name: owner.map(|(name, _)| name.to_string()),
        package_version: owner.map(|(_, version)| version.to_string()),
        crate_name: unit.to_string(),
        relative_def_id: format!("{}::f{}", unit, id),
        inward_edges: edges(inward),
        outward_edges: edges(out),
        num_lines: lines,
        is_externally_visible: visible,
        node_type: NodeType::Unclassified,
    }
}

fn diamond() -> Vec<Node> {
    vec![
        node(0, "P", Some(("P", "1.0.0")), false, 10, &[1, 2], &[]),
        node(1, "P", Some(("P", "1.0.0")), false, -1, &[3], &[0]),
        node(2, "Q", Some(("Q", "1.0.0")), true, 7, &[3], &[0]),
        node(3, "std", None, false, 3, &[], &[1, 2]),
    ]
}

fn labelled(label: NodeType, owner: Option<(&str, &str)>, visible: bool, lines: isize) -> Node {
    let unit = owner.map(|(name, _)| name).unwrap_or("core");
    let mut node = node(0, unit, owner, visible, lines, &[], &[]);
    node.node_type = label;
    node
}

#[test]
fn self_policy_counts() {
    let classified = analyze_graph_for_package(diamond(), &"P".to_string()).unwrap();
    let metrics = measure_graph(&classified, &"P".to_string());
    assert_eq!(metrics.TotalFuncCount, 4);
    assert_eq!(metrics.LocalFuncCount, 2);
    assert_eq!(metrics.StdFuncCount, 1);
    assert_eq!(metrics.TotalDepFuncCount, 1);
    assert_eq!(
        metrics,
        Metrics {
            TotalFuncCount: 4,
            LocalFuncCount: 2,
            StdFuncCount: 1,
            TotalDepFuncCount: 1,
            UsedDepFuncCount: 1,
            TotalDepPublicFuncCount: 1,
            UsedDepPublicFuncCount: 1,
            TotalDepLOC: 7,
            TotalLOC: 20,
            TotalStdLOC: 3,
            depMetrics: Vec::new(),
        }
    );
}

#[test]
fn dependency_usage_counts() {
    let classified =
        analyze_graph_for_package2(diamond(), &"Q".to_string(), &"P".to_string(), &Vec::new())
            .unwrap();
    let metric = measure_dependency(&classified, "Q".to_string(), "1.0.0".to_string());
    assert_eq!(metric.totalCount, 1);
    assert_eq!(metric.usedCount, 1);
    assert_eq!(
        metric,
        DepMetric {
            crate_name: "Q".to_string(),
            crate_version: "1.0.0".to_string(),
            usedCount: 1,
            totalCount: 1,
            total_loc: 7,
            used_loc: 7,
        }
    );
}

#[test]
fn counts_of_own_std_and_dependency_functions_add_up() {
    let graph = vec![
        node(0, "P", Some(("P", "1.0.0")), false, 4, &[1, 3], &[]),
        node(1, "Q", Some(("Q", "1.0.0")), true, 5, &[2], &[0]),
        node(2, "core", None, true, 6, &[], &[1]),
        node(3, "P", Some(("P", "1.0.0")), true, 7, &[], &[0]),
        node(4, "R", Some(("R", "0.3.0")), false, 8, &[5], &[]),
        node(5, "alloc", None, false, 9, &[], &[4]),
    ];
    let classified = analyze_graph_for_package(graph, &"P".to_string()).unwrap();
    let metrics = measure_graph(&classified, &"P".to_string());
    assert_eq!(metrics.TotalFuncCount, 6);
    assert_eq!(metrics.LocalFuncCount, 2);
    assert_eq!(metrics.StdFuncCount, 2);
    assert_eq!(metrics.TotalDepFuncCount, 2);
    assert_eq!(
        metrics.LocalFuncCount + metrics.StdFuncCount + metrics.TotalDepFuncCount,
        metrics.TotalFuncCount
    );
    assert_eq!(metrics.UsedDepFuncCount, 1);
    assert_eq!(metrics.TotalDepPublicFuncCount, 1);
    assert_eq!(metrics.UsedDepPublicFuncCount, 1);
    assert_eq!(metrics.TotalDepLOC, 13);
    assert_eq!(metrics.TotalStdLOC, 15);
    assert_eq!(metrics.TotalLOC, 39);
}

#[test]
fn std_functions_are_counted_by_their_missing_owner() {
    let graph = vec![
        labelled(NodeType::Unclassified, None, false, 2),
        labelled(NodeType::Std, None, false, 3),
        labelled(NodeType::UsedDep, None, true, 4),
        labelled(NodeType::Std, Some(("Q", "1.0.0")), false, 5),
    ];
    let metrics = measure_graph(&graph, &"P".to_string());
    assert_eq!(metrics.StdFuncCount, 3);
    assert_eq!(metrics.TotalStdLOC, 9);
    assert_eq!(metrics.TotalDepFuncCount, 1);
    assert_eq!(metrics.TotalDepLOC, 5);
    assert_eq!(metrics.UsedDepFuncCount, 1);
    assert_eq!(metrics.UsedDepPublicFuncCount, 1);
    assert_eq!(metrics.LocalFuncCount, 0);
    assert_eq!(metrics.TotalLOC, 14);
}

#[test]
fn unknown_line_counts_add_nothing() {
    let with_unknown = vec![
        labelled(NodeType::UsedDepPublic, Some(("Q", "1.0.0")), true, -1),
        labelled(NodeType::UsedDepPublic, Some(("Q", "1.0.0")), true, 12),
        labelled(NodeType::Std, None, true, -1),
        labelled(NodeType::Local, Some(("P", "1.0.0")), true, -1),
        labelled(NodeType::UsedDep, Some(("Q", "1.0.0")), true, isize::MIN),
    ];
    let metrics = measure_graph(&with_unknown, &"P".to_string());
    assert_eq!(metrics.TotalLOC, 12);
    assert_eq!(metrics.TotalDepLOC, 12);
    assert_eq!(metrics.TotalStdLOC, 0);
    assert_eq!(metrics.TotalFuncCount, 5);
    let metric = measure_dependency(&with_unknown, "Q".to_string(), "1.0.0".to_string());
    assert_eq!(metric.total_loc, 12);
    assert_eq!(metric.used_loc, 12);
    assert_eq!(metric.totalCount, 4);
    assert_eq!(metric.usedCount, 2);

    let without: Vec<Node> =
        with_unknown.iter().filter(|node| node.num_lines >= 0).cloned().collect();
    let fewer = measure_graph(&without, &"P".to_string());
    assert_eq!(fewer.TotalLOC, metrics.TotalLOC);
    assert_eq!(fewer.TotalDepLOC, metrics.TotalDepLOC);
    assert_eq!(fewer.TotalStdLOC, metrics.TotalStdLOC);
}

#[test]
fn dependency_metric_leaves_std_and_unclassified_nodes_out() {
    let graph = vec![
        labelled(NodeType::Unclassified, Some(("Q", "1.0.0")), true, 1),
        labelled(NodeType::Local, Some(("Q", "1.0.0")), true, 2),
        labelled(NodeType::LocalPublic, Some(("Q", "1.0.0")), true, 4),
        labelled(NodeType::Std, None, true, 8),
        labelled(NodeType::UsedDep, Some(("R", "1.0.0")), true, 16),
        labelled(NodeType::UsedDepPublic, Some(("R", "1.0.0")), true, 32),
    ];
    let metric = measure_dependency(&graph, "Q".to_string(), "1.0.0".to_string());
    assert_eq!(metric.totalCount, 4);
    assert_eq!(metric.usedCount, 2);
    assert_eq!(metric.total_loc, 54);
    assert_eq!(metric.used_loc, 36);
    assert_eq!(metric.crate_name, "Q");
    assert_eq!(metric.crate_version, "1.0.0");
}

#[test]
fn metrics_of_an_empty_graph() {
    let metrics = measure_graph(&Vec::new(), &"P".to_string());
    assert_eq!(
        metrics,
        Metrics {
            TotalFuncCount: 0,
            LocalFuncCount: 0,
            StdFuncCount: 0,
            TotalDepFuncCount: 0,
            UsedDepFuncCount: 0,
            TotalDepPublicFuncCount: 0,
            UsedDepPublicFuncCount: 0,
            TotalDepLOC: 0,
            TotalLOC: 0,
            TotalStdLOC: 0,
            depMetrics: Vec::new(),
        }
    );
    let metric = measure_dependency(&Vec::new(), "Q".to_string(), "1.0.0".to_string());
    assert_eq!((metric.totalCount, metric.usedCount), (0, 0));
    assert_eq!((metric.total_loc, metric.used_loc), (0, 0));
}

#[test]
fn lines_that_fit_the_machine_word() {
    assert!(total_lines_fit(&Vec::new()));
    assert!(total_lines_fit(&diamond()));
    let large = vec![
        labelled(NodeType::Unclassified, None, false, isize::MAX),
        labelled(NodeType::Unclassified, None, false, isize::MAX),
        labelled(NodeType::Unclassified, None, false, -5),
        labelled(NodeType::Unclassified, None, false, 1),
    ];
    assert!(total_lines_fit(&large));
    let metrics = measure_graph(&large, &"P".to_string());
    assert_eq!(metrics.TotalLOC, usize::MAX);
    assert_eq!(metrics.TotalStdLOC, usize::MAX);
}

#[test]
fn lines_that_do_not_fit_the_machine_word() {
    let too_large = vec![
        labelled(NodeType::Unclassified, None, false, isize::MAX),
        labelled(NodeType::Unclassified, None, false, isize::MAX),
        labelled(NodeType::Unclassified, None, false, 2),
    ];
    assert!(!total_lines_fit(&too_large));
}

#[test]
fn crate_data_holds_two_counts() {
    let data = CrateData { usedCount: 3, totalCount: 8 };
    let copy = data;
    assert_eq!(copy, CrateData { usedCount: 3, totalCount: 8 });
    assert!(data.usedCount <= data.totalCount);
}

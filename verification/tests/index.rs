use leanness::error::AnalysisError;
use leanness::graph::{Edge, Node, NodeType};
use leanness::index_calculator::get_index;
use leanness::metrics::{DepMetric, Metrics};
use leanness::resolver::{Dependency, Manifest, Package};
use leanness::version::canonical_version;

fn edges(targets: &[usize]) -> Vec<Edge> {
    targets.iter().map(|&target| Edge { target, some_bool: false }).collect()
}

fn node(
    id: usize,
    unit: &str,
    owner: Option<(&str, &str)>,
    visible: bool,
    lines: isize,
    out: &[usize],
    inward: &[usize],
) -> Node {
    Node {
        id,
        package_name: owner.map(|(name, _)| name.to_string()),
        package_version: owner.map(|(_, version)| version.to_string()),
        crate_name: unit.to_string(),
        relative_def_id: String::new(),
        inward_edges: edges(inward),
        outward_edges: edges(out),
        num_lines: lines,
        is_externally_visible: visible,
        node_type: NodeType::Unclassified,
    }
}

fn package(name: &str, version: &str, dependencies: &[(&str, &str)]) -> Package {
    Package {
        name: name.to_string(),
        version: version.to_string(),
        dependencies: dependencies
            .iter()
            .map(|(name, version)| Dependency {
                name: name.to_string(),
                version: version.to_string(),
            })
            .collect(),
    }
}

fn diamond() -> Vec<Node> {
    vec![
        node(0, "P", Some(("P", "1.0.0")), false, 10, &[1, 2], &[]),
        node(1, "P", Some(("P", "1.0.0")), false, -1, &[3], &[0]),
        node(2, "Q", Some(("Q", "1.0.0")), true, 7, &[3], &[0]),
        node(3, "std", None, false, 3, &[], &[1, 2]),
    ]
}

fn manifest() -> Manifest {
    Manifest {
        packages: vec![package("P", "1.0.0", &[("Q", "1.0.0")]), package("Q", "1.0.0", &[])],
    }
}

#[test]
fn index_of_a_package_with_one_dependency() {
    let metrics = get_index(&manifest(), diamond(), &"P".to_string(), &"1.0.0".to_string());
    assert_eq!(
        metrics,
        Ok(Metrics {
            TotalFuncCount: 4,
            LocalFuncCount: 2,
            StdFuncCount: 1,
            TotalDepFuncCount: 1,
            UsedDepFuncCount: 1,
            TotalDepPublicFuncCount: 1,
            UsedDepPublicFuncCount: 1,
            TotalDepLOC: 7,
            TotalLOC: 20,
            TotalStdLOC: 3,
            depMetrics: vec![DepMetric {
                crate_name: "Q".to_string(),
                crate_version: "1.0.0".to_string(),
                usedCount: 1,
                totalCount: 1,
                total_loc: 7,
                used_loc: 7,
            }],
        })
    );
}

fn two_dependencies() -> (Manifest, Vec<Node>) {
    let manifest = Manifest {
        packages: vec![
            package("app", "0.1.0", &[("left", "1.2.3"), ("right", "2.0.0-rc.1")]),
            package("left", "1.2.3", &[("base", "0.9.0")]),
            package("right", "2.0.0-rc.1", &[("base", "0.9.0")]),
            package("base", "0.9.0", &[]),
        ],
    };
    let graph = vec![
        node(0, "app", Some(("app", "0.1.0")), false, 5, &[1, 3], &[]),
        node(1, "left", Some(("left", "1.2.3")), true, 10, &[5], &[0]),
        node(2, "left", Some(("left", "1.2.3")), true, 20, &[6], &[]),
        node(3, "right", Some(("right", "2.0.0-rc.1")), true, 30, &[5, 7], &[0]),
        node(4, "right", Some(("right", "2.0.0-rc.1")), false, 40, &[], &[]),
        node(5, "base", Some(("base", "0.9.0")), true, 50, &[], &[1, 3]),
        node(6, "base", Some(("base", "0.9.0")), true, 60, &[], &[2]),
        node(7, "core", None, true, 70, &[], &[3]),
        node(8, "base", Some(("base", "0.9.0")), false, -1, &[], &[]),
    ];
    (manifest, graph)
}

#[test]
fn index_measures_each_dependency_on_the_graph_as_loaded() {
    let (manifest, graph) = two_dependencies();
    let metrics = get_index(&manifest, graph, &"app".to_string(), &"0.1.0".to_string()).unwrap();
    assert_eq!(metrics.TotalFuncCount, 9);
    assert_eq!(metrics.LocalFuncCount, 1);
    assert_eq!(metrics.StdFuncCount, 1);
    assert_eq!(metrics.TotalDepFuncCount, 7);
    assert_eq!(metrics.UsedDepFuncCount, 3);
    assert_eq!(metrics.TotalDepPublicFuncCount, 5);
    assert_eq!(metrics.UsedDepPublicFuncCount, 3);
    assert_eq!(metrics.TotalDepLOC, 210);
    assert_eq!(metrics.TotalLOC, 285);
    assert_eq!(metrics.TotalStdLOC, 70);
    assert_eq!(
        metrics.depMetrics,
        vec![
            DepMetric {
                crate_name: "left".to_string(),
                crate_version: "1.2.3".to_string(),
                usedCount: 2,
                totalCount: 5,
                total_loc: 140,
                used_loc: 60,
            },
            DepMetric {
                crate_name: "right".to_string(),
                crate_version: "2.0.0-rc.1".to_string(),
                usedCount: 2,
                totalCount: 4,
                total_loc: 140,
                used_loc: 80,
            },
        ]
    );
}

#[test]
fn index_of_a_package_without_dependencies() {
    let manifest = Manifest { packages: vec![package("P", "1.0.0", &[])] };
    let metrics = get_index(&manifest, diamond(), &"P".to_string(), &"1.0.0".to_string()).unwrap();
    assert!(metrics.depMetrics.is_empty());
    assert_eq!(metrics.TotalFuncCount, 4);
    assert_eq!(metrics.UsedDepFuncCount, 1);
}

#[test]
fn index_rejects_a_version_that_is_none() {
    for version in ["1.0", "", "1.0.0.0", "01.0.0", "1.0.0-", "v1.0.0", " 1.0.0"] {
        assert_eq!(
            get_index(&manifest(), diamond(), &"P".to_string(), &version.to_string()),
            Err(AnalysisError::MalformedInput),
            "version {:?}",
            version
        );
    }
}

#[test]
fn index_rejects_a_version_that_is_none_before_it_looks_the_package_up() {
    assert_eq!(
        get_index(&manifest(), diamond(), &"unknown".to_string(), &"one".to_string()),
        Err(AnalysisError::MalformedInput)
    );
}

#[test]
fn index_of_a_package_that_the_manifest_lacks() {
    assert_eq!(
        get_index(&manifest(), diamond(), &"P".to_string(), &"1.0.1".to_string()),
        Err(AnalysisError::NotFound)
    );
    assert_eq!(
        get_index(&manifest(), diamond(), &"R".to_string(), &"1.0.0".to_string()),
        Err(AnalysisError::NotFound)
    );
}

#[test]
fn index_of_a_graph_with_an_edge_beyond_it() {
    let mut graph = diamond();
    graph[1].outward_edges.push(Edge { target: 4, some_bool: false });
    assert_eq!(
        get_index(&manifest(), graph, &"P".to_string(), &"1.0.0".to_string()),
        Err(AnalysisError::InconsistentGraph)
    );
}

#[test]
fn index_fails_where_the_analysis_of_a_dependency_fails() {
    // The caller of node 2 that lies beyond the graph is looked up only when
    // the dependency is analysed.
    let mut graph = diamond();
    graph[2].inward_edges.insert(0, Edge { target: 9, some_bool: false });
    assert_eq!(
        get_index(&manifest(), graph, &"P".to_string(), &"1.0.0".to_string()),
        Err(AnalysisError::InconsistentGraph)
    );
}

#[test]
fn index_fails_where_a_dependency_has_no_version() {
    let manifest = Manifest {
        packages: vec![package("P", "1.0.0", &[("Q", "latest")]), package("Q", "latest", &[])],
    };
    assert_eq!(
        get_index(&manifest, diamond(), &"P".to_string(), &"1.0.0".to_string()),
        Err(AnalysisError::MalformedInput)
    );
}

#[test]
fn index_fails_where_the_manifest_lacks_a_dependency() {
    let manifest = Manifest { packages: vec![package("P", "1.0.0", &[("Q", "1.0.0")])] };
    assert_eq!(
        get_index(&manifest, diamond(), &"P".to_string(), &"1.0.0".to_string()),
        Err(AnalysisError::NotFound)
    );
    let deeper = Manifest {
        packages: vec![
            package("P", "1.0.0", &[("Q", "1.0.0")]),
            package("Q", "1.0.0", &[("R", "1.0.0")]),
        ],
    };
    assert_eq!(
        get_index(&deeper, diamond(), &"P".to_string(), &"1.0.0".to_string()),
        Err(AnalysisError::NotFound)
    );
}

#[test]
fn canonical_version_of_a_version() {
    for text in ["0.0.0", "1.2.3", "10.20.30", "1.0.0-alpha.1", "1.0.0+001", "1.0.0-rc.1+build.5"] {
        assert_eq!(canonical_version(&text.to_string()), Ok(text.to_string()));
    }
}

#[test]
fn canonical_version_of_what_is_no_version() {
    for text in ["", "1", "1.2", "1.2.3.4", "1.02.3", "1.2.3-", "1.2.3+", "1.2.3-a_b", "x.y.z"] {
        assert_eq!(canonical_version(&text.to_string()), Err(AnalysisError::MalformedInput));
    }
    assert_eq!(
        canonical_version(&"23456789999999999999.0.0".to_string()),
        Err(AnalysisError::MalformedInput)
    );
}

use crate::classifier::{analyze_graph_for_package, analyze_graph_for_package2};
use crate::error::AnalysisError;
use crate::graph::{
    dependency_usage, dependency_usage_fails, retro_label, self_usage, self_usage_fails, spread,
    Node, NodeType,
};
use crate::package::{keys_of, PackageKey};
use crate::metrics::{
    any_node, dep_metric_of, graph_metrics, lines_where, measure_dependency, measure_graph,
    total_lines, DepMetricView, Metrics, MetricsView,
};
use crate::reach::lemma_spread_keeps_nodes;
use crate::resolver::{declared_by, get_all_deps, get_deps, transitive, Manifest, Package};
use crate::version::{canonical_version, semver_text};
use vstd::prelude::*;

verus! {

/// What the analysis of how `main` uses its direct dependency `dep` comes to.
///
/// The version of the dependency is brought to its canonical text, the
/// transitive dependencies of the dependency are resolved, the graph `g` is
/// classified for the dependency, and the classified graph is measured. The
/// first of these steps that fails gives the error.
pub open spec fn dep_metric_outcome(
    packages: Seq<Package>,
    g: Seq<Node>,
    main: Seq<char>,
    dep: PackageKey,
) -> Result<DepMetricView, AnalysisError> {
    match semver_text(dep.1) {
        None => Err(AnalysisError::MalformedInput),
        Some(canonical) => match transitive(packages, (dep.0, canonical)) {
            None => Err(AnalysisError::NotFound),
            Some(deps) => if dependency_usage_fails(g, dep.0, main) {
                Err(AnalysisError::InconsistentGraph)
            } else {
                Ok(dep_metric_of(dependency_usage(g, dep.0, main, deps.to_set()), dep.0, dep.1))
            },
        },
    }
}

/// What the analyses of the direct dependencies `direct` of `main` come to,
/// taken in order: the metrics of all of them, or the error of the first
/// that fails.
pub open spec fn dep_metrics_outcome(
    packages: Seq<Package>,
    g: Seq<Node>,
    main: Seq<char>,
    direct: Seq<PackageKey>,
) -> Result<Seq<DepMetricView>, AnalysisError>
    decreases direct.len(),
{
    if direct.len() == 0 {
        Ok(Seq::empty())
    } else {
        match dep_metrics_outcome(packages, g, main, direct.drop_last()) {
            Err(e) => Err(e),
            Ok(before) => match dep_metric_outcome(packages, g, main, direct.last()) {
                Err(e) => Err(e),
                Ok(metric) => Ok(before.push(metric)),
            },
        }
    }
}

/// What the analysis of package `name` at `version` comes to, for the manifest
/// `packages` and the call graph `g` as loaded.
///
/// The version is brought to its canonical text and the direct dependencies
/// are looked up; the graph is classified for the package against itself and
/// measured; then each direct dependency is analysed on the graph as loaded.
/// The first step that fails gives the error, and then there are no metrics
/// at all.
pub open spec fn index_outcome(
    packages: Seq<Package>,
    g: Seq<Node>,
    name: Seq<char>,
    version: Seq<char>,
) -> Result<MetricsView, AnalysisError> {
    match semver_text(version) {
        None => Err(AnalysisError::MalformedInput),
        Some(canonical) => match declared_by(packages, (name, canonical)) {
            None => Err(AnalysisError::NotFound),
            Some(direct) => if self_usage_fails(g, name) {
                Err(AnalysisError::InconsistentGraph)
            } else {
                match dep_metrics_outcome(packages, g, name, direct) {
                    Err(e) => Err(e),
                    Ok(per_dep) => Ok(graph_metrics(self_usage(g, name), name, per_dep)),
                }
            },
        },
    }
}

/// `c` is `g` but for the categories of its nodes.
pub open spec fn same_but_types(g: Seq<Node>, c: Seq<Node>) -> bool {
    &&& c.len() == g.len()
    &&& forall|i: int| 0 <= i < g.len() ==> (#[trigger] c[i]) == g[i].with_type(c[i].node_type)
}

/// An analysis changes nothing of a graph but the categories of its nodes.
pub proof fn lemma_analysis_keeps_nodes(
    g: Seq<Node>,
    unit: Seq<char>,
    main: Seq<char>,
    deps: Set<PackageKey>,
)
    ensures
        same_but_types(g, self_usage(g, unit)),
        same_but_types(g, dependency_usage(g, unit, main, deps)),
{
    let own = self_usage(g, unit);
    assert forall|i: int| 0 <= i < g.len() implies (#[trigger] own[i]) == g[i].with_type(
        own[i].node_type,
    ) by {
        lemma_spread_keeps_nodes(g, crate::graph::unit_seeds(g, unit), unit, false, i);
    }
    let g1 = spread(g, crate::graph::public_seeds(g, unit, main), unit, true);
    let g2 = spread(g1, crate::graph::private_seeds(g, unit, main), unit, false);
    let g3 = retro_label(g2, deps);
    assert forall|i: int| 0 <= i < g.len() implies (#[trigger] g3[i]) == g[i].with_type(
        g3[i].node_type,
    ) by {
        lemma_spread_keeps_nodes(g, crate::graph::public_seeds(g, unit, main), unit, true, i);
        lemma_spread_keeps_nodes(g1, crate::graph::private_seeds(g, unit, main), unit, false, i);
    }
}

/// Categories do not enter into the lines of a graph.
pub proof fn lemma_lines_ignore_types(g: Seq<Node>, c: Seq<Node>)
    requires
        same_but_types(g, c),
    ensures
        total_lines(c) == total_lines(g),
    decreases g.len(),
{
    if g.len() > 0 {
        assert(c.last() == g.last().with_type(c.last().node_type));
        assert forall|i: int| 0 <= i < g.len() - 1 implies (#[trigger] c.drop_last()[i])
            == g.drop_last()[i].with_type(c.drop_last()[i].node_type) by {
            assert(c.drop_last()[i] == c[i]);
        }
        lemma_lines_ignore_types(g.drop_last(), c.drop_last());
    }
}

/// Run again on its own result, the analysis of a package against itself
/// changes nothing: no category is written twice.
pub proof fn lemma_self_usage_again(g: Seq<Node>, unit: Seq<char>)
    ensures
        self_usage(self_usage(g, unit), unit) == self_usage(g, unit),
{
    let seeds = crate::graph::unit_seeds(g, unit);
    let once = self_usage(g, unit);
    assert forall|i: int| crate::graph::unit_seeds(once, unit).contains(i) == seeds.contains(i) by {
        if 0 <= i < g.len() {
            lemma_spread_keeps_nodes(g, seeds, unit, false, i);
        }
    }
    assert(crate::graph::unit_seeds(once, unit) =~= seeds);
    crate::reach::lemma_spread_again(g, seeds, unit, false);
}

/// The counts of a package's own functions, of the functions of the standard
/// library and of the functions of its dependencies add up to the number of
/// all functions, for a graph that comes unclassified and in which every node
/// of the package has an owning package.
pub proof fn lemma_counts_add_up(g: Seq<Node>, unit: Seq<char>, per_dep: Seq<DepMetricView>)
    requires
        forall|i: int| 0 <= i < g.len() ==> !(#[trigger] g[i]).node_type.is_set(),
        forall|i: int| 0 <= i < g.len() && (#[trigger] g[i]).in_unit(unit) ==> !g[i].is_std(),
    ensures
        ({
            let metrics = graph_metrics(self_usage(g, unit), unit, per_dep);
            metrics.local_func_count + metrics.std_func_count + metrics.total_dep_func_count
                == metrics.total_func_count
        }),
{
    let seeds = crate::graph::unit_seeds(g, unit);
    let c = self_usage(g, unit);
    let own = |n: Node| n.in_unit(unit);
    assert forall|i: int| 0 <= i < c.len() implies crate::metrics::local_nodes()(#[trigger] c[i])
        == own(c[i]) by {
        lemma_spread_keeps_nodes(g, seeds, unit, false, i);
        if g[i].in_unit(unit) {
            crate::reach::lemma_reaches_seed(g, seeds, i);
        }
    }
    crate::metrics::lemma_count_same_choice(c, crate::metrics::local_nodes(), own);
    assert forall|i: int| 0 <= i < c.len() implies (own(#[trigger] c[i])
        || crate::metrics::std_nodes()(c[i]) || crate::metrics::dep_nodes(unit)(c[i])) && !(own(
        c[i],
    ) && crate::metrics::std_nodes()(c[i])) && !(own(c[i]) && crate::metrics::dep_nodes(unit)(
        c[i],
    )) && !(crate::metrics::std_nodes()(c[i]) && crate::metrics::dep_nodes(unit)(c[i])) by {
        lemma_spread_keeps_nodes(g, seeds, unit, false, i);
    }
    crate::metrics::lemma_counts_of_three_kinds(
        c,
        own,
        crate::metrics::std_nodes(),
        crate::metrics::dep_nodes(unit),
    );
}

/// In a graph that comes unclassified, what the analysis of a package against
/// itself classifies as a used function of a dependency has an owning package
/// and belongs to another package.
pub proof fn lemma_used_dep_is_of_a_dependency(g: Seq<Node>, unit: Seq<char>, i: int)
    requires
        forall|k: int| 0 <= k < g.len() ==> !(#[trigger] g[k]).node_type.is_set(),
        0 <= i < g.len(),
        self_usage(g, unit)[i].node_type == NodeType::UsedDep,
    ensures
        crate::metrics::dep_nodes(unit)(self_usage(g, unit)[i]),
{
    lemma_spread_keeps_nodes(g, crate::graph::unit_seeds(g, unit), unit, false, i);
}

/// Once the analysis of one dependency has failed, the analyses of the direct
/// dependencies have failed with its error, whatever follows.
proof fn lemma_first_error_stays(
    packages: Seq<Package>,
    g: Seq<Node>,
    main: Seq<char>,
    direct: Seq<PackageKey>,
    n: int,
    e: AnalysisError,
)
    requires
        0 <= n <= direct.len(),
        dep_metrics_outcome(packages, g, main, direct.take(n)) == Err::<
            Seq<DepMetricView>,
            AnalysisError,
        >(e),
    ensures
        dep_metrics_outcome(packages, g, main, direct) == Err::<
            Seq<DepMetricView>,
            AnalysisError,
        >(e),
    decreases direct.len(),
{
    if n == direct.len() {
        assert(direct.take(n) =~= direct);
    } else {
        assert(direct.drop_last().take(n) =~= direct.take(n));
        lemma_first_error_stays(packages, g, main, direct.drop_last(), n, e);
    }
}

/// The category of every node, in the order of the graph.
fn node_types(graph: &Vec<Node>) -> (types: Vec<NodeType>)
    ensures
        types@.len() == graph@.len(),
        forall|i: int| 0 <= i < graph@.len() ==> types@[i] == (#[trigger] graph@[i]).node_type,
{
    let mut types: Vec<NodeType> = Vec::new();
    let mut i: usize = 0;
    while i < graph.len()
        invariant
            i <= graph.len(),
            types@.len() == i,
            forall|k: int| 0 <= k < i ==> types@[k] == (#[trigger] graph@[k]).node_type,
        decreases graph.len() - i,
    {
        types.push(graph[i].node_type);
        i += 1;
    }
    types
}

/// Gives every node the category that `types` holds for it.
fn restore_types(graph: &mut Vec<Node>, types: &Vec<NodeType>)
    requires
        types@.len() == old(graph)@.len(),
    ensures
        final(graph)@.len() == old(graph)@.len(),
        forall|i: int|
            0 <= i < old(graph)@.len() ==> (#[trigger] final(graph)@[i])
                == old(graph)@[i].with_type(types@[i]),
{
    let mut i: usize = 0;
    while i < graph.len()
        invariant
            i <= graph@.len(),
            graph@.len() == old(graph)@.len(),
            types@.len() == graph@.len(),
            forall|k: int|
                0 <= k < i ==> (#[trigger] graph@[k]) == old(graph)@[k].with_type(types@[k]),
            forall|k: int| i <= k < graph@.len() ==> (#[trigger] graph@[k]) == old(graph)@[k],
        decreases graph@.len() - i,
    {
        graph[i].node_type = types[i];
        i += 1;
    }
}

/// Tells whether the lines of all nodes of the graph, taken together, fit the
/// machine's word, as `get_index` and the measuring functions need it.
pub fn total_lines_fit(graph: &Vec<Node>) -> (fit: bool)
    ensures
        fit == (total_lines(graph@) <= usize::MAX),
{
    let ghost g = graph@;
    let mut sum: usize = 0;
    let mut i: usize = 0;
    while i < graph.len()
        invariant
            g == graph@,
            i <= g.len(),
            sum == total_lines(g.take(i as int)),
        decreases g.len() - i,
    {
        proof {
            crate::metrics::lemma_lines_next(g, i as int, any_node());
        }
        let lines: usize = if graph[i].num_lines >= 0 {
            graph[i].num_lines as usize
        } else {
            0
        };
        match sum.checked_add(lines) {
            Some(more) => {
                sum = more;
            },
            None => {
                return false;
            },
        }
        i += 1;
    }
    assert(g.take(g.len() as int) =~= g);
    true
}

/// Computes the metrics of package `crate_name` at `crate_version` from the
/// manifest and from the call graph as loaded.
///
/// The package is classified against itself and measured. Then, for each of
/// its direct dependencies in the order in which the manifest declares them,
/// the graph as loaded is classified for that dependency and measured. Either
/// all of it succeeds, or the first failure is the result:
/// - `MalformedInput` for a version that is none under Semantic Versioning;
/// - `NotFound` for a package that the manifest lacks;
/// - `InconsistentGraph` for an edge that a classification follows to a
///   position beyond the graph.
///
/// The sum of the lines of all nodes must fit the machine's word;
/// `total_lines_fit` tells whether it does.
pub fn get_index(
    manifest: &Manifest,
    graph: Vec<Node>,
    crate_name: &String,
    crate_version: &String,
) -> (r: Result<Metrics, AnalysisError>)
    requires
        total_lines(graph@) <= usize::MAX,
    ensures
        match r {
            Ok(metrics) => index_outcome(manifest.packages@, graph@, crate_name@, crate_version@)
                == Ok::<MetricsView, AnalysisError>(metrics@),
            Err(e) => index_outcome(manifest.packages@, graph@, crate_name@, crate_version@)
                == Err::<MetricsView, AnalysisError>(e),
        },
{
    let ghost packages = manifest.packages@;
    let ghost g = graph@;
    let ghost main = crate_name@;
    let canonical = match canonical_version(crate_version) {
        Ok(canonical) => canonical,
        Err(e) => {
            return Err(e);
        },
    };
    let deps = match get_deps(manifest, crate_name, &canonical) {
        Ok(deps) => deps,
        Err(e) => {
            return Err(e);
        },
    };
    let ghost direct = keys_of(deps@);
    let loaded = node_types(&graph);
    let mut working = match analyze_graph_for_package(graph, crate_name) {
        Ok(classified) => classified,
        Err(e) => {
            return Err(e);
        },
    };
    proof {
        lemma_analysis_keeps_nodes(g, main, main, Set::empty());
        lemma_lines_ignore_types(g, working@);
    }
    let mut output = measure_graph(&working, crate_name);
    let mut i: usize = 0;
    proof {
        assert(direct.take(0) =~= Seq::<PackageKey>::empty());
    }
    while i < deps.len()
        invariant
            packages == manifest.packages@,
            g == graph@,
            main == crate_name@,
            direct == keys_of(deps@),
            i <= deps.len(),
            total_lines(g) <= usize::MAX,
            same_but_types(g, working@),
            loaded@.len() == g.len(),
            forall|k: int| 0 <= k < g.len() ==> loaded@[k] == (#[trigger] g[k]).node_type,
            semver_text(crate_version@) matches Some(canon) && declared_by(
                packages,
                (main, canon),
            ) == Some(direct),
            !self_usage_fails(g, main),
            output@ == graph_metrics(self_usage(g, main), main, output@.dep_metrics),
            dep_metrics_outcome(packages, g, main, direct.take(i as int)) == Ok::<
                Seq<DepMetricView>,
                AnalysisError,
            >(output@.dep_metrics),
        decreases deps.len() - i,
    {
        let ghost before = output@;
        proof {
            assert(direct.take(i + 1).drop_last() =~= direct.take(i as int));
            assert(direct.take(i + 1).last() == direct[i as int]);
            assert(direct[i as int] == (deps@[i as int].0@, deps@[i as int].1@));
        }
        restore_types(&mut working, &loaded);
        assert(working@ =~= g);
        let canonical = match canonical_version(&deps[i].1) {
            Ok(canonical) => canonical,
            Err(e) => {
                proof {
                    lemma_first_error_stays(packages, g, main, direct, i + 1, e);
                }
                return Err(e);
            },
        };
        let tr_deps = match get_all_deps(manifest, &deps[i].0, &canonical) {
            Ok(tr_deps) => tr_deps,
            Err(e) => {
                proof {
                    lemma_first_error_stays(packages, g, main, direct, i + 1, e);
                }
                return Err(e);
            },
        };
        working = match analyze_graph_for_package2(working, &deps[i].0, crate_name, &tr_deps) {
            Ok(classified) => classified,
            Err(e) => {
                proof {
                    lemma_first_error_stays(packages, g, main, direct, i + 1, e);
                }
                return Err(e);
            },
        };
        proof {
            lemma_analysis_keeps_nodes(g, deps@[i as int].0@, main, keys_of(tr_deps@).to_set());
            lemma_lines_ignore_types(g, working@);
        }
        let metric = measure_dependency(&working, deps[i].0.clone(), deps[i].1.clone());
        output.depMetrics.push(metric);
        proof {
            assert(output@.dep_metrics =~= before.dep_metrics.push(metric@));
        }
        i += 1;
    }
    proof {
        assert(direct.take(deps.len() as int) =~= direct);
    }
    Ok(output)
}

} // verus!

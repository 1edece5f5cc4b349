use crate::graph::{Node, NodeType};
use vstd::prelude::*;

verus! {

/// Counts of one package: how many functions it has and how many are used.
#[allow(non_snake_case)]
#[derive(Clone, Copy, Debug, PartialEq, Eq, Structural)]
pub struct CrateData {
    pub usedCount: usize,
    pub totalCount: usize,
}

/// How a package uses one of its direct dependencies: the functions, and their
/// lines, that the analysis of the dependency classified, and the part of them
/// that is used through the public surface of the dependency.
#[allow(non_snake_case)]
#[derive(Clone, Debug, PartialEq, Eq)]
pub struct DepMetric {
    pub crate_name: String,
    pub crate_version: String,
    pub usedCount: usize,
    pub totalCount: usize,
    pub total_loc: usize,
    pub used_loc: usize,
}

/// The counts and line sums of one analysed package, with one `DepMetric` for
/// each of its direct dependencies.
#[allow(non_snake_case)]
#[derive(Clone, Debug, PartialEq, Eq)]
pub struct Metrics {
    pub TotalFuncCount: usize,
    pub LocalFuncCount: usize,
    pub StdFuncCount: usize,
    pub TotalDepFuncCount: usize,
    pub UsedDepFuncCount: usize,
    pub TotalDepPublicFuncCount: usize,
    pub UsedDepPublicFuncCount: usize,
    pub TotalDepLOC: usize,
    pub TotalLOC: usize,
    pub TotalStdLOC: usize,
    pub depMetrics: Vec<DepMetric>,
}

/// A `DepMetric` as plain values.
pub struct DepMetricView {
    pub crate_name: Seq<char>,
    pub crate_version: Seq<char>,
    pub used_count: nat,
    pub total_count: nat,
    pub total_loc: nat,
    pub used_loc: nat,
}

/// A `Metrics` as plain values.
pub struct MetricsView {
    pub total_func_count: nat,
    pub local_func_count: nat,
    pub std_func_count: nat,
    pub total_dep_func_count: nat,
    pub used_dep_func_count: nat,
    pub total_dep_public_func_count: nat,
    pub used_dep_public_func_count: nat,
    pub total_dep_loc: nat,
    pub total_loc: nat,
    pub total_std_loc: nat,
    pub dep_metrics: Seq<DepMetricView>,
}

impl View for DepMetric {
    type V = DepMetricView;

    open spec fn view(&self) -> DepMetricView {
        DepMetricView {
            crate_name: self.crate_name@,
            crate_version: self.crate_version@,
            used_count: self.usedCount as nat,
            total_count: self.totalCount as nat,
            total_loc: self.total_loc as nat,
            used_loc: self.used_loc as nat,
        }
    }
}

impl View for Metrics {
    type V = MetricsView;

    open spec fn view(&self) -> MetricsView {
        MetricsView {
            total_func_count: self.TotalFuncCount as nat,
            local_func_count: self.LocalFuncCount as nat,
            std_func_count: self.StdFuncCount as nat,
            total_dep_func_count: self.TotalDepFuncCount as nat,
            used_dep_func_count: self.UsedDepFuncCount as nat,
            total_dep_public_func_count: self.TotalDepPublicFuncCount as nat,
            used_dep_public_func_count: self.UsedDepPublicFuncCount as nat,
            total_dep_loc: self.TotalDepLOC as nat,
            total_loc: self.TotalLOC as nat,
            total_std_loc: self.TotalStdLOC as nat,
            dep_metrics: Seq::new(self.depMetrics@.len(), |k: int| self.depMetrics@[k]@),
        }
    }
}

/// Number of nodes of `g` that `wanted` holds of.
pub open spec fn count_where(g: Seq<Node>, wanted: spec_fn(Node) -> bool) -> nat
    decreases g.len(),
{
    if g.len() == 0 {
        0
    } else {
        count_where(g.drop_last(), wanted) + if wanted(g.last()) {
            1nat
        } else {
            0nat
        }
    }
}

/// Lines of code of the nodes of `g` that `wanted` holds of. A node whose
/// number of lines is unknown adds nothing.
pub open spec fn lines_where(g: Seq<Node>, wanted: spec_fn(Node) -> bool) -> nat
    decreases g.len(),
{
    if g.len() == 0 {
        0
    } else {
        lines_where(g.drop_last(), wanted) + if wanted(g.last()) {
            g.last().lines()
        } else {
            0nat
        }
    }
}

/// Every node.
pub open spec fn any_node() -> spec_fn(Node) -> bool {
    |n: Node| true
}

/// The nodes that a run classified as the reference package's own.
pub open spec fn local_nodes() -> spec_fn(Node) -> bool {
    |n: Node| n.node_type == NodeType::Local
}

/// The nodes of the standard library: those without an owning package,
/// whatever their category.
pub open spec fn std_nodes() -> spec_fn(Node) -> bool {
    |n: Node| n.is_std()
}

/// The nodes of the dependencies of package `unit`: those that have an owning
/// package and belong to another unit.
pub open spec fn dep_nodes(unit: Seq<char>) -> spec_fn(Node) -> bool {
    |n: Node| !n.is_std() && !n.in_unit(unit)
}

/// The nodes that a run classified as a used function of a dependency.
pub open spec fn used_dep_nodes() -> spec_fn(Node) -> bool {
    |n: Node| n.node_type == NodeType::UsedDep
}

/// The externally visible nodes among `dep_nodes(unit)`.
pub open spec fn public_dep_nodes(unit: Seq<char>) -> spec_fn(Node) -> bool {
    |n: Node| !n.is_std() && !n.in_unit(unit) && n.is_externally_visible
}

/// The externally visible nodes among `used_dep_nodes()`.
pub open spec fn public_used_dep_nodes() -> spec_fn(Node) -> bool {
    |n: Node| n.node_type == NodeType::UsedDep && n.is_externally_visible
}

/// The nodes that a run classified, but for those it found to be of the
/// standard library.
pub open spec fn counted_nodes() -> spec_fn(Node) -> bool {
    |n: Node| n.node_type.is_set() && n.node_type != NodeType::Std
}

/// The nodes that a run reached through the public surface of a dependency.
pub open spec fn surface_nodes() -> spec_fn(Node) -> bool {
    |n: Node| n.node_type == NodeType::LocalPublic || n.node_type == NodeType::UsedDepPublic
}

/// Lines of code of the whole graph.
pub open spec fn total_lines(g: Seq<Node>) -> nat {
    lines_where(g, any_node())
}

/// The metrics of the classified graph `g` of package `unit`, with `per_dep`
/// for its direct dependencies.
pub open spec fn graph_metrics(
    g: Seq<Node>,
    unit: Seq<char>,
    per_dep: Seq<DepMetricView>,
) -> MetricsView {
    MetricsView {
        total_func_count: g.len(),
        local_func_count: count_where(g, local_nodes()),
        std_func_count: count_where(g, std_nodes()),
        total_dep_func_count: count_where(g, dep_nodes(unit)),
        used_dep_func_count: count_where(g, used_dep_nodes()),
        total_dep_public_func_count: count_where(g, public_dep_nodes(unit)),
        used_dep_public_func_count: count_where(g, public_used_dep_nodes()),
        total_dep_loc: lines_where(g, dep_nodes(unit)),
        total_loc: total_lines(g),
        total_std_loc: lines_where(g, std_nodes()),
        dep_metrics: per_dep,
    }
}

/// The metrics of one dependency, from the graph `g` that the analysis of the
/// dependency classified.
pub open spec fn dep_metric_of(g: Seq<Node>, name: Seq<char>, version: Seq<char>) -> DepMetricView {
    DepMetricView {
        crate_name: name,
        crate_version: version,
        used_count: count_where(g, surface_nodes()),
        total_count: count_where(g, counted_nodes()),
        total_loc: lines_where(g, counted_nodes()),
        used_loc: lines_where(g, surface_nodes()),
    }
}

/// One more node adds one to a count if it is wanted, and nothing otherwise.
pub proof fn lemma_count_next(g: Seq<Node>, i: int, wanted: spec_fn(Node) -> bool)
    requires
        0 <= i < g.len(),
    ensures
        count_where(g.take(i + 1), wanted) == count_where(g.take(i), wanted) + if wanted(g[i]) {
            1nat
        } else {
            0nat
        },
        count_where(g.take(i), wanted) <= i,
    decreases i,
{
    assert(g.take(i + 1).drop_last() =~= g.take(i));
    if i > 0 {
        lemma_count_next(g, i - 1, wanted);
    }
}

/// One more node adds its lines to a sum if it is wanted, and nothing
/// otherwise; and no part of the graph has more lines than the whole.
pub proof fn lemma_lines_next(g: Seq<Node>, i: int, wanted: spec_fn(Node) -> bool)
    requires
        0 <= i < g.len(),
    ensures
        lines_where(g.take(i + 1), wanted) == lines_where(g.take(i), wanted) + if wanted(g[i]) {
            g[i].lines()
        } else {
            0nat
        },
        lines_where(g.take(i + 1), wanted) <= total_lines(g.take(i + 1)),
        total_lines(g.take(i + 1)) <= total_lines(g),
{
    assert(g.take(i + 1).drop_last() =~= g.take(i));
    lemma_lines_bounded(g.take(i + 1), wanted);
    lemma_lines_of_prefix(g, i + 1);
}

/// The wanted nodes have no more lines than all nodes.
pub proof fn lemma_lines_bounded(g: Seq<Node>, wanted: spec_fn(Node) -> bool)
    ensures
        lines_where(g, wanted) <= total_lines(g),
    decreases g.len(),
{
    if g.len() > 0 {
        lemma_lines_bounded(g.drop_last(), wanted);
    }
}

/// The first `n` nodes have no more lines than all nodes.
pub proof fn lemma_lines_of_prefix(g: Seq<Node>, n: int)
    requires
        0 <= n <= g.len(),
    ensures
        total_lines(g.take(n)) <= total_lines(g),
    decreases g.len(),
{
    if n < g.len() {
        lemma_lines_of_prefix(g.drop_last(), n);
        assert(g.drop_last().take(n) =~= g.take(n));
    } else {
        assert(g.take(n) =~= g);
    }
}

/// A node whose number of lines is unknown adds nothing to any sum of lines:
/// every sum is what it is without the node.
pub proof fn lemma_unknown_lines_add_nothing(g: Seq<Node>, i: int, wanted: spec_fn(Node) -> bool)
    requires
        0 <= i < g.len(),
        g[i].num_lines < 0,
    ensures
        g[i].lines() == 0,
        lines_where(g, wanted) == lines_where(g.remove(i), wanted),
    decreases g.len(),
{
    if i == g.len() - 1 {
        assert(g.remove(i) =~= g.drop_last());
    } else {
        lemma_unknown_lines_add_nothing(g.drop_last(), i, wanted);
        assert(g.remove(i).drop_last() =~= g.drop_last().remove(i));
        assert(g.remove(i).last() == g.last());
    }
}

/// Where every node is of exactly one of three kinds, the three counts add up
/// to the number of nodes.
pub proof fn lemma_counts_of_three_kinds(
    g: Seq<Node>,
    first: spec_fn(Node) -> bool,
    second: spec_fn(Node) -> bool,
    third: spec_fn(Node) -> bool,
)
    requires
        forall|i: int|
            0 <= i < g.len() ==> (first(#[trigger] g[i]) || second(g[i]) || third(g[i])) && !(first(
                g[i],
            ) && second(g[i])) && !(first(g[i]) && third(g[i])) && !(second(g[i]) && third(g[i])),
    ensures
        count_where(g, first) + count_where(g, second) + count_where(g, third) == g.len(),
    decreases g.len(),
{
    if g.len() > 0 {
        assert forall|i: int| 0 <= i < g.len() - 1 implies (first(#[trigger] g.drop_last()[i])
            || second(g.drop_last()[i]) || third(g.drop_last()[i])) && !(first(g.drop_last()[i])
            && second(g.drop_last()[i])) && !(first(g.drop_last()[i]) && third(g.drop_last()[i]))
            && !(second(g.drop_last()[i]) && third(g.drop_last()[i])) by {
            assert(g.drop_last()[i] == g[i]);
        }
        lemma_counts_of_three_kinds(g.drop_last(), first, second, third);
        assert(g.last() == g[g.len() - 1]);
    }
}

/// Two ways of choosing nodes that agree on every node of the graph give the
/// same count.
pub proof fn lemma_count_same_choice(
    g: Seq<Node>,
    one: spec_fn(Node) -> bool,
    other: spec_fn(Node) -> bool,
)
    requires
        forall|i: int| 0 <= i < g.len() ==> one(#[trigger] g[i]) == other(g[i]),
    ensures
        count_where(g, one) == count_where(g, other),
    decreases g.len(),
{
    if g.len() > 0 {
        assert forall|i: int| 0 <= i < g.len() - 1 implies one(#[trigger] g.drop_last()[i])
            == other(g.drop_last()[i]) by {
            assert(g.drop_last()[i] == g[i]);
        }
        lemma_count_same_choice(g.drop_last(), one, other);
        assert(g.last() == g[g.len() - 1]);
    }
}

/// The lines of code that a node counts for.
fn lines_of(node: &Node) -> (lines: usize)
    ensures
        lines == node.lines(),
{
    if node.num_lines >= 0 {
        node.num_lines as usize
    } else {
        0
    }
}

/// Folds the classified graph of package `crate_name` into its metrics, in one
/// pass. The list of per-dependency metrics starts out empty.
///
/// The sum of the lines of all nodes must fit the machine's word: every other
/// sum is part of it.
pub fn measure_graph(graph: &Vec<Node>, crate_name: &String) -> (metrics: Metrics)
    requires
        total_lines(graph@) <= usize::MAX,
    ensures
        metrics@ == graph_metrics(graph@, crate_name@, Seq::empty()),
{
    let ghost g = graph@;
    let ghost unit = crate_name@;
    let mut local: usize = 0;
    let mut std_count: usize = 0;
    let mut dep: usize = 0;
    let mut used_dep: usize = 0;
    let mut dep_public: usize = 0;
    let mut used_dep_public: usize = 0;
    let mut dep_loc: usize = 0;
    let mut total_loc: usize = 0;
    let mut std_loc: usize = 0;
    let mut i: usize = 0;
    while i < graph.len()
        invariant
            g == graph@,
            unit == crate_name@,
            i <= g.len(),
            total_lines(g) <= usize::MAX,
            local == count_where(g.take(i as int), local_nodes()),
            std_count == count_where(g.take(i as int), std_nodes()),
            dep == count_where(g.take(i as int), dep_nodes(unit)),
            used_dep == count_where(g.take(i as int), used_dep_nodes()),
            dep_public == count_where(g.take(i as int), public_dep_nodes(unit)),
            used_dep_public == count_where(g.take(i as int), public_used_dep_nodes()),
            dep_loc == lines_where(g.take(i as int), dep_nodes(unit)),
            total_loc == lines_where(g.take(i as int), any_node()),
            std_loc == lines_where(g.take(i as int), std_nodes()),
        decreases g.len() - i,
    {
        proof {
            lemma_count_next(g, i as int, local_nodes());
            lemma_count_next(g, i as int, std_nodes());
            lemma_count_next(g, i as int, dep_nodes(unit));
            lemma_count_next(g, i as int, used_dep_nodes());
            lemma_count_next(g, i as int, public_dep_nodes(unit));
            lemma_count_next(g, i as int, public_used_dep_nodes());
            lemma_lines_next(g, i as int, dep_nodes(unit));
            lemma_lines_next(g, i as int, any_node());
            lemma_lines_next(g, i as int, std_nodes());
        }
        let node = &graph[i];
        let lines = lines_of(node);
        let owned = node.package_name.is_some();
        let foreign = owned && !(node.crate_name == *crate_name);
        let used = node.node_type == NodeType::UsedDep;
        if node.node_type == NodeType::Local {
            local += 1;
        }
        if !owned {
            std_count += 1;
            std_loc += lines;
        }
        if foreign {
            dep += 1;
            dep_loc += lines;
            if node.is_externally_visible {
                dep_public += 1;
            }
        }
        if used {
            used_dep += 1;
            if node.is_externally_visible {
                used_dep_public += 1;
            }
        }
        total_loc += lines;
        i += 1;
    }
    assert(g.take(g.len() as int) =~= g);
    let metrics = Metrics {
        TotalFuncCount: graph.len(),
        LocalFuncCount: local,
        StdFuncCount: std_count,
        TotalDepFuncCount: dep,
        UsedDepFuncCount: used_dep,
        TotalDepPublicFuncCount: dep_public,
        UsedDepPublicFuncCount: used_dep_public,
        TotalDepLOC: dep_loc,
        TotalLOC: total_loc,
        TotalStdLOC: std_loc,
        depMetrics: Vec::new(),
    };
    assert(metrics@.dep_metrics =~= Seq::<DepMetricView>::empty());
    metrics
}

/// Folds the graph that the analysis of one dependency classified into the
/// metrics of that dependency, in one pass: the classified nodes that are not
/// of the standard library, and the part of them that was reached through the
/// public surface of the dependency.
///
/// The sum of the lines of all nodes must fit the machine's word.
pub fn measure_dependency(graph: &Vec<Node>, crate_name: String, crate_version: String) -> (metric:
    DepMetric)
    requires
        total_lines(graph@) <= usize::MAX,
    ensures
        metric@ == dep_metric_of(graph@, crate_name@, crate_version@),
{
    let ghost g = graph@;
    let mut total: usize = 0;
    let mut total_used: usize = 0;
    let mut total_loc: usize = 0;
    let mut used_loc: usize = 0;
    let mut i: usize = 0;
    while i < graph.len()
        invariant
            g == graph@,
            i <= g.len(),
            total_lines(g) <= usize::MAX,
            total == count_where(g.take(i as int), counted_nodes()),
            total_used == count_where(g.take(i as int), surface_nodes()),
            total_loc == lines_where(g.take(i as int), counted_nodes()),
            used_loc == lines_where(g.take(i as int), surface_nodes()),
        decreases g.len() - i,
    {
        proof {
            lemma_count_next(g, i as int, counted_nodes());
            lemma_count_next(g, i as int, surface_nodes());
            lemma_lines_next(g, i as int, counted_nodes());
            lemma_lines_next(g, i as int, surface_nodes());
        }
        let node = &graph[i];
        let lines = lines_of(node);
        if node.node_type != NodeType::Unclassified && node.node_type != NodeType::Std {
            total += 1;
            total_loc += lines;
        }
        if node.node_type == NodeType::LocalPublic || node.node_type == NodeType::UsedDepPublic {
            total_used += 1;
            used_loc += lines;
        }
        i += 1;
    }
    assert(g.take(g.len() as int) =~= g);
    DepMetric {
        crate_name,
        crate_version,
        usedCount: total_used,
        totalCount: total,
        total_loc,
        used_loc,
    }
}

} // verus!

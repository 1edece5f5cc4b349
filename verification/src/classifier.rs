use crate::error::AnalysisError;
use crate::graph::{
    called_from, caller_scan_dangles, calls, dangling, dependency_usage, dependency_usage_fails,
    in_dep_set, is_call_from, is_open, is_open_path, is_surface, label_for,
    private_seeds, public_seeds, reaches, retro_label, seed_scan_dangles, self_usage,
    self_usage_fails, spread, touched, unit_seeds, Edge, Node, NodeType,
};
use crate::package::keys_of;
use crate::reach::{
    lemma_dangling_more_seeds, lemma_dangling_union, lemma_spread_keeps_nodes, lemma_spread_union,
    lemma_touched_open_is_reached,
};
use vstd::prelude::*;

verus! {

/// The work that is left in a graph: one step for each unclassified node and
/// one for each of its outward edges. A traversal looks up one position in
/// each step, and it takes no more steps than this and one for its seed.
pub open spec fn work_left(g: Seq<Node>) -> nat
    decreases g.len(),
{
    if g.len() == 0 {
        0
    } else {
        work_left(g.drop_last()) + if g.last().node_type.is_set() {
            0nat
        } else {
            1 + g.last().outward_edges@.len()
        }
    }
}

/// The number of outward edges of a graph.
pub open spec fn edge_count(g: Seq<Node>) -> nat
    decreases g.len(),
{
    if g.len() == 0 {
        0
    } else {
        edge_count(g.drop_last()) + g.last().outward_edges@.len()
    }
}

/// The work that is left in a graph is at most the number of its nodes and
/// edges.
pub proof fn lemma_work_is_linear(g: Seq<Node>)
    ensures
        work_left(g) <= g.len() + edge_count(g),
    decreases g.len(),
{
    if g.len() > 0 {
        lemma_work_is_linear(g.drop_last());
    }
}

proof fn lemma_work_after_mark(g: Seq<Node>, i: int, t: NodeType)
    requires
        is_open(g, i),
        t.is_set(),
    ensures
        work_left(g.update(i, g[i].with_type(t))) + 1 + g[i].outward_edges@.len() == work_left(g),
    decreases g.len(),
{
    let g2 = g.update(i, g[i].with_type(t));
    if i == g.len() - 1 {
        assert(g2.drop_last() =~= g.drop_last());
    } else {
        lemma_work_after_mark(g.drop_last(), i, t);
        assert(g2.drop_last() =~= g.drop_last().update(i, g.drop_last()[i].with_type(t)));
    }
}

/// The label that the traversal gives to `node`.
fn classify(node: &Node, package_name: &String, public: bool) -> (t: NodeType)
    ensures
        t == label_for(*node, package_name@, public),
        t.is_set(),
{
    if node.crate_name == *package_name {
        if public {
            NodeType::LocalPublic
        } else {
            NodeType::Local
        }
    } else if node.package_name.is_none() {
        NodeType::Std
    } else if public {
        NodeType::UsedDepPublic
    } else {
        NodeType::UsedDep
    }
}

spec fn queued(cur: Seq<usize>, idx: int, next: Seq<usize>, t: int) -> bool {
    ||| exists|k: int| idx <= k < cur.len() && #[trigger] cur[k] == t
    ||| exists|k: int| 0 <= k < next.len() && #[trigger] next[k] == t
}

spec fn settled(c: Seq<Node>, t: int) -> bool {
    0 <= t < c.len() && c[t].node_type.is_set()
}

/// Node `i` was unclassified in `g0` and carries its label in `c`.
spec fn marked(g0: Seq<Node>, c: Seq<Node>, unit: Seq<char>, public: bool, i: int) -> bool {
    is_open(g0, i) && c[i] == g0[i].with_type(label_for(g0[i], unit, public))
}

/// What holds between two steps of a traversal of `g0` from `s`, with `c` the
/// graph as it stands and `cur[idx..]` and `next` still to be looked up.
spec fn bfs_inv(
    g0: Seq<Node>,
    c: Seq<Node>,
    s: int,
    unit: Seq<char>,
    public: bool,
    cur: Seq<usize>,
    idx: int,
    next: Seq<usize>,
) -> bool {
    &&& c.len() == g0.len()
    &&& 0 <= idx <= cur.len()
    &&& forall|i: int|
        0 <= i < g0.len() ==> (#[trigger] c[i]) == g0[i] || (marked(g0, c, unit, public, i)
            && reaches(g0, set![s], i))
    &&& forall|k: int| idx <= k < cur.len() ==> touched(g0, set![s], #[trigger] cur[k] as int)
    &&& forall|k: int| 0 <= k < next.len() ==> touched(g0, set![s], #[trigger] next[k] as int)
    &&& queued(cur, idx, next, s) || settled(c, s)
    &&& forall|u: int, t: int|
        0 <= u < g0.len() && #[trigger] marked(g0, c, unit, public, u) && #[trigger] calls(
            g0,
            u,
            t,
        ) ==> queued(cur, idx, next, t) || settled(c, t)
}

proof fn lemma_inv_init(g0: Seq<Node>, s: usize, unit: Seq<char>, public: bool)
    ensures
        bfs_inv(g0, g0, s as int, unit, public, seq![s], 0, Seq::<usize>::empty()),
{
    let cur = seq![s];
    assert(cur[0] == s);
    assert(set![s as int].contains(s as int));
    assert(queued(cur, 0, Seq::<usize>::empty(), s as int));
    assert forall|i: int| 0 <= i < g0.len() implies !marked(g0, g0, unit, public, i) by {}
}

/// The invariant after the traversal has looked up a node that was classified
/// already.
proof fn lemma_inv_skip(
    g0: Seq<Node>,
    c: Seq<Node>,
    s: int,
    unit: Seq<char>,
    public: bool,
    cur: Seq<usize>,
    idx: int,
    next: Seq<usize>,
)
    requires
        bfs_inv(g0, c, s, unit, public, cur, idx, next),
        idx < cur.len(),
        settled(c, cur[idx] as int),
    ensures
        bfs_inv(g0, c, s, unit, public, cur, idx + 1, next),
{
    assert forall|t: int| queued(cur, idx, next, t) implies queued(cur, idx + 1, next, t)
        || settled(c, t) by {
        if exists|k: int| idx <= k < cur.len() && #[trigger] cur[k] == t {
            let k = choose|k: int| idx <= k < cur.len() && #[trigger] cur[k] == t;
            if k != idx {
                assert(idx + 1 <= k < cur.len() && cur[k] == t);
            }
        }
    }
}

/// The invariant after the traversal has classified a node and queued the
/// targets of its outward edges.
proof fn lemma_inv_visit(
    g0: Seq<Node>,
    c: Seq<Node>,
    s: int,
    unit: Seq<char>,
    public: bool,
    cur: Seq<usize>,
    idx: int,
    next: Seq<usize>,
    c2: Seq<Node>,
    next2: Seq<usize>,
)
    requires
        bfs_inv(g0, c, s, unit, public, cur, idx, next),
        idx < cur.len(),
        is_open(c, cur[idx] as int),
        c2 == c.update(
            cur[idx] as int,
            c[cur[idx] as int].with_type(label_for(c[cur[idx] as int], unit, public)),
        ),
        next2.len() == next.len() + c[cur[idx] as int].outward_edges@.len(),
        forall|k: int| 0 <= k < next.len() ==> next2[k] == next[k],
        forall|e: int|
            0 <= e < c[cur[idx] as int].outward_edges@.len() ==> next2[next.len() + e]
                == c[cur[idx] as int].outward_edges@[e].target,
    ensures
        bfs_inv(g0, c2, s, unit, public, cur, idx + 1, next2),
        reaches(g0, set![s], cur[idx] as int),
{
    let ci = cur[idx] as int;
    let seeds = set![s];
    assert(c[ci] == g0[ci]);
    assert(is_open(g0, ci));
    lemma_touched_open_is_reached(g0, seeds, ci);
    assert(marked(g0, c2, unit, public, ci));
    assert forall|i: int| 0 <= i < g0.len() && i != ci implies marked(g0, c2, unit, public, i)
        == marked(g0, c, unit, public, i) by {}
    assert forall|t: int| queued(cur, idx, next, t) implies queued(cur, idx + 1, next2, t)
        || settled(c2, t) by {
        if exists|k: int| idx <= k < cur.len() && #[trigger] cur[k] == t {
            let k = choose|k: int| idx <= k < cur.len() && #[trigger] cur[k] == t;
            if k != idx {
                assert(idx + 1 <= k < cur.len() && cur[k] == t);
            }
        } else {
            let k = choose|k: int| 0 <= k < next.len() && #[trigger] next[k] == t;
            assert(0 <= k < next2.len() && next2[k] == t);
        }
    }
    assert forall|t: int| settled(c, t) implies settled(c2, t) by {}
    assert forall|k: int| 0 <= k < next2.len() implies touched(
        g0,
        seeds,
        #[trigger] next2[k] as int,
    ) by {
        if k < next.len() {
            assert(next2[k] == next[k]);
        } else {
            let e = k - next.len();
            assert(next2[next.len() + e] == g0[ci].outward_edges@[e].target);
            assert(calls(g0, ci, next2[k] as int));
        }
    }
    assert forall|u: int, t: int|
        0 <= u < g0.len() && #[trigger] marked(g0, c2, unit, public, u) && #[trigger] calls(
            g0,
            u,
            t,
        ) implies queued(cur, idx + 1, next2, t) || settled(c2, t) by {
        if u == ci {
            let e = choose|e: int|
                0 <= e < g0[u].outward_edges@.len() && (#[trigger] g0[u].outward_edges@[e]).target
                    == t;
            assert(next2[next.len() + e] == t);
        } else {
            assert(marked(g0, c, unit, public, u));
        }
    }
}

/// A position beyond the graph that the traversal is about to look up makes
/// the graph inconsistent.
proof fn lemma_inv_dangling(
    g0: Seq<Node>,
    c: Seq<Node>,
    s: int,
    unit: Seq<char>,
    public: bool,
    cur: Seq<usize>,
    idx: int,
    next: Seq<usize>,
)
    requires
        bfs_inv(g0, c, s, unit, public, cur, idx, next),
        idx < cur.len(),
        cur[idx] >= g0.len(),
    ensures
        dangling(g0, set![s]),
{
    assert(touched(g0, set![s], cur[idx] as int));
}

proof fn lemma_path_is_marked(
    g0: Seq<Node>,
    c: Seq<Node>,
    s: int,
    unit: Seq<char>,
    public: bool,
    p: Seq<int>,
    j: int,
)
    requires
        bfs_inv(g0, c, s, unit, public, Seq::<usize>::empty(), 0, Seq::<usize>::empty()),
        is_open_path(g0, p),
        p[0] == s,
        0 <= j < p.len(),
    ensures
        marked(g0, c, unit, public, p[j]),
    decreases j,
{
    let none = Seq::<usize>::empty();
    assert forall|t: int| !queued(none, 0, none, t) by {}
    assert(is_open(g0, p[j]));
    if j == 0 {
        assert(settled(c, s));
    } else {
        lemma_path_is_marked(g0, c, s, unit, public, p, j - 1);
        assert(calls(g0, p[j - 1], p[j - 1 + 1]));
        assert(settled(c, p[j]));
    }
}

/// Once nothing is left to look up, the graph is the one that `spread`
/// describes, and no position that was looked up lies beyond it.
proof fn lemma_inv_done(g0: Seq<Node>, c: Seq<Node>, s: int, unit: Seq<char>, public: bool)
    requires
        bfs_inv(g0, c, s, unit, public, Seq::<usize>::empty(), 0, Seq::<usize>::empty()),
    ensures
        !dangling(g0, set![s]),
        c =~= spread(g0, set![s], unit, public),
{
    let none = Seq::<usize>::empty();
    let seeds = set![s];
    assert forall|t: int| !queued(none, 0, none, t) by {}
    assert forall|t: int| reaches(g0, seeds, t) implies marked(g0, c, unit, public, t) by {
        let p = choose|p: Seq<int>|
            #[trigger] is_open_path(g0, p) && seeds.contains(p[0]) && p.last() == t;
        lemma_path_is_marked(g0, c, s, unit, public, p, p.len() - 1);
    }
    assert forall|t: int| touched(g0, seeds, t) implies 0 <= t < g0.len() by {
        if seeds.contains(t) {
            assert(settled(c, s));
        } else {
            let u = choose|u: int| #[trigger] reaches(g0, seeds, u) && calls(g0, u, t);
            assert(marked(g0, c, unit, public, u));
            assert(settled(c, t));
        }
    }
}

/// Classifies what is reachable from one node.
///
/// The traversal goes level by level: it looks up every position of the
/// current level before any of the next. A node that is unclassified when it
/// is looked up gets the label that `label_for` gives it for the reference
/// package `package_name`, and the targets of its outward edges form part of
/// the next level. A node that has a category already is left as it is and is
/// not expanded.
///
/// The result is an error exactly if the traversal looks up a position that
/// the graph does not have. The graph is then left with the labels set so far.
///
/// The traversal ends on every graph, whatever its cycles: each step uses up
/// one unit of `work_left` or one position that was queued.
pub fn traverse_node_downwards(
    graph: &mut Vec<Node>,
    node_index: usize,
    package_name: &String,
    public: bool,
) -> (r: Result<(), AnalysisError>)
    ensures
        final(graph)@.len() == old(graph)@.len(),
        r == (if dangling(old(graph)@, set![node_index as int]) {
            Err::<(), AnalysisError>(AnalysisError::InconsistentGraph)
        } else {
            Ok::<(), AnalysisError>(())
        }),
        r is Ok ==> final(graph)@ == spread(
            old(graph)@,
            set![node_index as int],
            package_name@,
            public,
        ),
        forall|i: int|
            0 <= i < old(graph)@.len() ==> (#[trigger] final(graph)@[i]) == old(graph)@[i] || (
            is_open(old(graph)@, i) && final(graph)@[i] == old(graph)@[i].with_type(
                label_for(old(graph)@[i], package_name@, public),
            )),
{
    let ghost g0 = graph@;
    let ghost s = node_index as int;
    let ghost unit = package_name@;
    let mut current_level_index: usize = 0;
    let mut current_level_indexes: Vec<usize> = Vec::new();
    current_level_indexes.push(node_index);
    let mut next_level_indexes: Vec<usize> = Vec::new();
    proof {
        lemma_inv_init(g0, node_index, unit, public);
        assert(current_level_indexes@ =~= seq![node_index]);
    }
    while current_level_indexes.len() > current_level_index
        invariant
            bfs_inv(
                g0,
                graph@,
                s,
                unit,
                public,
                current_level_indexes@,
                current_level_index as int,
                next_level_indexes@,
            ),
            current_level_index < current_level_indexes.len() || (current_level_indexes.len() == 0
                && next_level_indexes.len() == 0),
            g0 == old(graph)@,
            unit == package_name@,
            s == node_index as int,
        decreases
                work_left(graph@) + (current_level_indexes.len() - current_level_index)
                    + next_level_indexes.len(),
    {
        let current_index = current_level_indexes[current_level_index];
        if current_index >= graph.len() {
            proof {
                lemma_inv_dangling(
                    g0,
                    graph@,
                    s,
                    unit,
                    public,
                    current_level_indexes@,
                    current_level_index as int,
                    next_level_indexes@,
                );
            }
            return Err(AnalysisError::InconsistentGraph);
        }
        if graph[current_index].node_type == NodeType::Unclassified {
            let ghost c = graph@;
            let ghost next = next_level_indexes@;
            let label = classify(&graph[current_index], package_name, public);
            let edge_count = graph[current_index].outward_edges.len();
            let mut edge_index: usize = 0;
            while edge_index < edge_count
                invariant
                    graph@ == c,
                    current_index < graph.len(),
                    edge_count == c[current_index as int].outward_edges@.len(),
                    edge_index <= edge_count,
                    next_level_indexes@.len() == next.len() + edge_index,
                    forall|k: int| 0 <= k < next.len() ==> next_level_indexes@[k] == next[k],
                    forall|e: int|
                        0 <= e < edge_index ==> next_level_indexes@[next.len() + e]
                            == c[current_index as int].outward_edges@[e].target,
                decreases edge_count - edge_index,
            {
                next_level_indexes.push(graph[current_index].outward_edges[edge_index].target);
                edge_index += 1;
            }
            graph[current_index].node_type = label;
            proof {
                lemma_inv_visit(
                    g0,
                    c,
                    s,
                    unit,
                    public,
                    current_level_indexes@,
                    current_level_index as int,
                    next,
                    graph@,
                    next_level_indexes@,
                );
                lemma_work_after_mark(c, current_index as int, label);
            }
        } else {
            proof {
                lemma_inv_skip(
                    g0,
                    graph@,
                    s,
                    unit,
                    public,
                    current_level_indexes@,
                    current_level_index as int,
                    next_level_indexes@,
                );
            }
        }
        if current_level_index + 1 == current_level_indexes.len() {
            // The level is exhausted: the next one takes its place.
            proof {
                lemma_inv_swap(
                    g0,
                    graph@,
                    s,
                    unit,
                    public,
                    current_level_indexes@,
                    next_level_indexes@,
                );
            }
            current_level_indexes = next_level_indexes;
            next_level_indexes = Vec::new();
            current_level_index = 0;
        } else {
            current_level_index += 1;
        }
    }
    proof {
        assert(current_level_indexes@ =~= Seq::<usize>::empty());
        assert(next_level_indexes@ =~= Seq::<usize>::empty());
        lemma_inv_done(g0, graph@, s, unit, public);
    }
    Ok(())
}

/// The invariant when the next level takes the place of an exhausted one.
proof fn lemma_inv_swap(
    g0: Seq<Node>,
    c: Seq<Node>,
    s: int,
    unit: Seq<char>,
    public: bool,
    cur: Seq<usize>,
    next: Seq<usize>,
)
    requires
        bfs_inv(g0, c, s, unit, public, cur, cur.len() as int, next),
    ensures
        bfs_inv(g0, c, s, unit, public, next, 0, Seq::<usize>::empty()),
{
    let none = Seq::<usize>::empty();
    assert forall|t: int| queued(cur, cur.len() as int, next, t) implies queued(
        next,
        0,
        none,
        t,
    ) by {
        let k = choose|k: int| 0 <= k < next.len() && #[trigger] next[k] == t;
        assert(0 <= k < next.len() && next[k] == t);
    }
}

spec fn unit_seeds_below(g: Seq<Node>, unit: Seq<char>, n: int) -> Set<int> {
    Set::new(|i: int| 0 <= i < n && i < g.len() && g[i].in_unit(unit))
}

/// The step that the analyses share: a traversal from node `n` in the graph
/// that the traversals from `seeds` left.
proof fn lemma_one_more_seed(
    g: Seq<Node>,
    seeds: Set<int>,
    n: int,
    unit: Seq<char>,
    public: bool,
)
    requires
        !dangling(g, seeds),
    ensures
        dangling(g, seeds.insert(n)) <==> dangling(spread(g, seeds, unit, public), set![n]),
        spread(spread(g, seeds, unit, public), set![n], unit, public) == spread(
            g,
            seeds.insert(n),
            unit,
            public,
        ),
{
    assert(seeds.insert(n) =~= seeds.union(set![n]));
    lemma_dangling_union(g, seeds, set![n], unit, public);
    lemma_spread_union(g, seeds, set![n], unit, public);
}

/// Classifies the call graph for an analysis of package `crate_name` against
/// itself.
///
/// Every node of a compilation unit of the package is a seed, and one
/// traversal starts from each, in the order of the graph. What is reachable
/// from the package through unclassified nodes ends up `Local` where it belongs
/// to the package, `Std` where it has no owning package and `UsedDep`
/// otherwise; the rest of the graph is returned as it came.
///
/// The error is `InconsistentGraph`, and it comes exactly if a node that the
/// analysis reaches has an outward edge to a position beyond the graph.
pub fn analyze_graph_for_package(graph: Vec<Node>, crate_name: &String) -> (r: Result<
    Vec<Node>,
    AnalysisError,
>)
    ensures
        match r {
            Ok(classified) => !self_usage_fails(graph@, crate_name@) && classified@ == self_usage(
                graph@,
                crate_name@,
            ),
            Err(e) => self_usage_fails(graph@, crate_name@) && e
                == AnalysisError::InconsistentGraph,
        },
{
    let ghost g = graph@;
    let ghost unit = crate_name@;
    let mut dep_graph = graph;
    let mut node_index: usize = 0;
    proof {
        assert(unit_seeds_below(g, unit, 0) =~= Set::<int>::empty());
        lemma_no_seed(g, unit, false);
    }
    while dep_graph.len() > node_index
        invariant
            g == graph@,
            g.len() == dep_graph@.len(),
            node_index <= g.len(),
            unit == crate_name@,
            !dangling(g, unit_seeds_below(g, unit, node_index as int)),
            dep_graph@ == spread(g, unit_seeds_below(g, unit, node_index as int), unit, false),
        decreases g.len() - node_index,
    {
        let ghost seeds = unit_seeds_below(g, unit, node_index as int);
        proof {
            lemma_spread_keeps_nodes(g, seeds, unit, false, node_index as int);
        }
        if dep_graph[node_index].crate_name == *crate_name {
            proof {
                lemma_one_more_seed(g, seeds, node_index as int, unit, false);
                assert(unit_seeds_below(g, unit, node_index + 1) =~= seeds.insert(
                    node_index as int,
                ));
            }
            match traverse_node_downwards(&mut dep_graph, node_index, crate_name, false) {
                Ok(()) => {},
                Err(e) => {
                    proof {
                        assert(seeds.insert(node_index as int).subset_of(unit_seeds(g, unit)));
                        lemma_dangling_more_seeds(
                            g,
                            seeds.insert(node_index as int),
                            unit_seeds(g, unit),
                        );
                    }
                    return Err(e);
                },
            }
        } else {
            proof {
                assert(unit_seeds_below(g, unit, node_index + 1) =~= seeds);
            }
        }
        node_index += 1;
    }
    proof {
        assert(unit_seeds_below(g, unit, node_index as int) =~= unit_seeds(g, unit));
    }
    Ok(dep_graph)
}

/// A traversal without seeds changes nothing and cannot fail.
pub proof fn lemma_no_seed(g: Seq<Node>, unit: Seq<char>, public: bool)
    ensures
        !dangling(g, Set::<int>::empty()),
        spread(g, Set::<int>::empty(), unit, public) == g,
{
    let none = Set::<int>::empty();
    assert forall|t: int| !reaches(g, none, t) by {
        if reaches(g, none, t) {
            let p = choose|p: Seq<int>|
                #[trigger] is_open_path(g, p) && none.contains(p[0]) && p.last() == t;
            assert(false);
        }
    }
    assert forall|t: int| !touched(g, none, t) by {}
    assert(spread(g, none, unit, public) =~= g);
}

/// Tells whether package `main_package` calls node `node_index` directly. The
/// inward edges are gone through in order, up to the first that comes from
/// `main_package`; a source beyond the graph is an error.
fn called_by(graph: &Vec<Node>, node_index: usize, main_package: &String) -> (r: Result<
    bool,
    AnalysisError,
>)
    requires
        node_index < graph.len(),
    ensures
        r == (if caller_scan_dangles(graph@, graph@[node_index as int], main_package@) {
            Err::<bool, AnalysisError>(AnalysisError::InconsistentGraph)
        } else {
            Ok::<bool, AnalysisError>(
                called_from(graph@, graph@[node_index as int], main_package@),
            )
        }),
{
    let ghost inward = graph@[node_index as int].inward_edges@;
    let edge_count = graph[node_index].inward_edges.len();
    let mut edge_index: usize = 0;
    while edge_index < edge_count
        invariant
            node_index < graph.len(),
            inward == graph@[node_index as int].inward_edges@,
            edge_count == inward.len(),
            edge_index <= edge_count,
            forall|k: int|
                0 <= k < edge_index ==> (#[trigger] inward[k]).target < graph.len()
                    && !is_call_from(graph@, inward[k], main_package@),
        decreases edge_count - edge_index,
    {
        let source = graph[node_index].inward_edges[edge_index].target;
        if source >= graph.len() {
            assert(inward[edge_index as int].target >= graph@.len());
            return Err(AnalysisError::InconsistentGraph);
        }
        if graph[source].crate_name == *main_package {
            assert(is_call_from(graph@, inward[edge_index as int], main_package@));
            return Ok(true);
        }
        edge_index += 1;
    }
    Ok(false)
}

/// Tells whether `node` belongs to one of the packages `deps`.
fn belongs_to(node: &Node, deps: &Vec<(String, String)>) -> (b: bool)
    ensures
        b == in_dep_set(*node, keys_of(deps@).to_set()),
{
    let ghost keys = keys_of(deps@);
    match &node.package_version {
        None => false,
        Some(version) => {
            let mut dep_index: usize = 0;
            while dep_index < deps.len()
                invariant
                    dep_index <= deps.len(),
                    node.package_version == Some(*version),
                    keys == keys_of(deps@),
                    forall|k: int|
                        0 <= k < dep_index ==> (#[trigger] keys[k]) != (
                            node.crate_name@,
                            version@,
                        ),
                decreases deps.len() - dep_index,
            {
                if node.crate_name == deps[dep_index].0 && *version == deps[dep_index].1 {
                    assert(keys[dep_index as int] == (node.crate_name@, version@));
                    assert(keys.contains((node.crate_name@, version@)));
                    return true;
                }
                dep_index += 1;
            }
            false
        },
    }
}

/// The search for callers reads nothing that a traversal changes.
proof fn lemma_scan_unchanged(g: Seq<Node>, c: Seq<Node>, i: int, main: Seq<char>)
    requires
        0 <= i < g.len(),
        c.len() == g.len(),
        forall|j: int| 0 <= j < g.len() ==> (#[trigger] c[j]) == g[j].with_type(c[j].node_type),
    ensures
        caller_scan_dangles(c, c[i], main) == caller_scan_dangles(g, g[i], main),
        called_from(c, c[i], main) == called_from(g, g[i], main),
{
    assert forall|e: Edge| is_call_from(c, e, main) == is_call_from(g, e, main) by {
        if e.target < g.len() {
            let from = e.target as int;
            assert(c[from] == g[from].with_type(c[from].node_type));
        }
    }
    assert(c[i] == g[i].with_type(c[i].node_type));
    assert(c[i].inward_edges == g[i].inward_edges);
}

spec fn public_seeds_below(g: Seq<Node>, dep: Seq<char>, main: Seq<char>, n: int) -> Set<int> {
    Set::new(
        |i: int| 0 <= i < n && i < g.len() && is_surface(g[i], dep) && called_from(g, g[i], main),
    )
}

spec fn private_seeds_below(g: Seq<Node>, dep: Seq<char>, main: Seq<char>, n: int) -> Set<int> {
    Set::new(
        |i: int| 0 <= i < n && i < g.len() && is_surface(g[i], dep) && !called_from(g, g[i], main),
    )
}

/// The positions that the first `n` entries of `list` name.
spec fn listed_below(list: Seq<usize>, n: int) -> Set<int> {
    Set::new(|i: int| exists|k: int| 0 <= k < n && k < list.len() && #[trigger] list[k] == i)
}

/// One more entry of a list names one more position.
proof fn lemma_listed_push(list: Seq<usize>, entry: usize)
    ensures
        listed_below(list.push(entry), list.len() as int + 1) == listed_below(
            list,
            list.len() as int,
        ).insert(entry as int),
{
    let longer = list.push(entry);
    let before = listed_below(list, list.len() as int);
    let after = listed_below(longer, list.len() as int + 1);
    assert forall|i: int| after.contains(i) <==> before.insert(entry as int).contains(i) by {
        if after.contains(i) {
            let k = choose|k: int| 0 <= k < longer.len() && #[trigger] longer[k] == i;
            if k < list.len() {
                assert(list[k] == i);
            }
        }
        if before.contains(i) {
            let k = choose|k: int| 0 <= k < list.len() && #[trigger] list[k] == i;
            assert(longer[k] == i);
        }
        assert(longer[list.len() as int] == entry);
    }
    assert(after =~= before.insert(entry as int));
}

/// Classifies the call graph for an analysis of how package `main_package`
/// uses its dependency `crate_name`, whose own dependencies are `deps`.
///
/// The seeds are the nodes of the public surface of the dependency: those of
/// its compilation units that are externally visible. From each seed that
/// `main_package` calls directly a public traversal starts, which labels what
/// it reaches `LocalPublic`, `Std` or `UsedDepPublic`. From each of the other
/// seeds a plain traversal starts afterwards, which labels what is still
/// unclassified `Local`, `Std` or `UsedDep`. At the end every node that is still
/// unclassified and belongs to one of `deps`, by the unit's name and the
/// package version, becomes `Local`.
///
/// The error is `InconsistentGraph`, and it comes exactly if the search for
/// callers or one of the traversals looks up a position beyond the graph.
pub fn analyze_graph_for_package2(
    graph: Vec<Node>,
    crate_name: &String,
    main_package: &String,
    deps: &Vec<(String, String)>,
) -> (r: Result<Vec<Node>, AnalysisError>)
    ensures
        match r {
            Ok(classified) => !dependency_usage_fails(graph@, crate_name@, main_package@)
                && classified@ == dependency_usage(
                graph@,
                crate_name@,
                main_package@,
                keys_of(deps@).to_set(),
            ),
            Err(e) => dependency_usage_fails(graph@, crate_name@, main_package@) && e
                == AnalysisError::InconsistentGraph,
        },
{
    let ghost g = graph@;
    let ghost dep = crate_name@;
    let ghost main = main_package@;
    let mut dep_graph = graph;
    let mut node_index: usize = 0;
    let mut private_list: Vec<usize> = Vec::new();
    proof {
        assert(public_seeds_below(g, dep, main, 0) =~= Set::<int>::empty());
        lemma_no_seed(g, dep, true);
    }
    while dep_graph.len() > node_index
        invariant
            g == graph@,
            dep == crate_name@,
            main == main_package@,
            g.len() == dep_graph@.len(),
            node_index <= g.len(),
            forall|i: int|
                0 <= i < node_index && is_surface(#[trigger] g[i], dep) ==> !caller_scan_dangles(
                    g,
                    g[i],
                    main,
                ),
            !dangling(g, public_seeds_below(g, dep, main, node_index as int)),
            dep_graph@ == spread(g, public_seeds_below(g, dep, main, node_index as int), dep, true),
            listed_below(private_list@, private_list@.len() as int) =~= private_seeds_below(
                g,
                dep,
                main,
                node_index as int,
            ),
        decreases g.len() - node_index,
    {
        let ghost seeds = public_seeds_below(g, dep, main, node_index as int);
        let ghost listed = private_list@;
        proof {
            assert forall|j: int| 0 <= j < g.len() implies (#[trigger] dep_graph@[j])
                == g[j].with_type(dep_graph@[j].node_type) by {
                lemma_spread_keeps_nodes(g, seeds, dep, true, j);
            }
            lemma_scan_unchanged(g, dep_graph@, node_index as int, main);
        }
        let mut called = false;
        if dep_graph[node_index].crate_name == *crate_name
            && dep_graph[node_index].is_externally_visible {
            match called_by(&dep_graph, node_index, main_package) {
                Ok(found) => {
                    called = found;
                },
                Err(e) => {
                    return Err(e);
                },
            }
            if called {
                proof {
                    lemma_one_more_seed(g, seeds, node_index as int, dep, true);
                    assert(public_seeds_below(g, dep, main, node_index + 1) =~= seeds.insert(
                        node_index as int,
                    ));
                }
                match traverse_node_downwards(&mut dep_graph, node_index, crate_name, true) {
                    Ok(()) => {},
                    Err(e) => {
                        proof {
                            assert(seeds.insert(node_index as int).subset_of(
                                public_seeds(g, dep, main),
                            ));
                            lemma_dangling_more_seeds(
                                g,
                                seeds.insert(node_index as int),
                                public_seeds(g, dep, main),
                            );
                        }
                        return Err(e);
                    },
                }
                proof {
                    assert(private_seeds_below(g, dep, main, node_index + 1)
                        =~= private_seeds_below(g, dep, main, node_index as int));
                }
            } else {
                private_list.push(node_index);
                proof {
                    assert(public_seeds_below(g, dep, main, node_index + 1) =~= seeds);
                    lemma_listed_push(listed, node_index);
                    assert(private_seeds_below(g, dep, main, node_index + 1)
                        =~= private_seeds_below(g, dep, main, node_index as int).insert(
                        node_index as int,
                    ));
                }
            }
        } else {
            proof {
                assert(public_seeds_below(g, dep, main, node_index + 1) =~= seeds);
                assert(private_seeds_below(g, dep, main, node_index + 1) =~= private_seeds_below(
                    g,
                    dep,
                    main,
                    node_index as int,
                ));
            }
        }
        node_index += 1;
    }
    let ghost g1 = dep_graph@;
    proof {
        assert(public_seeds_below(g, dep, main, node_index as int) =~= public_seeds(g, dep, main));
        assert(private_seeds_below(g, dep, main, node_index as int) =~= private_seeds(
            g,
            dep,
            main,
        ));
        assert(!seed_scan_dangles(g, dep, main));
        assert(listed_below(private_list@, 0) =~= Set::<int>::empty());
        lemma_no_seed(g1, dep, false);
    }
    let mut list_index: usize = 0;
    while list_index < private_list.len()
        invariant
            g == graph@,
            dep == crate_name@,
            main == main_package@,
            g1 == spread(g, public_seeds(g, dep, main), dep, true),
            listed_below(private_list@, private_list@.len() as int) == private_seeds(g, dep, main),
            g1.len() == dep_graph@.len(),
            list_index <= private_list.len(),
            !dangling(g1, listed_below(private_list@, list_index as int)),
            dep_graph@ == spread(g1, listed_below(private_list@, list_index as int), dep, false),
        decreases private_list.len() - list_index,
    {
        let ghost seeds = listed_below(private_list@, list_index as int);
        let seed = private_list[list_index];
        proof {
            lemma_one_more_seed(g1, seeds, seed as int, dep, false);
            assert(listed_below(private_list@, list_index + 1) =~= seeds.insert(seed as int));
        }
        match traverse_node_downwards(&mut dep_graph, seed, crate_name, false) {
            Ok(()) => {},
            Err(e) => {
                proof {
                    let all = listed_below(private_list@, private_list@.len() as int);
                    assert(seeds.insert(seed as int).subset_of(all));
                    lemma_dangling_more_seeds(g1, seeds.insert(seed as int), all);
                }
                return Err(e);
            },
        }
        list_index += 1;
    }
    let ghost g2 = dep_graph@;
    let ghost keys = keys_of(deps@).to_set();
    let mut retro_index: usize = 0;
    while retro_index < dep_graph.len()
        invariant
            g2.len() == dep_graph@.len(),
            retro_index <= g2.len(),
            keys == keys_of(deps@).to_set(),
            forall|j: int|
                0 <= j < retro_index ==> (#[trigger] dep_graph@[j]) == retro_label(g2, keys)[j],
            forall|j: int| retro_index <= j < g2.len() ==> (#[trigger] dep_graph@[j]) == g2[j],
        decreases g2.len() - retro_index,
    {
        if dep_graph[retro_index].node_type == NodeType::Unclassified && belongs_to(
            &dep_graph[retro_index],
            deps,
        ) {
            dep_graph[retro_index].node_type = NodeType::Local;
        }
        retro_index += 1;
    }
    proof {
        assert(dep_graph@ =~= retro_label(g2, keys));
    }
    Ok(dep_graph)
}

} // verus!

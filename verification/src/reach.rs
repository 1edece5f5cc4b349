use crate::graph::{
    calls, dangling, is_open, is_open_path, label_for, reaches, spread, touched, Node,
};
use vstd::prelude::*;

verus! {

/// A seed that is unclassified is reached.
pub proof fn lemma_reaches_seed(g: Seq<Node>, seeds: Set<int>, s: int)
    requires
        seeds.contains(s),
        is_open(g, s),
    ensures
        reaches(g, seeds, s),
{
    let p = seq![s];
    assert(is_open_path(g, p));
    assert(p[0] == s && p.last() == s);
}

/// An unclassified node that a reached node calls is reached.
pub proof fn lemma_reaches_step(g: Seq<Node>, seeds: Set<int>, u: int, t: int)
    requires
        reaches(g, seeds, u),
        calls(g, u, t),
        is_open(g, t),
    ensures
        reaches(g, seeds, t),
{
    let p = choose|p: Seq<int>|
        #[trigger] is_open_path(g, p) && seeds.contains(p[0]) && p.last() == u;
    let q = p.push(t);
    assert forall|k: int| 0 <= k < q.len() implies is_open(g, #[trigger] q[k]) by {
        if k < p.len() {
            assert(q[k] == p[k]);
        }
    }
    assert forall|k: int| 0 <= k < q.len() - 1 implies calls(g, #[trigger] q[k], q[k + 1]) by {
        if k < p.len() - 1 {
            assert(q[k] == p[k]);
            assert(q[k + 1] == p[k + 1]);
        }
    }
    assert(is_open_path(g, q));
    assert(q[0] == p[0] && q.last() == t);
}

/// An unclassified position that a traversal looks up is reached.
pub proof fn lemma_touched_open_is_reached(g: Seq<Node>, seeds: Set<int>, t: int)
    requires
        touched(g, seeds, t),
        is_open(g, t),
    ensures
        reaches(g, seeds, t),
{
    if seeds.contains(t) {
        lemma_reaches_seed(g, seeds, t);
    } else {
        let u = choose|u: int| #[trigger] reaches(g, seeds, u) && calls(g, u, t);
        lemma_reaches_step(g, seeds, u, t);
    }
}

/// A traversal stays inside every set of positions that holds the
/// unclassified seeds and, with a node, every unclassified node that it calls.
pub proof fn lemma_reaches_within(g: Seq<Node>, seeds: Set<int>, inside: Set<int>, t: int)
    requires
        forall|s: int| seeds.contains(s) && is_open(g, s) ==> inside.contains(s),
        forall|u: int, v: int|
            inside.contains(u) && #[trigger] calls(g, u, v) && is_open(g, v) ==> inside.contains(v),
        reaches(g, seeds, t),
    ensures
        inside.contains(t),
{
    let p = choose|p: Seq<int>|
        #[trigger] is_open_path(g, p) && seeds.contains(p[0]) && p.last() == t;
    lemma_path_within(g, inside, p, p.len() - 1);
}

proof fn lemma_path_within(g: Seq<Node>, inside: Set<int>, p: Seq<int>, j: int)
    requires
        forall|u: int, v: int|
            inside.contains(u) && #[trigger] calls(g, u, v) && is_open(g, v) ==> inside.contains(v),
        is_open_path(g, p),
        inside.contains(p[0]),
        0 <= j < p.len(),
    ensures
        inside.contains(p[j]),
    decreases j,
{
    if j > 0 {
        lemma_path_within(g, inside, p, j - 1);
        assert(calls(g, p[j - 1], p[j - 1 + 1]));
        assert(is_open(g, p[j]));
    }
}

/// A traversal from more seeds reaches at least as much.
pub proof fn lemma_reaches_more_seeds(g: Seq<Node>, a: Set<int>, b: Set<int>, t: int)
    requires
        a.subset_of(b),
        reaches(g, a, t),
    ensures
        reaches(g, b, t),
{
    let p = choose|p: Seq<int>| #[trigger] is_open_path(g, p) && a.contains(p[0]) && p.last() == t;
    assert(is_open_path(g, p) && b.contains(p[0]) && p.last() == t);
}

/// A traversal from more seeds looks up at least as much, so it fails where
/// the smaller one does.
pub proof fn lemma_dangling_more_seeds(g: Seq<Node>, a: Set<int>, b: Set<int>)
    requires
        a.subset_of(b),
        dangling(g, a),
    ensures
        dangling(g, b),
{
    let t = choose|t: int| #[trigger] touched(g, a, t) && !(0 <= t < g.len());
    if !a.contains(t) {
        let u = choose|u: int| #[trigger] reaches(g, a, u) && calls(g, u, t);
        lemma_reaches_more_seeds(g, a, b, u);
    }
    assert(touched(g, b, t));
}

/// Whatever lies on an open path behind a reached node is reached.
proof fn lemma_reaches_along_path(g: Seq<Node>, seeds: Set<int>, p: Seq<int>, k: int, j: int)
    requires
        is_open_path(g, p),
        0 <= k <= j < p.len(),
        reaches(g, seeds, p[k]),
    ensures
        reaches(g, seeds, p[j]),
    decreases j - k,
{
    if k < j {
        lemma_reaches_along_path(g, seeds, p, k, j - 1);
        assert(calls(g, p[j - 1], p[j - 1 + 1]));
        lemma_reaches_step(g, seeds, p[j - 1], p[j]);
    }
}

/// A traversal changes nothing of a node but its category, and the category
/// only of a node that was unclassified.
pub proof fn lemma_spread_keeps_nodes(
    g: Seq<Node>,
    seeds: Set<int>,
    unit: Seq<char>,
    public: bool,
    i: int,
)
    requires
        0 <= i < g.len(),
    ensures
        spread(g, seeds, unit, public).len() == g.len(),
        spread(g, seeds, unit, public)[i] == g[i].with_type(
            spread(g, seeds, unit, public)[i].node_type,
        ),
        g[i].node_type.is_set() ==> spread(g, seeds, unit, public)[i] == g[i],
        reaches(g, seeds, i) ==> spread(g, seeds, unit, public)[i].node_type == label_for(
            g[i],
            unit,
            public,
        ),
        !reaches(g, seeds, i) ==> spread(g, seeds, unit, public)[i] == g[i],
        spread(g, seeds, unit, public)[i].node_type.is_set() <==> (g[i].node_type.is_set()
            || reaches(g, seeds, i)),
{
    if reaches(g, seeds, i) {
        let p = choose|p: Seq<int>|
            #[trigger] is_open_path(g, p) && seeds.contains(p[0]) && p.last() == i;
        assert(is_open(g, p[p.len() - 1]));
    }
}

/// What a second traversal reaches in the graph that a first one left is what
/// one traversal from both sets of seeds reaches beyond the first.
pub proof fn lemma_reaches_union(
    g: Seq<Node>,
    a: Set<int>,
    b: Set<int>,
    unit: Seq<char>,
    public: bool,
    t: int,
)
    ensures
        reaches(g, a.union(b), t) <==> (reaches(g, a, t) || reaches(
            spread(g, a, unit, public),
            b,
            t,
        )),
{
    let g1 = spread(g, a, unit, public);
    if reaches(g, a, t) {
        lemma_reaches_more_seeds(g, a, a.union(b), t);
    }
    if reaches(g1, b, t) {
        let p = choose|p: Seq<int>|
            #[trigger] is_open_path(g1, p) && b.contains(p[0]) && p.last() == t;
        assert forall|k: int| 0 <= k < p.len() implies is_open(g, #[trigger] p[k]) && g1[p[k]]
            == g[p[k]] by {
            assert(is_open(g1, p[k]));
            lemma_spread_keeps_nodes(g, a, unit, public, p[k]);
        }
        assert forall|k: int| 0 <= k < p.len() - 1 implies calls(g, #[trigger] p[k], p[k + 1]) by {
            assert(calls(g1, p[k], p[k + 1]));
        }
        assert(is_open_path(g, p) && a.union(b).contains(p[0]) && p.last() == t);
    }
    if reaches(g, a.union(b), t) && !reaches(g, a, t) {
        let p = choose|p: Seq<int>|
            #[trigger] is_open_path(g, p) && a.union(b).contains(p[0]) && p.last() == t;
        assert forall|k: int| 0 <= k < p.len() implies !reaches(g, a, #[trigger] p[k]) by {
            if reaches(g, a, p[k]) {
                lemma_reaches_along_path(g, a, p, k, p.len() - 1);
            }
        }
        if a.contains(p[0]) {
            assert(is_open(g, p[0]));
            lemma_reaches_seed(g, a, p[0]);
        }
        assert forall|k: int| 0 <= k < p.len() implies is_open(g1, #[trigger] p[k]) && g1[p[k]]
            == g[p[k]] by {
            assert(is_open(g, p[k]));
            lemma_spread_keeps_nodes(g, a, unit, public, p[k]);
        }
        assert forall|k: int| 0 <= k < p.len() - 1 implies calls(g1, #[trigger] p[k], p[k + 1]) by {
            assert(calls(g, p[k], p[k + 1]));
        }
        assert(is_open_path(g1, p) && b.contains(p[0]) && p.last() == t);
    }
}

/// Two traversals under one policy, one after the other, leave the graph that
/// one traversal from both sets of seeds leaves: which seed comes first, and
/// along which path a node is reached first, makes no difference.
pub proof fn lemma_spread_union(
    g: Seq<Node>,
    a: Set<int>,
    b: Set<int>,
    unit: Seq<char>,
    public: bool,
)
    ensures
        spread(spread(g, a, unit, public), b, unit, public) == spread(
            g,
            a.union(b),
            unit,
            public,
        ),
{
    let g1 = spread(g, a, unit, public);
    let g2 = spread(g1, b, unit, public);
    let both = spread(g, a.union(b), unit, public);
    assert forall|i: int| 0 <= i < g.len() implies g2[i] == both[i] by {
        lemma_reaches_union(g, a, b, unit, public, i);
        lemma_spread_keeps_nodes(g, a, unit, public, i);
        lemma_spread_keeps_nodes(g1, b, unit, public, i);
        lemma_spread_keeps_nodes(g, a.union(b), unit, public, i);
    }
    assert(g2 =~= both);
}

/// A traversal from both sets of seeds fails exactly if the traversal from the
/// first set fails, or the one from the second set in the graph that the first
/// left.
pub proof fn lemma_dangling_union(
    g: Seq<Node>,
    a: Set<int>,
    b: Set<int>,
    unit: Seq<char>,
    public: bool,
)
    ensures
        dangling(g, a.union(b)) <==> (dangling(g, a) || dangling(
            spread(g, a, unit, public),
            b,
        )),
{
    let g1 = spread(g, a, unit, public);
    let ab = a.union(b);
    assert forall|t: int| touched(g, ab, t) <==> (touched(g, a, t) || touched(g1, b, t)) by {
        if touched(g, ab, t) && !ab.contains(t) {
            let u = choose|u: int| #[trigger] reaches(g, ab, u) && calls(g, u, t);
            lemma_reaches_union(g, a, b, unit, public, u);
            if !reaches(g, a, u) {
                lemma_spread_keeps_nodes(g, a, unit, public, u);
                assert(calls(g1, u, t));
            }
        }
        if touched(g, a, t) && !a.contains(t) {
            let u = choose|u: int| #[trigger] reaches(g, a, u) && calls(g, u, t);
            lemma_reaches_union(g, a, b, unit, public, u);
        }
        if touched(g1, b, t) && !b.contains(t) {
            let u = choose|u: int| #[trigger] reaches(g1, b, u) && calls(g1, u, t);
            lemma_reaches_union(g, a, b, unit, public, u);
            let p = choose|p: Seq<int>|
                #[trigger] is_open_path(g1, p) && b.contains(p[0]) && p.last() == u;
            assert(is_open(g1, p[p.len() - 1]));
            lemma_spread_keeps_nodes(g, a, unit, public, u);
            assert(calls(g, u, t));
        }
    }
    if dangling(g, ab) {
        let t = choose|t: int| #[trigger] touched(g, ab, t) && !(0 <= t < g.len());
        assert(touched(g, a, t) || touched(g1, b, t));
    }
    if dangling(g, a) {
        let t = choose|t: int| #[trigger] touched(g, a, t) && !(0 <= t < g.len());
        assert(touched(g, ab, t));
    }
    if dangling(g1, b) {
        let t = choose|t: int| #[trigger] touched(g1, b, t) && !(0 <= t < g1.len());
        assert(touched(g, ab, t));
    }
}

/// A traversal writes the category of a node at most once: run again from the
/// same seeds, it changes nothing.
pub proof fn lemma_spread_again(g: Seq<Node>, seeds: Set<int>, unit: Seq<char>, public: bool)
    ensures
        spread(spread(g, seeds, unit, public), seeds, unit, public) == spread(
            g,
            seeds,
            unit,
            public,
        ),
{
    lemma_spread_union(g, seeds, seeds, unit, public);
    assert(seeds.union(seeds) =~= seeds);
}

/// The order of two traversals under one policy makes no difference.
pub proof fn lemma_spread_either_order(
    g: Seq<Node>,
    a: Set<int>,
    b: Set<int>,
    unit: Seq<char>,
    public: bool,
)
    ensures
        spread(spread(g, a, unit, public), b, unit, public) == spread(
            spread(g, b, unit, public),
            a,
            unit,
            public,
        ),
{
    lemma_spread_union(g, a, b, unit, public);
    lemma_spread_union(g, b, a, unit, public);
    assert(a.union(b) =~= b.union(a));
}

/// The category that a traversal gives a node depends on nothing but the
/// node's own unit and owner: whichever seeds the traversal starts from, a node
/// that it reaches gets the same category, and two nodes that agree in whether
/// they belong to the reference package and in whether they have an owning
/// package get the same one.
pub proof fn lemma_label_by_owner_only(
    g: Seq<Node>,
    a: Set<int>,
    b: Set<int>,
    unit: Seq<char>,
    public: bool,
    i: int,
    j: int,
)
    requires
        reaches(g, a, i),
        reaches(g, b, j),
        g[i].in_unit(unit) == g[j].in_unit(unit),
        g[i].is_std() == g[j].is_std(),
    ensures
        spread(g, a, unit, public)[i].node_type == spread(g, b, unit, public)[j].node_type,
{
    let p = choose|p: Seq<int>| #[trigger] is_open_path(g, p) && a.contains(p[0]) && p.last() == i;
    assert(is_open(g, p[p.len() - 1]));
    let q = choose|q: Seq<int>| #[trigger] is_open_path(g, q) && b.contains(q[0]) && q.last() == j;
    assert(is_open(g, q[q.len() - 1]));
}

} // verus!

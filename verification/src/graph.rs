use crate::package::PackageKey;
use vstd::prelude::*;

verus! {

/// Usage category that one analysis run gives to a function.
///
/// A node starts out `Unclassified`; a run gives it one of the other
/// categories at most once.
#[derive(PartialEq, Eq, Structural, Clone, Copy, Debug)]
pub enum NodeType {
    /// Not reached by the run (or not reached yet).
    Unclassified,
    /// Defined in the package that the run takes as its reference.
    Local,
    /// Defined in the reference package and reached through its public surface.
    LocalPublic,
    /// Part of the standard library: a function without an owning package.
    Std,
    /// Defined in another package and reached from the reference package.
    UsedDep,
    /// Defined in another package and reached through the public surface of
    /// the reference package.
    UsedDepPublic,
}

/// A call between two functions. `target` is the position of the other end in
/// the graph; `some_bool` is carried along and never read.
#[derive(PartialEq, Eq, Structural, Clone, Copy, Debug)]
pub struct Edge {
    pub target: usize,
    pub some_bool: bool,
}

/// One function definition of the call graph.
///
/// A graph is a `Vec<Node>`, and an edge names a node by its position there.
#[derive(Clone, Debug, PartialEq, Eq)]
pub struct Node {
    /// Number of the node in its file. The analysis goes by positions and
    /// never reads it.
    pub id: usize,
    /// Name of the owning package; `None` for the standard library.
    pub package_name: Option<String>,
    /// Version of the owning package.
    pub package_version: Option<String>,
    /// Package that the compilation unit of the function belongs to.
    pub crate_name: String,
    /// Path of the function within its unit; never read.
    pub relative_def_id: String,
    /// Calls into this function, each naming the caller.
    pub inward_edges: Vec<Edge>,
    /// Calls out of this function, each naming the callee.
    pub outward_edges: Vec<Edge>,
    /// Number of source lines; a negative number stands for "unknown".
    pub num_lines: isize,
    /// Whether the function is part of the public surface of its package.
    pub is_externally_visible: bool,
    /// The category that the current run has given the node.
    pub node_type: NodeType,
}

impl NodeType {
    /// Whether a run has given the node a category.
    pub open spec fn is_set(self) -> bool {
        self != NodeType::Unclassified
    }

    /// The tag under which the category is written in a call-graph file; an
    /// unclassified node has none.
    pub open spec fn tag(self) -> Option<Seq<char>> {
        match self {
            NodeType::Unclassified => None,
            NodeType::Local => Some("local_func"@),
            NodeType::LocalPublic => Some("local_func_pub"@),
            NodeType::Std => Some("std_func"@),
            NodeType::UsedDep => Some("used_dep_func"@),
            NodeType::UsedDepPublic => Some("used_dep_func_pub"@),
        }
    }

    /// The tag of the category, as it is written in a call-graph file.
    pub fn label(&self) -> (r: Option<String>)
        ensures
            match r {
                Some(text) => self.tag() == Some(text@),
                None => self.tag() is None,
            },
    {
        match self {
            NodeType::Unclassified => None,
            NodeType::Local => Some("local_func".to_owned()),
            NodeType::LocalPublic => Some("local_func_pub".to_owned()),
            NodeType::Std => Some("std_func".to_owned()),
            NodeType::UsedDep => Some("used_dep_func".to_owned()),
            NodeType::UsedDepPublic => Some("used_dep_func_pub".to_owned()),
        }
    }

    /// The category that a call-graph file names by `label`, where `None`
    /// stands for a node without a tag; no category if the tag is none of the
    /// five.
    pub fn from_label(label: &Option<String>) -> (r: Option<NodeType>)
        ensures
            match r {
                Some(t) => match label {
                    Some(text) => t.tag() == Some(text@),
                    None => t == NodeType::Unclassified,
                },
                None => label is Some && forall|t: NodeType| t.tag() != Some(label->0@),
            },
    {
        match label {
            None => Some(NodeType::Unclassified),
            Some(text) => {
                if *text == "local_func".to_owned() {
                    Some(NodeType::Local)
                } else if *text == "local_func_pub".to_owned() {
                    Some(NodeType::LocalPublic)
                } else if *text == "std_func".to_owned() {
                    Some(NodeType::Std)
                } else if *text == "used_dep_func".to_owned() {
                    Some(NodeType::UsedDep)
                } else if *text == "used_dep_func_pub".to_owned() {
                    Some(NodeType::UsedDepPublic)
                } else {
                    None
                }
            },
        }
    }
}

/// The five tags are five different texts: a tag names one category.
pub proof fn lemma_tag_names_one_category(a: NodeType, b: NodeType)
    requires
        a.tag() == b.tag(),
    ensures
        a == b,
{
    reveal_strlit("local_func");
    reveal_strlit("local_func_pub");
    reveal_strlit("std_func");
    reveal_strlit("used_dep_func");
    reveal_strlit("used_dep_func_pub");
    if a != b {
        if a.tag() is Some {
            let text = a.tag()->0;
            assert(text.len() == 10 || text.len() == 14 || text.len() == 8 || text.len() == 13
                || text.len() == 17);
        }
    }
}

impl Node {
    /// The same node with category `t`.
    pub open spec fn with_type(self, t: NodeType) -> Node {
        Node { node_type: t, ..self }
    }

    /// Whether the node's compilation unit belongs to package `unit`.
    pub open spec fn in_unit(self, unit: Seq<char>) -> bool {
        self.crate_name@ == unit
    }

    /// Whether the node is part of the standard library.
    pub open spec fn is_std(self) -> bool {
        self.package_name is None
    }

    /// Lines of code that the node counts for: an unknown number counts as 0.
    pub open spec fn lines(self) -> nat {
        if self.num_lines >= 0 {
            self.num_lines as nat
        } else {
            0
        }
    }
}

/// The category that a run with reference package `unit` gives to `node` when
/// it reaches it: decided by the node's own unit and owner, and by whether the
/// run propagates a public surface.
pub open spec fn label_for(node: Node, unit: Seq<char>, public: bool) -> NodeType {
    if node.in_unit(unit) {
        if public {
            NodeType::LocalPublic
        } else {
            NodeType::Local
        }
    } else if node.is_std() {
        NodeType::Std
    } else if public {
        NodeType::UsedDepPublic
    } else {
        NodeType::UsedDep
    }
}

/// Node `i` exists and no run has classified it.
pub open spec fn is_open(g: Seq<Node>, i: int) -> bool {
    0 <= i < g.len() && !g[i].node_type.is_set()
}

/// Node `from` has an outward edge to position `to`.
pub open spec fn calls(g: Seq<Node>, from: int, to: int) -> bool {
    exists|e: int|
        0 <= e < g[from].outward_edges@.len() && (#[trigger] g[from].outward_edges@[e]).target
            == to
}

/// `p` is a chain of calls that passes through unclassified nodes only.
pub open spec fn is_open_path(g: Seq<Node>, p: Seq<int>) -> bool {
    &&& p.len() > 0
    &&& forall|k: int| 0 <= k < p.len() ==> is_open(g, #[trigger] p[k])
    &&& forall|k: int| 0 <= k < p.len() - 1 ==> calls(g, #[trigger] p[k], p[k + 1])
}

/// A traversal that starts at `seeds` classifies node `t`: a chain of calls
/// through unclassified nodes leads from a seed to `t`.
pub open spec fn reaches(g: Seq<Node>, seeds: Set<int>, t: int) -> bool {
    exists|p: Seq<int>| #[trigger] is_open_path(g, p) && seeds.contains(p[0]) && p.last() == t
}

/// A traversal that starts at `seeds` looks position `t` up: it is a seed, or
/// the target of an outward edge of a node that the traversal classifies.
pub open spec fn touched(g: Seq<Node>, seeds: Set<int>, t: int) -> bool {
    seeds.contains(t) || exists|u: int| #[trigger] reaches(g, seeds, u) && calls(g, u, t)
}

/// A traversal that starts at `seeds` looks up a position that the graph does
/// not have.
pub open spec fn dangling(g: Seq<Node>, seeds: Set<int>) -> bool {
    exists|t: int| #[trigger] touched(g, seeds, t) && !(0 <= t < g.len())
}

/// The graph after a traversal from `seeds` with reference package `unit`:
/// every node that the traversal reaches has the category that `label_for`
/// gives it, and every other node is as before.
pub open spec fn spread(g: Seq<Node>, seeds: Set<int>, unit: Seq<char>, public: bool) -> Seq<
    Node,
> {
    Seq::new(
        g.len(),
        |i: int|
            if reaches(g, seeds, i) {
                g[i].with_type(label_for(g[i], unit, public))
            } else {
                g[i]
            },
    )
}

/// The seeds of an analysis of package `unit` against itself: every node of
/// one of its compilation units.
pub open spec fn unit_seeds(g: Seq<Node>, unit: Seq<char>) -> Set<int> {
    Set::new(|i: int| 0 <= i < g.len() && g[i].in_unit(unit))
}

/// The graph after the analysis of package `unit` against itself.
pub open spec fn self_usage(g: Seq<Node>, unit: Seq<char>) -> Seq<Node> {
    spread(g, unit_seeds(g, unit), unit, false)
}

/// The analysis of package `unit` against itself looks up a position that the
/// graph does not have.
pub open spec fn self_usage_fails(g: Seq<Node>, unit: Seq<char>) -> bool {
    dangling(g, unit_seeds(g, unit))
}

/// Edge `e`, read as an inward edge, comes from a node of package `main`.
pub open spec fn is_call_from(g: Seq<Node>, e: Edge, main: Seq<char>) -> bool {
    e.target < g.len() && g[e.target as int].in_unit(main)
}

/// Package `main` calls `node` directly: one of the node's inward edges comes
/// from a node of `main`.
pub open spec fn called_from(g: Seq<Node>, node: Node, main: Seq<char>) -> bool {
    exists|j: int|
        0 <= j < node.inward_edges@.len() && is_call_from(g, #[trigger] node.inward_edges@[j], main)
}

/// The search for a caller of `node` in package `main`, which goes through the
/// inward edges in order and stops at the first that comes from `main`, looks
/// up a position that the graph does not have.
pub open spec fn caller_scan_dangles(g: Seq<Node>, node: Node, main: Seq<char>) -> bool {
    exists|j: int|
        0 <= j < node.inward_edges@.len() && (#[trigger] node.inward_edges@[j]).target >= g.len()
            && forall|k: int|
            0 <= k < j ==> !is_call_from(g, #[trigger] node.inward_edges@[k], main)
}

/// `node` is part of the public surface of package `dep`.
pub open spec fn is_surface(node: Node, dep: Seq<char>) -> bool {
    node.in_unit(dep) && node.is_externally_visible
}

/// The nodes of the public surface of `dep` that package `main` calls
/// directly.
pub open spec fn public_seeds(g: Seq<Node>, dep: Seq<char>, main: Seq<char>) -> Set<int> {
    Set::new(|i: int| 0 <= i < g.len() && is_surface(g[i], dep) && called_from(g, g[i], main))
}

/// The nodes of the public surface of `dep` that package `main` does not call
/// directly.
pub open spec fn private_seeds(g: Seq<Node>, dep: Seq<char>, main: Seq<char>) -> Set<int> {
    Set::new(|i: int| 0 <= i < g.len() && is_surface(g[i], dep) && !called_from(g, g[i], main))
}

/// The search for the callers of some node of the public surface of `dep`
/// looks up a position that the graph does not have.
pub open spec fn seed_scan_dangles(g: Seq<Node>, dep: Seq<char>, main: Seq<char>) -> bool {
    exists|i: int|
        0 <= i < g.len() && is_surface(#[trigger] g[i], dep) && caller_scan_dangles(g, g[i], main)
}

/// `node` belongs to one of the packages `deps`.
pub open spec fn in_dep_set(node: Node, deps: Set<PackageKey>) -> bool {
    node.package_version matches Some(version) && deps.contains((node.crate_name@, version@))
}

/// Every node that is still unclassified and belongs to one of the packages
/// `deps` becomes `Local`.
pub open spec fn retro_label(g: Seq<Node>, deps: Set<PackageKey>) -> Seq<Node> {
    Seq::new(
        g.len(),
        |i: int|
            if !g[i].node_type.is_set() && in_dep_set(g[i], deps) {
                g[i].with_type(NodeType::Local)
            } else {
                g[i]
            },
    )
}

/// The graph after the analysis of how package `main` uses its dependency
/// `dep`, whose own dependencies are `deps`: a public traversal from the nodes
/// that `main` calls directly, then a plain traversal from the rest of the
/// public surface of `dep`, then the labelling of what belongs to `deps` and
/// neither traversal reached.
pub open spec fn dependency_usage(
    g: Seq<Node>,
    dep: Seq<char>,
    main: Seq<char>,
    deps: Set<PackageKey>,
) -> Seq<Node> {
    retro_label(
        spread(
            spread(g, public_seeds(g, dep, main), dep, true),
            private_seeds(g, dep, main),
            dep,
            false,
        ),
        deps,
    )
}

/// The analysis of how `main` uses `dep` looks up a position that the graph
/// does not have: in the search for callers, in the public traversal, or in
/// the plain traversal that follows it.
pub open spec fn dependency_usage_fails(g: Seq<Node>, dep: Seq<char>, main: Seq<char>) -> bool {
    ||| seed_scan_dangles(g, dep, main)
    ||| dangling(g, public_seeds(g, dep, main))
    ||| dangling(spread(g, public_seeds(g, dep, main), dep, true), private_seeds(g, dep, main))
}

} // verus!

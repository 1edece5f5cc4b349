use vstd::prelude::*;

verus! {

/// Why the analysis of one package was abandoned.
///
/// Every error ends the analysis of the package at hand and of nothing else:
/// a caller that works through a batch records it and moves on.
#[derive(PartialEq, Eq, Structural, Clone, Copy, Debug)]
pub enum AnalysisError {
    /// A package and version that the manifest does not hold, or a call-graph
    /// file that is not there.
    NotFound,
    /// The program that builds the call graph ended with a failure status.
    ExternalToolFailure,
    /// A call-graph file or a version string that cannot be parsed.
    MalformedInput,
    /// An edge of the call graph that names a node the graph does not have.
    InconsistentGraph,
}

} // verus!

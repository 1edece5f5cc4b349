use crate::error::AnalysisError;
use vstd::prelude::*;

verus! {

/// Where the search for the call-graph file of a package stands.
#[derive(PartialEq, Eq, Structural, Clone, Copy, Debug)]
pub enum GraphFileState {
    /// The builder has not run.
    Start,
    /// The builder has run and ended with success.
    Built,
}

/// What the caller found out by doing what it was told.
#[derive(PartialEq, Eq, Structural, Clone, Copy, Debug)]
pub enum GraphFileEvent {
    /// The file is there.
    Found,
    /// The file is not there.
    Missing,
    /// The builder ended with a success status.
    BuilderSucceeded,
    /// The builder ended with a failure status.
    BuilderFailed,
    /// The file was read and is no call graph.
    Unreadable,
}

/// What the caller is to do next.
#[derive(PartialEq, Eq, Structural, Clone, Copy, Debug)]
pub enum GraphFileAction {
    /// Look whether the file is there.
    Probe,
    /// Run the builder on the directory of the package.
    RunBuilder,
    /// Read the file and hand the graph to the analysis.
    Load,
    /// Give the package up with this error.
    Abort(AnalysisError),
}

/// The state and the action that follow `event` in `state`.
///
/// A file that is there is loaded. A file that is missing is built, once:
/// where it is still missing after the builder ended with success, the package
/// is given up with `NotFound`. A builder that fails gives
/// `ExternalToolFailure`, a file that cannot be read `MalformedInput`.
pub open spec fn graph_file_transition(state: GraphFileState, event: GraphFileEvent) -> (
    GraphFileState,
    GraphFileAction,
) {
    match event {
        GraphFileEvent::Found => (state, GraphFileAction::Load),
        GraphFileEvent::Missing => match state {
            GraphFileState::Start => (state, GraphFileAction::RunBuilder),
            GraphFileState::Built => (state, GraphFileAction::Abort(AnalysisError::NotFound)),
        },
        GraphFileEvent::BuilderSucceeded => (GraphFileState::Built, GraphFileAction::Probe),
        GraphFileEvent::BuilderFailed => (
            state,
            GraphFileAction::Abort(AnalysisError::ExternalToolFailure),
        ),
        GraphFileEvent::Unreadable => (
            state,
            GraphFileAction::Abort(AnalysisError::MalformedInput),
        ),
    }
}

/// Decides what to do about the call-graph file of a package. The caller
/// starts in `Start` with the outcome of a first probe, does what it is told,
/// and comes back with what it found, until it is told to load or to abort.
pub fn graph_file_step(state: GraphFileState, event: GraphFileEvent) -> (next: (
    GraphFileState,
    GraphFileAction,
))
    ensures
        next == graph_file_transition(state, event),
        next.1 == GraphFileAction::RunBuilder ==> state == GraphFileState::Start,
        next.0 == GraphFileState::Built ==> state == GraphFileState::Built || event
            == GraphFileEvent::BuilderSucceeded,
{
    match event {
        GraphFileEvent::Found => (state, GraphFileAction::Load),
        GraphFileEvent::Missing => match state {
            GraphFileState::Start => (state, GraphFileAction::RunBuilder),
            GraphFileState::Built => (state, GraphFileAction::Abort(AnalysisError::NotFound)),
        },
        GraphFileEvent::BuilderSucceeded => (GraphFileState::Built, GraphFileAction::Probe),
        GraphFileEvent::BuilderFailed => (
            state,
            GraphFileAction::Abort(AnalysisError::ExternalToolFailure),
        ),
        GraphFileEvent::Unreadable => (
            state,
            GraphFileAction::Abort(AnalysisError::MalformedInput),
        ),
    }
}

} // verus!

//! Code-usage leanness of a package and its dependencies.
//!
//! From the call graph of a whole program and a lockfile-style manifest the
//! library finds out which functions a package reaches in its own code and in
//! its dependencies, and how much of each direct dependency it uses through
//! that dependency's public surface.
//!
//! - `resolver`: the direct and the transitive dependencies of a package.
//! - `graph`: the call graph and what a classification of it is.
//! - `classifier`: the traversals that classify a graph.
//! - `reach`: what holds of reachability and of traversals.
//! - `metrics`: counts and line sums of a classified graph.
//! - `index_calculator`: the analysis of one package from end to end.
//! - `graph_file`: what to do about a call-graph file that may be missing.
//! - `version`, `package`, `state`, `error`: versions, package identity,
//!   preparation stages and errors.

pub mod classifier;
pub mod error;
pub mod graph;
pub mod graph_file;
pub mod index_calculator;
pub mod metrics;
pub mod package;
pub mod reach;
pub mod resolver;
pub mod state;
pub mod version;

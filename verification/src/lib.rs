//! Go module workspaces: manifests, module graph, tasks and pruning.
//!
//! A Go module is the package-graph boundary. A root `go.work` supplies the
//! module list; without one, a root `go.mod` is treated as a single module.

pub mod collections;
pub mod command;
pub mod discovery;
pub mod error;
pub mod laws;
pub mod listing;
pub mod names;
pub mod order;
pub mod path;
pub mod prune;
pub mod syntax;
pub mod tasks;
pub mod text;
pub mod workspace;

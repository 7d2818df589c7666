//! What holds of the library as a whole, proved from what its functions promise.

pub mod commands;
pub mod discovery;
pub mod listings;
pub mod manifests;
pub mod members;
pub mod modules;
pub mod plans;
pub mod pruning;
pub mod reading;
pub mod tasks;
pub mod texts;
pub mod views;

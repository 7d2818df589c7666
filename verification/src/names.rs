//! The files that describe a Go workspace.
use vstd::prelude::*;

verus! {

pub const GO_WORK: &'static str = "go.work";

pub const GO_WORK_SUM: &'static str = "go.work.sum";

pub const GO_MOD: &'static str = "go.mod";

pub const GO_SUM: &'static str = "go.sum";

} // verus!

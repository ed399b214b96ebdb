//! The scheduling core of a small task runtime: two priority lanes, workers
//! that serve one lane and steal from the other, the runtime's settings, and
//! the server future's reading rules.
use vstd::prelude::*;

pub mod channel;
pub mod history;
pub mod join;
pub mod lanes;
pub mod laws;
pub mod runtime;
pub mod server;
pub mod worker;

verus! {

/// The priority of a task: which of the two lanes it waits in.
#[derive(Debug, Clone, Copy, PartialEq, Eq, Structural)]
pub enum FutureType {
    High,
    Low,
}

impl FutureType {
    /// The other priority.
    pub open spec fn other(self) -> FutureType {
        match self {
            FutureType::High => FutureType::Low,
            FutureType::Low => FutureType::High,
        }
    }
}

impl Default for FutureType {
    /// A task for which no priority is named is of low priority.
    fn default() -> (order: Self)
        ensures
            order == FutureType::Low,
    {
        FutureType::Low
    }
}

} // verus!

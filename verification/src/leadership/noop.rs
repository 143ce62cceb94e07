//! Leadership of a single instance.

use crate::leadership::LeadershipState;
use vstd::prelude::*;

verus! {

/// A single instance, which always leads.
#[derive(Debug, Clone, Copy, PartialEq, Eq, Structural)]
pub struct NoopLeader;

impl NoopLeader {
    /// A single instance.
    pub fn new() -> (leader: Self)
        ensures
            leader == NoopLeader,
    {
        NoopLeader
    }

    /// The state in which it starts, and stays.
    pub fn state(&self) -> (state: LeadershipState)
        ensures
            state == LeadershipState::Leader,
    {
        LeadershipState::Leader
    }
}

impl Default for NoopLeader {
    fn default() -> (leader: Self)
        ensures
            leader == NoopLeader,
    {
        Self::new()
    }
}

} // verus!

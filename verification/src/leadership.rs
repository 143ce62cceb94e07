//! Which of several instances collects.

pub mod noop;

use vstd::prelude::*;

verus! {

/// Whether this instance leads.
#[derive(Debug, Clone, Copy, PartialEq, Eq, Structural)]
pub enum LeadershipState {
    /// It leads, and collects metrics.
    Leader,
    /// It stands by, and collects nothing.
    Standby,
}

impl LeadershipState {
    /// Whether this instance leads.
    pub fn is_leader(self) -> (leads: bool)
        ensures
            leads == (self == LeadershipState::Leader),
    {
        match self {
            LeadershipState::Leader => true,
            LeadershipState::Standby => false,
        }
    }
}

} // verus!

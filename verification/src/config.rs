//! Settings that the library's decisions depend on, and what follows from them.

use vstd::prelude::*;

verus! {

/// How fine the exported consumer group metrics are.
#[derive(Debug, Clone, Copy, PartialEq, Eq, Structural)]
pub enum Granularity {
    /// Totals per group and topic only.
    Topic,
    /// One set of metrics per partition as well.
    Partition,
}

/// How long data counts as fresh, in nanoseconds: as configured, or three poll intervals.
pub fn staleness_threshold(configured: Option<u64>, poll_interval: u64) -> (threshold: u64)
    ensures
        threshold == match configured {
            Some(nanos) => nanos as int,
            None => if 3 * poll_interval <= u64::MAX {
                3 * poll_interval
            } else {
                u64::MAX as int
            },
        },
{
    match configured {
        Some(nanos) => nanos,
        None => if poll_interval <= u64::MAX / 3 {
            3 * poll_interval
        } else {
            u64::MAX
        },
    }
}

/// Whether one of some verdicts is yes.
fn any(verdicts: &Vec<bool>) -> (found: bool)
    ensures
        found == verdicts@.contains(true),
{
    let mut i: usize = 0;
    while i < verdicts.len()
        invariant
            i <= verdicts.len(),
            forall|k: int| 0 <= k < i ==> !#[trigger] verdicts@[k],
        decreases verdicts.len() - i,
    {
        if verdicts[i] {
            assert(verdicts@[i as int]);
            return true;
        }
        i += 1;
    }
    false
}

/// Whether a name is allowed, given which patterns of the two lists match it: one of the
/// whitelist must, and none of the blacklist may.
pub fn name_allowed(whitelist: &Vec<bool>, blacklist: &Vec<bool>) -> (allowed: bool)
    ensures
        allowed == (whitelist@.contains(true) && !blacklist@.contains(true)),
{
    any(whitelist) && !any(blacklist)
}

/// How leadership is decided.
#[derive(Debug, Clone, Copy, PartialEq, Eq, Structural)]
pub enum LeadershipChoice {
    /// A single instance, which always leads.
    Single,
    /// Election was asked for but cannot be had: a single instance, with a warning.
    SingleForWantOfElection,
    /// Election among several instances.
    Elected,
}

/// How leadership is decided: election only where it is switched on and available.
pub fn leadership_choice(enabled: bool, election_available: bool) -> (choice: LeadershipChoice)
    ensures
        choice == (if !enabled {
            LeadershipChoice::Single
        } else if election_available {
            LeadershipChoice::Elected
        } else {
            LeadershipChoice::SingleForWantOfElection
        }),
{
    if !enabled {
        LeadershipChoice::Single
    } else if election_available {
        LeadershipChoice::Elected
    } else {
        LeadershipChoice::SingleForWantOfElection
    }
}

} // verus!

//! When a cluster is collected, what follows a collection, and how its result is published.

use crate::collector::lag_calculator::{calculable, lag_metrics, LagCalculator, LagInput};
use crate::collector::offset_collector::OffsetsSnapshot;
use crate::collector::timestamp_sampler::TimestampMap;
use crate::config::Granularity;
use crate::leadership::LeadershipState;
use crate::metrics::points::lag_points;
use crate::metrics::registry::{ClusterView, MetricsRegistry, RegistryView};
use crate::metrics::types::Labels;
use vstd::arithmetic::power2::{lemma2_to64, lemma_pow2_unfold, pow2};
use vstd::prelude::*;

verus! {

/// A second, in nanoseconds.
pub const SECOND: u64 = 1_000_000_000;

/// The longest time that a collection may take: a minute.
pub const DEFAULT_COLLECTION_TIMEOUT: u64 = 60_000_000_000;

/// The longest pause after errors, in seconds.
pub const MAX_BACKOFF_SECS: u64 = 300;

/// After how many errors in a row the exporter counts as unhealthy.
pub const ERRORS_BEFORE_UNHEALTHY: u32 = 3;

/// How long a collection may take, so that it ends before the next one is due.
pub open spec fn timeout_for(poll_interval: u64) -> u64 {
    if poll_interval > 10 * SECOND {
        (poll_interval - 5 * SECOND) as u64
    } else if poll_interval < DEFAULT_COLLECTION_TIMEOUT {
        poll_interval
    } else {
        DEFAULT_COLLECTION_TIMEOUT
    }
}

/// How a collection ended.
#[derive(Debug, Clone, Copy, PartialEq, Eq, Structural)]
pub enum CollectionEnd {
    Collected,
    Failed,
    TimedOut,
}

/// What follows a collection.
#[derive(Debug, Clone, Copy, PartialEq, Eq, Structural)]
pub struct AfterCollection {
    /// The health to set, if any.
    pub set_healthy: Option<bool>,
    /// How long to pause before going on, in seconds.
    pub pause_secs: Option<u64>,
}

/// What to do when a collection is due.
#[derive(Debug, Clone, Copy, PartialEq, Eq, Structural)]
pub enum DueAction {
    Collect,
    Skip,
}

/// Errors in a row, and the next pause.
#[derive(Debug, Clone, Copy, PartialEq, Eq, Structural)]
pub struct LoopState {
    pub consecutive_errors: u32,
    pub current_backoff_secs: u64,
}

/// The state before the first collection, and after a success.
pub open spec fn calm() -> LoopState {
    LoopState { consecutive_errors: 0, current_backoff_secs: 1 }
}

/// Twice the pause, up to the longest.
pub open spec fn next_backoff(secs: u64) -> u64 {
    if 2 * secs < MAX_BACKOFF_SECS {
        (2 * secs) as u64
    } else {
        MAX_BACKOFF_SECS
    }
}

/// The state after a collection.
pub open spec fn next_state(state: LoopState, end: CollectionEnd) -> LoopState {
    let errors = (state.consecutive_errors + 1) as u32;
    match end {
        CollectionEnd::Collected => calm(),
        CollectionEnd::Failed => LoopState {
            consecutive_errors: errors,
            current_backoff_secs: if errors >= ERRORS_BEFORE_UNHEALTHY {
                next_backoff(state.current_backoff_secs)
            } else {
                state.current_backoff_secs
            },
        },
        CollectionEnd::TimedOut => LoopState { consecutive_errors: errors, ..state },
    }
}

/// What follows a collection: a success makes the exporter healthy, the third failure in a row
/// and each further one make it unhealthy, and after an error, though not after a timeout, there
/// is then a pause.
pub open spec fn consequence(state: LoopState, end: CollectionEnd) -> AfterCollection {
    let unhealthy = state.consecutive_errors + 1 >= ERRORS_BEFORE_UNHEALTHY;
    match end {
        CollectionEnd::Collected => AfterCollection { set_healthy: Some(true), pause_secs: None },
        CollectionEnd::Failed => AfterCollection {
            set_healthy: if unhealthy {
                Some(false)
            } else {
                None
            },
            pause_secs: if unhealthy {
                Some(state.current_backoff_secs)
            } else {
                None
            },
        },
        CollectionEnd::TimedOut => AfterCollection {
            set_healthy: if unhealthy {
                Some(false)
            } else {
                None
            },
            pause_secs: None,
        },
    }
}

/// The collection loop of one cluster.
pub struct ClusterManager {
    pub cluster_name: String,
    pub cluster_labels: Labels,
    pub granularity: Granularity,
    /// How often the cluster is collected, in nanoseconds.
    pub poll_interval: u64,
    /// How long a collection may take, in nanoseconds.
    pub collection_timeout: u64,
    /// How often remembered timestamps are cleared, in nanoseconds.
    pub cache_cleanup_interval: u64,
    pub state: LoopState,
}

impl ClusterManager {
    /// Whether the next pause is within bounds.
    pub open spec fn well_formed(&self) -> bool {
        1 <= self.state.current_backoff_secs <= MAX_BACKOFF_SECS
    }

    /// A loop before its first collection.
    pub fn new(
        cluster_name: String,
        cluster_labels: Labels,
        granularity: Granularity,
        poll_interval: u64,
        cache_ttl: u64,
    ) -> (manager: Self)
        requires
            2 * cache_ttl <= u64::MAX,
        ensures
            manager.well_formed(),
            manager.cluster_name@ == cluster_name@,
            manager.cluster_labels@ == cluster_labels@,
            manager.granularity == granularity,
            manager.poll_interval == poll_interval,
            manager.collection_timeout == timeout_for(poll_interval),
            manager.cache_cleanup_interval == 2 * cache_ttl,
            manager.state == calm(),
    {
        let collection_timeout: u64 = if poll_interval > 10 * SECOND {
            poll_interval - 5 * SECOND
        } else if poll_interval < DEFAULT_COLLECTION_TIMEOUT {
            poll_interval
        } else {
            DEFAULT_COLLECTION_TIMEOUT
        };
        ClusterManager {
            cluster_name,
            cluster_labels,
            granularity,
            poll_interval,
            collection_timeout,
            cache_cleanup_interval: 2 * cache_ttl,
            state: LoopState { consecutive_errors: 0, current_backoff_secs: 1 },
        }
    }

    /// What to do when a collection is due: an instance that stands by collects nothing.
    pub fn due(&self, leadership: LeadershipState) -> (action: DueAction)
        ensures
            action == (if leadership == LeadershipState::Leader {
                DueAction::Collect
            } else {
                DueAction::Skip
            }),
    {
        if leadership.is_leader() {
            DueAction::Collect
        } else {
            DueAction::Skip
        }
    }

    /// Takes in how a collection ended, and says what follows.
    pub fn after_collection(&mut self, end: CollectionEnd) -> (after: AfterCollection)
        requires
            old(self).well_formed(),
            old(self).state.consecutive_errors < u32::MAX,
        ensures
            final(self).well_formed(),
            final(self).state == next_state(old(self).state, end),
            final(self).cluster_name == old(self).cluster_name,
            final(self).cluster_labels == old(self).cluster_labels,
            final(self).granularity == old(self).granularity,
            final(self).poll_interval == old(self).poll_interval,
            final(self).collection_timeout == old(self).collection_timeout,
            final(self).cache_cleanup_interval == old(self).cache_cleanup_interval,
            after == consequence(old(self).state, end),
    {
        match end {
            CollectionEnd::Collected => {
                self.state = LoopState { consecutive_errors: 0, current_backoff_secs: 1 };
                AfterCollection { set_healthy: Some(true), pause_secs: None }
            },
            CollectionEnd::Failed => {
                let errors: u32 = self.state.consecutive_errors + 1;
                let pause: u64 = self.state.current_backoff_secs;
                if errors >= ERRORS_BEFORE_UNHEALTHY {
                    let doubled: u64 = if 2 * pause < MAX_BACKOFF_SECS {
                        2 * pause
                    } else {
                        MAX_BACKOFF_SECS
                    };
                    self.state =
                    LoopState { consecutive_errors: errors, current_backoff_secs: doubled };
                    AfterCollection { set_healthy: Some(false), pause_secs: Some(pause) }
                } else {
                    self.state =
                    LoopState { consecutive_errors: errors, current_backoff_secs: pause };
                    AfterCollection { set_healthy: None, pause_secs: None }
                }
            },
            CollectionEnd::TimedOut => {
                let errors: u32 = self.state.consecutive_errors + 1;
                let pause: u64 = self.state.current_backoff_secs;
                self.state = LoopState { consecutive_errors: errors, current_backoff_secs: pause };
                AfterCollection {
                    set_healthy: if errors >= ERRORS_BEFORE_UNHEALTHY {
                        Some(false)
                    } else {
                        None
                    },
                    pause_secs: None,
                }
            },
        }
    }

    /// Publishes a snapshot: calculates its lag, replaces the cluster's points, and notes how
    /// long the collection took. Without a sampler there is no time lag.
    pub fn publish(
        &self,
        registry: &mut MetricsRegistry,
        snapshot: &OffsetsSnapshot,
        timestamps: &TimestampMap,
        time_lag_enabled: bool,
        now_ms: i64,
        poll_time_ms: u64,
        scrape_duration_ms: u64,
        now: u64,
        unix_seconds: u64,
    )
        requires
            old(registry).well_formed(),
            calculable(
                LagInput {
                    snapshot: snapshot@,
                    stamps: timestamps@,
                    now_ms,
                    compacted: snapshot@.compacted_topics,
                    time_lag_enabled,
                },
            ),
        ensures
            final(registry).well_formed(),
            final(registry)@ == (RegistryView {
                clusters: old(registry)@.clusters.insert(
                    self.cluster_name@,
                    ClusterView {
                        points: lag_points(
                            self.cluster_name@,
                            lag_metrics(
                                LagInput {
                                    snapshot: snapshot@,
                                    stamps: timestamps@,
                                    now_ms,
                                    compacted: snapshot@.compacted_topics,
                                    time_lag_enabled,
                                },
                                poll_time_ms,
                            ),
                            self.granularity,
                            self.cluster_labels@,
                        ),
                        updated_at: now,
                        updated_unix: unix_seconds,
                    },
                ),
                scrape_ms: scrape_duration_ms,
                ..old(registry)@
            }),
    {
        let lag = LagCalculator::calculate(
            snapshot,
            timestamps,
            now_ms,
            poll_time_ms,
            &snapshot.compacted_topics,
            time_lag_enabled,
        );
        registry.update_with_options(
            self.cluster_name.as_str(),
            lag,
            self.granularity,
            &self.cluster_labels,
            now,
            unix_seconds,
        );
        registry.set_scrape_duration_ms(scrape_duration_ms);
    }
}

/// The state after `n` failed collections from the start.
pub open spec fn after_failures(n: nat) -> LoopState
    decreases n,
{
    if n == 0 {
        calm()
    } else {
        next_state(after_failures((n - 1) as nat), CollectionEnd::Failed)
    }
}

/// After the third failure in a row the pause is a second; it doubles with each further failure,
/// and is never longer than the longest.
pub proof fn pauses_double(n: nat)
    requires
        2 <= n < u32::MAX,
    ensures
        after_failures(n).consecutive_errors == n,
        consequence(after_failures(n), CollectionEnd::Failed).pause_secs == Some(
            if pow2((n - 2) as nat) < MAX_BACKOFF_SECS {
                pow2((n - 2) as nat) as u64
            } else {
                MAX_BACKOFF_SECS
            },
        ),
    decreases n,
{
    lemma2_to64();
    if n == 2 {
        reveal_with_fuel(after_failures, 3);
    } else {
        pauses_double((n - 1) as nat);
        lemma_pow2_unfold((n - 2) as nat);
    }
}

/// A success makes the exporter healthy and ends every row of errors, whatever came before.
pub proof fn success_recovers(state: LoopState)
    ensures
        next_state(state, CollectionEnd::Collected) == calm(),
        consequence(state, CollectionEnd::Collected).set_healthy == Some(true),
        consequence(state, CollectionEnd::Collected).pause_secs is None,
{
}

/// Fewer failures in a row than three never make the exporter unhealthy; from the third on each
/// one does.
pub proof fn unhealthy_from_the_third_failure(state: LoopState, end: CollectionEnd)
    requires
        end != CollectionEnd::Collected,
    ensures
        consequence(state, end).set_healthy == (if state.consecutive_errors
            >= ERRORS_BEFORE_UNHEALTHY - 1 {
            Some(false)
        } else {
            None
        }),
{
}

/// A collection that may take as long as its timeout ends before the next one is due, or when
/// it is: five seconds before where collections are more than ten seconds apart.
pub proof fn collections_do_not_overlap(poll_interval: u64)
    ensures
        timeout_for(poll_interval) <= poll_interval,
        poll_interval > 10_000_000_000 ==> timeout_for(poll_interval) == poll_interval
            - 5_000_000_000,
        poll_interval <= 10_000_000_000 ==> timeout_for(poll_interval) == poll_interval,
{
}

/// Each failure counts, and so does each timeout, but only a failure is followed by a pause, and
/// only a failure makes the next pause longer: twice as long, up to five minutes.
pub proof fn only_failures_pause(state: LoopState)
    requires
        state.consecutive_errors < u32::MAX,
        1 <= state.current_backoff_secs <= 300,
    ensures
        next_state(state, CollectionEnd::TimedOut).consecutive_errors == state.consecutive_errors
            + 1,
        next_state(state, CollectionEnd::TimedOut).current_backoff_secs
            == state.current_backoff_secs,
        consequence(state, CollectionEnd::TimedOut).pause_secs is None,
        next_state(state, CollectionEnd::Failed).consecutive_errors == state.consecutive_errors + 1,
        consequence(state, CollectionEnd::Failed).pause_secs == (if state.consecutive_errors >= 2 {
            Some(state.current_backoff_secs)
        } else {
            None
        }),
        next_state(state, CollectionEnd::Failed).current_backoff_secs == (
        if state.consecutive_errors < 2 {
            state.current_backoff_secs as int
        } else if 2 * state.current_backoff_secs < 300 {
            2 * state.current_backoff_secs
        } else {
            300
        }),
        calm().consecutive_errors == 0,
        calm().current_backoff_secs == 1,
{
}

} // verus!

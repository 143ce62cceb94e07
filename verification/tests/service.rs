use klag_exporter::cluster::manager::{
    ClusterManager, CollectionEnd, DueAction, LoopState, DEFAULT_COLLECTION_TIMEOUT, SECOND,
};
use klag_exporter::collector::lag_calculator::TimestampData;
use klag_exporter::collector::offset_collector::{GroupSnapshot, OffsetsSnapshot};
use klag_exporter::collector::timestamp_sampler::TimestampMap;
use klag_exporter::config::{
    leadership_choice, name_allowed, staleness_threshold, Granularity, LeadershipChoice,
};
use klag_exporter::export::otel::observations;
use klag_exporter::http::server::{
    health_handler, leader_handler, metrics_handler, ready_handler, root_handler, STATUS_OK,
    STATUS_UNAVAILABLE,
};
use klag_exporter::kafka::client::TopicPartition;
use klag_exporter::keymap::{NameSet, OrderMap};
use klag_exporter::leadership::noop::NoopLeader;
use klag_exporter::leadership::LeadershipState;
use klag_exporter::metrics::registry::MetricsRegistry;
use klag_exporter::metrics::types::{Labels, Reading};
use klag_exporter::retry::{
    full_jitter_backoff, longest_backoff, RetryFailure, RetryProgress, RetryStep, RetryStopReason,
};
use klag_exporter::text::{
    chars_of, comes_before, contains_text, same_text, signed_text, sort_names, unsigned_text,
};

fn retry<T, E>(
    max_retries: usize,
    retriable: bool,
    mut operation: impl FnMut(usize) -> Result<T, E>,
) -> Result<(T, usize), RetryFailure<E>> {
    let mut progress = RetryProgress::new(max_retries);
    loop {
        let outcome = operation(progress.attempt);
        match progress.step(outcome, retriable) {
            RetryStep::Succeeded { value, attempts } => return Ok((value, attempts)),
            RetryStep::Failed(failure) => return Err(failure),
            RetryStep::Wait { retry_number } => assert_eq!(progress.attempt, retry_number + 1),
        }
    }
}

#[test]
fn zero_retries_attempts_once() {
    let mut calls = 0;
    let failure = retry(0, true, |_| {
        calls += 1;
        Err::<(), _>("transient")
    })
    .unwrap_err();
    assert_eq!(calls, 1);
    assert_eq!(failure.attempts, 1);
    assert_eq!(failure.reason, RetryStopReason::Exhausted);
}

#[test]
fn retriable_failure_recovers_on_retry() {
    let mut calls = 0;
    let result = retry(2, true, |_| {
        calls += 1;
        if calls == 1 {
            Err("transient")
        } else {
            Ok("recovered")
        }
    })
    .unwrap();
    assert_eq!(result, ("recovered", 2));
    assert_eq!(calls, 2);
}

#[test]
fn non_retriable_failure_stops_immediately() {
    let mut calls = 0;
    let failure = retry(3, false, |_| {
        calls += 1;
        Err::<(), _>("permanent")
    })
    .unwrap_err();
    assert_eq!(calls, 1);
    assert_eq!(failure.reason, RetryStopReason::NonRetriable);
    assert_eq!(failure.error, "permanent");
}

#[test]
fn retriable_failure_exhausts_configured_attempts() {
    let mut calls = 0;
    let failure = retry(2, true, |_| {
        calls += 1;
        Err::<(), _>("transient")
    })
    .unwrap_err();
    assert_eq!(calls, 3);
    assert_eq!(failure.attempts, 3);
    assert_eq!(failure.reason, RetryStopReason::Exhausted);
}

#[test]
fn jitter_stays_within_exponential_cap() {
    for _ in 0..100 {
        assert!(full_jitter_backoff(1) <= 50);
        assert!(full_jitter_backoff(2) <= 100);
        assert!(full_jitter_backoff(10) <= 1000);
    }
}

#[test]
fn the_longest_wait_doubles_up_to_a_second() {
    let caps: Vec<u64> = (0..8).map(longest_backoff).collect();
    assert_eq!(caps, vec![50, 50, 100, 200, 400, 800, 1000, 1000]);
    assert_eq!(longest_backoff(usize::MAX), 1000);
}

#[test]
fn jitter_varies() {
    let waits: Vec<u64> = (0..100).map(|_| full_jitter_backoff(usize::MAX)).collect();
    assert!(waits.iter().all(|w| *w <= 1000));
    assert!(waits.iter().any(|w| *w != waits[0]));
}

#[test]
fn test_leadership_state_is_leader() {
    assert!(LeadershipState::Leader.is_leader());
    assert!(!LeadershipState::Standby.is_leader());
}

#[test]
fn test_noop_leader_always_leader() {
    let provider = NoopLeader::new();
    assert!(provider.state().is_leader());
    assert_eq!(provider.state(), LeadershipState::Leader);
}

#[test]
fn test_noop_leader_default() {
    assert!(NoopLeader::default().state().is_leader());
}

#[test]
fn test_metrics_endpoint() {
    let reply = metrics_handler("up 1\n".to_string());
    assert_eq!(reply.status, STATUS_OK);
    assert_eq!(reply.status, 200);
    assert_eq!(reply.content_type, "text/plain; charset=utf-8");
    assert_eq!(reply.body, "up 1\n");
}

#[test]
fn test_health_endpoint() {
    let registry = MetricsRegistry::new();
    let reply = health_handler(registry.is_healthy());
    assert_eq!(reply.status, STATUS_OK);
    assert_eq!(reply.body, "OK");
    let ill = health_handler(false);
    assert_eq!(ill.status, STATUS_UNAVAILABLE);
    assert_eq!(ill.body, "Unhealthy");
}

#[test]
fn test_ready_endpoint_not_ready_no_data() {
    let registry = MetricsRegistry::new();
    let reply = ready_handler(LeadershipState::Leader, registry.cluster_count());
    assert_eq!(reply.status, STATUS_UNAVAILABLE);
    assert_eq!(reply.status, 503);
    assert_eq!(reply.body, "Not ready - no cluster data");
    assert_eq!(ready_handler(LeadershipState::Leader, 1).status, STATUS_OK);
    assert_eq!(ready_handler(LeadershipState::Leader, 1).body, "Ready");
}

#[test]
fn test_ready_endpoint_not_ready_standby() {
    let reply = ready_handler(LeadershipState::Standby, 3);
    assert_eq!(reply.status, STATUS_UNAVAILABLE);
    assert_eq!(reply.body, "Not ready - standby instance (not leader)");
}

#[test]
fn test_leader_endpoint_is_leader() {
    let reply = leader_handler(LeadershipState::Leader);
    assert_eq!(reply.status, STATUS_OK);
    assert_eq!(reply.body, "{\"is_leader\":true}");
    assert_eq!(reply.content_type, "application/json");
}

#[test]
fn test_leader_endpoint_is_standby() {
    let reply = leader_handler(LeadershipState::Standby);
    assert_eq!(reply.status, STATUS_OK);
    assert_eq!(reply.body, "{\"is_leader\":false}");
}

#[test]
fn the_start_page_links_every_endpoint() {
    let reply = root_handler();
    assert_eq!(reply.content_type, "text/html; charset=utf-8");
    for path in ["/metrics", "/health", "/ready", "/leader"] {
        assert!(reply.body.contains(&format!("<a href=\"{path}\">")));
    }
}

fn manager(poll_interval: u64) -> ClusterManager {
    ClusterManager::new(
        "c".to_string(),
        Labels::new(),
        Granularity::Partition,
        poll_interval,
        60 * SECOND,
    )
}

#[test]
fn collections_end_before_the_next_is_due() {
    assert_eq!(manager(30 * SECOND).collection_timeout, 25 * SECOND);
    assert_eq!(manager(10 * SECOND).collection_timeout, 10 * SECOND);
    assert_eq!(manager(SECOND).collection_timeout, SECOND);
    assert_eq!(manager(120 * SECOND).collection_timeout, 115 * SECOND);
    assert_eq!(manager(SECOND).cache_cleanup_interval, 120 * SECOND);
    assert_eq!(DEFAULT_COLLECTION_TIMEOUT, 60 * SECOND);
}

#[test]
fn failures_pause_longer_and_longer() {
    let mut m = manager(30 * SECOND);
    let first = m.after_collection(CollectionEnd::Failed);
    assert_eq!((first.set_healthy, first.pause_secs), (None, None));
    let second = m.after_collection(CollectionEnd::TimedOut);
    assert_eq!((second.set_healthy, second.pause_secs), (None, None));
    let mut pauses = Vec::new();
    for _ in 0..11 {
        let after = m.after_collection(CollectionEnd::Failed);
        assert_eq!(after.set_healthy, Some(false));
        pauses.push(after.pause_secs.unwrap());
    }
    assert_eq!(pauses, vec![1, 2, 4, 8, 16, 32, 64, 128, 256, 300, 300]);
    let late = m.after_collection(CollectionEnd::TimedOut);
    assert_eq!((late.set_healthy, late.pause_secs), (Some(false), None));
    let fine = m.after_collection(CollectionEnd::Collected);
    assert_eq!((fine.set_healthy, fine.pause_secs), (Some(true), None));
    assert_eq!(m.state, LoopState { consecutive_errors: 0, current_backoff_secs: 1 });
}

#[test]
fn only_a_leader_collects() {
    let m = manager(SECOND);
    assert_eq!(m.due(LeadershipState::Leader), DueAction::Collect);
    assert_eq!(m.due(LeadershipState::Standby), DueAction::Skip);
}

#[test]
fn a_snapshot_is_published() {
    let mut watermarks = OrderMap::new();
    watermarks.insert(TopicPartition::new("t", 0), (0i64, 10i64));
    let mut offsets = OrderMap::new();
    offsets.insert(TopicPartition::new("t", 0), 4i64);
    let snapshot = OffsetsSnapshot {
        cluster_name: "c".to_string(),
        groups: vec![GroupSnapshot {
            group_id: "g".to_string(),
            state: "Stable".to_string(),
            members: vec![],
            offsets,
        }],
        watermarks,
        compacted_topics: NameSet::new(),
        timestamp_ms: 5,
    };
    let mut stamps = TimestampMap::new();
    stamps.insert(
        ("g".to_string(), TopicPartition::new("t", 0)),
        TimestampData { timestamp_ms: 1000 },
    );
    let mut registry = MetricsRegistry::new();
    let m = manager(SECOND);
    m.publish(&mut registry, &snapshot, &stamps, true, 3000, 12, 15, 0, 7);
    assert_eq!(registry.cluster_count(), 1);
    assert_eq!(registry.get_scrape_duration_seconds(), Reading::Elapsed(15));
    let metrics = registry.get_otel_metrics(0);
    let value = |name: &str| observations(&metrics, name)[0].value;
    assert_eq!(value("kafka_consumergroup_group_lag"), Reading::Whole(6));
    assert_eq!(value("kafka_consumergroup_group_lag_seconds"), Reading::Millis(2000));
    assert_eq!(value("kafka_consumergroup_poll_time_ms"), Reading::Count(12));
    m.publish(&mut registry, &snapshot, &stamps, false, 3000, 12, 15, 0, 7);
    let metrics = registry.get_otel_metrics(0);
    assert!(observations(&metrics, "kafka_consumergroup_group_lag_seconds").is_empty());
}

#[test]
fn settings_decide() {
    assert_eq!(staleness_threshold(None, 30 * SECOND), 90 * SECOND);
    assert_eq!(staleness_threshold(Some(5), 30 * SECOND), 5);
    assert_eq!(staleness_threshold(None, u64::MAX), u64::MAX);
    assert!(name_allowed(&vec![false, true], &vec![false]));
    assert!(!name_allowed(&vec![true], &vec![false, true]));
    assert!(!name_allowed(&vec![], &vec![]));
    assert_eq!(leadership_choice(false, true), LeadershipChoice::Single);
    assert_eq!(leadership_choice(true, true), LeadershipChoice::Elected);
    assert_eq!(leadership_choice(true, false), LeadershipChoice::SingleForWantOfElection);
}

#[test]
fn texts() {
    assert_eq!(unsigned_text(0), "0");
    assert_eq!(unsigned_text(u64::MAX), "18446744073709551615");
    assert_eq!(signed_text(-1), "-1");
    assert_eq!(signed_text(i64::MIN), "-9223372036854775808");
    assert_eq!(signed_text(i64::MAX), "9223372036854775807");
    assert!(same_text("a\u{e9}", "a\u{e9}"));
    assert!(!same_text("a", "ab"));
    assert!(comes_before("a", "ab"));
    assert!(comes_before("Z", "a"));
    assert!(!comes_before("b", "ab"));
    assert!(!comes_before("a", "a"));
    assert!(contains_text("compact,delete", "compact"));
    assert!(!contains_text("comp", "compact"));
    assert!(contains_text("x", ""));
    assert_eq!(chars_of("a\u{e9}"), vec!['a', '\u{e9}']);
    let sorted = sort_names(vec!["b".to_string(), "a".to_string(), "ab".to_string()]);
    assert_eq!(sorted, vec!["a", "ab", "b"]);
}

#[test]
fn ordered_maps_and_sets() {
    let mut map: OrderMap<String, u32> = OrderMap::new();
    map.insert("a".to_string(), 1);
    map.insert("b".to_string(), 2);
    map.insert("a".to_string(), 3);
    assert_eq!(map.len(), 2);
    assert_eq!(map.key_at(0), "a");
    assert_eq!(map.value_at(0), &3);
    assert_eq!(map.position(&"b".to_string()), Some(1));
    assert_eq!(map.position(&"c".to_string()), None);
    map.keep(&vec![false, true]);
    assert_eq!(map.len(), 1);
    assert!(!map.contains_key(&"a".to_string()));
    let mut more: OrderMap<String, u32> = OrderMap::new();
    more.insert("b".to_string(), 9);
    more.insert("d".to_string(), 4);
    map.absorb(more);
    assert_eq!(map.into_values(), vec![9, 4]);
    let mut set = NameSet::new();
    assert!(set.is_empty());
    set.insert("x");
    set.insert("x");
    set.insert_all(&{
        let mut other = NameSet::new();
        other.insert("y");
        other
    });
    assert_eq!(set.to_vec(), vec!["x", "y"]);
    assert_eq!(set.name_at(1), "y");
}

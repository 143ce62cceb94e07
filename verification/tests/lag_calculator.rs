use klag_exporter::collector::lag_calculator::{
    build_member_map, encode_group_state, LagCalculator, LagMetrics, RetentionShare, TimestampData,
};
use klag_exporter::collector::offset_collector::{GroupSnapshot, MemberSnapshot, OffsetsSnapshot};
use klag_exporter::kafka::client::TopicPartition;
use klag_exporter::keymap::{NameSet, OrderMap};

type Stamps = OrderMap<(String, TopicPartition), TimestampData>;

fn make_snapshot() -> OffsetsSnapshot {
    let mut watermarks = OrderMap::new();
    watermarks.insert(TopicPartition::new("topic1", 0), (0i64, 100i64));
    watermarks.insert(TopicPartition::new("topic1", 1), (0, 200));
    watermarks.insert(TopicPartition::new("topic2", 0), (0, 50));

    let mut offsets = OrderMap::new();
    offsets.insert(TopicPartition::new("topic1", 0), 90i64);
    offsets.insert(TopicPartition::new("topic1", 1), 150);
    offsets.insert(TopicPartition::new("topic2", 0), 50);

    OffsetsSnapshot {
        cluster_name: "test-cluster".to_string(),
        groups: vec![GroupSnapshot {
            group_id: "test-group".to_string(),
            state: "Stable".to_string(),
            members: vec![MemberSnapshot {
                member_id: "member-1".to_string(),
                client_id: "client-1".to_string(),
                client_host: "host-1".to_string(),
                assignments: vec![
                    TopicPartition::new("topic1", 0),
                    TopicPartition::new("topic1", 1),
                ],
            }],
            offsets,
        }],
        watermarks,
        compacted_topics: NameSet::new(),
        timestamp_ms: 1000000,
    }
}

fn one_partition(low: i64, high: i64, committed: i64) -> OffsetsSnapshot {
    let mut watermarks = OrderMap::new();
    watermarks.insert(TopicPartition::new("topic1", 0), (low, high));
    let mut offsets = OrderMap::new();
    offsets.insert(TopicPartition::new("topic1", 0), committed);
    OffsetsSnapshot {
        cluster_name: "test".to_string(),
        groups: vec![GroupSnapshot {
            group_id: "test-group".to_string(),
            state: "Stable".to_string(),
            members: vec![],
            offsets,
        }],
        watermarks,
        compacted_topics: NameSet::new(),
        timestamp_ms: 0,
    }
}

fn calculate(snapshot: &OffsetsSnapshot, stamps: &Stamps, now_ms: i64, enabled: bool) -> LagMetrics {
    let none = NameSet::new();
    assert!(LagCalculator::can_calculate(snapshot, stamps, now_ms, &none, enabled));
    LagCalculator::calculate(snapshot, stamps, now_ms, 100, &none, enabled)
}

fn seconds(millis: Option<i64>) -> Option<f64> {
    millis.map(|m| m as f64 / 1000.0)
}

#[test]
fn test_lag_calculator_offset_lag() {
    let snapshot = make_snapshot();
    let timestamps = Stamps::new();
    let now_ms = 1000000;
    let metrics = calculate(&snapshot, &timestamps, now_ms, true);

    let p0 = metrics
        .partition_metrics
        .iter()
        .find(|m| m.topic == "topic1" && m.partition == 0)
        .unwrap();
    assert_eq!(p0.lag, 10);

    let p1 = metrics
        .partition_metrics
        .iter()
        .find(|m| m.topic == "topic1" && m.partition == 1)
        .unwrap();
    assert_eq!(p1.lag, 50);

    let p2 = metrics
        .partition_metrics
        .iter()
        .find(|m| m.topic == "topic2" && m.partition == 0)
        .unwrap();
    assert_eq!(p2.lag, 0);
}

#[test]
fn test_lag_calculator_time_lag() {
    let snapshot = make_snapshot();
    let mut timestamps = Stamps::new();
    timestamps.insert(
        ("test-group".to_string(), TopicPartition::new("topic1", 0)),
        TimestampData { timestamp_ms: 900000 },
    );

    let now_ms = 1000000;
    let metrics = calculate(&snapshot, &timestamps, now_ms, true);

    let p0 = metrics
        .partition_metrics
        .iter()
        .find(|m| m.topic == "topic1" && m.partition == 0)
        .unwrap();

    assert_eq!(seconds(p0.lag_millis), Some(100.0));
    assert!(!p0.compaction_detected);
}

#[test]
fn disabled_time_lag_omits_all_lag_seconds() {
    let snapshot = make_snapshot();
    let metrics = calculate(&snapshot, &Stamps::new(), 0, false);

    assert!(
        metrics.partition_metrics.iter().all(|m| m.lag_millis.is_none()),
        "no partition may expose lag_seconds when time-lag sampling is disabled"
    );
    assert!(
        metrics.group_metrics.iter().all(|m| m.max_lag_millis.is_none()),
        "no group may expose max_lag_seconds when time-lag sampling is disabled"
    );
    assert!(metrics.partition_metrics.iter().any(|m| m.lag > 0));
}

#[test]
fn test_lag_calculator_handles_negative_lag() {
    let snapshot = one_partition(0, 100, 110);
    let metrics = calculate(&snapshot, &Stamps::new(), 0, true);
    let p0 = metrics.partition_metrics.iter().find(|m| m.partition == 0).unwrap();
    assert_eq!(p0.lag, 0);
}

#[test]
fn test_lag_calculator_max_lag_aggregation() {
    let snapshot = make_snapshot();
    let metrics = calculate(&snapshot, &Stamps::new(), 0, true);
    let group_metric =
        metrics.group_metrics.iter().find(|m| m.group_id == "test-group").unwrap();
    assert_eq!(group_metric.max_lag, 50);
}

#[test]
fn test_lag_calculator_sum_lag_aggregation() {
    let snapshot = make_snapshot();
    let metrics = calculate(&snapshot, &Stamps::new(), 0, true);
    let group_metric =
        metrics.group_metrics.iter().find(|m| m.group_id == "test-group").unwrap();
    assert_eq!(group_metric.sum_lag, 60);
}

#[test]
fn test_topic_sum_lag() {
    let snapshot = make_snapshot();
    let metrics = calculate(&snapshot, &Stamps::new(), 0, true);
    let topic1_metric = metrics.topic_metrics.iter().find(|m| m.topic == "topic1").unwrap();
    assert_eq!(topic1_metric.sum_lag, 60);
}

#[test]
fn test_encode_group_state_classic_protocol() {
    assert_eq!(encode_group_state("PreparingRebalance"), 1);
    assert_eq!(encode_group_state("CompletingRebalance"), 2);
    assert_eq!(encode_group_state("Stable"), 3);
    assert_eq!(encode_group_state("Dead"), 4);
    assert_eq!(encode_group_state("Empty"), 5);
}

#[test]
fn test_encode_group_state_kip848_protocol() {
    assert_eq!(encode_group_state("Assigning"), 6);
    assert_eq!(encode_group_state("Reconciling"), 7);
}

#[test]
fn test_encode_group_state_unknown_fallback() {
    assert_eq!(encode_group_state("Unknown"), 0);
    assert_eq!(encode_group_state("SomeFutureState"), 0);
    assert_eq!(encode_group_state(""), 0);
}

#[test]
fn test_lag_calculator_group_state() {
    let snapshot = make_snapshot();
    let metrics = calculate(&snapshot, &Stamps::new(), 0, true);
    let group_metric =
        metrics.group_metrics.iter().find(|m| m.group_id == "test-group").unwrap();
    assert_eq!(group_metric.state, 3);
}

#[test]
fn test_partition_offset_metrics() {
    let snapshot = make_snapshot();
    let metrics = calculate(&snapshot, &Stamps::new(), 0, true);
    assert_eq!(metrics.partition_offsets.len(), 3);
    let topic1_p0 = metrics
        .partition_offsets
        .iter()
        .find(|m| m.topic == "topic1" && m.partition == 0)
        .unwrap();
    assert_eq!(topic1_p0.earliest_offset, 0);
    assert_eq!(topic1_p0.latest_offset, 100);
}

#[test]
fn every_field_of_a_partition_metric() {
    let snapshot = make_snapshot();
    let metrics = calculate(&snapshot, &Stamps::new(), 0, true);
    let p = &metrics.iter_partition_metrics()[1];
    assert_eq!(p.cluster_name, "test-cluster");
    assert_eq!(p.group_id, "test-group");
    assert_eq!(p.topic, "topic1");
    assert_eq!(p.partition, 1);
    assert_eq!(p.member_host, "host-1");
    assert_eq!(p.consumer_id, "member-1");
    assert_eq!(p.client_id, "client-1");
    assert_eq!(p.committed_offset, 150);
    assert_eq!(p.messages_lost, 0);
    assert_eq!(p.retention_margin, 150);
    assert_eq!(p.lag_retention, Some(RetentionShare { lag: 50, window: 200 }));
    let unowned = &metrics.iter_partition_metrics()[2];
    assert_eq!(unowned.member_host, "");
    assert_eq!(unowned.consumer_id, "");
    assert_eq!(unowned.client_id, "");
    assert_eq!(metrics.poll_time_ms, 100);
    assert_eq!(metrics.iter_partition_metrics().len(), 3);
    assert_eq!(metrics.iter_group_metrics().len(), 1);
    assert_eq!(metrics.iter_topic_metrics().len(), 2);
    assert_eq!(metrics.iter_partition_offsets().len(), 3);
}

#[test]
fn lost_messages_are_counted() {
    let snapshot = one_partition(50, 100, 40);
    let metrics = calculate(&snapshot, &Stamps::new(), 0, true);
    let p = &metrics.partition_metrics[0];
    assert!(p.data_loss_detected);
    assert_eq!(p.messages_lost, 10);
    assert_eq!(p.retention_margin, -10);
    assert_eq!(p.lag_retention, Some(RetentionShare { lag: 60, window: 50 }));
    assert_eq!(p.lag_millis, Some(0));
    assert_eq!(metrics.data_loss_partition_count, 1);
    assert_eq!(metrics.compaction_detected_count, 0);
}

#[test]
fn an_empty_window_has_no_share() {
    let metrics = calculate(&one_partition(7, 7, 7), &Stamps::new(), 0, true);
    assert_eq!(metrics.partition_metrics[0].lag_retention, None);
    assert_eq!(metrics.partition_metrics[0].lag_millis, Some(0));
}

#[test]
fn without_watermarks_the_offset_is_the_end() {
    let mut snapshot = one_partition(0, 100, 40);
    snapshot.watermarks = OrderMap::new();
    let metrics = calculate(&snapshot, &Stamps::new(), 0, true);
    let p = &metrics.partition_metrics[0];
    assert_eq!(p.lag, 0);
    assert_eq!(p.retention_margin, 40);
    assert!(!p.data_loss_detected);
}

#[test]
fn unknown_time_lag_does_not_hide_the_known_one() {
    let snapshot = make_snapshot();
    let mut stamps = Stamps::new();
    stamps.insert(
        ("test-group".to_string(), TopicPartition::new("topic1", 0)),
        TimestampData { timestamp_ms: 400 },
    );
    let metrics = calculate(&snapshot, &stamps, 1000, true);
    assert_eq!(metrics.partition_metrics[1].lag_millis, None);
    assert_eq!(metrics.group_metrics[0].max_lag_millis, Some(600));
    let early = calculate(&snapshot, &stamps, 100, true);
    assert_eq!(early.partition_metrics[0].lag_millis, Some(0));
}

#[test]
fn compacted_topics_are_marked_and_counted() {
    let snapshot = make_snapshot();
    let mut compacted = NameSet::new();
    compacted.insert("topic1");
    let metrics = LagCalculator::calculate(&snapshot, &Stamps::new(), 0, 1, &compacted, true);
    assert!(metrics.partition_metrics[0].compaction_detected);
    assert!(!metrics.partition_metrics[2].compaction_detected);
    assert_eq!(metrics.compaction_detected_count, 2);
}

#[test]
fn the_later_member_owns_a_disputed_partition() {
    let mut snapshot = make_snapshot();
    snapshot.groups[0].members.push(MemberSnapshot {
        member_id: "member-2".to_string(),
        client_id: "client-2".to_string(),
        client_host: "host-2".to_string(),
        assignments: vec![TopicPartition::new("topic1", 0)],
    });
    let map = build_member_map(&snapshot.groups[0]);
    assert_eq!(map.get(&TopicPartition::new("topic1", 0)), Some(&1));
    assert_eq!(map.get(&TopicPartition::new("topic1", 1)), Some(&0));
    assert_eq!(map.get(&TopicPartition::new("topic2", 0)), None);
    let metrics = calculate(&snapshot, &Stamps::new(), 0, true);
    assert_eq!(metrics.partition_metrics[0].consumer_id, "member-2");
}

#[test]
fn distances_that_do_not_fit_are_found_out() {
    let none = NameSet::new();
    let stamps = Stamps::new();
    let wide = one_partition(0, i64::MAX, -1);
    assert!(!LagCalculator::can_calculate(&wide, &stamps, 0, &none, true));
    let below = one_partition(i64::MIN, 0, i64::MAX);
    assert!(!LagCalculator::can_calculate(&below, &stamps, 0, &none, true));
    let edge = one_partition(0, i64::MAX, 0);
    assert!(LagCalculator::can_calculate(&edge, &stamps, 0, &none, true));
    let mut old = Stamps::new();
    old.insert(
        ("test-group".to_string(), TopicPartition::new("topic1", 0)),
        TimestampData { timestamp_ms: i64::MIN },
    );
    assert!(!LagCalculator::can_calculate(&edge, &old, 0, &none, true));
    assert!(LagCalculator::can_calculate(&edge, &old, 0, &none, false));
    let mut sum = edge;
    sum.watermarks.insert(TopicPartition::new("topic1", 1), (0, 1));
    sum.groups[0].offsets.insert(TopicPartition::new("topic1", 1), 0);
    assert!(!LagCalculator::can_calculate(&sum, &stamps, 0, &none, true));
}

#[test]
fn topic_totals_add_up_to_the_group_total() {
    let metrics = calculate(&make_snapshot(), &Stamps::new(), 0, true);
    let total: i64 = metrics.topic_metrics.iter().map(|m| m.sum_lag).sum();
    assert_eq!(total, metrics.group_metrics[0].sum_lag);
}

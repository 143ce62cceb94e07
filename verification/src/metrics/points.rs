//! From lag to metric points.

use crate::collector::lag_calculator::{
    GroupLagMetric, GroupLagView, LagMetrics, LagView, PartitionLagMetric, PartitionLagView,
    PartitionOffsetMetric, PartitionOffsetView, RetentionShare, TopicLagMetric, TopicLagView,
};
use crate::config::Granularity;
use crate::keymap::{put, put_all};
use crate::metrics::definitions::{
    HELP_COMPACTION_DETECTED, HELP_DATA_LOSS_PARTITIONS, HELP_GROUP_LAG,
    HELP_GROUP_LAG_RETENTION_RATIO, HELP_GROUP_LAG_SECONDS, HELP_GROUP_MAX_LAG,
    HELP_GROUP_MAX_LAG_SECONDS, HELP_GROUP_MESSAGES_LOST, HELP_GROUP_OFFSET,
    HELP_GROUP_RETENTION_MARGIN, HELP_GROUP_STATE, HELP_GROUP_SUM_LAG, HELP_GROUP_TOPIC_SUM_LAG,
    HELP_PARTITION_EARLIEST_OFFSET, HELP_PARTITION_LATEST_OFFSET, HELP_POLL_TIME_MS,
    LABEL_CLIENT_ID, LABEL_CLUSTER_NAME, LABEL_COMPACTION_DETECTED, LABEL_CONSUMER_ID,
    LABEL_DATA_LOSS_DETECTED, LABEL_GROUP, LABEL_MEMBER_HOST, LABEL_PARTITION, LABEL_TOPIC,
    METRIC_COMPACTION_DETECTED, METRIC_DATA_LOSS_PARTITIONS, METRIC_GROUP_LAG,
    METRIC_GROUP_LAG_RETENTION_RATIO, METRIC_GROUP_LAG_SECONDS, METRIC_GROUP_MAX_LAG,
    METRIC_GROUP_MAX_LAG_SECONDS, METRIC_GROUP_MESSAGES_LOST, METRIC_GROUP_OFFSET,
    METRIC_GROUP_RETENTION_MARGIN, METRIC_GROUP_STATE, METRIC_GROUP_SUM_LAG,
    METRIC_GROUP_TOPIC_SUM_LAG, METRIC_PARTITION_EARLIEST_OFFSET, METRIC_PARTITION_LATEST_OFFSET,
    METRIC_POLL_TIME_MS,
};
use crate::metrics::types::{gauge_point, Labels, LabelsView, MetricPoint, PointView, Reading};
use crate::text::{decimal, flat, flat_step, signed_text};
use crate::views::{views, views_push};
use vstd::prelude::*;

verus! {

broadcast use views_push;

/// The labels of a cluster's own metrics.
pub open spec fn cluster_labels(cluster: Seq<char>) -> LabelsView {
    put(Seq::empty(), LABEL_CLUSTER_NAME@, cluster)
}

/// The labels of a group's metrics.
pub open spec fn group_labels(cluster: Seq<char>, group: Seq<char>) -> LabelsView {
    put(cluster_labels(cluster), LABEL_GROUP@, group)
}

/// The labels of a group's metrics on a topic.
pub open spec fn topic_labels(cluster: Seq<char>, group: Seq<char>, topic: Seq<char>) -> LabelsView {
    put(group_labels(cluster, group), LABEL_TOPIC@, topic)
}

/// The labels of a partition's own metrics.
pub open spec fn offset_labels(m: PartitionOffsetView) -> LabelsView {
    put(
        put(cluster_labels(m.cluster_name), LABEL_TOPIC@, m.topic),
        LABEL_PARTITION@,
        decimal(m.partition as int),
    )
}

/// The labels of a group's metrics on a partition.
pub open spec fn partition_labels(m: PartitionLagView) -> LabelsView {
    let base = put(
        topic_labels(m.cluster_name, m.group_id, m.topic),
        LABEL_PARTITION@,
        decimal(m.partition as int),
    );
    put(
        put(put(base, LABEL_MEMBER_HOST@, m.member_host), LABEL_CONSUMER_ID@, m.consumer_id),
        LABEL_CLIENT_ID@,
        m.client_id,
    )
}

/// The word for a truth value.
pub open spec fn truth_word(b: bool) -> Seq<char> {
    if b {
        "true"@
    } else {
        "false"@
    }
}

/// A time lag's labels: those of the partition, and whether it may be understated.
pub open spec fn time_lag_labels(m: PartitionLagView, custom: LabelsView) -> LabelsView {
    put(
        put(
            put_all(partition_labels(m), custom),
            LABEL_COMPACTION_DETECTED@,
            truth_word(m.compaction_detected),
        ),
        LABEL_DATA_LOSS_DETECTED@,
        truth_word(m.data_loss_detected),
    )
}

/// The points of a partition's log.
pub open spec fn offset_points(m: PartitionOffsetView, custom: LabelsView) -> Seq<PointView> {
    let labels = put_all(offset_labels(m), custom);
    seq![
        gauge_point(
            METRIC_PARTITION_LATEST_OFFSET@,
            labels,
            Reading::Whole(m.latest_offset),
            HELP_PARTITION_LATEST_OFFSET@,
        ),
        gauge_point(
            METRIC_PARTITION_EARLIEST_OFFSET@,
            labels,
            Reading::Whole(m.earliest_offset),
            HELP_PARTITION_EARLIEST_OFFSET@,
        ),
    ]
}

/// How the share of the retention window is read; an empty window counts as 0.
pub open spec fn share_reading(share: Option<RetentionShare>) -> Reading {
    match share {
        Some(s) => Reading::Percent(s),
        None => Reading::Whole(0),
    }
}

/// The points of a group on a partition; the time lag only where it is known.
pub open spec fn partition_points(m: PartitionLagView, custom: LabelsView) -> Seq<PointView> {
    let labels = put_all(partition_labels(m), custom);
    let always = seq![
        gauge_point(
            METRIC_GROUP_OFFSET@,
            labels,
            Reading::Whole(m.committed_offset),
            HELP_GROUP_OFFSET@,
        ),
        gauge_point(METRIC_GROUP_LAG@, labels, Reading::Whole(m.lag), HELP_GROUP_LAG@),
        gauge_point(
            METRIC_GROUP_MESSAGES_LOST@,
            labels,
            Reading::Whole(m.messages_lost),
            HELP_GROUP_MESSAGES_LOST@,
        ),
        gauge_point(
            METRIC_GROUP_RETENTION_MARGIN@,
            labels,
            Reading::Whole(m.retention_margin),
            HELP_GROUP_RETENTION_MARGIN@,
        ),
        gauge_point(
            METRIC_GROUP_LAG_RETENTION_RATIO@,
            labels,
            share_reading(m.lag_retention),
            HELP_GROUP_LAG_RETENTION_RATIO@,
        ),
    ];
    match m.lag_millis {
        Some(millis) => always.push(
            gauge_point(
                METRIC_GROUP_LAG_SECONDS@,
                time_lag_labels(m, custom),
                Reading::Millis(millis),
                HELP_GROUP_LAG_SECONDS@,
            ),
        ),
        None => always,
    }
}

/// The points of a group; the largest time lag only where it is known.
pub open spec fn group_points(m: GroupLagView, custom: LabelsView) -> Seq<PointView> {
    let labels = put_all(group_labels(m.cluster_name, m.group_id), custom);
    let always = seq![
        gauge_point(METRIC_GROUP_MAX_LAG@, labels, Reading::Whole(m.max_lag), HELP_GROUP_MAX_LAG@),
        gauge_point(METRIC_GROUP_SUM_LAG@, labels, Reading::Whole(m.sum_lag), HELP_GROUP_SUM_LAG@),
        gauge_point(
            METRIC_GROUP_STATE@,
            labels,
            Reading::Whole(m.state as i64),
            HELP_GROUP_STATE@,
        ),
    ];
    match m.max_lag_millis {
        Some(millis) => always.push(
            gauge_point(
                METRIC_GROUP_MAX_LAG_SECONDS@,
                labels,
                Reading::Millis(millis),
                HELP_GROUP_MAX_LAG_SECONDS@,
            ),
        ),
        None => always,
    }
}

/// The point of a group on a topic.
pub open spec fn topic_points(m: TopicLagView, custom: LabelsView) -> Seq<PointView> {
    seq![
        gauge_point(
            METRIC_GROUP_TOPIC_SUM_LAG@,
            put_all(topic_labels(m.cluster_name, m.group_id, m.topic), custom),
            Reading::Whole(m.sum_lag),
            HELP_GROUP_TOPIC_SUM_LAG@,
        ),
    ]
}

/// The points of the cluster as a whole.
pub open spec fn cluster_points(
    cluster: Seq<char>,
    lag: LagView,
    custom: LabelsView,
) -> Seq<PointView> {
    let labels = put_all(cluster_labels(cluster), custom);
    seq![
        gauge_point(
            METRIC_POLL_TIME_MS@,
            labels,
            Reading::Count(lag.poll_time_ms),
            HELP_POLL_TIME_MS@,
        ),
        gauge_point(
            METRIC_COMPACTION_DETECTED@,
            labels,
            Reading::Count(lag.compaction_detected_count),
            HELP_COMPACTION_DETECTED@,
        ),
        gauge_point(
            METRIC_DATA_LOSS_PARTITIONS@,
            labels,
            Reading::Count(lag.data_loss_partition_count),
            HELP_DATA_LOSS_PARTITIONS@,
        ),
    ]
}

/// All points of a cluster: log ends, partitions (only where they are wanted), groups, topics,
/// and the cluster itself.
pub open spec fn lag_points(
    cluster: Seq<char>,
    lag: LagView,
    granularity: Granularity,
    custom: LabelsView,
) -> Seq<PointView> {
    let ends = flat(lag.partition_offsets, |m: PartitionOffsetView| offset_points(m, custom));
    let partitions = match granularity {
        Granularity::Partition => flat(
            lag.partition_metrics,
            |m: PartitionLagView| partition_points(m, custom),
        ),
        Granularity::Topic => Seq::empty(),
    };
    let groups = flat(lag.group_metrics, |m: GroupLagView| group_points(m, custom));
    let topics = flat(lag.topic_metrics, |m: TopicLagView| topic_points(m, custom));
    ends + partitions + groups + topics + cluster_points(cluster, lag, custom)
}

/// Sets a label.
fn set_label(labels: &mut Labels, name: &str, value: &str)
    ensures
        final(labels)@ == put(old(labels)@, name@, value@),
{
    labels.insert(name.to_owned(), value.to_owned());
}

/// The labels of a cluster's own metrics.
fn for_cluster(cluster: &str) -> (labels: Labels)
    ensures
        labels@ == cluster_labels(cluster@),
{
    let mut labels: Labels = Labels::new();
    set_label(&mut labels, LABEL_CLUSTER_NAME, cluster);
    labels
}

/// The labels of a group's metrics.
fn for_group(cluster: &str, group: &str) -> (labels: Labels)
    ensures
        labels@ == group_labels(cluster@, group@),
{
    let mut labels = for_cluster(cluster);
    set_label(&mut labels, LABEL_GROUP, group);
    labels
}

/// The labels of a group's metrics on a topic.
fn for_topic(cluster: &str, group: &str, topic: &str) -> (labels: Labels)
    ensures
        labels@ == topic_labels(cluster@, group@, topic@),
{
    let mut labels = for_group(cluster, group);
    set_label(&mut labels, LABEL_TOPIC, topic);
    labels
}

/// The word for a truth value.
fn truth_text(b: bool) -> (word: &'static str)
    ensures
        word@ == truth_word(b),
{
    if b {
        "true"
    } else {
        "false"
    }
}

/// Adds the points of a partition's log.
fn push_offset_points(points: &mut Vec<MetricPoint>, m: &PartitionOffsetMetric, custom: &Labels)
    ensures
        views(final(points)@) == views(old(points)@) + offset_points(m@, custom@),
{
    let ghost before = views(points@);
    let mut labels = for_cluster(m.cluster_name.as_str());
    set_label(&mut labels, LABEL_TOPIC, m.topic.as_str());
    set_label(&mut labels, LABEL_PARTITION, signed_text(m.partition as i64).as_str());
    labels.insert_all(custom);
    points.push(
        MetricPoint::gauge(
            METRIC_PARTITION_LATEST_OFFSET,
            labels.duplicate(),
            Reading::Whole(m.latest_offset),
            HELP_PARTITION_LATEST_OFFSET,
        ),
    );
    points.push(
        MetricPoint::gauge(
            METRIC_PARTITION_EARLIEST_OFFSET,
            labels,
            Reading::Whole(m.earliest_offset),
            HELP_PARTITION_EARLIEST_OFFSET,
        ),
    );
    assert(views(points@) =~= before + offset_points(m@, custom@));
}

/// Adds the points of a group on a partition.
fn push_partition_points(points: &mut Vec<MetricPoint>, m: &PartitionLagMetric, custom: &Labels)
    ensures
        views(final(points)@) == views(old(points)@) + partition_points(m@, custom@),
{
    let ghost before = views(points@);
    let mut labels = for_topic(m.cluster_name.as_str(), m.group_id.as_str(), m.topic.as_str());
    set_label(&mut labels, LABEL_PARTITION, signed_text(m.partition as i64).as_str());
    set_label(&mut labels, LABEL_MEMBER_HOST, m.member_host.as_str());
    set_label(&mut labels, LABEL_CONSUMER_ID, m.consumer_id.as_str());
    set_label(&mut labels, LABEL_CLIENT_ID, m.client_id.as_str());
    labels.insert_all(custom);
    points.push(
        MetricPoint::gauge(
            METRIC_GROUP_OFFSET,
            labels.duplicate(),
            Reading::Whole(m.committed_offset),
            HELP_GROUP_OFFSET,
        ),
    );
    points.push(
        MetricPoint::gauge(
            METRIC_GROUP_LAG,
            labels.duplicate(),
            Reading::Whole(m.lag),
            HELP_GROUP_LAG,
        ),
    );
    points.push(
        MetricPoint::gauge(
            METRIC_GROUP_MESSAGES_LOST,
            labels.duplicate(),
            Reading::Whole(m.messages_lost),
            HELP_GROUP_MESSAGES_LOST,
        ),
    );
    points.push(
        MetricPoint::gauge(
            METRIC_GROUP_RETENTION_MARGIN,
            labels.duplicate(),
            Reading::Whole(m.retention_margin),
            HELP_GROUP_RETENTION_MARGIN,
        ),
    );
    let ratio = match m.lag_retention {
        Some(share) => Reading::Percent(share),
        None => Reading::Whole(0),
    };
    points.push(
        MetricPoint::gauge(
            METRIC_GROUP_LAG_RETENTION_RATIO,
            labels.duplicate(),
            ratio,
            HELP_GROUP_LAG_RETENTION_RATIO,
        ),
    );
    if let Some(millis) = m.lag_millis {
        set_label(&mut labels, LABEL_COMPACTION_DETECTED, truth_text(m.compaction_detected));
        set_label(&mut labels, LABEL_DATA_LOSS_DETECTED, truth_text(m.data_loss_detected));
        points.push(
            MetricPoint::gauge(
                METRIC_GROUP_LAG_SECONDS,
                labels,
                Reading::Millis(millis),
                HELP_GROUP_LAG_SECONDS,
            ),
        );
    }
    assert(views(points@) =~= before + partition_points(m@, custom@));
}

/// Adds the points of a group.
fn push_group_points(points: &mut Vec<MetricPoint>, m: &GroupLagMetric, custom: &Labels)
    ensures
        views(final(points)@) == views(old(points)@) + group_points(m@, custom@),
{
    let ghost before = views(points@);
    let mut labels = for_group(m.cluster_name.as_str(), m.group_id.as_str());
    labels.insert_all(custom);
    points.push(
        MetricPoint::gauge(
            METRIC_GROUP_MAX_LAG,
            labels.duplicate(),
            Reading::Whole(m.max_lag),
            HELP_GROUP_MAX_LAG,
        ),
    );
    points.push(
        MetricPoint::gauge(
            METRIC_GROUP_SUM_LAG,
            labels.duplicate(),
            Reading::Whole(m.sum_lag),
            HELP_GROUP_SUM_LAG,
        ),
    );
    points.push(
        MetricPoint::gauge(
            METRIC_GROUP_STATE,
            labels.duplicate(),
            Reading::Whole(m.state as i64),
            HELP_GROUP_STATE,
        ),
    );
    if let Some(millis) = m.max_lag_millis {
        points.push(
            MetricPoint::gauge(
                METRIC_GROUP_MAX_LAG_SECONDS,
                labels,
                Reading::Millis(millis),
                HELP_GROUP_MAX_LAG_SECONDS,
            ),
        );
    }
    assert(views(points@) =~= before + group_points(m@, custom@));
}

/// Adds the point of a group on a topic.
fn push_topic_points(points: &mut Vec<MetricPoint>, m: &TopicLagMetric, custom: &Labels)
    ensures
        views(final(points)@) == views(old(points)@) + topic_points(m@, custom@),
{
    let ghost before = views(points@);
    let mut labels = for_topic(m.cluster_name.as_str(), m.group_id.as_str(), m.topic.as_str());
    labels.insert_all(custom);
    points.push(
        MetricPoint::gauge(
            METRIC_GROUP_TOPIC_SUM_LAG,
            labels,
            Reading::Whole(m.sum_lag),
            HELP_GROUP_TOPIC_SUM_LAG,
        ),
    );
    assert(views(points@) =~= before + topic_points(m@, custom@));
}

/// Adds the points of the cluster as a whole.
fn push_cluster_points(
    points: &mut Vec<MetricPoint>,
    cluster: &str,
    lag: &LagMetrics,
    custom: &Labels,
)
    ensures
        views(final(points)@) == views(old(points)@) + cluster_points(cluster@, lag@, custom@),
{
    let ghost before = views(points@);
    let mut labels = for_cluster(cluster);
    labels.insert_all(custom);
    points.push(
        MetricPoint::gauge(
            METRIC_POLL_TIME_MS,
            labels.duplicate(),
            Reading::Count(lag.poll_time_ms),
            HELP_POLL_TIME_MS,
        ),
    );
    points.push(
        MetricPoint::gauge(
            METRIC_COMPACTION_DETECTED,
            labels.duplicate(),
            Reading::Count(lag.compaction_detected_count),
            HELP_COMPACTION_DETECTED,
        ),
    );
    points.push(
        MetricPoint::gauge(
            METRIC_DATA_LOSS_PARTITIONS,
            labels,
            Reading::Count(lag.data_loss_partition_count),
            HELP_DATA_LOSS_PARTITIONS,
        ),
    );
    assert(views(points@) =~= before + cluster_points(cluster@, lag@, custom@));
}

/// All points of a cluster.
pub fn points_of(
    cluster: &str,
    lag: &LagMetrics,
    granularity: Granularity,
    custom: &Labels,
) -> (points: Vec<MetricPoint>)
    ensures
        views(points@) == lag_points(cluster@, lag@, granularity, custom@),
{
    let mut points: Vec<MetricPoint> = Vec::new();
    let ghost f = |m: PartitionOffsetView| offset_points(m, custom@);
    let ghost ends = lag@.partition_offsets;
    let mut i: usize = 0;
    assert(ends.take(0) =~= Seq::<PartitionOffsetView>::empty());
    while i < lag.partition_offsets.len()
        invariant
            i <= lag.partition_offsets.len(),
            ends == views(lag.partition_offsets@),
            f == (|m: PartitionOffsetView| offset_points(m, custom@)),
            views(points@) =~= flat(ends.take(i as int), f),
        decreases lag.partition_offsets.len() - i,
    {
        proof {
            flat_step(ends, f, i as int);
        }
        push_offset_points(&mut points, &lag.partition_offsets[i], custom);
        i += 1;
    }
    assert(ends.take(i as int) =~= ends);
    let ghost part_ends = flat(ends, f);
    let ghost mut part_partitions = Seq::<PointView>::empty();
    match granularity {
        Granularity::Partition => {
            let ghost f = |m: PartitionLagView| partition_points(m, custom@);
            let ghost lags = lag@.partition_metrics;
            let mut i: usize = 0;
            assert(lags.take(0) =~= Seq::<PartitionLagView>::empty());
            while i < lag.partition_metrics.len()
                invariant
                    i <= lag.partition_metrics.len(),
                    lags == views(lag.partition_metrics@),
                    f == (|m: PartitionLagView| partition_points(m, custom@)),
                    views(points@) =~= part_ends + flat(lags.take(i as int), f),
                decreases lag.partition_metrics.len() - i,
            {
                proof {
                    flat_step(lags, f, i as int);
                }
                push_partition_points(&mut points, &lag.partition_metrics[i], custom);
                i += 1;
            }
            assert(lags.take(i as int) =~= lags);
            proof {
                part_partitions = flat(lags, f);
            }
        },
        Granularity::Topic => {},
    }
    let ghost before_groups = part_ends + part_partitions;
    assert(views(points@) =~= before_groups);
    let ghost f = |m: GroupLagView| group_points(m, custom@);
    let ghost groups = lag@.group_metrics;
    let mut i: usize = 0;
    assert(groups.take(0) =~= Seq::<GroupLagView>::empty());
    while i < lag.group_metrics.len()
        invariant
            i <= lag.group_metrics.len(),
            groups == views(lag.group_metrics@),
            f == (|m: GroupLagView| group_points(m, custom@)),
            views(points@) =~= before_groups + flat(groups.take(i as int), f),
        decreases lag.group_metrics.len() - i,
    {
        proof {
            flat_step(groups, f, i as int);
        }
        push_group_points(&mut points, &lag.group_metrics[i], custom);
        i += 1;
    }
    assert(groups.take(i as int) =~= groups);
    let ghost before_topics = before_groups + flat(groups, f);
    let ghost f = |m: TopicLagView| topic_points(m, custom@);
    let ghost topics = lag@.topic_metrics;
    let mut i: usize = 0;
    assert(topics.take(0) =~= Seq::<TopicLagView>::empty());
    while i < lag.topic_metrics.len()
        invariant
            i <= lag.topic_metrics.len(),
            topics == views(lag.topic_metrics@),
            f == (|m: TopicLagView| topic_points(m, custom@)),
            views(points@) =~= before_topics + flat(topics.take(i as int), f),
        decreases lag.topic_metrics.len() - i,
    {
        proof {
            flat_step(topics, f, i as int);
        }
        push_topic_points(&mut points, &lag.topic_metrics[i], custom);
        i += 1;
    }
    assert(topics.take(i as int) =~= topics);
    push_cluster_points(&mut points, cluster, lag, custom);
    points
}

} // verus!

//! What holds of every cluster's metric points: each figure stands under its own name, with its
//! own labels.

use crate::collector::lag_calculator::{
    GroupLagView, LagView, PartitionLagView, PartitionOffsetView, TopicLagView,
};
use crate::config::Granularity;
use crate::keymap::{has_key, lookup, put, put_all, put_reads_back, unique_keys};
use crate::metrics::definitions::{
    HELP_COMPACTION_DETECTED, HELP_DATA_LOSS_PARTITIONS, HELP_GROUP_LAG,
    HELP_GROUP_LAG_RETENTION_RATIO, HELP_GROUP_LAG_SECONDS, HELP_GROUP_MAX_LAG,
    HELP_GROUP_MAX_LAG_SECONDS, HELP_GROUP_MESSAGES_LOST, HELP_GROUP_OFFSET,
    HELP_GROUP_RETENTION_MARGIN, HELP_GROUP_STATE, HELP_GROUP_SUM_LAG, HELP_GROUP_TOPIC_SUM_LAG,
    HELP_PARTITION_EARLIEST_OFFSET, HELP_PARTITION_LATEST_OFFSET, HELP_POLL_TIME_MS,
    LABEL_CLIENT_ID, LABEL_CLUSTER_NAME, LABEL_COMPACTION_DETECTED, LABEL_CONSUMER_ID,
    LABEL_DATA_LOSS_DETECTED, LABEL_GROUP, LABEL_MEMBER_HOST, LABEL_PARTITION, LABEL_TOPIC,
};
use crate::metrics::laws::put_all_reads_back;
use crate::metrics::points::{
    cluster_labels, cluster_points, group_labels, group_points, lag_points, offset_labels,
    offset_points, partition_labels, partition_points, time_lag_labels, topic_labels,
    topic_points,
};
use crate::metrics::types::{LabelsView, MetricType, MetricValue, PointView, Reading};
use crate::text::{decimal, flat};
use vstd::prelude::*;

verus! {

/// The points with a name, in order.
pub open spec fn named(points: Seq<PointView>, name: Seq<char>) -> Seq<PointView> {
    points.filter(|p: PointView| p.name == name)
}

/// Whether a point is a gauge that shows a reading, with a help text.
pub open spec fn shows(p: PointView, reading: Reading, help: Seq<char>) -> bool {
    &&& p.value == MetricValue::Gauge(reading)
    &&& p.metric_type == MetricType::Gauge
    &&& p.help == help
}

/// What a list of words says of a name.
pub open spec fn said(words: Map<Seq<char>, Seq<char>>, name: Seq<char>) -> Option<Seq<char>> {
    if words.contains_key(name) {
        Some(words[name])
    } else {
        None
    }
}

/// Whether labels are the given words and the custom ones; a custom one counts where both have a
/// name.
pub open spec fn labelled(
    labels: LabelsView,
    words: Map<Seq<char>, Seq<char>>,
    custom: LabelsView,
) -> bool {
    forall|name: Seq<char>| #[trigger]
        lookup(labels, name) == (if has_key(custom, name) {
            lookup(custom, name)
        } else {
            said(words, name)
        })
}

/// Whether labels are exactly the given words.
spec fn says(labels: LabelsView, words: Map<Seq<char>, Seq<char>>) -> bool {
    &&& unique_keys(labels)
    &&& forall|name: Seq<char>| #[trigger] lookup(labels, name) == said(words, name)
}

proof fn says_one_more(
    labels: LabelsView,
    words: Map<Seq<char>, Seq<char>>,
    name: Seq<char>,
    value: Seq<char>,
)
    requires
        says(labels, words),
    ensures
        says(put(labels, name, value), words.insert(name, value)),
{
    put_reads_back(labels, name, value, name);
    assert forall|k: Seq<char>| #[trigger] lookup(put(labels, name, value), k) == said(
        words.insert(name, value),
        k,
    ) by {
        put_reads_back(labels, name, value, k);
        assert(lookup(labels, k) == said(words, k));
    }
}

proof fn custom_labels_count(
    labels: LabelsView,
    words: Map<Seq<char>, Seq<char>>,
    custom: LabelsView,
)
    requires
        says(labels, words),
    ensures
        unique_keys(put_all(labels, custom)),
        labelled(put_all(labels, custom), words, custom),
{
    assert forall|name: Seq<char>| #[trigger]
        lookup(put_all(labels, custom), name) == (if has_key(custom, name) {
            lookup(custom, name)
        } else {
            said(words, name)
        }) by {
        put_all_reads_back(labels, custom, name);
        assert(lookup(labels, name) == said(words, name));
    }
    put_all_reads_back(labels, custom, Seq::empty());
}

/// What the labels of a cluster say.
pub open spec fn cluster_words(cluster: Seq<char>) -> Map<Seq<char>, Seq<char>> {
    map!["cluster_name"@ => cluster]
}

/// What the labels of a group say.
pub open spec fn group_words(cluster: Seq<char>, group: Seq<char>) -> Map<Seq<char>, Seq<char>> {
    map!["cluster_name"@ => cluster, "group"@ => group]
}

/// What the labels of a group on a topic say.
pub open spec fn topic_words(
    cluster: Seq<char>,
    group: Seq<char>,
    topic: Seq<char>,
) -> Map<Seq<char>, Seq<char>> {
    map!["cluster_name"@ => cluster, "group"@ => group, "topic"@ => topic]
}

/// What the labels of a partition say.
pub open spec fn log_words(m: PartitionOffsetView) -> Map<Seq<char>, Seq<char>> {
    map![
        "cluster_name"@ => m.cluster_name,
        "topic"@ => m.topic,
        "partition"@ => decimal(m.partition as int),
    ]
}

/// What the labels of a group on a partition say.
pub open spec fn partition_words(m: PartitionLagView) -> Map<Seq<char>, Seq<char>> {
    map![
        "cluster_name"@ => m.cluster_name,
        "group"@ => m.group_id,
        "topic"@ => m.topic,
        "partition"@ => decimal(m.partition as int),
        "member_host"@ => m.member_host,
        "consumer_id"@ => m.consumer_id,
        "client_id"@ => m.client_id,
    ]
}

proof fn cluster_labels_say(cluster: Seq<char>)
    ensures
        says(cluster_labels(cluster), cluster_words(cluster)),
{
    let none = Seq::<(Seq<char>, Seq<char>)>::empty();
    assert(says(none, Map::empty()));
    says_one_more(none, Map::empty(), LABEL_CLUSTER_NAME@, cluster);
    assert(cluster_words(cluster) =~= Map::empty().insert(LABEL_CLUSTER_NAME@, cluster));
}

proof fn group_labels_say(cluster: Seq<char>, group: Seq<char>)
    ensures
        says(group_labels(cluster, group), group_words(cluster, group)),
{
    cluster_labels_say(cluster);
    says_one_more(cluster_labels(cluster), cluster_words(cluster), LABEL_GROUP@, group);
    assert(group_words(cluster, group) =~= cluster_words(cluster).insert(LABEL_GROUP@, group));
}

proof fn topic_labels_say(cluster: Seq<char>, group: Seq<char>, topic: Seq<char>)
    ensures
        says(topic_labels(cluster, group, topic), topic_words(cluster, group, topic)),
{
    group_labels_say(cluster, group);
    says_one_more(group_labels(cluster, group), group_words(cluster, group), LABEL_TOPIC@, topic);
    assert(topic_words(cluster, group, topic) =~= group_words(cluster, group).insert(
        LABEL_TOPIC@,
        topic,
    ));
}

proof fn log_labels_say(m: PartitionOffsetView)
    ensures
        says(offset_labels(m), log_words(m)),
{
    let base = cluster_labels(m.cluster_name);
    let words = cluster_words(m.cluster_name);
    let partition = decimal(m.partition as int);
    cluster_labels_say(m.cluster_name);
    says_one_more(base, words, LABEL_TOPIC@, m.topic);
    let one = put(base, LABEL_TOPIC@, m.topic);
    says_one_more(one, words.insert(LABEL_TOPIC@, m.topic), LABEL_PARTITION@, partition);
    assert(log_words(m) =~= words.insert(LABEL_TOPIC@, m.topic).insert(LABEL_PARTITION@, partition));
}

proof fn partition_labels_say(m: PartitionLagView)
    ensures
        says(partition_labels(m), partition_words(m)),
{
    let base = topic_labels(m.cluster_name, m.group_id, m.topic);
    let words = topic_words(m.cluster_name, m.group_id, m.topic);
    let partition = decimal(m.partition as int);
    topic_labels_say(m.cluster_name, m.group_id, m.topic);
    says_one_more(base, words, LABEL_PARTITION@, partition);
    let b1 = put(base, LABEL_PARTITION@, partition);
    let w1 = words.insert(LABEL_PARTITION@, partition);
    says_one_more(b1, w1, LABEL_MEMBER_HOST@, m.member_host);
    let b2 = put(b1, LABEL_MEMBER_HOST@, m.member_host);
    let w2 = w1.insert(LABEL_MEMBER_HOST@, m.member_host);
    says_one_more(b2, w2, LABEL_CONSUMER_ID@, m.consumer_id);
    let b3 = put(b2, LABEL_CONSUMER_ID@, m.consumer_id);
    let w3 = w2.insert(LABEL_CONSUMER_ID@, m.consumer_id);
    says_one_more(b3, w3, LABEL_CLIENT_ID@, m.client_id);
    assert(partition_words(m) =~= w3.insert(LABEL_CLIENT_ID@, m.client_id));
}

/// A number by which names are told apart.
#[verifier::opaque]
spec fn rank(name: Seq<char>) -> int {
    1000 * name.len() + name[6] as int + name[20] as int + (if name.len() > 26 {
        name[26] as int
    } else {
        0
    })
}

/// The names are all different.
proof fn names_differ()
    ensures
        rank("kafka_partition_latest_offset"@) == 29342,
        rank("kafka_partition_earliest_offset"@) == 31319,
        rank("kafka_consumergroup_group_offset"@) == 32313,
        rank("kafka_consumergroup_group_lag"@) == 29310,
        rank("kafka_consumergroup_group_lag_seconds"@) == 37310,
        rank("kafka_consumergroup_group_messages_lost"@) == 39311,
        rank("kafka_consumergroup_group_retention_margin"@) == 42316,
        rank("kafka_consumergroup_group_lag_retention_ratio"@) == 45310,
        rank("kafka_consumergroup_group_max_lag"@) == 33311,
        rank("kafka_consumergroup_group_max_lag_seconds"@) == 41311,
        rank("kafka_consumergroup_group_sum_lag"@) == 33317,
        rank("kafka_consumergroup_group_state"@) == 31317,
        rank("kafka_consumergroup_group_topic_sum_lag"@) == 39318,
        rank("kafka_consumergroup_poll_time_ms"@) == 32316,
        rank("kafka_lag_exporter_compaction_detected_total"@) == 44324,
        rank("kafka_lag_exporter_data_loss_partitions_total"@) == 45320,
        rank("kafka_lag_exporter_up"@) == 21220,
        rank("kafka_lag_exporter_scrape_duration_seconds"@) == 42307,
{
    reveal(rank);
    assert(rank("kafka_partition_latest_offset"@) == 29342) by {
        reveal_strlit("kafka_partition_latest_offset");
    }
    assert(rank("kafka_partition_earliest_offset"@) == 31319) by {
        reveal_strlit("kafka_partition_earliest_offset");
    }
    assert(rank("kafka_consumergroup_group_offset"@) == 32313) by {
        reveal_strlit("kafka_consumergroup_group_offset");
    }
    assert(rank("kafka_consumergroup_group_lag"@) == 29310) by {
        reveal_strlit("kafka_consumergroup_group_lag");
    }
    assert(rank("kafka_consumergroup_group_lag_seconds"@) == 37310) by {
        reveal_strlit("kafka_consumergroup_group_lag_seconds");
    }
    assert(rank("kafka_consumergroup_group_messages_lost"@) == 39311) by {
        reveal_strlit("kafka_consumergroup_group_messages_lost");
    }
    assert(rank("kafka_consumergroup_group_retention_margin"@) == 42316) by {
        reveal_strlit("kafka_consumergroup_group_retention_margin");
    }
    assert(rank("kafka_consumergroup_group_lag_retention_ratio"@) == 45310) by {
        reveal_strlit("kafka_consumergroup_group_lag_retention_ratio");
    }
    assert(rank("kafka_consumergroup_group_max_lag"@) == 33311) by {
        reveal_strlit("kafka_consumergroup_group_max_lag");
    }
    assert(rank("kafka_consumergroup_group_max_lag_seconds"@) == 41311) by {
        reveal_strlit("kafka_consumergroup_group_max_lag_seconds");
    }
    assert(rank("kafka_consumergroup_group_sum_lag"@) == 33317) by {
        reveal_strlit("kafka_consumergroup_group_sum_lag");
    }
    assert(rank("kafka_consumergroup_group_state"@) == 31317) by {
        reveal_strlit("kafka_consumergroup_group_state");
    }
    assert(rank("kafka_consumergroup_group_topic_sum_lag"@) == 39318) by {
        reveal_strlit("kafka_consumergroup_group_topic_sum_lag");
    }
    assert(rank("kafka_consumergroup_poll_time_ms"@) == 32316) by {
        reveal_strlit("kafka_consumergroup_poll_time_ms");
    }
    assert(rank("kafka_lag_exporter_compaction_detected_total"@) == 44324) by {
        reveal_strlit("kafka_lag_exporter_compaction_detected_total");
    }
    assert(rank("kafka_lag_exporter_data_loss_partitions_total"@) == 45320) by {
        reveal_strlit("kafka_lag_exporter_data_loss_partitions_total");
    }
    assert(rank("kafka_lag_exporter_up"@) == 21220) by {
        reveal_strlit("kafka_lag_exporter_up");
    }
    assert(rank("kafka_lag_exporter_scrape_duration_seconds"@) == 42307) by {
        reveal_strlit("kafka_lag_exporter_scrape_duration_seconds");
    }
}

proof fn one_named(points: Seq<PointView>, name: Seq<char>, k: int)
    requires
        0 <= k < points.len(),
        points[k].name == name,
        forall|j: int| 0 <= j < points.len() && j != k ==> (#[trigger] points[j]).name != name,
    ensures
        named(points, name) == seq![points[k]],
    decreases points.len(),
{
    reveal(Seq::filter);
    let shorter = points.drop_last();
    assert forall|j: int| 0 <= j < shorter.len() implies #[trigger] shorter[j] == points[j] by {
    }
    if k == points.len() - 1 {
        assert forall|j: int| 0 <= j < shorter.len() implies (#[trigger] shorter[j]).name != name by {
            assert(points[j].name != name);
        }
        none_named(shorter, name);
        assert(named(points, name) =~= seq![points[k]]);
    } else {
        assert forall|j: int| 0 <= j < shorter.len() && j != k implies (#[trigger] shorter[j]).name
            != name by {
            assert(points[j].name != name);
        }
        one_named(shorter, name, k);
        assert(points[points.len() - 1].name != name);
    }
}

proof fn none_named(points: Seq<PointView>, name: Seq<char>)
    requires
        forall|j: int| 0 <= j < points.len() ==> (#[trigger] points[j]).name != name,
    ensures
        named(points, name) == Seq::<PointView>::empty(),
    decreases points.len(),
{
    reveal(Seq::filter);
    if points.len() > 0 {
        let shorter = points.drop_last();
        assert forall|j: int| 0 <= j < shorter.len() implies (#[trigger] shorter[j]).name != name by {
            assert(points[j].name != name);
        }
        none_named(shorter, name);
        assert(points[points.len() - 1].name != name);
    }
}

/// The points with a name in two lists, one after the other.
pub proof fn named_in_both(a: Seq<PointView>, b: Seq<PointView>, name: Seq<char>)
    ensures
        named(a + b, name) == named(a, name) + named(b, name),
    decreases b.len(),
{
    reveal(Seq::filter);
    if b.len() == 0 {
        assert(a + b =~= a);
        assert(named(a + b, name) =~= named(a, name) + named(b, name));
    } else {
        assert((a + b).drop_last() =~= a + b.drop_last());
        named_in_both(a, b.drop_last(), name);
        assert(named(a + b, name) =~= named(a, name) + named(b, name));
    }
}

proof fn flat_one<A>(
    s: Seq<A>,
    f: spec_fn(A) -> Seq<PointView>,
    name: Seq<char>,
    one: spec_fn(A) -> PointView,
)
    requires
        forall|a: A| named(#[trigger] f(a), name) == seq![one(a)],
    ensures
        named(flat(s, f), name) == s.map_values(one),
    decreases s.len(),
{
    reveal(Seq::filter);
    if s.len() > 0 {
        flat_one(s.drop_last(), f, name, one);
        named_in_both(flat(s.drop_last(), f), f(s.last()), name);
        assert(named(f(s.last()), name) == seq![one(s.last())]);
        assert(named(flat(s, f), name) =~= s.map_values(one));
    } else {
        assert(named(flat(s, f), name) =~= s.map_values(one));
    }
}

proof fn flat_some<A>(
    s: Seq<A>,
    f: spec_fn(A) -> Seq<PointView>,
    name: Seq<char>,
    has: spec_fn(A) -> bool,
    one: spec_fn(A) -> PointView,
)
    requires
        forall|a: A|
            named(#[trigger] f(a), name) == (if has(a) {
                seq![one(a)]
            } else {
                Seq::empty()
            }),
    ensures
        named(flat(s, f), name) == s.filter(has).map_values(one),
    decreases s.len(),
{
    reveal(Seq::filter);
    if s.len() > 0 {
        let last = s.last();
        flat_some(s.drop_last(), f, name, has, one);
        named_in_both(flat(s.drop_last(), f), f(last), name);
        assert(named(f(last), name) == (if has(last) {
            seq![one(last)]
        } else {
            Seq::empty()
        }));
        assert(named(flat(s, f), name) =~= s.filter(has).map_values(one));
    } else {
        assert(named(flat(s, f), name) =~= s.filter(has).map_values(one));
    }
}

proof fn flat_none<A>(s: Seq<A>, f: spec_fn(A) -> Seq<PointView>, name: Seq<char>)
    requires
        forall|a: A| named(#[trigger] f(a), name) == Seq::<PointView>::empty(),
    ensures
        named(flat(s, f), name) == Seq::<PointView>::empty(),
    decreases s.len(),
{
    reveal(Seq::filter);
    if s.len() > 0 {
        flat_none(s.drop_last(), f, name);
        named_in_both(flat(s.drop_last(), f), f(s.last()), name);
        assert(named(f(s.last()), name) == Seq::<PointView>::empty());
        assert(named(flat(s, f), name) =~= Seq::empty());
    }
}

/// The lists that all points of a cluster are put together from.
spec fn parts(
    cluster: Seq<char>,
    lag: LagView,
    granularity: Granularity,
    custom: LabelsView,
) -> (Seq<PointView>, Seq<PointView>, Seq<PointView>, Seq<PointView>, Seq<PointView>) {
    (
        flat(lag.partition_offsets, |m: PartitionOffsetView| offset_points(m, custom)),
        match granularity {
            Granularity::Partition => flat(
                lag.partition_metrics,
                |m: PartitionLagView| partition_points(m, custom),
            ),
            Granularity::Topic => Seq::empty(),
        },
        flat(lag.group_metrics, |m: GroupLagView| group_points(m, custom)),
        flat(lag.topic_metrics, |m: TopicLagView| topic_points(m, custom)),
        cluster_points(cluster, lag, custom),
    )
}

proof fn named_in_parts(
    cluster: Seq<char>,
    lag: LagView,
    granularity: Granularity,
    custom: LabelsView,
    name: Seq<char>,
)
    ensures
        ({
            let (a, b, c, d, e) = parts(cluster, lag, granularity, custom);
            named(lag_points(cluster, lag, granularity, custom), name) == named(a, name) + named(
                b,
                name,
            ) + named(c, name) + named(d, name) + named(e, name)
        }),
{
    let (a, b, c, d, e) = parts(cluster, lag, granularity, custom);
    assert(lag_points(cluster, lag, granularity, custom) == a + b + c + d + e);
    named_in_both(a, b, name);
    named_in_both(a + b, c, name);
    named_in_both(a + b + c, d, name);
    named_in_both(a + b + c + d, e, name);
}

proof fn offset_names(m: PartitionOffsetView, custom: LabelsView, points: Seq<PointView>)
    requires
        points == offset_points(m, custom),
    ensures
        points.len() == 2,
        points[0].name == "kafka_partition_latest_offset"@,
        points[1].name == "kafka_partition_earliest_offset"@,
{
}

proof fn offset_point_named(m: PartitionOffsetView, custom: LabelsView, points: Seq<PointView>, k: int)
    requires
        points == offset_points(m, custom),
        0 <= k < points.len(),
    ensures
        named(points, points[k].name) == seq![points[k]],
{
    names_differ();
    offset_names(m, custom, points);
    one_named(points, points[k].name, k);
}

proof fn no_offset_point_named(m: PartitionOffsetView, custom: LabelsView, points: Seq<PointView>, name: Seq<char>)
    requires
        points == offset_points(m, custom),
        rank(name) != 29342,
        rank(name) != 31319,
    ensures
        named(points, name) == Seq::<PointView>::empty(),
{
    names_differ();
    offset_names(m, custom, points);
    none_named(points, name);
}

proof fn no_offset_points_named(s: Seq<PartitionOffsetView>, custom: LabelsView, name: Seq<char>)
    requires
        rank(name) != 29342,
        rank(name) != 31319,
    ensures
        named(flat(s, |m: PartitionOffsetView| offset_points(m, custom)), name) == Seq::<PointView>::empty(),
{
    let f = |m: PartitionOffsetView| offset_points(m, custom);
    assert forall|m: PartitionOffsetView| named(#[trigger] f(m), name) == Seq::<PointView>::empty() by {
        no_offset_point_named(m, custom, f(m), name);
    }
    flat_none(s, f, name);
}

proof fn partition_names(m: PartitionLagView, custom: LabelsView, points: Seq<PointView>)
    requires
        points == partition_points(m, custom),
    ensures
        points.len() == (if m.lag_millis is Some {
            6nat
        } else {
            5nat
        }),
        points[0].name == "kafka_consumergroup_group_offset"@,
        points[1].name == "kafka_consumergroup_group_lag"@,
        points[2].name == "kafka_consumergroup_group_messages_lost"@,
        points[3].name == "kafka_consumergroup_group_retention_margin"@,
        points[4].name == "kafka_consumergroup_group_lag_retention_ratio"@,
        m.lag_millis is Some ==> points[5].name == "kafka_consumergroup_group_lag_seconds"@,
{
}

proof fn partition_point_named(m: PartitionLagView, custom: LabelsView, points: Seq<PointView>, k: int)
    requires
        points == partition_points(m, custom),
        0 <= k < points.len(),
    ensures
        named(points, points[k].name) == seq![points[k]],
{
    names_differ();
    partition_names(m, custom, points);
    one_named(points, points[k].name, k);
}

proof fn partition_time_named(m: PartitionLagView, custom: LabelsView, points: Seq<PointView>)
    requires
        points == partition_points(m, custom),
    ensures
        named(points, "kafka_consumergroup_group_lag_seconds"@) == (if m.lag_millis is Some {
            seq![points[5]]
        } else {
            Seq::empty()
        }),
{
    names_differ();
    partition_names(m, custom, points);
    if m.lag_millis is Some {
        partition_point_named(m, custom, points, 5);
    } else {
        none_named(points, "kafka_consumergroup_group_lag_seconds"@);
    }
}

proof fn no_partition_point_named(m: PartitionLagView, custom: LabelsView, points: Seq<PointView>, name: Seq<char>)
    requires
        points == partition_points(m, custom),
        rank(name) != 32313,
        rank(name) != 29310,
        rank(name) != 39311,
        rank(name) != 42316,
        rank(name) != 45310,
        rank(name) != 37310,
    ensures
        named(points, name) == Seq::<PointView>::empty(),
{
    names_differ();
    partition_names(m, custom, points);
    none_named(points, name);
}

proof fn no_partition_points_named(s: Seq<PartitionLagView>, custom: LabelsView, name: Seq<char>)
    requires
        rank(name) != 32313,
        rank(name) != 29310,
        rank(name) != 39311,
        rank(name) != 42316,
        rank(name) != 45310,
        rank(name) != 37310,
    ensures
        named(flat(s, |m: PartitionLagView| partition_points(m, custom)), name) == Seq::<PointView>::empty(),
{
    let f = |m: PartitionLagView| partition_points(m, custom);
    assert forall|m: PartitionLagView| named(#[trigger] f(m), name) == Seq::<PointView>::empty() by {
        no_partition_point_named(m, custom, f(m), name);
    }
    flat_none(s, f, name);
}

proof fn group_names(m: GroupLagView, custom: LabelsView, points: Seq<PointView>)
    requires
        points == group_points(m, custom),
    ensures
        points.len() == (if m.max_lag_millis is Some {
            4nat
        } else {
            3nat
        }),
        points[0].name == "kafka_consumergroup_group_max_lag"@,
        points[1].name == "kafka_consumergroup_group_sum_lag"@,
        points[2].name == "kafka_consumergroup_group_state"@,
        m.max_lag_millis is Some ==> points[3].name == "kafka_consumergroup_group_max_lag_seconds"@,
{
}

proof fn group_point_named(m: GroupLagView, custom: LabelsView, points: Seq<PointView>, k: int)
    requires
        points == group_points(m, custom),
        0 <= k < points.len(),
    ensures
        named(points, points[k].name) == seq![points[k]],
{
    names_differ();
    group_names(m, custom, points);
    one_named(points, points[k].name, k);
}

proof fn group_time_named(m: GroupLagView, custom: LabelsView, points: Seq<PointView>)
    requires
        points == group_points(m, custom),
    ensures
        named(points, "kafka_consumergroup_group_max_lag_seconds"@) == (if m.max_lag_millis is Some {
            seq![points[3]]
        } else {
            Seq::empty()
        }),
{
    names_differ();
    group_names(m, custom, points);
    if m.max_lag_millis is Some {
        group_point_named(m, custom, points, 3);
    } else {
        none_named(points, "kafka_consumergroup_group_max_lag_seconds"@);
    }
}

proof fn no_group_point_named(m: GroupLagView, custom: LabelsView, points: Seq<PointView>, name: Seq<char>)
    requires
        points == group_points(m, custom),
        rank(name) != 33311,
        rank(name) != 33317,
        rank(name) != 31317,
        rank(name) != 41311,
    ensures
        named(points, name) == Seq::<PointView>::empty(),
{
    names_differ();
    group_names(m, custom, points);
    none_named(points, name);
}

proof fn no_group_points_named(s: Seq<GroupLagView>, custom: LabelsView, name: Seq<char>)
    requires
        rank(name) != 33311,
        rank(name) != 33317,
        rank(name) != 31317,
        rank(name) != 41311,
    ensures
        named(flat(s, |m: GroupLagView| group_points(m, custom)), name) == Seq::<PointView>::empty(),
{
    let f = |m: GroupLagView| group_points(m, custom);
    assert forall|m: GroupLagView| named(#[trigger] f(m), name) == Seq::<PointView>::empty() by {
        no_group_point_named(m, custom, f(m), name);
    }
    flat_none(s, f, name);
}

proof fn topic_names(m: TopicLagView, custom: LabelsView, points: Seq<PointView>)
    requires
        points == topic_points(m, custom),
    ensures
        points.len() == 1,
        points[0].name == "kafka_consumergroup_group_topic_sum_lag"@,
{
}

proof fn topic_point_named(m: TopicLagView, custom: LabelsView, points: Seq<PointView>, k: int)
    requires
        points == topic_points(m, custom),
        0 <= k < points.len(),
    ensures
        named(points, points[k].name) == seq![points[k]],
{
    names_differ();
    topic_names(m, custom, points);
    one_named(points, points[k].name, k);
}

proof fn no_topic_point_named(m: TopicLagView, custom: LabelsView, points: Seq<PointView>, name: Seq<char>)
    requires
        points == topic_points(m, custom),
        rank(name) != 39318,
    ensures
        named(points, name) == Seq::<PointView>::empty(),
{
    names_differ();
    topic_names(m, custom, points);
    none_named(points, name);
}

proof fn no_topic_points_named(s: Seq<TopicLagView>, custom: LabelsView, name: Seq<char>)
    requires
        rank(name) != 39318,
    ensures
        named(flat(s, |m: TopicLagView| topic_points(m, custom)), name) == Seq::<PointView>::empty(),
{
    let f = |m: TopicLagView| topic_points(m, custom);
    assert forall|m: TopicLagView| named(#[trigger] f(m), name) == Seq::<PointView>::empty() by {
        no_topic_point_named(m, custom, f(m), name);
    }
    flat_none(s, f, name);
}

proof fn cluster_names(cluster: Seq<char>, lag: LagView, custom: LabelsView, points: Seq<PointView>)
    requires
        points == cluster_points(cluster, lag, custom),
    ensures
        points.len() == 3,
        points[0].name == "kafka_consumergroup_poll_time_ms"@,
        points[1].name == "kafka_lag_exporter_compaction_detected_total"@,
        points[2].name == "kafka_lag_exporter_data_loss_partitions_total"@,
{
}

proof fn cluster_point_named(cluster: Seq<char>, lag: LagView, custom: LabelsView, points: Seq<PointView>, k: int)
    requires
        points == cluster_points(cluster, lag, custom),
        0 <= k < points.len(),
    ensures
        named(points, points[k].name) == seq![points[k]],
{
    names_differ();
    cluster_names(cluster, lag, custom, points);
    one_named(points, points[k].name, k);
}

proof fn no_cluster_point_named(cluster: Seq<char>, lag: LagView, custom: LabelsView, points: Seq<PointView>, name: Seq<char>)
    requires
        points == cluster_points(cluster, lag, custom),
        rank(name) != 32316,
        rank(name) != 44324,
        rank(name) != 45320,
    ensures
        named(points, name) == Seq::<PointView>::empty(),
{
    names_differ();
    cluster_names(cluster, lag, custom, points);
    none_named(points, name);
}

proof fn latest_points(
    cluster: Seq<char>,
    lag: LagView,
    granularity: Granularity,
    custom: LabelsView,
)
    ensures
        named(lag_points(cluster, lag, granularity, custom), "kafka_partition_latest_offset"@)
            == lag.partition_offsets.map_values(|m: PartitionOffsetView| offset_points(m, custom)[0]),
{
    let name = "kafka_partition_latest_offset"@;
    names_differ();
    named_in_parts(cluster, lag, granularity, custom, name);
    no_partition_points_named(lag.partition_metrics, custom, name);
    none_named(Seq::empty(), name);
    no_group_points_named(lag.group_metrics, custom, name);
    no_topic_points_named(lag.topic_metrics, custom, name);
    no_cluster_point_named(cluster, lag, custom, cluster_points(cluster, lag, custom), name);
    let f = |m: PartitionOffsetView| offset_points(m, custom);
    let one = |m: PartitionOffsetView| offset_points(m, custom)[0];
    assert forall|m: PartitionOffsetView| named(#[trigger] f(m), name) == seq![one(m)] by {
        offset_names(m, custom, f(m));
        offset_point_named(m, custom, f(m), 0);
    }
    flat_one(lag.partition_offsets, f, name, one);
    assert(named(lag_points(cluster, lag, granularity, custom), name) =~= lag.partition_offsets.map_values(one));
}

proof fn earliest_points(
    cluster: Seq<char>,
    lag: LagView,
    granularity: Granularity,
    custom: LabelsView,
)
    ensures
        named(lag_points(cluster, lag, granularity, custom), "kafka_partition_earliest_offset"@)
            == lag.partition_offsets.map_values(|m: PartitionOffsetView| offset_points(m, custom)[1]),
{
    let name = "kafka_partition_earliest_offset"@;
    names_differ();
    named_in_parts(cluster, lag, granularity, custom, name);
    no_partition_points_named(lag.partition_metrics, custom, name);
    none_named(Seq::empty(), name);
    no_group_points_named(lag.group_metrics, custom, name);
    no_topic_points_named(lag.topic_metrics, custom, name);
    no_cluster_point_named(cluster, lag, custom, cluster_points(cluster, lag, custom), name);
    let f = |m: PartitionOffsetView| offset_points(m, custom);
    let one = |m: PartitionOffsetView| offset_points(m, custom)[1];
    assert forall|m: PartitionOffsetView| named(#[trigger] f(m), name) == seq![one(m)] by {
        offset_names(m, custom, f(m));
        offset_point_named(m, custom, f(m), 1);
    }
    flat_one(lag.partition_offsets, f, name, one);
    assert(named(lag_points(cluster, lag, granularity, custom), name) =~= lag.partition_offsets.map_values(one));
}

proof fn committed_points(
    cluster: Seq<char>,
    lag: LagView,
    granularity: Granularity,
    custom: LabelsView,
)
    requires
        granularity == Granularity::Partition,
    ensures
        named(lag_points(cluster, lag, granularity, custom), "kafka_consumergroup_group_offset"@)
            == lag.partition_metrics.map_values(|m: PartitionLagView| partition_points(m, custom)[0]),
{
    let name = "kafka_consumergroup_group_offset"@;
    names_differ();
    named_in_parts(cluster, lag, granularity, custom, name);
    no_offset_points_named(lag.partition_offsets, custom, name);
    no_group_points_named(lag.group_metrics, custom, name);
    no_topic_points_named(lag.topic_metrics, custom, name);
    no_cluster_point_named(cluster, lag, custom, cluster_points(cluster, lag, custom), name);
    let f = |m: PartitionLagView| partition_points(m, custom);
    let one = |m: PartitionLagView| partition_points(m, custom)[0];
    assert forall|m: PartitionLagView| named(#[trigger] f(m), name) == seq![one(m)] by {
        partition_names(m, custom, f(m));
        partition_point_named(m, custom, f(m), 0);
    }
    flat_one(lag.partition_metrics, f, name, one);
    assert(named(lag_points(cluster, lag, granularity, custom), name) =~= lag.partition_metrics.map_values(one));
}

proof fn lag_only_points(
    cluster: Seq<char>,
    lag: LagView,
    granularity: Granularity,
    custom: LabelsView,
)
    requires
        granularity == Granularity::Partition,
    ensures
        named(lag_points(cluster, lag, granularity, custom), "kafka_consumergroup_group_lag"@)
            == lag.partition_metrics.map_values(|m: PartitionLagView| partition_points(m, custom)[1]),
{
    let name = "kafka_consumergroup_group_lag"@;
    names_differ();
    named_in_parts(cluster, lag, granularity, custom, name);
    no_offset_points_named(lag.partition_offsets, custom, name);
    no_group_points_named(lag.group_metrics, custom, name);
    no_topic_points_named(lag.topic_metrics, custom, name);
    no_cluster_point_named(cluster, lag, custom, cluster_points(cluster, lag, custom), name);
    let f = |m: PartitionLagView| partition_points(m, custom);
    let one = |m: PartitionLagView| partition_points(m, custom)[1];
    assert forall|m: PartitionLagView| named(#[trigger] f(m), name) == seq![one(m)] by {
        partition_names(m, custom, f(m));
        partition_point_named(m, custom, f(m), 1);
    }
    flat_one(lag.partition_metrics, f, name, one);
    assert(named(lag_points(cluster, lag, granularity, custom), name) =~= lag.partition_metrics.map_values(one));
}

proof fn lost_points(
    cluster: Seq<char>,
    lag: LagView,
    granularity: Granularity,
    custom: LabelsView,
)
    requires
        granularity == Granularity::Partition,
    ensures
        named(lag_points(cluster, lag, granularity, custom), "kafka_consumergroup_group_messages_lost"@)
            == lag.partition_metrics.map_values(|m: PartitionLagView| partition_points(m, custom)[2]),
{
    let name = "kafka_consumergroup_group_messages_lost"@;
    names_differ();
    named_in_parts(cluster, lag, granularity, custom, name);
    no_offset_points_named(lag.partition_offsets, custom, name);
    no_group_points_named(lag.group_metrics, custom, name);
    no_topic_points_named(lag.topic_metrics, custom, name);
    no_cluster_point_named(cluster, lag, custom, cluster_points(cluster, lag, custom), name);
    let f = |m: PartitionLagView| partition_points(m, custom);
    let one = |m: PartitionLagView| partition_points(m, custom)[2];
    assert forall|m: PartitionLagView| named(#[trigger] f(m), name) == seq![one(m)] by {
        partition_names(m, custom, f(m));
        partition_point_named(m, custom, f(m), 2);
    }
    flat_one(lag.partition_metrics, f, name, one);
    assert(named(lag_points(cluster, lag, granularity, custom), name) =~= lag.partition_metrics.map_values(one));
}

proof fn margin_points(
    cluster: Seq<char>,
    lag: LagView,
    granularity: Granularity,
    custom: LabelsView,
)
    requires
        granularity == Granularity::Partition,
    ensures
        named(lag_points(cluster, lag, granularity, custom), "kafka_consumergroup_group_retention_margin"@)
            == lag.partition_metrics.map_values(|m: PartitionLagView| partition_points(m, custom)[3]),
{
    let name = "kafka_consumergroup_group_retention_margin"@;
    names_differ();
    named_in_parts(cluster, lag, granularity, custom, name);
    no_offset_points_named(lag.partition_offsets, custom, name);
    no_group_points_named(lag.group_metrics, custom, name);
    no_topic_points_named(lag.topic_metrics, custom, name);
    no_cluster_point_named(cluster, lag, custom, cluster_points(cluster, lag, custom), name);
    let f = |m: PartitionLagView| partition_points(m, custom);
    let one = |m: PartitionLagView| partition_points(m, custom)[3];
    assert forall|m: PartitionLagView| named(#[trigger] f(m), name) == seq![one(m)] by {
        partition_names(m, custom, f(m));
        partition_point_named(m, custom, f(m), 3);
    }
    flat_one(lag.partition_metrics, f, name, one);
    assert(named(lag_points(cluster, lag, granularity, custom), name) =~= lag.partition_metrics.map_values(one));
}

proof fn share_points(
    cluster: Seq<char>,
    lag: LagView,
    granularity: Granularity,
    custom: LabelsView,
)
    requires
        granularity == Granularity::Partition,
    ensures
        named(lag_points(cluster, lag, granularity, custom), "kafka_consumergroup_group_lag_retention_ratio"@)
            == lag.partition_metrics.map_values(|m: PartitionLagView| partition_points(m, custom)[4]),
{
    let name = "kafka_consumergroup_group_lag_retention_ratio"@;
    names_differ();
    named_in_parts(cluster, lag, granularity, custom, name);
    no_offset_points_named(lag.partition_offsets, custom, name);
    no_group_points_named(lag.group_metrics, custom, name);
    no_topic_points_named(lag.topic_metrics, custom, name);
    no_cluster_point_named(cluster, lag, custom, cluster_points(cluster, lag, custom), name);
    let f = |m: PartitionLagView| partition_points(m, custom);
    let one = |m: PartitionLagView| partition_points(m, custom)[4];
    assert forall|m: PartitionLagView| named(#[trigger] f(m), name) == seq![one(m)] by {
        partition_names(m, custom, f(m));
        partition_point_named(m, custom, f(m), 4);
    }
    flat_one(lag.partition_metrics, f, name, one);
    assert(named(lag_points(cluster, lag, granularity, custom), name) =~= lag.partition_metrics.map_values(one));
}

proof fn time_lag_points(
    cluster: Seq<char>,
    lag: LagView,
    granularity: Granularity,
    custom: LabelsView,
)
    requires
        granularity == Granularity::Partition,
    ensures
        named(lag_points(cluster, lag, granularity, custom), "kafka_consumergroup_group_lag_seconds"@)
            == lag.partition_metrics.filter(|m: PartitionLagView| m.lag_millis is Some).map_values(|m: PartitionLagView| partition_points(m, custom)[5]),
{
    let name = "kafka_consumergroup_group_lag_seconds"@;
    names_differ();
    named_in_parts(cluster, lag, granularity, custom, name);
    no_offset_points_named(lag.partition_offsets, custom, name);
    no_group_points_named(lag.group_metrics, custom, name);
    no_topic_points_named(lag.topic_metrics, custom, name);
    no_cluster_point_named(cluster, lag, custom, cluster_points(cluster, lag, custom), name);
    let f = |m: PartitionLagView| partition_points(m, custom);
    let one = |m: PartitionLagView| partition_points(m, custom)[5];
    let has = |m: PartitionLagView| m.lag_millis is Some;
    assert forall|m: PartitionLagView|
        named(#[trigger] f(m), name) == (if has(m) {
            seq![one(m)]
        } else {
            Seq::empty()
        }) by {
        partition_time_named(m, custom, f(m));
    }
    flat_some(lag.partition_metrics, f, name, has, one);
    assert(named(lag_points(cluster, lag, granularity, custom), name) =~= lag.partition_metrics.filter(
        has,
    ).map_values(one));
}

proof fn max_points(
    cluster: Seq<char>,
    lag: LagView,
    granularity: Granularity,
    custom: LabelsView,
)
    ensures
        named(lag_points(cluster, lag, granularity, custom), "kafka_consumergroup_group_max_lag"@)
            == lag.group_metrics.map_values(|m: GroupLagView| group_points(m, custom)[0]),
{
    let name = "kafka_consumergroup_group_max_lag"@;
    names_differ();
    named_in_parts(cluster, lag, granularity, custom, name);
    no_offset_points_named(lag.partition_offsets, custom, name);
    no_partition_points_named(lag.partition_metrics, custom, name);
    none_named(Seq::empty(), name);
    no_topic_points_named(lag.topic_metrics, custom, name);
    no_cluster_point_named(cluster, lag, custom, cluster_points(cluster, lag, custom), name);
    let f = |m: GroupLagView| group_points(m, custom);
    let one = |m: GroupLagView| group_points(m, custom)[0];
    assert forall|m: GroupLagView| named(#[trigger] f(m), name) == seq![one(m)] by {
        group_names(m, custom, f(m));
        group_point_named(m, custom, f(m), 0);
    }
    flat_one(lag.group_metrics, f, name, one);
    assert(named(lag_points(cluster, lag, granularity, custom), name) =~= lag.group_metrics.map_values(one));
}

proof fn sum_points(
    cluster: Seq<char>,
    lag: LagView,
    granularity: Granularity,
    custom: LabelsView,
)
    ensures
        named(lag_points(cluster, lag, granularity, custom), "kafka_consumergroup_group_sum_lag"@)
            == lag.group_metrics.map_values(|m: GroupLagView| group_points(m, custom)[1]),
{
    let name = "kafka_consumergroup_group_sum_lag"@;
    names_differ();
    named_in_parts(cluster, lag, granularity, custom, name);
    no_offset_points_named(lag.partition_offsets, custom, name);
    no_partition_points_named(lag.partition_metrics, custom, name);
    none_named(Seq::empty(), name);
    no_topic_points_named(lag.topic_metrics, custom, name);
    no_cluster_point_named(cluster, lag, custom, cluster_points(cluster, lag, custom), name);
    let f = |m: GroupLagView| group_points(m, custom);
    let one = |m: GroupLagView| group_points(m, custom)[1];
    assert forall|m: GroupLagView| named(#[trigger] f(m), name) == seq![one(m)] by {
        group_names(m, custom, f(m));
        group_point_named(m, custom, f(m), 1);
    }
    flat_one(lag.group_metrics, f, name, one);
    assert(named(lag_points(cluster, lag, granularity, custom), name) =~= lag.group_metrics.map_values(one));
}

proof fn state_points(
    cluster: Seq<char>,
    lag: LagView,
    granularity: Granularity,
    custom: LabelsView,
)
    ensures
        named(lag_points(cluster, lag, granularity, custom), "kafka_consumergroup_group_state"@)
            == lag.group_metrics.map_values(|m: GroupLagView| group_points(m, custom)[2]),
{
    let name = "kafka_consumergroup_group_state"@;
    names_differ();
    named_in_parts(cluster, lag, granularity, custom, name);
    no_offset_points_named(lag.partition_offsets, custom, name);
    no_partition_points_named(lag.partition_metrics, custom, name);
    none_named(Seq::empty(), name);
    no_topic_points_named(lag.topic_metrics, custom, name);
    no_cluster_point_named(cluster, lag, custom, cluster_points(cluster, lag, custom), name);
    let f = |m: GroupLagView| group_points(m, custom);
    let one = |m: GroupLagView| group_points(m, custom)[2];
    assert forall|m: GroupLagView| named(#[trigger] f(m), name) == seq![one(m)] by {
        group_names(m, custom, f(m));
        group_point_named(m, custom, f(m), 2);
    }
    flat_one(lag.group_metrics, f, name, one);
    assert(named(lag_points(cluster, lag, granularity, custom), name) =~= lag.group_metrics.map_values(one));
}

proof fn max_time_points(
    cluster: Seq<char>,
    lag: LagView,
    granularity: Granularity,
    custom: LabelsView,
)
    ensures
        named(lag_points(cluster, lag, granularity, custom), "kafka_consumergroup_group_max_lag_seconds"@)
            == lag.group_metrics.filter(|m: GroupLagView| m.max_lag_millis is Some).map_values(|m: GroupLagView| group_points(m, custom)[3]),
{
    let name = "kafka_consumergroup_group_max_lag_seconds"@;
    names_differ();
    named_in_parts(cluster, lag, granularity, custom, name);
    no_offset_points_named(lag.partition_offsets, custom, name);
    no_partition_points_named(lag.partition_metrics, custom, name);
    none_named(Seq::empty(), name);
    no_topic_points_named(lag.topic_metrics, custom, name);
    no_cluster_point_named(cluster, lag, custom, cluster_points(cluster, lag, custom), name);
    let f = |m: GroupLagView| group_points(m, custom);
    let one = |m: GroupLagView| group_points(m, custom)[3];
    let has = |m: GroupLagView| m.max_lag_millis is Some;
    assert forall|m: GroupLagView|
        named(#[trigger] f(m), name) == (if has(m) {
            seq![one(m)]
        } else {
            Seq::empty()
        }) by {
        group_time_named(m, custom, f(m));
    }
    flat_some(lag.group_metrics, f, name, has, one);
    assert(named(lag_points(cluster, lag, granularity, custom), name) =~= lag.group_metrics.filter(
        has,
    ).map_values(one));
}

proof fn topic_sum_points(
    cluster: Seq<char>,
    lag: LagView,
    granularity: Granularity,
    custom: LabelsView,
)
    ensures
        named(lag_points(cluster, lag, granularity, custom), "kafka_consumergroup_group_topic_sum_lag"@)
            == lag.topic_metrics.map_values(|m: TopicLagView| topic_points(m, custom)[0]),
{
    let name = "kafka_consumergroup_group_topic_sum_lag"@;
    names_differ();
    named_in_parts(cluster, lag, granularity, custom, name);
    no_offset_points_named(lag.partition_offsets, custom, name);
    no_partition_points_named(lag.partition_metrics, custom, name);
    none_named(Seq::empty(), name);
    no_group_points_named(lag.group_metrics, custom, name);
    no_cluster_point_named(cluster, lag, custom, cluster_points(cluster, lag, custom), name);
    let f = |m: TopicLagView| topic_points(m, custom);
    let one = |m: TopicLagView| topic_points(m, custom)[0];
    assert forall|m: TopicLagView| named(#[trigger] f(m), name) == seq![one(m)] by {
        topic_names(m, custom, f(m));
        topic_point_named(m, custom, f(m), 0);
    }
    flat_one(lag.topic_metrics, f, name, one);
    assert(named(lag_points(cluster, lag, granularity, custom), name) =~= lag.topic_metrics.map_values(one));
}

proof fn poll_point(
    cluster: Seq<char>,
    lag: LagView,
    granularity: Granularity,
    custom: LabelsView,
)
    ensures
        named(lag_points(cluster, lag, granularity, custom), "kafka_consumergroup_poll_time_ms"@)
            == seq![cluster_points(cluster, lag, custom)[0]],
{
    let name = "kafka_consumergroup_poll_time_ms"@;
    names_differ();
    named_in_parts(cluster, lag, granularity, custom, name);
    no_offset_points_named(lag.partition_offsets, custom, name);
    no_partition_points_named(lag.partition_metrics, custom, name);
    none_named(Seq::empty(), name);
    no_group_points_named(lag.group_metrics, custom, name);
    no_topic_points_named(lag.topic_metrics, custom, name);
    cluster_names(cluster, lag, custom, cluster_points(cluster, lag, custom));
    cluster_point_named(cluster, lag, custom, cluster_points(cluster, lag, custom), 0);
    assert(named(lag_points(cluster, lag, granularity, custom), name) =~= seq![
        cluster_points(cluster, lag, custom)[0],
    ]);
}

proof fn compaction_point(
    cluster: Seq<char>,
    lag: LagView,
    granularity: Granularity,
    custom: LabelsView,
)
    ensures
        named(lag_points(cluster, lag, granularity, custom), "kafka_lag_exporter_compaction_detected_total"@)
            == seq![cluster_points(cluster, lag, custom)[1]],
{
    let name = "kafka_lag_exporter_compaction_detected_total"@;
    names_differ();
    named_in_parts(cluster, lag, granularity, custom, name);
    no_offset_points_named(lag.partition_offsets, custom, name);
    no_partition_points_named(lag.partition_metrics, custom, name);
    none_named(Seq::empty(), name);
    no_group_points_named(lag.group_metrics, custom, name);
    no_topic_points_named(lag.topic_metrics, custom, name);
    cluster_names(cluster, lag, custom, cluster_points(cluster, lag, custom));
    cluster_point_named(cluster, lag, custom, cluster_points(cluster, lag, custom), 1);
    assert(named(lag_points(cluster, lag, granularity, custom), name) =~= seq![
        cluster_points(cluster, lag, custom)[1],
    ]);
}

proof fn loss_point(
    cluster: Seq<char>,
    lag: LagView,
    granularity: Granularity,
    custom: LabelsView,
)
    ensures
        named(lag_points(cluster, lag, granularity, custom), "kafka_lag_exporter_data_loss_partitions_total"@)
            == seq![cluster_points(cluster, lag, custom)[2]],
{
    let name = "kafka_lag_exporter_data_loss_partitions_total"@;
    names_differ();
    named_in_parts(cluster, lag, granularity, custom, name);
    no_offset_points_named(lag.partition_offsets, custom, name);
    no_partition_points_named(lag.partition_metrics, custom, name);
    none_named(Seq::empty(), name);
    no_group_points_named(lag.group_metrics, custom, name);
    no_topic_points_named(lag.topic_metrics, custom, name);
    cluster_names(cluster, lag, custom, cluster_points(cluster, lag, custom));
    cluster_point_named(cluster, lag, custom, cluster_points(cluster, lag, custom), 2);
    assert(named(lag_points(cluster, lag, granularity, custom), name) =~= seq![
        cluster_points(cluster, lag, custom)[2],
    ]);
}

/// Each partition's log has one point for its end and one for its start, under the partition's
/// labels.
pub proof fn log_ends_stand_under_their_names(
    cluster: Seq<char>,
    lag: LagView,
    granularity: Granularity,
    custom: LabelsView,
    w: int,
)
    requires
        0 <= w < lag.partition_offsets.len(),
    ensures
        ({
            let points = lag_points(cluster, lag, granularity, custom);
            let m = lag.partition_offsets[w];
            let latest = named(
                points,
                "kafka_partition_latest_offset"@,
            );
            let earliest = named(
                points,
                "kafka_partition_earliest_offset"@,
            );
            &&& latest.len() == lag.partition_offsets.len()
            &&& shows(latest[w], Reading::Whole(m.latest_offset), HELP_PARTITION_LATEST_OFFSET@)
            &&& labelled(latest[w].labels, log_words(m), custom)
            &&& earliest.len() == lag.partition_offsets.len()
            &&& shows(earliest[w], Reading::Whole(m.earliest_offset), HELP_PARTITION_EARLIEST_OFFSET@)
            &&& labelled(earliest[w].labels, log_words(m), custom)
        }),
{
    latest_points(cluster, lag, granularity, custom);
    earliest_points(cluster, lag, granularity, custom);
    log_labels_say(lag.partition_offsets[w]);
    custom_labels_count(
        offset_labels(lag.partition_offsets[w]),
        log_words(lag.partition_offsets[w]),
        custom,
    );
}

/// At partition granularity each group has on each of its partitions one point for each figure,
/// under the partition's labels: the committed offset, the lag, the lost messages, the distance
/// to deletion, and the share of the retained log, which is 0 where nothing is retained.
pub proof fn partition_figures_stand_under_their_names(
    cluster: Seq<char>,
    lag: LagView,
    granularity: Granularity,
    custom: LabelsView,
    i: int,
)
    requires
        granularity == Granularity::Partition,
        0 <= i < lag.partition_metrics.len(),
    ensures
        ({
            let points = lag_points(cluster, lag, granularity, custom);
            let m = lag.partition_metrics[i];
            let committed = named(
                points,
                "kafka_consumergroup_group_offset"@,
            );
            let behind = named(
                points,
                "kafka_consumergroup_group_lag"@,
            );
            let lost = named(
                points,
                "kafka_consumergroup_group_messages_lost"@,
            );
            let margin = named(
                points,
                "kafka_consumergroup_group_retention_margin"@,
            );
            let share = named(
                points,
                "kafka_consumergroup_group_lag_retention_ratio"@,
            );
            &&& committed.len() == lag.partition_metrics.len()
            &&& shows(committed[i], Reading::Whole(m.committed_offset), HELP_GROUP_OFFSET@)
            &&& labelled(committed[i].labels, partition_words(m), custom)
            &&& behind.len() == lag.partition_metrics.len()
            &&& shows(behind[i], Reading::Whole(m.lag), HELP_GROUP_LAG@)
            &&& labelled(behind[i].labels, partition_words(m), custom)
            &&& lost.len() == lag.partition_metrics.len()
            &&& shows(lost[i], Reading::Whole(m.messages_lost), HELP_GROUP_MESSAGES_LOST@)
            &&& labelled(lost[i].labels, partition_words(m), custom)
            &&& margin.len() == lag.partition_metrics.len()
            &&& shows(margin[i], Reading::Whole(m.retention_margin), HELP_GROUP_RETENTION_MARGIN@)
            &&& labelled(margin[i].labels, partition_words(m), custom)
            &&& share.len() == lag.partition_metrics.len()
            &&& m.lag_retention matches Some(part) ==> shows(
                share[i],
                Reading::Percent(part),
                HELP_GROUP_LAG_RETENTION_RATIO@,
            )
            &&& m.lag_retention is None ==> shows(
                share[i],
                Reading::Whole(0),
                HELP_GROUP_LAG_RETENTION_RATIO@,
            )
            &&& labelled(share[i].labels, partition_words(m), custom)
        }),
{
    committed_points(cluster, lag, granularity, custom);
    lag_only_points(cluster, lag, granularity, custom);
    lost_points(cluster, lag, granularity, custom);
    margin_points(cluster, lag, granularity, custom);
    share_points(cluster, lag, granularity, custom);
    partition_labels_say(lag.partition_metrics[i]);
    custom_labels_count(
        partition_labels(lag.partition_metrics[i]),
        partition_words(lag.partition_metrics[i]),
        custom,
    );
}

/// At partition granularity each group has, on each partition on which its time lag is known, one
/// point for it, which says besides whether the topic is compacted and whether messages were
/// lost.
pub proof fn time_lags_stand_under_their_name(
    cluster: Seq<char>,
    lag: LagView,
    granularity: Granularity,
    custom: LabelsView,
    i: int,
)
    requires
        granularity == Granularity::Partition,
        0 <= i < lag.partition_metrics.filter(|m: PartitionLagView| m.lag_millis is Some).len(),
    ensures
        ({
            let points = lag_points(cluster, lag, granularity, custom);
            let known = lag.partition_metrics.filter(|m: PartitionLagView| m.lag_millis is Some);
            let shown = named(points, "kafka_consumergroup_group_lag_seconds"@);
            let m = known[i];
            &&& shown.len() == known.len()
            &&& m.lag_millis matches Some(millis) && shows(
                shown[i],
                Reading::Millis(millis),
                HELP_GROUP_LAG_SECONDS@,
            )
            &&& forall|name: Seq<char>| #[trigger]
                lookup(shown[i].labels, name) == (if name == "data_loss_detected"@ {
                    Some(
                        if m.data_loss_detected {
                            "true"@
                        } else {
                            "false"@
                        },
                    )
                } else if name == "compaction_detected"@ {
                    Some(
                        if m.compaction_detected {
                            "true"@
                        } else {
                            "false"@
                        },
                    )
                } else if has_key(custom, name) {
                    lookup(custom, name)
                } else {
                    said(partition_words(m), name)
                })
        }),
{
    time_lag_points(cluster, lag, granularity, custom);
    let has = |m: PartitionLagView| m.lag_millis is Some;
    let known = lag.partition_metrics.filter(has);
    lag.partition_metrics.lemma_filter_pred(has, i);
    let m = known[i];
    assert(has(m));
    partition_labels_say(m);
    custom_labels_count(partition_labels(m), partition_words(m), custom);
    let base = put_all(partition_labels(m), custom);
    let compacted = if m.compaction_detected {
        "true"@
    } else {
        "false"@
    };
    let lossy = if m.data_loss_detected {
        "true"@
    } else {
        "false"@
    };
    let one = put(base, LABEL_COMPACTION_DETECTED@, compacted);
    let labels = time_lag_labels(m, custom);
    assert(labels == put(one, LABEL_DATA_LOSS_DETECTED@, lossy));
    put_reads_back(base, LABEL_COMPACTION_DETECTED@, compacted, LABEL_COMPACTION_DETECTED@);
    reveal_strlit("data_loss_detected");
    reveal_strlit("compaction_detected");
    assert("data_loss_detected"@.len() == 18 && "compaction_detected"@.len() == 19);
    assert forall|name: Seq<char>| #[trigger]
        lookup(labels, name) == (if name == "data_loss_detected"@ {
            Some(lossy)
        } else if name == "compaction_detected"@ {
            Some(compacted)
        } else if has_key(custom, name) {
            lookup(custom, name)
        } else {
            said(partition_words(m), name)
        }) by {
        put_reads_back(base, LABEL_COMPACTION_DETECTED@, compacted, name);
        put_reads_back(one, LABEL_DATA_LOSS_DETECTED@, lossy, name);
        assert(lookup(base, name) == (if has_key(custom, name) {
            lookup(custom, name)
        } else {
            said(partition_words(m), name)
        }));
    }
}

/// Each group has one point for its largest lag, one for the sum of its lags and one for its
/// state, under the group's labels.
pub proof fn group_figures_stand_under_their_names(
    cluster: Seq<char>,
    lag: LagView,
    granularity: Granularity,
    custom: LabelsView,
    g: int,
)
    requires
        0 <= g < lag.group_metrics.len(),
    ensures
        ({
            let points = lag_points(cluster, lag, granularity, custom);
            let m = lag.group_metrics[g];
            let largest = named(
                points,
                "kafka_consumergroup_group_max_lag"@,
            );
            let sum = named(
                points,
                "kafka_consumergroup_group_sum_lag"@,
            );
            let state = named(
                points,
                "kafka_consumergroup_group_state"@,
            );
            &&& largest.len() == lag.group_metrics.len()
            &&& shows(largest[g], Reading::Whole(m.max_lag), HELP_GROUP_MAX_LAG@)
            &&& labelled(largest[g].labels, group_words(m.cluster_name, m.group_id), custom)
            &&& sum.len() == lag.group_metrics.len()
            &&& shows(sum[g], Reading::Whole(m.sum_lag), HELP_GROUP_SUM_LAG@)
            &&& labelled(sum[g].labels, group_words(m.cluster_name, m.group_id), custom)
            &&& state.len() == lag.group_metrics.len()
            &&& shows(state[g], Reading::Whole(m.state as i64), HELP_GROUP_STATE@)
            &&& labelled(state[g].labels, group_words(m.cluster_name, m.group_id), custom)
        }),
{
    max_points(cluster, lag, granularity, custom);
    sum_points(cluster, lag, granularity, custom);
    state_points(cluster, lag, granularity, custom);
    let m = lag.group_metrics[g];
    group_labels_say(m.cluster_name, m.group_id);
    custom_labels_count(
        group_labels(m.cluster_name, m.group_id),
        group_words(m.cluster_name, m.group_id),
        custom,
    );
}

/// Each group whose largest time lag is known has one point for it, under the group's labels.
pub proof fn largest_time_lags_stand_under_their_name(
    cluster: Seq<char>,
    lag: LagView,
    granularity: Granularity,
    custom: LabelsView,
    g: int,
)
    requires
        0 <= g < lag.group_metrics.filter(|m: GroupLagView| m.max_lag_millis is Some).len(),
    ensures
        ({
            let points = lag_points(cluster, lag, granularity, custom);
            let known = lag.group_metrics.filter(|m: GroupLagView| m.max_lag_millis is Some);
            let shown = named(points, "kafka_consumergroup_group_max_lag_seconds"@);
            let m = known[g];
            &&& shown.len() == known.len()
            &&& m.max_lag_millis matches Some(millis) && shows(
                shown[g],
                Reading::Millis(millis),
                HELP_GROUP_MAX_LAG_SECONDS@,
            )
            &&& labelled(shown[g].labels, group_words(m.cluster_name, m.group_id), custom)
        }),
{
    max_time_points(cluster, lag, granularity, custom);
    let has = |m: GroupLagView| m.max_lag_millis is Some;
    let known = lag.group_metrics.filter(has);
    lag.group_metrics.lemma_filter_pred(has, g);
    let m = known[g];
    assert(has(m));
    group_labels_say(m.cluster_name, m.group_id);
    custom_labels_count(
        group_labels(m.cluster_name, m.group_id),
        group_words(m.cluster_name, m.group_id),
        custom,
    );
}

/// Each group has one point for its sum on each of its topics, under the labels of both.
pub proof fn topic_sums_stand_under_their_name(
    cluster: Seq<char>,
    lag: LagView,
    granularity: Granularity,
    custom: LabelsView,
    t: int,
)
    requires
        0 <= t < lag.topic_metrics.len(),
    ensures
        ({
            let points = lag_points(cluster, lag, granularity, custom);
            let m = lag.topic_metrics[t];
            let sum = named(
                points,
                "kafka_consumergroup_group_topic_sum_lag"@,
            );
            &&& sum.len() == lag.topic_metrics.len()
            &&& shows(sum[t], Reading::Whole(m.sum_lag), HELP_GROUP_TOPIC_SUM_LAG@)
            &&& labelled(sum[t].labels, topic_words(m.cluster_name, m.group_id, m.topic), custom)
        }),
{
    topic_sum_points(cluster, lag, granularity, custom);
    let m = lag.topic_metrics[t];
    topic_labels_say(m.cluster_name, m.group_id, m.topic);
    custom_labels_count(
        topic_labels(m.cluster_name, m.group_id, m.topic),
        topic_words(m.cluster_name, m.group_id, m.topic),
        custom,
    );
}

/// A cluster has one point for how long it took to collect, one for the number of partitions on
/// compacted topics, and one for the number of partitions that lost messages.
pub proof fn cluster_figures_stand_under_their_names(
    cluster: Seq<char>,
    lag: LagView,
    granularity: Granularity,
    custom: LabelsView,
)
    ensures
        ({
            let points = lag_points(cluster, lag, granularity, custom);
            let took = named(
                points,
                "kafka_consumergroup_poll_time_ms"@,
            );
            let compacted = named(
                points,
                "kafka_lag_exporter_compaction_detected_total"@,
            );
            let lossy = named(
                points,
                "kafka_lag_exporter_data_loss_partitions_total"@,
            );
            &&& took.len() == 1
            &&& shows(took[0], Reading::Count(lag.poll_time_ms), HELP_POLL_TIME_MS@)
            &&& labelled(took[0].labels, cluster_words(cluster), custom)
            &&& compacted.len() == 1
            &&& shows(compacted[0], Reading::Count(lag.compaction_detected_count), HELP_COMPACTION_DETECTED@)
            &&& labelled(compacted[0].labels, cluster_words(cluster), custom)
            &&& lossy.len() == 1
            &&& shows(lossy[0], Reading::Count(lag.data_loss_partition_count), HELP_DATA_LOSS_PARTITIONS@)
            &&& labelled(lossy[0].labels, cluster_words(cluster), custom)
        }),
{
    poll_point(cluster, lag, granularity, custom);
    compaction_point(cluster, lag, granularity, custom);
    loss_point(cluster, lag, granularity, custom);
    cluster_labels_say(cluster);
    custom_labels_count(cluster_labels(cluster), cluster_words(cluster), custom);
}

/// There are no points but those: two for each log, five for each group on each partition and one
/// more where its time lag is known, three for each group and one more where its largest time lag
/// is known, one for each group on each topic, and three for the cluster. At topic granularity
/// there are none for partitions.
pub proof fn points_are_counted(
    cluster: Seq<char>,
    lag: LagView,
    granularity: Granularity,
    custom: LabelsView,
)
    ensures
        lag_points(cluster, lag, granularity, custom).len() == 2 * lag.partition_offsets.len() + (
        match granularity {
            Granularity::Partition => 5 * lag.partition_metrics.len() + lag.partition_metrics.filter(
                |m: PartitionLagView| m.lag_millis is Some,
            ).len(),
            Granularity::Topic => 0,
        }) + 3 * lag.group_metrics.len() + lag.group_metrics.filter(
            |m: GroupLagView| m.max_lag_millis is Some,
        ).len() + lag.topic_metrics.len() + 3,
{
    let (a, b, c, d, e) = parts(cluster, lag, granularity, custom);
    assert(lag_points(cluster, lag, granularity, custom) == a + b + c + d + e);
    flat_len(
        lag.partition_offsets,
        |m: PartitionOffsetView| offset_points(m, custom),
        2,
        |m: PartitionOffsetView| false,
    );
    no_filter(lag.partition_offsets);
    flat_len(
        lag.partition_metrics,
        |m: PartitionLagView| partition_points(m, custom),
        5,
        |m: PartitionLagView| m.lag_millis is Some,
    );
    flat_len(
        lag.group_metrics,
        |m: GroupLagView| group_points(m, custom),
        3,
        |m: GroupLagView| m.max_lag_millis is Some,
    );
    flat_len(
        lag.topic_metrics,
        |m: TopicLagView| topic_points(m, custom),
        1,
        |m: TopicLagView| false,
    );
    no_filter(lag.topic_metrics);
}

proof fn flat_len<A>(
    s: Seq<A>,
    f: spec_fn(A) -> Seq<PointView>,
    n: int,
    more: spec_fn(A) -> bool,
)
    requires
        forall|a: A|
            (#[trigger] f(a)).len() == n + (if more(a) {
                1int
            } else {
                0int
            }),
    ensures
        flat(s, f).len() == n * s.len() + s.filter(more).len(),
    decreases s.len(),
{
    reveal(Seq::filter);
    if s.len() > 0 {
        flat_len(s.drop_last(), f, n, more);
        assert(n * s.len() == n * (s.len() - 1) + n) by (nonlinear_arith);
        assert(f(s.last()).len() == n + (if more(s.last()) {
            1int
        } else {
            0int
        }));
    }
}

proof fn no_filter<A>(s: Seq<A>)
    ensures
        s.filter(|a: A| false).len() == 0,
    decreases s.len(),
{
    reveal(Seq::filter);
    if s.len() > 0 {
        no_filter(s.drop_last());
    }
}

} // verus!

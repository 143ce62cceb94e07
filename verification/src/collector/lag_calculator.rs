//! Offset lag, time lag and retention risk, per partition, topic and group.

use crate::collector::offset_collector::{
    GroupSnapshot, MemberView, OffsetsSnapshot, SnapshotView, Tp,
};
use crate::kafka::client::TopicPartition;
use crate::keymap::{lookup, put_reads_back, with_name, NameSet, OrderMap};
use crate::text::same_text;
use crate::views::{views, views_push};
use vstd::prelude::*;

verus! {

broadcast use views_push;

/// How much of a partition's retained log a group has still to read: `lag` out of `window`
/// offsets.
#[derive(Debug, Clone, Copy, PartialEq, Eq, Structural)]
pub struct RetentionShare {
    pub lag: i64,
    pub window: i64,
}

/// The lag of one group on one partition.
#[derive(Debug)]
pub struct PartitionLagMetric {
    pub cluster_name: String,
    pub group_id: String,
    pub topic: String,
    pub partition: i32,
    pub member_host: String,
    pub consumer_id: String,
    pub client_id: String,
    pub committed_offset: i64,
    pub lag: i64,
    /// Time lag in milliseconds.
    pub lag_millis: Option<i64>,
    /// Whether the topic is compacted.
    pub compaction_detected: bool,
    /// Whether the committed offset lies before the low watermark.
    pub data_loss_detected: bool,
    /// Messages deleted before they were read.
    pub messages_lost: i64,
    /// Offset distance to the deletion boundary.
    pub retention_margin: i64,
    /// Share of the retention window taken up by lag; nothing for an empty window.
    pub lag_retention: Option<RetentionShare>,
}

/// What a `PartitionLagMetric` holds.
#[verifier::ext_equal]
pub struct PartitionLagView {
    pub cluster_name: Seq<char>,
    pub group_id: Seq<char>,
    pub topic: Seq<char>,
    pub partition: i32,
    pub member_host: Seq<char>,
    pub consumer_id: Seq<char>,
    pub client_id: Seq<char>,
    pub committed_offset: i64,
    pub lag: i64,
    pub lag_millis: Option<i64>,
    pub compaction_detected: bool,
    pub data_loss_detected: bool,
    pub messages_lost: i64,
    pub retention_margin: i64,
    pub lag_retention: Option<RetentionShare>,
}

impl View for PartitionLagMetric {
    type V = PartitionLagView;

    open spec fn view(&self) -> PartitionLagView {
        PartitionLagView {
            cluster_name: self.cluster_name@,
            group_id: self.group_id@,
            topic: self.topic@,
            partition: self.partition,
            member_host: self.member_host@,
            consumer_id: self.consumer_id@,
            client_id: self.client_id@,
            committed_offset: self.committed_offset,
            lag: self.lag,
            lag_millis: self.lag_millis,
            compaction_detected: self.compaction_detected,
            data_loss_detected: self.data_loss_detected,
            messages_lost: self.messages_lost,
            retention_margin: self.retention_margin,
            lag_retention: self.lag_retention,
        }
    }
}

/// The lag of one group over all its partitions.
#[derive(Debug)]
pub struct GroupLagMetric {
    pub cluster_name: String,
    pub group_id: String,
    pub max_lag: i64,
    /// Largest time lag in milliseconds.
    pub max_lag_millis: Option<i64>,
    pub sum_lag: i64,
    pub state: i32,
}

/// What a `GroupLagMetric` holds.
#[verifier::ext_equal]
pub struct GroupLagView {
    pub cluster_name: Seq<char>,
    pub group_id: Seq<char>,
    pub max_lag: i64,
    pub max_lag_millis: Option<i64>,
    pub sum_lag: i64,
    pub state: i32,
}

impl View for GroupLagMetric {
    type V = GroupLagView;

    open spec fn view(&self) -> GroupLagView {
        GroupLagView {
            cluster_name: self.cluster_name@,
            group_id: self.group_id@,
            max_lag: self.max_lag,
            max_lag_millis: self.max_lag_millis,
            sum_lag: self.sum_lag,
            state: self.state,
        }
    }
}

/// The lag of one group over the partitions of one topic.
#[derive(Debug)]
pub struct TopicLagMetric {
    pub cluster_name: String,
    pub group_id: String,
    pub topic: String,
    pub sum_lag: i64,
}

/// What a `TopicLagMetric` holds.
#[verifier::ext_equal]
pub struct TopicLagView {
    pub cluster_name: Seq<char>,
    pub group_id: Seq<char>,
    pub topic: Seq<char>,
    pub sum_lag: i64,
}

impl View for TopicLagMetric {
    type V = TopicLagView;

    open spec fn view(&self) -> TopicLagView {
        TopicLagView {
            cluster_name: self.cluster_name@,
            group_id: self.group_id@,
            topic: self.topic@,
            sum_lag: self.sum_lag,
        }
    }
}

/// The ends of one partition's log.
#[derive(Debug)]
pub struct PartitionOffsetMetric {
    pub cluster_name: String,
    pub topic: String,
    pub partition: i32,
    pub earliest_offset: i64,
    pub latest_offset: i64,
}

/// What a `PartitionOffsetMetric` holds.
#[verifier::ext_equal]
pub struct PartitionOffsetView {
    pub cluster_name: Seq<char>,
    pub topic: Seq<char>,
    pub partition: i32,
    pub earliest_offset: i64,
    pub latest_offset: i64,
}

impl View for PartitionOffsetMetric {
    type V = PartitionOffsetView;

    open spec fn view(&self) -> PartitionOffsetView {
        PartitionOffsetView {
            cluster_name: self.cluster_name@,
            topic: self.topic@,
            partition: self.partition,
            earliest_offset: self.earliest_offset,
            latest_offset: self.latest_offset,
        }
    }
}

/// Everything that one collection cycle says about a cluster's lag.
#[derive(Debug)]
pub struct LagMetrics {
    pub cluster_name: String,
    pub partition_metrics: Vec<PartitionLagMetric>,
    pub group_metrics: Vec<GroupLagMetric>,
    pub topic_metrics: Vec<TopicLagMetric>,
    pub partition_offsets: Vec<PartitionOffsetMetric>,
    pub poll_time_ms: u64,
    /// Number of group partitions on compacted topics.
    pub compaction_detected_count: u64,
    /// Number of group partitions that lost messages to retention.
    pub data_loss_partition_count: u64,
}

/// What a `LagMetrics` holds.
#[verifier::ext_equal]
pub struct LagView {
    pub cluster_name: Seq<char>,
    pub partition_metrics: Seq<PartitionLagView>,
    pub group_metrics: Seq<GroupLagView>,
    pub topic_metrics: Seq<TopicLagView>,
    pub partition_offsets: Seq<PartitionOffsetView>,
    pub poll_time_ms: u64,
    pub compaction_detected_count: u64,
    pub data_loss_partition_count: u64,
}

impl View for LagMetrics {
    type V = LagView;

    open spec fn view(&self) -> LagView {
        LagView {
            cluster_name: self.cluster_name@,
            partition_metrics: views(self.partition_metrics@),
            group_metrics: views(self.group_metrics@),
            topic_metrics: views(self.topic_metrics@),
            partition_offsets: views(self.partition_offsets@),
            poll_time_ms: self.poll_time_ms,
            compaction_detected_count: self.compaction_detected_count,
            data_loss_partition_count: self.data_loss_partition_count,
        }
    }
}

impl LagMetrics {
    /// The lags per group and partition.
    pub fn iter_partition_metrics(&self) -> (metrics: &[PartitionLagMetric])
        ensures
            metrics@ == self.partition_metrics@,
    {
        self.partition_metrics.as_slice()
    }

    /// The totals per group.
    pub fn iter_group_metrics(&self) -> (metrics: &[GroupLagMetric])
        ensures
            metrics@ == self.group_metrics@,
    {
        self.group_metrics.as_slice()
    }

    /// The totals per group and topic.
    pub fn iter_topic_metrics(&self) -> (metrics: &[TopicLagMetric])
        ensures
            metrics@ == self.topic_metrics@,
    {
        self.topic_metrics.as_slice()
    }

    /// The ends of every partition's log.
    pub fn iter_partition_offsets(&self) -> (metrics: &[PartitionOffsetMetric])
        ensures
            metrics@ == self.partition_offsets@,
    {
        self.partition_offsets.as_slice()
    }
}

/// When the message at a committed offset was produced.
#[derive(Debug, Clone, Copy, PartialEq, Eq, Structural)]
pub struct TimestampData {
    pub timestamp_ms: i64,
}

impl View for TimestampData {
    type V = i64;

    open spec fn view(&self) -> i64 {
        self.timestamp_ms
    }
}

/// Timestamps by group and partition, in contracts.
pub type Stamps = Seq<((Seq<char>, Tp), i64)>;

/// The number that stands for a group state.
pub open spec fn state_code(state: Seq<char>) -> i32 {
    if state == "PreparingRebalance"@ {
        1
    } else if state == "CompletingRebalance"@ {
        2
    } else if state == "Stable"@ {
        3
    } else if state == "Dead"@ {
        4
    } else if state == "Empty"@ {
        5
    } else if state == "Assigning"@ {
        6
    } else if state == "Reconciling"@ {
        7
    } else {
        0
    }
}

/// Encodes a consumer group state as a number; an unknown state is 0.
pub fn encode_group_state(state: &str) -> (code: i32)
    ensures
        code == state_code(state@),
{
    if same_text(state, "PreparingRebalance") {
        1
    } else if same_text(state, "CompletingRebalance") {
        2
    } else if same_text(state, "Stable") {
        3
    } else if same_text(state, "Dead") {
        4
    } else if same_text(state, "Empty") {
        5
    } else if same_text(state, "Assigning") {
        6
    } else if same_text(state, "Reconciling") {
        7
    } else {
        0
    }
}

/// The last member, in listing order, to which `tp` is assigned.
pub open spec fn owner_index(members: Seq<MemberView>, tp: Tp) -> Option<usize>
    decreases members.len(),
{
    if members.len() == 0 {
        None
    } else if members.last().assignments.contains(tp) {
        Some((members.len() - 1) as usize)
    } else {
        owner_index(members.drop_last(), tp)
    }
}

/// For each assigned partition, the position of the member that owns it. Of two members that
/// claim one partition the later one counts.
pub fn build_member_map(group: &GroupSnapshot) -> (map: OrderMap<TopicPartition, usize>)
    ensures
        forall|tp: Tp| #[trigger] lookup(map@, tp) == owner_index(group@.members, tp),
{
    let mut map: OrderMap<TopicPartition, usize> = OrderMap::new();
    let ghost members = group@.members;
    let mut i: usize = 0;
    assert(members.take(0) =~= Seq::<MemberView>::empty());
    while i < group.members.len()
        invariant
            i <= group.members.len(),
            members == group@.members,
            members.len() == group.members.len(),
            forall|tp: Tp| #[trigger] lookup(map@, tp) == owner_index(members.take(i as int), tp),
        decreases group.members.len() - i,
    {
        let assignments = &group.members[i].assignments;
        let ghost list = members[i as int].assignments;
        let mut j: usize = 0;
        while j < assignments.len()
            invariant
                i < group.members.len(),
                j <= assignments.len(),
                list == views(assignments@),
                members == group@.members,
                forall|tp: Tp| #[trigger]
                    lookup(map@, tp) == if list.take(j as int).contains(tp) {
                        Some(i)
                    } else {
                        owner_index(members.take(i as int), tp)
                    },
            decreases assignments.len() - j,
        {
            let ghost before = map@;
            let ghost key = assignments@[j as int]@;
            proof {
                use_type_invariant(&map);
            }
            map.insert(assignments[j].clone(), i);
            proof {
                let shorter = list.take(j as int);
                let longer = list.take(j + 1);
                assert(longer == shorter.push(key));
                assert forall|tp: Tp| #[trigger]
                    lookup(map@, tp) == if longer.contains(tp) {
                        Some(i)
                    } else {
                        owner_index(members.take(i as int), tp)
                    } by {
                    put_reads_back(before, key, i, tp);
                    assert(lookup(before, tp) == if shorter.contains(tp) {
                        Some(i)
                    } else {
                        owner_index(members.take(i as int), tp)
                    });
                    if tp == key {
                        assert(longer[j as int] == key);
                    } else if longer.contains(tp) {
                        let k = choose|k: int| 0 <= k < longer.len() && longer[k] == tp;
                        assert(shorter[k] == tp);
                    } else if shorter.contains(tp) {
                        let k = choose|k: int| 0 <= k < shorter.len() && shorter[k] == tp;
                        assert(longer[k] == tp);
                    }
                }
            }
            j += 1;
        }
        proof {
            assert(list.take(j as int) =~= list);
            let longer = members.take(i + 1);
            assert(longer.drop_last() =~= members.take(i as int));
            assert(longer.last() == members[i as int]);
        }
        i += 1;
    }
    assert(members.take(i as int) =~= members);
    map
}

/// What a lag calculation reads.
#[verifier::ext_equal]
pub struct LagInput {
    pub snapshot: SnapshotView,
    pub stamps: Stamps,
    pub now_ms: i64,
    pub compacted: Seq<Seq<char>>,
    pub time_lag_enabled: bool,
}

/// Whether an integer is an `i64`.
pub open spec fn fits(x: int) -> bool {
    i64::MIN <= x <= i64::MAX
}

/// `x`, but at least 0.
pub open spec fn at_least_zero(x: int) -> int {
    if x > 0 {
        x
    } else {
        0
    }
}

/// The low and high watermark that count for a committed offset: without watermarks the log
/// is taken to end at the offset itself.
pub open spec fn bounds_of(snapshot: SnapshotView, tp: Tp, committed: i64) -> (i64, i64) {
    match lookup(snapshot.watermarks, tp) {
        Some(pair) => pair,
        None => (0i64, committed),
    }
}

/// Time lag in milliseconds: unknown while sampling is off, 0 for a group that has caught up,
/// else the age of the next message, as far as it is known. A group that lost messages shows
/// up with 0 even where that age is unknown.
pub open spec fn time_lag(
    lag: int,
    data_loss: bool,
    stamp: Option<i64>,
    now_ms: i64,
    enabled: bool,
) -> Option<i64> {
    if !enabled {
        None
    } else if lag > 0 {
        match stamp {
            Some(t) => Some(at_least_zero(now_ms - t) as i64),
            None => if data_loss {
                Some(0)
            } else {
                None
            },
        }
    } else {
        Some(0)
    }
}

/// The lag of group `g` on the partition of its `i`-th committed offset.
pub open spec fn partition_lag(input: LagInput, g: int, i: int) -> PartitionLagView {
    let group = input.snapshot.groups[g];
    let (tp, committed) = group.offsets[i];
    let (low, high) = bounds_of(input.snapshot, tp, committed);
    let owner = owner_index(group.members, tp);
    PartitionLagView {
        cluster_name: input.snapshot.cluster_name,
        group_id: group.group_id,
        topic: tp.0,
        partition: tp.1,
        member_host: match owner {
            Some(m) => group.members[m as int].client_host,
            None => Seq::empty(),
        },
        consumer_id: match owner {
            Some(m) => group.members[m as int].member_id,
            None => Seq::empty(),
        },
        client_id: match owner {
            Some(m) => group.members[m as int].client_id,
            None => Seq::empty(),
        },
        committed_offset: committed,
        lag: at_least_zero(high - committed) as i64,
        lag_millis: time_lag(
            high - committed,
            committed < low,
            lookup(input.stamps, (group.group_id, tp)),
            input.now_ms,
            input.time_lag_enabled,
        ),
        compaction_detected: input.compacted.contains(tp.0),
        data_loss_detected: committed < low,
        messages_lost: at_least_zero(low - committed) as i64,
        retention_margin: (committed - low) as i64,
        lag_retention: if high - low > 0 {
            Some(RetentionShare { lag: (high - committed) as i64, window: (high - low) as i64 })
        } else {
            None
        },
    }
}

/// Whether the distances that `partition_lag` reports are `i64` values.
pub open spec fn partition_fits(input: LagInput, g: int, i: int) -> bool {
    let group = input.snapshot.groups[g];
    let (tp, committed) = group.offsets[i];
    let (low, high) = bounds_of(input.snapshot, tp, committed);
    let stamp = lookup(input.stamps, (group.group_id, tp));
    &&& fits(high - committed)
    &&& fits(low - committed)
    &&& fits(committed - low)
    &&& fits(high - low)
    &&& (input.time_lag_enabled && high > committed && stamp is Some) ==> fits(
        input.now_ms - stamp->0,
    )
}

/// The lags of group `g`, one for each committed offset.
pub open spec fn group_lags(input: LagInput, g: int) -> Seq<PartitionLagView> {
    Seq::new(input.snapshot.groups[g].offsets.len(), |i: int| partition_lag(input, g, i))
}

/// The lags of the first `n` groups.
pub open spec fn all_lags(input: LagInput, n: nat) -> Seq<PartitionLagView>
    decreases n,
{
    if n == 0 {
        Seq::empty()
    } else {
        all_lags(input, (n - 1) as nat) + group_lags(input, n - 1)
    }
}

/// The sum of the offset lags.
pub open spec fn sum_lag(lags: Seq<PartitionLagView>) -> int
    decreases lags.len(),
{
    if lags.len() == 0 {
        0
    } else {
        sum_lag(lags.drop_last()) + lags.last().lag
    }
}

/// The largest offset lag, at least 0.
pub open spec fn max_lag(lags: Seq<PartitionLagView>) -> i64
    decreases lags.len(),
{
    if lags.len() == 0 {
        0
    } else {
        let before = max_lag(lags.drop_last());
        if lags.last().lag > before {
            lags.last().lag
        } else {
            before
        }
    }
}

/// The largest time lag that is known; nothing while sampling is off.
pub open spec fn max_lag_millis(lags: Seq<PartitionLagView>, enabled: bool) -> Option<i64>
    decreases lags.len(),
{
    if lags.len() == 0 {
        if enabled {
            Some(0)
        } else {
            None
        }
    } else {
        let before = max_lag_millis(lags.drop_last(), enabled);
        match (lags.last().lag_millis, before) {
            (Some(t), Some(b)) => if t > b {
                Some(t)
            } else {
                Some(b)
            },
            (Some(t), None) => Some(t),
            (None, _) => before,
        }
    }
}

/// The sum of the offset lags on the partitions of one topic.
pub open spec fn topic_sum(lags: Seq<PartitionLagView>, topic: Seq<char>) -> int
    decreases lags.len(),
{
    if lags.len() == 0 {
        0
    } else if lags.last().topic == topic {
        topic_sum(lags.drop_last(), topic) + lags.last().lag
    } else {
        topic_sum(lags.drop_last(), topic)
    }
}

/// The topics of `lags`, each once, in the order in which they first occur.
pub open spec fn topics_of(lags: Seq<PartitionLagView>) -> Seq<Seq<char>>
    decreases lags.len(),
{
    if lags.len() == 0 {
        Seq::empty()
    } else {
        with_name(topics_of(lags.drop_last()), lags.last().topic)
    }
}

/// The totals of group `g`.
pub open spec fn group_lag(input: LagInput, g: int) -> GroupLagView {
    let lags = group_lags(input, g);
    GroupLagView {
        cluster_name: input.snapshot.cluster_name,
        group_id: input.snapshot.groups[g].group_id,
        max_lag: max_lag(lags),
        max_lag_millis: max_lag_millis(lags, input.time_lag_enabled),
        sum_lag: sum_lag(lags) as i64,
        state: state_code(input.snapshot.groups[g].state),
    }
}

/// The topic totals of group `g`.
pub open spec fn topic_lags(input: LagInput, g: int) -> Seq<TopicLagView> {
    let lags = group_lags(input, g);
    let topics = topics_of(lags);
    Seq::new(
        topics.len(),
        |k: int|
            TopicLagView {
                cluster_name: input.snapshot.cluster_name,
                group_id: input.snapshot.groups[g].group_id,
                topic: topics[k],
                sum_lag: topic_sum(lags, topics[k]) as i64,
            },
    )
}

/// The topic totals of the first `n` groups.
pub open spec fn all_topic_lags(input: LagInput, n: nat) -> Seq<TopicLagView>
    decreases n,
{
    if n == 0 {
        Seq::empty()
    } else {
        all_topic_lags(input, (n - 1) as nat) + topic_lags(input, n - 1)
    }
}

/// How many of `lags` are on compacted topics.
pub open spec fn compaction_count(lags: Seq<PartitionLagView>) -> nat {
    lags.filter(|p: PartitionLagView| p.compaction_detected).len()
}

/// How many of `lags` lost messages.
pub open spec fn data_loss_count(lags: Seq<PartitionLagView>) -> nat {
    lags.filter(|p: PartitionLagView| p.data_loss_detected).len()
}

/// The ends of every partition's log.
pub open spec fn partition_offsets(snapshot: SnapshotView) -> Seq<PartitionOffsetView> {
    Seq::new(
        snapshot.watermarks.len(),
        |i: int|
            PartitionOffsetView {
                cluster_name: snapshot.cluster_name,
                topic: snapshot.watermarks[i].0.0,
                partition: snapshot.watermarks[i].0.1,
                earliest_offset: snapshot.watermarks[i].1.0,
                latest_offset: snapshot.watermarks[i].1.1,
            },
    )
}

/// All that a calculation says.
pub open spec fn lag_metrics(input: LagInput, poll_time_ms: u64) -> LagView {
    let groups = input.snapshot.groups;
    let lags = all_lags(input, groups.len());
    LagView {
        cluster_name: input.snapshot.cluster_name,
        partition_metrics: lags,
        group_metrics: Seq::new(groups.len(), |g: int| group_lag(input, g)),
        topic_metrics: all_topic_lags(input, groups.len()),
        partition_offsets: partition_offsets(input.snapshot),
        poll_time_ms,
        compaction_detected_count: compaction_count(lags) as u64,
        data_loss_partition_count: data_loss_count(lags) as u64,
    }
}

/// Whether every distance and every sum of group `g` is an `i64` value.
pub open spec fn group_calculable(input: LagInput, g: int) -> bool {
    &&& forall|i: int|
        0 <= i < input.snapshot.groups[g].offsets.len() ==> #[trigger] partition_fits(input, g, i)
    &&& sum_lag(group_lags(input, g)) <= i64::MAX
}

/// Whether every distance and every sum of a calculation is an `i64` value.
pub open spec fn calculable(input: LagInput) -> bool {
    forall|g: int| 0 <= g < input.snapshot.groups.len() ==> #[trigger] group_calculable(input, g)
}

/// The lag calculation.
pub struct LagCalculator;

impl LagCalculator {
    /// The lag of group `g` on the partition of its `i`-th committed offset.
    fn partition_metric(
        snapshot: &OffsetsSnapshot,
        timestamps: &OrderMap<(String, TopicPartition), TimestampData>,
        now_ms: i64,
        compacted_topics: &NameSet,
        time_lag_enabled: bool,
        member_map: &OrderMap<TopicPartition, usize>,
        g: usize,
        i: usize,
        Ghost(input): Ghost<LagInput>,
    ) -> (metric: PartitionLagMetric)
        requires
            input == (LagInput {
                snapshot: snapshot@,
                stamps: timestamps@,
                now_ms,
                compacted: compacted_topics@,
                time_lag_enabled,
            }),
            g < snapshot.groups.len(),
            i < snapshot.groups[g as int].offsets@.len(),
            partition_fits(input, g as int, i as int),
            forall|tp: Tp| #[trigger]
                lookup(member_map@, tp) == owner_index(snapshot@.groups[g as int].members, tp),
        ensures
            metric@ == partition_lag(input, g as int, i as int),
    {
        let group = &snapshot.groups[g];
        assert(input.snapshot.groups[g as int] == group@);
        let tp = group.offsets.key_at(i);
        let committed: i64 = *group.offsets.value_at(i);
        let (low, high) = match snapshot.get_watermark(tp) {
            Some(pair) => pair,
            None => (0i64, committed),
        };
        let lag: i64 = if high > committed {
            high - committed
        } else {
            0
        };
        let data_loss_detected = committed < low;
        let messages_lost: i64 = if low > committed {
            low - committed
        } else {
            0
        };
        let window: i64 = high - low;
        let lag_retention = if window > 0 {
            Some(RetentionShare { lag: high - committed, window })
        } else {
            None
        };
        let (member_host, consumer_id, client_id) = match member_map.get(tp) {
            Some(m) => {
                let ghost members = group@.members;
                assert(members.len() == group.members.len());
                proof {
                    owner_in_range(members, tp@);
                }
                let member = &group.members[*m];
                assert(members[*m as int] == member@);
                (member.client_host.clone(), member.member_id.clone(), member.client_id.clone())
            },
            None => (String::new(), String::new(), String::new()),
        };
        let key = (group.group_id.clone(), tp.clone());
        let lag_millis = if !time_lag_enabled {
            None
        } else if lag > 0 {
            match timestamps.get(&key) {
                Some(stamp) => {
                    let age: i64 = now_ms - stamp.timestamp_ms;
                    Some(
                        if age > 0 {
                            age
                        } else {
                            0
                        },
                    )
                },
                None => if data_loss_detected {
                    Some(0)
                } else {
                    None
                },
            }
        } else {
            Some(0)
        };
        PartitionLagMetric {
            cluster_name: snapshot.cluster_name.clone(),
            group_id: group.group_id.clone(),
            topic: tp.topic.clone(),
            partition: tp.partition,
            member_host,
            consumer_id,
            client_id,
            committed_offset: committed,
            lag,
            lag_millis,
            compaction_detected: compacted_topics.contains(tp.topic.as_str()),
            data_loss_detected,
            messages_lost,
            retention_margin: committed - low,
            lag_retention,
        }
    }

    /// The lags of group `g` in snapshot order, with its totals and its topic totals.
    fn group_metric(
        snapshot: &OffsetsSnapshot,
        timestamps: &OrderMap<(String, TopicPartition), TimestampData>,
        now_ms: i64,
        compacted_topics: &NameSet,
        time_lag_enabled: bool,
        g: usize,
        partition_metrics: &mut Vec<PartitionLagMetric>,
        topic_metrics: &mut Vec<TopicLagMetric>,
        Ghost(input): Ghost<LagInput>,
    ) -> (metric: GroupLagMetric)
        requires
            input == (LagInput {
                snapshot: snapshot@,
                stamps: timestamps@,
                now_ms,
                compacted: compacted_topics@,
                time_lag_enabled,
            }),
            g < snapshot.groups.len(),
            group_calculable(input, g as int),
        ensures
            metric@ == group_lag(input, g as int),
            views(final(partition_metrics)@) == views(old(partition_metrics)@) + group_lags(
                input,
                g as int,
            ),
            views(final(topic_metrics)@) == views(old(topic_metrics)@) + topic_lags(
                input,
                g as int,
            ),
    {
        let group = &snapshot.groups[g];
        assert(input.snapshot.groups[g as int] == group@);
        let member_map = build_member_map(group);
        let mut group_max_lag: i64 = 0;
        let mut group_max_millis: Option<i64> = if time_lag_enabled {
            Some(0)
        } else {
            None
        };
        let mut group_sum_lag: i64 = 0;
        let mut topic_sums: OrderMap<String, i64> = OrderMap::new();
        let ghost lags = group_lags(input, g as int);
        let ghost partitions_before = views(partition_metrics@);
        assert(lags.take(0) =~= Seq::<PartitionLagView>::empty());
        assert(topic_sums@ =~= sums_by_topic(lags.take(0)));
        let mut i: usize = 0;
        while i < group.offsets.len()
            invariant
                group == snapshot.groups[g as int],
                input.snapshot.groups[g as int] == group@,
                input == (LagInput {
                    snapshot: snapshot@,
                    stamps: timestamps@,
                    now_ms,
                    compacted: compacted_topics@,
                    time_lag_enabled,
                }),
                g < snapshot.groups.len(),
                group_calculable(input, g as int),
                lags == group_lags(input, g as int),
                forall|tp: Tp| #[trigger]
                    lookup(member_map@, tp) == owner_index(group@.members, tp),
                i <= group.offsets@.len(),
                views(partition_metrics@) == partitions_before + lags.take(i as int),
                group_max_lag == max_lag(lags.take(i as int)),
                group_max_millis == max_lag_millis(lags.take(i as int), time_lag_enabled),
                group_sum_lag == sum_lag(lags.take(i as int)),
                topic_sums@ == sums_by_topic(lags.take(i as int)),
            decreases group.offsets@.len() - i,
        {
            proof {
                assert(partition_fits(input, g as int, i as int));
                lags_not_negative(input, g as int);
                sum_lag_prefix(lags, i as int);
                sum_lag_prefix(lags, i + 1);
            }
            let ghost before = lags.take(i as int);
            let ghost after = lags.take(i + 1);
            assert(after == before.push(lags[i as int]));
            assert(after.drop_last() =~= before);
            let metric = Self::partition_metric(
                snapshot,
                timestamps,
                now_ms,
                compacted_topics,
                time_lag_enabled,
                &member_map,
                g,
                i,
                Ghost(input),
            );
            assert(metric@ == lags[i as int]);
            let lag: i64 = metric.lag;
            if lag > group_max_lag {
                group_max_lag = lag;
            }
            match (metric.lag_millis, group_max_millis) {
                (Some(millis), Some(largest)) => {
                    if millis > largest {
                        group_max_millis = Some(millis);
                    }
                },
                (Some(millis), None) => {
                    group_max_millis = Some(millis);
                },
                (None, _) => {},
            }
            group_sum_lag = group_sum_lag + lag;
            proof {
                topic_sum_bounds(before, metric.topic@);
                topics_are_distinct(before);
            }
            match topic_sums.position(&metric.topic) {
                Some(p) => {
                    let sum: i64 = *topic_sums.value_at(p) + lag;
                    topic_sums.replace_at(p, sum);
                    proof {
                        let topics = topics_of(before);
                        assert(topics[p as int] == metric.topic@);
                        assert(topics.contains(metric.topic@));
                        assert(topic_sums@ =~= sums_by_topic(after)) by {
                            assert forall|k: int| 0 <= k < topics.len() implies #[trigger] topic_sums@[k]
                                == sums_by_topic(after)[k] by {
                                if k != p {
                                    assert(topics[k] != topics[p as int]);
                                }
                            }
                        }
                    }
                },
                None => {
                    topic_sums.insert(metric.topic.clone(), lag);
                    proof {
                        let topics = topics_of(before);
                        assert forall|k: int| 0 <= k < topics.len() implies topics[k]
                            != metric.topic@ by {
                            assert(sums_by_topic(before)[k].0 == topics[k]);
                        }
                        topic_sum_absent(before, metric.topic@);
                        assert(topic_sums@ =~= sums_by_topic(after));
                    }
                },
            }
            partition_metrics.push(metric);
            assert(views(partition_metrics@) =~= partitions_before + after);
            i += 1;
        }
        assert(lags.take(i as int) =~= lags);
        let ghost topics_before = views(topic_metrics@);
        let ghost totals = topic_lags(input, g as int);
        let mut t: usize = 0;
        while t < topic_sums.len()
            invariant
                group == snapshot.groups[g as int],
                input.snapshot.groups[g as int] == group@,
                input.snapshot.cluster_name == snapshot.cluster_name@,
                topic_sums@ == sums_by_topic(group_lags(input, g as int)),
                totals == topic_lags(input, g as int),
                t <= totals.len(),
                views(topic_metrics@) == topics_before + totals.take(t as int),
            decreases totals.len() - t,
        {
            let metric = TopicLagMetric {
                cluster_name: snapshot.cluster_name.clone(),
                group_id: group.group_id.clone(),
                topic: topic_sums.key_at(t).clone(),
                sum_lag: *topic_sums.value_at(t),
            };
            assert(metric@ == totals[t as int]);
            topic_metrics.push(metric);
            assert(views(topic_metrics@) =~= topics_before + totals.take(t + 1));
            t += 1;
        }
        assert(totals.take(t as int) =~= totals);
        GroupLagMetric {
            cluster_name: snapshot.cluster_name.clone(),
            group_id: group.group_id.clone(),
            max_lag: group_max_lag,
            max_lag_millis: group_max_millis,
            sum_lag: group_sum_lag,
            state: encode_group_state(group.state.as_str()),
        }
    }

    /// Whether every distance and every sum that a calculation needs is an `i64` value, as it
    /// is for the offsets and timestamps of real logs.
    pub fn can_calculate(
        snapshot: &OffsetsSnapshot,
        timestamps: &OrderMap<(String, TopicPartition), TimestampData>,
        now_ms: i64,
        compacted_topics: &NameSet,
        time_lag_enabled: bool,
    ) -> (possible: bool)
        ensures
            possible == calculable(
                LagInput {
                    snapshot: snapshot@,
                    stamps: timestamps@,
                    now_ms,
                    compacted: compacted_topics@,
                    time_lag_enabled,
                },
            ),
    {
        let ghost input = LagInput {
            snapshot: snapshot@,
            stamps: timestamps@,
            now_ms,
            compacted: compacted_topics@,
            time_lag_enabled,
        };
        let mut g: usize = 0;
        while g < snapshot.groups.len()
            invariant
                input == (LagInput {
                    snapshot: snapshot@,
                    stamps: timestamps@,
                    now_ms,
                    compacted: compacted_topics@,
                    time_lag_enabled,
                }),
                g <= snapshot.groups.len(),
                forall|k: int| 0 <= k < g ==> #[trigger] group_calculable(input, k),
            decreases snapshot.groups.len() - g,
        {
            if !Self::can_calculate_group(
                snapshot,
                timestamps,
                now_ms,
                time_lag_enabled,
                g,
                Ghost(input),
            ) {
                assert(!group_calculable(input, g as int));
                return false;
            }
            g += 1;
        }
        true
    }

    /// Whether every distance and every sum of group `g` is an `i64` value.
    fn can_calculate_group(
        snapshot: &OffsetsSnapshot,
        timestamps: &OrderMap<(String, TopicPartition), TimestampData>,
        now_ms: i64,
        time_lag_enabled: bool,
        g: usize,
        Ghost(input): Ghost<LagInput>,
    ) -> (possible: bool)
        requires
            g < snapshot.groups.len(),
            input.snapshot == snapshot@,
            input.stamps == timestamps@,
            input.now_ms == now_ms,
            input.time_lag_enabled == time_lag_enabled,
        ensures
            possible == group_calculable(input, g as int),
    {
        let group = &snapshot.groups[g];
        let ghost lags = group_lags(input, g as int);
        assert(input.snapshot.groups[g as int] == group@);
        assert(lags.take(0) =~= Seq::<PartitionLagView>::empty());
        let mut sum: i128 = 0;
        let mut i: usize = 0;
        while i < group.offsets.len()
            invariant
                g < snapshot.groups.len(),
                group == snapshot.groups[g as int],
                input.snapshot == snapshot@,
                input.stamps == timestamps@,
                input.now_ms == now_ms,
                input.time_lag_enabled == time_lag_enabled,
                input.snapshot.groups[g as int] == group@,
                lags == group_lags(input, g as int),
                i <= group.offsets@.len(),
                forall|k: int| 0 <= k < i ==> #[trigger] partition_fits(input, g as int, k),
                sum == sum_lag(lags.take(i as int)),
                0 <= sum <= i64::MAX * i,
            decreases group.offsets@.len() - i,
        {
            let tp = group.offsets.key_at(i);
            let committed: i64 = *group.offsets.value_at(i);
            let (low, high) = match snapshot.get_watermark(tp) {
                Some(pair) => pair,
                None => (0i64, committed),
            };
            let lag: i128 = high as i128 - committed as i128;
            let lost: i128 = low as i128 - committed as i128;
            let window: i128 = high as i128 - low as i128;
            let largest: i128 = i64::MAX as i128;
            let smallest: i128 = i64::MIN as i128;
            if lag > largest || lag < smallest || lost > largest || lost < -largest || window
                > largest || window < smallest {
                assert(!partition_fits(input, g as int, i as int));
                return false;
            }
            if time_lag_enabled && lag > 0 {
                let key = (group.group_id.clone(), tp.clone());
                if let Some(stamp) = timestamps.get(&key) {
                    let age: i128 = now_ms as i128 - stamp.timestamp_ms as i128;
                    if age > largest || age < smallest {
                        assert(!partition_fits(input, g as int, i as int));
                        return false;
                    }
                }
            }
            assert(partition_fits(input, g as int, i as int));
            assert(lags.take(i + 1).drop_last() =~= lags.take(i as int));
            assert(i64::MAX * i + i64::MAX == i64::MAX * (i + 1)) by (nonlinear_arith);
            assert(i64::MAX * (i + 1) < 0x7fff_ffff_ffff_ffff_ffff_ffff_ffff_ffff) by (nonlinear_arith)
                requires
                    i < usize::MAX,
            ;
            if lag > 0 {
                sum = sum + lag;
            }
            i += 1;
        }
        assert(lags.take(i as int) =~= lags);
        sum <= i64::MAX as i128
    }

    /// The lag of every group on every partition it has committed to, the totals per group and
    /// per topic, and the ends of every partition's log.
    pub fn calculate(
        snapshot: &OffsetsSnapshot,
        timestamps: &OrderMap<(String, TopicPartition), TimestampData>,
        now_ms: i64,
        poll_time_ms: u64,
        compacted_topics: &NameSet,
        time_lag_enabled: bool,
    ) -> (metrics: LagMetrics)
        requires
            calculable(
                LagInput {
                    snapshot: snapshot@,
                    stamps: timestamps@,
                    now_ms,
                    compacted: compacted_topics@,
                    time_lag_enabled,
                },
            ),
        ensures
            metrics@ == lag_metrics(
                LagInput {
                    snapshot: snapshot@,
                    stamps: timestamps@,
                    now_ms,
                    compacted: compacted_topics@,
                    time_lag_enabled,
                },
                poll_time_ms,
            ),
    {
        let ghost input = LagInput {
            snapshot: snapshot@,
            stamps: timestamps@,
            now_ms,
            compacted: compacted_topics@,
            time_lag_enabled,
        };
        let mut partition_metrics: Vec<PartitionLagMetric> = Vec::new();
        let mut group_metrics: Vec<GroupLagMetric> = Vec::new();
        let mut topic_metrics: Vec<TopicLagMetric> = Vec::new();
        let mut g: usize = 0;
        while g < snapshot.groups.len()
            invariant
                input == (LagInput {
                    snapshot: snapshot@,
                    stamps: timestamps@,
                    now_ms,
                    compacted: compacted_topics@,
                    time_lag_enabled,
                }),
                calculable(input),
                g <= snapshot.groups.len(),
                snapshot@.groups.len() == snapshot.groups.len(),
                views(partition_metrics@) =~= all_lags(input, g as nat),
                views(topic_metrics@) =~= all_topic_lags(input, g as nat),
                views(group_metrics@) =~= Seq::new(g as nat, |k: int| group_lag(input, k)),
            decreases snapshot.groups.len() - g,
        {
            assert(group_calculable(input, g as int));
            let metric = Self::group_metric(
                snapshot,
                timestamps,
                now_ms,
                compacted_topics,
                time_lag_enabled,
                g,
                &mut partition_metrics,
                &mut topic_metrics,
                Ghost(input),
            );
            group_metrics.push(metric);
            g += 1;
        }
        let partition_offsets = Self::partition_offsets(snapshot);
        let (compacted, lossy) = Self::detections(&partition_metrics);
        LagMetrics {
            cluster_name: snapshot.cluster_name.clone(),
            partition_metrics,
            group_metrics,
            topic_metrics,
            partition_offsets,
            poll_time_ms,
            compaction_detected_count: compacted,
            data_loss_partition_count: lossy,
        }
    }

    /// The ends of every partition's log.
    fn partition_offsets(snapshot: &OffsetsSnapshot) -> (offsets: Vec<PartitionOffsetMetric>)
        ensures
            views(offsets@) == partition_offsets(snapshot@),
    {
        let mut offsets: Vec<PartitionOffsetMetric> = Vec::new();
        let mut i: usize = 0;
        while i < snapshot.watermarks.len()
            invariant
                i <= snapshot.watermarks@.len(),
                views(offsets@) =~= partition_offsets(snapshot@).take(i as int),
            decreases snapshot.watermarks@.len() - i,
        {
            let tp = snapshot.watermarks.key_at(i);
            let (low, high) = *snapshot.watermarks.value_at(i);
            offsets.push(
                PartitionOffsetMetric {
                    cluster_name: snapshot.cluster_name.clone(),
                    topic: tp.topic.clone(),
                    partition: tp.partition,
                    earliest_offset: low,
                    latest_offset: high,
                },
            );
            i += 1;
        }
        assert(partition_offsets(snapshot@).take(i as int) =~= partition_offsets(snapshot@));
        offsets
    }

    /// How many partitions are on compacted topics, and how many lost messages.
    fn detections(metrics: &Vec<PartitionLagMetric>) -> (counts: (u64, u64))
        ensures
            counts.0 == compaction_count(views(metrics@)),
            counts.1 == data_loss_count(views(metrics@)),
    {
        let ghost lags = views(metrics@);
        let mut compacted: u64 = 0;
        let mut lossy: u64 = 0;
        let mut i: usize = 0;
        proof {
            assert(lags.take(0) =~= Seq::<PartitionLagView>::empty());
            reveal(Seq::filter);
        }
        while i < metrics.len()
            invariant
                lags == views(metrics@),
                i <= metrics.len(),
                compacted <= i,
                lossy <= i,
                compacted == compaction_count(lags.take(i as int)),
                lossy == data_loss_count(lags.take(i as int)),
            decreases metrics.len() - i,
        {
            proof {
                assert(lags.take(i + 1).drop_last() =~= lags.take(i as int));
                assert(lags[i as int] == metrics@[i as int]@);
                reveal(Seq::filter);
            }
            if metrics[i].compaction_detected {
                compacted = compacted + 1;
            }
            if metrics[i].data_loss_detected {
                lossy = lossy + 1;
            }
            i += 1;
        }
        assert(lags.take(i as int) =~= lags);
        (compacted, lossy)
    }
}

/// The topics of `lags` with their sums.
spec fn sums_by_topic(lags: Seq<PartitionLagView>) -> Seq<(Seq<char>, i64)> {
    let topics = topics_of(lags);
    Seq::new(topics.len(), |k: int| (topics[k], topic_sum(lags, topics[k]) as i64))
}

/// Whether no lag is negative.
pub open spec fn not_negative(lags: Seq<PartitionLagView>) -> bool {
    forall|i: int| 0 <= i < lags.len() ==> 0 <= #[trigger] lags[i].lag
}

/// Lags are never negative where the distances fit.
proof fn lags_not_negative(input: LagInput, g: int)
    requires
        forall|i: int|
            0 <= i < input.snapshot.groups[g].offsets.len() ==> #[trigger] partition_fits(
                input,
                g,
                i,
            ),
    ensures
        not_negative(group_lags(input, g)),
{
    let lags = group_lags(input, g);
    assert forall|i: int| 0 <= i < lags.len() implies 0 <= #[trigger] lags[i].lag by {
        assert(partition_fits(input, g, i));
    }
}

/// The sum over a prefix is at most the sum over all.
proof fn sum_lag_prefix(lags: Seq<PartitionLagView>, k: int)
    requires
        not_negative(lags),
        0 <= k <= lags.len(),
    ensures
        0 <= sum_lag(lags.take(k)) <= sum_lag(lags),
    decreases lags.len(),
{
    if k == lags.len() {
        assert(lags.take(k) =~= lags);
        if k > 0 {
            let shorter = lags.drop_last();
            sum_lag_prefix(shorter, k - 1);
            assert(lags[k - 1].lag >= 0);
            assert forall|i: int| 0 <= i < shorter.len() implies 0 <= #[trigger] shorter[i].lag by {
                assert(lags[i].lag >= 0);
            }
            assert(shorter.take(k - 1) =~= shorter);
        }
    } else {
        let shorter = lags.drop_last();
        assert forall|i: int| 0 <= i < shorter.len() implies 0 <= #[trigger] shorter[i].lag by {
            assert(lags[i].lag >= 0);
        }
        sum_lag_prefix(shorter, k);
        assert(shorter.take(k) =~= lags.take(k));
        assert(lags[lags.len() - 1].lag >= 0);
    }
}

/// A topic's sum is part of the whole sum.
pub proof fn topic_sum_bounds(lags: Seq<PartitionLagView>, topic: Seq<char>)
    requires
        not_negative(lags),
    ensures
        0 <= topic_sum(lags, topic) <= sum_lag(lags),
    decreases lags.len(),
{
    if lags.len() > 0 {
        let shorter = lags.drop_last();
        assert forall|i: int| 0 <= i < shorter.len() implies 0 <= #[trigger] shorter[i].lag by {
            assert(lags[i].lag >= 0);
        }
        topic_sum_bounds(shorter, topic);
        assert(lags[lags.len() - 1].lag >= 0);
    }
}

/// No topic is listed twice.
pub proof fn topics_are_distinct(lags: Seq<PartitionLagView>)
    ensures
        topics_of(lags).no_duplicates(),
    decreases lags.len(),
{
    if lags.len() > 0 {
        topics_are_distinct(lags.drop_last());
    }
}

/// A topic that is not listed has no lag.
pub proof fn topic_sum_absent(lags: Seq<PartitionLagView>, topic: Seq<char>)
    requires
        !topics_of(lags).contains(topic),
    ensures
        topic_sum(lags, topic) == 0,
    decreases lags.len(),
{
    if lags.len() > 0 {
        let shorter = topics_of(lags.drop_last());
        let last = lags.last().topic;
        if shorter.contains(topic) {
            let k = choose|k: int| 0 <= k < shorter.len() && shorter[k] == topic;
            assert(topics_of(lags)[k] == topic);
        }
        if last == topic && !shorter.contains(last) {
            assert(topics_of(lags)[shorter.len() as int] == topic);
        }
        topic_sum_absent(lags.drop_last(), topic);
    }
}

/// An owner is one of the members.
proof fn owner_in_range(members: Seq<MemberView>, tp: Tp)
    requires
        members.len() <= usize::MAX,
    ensures
        owner_index(members, tp) matches Some(m) ==> m < members.len(),
    decreases members.len(),
{
    if members.len() > 0 {
        owner_in_range(members.drop_last(), tp);
    }
}

} // verus!

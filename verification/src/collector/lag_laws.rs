//! What holds of every lag calculation.

use crate::collector::lag_calculator::{
    all_lags, all_topic_lags, bounds_of, calculable, group_calculable, group_lag, group_lags,
    lag_metrics, max_lag, max_lag_millis, not_negative, owner_index, partition_fits, partition_lag,
    sum_lag, topic_lags, topic_sum, topic_sum_absent, topic_sum_bounds, topics_are_distinct,
    topics_of, LagInput, PartitionLagView,
};
use crate::collector::offset_collector::{MemberView, Tp};
use crate::keymap::{has_key, lookup_finds, lookup_is_some, unique_keys};
use vstd::prelude::*;

verus! {

/// A lag is never negative. A group that has read to the end of the log, or past it, has lag 0
/// and, while time lag is measured at all, time lag 0.
pub proof fn caught_up_means_no_lag(input: LagInput, g: int, i: int)
    requires
        partition_fits(input, g, i),
    ensures
        0 <= partition_lag(input, g, i).lag,
        ({
            let (tp, committed) = input.snapshot.groups[g].offsets[i];
            let (low, high) = bounds_of(input.snapshot, tp, committed);
            &&& partition_lag(input, g, i).lag == 0 <==> committed >= high
            &&& committed >= high && input.time_lag_enabled ==> partition_lag(
                input,
                g,
                i,
            ).lag_millis == Some(0i64)
        }),
{
}

/// A partition shows data loss exactly where messages were lost, which is exactly where the
/// committed offset lies before the deletion boundary; the two distances are then opposite.
pub proof fn data_loss_is_lost_messages(input: LagInput, g: int, i: int)
    requires
        partition_fits(input, g, i),
    ensures
        ({
            let p = partition_lag(input, g, i);
            &&& p.messages_lost >= 0
            &&& p.data_loss_detected <==> p.messages_lost > 0
            &&& p.data_loss_detected <==> p.retention_margin < 0
            &&& p.data_loss_detected ==> p.messages_lost == -p.retention_margin
        }),
{
}

/// On a log that is not empty, lag takes up nothing of the retention window when the group has
/// caught up to its end, all of it at the deletion boundary, and more than all of it exactly
/// when messages were lost.
pub proof fn retention_share_scale(input: LagInput, g: int, i: int)
    requires
        partition_fits(input, g, i),
    ensures
        ({
            let (tp, committed) = input.snapshot.groups[g].offsets[i];
            let (low, high) = bounds_of(input.snapshot, tp, committed);
            let p = partition_lag(input, g, i);
            &&& p.lag_retention is Some <==> high > low
            &&& p.lag_retention matches Some(share) ==> {
                &&& share.window > 0
                &&& share.lag == 0 <==> committed == high
                &&& share.lag == share.window <==> committed == low
                &&& share.lag > share.window <==> p.data_loss_detected
            }
        }),
{
}

/// While time lag is not measured, no partition and no group shows one.
pub proof fn no_time_lag_while_disabled(input: LagInput, g: int)
    requires
        !input.time_lag_enabled,
    ensures
        forall|i: int|
            0 <= i < group_lags(input, g).len() ==> (#[trigger] group_lags(input, g)[i]).lag_millis
                is None,
        group_lag(input, g).max_lag_millis is None,
{
    no_millis(group_lags(input, g));
}

proof fn no_millis(lags: Seq<PartitionLagView>)
    requires
        forall|i: int| 0 <= i < lags.len() ==> (#[trigger] lags[i]).lag_millis is None,
    ensures
        max_lag_millis(lags, false) is None,
    decreases lags.len(),
{
    if lags.len() > 0 {
        assert(lags[lags.len() - 1].lag_millis is None);
        assert forall|i: int| 0 <= i < lags.drop_last().len() implies (
        #[trigger] lags.drop_last()[i]).lag_millis is None by {
            assert(lags[i].lag_millis is None);
        }
        no_millis(lags.drop_last());
    }
}

/// A group's largest lag bounds every lag of the group and is one of them, or 0 where the group
/// has none.
pub proof fn max_lag_is_largest(lags: Seq<PartitionLagView>)
    requires
        not_negative(lags),
    ensures
        forall|i: int| 0 <= i < lags.len() ==> (#[trigger] lags[i]).lag <= max_lag(lags),
        lags.len() == 0 ==> max_lag(lags) == 0,
        lags.len() > 0 ==> exists|i: int|
            0 <= i < lags.len() && (#[trigger] lags[i]).lag == max_lag(lags),
    decreases lags.len(),
{
    if lags.len() > 0 {
        let n = lags.len() - 1;
        let shorter = lags.drop_last();
        assert forall|i: int| 0 <= i < shorter.len() implies 0 <= #[trigger] shorter[i].lag by {
            assert(lags[i].lag >= 0);
        }
        max_lag_is_largest(shorter);
        assert forall|i: int| 0 <= i < lags.len() implies (#[trigger] lags[i]).lag <= max_lag(
            lags,
        ) by {
            if i < n {
                assert(shorter[i] == lags[i]);
            }
        }
        assert(lags[n].lag >= 0);
        if lags[n].lag < max_lag(lags) {
            let k = choose|k: int|
                0 <= k < shorter.len() && (#[trigger] shorter[k]).lag == max_lag(shorter);
            assert(lags[k].lag == max_lag(lags));
        }
    }
}

/// A group's largest time lag bounds every time lag of the group that is known, whether or not
/// the partition with the largest offset lag has one; it is one of them, or 0.
pub proof fn max_lag_millis_is_largest(lags: Seq<PartitionLagView>, enabled: bool)
    ensures
        forall|i: int|
            0 <= i < lags.len() ==> ((#[trigger] lags[i]).lag_millis matches Some(t)
                ==> max_lag_millis(lags, enabled) is Some && t <= max_lag_millis(lags, enabled)->0),
        max_lag_millis(lags, enabled) matches Some(m) ==> (enabled && m == 0) || exists|i: int|
            0 <= i < lags.len() && (#[trigger] lags[i]).lag_millis == Some(m),
    decreases lags.len(),
{
    if lags.len() > 0 {
        let n = lags.len() - 1;
        let shorter = lags.drop_last();
        max_lag_millis_is_largest(shorter, enabled);
        assert forall|i: int| 0 <= i < lags.len() implies ((
        #[trigger] lags[i]).lag_millis matches Some(t) ==> max_lag_millis(lags, enabled) is Some
            && t <= max_lag_millis(lags, enabled)->0) by {
            if i < n {
                assert(shorter[i] == lags[i]);
            }
        }
        if let Some(m) = max_lag_millis(lags, enabled) {
            if lags[n].lag_millis != Some(m) && !(enabled && m == 0) {
                assert(max_lag_millis(shorter, enabled) == Some(m));
                let k = choose|k: int|
                    0 <= k < shorter.len() && (#[trigger] shorter[k]).lag_millis == Some(m);
                assert(lags[k].lag_millis == Some(m));
            }
        }
    }
}

/// The sum of `topic_sum` over a list of topics.
pub open spec fn sum_over(lags: Seq<PartitionLagView>, topics: Seq<Seq<char>>) -> int
    decreases topics.len(),
{
    if topics.len() == 0 {
        0
    } else {
        sum_over(lags, topics.drop_last()) + topic_sum(lags, topics.last())
    }
}

/// The topic totals of a group add up to the group's total.
pub proof fn topic_sums_add_up(lags: Seq<PartitionLagView>)
    ensures
        sum_over(lags, topics_of(lags)) == sum_lag(lags),
    decreases lags.len(),
{
    if lags.len() > 0 {
        let shorter = lags.drop_last();
        let last = lags.last();
        let topics = topics_of(shorter);
        topic_sums_add_up(shorter);
        topics_are_distinct(shorter);
        if topics.contains(last.topic) {
            let p = choose|p: int| 0 <= p < topics.len() && topics[p] == last.topic;
            one_topic_grows(lags, topics, p);
        } else {
            assert(topics_of(lags).drop_last() =~= topics);
            other_topics_stay(lags, topics);
            topic_sum_absent(shorter, last.topic);
        }
    }
}

proof fn other_topics_stay(lags: Seq<PartitionLagView>, topics: Seq<Seq<char>>)
    requires
        lags.len() > 0,
        !topics.contains(lags.last().topic),
    ensures
        sum_over(lags, topics) == sum_over(lags.drop_last(), topics),
    decreases topics.len(),
{
    if topics.len() > 0 {
        let t = topics.drop_last();
        assert(topics[topics.len() - 1] != lags.last().topic);
        if t.contains(lags.last().topic) {
            let k = choose|k: int| 0 <= k < t.len() && t[k] == lags.last().topic;
            assert(topics[k] == lags.last().topic);
        }
        other_topics_stay(lags, t);
    }
}

proof fn one_topic_grows(lags: Seq<PartitionLagView>, topics: Seq<Seq<char>>, p: int)
    requires
        lags.len() > 0,
        topics.no_duplicates(),
        0 <= p < topics.len(),
        topics[p] == lags.last().topic,
    ensures
        sum_over(lags, topics) == sum_over(lags.drop_last(), topics) + lags.last().lag,
    decreases topics.len(),
{
    let t = topics.drop_last();
    if p == topics.len() - 1 {
        if t.contains(lags.last().topic) {
            let k = choose|k: int| 0 <= k < t.len() && t[k] == lags.last().topic;
            assert(topics[k] == topics[p]);
        }
        other_topics_stay(lags, t);
    } else {
        assert(topics[topics.len() - 1] != topics[p]);
        one_topic_grows(lags, t, p);
    }
}

/// The number of committed offsets of the first `n` groups.
pub open spec fn offsets_count(input: LagInput, n: nat) -> nat
    decreases n,
{
    if n == 0 {
        0
    } else {
        offsets_count(input, (n - 1) as nat) + input.snapshot.groups[n - 1].offsets.len()
    }
}

/// Every committed offset of every group gets exactly one partition metric.
pub proof fn one_metric_per_offset(input: LagInput, n: nat)
    ensures
        all_lags(input, n).len() == offsets_count(input, n),
    decreases n,
{
    if n > 0 {
        one_metric_per_offset(input, (n - 1) as nat);
    }
}

/// Whether a calculation's input is as snapshots are: no partition has two pairs of watermarks,
/// and no group two timestamps for one partition.
pub open spec fn unambiguous(input: LagInput) -> bool {
    &&& unique_keys(input.snapshot.watermarks)
    &&& unique_keys(input.stamps)
}

/// Where the metric of the `i`-th committed offset of group `g` stands.
pub open spec fn metric_at(input: LagInput, poll_time_ms: u64, g: int, i: int) -> PartitionLagView {
    lag_metrics(input, poll_time_ms).partition_metrics[offsets_count(input, g as nat) + i]
}

/// Whether there is an `i`-th committed offset of group `g`.
pub open spec fn is_offset(input: LagInput, g: int, i: int) -> bool {
    &&& 0 <= g < input.snapshot.groups.len()
    &&& 0 <= i < input.snapshot.groups[g].offsets.len()
}

proof fn lags_of_a_group_stand_together(input: LagInput, n: nat, g: int)
    requires
        0 <= g < n,
    ensures
        ({
            let start = offsets_count(input, g as nat) as int;
            let count = input.snapshot.groups[g].offsets.len() as int;
            &&& start + count <= all_lags(input, n).len()
            &&& all_lags(input, n).subrange(start, start + count) == group_lags(input, g)
        }),
    decreases n,
{
    one_metric_per_offset(input, n);
    one_metric_per_offset(input, (n - 1) as nat);
    let start = offsets_count(input, g as nat) as int;
    let count = input.snapshot.groups[g].offsets.len() as int;
    let before = all_lags(input, (n - 1) as nat);
    if g < n - 1 {
        lags_of_a_group_stand_together(input, (n - 1) as nat, g);
        assert(all_lags(input, n).subrange(start, start + count) =~= before.subrange(
            start,
            start + count,
        ));
    } else {
        assert(all_lags(input, n).subrange(start, start + count) =~= group_lags(input, g));
    }
}

proof fn metric_is_partition_lag(input: LagInput, poll_time_ms: u64, g: int, i: int)
    requires
        is_offset(input, g, i),
    ensures
        offsets_count(input, g as nat) + i < lag_metrics(
            input,
            poll_time_ms,
        ).partition_metrics.len(),
        metric_at(input, poll_time_ms, g, i) == partition_lag(input, g, i),
{
    let n = input.snapshot.groups.len();
    lags_of_a_group_stand_together(input, n, g);
    let start = offsets_count(input, g as nat) as int;
    let count = input.snapshot.groups[g].offsets.len() as int;
    assert(all_lags(input, n).subrange(start, start + count)[i] == all_lags(input, n)[start + i]);
}

/// Every committed offset of every group is reported once, in order, under its group, topic and
/// partition; nothing else is reported.
pub proof fn every_offset_is_reported(input: LagInput, poll_time_ms: u64, g: int, i: int)
    requires
        is_offset(input, g, i),
    ensures
        ({
            let metrics = lag_metrics(input, poll_time_ms);
            let m = metric_at(input, poll_time_ms, g, i);
            let group = input.snapshot.groups[g];
            &&& offsets_count(input, g as nat) + i < metrics.partition_metrics.len()
            &&& metrics.partition_metrics.len() == offsets_count(input, input.snapshot.groups.len())
            &&& metrics.cluster_name == input.snapshot.cluster_name
            &&& metrics.poll_time_ms == poll_time_ms
            &&& m.cluster_name == input.snapshot.cluster_name
            &&& m.group_id == group.group_id
            &&& (m.topic, m.partition) == group.offsets[i].0
            &&& m.committed_offset == group.offsets[i].1
        }),
{
    metric_is_partition_lag(input, poll_time_ms, g, i);
    one_metric_per_offset(input, input.snapshot.groups.len());
}

/// The lag is the distance from the committed offset to the end of the log, or 0 for a group
/// that has read that far; where the log starts does not matter. How much was lost, and how far
/// deletion is, depend on the start of the log alone. `w` is where the partition's watermarks
/// stand.
pub proof fn lag_is_the_distance_to_the_end(
    input: LagInput,
    poll_time_ms: u64,
    g: int,
    i: int,
    w: int,
)
    requires
        unambiguous(input),
        calculable(input),
        is_offset(input, g, i),
        0 <= w < input.snapshot.watermarks.len(),
        input.snapshot.watermarks[w].0 == input.snapshot.groups[g].offsets[i].0,
    ensures
        ({
            let m = metric_at(input, poll_time_ms, g, i);
            let committed = input.snapshot.groups[g].offsets[i].1;
            let (low, high) = input.snapshot.watermarks[w].1;
            &&& high > committed ==> m.lag == high - committed
            &&& high <= committed ==> m.lag == 0
            &&& m.data_loss_detected <==> committed < low
            &&& committed < low ==> m.messages_lost == low - committed
            &&& committed >= low ==> m.messages_lost == 0
            &&& m.retention_margin == committed - low
            &&& high <= low ==> m.lag_retention is None
            &&& high > low ==> (m.lag_retention matches Some(share) && share.lag == high - committed
                && share.window == high - low)
        }),
{
    metric_is_partition_lag(input, poll_time_ms, g, i);
    assert(group_calculable(input, g));
    assert(partition_fits(input, g, i));
    lookup_finds(input.snapshot.watermarks, w);
}

/// A group on a partition without watermarks counts as caught up: the log is taken to start at 0
/// and to end at the committed offset.
pub proof fn without_watermarks_there_is_no_lag(
    input: LagInput,
    poll_time_ms: u64,
    g: int,
    i: int,
)
    requires
        calculable(input),
        is_offset(input, g, i),
        !has_key(input.snapshot.watermarks, input.snapshot.groups[g].offsets[i].0),
    ensures
        ({
            let m = metric_at(input, poll_time_ms, g, i);
            let committed = input.snapshot.groups[g].offsets[i].1;
            &&& m.lag == 0
            &&& m.data_loss_detected <==> committed < 0
            &&& committed >= 0 ==> m.messages_lost == 0
            &&& committed < 0 ==> m.messages_lost == -committed
            &&& m.retention_margin == committed
            &&& committed <= 0 ==> m.lag_retention is None
            &&& committed > 0 ==> (m.lag_retention matches Some(share) && share.lag == 0
                && share.window == committed)
            &&& m.lag_millis == if input.time_lag_enabled {
                Some(0i64)
            } else {
                None
            }
        }),
{
    metric_is_partition_lag(input, poll_time_ms, g, i);
    assert(group_calculable(input, g));
    assert(partition_fits(input, g, i));
    lookup_is_some(input.snapshot.watermarks, input.snapshot.groups[g].offsets[i].0);
}

/// The time lag of a lagging group is the age of the message that its own timestamp on the
/// partition gives, and not below 0. `s` is where that timestamp stands.
pub proof fn time_lag_is_the_age_of_the_next_message(
    input: LagInput,
    poll_time_ms: u64,
    g: int,
    i: int,
    s: int,
)
    requires
        unambiguous(input),
        calculable(input),
        is_offset(input, g, i),
        input.time_lag_enabled,
        0 <= s < input.stamps.len(),
        input.stamps[s].0 == (
            input.snapshot.groups[g].group_id,
            input.snapshot.groups[g].offsets[i].0,
        ),
        metric_at(input, poll_time_ms, g, i).lag > 0,
    ensures
        ({
            let m = metric_at(input, poll_time_ms, g, i);
            let t = input.stamps[s].1;
            &&& input.now_ms >= t ==> (m.lag_millis matches Some(millis) && millis == input.now_ms
                - t)
            &&& input.now_ms < t ==> m.lag_millis == Some(0i64)
        }),
{
    metric_is_partition_lag(input, poll_time_ms, g, i);
    assert(group_calculable(input, g));
    assert(partition_fits(input, g, i));
    lookup_finds(input.stamps, s);
}

/// A lagging group without a timestamp has no time lag, unless it lost messages: then it is 0. A
/// group that does not lag has 0. While time lag is not measured there is none.
pub proof fn time_lag_without_a_timestamp(input: LagInput, poll_time_ms: u64, g: int, i: int)
    requires
        calculable(input),
        is_offset(input, g, i),
    ensures
        ({
            let m = metric_at(input, poll_time_ms, g, i);
            let group = input.snapshot.groups[g];
            let timed = has_key(input.stamps, (group.group_id, group.offsets[i].0));
            &&& !input.time_lag_enabled ==> m.lag_millis is None
            &&& input.time_lag_enabled && m.lag == 0 ==> m.lag_millis == Some(0i64)
            &&& input.time_lag_enabled && m.lag > 0 && !timed ==> m.lag_millis == (
            if m.messages_lost > 0 {
                Some(0i64)
            } else {
                None
            })
        }),
{
    metric_is_partition_lag(input, poll_time_ms, g, i);
    assert(group_calculable(input, g));
    assert(partition_fits(input, g, i));
    let group = input.snapshot.groups[g];
    lookup_is_some(input.stamps, (group.group_id, group.offsets[i].0));
}

/// A partition is shown with the last member of its group that it is assigned to, `k`, and as
/// compacted exactly where its topic is on the list.
pub proof fn partitions_show_their_owner(
    input: LagInput,
    poll_time_ms: u64,
    g: int,
    i: int,
    k: int,
)
    requires
        is_offset(input, g, i),
        input.snapshot.groups[g].members.len() <= usize::MAX,
        0 <= k < input.snapshot.groups[g].members.len(),
        input.snapshot.groups[g].members[k].assignments.contains(
            input.snapshot.groups[g].offsets[i].0,
        ),
        forall|j: int|
            k < j < input.snapshot.groups[g].members.len() ==> !(
            #[trigger] input.snapshot.groups[g].members[j]).assignments.contains(
                input.snapshot.groups[g].offsets[i].0,
            ),
    ensures
        ({
            let m = metric_at(input, poll_time_ms, g, i);
            let member = input.snapshot.groups[g].members[k];
            &&& m.member_host == member.client_host
            &&& m.consumer_id == member.member_id
            &&& m.client_id == member.client_id
            &&& m.compaction_detected <==> input.compacted.contains(m.topic)
        }),
{
    metric_is_partition_lag(input, poll_time_ms, g, i);
    last_owner(input.snapshot.groups[g].members, input.snapshot.groups[g].offsets[i].0, k);
}

/// A partition that is assigned to no member is shown without one, and as compacted exactly
/// where its topic is on the list.
pub proof fn unassigned_partitions_show_no_owner(
    input: LagInput,
    poll_time_ms: u64,
    g: int,
    i: int,
)
    requires
        is_offset(input, g, i),
        forall|j: int|
            0 <= j < input.snapshot.groups[g].members.len() ==> !(
            #[trigger] input.snapshot.groups[g].members[j]).assignments.contains(
                input.snapshot.groups[g].offsets[i].0,
            ),
    ensures
        ({
            let m = metric_at(input, poll_time_ms, g, i);
            &&& m.member_host.len() == 0
            &&& m.consumer_id.len() == 0
            &&& m.client_id.len() == 0
            &&& m.compaction_detected <==> input.compacted.contains(m.topic)
        }),
{
    metric_is_partition_lag(input, poll_time_ms, g, i);
    no_owner(input.snapshot.groups[g].members, input.snapshot.groups[g].offsets[i].0);
}

/// The owner of a partition is the last member that it is assigned to.
pub proof fn last_owner(members: Seq<MemberView>, tp: Tp, k: int)
    requires
        members.len() <= usize::MAX,
        0 <= k < members.len(),
        members[k].assignments.contains(tp),
        forall|j: int|
            k < j < members.len() ==> !(#[trigger] members[j]).assignments.contains(tp),
    ensures
        owner_index(members, tp) == Some(k as usize),
    decreases members.len(),
{
    if k < members.len() - 1 {
        let shorter = members.drop_last();
        assert(!members[members.len() - 1].assignments.contains(tp));
        assert forall|j: int| k < j < shorter.len() implies !(
        #[trigger] shorter[j]).assignments.contains(tp) by {
            assert(shorter[j] == members[j]);
        }
        assert(shorter[k] == members[k]);
        last_owner(shorter, tp, k);
    }
}

/// A partition that is assigned to no member has no owner.
pub proof fn no_owner(members: Seq<MemberView>, tp: Tp)
    requires
        forall|j: int|
            0 <= j < members.len() ==> !(#[trigger] members[j]).assignments.contains(tp),
    ensures
        owner_index(members, tp) is None,
    decreases members.len(),
{
    if members.len() > 0 {
        let shorter = members.drop_last();
        assert(!members[members.len() - 1].assignments.contains(tp));
        assert forall|j: int| 0 <= j < shorter.len() implies !(
        #[trigger] shorter[j]).assignments.contains(tp) by {
            assert(shorter[j] == members[j]);
        }
        no_owner(shorter, tp);
    }
}

/// The metrics of the partitions of group `g`.
pub open spec fn metrics_of(input: LagInput, poll_time_ms: u64, g: int) -> Seq<PartitionLagView> {
    let start = offsets_count(input, g as nat) as int;
    lag_metrics(input, poll_time_ms).partition_metrics.subrange(
        start,
        start + input.snapshot.groups[g].offsets.len(),
    )
}

/// The lags of partitions, added up.
pub open spec fn total(lags: Seq<PartitionLagView>) -> int {
    lags.fold_left(0int, |sum: int, p: PartitionLagView| sum + p.lag)
}

proof fn sum_is_total(lags: Seq<PartitionLagView>)
    ensures
        sum_lag(lags) == total(lags),
    decreases lags.len(),
{
    reveal_with_fuel(Seq::fold_left, 2);
    if lags.len() > 0 {
        sum_is_total(lags.drop_last());
    }
}

/// Each group has one total. Its sum is that of the reported lags of its own partitions, its
/// largest lag is one of them and bounds them all, and so it is with the time lags that are
/// known; without partitions, all are 0.
pub proof fn group_totals_are_those_of_its_partitions(
    input: LagInput,
    poll_time_ms: u64,
    g: int,
)
    requires
        calculable(input),
        0 <= g < input.snapshot.groups.len(),
    ensures
        ({
            let metrics = lag_metrics(input, poll_time_ms);
            let mine = metrics_of(input, poll_time_ms, g);
            let m = metrics.group_metrics[g];
            &&& metrics.group_metrics.len() == input.snapshot.groups.len()
            &&& mine.len() == input.snapshot.groups[g].offsets.len()
            &&& m.cluster_name == input.snapshot.cluster_name
            &&& m.group_id == input.snapshot.groups[g].group_id
            &&& m.sum_lag == total(mine)
            &&& forall|i: int| 0 <= i < mine.len() ==> (#[trigger] mine[i]).lag <= m.max_lag
            &&& mine.len() == 0 ==> m.max_lag == 0
            &&& mine.len() > 0 ==> exists|i: int|
                0 <= i < mine.len() && (#[trigger] mine[i]).lag == m.max_lag
            &&& m.max_lag_millis is Some <==> input.time_lag_enabled
            &&& m.max_lag_millis matches Some(largest) ==> {
                &&& forall|i: int|
                    0 <= i < mine.len() ==> ((#[trigger] mine[i]).lag_millis matches Some(t) ==> t
                        <= largest)
                &&& largest == 0 || exists|i: int|
                    0 <= i < mine.len() && (#[trigger] mine[i]).lag_millis == Some(largest)
                &&& largest >= 0
            }
        }),
{
    let n = input.snapshot.groups.len();
    let lags = group_lags(input, g);
    lags_of_a_group_stand_together(input, n, g);
    assert(group_calculable(input, g));
    assert forall|i: int| 0 <= i < lags.len() implies 0 <= #[trigger] lags[i].lag by {
        assert(partition_fits(input, g, i));
    }
    sum_is_total(lags);
    max_lag_is_largest(lags);
    max_lag_millis_is_largest(lags, input.time_lag_enabled);
    if input.time_lag_enabled {
        known_while_enabled(lags, input.time_lag_enabled);
    } else {
        no_time_lag_while_disabled(input, g);
    }
    sum_not_negative(lags);
}

proof fn sum_not_negative(lags: Seq<PartitionLagView>)
    requires
        not_negative(lags),
    ensures
        sum_lag(lags) >= 0,
    decreases lags.len(),
{
    if lags.len() > 0 {
        let shorter = lags.drop_last();
        assert forall|i: int| 0 <= i < shorter.len() implies 0 <= #[trigger] shorter[i].lag by {
            assert(lags[i].lag >= 0);
        }
        sum_not_negative(shorter);
        assert(lags[lags.len() - 1].lag >= 0);
    }
}

proof fn known_while_enabled(lags: Seq<PartitionLagView>, enabled: bool)
    requires
        enabled,
    ensures
        max_lag_millis(lags, enabled) matches Some(m) && m >= 0,
    decreases lags.len(),
{
    if lags.len() > 0 {
        known_while_enabled(lags.drop_last(), enabled);
    }
}

/// The number of each group state; every other state is 0.
pub proof fn states_have_their_numbers(input: LagInput, poll_time_ms: u64, g: int)
    requires
        0 <= g < input.snapshot.groups.len(),
    ensures
        ({
            let code = lag_metrics(input, poll_time_ms).group_metrics[g].state;
            let state = input.snapshot.groups[g].state;
            &&& 0 <= code <= 7
            &&& state == "PreparingRebalance"@ ==> code == 1
            &&& state == "CompletingRebalance"@ ==> code == 2
            &&& state == "Stable"@ ==> code == 3
            &&& state == "Dead"@ ==> code == 4
            &&& state == "Empty"@ ==> code == 5
            &&& state == "Assigning"@ ==> code == 6
            &&& state == "Reconciling"@ ==> code == 7
            &&& code == 1 ==> state == "PreparingRebalance"@
            &&& code == 2 ==> state == "CompletingRebalance"@
            &&& code == 3 ==> state == "Stable"@
            &&& code == 4 ==> state == "Dead"@
            &&& code == 5 ==> state == "Empty"@
            &&& code == 6 ==> state == "Assigning"@
            &&& code == 7 ==> state == "Reconciling"@
        }),
{
    reveal_strlit("PreparingRebalance");
    reveal_strlit("CompletingRebalance");
    reveal_strlit("Stable");
    reveal_strlit("Dead");
    reveal_strlit("Empty");
    reveal_strlit("Assigning");
    reveal_strlit("Reconciling");
    assert("PreparingRebalance"@.len() == 18);
    assert("CompletingRebalance"@.len() == 19);
    assert("Stable"@.len() == 6);
    assert("Dead"@.len() == 4);
    assert("Empty"@.len() == 5);
    assert("Assigning"@.len() == 9);
    assert("Reconciling"@.len() == 11);
}

/// A group has a total for every topic on which it has an offset: the sum of the reported lags of
/// its own partitions on that topic.
pub proof fn topic_totals_are_those_of_its_partitions(
    input: LagInput,
    poll_time_ms: u64,
    g: int,
    i: int,
)
    requires
        calculable(input),
        is_offset(input, g, i),
    ensures
        ({
            let metrics = lag_metrics(input, poll_time_ms);
            let topic = input.snapshot.groups[g].offsets[i].0.0;
            let mine = metrics_of(input, poll_time_ms, g);
            exists|k: int|
                {
                    &&& 0 <= k < metrics.topic_metrics.len()
                    &&& (#[trigger] metrics.topic_metrics[k]).cluster_name
                        == input.snapshot.cluster_name
                    &&& metrics.topic_metrics[k].group_id == input.snapshot.groups[g].group_id
                    &&& metrics.topic_metrics[k].topic == topic
                    &&& metrics.topic_metrics[k].sum_lag == total(
                        mine.filter(|p: PartitionLagView| p.topic == topic),
                    )
                }
        }),
{
    let n = input.snapshot.groups.len();
    let topic = input.snapshot.groups[g].offsets[i].0.0;
    let lags = group_lags(input, g);
    lags_of_a_group_stand_together(input, n, g);
    assert(lags[i].topic == topic);
    topic_is_listed(lags, i);
    let t = choose|t: int| 0 <= t < topics_of(lags).len() && topics_of(lags)[t] == topic;
    topic_lags_stand_together(input, n, g);
    let start = topics_count(input, g as nat) as int;
    let all = all_topic_lags(input, n);
    let count = topics_of(lags).len() as int;
    assert(all.subrange(start, start + count)[t] == all[start + t]);
    topic_sum_is_total(lags, topic);
    assert(group_calculable(input, g));
    assert forall|k: int| 0 <= k < lags.len() implies 0 <= #[trigger] lags[k].lag by {
        assert(partition_fits(input, g, k));
    }
    topic_sum_bounds(lags, topic);
    let metrics = lag_metrics(input, poll_time_ms);
    assert(metrics.topic_metrics[start + t].topic == topic);
}

/// Every topic total belongs to a group that has an offset on the topic, and no group has two
/// totals for one topic.
pub proof fn topic_totals_belong_to_a_group(input: LagInput, poll_time_ms: u64, a: int, b: int)
    requires
        0 <= a < b < lag_metrics(input, poll_time_ms).topic_metrics.len(),
        forall|g: int, h: int|
            0 <= g < h < input.snapshot.groups.len() ==> (
            #[trigger] input.snapshot.groups[g]).group_id != (
            #[trigger] input.snapshot.groups[h]).group_id,
    ensures
        ({
            let totals = lag_metrics(input, poll_time_ms).topic_metrics;
            &&& (totals[a].group_id, totals[a].topic) != (totals[b].group_id, totals[b].topic)
            &&& exists|g: int, i: int|
                #![trigger input.snapshot.groups[g].offsets[i]]
                is_offset(input, g, i) && input.snapshot.groups[g].group_id == totals[a].group_id
                    && input.snapshot.groups[g].offsets[i].0.0 == totals[a].topic
            &&& exists|g: int, i: int|
                #![trigger input.snapshot.groups[g].offsets[i]]
                is_offset(input, g, i) && input.snapshot.groups[g].group_id == totals[b].group_id
                    && input.snapshot.groups[g].offsets[i].0.0 == totals[b].topic
        }),
{
    let n = input.snapshot.groups.len();
    let (g, s) = topic_total_origin(input, n, a);
    let (h, t) = topic_total_origin(input, n, b);
    let first = group_lags(input, g);
    let second = group_lags(input, h);
    topics_are_distinct(first);
    listed_topic_has_a_lag(first, s);
    listed_topic_has_a_lag(second, t);
    let i = choose|i: int| 0 <= i < first.len() && (#[trigger] first[i]).topic == topics_of(first)[s];
    let j = choose|j: int|
        0 <= j < second.len() && (#[trigger] second[j]).topic == topics_of(second)[t];
    assert(input.snapshot.groups[g].offsets[i].0.0 == topics_of(first)[s]);
    assert(input.snapshot.groups[h].offsets[j].0.0 == topics_of(second)[t]);
    assert(is_offset(input, g, i) && is_offset(input, h, j));
}

/// The number of topic totals of the first `n` groups.
spec fn topics_count(input: LagInput, n: nat) -> nat
    decreases n,
{
    if n == 0 {
        0
    } else {
        topics_count(input, (n - 1) as nat) + topics_of(group_lags(input, n - 1)).len()
    }
}

proof fn topic_totals_count(input: LagInput, n: nat)
    ensures
        all_topic_lags(input, n).len() == topics_count(input, n),
    decreases n,
{
    if n > 0 {
        topic_totals_count(input, (n - 1) as nat);
    }
}

proof fn topic_lags_stand_together(input: LagInput, n: nat, g: int)
    requires
        0 <= g < n,
    ensures
        ({
            let start = topics_count(input, g as nat) as int;
            let count = topics_of(group_lags(input, g)).len() as int;
            &&& start + count <= all_topic_lags(input, n).len()
            &&& all_topic_lags(input, n).subrange(start, start + count) == topic_lags(input, g)
        }),
    decreases n,
{
    topic_totals_count(input, n);
    topic_totals_count(input, (n - 1) as nat);
    let start = topics_count(input, g as nat) as int;
    let count = topics_of(group_lags(input, g)).len() as int;
    let before = all_topic_lags(input, (n - 1) as nat);
    if g < n - 1 {
        topic_lags_stand_together(input, (n - 1) as nat, g);
        assert(all_topic_lags(input, n).subrange(start, start + count) =~= before.subrange(
            start,
            start + count,
        ));
    } else {
        assert(all_topic_lags(input, n).subrange(start, start + count) =~= topic_lags(input, g));
    }
}

/// Which topic of which group a total is about.
proof fn topic_total_origin(input: LagInput, n: nat, k: int) -> (origin: (int, int))
    requires
        0 <= k < all_topic_lags(input, n).len(),
    ensures
        0 <= origin.0 < n,
        0 <= origin.1 < topics_of(group_lags(input, origin.0)).len(),
        k == topics_count(input, origin.0 as nat) + origin.1,
        all_topic_lags(input, n)[k] == topic_lags(input, origin.0)[origin.1],
    decreases n,
{
    topic_totals_count(input, (n - 1) as nat);
    let before = all_topic_lags(input, (n - 1) as nat);
    if k < before.len() {
        topic_total_origin(input, (n - 1) as nat, k)
    } else {
        (n - 1, k - before.len())
    }
}

proof fn topic_is_listed(lags: Seq<PartitionLagView>, i: int)
    requires
        0 <= i < lags.len(),
    ensures
        topics_of(lags).contains(lags[i].topic),
    decreases lags.len(),
{
    let before = topics_of(lags.drop_last());
    if i < lags.len() - 1 {
        topic_is_listed(lags.drop_last(), i);
        let k = choose|k: int| 0 <= k < before.len() && before[k] == lags[i].topic;
        assert(topics_of(lags)[k] == lags[i].topic);
    } else if !before.contains(lags[i].topic) {
        assert(topics_of(lags)[before.len() as int] == lags[i].topic);
    }
}

proof fn listed_topic_has_a_lag(lags: Seq<PartitionLagView>, t: int)
    requires
        0 <= t < topics_of(lags).len(),
    ensures
        exists|i: int| 0 <= i < lags.len() && (#[trigger] lags[i]).topic == topics_of(lags)[t],
    decreases lags.len(),
{
    let shorter = lags.drop_last();
    if t < topics_of(shorter).len() {
        listed_topic_has_a_lag(shorter, t);
        let i = choose|i: int|
            0 <= i < shorter.len() && (#[trigger] shorter[i]).topic == topics_of(shorter)[t];
        assert(lags[i].topic == topics_of(lags)[t]);
    } else {
        assert(lags[lags.len() - 1].topic == topics_of(lags)[t]);
    }
}

proof fn topic_sum_is_total(lags: Seq<PartitionLagView>, topic: Seq<char>)
    ensures
        topic_sum(lags, topic) == total(lags.filter(|p: PartitionLagView| p.topic == topic)),
    decreases lags.len(),
{
    let f = |p: PartitionLagView| p.topic == topic;
    reveal(Seq::filter);
    reveal_with_fuel(Seq::fold_left, 2);
    if lags.len() > 0 {
        topic_sum_is_total(lags.drop_last(), topic);
        let before = lags.drop_last().filter(f);
        if f(lags.last()) {
            assert(lags.filter(f) == before.push(lags.last()));
            assert(before.push(lags.last()).drop_last() =~= before);
        }
    }
}

/// The two counts: partitions on topics that are on the list of compacted ones, and partitions
/// that lost messages. They come with the cluster's name, and with how long it took to collect.
pub proof fn detections_are_counted(input: LagInput, poll_time_ms: u64)
    requires
        calculable(input),
    ensures
        ({
            let metrics = lag_metrics(input, poll_time_ms);
            let all = metrics.partition_metrics;
            &&& metrics.cluster_name == input.snapshot.cluster_name
            &&& metrics.poll_time_ms == poll_time_ms
            &&& all.len() <= u64::MAX ==> metrics.compaction_detected_count == all.filter(
                |p: PartitionLagView| input.compacted.contains(p.topic),
            ).len()
            &&& all.len() <= u64::MAX ==> metrics.data_loss_partition_count == all.filter(
                |p: PartitionLagView| p.messages_lost > 0,
            ).len()
        }),
{
    let all = lag_metrics(input, poll_time_ms).partition_metrics;
    let n = input.snapshot.groups.len();
    assert forall|k: int| 0 <= k < all.len() implies (#[trigger] all[k]).compaction_detected
        == input.compacted.contains(all[k].topic) && all[k].data_loss_detected == (
    all[k].messages_lost > 0) by {
        let origin = lag_origin(input, n, k);
        assert(group_calculable(input, origin.0));
        assert(partition_fits(input, origin.0, origin.1));
    }
    same_filter(
        all,
        |p: PartitionLagView| p.compaction_detected,
        |p: PartitionLagView| input.compacted.contains(p.topic),
    );
    same_filter(
        all,
        |p: PartitionLagView| p.data_loss_detected,
        |p: PartitionLagView| p.messages_lost > 0,
    );
    filter_is_no_longer(all, |p: PartitionLagView| p.compaction_detected);
    filter_is_no_longer(all, |p: PartitionLagView| p.data_loss_detected);
}

/// Which committed offset of which group a metric is about.
proof fn lag_origin(input: LagInput, n: nat, k: int) -> (origin: (int, int))
    requires
        0 <= k < all_lags(input, n).len(),
    ensures
        0 <= origin.0 < n,
        0 <= origin.1 < input.snapshot.groups[origin.0].offsets.len(),
        all_lags(input, n)[k] == partition_lag(input, origin.0, origin.1),
    decreases n,
{
    let before = all_lags(input, (n - 1) as nat);
    if k < before.len() {
        lag_origin(input, (n - 1) as nat, k)
    } else {
        (n - 1, k - before.len())
    }
}

proof fn same_filter(
    s: Seq<PartitionLagView>,
    f: spec_fn(PartitionLagView) -> bool,
    g: spec_fn(PartitionLagView) -> bool,
)
    requires
        forall|k: int| 0 <= k < s.len() ==> f(#[trigger] s[k]) == g(s[k]),
    ensures
        s.filter(f) == s.filter(g),
    decreases s.len(),
{
    reveal(Seq::filter);
    if s.len() > 0 {
        let shorter = s.drop_last();
        assert forall|k: int| 0 <= k < shorter.len() implies f(#[trigger] shorter[k]) == g(
            shorter[k],
        ) by {
            assert(shorter[k] == s[k]);
        }
        same_filter(shorter, f, g);
        assert(f(s[s.len() - 1]) == g(s[s.len() - 1]));
    }
}

proof fn filter_is_no_longer(s: Seq<PartitionLagView>, f: spec_fn(PartitionLagView) -> bool)
    ensures
        s.filter(f).len() <= s.len(),
    decreases s.len(),
{
    reveal(Seq::filter);
    if s.len() > 0 {
        filter_is_no_longer(s.drop_last(), f);
    }
}

/// Both ends of every partition's log are shown, the start as the earliest offset and the end as
/// the latest.
pub proof fn log_ends_are_shown(input: LagInput, poll_time_ms: u64, w: int)
    requires
        0 <= w < input.snapshot.watermarks.len(),
    ensures
        ({
            let ends = lag_metrics(input, poll_time_ms).partition_offsets;
            &&& ends.len() == input.snapshot.watermarks.len()
            &&& ends[w].cluster_name == input.snapshot.cluster_name
            &&& (ends[w].topic, ends[w].partition) == input.snapshot.watermarks[w].0
            &&& (ends[w].earliest_offset, ends[w].latest_offset) == input.snapshot.watermarks[w].1
        }),
{
}

/// Whether the distances between a committed offset, the ends of its log, and its message's time
/// and now, are all `i64` values, as they are for the offsets and times of real logs.
pub open spec fn ordinary(input: LagInput) -> bool {
    &&& 0 <= input.now_ms
    &&& forall|w: int|
        0 <= w < input.snapshot.watermarks.len() ==> 0 <= (
        #[trigger] input.snapshot.watermarks[w]).1.0 && 0 <= input.snapshot.watermarks[w].1.1
    &&& forall|s: int| 0 <= s < input.stamps.len() ==> 0 <= (#[trigger] input.stamps[s]).1
    &&& forall|g: int, i: int|
        #![trigger input.snapshot.groups[g].offsets[i]]
        is_offset(input, g, i) ==> 0 <= input.snapshot.groups[g].offsets[i].1
}

/// With offsets and times that are not negative, lag can be calculated as long as no group's
/// lags add up to more than an `i64` holds.
pub proof fn ordinary_input_is_calculable(input: LagInput)
    requires
        unambiguous(input),
        ordinary(input),
    ensures
        calculable(input) <==> forall|g: int|
            0 <= g < input.snapshot.groups.len() ==> total(#[trigger] group_lags(input, g))
                <= i64::MAX,
{
    assert forall|g: int, i: int| is_offset(input, g, i) implies #[trigger] partition_fits(
        input,
        g,
        i,
    ) by {
        let group = input.snapshot.groups[g];
        let (tp, committed) = group.offsets[i];
        assert(0 <= input.snapshot.groups[g].offsets[i].1);
        let marks = input.snapshot.watermarks;
        lookup_is_some(marks, tp);
        if has_key(marks, tp) {
            let w = choose|w: int| 0 <= w < marks.len() && #[trigger] marks[w].0 == tp;
            lookup_finds(marks, w);
            assert(0 <= marks[w].1.0);
        }
        let key = (group.group_id, tp);
        lookup_is_some(input.stamps, key);
        if has_key(input.stamps, key) {
            let s = choose|s: int|
                0 <= s < input.stamps.len() && #[trigger] input.stamps[s].0 == key;
            lookup_finds(input.stamps, s);
            assert(0 <= input.stamps[s].1);
        }
    }
    assert forall|g: int| 0 <= g < input.snapshot.groups.len() implies (#[trigger] group_calculable(
        input,
        g,
    ) <==> total(group_lags(input, g)) <= i64::MAX) by {
        sum_is_total(group_lags(input, g));
        assert forall|i: int|
            0 <= i < input.snapshot.groups[g].offsets.len() implies #[trigger] partition_fits(
            input,
            g,
            i,
        ) by {
            assert(is_offset(input, g, i));
        }
    }
    if calculable(input) {
        assert forall|g: int| 0 <= g < input.snapshot.groups.len() implies total(
            #[trigger] group_lags(input, g),
        ) <= i64::MAX by {
            assert(group_calculable(input, g));
        }
    }
    if forall|g: int|
        0 <= g < input.snapshot.groups.len() ==> total(#[trigger] group_lags(input, g))
            <= i64::MAX {
        assert forall|g: int| 0 <= g < input.snapshot.groups.len() implies #[trigger] group_calculable(
            input,
            g,
        ) by {
            assert(total(group_lags(input, g)) <= i64::MAX);
        }
    }
}

} // verus!

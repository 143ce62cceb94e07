//! A snapshot of the committed offsets and watermarks of a cluster.

use crate::collector::caches::{
    fresh, known_compacted, monitored_flags, unknown_topics, with_findings, CompactedTopicsCache,
    ConsumerGroupsCache, MetadataCache,
};
use crate::config::Granularity;
use crate::kafka::admin::{BatchedGroupDescription, BatchedMember, DescriptionView};
use crate::kafka::client::{ConsumerGroupInfo, TopicPartition};
use crate::kafka::replies::OffsetMap;
use crate::keymap::{
    has_key, kept, kept_is_part, lookup, put, unique_keys, with_names, NameSet, OrderMap,
};
use crate::text::{flat, flat_step};
use crate::views::{views, views_push};
use std::sync::Arc;
use vstd::prelude::*;

verus! {

broadcast use views_push;

/// A partition in contracts: its topic and its number.
pub type Tp = (Seq<char>, i32);

/// A group member in a snapshot.
#[derive(Debug, Clone)]
pub struct MemberSnapshot {
    pub member_id: String,
    pub client_id: String,
    pub client_host: String,
    pub assignments: Vec<TopicPartition>,
}

/// What a `MemberSnapshot` holds.
#[verifier::ext_equal]
pub struct MemberView {
    pub member_id: Seq<char>,
    pub client_id: Seq<char>,
    pub client_host: Seq<char>,
    pub assignments: Seq<Tp>,
}

impl View for MemberSnapshot {
    type V = MemberView;

    open spec fn view(&self) -> MemberView {
        MemberView {
            member_id: self.member_id@,
            client_id: self.client_id@,
            client_host: self.client_host@,
            assignments: views(self.assignments@),
        }
    }
}

/// A consumer group in a snapshot.
pub struct GroupSnapshot {
    pub group_id: String,
    pub state: String,
    pub members: Vec<MemberSnapshot>,
    pub offsets: OrderMap<TopicPartition, i64>,
}

/// What a `GroupSnapshot` holds.
#[verifier::ext_equal]
pub struct GroupView {
    pub group_id: Seq<char>,
    pub state: Seq<char>,
    pub members: Seq<MemberView>,
    pub offsets: Seq<(Tp, i64)>,
}

impl View for GroupSnapshot {
    type V = GroupView;

    open spec fn view(&self) -> GroupView {
        GroupView {
            group_id: self.group_id@,
            state: self.state@,
            members: views(self.members@),
            offsets: self.offsets@,
        }
    }
}

/// The offsets of a cluster's consumer groups and partitions at one moment.
pub struct OffsetsSnapshot {
    pub cluster_name: String,
    pub groups: Vec<GroupSnapshot>,
    pub watermarks: OrderMap<TopicPartition, (i64, i64)>,
    pub compacted_topics: NameSet,
    pub timestamp_ms: i64,
}

/// What an `OffsetsSnapshot` holds.
#[verifier::ext_equal]
pub struct SnapshotView {
    pub cluster_name: Seq<char>,
    pub groups: Seq<GroupView>,
    pub watermarks: Seq<(Tp, (i64, i64))>,
    pub compacted_topics: Seq<Seq<char>>,
    pub timestamp_ms: i64,
}

impl View for OffsetsSnapshot {
    type V = SnapshotView;

    open spec fn view(&self) -> SnapshotView {
        SnapshotView {
            cluster_name: self.cluster_name@,
            groups: views(self.groups@),
            watermarks: self.watermarks@,
            compacted_topics: self.compacted_topics@,
            timestamp_ms: self.timestamp_ms,
        }
    }
}

impl OffsetsSnapshot {
    /// The groups' names, in snapshot order.
    pub fn filtered_groups(&self) -> (names: Vec<&str>)
        ensures
            views(names@) == Seq::new(self@.groups.len(), |i: int| self@.groups[i].group_id),
    {
        let mut names: Vec<&str> = Vec::new();
        let mut i: usize = 0;
        while i < self.groups.len()
            invariant
                i <= self.groups.len(),
                views(names@) =~= Seq::new(i as nat, |k: int| self@.groups[k].group_id),
            decreases self.groups.len() - i,
        {
            assert(self@.groups[i as int] == self.groups@[i as int]@);
            names.push(self.groups[i].group_id.as_str());
            i += 1;
        }
        names
    }

    /// The low and the high watermark of a partition.
    pub fn get_watermark(&self, tp: &TopicPartition) -> (watermark: Option<(i64, i64)>)
        ensures
            watermark == lookup(self@.watermarks, tp@),
    {
        match self.watermarks.get(tp) {
            Some(pair) => Some(*pair),
            None => None,
        }
    }

    /// The high watermark of a partition.
    pub fn get_high_watermark(&self, tp: &TopicPartition) -> (high: Option<i64>)
        ensures
            high == match lookup(self@.watermarks, tp@) {
                Some((_, high)) => Some(high),
                None => None,
            },
    {
        match self.watermarks.get(tp) {
            Some(pair) => Some(pair.1),
            None => None,
        }
    }
}

/// A topic and its partitions, as the cluster's metadata lists them.
#[derive(Debug)]
pub struct MetadataTopic {
    pub name: String,
    pub partitions: Vec<i32>,
}

/// The names of the groups that are allowed, in listing order.
pub open spec fn allowed_groups(
    groups: Seq<ConsumerGroupInfo>,
    allowed: Seq<Seq<char>>,
) -> Seq<Seq<char>> {
    flat(
        groups,
        |g: ConsumerGroupInfo|
            if allowed.contains(g.group_id@) {
                seq![g.group_id@]
            } else {
                Seq::empty()
            },
    )
}

/// The names of the topics that are allowed, in listing order.
pub open spec fn allowed_topics(
    topics: Seq<MetadataTopic>,
    allowed: Seq<Seq<char>>,
) -> Seq<Seq<char>> {
    flat(
        topics,
        |t: MetadataTopic|
            if allowed.contains(t.name@) {
                seq![t.name@]
            } else {
                Seq::empty()
            },
    )
}

/// The partitions of one topic.
pub open spec fn topic_partitions(t: MetadataTopic) -> Seq<Tp> {
    Seq::new(t.partitions@.len(), |i: int| (t.name@, t.partitions@[i]))
}

/// The partitions of the topics that are allowed, in listing order.
pub open spec fn allowed_partitions(
    topics: Seq<MetadataTopic>,
    allowed: Seq<Seq<char>>,
) -> Seq<Tp> {
    flat(
        topics,
        |t: MetadataTopic|
            if allowed.contains(t.name@) {
                topic_partitions(t)
            } else {
                Seq::empty()
            },
    )
}

/// The offsets of one group.
pub open spec fn offsets_for(
    offsets: Seq<(Seq<char>, Seq<(Tp, i64)>)>,
    group: Seq<char>,
) -> Seq<(Tp, i64)> {
    match lookup(offsets, group) {
        Some(mine) => mine,
        None => Seq::empty(),
    }
}

/// Which offsets are on topics that are allowed.
pub open spec fn allowed_flags(offsets: Seq<(Tp, i64)>, allowed: Seq<Seq<char>>) -> Seq<bool> {
    Seq::new(offsets.len(), |i: int| allowed.contains(offsets[i].0.0))
}

/// A group in a snapshot: its description, with its offsets on the topics that are allowed.
pub open spec fn group_view(
    description: DescriptionView,
    offsets: Seq<(Seq<char>, Seq<(Tp, i64)>)>,
    allowed: Seq<Seq<char>>,
) -> GroupView {
    let mine = offsets_for(offsets, description.group_id);
    GroupView {
        group_id: description.group_id,
        state: description.state,
        members: description.members,
        offsets: kept(mine, allowed_flags(mine, allowed)),
    }
}

/// The low and high watermarks of the partitions whose two ends are both known.
pub open spec fn paired(
    earliest: Seq<(Tp, i64)>,
    latest: Seq<(Tp, i64)>,
) -> Seq<(Tp, (i64, i64))>
    decreases earliest.len(),
{
    if earliest.len() == 0 {
        Seq::empty()
    } else {
        let before = paired(earliest.drop_last(), latest);
        match lookup(latest, earliest.last().0) {
            Some(high) => put(before, earliest.last().0, (earliest.last().1, high)),
            None => before,
        }
    }
}

/// Pairs the two ends of the partitions' logs.
pub fn pair_watermarks(earliest: &OffsetMap, latest: &OffsetMap) -> (watermarks: OrderMap<
    TopicPartition,
    (i64, i64),
>)
    ensures
        watermarks@ == paired(earliest@, latest@),
{
    let mut watermarks: OrderMap<TopicPartition, (i64, i64)> = OrderMap::new();
    let mut i: usize = 0;
    assert(earliest@.take(0) =~= Seq::<(Tp, i64)>::empty());
    while i < earliest.len()
        invariant
            i <= earliest@.len(),
            watermarks@ == paired(earliest@.take(i as int), latest@),
        decreases earliest@.len() - i,
    {
        assert(earliest@.take(i + 1).drop_last() =~= earliest@.take(i as int));
        let tp = earliest.key_at(i);
        if let Some(high) = latest.get(tp) {
            watermarks.insert(tp.clone(), (*earliest.value_at(i), *high));
        }
        i += 1;
    }
    assert(earliest@.take(i as int) =~= earliest@);
    watermarks
}

/// What a collection cycle asks for next.
pub enum CollectStep {
    /// The cluster's consumer groups.
    ListGroups,
    /// Which of these groups are allowed.
    JudgeGroups { groups: Arc<Vec<ConsumerGroupInfo>> },
    /// Descriptions of these groups, with their members' assignments where those are wanted.
    DescribeGroups { group_ids: Vec<String>, parse_assignments: bool },
    /// The cluster's topics, and which of them are allowed.
    ReadMetadata,
    /// The watermarks of these partitions.
    FetchWatermarks { partitions: Arc<Vec<TopicPartition>>, topics: Arc<Vec<String>> },
    /// Which of these topics are compacted; `compacted` are known already.
    FetchCompacted { compacted: NameSet, to_fetch: Vec<String> },
    /// Nothing: what is known is enough.
    CompactedKnown { compacted: NameSet },
}

/// Runs collection cycles: decides what is asked for, remembers what need not be asked again,
/// and puts the snapshot together.
pub struct OffsetCollector {
    granularity: Granularity,
    compacted_cache: CompactedTopicsCache,
    metadata_cache: MetadataCache,
    consumer_groups_cache: ConsumerGroupsCache,
}

impl OffsetCollector {
    /// How fine the metrics are.
    pub closed spec fn granularity(&self) -> Granularity {
        self.granularity
    }

    /// What is remembered of compacted topics.
    pub closed spec fn compacted_cache(&self) -> CompactedTopicsCache {
        self.compacted_cache
    }

    /// What is remembered of the monitored partitions.
    pub closed spec fn metadata_cache(&self) -> MetadataCache {
        self.metadata_cache
    }

    /// What is remembered of the consumer groups.
    pub closed spec fn consumer_groups_cache(&self) -> ConsumerGroupsCache {
        self.consumer_groups_cache
    }

    /// A collector that remembers nothing yet.
    pub fn with_performance(
        granularity: Granularity,
        compacted_topics_cache_ttl: u64,
        metadata_cache_ttl: u64,
        consumer_groups_cache_ttl: u64,
    ) -> (collector: Self)
        ensures
            collector.granularity() == granularity,
            collector.compacted_cache().ttl() == compacted_topics_cache_ttl,
            collector.compacted_cache().entries().len() == 0,
            collector.metadata_cache().ttl() == metadata_cache_ttl,
            collector.metadata_cache().entry() is None,
            collector.consumer_groups_cache().ttl() == consumer_groups_cache_ttl,
            collector.consumer_groups_cache().entry() is None,
    {
        OffsetCollector {
            granularity,
            compacted_cache: CompactedTopicsCache::new(compacted_topics_cache_ttl),
            metadata_cache: MetadataCache::new(metadata_cache_ttl),
            consumer_groups_cache: ConsumerGroupsCache::new(consumer_groups_cache_ttl),
        }
    }

    /// Starts a cycle: the groups are listed unless they are remembered.
    pub fn start(&self, now: u64) -> (step: CollectStep)
        ensures
            match fresh(
                self.consumer_groups_cache().entry(),
                self.consumer_groups_cache().ttl(),
                now,
            ) {
                Some(known) => step matches CollectStep::JudgeGroups { groups } && groups@ == known,
                None => step is ListGroups,
            },
    {
        match self.consumer_groups_cache.get(now) {
            Some(groups) => CollectStep::JudgeGroups { groups },
            None => CollectStep::ListGroups,
        }
    }

    /// Takes in the groups that were listed, and remembers them.
    pub fn groups_listed(&mut self, listed: Vec<ConsumerGroupInfo>, now: u64) -> (step: CollectStep)
        ensures
            step matches CollectStep::JudgeGroups { groups } && groups@ == listed@,
            final(self).granularity() == old(self).granularity(),
            final(self).compacted_cache() == old(self).compacted_cache(),
            final(self).metadata_cache() == old(self).metadata_cache(),
            final(self).consumer_groups_cache().ttl() == old(self).consumer_groups_cache().ttl(),
            final(self).consumer_groups_cache().entry() == (if old(
                self,
            ).consumer_groups_cache().ttl() == 0 {
                old(self).consumer_groups_cache().entry()
            } else {
                Some((listed@, now))
            }),
    {
        let groups = self.consumer_groups_cache.set(listed, now);
        CollectStep::JudgeGroups { groups }
    }

    /// Takes in which groups are allowed: those are described. Assignments are only read where
    /// there is one set of metrics per partition.
    pub fn groups_judged(&self, groups: &Vec<ConsumerGroupInfo>, allowed: &NameSet) -> (step:
        CollectStep)
        ensures
            step matches CollectStep::DescribeGroups { group_ids, parse_assignments } && views(
                group_ids@,
            ) == allowed_groups(groups@, allowed@) && parse_assignments == (self.granularity()
                == Granularity::Partition),
    {
        let ghost f = |g: ConsumerGroupInfo|
            if allowed@.contains(g.group_id@) {
                seq![g.group_id@]
            } else {
                Seq::empty()
            };
        let mut group_ids: Vec<String> = Vec::new();
        let mut i: usize = 0;
        assert(groups@.take(0) =~= Seq::<ConsumerGroupInfo>::empty());
        while i < groups.len()
            invariant
                i <= groups.len(),
                f == (|g: ConsumerGroupInfo|
                    if allowed@.contains(g.group_id@) {
                        seq![g.group_id@]
                    } else {
                        Seq::empty()
                    }),
                views(group_ids@) =~= flat(groups@.take(i as int), f),
            decreases groups.len() - i,
        {
            proof {
                flat_step(groups@, f, i as int);
            }
            if allowed.contains(groups[i].group_id.as_str()) {
                group_ids.push(groups[i].group_id.clone());
            }
            i += 1;
        }
        assert(groups@.take(i as int) =~= groups@);
        let parse_assignments = match self.granularity {
            Granularity::Partition => true,
            Granularity::Topic => false,
        };
        CollectStep::DescribeGroups { group_ids, parse_assignments }
    }

    /// After the groups were described: the metadata is read unless the monitored partitions
    /// are remembered.
    pub fn groups_described(&self, now: u64) -> (step: CollectStep)
        ensures
            match fresh(self.metadata_cache().entry(), self.metadata_cache().ttl(), now) {
                Some(known) => step matches CollectStep::FetchWatermarks { partitions, topics }
                    && partitions@ == known.0 && topics@ == known.1,
                None => step is ReadMetadata,
            },
    {
        match self.metadata_cache.get(now) {
            Some((partitions, topics)) => CollectStep::FetchWatermarks { partitions, topics },
            None => CollectStep::ReadMetadata,
        }
    }

    /// Takes in the cluster's topics and which of them are allowed: their partitions are
    /// monitored, and remembered.
    pub fn metadata_read(&mut self, listed: &Vec<MetadataTopic>, allowed: &NameSet, now: u64) -> (
    step: CollectStep)
        ensures
            step matches CollectStep::FetchWatermarks { partitions, topics } && views(partitions@)
                == allowed_partitions(listed@, allowed@) && views(topics@) == allowed_topics(
                listed@,
                allowed@,
            ) && final(self).metadata_cache().entry() == (if old(self).metadata_cache().ttl() == 0 {
                old(self).metadata_cache().entry()
            } else {
                Some(((partitions@, topics@), now))
            }),
            final(self).metadata_cache().ttl() == old(self).metadata_cache().ttl(),
            final(self).granularity() == old(self).granularity(),
            final(self).compacted_cache() == old(self).compacted_cache(),
            final(self).consumer_groups_cache() == old(self).consumer_groups_cache(),
    {
        let ghost f = |t: MetadataTopic|
            if allowed@.contains(t.name@) {
                seq![t.name@]
            } else {
                Seq::empty()
            };
        let ghost g = |t: MetadataTopic|
            if allowed@.contains(t.name@) {
                topic_partitions(t)
            } else {
                Seq::empty()
            };
        let mut partitions: Vec<TopicPartition> = Vec::new();
        let mut topics: Vec<String> = Vec::new();
        let mut i: usize = 0;
        assert(listed@.take(0) =~= Seq::<MetadataTopic>::empty());
        while i < listed.len()
            invariant
                *self == *old(self),
                i <= listed.len(),
                f == (|t: MetadataTopic|
                    if allowed@.contains(t.name@) {
                        seq![t.name@]
                    } else {
                        Seq::empty()
                    }),
                g == (|t: MetadataTopic|
                    if allowed@.contains(t.name@) {
                        topic_partitions(t)
                    } else {
                        Seq::empty()
                    }),
                views(topics@) =~= flat(listed@.take(i as int), f),
                views(partitions@) =~= flat(listed@.take(i as int), g),
            decreases listed.len() - i,
        {
            proof {
                flat_step(listed@, f, i as int);
                flat_step(listed@, g, i as int);
            }
            let topic = &listed[i];
            if allowed.contains(topic.name.as_str()) {
                topics.push(topic.name.clone());
                let ghost before = views(partitions@);
                let ghost mine = topic_partitions(*topic);
                let mut j: usize = 0;
                while j < topic.partitions.len()
                    invariant
                        mine == topic_partitions(*topic),
                        j <= topic.partitions.len(),
                        views(partitions@) =~= before + mine.take(j as int),
                    decreases topic.partitions.len() - j,
                {
                    partitions.push(TopicPartition::new(topic.name.as_str(), topic.partitions[j]));
                    j += 1;
                }
                assert(mine.take(j as int) =~= mine);
            }
            i += 1;
        }
        assert(listed@.take(i as int) =~= listed@);
        let (partitions, topics) = self.metadata_cache.set(partitions, topics, now);
        CollectStep::FetchWatermarks { partitions, topics }
    }

    /// After the offsets were fetched: only topics of which nothing recent is known are asked
    /// about.
    pub fn offsets_fetched(&self, topics: &Vec<String>, now: u64) -> (step: CollectStep)
        ensures
            ({
                let cache = self.compacted_cache();
                let known = known_compacted(cache.entries(), cache.ttl(), now, views(topics@));
                let unknown = unknown_topics(cache.entries(), cache.ttl(), now, views(topics@));
                match step {
                    CollectStep::FetchCompacted { compacted, to_fetch } => unknown.len() > 0
                        && compacted@ == known && views(to_fetch@) == unknown,
                    CollectStep::CompactedKnown { compacted } => unknown.len() == 0 && compacted@
                        == known,
                    _ => false,
                }
            }),
    {
        let (compacted, to_fetch) = self.compacted_cache.partition(topics, now);
        if to_fetch.len() == 0 {
            CollectStep::CompactedKnown { compacted }
        } else {
            CollectStep::FetchCompacted { compacted, to_fetch }
        }
    }

    /// Takes in which of the topics in `to_fetch` are compacted, or that this could not be
    /// found out, and remembers it; what is no longer monitored is forgotten.
    pub fn compacted_fetched(
        &mut self,
        compacted: NameSet,
        to_fetch: &Vec<String>,
        found: Option<NameSet>,
        topics: &Vec<String>,
        now: u64,
    ) -> (all_compacted: NameSet)
        ensures
            all_compacted@ == (match found {
                Some(found) => with_names(compacted@, found@),
                None => compacted@,
            }),
            final(self).compacted_cache().ttl() == old(self).compacted_cache().ttl(),
            ({
                let noted = match found {
                    Some(found) => with_findings(
                        old(self).compacted_cache().entries(),
                        views(to_fetch@),
                        found@,
                        now,
                    ),
                    None => old(self).compacted_cache().entries(),
                };
                final(self).compacted_cache().entries() == kept(
                    noted,
                    monitored_flags(noted, views(topics@)),
                )
            }),
            final(self).granularity() == old(self).granularity(),
            final(self).metadata_cache() == old(self).metadata_cache(),
            final(self).consumer_groups_cache() == old(self).consumer_groups_cache(),
    {
        let mut all_compacted = compacted;
        if let Some(found) = &found {
            self.compacted_cache.update(to_fetch, found, now);
            all_compacted.insert_all(found);
        }
        self.compacted_cache.prune_to(topics);
        all_compacted
    }

    /// Where nothing had to be asked: what is no longer monitored is forgotten.
    pub fn compacted_known(&mut self, topics: &Vec<String>)
        ensures
            final(self).compacted_cache().ttl() == old(self).compacted_cache().ttl(),
            final(self).compacted_cache().entries() == kept(
                old(self).compacted_cache().entries(),
                monitored_flags(old(self).compacted_cache().entries(), views(topics@)),
            ),
            final(self).granularity() == old(self).granularity(),
            final(self).metadata_cache() == old(self).metadata_cache(),
            final(self).consumer_groups_cache() == old(self).consumer_groups_cache(),
    {
        self.compacted_cache.prune_to(topics);
    }

    /// Puts the snapshot together. A described group without offsets stays, with none.
    pub fn assemble(
        cluster_name: &str,
        descriptions: Vec<BatchedGroupDescription>,
        offsets: &OrderMap<String, OffsetMap>,
        allowed: &NameSet,
        watermarks: OrderMap<TopicPartition, (i64, i64)>,
        compacted_topics: NameSet,
        timestamp_ms: i64,
    ) -> (snapshot: OffsetsSnapshot)
        ensures
            snapshot@ == (SnapshotView {
                cluster_name: cluster_name@,
                groups: Seq::new(
                    descriptions@.len(),
                    |i: int| group_view(descriptions@[i]@, offsets@, allowed@),
                ),
                watermarks: watermarks@,
                compacted_topics: compacted_topics@,
                timestamp_ms,
            }),
    {
        let ghost source = descriptions@;
        let ghost wanted = Seq::new(
            source.len(),
            |i: int| group_view(source[i]@, offsets@, allowed@),
        );
        let mut groups: Vec<GroupSnapshot> = Vec::new();
        for description in it: descriptions.into_iter()
            invariant
                it.seq() == source,
                wanted == Seq::new(
                    source.len(),
                    |i: int| group_view(source[i]@, offsets@, allowed@),
                ),
                views(groups@) =~= wanted.take(it.index()),
        {
            let ghost n = it.index();
            assert(description == source[n]);
            let mine = match offsets.get(&description.group_id) {
                Some(known) => allowed_copy(known, allowed),
                None => {
                    assert(kept(
                        Seq::<(Tp, i64)>::empty(),
                        allowed_flags(Seq::<(Tp, i64)>::empty(), allowed@),
                    ) =~= Seq::<(Tp, i64)>::empty());
                    OffsetMap::new()
                },
            };
            let group = GroupSnapshot {
                group_id: description.group_id,
                state: description.state,
                members: member_snapshots(description.members),
                offsets: mine,
            };
            assert(group@ == wanted[n]);
            groups.push(group);
        }
        assert(views(groups@) =~= wanted);
        OffsetsSnapshot {
            cluster_name: cluster_name.to_owned(),
            groups,
            watermarks,
            compacted_topics,
            timestamp_ms,
        }
    }
}

/// A copy of the offsets on topics that are allowed.
fn allowed_copy(offsets: &OffsetMap, allowed: &NameSet) -> (copy: OffsetMap)
    ensures
        copy@ == kept(offsets@, allowed_flags(offsets@, allowed@)),
{
    let ghost all = offsets@;
    let ghost flags = allowed_flags(all, allowed@);
    proof {
        use_type_invariant(offsets);
    }
    let mut copy: OffsetMap = OffsetMap::new();
    let mut i: usize = 0;
    assert(all.take(0) =~= Seq::<(Tp, i64)>::empty());
    while i < offsets.len()
        invariant
            all == offsets@,
            unique_keys(all),
            flags == allowed_flags(all, allowed@),
            i <= all.len(),
            copy@ == kept(all.take(i as int), flags),
        decreases all.len() - i,
    {
        assert(all.take(i + 1).drop_last() =~= all.take(i as int));
        let tp = offsets.key_at(i);
        if allowed.contains(tp.topic.as_str()) {
            proof {
                let before = all.take(i as int);
                assert(unique_keys(before)) by {
                    assert forall|a: int, b: int| 0 <= a < b < before.len() implies #[trigger] before[a].0
                        != #[trigger] before[b].0 by {
                        assert(all[a].0 != all[b].0);
                    }
                }
                kept_is_part(before, flags);
                if has_key(copy@, tp@) {
                    let a = choose|a: int|
                        0 <= a < copy@.len() && #[trigger] copy@[a].0 == tp@;
                    let b = choose|b: int|
                        0 <= b < before.len() && flags[b] && before[b] == kept(before, flags)[a];
                    assert(all[b].0 != all[i as int].0);
                }
            }
            copy.insert(tp.clone(), *offsets.value_at(i));
        }
        i += 1;
    }
    assert(all.take(i as int) =~= all);
    copy
}

/// The members of a described group, for a snapshot.
fn member_snapshots(members: Vec<BatchedMember>) -> (list: Vec<MemberSnapshot>)
    ensures
        views(list@) == views(members@),
{
    let ghost source = members@;
    let mut list: Vec<MemberSnapshot> = Vec::new();
    for member in it: members.into_iter()
        invariant
            it.seq() == source,
            views(list@) =~= views(source).take(it.index()),
    {
        assert(member == source[it.index()]);
        list.push(
            MemberSnapshot {
                member_id: member.member_id,
                client_id: member.client_id,
                client_host: member.client_host,
                assignments: member.assignments,
            },
        );
    }
    list
}

} // verus!

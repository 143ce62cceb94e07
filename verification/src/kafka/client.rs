//! Topics, partitions, groups and their members.

use crate::kafka::assignment::{assigned_partitions, parse_member_assignment, readable};
use crate::keymap::{put, MapKey, OrderMap};
use crate::text::same_text;
use crate::views::views;
use vstd::prelude::*;

verus! {

/// One partition of a topic.
#[derive(Debug, PartialEq, Eq, Hash)]
pub struct TopicPartition {
    pub topic: String,
    pub partition: i32,
}

impl View for TopicPartition {
    type V = (Seq<char>, i32);

    open spec fn view(&self) -> (Seq<char>, i32) {
        (self.topic@, self.partition)
    }
}

impl TopicPartition {
    /// The partition `partition` of `topic`.
    pub fn new(topic: &str, partition: i32) -> (tp: Self)
        ensures
            tp@ == (topic@, partition),
    {
        TopicPartition { topic: topic.to_owned(), partition }
    }
}

impl Clone for TopicPartition {
    fn clone(&self) -> (copy: Self)
        ensures
            copy@ == self@,
    {
        TopicPartition { topic: self.topic.clone(), partition: self.partition }
    }
}

impl MapKey for TopicPartition {
    fn same_key(&self, other: &Self) -> (same: bool) {
        self.partition == other.partition && same_text(self.topic.as_str(), other.topic.as_str())
    }

    fn copy_key(&self) -> (copy: Self) {
        self.clone()
    }
}

/// A consumer group as the broker lists it.
#[derive(Debug, Clone)]
pub struct ConsumerGroupInfo {
    pub group_id: String,
    pub protocol_type: String,
    pub state: String,
}

/// A member of a consumer group and what is assigned to it.
#[derive(Debug, Clone)]
pub struct GroupMemberInfo {
    pub member_id: String,
    pub client_id: String,
    pub client_host: String,
    pub assignments: Vec<TopicPartition>,
}

/// A consumer group as the broker describes it.
#[derive(Debug, Clone)]
pub struct GroupDescription {
    pub group_id: String,
    pub state: String,
    pub protocol_type: String,
    pub protocol: String,
    pub members: Vec<GroupMemberInfo>,
}

/// One of the two ends of a partition's log.
#[derive(Debug, Clone, Copy, PartialEq, Eq)]
pub enum OffsetPosition {
    Earliest,
    Latest,
}

/// The end of a log that a position stands for.
pub fn watermark_at(position: OffsetPosition, low: i64, high: i64) -> (offset: i64)
    ensures
        offset == match position {
            OffsetPosition::Earliest => low,
            OffsetPosition::Latest => high,
        },
{
    match position {
        OffsetPosition::Earliest => low,
        OffsetPosition::Latest => high,
    }
}

/// The watermarks that could be fetched.
pub open spec fn known_watermarks(
    fetched: Seq<(TopicPartition, Option<(i64, i64)>)>,
) -> Seq<((Seq<char>, i32), (i64, i64))>
    decreases fetched.len(),
{
    if fetched.len() == 0 {
        Seq::empty()
    } else {
        let before = known_watermarks(fetched.drop_last());
        match fetched.last().1 {
            Some(pair) => put(before, fetched.last().0@, pair),
            None => before,
        }
    }
}

/// Collects the watermarks that could be fetched; partitions that failed are left out.
pub fn collect_watermarks(fetched: &Vec<(TopicPartition, Option<(i64, i64)>)>) -> (watermarks:
    OrderMap<TopicPartition, (i64, i64)>)
    ensures
        watermarks@ == known_watermarks(fetched@),
{
    let mut watermarks: OrderMap<TopicPartition, (i64, i64)> = OrderMap::new();
    let mut i: usize = 0;
    assert(fetched@.take(0) =~= Seq::<(TopicPartition, Option<(i64, i64)>)>::empty());
    while i < fetched.len()
        invariant
            i <= fetched.len(),
            watermarks@ == known_watermarks(fetched@.take(i as int)),
        decreases fetched.len() - i,
    {
        assert(fetched@.take(i + 1).drop_last() =~= fetched@.take(i as int));
        if let Some(pair) = fetched[i].1 {
            watermarks.insert(fetched[i].0.clone(), pair);
        }
        i += 1;
    }
    assert(fetched@.take(i as int) =~= fetched@);
    watermarks
}

/// A group member, with what its stored assignment says; an assignment that cannot be had is
/// empty.
pub fn member_info(
    member_id: String,
    client_id: String,
    client_host: String,
    assignment: Option<&[u8]>,
) -> (member: GroupMemberInfo)
    requires
        assignment matches Some(data) ==> readable(data@),
    ensures
        member.member_id@ == member_id@,
        member.client_id@ == client_id@,
        member.client_host@ == client_host@,
        views(member.assignments@) == (match assigned_partitions(
            match assignment {
                Some(data) => Some(data@),
                None => None,
            },
        ) {
            Some(partitions) => partitions,
            None => Seq::empty(),
        }),
{
    let assignments = match parse_member_assignment(assignment) {
        Some(list) => list,
        None => {
            let none: Vec<TopicPartition> = Vec::new();
            assert(views(none@) =~= Seq::empty());
            none
        },
    };
    GroupMemberInfo { member_id, client_id, client_host, assignments }
}

} // verus!

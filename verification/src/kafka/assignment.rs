//! The binary form in which a group member's assignment is stored.
//!
//! A version (two bytes), the number of topics (four bytes), and for each topic its name with a
//! length of two bytes in front, the number of partitions (four bytes) and the partitions (four
//! bytes each). Numbers are big-endian and signed. What follows is not read.

use crate::collector::offset_collector::Tp;
use crate::kafka::client::TopicPartition;
use crate::text::{bytes_text, lossy_text};
use crate::views::{views, views_push};
use vstd::prelude::*;
use vstd::slice::slice_subrange;

verus! {

broadcast use views_push;

/// The signed number in the two bytes from `i` on.
pub open spec fn number16(data: Seq<u8>, i: int) -> int {
    let raw = data[i] * 0x100 + data[i + 1];
    if raw >= 0x8000 {
        raw - 0x1_0000
    } else {
        raw
    }
}

/// The signed number in the four bytes from `i` on.
pub open spec fn number32(data: Seq<u8>, i: int) -> int {
    let raw = data[i] * 0x100_0000 + data[i + 1] * 0x1_0000 + data[i + 2] * 0x100 + data[i + 3];
    if raw >= 0x8000_0000 {
        raw - 0x1_0000_0000
    } else {
        raw
    }
}

/// How many partitions can be read of the `wanted` ones whose list starts at `at`.
pub open spec fn partitions_read(data: Seq<u8>, at: int, wanted: int) -> int {
    let room = (data.len() - at) / 4;
    if wanted <= 0 {
        0
    } else if wanted < room {
        wanted
    } else {
        room
    }
}

/// What the topic at `pos` holds: its name's bytes, where its partition list starts, and how
/// many partitions can be read; nothing where the data ends before.
pub open spec fn topic_at(data: Seq<u8>, pos: int) -> Option<(Seq<u8>, int, int)> {
    if data.len() < pos + 2 {
        None
    } else {
        let name_at = pos + 2;
        let len = number16(data, pos);
        if len < 0 || data.len() < name_at + len + 4 {
            None
        } else {
            let list_at = name_at + len + 4;
            Some(
                (
                    data.subrange(name_at, name_at + len),
                    list_at,
                    partitions_read(data, list_at, number32(data, list_at - 4)),
                ),
            )
        }
    }
}

/// The partitions of at most `n` topics from `pos` on. Reading stops where the data ends.
pub open spec fn topics_from(data: Seq<u8>, pos: int, n: int) -> Seq<Tp>
    decreases n,
{
    if n <= 0 {
        Seq::empty()
    } else {
        match topic_at(data, pos) {
            Some((name, list_at, count)) => Seq::new(
                count as nat,
                |i: int| (bytes_text(name), number32(data, list_at + 4 * i) as i32),
            ) + topics_from(data, list_at + 4 * count, n - 1),
            None => Seq::empty(),
        }
    }
}

/// The first negative length, of at most `n` topic names from `pos` on, that leads back into the
/// data.
pub open spec fn unsound_length(data: Seq<u8>, pos: int, n: int) -> Option<int>
    decreases n,
{
    if n <= 0 || data.len() < pos + 2 {
        None
    } else {
        let len = number16(data, pos);
        if len < 0 && pos + 2 + len >= 0 {
            Some(len)
        } else {
            match topic_at(data, pos) {
                Some((_, list_at, count)) => unsound_length(data, list_at + 4 * count, n - 1),
                None => None,
            }
        }
    }
}

/// The topic name length that keeps an assignment from being read.
pub open spec fn obstacle(data: Seq<u8>) -> Option<int> {
    if data.len() < 6 {
        None
    } else {
        unsound_length(data, 6, number32(data, 2))
    }
}

/// Whether an assignment can be read: it is too short to hold anything, or all its lengths are
/// sound.
pub open spec fn readable(data: Seq<u8>) -> bool {
    obstacle(data) is None
}

/// The partitions of an assignment; nothing where there is no assignment, or one that is too
/// short to have a number of topics.
pub open spec fn assigned_partitions(assignment: Option<Seq<u8>>) -> Option<Seq<Tp>> {
    match assignment {
        Some(data) => if data.len() < 6 {
            None
        } else {
            Some(topics_from(data, 6, number32(data, 2)))
        },
        None => None,
    }
}

/// Reads a signed number of two bytes.
fn read16(data: &[u8], i: usize) -> (n: i16)
    requires
        i + 2 <= data@.len(),
    ensures
        n == number16(data@, i as int),
{
    let raw: i32 = data[i] as i32 * 0x100 + data[i + 1] as i32;
    if raw >= 0x8000 {
        (raw - 0x1_0000) as i16
    } else {
        raw as i16
    }
}

/// Reads a signed number of four bytes.
fn read32(data: &[u8], i: usize) -> (n: i32)
    requires
        i + 4 <= data@.len(),
    ensures
        n == number32(data@, i as int),
{
    let raw: i64 = data[i] as i64 * 0x100_0000 + data[i + 1] as i64 * 0x1_0000 + data[i + 2] as i64
        * 0x100 + data[i + 3] as i64;
    if raw >= 0x8000_0000 {
        (raw - 0x1_0000_0000) as i32
    } else {
        raw as i32
    }
}

/// The length of a topic name that leads back into the data.
#[derive(Debug, Clone, Copy, PartialEq, Eq, Structural)]
pub struct UnsoundLength {
    pub length: i16,
}

/// Reads an assignment, or says which topic name length is not sound.
pub fn try_parse_member_assignment(assignment: Option<&[u8]>) -> (parsed: Result<
    Option<Vec<TopicPartition>>,
    UnsoundLength,
>)
    ensures
        parsed is Ok <==> (assignment matches Some(data) ==> readable(data@)),
        parsed matches Err(e) ==> (assignment matches Some(data) && obstacle(data@) == Some(
            e.length as int,
        )),
        parsed matches Ok(list) ==> match (list, assigned_partitions(
            match assignment {
                Some(data) => Some(data@),
                None => None,
            },
        )) {
            (Some(list), Some(partitions)) => views(list@) == partitions,
            (None, None) => true,
            _ => false,
        },
{
    let data = match assignment {
        Some(data) => data,
        None => {
            return Ok(None);
        },
    };
    let end: usize = data.len();
    if end < 6 {
        return Ok(None);
    }
    let num_topics: i32 = read32(data, 2);
    let ghost wanted = topics_from(data@, 6, num_topics as int);
    let mut assignments: Vec<TopicPartition> = Vec::new();
    let mut pos: usize = 6;
    let mut left: i32 = num_topics;
    assert(views(assignments@) =~= Seq::<Tp>::empty());
    assert(views(assignments@) + topics_from(data@, 6, num_topics as int) =~= wanted);
    while left > 0
        invariant
            assignment == Some(data),
            end == data@.len(),
            6 <= pos <= end,
            num_topics == number32(data@, 2),
            left <= num_topics,
            wanted == topics_from(data@, 6, num_topics as int),
            views(assignments@) + topics_from(data@, pos as int, left as int) == wanted,
            unsound_length(data@, pos as int, left as int) == obstacle(data@),
        ensures
            obstacle(data@) is None,
            views(assignments@) =~= wanted,
        decreases left,
    {
        if end - pos < 2 {
            break ;
        }
        let length: i16 = read16(data, pos);
        if length < 0 {
            if pos + 2 >= -(length as i64) as usize {
                return Err(UnsoundLength { length });
            }
            break ;
        }
        let name_len: usize = length as usize;
        let name_at: usize = pos + 2;
        if end - name_at < name_len {
            break ;
        }
        let name_end: usize = name_at + name_len;
        let topic = lossy_text(slice_subrange(data, name_at, name_end));
        if end - name_end < 4 {
            break ;
        }
        let num_partitions: i32 = read32(data, name_end);
        let list_at: usize = name_end + 4;
        let ghost count = partitions_read(data@, list_at as int, num_partitions as int);
        let ghost before = views(assignments@);
        let ghost listed = Seq::new(
            count as nat,
            |i: int| (topic@, number32(data@, list_at + 4 * i) as i32),
        );
        let mut at: usize = list_at;
        let mut i: i32 = 0;
        while i < num_partitions && end - at >= 4
            invariant
                end == data@.len(),
                list_at <= end,
                0 <= i <= count,
                count == partitions_read(data@, list_at as int, num_partitions as int),
                at == list_at + 4 * i,
                at <= end,
                listed == Seq::new(
                    count as nat,
                    |i: int| (topic@, number32(data@, list_at + 4 * i) as i32),
                ),
                views(assignments@) =~= before + listed.take(i as int),
            ensures
                i == count,
            decreases num_partitions - i,
        {
            let partition: i32 = read32(data, at);
            assignments.push(TopicPartition::new(topic.as_str(), partition));
            assert(listed.take(i + 1) =~= listed.take(i as int).push(listed[i as int]));
            at += 4;
            i += 1;
        }
        assert(listed.take(i as int) =~= listed);
        proof {
            assert(topic_at(data@, pos as int) == Some(
                (data@.subrange(name_at as int, name_end as int), list_at as int, count),
            ));
            let rest = topics_from(data@, at as int, left - 1);
            assert(topics_from(data@, pos as int, left as int) == listed + rest);
            assert(before + listed + rest =~= before + (listed + rest));
        }
        pos = at;
        left -= 1;
    }
    Ok(Some(assignments))
}

/// Reads an assignment.
pub fn parse_member_assignment(assignment: Option<&[u8]>) -> (parsed: Option<Vec<TopicPartition>>)
    requires
        assignment matches Some(data) ==> readable(data@),
    ensures
        match (parsed, assigned_partitions(
            match assignment {
                Some(data) => Some(data@),
                None => None,
            },
        )) {
            (Some(list), Some(partitions)) => views(list@) == partitions,
            (None, None) => true,
            _ => false,
        },
{
    match try_parse_member_assignment(assignment) {
        Ok(parsed) => parsed,
        Err(_) => None,
    }
}

} // verus!

//! What holds of every assignment that is written as it should be.

use crate::collector::offset_collector::Tp;
use crate::kafka::assignment::{
    assigned_partitions, number16, number32, partitions_read, readable, topic_at, topics_from,
    unsound_length,
};
use crate::text::bytes_text;
use vstd::prelude::*;
use vstd::utf8::{encode_utf8, encode_utf8_decode_utf8, encode_utf8_valid_utf8};

verus! {

/// A topic as it is written: the bytes of its name, and its partitions.
pub type WrittenTopic = (Seq<u8>, Seq<i32>);

/// A number below 2^15 in two bytes.
pub open spec fn bytes16(n: int) -> Seq<u8> {
    seq![(n / 0x100) as u8, (n % 0x100) as u8]
}

/// A signed number in four bytes.
pub open spec fn bytes32(n: int) -> Seq<u8> {
    let raw = if n < 0 {
        n + 0x1_0000_0000
    } else {
        n
    };
    seq![
        (raw / 0x100_0000) as u8,
        (raw / 0x1_0000 % 0x100) as u8,
        (raw / 0x100 % 0x100) as u8,
        (raw % 0x100) as u8,
    ]
}

/// Partitions, four bytes each.
pub open spec fn partition_bytes(partitions: Seq<i32>) -> Seq<u8> {
    Seq::new(
        (4 * partitions.len()) as nat,
        |i: int| bytes32(partitions[i / 4] as int)[i % 4],
    )
}

/// A topic in bytes.
pub open spec fn topic_bytes(topic: WrittenTopic) -> Seq<u8> {
    bytes16(topic.0.len() as int) + topic.0 + bytes32(topic.1.len() as int) + partition_bytes(
        topic.1,
    )
}

/// Topics in bytes.
pub open spec fn topics_bytes(topics: Seq<WrittenTopic>) -> Seq<u8>
    decreases topics.len(),
{
    if topics.len() == 0 {
        Seq::empty()
    } else {
        topic_bytes(topics[0]) + topics_bytes(topics.drop_first())
    }
}

/// An assignment in bytes, with whatever follows it.
pub open spec fn assignment_bytes(
    version: Seq<u8>,
    topics: Seq<WrittenTopic>,
    tail: Seq<u8>,
) -> Seq<u8> {
    version + bytes32(topics.len() as int) + topics_bytes(topics) + tail
}

/// Whether names and lists are short enough for their length fields.
pub open spec fn writable(topics: Seq<WrittenTopic>) -> bool {
    &&& topics.len() < 0x8000_0000
    &&& forall|i: int|
        0 <= i < topics.len() ==> (#[trigger] topics[i]).0.len() < 0x8000 && topics[i].1.len()
            < 0x8000_0000
}

/// The partitions of one topic.
pub open spec fn partitions_of(topic: WrittenTopic) -> Seq<Tp> {
    Seq::new(topic.1.len(), |i: int| (bytes_text(topic.0), topic.1[i]))
}

/// The partitions of all topics.
pub open spec fn all_partitions(topics: Seq<WrittenTopic>) -> Seq<Tp>
    decreases topics.len(),
{
    if topics.len() == 0 {
        Seq::empty()
    } else {
        partitions_of(topics[0]) + all_partitions(topics.drop_first())
    }
}

/// What was written is what is read: every partition of every topic, in order, whatever the
/// version says and whatever follows the topics.
pub proof fn assignment_reads_back(version: Seq<u8>, topics: Seq<WrittenTopic>, tail: Seq<u8>)
    requires
        version.len() == 2,
        writable(topics),
    ensures
        readable(assignment_bytes(version, topics, tail)),
        assigned_partitions(Some(assignment_bytes(version, topics, tail))) == Some(
            all_partitions(topics),
        ),
{
    let data = assignment_bytes(version, topics, tail);
    assert(data.skip(6) =~= topics_bytes(topics) + tail);
    let n = topics.len() as int;
    assert(data[2] == bytes32(n)[0]);
    assert(data[3] == bytes32(n)[1]);
    assert(data[4] == bytes32(n)[2]);
    assert(data[5] == bytes32(n)[3]);
    number32_reads(data, 2, n);
    topics_read_back(data, 6, topics, tail);
}

proof fn number32_reads(data: Seq<u8>, i: int, n: int)
    requires
        -0x8000_0000 <= n < 0x8000_0000,
        data[i] == bytes32(n)[0],
        data[i + 1] == bytes32(n)[1],
        data[i + 2] == bytes32(n)[2],
        data[i + 3] == bytes32(n)[3],
    ensures
        number32(data, i) == n,
{
    let raw = if n < 0 {
        n + 0x1_0000_0000
    } else {
        n
    };
    assert(raw / 0x1_0000 == raw / 0x100_0000 * 0x100 + raw / 0x1_0000 % 0x100);
    assert(raw / 0x100 == raw / 0x1_0000 * 0x100 + raw / 0x100 % 0x100);
    assert(raw == raw / 0x100 * 0x100 + raw % 0x100);
}

/// Where a written topic's parts stand in the data, and what follows it.
proof fn first_topic_stands(data: Seq<u8>, pos: int, topics: Seq<WrittenTopic>, tail: Seq<u8>)
    requires
        0 <= pos <= data.len(),
        data.skip(pos) == topics_bytes(topics) + tail,
        writable(topics),
        topics.len() > 0,
    ensures
        ({
            let topic = topics[0];
            let rest = topics.drop_first();
            let len = topic.0.len() as int;
            let list_at = pos + 2 + len + 4;
            let next = list_at + 4 * topic.1.len();
            &&& next <= data.len()
            &&& number16(data, pos) == len
            &&& data.subrange(pos + 2, pos + 2 + len) == topic.0
            &&& number32(data, list_at - 4) == topic.1.len()
            &&& forall|i: int|
                0 <= i < topic.1.len() ==> number32(data, list_at + 4 * i) == #[trigger] topic.1[i]
            &&& data.skip(next) == topics_bytes(rest) + tail
            &&& writable(rest)
        }),
{
    let topic = topics[0];
    let rest = topics.drop_first();
    let len = topic.0.len() as int;
    let count = topic.1.len() as int;
    let head = topic_bytes(topic);
    let list_at = pos + 2 + len + 4;
    let next = list_at + 4 * count;
    assert(topic.0.len() < 0x8000 && topic.1.len() < 0x8000_0000);
    assert(topics_bytes(topics) == head + topics_bytes(rest));
    assert(data.skip(pos).len() == data.len() - pos);
    assert forall|k: int| 0 <= k < head.len() implies data[pos + k] == #[trigger] head[k] by {
        assert(data.skip(pos)[k] == data[pos + k]);
        assert((topics_bytes(topics) + tail)[k] == topics_bytes(topics)[k]);
        assert(topics_bytes(topics)[k] == head[k]);
    }
    assert(head.len() == 2 + len + 4 + 4 * count);
    assert(data[pos] == head[0]);
    assert(data[pos + 1] == head[1]);
    assert(data.subrange(pos + 2, pos + 2 + len) =~= topic.0) by {
        assert forall|k: int| 0 <= k < len implies data[pos + 2 + k] == topic.0[k] by {
            assert(head[2 + k] == topic.0[k]);
        }
    }
    assert(head[2 + len] == bytes32(count)[0]);
    assert(head[2 + len + 1] == bytes32(count)[1]);
    assert(head[2 + len + 2] == bytes32(count)[2]);
    assert(head[2 + len + 3] == bytes32(count)[3]);
    number32_reads(data, pos + 2 + len, count);
    assert forall|i: int| 0 <= i < count implies number32(data, list_at + 4 * i)
        == #[trigger] topic.1[i] by {
        let at = 2 + len + 4 + 4 * i;
        assert(head[at] == partition_bytes(topic.1)[4 * i]);
        assert(head[at + 1] == partition_bytes(topic.1)[4 * i + 1]);
        assert(head[at + 2] == partition_bytes(topic.1)[4 * i + 2]);
        assert(head[at + 3] == partition_bytes(topic.1)[4 * i + 3]);
        number32_reads(data, list_at + 4 * i, topic.1[i] as int);
    }
    assert(data.skip(next) =~= topics_bytes(rest) + tail) by {
        assert(data.skip(pos) =~= head + (topics_bytes(rest) + tail));
        assert forall|k: int| 0 <= k < data.skip(next).len() implies data.skip(next)[k] == (
        topics_bytes(rest) + tail)[k] by {
            assert(data.skip(pos)[head.len() + k] == (head + (topics_bytes(rest) + tail))[head.len()
                + k]);
        }
    }
    assert forall|i: int| 0 <= i < rest.len() implies (#[trigger] rest[i]).0.len() < 0x8000
        && rest[i].1.len() < 0x8000_0000 by {
        assert(rest[i] == topics[i + 1]);
    }
}

proof fn topics_read_back(data: Seq<u8>, pos: int, topics: Seq<WrittenTopic>, tail: Seq<u8>)
    requires
        0 <= pos <= data.len(),
        data.skip(pos) == topics_bytes(topics) + tail,
        writable(topics),
    ensures
        topics_from(data, pos, topics.len() as int) == all_partitions(topics),
        unsound_length(data, pos, topics.len() as int) is None,
    decreases topics.len(),
{
    if topics.len() > 0 {
        let topic = topics[0];
        let count = topic.1.len() as int;
        let list_at = pos + 2 + topic.0.len() + 4;
        first_topic_stands(data, pos, topics, tail);
        assert(topic_at(data, pos) == Some((topic.0, list_at, count)));
        assert(listed(data, topic.0, list_at, count) =~= partitions_of(topic));
        topics_read_back(data, list_at + 4 * count, topics.drop_first(), tail);
    }
}

/// The partitions in a list of `count` from `list_at` on, under a topic name.
spec fn listed(data: Seq<u8>, name: Seq<u8>, list_at: int, count: int) -> Seq<Tp> {
    Seq::new(count as nat, |i: int| (bytes_text(name), number32(data, list_at + 4 * i) as i32))
}

/// An assignment that was cut anywhere after its number of topics can be read, and gives the
/// first partitions of what was written, in order; none is made up.
pub proof fn cut_assignment_reads_a_prefix(
    version: Seq<u8>,
    topics: Seq<WrittenTopic>,
    tail: Seq<u8>,
    n: int,
)
    requires
        version.len() == 2,
        writable(topics),
        not_negative_ids(topics),
        6 <= n <= assignment_bytes(version, topics, tail).len(),
    ensures
        ({
            let cut = assignment_bytes(version, topics, tail).take(n);
            &&& readable(cut)
            &&& assigned_partitions(Some(cut)) matches Some(partitions)
                && partitions.is_prefix_of(all_partitions(topics))
        }),
{
    let data = assignment_bytes(version, topics, tail);
    let cut = data.take(n);
    let count = topics.len() as int;
    assert(data.skip(6) =~= topics_bytes(topics) + tail);
    assert(cut[2] == bytes32(count)[0]);
    assert(cut[3] == bytes32(count)[1]);
    assert(cut[4] == bytes32(count)[2]);
    assert(cut[5] == bytes32(count)[3]);
    number32_reads(cut, 2, count);
    cut_topics_read_a_prefix(data, n, 6, topics, tail);
}

/// Whether no partition is negative.
pub open spec fn not_negative_ids(topics: Seq<WrittenTopic>) -> bool {
    forall|t: int, i: int|
        0 <= t < topics.len() && 0 <= i < topics[t].1.len() ==> 0 <= #[trigger] topics[t].1[i]
}

proof fn cut_topics_read_a_prefix(
    data: Seq<u8>,
    n: int,
    pos: int,
    topics: Seq<WrittenTopic>,
    tail: Seq<u8>,
)
    requires
        0 <= pos <= n <= data.len(),
        data.skip(pos) == topics_bytes(topics) + tail,
        writable(topics),
        not_negative_ids(topics),
    ensures
        topics_from(data.take(n), pos, topics.len() as int).is_prefix_of(all_partitions(topics)),
        unsound_length(data.take(n), pos, topics.len() as int) is None,
    decreases topics.len(),
{
    let cut = data.take(n);
    if topics.len() > 0 && n >= pos + 2 {
        let topic = topics[0];
        let rest = topics.drop_first();
        let len = topic.0.len() as int;
        let count = topic.1.len() as int;
        let list_at = pos + 2 + len + 4;
        let left = topics.len() - 1;
        first_topic_stands(data, pos, topics, tail);
        assert(number16(cut, pos) == len);
        if list_at <= n {
            assert(cut.subrange(pos + 2, pos + 2 + len) =~= topic.0);
            assert(number32(cut, list_at - 4) == count);
            let read = partitions_read(cut, list_at, count);
            let next = list_at + 4 * read;
            assert(topic_at(cut, pos) == Some((topic.0, list_at, read)));
            let mine = listed(cut, topic.0, list_at, read);
            assert(mine =~= partitions_of(topic).take(read)) by {
                assert forall|i: int| 0 <= i < read implies mine[i] == partitions_of(topic)[i] by {
                    assert(number32(cut, list_at + 4 * i) == number32(data, list_at + 4 * i));
                    assert(number32(data, list_at + 4 * i) == topic.1[i]);
                }
            }
            if read == count {
                assert(not_negative_ids(rest)) by {
                    assert forall|t: int, i: int|
                        0 <= t < rest.len() && 0 <= i < rest[t].1.len() implies 0
                        <= #[trigger] rest[t].1[i] by {
                        assert(rest[t] == topics[t + 1]);
                        assert(0 <= topics[t + 1].1[i]);
                    }
                }
                cut_topics_read_a_prefix(data, n, next, rest, tail);
                let others = topics_from(cut, next, left);
                assert((mine + others).is_prefix_of(partitions_of(topic) + all_partitions(rest)));
            } else {
                assert(n - next < 4);
                assert(topic_at(cut, next) is None);
                assert(topics_from(cut, next, left) =~= Seq::empty());
                if n >= next + 2 {
                    assert(0 <= topics[0].1[read]);
                    assert(number32(data, next) == topic.1[read]);
                    assert(number16(cut, next) == number16(data, next));
                    assert(number16(data, next) >= 0);
                }
                assert(unsound_length(cut, next, left) is None);
                assert(mine + topics_from(cut, next, left) =~= mine);
                assert(mine.is_prefix_of(partitions_of(topic) + all_partitions(rest)));
            }
        } else {
            assert(topic_at(cut, pos) is None);
        }
    }
}

/// A topic name that was written as UTF-8 is read as it was.
pub proof fn names_read_back(name: Seq<char>)
    ensures
        bytes_text(encode_utf8(name)) == name,
{
    encode_utf8_valid_utf8(name);
    encode_utf8_decode_utf8(name);
}

/// Whatever the bytes are, no more partitions are read than the data has room for.
pub proof fn no_more_than_there_is_room_for(data: Seq<u8>, pos: int, n: int)
    requires
        0 <= pos <= data.len(),
    ensures
        4 * topics_from(data, pos, n).len() <= data.len() - pos,
    decreases n,
{
    if n > 0 {
        if let Some((_, list_at, count)) = topic_at(data, pos) {
            no_more_than_there_is_room_for(data, list_at + 4 * count, n - 1);
        }
    }
}

} // verus!

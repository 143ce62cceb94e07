//! What holds of every snapshot, and of what is asked for to make one.

use crate::collector::caches::{
    known_compacted, known_compaction, push_contains, unknown_topics, CompactionEntry,
};
use crate::collector::offset_collector::{
    allowed_flags, allowed_groups, allowed_partitions, allowed_topics, group_view, paired,
    topic_partitions, MetadataTopic, Tp,
};
use crate::kafka::admin::DescriptionView;
use crate::kafka::client::{known_watermarks, ConsumerGroupInfo, TopicPartition};
use crate::keymap::{
    flagged, has_key, kept, kept_is_part, lookup, lookup_finds, lookup_is_some, put_reads_back,
    unique_keys, with_names,
};
use crate::text::{flat, flat_holds, flat_origin};
use vstd::prelude::*;

verus! {

/// A described group keeps its name, state and members. The offsets it is shown with are those
/// that were fetched under its own name, `fetched[k]`, on the topics that are allowed: each of
/// them, and nothing else.
pub proof fn groups_are_shown_with_their_own_offsets(
    description: DescriptionView,
    fetched: Seq<(Seq<char>, Seq<(Tp, i64)>)>,
    allowed: Seq<Seq<char>>,
    k: int,
    tp: Tp,
)
    requires
        unique_keys(fetched),
        0 <= k < fetched.len(),
        fetched[k].0 == description.group_id,
        unique_keys(fetched[k].1),
    ensures
        ({
            let shown = group_view(description, fetched, allowed);
            &&& shown.group_id == description.group_id
            &&& shown.state == description.state
            &&& shown.members == description.members
            &&& unique_keys(shown.offsets)
            &&& allowed.contains(tp.0) ==> lookup(shown.offsets, tp) == lookup(fetched[k].1, tp)
            &&& !allowed.contains(tp.0) ==> lookup(shown.offsets, tp) is None
            &&& forall|j: int|
                0 <= j < fetched[k].1.len() && allowed.contains(fetched[k].1[j].0.0)
                    ==> shown.offsets.contains(#[trigger] fetched[k].1[j])
            &&& forall|j: int|
                0 <= j < shown.offsets.len() ==> fetched[k].1.contains(#[trigger] shown.offsets[j])
        }),
{
    lookup_finds(fetched, k);
    let mine = fetched[k].1;
    let flags = allowed_flags(mine, allowed);
    let shown = kept(mine, flags);
    kept_is_part(mine, flags);
    kept_lookup(mine, flags, tp);
    lookup_is_some(mine, tp);
    if has_key(mine, tp) {
        let i = choose|i: int| 0 <= i < mine.len() && #[trigger] mine[i].0 == tp;
        lookup_finds(mine, i);
        kept_lookup_at(mine, flags, i);
        assert(flags[i] == allowed.contains(tp.0));
    }
    assert forall|j: int| 0 <= j < mine.len() && allowed.contains(mine[j].0.0) implies shown.contains(
        #[trigger] mine[j],
    ) by {
        assert(flags[j]);
    }
    assert forall|j: int| 0 <= j < shown.len() implies mine.contains(#[trigger] shown[j]) by {
        assert(flagged(mine, flags, shown[j]));
    }
}

/// A group of which no offsets were fetched is shown without any.
pub proof fn groups_without_offsets_are_shown(
    description: DescriptionView,
    fetched: Seq<(Seq<char>, Seq<(Tp, i64)>)>,
    allowed: Seq<Seq<char>>,
)
    requires
        !has_key(fetched, description.group_id),
    ensures
        ({
            let shown = group_view(description, fetched, allowed);
            &&& shown.group_id == description.group_id
            &&& shown.state == description.state
            &&& shown.members == description.members
            &&& shown.offsets.len() == 0
        }),
{
    lookup_is_some(fetched, description.group_id);
}

/// A key that was not there is not kept.
proof fn kept_lookup<A, B>(s: Seq<(A, B)>, flags: Seq<bool>, k: A)
    requires
        unique_keys(s),
    ensures
        !has_key(s, k) ==> lookup(kept(s, flags), k) is None,
{
    let out = kept(s, flags);
    kept_is_part(s, flags);
    lookup_is_some(out, k);
    if has_key(out, k) {
        let i = choose|i: int| 0 <= i < out.len() && #[trigger] out[i].0 == k;
        assert(flagged(s, flags, out[i]));
        let j = choose|j: int| 0 <= j < s.len() && flags[j] && #[trigger] s[j] == out[i];
        assert(s[j].0 == k);
    }
}

/// A pair is kept exactly where its flag is set.
proof fn kept_lookup_at<A, B>(s: Seq<(A, B)>, flags: Seq<bool>, i: int)
    requires
        unique_keys(s),
        0 <= i < s.len(),
    ensures
        lookup(kept(s, flags), s[i].0) == (if flags[i] {
            Some(s[i].1)
        } else {
            None
        }),
{
    let out = kept(s, flags);
    kept_is_part(s, flags);
    lookup_is_some(out, s[i].0);
    if flags[i] {
        assert(out.contains(s[i]));
        let k = choose|k: int| 0 <= k < out.len() && out[k] == s[i];
        lookup_finds(out, k);
    } else if has_key(out, s[i].0) {
        let k = choose|k: int| 0 <= k < out.len() && #[trigger] out[k].0 == s[i].0;
        assert(flagged(s, flags, out[k]));
        let j = choose|j: int| 0 <= j < s.len() && flags[j] && #[trigger] s[j] == out[k];
        if i < j {
            assert(s[i].0 != s[j].0);
        } else if j < i {
            assert(s[j].0 != s[i].0);
        }
    }
}

/// The groups to describe are the listed ones that are allowed, each as often as it is listed,
/// in listing order.
pub proof fn allowed_groups_are_described(groups: Seq<ConsumerGroupInfo>, allowed: Seq<Seq<char>>)
    ensures
        allowed_groups(groups, allowed) == groups.map_values(
            |g: ConsumerGroupInfo| g.group_id@,
        ).filter(|name: Seq<char>| allowed.contains(name)),
    decreases groups.len(),
{
    reveal(Seq::filter);
    let name_of = |g: ConsumerGroupInfo| g.group_id@;
    let good = |name: Seq<char>| allowed.contains(name);
    let f = |g: ConsumerGroupInfo|
        if allowed.contains(g.group_id@) {
            seq![g.group_id@]
        } else {
            Seq::empty()
        };
    assert(allowed_groups(groups, allowed) == flat(groups, f));
    if groups.len() > 0 {
        let shorter = groups.drop_last();
        allowed_groups_are_described(shorter, allowed);
        assert(allowed_groups(shorter, allowed) == flat(shorter, f));
        assert(groups.map_values(name_of).drop_last() =~= shorter.map_values(name_of));
        assert(groups.map_values(name_of).last() == groups.last().group_id@);
        assert(flat(groups, f) =~= groups.map_values(name_of).filter(good));
    } else {
        assert(groups.map_values(name_of) =~= Seq::empty());
        assert(flat(groups, f) =~= groups.map_values(name_of).filter(good));
    }
}

/// The monitored topics are the listed ones that are allowed, in listing order.
pub proof fn allowed_topics_are_monitored(topics: Seq<MetadataTopic>, allowed: Seq<Seq<char>>)
    ensures
        allowed_topics(topics, allowed) == topics.map_values(|t: MetadataTopic| t.name@).filter(
            |name: Seq<char>| allowed.contains(name),
        ),
    decreases topics.len(),
{
    reveal(Seq::filter);
    let name_of = |t: MetadataTopic| t.name@;
    let good = |name: Seq<char>| allowed.contains(name);
    let f = |t: MetadataTopic|
        if allowed.contains(t.name@) {
            seq![t.name@]
        } else {
            Seq::empty()
        };
    assert(allowed_topics(topics, allowed) == flat(topics, f));
    if topics.len() > 0 {
        let shorter = topics.drop_last();
        allowed_topics_are_monitored(shorter, allowed);
        assert(allowed_topics(shorter, allowed) == flat(shorter, f));
        assert(topics.map_values(name_of).drop_last() =~= shorter.map_values(name_of));
        assert(topics.map_values(name_of).last() == topics.last().name@);
        assert(flat(topics, f) =~= topics.map_values(name_of).filter(good));
    } else {
        assert(topics.map_values(name_of) =~= Seq::empty());
        assert(flat(topics, f) =~= topics.map_values(name_of).filter(good));
    }
}

/// The monitored partitions are those of the listed topics that are allowed: every one of them,
/// no other, and no more than there are.
pub proof fn partitions_of_allowed_topics_are_monitored(
    topics: Seq<MetadataTopic>,
    allowed: Seq<Seq<char>>,
    tp: Tp,
)
    ensures
        allowed_partitions(topics, allowed).contains(tp) <==> allowed.contains(tp.0) && exists|t: int|
            0 <= t < topics.len() && (#[trigger] topics[t]).name@ == tp.0
                && topics[t].partitions@.contains(tp.1),
        allowed_partitions(topics, allowed).len() == topics.fold_left(
            0int,
            |n: int, t: MetadataTopic|
                if allowed.contains(t.name@) {
                    n + t.partitions@.len()
                } else {
                    n
                },
        ),
{
    let f = |t: MetadataTopic|
        if allowed.contains(t.name@) {
            topic_partitions(t)
        } else {
            Seq::empty()
        };
    let all = allowed_partitions(topics, allowed);
    assert(all == flat(topics, f));
    if all.contains(tp) {
        let k = choose|k: int| 0 <= k < all.len() && all[k] == tp;
        let origin = flat_origin(topics, f, k);
        let t = topics[origin.0];
        assert(f(t)[origin.1] == tp);
        assert(t.partitions@[origin.1] == tp.1);
        assert(topics[origin.0].name@ == tp.0);
    }
    if allowed.contains(tp.0) && exists|t: int|
        0 <= t < topics.len() && (#[trigger] topics[t]).name@ == tp.0
            && topics[t].partitions@.contains(tp.1) {
        let t = choose|t: int|
            0 <= t < topics.len() && (#[trigger] topics[t]).name@ == tp.0
                && topics[t].partitions@.contains(tp.1);
        let p = choose|p: int|
            0 <= p < topics[t].partitions@.len() && topics[t].partitions@[p] == tp.1;
        flat_holds(topics, f, t, p);
        assert(f(topics[t])[p] == tp);
    }
    partitions_are_counted(topics, allowed);
}

proof fn partitions_are_counted(topics: Seq<MetadataTopic>, allowed: Seq<Seq<char>>)
    ensures
        allowed_partitions(topics, allowed).len() == topics.fold_left(
            0int,
            |n: int, t: MetadataTopic|
                if allowed.contains(t.name@) {
                    n + t.partitions@.len()
                } else {
                    n
                },
        ),
    decreases topics.len(),
{
    reveal_with_fuel(Seq::fold_left, 2);
    let f = |t: MetadataTopic|
        if allowed.contains(t.name@) {
            topic_partitions(t)
        } else {
            Seq::empty()
        };
    assert(allowed_partitions(topics, allowed) == flat(topics, f));
    if topics.len() > 0 {
        partitions_are_counted(topics.drop_last(), allowed);
        assert(allowed_partitions(topics.drop_last(), allowed) == flat(topics.drop_last(), f));
    }
}

/// A partition has watermarks exactly where both ends of its log are known, and they are those
/// two: the earliest offset first.
pub proof fn watermarks_are_both_ends(earliest: Seq<(Tp, i64)>, latest: Seq<(Tp, i64)>, tp: Tp)
    requires
        unique_keys(earliest),
        unique_keys(latest),
    ensures
        unique_keys(paired(earliest, latest)),
        lookup(paired(earliest, latest), tp) == (match (lookup(earliest, tp), lookup(latest, tp)) {
            (Some(low), Some(high)) => Some((low, high)),
            _ => None,
        }),
        forall|a: int, b: int|
            0 <= a < earliest.len() && 0 <= b < latest.len() && (#[trigger] earliest[a]).0 == tp && (
            #[trigger] latest[b]).0 == tp ==> lookup(paired(earliest, latest), tp) == Some(
                (earliest[a].1, latest[b].1),
            ),
    decreases earliest.len(),
{
    if earliest.len() > 0 {
        let shorter = earliest.drop_last();
        let (last, low) = earliest.last();
        shorter_keys_unique(earliest);
        watermarks_are_both_ends(shorter, latest, tp);
        if let Some(high) = lookup(latest, last) {
            put_reads_back(paired(shorter, latest), last, (low, high), tp);
        }
        if last == tp {
            lookup_is_some(shorter, tp);
            if has_key(shorter, tp) {
                let i = choose|i: int| 0 <= i < shorter.len() && #[trigger] shorter[i].0 == tp;
                assert(earliest[i].0 != earliest[earliest.len() - 1].0);
            }
        }
    }
    assert forall|a: int, b: int|
        0 <= a < earliest.len() && 0 <= b < latest.len() && (#[trigger] earliest[a]).0 == tp && (
        #[trigger] latest[b]).0 == tp implies lookup(paired(earliest, latest), tp) == Some(
        (earliest[a].1, latest[b].1),
    ) by {
        lookup_finds(earliest, a);
        lookup_finds(latest, b);
    }
}

/// Keys stay unique when the last pair goes.
pub proof fn shorter_keys_unique<A, B>(s: Seq<(A, B)>)
    requires
        unique_keys(s),
        s.len() > 0,
    ensures
        unique_keys(s.drop_last()),
{
    let shorter = s.drop_last();
    assert forall|i: int, j: int| 0 <= i < j < shorter.len() implies #[trigger] shorter[i].0
        != #[trigger] shorter[j].0 by {
        assert(s[i].0 != s[j].0);
    }
}

/// Of watermarks that were fetched partition by partition, each once, those that came are known,
/// and only those.
pub proof fn fetched_watermarks_are_known(
    fetched: Seq<(TopicPartition, Option<(i64, i64)>)>,
    i: int,
)
    requires
        0 <= i < fetched.len(),
        forall|a: int, b: int|
            0 <= a < b < fetched.len() ==> (#[trigger] fetched[a]).0@ != (#[trigger] fetched[b]).0@,
    ensures
        lookup(known_watermarks(fetched), fetched[i].0@) == fetched[i].1,
        known_watermarks(fetched).len() <= fetched.len(),
        forall|tp: Tp| #[trigger]
            has_key(known_watermarks(fetched), tp) ==> exists|k: int|
                0 <= k < fetched.len() && (#[trigger] fetched[k]).0@ == tp && fetched[k].1 is Some,
{
    known_watermark_at(fetched, i);
    known_watermark_keys(fetched);
}

proof fn known_watermark_keys(fetched: Seq<(TopicPartition, Option<(i64, i64)>)>)
    ensures
        unique_keys(known_watermarks(fetched)),
        known_watermarks(fetched).len() <= fetched.len(),
        forall|tp: Tp| #[trigger]
            has_key(known_watermarks(fetched), tp) ==> exists|k: int|
                0 <= k < fetched.len() && (#[trigger] fetched[k]).0@ == tp && fetched[k].1 is Some,
    decreases fetched.len(),
{
    if fetched.len() > 0 {
        let shorter = fetched.drop_last();
        let before = known_watermarks(shorter);
        known_watermark_keys(shorter);
        assert forall|tp: Tp| #[trigger] has_key(known_watermarks(fetched), tp) implies exists|k: int|
            0 <= k < fetched.len() && (#[trigger] fetched[k]).0@ == tp && fetched[k].1 is Some by {
            if let Some(pair) = fetched.last().1 {
                put_reads_back(before, fetched.last().0@, pair, tp);
                lookup_is_some(before, tp);
                lookup_is_some(known_watermarks(fetched), tp);
                if fetched.last().0@ == tp {
                    assert(fetched[fetched.len() - 1].0@ == tp);
                }
            }
            if has_key(before, tp) {
                let k = choose|k: int|
                    0 <= k < shorter.len() && (#[trigger] shorter[k]).0@ == tp && shorter[k].1
                        is Some;
                assert(fetched[k].0@ == tp);
            }
        }
        if let Some(pair) = fetched.last().1 {
            put_reads_back(before, fetched.last().0@, pair, fetched.last().0@);
        }
    }
}

proof fn known_watermark_at(fetched: Seq<(TopicPartition, Option<(i64, i64)>)>, i: int)
    requires
        0 <= i < fetched.len(),
        forall|a: int, b: int|
            0 <= a < b < fetched.len() ==> (#[trigger] fetched[a]).0@ != (#[trigger] fetched[b]).0@,
    ensures
        lookup(known_watermarks(fetched), fetched[i].0@) == fetched[i].1,
    decreases fetched.len(),
{
    let shorter = fetched.drop_last();
    let before = known_watermarks(shorter);
    let tp = fetched[i].0@;
    known_watermark_keys(shorter);
    if i < shorter.len() {
        assert forall|a: int, b: int| 0 <= a < b < shorter.len() implies (
        #[trigger] shorter[a]).0@ != (#[trigger] shorter[b]).0@ by {
            assert(fetched[a].0@ != fetched[b].0@);
        }
        known_watermark_at(shorter, i);
        assert(fetched[i].0@ != fetched[fetched.len() - 1].0@);
    } else {
        lookup_is_some(before, tp);
        if has_key(before, tp) {
            let k = choose|k: int|
                0 <= k < shorter.len() && (#[trigger] shorter[k]).0@ == tp && shorter[k].1 is Some;
            assert(fetched[k].0@ != fetched[fetched.len() - 1].0@);
        }
    }
    if let Some(pair) = fetched.last().1 {
        put_reads_back(before, fetched.last().0@, pair, tp);
    }
}

/// Whether it was found out about a topic recently that it is compacted, or that it is not.
pub open spec fn found_recently(
    entries: Seq<(Seq<char>, CompactionEntry)>,
    ttl: u64,
    now: u64,
    topic: Seq<char>,
    compacted: bool,
) -> bool {
    exists|e: int|
        0 <= e < entries.len() && (#[trigger] entries[e]).0 == topic && entries[e].1.0 == compacted
            && now - entries[e].1.1 < ttl && (entries[e].1.1 <= now || 0 < ttl)
}

/// A monitored topic is known to be compacted exactly where that was found out recently, and is
/// asked about exactly where nothing was found out recently. Topics that are not monitored are
/// neither.
pub proof fn topics_are_known_or_asked_about(
    entries: Seq<(Seq<char>, CompactionEntry)>,
    ttl: u64,
    now: u64,
    topics: Seq<Seq<char>>,
    topic: Seq<char>,
)
    requires
        unique_keys(entries),
    ensures
        known_compacted(entries, ttl, now, topics).contains(topic) <==> topics.contains(topic)
            && found_recently(entries, ttl, now, topic, true),
        unknown_topics(entries, ttl, now, topics).contains(topic) <==> topics.contains(topic)
            && !found_recently(entries, ttl, now, topic, true) && !found_recently(
            entries,
            ttl,
            now,
            topic,
            false,
        ),
{
    recently_is_known(entries, ttl, now, topic);
    known_compacted_topics(entries, ttl, now, topics, topic);
    let f = |t: Seq<char>|
        if known_compaction(entries, ttl, now, t) is None {
            seq![t]
        } else {
            Seq::empty()
        };
    let unknown = unknown_topics(entries, ttl, now, topics);
    assert(unknown == flat(topics, f));
    if unknown.contains(topic) {
        let k = choose|k: int| 0 <= k < unknown.len() && unknown[k] == topic;
        let origin = flat_origin(topics, f, k);
        assert(f(topics[origin.0])[origin.1] == topic);
        assert(topics[origin.0] == topic);
    }
    if topics.contains(topic) && known_compaction(entries, ttl, now, topic) is None {
        let t = choose|t: int| 0 <= t < topics.len() && topics[t] == topic;
        flat_holds(topics, f, t, 0);
        assert(f(topics[t])[0] == topic);
    }
}

proof fn recently_is_known(
    entries: Seq<(Seq<char>, CompactionEntry)>,
    ttl: u64,
    now: u64,
    topic: Seq<char>,
)
    requires
        unique_keys(entries),
    ensures
        found_recently(entries, ttl, now, topic, true) <==> known_compaction(
            entries,
            ttl,
            now,
            topic,
        ) == Some(true),
        found_recently(entries, ttl, now, topic, false) <==> known_compaction(
            entries,
            ttl,
            now,
            topic,
        ) == Some(false),
{
    lookup_is_some(entries, topic);
    if has_key(entries, topic) {
        let e = choose|e: int| 0 <= e < entries.len() && #[trigger] entries[e].0 == topic;
        lookup_finds(entries, e);
        assert forall|d: int| 0 <= d < entries.len() && (#[trigger] entries[d]).0 == topic implies d
            == e by {
            if d < e {
                assert(entries[d].0 != entries[e].0);
            } else if e < d {
                assert(entries[e].0 != entries[d].0);
            }
        }
    } else {
        assert forall|d: int| 0 <= d < entries.len() implies (#[trigger] entries[d]).0 != topic by {
        }
    }
}

proof fn known_compacted_topics(
    entries: Seq<(Seq<char>, CompactionEntry)>,
    ttl: u64,
    now: u64,
    topics: Seq<Seq<char>>,
    topic: Seq<char>,
)
    ensures
        known_compacted(entries, ttl, now, topics).contains(topic) <==> topics.contains(topic)
            && known_compaction(entries, ttl, now, topic) == Some(true),
    decreases topics.len(),
{
    if topics.len() > 0 {
        let shorter = topics.drop_last();
        known_compacted_topics(entries, ttl, now, shorter, topic);
        push_contains(shorter, topics.last(), topic);
        push_contains(known_compacted(entries, ttl, now, shorter), topics.last(), topic);
        assert(topics =~= shorter.push(topics.last()));
    }
}

/// Names that are added to a set are in it, besides those that were, and no others; none is
/// there twice.
pub proof fn added_names_are_there(names: Seq<Seq<char>>, more: Seq<Seq<char>>, name: Seq<char>)
    ensures
        with_names(names, more).contains(name) <==> names.contains(name) || more.contains(name),
        names.no_duplicates() ==> with_names(names, more).no_duplicates(),
    decreases more.len(),
{
    if more.len() > 0 {
        let shorter = more.drop_last();
        added_names_are_there(names, shorter, name);
        push_contains(shorter, more.last(), name);
        push_contains(with_names(names, shorter), more.last(), name);
        assert(more =~= shorter.push(more.last()));
    }
}

} // verus!

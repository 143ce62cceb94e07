//! What is remembered from one collection cycle to the next. Times are nanoseconds of the
//! process clock.

use crate::kafka::client::{ConsumerGroupInfo, TopicPartition};
use crate::keymap::{
    has_key, kept, kept_is_part, lookup, lookup_finds, lookup_is_some, put, put_reads_back,
    unique_keys, with_name, NameSet, OrderMap,
};
use crate::metrics::registry::{age, elapsed};
use crate::text::{flat, flat_step};
use crate::views::{views, views_push};
use std::sync::Arc;
use vstd::prelude::*;

verus! {

broadcast use views_push;

/// What a cache entry says of a topic: whether it is compacted, and when that was found out.
pub type CompactionEntry = (bool, u64);

/// What is known of a topic: whether it is compacted, as far as that was found out recently.
pub open spec fn known_compaction(
    entries: Seq<(Seq<char>, CompactionEntry)>,
    ttl: u64,
    now: u64,
    topic: Seq<char>,
) -> Option<bool> {
    match lookup(entries, topic) {
        Some((compacted, at)) if age(now, at) < ttl => Some(compacted),
        _ => None,
    }
}

/// The topics that are known to be compacted, each once.
pub open spec fn known_compacted(
    entries: Seq<(Seq<char>, CompactionEntry)>,
    ttl: u64,
    now: u64,
    topics: Seq<Seq<char>>,
) -> Seq<Seq<char>>
    decreases topics.len(),
{
    if topics.len() == 0 {
        Seq::empty()
    } else {
        let before = known_compacted(entries, ttl, now, topics.drop_last());
        if known_compaction(entries, ttl, now, topics.last()) == Some(true) {
            with_name(before, topics.last())
        } else {
            before
        }
    }
}

/// The topics of which nothing is known, or nothing recent.
pub open spec fn unknown_topics(
    entries: Seq<(Seq<char>, CompactionEntry)>,
    ttl: u64,
    now: u64,
    topics: Seq<Seq<char>>,
) -> Seq<Seq<char>> {
    flat(
        topics,
        |t: Seq<char>|
            if known_compaction(entries, ttl, now, t) is None {
                seq![t]
            } else {
                Seq::empty()
            },
    )
}

/// `entries` after the topics in `fetched` were found to be compacted or not.
pub open spec fn with_findings(
    entries: Seq<(Seq<char>, CompactionEntry)>,
    fetched: Seq<Seq<char>>,
    compacted: Seq<Seq<char>>,
    now: u64,
) -> Seq<(Seq<char>, CompactionEntry)>
    decreases fetched.len(),
{
    if fetched.len() == 0 {
        entries
    } else {
        put(
            with_findings(entries, fetched.drop_last(), compacted, now),
            fetched.last(),
            (compacted.contains(fetched.last()), now),
        )
    }
}

/// Which entries belong to topics in `topics`.
pub open spec fn monitored_flags(
    entries: Seq<(Seq<char>, CompactionEntry)>,
    topics: Seq<Seq<char>>,
) -> Seq<bool> {
    Seq::new(entries.len(), |i: int| topics.contains(entries[i].0))
}

/// Remembers for a while which topics are compacted.
pub struct CompactedTopicsCache {
    ttl: u64,
    entries: OrderMap<String, CompactionEntry>,
}

impl CompactedTopicsCache {
    /// How long an entry counts.
    pub closed spec fn ttl(&self) -> u64 {
        self.ttl
    }

    /// What is remembered.
    pub closed spec fn entries(&self) -> Seq<(Seq<char>, CompactionEntry)> {
        self.entries@
    }

    /// An empty cache.
    pub fn new(ttl: u64) -> (cache: Self)
        ensures
            cache.ttl() == ttl,
            cache.entries() == Seq::<(Seq<char>, CompactionEntry)>::empty(),
    {
        CompactedTopicsCache { ttl, entries: OrderMap::new() }
    }

    /// Splits topics into those that are known to be compacted, and those to ask about.
    pub fn partition(&self, monitored_topics: &Vec<String>, now: u64) -> (split: (
        NameSet,
        Vec<String>,
    ))
        ensures
            split.0@ == known_compacted(self.entries(), self.ttl(), now, views(monitored_topics@)),
            views(split.1@) == unknown_topics(
                self.entries(),
                self.ttl(),
                now,
                views(monitored_topics@),
            ),
    {
        let ghost topics = views(monitored_topics@);
        let ghost f = |t: Seq<char>|
            if known_compaction(self.entries(), self.ttl(), now, t) is None {
                seq![t]
            } else {
                Seq::empty()
            };
        let mut compacted = NameSet::new();
        let mut to_fetch: Vec<String> = Vec::new();
        let mut i: usize = 0;
        assert(topics.take(0) =~= Seq::<Seq<char>>::empty());
        while i < monitored_topics.len()
            invariant
                topics == views(monitored_topics@),
                f == (|t: Seq<char>|
                    if known_compaction(self.entries(), self.ttl(), now, t) is None {
                        seq![t]
                    } else {
                        Seq::empty()
                    }),
                i <= monitored_topics.len(),
                compacted@ == known_compacted(
                    self.entries(),
                    self.ttl(),
                    now,
                    topics.take(i as int),
                ),
                views(to_fetch@) =~= flat(topics.take(i as int), f),
            decreases monitored_topics.len() - i,
        {
            proof {
                flat_step(topics, f, i as int);
                assert(topics.take(i + 1).drop_last() =~= topics.take(i as int));
            }
            let topic = &monitored_topics[i];
            let mut known = false;
            if let Some(entry) = self.entries.get(topic) {
                if elapsed(now, entry.1) < self.ttl {
                    known = true;
                    if entry.0 {
                        compacted.insert(topic.as_str());
                    }
                }
            }
            if !known {
                to_fetch.push(topic.clone());
            }
            i += 1;
        }
        assert(topics.take(i as int) =~= topics);
        (compacted, to_fetch)
    }

    /// Notes what was found out about topics.
    pub fn update(&mut self, fetched_topics: &Vec<String>, compacted_result: &NameSet, now: u64)
        ensures
            final(self).ttl() == old(self).ttl(),
            final(self).entries() == with_findings(
                old(self).entries(),
                views(fetched_topics@),
                compacted_result@,
                now,
            ),
    {
        let ghost before = self.entries@;
        let ghost fetched = views(fetched_topics@);
        let mut i: usize = 0;
        assert(fetched.take(0) =~= Seq::<Seq<char>>::empty());
        while i < fetched_topics.len()
            invariant
                fetched == views(fetched_topics@),
                i <= fetched_topics.len(),
                self.ttl == old(self).ttl,
                self.entries@ == with_findings(
                    before,
                    fetched.take(i as int),
                    compacted_result@,
                    now,
                ),
            decreases fetched_topics.len() - i,
        {
            assert(fetched.take(i + 1).drop_last() =~= fetched.take(i as int));
            let compacted = compacted_result.contains(fetched_topics[i].as_str());
            self.entries.insert(fetched_topics[i].clone(), (compacted, now));
            i += 1;
        }
        assert(fetched.take(i as int) =~= fetched);
    }

    /// Forgets topics that are no longer monitored.
    pub fn prune_to(&mut self, monitored_topics: &Vec<String>)
        ensures
            final(self).ttl() == old(self).ttl(),
            final(self).entries() == kept(
                old(self).entries(),
                monitored_flags(old(self).entries(), views(monitored_topics@)),
            ),
    {
        let ghost before = self.entries@;
        let ghost topics = views(monitored_topics@);
        let mut monitored = NameSet::new();
        let mut i: usize = 0;
        while i < monitored_topics.len()
            invariant
                topics == views(monitored_topics@),
                i <= monitored_topics.len(),
                forall|t: Seq<char>| #[trigger]
                    monitored@.contains(t) == topics.take(i as int).contains(t),
            decreases monitored_topics.len() - i,
        {
            let ghost names = monitored@;
            monitored.insert(monitored_topics[i].as_str());
            proof {
                let shorter = topics.take(i as int);
                let longer = topics.take(i + 1);
                assert(longer == shorter.push(topics[i as int]));
                assert forall|t: Seq<char>| #[trigger] monitored@.contains(t) == longer.contains(
                    t,
                ) by {
                    assert(names.contains(t) == shorter.contains(t));
                    push_contains(shorter, topics[i as int], t);
                    push_contains(names, topics[i as int], t);
                }
            }
            i += 1;
        }
        assert(topics.take(i as int) =~= topics);
        let mut flags: Vec<bool> = Vec::new();
        let mut i: usize = 0;
        while i < self.entries.len()
            invariant
                before == self.entries@,
                forall|t: Seq<char>| #[trigger] monitored@.contains(t) == topics.contains(t),
                i <= self.entries@.len(),
                flags@ =~= monitored_flags(before, topics).take(i as int),
            decreases self.entries@.len() - i,
        {
            let known = monitored.contains(self.entries.key_at(i).as_str());
            assert(monitored@.contains(before[i as int].0) == topics.contains(before[i as int].0));
            flags.push(known);
            i += 1;
        }
        assert(flags@ =~= monitored_flags(before, topics));
        self.entries.keep(&flags);
    }
}

/// What pushing adds to a sequence.
pub proof fn push_contains<A>(s: Seq<A>, a: A, b: A)
    ensures
        s.push(a).contains(b) == (s.contains(b) || a == b),
{
    if s.contains(b) {
        let k = choose|k: int| 0 <= k < s.len() && s[k] == b;
        assert(s.push(a)[k] == b);
    }
    if a == b {
        assert(s.push(a)[s.len() as int] == b);
    }
    if s.push(a).contains(b) && a != b {
        let k = choose|k: int| 0 <= k < s.push(a).len() && s.push(a)[k] == b;
        assert(s[k] == b);
    }
}

/// What an entry says, as long as it counts.
pub open spec fn fresh<T>(entry: Option<(T, u64)>, ttl: u64, now: u64) -> Option<T> {
    match entry {
        Some((value, at)) if age(now, at) < ttl => Some(value),
        _ => None,
    }
}

/// What was remembered at `at` is found until its time to live has passed, and then no more;
/// with a time to live of 0 nothing is ever found.
pub proof fn entries_live_for_the_ttl<T>(value: T, at: u64, ttl: u64, now: u64)
    requires
        at <= now,
    ensures
        now - at < ttl ==> fresh(Some((value, at)), ttl, now) == Some(value),
        now - at >= ttl ==> fresh(Some((value, at)), ttl, now) is None,
        ttl == 0 ==> fresh(Some((value, at)), ttl, now) is None,
{
}

/// What was found out about a topic is known until its time to live has passed: until then the
/// topic is not asked about again, and after that it is. Findings about other topics do not
/// change what is known.
pub proof fn findings_are_known_for_the_ttl(
    entries: Seq<(Seq<char>, CompactionEntry)>,
    fetched: Seq<Seq<char>>,
    compacted: Seq<Seq<char>>,
    at: u64,
    ttl: u64,
    now: u64,
    topic: Seq<char>,
)
    requires
        unique_keys(entries),
    ensures
        unique_keys(with_findings(entries, fetched, compacted, at)),
        ({
            let after = with_findings(entries, fetched, compacted, at);
            known_compaction(after, ttl, now, topic) == if fetched.contains(topic) {
                fresh(Some((compacted.contains(topic), at)), ttl, now)
            } else {
                known_compaction(entries, ttl, now, topic)
            }
        }),
    decreases fetched.len(),
{
    if fetched.len() > 0 {
        let shorter = fetched.drop_last();
        findings_are_known_for_the_ttl(entries, shorter, compacted, at, ttl, now, topic);
        put_reads_back(
            with_findings(entries, shorter, compacted, at),
            fetched.last(),
            (compacted.contains(fetched.last()), at),
            topic,
        );
        push_contains(shorter, fetched.last(), topic);
        assert(fetched =~= shorter.push(fetched.last()));
    }
}

/// After pruning, what is known of a monitored topic is what was known before, and of any other
/// topic nothing is known.
pub proof fn pruning_forgets_unmonitored_topics(
    entries: Seq<(Seq<char>, CompactionEntry)>,
    topics: Seq<Seq<char>>,
    ttl: u64,
    now: u64,
    topic: Seq<char>,
)
    requires
        unique_keys(entries),
    ensures
        known_compaction(kept(entries, monitored_flags(entries, topics)), ttl, now, topic) == (
        if topics.contains(topic) {
            known_compaction(entries, ttl, now, topic)
        } else {
            None
        }),
{
    let flags = monitored_flags(entries, topics);
    let after = kept(entries, flags);
    kept_is_part(entries, flags);
    lookup_is_some(entries, topic);
    lookup_is_some(after, topic);
    if has_key(after, topic) {
        let i = choose|i: int| 0 <= i < after.len() && #[trigger] after[i].0 == topic;
        let j = choose|j: int| 0 <= j < entries.len() && flags[j] && entries[j] == after[i];
        lookup_finds(after, i);
        lookup_finds(entries, j);
        assert(topics.contains(entries[j].0));
    } else if has_key(entries, topic) && topics.contains(topic) {
        let j = choose|j: int| 0 <= j < entries.len() && #[trigger] entries[j].0 == topic;
        assert(flags[j]);
        assert(after.contains(entries[j]));
        let i = choose|i: int| 0 <= i < after.len() && after[i] == entries[j];
        assert(after[i].0 == topic);
    }
}

/// The monitored partitions and topics.
pub type MonitoredSet = (Arc<Vec<TopicPartition>>, Arc<Vec<String>>);

/// Remembers for a while which partitions and topics are monitored.
pub struct MetadataCache {
    ttl: u64,
    entry: Option<(MonitoredSet, u64)>,
}

impl MetadataCache {
    /// How long an entry counts; 0 switches the cache off.
    pub closed spec fn ttl(&self) -> u64 {
        self.ttl
    }

    /// What is remembered, and since when.
    pub closed spec fn entry(&self) -> Option<((Seq<TopicPartition>, Seq<String>), u64)> {
        match self.entry {
            Some((set, at)) => Some(((set.0@, set.1@), at)),
            None => None,
        }
    }

    /// An empty cache.
    pub fn new(ttl: u64) -> (cache: Self)
        ensures
            cache.ttl() == ttl,
            cache.entry() is None,
    {
        MetadataCache { ttl, entry: None }
    }

    /// What is remembered, as long as it counts.
    pub fn get(&self, now: u64) -> (set: Option<MonitoredSet>)
        ensures
            fresh(self.entry(), self.ttl(), now) == match set {
                Some(set) => Some((set.0@, set.1@)),
                None => None,
            },
    {
        if self.ttl == 0 {
            return None;
        }
        match &self.entry {
            Some((set, at)) => if elapsed(now, *at) < self.ttl {
                Some((Arc::clone(&set.0), Arc::clone(&set.1)))
            } else {
                None
            },
            None => None,
        }
    }

    /// Remembers partitions and topics, unless the cache is off, and hands them back.
    pub fn set(&mut self, partitions: Vec<TopicPartition>, topics: Vec<String>, now: u64) -> (set:
        MonitoredSet)
        ensures
            set.0@ == partitions@,
            set.1@ == topics@,
            final(self).ttl() == old(self).ttl(),
            final(self).entry() == (if old(self).ttl() == 0 {
                old(self).entry()
            } else {
                Some(((partitions@, topics@), now))
            }),
    {
        let set = (Arc::new(partitions), Arc::new(topics));
        if self.ttl != 0 {
            self.entry = Some(((Arc::clone(&set.0), Arc::clone(&set.1)), now));
        }
        set
    }
}

/// Remembers for a while which consumer groups there are.
pub struct ConsumerGroupsCache {
    ttl: u64,
    entry: Option<(Arc<Vec<ConsumerGroupInfo>>, u64)>,
}

impl ConsumerGroupsCache {
    /// How long an entry counts; 0 switches the cache off.
    pub closed spec fn ttl(&self) -> u64 {
        self.ttl
    }

    /// What is remembered, and since when.
    pub closed spec fn entry(&self) -> Option<(Seq<ConsumerGroupInfo>, u64)> {
        match self.entry {
            Some((groups, at)) => Some((groups@, at)),
            None => None,
        }
    }

    /// An empty cache.
    pub fn new(ttl: u64) -> (cache: Self)
        ensures
            cache.ttl() == ttl,
            cache.entry() is None,
    {
        ConsumerGroupsCache { ttl, entry: None }
    }

    /// What is remembered, as long as it counts.
    pub fn get(&self, now: u64) -> (groups: Option<Arc<Vec<ConsumerGroupInfo>>>)
        ensures
            fresh(self.entry(), self.ttl(), now) == match groups {
                Some(groups) => Some(groups@),
                None => None,
            },
    {
        if self.ttl == 0 {
            return None;
        }
        match &self.entry {
            Some((groups, at)) => if elapsed(now, *at) < self.ttl {
                Some(Arc::clone(groups))
            } else {
                None
            },
            None => None,
        }
    }

    /// Remembers groups, unless the cache is off, and hands them back.
    pub fn set(&mut self, groups: Vec<ConsumerGroupInfo>, now: u64) -> (shared: Arc<
        Vec<ConsumerGroupInfo>,
    >)
        ensures
            shared@ == groups@,
            final(self).ttl() == old(self).ttl(),
            final(self).entry() == (if old(self).ttl() == 0 {
                old(self).entry()
            } else {
                Some((groups@, now))
            }),
    {
        let shared = Arc::new(groups);
        if self.ttl != 0 {
            self.entry = Some((Arc::clone(&shared), now));
        }
        shared
    }
}

} // verus!

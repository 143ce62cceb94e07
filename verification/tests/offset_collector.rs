use klag_exporter::collector::caches::{CompactedTopicsCache, ConsumerGroupsCache, MetadataCache};
use klag_exporter::collector::offset_collector::{
    pair_watermarks, CollectStep, GroupSnapshot, MetadataTopic, OffsetCollector, OffsetsSnapshot,
};
use klag_exporter::config::Granularity;
use klag_exporter::kafka::admin::{BatchedGroupDescription, BatchedMember};
use klag_exporter::kafka::client::{ConsumerGroupInfo, TopicPartition};
use klag_exporter::kafka::replies::OffsetMap;
use klag_exporter::keymap::{NameSet, OrderMap};

const SECOND: u64 = 1_000_000_000;
const MILLI: u64 = 1_000_000;

fn names(list: &[&str]) -> Vec<String> {
    list.iter().map(|s| s.to_string()).collect()
}

fn set(list: &[&str]) -> NameSet {
    let mut s = NameSet::new();
    for n in list {
        s.insert(n);
    }
    s
}

fn group(id: &str) -> ConsumerGroupInfo {
    ConsumerGroupInfo {
        group_id: id.to_string(),
        protocol_type: "consumer".to_string(),
        state: "Stable".to_string(),
    }
}

fn bare_group(id: &str) -> ConsumerGroupInfo {
    ConsumerGroupInfo {
        group_id: id.to_string(),
        protocol_type: String::new(),
        state: String::new(),
    }
}

#[test]
fn test_offsets_snapshot_filtered_groups() {
    let snapshot = OffsetsSnapshot {
        cluster_name: "test".to_string(),
        groups: vec![
            GroupSnapshot {
                group_id: "group1".to_string(),
                state: "Stable".to_string(),
                members: vec![],
                offsets: OrderMap::new(),
            },
            GroupSnapshot {
                group_id: "group2".to_string(),
                state: "Stable".to_string(),
                members: vec![],
                offsets: OrderMap::new(),
            },
        ],
        watermarks: OrderMap::new(),
        compacted_topics: NameSet::new(),
        timestamp_ms: 0,
    };

    let groups = snapshot.filtered_groups();
    assert_eq!(groups.len(), 2);
    assert!(groups.contains(&"group1"));
    assert!(groups.contains(&"group2"));
}

#[test]
fn compacted_cache_empty_cache_requests_all() {
    let cache = CompactedTopicsCache::new(60 * SECOND);
    let topics = names(&["a", "b", "c"]);
    let (cached, to_fetch) = cache.partition(&topics, 0);
    assert!(cached.is_empty());
    assert_eq!(to_fetch, vec!["a", "b", "c"]);
}

#[test]
fn compacted_cache_hit_skips_fetch() {
    let mut cache = CompactedTopicsCache::new(60 * SECOND);
    let topics = names(&["a", "b"]);
    let compacted = set(&["a"]);

    // First partition call: everything needs fetching.
    let (_cached, to_fetch) = cache.partition(&topics, 0);
    assert_eq!(to_fetch.len(), 2);

    // Update with the fetch result.
    cache.update(&to_fetch, &compacted, 0);

    // Second partition call: everything cached.
    let (cached, to_fetch) = cache.partition(&topics, 1);
    assert_eq!(to_fetch.len(), 0);
    assert_eq!(cached.len(), 1);
    assert!(cached.contains("a"));
}

#[test]
fn compacted_cache_expired_entries_re_fetched() {
    let mut cache = CompactedTopicsCache::new(50 * MILLI);
    let topics = names(&["a"]);
    let compacted = set(&["a"]);

    let (_cached, to_fetch) = cache.partition(&topics, 0);
    cache.update(&to_fetch, &compacted, 0);

    // Cached entry is fresh.
    let (cached, to_fetch) = cache.partition(&topics, 0);
    assert!(cached.contains("a"));
    assert!(to_fetch.is_empty());

    // Cached entry is stale: it is returned for fetching again.
    let (cached, to_fetch) = cache.partition(&topics, 70 * MILLI);
    assert!(cached.is_empty());
    assert_eq!(to_fetch, vec!["a"]);
}

#[test]
fn metadata_cache_hit_returns_cached() {
    let mut cache = MetadataCache::new(60 * SECOND);
    assert!(cache.get(0).is_none(), "empty cache should miss");

    let (parts, topics) = cache.set(vec![TopicPartition::new("t", 0)], names(&["t"]), 0);
    assert_eq!(parts.len(), 1);
    assert_eq!(topics.len(), 1);

    let cached = cache.get(1).expect("cache should be populated");
    assert_eq!(cached.0.len(), 1);
    assert_eq!(cached.1.len(), 1);
}

#[test]
fn metadata_cache_disabled_by_zero_ttl() {
    let mut cache = MetadataCache::new(0);
    let (_parts, _topics) = cache.set(vec![TopicPartition::new("t", 0)], names(&["t"]), 0);
    assert!(cache.get(0).is_none(), "zero-TTL cache must never return a hit");
}

#[test]
fn metadata_cache_expires() {
    let mut cache = MetadataCache::new(50 * MILLI);
    let _ = cache.set(vec![], vec![], 0);
    assert!(cache.get(0).is_some());
    assert!(cache.get(70 * MILLI).is_none(), "expired entry must miss");
}

#[test]
fn consumer_groups_cache_hit_returns_cached() {
    let mut cache = ConsumerGroupsCache::new(60 * SECOND);
    assert!(cache.get(0).is_none(), "empty cache should miss");
    let arc = cache.set(vec![bare_group("g")], 0);
    assert_eq!(arc.len(), 1);
    let cached = cache.get(1).expect("should hit after set");
    assert_eq!(cached.len(), 1);
}

#[test]
fn consumer_groups_cache_zero_ttl_disabled() {
    let mut cache = ConsumerGroupsCache::new(0);
    let _arc = cache.set(vec![bare_group("g")], 0);
    assert!(cache.get(0).is_none());
}

#[test]
fn consumer_groups_cache_expires() {
    let mut cache = ConsumerGroupsCache::new(50 * MILLI);
    let _ = cache.set(vec![], 0);
    assert!(cache.get(0).is_some());
    assert!(cache.get(70 * MILLI).is_none());
}

#[test]
fn compacted_cache_prune_removes_unseen_topics() {
    let mut cache = CompactedTopicsCache::new(60 * SECOND);
    let initial = names(&["a", "b"]);
    let compacted = set(&["a"]);
    let (_cached, to_fetch) = cache.partition(&initial, 0);
    cache.update(&to_fetch, &compacted, 0);

    // Only "a" is still monitored. "b"'s cache entry should be dropped.
    let remaining = names(&["a"]);
    cache.prune_to(&remaining);

    let (cached, to_fetch) = cache.partition(&initial, 1);
    assert!(cached.contains("a"));
    assert_eq!(to_fetch, vec!["b"]);
}

#[test]
fn a_cycle_from_start_to_snapshot() {
    let mut collector = OffsetCollector::with_performance(
        Granularity::Partition,
        60 * SECOND,
        60 * SECOND,
        60 * SECOND,
    );
    assert!(matches!(collector.start(0), CollectStep::ListGroups));
    let groups = match collector.groups_listed(vec![group("g1"), group("hidden")], 0) {
        CollectStep::JudgeGroups { groups } => groups,
        _ => unreachable!(),
    };
    assert!(matches!(collector.start(1), CollectStep::JudgeGroups { .. }));
    let allowed_groups = set(&["g1"]);
    match collector.groups_judged(&groups, &allowed_groups) {
        CollectStep::DescribeGroups { group_ids, parse_assignments } => {
            assert_eq!(group_ids, vec!["g1"]);
            assert!(parse_assignments);
        }
        _ => unreachable!(),
    }
    assert!(matches!(collector.groups_described(1), CollectStep::ReadMetadata));
    let listed = vec![
        MetadataTopic { name: "t".to_string(), partitions: vec![0, 1] },
        MetadataTopic { name: "__internal".to_string(), partitions: vec![0] },
    ];
    let allowed = set(&["t"]);
    let topics = match collector.metadata_read(&listed, &allowed, 1) {
        CollectStep::FetchWatermarks { partitions, topics } => {
            assert_eq!(partitions.len(), 2);
            assert_eq!(partitions[1], TopicPartition::new("t", 1));
            topics
        }
        _ => unreachable!(),
    };
    assert_eq!(*topics, vec!["t"]);
    assert!(matches!(collector.groups_described(2), CollectStep::FetchWatermarks { .. }));

    let (compacted, to_fetch) = match collector.offsets_fetched(&topics, 2) {
        CollectStep::FetchCompacted { compacted, to_fetch } => (compacted, to_fetch),
        _ => unreachable!(),
    };
    assert_eq!(to_fetch, vec!["t"]);
    let compacted = collector.compacted_fetched(compacted, &to_fetch, Some(set(&["t"])), &topics, 2);
    assert_eq!(compacted.to_vec(), vec!["t"]);
    match collector.offsets_fetched(&topics, 3) {
        CollectStep::CompactedKnown { compacted } => assert_eq!(compacted.to_vec(), vec!["t"]),
        _ => unreachable!(),
    }
    collector.compacted_known(&topics);

    let mut earliest = OffsetMap::new();
    earliest.insert(TopicPartition::new("t", 0), 1);
    earliest.insert(TopicPartition::new("t", 1), 2);
    let mut latest = OffsetMap::new();
    latest.insert(TopicPartition::new("t", 0), 10);
    let watermarks = pair_watermarks(&earliest, &latest);
    assert_eq!(watermarks.len(), 1);

    let mut mine = OffsetMap::new();
    mine.insert(TopicPartition::new("t", 0), 5);
    mine.insert(TopicPartition::new("__internal", 0), 6);
    let mut offsets: OrderMap<String, OffsetMap> = OrderMap::new();
    offsets.insert("g1".to_string(), mine);
    let snapshot = OffsetCollector::assemble(
        "c",
        vec![
            BatchedGroupDescription {
                group_id: "g1".to_string(),
                state: "Stable".to_string(),
                members: vec![BatchedMember {
                    member_id: "m".to_string(),
                    client_id: "i".to_string(),
                    client_host: "h".to_string(),
                    assignments: vec![],
                }],
            },
            BatchedGroupDescription {
                group_id: "without-offsets".to_string(),
                state: "Empty".to_string(),
                members: vec![],
            },
        ],
        &offsets,
        &allowed,
        watermarks,
        compacted,
        77,
    );
    assert_eq!(snapshot.cluster_name, "c");
    assert_eq!(snapshot.timestamp_ms, 77);
    assert_eq!(snapshot.groups.len(), 2);
    assert_eq!(snapshot.groups[0].offsets.len(), 1);
    assert_eq!(snapshot.groups[0].offsets.get(&TopicPartition::new("t", 0)), Some(&5));
    assert_eq!(snapshot.groups[0].members[0].client_host, "h");
    assert!(snapshot.groups[1].offsets.is_empty());
    assert_eq!(snapshot.get_watermark(&TopicPartition::new("t", 0)), Some((1, 10)));
    assert_eq!(snapshot.get_high_watermark(&TopicPartition::new("t", 0)), Some(10));
    assert_eq!(snapshot.get_high_watermark(&TopicPartition::new("t", 1)), None);
    assert!(snapshot.compacted_topics.contains("t"));
}

#[test]
fn compaction_that_cannot_be_found_out_changes_nothing() {
    let mut collector =
        OffsetCollector::with_performance(Granularity::Topic, 60 * SECOND, 0, 0);
    let topics = names(&["t"]);
    let kept = collector.compacted_fetched(set(&["x"]), &topics, None, &topics, 0);
    assert_eq!(kept.to_vec(), vec!["x"]);
    assert!(matches!(collector.offsets_fetched(&topics, 0), CollectStep::FetchCompacted { .. }));
    match collector.groups_judged(&vec![group("g")], &set(&["g"])) {
        CollectStep::DescribeGroups { parse_assignments, .. } => assert!(!parse_assignments),
        _ => unreachable!(),
    }
}

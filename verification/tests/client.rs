use klag_exporter::kafka::assignment::{
    parse_member_assignment, try_parse_member_assignment, UnsoundLength,
};
use klag_exporter::kafka::client::{collect_watermarks, member_info, TopicPartition};
use klag_exporter::kafka::configs::{find_compacted_topics, ConfigEntry, ResourceConfig};
use klag_exporter::kafka::consumer::{consumer_client_id, ConsumerPool, TimestampFetchResult};
use klag_exporter::kafka::memory::{resident_pages, rss_kb};

fn assignment(topics: &[(&[u8], &[i32])]) -> Vec<u8> {
    let mut data = vec![0, 1];
    data.extend((topics.len() as i32).to_be_bytes());
    for (name, partitions) in topics {
        data.extend((name.len() as i16).to_be_bytes());
        data.extend(*name);
        data.extend((partitions.len() as i32).to_be_bytes());
        for p in *partitions {
            data.extend(p.to_be_bytes());
        }
    }
    data
}

#[test]
fn assignments_read_back() {
    let data = assignment(&[(b"orders", &[0, 7, -1]), ("\u{fc}ber".as_bytes(), &[2])]);
    let read = parse_member_assignment(Some(&data)).unwrap();
    assert_eq!(
        read,
        vec![
            TopicPartition::new("orders", 0),
            TopicPartition::new("orders", 7),
            TopicPartition::new("orders", -1),
            TopicPartition::new("\u{fc}ber", 2),
        ]
    );
}

#[test]
fn odd_bytes_in_a_topic_name_are_replaced() {
    let data = assignment(&[(b"a\xffb", &[0])]);
    let read = parse_member_assignment(Some(&data)).unwrap();
    assert_eq!(read, vec![TopicPartition::new("a\u{fffd}b", 0)]);
}

#[test]
fn short_assignments() {
    assert_eq!(parse_member_assignment(None), None);
    assert_eq!(parse_member_assignment(Some(&[])), None);
    let data = assignment(&[(b"t", &[4, 5])]);
    assert_eq!(parse_member_assignment(Some(&data[..5])), None);
    let cut = parse_member_assignment(Some(&data[..data.len() - 1])).unwrap();
    assert_eq!(cut, vec![TopicPartition::new("t", 4)]);
    let none = assignment(&[]);
    assert_eq!(parse_member_assignment(Some(&none)), Some(vec![]));
}

#[test]
fn cut_assignments_give_a_prefix() {
    let mut data = assignment(&[(b"orders", &[0, 7]), (b"x", &[]), (b"late", &[i32::MAX, 3])]);
    data.extend([1, 2, 3]);
    let whole = parse_member_assignment(Some(&data)).unwrap();
    assert_eq!(whole.len(), 4);
    let mut counts = vec![];
    for n in 6..=data.len() {
        let cut = parse_member_assignment(Some(&data[..n])).unwrap();
        assert_eq!(cut[..], whole[..cut.len()]);
        if counts.last() != Some(&cut.len()) {
            counts.push(cut.len());
        }
    }
    assert_eq!(counts, vec![0, 1, 2, 3, 4]);
    // Half a negative partition looks like the negative length of a name.
    let negative = assignment(&[(b"t", &[-1]), (b"u", &[0])]);
    assert_eq!(
        try_parse_member_assignment(Some(&negative[..15])),
        Err(UnsoundLength { length: -1 })
    );
}

#[test]
fn counts_beyond_the_data_are_no_harm() {
    let mut data = assignment(&[(b"t", &[9])]);
    data[2..6].copy_from_slice(&i32::MAX.to_be_bytes());
    let at = data.len() - 8;
    data[at..at + 4].copy_from_slice(&i32::MAX.to_be_bytes());
    assert_eq!(parse_member_assignment(Some(&data)), Some(vec![TopicPartition::new("t", 9)]));
    data[2..6].copy_from_slice(&(-1i32).to_be_bytes());
    assert_eq!(parse_member_assignment(Some(&data)), Some(vec![]));
}

#[test]
fn names_with_an_unsound_length() {
    let data = [0, 0, 0, 0, 0, 1, 0xff, 0xff, 0, 0, 0, 0];
    assert_eq!(try_parse_member_assignment(Some(&data)), Err(UnsoundLength { length: -1 }));
    assert_eq!(try_parse_member_assignment(None), Ok(None));
    let far = [0, 0, 0, 0, 0, 1, 0x80, 0, 0, 0, 0, 0];
    assert_eq!(try_parse_member_assignment(Some(&far)), Ok(Some(vec![])));
}

#[test]
fn members_with_and_without_an_assignment() {
    let data = assignment(&[(b"t", &[1])]);
    let named = |text: &str| text.to_string();
    let member = member_info(named("m"), named("c"), named("h"), Some(&data));
    assert_eq!(member.member_id, "m");
    assert_eq!(member.client_id, "c");
    assert_eq!(member.client_host, "h");
    assert_eq!(member.assignments, vec![TopicPartition::new("t", 1)]);
    assert!(member_info(named("m"), named("c"), named("h"), None).assignments.is_empty());
}

#[test]
fn watermarks_that_came() {
    let found = vec![
        (TopicPartition::new("t", 0), Some((1, 2))),
        (TopicPartition::new("t", 1), None),
        (TopicPartition::new("t", 0), Some((3, 4))),
    ];
    let map = collect_watermarks(&found);
    assert_eq!(map.len(), 1);
    assert_eq!(map.get(&TopicPartition::new("t", 0)), Some(&(3, 4)));
}

fn resource(topic: Option<&str>, settings: &[(&str, Option<&str>)]) -> Option<ResourceConfig> {
    Some(ResourceConfig {
        topic: topic.map(|t| t.to_string()),
        entries: settings
            .iter()
            .map(|(name, value)| ConfigEntry {
                name: name.to_string(),
                value: value.map(|v| v.to_string()),
            })
            .collect(),
    })
}

#[test]
fn compacted_topics_by_their_policy() {
    let topics = find_compacted_topics(&vec![
        resource(Some("a"), &[("cleanup.policy", Some("compact"))]),
        resource(Some("b"), &[("cleanup.policy", Some("delete"))]),
        None,
        resource(Some("c"), &[("x", Some("compact")), ("cleanup.policy", Some("compact,delete"))]),
        resource(None, &[("cleanup.policy", Some("compact"))]),
        resource(Some("d"), &[("cleanup.policy", None)]),
        resource(Some("e"), &[("retention.ms", Some("compact"))]),
    ]);
    assert_eq!(topics.to_vec(), vec!["a", "c"]);
}

#[test]
fn clients_go_round() {
    let mut pool: ConsumerPool<u32> = ConsumerPool::new(2);
    assert_eq!(pool.pool_size(), 2);
    assert_eq!(pool.acquire(), None);
    pool.release(1, true);
    pool.release(2, false);
    pool.release(3, true);
    pool.release(4, true);
    assert_eq!(pool.acquire(), Some(3));
    assert_eq!(pool.recycle(vec![8, 9]), vec![1]);
    assert_eq!(pool.acquire(), Some(9));
    assert_eq!(pool.acquire(), Some(8));
    assert_eq!(pool.acquire(), None);
    assert_eq!(consumer_client_id("prod", 12), "klag-exporter-ts-prod-12");
    assert_eq!(TimestampFetchResult { timestamp_ms: 3 }.timestamp_ms, 3);
}

#[test]
fn a_pool_is_only_replaced_as_a_whole() {
    let mut pool: ConsumerPool<u32> = ConsumerPool::new(3);
    pool.release(1, true);
    pool.release(2, true);
    assert_eq!(pool.recycle_pool(vec![Ok(7), Err("no"), Ok(8)]), Err("no"));
    assert_eq!(pool.recycle_pool(vec![Err("first"), Err("second")]), Err("first"));
    assert_eq!(pool.recycle_with(Err("down")), Err("down"));
    assert_eq!(pool.pool_size(), 3);
    assert_eq!(pool.acquire(), Some(2));
    pool.release(2, true);
    let replaced: Result<Vec<u32>, &str> = pool.recycle_pool(vec![Ok(7), Ok(8), Ok(9)]);
    assert_eq!(replaced, Ok(vec![1, 2]));
    let replaced: Result<Vec<u32>, &str> = pool.recycle_with(Ok(vec![4, 5, 6]));
    assert_eq!(replaced, Ok(vec![7, 8, 9]));
    assert_eq!(pool.acquire(), Some(6));
    assert_eq!(pool.acquire(), Some(5));
    assert_eq!(pool.acquire(), Some(4));
    assert_eq!(pool.acquire(), None);
    let mut none: ConsumerPool<u32> = ConsumerPool::new(0);
    assert_eq!(none.recycle_pool(Vec::<Result<u32, &str>>::new()), Ok(vec![]));
}

#[test]
fn resident_memory_from_page_counts() {
    assert_eq!(resident_pages("1000 250 30 4 0 99 0\n"), Some(250));
    assert_eq!(rss_kb("1000 250 30"), 1000);
    assert_eq!(rss_kb("  7\t+8"), 32);
    assert_eq!(rss_kb("1000"), 0);
    assert_eq!(rss_kb("1000 x"), 0);
    assert_eq!(rss_kb("1 -8"), 0);
    assert_eq!(rss_kb(""), 0);
    assert_eq!(resident_pages("0 18446744073709551615"), Some(u64::MAX));
    assert_eq!(resident_pages("0 18446744073709551616"), None);
}

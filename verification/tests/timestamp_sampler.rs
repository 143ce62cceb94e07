use klag_exporter::collector::offset_collector::{GroupSnapshot, MemberSnapshot, OffsetsSnapshot};
use klag_exporter::collector::rate_sampler::RateSampler;
use klag_exporter::collector::timestamp_sampler::{
    fallback_scan_offsets, plan_requests, take_estimates, take_reads, take_scans, CachedTimestamp,
    FetchEnd, MessageSampler, SamplePlan, ScanBack, ScanStep, StampRequest, TimestampMap,
    TimestampSampler,
};
use klag_exporter::kafka::client::TopicPartition;
use klag_exporter::keymap::{NameSet, OrderMap};

const SECOND: u64 = 1_000_000_000;
const MILLI: u64 = 1_000_000;

fn snapshot(watermarks: &[(i32, i64, i64)], offsets: &[(i32, i64)]) -> OffsetsSnapshot {
    let mut marks = OrderMap::new();
    for (partition, low, high) in watermarks {
        marks.insert(TopicPartition::new("t", *partition), (*low, *high));
    }
    let mut committed = OrderMap::new();
    for (partition, offset) in offsets {
        committed.insert(TopicPartition::new("t", *partition), *offset);
    }
    let groups = if offsets.is_empty() {
        vec![]
    } else {
        vec![GroupSnapshot {
            group_id: "g".to_string(),
            state: "Stable".to_string(),
            members: vec![] as Vec<MemberSnapshot>,
            offsets: committed,
        }]
    };
    OffsetsSnapshot {
        cluster_name: "c".to_string(),
        groups,
        watermarks: marks,
        compacted_topics: NameSet::new(),
        timestamp_ms: 0,
    }
}

fn stamp(map: &TimestampMap, partition: i32) -> Option<i64> {
    map.get(&("g".to_string(), TopicPartition::new("t", partition))).map(|d| d.timestamp_ms)
}

fn request(partition: i32, committed: i64, low: i64) -> StampRequest {
    StampRequest {
        group_id: "g".to_string(),
        tp: TopicPartition::new("t", partition),
        committed,
        low,
    }
}

#[test]
fn fallback_scan_offsets_walks_back_bounded_by_floor() {
    assert_eq!(
        fallback_scan_offsets(775060, 771303),
        vec![775059, 775058, 775057, 775056, 775055, 775054, 775053, 775052]
    );
    assert_eq!(fallback_scan_offsets(771305, 771303), vec![771304, 771303]);
    assert!(fallback_scan_offsets(771303, 771303).is_empty());
    assert_eq!(fallback_scan_offsets(1, 0), vec![0]);
    assert!(fallback_scan_offsets(0, 0).is_empty());
}

#[test]
fn cached_timestamp_ttl_expiry_check() {
    let now = 1000 * SECOND;
    let cached =
        CachedTimestamp { timestamp_ms: 1000, offset: 100, cached_at: now - 120 * SECOND };
    let cache_ttl = 60 * SECOND;
    assert!(now - cached.cached_at >= cache_ttl);

    let tp = TopicPartition::new("t", 0);
    let mut sampler = MessageSampler::new(cache_ttl);
    sampler.fetched_timestamp("g", &tp, cached.offset, Some(cached.timestamp_ms), cached.cached_at);
    assert_eq!(sampler.cached_timestamp("g", &tp, 100, now), None);
}

#[test]
fn rate_mode_synthesizes_timestamp_from_lag_estimate() {
    let mut sampler = TimestampSampler::new_rate(RateSampler::new(5, 600 * SECOND));

    let snap1 = snapshot(&[(0, 0, 100)], &[]);
    let _ = sampler.compute_time_lags(&snap1, false, 0);

    // 1000 messages in a tenth of a second; the lag is 600 messages.
    let snap2 = snapshot(&[(0, 0, 1100)], &[(0, 500)]);
    let now_ms = 1_000_000_000i64;
    let requests = match sampler.compute_time_lags(&snap2, false, 100 * MILLI) {
        SamplePlan::Estimate(requests) => requests,
        SamplePlan::Read(_) => unreachable!(),
    };
    assert_eq!(requests.len(), 1);
    assert_eq!(requests[0].lag, 600);
    let mut estimates = Vec::new();
    for r in &requests {
        let rate = r.window.messages as f64 / (r.window.nanos as f64 / 1e9);
        estimates.push(Some((r.lag as f64 / rate * 1000.0) as i64));
    }
    let out = take_estimates(&requests, &estimates, now_ms);
    let ts = stamp(&out, 0).expect("should produce a synthetic timestamp");
    let lag_ms = now_ms - ts;
    assert!(lag_ms > 0 && lag_ms < 60_000, "synthetic lag_ms out of sanity range: {lag_ms}");
    assert_eq!(lag_ms, 60);
    assert_eq!(sampler.cache_size(), 1);
}

#[test]
fn estimates_that_cannot_be_trusted_are_left_out() {
    let mut sampler = TimestampSampler::new_rate(RateSampler::new(5, 600 * SECOND));
    let _ = sampler.compute_time_lags(&snapshot(&[(0, 0, 1), (1, 0, 1)], &[]), false, 0);
    let plan = sampler.compute_time_lags(
        &snapshot(&[(0, 0, 9), (1, 0, 1), (2, 0, 5)], &[(0, 3), (1, 0), (2, 1)]),
        false,
        10,
    );
    let requests = match plan {
        SamplePlan::Estimate(requests) => requests,
        SamplePlan::Read(_) => unreachable!(),
    };
    // Partition 1 does not move, partition 2 has one sample only.
    assert_eq!(requests.len(), 1);
    assert_eq!(requests[0].tp, TopicPartition::new("t", 0));
    assert!(take_estimates(&requests, &vec![None], 5).is_empty());
}

#[test]
fn remembered_until_time_or_offset_moves_on() {
    let tp = TopicPartition::new("t", 0);
    let mut sampler = MessageSampler::new(60);
    assert_eq!(sampler.fetched_timestamp("g", &tp, 5, Some(77), 100), Some(77));
    assert_eq!(sampler.cached_timestamp("g", &tp, 5, 159), Some(77));
    assert_eq!(sampler.cached_timestamp("g", &tp, 5, 160), None);
    assert_eq!(sampler.cached_timestamp("g", &tp, 6, 101), None);
    assert_eq!(sampler.cached_timestamp("h", &tp, 5, 101), None);
    assert_eq!(sampler.cached_timestamp("g", &TopicPartition::new("t", 1), 5, 101), None);
    assert_eq!(sampler.fetched_timestamp("h", &tp, 5, None, 120), None);
    assert_eq!(sampler.cache_size(), 1);
    sampler.fetched_timestamp("h", &tp, 9, Some(1), 150);
    assert_eq!(sampler.cache_size(), 2);
    sampler.clear_stale_entries(160);
    assert_eq!(sampler.cache_size(), 1);
    assert_eq!(sampler.cached_timestamp("h", &tp, 9, 160), Some(1));
}

#[test]
fn the_sampler_clears_in_message_mode_only() {
    let tp = TopicPartition::new("t", 0);
    let mut message = TimestampSampler::new_message(60);
    if let TimestampSampler::Message(s) = &mut message {
        s.fetched_timestamp("g", &tp, 1, Some(2), 0);
    }
    assert_eq!(message.cache_size(), 1);
    message.clear_stale_entries(60);
    assert_eq!(message.cache_size(), 0);

    let mut rate = TimestampSampler::new_rate(RateSampler::new(2, 60));
    let _ = rate.compute_time_lags(&snapshot(&[(0, 0, 1)], &[]), false, 0);
    rate.clear_stale_entries(1000);
    assert_eq!(rate.cache_size(), 1);
}

#[test]
fn messages_are_read_where_there_is_lag() {
    let snap = snapshot(
        &[(0, 0, 10), (1, 0, 10), (2, 5, 10), (3, 0, 10)],
        &[(0, 4), (1, 10), (2, 1), (3, 11), (4, 9)],
    );
    let requests = plan_requests(&snap, false);
    let partitions: Vec<i32> = requests.iter().map(|r| r.tp.partition).collect();
    assert_eq!(partitions, vec![0, 2]);
    assert_eq!(requests[1].low, 5);
    assert_eq!(requests[1].committed, 1);
    let mut sampler = TimestampSampler::new_message(1);
    match sampler.compute_time_lags(&snap, true, 0) {
        SamplePlan::Read(requests) => {
            assert_eq!(requests.len(), 1);
            assert_eq!(requests[0].tp.partition, 0);
            assert_eq!(requests[0].group_id, "g");
        }
        SamplePlan::Estimate(_) => unreachable!(),
    }
}

#[test]
fn unread_rows_are_dated_now_or_scanned() {
    let requests = vec![
        request(0, 7, 2),
        request(1, 1, 2),
        request(2, 2, 2),
        request(3, 9, 2),
        request(4, 9, 2),
    ];
    let ends = vec![
        FetchEnd::Read(Some(500)),
        FetchEnd::Read(None),
        FetchEnd::Read(None),
        FetchEnd::Failed,
        FetchEnd::Broken,
    ];
    let (mut out, scans) = take_reads(&requests, &ends, 1000);
    assert_eq!(stamp(&out, 0), Some(500));
    assert_eq!(stamp(&out, 1), Some(1000));
    assert_eq!(out.len(), 2);
    let partitions: Vec<i32> = scans.iter().map(|r| r.tp.partition).collect();
    assert_eq!(partitions, vec![2, 3, 4]);

    take_scans(&mut out, &scans, &vec![None, Some(300), None]);
    assert_eq!(stamp(&out, 2), None);
    assert_eq!(stamp(&out, 3), Some(300));
    assert_eq!(out.len(), 3);
}

#[test]
fn a_search_stops_at_the_first_readable_message() {
    let mut scan = ScanBack::new(10, 7);
    assert_eq!(scan.start(), ScanStep::Probe(9));
    assert_eq!(scan.probed(None), ScanStep::Probe(8));
    assert_eq!(scan.probed(Some(42)), ScanStep::Done(Some(42)));

    let mut scan = ScanBack::new(8, 7);
    assert_eq!(scan.start(), ScanStep::Probe(7));
    assert_eq!(scan.probed(None), ScanStep::Done(None));

    assert_eq!(ScanBack::new(7, 7).start(), ScanStep::Done(None));
}

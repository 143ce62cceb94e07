use klag_exporter::collector::rate_sampler::{
    compute_rate, LagEstimate, RateSampler, RateWindow, WatermarkSample,
};
use klag_exporter::kafka::client::TopicPartition;
use klag_exporter::keymap::OrderMap;
use std::collections::VecDeque;

const SECOND: u64 = 1_000_000_000;
const MILLI: u64 = 1_000_000;

fn tp(topic: &str, partition: i32) -> TopicPartition {
    TopicPartition::new(topic, partition)
}

fn watermarks(list: &[(&str, i32, i64)]) -> OrderMap<TopicPartition, (i64, i64)> {
    let mut map = OrderMap::new();
    for (topic, partition, high) in list {
        map.insert(tp(topic, *partition), (0, *high));
    }
    map
}

fn seconds(estimate: Option<LagEstimate>, floor: f64) -> Option<f64> {
    match estimate {
        None => None,
        Some(LagEstimate::Zero) => Some(0.0),
        Some(LagEstimate::AtRate { lag, window }) => {
            let rate = window.messages as f64 / (window.nanos as f64 / 1e9);
            if rate < floor {
                None
            } else {
                Some(lag as f64 / rate)
            }
        }
    }
}

#[test]
fn single_sample_returns_none() {
    let mut s = RateSampler::new(5, 600 * SECOND);
    s.record_watermarks(&watermarks(&[("t", 0, 100)]), 0);
    assert_eq!(seconds(s.estimate_lag_seconds(&tp("t", 0), 50), 0.01), None);
}

#[test]
fn two_samples_compute_rate() {
    let mut s = RateSampler::new(5, 600 * SECOND);
    s.record_watermarks(&watermarks(&[("t", 0, 100)]), 0);
    s.record_watermarks(&watermarks(&[("t", 0, 1100)]), 250 * MILLI);
    let est = seconds(s.estimate_lag_seconds(&tp("t", 0), 500), 0.01).expect("should compute rate");
    assert!(est > 0.0 && est.is_finite(), "non-positive estimate: {est}");
    // 1000 messages in a quarter of a second: 500 messages take an eighth.
    assert_eq!(est, 0.125);
}

#[test]
fn zero_lag_is_zero_seconds() {
    let mut s = RateSampler::new(5, 600 * SECOND);
    s.record_watermarks(&watermarks(&[("t", 0, 100)]), 0);
    assert_eq!(seconds(s.estimate_lag_seconds(&tp("t", 0), 0), 0.01), Some(0.0));
}

#[test]
fn idle_partition_below_min_rate_returns_none() {
    let mut s = RateSampler::new(5, 600 * SECOND);
    let wm1 = watermarks(&[("t", 0, 100)]);
    s.record_watermarks(&wm1, 0);
    s.record_watermarks(&wm1, 50 * MILLI);
    assert_eq!(seconds(s.estimate_lag_seconds(&tp("t", 0), 10), 100.0), None);
}

#[test]
fn history_bounded_by_max_samples() {
    let mut s = RateSampler::new(3, 600 * SECOND);
    for i in 0..10 {
        s.record_watermarks(&watermarks(&[("t", 0, i)]), i as u64);
    }
    assert_eq!(s.sample_count(&tp("t", 0)), 3, "must be bounded to max_samples");
}

#[test]
fn unmonitored_partitions_pruned() {
    let mut s = RateSampler::new(5, 600 * SECOND);
    s.record_watermarks(&watermarks(&[("t", 0, 100), ("other", 0, 100)]), 0);
    assert_eq!(s.tracked_partitions(), 2);
    s.record_watermarks(&watermarks(&[("t", 0, 101)]), 1);
    assert_eq!(s.tracked_partitions(), 1);
}

#[test]
fn retention_rewind_returns_none() {
    let mut s = RateSampler::new(5, 600 * SECOND);
    s.record_watermarks(&watermarks(&[("t", 0, 1000)]), 0);
    s.record_watermarks(&watermarks(&[("t", 0, 500)]), 30 * MILLI);
    assert_eq!(seconds(s.estimate_lag_seconds(&tp("t", 0), 100), 0.01), None);
}

#[test]
fn samples_past_the_age_leave() {
    let mut s = RateSampler::new(5, 10 * SECOND);
    s.record_watermarks(&watermarks(&[("t", 0, 1)]), 0);
    s.record_watermarks(&watermarks(&[("t", 0, 2)]), 10 * SECOND);
    assert_eq!(s.sample_count(&tp("t", 0)), 2);
    s.record_watermarks(&watermarks(&[("t", 0, 3)]), 10 * SECOND + 1);
    assert_eq!(s.sample_count(&tp("t", 0)), 2);
    let rates = s.rates_snapshot();
    assert_eq!(rates.get(&tp("t", 0)), Some(&RateWindow { messages: 1, nanos: 1 }));
}

#[test]
fn samples_stay_young_and_in_order() {
    let mut s = RateSampler::new(4, 10);
    for (i, at) in [0, 3, 3, 9, 12, 14, 30].into_iter().enumerate() {
        s.record_watermarks(&watermarks(&[("t", 0, 10 * i as i64), ("u", 0, 1)]), at);
        let window = s.rates_snapshot().get(&tp("t", 0)).copied();
        let (count, expected) = match i {
            0 => (1, None),
            1 => (2, Some((10, 3))),
            2 => (3, Some((20, 3))),
            3 => (4, Some((30, 9))),
            // The sample at 0 is too old.
            4 => (4, Some((30, 9))),
            // Those at 3 are too old.
            5 => (3, Some((20, 5))),
            _ => (1, None),
        };
        assert_eq!(s.sample_count(&tp("t", 0)), count);
        assert_eq!(window, expected.map(|(messages, nanos)| RateWindow { messages, nanos }));
    }
}

#[test]
fn at_least_two_samples_are_kept() {
    let mut s = RateSampler::new(0, 600 * SECOND);
    for i in 0..4 {
        s.record_watermarks(&watermarks(&[("t", 0, i)]), i as u64);
    }
    assert_eq!(s.sample_count(&tp("t", 0)), 2);
    s.clear();
    assert_eq!(s.tracked_partitions(), 0);
    assert_eq!(s.sample_count(&tp("t", 0)), 0);
}

#[test]
fn windows_span_from_the_first_to_the_last_sample() {
    let mut samples = VecDeque::new();
    samples.push_back(WatermarkSample { at: 10, hwm: 5 });
    assert_eq!(compute_rate(&samples), None);
    samples.push_back(WatermarkSample { at: 20, hwm: 900 });
    samples.push_back(WatermarkSample { at: 40, hwm: 45 });
    assert_eq!(compute_rate(&samples), Some(RateWindow { messages: 40, nanos: 30 }));
    samples.push_back(WatermarkSample { at: 10, hwm: 60 });
    assert_eq!(compute_rate(&samples), None);
}

#[test]
fn the_widest_growth_fits() {
    let mut samples = VecDeque::new();
    samples.push_back(WatermarkSample { at: 0, hwm: i64::MIN });
    samples.push_back(WatermarkSample { at: 1, hwm: i64::MAX });
    assert_eq!(compute_rate(&samples), Some(RateWindow { messages: u64::MAX, nanos: 1 }));
}

#[test]
fn negative_lag_counts_as_none() {
    let s = RateSampler::new(5, 600 * SECOND);
    assert!(matches!(s.estimate_lag_seconds(&tp("t", 0), -7), Some(LagEstimate::Zero)));
    assert!(s.estimate_lag_seconds(&tp("t", 0), 7).is_none());
}

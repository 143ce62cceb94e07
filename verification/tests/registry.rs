use klag_exporter::collector::lag_calculator::{
    GroupLagMetric, LagMetrics, PartitionLagMetric, PartitionOffsetMetric, RetentionShare,
    TopicLagMetric,
};
use klag_exporter::config::Granularity;
use klag_exporter::export::otel::{instruments, observations};
use klag_exporter::export::prometheus::PrometheusExporter;
use klag_exporter::metrics::exposition::{header, render_labels, Piece};
use klag_exporter::metrics::registry::{MetricsRegistry, DEFAULT_STALENESS_THRESHOLD};
use klag_exporter::metrics::types::{Labels, MetricPoint, MetricType, MetricValue, Reading};
use klag_exporter::text::escape_label_value;
use std::sync::Arc;

const SECOND: u64 = 1_000_000_000;

fn number(reading: Reading) -> f64 {
    match reading {
        Reading::Whole(n) => n as f64,
        Reading::Count(n) => n as f64,
        Reading::Millis(ms) => ms as f64 / 1000.0,
        Reading::Elapsed(ms) => ms as f64 / 1000.0,
        Reading::Percent(share) => share.lag as f64 / share.window as f64 * 100.0,
    }
}

fn text(pieces: &Vec<Piece>) -> String {
    let mut out = String::new();
    for piece in pieces {
        match piece {
            Piece::Text(t) => out.push_str(t),
            Piece::Value(r) => out.push_str(&format!("{}", number(*r))),
            Piece::Seconds(ms) => out.push_str(&format!("{:.6}", *ms as f64 / 1000.0)),
        }
    }
    out
}

fn make_lag_metrics() -> LagMetrics {
    LagMetrics {
        cluster_name: "test-cluster".to_string(),
        partition_metrics: vec![PartitionLagMetric {
            cluster_name: "test-cluster".to_string(),
            group_id: "test-group".to_string(),
            topic: "test-topic".to_string(),
            partition: 0,
            member_host: "host1".to_string(),
            consumer_id: "consumer-1".to_string(),
            client_id: "client-1".to_string(),
            committed_offset: 100,
            lag: 10,
            lag_millis: Some(5500),
            compaction_detected: false,
            data_loss_detected: false,
            messages_lost: 0,
            retention_margin: 100,
            lag_retention: Some(RetentionShare { lag: 10, window: 110 }),
        }],
        group_metrics: vec![GroupLagMetric {
            cluster_name: "test-cluster".to_string(),
            group_id: "test-group".to_string(),
            max_lag: 10,
            max_lag_millis: Some(5500),
            sum_lag: 10,
            state: 3,
        }],
        topic_metrics: vec![TopicLagMetric {
            cluster_name: "test-cluster".to_string(),
            group_id: "test-group".to_string(),
            topic: "test-topic".to_string(),
            sum_lag: 10,
        }],
        partition_offsets: vec![PartitionOffsetMetric {
            cluster_name: "test-cluster".to_string(),
            topic: "test-topic".to_string(),
            partition: 0,
            earliest_offset: 0,
            latest_offset: 110,
        }],
        poll_time_ms: 50,
        compaction_detected_count: 0,
        data_loss_partition_count: 0,
    }
}

#[test]
fn test_metrics_registry_update_replaces() {
    let mut registry = MetricsRegistry::new();

    let metrics1 = make_lag_metrics();
    registry.update("test-cluster", metrics1, 0, 0);

    let output1 = text(&registry.render_prometheus(1));
    assert!(output1.contains("kafka_consumergroup_group_lag"));

    let mut metrics2 = make_lag_metrics();
    metrics2.partition_metrics[0].lag = 20;
    registry.update("test-cluster", metrics2, 1, 0);

    let output2 = text(&registry.render_prometheus(2));
    assert!(output2.contains("20")); // New lag value
    assert_eq!(registry.cluster_count(), 1);
}

#[test]
fn test_prometheus_format_gauge() {
    let mut registry = MetricsRegistry::new();
    registry.update("test-cluster", make_lag_metrics(), 0, 0);

    let output = text(&registry.render_prometheus(0));

    assert!(output.contains("# TYPE kafka_consumergroup_group_lag gauge"));
    assert!(output.contains("kafka_consumergroup_group_lag{"));
}

#[test]
fn test_prometheus_format_labels() {
    let mut registry = MetricsRegistry::new();
    registry.update("test-cluster", make_lag_metrics(), 0, 0);

    let output = text(&registry.render_prometheus(0));

    assert!(output.contains("cluster_name=\"test-cluster\""));
    assert!(output.contains("group=\"test-group\""));
    assert!(output.contains("topic=\"test-topic\""));
}

#[test]
fn test_escape_label_value() {
    assert_eq!(escape_label_value("simple"), "simple");
    assert_eq!(escape_label_value("with\"quote"), "with\\\"quote");
    assert_eq!(escape_label_value("with\\backslash"), "with\\\\backslash");
    assert_eq!(escape_label_value("with\nnewline"), "with\\nnewline");
}

#[test]
fn test_metrics_registry_evicts_disappeared_groups() {
    let mut registry = MetricsRegistry::new();

    registry.update("cluster1", make_lag_metrics(), 0, 0);

    assert_eq!(registry.cluster_count(), 1);

    registry.remove_cluster("cluster1");
    assert_eq!(registry.cluster_count(), 0);
}

#[test]
fn test_up_metric() {
    let mut registry = MetricsRegistry::new();
    registry.set_healthy(true);

    let output = text(&registry.render_prometheus(0));
    assert!(output.contains("kafka_lag_exporter_up 1"));

    registry.set_healthy(false);
    let output = text(&registry.render_prometheus(0));
    assert!(output.contains("kafka_lag_exporter_up 0"));
}

#[test]
fn test_scrape_duration_metric() {
    let mut registry = MetricsRegistry::new();
    registry.set_scrape_duration_ms(1500);

    let output = text(&registry.render_prometheus(0));
    assert!(output.contains("kafka_lag_exporter_scrape_duration_seconds"));
    assert!(output.contains("1.5"));
    assert_eq!(number(registry.get_scrape_duration_seconds()), 1.5);
}

#[test]
fn test_granularity_topic_skips_partition_metrics() {
    let mut registry = MetricsRegistry::new();

    registry.update_with_options(
        "test-cluster",
        make_lag_metrics(),
        Granularity::Topic,
        &Labels::new(),
        0,
        0,
    );

    let output = text(&registry.render_prometheus(0));

    // Should have topic-level metrics
    assert!(output.contains("kafka_consumergroup_group_max_lag"));
    assert!(output.contains("kafka_consumergroup_group_topic_sum_lag"));

    // Should NOT have partition-level consumer group metrics
    assert!(!output.contains("kafka_consumergroup_group_lag{"));
    assert!(!output.contains("kafka_consumergroup_group_offset{"));
}

#[test]
fn test_custom_labels_added() {
    let mut registry = MetricsRegistry::new();

    let mut custom_labels = Labels::new();
    custom_labels.insert("environment".to_string(), "production".to_string());
    custom_labels.insert("datacenter".to_string(), "us-west-2".to_string());

    registry.update_with_options(
        "test-cluster",
        make_lag_metrics(),
        Granularity::Partition,
        &custom_labels,
        0,
        0,
    );

    let output = text(&registry.render_prometheus(0));

    assert!(output.contains("environment=\"production\""));
    assert!(output.contains("datacenter=\"us-west-2\""));
}

#[test]
fn custom_labels_stand_above_built_in_ones() {
    let mut registry = MetricsRegistry::new();
    let mut custom = Labels::new();
    custom.insert("cluster_name".to_string(), "renamed".to_string());
    custom.insert("data_loss_detected".to_string(), "mine".to_string());
    registry.update_with_options("c", make_lag_metrics(), Granularity::Partition, &custom, 0, 0);
    let output = text(&registry.render_prometheus(0));
    assert!(!output.contains("cluster_name=\"test-cluster\""));
    let shown: Vec<&str> = output.lines().filter(|l| l.contains("cluster_name=\"renamed\"")).collect();
    assert!(shown.iter().any(|l| l.starts_with("kafka_consumergroup_poll_time_ms{")));
    let seconds =
        shown.iter().find(|l| l.starts_with("kafka_consumergroup_group_lag_seconds{")).unwrap();
    assert!(seconds.contains("data_loss_detected=\"false\""));
}

#[test]
fn test_otel_metrics_from_registry() {
    let mut registry = MetricsRegistry::new();
    registry.set_healthy(true);
    registry.set_scrape_duration_ms(100);

    let metrics = registry.get_otel_metrics(0);

    // Should have at least the up and scrape duration metrics
    assert!(!metrics.is_empty());

    let metric_names: Vec<_> = metrics.iter().map(|m| m.name.as_str()).collect();
    assert!(metric_names.contains(&"kafka_lag_exporter_up"));
    assert!(metric_names.contains(&"kafka_lag_exporter_scrape_duration_seconds"));
}

#[test]
fn test_prometheus_exporter_render() {
    let mut registry = MetricsRegistry::new();

    let metrics = LagMetrics {
        cluster_name: "test".to_string(),
        partition_metrics: vec![PartitionLagMetric {
            cluster_name: "test".to_string(),
            group_id: "group1".to_string(),
            topic: "topic1".to_string(),
            partition: 0,
            member_host: "host1".to_string(),
            consumer_id: "consumer1".to_string(),
            client_id: "client1".to_string(),
            committed_offset: 100,
            lag: 10,
            lag_millis: Some(5000),
            compaction_detected: false,
            data_loss_detected: false,
            messages_lost: 0,
            retention_margin: 100,
            lag_retention: Some(RetentionShare { lag: 10, window: 110 }),
        }],
        group_metrics: vec![GroupLagMetric {
            cluster_name: "test".to_string(),
            group_id: "group1".to_string(),
            max_lag: 10,
            max_lag_millis: Some(5000),
            sum_lag: 10,
            state: 3,
        }],
        topic_metrics: vec![TopicLagMetric {
            cluster_name: "test".to_string(),
            group_id: "group1".to_string(),
            topic: "topic1".to_string(),
            sum_lag: 10,
        }],
        partition_offsets: vec![PartitionOffsetMetric {
            cluster_name: "test".to_string(),
            topic: "topic1".to_string(),
            partition: 0,
            earliest_offset: 0,
            latest_offset: 110,
        }],
        poll_time_ms: 100,
        compaction_detected_count: 0,
        data_loss_partition_count: 0,
    };

    registry.update("test", metrics, 0, 0);

    let exporter = PrometheusExporter::new(Arc::new(registry));
    let output = text(&exporter.clone().render_metrics(0));

    assert!(output.contains("kafka_consumergroup_group_lag"));
    assert!(output.contains("kafka_consumergroup_group_lag_seconds"));
    assert!(output.contains("kafka_partition_latest_offset"));
}

#[test]
fn lines_of_an_exposition() {
    let mut registry = MetricsRegistry::new();
    registry.update("test-cluster", make_lag_metrics(), 0, 1700000000);
    let output = text(&registry.render_prometheus(0));
    let line = |start: &str| output.lines().find(|l| l.starts_with(start)).unwrap().to_string();
    assert_eq!(
        line("kafka_partition_latest_offset{"),
        "kafka_partition_latest_offset{cluster_name=\"test-cluster\",partition=\"0\",topic=\"test-topic\"} 110"
    );
    assert!(line("kafka_consumergroup_group_lag_seconds{").ends_with("} 5.5"));
    assert!(line("kafka_consumergroup_group_lag_retention_ratio{").contains(" 9.0909"));
    assert!(line("kafka_consumergroup_group_lag{").contains("client_id=\"client-1\""));
    assert!(line("kafka_consumergroup_group_state{").ends_with(" 3"));
    assert!(line("kafka_consumergroup_poll_time_ms{").ends_with(" 50"));
}

#[test]
fn one_header_for_each_metric() {
    let mut registry = MetricsRegistry::new();
    registry.update("one", make_lag_metrics(), 0, 0);
    registry.update("two", make_lag_metrics(), 0, 0);
    let output = text(&registry.render_prometheus(0));
    assert_eq!(output.matches("# TYPE kafka_consumergroup_group_lag gauge\n").count(), 1);
    assert_eq!(output.matches("# HELP kafka_consumergroup_group_lag ").count(), 1);
    assert_eq!(output.matches("kafka_consumergroup_group_lag{").count(), 2);
}

#[test]
fn stale_clusters_are_left_out() {
    let mut registry = MetricsRegistry::with_staleness_threshold(10 * SECOND);
    registry.update("old", make_lag_metrics(), 0, 0);
    registry.update("new", make_lag_metrics(), 5 * SECOND, 0);
    assert!(!registry.is_data_stale(10 * SECOND));
    assert!(registry.is_data_stale(10 * SECOND + 1));
    assert_eq!(registry.get_max_data_age(12 * SECOND), Some(12 * SECOND));
    let shown = text(&registry.render_prometheus_with_staleness_check(true, 12 * SECOND));
    assert!(!shown.contains("cluster_name=\"old\""));
    assert!(shown.contains("cluster_name=\"new\""));
    let all = text(&registry.render_prometheus_with_staleness_check(false, 12 * SECOND));
    assert!(all.contains("cluster_name=\"old\""));
    assert_eq!(MetricsRegistry::default().get_max_data_age(0), None);
    assert!(DEFAULT_STALENESS_THRESHOLD > 0);
}

#[test]
fn a_removed_cluster_leaves_the_others() {
    let mut registry = MetricsRegistry::new();
    registry.update("one", make_lag_metrics(), 0, 0);
    registry.update("two", make_lag_metrics(), 0, 0);
    registry.remove_cluster("one");
    registry.remove_cluster("never there");
    assert_eq!(registry.cluster_count(), 1);
    let output = text(&registry.render_prometheus(0));
    assert!(output.contains("cluster_name=\"two\""));
    assert!(!output.contains("cluster_name=\"one\""));
}

#[test]
fn a_walk_in_another_order_shows_other_order() {
    let mut registry = MetricsRegistry::new();
    registry.update("one", make_lag_metrics(), 0, 0);
    registry.update("two", make_lag_metrics(), 0, 0);
    let order = vec!["one".to_string(), "two".to_string()];
    let other = vec!["two".to_string(), "one".to_string()];
    let forth = text(&registry.render_walk(&order, &order, false, 0));
    let back = text(&registry.render_walk(&other, &order, false, 0));
    let start = |t: &str, name: &str| t.find(&format!("cluster_name=\"{name}\"")).unwrap();
    assert!(start(&forth, "one") < start(&forth, "two"));
    assert!(start(&back, "two") < start(&back, "one"));
    let updates = |t: &str| t[t.find("# HELP kafka_lag_exporter_last_update").unwrap()..].to_string();
    assert_eq!(updates(&forth), updates(&back));
    assert_eq!(registry.otel_walk(&order, 0).len(), registry.otel_walk(&other, 0).len());
}

#[test]
fn otel_values_by_instrument() {
    let mut registry = MetricsRegistry::new();
    registry.update("one", make_lag_metrics(), 0, 0);
    let metrics = registry.get_otel_metrics(1234);
    let lag = observations(&metrics, "kafka_consumergroup_group_lag");
    assert_eq!(lag.len(), 1);
    assert_eq!(number(lag[0].value), 10.0);
    assert_eq!(lag[0].timestamp_ms, 1234);
    assert_eq!(lag[0].attributes.get(&"group".to_string()), Some(&"test-group".to_string()));
    assert!(observations(&metrics, "no such metric").is_empty());
    let names: Vec<&str> = instruments().iter().map(|i| i.name).collect();
    assert_eq!(names.len(), 16);
    assert!(names.contains(&"kafka_partition_latest_offset"));
}

#[test]
fn labels_are_ordered_and_escaped() {
    let mut labels = Labels::new();
    labels.insert("b".to_string(), "2".to_string());
    labels.insert("a".to_string(), "x\"\\\n".to_string());
    assert_eq!(render_labels(&labels), "{a=\"x\\\"\\\\\\n\",b=\"2\"}");
    assert_eq!(render_labels(&Labels::new()), "");
    assert_eq!(header("m", "what it is", "gauge"), "# HELP m what it is\n# TYPE m gauge\n");
}

#[test]
fn label_order_does_not_show() {
    let mut one = Labels::new();
    let mut other = Labels::new();
    for (name, value) in [("z", "1"), ("a", "2"), ("m", "3")] {
        one.insert(name.to_string(), value.to_string());
    }
    for (name, value) in [("m", "9"), ("a", "2"), ("z", "1"), ("m", "3")] {
        other.insert(name.to_string(), value.to_string());
    }
    assert_eq!(render_labels(&one), "{a=\"2\",m=\"3\",z=\"1\"}");
    assert_eq!(render_labels(&one), render_labels(&other));
}

#[test]
fn points_and_their_types() {
    let gauge = MetricPoint::gauge("g", Labels::new(), Reading::Whole(-3), "help");
    assert_eq!(gauge.metric_type.as_str(), "gauge");
    assert_eq!(gauge.value, MetricValue::Gauge(Reading::Whole(-3)));
    assert_eq!(gauge.value.reading(), Reading::Whole(-3));
    let counter = MetricPoint::counter("c", Labels::new(), Reading::Count(3), "help");
    assert_eq!(counter.metric_type, MetricType::Counter);
    assert_eq!(counter.metric_type.as_str(), "counter");
    assert_eq!(counter.value.reading(), Reading::Count(3));
}

#[test]
fn compaction_and_loss_are_shown() {
    let mut registry = MetricsRegistry::new();
    let mut metrics = make_lag_metrics();
    metrics.compaction_detected_count = 4;
    metrics.data_loss_partition_count = 2;
    metrics.partition_metrics[0].compaction_detected = true;
    metrics.partition_metrics[0].data_loss_detected = true;
    metrics.partition_metrics[0].messages_lost = 7;
    registry.update("c", metrics, 0, 0);
    let output = text(&registry.render_prometheus(0));
    assert!(output.contains("compaction_detected=\"true\""));
    assert!(output.contains("data_loss_detected=\"true\""));
    assert!(output.lines().any(|l| l.starts_with("kafka_consumergroup_group_messages_lost{")
        && l.ends_with(" 7")));
    assert!(output.lines().any(|l| l
        .starts_with("kafka_lag_exporter_data_loss_partitions_total{")
        && l.ends_with(" 2")));
    assert!(output
        .lines()
        .any(|l| l.starts_with("kafka_lag_exporter_compaction_detected_total{") && l.ends_with(" 4")));
}

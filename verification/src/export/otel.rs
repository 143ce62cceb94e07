//! Metrics for OpenTelemetry.

use crate::metrics::definitions::{
    METRIC_DATA_LOSS_PARTITIONS, METRIC_GROUP_LAG, METRIC_GROUP_LAG_RETENTION_RATIO,
    METRIC_GROUP_LAG_SECONDS, METRIC_GROUP_MAX_LAG, METRIC_GROUP_MAX_LAG_SECONDS,
    METRIC_GROUP_MESSAGES_LOST, METRIC_GROUP_OFFSET, METRIC_GROUP_RETENTION_MARGIN,
    METRIC_GROUP_SUM_LAG, METRIC_GROUP_TOPIC_SUM_LAG, METRIC_PARTITION_EARLIEST_OFFSET,
    METRIC_PARTITION_LATEST_OFFSET, METRIC_POLL_TIME_MS, METRIC_SCRAPE_DURATION_SECONDS,
    METRIC_UP,
};
use crate::metrics::types::{OtelDataPoint, OtelDataView, OtelMetric, OtelMetricView};
use crate::text::{flat, flat_step, same_text};
use crate::views::{views, views_push};
use vstd::prelude::*;

verus! {

broadcast use views_push;

/// A gauge that is observed: its metric's name, and its description.
#[derive(Debug)]
pub struct Instrument {
    pub name: &'static str,
    pub description: &'static str,
}

/// What an `Instrument` holds: name and description.
impl View for Instrument {
    type V = (Seq<char>, Seq<char>);

    open spec fn view(&self) -> (Seq<char>, Seq<char>) {
        (self.name@, self.description@)
    }
}

/// The gauges that are observed.
pub open spec fn instrument_table() -> Seq<(Seq<char>, Seq<char>)> {
    seq![
        (METRIC_PARTITION_LATEST_OFFSET@, "Latest offset for a partition"@),
        (METRIC_PARTITION_EARLIEST_OFFSET@, "Earliest offset for a partition"@),
        (METRIC_GROUP_OFFSET@, "Current committed offset of a consumer group for a partition"@),
        (METRIC_GROUP_LAG@, "Current lag of a consumer group for a partition"@),
        (METRIC_GROUP_LAG_SECONDS@, "Time lag in seconds for a consumer group partition"@),
        (METRIC_GROUP_MAX_LAG@, "Maximum lag across all partitions for a consumer group"@),
        (METRIC_GROUP_SUM_LAG@, "Sum of lag across all partitions for a consumer group"@),
        (METRIC_GROUP_MAX_LAG_SECONDS@, "Maximum time lag in seconds across all partitions"@),
        (METRIC_GROUP_TOPIC_SUM_LAG@, "Sum of lag for a consumer group per topic"@),
        (METRIC_POLL_TIME_MS@, "Time taken to collect consumer group metrics in milliseconds"@),
        (METRIC_SCRAPE_DURATION_SECONDS@, "Duration of the last metrics collection in seconds"@),
        (METRIC_UP@, "Whether the Kafka lag exporter is healthy"@),
        (METRIC_GROUP_MESSAGES_LOST@, "Number of messages deleted by retention before consumer processed them"@),
        (METRIC_GROUP_RETENTION_MARGIN@, "Offset distance between consumer position and deletion boundary"@),
        (METRIC_GROUP_LAG_RETENTION_RATIO@, "Percentage of retention window occupied by consumer lag"@),
        (METRIC_DATA_LOSS_PARTITIONS@, "Number of partitions where data loss occurred"@),
    ]
}

/// A gauge.
fn instrument(name: &'static str, description: &'static str) -> (made: Instrument)
    ensures
        made@ == (name@, description@),
{
    Instrument { name, description }
}

/// The gauges that are observed.
pub fn instruments() -> (table: Vec<Instrument>)
    ensures
        views(table@) == instrument_table(),
{
    let mut table: Vec<Instrument> = Vec::new();
    table.push(
        instrument(
            METRIC_PARTITION_LATEST_OFFSET,
            "Latest offset for a partition",
        ),
    );
    table.push(
        instrument(
            METRIC_PARTITION_EARLIEST_OFFSET,
            "Earliest offset for a partition",
        ),
    );
    table.push(
        instrument(
            METRIC_GROUP_OFFSET,
            "Current committed offset of a consumer group for a partition",
        ),
    );
    table.push(
        instrument(
            METRIC_GROUP_LAG,
            "Current lag of a consumer group for a partition",
        ),
    );
    table.push(
        instrument(
            METRIC_GROUP_LAG_SECONDS,
            "Time lag in seconds for a consumer group partition",
        ),
    );
    table.push(
        instrument(
            METRIC_GROUP_MAX_LAG,
            "Maximum lag across all partitions for a consumer group",
        ),
    );
    table.push(
        instrument(
            METRIC_GROUP_SUM_LAG,
            "Sum of lag across all partitions for a consumer group",
        ),
    );
    table.push(
        instrument(
            METRIC_GROUP_MAX_LAG_SECONDS,
            "Maximum time lag in seconds across all partitions",
        ),
    );
    table.push(
        instrument(
            METRIC_GROUP_TOPIC_SUM_LAG,
            "Sum of lag for a consumer group per topic",
        ),
    );
    table.push(
        instrument(
            METRIC_POLL_TIME_MS,
            "Time taken to collect consumer group metrics in milliseconds",
        ),
    );
    table.push(
        instrument(
            METRIC_SCRAPE_DURATION_SECONDS,
            "Duration of the last metrics collection in seconds",
        ),
    );
    table.push(
        instrument(
            METRIC_UP,
            "Whether the Kafka lag exporter is healthy",
        ),
    );
    table.push(
        instrument(
            METRIC_GROUP_MESSAGES_LOST,
            "Number of messages deleted by retention before consumer processed them",
        ),
    );
    table.push(
        instrument(
            METRIC_GROUP_RETENTION_MARGIN,
            "Offset distance between consumer position and deletion boundary",
        ),
    );
    table.push(
        instrument(
            METRIC_GROUP_LAG_RETENTION_RATIO,
            "Percentage of retention window occupied by consumer lag",
        ),
    );
    table.push(
        instrument(
            METRIC_DATA_LOSS_PARTITIONS,
            "Number of partitions where data loss occurred",
        ),
    );
    assert(views(table@) =~= instrument_table());
    table
}

/// The values of the metrics with a name.
pub open spec fn observed(metrics: Seq<OtelMetricView>, name: Seq<char>) -> Seq<OtelDataView> {
    flat(
        metrics,
        |m: OtelMetricView|
            if m.name == name {
                m.data_points
            } else {
                Seq::empty()
            },
    )
}

/// The values that the gauge with a name shows.
pub fn observations<'a>(metrics: &'a Vec<OtelMetric>, name: &str) -> (values: Vec<
    &'a OtelDataPoint,
>)
    ensures
        views(values@) == observed(views(metrics@), name@),
{
    let ghost all = views(metrics@);
    let ghost f = |m: OtelMetricView|
        if m.name == name@ {
            m.data_points
        } else {
            Seq::empty()
        };
    let mut values: Vec<&'a OtelDataPoint> = Vec::new();
    let mut i: usize = 0;
    assert(all.take(0) =~= Seq::<OtelMetricView>::empty());
    while i < metrics.len()
        invariant
            all == views(metrics@),
            f == (|m: OtelMetricView|
                if m.name == name@ {
                    m.data_points
                } else {
                    Seq::empty()
                }),
            i <= metrics.len(),
            views(values@) =~= flat(all.take(i as int), f),
        decreases metrics.len() - i,
    {
        proof {
            flat_step(all, f, i as int);
        }
        let metric = &metrics[i];
        if same_text(metric.name.as_str(), name) {
            let ghost before = views(values@);
            let ghost mine = metric@.data_points;
            let mut j: usize = 0;
            while j < metric.data_points.len()
                invariant
                    mine == views(metric.data_points@),
                    j <= metric.data_points.len(),
                    views(values@) =~= before + mine.take(j as int),
                decreases metric.data_points.len() - j,
            {
                values.push(&metric.data_points[j]);
                j += 1;
            }
            assert(mine.take(j as int) =~= mine);
        }
        i += 1;
    }
    assert(all.take(i as int) =~= all);
    values
}

} // verus!

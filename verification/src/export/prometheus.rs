//! Metrics for Prometheus to scrape.

use crate::metrics::exposition::Piece;
use crate::metrics::registry::{exposition, MetricsRegistry};
use crate::metrics::table::lists;
use crate::views::views;
use std::sync::Arc;
use vstd::prelude::*;

verus! {

/// Renders the metrics of a registry.
pub struct PrometheusExporter {
    registry: Arc<MetricsRegistry>,
}

impl PrometheusExporter {
    /// The registry whose metrics are rendered.
    pub closed spec fn registry(&self) -> MetricsRegistry {
        *self.registry
    }

    /// An exporter of a registry's metrics.
    pub fn new(registry: Arc<MetricsRegistry>) -> (exporter: Self)
        ensures
            exporter.registry() == *registry,
    {
        PrometheusExporter { registry }
    }

    /// The current exposition, without stale clusters.
    pub fn render_metrics(&self, now: u64) -> (pieces: Vec<Piece>)
        requires
            self.registry().well_formed(),
        ensures
            exists|a: Seq<Seq<char>>, b: Seq<Seq<char>>|
                lists(a, self.registry()@.clusters.dom()) && lists(
                    b,
                    self.registry()@.clusters.dom(),
                ) && views(pieces@) == #[trigger] exposition(
                    self.registry()@,
                    a,
                    b,
                    true,
                    now,
                ),
    {
        self.registry.render_prometheus(now)
    }
}

impl Clone for PrometheusExporter {
    fn clone(&self) -> (copy: Self)
        ensures
            copy.registry() == self.registry(),
    {
        PrometheusExporter { registry: Arc::clone(&self.registry) }
    }
}

} // verus!

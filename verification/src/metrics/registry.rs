//! The store of every cluster's current metric points.

use crate::collector::lag_calculator::LagMetrics;
use crate::config::Granularity;
use crate::keymap::{has_key, put, NameSet, OrderMap};
use crate::metrics::definitions::{
    HELP_LAST_UPDATE_TIMESTAMP, HELP_SCRAPE_DURATION_SECONDS, HELP_UP, LABEL_CLUSTER_NAME,
    METRIC_LAST_UPDATE_TIMESTAMP, METRIC_SCRAPE_DURATION_SECONDS, METRIC_UP,
};
use crate::metrics::exposition::{
    families, first_named, header, header_text, names_of, push_families, Piece, PieceView,
};
use crate::metrics::points::{lag_points, points_of};
use crate::metrics::table::{
    contents, lists, table_entries, table_get, table_insert, table_len, table_new, table_remove,
    walked_names,
};
use crate::metrics::types::{
    Labels, MetricPoint, OtelDataPoint, OtelDataView, OtelMetric, OtelMetricView, PointView,
    Reading,
};
use crate::text::{decimal, flat, flat_step, same_text, unsigned_text};
use crate::views::{views, views_push};
use dashmap::DashMap;
use vstd::prelude::*;

verus! {

broadcast use views_push;

/// How long data counts as fresh where nothing else is said: 90 seconds, in nanoseconds.
pub const DEFAULT_STALENESS_THRESHOLD: u64 = 90_000_000_000;

/// What a registry holds of one cluster.
#[verifier::ext_equal]
pub struct ClusterView {
    pub points: Seq<PointView>,
    /// When the points came, in nanoseconds of the process clock.
    pub updated_at: u64,
    /// When the points came, in Unix seconds.
    pub updated_unix: u64,
}

/// What a registry holds.
#[verifier::ext_equal]
pub struct RegistryView {
    pub clusters: Map<Seq<char>, ClusterView>,
    pub healthy: bool,
    pub scrape_ms: u64,
    /// How long data counts as fresh, in nanoseconds.
    pub threshold: u64,
}

/// How long ago `at` was; 0 where it lies ahead.
pub open spec fn age(now: u64, at: u64) -> u64 {
    if now > at {
        (now - at) as u64
    } else {
        0
    }
}

/// Whether a cluster's data is too old.
pub open spec fn stale(cluster: ClusterView, threshold: u64, now: u64) -> bool {
    age(now, cluster.updated_at) > threshold
}

/// The points of the clusters in `order`, without stale clusters where those are not wanted.
pub open spec fn walked_points(
    registry: RegistryView,
    order: Seq<Seq<char>>,
    filter_stale: bool,
    now: u64,
) -> Seq<PointView> {
    flat(
        order,
        |c: Seq<char>|
            if filter_stale && stale(registry.clusters[c], registry.threshold, now) {
                Seq::empty()
            } else {
                registry.clusters[c].points
            },
    )
}

/// The line that says when a cluster's points came.
pub open spec fn update_line(cluster: Seq<char>, unix: u64) -> PieceView {
    PieceView::Text(
        METRIC_LAST_UPDATE_TIMESTAMP@ + "{"@ + LABEL_CLUSTER_NAME@ + "=\""@ + cluster + "\"} "@
            + decimal(unix as int) + "\n"@,
    )
}

/// The metric that says when each cluster's points came.
pub open spec fn update_family(
    registry: RegistryView,
    order: Seq<Seq<char>>,
    filter_stale: bool,
    now: u64,
) -> Seq<PieceView> {
    if order.len() == 0 {
        Seq::empty()
    } else {
        seq![
            PieceView::Text(
                header_text(METRIC_LAST_UPDATE_TIMESTAMP@, HELP_LAST_UPDATE_TIMESTAMP@, "gauge"@),
            ),
        ] + flat(
            order,
            |c: Seq<char>|
                if filter_stale && stale(registry.clusters[c], registry.threshold, now) {
                    Seq::empty()
                } else {
                    seq![update_line(c, registry.clusters[c].updated_unix)]
                },
        )
    }
}

/// The metrics of the exporter itself: how long the last collection took, and its health.
pub open spec fn exporter_families(registry: RegistryView) -> Seq<PieceView> {
    seq![
        PieceView::Text(
            header_text(METRIC_SCRAPE_DURATION_SECONDS@, HELP_SCRAPE_DURATION_SECONDS@, "gauge"@)
                + METRIC_SCRAPE_DURATION_SECONDS@ + " "@,
        ),
        PieceView::Seconds(registry.scrape_ms),
        PieceView::Text(
            "\n"@ + header_text(METRIC_UP@, HELP_UP@, "gauge"@) + METRIC_UP@ + (if registry.healthy {
                " 1\n"@
            } else {
                " 0\n"@
            }),
        ),
    ]
}

/// The whole exposition. The clusters' points come in the order `metrics_order`, the lines that
/// say when they came in the order `update_order`.
pub open spec fn exposition(
    registry: RegistryView,
    metrics_order: Seq<Seq<char>>,
    update_order: Seq<Seq<char>>,
    filter_stale: bool,
    now: u64,
) -> Seq<PieceView> {
    families(walked_points(registry, metrics_order, filter_stale, now)) + exporter_families(
        registry,
    ) + update_family(registry, update_order, filter_stale, now)
}

/// A point as an OpenTelemetry value.
pub open spec fn data_point(p: PointView, now_ms: i64) -> OtelDataView {
    OtelDataView { attributes: p.labels, value: p.value.spec_reading(), timestamp_ms: now_ms }
}

/// The OpenTelemetry values of the points with a name.
pub open spec fn named_data_points(
    points: Seq<PointView>,
    name: Seq<char>,
    now_ms: i64,
) -> Seq<OtelDataView> {
    flat(
        points,
        |p: PointView|
            if p.name == name {
                seq![data_point(p, now_ms)]
            } else {
                Seq::empty()
            },
    )
}

/// The points with a name as an OpenTelemetry metric.
pub open spec fn named_metric(
    points: Seq<PointView>,
    name: Seq<char>,
    now_ms: i64,
) -> OtelMetricView {
    OtelMetricView {
        name,
        description: match first_named(points, name) {
            Some(p) => p.help,
            None => Seq::empty(),
        },
        unit: "1"@,
        data_points: named_data_points(points, name, now_ms),
    }
}

/// All points as OpenTelemetry metrics, by name.
pub open spec fn named_metrics(
    points: Seq<PointView>,
    now_ms: i64,
) -> Seq<(Seq<char>, OtelMetricView)> {
    let names = names_of(points);
    Seq::new(names.len(), |i: int| (names[i], named_metric(points, names[i], now_ms)))
}

/// A metric of the exporter itself.
pub open spec fn exporter_metric(
    name: Seq<char>,
    help: Seq<char>,
    unit: Seq<char>,
    value: Reading,
    now_ms: i64,
) -> OtelMetricView {
    OtelMetricView {
        name,
        description: help,
        unit,
        data_points: seq![
            OtelDataView { attributes: Seq::empty(), value, timestamp_ms: now_ms },
        ],
    }
}

/// Everything for OpenTelemetry: the points of all clusters, stale or not, how long the last
/// collection took, and the exporter's health.
pub open spec fn otel_metrics(
    registry: RegistryView,
    order: Seq<Seq<char>>,
    now_ms: i64,
) -> Seq<OtelMetricView> {
    let points = walked_points(registry, order, false, 0);
    let scrape = exporter_metric(
        METRIC_SCRAPE_DURATION_SECONDS@,
        HELP_SCRAPE_DURATION_SECONDS@,
        "s"@,
        Reading::Elapsed(registry.scrape_ms),
        now_ms,
    );
    let up = exporter_metric(
        METRIC_UP@,
        HELP_UP@,
        "1"@,
        Reading::Whole(
            if registry.healthy {
                1
            } else {
                0
            },
        ),
        now_ms,
    );
    let all = put(
        put(named_metrics(points, now_ms), METRIC_SCRAPE_DURATION_SECONDS@, scrape),
        METRIC_UP@,
        up,
    );
    Seq::new(all.len(), |i: int| all[i].1)
}

/// The current metric points of all clusters, when they came, and the exporter's own state.
pub struct MetricsRegistry {
    metrics: DashMap<String, u64>,
    slots: Vec<(String, Vec<MetricPoint>)>,
    last_update: DashMap<String, u64>,
    last_update_timestamp: DashMap<String, u64>,
    healthy: bool,
    last_scrape_duration_ms: u64,
    staleness_threshold: u64,
}

impl View for MetricsRegistry {
    type V = RegistryView;

    closed spec fn view(&self) -> RegistryView {
        RegistryView {
            clusters: Map::new(
                |c: Seq<char>| contents(self.metrics).contains_key(c),
                |c: Seq<char>|
                    ClusterView {
                        points: views(self.slots@[contents(self.metrics)[c] as int].1@),
                        updated_at: contents(self.last_update)[c],
                        updated_unix: contents(self.last_update_timestamp)[c],
                    },
            ),
            healthy: self.healthy,
            scrape_ms: self.last_scrape_duration_ms,
            threshold: self.staleness_threshold,
        }
    }
}

impl MetricsRegistry {
    /// Every cluster has its own slot, and the three tables know the same clusters.
    pub closed spec fn well_formed(&self) -> bool {
        let index = contents(self.metrics);
        &&& contents(self.last_update).dom() =~= index.dom()
        &&& contents(self.last_update_timestamp).dom() =~= index.dom()
        &&& forall|c: Seq<char>| #[trigger]
            index.contains_key(c) ==> index[c] < self.slots.len() && self.slots@[index[c] as int].0@
                == c
        &&& forall|i: int|
            0 <= i < self.slots.len() ==> index.contains_key((#[trigger] self.slots@[i]).0@)
                && index[self.slots@[i].0@] == i
    }

    /// An empty, healthy registry with the default staleness threshold.
    pub fn new() -> (registry: Self)
        ensures
            registry.well_formed(),
            registry@ == (RegistryView {
                clusters: Map::empty(),
                healthy: true,
                scrape_ms: 0,
                threshold: DEFAULT_STALENESS_THRESHOLD,
            }),
    {
        Self::with_staleness_threshold(DEFAULT_STALENESS_THRESHOLD)
    }

    /// An empty, healthy registry.
    pub fn with_staleness_threshold(staleness_threshold: u64) -> (registry: Self)
        ensures
            registry.well_formed(),
            registry@ == (RegistryView {
                clusters: Map::empty(),
                healthy: true,
                scrape_ms: 0,
                threshold: staleness_threshold,
            }),
    {
        let registry = MetricsRegistry {
            metrics: table_new(),
            slots: Vec::new(),
            last_update: table_new(),
            last_update_timestamp: table_new(),
            healthy: true,
            last_scrape_duration_ms: 0,
            staleness_threshold,
        };
        assert(registry@.clusters =~= Map::empty());
        registry
    }

    /// Replaces a cluster's points, at partition granularity and without custom labels.
    pub fn update(&mut self, cluster: &str, lag_metrics: LagMetrics, now: u64, unix_seconds: u64)
        requires
            old(self).well_formed(),
        ensures
            final(self).well_formed(),
            final(self)@ == (RegistryView {
                clusters: old(self)@.clusters.insert(
                    cluster@,
                    ClusterView {
                        points: lag_points(
                            cluster@,
                            lag_metrics@,
                            Granularity::Partition,
                            Seq::empty(),
                        ),
                        updated_at: now,
                        updated_unix: unix_seconds,
                    },
                ),
                ..old(self)@
            }),
    {
        let no_labels: Labels = Labels::new();
        self.update_with_options(
            cluster,
            lag_metrics,
            Granularity::Partition,
            &no_labels,
            now,
            unix_seconds,
        )
    }

    /// Replaces a cluster's points and notes when they came.
    pub fn update_with_options(
        &mut self,
        cluster: &str,
        lag_metrics: LagMetrics,
        granularity: Granularity,
        custom_labels: &Labels,
        now: u64,
        unix_seconds: u64,
    )
        requires
            old(self).well_formed(),
        ensures
            final(self).well_formed(),
            final(self)@ == (RegistryView {
                clusters: old(self)@.clusters.insert(
                    cluster@,
                    ClusterView {
                        points: lag_points(cluster@, lag_metrics@, granularity, custom_labels@),
                        updated_at: now,
                        updated_unix: unix_seconds,
                    },
                ),
                ..old(self)@
            }),
    {
        let points = points_of(cluster, &lag_metrics, granularity, custom_labels);
        let ghost wanted = old(self)@.clusters.insert(
            cluster@,
            ClusterView { points: views(points@), updated_at: now, updated_unix: unix_seconds },
        );
        match table_get(&self.metrics, cluster) {
            Some(slot) => {
                self.slots.set(slot as usize, (cluster.to_owned(), points));
            },
            None => {
                let slot: u64 = self.slots.len() as u64;
                self.slots.push((cluster.to_owned(), points));
                table_insert(&mut self.metrics, cluster.to_owned(), slot);
            },
        }
        table_insert(&mut self.last_update, cluster.to_owned(), now);
        table_insert(&mut self.last_update_timestamp, cluster.to_owned(), unix_seconds);
        assert(self@.clusters =~= wanted);
    }

    /// Sets the exporter's health.
    pub fn set_healthy(&mut self, healthy: bool)
        requires
            old(self).well_formed(),
        ensures
            final(self).well_formed(),
            final(self)@ == (RegistryView { healthy, ..old(self)@ }),
    {
        self.healthy = healthy;
        assert(self@.clusters =~= old(self)@.clusters);
    }

    /// The exporter's health.
    pub fn is_healthy(&self) -> (healthy: bool)
        ensures
            healthy == self@.healthy,
    {
        self.healthy
    }

    /// Notes how long the last collection took.
    pub fn set_scrape_duration_ms(&mut self, duration_ms: u64)
        requires
            old(self).well_formed(),
        ensures
            final(self).well_formed(),
            final(self)@ == (RegistryView { scrape_ms: duration_ms, ..old(self)@ }),
    {
        self.last_scrape_duration_ms = duration_ms;
        assert(self@.clusters =~= old(self)@.clusters);
    }

    /// How long the last collection took, to be shown in seconds.
    pub fn get_scrape_duration_seconds(&self) -> (duration: Reading)
        ensures
            duration == Reading::Elapsed(self@.scrape_ms),
    {
        Reading::Elapsed(self.last_scrape_duration_ms)
    }

    /// Forgets a cluster.
    pub fn remove_cluster(&mut self, cluster: &str)
        requires
            old(self).well_formed(),
        ensures
            final(self).well_formed(),
            final(self)@ == (RegistryView {
                clusters: old(self)@.clusters.remove(cluster@),
                ..old(self)@
            }),
    {
        let ghost wanted = old(self)@.clusters.remove(cluster@);
        match table_get(&self.metrics, cluster) {
            Some(slot) => {
                let i: usize = slot as usize;
                let last: usize = self.slots.len() - 1;
                let moved = self.slots[last].0.clone();
                self.slots.swap_remove(i);
                table_remove(&mut self.metrics, cluster);
                if i < last {
                    table_insert(&mut self.metrics, moved, slot);
                }
            },
            None => {
                table_remove(&mut self.metrics, cluster);
            },
        }
        table_remove(&mut self.last_update, cluster);
        table_remove(&mut self.last_update_timestamp, cluster);
        assert(self@.clusters =~= wanted);
    }

    /// The number of clusters.
    pub fn cluster_count(&self) -> (n: usize)
        requires
            self.well_formed(),
        ensures
            n == self@.clusters.dom().len(),
    {
        let n: usize = table_len(&self.metrics);
        assert(self@.clusters.dom() =~= contents(self.metrics).dom());
        n
    }

    /// Whether some cluster's data is stale.
    pub fn is_data_stale(&self, now: u64) -> (found: bool)
        requires
            self.well_formed(),
        ensures
            found == exists|c: Seq<char>|
                self@.clusters.contains_key(c) && #[trigger] stale(
                    self@.clusters[c],
                    self@.threshold,
                    now,
                ),
    {
        let entries = table_entries(&self.last_update);
        let ghost order = walked_names(entries@);
        let mut i: usize = 0;
        while i < entries.len()
            invariant
                self.well_formed(),
                order == walked_names(entries@),
                lists(order, contents(self.last_update).dom()),
                forall|k: int|
                    0 <= k < entries.len() ==> contents(self.last_update)[(
                    #[trigger] entries@[k]).0@] == entries@[k].1,
                i <= entries.len(),
                forall|k: int|
                    0 <= k < i ==> !stale(self@.clusters[#[trigger] order[k]], self@.threshold, now),
            decreases entries.len() - i,
        {
            let ghost c = order[i as int];
            assert(order.contains(c));
            assert(self@.clusters.contains_key(c));
            assert(self@.clusters[c].updated_at == entries@[i as int].1);
            if elapsed(now, entries[i].1) > self.staleness_threshold {
                assert(stale(self@.clusters[c], self@.threshold, now));
                return true;
            }
            i += 1;
        }
        assert forall|c: Seq<char>| self@.clusters.contains_key(c) implies !#[trigger] stale(
            self@.clusters[c],
            self@.threshold,
            now,
        ) by {
            assert(order.contains(c));
            let k = choose|k: int| 0 <= k < order.len() && order[k] == c;
            assert(!stale(self@.clusters[order[k]], self@.threshold, now));
        }
        false
    }

    /// The age of the oldest data; nothing while there is none.
    pub fn get_max_data_age(&self, now: u64) -> (oldest: Option<u64>)
        requires
            self.well_formed(),
        ensures
            match oldest {
                Some(a) => {
                    &&& exists|c: Seq<char>|
                        self@.clusters.contains_key(c) && a == age(
                            now,
                            (#[trigger] self@.clusters[c]).updated_at,
                        )
                    &&& forall|c: Seq<char>| #[trigger]
                        self@.clusters.contains_key(c) ==> age(now, self@.clusters[c].updated_at)
                            <= a
                },
                None => self@.clusters.dom() =~= Set::<Seq<char>>::empty(),
            },
    {
        let entries = table_entries(&self.last_update);
        let ghost order = walked_names(entries@);
        let mut oldest: Option<u64> = None;
        let mut i: usize = 0;
        while i < entries.len()
            invariant
                self.well_formed(),
                order == walked_names(entries@),
                lists(order, contents(self.last_update).dom()),
                forall|k: int|
                    0 <= k < entries.len() ==> contents(self.last_update)[(
                    #[trigger] entries@[k]).0@] == entries@[k].1,
                i <= entries.len(),
                oldest is None <==> i == 0,
                oldest matches Some(a) ==> {
                    &&& exists|c: Seq<char>|
                        self@.clusters.contains_key(c) && a == age(
                            now,
                            (#[trigger] self@.clusters[c]).updated_at,
                        )
                    &&& forall|k: int|
                        0 <= k < i ==> age(now, self@.clusters[#[trigger] order[k]].updated_at) <= a
                },
            decreases entries.len() - i,
        {
            let ghost c = order[i as int];
            assert(order.contains(c));
            assert(self@.clusters.contains_key(c));
            assert(self@.clusters[c].updated_at == entries@[i as int].1);
            let a: u64 = elapsed(now, entries[i].1);
            oldest = match oldest {
                Some(b) => if b > a {
                    Some(b)
                } else {
                    Some(a)
                },
                None => Some(a),
            };
            i += 1;
        }
        proof {
            assert forall|c: Seq<char>| #[trigger] self@.clusters.contains_key(c) implies i > 0
                && age(now, self@.clusters[c].updated_at) <= oldest->0 by {
                assert(order.contains(c));
                let k = choose|k: int| 0 <= k < order.len() && order[k] == c;
                assert(age(now, self@.clusters[order[k]].updated_at) <= oldest->0);
            }
        }
        oldest
    }

    /// The current exposition, without stale clusters.
    pub fn render_prometheus(&self, now: u64) -> (pieces: Vec<Piece>)
        requires
            self.well_formed(),
        ensures
            exists|a: Seq<Seq<char>>, b: Seq<Seq<char>>|
                lists(a, self@.clusters.dom()) && lists(b, self@.clusters.dom()) && views(pieces@)
                    == #[trigger] exposition(self@, a, b, true, now),
    {
        self.render_prometheus_with_staleness_check(true, now)
    }

    /// The current exposition, on request without stale clusters.
    pub fn render_prometheus_with_staleness_check(&self, filter_stale: bool, now: u64) -> (pieces:
        Vec<Piece>)
        requires
            self.well_formed(),
        ensures
            exists|a: Seq<Seq<char>>, b: Seq<Seq<char>>|
                lists(a, self@.clusters.dom()) && lists(b, self@.clusters.dom()) && views(pieces@)
                    == #[trigger] exposition(self@, a, b, filter_stale, now),
    {
        let metrics_walk = self.walk();
        let update_walk = names_in(table_entries(&self.last_update_timestamp));
        assert(self@.clusters.dom() =~= contents(self.last_update_timestamp).dom());
        self.render_walk(&metrics_walk, &update_walk, filter_stale, now)
    }

    /// The clusters, in the order in which they are walked over.
    fn walk(&self) -> (order: Vec<String>)
        requires
            self.well_formed(),
        ensures
            lists(views(order@), self@.clusters.dom()),
    {
        assert(self@.clusters.dom() =~= contents(self.metrics).dom());
        names_in(table_entries(&self.metrics))
    }

    /// The exposition, with the clusters in given orders.
    pub fn render_walk(
        &self,
        metrics_walk: &Vec<String>,
        update_walk: &Vec<String>,
        filter_stale: bool,
        now: u64,
    ) -> (pieces: Vec<Piece>)
        requires
            self.well_formed(),
            lists(views(metrics_walk@), self@.clusters.dom()),
            lists(views(update_walk@), self@.clusters.dom()),
        ensures
            views(pieces@) == exposition(
                self@,
                views(metrics_walk@),
                views(update_walk@),
                filter_stale,
                now,
            ),
    {
        let points = self.collect_points(metrics_walk, filter_stale, now);
        let mut pieces: Vec<Piece> = Vec::new();
        push_families(&mut pieces, &points);
        let ghost first = families(
            walked_points(self@, views(metrics_walk@), filter_stale, now),
        );
        assert(views(pieces@) =~= first);
        let mut scrape = header(
            METRIC_SCRAPE_DURATION_SECONDS,
            HELP_SCRAPE_DURATION_SECONDS,
            "gauge",
        );
        scrape.append(METRIC_SCRAPE_DURATION_SECONDS);
        scrape.append(" ");
        pieces.push(Piece::Text(scrape));
        pieces.push(Piece::Seconds(self.last_scrape_duration_ms));
        let mut up = "\n".to_owned();
        up.append(header(METRIC_UP, HELP_UP, "gauge").as_str());
        up.append(METRIC_UP);
        if self.healthy {
            up.append(" 1\n");
        } else {
            up.append(" 0\n");
        }
        pieces.push(Piece::Text(up));
        assert(views(pieces@) =~= first + exporter_families(self@));
        self.push_update_family(&mut pieces, update_walk, filter_stale, now);
        pieces
    }

    /// Whether a cluster's data is stale.
    fn is_cluster_stale(&self, cluster: &str, now: u64) -> (old: bool)
        requires
            self.well_formed(),
            self@.clusters.contains_key(cluster@),
        ensures
            old == stale(self@.clusters[cluster@], self@.threshold, now),
    {
        match table_get(&self.last_update, cluster) {
            Some(at) => elapsed(now, at) > self.staleness_threshold,
            None => true,
        }
    }

    /// The points of the walked clusters.
    fn collect_points(&self, walk: &Vec<String>, filter_stale: bool, now: u64) -> (points: Vec<
        &MetricPoint,
    >)
        requires
            self.well_formed(),
            lists(views(walk@), self@.clusters.dom()),
        ensures
            views(points@) == walked_points(self@, views(walk@), filter_stale, now),
    {
        let ghost order = views(walk@);
        let ghost f = |c: Seq<char>|
            if filter_stale && stale(self@.clusters[c], self@.threshold, now) {
                Seq::empty()
            } else {
                self@.clusters[c].points
            };
        let mut points: Vec<&MetricPoint> = Vec::new();
        let mut i: usize = 0;
        assert(order.take(0) =~= Seq::<Seq<char>>::empty());
        while i < walk.len()
            invariant
                self.well_formed(),
                order == views(walk@),
                lists(order, self@.clusters.dom()),
                f == (|c: Seq<char>|
                    if filter_stale && stale(self@.clusters[c], self@.threshold, now) {
                        Seq::empty()
                    } else {
                        self@.clusters[c].points
                    }),
                i <= walk.len(),
                views(points@) =~= flat(order.take(i as int), f),
            decreases walk.len() - i,
        {
            let ghost c = order[i as int];
            let ghost before = views(points@);
            proof {
                flat_step(order, f, i as int);
                assert(order.contains(c));
            }
            if !filter_stale || !self.is_cluster_stale(walk[i].as_str(), now) {
                if let Some(slot) = table_get(&self.metrics, walk[i].as_str()) {
                    let mine = &self.slots[slot as usize].1;
                    assert(self@.clusters[c].points == views(mine@));
                    let mut j: usize = 0;
                    while j < mine.len()
                        invariant
                            j <= mine.len(),
                            views(points@) =~= before + views(mine@).take(j as int),
                        decreases mine.len() - j,
                    {
                        points.push(&mine[j]);
                        j += 1;
                    }
                    assert(views(mine@).take(j as int) =~= views(mine@));
                }
            }
            i += 1;
        }
        assert(order.take(i as int) =~= order);
        points
    }

    /// Everything for OpenTelemetry.
    pub fn get_otel_metrics(&self, now_ms: i64) -> (metrics: Vec<OtelMetric>)
        requires
            self.well_formed(),
        ensures
            exists|a: Seq<Seq<char>>|
                lists(a, self@.clusters.dom()) && views(metrics@) == #[trigger] otel_metrics(
                    self@,
                    a,
                    now_ms,
                ),
    {
        let walk = self.walk();
        self.otel_walk(&walk, now_ms)
    }

    /// Everything for OpenTelemetry, with the clusters in a given order.
    pub fn otel_walk(&self, walk: &Vec<String>, now_ms: i64) -> (metrics: Vec<OtelMetric>)
        requires
            self.well_formed(),
            lists(views(walk@), self@.clusters.dom()),
        ensures
            views(metrics@) == otel_metrics(self@, views(walk@), now_ms),
    {
        let points = self.collect_points(walk, false, 0);
        let mut all = group_points_by_name(&points, now_ms);
        let scrape = Reading::Elapsed(self.last_scrape_duration_ms);
        all.insert(
            METRIC_SCRAPE_DURATION_SECONDS.to_owned(),
            own_metric(
                METRIC_SCRAPE_DURATION_SECONDS,
                HELP_SCRAPE_DURATION_SECONDS,
                "s",
                scrape,
                now_ms,
            ),
        );
        let up: i64 = if self.healthy {
            1
        } else {
            0
        };
        all.insert(
            METRIC_UP.to_owned(),
            own_metric(METRIC_UP, HELP_UP, "1", Reading::Whole(up), now_ms),
        );
        all.into_values()
    }

    /// Adds the metric that says when each cluster's points came.
    fn push_update_family(
        &self,
        pieces: &mut Vec<Piece>,
        walk: &Vec<String>,
        filter_stale: bool,
        now: u64,
    )
        requires
            self.well_formed(),
            lists(views(walk@), self@.clusters.dom()),
        ensures
            views(final(pieces)@) == views(old(pieces)@) + update_family(
                self@,
                views(walk@),
                filter_stale,
                now,
            ),
    {
        let ghost before = views(pieces@);
        if walk.len() == 0 {
            assert(views(pieces@) =~= before + update_family(self@, views(walk@), filter_stale, now));
            return ;
        }
        let text = header(METRIC_LAST_UPDATE_TIMESTAMP, HELP_LAST_UPDATE_TIMESTAMP, "gauge");
        pieces.push(Piece::Text(text));
        let ghost headed = views(pieces@);
        let ghost order = views(walk@);
        let ghost f = |c: Seq<char>|
            if filter_stale && stale(self@.clusters[c], self@.threshold, now) {
                Seq::empty()
            } else {
                seq![update_line(c, self@.clusters[c].updated_unix)]
            };
        let mut i: usize = 0;
        assert(order.take(0) =~= Seq::<Seq<char>>::empty());
        while i < walk.len()
            invariant
                self.well_formed(),
                order == views(walk@),
                lists(order, self@.clusters.dom()),
                f == (|c: Seq<char>|
                    if filter_stale && stale(self@.clusters[c], self@.threshold, now) {
                        Seq::empty()
                    } else {
                        seq![update_line(c, self@.clusters[c].updated_unix)]
                    }),
                i <= walk.len(),
                views(pieces@) =~= headed + flat(order.take(i as int), f),
            decreases walk.len() - i,
        {
            let ghost c = order[i as int];
            proof {
                flat_step(order, f, i as int);
                assert(order.contains(c));
            }
            if !filter_stale || !self.is_cluster_stale(walk[i].as_str(), now) {
                if let Some(unix) = table_get(&self.last_update_timestamp, walk[i].as_str()) {
                    let mut line = METRIC_LAST_UPDATE_TIMESTAMP.to_owned();
                    line.append("{");
                    line.append(LABEL_CLUSTER_NAME);
                    line.append("=\"");
                    line.append(walk[i].as_str());
                    line.append("\"} ");
                    line.append(unsigned_text(unix).as_str());
                    line.append("\n");
                    pieces.push(Piece::Text(line));
                }
            }
            i += 1;
        }
        assert(order.take(i as int) =~= order);
        assert(views(pieces@) =~= before + update_family(self@, order, filter_stale, now));
    }
}

impl Default for MetricsRegistry {
    fn default() -> (registry: Self)
        ensures
            registry.well_formed(),
            registry@ == (RegistryView {
                clusters: Map::empty(),
                healthy: true,
                scrape_ms: 0,
                threshold: DEFAULT_STALENESS_THRESHOLD,
            }),
    {
        Self::new()
    }
}

/// How long ago `at` was; 0 where it lies ahead.
pub fn elapsed(now: u64, at: u64) -> (a: u64)
    ensures
        a == age(now, at),
{
    if now > at {
        now - at
    } else {
        0
    }
}

/// A metric of the exporter itself.
fn own_metric(name: &str, help: &str, unit: &str, value: Reading, now_ms: i64) -> (metric:
    OtelMetric)
    ensures
        metric@ == exporter_metric(name@, help@, unit@, value, now_ms),
{
    let mut data_points: Vec<OtelDataPoint> = Vec::new();
    data_points.push(OtelDataPoint { attributes: Labels::new(), value, timestamp_ms: now_ms });
    let metric = OtelMetric {
        name: name.to_owned(),
        description: help.to_owned(),
        unit: unit.to_owned(),
        data_points,
    };
    assert(metric@.data_points =~= exporter_metric(name@, help@, unit@, value, now_ms).data_points);
    metric
}

/// Points as OpenTelemetry metrics, by name.
fn group_points_by_name(points: &Vec<&MetricPoint>, now_ms: i64) -> (metrics: OrderMap<
    String,
    OtelMetric,
>)
    ensures
        metrics@ == named_metrics(views(points@), now_ms),
{
    let ghost all = views(points@);
    let mut distinct = NameSet::new();
    let mut i: usize = 0;
    assert(all.take(0) =~= Seq::<PointView>::empty());
    while i < points.len()
        invariant
            all == views(points@),
            i <= points.len(),
            distinct@ == names_of(all.take(i as int)),
        decreases points.len() - i,
    {
        assert(all.take(i + 1).drop_last() =~= all.take(i as int));
        distinct.insert(points[i].name.as_str());
        i += 1;
    }
    assert(all.take(i as int) =~= all);
    let ghost names = names_of(all);
    let ghost wanted = named_metrics(all, now_ms);
    proof {
        use_type_invariant(&distinct);
    }
    let mut metrics: OrderMap<String, OtelMetric> = OrderMap::new();
    let mut i: usize = 0;
    while i < distinct.len()
        invariant
            all == views(points@),
            names == names_of(all),
            names == distinct@,
            names.no_duplicates(),
            wanted == named_metrics(all, now_ms),
            i <= distinct@.len(),
            metrics@ =~= wanted.take(i as int),
        decreases distinct@.len() - i,
    {
        let metric = metric_named(points, distinct.name_at(i), now_ms);
        proof {
            if has_key(metrics@, names[i as int]) {
                let k = choose|k: int|
                    0 <= k < metrics@.len() && #[trigger] metrics@[k].0 == names[i as int];
                assert(names[k] == names[i as int]);
            }
        }
        metrics.insert(distinct.name_at(i).to_owned(), metric);
        i += 1;
    }
    assert(wanted.take(i as int) =~= wanted);
    metrics
}

/// The points with a name as an OpenTelemetry metric.
fn metric_named(points: &Vec<&MetricPoint>, name: &str, now_ms: i64) -> (metric: OtelMetric)
    ensures
        metric@ == named_metric(views(points@), name@, now_ms),
{
    let ghost all = views(points@);
    let ghost f = |p: PointView|
        if p.name == name@ {
            seq![data_point(p, now_ms)]
        } else {
            Seq::empty()
        };
    let mut description = String::new();
    let mut data_points: Vec<OtelDataPoint> = Vec::new();
    let mut i: usize = 0;
    assert(all.take(0) =~= Seq::<PointView>::empty());
    while i < points.len()
        invariant
            all == views(points@),
            f == (|p: PointView|
                if p.name == name@ {
                    seq![data_point(p, now_ms)]
                } else {
                    Seq::empty()
                }),
            i <= points.len(),
            description@ == match first_named(all.take(i as int), name@) {
                Some(p) => p.help,
                None => Seq::empty(),
            },
            views(data_points@) =~= flat(all.take(i as int), f),
            data_points.len() == 0 <==> first_named(all.take(i as int), name@) is None,
        decreases points.len() - i,
    {
        proof {
            flat_step(all, f, i as int);
            assert(all.take(i + 1).drop_last() =~= all.take(i as int));
        }
        let p = points[i];
        if same_text(p.name.as_str(), name) {
            if data_points.len() == 0 {
                description = p.help.to_owned();
            }
            data_points.push(
                OtelDataPoint {
                    attributes: p.labels.duplicate(),
                    value: p.value.reading(),
                    timestamp_ms: now_ms,
                },
            );
        }
        i += 1;
    }
    assert(all.take(i as int) =~= all);
    OtelMetric { name: name.to_owned(), description, unit: "1".to_owned(), data_points }
}

/// The names of walked entries.
fn names_in(entries: Vec<(String, u64)>) -> (names: Vec<String>)
    ensures
        views(names@) == walked_names(entries@),
{
    let mut names: Vec<String> = Vec::new();
    let mut i: usize = 0;
    while i < entries.len()
        invariant
            i <= entries.len(),
            views(names@) =~= walked_names(entries@).take(i as int),
        decreases entries.len() - i,
    {
        names.push(entries[i].0.clone());
        i += 1;
    }
    assert(walked_names(entries@).take(i as int) =~= walked_names(entries@));
    names
}

} // verus!

//! What holds of every exposition, in text and for OpenTelemetry: every point is shown, under its
//! metric's name, and nothing else.

use crate::collector::caches::push_contains;
use crate::export::otel::{instrument_table, observed};
use crate::keymap::{
    has_key, lookup, lookup_finds, lookup_is_some, put, put_reads_back, unique_keys,
};
use crate::metrics::definitions::{
    HELP_LAST_UPDATE_TIMESTAMP, HELP_SCRAPE_DURATION_SECONDS, HELP_UP,
    METRIC_SCRAPE_DURATION_SECONDS, METRIC_UP,
};
use crate::metrics::exposition::{
    families, family, first_named, header_text, label_list, label_names, label_value, labels_text,
    named_lines, names_of, point_line, PieceView,
};
use crate::metrics::point_laws::named;
use crate::metrics::registry::{
    age, data_point, exporter_metric, exposition, named_data_points, named_metric, named_metrics,
    otel_metrics, stale, update_family, update_line, walked_points, ClusterView, RegistryView,
};
use crate::metrics::table::lists;
use crate::metrics::types::{
    LabelsView, MetricType, MetricValue, OtelMetricView, PointView, Reading,
};
use crate::text::{
    decimal, escaped, flat, flat_holds, occurs_at, occurs_in, sorted_names, sorted_names_is_sorted,
};
use vstd::prelude::*;

verus! {

/// Data counts as stale once it is older than the threshold, and not before.
pub proof fn data_goes_stale_after_the_threshold(cluster: ClusterView, threshold: u64, now: u64)
    ensures
        stale(cluster, threshold, now) <==> now - cluster.updated_at > threshold,
        now >= cluster.updated_at ==> age(now, cluster.updated_at) == now - cluster.updated_at,
        now < cluster.updated_at ==> age(now, cluster.updated_at) == 0,
{
}

/// The points that are shown are those of the clusters, one cluster after the other, each with
/// all its points; where stale clusters are not wanted, those whose points are older than the
/// threshold are left out.
pub proof fn every_cluster_shows_its_points(
    registry: RegistryView,
    order: Seq<Seq<char>>,
    cluster: Seq<char>,
    filter_stale: bool,
    now: u64,
)
    ensures
        walked_points(registry, Seq::empty(), filter_stale, now).len() == 0,
        ({
            let shown = registry.clusters[cluster];
            walked_points(registry, order.push(cluster), filter_stale, now) == walked_points(
                registry,
                order,
                filter_stale,
                now,
            ) + (if filter_stale && now - shown.updated_at > registry.threshold {
                Seq::empty()
            } else {
                shown.points
            })
        }),
{
    let longer = order.push(cluster);
    assert(longer.drop_last() =~= order);
    assert(longer.last() == cluster);
}

/// An order that lists the clusters names each of them, and none twice.
pub proof fn orders_list_every_cluster_once(
    order: Seq<Seq<char>>,
    names: Set<Seq<char>>,
    name: Seq<char>,
    i: int,
    j: int,
)
    requires
        lists(order, names),
    ensures
        order.contains(name) <==> names.contains(name),
        0 <= i < j < order.len() ==> order[i] != order[j],
{
}

/// A value is shown as the reading that it was made with.
pub proof fn values_show_their_reading(reading: Reading)
    ensures
        MetricValue::Gauge(reading).spec_reading() == reading,
        MetricValue::Counter(reading).spec_reading() == reading,
{
}

/// The gauges that are observed go by these names.
pub proof fn gauges_are_registered()
    ensures
        instrument_table().map_values(|gauge: (Seq<char>, Seq<char>)| gauge.0) == seq![
            "kafka_partition_latest_offset"@,
            "kafka_partition_earliest_offset"@,
            "kafka_consumergroup_group_offset"@,
            "kafka_consumergroup_group_lag"@,
            "kafka_consumergroup_group_lag_seconds"@,
            "kafka_consumergroup_group_max_lag"@,
            "kafka_consumergroup_group_sum_lag"@,
            "kafka_consumergroup_group_max_lag_seconds"@,
            "kafka_consumergroup_group_topic_sum_lag"@,
            "kafka_consumergroup_poll_time_ms"@,
            "kafka_lag_exporter_scrape_duration_seconds"@,
            "kafka_lag_exporter_up"@,
            "kafka_consumergroup_group_messages_lost"@,
            "kafka_consumergroup_group_retention_margin"@,
            "kafka_consumergroup_group_lag_retention_ratio"@,
            "kafka_lag_exporter_data_loss_partitions_total"@,
        ],
{
}

proof fn first_is_first_named(points: Seq<PointView>, name: Seq<char>)
    ensures
        match first_named(points, name) {
            Some(p) => named(points, name).len() > 0 && named(points, name)[0] == p,
            None => named(points, name).len() == 0,
        },
    decreases points.len(),
{
    reveal(Seq::filter);
    if points.len() > 0 {
        first_is_first_named(points.drop_last(), name);
    }
}

proof fn lines_are_of_named(points: Seq<PointView>, name: Seq<char>)
    ensures
        named_lines(points, name) == flat(named(points, name), |p: PointView| point_line(p)),
    decreases points.len(),
{
    reveal(Seq::filter);
    let f = |p: PointView|
        if p.name == name {
            point_line(p)
        } else {
            Seq::empty()
        };
    let g = |p: PointView| point_line(p);
    assert(named_lines(points, name) == flat(points, f));
    if points.len() > 0 {
        let shorter = points.drop_last();
        lines_are_of_named(shorter, name);
        assert(named_lines(shorter, name) == flat(shorter, f));
        if points.last().name == name {
            let longer = named(shorter, name).push(points.last());
            assert(named(points, name) == longer);
            assert(longer.drop_last() =~= named(shorter, name));
        } else {
            assert(flat(points, f) =~= flat(shorter, f));
        }
    } else {
        assert(flat(points, f) =~= flat(named(points, name), g));
    }
}

proof fn lines_stand_in_threes(points: Seq<PointView>, k: int)
    requires
        0 <= k < points.len(),
    ensures
        ({
            let lines = flat(points, |p: PointView| point_line(p));
            &&& lines.len() == 3 * points.len()
            &&& lines[3 * k] == point_line(points[k])[0]
            &&& lines[3 * k + 1] == point_line(points[k])[1]
            &&& lines[3 * k + 2] == point_line(points[k])[2]
        }),
    decreases points.len(),
{
    let f = |p: PointView| point_line(p);
    let shorter = points.drop_last();
    lines_len(shorter);
    if k < shorter.len() {
        lines_stand_in_threes(shorter, k);
        assert(shorter[k] == points[k]);
    }
    assert(flat(points, f) == flat(shorter, f) + f(points.last()));
}

proof fn lines_len(points: Seq<PointView>)
    ensures
        flat(points, |p: PointView| point_line(p)).len() == 3 * points.len(),
    decreases points.len(),
{
    if points.len() > 0 {
        lines_len(points.drop_last());
    }
}

/// A metric that has points is written as one header, with the help text and the type of its
/// first point, and then one line for each of its points, in order: the name, the labels and the
/// reading.
pub proof fn a_metric_shows_all_its_points(points: Seq<PointView>, name: Seq<char>, k: int)
    requires
        0 <= k < named(points, name).len(),
    ensures
        ({
            let mine = named(points, name);
            let text = family(points, name);
            &&& text.len() == 1 + 3 * mine.len()
            &&& text[0] == PieceView::Text(
                "# HELP "@ + name + " "@ + mine[0].help + "\n"@ + "# TYPE "@ + name + " "@ + (
                match mine[0].metric_type {
                    MetricType::Gauge => "gauge"@,
                    MetricType::Counter => "counter"@,
                }) + "\n"@,
            )
            &&& mine[k].name == name
            &&& text[1 + 3 * k] == PieceView::Text(name + labels_text(mine[k].labels) + " "@)
            &&& text[2 + 3 * k] == PieceView::Value(mine[k].value.spec_reading())
            &&& text[3 + 3 * k] == PieceView::Text("\n"@)
        }),
{
    let mine = named(points, name);
    first_is_first_named(points, name);
    lines_are_of_named(points, name);
    lines_stand_in_threes(mine, k);
    points.lemma_filter_pred(|p: PointView| p.name == name, k);
    let lines = flat(mine, |p: PointView| point_line(p));
    let text = family(points, name);
    assert(text[1 + 3 * k] == lines[3 * k]);
    assert(text[2 + 3 * k] == lines[3 * k + 1]);
    assert(text[3 + 3 * k] == lines[3 * k + 2]);
}

/// A name is listed exactly where a point has it.
pub proof fn names_are_those_of_points(points: Seq<PointView>, name: Seq<char>)
    ensures
        names_of(points).contains(name) <==> named(points, name).len() > 0,
        named(points, name).len() > 0 <==> exists|i: int|
            0 <= i < points.len() && (#[trigger] points[i]).name == name,
    decreases points.len(),
{
    reveal(Seq::filter);
    if points.len() > 0 {
        let shorter = points.drop_last();
        names_are_those_of_points(shorter, name);
        push_contains(names_of(shorter), points.last().name, name);
        if exists|i: int| 0 <= i < shorter.len() && (#[trigger] shorter[i]).name == name {
            let i = choose|i: int| 0 <= i < shorter.len() && (#[trigger] shorter[i]).name == name;
            assert(points[i].name == name);
        }
        if points.last().name == name {
            assert(points[points.len() - 1].name == name);
        }
        if exists|i: int| 0 <= i < points.len() && (#[trigger] points[i]).name == name {
            let i = choose|i: int| 0 <= i < points.len() && (#[trigger] points[i]).name == name;
            if i < shorter.len() {
                assert(shorter[i].name == name);
            }
        }
    }
}

proof fn sorted_holds_the_same(names: Seq<Seq<char>>, name: Seq<char>)
    ensures
        sorted_names(names).contains(name) <==> names.contains(name),
{
    sorted_names_is_sorted(names);
    names.to_multiset_ensures();
    sorted_names(names).to_multiset_ensures();
    assert(names.to_multiset().count(name) > 0 <==> names.contains(name));
    assert(sorted_names(names).to_multiset().count(name) > 0 <==> sorted_names(names).contains(
        name,
    ));
}

proof fn flat_part_stands<A, B>(s: Seq<A>, f: spec_fn(A) -> Seq<B>, i: int) -> (start: int)
    requires
        0 <= i < s.len(),
    ensures
        0 <= start,
        start + f(s[i]).len() <= flat(s, f).len(),
        flat(s, f).subrange(start, start + f(s[i]).len()) == f(s[i]),
    decreases s.len(),
{
    let shorter = s.drop_last();
    let before = flat(shorter, f);
    if i < shorter.len() {
        let start = flat_part_stands(shorter, f, i);
        assert(shorter[i] == s[i]);
        assert(flat(s, f).subrange(start, start + f(s[i]).len()) =~= before.subrange(
            start,
            start + f(s[i]).len(),
        ));
        start
    } else {
        assert(flat(s, f).subrange(before.len() as int, (before.len() + f(s[i]).len()) as int) =~= f(s[i]));
        before.len() as int
    }
}

/// The metrics of all points stand one after the other, each as a whole; there is one for each
/// name that a point has, and nothing else.
pub proof fn every_metric_stands_as_a_whole(points: Seq<PointView>, name: Seq<char>)
    ensures
        named(points, name).len() > 0 ==> exists|start: int|
            0 <= start && start + family(points, name).len() <= families(points).len()
                && #[trigger] families(points).subrange(start, start + family(points, name).len())
                == family(points, name),
        families(points).len() == sorted_names(names_of(points)).fold_left(
            0int,
            |n: int, name: Seq<char>| n + 1 + 3 * named(points, name).len(),
        ),
{
    let names = sorted_names(names_of(points));
    let f = |name: Seq<char>| family(points, name);
    assert(families(points) == flat(names, f));
    names_are_those_of_points(points, name);
    sorted_holds_the_same(names_of(points), name);
    if named(points, name).len() > 0 {
        let i = choose|i: int| 0 <= i < names.len() && names[i] == name;
        let start = flat_part_stands(names, f, i);
        assert(families(points).subrange(start, start + family(points, name).len()) == family(
            points,
            name,
        ));
    }
    assert forall|k: int| 0 <= k < names.len() implies names_of(points).contains(
        #[trigger] names[k],
    ) by {
        sorted_holds_the_same(names_of(points), names[k]);
    }
    families_len(points, names);
}

proof fn families_len(points: Seq<PointView>, names: Seq<Seq<char>>)
    requires
        forall|k: int| 0 <= k < names.len() ==> names_of(points).contains(#[trigger] names[k]),
    ensures
        flat(names, |name: Seq<char>| family(points, name)).len() == names.fold_left(
            0int,
            |n: int, name: Seq<char>| n + 1 + 3 * named(points, name).len(),
        ),
    decreases names.len(),
{
    reveal_with_fuel(Seq::fold_left, 2);
    if names.len() > 0 {
        let shorter = names.drop_last();
        assert forall|k: int| 0 <= k < shorter.len() implies names_of(points).contains(
            #[trigger] shorter[k],
        ) by {
            assert(names_of(points).contains(names[k]));
        }
        families_len(points, shorter);
        assert(names_of(points).contains(names[names.len() - 1]));
        names_are_those_of_points(points, names.last());
        a_metric_shows_all_its_points(points, names.last(), 0);
    }
}

/// A label as it is written.
spec fn label_item(labels: LabelsView, name: Seq<char>) -> Seq<char> {
    name + "=\""@ + escaped(label_value(labels, name)) + "\""@
}

proof fn item_is_in_list(labels: LabelsView, names: Seq<Seq<char>>, i: int) -> (at: int)
    requires
        0 <= i < names.len(),
    ensures
        occurs_at(label_list(labels, names), label_item(labels, names[i]), at),
    decreases names.len(),
{
    let name = names.last();
    let shorter = names.drop_last();
    let item = label_item(labels, name);
    let before = if names.len() == 1 {
        Seq::empty()
    } else {
        label_list(labels, shorter) + ","@
    };
    let list = label_list(labels, names);
    assert(list =~= before + item);
    if i == names.len() - 1 {
        assert(list.subrange(before.len() as int, (before.len() + item.len()) as int) =~= item);
        before.len() as int
    } else {
        let at = item_is_in_list(labels, shorter, i);
        let mine = label_item(labels, names[i]);
        let inner = label_list(labels, shorter);
        assert(list.subrange(at, at + mine.len()) =~= inner.subrange(at, at + mine.len()));
        at
    }
}

proof fn list_len(labels: LabelsView, names: Seq<Seq<char>>)
    requires
        names.len() > 0,
    ensures
        label_list(labels, names).len() + 1 == names.fold_left(
            0int,
            |n: int, name: Seq<char>|
                n + name.len() + escaped(label_value(labels, name)).len() + 4,
        ),
    decreases names.len(),
{
    reveal_with_fuel(Seq::fold_left, 2);
    reveal_strlit("=\"");
    reveal_strlit("\"");
    reveal_strlit(",");
    assert("=\""@.len() == 2);
    assert("\""@.len() == 1);
    assert(","@.len() == 1);
    if names.len() > 1 {
        list_len(labels, names.drop_last());
    } else {
        assert(names.drop_last() =~= Seq::empty());
    }
}

/// Every label is written, with its value escaped and in quotes, and nothing is written besides
/// but braces and commas.
pub proof fn every_label_is_written(labels: LabelsView, i: int)
    requires
        unique_keys(labels),
        0 <= i < labels.len(),
    ensures
        occurs_in(labels_text(labels), labels[i].0 + "=\""@ + escaped(labels[i].1) + "\""@),
        labels_text(labels).len() == 1 + sorted_names(label_names(labels)).fold_left(
            0int,
            |n: int, name: Seq<char>|
                n + name.len() + escaped(label_value(labels, name)).len() + 4,
        ),
        labels_text(labels)[0] == '{',
        labels_text(labels).last() == '}',
{
    reveal_strlit("{");
    reveal_strlit("}");
    let names = label_names(labels);
    let sorted = sorted_names(names);
    let name = labels[i].0;
    assert(names[i] == name);
    assert(names.contains(name));
    sorted_holds_the_same(names, name);
    let k = choose|k: int| 0 <= k < sorted.len() && sorted[k] == name;
    lookup_finds(labels, i);
    let at = item_is_in_list(labels, sorted, k);
    let list = label_list(labels, sorted);
    let item = label_item(labels, name);
    let text = labels_text(labels);
    assert("{"@.len() == 1 && "}"@.len() == 1);
    assert(text.subrange(at + 1, at + 1 + item.len()) =~= list.subrange(at, at + item.len()));
    assert(occurs_at(text, item, at + 1));
    list_len(labels, sorted);
}

/// The exposition is the clusters' points, then how long the last collection took and whether the
/// exporter is up, then when each cluster was last updated.
pub proof fn expositions_tell_all(
    registry: RegistryView,
    metrics_order: Seq<Seq<char>>,
    update_order: Seq<Seq<char>>,
    filter_stale: bool,
    now: u64,
)
    ensures
        ({
            let text = exposition(registry, metrics_order, update_order, filter_stale, now);
            let points = families(walked_points(registry, metrics_order, filter_stale, now));
            let updates = update_family(registry, update_order, filter_stale, now);
            let n = points.len() as int;
            &&& text.len() == n + 3 + updates.len()
            &&& text.take(n) == points
            &&& text.skip(n + 3) == updates
            &&& text[n] == PieceView::Text(
                header_text(
                    "kafka_lag_exporter_scrape_duration_seconds"@,
                    HELP_SCRAPE_DURATION_SECONDS@,
                    "gauge"@,
                ) + "kafka_lag_exporter_scrape_duration_seconds"@ + " "@,
            )
            &&& text[n + 1] == PieceView::Seconds(registry.scrape_ms)
            &&& text[n + 2] == PieceView::Text(
                "\n"@ + header_text("kafka_lag_exporter_up"@, HELP_UP@, "gauge"@)
                    + "kafka_lag_exporter_up"@ + (if registry.healthy {
                    " 1\n"@
                } else {
                    " 0\n"@
                }),
            )
        }),
{
    let text = exposition(registry, metrics_order, update_order, filter_stale, now);
    let points = families(walked_points(registry, metrics_order, filter_stale, now));
    let updates = update_family(registry, update_order, filter_stale, now);
    let n = points.len() as int;
    assert(text.take(n) =~= points);
    assert(text.skip(n + 3) =~= updates);
}

/// Each cluster whose points are shown has a line with the Unix time at which they came, under
/// one header.
pub proof fn every_cluster_shows_its_update(
    registry: RegistryView,
    order: Seq<Seq<char>>,
    filter_stale: bool,
    now: u64,
    i: int,
)
    requires
        0 <= i < order.len(),
    ensures
        ({
            let text = update_family(registry, order, filter_stale, now);
            let cluster = registry.clusters[order[i]];
            &&& text[0] == PieceView::Text(
                header_text(
                    "kafka_lag_exporter_last_update_timestamp_seconds"@,
                    HELP_LAST_UPDATE_TIMESTAMP@,
                    "gauge"@,
                ),
            )
            &&& !(filter_stale && now - cluster.updated_at > registry.threshold) ==> text.contains(
                PieceView::Text(
                    "kafka_lag_exporter_last_update_timestamp_seconds"@ + "{"@ + "cluster_name"@
                        + "=\""@ + order[i] + "\"} "@ + decimal(cluster.updated_unix as int)
                        + "\n"@,
                ),
            )
            &&& text.len() == 1 + order.filter(
                |c: Seq<char>|
                    !(filter_stale && now - registry.clusters[c].updated_at > registry.threshold),
            ).len()
        }),
{
    let text = update_family(registry, order, filter_stale, now);
    let f = |c: Seq<char>|
        if filter_stale && stale(registry.clusters[c], registry.threshold, now) {
            Seq::empty()
        } else {
            seq![update_line(c, registry.clusters[c].updated_unix)]
        };
    let head = seq![
        PieceView::Text(
            header_text(
                "kafka_lag_exporter_last_update_timestamp_seconds"@,
                HELP_LAST_UPDATE_TIMESTAMP@,
                "gauge"@,
            ),
        ),
    ];
    assert(text == head + flat(order, f));
    let cluster = registry.clusters[order[i]];
    if !(filter_stale && now - cluster.updated_at > registry.threshold) {
        flat_holds(order, f, i, 0);
        let line = f(order[i])[0];
        let k = choose|k: int| 0 <= k < flat(order, f).len() && flat(order, f)[k] == line;
        assert(text[1 + k] == line);
    }
    update_lines_len(registry, order, filter_stale, now);
}

proof fn update_lines_len(
    registry: RegistryView,
    order: Seq<Seq<char>>,
    filter_stale: bool,
    now: u64,
)
    ensures
        flat(
            order,
            |c: Seq<char>|
                if filter_stale && stale(registry.clusters[c], registry.threshold, now) {
                    Seq::empty()
                } else {
                    seq![update_line(c, registry.clusters[c].updated_unix)]
                },
        ).len() == order.filter(
            |c: Seq<char>|
                !(filter_stale && now - registry.clusters[c].updated_at > registry.threshold),
        ).len(),
    decreases order.len(),
{
    reveal(Seq::filter);
    if order.len() > 0 {
        update_lines_len(registry, order.drop_last(), filter_stale, now);
    }
}

proof fn named_data(points: Seq<PointView>, name: Seq<char>, now_ms: i64)
    ensures
        named_data_points(points, name, now_ms) == named(points, name).map_values(
            |p: PointView| data_point(p, now_ms),
        ),
    decreases points.len(),
{
    reveal(Seq::filter);
    let f = |p: PointView|
        if p.name == name {
            seq![data_point(p, now_ms)]
        } else {
            Seq::empty()
        };
    let g = |p: PointView| data_point(p, now_ms);
    assert(named_data_points(points, name, now_ms) == flat(points, f));
    if points.len() > 0 {
        let shorter = points.drop_last();
        named_data(shorter, name, now_ms);
        assert(named_data_points(shorter, name, now_ms) == flat(shorter, f));
        assert(flat(points, f) =~= named(points, name).map_values(g));
    } else {
        assert(flat(points, f) =~= named(points, name).map_values(g));
    }
}

/// Whether a list of metrics shows a metric with all the points that have its name: each with its
/// labels and its reading, at one time.
pub open spec fn shows_all(
    metric: OtelMetricView,
    points: Seq<PointView>,
    name: Seq<char>,
    now_ms: i64,
) -> bool {
    let mine = named(points, name);
    &&& metric.name == name
    &&& metric.unit == "1"@
    &&& mine.len() > 0 ==> metric.description == mine[0].help
    &&& metric.data_points.len() == mine.len()
    &&& forall|k: int|
        0 <= k < mine.len() ==> (#[trigger] metric.data_points[k]).attributes == mine[k].labels
            && metric.data_points[k].value == mine[k].value.spec_reading()
            && metric.data_points[k].timestamp_ms == now_ms
}

/// Whether a metric shows one reading, without labels.
pub open spec fn shows_one(
    metric: OtelMetricView,
    name: Seq<char>,
    unit: Seq<char>,
    reading: Reading,
    now_ms: i64,
) -> bool {
    &&& metric.name == name
    &&& metric.unit == unit
    &&& metric.data_points.len() == 1
    &&& metric.data_points[0].attributes.len() == 0
    &&& metric.data_points[0].value == reading
    &&& metric.data_points[0].timestamp_ms == now_ms
}

proof fn metrics_by_name(points: Seq<PointView>, now_ms: i64, name: Seq<char>)
    ensures
        unique_keys(named_metrics(points, now_ms)),
        lookup(named_metrics(points, now_ms), name) == (if named(points, name).len() > 0 {
            Some(named_metric(points, name, now_ms))
        } else {
            None
        }),
{
    let names = names_of(points);
    let all = named_metrics(points, now_ms);
    distinct_names(points);
    assert forall|i: int, j: int| 0 <= i < j < all.len() implies #[trigger] all[i].0
        != #[trigger] all[j].0 by {
        assert(names[i] != names[j]);
    }
    names_are_those_of_points(points, name);
    lookup_is_some(all, name);
    if names.contains(name) {
        let i = choose|i: int| 0 <= i < names.len() && names[i] == name;
        lookup_finds(all, i);
        assert(all[i].0 == name);
    } else if has_key(all, name) {
        let i = choose|i: int| 0 <= i < all.len() && #[trigger] all[i].0 == name;
        assert(names[i] == name);
    }
}

proof fn distinct_names(points: Seq<PointView>)
    ensures
        names_of(points).no_duplicates(),
    decreases points.len(),
{
    if points.len() > 0 {
        distinct_names(points.drop_last());
    }
}

/// For OpenTelemetry every point of every cluster, stale or not, is shown under its metric's name
/// with its labels and its reading; each metric is there once. Besides, there are how long the
/// last collection took, and whether the exporter is up.
pub proof fn every_point_is_observed(
    registry: RegistryView,
    order: Seq<Seq<char>>,
    now_ms: i64,
    name: Seq<char>,
)
    ensures
        ({
            let metrics = otel_metrics(registry, order, now_ms);
            let points = walked_points(registry, order, false, 0);
            let took = "kafka_lag_exporter_scrape_duration_seconds"@;
            let up = "kafka_lag_exporter_up"@;
            &&& forall|i: int, j: int|
                0 <= i < j < metrics.len() ==> (#[trigger] metrics[i]).name != (
                #[trigger] metrics[j]).name
            &&& name != took && name != up && named(points, name).len() > 0 ==> exists|k: int|
                0 <= k < metrics.len() && shows_all(#[trigger] metrics[k], points, name, now_ms)
            &&& name != took && name != up && named(points, name).len() == 0 ==> forall|k: int|
                0 <= k < metrics.len() ==> (#[trigger] metrics[k]).name != name
            &&& exists|k: int|
                0 <= k < metrics.len() && shows_one(
                    #[trigger] metrics[k],
                    took,
                    "s"@,
                    Reading::Elapsed(registry.scrape_ms),
                    now_ms,
                )
            &&& exists|k: int|
                0 <= k < metrics.len() && shows_one(
                    #[trigger] metrics[k],
                    up,
                    "1"@,
                    Reading::Whole(
                        if registry.healthy {
                            1
                        } else {
                            0
                        },
                    ),
                    now_ms,
                )
        }),
{
    let points = walked_points(registry, order, false, 0);
    let took = METRIC_SCRAPE_DURATION_SECONDS@;
    let up = METRIC_UP@;
    reveal_strlit("kafka_lag_exporter_scrape_duration_seconds");
    reveal_strlit("kafka_lag_exporter_up");
    assert(took.len() == 42 && up.len() == 21);
    let base = named_metrics(points, now_ms);
    let scrape_metric = exporter_metric(
        took,
        HELP_SCRAPE_DURATION_SECONDS@,
        "s"@,
        Reading::Elapsed(registry.scrape_ms),
        now_ms,
    );
    let up_metric = exporter_metric(
        up,
        HELP_UP@,
        "1"@,
        Reading::Whole(
            if registry.healthy {
                1
            } else {
                0
            },
        ),
        now_ms,
    );
    let one = put(base, took, scrape_metric);
    let all = put(one, up, up_metric);
    let metrics = otel_metrics(registry, order, now_ms);
    assert(metrics == Seq::new(all.len(), |i: int| all[i].1));
    metrics_by_name(points, now_ms, name);
    put_reads_back(base, took, scrape_metric, name);
    put_reads_back(base, took, scrape_metric, took);
    put_reads_back(one, up, up_metric, name);
    put_reads_back(one, up, up_metric, took);
    put_reads_back(one, up, up_metric, up);
    assert forall|i: int| 0 <= i < all.len() implies (#[trigger] all[i]).1.name == all[i].0 by {
        let key = all[i].0;
        lookup_finds(all, i);
        put_reads_back(base, took, scrape_metric, key);
        put_reads_back(one, up, up_metric, key);
        metrics_by_name(points, now_ms, key);
    }
    assert forall|i: int, j: int| 0 <= i < j < metrics.len() implies (#[trigger] metrics[i]).name
        != (#[trigger] metrics[j]).name by {
        assert(all[i].1.name == all[i].0);
        assert(all[j].1.name == all[j].0);
        assert(all[i].0 != all[j].0);
    }
    lookup_is_some(all, took);
    lookup_is_some(all, up);
    lookup_is_some(all, name);
    let s = choose|s: int| 0 <= s < all.len() && #[trigger] all[s].0 == took;
    lookup_finds(all, s);
    assert(metrics[s] == scrape_metric);
    let u = choose|u: int| 0 <= u < all.len() && #[trigger] all[u].0 == up;
    lookup_finds(all, u);
    assert(metrics[u] == up_metric);
    if name != took && name != up {
        if named(points, name).len() > 0 {
            let k = choose|k: int| 0 <= k < all.len() && #[trigger] all[k].0 == name;
            lookup_finds(all, k);
            named_data(points, name, now_ms);
            first_is_first_named(points, name);
            assert(metrics[k] == named_metric(points, name, now_ms));
            assert(shows_all(metrics[k], points, name, now_ms));
        } else {
            assert forall|k: int| 0 <= k < metrics.len() implies (#[trigger] metrics[k]).name
                != name by {
                assert(all[k].1.name == all[k].0);
                lookup_finds(all, k);
            }
        }
    }
}

/// A gauge shows the values of the metric with its name, all of them, and nothing where there is
/// no such metric.
pub proof fn gauges_show_their_metric(metrics: Seq<OtelMetricView>, name: Seq<char>)
    requires
        forall|i: int, j: int|
            0 <= i < j < metrics.len() ==> (#[trigger] metrics[i]).name != (
            #[trigger] metrics[j]).name,
    ensures
        forall|k: int|
            0 <= k < metrics.len() && (#[trigger] metrics[k]).name == name ==> observed(
                metrics,
                name,
            ) == metrics[k].data_points,
        (forall|k: int| 0 <= k < metrics.len() ==> (#[trigger] metrics[k]).name != name)
            ==> observed(metrics, name).len() == 0,
    decreases metrics.len(),
{
    let f = |m: OtelMetricView|
        if m.name == name {
            m.data_points
        } else {
            Seq::empty()
        };
    assert(observed(metrics, name) == flat(metrics, f));
    if metrics.len() > 0 {
        let shorter = metrics.drop_last();
        let n = metrics.len() - 1;
        assert forall|i: int| 0 <= i < shorter.len() implies #[trigger] shorter[i] == metrics[i] by {
        }
        assert forall|i: int, j: int| 0 <= i < j < shorter.len() implies (
        #[trigger] shorter[i]).name != (#[trigger] shorter[j]).name by {
            assert(metrics[i].name != metrics[j].name);
        }
        gauges_show_their_metric(shorter, name);
        assert(observed(shorter, name) == flat(shorter, f));
        assert forall|k: int| 0 <= k < metrics.len() && (#[trigger] metrics[k]).name
            == name implies observed(metrics, name) == metrics[k].data_points by {
            if k < n {
                assert(shorter[k].name == name);
                assert(metrics[k].name != metrics[n].name);
                assert(flat(metrics, f) =~= flat(shorter, f));
            } else {
                assert forall|i: int| 0 <= i < shorter.len() implies (
                #[trigger] shorter[i]).name != name by {
                    assert(metrics[i].name != metrics[n].name);
                }
                assert(flat(metrics, f) =~= metrics[n].data_points);
            }
        }
        if forall|k: int| 0 <= k < metrics.len() ==> (#[trigger] metrics[k]).name != name {
            assert forall|i: int| 0 <= i < shorter.len() implies (#[trigger] shorter[i]).name
                != name by {
                assert(metrics[i].name != name);
            }
            assert(metrics[n].name != name);
        }
    }
}

} // verus!

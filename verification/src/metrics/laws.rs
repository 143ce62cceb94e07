//! What holds of every registry and every exposition.

use crate::collector::lag_calculator::{
    GroupLagView, LagView, PartitionLagView, PartitionOffsetView, TopicLagView,
};
use crate::config::Granularity;
use crate::keymap::{
    has_key, lookup, lookup_is_some, put, put_all, put_reads_back, unique_keys,
};
use crate::metrics::definitions::{
    LABEL_CLIENT_ID, LABEL_CLUSTER_NAME, LABEL_COMPACTION_DETECTED, LABEL_CONSUMER_ID,
    LABEL_DATA_LOSS_DETECTED, LABEL_GROUP, LABEL_MEMBER_HOST, LABEL_PARTITION, LABEL_TOPIC,
};
use crate::metrics::exposition::{label_list, label_names, labels_text, names_of};
use crate::metrics::points::{
    cluster_labels, cluster_points, group_labels, group_points, lag_points, offset_labels,
    offset_points, partition_labels, partition_points, topic_labels, topic_points, truth_word,
};
use crate::metrics::registry::{
    exposition, stale, update_family, update_line, walked_points, ClusterView, RegistryView,
};
use crate::metrics::types::{LabelsView, PointView};
use crate::text::{
    before_irreflexive, before_total, before_transitive, decimal, escaped, escaped_char, flat,
    sorted_names, sorted_names_is_sorted, text_before,
};
use vstd::prelude::*;
use vstd::seq_lib::lemma_sorted_unique;

verus! {

/// A registry after a cluster's points came.
pub open spec fn updated(registry: RegistryView, name: Seq<char>, cluster: ClusterView) -> RegistryView {
    RegistryView { clusters: registry.clusters.insert(name, cluster), ..registry }
}

/// A registry after a cluster was removed.
pub open spec fn removed(registry: RegistryView, name: Seq<char>) -> RegistryView {
    RegistryView { clusters: registry.clusters.remove(name), ..registry }
}

/// An update replaces what the cluster had before, leaves every other cluster alone, and is
/// undone by a removal where the cluster was not there before.
pub proof fn update_replaces_and_removal_undoes(
    registry: RegistryView,
    name: Seq<char>,
    first: ClusterView,
    second: ClusterView,
    other: Seq<char>,
)
    ensures
        updated(updated(registry, name, first), name, second) == updated(registry, name, second),
        other != name && registry.clusters.contains_key(other) ==> updated(
            registry,
            name,
            first,
        ).clusters[other] == registry.clusters[other],
        !registry.clusters.contains_key(name) ==> removed(updated(registry, name, first), name)
            == registry,
        !removed(registry, name).clusters.contains_key(name),
{
    assert(updated(updated(registry, name, first), name, second).clusters =~= updated(
        registry,
        name,
        second,
    ).clusters);
    if !registry.clusters.contains_key(name) {
        assert(removed(updated(registry, name, first), name).clusters =~= registry.clusters);
    }
}

/// A stale cluster adds nothing to an exposition without stale clusters: what is shown depends
/// neither on the points it had nor on the wall clock time at which they came.
pub proof fn stale_clusters_are_not_shown(
    registry: RegistryView,
    metrics_order: Seq<Seq<char>>,
    update_order: Seq<Seq<char>>,
    name: Seq<char>,
    other_points: Seq<PointView>,
    other_unix: u64,
    now: u64,
)
    requires
        stale(registry.clusters[name], registry.threshold, now),
    ensures
        ({
            let changed = updated(
                registry,
                name,
                ClusterView {
                    points: other_points,
                    updated_unix: other_unix,
                    ..registry.clusters[name]
                },
            );
            exposition(registry, metrics_order, update_order, true, now) == exposition(
                changed,
                metrics_order,
                update_order,
                true,
                now,
            )
        }),
{
    let changed = updated(
        registry,
        name,
        ClusterView { points: other_points, updated_unix: other_unix, ..registry.clusters[name] },
    );
    let filter_stale = true;
    let f = |c: Seq<char>|
        if filter_stale && stale(registry.clusters[c], registry.threshold, now) {
            Seq::empty()
        } else {
            registry.clusters[c].points
        };
    let g = |c: Seq<char>|
        if filter_stale && stale(changed.clusters[c], changed.threshold, now) {
            Seq::empty()
        } else {
            changed.clusters[c].points
        };
    assert(f =~= g);
    assert(walked_points(registry, metrics_order, filter_stale, now) == flat(metrics_order, f));
    assert(walked_points(changed, metrics_order, filter_stale, now) == flat(metrics_order, g));
    let lines = |c: Seq<char>|
        if filter_stale && stale(registry.clusters[c], registry.threshold, now) {
            Seq::empty()
        } else {
            seq![update_line(c, registry.clusters[c].updated_unix)]
        };
    let other_lines = |c: Seq<char>|
        if filter_stale && stale(changed.clusters[c], changed.threshold, now) {
            Seq::empty()
        } else {
            seq![update_line(c, changed.clusters[c].updated_unix)]
        };
    assert(lines =~= other_lines);
    assert(update_family(registry, update_order, filter_stale, now) == update_family(
        changed,
        update_order,
        filter_stale,
        now,
    ));
}

/// At topic granularity the points do not depend on the partitions' lags.
pub proof fn topic_granularity_skips_partitions(
    cluster: Seq<char>,
    lag: LagView,
    others: Seq<PartitionLagView>,
    custom: LabelsView,
)
    ensures
        lag_points(cluster, lag, Granularity::Topic, custom) == lag_points(
            cluster,
            LagView { partition_metrics: others, ..lag },
            Granularity::Topic,
            custom,
        ),
{
}

/// What `put_all` gives a key: the added value where there is one, else the old one.
pub proof fn put_all_reads_back(base: LabelsView, more: LabelsView, k: Seq<char>)
    requires
        unique_keys(base),
    ensures
        unique_keys(put_all(base, more)),
        lookup(put_all(base, more), k) == (if has_key(more, k) {
            lookup(more, k)
        } else {
            lookup(base, k)
        }),
    decreases more.len(),
{
    if more.len() > 0 {
        let shorter = more.drop_last();
        put_all_reads_back(base, shorter, k);
        put_reads_back(put_all(base, shorter), more.last().0, more.last().1, k);
        lookup_is_some(more, k);
        lookup_is_some(shorter, k);
    }
}

/// Whether a point carries a label.
pub open spec fn carries(p: PointView, name: Seq<char>, value: Seq<char>) -> bool {
    lookup(p.labels, name) == Some(value)
}

/// Every point of a cluster carries every custom label, also where a built-in label has the
/// same name; only the two labels that tell how far a time lag can be trusted stand above it.
pub proof fn custom_labels_are_on_every_point(
    cluster: Seq<char>,
    lag: LagView,
    granularity: Granularity,
    custom: LabelsView,
    name: Seq<char>,
    i: int,
)
    requires
        unique_keys(custom),
        has_key(custom, name),
        name != LABEL_COMPACTION_DETECTED@,
        name != LABEL_DATA_LOSS_DETECTED@,
        0 <= i < lag_points(cluster, lag, granularity, custom).len(),
    ensures
        carries(
            lag_points(cluster, lag, granularity, custom)[i],
            name,
            lookup(custom, name)->0,
        ),
{
    lookup_is_some(custom, name);
    let value = lookup(custom, name)->0;
    let good = |p: PointView| carries(p, name, value);
    let f1 = |m: PartitionOffsetView| offset_points(m, custom);
    let f2 = |m: PartitionLagView| partition_points(m, custom);
    let f3 = |m: GroupLagView| group_points(m, custom);
    let f4 = |m: TopicLagView| topic_points(m, custom);
    assert forall|m: PartitionOffsetView, k: int| 0 <= k < f1(m).len() implies good(
        #[trigger] f1(m)[k],
    ) by {
        offset_labels_unique(m);
        put_all_reads_back(offset_labels(m), custom, name);
    }
    assert forall|m: PartitionLagView, k: int| 0 <= k < f2(m).len() implies good(
        #[trigger] f2(m)[k],
    ) by {
        partition_labels_unique(m);
        let base = put_all(partition_labels(m), custom);
        put_all_reads_back(partition_labels(m), custom, name);
        let one = put(
            base,
            LABEL_COMPACTION_DETECTED@,
            truth_word(m.compaction_detected),
        );
        put_reads_back(
            base,
            LABEL_COMPACTION_DETECTED@,
            truth_word(m.compaction_detected),
            name,
        );
        put_reads_back(
            one,
            LABEL_DATA_LOSS_DETECTED@,
            truth_word(m.data_loss_detected),
            name,
        );
    }
    assert forall|m: GroupLagView, k: int| 0 <= k < f3(m).len() implies good(
        #[trigger] f3(m)[k],
    ) by {
        group_labels_unique(m.cluster_name, m.group_id);
        put_all_reads_back(group_labels(m.cluster_name, m.group_id), custom, name);
    }
    assert forall|m: TopicLagView, k: int| 0 <= k < f4(m).len() implies good(
        #[trigger] f4(m)[k],
    ) by {
        topic_labels_unique(m.cluster_name, m.group_id, m.topic);
        put_all_reads_back(topic_labels(m.cluster_name, m.group_id, m.topic), custom, name);
    }
    flat_keeps(lag.partition_offsets, f1, good);
    flat_keeps(lag.partition_metrics, f2, good);
    flat_keeps(lag.group_metrics, f3, good);
    flat_keeps(lag.topic_metrics, f4, good);
    let last = cluster_points(cluster, lag, custom);
    assert forall|k: int| 0 <= k < last.len() implies good(#[trigger] last[k]) by {
        cluster_labels_unique(cluster);
        put_all_reads_back(cluster_labels(cluster), custom, name);
    }
    let a = flat(lag.partition_offsets, f1);
    let b = match granularity {
        Granularity::Partition => flat(lag.partition_metrics, f2),
        Granularity::Topic => Seq::empty(),
    };
    let c = flat(lag.group_metrics, f3);
    let d = flat(lag.topic_metrics, f4);
    let all = lag_points(cluster, lag, granularity, custom);
    assert(all == a + b + c + d + last);
    let p = all[i];
    assert(good(p)) by {
        let n1 = a.len() as int;
        let n2 = n1 + b.len();
        let n3 = n2 + c.len();
        let n4 = n3 + d.len();
        if i < n1 {
            assert(good(a[i]));
        } else if i < n2 {
            assert(good(b[i - n1]));
        } else if i < n3 {
            assert(good(c[i - n2]));
        } else if i < n4 {
            assert(good(d[i - n3]));
        } else {
            assert(good(last[i - n4]));
        }
    }
}

/// What holds of all that `f` makes holds of all that `flat` makes.
proof fn flat_keeps<A, B>(s: Seq<A>, f: spec_fn(A) -> Seq<B>, good: spec_fn(B) -> bool)
    requires
        forall|a: A, k: int| 0 <= k < f(a).len() ==> good(#[trigger] f(a)[k]),
    ensures
        forall|i: int| 0 <= i < flat(s, f).len() ==> good(#[trigger] flat(s, f)[i]),
    decreases s.len(),
{
    if s.len() > 0 {
        flat_keeps(s.drop_last(), f, good);
        let before = flat(s.drop_last(), f);
        assert forall|i: int| 0 <= i < flat(s, f).len() implies good(#[trigger] flat(s, f)[i]) by {
            if i < before.len() {
                assert(good(before[i]));
            } else {
                assert(good(f(s.last())[i - before.len()]));
            }
        }
    }
}

proof fn cluster_labels_unique(cluster: Seq<char>)
    ensures
        unique_keys(cluster_labels(cluster)),
{
    put_reads_back(
        Seq::<(Seq<char>, Seq<char>)>::empty(),
        LABEL_CLUSTER_NAME@,
        cluster,
        cluster,
    );
}

proof fn group_labels_unique(cluster: Seq<char>, group: Seq<char>)
    ensures
        unique_keys(group_labels(cluster, group)),
{
    cluster_labels_unique(cluster);
    put_reads_back(
        cluster_labels(cluster),
        LABEL_GROUP@,
        group,
        group,
    );
}

proof fn topic_labels_unique(cluster: Seq<char>, group: Seq<char>, topic: Seq<char>)
    ensures
        unique_keys(topic_labels(cluster, group, topic)),
{
    group_labels_unique(cluster, group);
    put_reads_back(
        group_labels(cluster, group),
        LABEL_TOPIC@,
        topic,
        topic,
    );
}

proof fn offset_labels_unique(m: PartitionOffsetView)
    ensures
        unique_keys(offset_labels(m)),
{
    let base = cluster_labels(m.cluster_name);
    cluster_labels_unique(m.cluster_name);
    let topic = LABEL_TOPIC@;
    put_reads_back(base, topic, m.topic, topic);
    put_reads_back(
        put(base, topic, m.topic),
        LABEL_PARTITION@,
        decimal(m.partition as int),
        topic,
    );
}

proof fn partition_labels_unique(m: PartitionLagView)
    ensures
        unique_keys(partition_labels(m)),
{
    let l0 = topic_labels(m.cluster_name, m.group_id, m.topic);
    topic_labels_unique(m.cluster_name, m.group_id, m.topic);
    let partition = decimal(m.partition as int);
    let l1 = put(l0, LABEL_PARTITION@, partition);
    put_reads_back(l0, LABEL_PARTITION@, partition, partition);
    let l2 = put(l1, LABEL_MEMBER_HOST@, m.member_host);
    put_reads_back(
        l1,
        LABEL_MEMBER_HOST@,
        m.member_host,
        partition,
    );
    let l3 = put(l2, LABEL_CONSUMER_ID@, m.consumer_id);
    put_reads_back(
        l2,
        LABEL_CONSUMER_ID@,
        m.consumer_id,
        partition,
    );
    put_reads_back(l3, LABEL_CLIENT_ID@, m.client_id, partition);
}

/// Each metric has one header: the names under which the points are shown are all different,
/// and stand in dictionary order.
pub proof fn one_header_per_metric(points: Seq<PointView>)
    ensures
        sorted_names(names_of(points)).no_duplicates(),
        forall|i: int, j: int|
            0 <= i < j < sorted_names(names_of(points)).len() ==> text_before(
                #[trigger] sorted_names(names_of(points))[i],
                #[trigger] sorted_names(names_of(points))[j],
            ),
{
    let names = names_of(points);
    let sorted = sorted_names(names);
    names_are_distinct(points);
    sorted_names_is_sorted(names);
    names.lemma_multiset_has_no_duplicates();
    assert(sorted.no_duplicates()) by {
        sorted.lemma_multiset_has_no_duplicates_conv();
    }
    assert forall|i: int, j: int| 0 <= i < j < sorted.len() implies text_before(
        #[trigger] sorted[i],
        #[trigger] sorted[j],
    ) by {
        assert(!text_before(sorted[j], sorted[i]));
        before_total(sorted[i], sorted[j]);
    }
}

proof fn names_are_distinct(points: Seq<PointView>)
    ensures
        names_of(points).no_duplicates(),
    decreases points.len(),
{
    if points.len() > 0 {
        names_are_distinct(points.drop_last());
    }
}

/// Whether two label maps give every name the same value, or none.
pub open spec fn agree(a: LabelsView, b: LabelsView) -> bool {
    forall|name: Seq<char>| #[trigger] lookup(a, name) == lookup(b, name)
}

/// Labels that agree are written alike, in whatever order they came.
pub proof fn label_order_does_not_show(a: LabelsView, b: LabelsView)
    requires
        unique_keys(a),
        unique_keys(b),
        agree(a, b),
    ensures
        labels_text(a) == labels_text(b),
{
    let first = label_names(a);
    let second = label_names(b);
    assert forall|name: Seq<char>| first.to_multiset().count(name) == second.to_multiset().count(
        name,
    ) by {
        label_name_counts(a, name);
        label_name_counts(b, name);
        assert(lookup(a, name) == lookup(b, name));
    }
    assert(first.to_multiset() =~= second.to_multiset());
    first.to_multiset_ensures();
    second.to_multiset_ensures();
    same_names_sort_alike(first, second);
    same_label_list(a, b, sorted_names(first));
}

proof fn label_name_counts(labels: LabelsView, name: Seq<char>)
    requires
        unique_keys(labels),
    ensures
        label_names(labels).to_multiset().count(name) == (if lookup(labels, name) is Some {
            1nat
        } else {
            0nat
        }),
{
    let names = label_names(labels);
    assert(names.no_duplicates()) by {
        assert forall|i: int, j: int| 0 <= i < names.len() && 0 <= j < names.len() && i != j implies
            names[i] != names[j] by {
            if i < j {
                assert(labels[i].0 != labels[j].0);
            } else {
                assert(labels[j].0 != labels[i].0);
            }
        }
    }
    names.lemma_multiset_has_no_duplicates();
    names.to_multiset_ensures();
    lookup_is_some(labels, name);
    if has_key(labels, name) {
        let i = choose|i: int| 0 <= i < labels.len() && #[trigger] labels[i].0 == name;
        assert(names[i] == name);
        assert(names.contains(name));
    } else if names.contains(name) {
        let i = choose|i: int| 0 <= i < names.len() && names[i] == name;
        assert(labels[i].0 == name);
    }
}

proof fn same_names_sort_alike(a: Seq<Seq<char>>, b: Seq<Seq<char>>)
    requires
        a.to_multiset() == b.to_multiset(),
    ensures
        sorted_names(a) == sorted_names(b),
{
    let leq = |x: Seq<char>, y: Seq<char>| !text_before(y, x);
    sorted_names_is_sorted(a);
    sorted_names_is_sorted(b);
    assert forall|x: Seq<char>| #[trigger] leq(x, x) by {
        before_irreflexive(x);
    }
    assert forall|x: Seq<char>, y: Seq<char>| #[trigger] leq(x, y) && #[trigger] leq(y, x) implies x
        == y by {
        before_total(x, y);
    }
    assert forall|x: Seq<char>, y: Seq<char>, z: Seq<char>| #[trigger]
        leq(x, y) && #[trigger] leq(y, z) implies leq(x, z) by {
        if text_before(z, x) {
            before_total(x, y);
            if text_before(x, y) {
                before_transitive(z, x, y);
            }
        }
    }
    assert forall|x: Seq<char>, y: Seq<char>| #[trigger] leq(x, y) || #[trigger] leq(y, x) by {
        if text_before(x, y) && text_before(y, x) {
            before_transitive(x, y, x);
            before_irreflexive(x);
        }
    }
    lemma_sorted_unique(sorted_names(a), sorted_names(b), leq);
}

proof fn same_label_list(a: LabelsView, b: LabelsView, names: Seq<Seq<char>>)
    requires
        agree(a, b),
    ensures
        label_list(a, names) == label_list(b, names),
    decreases names.len(),
{
    if names.len() > 0 {
        same_label_list(a, b, names.drop_last());
        assert(lookup(a, names.last()) == lookup(b, names.last()));
    }
}

/// What an escaped text stands for: a backslash and the next character stand for one.
pub open spec fn unescaped(text: Seq<char>) -> Seq<char>
    decreases text.len(),
{
    if text.len() == 0 {
        Seq::empty()
    } else if text[0] == '\\' && text.len() > 1 {
        let c = if text[1] == 'n' {
            '\n'
        } else {
            text[1]
        };
        seq![c] + unescaped(text.skip(2))
    } else {
        seq![text[0]] + unescaped(text.skip(1))
    }
}

/// Escaping loses nothing and leaves no line break behind: an escaped value fills one line, and
/// can be read back.
pub proof fn escaping_reads_back(text: Seq<char>)
    ensures
        unescaped(escaped(text)) == text,
        !escaped(text).contains('\n'),
    decreases text.len(),
{
    let f = |c: char| escaped_char(c);
    if text.len() == 0 {
        assert(escaped(text) =~= Seq::<char>::empty());
        assert(unescaped(escaped(text)) =~= text);
    } else {
        let rest = text.drop_first();
        escaping_reads_back(rest);
        flat_front(text, f);
        let whole = escaped(text);
        let head = escaped_char(text[0]);
        assert(whole == head + escaped(rest));
        assert(whole.skip(head.len() as int) =~= escaped(rest));
        assert(unescaped(whole) =~= seq![text[0]] + unescaped(escaped(rest)));
        assert(text =~= seq![text[0]] + rest);
        if whole.contains('\n') {
            let k = choose|k: int| 0 <= k < whole.len() && whole[k] == '\n';
            if k >= head.len() {
                assert(escaped(rest)[k - head.len()] == '\n');
            }
        }
    }
}

proof fn flat_front<A, B>(s: Seq<A>, f: spec_fn(A) -> Seq<B>)
    requires
        s.len() > 0,
    ensures
        flat(s, f) == f(s[0]) + flat(s.drop_first(), f),
    decreases s.len(),
{
    if s.len() == 1 {
        assert(s.drop_last() =~= Seq::<A>::empty());
        assert(s.drop_first() =~= Seq::<A>::empty());
        assert(flat(s, f) =~= f(s[0]) + flat(s.drop_first(), f));
    } else {
        flat_front(s.drop_last(), f);
        assert(s.drop_last().drop_first() =~= s.drop_first().drop_last());
        assert(flat(s, f) =~= f(s[0]) + flat(s.drop_first(), f));
    }
}

} // verus!

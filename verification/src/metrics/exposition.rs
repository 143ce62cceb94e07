//! The Prometheus text format.
//!
//! The text comes as a list of pieces: what is text already, and the readings that are still to
//! be written as numbers.

use crate::keymap::{lookup, with_name, NameSet};
use crate::metrics::types::{
    type_word, Labels, LabelsView, MetricPoint, PointView, Reading,
};
use crate::text::{escape_label_value, escaped, flat, flat_step, same_text, sort_names, sorted_names};
use crate::views::{views, views_push};
use vstd::prelude::*;

verus! {

broadcast use views_push;

/// A piece of an exposition.
#[derive(Debug)]
pub enum Piece {
    /// Text, as it stands.
    Text(String),
    /// A number in its shortest form.
    Value(Reading),
    /// Elapsed milliseconds as seconds with six decimals.
    Seconds(u64),
}

/// What a `Piece` holds.
pub enum PieceView {
    Text(Seq<char>),
    Value(Reading),
    Seconds(u64),
}

impl View for Piece {
    type V = PieceView;

    open spec fn view(&self) -> PieceView {
        match self {
            Piece::Text(text) => PieceView::Text(text@),
            Piece::Value(reading) => PieceView::Value(*reading),
            Piece::Seconds(millis) => PieceView::Seconds(*millis),
        }
    }
}

/// A label's value; nothing where it has none.
pub open spec fn label_value(labels: LabelsView, name: Seq<char>) -> Seq<char> {
    match lookup(labels, name) {
        Some(value) => value,
        None => Seq::empty(),
    }
}

/// `name="value"` for each name, with commas between.
pub open spec fn label_list(labels: LabelsView, names: Seq<Seq<char>>) -> Seq<char>
    decreases names.len(),
{
    if names.len() == 0 {
        Seq::empty()
    } else {
        let name = names.last();
        let before = if names.len() == 1 {
            Seq::empty()
        } else {
            label_list(labels, names.drop_last()) + ","@
        };
        before + name + "=\""@ + escaped(label_value(labels, name)) + "\""@
    }
}

/// The names of labels.
pub open spec fn label_names(labels: LabelsView) -> Seq<Seq<char>> {
    Seq::new(labels.len(), |i: int| labels[i].0)
}

/// Labels in braces, ordered by name; nothing where there are none.
pub open spec fn labels_text(labels: LabelsView) -> Seq<char> {
    if labels.len() == 0 {
        Seq::empty()
    } else {
        "{"@ + label_list(labels, sorted_names(label_names(labels))) + "}"@
    }
}

/// Writes labels in braces, ordered by name.
pub fn render_labels(labels: &Labels) -> (text: String)
    ensures
        text@ == labels_text(labels@),
{
    if labels.is_empty() {
        return String::new();
    }
    let mut names: Vec<String> = Vec::new();
    let mut i: usize = 0;
    while i < labels.len()
        invariant
            i <= labels@.len(),
            views(names@) =~= label_names(labels@).take(i as int),
        decreases labels@.len() - i,
    {
        names.push(labels.key_at(i).clone());
        i += 1;
    }
    assert(label_names(labels@).take(i as int) =~= label_names(labels@));
    let sorted = sort_names(names);
    let ghost order = views(sorted@);
    let mut list = String::new();
    let mut i: usize = 0;
    assert(order.take(0) =~= Seq::<Seq<char>>::empty());
    while i < sorted.len()
        invariant
            order == views(sorted@),
            i <= sorted.len(),
            list@ == label_list(labels@, order.take(i as int)),
        decreases sorted.len() - i,
    {
        assert(order.take(i + 1).drop_last() =~= order.take(i as int));
        if i > 0 {
            list.append(",");
        }
        list.append(sorted[i].as_str());
        list.append("=\"");
        match labels.get(&sorted[i]) {
            Some(value) => {
                list.append(escape_label_value(value.as_str()).as_str());
            },
            None => {
                assert(escaped(Seq::<char>::empty()) =~= Seq::<char>::empty());
            },
        }
        list.append("\"");
        assert(list@ =~= label_list(labels@, order.take(i + 1)));
        i += 1;
    }
    assert(order.take(i as int) =~= order);
    let mut text = "{".to_owned();
    text.append(list.as_str());
    text.append("}");
    text
}

/// The two comment lines above a metric.
pub open spec fn header_text(name: Seq<char>, help: Seq<char>, kind: Seq<char>) -> Seq<char> {
    "# HELP "@ + name + " "@ + help + "\n"@ + "# TYPE "@ + name + " "@ + kind + "\n"@
}

/// The two comment lines above a metric.
pub fn header(name: &str, help: &str, kind: &str) -> (text: String)
    ensures
        text@ == header_text(name@, help@, kind@),
{
    let mut text = "# HELP ".to_owned();
    text.append(name);
    text.append(" ");
    text.append(help);
    text.append("\n");
    text.append("# TYPE ");
    text.append(name);
    text.append(" ");
    text.append(kind);
    text.append("\n");
    text
}

/// The line of a point.
pub open spec fn point_line(p: PointView) -> Seq<PieceView> {
    seq![
        PieceView::Text(p.name + labels_text(p.labels) + " "@),
        PieceView::Value(p.value.spec_reading()),
        PieceView::Text("\n"@),
    ]
}

/// The names of points, each once, in the order in which they first occur.
pub open spec fn names_of(points: Seq<PointView>) -> Seq<Seq<char>>
    decreases points.len(),
{
    if points.len() == 0 {
        Seq::empty()
    } else {
        with_name(names_of(points.drop_last()), points.last().name)
    }
}

/// The first point with a name.
pub open spec fn first_named(points: Seq<PointView>, name: Seq<char>) -> Option<PointView>
    decreases points.len(),
{
    if points.len() == 0 {
        None
    } else {
        match first_named(points.drop_last(), name) {
            Some(p) => Some(p),
            None => if points.last().name == name {
                Some(points.last())
            } else {
                None
            },
        }
    }
}

/// The lines of the points with a name.
pub open spec fn named_lines(points: Seq<PointView>, name: Seq<char>) -> Seq<PieceView> {
    flat(
        points,
        |p: PointView|
            if p.name == name {
                point_line(p)
            } else {
                Seq::empty()
            },
    )
}

/// A metric: its two comment lines, taken from its first point, and a line per point.
pub open spec fn family(points: Seq<PointView>, name: Seq<char>) -> Seq<PieceView> {
    match first_named(points, name) {
        Some(p) => seq![
            PieceView::Text(header_text(name, p.help, type_word(p.metric_type))),
        ] + named_lines(points, name),
        None => Seq::empty(),
    }
}

/// All metrics of some points, ordered by name.
pub open spec fn families(points: Seq<PointView>) -> Seq<PieceView> {
    flat(sorted_names(names_of(points)), |name: Seq<char>| family(points, name))
}

/// Adds the line of a point.
fn push_point_line(pieces: &mut Vec<Piece>, p: &MetricPoint)
    ensures
        views(final(pieces)@) == views(old(pieces)@) + point_line(p@),
{
    let ghost before = views(pieces@);
    let mut start = p.name.clone();
    start.append(render_labels(&p.labels).as_str());
    start.append(" ");
    pieces.push(Piece::Text(start));
    pieces.push(Piece::Value(p.value.reading()));
    pieces.push(Piece::Text("\n".to_owned()));
    assert(views(pieces@) =~= before + point_line(p@));
}

/// Adds a metric.
fn push_family(pieces: &mut Vec<Piece>, points: &Vec<&MetricPoint>, name: &str)
    ensures
        views(final(pieces)@) == views(old(pieces)@) + family(views(points@), name@),
{
    let ghost before = views(pieces@);
    let ghost all = views(points@);
    let mut first: usize = 0;
    assert(all.take(0) =~= Seq::<PointView>::empty());
    while first < points.len() && !same_text(points[first].name.as_str(), name)
        invariant
            all == views(points@),
            first <= points.len(),
            first_named(all.take(first as int), name@) is None,
        ensures
            first < points.len() ==> points@[first as int].name@ == name@,
        decreases points.len() - first,
    {
        assert(all.take(first + 1).drop_last() =~= all.take(first as int));
        first += 1;
    }
    if first == points.len() {
        assert(all.take(first as int) =~= all);
        assert(views(pieces@) =~= before + family(all, name@));
        return ;
    }
    proof {
        assert(all.take(first + 1).drop_last() =~= all.take(first as int));
        assert(first_named(all.take(first + 1), name@) == Some(all[first as int]));
        first_named_stays(all, name@, first + 1);
    }
    let text = header(name, points[first].help, points[first].metric_type.as_str());
    pieces.push(Piece::Text(text));
    let ghost headed = views(pieces@);
    let ghost f = |p: PointView|
        if p.name == name@ {
            point_line(p)
        } else {
            Seq::empty()
        };
    let mut i: usize = 0;
    while i < points.len()
        invariant
            all == views(points@),
            i <= points.len(),
            f == (|p: PointView|
                if p.name == name@ {
                    point_line(p)
                } else {
                    Seq::empty()
                }),
            views(pieces@) =~= headed + flat(all.take(i as int), f),
        decreases points.len() - i,
    {
        proof {
            flat_step(all, f, i as int);
        }
        if same_text(points[i].name.as_str(), name) {
            push_point_line(pieces, points[i]);
        }
        i += 1;
    }
    assert(all.take(i as int) =~= all);
    assert(views(pieces@) =~= before + family(all, name@));
}

/// The first point with a name does not depend on what follows it.
proof fn first_named_stays(points: Seq<PointView>, name: Seq<char>, i: int)
    requires
        0 <= i <= points.len(),
        first_named(points.take(i), name) is Some,
    ensures
        first_named(points, name) == first_named(points.take(i), name),
    decreases points.len(),
{
    if i == points.len() {
        assert(points.take(i) =~= points);
    } else {
        let shorter = points.drop_last();
        assert(shorter.take(i) =~= points.take(i));
        first_named_stays(shorter, name, i);
    }
}

/// Adds all metrics of some points, ordered by name.
pub fn push_families(pieces: &mut Vec<Piece>, points: &Vec<&MetricPoint>)
    ensures
        views(final(pieces)@) == views(old(pieces)@) + families(views(points@)),
{
    let ghost before = views(pieces@);
    let ghost all = views(points@);
    let mut distinct = NameSet::new();
    let mut i: usize = 0;
    assert(all.take(0) =~= Seq::<PointView>::empty());
    while i < points.len()
        invariant
            all == views(points@),
            i <= points.len(),
            distinct@ == names_of(all.take(i as int)),
        decreases points.len() - i,
    {
        assert(all.take(i + 1).drop_last() =~= all.take(i as int));
        distinct.insert(points[i].name.as_str());
        i += 1;
    }
    assert(all.take(i as int) =~= all);
    let names = sort_names(distinct.to_vec());
    let ghost order = views(names@);
    let ghost f = |name: Seq<char>| family(all, name);
    let mut i: usize = 0;
    assert(order.take(0) =~= Seq::<Seq<char>>::empty());
    while i < names.len()
        invariant
            all == views(points@),
            order == views(names@),
            f == (|name: Seq<char>| family(all, name)),
            i <= names.len(),
            views(pieces@) =~= before + flat(order.take(i as int), f),
        decreases names.len() - i,
    {
        proof {
            flat_step(order, f, i as int);
        }
        push_family(pieces, points, names[i].as_str());
        i += 1;
    }
    assert(order.take(i as int) =~= order);
}

} // verus!

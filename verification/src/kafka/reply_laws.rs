//! What holds of every answer of the admin API.

use crate::kafka::admin::{request_error, DescriptionView, FailureView};
use crate::kafka::replies::{
    described, described_failures, describes, descriptions_of, group_error, is_about, is_failure,
    members_of, offset_failures, offsets_answered, offsets_by_group, omitted, text_of,
    with_offsets, RawGroup, RawGroupOffsets, DESCRIBE_GROUPS, LIST_GROUP_OFFSETS,
};
use crate::keymap::{has_key, lookup_is_some, put_reads_back, unique_keys};
use crate::text::{flat, flat_holds, flat_origin};
use vstd::prelude::*;

verus! {

/// Whether a group is among the described ones.
pub open spec fn is_described(descriptions: Seq<DescriptionView>, group: Seq<char>) -> bool {
    exists|i: int| 0 <= i < descriptions.len() && (#[trigger] descriptions[i]).group_id == group
}

/// Whether a group is among the failed ones.
pub open spec fn has_failed(failures: Seq<FailureView>, group: Seq<char>) -> bool {
    exists|i: int| 0 <= i < failures.len() && (#[trigger] failures[i]).group_id == group
}

proof fn failed_by(failures: Seq<FailureView>, failure: FailureView)
    requires
        failures.contains(failure),
    ensures
        has_failed(failures, failure.group_id),
{
    let i = choose|i: int| 0 <= i < failures.len() && failures[i] == failure;
    assert(failures[i].group_id == failure.group_id);
}

/// An omitted group has failed.
proof fn omitted_fails(
    requested: Seq<Seq<char>>,
    named: spec_fn(Seq<char>) -> bool,
    operation: Seq<char>,
    r: int,
)
    requires
        0 <= r < requested.len(),
        !named(requested[r]),
    ensures
        has_failed(omitted(requested, named, operation), requested[r]),
{
    let f = |group: Seq<char>|
        if named(group) {
            Seq::empty()
        } else {
            seq![
                FailureView {
                    group_id: group,
                    error: request_error(
                        operation,
                        None,
                        "response omitted the requested group"@,
                    ),
                },
            ]
        };
    assert(omitted(requested, named, operation) == flat(requested, f));
    flat_holds(requested, f, r, 0);
    failed_by(flat(requested, f), f(requested[r])[0]);
}

proof fn fails_in_either(a: Seq<FailureView>, b: Seq<FailureView>, group: Seq<char>)
    requires
        has_failed(a, group) || has_failed(b, group),
    ensures
        has_failed(a + b, group),
{
    if has_failed(a, group) {
        let i = choose|i: int| 0 <= i < a.len() && (#[trigger] a[i]).group_id == group;
        assert((a + b)[i].group_id == group);
    } else {
        let i = choose|i: int| 0 <= i < b.len() && (#[trigger] b[i]).group_id == group;
        assert((a + b)[a.len() + i].group_id == group);
    }
}

/// No requested group disappears: each is described or has failed, whatever the answer names.
pub proof fn every_requested_group_is_described_or_fails(
    requested: Seq<Seq<char>>,
    rows: Seq<RawGroup>,
    parse_assignments: bool,
    r: int,
)
    requires
        0 <= r < requested.len(),
    ensures
        ({
            let response = described(requested, rows, parse_assignments);
            is_described(response.descriptions, requested[r]) || has_failed(
                response.failures,
                requested[r],
            )
        }),
{
    let group = requested[r];
    let named = |group: Seq<char>| describes(rows, group);
    let first = described_failures(rows);
    let second = omitted(requested, named, DESCRIBE_GROUPS@);
    if describes(rows, group) {
        let i = choose|i: int| 0 <= i < rows.len() && text_of((#[trigger] rows[i]).group_id) == group;
        if is_failure(rows[i].error) {
            let g = |row: RawGroup|
                if is_failure(row.error) {
                    seq![
                        FailureView {
                            group_id: text_of(row.group_id),
                            error: group_error(DESCRIBE_GROUPS@, row.error->0),
                        },
                    ]
                } else {
                    Seq::empty()
                };
            assert(first == flat(rows, g));
            flat_holds(rows, g, i, 0);
            failed_by(first, g(rows[i])[0]);
            fails_in_either(first, second, group);
        } else {
            let f = |row: RawGroup|
                if is_failure(row.error) {
                    Seq::empty()
                } else {
                    seq![
                        DescriptionView {
                            group_id: text_of(row.group_id),
                            state: text_of(row.state),
                            members: members_of(row.members@, parse_assignments),
                        },
                    ]
                };
            let all = descriptions_of(rows, parse_assignments);
            assert(all == flat(rows, f));
            flat_holds(rows, f, i, 0);
            let k = choose|k: int| 0 <= k < all.len() && all[k] == f(rows[i])[0];
            assert(all[k].group_id == group);
        }
    } else {
        omitted_fails(requested, named, DESCRIBE_GROUPS@, r);
        fails_in_either(first, second, group);
    }
}

/// No requested group disappears: each has offsets, be they none, or has failed.
pub proof fn every_requested_group_has_offsets_or_fails(
    requested: Seq<Seq<char>>,
    rows: Seq<RawGroupOffsets>,
    r: int,
)
    requires
        0 <= r < requested.len(),
    ensures
        ({
            let response = offsets_answered(requested, rows);
            has_key(response.offsets, requested[r]) || has_failed(response.failures, requested[r])
        }),
{
    let group = requested[r];
    let named = |group: Seq<char>| is_about(rows, group);
    let first = offset_failures(rows);
    let second = omitted(requested, named, LIST_GROUP_OFFSETS@);
    if is_about(rows, group) {
        let i = choose|i: int| 0 <= i < rows.len() && text_of((#[trigger] rows[i]).group_id) == group;
        if is_failure(rows[i].error) {
            let g = |row: RawGroupOffsets|
                if is_failure(row.error) {
                    seq![
                        FailureView {
                            group_id: text_of(row.group_id),
                            error: group_error(LIST_GROUP_OFFSETS@, row.error->0),
                        },
                    ]
                } else {
                    Seq::empty()
                };
            assert(first == flat(rows, g));
            flat_holds(rows, g, i, 0);
            failed_by(first, g(rows[i])[0]);
            fails_in_either(first, second, group);
        } else {
            answered_group_is_kept(rows, i);
        }
    } else {
        omitted_fails(requested, named, LIST_GROUP_OFFSETS@, r);
        fails_in_either(first, second, group);
    }
}

proof fn answered_group_is_kept(rows: Seq<RawGroupOffsets>, i: int)
    requires
        0 <= i < rows.len(),
        !is_failure(rows[i].error),
    ensures
        unique_keys(offsets_by_group(rows)),
        has_key(offsets_by_group(rows), text_of(rows[i].group_id)),
    decreases rows.len(),
{
    offsets_keys_unique(rows);
    let shorter = rows.drop_last();
    let before = offsets_by_group(shorter);
    let group = text_of(rows[i].group_id);
    offsets_keys_unique(shorter);
    if i < shorter.len() {
        assert(shorter[i] == rows[i]);
        answered_group_is_kept(shorter, i);
    }
    if !is_failure(rows.last().error) {
        put_reads_back(
            before,
            text_of(rows.last().group_id),
            with_offsets(Seq::empty(), rows.last().partitions@),
            group,
        );
        lookup_is_some(before, group);
        lookup_is_some(offsets_by_group(rows), group);
    }
}

proof fn offsets_keys_unique(rows: Seq<RawGroupOffsets>)
    ensures
        unique_keys(offsets_by_group(rows)),
    decreases rows.len(),
{
    if rows.len() > 0 {
        offsets_keys_unique(rows.drop_last());
        if !is_failure(rows.last().error) {
            let group = text_of(rows.last().group_id);
            put_reads_back(
                offsets_by_group(rows.drop_last()),
                group,
                with_offsets(Seq::empty(), rows.last().partitions@),
                group,
            );
        }
    }
}

/// A failure among the omitted groups is about a group that the answer does not name.
proof fn omitted_is_not_named(
    requested: Seq<Seq<char>>,
    named: spec_fn(Seq<char>) -> bool,
    operation: Seq<char>,
    group: Seq<char>,
)
    requires
        has_failed(omitted(requested, named, operation), group),
    ensures
        !named(group),
{
    let f = |group: Seq<char>|
        if named(group) {
            Seq::empty()
        } else {
            seq![
                FailureView {
                    group_id: group,
                    error: request_error(
                        operation,
                        None,
                        "response omitted the requested group"@,
                    ),
                },
            ]
        };
    let failures = omitted(requested, named, operation);
    assert(failures == flat(requested, f));
    let i = choose|i: int| 0 <= i < failures.len() && (#[trigger] failures[i]).group_id == group;
    let origin = flat_origin(requested, f, i);
    assert(failures[i] == f(requested[origin.0])[origin.1]);
}

/// A failure in a list that was put together is in one of its halves.
proof fn fails_in_one(a: Seq<FailureView>, b: Seq<FailureView>, group: Seq<char>)
    requires
        has_failed(a + b, group),
    ensures
        has_failed(a, group) || has_failed(b, group),
{
    let i = choose|i: int| 0 <= i < (a + b).len() && (#[trigger] (a + b)[i]).group_id == group;
    if i < a.len() {
        assert(a[i].group_id == group);
    } else {
        assert(b[i - a.len()].group_id == group);
    }
}

/// Whether no group is described by two rows.
pub open spec fn describes_once(rows: Seq<RawGroup>) -> bool {
    forall|i: int, j: int|
        0 <= i < j < rows.len() ==> text_of((#[trigger] rows[i]).group_id) != text_of(
            (#[trigger] rows[j]).group_id,
        )
}

/// Where the answer names each group at most once, no group is both described and failed.
pub proof fn no_group_is_described_and_fails(
    requested: Seq<Seq<char>>,
    rows: Seq<RawGroup>,
    parse_assignments: bool,
    group: Seq<char>,
)
    requires
        describes_once(rows),
    ensures
        ({
            let response = described(requested, rows, parse_assignments);
            !(is_described(response.descriptions, group) && has_failed(response.failures, group))
        }),
{
    let named = |group: Seq<char>| describes(rows, group);
    let all = descriptions_of(rows, parse_assignments);
    let first = described_failures(rows);
    let second = omitted(requested, named, DESCRIBE_GROUPS@);
    if is_described(all, group) && has_failed(first + second, group) {
        let f = |row: RawGroup|
            if is_failure(row.error) {
                Seq::empty()
            } else {
                seq![
                    DescriptionView {
                        group_id: text_of(row.group_id),
                        state: text_of(row.state),
                        members: members_of(row.members@, parse_assignments),
                    },
                ]
            };
        assert(all == flat(rows, f));
        let i = choose|i: int| 0 <= i < all.len() && (#[trigger] all[i]).group_id == group;
        let here = flat_origin(rows, f, i);
        assert(all[i] == f(rows[here.0])[here.1]);
        assert(text_of(rows[here.0].group_id) == group);
        fails_in_one(first, second, group);
        if has_failed(second, group) {
            omitted_is_not_named(requested, named, DESCRIBE_GROUPS@, group);
        } else {
            let g = |row: RawGroup|
                if is_failure(row.error) {
                    seq![
                        FailureView {
                            group_id: text_of(row.group_id),
                            error: group_error(DESCRIBE_GROUPS@, row.error->0),
                        },
                    ]
                } else {
                    Seq::empty()
                };
            assert(first == flat(rows, g));
            let k = choose|k: int| 0 <= k < first.len() && (#[trigger] first[k]).group_id == group;
            let there = flat_origin(rows, g, k);
            assert(first[k] == g(rows[there.0])[there.1]);
            assert(text_of(rows[there.0].group_id) == group);
            assert(here.0 != there.0);
        }
    }
}

/// Whether no two rows are about the same group.
pub open spec fn answers_once(rows: Seq<RawGroupOffsets>) -> bool {
    forall|i: int, j: int|
        0 <= i < j < rows.len() ==> text_of((#[trigger] rows[i]).group_id) != text_of(
            (#[trigger] rows[j]).group_id,
        )
}

/// Where the answer names each group at most once, no group both has offsets and has failed.
pub proof fn no_group_has_offsets_and_fails(
    requested: Seq<Seq<char>>,
    rows: Seq<RawGroupOffsets>,
    group: Seq<char>,
)
    requires
        answers_once(rows),
    ensures
        ({
            let response = offsets_answered(requested, rows);
            !(has_key(response.offsets, group) && has_failed(response.failures, group))
        }),
{
    let named = |group: Seq<char>| is_about(rows, group);
    let first = offset_failures(rows);
    let second = omitted(requested, named, LIST_GROUP_OFFSETS@);
    if has_key(offsets_by_group(rows), group) && has_failed(first + second, group) {
        let here = answering_row(rows, group);
        fails_in_one(first, second, group);
        if has_failed(second, group) {
            omitted_is_not_named(requested, named, LIST_GROUP_OFFSETS@, group);
        } else {
            let g = |row: RawGroupOffsets|
                if is_failure(row.error) {
                    seq![
                        FailureView {
                            group_id: text_of(row.group_id),
                            error: group_error(LIST_GROUP_OFFSETS@, row.error->0),
                        },
                    ]
                } else {
                    Seq::empty()
                };
            assert(first == flat(rows, g));
            let k = choose|k: int| 0 <= k < first.len() && (#[trigger] first[k]).group_id == group;
            let there = flat_origin(rows, g, k);
            assert(first[k] == g(rows[there.0])[there.1]);
            assert(text_of(rows[there.0].group_id) == group);
            assert(here != there.0);
        }
    }
}

/// A group with offsets has a row that did not fail.
proof fn answering_row(rows: Seq<RawGroupOffsets>, group: Seq<char>) -> (i: int)
    requires
        has_key(offsets_by_group(rows), group),
    ensures
        0 <= i < rows.len(),
        text_of(rows[i].group_id) == group,
        !is_failure(rows[i].error),
    decreases rows.len(),
{
    let shorter = rows.drop_last();
    let before = offsets_by_group(shorter);
    let last = rows.last();
    if !is_failure(last.error) && text_of(last.group_id) == group {
        rows.len() - 1
    } else {
        if !is_failure(last.error) {
            offsets_keys_unique(shorter);
            put_reads_back(
                before,
                text_of(last.group_id),
                with_offsets(Seq::empty(), last.partitions@),
                group,
            );
            lookup_is_some(before, group);
            lookup_is_some(offsets_by_group(rows), group);
        }
        let i = answering_row(shorter, group);
        assert(shorter[i] == rows[i]);
        i
    }
}

} // verus!

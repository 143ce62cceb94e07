//! What is taken from every answer of the admin API: what each row says, for the group and the
//! partition that it is about.

use crate::collector::caches::push_contains;
use crate::collector::offset_collector::Tp;
use crate::kafka::admin::{
    request_error, transient_code, DescribeView, DescriptionView, FailureView,
};
use crate::kafka::configs::{compacted_topics, is_compacted, says_compacted, ResourceConfig};
use crate::kafka::replies::{
    answer, described, described_failures, describes, descriptions_of, group_error, is_about,
    is_failure, listed_offsets, member_of, members_of, offset_failures, offsets_answered,
    offsets_by_group, offsets_of_all, omitted, text_of, with_offsets, AdminReply, OffsetMap,
    RawGroup, RawGroupOffsets, RawListedOffset, RawMember, RawOffset, RawPartition, SetupProblem,
    DESCRIBE_GROUPS, LIST_GROUP_OFFSETS,
};
use crate::kafka::reply_laws::answers_once;
use crate::kafka::requests::{
    chunk_view, merged_offsets, plain_answer, round_descriptions, round_failures, round_pending,
    round_responses, ChunkResult, PlainProblem,
};
use crate::keymap::{
    has_key, lookup, lookup_is_some, put_all, put_reads_back, unique_keys, OrderMap,
};
use crate::text::{flat, flat_of_some, occurs_in};
use crate::views::views;
use vstd::prelude::*;

verus! {

/// A text that may be missing; a missing one is empty.
pub open spec fn words(text: Option<String>) -> Seq<char> {
    match text {
        Some(t) => t@,
        None => Seq::empty(),
    }
}

/// Whether a row says that its group failed.
pub open spec fn refused(row: RawGroup) -> bool {
    row.error is Some && row.error->0.code != 0
}

/// Whether a row says that its group's offsets could not be had.
pub open spec fn offsets_refused(row: RawGroupOffsets) -> bool {
    row.error is Some && row.error->0.code != 0
}

/// The codes of errors that may go away.
pub proof fn transient_codes(code: i32)
    ensures
        transient_code(code) <==> seq![
            -195i32,
            -187i32,
            -185i32,
            -180i32,
            -166i32,
            7i32,
            8i32,
            13i32,
            14i32,
            15i32,
            16i32,
        ].contains(code),
{
    let codes = seq![
        -195i32,
        -187i32,
        -185i32,
        -180i32,
        -166i32,
        7i32,
        8i32,
        13i32,
        14i32,
        15i32,
        16i32,
    ];
    if transient_code(code) {
        assert(codes[0] == -195i32);
        assert(codes[1] == -187i32);
        assert(codes[2] == -185i32);
        assert(codes[3] == -180i32);
        assert(codes[4] == -166i32);
        assert(codes[5] == 7i32);
        assert(codes[6] == 8i32);
        assert(codes[7] == 13i32);
        assert(codes[8] == 14i32);
        assert(codes[9] == 15i32);
        assert(codes[10] == 16i32);
    }
    if codes.contains(code) {
        let k = choose|k: int| 0 <= k < codes.len() && codes[k] == code;
        assert(0 <= k < 11);
    }
}

/// An error says which request failed, with which code and in which words. Only a code can make
/// it one that may go away.
pub proof fn errors_say_what_failed(
    operation: Seq<char>,
    code: Option<i32>,
    message: Seq<char>,
)
    ensures
        ({
            let error = request_error(operation, code, message);
            &&& error.operation == operation
            &&& error.code == code
            &&& error.message == message
            &&& error.retriable <==> code is Some && transient_code(code->0)
        }),
{
}

/// An answer has rows exactly where it came, is of the expected type, reports no error and holds
/// a result; the rows are then those of the result. A request that timed out may be tried again.
pub proof fn only_good_answers_have_rows<R>(
    operation: Seq<char>,
    expected_type: i32,
    outcome: Result<Option<AdminReply<R>>, SetupProblem>,
)
    ensures
        answer(operation, expected_type, outcome) is Ok <==> (outcome matches Ok(Some(reply))
            && reply.event_type == expected_type && reply.error_code == 0 && reply.rows is Some),
        answer(operation, expected_type, outcome) matches Ok(rows) ==> (outcome matches Ok(
            Some(reply),
        ) && reply.rows is Some && rows == (reply.rows->0)@),
        answer(operation, expected_type, outcome) matches Err(error) ==> error.operation
            == operation,
        outcome matches Ok(None) ==> (answer(operation, expected_type, outcome) matches Err(error)
            && error.retriable && error.code == Some(-185i32)),
        outcome matches Ok(Some(reply)) ==> (reply.event_type == expected_type && reply.error_code
            != 0 ==> (answer(operation, expected_type, outcome) matches Err(error) && error.code
            == Some(reply.error_code) && error.retriable == transient_code(reply.error_code))),
{
}

/// The same of requests whose failures are told in words only.
pub proof fn only_good_plain_answers_have_rows<R>(
    name: Seq<char>,
    mark: Seq<char>,
    expected_type: i32,
    outcome: Result<Option<AdminReply<R>>, PlainProblem>,
)
    ensures
        plain_answer(name, mark, expected_type, outcome) is Ok <==> (outcome matches Ok(
            Some(reply),
        ) && reply.event_type == expected_type && reply.error_code == 0 && reply.rows is Some),
        plain_answer(name, mark, expected_type, outcome) matches Ok(rows) ==> (outcome matches Ok(
            Some(reply),
        ) && reply.rows is Some && rows == (reply.rows->0)@),
{
}

/// Every group that is not refused is described once, in order, with its own name and state; the
/// members that are there are listed with their own names, clients, hosts and assignments.
pub proof fn groups_are_described_by_their_rows(
    requested: Seq<Seq<char>>,
    rows: Seq<RawGroup>,
    parse_assignments: bool,
    k: int,
)
    requires
        0 <= k < rows.filter(|row: RawGroup| !refused(row)).len(),
    ensures
        ({
            let shown = described(requested, rows, parse_assignments).descriptions;
            let good = rows.filter(|row: RawGroup| !refused(row));
            let row = good[k];
            let there = row.members@.filter(|m: Option<RawMember>| m is Some);
            &&& shown.len() == good.len()
            &&& shown[k].group_id == words(row.group_id)
            &&& shown[k].state == words(row.state)
            &&& shown[k].members.len() == there.len()
            &&& forall|j: int|
                0 <= j < there.len() ==> (#[trigger] shown[k].members[j]).member_id == words(
                    there[j]->0.member_id,
                ) && shown[k].members[j].client_id == words(there[j]->0.client_id)
                    && shown[k].members[j].client_host == words(there[j]->0.client_host)
                    && shown[k].members[j].assignments == member_of(
                    there[j]->0,
                    parse_assignments,
                ).assignments
        }),
{
    rows_are_described(rows, parse_assignments);
    let good = rows.filter(|row: RawGroup| !refused(row));
    let row = good[k];
    members_are_listed(row.members@, parse_assignments);
}

proof fn rows_are_described(rows: Seq<RawGroup>, parse_assignments: bool)
    ensures
        descriptions_of(rows, parse_assignments) == rows.filter(
            |row: RawGroup| !refused(row),
        ).map_values(
            |row: RawGroup|
                DescriptionView {
                    group_id: text_of(row.group_id),
                    state: text_of(row.state),
                    members: members_of(row.members@, parse_assignments),
                },
        ),
{
    flat_of_some(
        rows,
        |row: RawGroup|
            if is_failure(row.error) {
                Seq::empty()
            } else {
                seq![
                    DescriptionView {
                        group_id: text_of(row.group_id),
                        state: text_of(row.state),
                        members: members_of(row.members@, parse_assignments),
                    },
                ]
            },
        |row: RawGroup| !refused(row),
        |row: RawGroup|
            DescriptionView {
                group_id: text_of(row.group_id),
                state: text_of(row.state),
                members: members_of(row.members@, parse_assignments),
            },
    );
}

proof fn members_are_listed(members: Seq<Option<RawMember>>, parse_assignments: bool)
    ensures
        members_of(members, parse_assignments) == members.filter(
            |m: Option<RawMember>| m is Some,
        ).map_values(|m: Option<RawMember>| member_of(m->0, parse_assignments)),
{
    flat_of_some(
        members,
        |m: Option<RawMember>|
            match m {
                Some(m) => seq![member_of(m, parse_assignments)],
                None => Seq::empty(),
            },
        |m: Option<RawMember>| m is Some,
        |m: Option<RawMember>| member_of(m->0, parse_assignments),
    );
}

/// Where assignments are wanted a member is listed with the partitions that are assigned to it,
/// in order; without a topic a partition does not count. Where they are not wanted there are
/// none.
pub proof fn members_have_their_assignments(m: RawMember, parse_assignments: bool, k: int)
    ensures
        !parse_assignments ==> member_of(m, parse_assignments).assignments.len() == 0,
        parse_assignments ==> {
            let given = m.assignment@.filter(|p: RawPartition| p.topic is Some);
            let listed = member_of(m, parse_assignments).assignments;
            &&& listed.len() == given.len()
            &&& 0 <= k < given.len() ==> listed[k] == (words(given[k].topic), given[k].partition)
        },
{
    flat_of_some(
        m.assignment@,
        |p: RawPartition|
            match p.topic {
                Some(topic) => seq![(topic@, p.partition)],
                None => Seq::empty(),
            },
        |p: RawPartition| p.topic is Some,
        |p: RawPartition| (words(p.topic), p.partition),
    );
}

/// Every group that is refused fails with the error of its own row; after those, every requested
/// group that no row names fails, for good.
pub proof fn refused_groups_fail_with_their_error(
    requested: Seq<Seq<char>>,
    rows: Seq<RawGroup>,
    parse_assignments: bool,
)
    ensures
        ({
            let failures = described(requested, rows, parse_assignments).failures;
            let bad = rows.filter(|row: RawGroup| refused(row));
            let missing = requested.filter(
                |group: Seq<char>|
                    !exists|i: int|
                        0 <= i < rows.len() && words((#[trigger] rows[i]).group_id) == group,
            );
            &&& failures.len() == bad.len() + missing.len()
            &&& forall|k: int|
                0 <= k < bad.len() ==> fails_with(
                    #[trigger] failures[k],
                    words(bad[k].group_id),
                    "DescribeConsumerGroups"@,
                    bad[k].error->0.code,
                    words(bad[k].error->0.message),
                    bad[k].error->0.retriable,
                )
            &&& forall|k: int|
                0 <= k < missing.len() ==> is_left_out(
                    #[trigger] failures[bad.len() + k],
                    missing[k],
                    "DescribeConsumerGroups"@,
                )
        }),
{
    let g = |row: RawGroup|
        if is_failure(row.error) {
            seq![
                FailureView {
                    group_id: text_of(row.group_id),
                    error: group_error(DESCRIBE_GROUPS@, row.error->0),
                },
            ]
        } else {
            Seq::empty()
        };
    assert(described_failures(rows) == flat(rows, g));
    flat_of_some(
        rows,
        g,
        |row: RawGroup| refused(row),
        |row: RawGroup|
            FailureView {
                group_id: text_of(row.group_id),
                error: group_error(DESCRIBE_GROUPS@, row.error->0),
            },
    );
    let named = |group: Seq<char>| describes(rows, group);
    let gone = |group: Seq<char>|
        !exists|i: int| 0 <= i < rows.len() && words((#[trigger] rows[i]).group_id) == group;
    assert forall|group: Seq<char>| named(group) == !#[trigger] gone(group) by {
        if describes(rows, group) {
            let i = choose|i: int|
                0 <= i < rows.len() && text_of((#[trigger] rows[i]).group_id) == group;
            assert(words(rows[i].group_id) == group);
        }
        if exists|i: int| 0 <= i < rows.len() && words((#[trigger] rows[i]).group_id) == group {
            let i = choose|i: int|
                0 <= i < rows.len() && words((#[trigger] rows[i]).group_id) == group;
            assert(text_of(rows[i].group_id) == group);
        }
    }
    omitted_are_missing(requested, named, gone, DESCRIBE_GROUPS@);
}

/// Whether a failure is about a group, with the error that its row gives.
pub open spec fn fails_with(
    failure: FailureView,
    group: Seq<char>,
    operation: Seq<char>,
    code: i32,
    message: Seq<char>,
    native_retriable: bool,
) -> bool {
    &&& failure.group_id == group
    &&& failure.error.operation == operation
    &&& failure.error.code == Some(code)
    &&& failure.error.message == message
    &&& failure.error.retriable == (transient_code(code) || native_retriable)
}

/// Whether a failure says that an answer left a group out.
pub open spec fn is_left_out(
    failure: FailureView,
    group: Seq<char>,
    operation: Seq<char>,
) -> bool {
    &&& failure.group_id == group
    &&& failure.error.operation == operation
    &&& failure.error.code is None
    &&& failure.error.message == "response omitted the requested group"@
    &&& !failure.error.retriable
}

proof fn omitted_are_missing(
    requested: Seq<Seq<char>>,
    named: spec_fn(Seq<char>) -> bool,
    gone: spec_fn(Seq<char>) -> bool,
    operation: Seq<char>,
)
    requires
        forall|group: Seq<char>| named(group) == !#[trigger] gone(group),
    ensures
        omitted(requested, named, operation) == requested.filter(gone).map_values(
            |group: Seq<char>|
                FailureView {
                    group_id: group,
                    error: request_error(
                        operation,
                        None,
                        "response omitted the requested group"@,
                    ),
                },
        ),
{
    let f = |group: Seq<char>|
        if named(group) {
            Seq::empty()
        } else {
            seq![
                FailureView {
                    group_id: group,
                    error: request_error(
                        operation,
                        None,
                        "response omitted the requested group"@,
                    ),
                },
            ]
        };
    assert(omitted(requested, named, operation) == flat(requested, f));
    let one = |group: Seq<char>|
        FailureView {
            group_id: group,
            error: request_error(operation, None, "response omitted the requested group"@),
        };
    assert forall|group: Seq<char>| #[trigger] f(group) == (if gone(group) {
        seq![one(group)]
    } else {
        Seq::empty()
    }) by {
        assert(named(group) == !gone(group));
    }
    flat_of_some(requested, f, gone, one);
}

/// Groups whose offsets are refused fail with the error of their own row; after those, every
/// requested group that no row is about fails, for good.
pub proof fn refused_offsets_fail_with_their_error(
    requested: Seq<Seq<char>>,
    rows: Seq<RawGroupOffsets>,
)
    ensures
        ({
            let failures = offsets_answered(requested, rows).failures;
            let bad = rows.filter(|row: RawGroupOffsets| offsets_refused(row));
            let missing = requested.filter(
                |group: Seq<char>|
                    !exists|i: int|
                        0 <= i < rows.len() && words((#[trigger] rows[i]).group_id) == group,
            );
            &&& failures.len() == bad.len() + missing.len()
            &&& forall|k: int|
                0 <= k < bad.len() ==> fails_with(
                    #[trigger] failures[k],
                    words(bad[k].group_id),
                    "ListConsumerGroupOffsets"@,
                    bad[k].error->0.code,
                    words(bad[k].error->0.message),
                    bad[k].error->0.retriable,
                )
            &&& forall|k: int|
                0 <= k < missing.len() ==> is_left_out(
                    #[trigger] failures[bad.len() + k],
                    missing[k],
                    "ListConsumerGroupOffsets"@,
                )
        }),
{
    let g = |row: RawGroupOffsets|
        if is_failure(row.error) {
            seq![
                FailureView {
                    group_id: text_of(row.group_id),
                    error: group_error(LIST_GROUP_OFFSETS@, row.error->0),
                },
            ]
        } else {
            Seq::empty()
        };
    assert(offset_failures(rows) == flat(rows, g));
    flat_of_some(
        rows,
        g,
        |row: RawGroupOffsets| offsets_refused(row),
        |row: RawGroupOffsets|
            FailureView {
                group_id: text_of(row.group_id),
                error: group_error(LIST_GROUP_OFFSETS@, row.error->0),
            },
    );
    let named = |group: Seq<char>| is_about(rows, group);
    let gone = |group: Seq<char>|
        !exists|i: int| 0 <= i < rows.len() && words((#[trigger] rows[i]).group_id) == group;
    assert forall|group: Seq<char>| named(group) == !#[trigger] gone(group) by {
        if is_about(rows, group) {
            let i = choose|i: int|
                0 <= i < rows.len() && text_of((#[trigger] rows[i]).group_id) == group;
            assert(words(rows[i].group_id) == group);
        }
        if exists|i: int| 0 <= i < rows.len() && words((#[trigger] rows[i]).group_id) == group {
            let i = choose|i: int|
                0 <= i < rows.len() && words((#[trigger] rows[i]).group_id) == group;
            assert(text_of(rows[i].group_id) == group);
        }
    }
    omitted_are_missing(requested, named, gone, LIST_GROUP_OFFSETS@);
}

/// Whether a row gives a committed offset of a partition: its topic must be known, and the offset
/// must not be negative.
pub open spec fn gives(row: RawOffset, tp: Tp, offset: i64) -> bool {
    &&& row.topic is Some
    &&& row.topic->0@ == tp.0
    &&& row.partition == tp.1
    &&& row.offset == offset
    &&& offset >= 0
}

/// Whether no partition has two offsets.
pub open spec fn offsets_once(rows: Seq<RawOffset>) -> bool {
    forall|a: int, b: int|
        0 <= a < b < rows.len() && (#[trigger] rows[a]).topic is Some && (
        #[trigger] rows[b]).topic is Some ==> (rows[a].topic->0@, rows[a].partition) != (
            rows[b].topic->0@,
            rows[b].partition,
        )
}

/// A partition's committed offset is the one that its row gives, and only partitions with such a
/// row have one.
pub proof fn committed_offsets_are_those_given(rows: Seq<RawOffset>, tp: Tp, offset: i64)
    requires
        offsets_once(rows),
    ensures
        unique_keys(with_offsets(Seq::empty(), rows)),
        lookup(with_offsets(Seq::empty(), rows), tp) == Some(offset) <==> exists|i: int|
            0 <= i < rows.len() && gives(#[trigger] rows[i], tp, offset),
    decreases rows.len(),
{
    let after = with_offsets(Seq::empty(), rows);
    if rows.len() > 0 {
        let shorter = rows.drop_last();
        let last = rows.last();
        let n = rows.len() - 1;
        assert forall|i: int| 0 <= i < shorter.len() implies #[trigger] shorter[i] == rows[i] by {
        }
        assert(offsets_once(shorter)) by {
            assert forall|a: int, b: int|
                0 <= a < b < shorter.len() && (#[trigger] shorter[a]).topic is Some && (
                #[trigger] shorter[b]).topic is Some implies (
                shorter[a].topic->0@,
                shorter[a].partition,
            ) != (shorter[b].topic->0@, shorter[b].partition) by {
                assert(rows[a].topic is Some && rows[b].topic is Some);
            }
        }
        committed_offsets_are_those_given(shorter, tp, offset);
        let before = with_offsets(Seq::empty(), shorter);
        if last.topic is Some && last.offset >= 0 {
            put_reads_back(before, (last.topic->0@, last.partition), last.offset, tp);
        }
        if exists|i: int| 0 <= i < shorter.len() && gives(#[trigger] shorter[i], tp, offset) {
            let i = choose|i: int|
                0 <= i < shorter.len() && gives(#[trigger] shorter[i], tp, offset);
            assert(gives(rows[i], tp, offset));
            if last.topic is Some {
                assert(rows[n].topic is Some);
                assert((rows[i].topic->0@, rows[i].partition) != (
                    rows[n].topic->0@,
                    rows[n].partition,
                ));
            }
        }
        if lookup(after, tp) == Some(offset) {
            if last.topic is Some && last.offset >= 0 && (last.topic->0@, last.partition) == tp {
                assert(gives(rows[n], tp, offset));
            }
        }
        if exists|i: int| 0 <= i < rows.len() && gives(#[trigger] rows[i], tp, offset) {
            let i = choose|i: int| 0 <= i < rows.len() && gives(#[trigger] rows[i], tp, offset);
            if i < n {
                assert(gives(shorter[i], tp, offset));
            }
        }
    }
}

/// A group whose offsets are not refused has exactly the offsets that its own row gives; a group
/// that is refused, or that no row is about, has none.
pub proof fn groups_have_the_offsets_of_their_row(
    requested: Seq<Seq<char>>,
    rows: Seq<RawGroupOffsets>,
    i: int,
    tp: Tp,
    offset: i64,
)
    requires
        answers_once(rows),
        0 <= i < rows.len(),
        offsets_once(rows[i].partitions@),
    ensures
        ({
            let all = offsets_answered(requested, rows).offsets;
            let mine = lookup(all, words(rows[i].group_id));
            &&& mine is Some <==> !offsets_refused(rows[i])
            &&& mine matches Some(offsets) ==> (lookup(offsets, tp) == Some(offset) <==> exists|k: int|
                0 <= k < rows[i].partitions@.len() && gives(
                    #[trigger] rows[i].partitions@[k],
                    tp,
                    offset,
                ))
            &&& all.len() <= rows.len()
        }),
{
    offsets_of_row(rows, i);
    offsets_keys(rows);
    committed_offsets_are_those_given(rows[i].partitions@, tp, offset);
}

proof fn offsets_keys(rows: Seq<RawGroupOffsets>)
    ensures
        unique_keys(offsets_by_group(rows)),
        offsets_by_group(rows).len() <= rows.len(),
        forall|group: Seq<char>| #[trigger]
            has_key(offsets_by_group(rows), group) ==> exists|r: int|
                0 <= r < rows.len() && text_of((#[trigger] rows[r]).group_id) == group
                    && !is_failure(rows[r].error),
    decreases rows.len(),
{
    if rows.len() > 0 {
        let shorter = rows.drop_last();
        let last = rows.last();
        let before = offsets_by_group(shorter);
        let after = offsets_by_group(rows);
        let value = with_offsets(Seq::empty(), last.partitions@);
        offsets_keys(shorter);
        put_reads_back(before, text_of(last.group_id), value, text_of(last.group_id));
        assert forall|group: Seq<char>| #[trigger] has_key(after, group) implies exists|r: int|
            0 <= r < rows.len() && text_of((#[trigger] rows[r]).group_id) == group && !is_failure(
                rows[r].error,
            ) by {
            put_reads_back(before, text_of(last.group_id), value, group);
            lookup_is_some(before, group);
            lookup_is_some(after, group);
            if has_key(before, group) {
                let r = choose|r: int|
                    0 <= r < shorter.len() && text_of((#[trigger] shorter[r]).group_id) == group
                        && !is_failure(shorter[r].error);
                assert(text_of(rows[r].group_id) == group);
            } else {
                assert(text_of(rows[rows.len() - 1].group_id) == group);
            }
        }
    }
}

proof fn offsets_of_row(rows: Seq<RawGroupOffsets>, i: int)
    requires
        answers_once(rows),
        0 <= i < rows.len(),
    ensures
        lookup(offsets_by_group(rows), text_of(rows[i].group_id)) == (if is_failure(rows[i].error) {
            None
        } else {
            Some(with_offsets(Seq::empty(), rows[i].partitions@))
        }),
    decreases rows.len(),
{
    let shorter = rows.drop_last();
    let last = rows.last();
    let before = offsets_by_group(shorter);
    let group = text_of(rows[i].group_id);
    let n = rows.len() - 1;
    offsets_keys(shorter);
    put_reads_back(
        before,
        text_of(last.group_id),
        with_offsets(Seq::empty(), last.partitions@),
        group,
    );
    if i < n {
        assert(answers_once(shorter)) by {
            assert forall|a: int, b: int| 0 <= a < b < shorter.len() implies text_of(
                (#[trigger] shorter[a]).group_id,
            ) != text_of((#[trigger] shorter[b]).group_id) by {
                assert(text_of(rows[a].group_id) != text_of(rows[b].group_id));
            }
        }
        assert(shorter[i] == rows[i]);
        offsets_of_row(shorter, i);
        assert(text_of(rows[i].group_id) != text_of(rows[n].group_id));
    } else {
        lookup_is_some(before, group);
        if has_key(before, group) {
            let r = choose|r: int|
                0 <= r < shorter.len() && text_of((#[trigger] shorter[r]).group_id) == group
                    && !is_failure(shorter[r].error);
            assert(text_of(rows[r].group_id) != text_of(rows[n].group_id));
        }
    }
}

/// The answer about a single group gives the offsets of its row, or none where it is refused.
pub proof fn a_single_group_has_its_own_offsets(row: RawGroupOffsets, tp: Tp, offset: i64)
    requires
        offsets_once(row.partitions@),
    ensures
        offsets_refused(row) ==> offsets_of_all(seq![row]).len() == 0,
        !offsets_refused(row) ==> (lookup(offsets_of_all(seq![row]), tp) == Some(offset)
            <==> exists|k: int|
            0 <= k < row.partitions@.len() && gives(#[trigger] row.partitions@[k], tp, offset)),
{
    let rows = seq![row];
    assert(rows.drop_last() =~= Seq::empty());
    assert(offsets_of_all(rows.drop_last()) == Seq::<(Tp, i64)>::empty());
    committed_offsets_are_those_given(row.partitions@, tp, offset);
}

/// Whether a row gives one end of a partition's log.
pub open spec fn lists_end(row: Option<RawListedOffset>, tp: Tp, offset: i64) -> bool {
    &&& row is Some
    &&& row->0.error_code == 0
    &&& row->0.topic is Some
    &&& row->0.topic->0@ == tp.0
    &&& row->0.partition == tp.1
    &&& row->0.offset == offset
}

/// Whether no partition is listed twice.
pub open spec fn listed_once(rows: Seq<Option<RawListedOffset>>) -> bool {
    forall|a: int, b: int|
        0 <= a < b < rows.len() && (#[trigger] rows[a]) is Some && (#[trigger] rows[b]) is Some
            && rows[a]->0.topic is Some && rows[b]->0.topic is Some ==> (
            rows[a]->0.topic->0@,
            rows[a]->0.partition,
        ) != (rows[b]->0.topic->0@, rows[b]->0.partition)
}

/// The end of a partition's log is the one that its row gives, and only partitions with such a
/// row, without an error, have one.
pub proof fn log_ends_are_those_listed(
    rows: Seq<Option<RawListedOffset>>,
    tp: Tp,
    offset: i64,
)
    requires
        listed_once(rows),
    ensures
        unique_keys(listed_offsets(rows)),
        lookup(listed_offsets(rows), tp) == Some(offset) <==> exists|i: int|
            0 <= i < rows.len() && lists_end(#[trigger] rows[i], tp, offset),
    decreases rows.len(),
{
    let after = listed_offsets(rows);
    if rows.len() > 0 {
        let shorter = rows.drop_last();
        let last = rows.last();
        let n = rows.len() - 1;
        assert forall|i: int| 0 <= i < shorter.len() implies #[trigger] shorter[i] == rows[i] by {
        }
        assert(listed_once(shorter)) by {
            assert forall|a: int, b: int|
                0 <= a < b < shorter.len() && (#[trigger] shorter[a]) is Some && (
                #[trigger] shorter[b]) is Some && shorter[a]->0.topic is Some
                    && shorter[b]->0.topic is Some implies (
                shorter[a]->0.topic->0@,
                shorter[a]->0.partition,
            ) != (shorter[b]->0.topic->0@, shorter[b]->0.partition) by {
                assert(rows[a] is Some && rows[b] is Some);
            }
        }
        log_ends_are_those_listed(shorter, tp, offset);
        let before = listed_offsets(shorter);
        if last is Some && last->0.error_code == 0 && last->0.topic is Some {
            put_reads_back(
                before,
                (last->0.topic->0@, last->0.partition),
                last->0.offset,
                tp,
            );
        }
        if exists|i: int| 0 <= i < shorter.len() && lists_end(#[trigger] shorter[i], tp, offset) {
            let i = choose|i: int|
                0 <= i < shorter.len() && lists_end(#[trigger] shorter[i], tp, offset);
            assert(lists_end(rows[i], tp, offset));
            if last is Some && last->0.topic is Some {
                assert(rows[n] is Some);
                assert((rows[i]->0.topic->0@, rows[i]->0.partition) != (
                    rows[n]->0.topic->0@,
                    rows[n]->0.partition,
                ));
            }
        }
        if lookup(after, tp) == Some(offset) {
            if last is Some && last->0.error_code == 0 && last->0.topic is Some && (
                last->0.topic->0@,
                last->0.partition,
            ) == tp {
                assert(lists_end(rows[n], tp, offset));
            }
        }
        if exists|i: int| 0 <= i < rows.len() && lists_end(#[trigger] rows[i], tp, offset) {
            let i = choose|i: int|
                0 <= i < rows.len() && lists_end(#[trigger] rows[i], tp, offset);
            if i < n {
                assert(lists_end(shorter[i], tp, offset));
            }
        }
    }
}

/// A topic counts as compacted exactly where it was described with a cleanup policy that names
/// compaction.
pub proof fn compacted_topics_say_so(resources: Seq<Option<ResourceConfig>>, topic: Seq<char>)
    ensures
        compacted_topics(resources).contains(topic) <==> exists|r: int, e: int|
            #![trigger resources[r]->0.entries@[e]]
            0 <= r < resources.len() && resources[r] is Some && resources[r]->0.topic is Some
                && resources[r]->0.topic->0@ == topic && 0 <= e < resources[r]->0.entries@.len()
                && resources[r]->0.entries@[e].name@ == "cleanup.policy"@
                && resources[r]->0.entries@[e].value is Some && occurs_in(
                resources[r]->0.entries@[e].value->0@,
                "compact"@,
            ),
    decreases resources.len(),
{
    if resources.len() > 0 {
        let shorter = resources.drop_last();
        let last = resources.last();
        let n = resources.len() - 1;
        compacted_topics_say_so(shorter, topic);
        let before = compacted_topics(shorter);
        if last is Some && last->0.topic is Some {
            push_contains(before, last->0.topic->0@, topic);
        }
        assert forall|r: int| 0 <= r < shorter.len() implies #[trigger] shorter[r] == resources[r] by {
        }
        if compacted_topics(resources).contains(topic) {
            if before.contains(topic) {
                let (r, e) = choose|r: int, e: int|
                    #![trigger shorter[r]->0.entries@[e]]
                    0 <= r < shorter.len() && shorter[r] is Some && shorter[r]->0.topic is Some
                        && shorter[r]->0.topic->0@ == topic && 0 <= e
                        < shorter[r]->0.entries@.len() && shorter[r]->0.entries@[e].name@
                        == "cleanup.policy"@ && shorter[r]->0.entries@[e].value is Some
                        && occurs_in(shorter[r]->0.entries@[e].value->0@, "compact"@);
                assert(resources[r]->0.entries@[e].value is Some);
            } else {
                let entries = last->0.entries@;
                assert(is_compacted(entries));
                let e = choose|e: int| 0 <= e < entries.len() && says_compacted(#[trigger] entries[e]);
                assert(resources[n]->0.entries@[e].value is Some);
            }
        }
        if exists|r: int, e: int|
            #![trigger resources[r]->0.entries@[e]]
            0 <= r < resources.len() && resources[r] is Some && resources[r]->0.topic is Some
                && resources[r]->0.topic->0@ == topic && 0 <= e < resources[r]->0.entries@.len()
                && resources[r]->0.entries@[e].name@ == "cleanup.policy"@
                && resources[r]->0.entries@[e].value is Some && occurs_in(
                resources[r]->0.entries@[e].value->0@,
                "compact"@,
            ) {
            let (r, e) = choose|r: int, e: int|
                #![trigger resources[r]->0.entries@[e]]
                0 <= r < resources.len() && resources[r] is Some && resources[r]->0.topic is Some
                    && resources[r]->0.topic->0@ == topic && 0 <= e
                    < resources[r]->0.entries@.len() && resources[r]->0.entries@[e].name@
                    == "cleanup.policy"@ && resources[r]->0.entries@[e].value is Some && occurs_in(
                    resources[r]->0.entries@[e].value->0@,
                    "compact"@,
                );
            if r < n {
                assert(shorter[r]->0.entries@[e].value is Some);
            } else {
                assert(says_compacted(last->0.entries@[e]));
                assert(is_compacted(last->0.entries@));
            }
        }
    }
}

/// What the request for a portion of groups gave: its answer, or where it was refused as a whole
/// or broke off, the same error for each of its groups.
pub proof fn portions_answer_or_fail_as_a_whole(
    requested: Seq<Seq<char>>,
    result: ChunkResult,
    i: int,
)
    requires
        0 <= i < requested.len(),
    ensures
        ({
            let response = chunk_view(requested, result);
            match result {
                ChunkResult::Answered(answered) => response == answered@,
                ChunkResult::Refused(error) => response.descriptions.len() == 0
                    && response.failures.len() == requested.len() && response.failures[i].group_id
                    == requested[i] && response.failures[i].error == error@,
                ChunkResult::TaskEnded { .. } => response.descriptions.len() == 0
                    && response.failures.len() == requested.len() && response.failures[i].group_id
                    == requested[i] && !response.failures[i].error.retriable
                    && response.failures[i].error.code is None,
            }
        }),
{
}

/// Each request of a round gives what its own portion and its own end give.
pub proof fn rounds_keep_requests_apart(results: Seq<(Vec<String>, ChunkResult)>, i: int)
    requires
        0 <= i < results.len(),
    ensures
        round_responses(results).len() == results.len(),
        round_responses(results)[i] == chunk_view(views(results[i].0@), results[i].1),
{
}

/// A round gives what its requests gave, one after the other: the descriptions, the groups to ask
/// again, and the failures that stand. A failure is asked again where there may be another round
/// and its error may go away, and stands otherwise.
pub proof fn rounds_take_what_their_requests_gave(
    responses: Seq<DescribeView>,
    response: DescribeView,
    can_retry: bool,
)
    ensures
        round_descriptions(Seq::empty()).len() == 0,
        round_pending(Seq::empty(), can_retry).len() == 0,
        round_failures(Seq::empty(), can_retry).len() == 0,
        round_descriptions(responses.push(response)) == round_descriptions(responses)
            + response.descriptions,
        round_pending(responses.push(response), can_retry) == round_pending(responses, can_retry)
            + response.failures.filter(
            |f: FailureView| can_retry && f.error.retriable,
        ).map_values(|f: FailureView| f.group_id),
        round_failures(responses.push(response), can_retry) == round_failures(responses, can_retry)
            + response.failures.filter(|f: FailureView| !(can_retry && f.error.retriable)),
{
    let longer = responses.push(response);
    assert(longer.drop_last() =~= responses);
    flat_of_some(
        response.failures,
        |f: FailureView|
            if can_retry && f.error.retriable {
                seq![f.group_id]
            } else {
                Seq::empty()
            },
        |f: FailureView| can_retry && f.error.retriable,
        |f: FailureView| f.group_id,
    );
    let stand = |f: FailureView| !(can_retry && f.error.retriable);
    flat_of_some(
        response.failures,
        |f: FailureView|
            if can_retry && f.error.retriable {
                Seq::empty()
            } else {
                seq![f]
            },
        stand,
        |f: FailureView| f,
    );
    let kept = response.failures.filter(stand);
    assert(kept.map_values(|f: FailureView| f) =~= kept);
}

/// Of offsets that are fetched group by group, those of each request that succeeded are taken:
/// for each of its groups, in place of what was there before. A request that failed adds nothing.
pub proof fn fetched_offsets_are_merged(
    results: Seq<Option<OrderMap<String, OffsetMap>>>,
    result: Option<OrderMap<String, OffsetMap>>,
    group: Seq<char>,
)
    requires
        result matches Some(offsets) ==> unique_keys(offsets@),
        forall|i: int|
            0 <= i < results.len() ==> ((#[trigger] results[i]) matches Some(offsets)
                ==> unique_keys(offsets@)),
    ensures
        lookup(merged_offsets(results.push(result)), group) == (match result {
            Some(offsets) => if has_key(offsets@, group) {
                lookup(offsets@, group)
            } else {
                lookup(merged_offsets(results), group)
            },
            None => lookup(merged_offsets(results), group),
        }),
        merged_offsets(Seq::empty()).len() == 0,
{
    let longer = results.push(result);
    assert(longer.drop_last() =~= results);
    merged_keys_unique(results);
    if let Some(offsets) = result {
        put_all_adds(merged_offsets(results), offsets@, group);
    }
}

proof fn merged_keys_unique(results: Seq<Option<OrderMap<String, OffsetMap>>>)
    ensures
        unique_keys(merged_offsets(results)),
    decreases results.len(),
{
    if results.len() > 0 {
        merged_keys_unique(results.drop_last());
        if let Some(offsets) = results.last() {
            put_all_adds(merged_offsets(results.drop_last()), offsets@, Seq::empty());
        }
    }
}

/// What putting pairs into a map gives a key: the added value where there is one, else the old
/// one.
pub proof fn put_all_adds<A, B>(base: Seq<(A, B)>, more: Seq<(A, B)>, k: A)
    requires
        unique_keys(base),
    ensures
        unique_keys(put_all(base, more)),
        lookup(put_all(base, more), k) == (if has_key(more, k) {
            lookup(more, k)
        } else {
            lookup(base, k)
        }),
    decreases more.len(),
{
    if more.len() > 0 {
        let shorter = more.drop_last();
        put_all_adds(base, shorter, k);
        put_reads_back(put_all(base, shorter), more.last().0, more.last().1, k);
        lookup_is_some(more, k);
        lookup_is_some(shorter, k);
    }
}

} // verus!

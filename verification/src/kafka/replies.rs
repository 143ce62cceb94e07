//! How the answers of the admin API are read.
//!
//! The rows hold what the client library hands out, one for one: a missing pointer is `None`.

use crate::collector::offset_collector::{MemberView, Tp};
use crate::kafka::admin::{
    request_error, transient_code, AdminErrorView, AdminRequestError, BatchedGroupDescription,
    BatchedMember, DescribeGroupsResponse, DescribeView, DescriptionView, FailureView,
    GroupRequestFailure, ERR_TIMED_OUT, NO_ERROR,
};
use crate::kafka::client::TopicPartition;
use crate::keymap::{put, put_all, with_name, NameSet, OrderMap};
use crate::text::{decimal, flat, flat_step, signed_text};
use crate::views::{views, views_push};
use vstd::prelude::*;

verus! {

broadcast use views_push;

/// The name of the request that describes groups.
pub const DESCRIBE_GROUPS: &'static str = "DescribeConsumerGroups";

/// The name of the request for groups' committed offsets.
pub const LIST_GROUP_OFFSETS: &'static str = "ListConsumerGroupOffsets";

/// The type of the event that answers a request to describe groups.
pub const DESCRIBE_GROUPS_EVENT: i32 = 0x4000;

/// The type of the event that answers a request for groups' committed offsets.
pub const LIST_GROUP_OFFSETS_EVENT: i32 = 0x8000;

/// The type of the event that answers a request for the ends of logs.
pub const LIST_OFFSETS_EVENT: i32 = 0x40_0000;

/// The characters of a text; none where it is missing.
pub open spec fn text_of(text: Option<String>) -> Seq<char> {
    match text {
        Some(t) => t@,
        None => Seq::empty(),
    }
}

/// The text; empty where it is missing.
pub fn text_or_empty(text: &Option<String>) -> (t: String)
    ensures
        t@ == text_of(*text),
{
    match text {
        Some(t) => t.clone(),
        None => String::new(),
    }
}

/// The error of a single group.
#[derive(Debug)]
pub struct RawError {
    pub code: i32,
    pub message: Option<String>,
    pub retriable: bool,
}

/// Whether a group's error stands for a failure.
pub open spec fn is_failure(error: Option<RawError>) -> bool {
    error matches Some(e) && e.code != NO_ERROR
}

/// The error of a failed group.
pub open spec fn group_error(operation: Seq<char>, e: RawError) -> AdminErrorView {
    AdminErrorView {
        retriable: transient_code(e.code) || e.retriable,
        ..request_error(operation, Some(e.code), text_of(e.message))
    }
}

/// A partition in an assignment.
#[derive(Debug)]
pub struct RawPartition {
    pub topic: Option<String>,
    pub partition: i32,
}

/// A group member.
#[derive(Debug)]
pub struct RawMember {
    pub member_id: Option<String>,
    pub client_id: Option<String>,
    pub client_host: Option<String>,
    pub assignment: Vec<RawPartition>,
}

/// A described group.
#[derive(Debug)]
pub struct RawGroup {
    pub group_id: Option<String>,
    pub error: Option<RawError>,
    pub state: Option<String>,
    pub members: Vec<Option<RawMember>>,
}

/// A committed offset.
#[derive(Debug)]
pub struct RawOffset {
    pub topic: Option<String>,
    pub partition: i32,
    pub offset: i64,
}

/// The committed offsets of a group.
#[derive(Debug)]
pub struct RawGroupOffsets {
    pub group_id: Option<String>,
    pub error: Option<RawError>,
    pub partitions: Vec<RawOffset>,
}

/// One end of a partition's log.
#[derive(Debug)]
pub struct RawListedOffset {
    pub topic: Option<String>,
    pub partition: i32,
    pub offset: i64,
    pub error_code: i32,
}

/// The event that answered a request. The rows are missing where the result is.
#[derive(Debug)]
pub struct AdminReply<R> {
    pub event_type: i32,
    pub error_code: i32,
    pub error_text: Option<String>,
    pub rows: Option<Vec<R>>,
}

/// What kept a request from being sent.
#[derive(Debug)]
pub enum SetupProblem {
    /// A group's name cannot be passed on.
    BadGroupId(String),
    NoRequest,
    NoOptions,
    TimeoutRefused { code: i32, text: String },
    NoQueue,
}

/// The error for a request that was never sent.
pub open spec fn setup_error_view(operation: Seq<char>, problem: SetupProblem) -> AdminErrorView {
    match problem {
        SetupProblem::BadGroupId(text) => request_error(operation, None, text@),
        SetupProblem::NoRequest => request_error(operation, None, "failed to create request"@),
        SetupProblem::NoOptions => request_error(operation, None, "failed to create AdminOptions"@),
        SetupProblem::TimeoutRefused { code, text } => request_error(
            operation,
            Some(code),
            "failed to set request timeout: "@ + text@,
        ),
        SetupProblem::NoQueue => request_error(operation, None, "failed to create queue"@),
    }
}

/// The error for a request that was never sent.
fn setup_error(operation: &'static str, problem: SetupProblem) -> (error: AdminRequestError)
    ensures
        error@ == setup_error_view(operation@, problem),
{
    match problem {
        SetupProblem::BadGroupId(text) => AdminRequestError::task(operation, text.as_str()),
        SetupProblem::NoRequest => AdminRequestError::task(operation, "failed to create request"),
        SetupProblem::NoOptions => AdminRequestError::task(
            operation,
            "failed to create AdminOptions",
        ),
        SetupProblem::TimeoutRefused { code, text } => {
            let mut message = "failed to set request timeout: ".to_owned();
            message.append(text.as_str());
            AdminRequestError::new(operation, Some(code), message.as_str())
        },
        SetupProblem::NoQueue => AdminRequestError::task(operation, "failed to create queue"),
    }
}

/// What a request's answer says: rows, or why there are none. Without an event in time, the
/// request timed out.
pub open spec fn answer<R>(
    operation: Seq<char>,
    expected_type: i32,
    outcome: Result<Option<AdminReply<R>>, SetupProblem>,
) -> Result<Seq<R>, AdminErrorView> {
    match outcome {
        Err(problem) => Err(setup_error_view(operation, problem)),
        Ok(None) => Err(
            request_error(operation, Some(ERR_TIMED_OUT), "timed out waiting for response"@),
        ),
        Ok(Some(reply)) => if reply.event_type != expected_type {
            Err(
                request_error(
                    operation,
                    None,
                    "unexpected event type: "@ + decimal(reply.event_type as int),
                ),
            )
        } else if reply.error_code != NO_ERROR {
            Err(
                request_error(
                    operation,
                    Some(reply.error_code),
                    "request failed: "@ + (match reply.error_text {
                        Some(text) => text@,
                        None => "unknown error"@,
                    }),
                ),
            )
        } else {
            match reply.rows {
                Some(rows) => Ok(rows@),
                None => Err(request_error(operation, None, "result is null"@)),
            }
        },
    }
}

/// Takes the rows out of a request's answer.
fn accept<R>(
    operation: &'static str,
    expected_type: i32,
    outcome: Result<Option<AdminReply<R>>, SetupProblem>,
) -> (rows: Result<Vec<R>, AdminRequestError>)
    ensures
        match (rows, answer(operation@, expected_type, outcome)) {
            (Ok(rows), Ok(wanted)) => rows@ == wanted,
            (Err(error), Err(wanted)) => error@ == wanted,
            _ => false,
        },
{
    let reply = match outcome {
        Err(problem) => {
            return Err(setup_error(operation, problem));
        },
        Ok(None) => {
            return Err(
                AdminRequestError::new(
                    operation,
                    Some(ERR_TIMED_OUT),
                    "timed out waiting for response",
                ),
            );
        },
        Ok(Some(reply)) => reply,
    };
    if reply.event_type != expected_type {
        let mut message = "unexpected event type: ".to_owned();
        message.append(signed_text(reply.event_type as i64).as_str());
        return Err(AdminRequestError::task(operation, message.as_str()));
    }
    if reply.error_code != NO_ERROR {
        let mut message = "request failed: ".to_owned();
        match &reply.error_text {
            Some(text) => {
                message.append(text.as_str());
            },
            None => {
                message.append("unknown error");
            },
        }
        return Err(AdminRequestError::new(operation, Some(reply.error_code), message.as_str()));
    }
    match reply.rows {
        Some(rows) => Ok(rows),
        None => Err(AdminRequestError::task(operation, "result is null")),
    }
}

/// The partitions of an assignment whose topic is known.
pub open spec fn assignment_of(partitions: Seq<RawPartition>) -> Seq<Tp> {
    flat(
        partitions,
        |p: RawPartition|
            match p.topic {
                Some(topic) => seq![(topic@, p.partition)],
                None => Seq::empty(),
            },
    )
}

/// A member; its assignment is only read where it is wanted.
pub open spec fn member_of(m: RawMember, parse_assignments: bool) -> MemberView {
    MemberView {
        member_id: text_of(m.member_id),
        client_id: text_of(m.client_id),
        client_host: text_of(m.client_host),
        assignments: if parse_assignments {
            assignment_of(m.assignment@)
        } else {
            Seq::empty()
        },
    }
}

/// The members that are there.
pub open spec fn members_of(
    members: Seq<Option<RawMember>>,
    parse_assignments: bool,
) -> Seq<MemberView> {
    flat(
        members,
        |m: Option<RawMember>|
            match m {
                Some(m) => seq![member_of(m, parse_assignments)],
                None => Seq::empty(),
            },
    )
}

/// The groups that were described.
pub open spec fn descriptions_of(
    rows: Seq<RawGroup>,
    parse_assignments: bool,
) -> Seq<DescriptionView> {
    flat(
        rows,
        |row: RawGroup|
            if is_failure(row.error) {
                Seq::empty()
            } else {
                seq![
                    DescriptionView {
                        group_id: text_of(row.group_id),
                        state: text_of(row.state),
                        members: members_of(row.members@, parse_assignments),
                    },
                ]
            },
    )
}

/// The groups that failed.
pub open spec fn described_failures(rows: Seq<RawGroup>) -> Seq<FailureView> {
    flat(
        rows,
        |row: RawGroup|
            if is_failure(row.error) {
                seq![
                    FailureView {
                        group_id: text_of(row.group_id),
                        error: group_error(DESCRIBE_GROUPS@, row.error->0),
                    },
                ]
            } else {
                Seq::empty()
            },
    )
}

/// The requested groups that the answer does not name, each as a failure of its own.
pub open spec fn omitted(
    requested: Seq<Seq<char>>,
    named: spec_fn(Seq<char>) -> bool,
    operation: Seq<char>,
) -> Seq<FailureView> {
    flat(
        requested,
        |group: Seq<char>|
            if named(group) {
                Seq::empty()
            } else {
                seq![
                    FailureView {
                        group_id: group,
                        error: request_error(
                            operation,
                            None,
                            "response omitted the requested group"@,
                        ),
                    },
                ]
            },
    )
}

/// Whether a row describes a group.
pub open spec fn describes(rows: Seq<RawGroup>, group: Seq<char>) -> bool {
    exists|i: int| 0 <= i < rows.len() && text_of((#[trigger] rows[i]).group_id) == group
}

/// What a complete answer to a request to describe groups says. Every requested group is
/// described or fails, also one that the answer does not name.
pub open spec fn described(
    requested: Seq<Seq<char>>,
    rows: Seq<RawGroup>,
    parse_assignments: bool,
) -> DescribeView {
    DescribeView {
        descriptions: descriptions_of(rows, parse_assignments),
        failures: described_failures(rows) + omitted(
            requested,
            |group: Seq<char>| describes(rows, group),
            DESCRIBE_GROUPS@,
        ),
    }
}

/// Reads an assignment.
fn read_assignment(partitions: &Vec<RawPartition>) -> (list: Vec<TopicPartition>)
    ensures
        views(list@) == assignment_of(partitions@),
{
    let ghost f = |p: RawPartition|
        match p.topic {
            Some(topic) => seq![(topic@, p.partition)],
            None => Seq::empty(),
        };
    let mut list: Vec<TopicPartition> = Vec::new();
    let mut i: usize = 0;
    assert(partitions@.take(0) =~= Seq::<RawPartition>::empty());
    while i < partitions.len()
        invariant
            i <= partitions.len(),
            f == (|p: RawPartition|
                match p.topic {
                    Some(topic) => seq![(topic@, p.partition)],
                    None => Seq::empty(),
                }),
            views(list@) =~= flat(partitions@.take(i as int), f),
        decreases partitions.len() - i,
    {
        proof {
            flat_step(partitions@, f, i as int);
        }
        if let Some(topic) = &partitions[i].topic {
            list.push(TopicPartition::new(topic.as_str(), partitions[i].partition));
        }
        i += 1;
    }
    assert(partitions@.take(i as int) =~= partitions@);
    list
}

/// Reads a group's members.
fn read_members(members: &Vec<Option<RawMember>>, parse_assignments: bool) -> (list: Vec<
    BatchedMember,
>)
    ensures
        views(list@) == members_of(members@, parse_assignments),
{
    let ghost f = |m: Option<RawMember>|
        match m {
            Some(m) => seq![member_of(m, parse_assignments)],
            None => Seq::empty(),
        };
    let mut list: Vec<BatchedMember> = Vec::new();
    let mut i: usize = 0;
    assert(members@.take(0) =~= Seq::<Option<RawMember>>::empty());
    while i < members.len()
        invariant
            i <= members.len(),
            f == (|m: Option<RawMember>|
                match m {
                    Some(m) => seq![member_of(m, parse_assignments)],
                    None => Seq::empty(),
                }),
            views(list@) =~= flat(members@.take(i as int), f),
        decreases members.len() - i,
    {
        proof {
            flat_step(members@, f, i as int);
        }
        if let Some(m) = &members[i] {
            let assignments = if parse_assignments {
                read_assignment(&m.assignment)
            } else {
                Vec::new()
            };
            let member = BatchedMember {
                member_id: text_or_empty(&m.member_id),
                client_id: text_or_empty(&m.client_id),
                client_host: text_or_empty(&m.client_host),
                assignments,
            };
            assert(member@.assignments =~= member_of(*m, parse_assignments).assignments);
            list.push(member);
        }
        i += 1;
    }
    assert(members@.take(i as int) =~= members@);
    list
}

/// Makes a failure out of a group's error.
fn failure_of(operation: &'static str, group_id: String, e: &RawError) -> (failure:
    GroupRequestFailure)
    ensures
        failure@ == (FailureView { group_id: group_id@, error: group_error(operation@, *e) }),
{
    let message = text_or_empty(&e.message);
    GroupRequestFailure {
        group_id,
        error: AdminRequestError::from_group_error(
            operation,
            e.code,
            message.as_str(),
            e.retriable,
        ),
    }
}

/// Adds a failure for each requested group that is not among the returned ones.
fn push_omitted(
    failures: &mut Vec<GroupRequestFailure>,
    requested: &Vec<String>,
    returned: &NameSet,
    operation: &'static str,
    Ghost(named): Ghost<spec_fn(Seq<char>) -> bool>,
)
    requires
        forall|group: Seq<char>| named(group) == #[trigger] returned@.contains(group),
    ensures
        views(final(failures)@) == views(old(failures)@) + omitted(
            views(requested@),
            named,
            operation@,
        ),
{
    let ghost before = views(failures@);
    let ghost all = views(requested@);
    let ghost f = |group: Seq<char>|
        if named(group) {
            Seq::empty()
        } else {
            seq![
                FailureView {
                    group_id: group,
                    error: request_error(
                        operation@,
                        None,
                        "response omitted the requested group"@,
                    ),
                },
            ]
        };
    let mut i: usize = 0;
    assert(all.take(0) =~= Seq::<Seq<char>>::empty());
    while i < requested.len()
        invariant
            i <= requested.len(),
            all == views(requested@),
            forall|group: Seq<char>| named(group) == #[trigger] returned@.contains(group),
            f == (|group: Seq<char>|
                if named(group) {
                    Seq::empty()
                } else {
                    seq![
                        FailureView {
                            group_id: group,
                            error: request_error(
                                operation@,
                                None,
                                "response omitted the requested group"@,
                            ),
                        },
                    ]
                }),
            views(failures@) =~= before + flat(all.take(i as int), f),
        decreases requested.len() - i,
    {
        proof {
            flat_step(all, f, i as int);
            assert(named(all[i as int]) == returned@.contains(all[i as int]));
        }
        if !returned.contains(requested[i].as_str()) {
            failures.push(
                GroupRequestFailure {
                    group_id: requested[i].clone(),
                    error: AdminRequestError::task(
                        operation,
                        "response omitted the requested group",
                    ),
                },
            );
        }
        i += 1;
    }
    assert(all.take(i as int) =~= all);
}

/// Adding a name makes it, and nothing else, a new member.
proof fn with_name_contains(names: Seq<Seq<char>>, name: Seq<char>, other: Seq<char>)
    ensures
        with_name(names, name).contains(other) == (names.contains(other) || other == name),
{
    let more = with_name(names, name);
    if names.contains(other) {
        let k = choose|k: int| 0 <= k < names.len() && names[k] == other;
        assert(more[k] == other);
    }
    if other == name && !names.contains(name) {
        assert(more[names.len() as int] == other);
    }
    if more.contains(other) && other != name {
        let k = choose|k: int| 0 <= k < more.len() && more[k] == other;
        assert(names[k] == other);
    }
}

/// Reads the answer to a request that describes groups.
pub fn describe_consumer_groups_one_chunk(
    group_ids: &Vec<String>,
    outcome: Result<Option<AdminReply<RawGroup>>, SetupProblem>,
    parse_assignments: bool,
) -> (response: Result<DescribeGroupsResponse, AdminRequestError>)
    ensures
        match (response, answer(DESCRIBE_GROUPS@, DESCRIBE_GROUPS_EVENT, outcome)) {
            (Ok(response), Ok(rows)) => response@ == described(
                views(group_ids@),
                rows,
                parse_assignments,
            ),
            (Err(error), Err(wanted)) => error@ == wanted,
            _ => false,
        },
{
    let rows = match accept(DESCRIBE_GROUPS, DESCRIBE_GROUPS_EVENT, outcome) {
        Ok(rows) => rows,
        Err(error) => {
            return Err(error);
        },
    };
    let ghost f = |row: RawGroup|
        if is_failure(row.error) {
            Seq::empty()
        } else {
            seq![
                DescriptionView {
                    group_id: text_of(row.group_id),
                    state: text_of(row.state),
                    members: members_of(row.members@, parse_assignments),
                },
            ]
        };
    let ghost g = |row: RawGroup|
        if is_failure(row.error) {
            seq![
                FailureView {
                    group_id: text_of(row.group_id),
                    error: group_error(DESCRIBE_GROUPS@, row.error->0),
                },
            ]
        } else {
            Seq::empty()
        };
    let mut descriptions: Vec<BatchedGroupDescription> = Vec::new();
    let mut failures: Vec<GroupRequestFailure> = Vec::new();
    let mut returned = NameSet::new();
    let mut i: usize = 0;
    assert(rows@.take(0) =~= Seq::<RawGroup>::empty());
    while i < rows.len()
        invariant
            i <= rows.len(),
            f == (|row: RawGroup|
                if is_failure(row.error) {
                    Seq::empty()
                } else {
                    seq![
                        DescriptionView {
                            group_id: text_of(row.group_id),
                            state: text_of(row.state),
                            members: members_of(row.members@, parse_assignments),
                        },
                    ]
                }),
            g == (|row: RawGroup|
                if is_failure(row.error) {
                    seq![
                        FailureView {
                            group_id: text_of(row.group_id),
                            error: group_error(DESCRIBE_GROUPS@, row.error->0),
                        },
                    ]
                } else {
                    Seq::empty()
                }),
            views(descriptions@) =~= flat(rows@.take(i as int), f),
            views(failures@) =~= flat(rows@.take(i as int), g),
            forall|group: Seq<char>| #[trigger]
                returned@.contains(group) == describes(rows@.take(i as int), group),
        decreases rows.len() - i,
    {
        proof {
            flat_step(rows@, f, i as int);
            flat_step(rows@, g, i as int);
        }
        let row = &rows[i];
        let ghost names = returned@;
        let group_id = text_or_empty(&row.group_id);
        returned.insert(group_id.as_str());
        proof {
            assert forall|group: Seq<char>| #[trigger]
                returned@.contains(group) == describes(rows@.take(i + 1), group) by {
                with_name_contains(names, group_id@, group);
                assert(names.contains(group) == describes(rows@.take(i as int), group));
                if describes(rows@.take(i as int), group) {
                    let k = choose|k: int|
                        0 <= k < i && text_of((#[trigger] rows@.take(i as int)[k]).group_id)
                            == group;
                    assert(text_of(rows@.take(i + 1)[k].group_id) == group);
                }
                if group == group_id@ {
                    assert(text_of(rows@.take(i + 1)[i as int].group_id) == group);
                }
                if describes(rows@.take(i + 1), group) && group != group_id@ {
                    let k = choose|k: int|
                        0 <= k < i + 1 && text_of((#[trigger] rows@.take(i + 1)[k]).group_id)
                            == group;
                    assert(text_of(rows@.take(i as int)[k].group_id) == group);
                }
            }
        }
        match &row.error {
            Some(e) if e.code != NO_ERROR => {
                failures.push(failure_of(DESCRIBE_GROUPS, group_id, e));
            },
            _ => {
                descriptions.push(
                    BatchedGroupDescription {
                        group_id,
                        state: text_or_empty(&row.state),
                        members: read_members(&row.members, parse_assignments),
                    },
                );
            },
        }
        i += 1;
    }
    assert(rows@.take(i as int) =~= rows@);
    push_omitted(
        &mut failures,
        group_ids,
        &returned,
        DESCRIBE_GROUPS,
        Ghost(|group: Seq<char>| describes(rows@, group)),
    );
    Ok(DescribeGroupsResponse { descriptions, failures })
}

/// The committed offsets of one group.
pub type OffsetMap = OrderMap<TopicPartition, i64>;

/// `offsets` after a row was read: an offset below 0 stands for none.
pub open spec fn with_offset(offsets: Seq<(Tp, i64)>, row: RawOffset) -> Seq<(Tp, i64)> {
    match row.topic {
        Some(topic) if row.offset >= 0 => put(offsets, (topic@, row.partition), row.offset),
        _ => offsets,
    }
}

/// `offsets` after all rows were read.
pub open spec fn with_offsets(offsets: Seq<(Tp, i64)>, rows: Seq<RawOffset>) -> Seq<(Tp, i64)>
    decreases rows.len(),
{
    if rows.len() == 0 {
        offsets
    } else {
        with_offset(with_offsets(offsets, rows.drop_last()), rows.last())
    }
}

/// The committed offsets of the groups that did not fail.
pub open spec fn offsets_by_group(rows: Seq<RawGroupOffsets>) -> Seq<(Seq<char>, Seq<(Tp, i64)>)>
    decreases rows.len(),
{
    if rows.len() == 0 {
        Seq::empty()
    } else {
        let before = offsets_by_group(rows.drop_last());
        if is_failure(rows.last().error) {
            before
        } else {
            put(
                before,
                text_of(rows.last().group_id),
                with_offsets(Seq::empty(), rows.last().partitions@),
            )
        }
    }
}

/// The groups whose committed offsets could not be had.
pub open spec fn offset_failures(rows: Seq<RawGroupOffsets>) -> Seq<FailureView> {
    flat(
        rows,
        |row: RawGroupOffsets|
            if is_failure(row.error) {
                seq![
                    FailureView {
                        group_id: text_of(row.group_id),
                        error: group_error(LIST_GROUP_OFFSETS@, row.error->0),
                    },
                ]
            } else {
                Seq::empty()
            },
    )
}

/// Whether a row is about a group.
pub open spec fn is_about(rows: Seq<RawGroupOffsets>, group: Seq<char>) -> bool {
    exists|i: int| 0 <= i < rows.len() && text_of((#[trigger] rows[i]).group_id) == group
}

/// The committed offsets of some groups, and the groups that failed.
pub struct GroupOffsetsResponse {
    pub offsets: OrderMap<String, OffsetMap>,
    pub failures: Vec<GroupRequestFailure>,
}

/// What a `GroupOffsetsResponse` holds.
#[verifier::ext_equal]
pub struct GroupOffsetsView {
    pub offsets: Seq<(Seq<char>, Seq<(Tp, i64)>)>,
    pub failures: Seq<FailureView>,
}

impl View for GroupOffsetsResponse {
    type V = GroupOffsetsView;

    open spec fn view(&self) -> GroupOffsetsView {
        GroupOffsetsView { offsets: self.offsets@, failures: views(self.failures@) }
    }
}

/// What a complete answer to a request for committed offsets says. A group without offsets is
/// a success; every requested group succeeds or fails, also one that the answer does not name.
pub open spec fn offsets_answered(
    requested: Seq<Seq<char>>,
    rows: Seq<RawGroupOffsets>,
) -> GroupOffsetsView {
    GroupOffsetsView {
        offsets: offsets_by_group(rows),
        failures: offset_failures(rows) + omitted(
            requested,
            |group: Seq<char>| is_about(rows, group),
            LIST_GROUP_OFFSETS@,
        ),
    }
}

/// Reads committed offsets into a map.
fn read_offsets(offsets: &mut OffsetMap, rows: &Vec<RawOffset>)
    ensures
        final(offsets)@ == with_offsets(old(offsets)@, rows@),
{
    let ghost before = offsets@;
    let mut i: usize = 0;
    assert(rows@.take(0) =~= Seq::<RawOffset>::empty());
    while i < rows.len()
        invariant
            i <= rows.len(),
            offsets@ == with_offsets(before, rows@.take(i as int)),
        decreases rows.len() - i,
    {
        assert(rows@.take(i + 1).drop_last() =~= rows@.take(i as int));
        let row = &rows[i];
        if let Some(topic) = &row.topic {
            if row.offset >= 0 {
                offsets.insert(TopicPartition::new(topic.as_str(), row.partition), row.offset);
            }
        }
        i += 1;
    }
    assert(rows@.take(i as int) =~= rows@);
}

/// Reads the answer to a request for groups' committed offsets.
pub fn list_consumer_group_offsets_one_chunk(
    group_ids: &Vec<String>,
    outcome: Result<Option<AdminReply<RawGroupOffsets>>, SetupProblem>,
) -> (response: Result<GroupOffsetsResponse, AdminRequestError>)
    ensures
        match (response, answer(LIST_GROUP_OFFSETS@, LIST_GROUP_OFFSETS_EVENT, outcome)) {
            (Ok(response), Ok(rows)) => response@ == offsets_answered(views(group_ids@), rows),
            (Err(error), Err(wanted)) => error@ == wanted,
            _ => false,
        },
{
    let rows = match accept(LIST_GROUP_OFFSETS, LIST_GROUP_OFFSETS_EVENT, outcome) {
        Ok(rows) => rows,
        Err(error) => {
            return Err(error);
        },
    };
    let ghost g = |row: RawGroupOffsets|
        if is_failure(row.error) {
            seq![
                FailureView {
                    group_id: text_of(row.group_id),
                    error: group_error(LIST_GROUP_OFFSETS@, row.error->0),
                },
            ]
        } else {
            Seq::empty()
        };
    let mut offsets: OrderMap<String, OffsetMap> = OrderMap::new();
    let mut failures: Vec<GroupRequestFailure> = Vec::new();
    let mut returned = NameSet::new();
    let mut i: usize = 0;
    assert(rows@.take(0) =~= Seq::<RawGroupOffsets>::empty());
    while i < rows.len()
        invariant
            i <= rows.len(),
            g == (|row: RawGroupOffsets|
                if is_failure(row.error) {
                    seq![
                        FailureView {
                            group_id: text_of(row.group_id),
                            error: group_error(LIST_GROUP_OFFSETS@, row.error->0),
                        },
                    ]
                } else {
                    Seq::empty()
                }),
            offsets@ == offsets_by_group(rows@.take(i as int)),
            views(failures@) =~= flat(rows@.take(i as int), g),
            forall|group: Seq<char>| #[trigger]
                returned@.contains(group) == is_about(rows@.take(i as int), group),
        decreases rows.len() - i,
    {
        proof {
            flat_step(rows@, g, i as int);
            assert(rows@.take(i + 1).drop_last() =~= rows@.take(i as int));
        }
        let row = &rows[i];
        let ghost names = returned@;
        let group_id = text_or_empty(&row.group_id);
        returned.insert(group_id.as_str());
        proof {
            assert forall|group: Seq<char>| #[trigger]
                returned@.contains(group) == is_about(rows@.take(i + 1), group) by {
                with_name_contains(names, group_id@, group);
                assert(names.contains(group) == is_about(rows@.take(i as int), group));
                if is_about(rows@.take(i as int), group) {
                    let k = choose|k: int|
                        0 <= k < i && text_of((#[trigger] rows@.take(i as int)[k]).group_id)
                            == group;
                    assert(text_of(rows@.take(i + 1)[k].group_id) == group);
                }
                if group == group_id@ {
                    assert(text_of(rows@.take(i + 1)[i as int].group_id) == group);
                }
                if is_about(rows@.take(i + 1), group) && group != group_id@ {
                    let k = choose|k: int|
                        0 <= k < i + 1 && text_of((#[trigger] rows@.take(i + 1)[k]).group_id)
                            == group;
                    assert(text_of(rows@.take(i as int)[k].group_id) == group);
                }
            }
        }
        match &row.error {
            Some(e) if e.code != NO_ERROR => {
                failures.push(failure_of(LIST_GROUP_OFFSETS, group_id, e));
            },
            _ => {
                let mut mine: OffsetMap = OffsetMap::new();
                read_offsets(&mut mine, &row.partitions);
                offsets.insert(group_id, mine);
            },
        }
        i += 1;
    }
    assert(rows@.take(i as int) =~= rows@);
    push_omitted(
        &mut failures,
        group_ids,
        &returned,
        LIST_GROUP_OFFSETS,
        Ghost(|group: Seq<char>| is_about(rows@, group)),
    );
    Ok(GroupOffsetsResponse { offsets, failures })
}

impl GroupOffsetsResponse {
    /// No groups at all.
    pub fn new() -> (response: Self)
        ensures
            response@ == (GroupOffsetsView { offsets: Seq::empty(), failures: Seq::empty() }),
    {
        let response = GroupOffsetsResponse { offsets: OrderMap::new(), failures: Vec::new() };
        assert(response@.failures =~= Seq::empty());
        response
    }

    /// Adds the answer to one more request.
    pub fn add_chunk(&mut self, part: GroupOffsetsResponse)
        ensures
            final(self)@ == (GroupOffsetsView {
                offsets: put_all(old(self)@.offsets, part@.offsets),
                failures: old(self)@.failures + part@.failures,
            }),
    {
        let GroupOffsetsResponse { offsets, failures } = part;
        let ghost before = views(self.failures@);
        let ghost added = views(failures@);
        let mut failures = failures;
        self.offsets.absorb(offsets);
        self.failures.append(&mut failures);
        assert(views(self.failures@) =~= before + added);
    }

    /// The result of a request for a single group: its offsets, be they none, or the failure
    /// that was noted last.
    pub fn into_single_group_result(self) -> (result: Result<
        OrderMap<String, OffsetMap>,
        AdminRequestError,
    >)
        ensures
            match result {
                Ok(offsets) => self@.failures.len() == 0 && offsets@ == self@.offsets,
                Err(error) => self@.failures.len() > 0 && error@ == self@.failures.last().error,
            },
    {
        let GroupOffsetsResponse { offsets, failures } = self;
        let mut failures = failures;
        match failures.pop() {
            Some(failure) => Err(failure.error),
            None => Ok(offsets),
        }
    }
}

impl Default for GroupOffsetsResponse {
    fn default() -> (response: Self)
        ensures
            response@ == (GroupOffsetsView { offsets: Seq::empty(), failures: Seq::empty() }),
    {
        Self::new()
    }
}

/// The offsets of all groups that did not fail, in one map.
pub open spec fn offsets_of_all(rows: Seq<RawGroupOffsets>) -> Seq<(Tp, i64)>
    decreases rows.len(),
{
    if rows.len() == 0 {
        Seq::empty()
    } else {
        let before = offsets_of_all(rows.drop_last());
        if is_failure(rows.last().error) {
            before
        } else {
            with_offsets(before, rows.last().partitions@)
        }
    }
}

/// Reads the committed offsets of all groups that did not fail into one map.
pub(crate) fn read_all_offsets(rows: &Vec<RawGroupOffsets>) -> (offsets: OffsetMap)
    ensures
        offsets@ == offsets_of_all(rows@),
{
    let mut offsets: OffsetMap = OffsetMap::new();
    let mut i: usize = 0;
    assert(rows@.take(0) =~= Seq::<RawGroupOffsets>::empty());
    while i < rows.len()
        invariant
            i <= rows.len(),
            offsets@ == offsets_of_all(rows@.take(i as int)),
        decreases rows.len() - i,
    {
        assert(rows@.take(i + 1).drop_last() =~= rows@.take(i as int));
        match &rows[i].error {
            Some(e) if e.code != NO_ERROR => {},
            _ => {
                read_offsets(&mut offsets, &rows[i].partitions);
            },
        }
        i += 1;
    }
    assert(rows@.take(i as int) =~= rows@);
    offsets
}

/// The listed ends of logs: rows without a partition, with an error or without a topic are
/// left out.
pub open spec fn listed_offsets(rows: Seq<Option<RawListedOffset>>) -> Seq<(Tp, i64)>
    decreases rows.len(),
{
    if rows.len() == 0 {
        Seq::empty()
    } else {
        let before = listed_offsets(rows.drop_last());
        match rows.last() {
            Some(row) if row.error_code == NO_ERROR => match row.topic {
                Some(topic) => put(before, (topic@, row.partition), row.offset),
                None => before,
            },
            _ => before,
        }
    }
}

/// Reads listed ends of logs.
pub(crate) fn read_listed(rows: &Vec<Option<RawListedOffset>>) -> (offsets: OffsetMap)
    ensures
        offsets@ == listed_offsets(rows@),
{
    let mut offsets: OffsetMap = OffsetMap::new();
    let mut i: usize = 0;
    assert(rows@.take(0) =~= Seq::<Option<RawListedOffset>>::empty());
    while i < rows.len()
        invariant
            i <= rows.len(),
            offsets@ == listed_offsets(rows@.take(i as int)),
        decreases rows.len() - i,
    {
        assert(rows@.take(i + 1).drop_last() =~= rows@.take(i as int));
        if let Some(row) = &rows[i] {
            if row.error_code == NO_ERROR {
                if let Some(topic) = &row.topic {
                    offsets.insert(TopicPartition::new(topic.as_str(), row.partition), row.offset);
                }
            }
        }
        i += 1;
    }
    assert(rows@.take(i as int) =~= rows@);
    offsets
}

} // verus!

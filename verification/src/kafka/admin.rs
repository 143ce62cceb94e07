//! Requests to the admin API: what is asked, how the answers are read, and what is asked again.

use crate::collector::offset_collector::MemberView;
use crate::kafka::client::TopicPartition;
use crate::text::{flat, flat_step};
use crate::views::{views, views_push};
use vstd::prelude::*;

verus! {

broadcast use views_push;

/// Which end of a partition's log is asked for.
#[derive(Debug, Clone, Copy, PartialEq, Eq, Structural)]
pub enum OffsetSpec {
    Earliest,
    Latest,
}

impl OffsetSpec {
    /// The offset that stands for this end in a request.
    pub fn as_c_value(self) -> (value: i64)
        ensures
            value == match self {
                OffsetSpec::Earliest => -2i64,
                OffsetSpec::Latest => -1i64,
            },
    {
        match self {
            OffsetSpec::Earliest => -2,
            OffsetSpec::Latest => -1,
        }
    }
}

/// The error code for success.
pub const NO_ERROR: i32 = 0;

/// The broker's connection broke.
pub const ERR_TRANSPORT: i32 = -195;

/// No broker can be reached.
pub const ERR_ALL_BROKERS_DOWN: i32 = -187;

/// The client gave up waiting.
pub const ERR_TIMED_OUT: i32 = -185;

/// The coordinator is not known yet.
pub const ERR_WAIT_COORD: i32 = -180;

/// The client gave up waiting to send.
pub const ERR_TIMED_OUT_QUEUE: i32 = -166;

/// The broker gave up waiting.
pub const ERR_REQUEST_TIMED_OUT: i32 = 7;

/// The broker is not available.
pub const ERR_BROKER_NOT_AVAILABLE: i32 = 8;

/// The broker was disconnected.
pub const ERR_NETWORK_EXCEPTION: i32 = 13;

/// The coordinator is loading.
pub const ERR_COORDINATOR_LOAD_IN_PROGRESS: i32 = 14;

/// The coordinator is not available.
pub const ERR_COORDINATOR_NOT_AVAILABLE: i32 = 15;

/// The broker is not the coordinator.
pub const ERR_NOT_COORDINATOR: i32 = 16;

/// Whether an error code stands for a failure that may go away by itself.
pub open spec fn transient_code(code: i32) -> bool {
    ||| code == ERR_TRANSPORT
    ||| code == ERR_ALL_BROKERS_DOWN
    ||| code == ERR_TIMED_OUT
    ||| code == ERR_TIMED_OUT_QUEUE
    ||| code == ERR_WAIT_COORD
    ||| code == ERR_REQUEST_TIMED_OUT
    ||| code == ERR_BROKER_NOT_AVAILABLE
    ||| code == ERR_NETWORK_EXCEPTION
    ||| code == ERR_COORDINATOR_LOAD_IN_PROGRESS
    ||| code == ERR_COORDINATOR_NOT_AVAILABLE
    ||| code == ERR_NOT_COORDINATOR
}

/// Whether an error code stands for a failure that may go away by itself. Every code that is
/// not on the list counts as lasting.
pub fn is_retriable_admin_code(code: i32) -> (retriable: bool)
    ensures
        retriable == transient_code(code),
{
    code == ERR_TRANSPORT || code == ERR_ALL_BROKERS_DOWN || code == ERR_TIMED_OUT || code
        == ERR_TIMED_OUT_QUEUE || code == ERR_WAIT_COORD || code == ERR_REQUEST_TIMED_OUT || code
        == ERR_BROKER_NOT_AVAILABLE || code == ERR_NETWORK_EXCEPTION || code
        == ERR_COORDINATOR_LOAD_IN_PROGRESS || code == ERR_COORDINATOR_NOT_AVAILABLE || code
        == ERR_NOT_COORDINATOR
}

/// A failed admin request.
#[derive(Debug)]
pub struct AdminRequestError {
    pub operation: &'static str,
    pub code: Option<i32>,
    pub message: String,
    pub retriable: bool,
}

/// What an `AdminRequestError` holds.
#[verifier::ext_equal]
pub struct AdminErrorView {
    pub operation: Seq<char>,
    pub code: Option<i32>,
    pub message: Seq<char>,
    pub retriable: bool,
}

impl View for AdminRequestError {
    type V = AdminErrorView;

    open spec fn view(&self) -> AdminErrorView {
        AdminErrorView {
            operation: self.operation@,
            code: self.code,
            message: self.message@,
            retriable: self.retriable,
        }
    }
}

/// An error with a code, or without one; only a code can make it retriable.
pub open spec fn request_error(
    operation: Seq<char>,
    code: Option<i32>,
    message: Seq<char>,
) -> AdminErrorView {
    AdminErrorView {
        operation,
        code,
        message,
        retriable: code matches Some(c) && transient_code(c),
    }
}

impl AdminRequestError {
    /// An error with a code, or without one.
    pub fn new(operation: &'static str, code: Option<i32>, message: &str) -> (error: Self)
        ensures
            error@ == request_error(operation@, code, message@),
    {
        let retriable = match code {
            Some(c) => is_retriable_admin_code(c),
            None => false,
        };
        AdminRequestError { operation, code, message: message.to_owned(), retriable }
    }

    /// An error that a broker gave for one group. It is retriable where its code is, and also
    /// where the client library says so itself.
    pub fn from_group_error(
        operation: &'static str,
        code: i32,
        message: &str,
        native_retriable: bool,
    ) -> (error: Self)
        ensures
            error@ == (AdminErrorView {
                retriable: transient_code(code) || native_retriable,
                ..request_error(operation@, Some(code), message@)
            }),
    {
        let mut error = Self::new(operation, Some(code), message);
        if native_retriable {
            error.retriable = true;
        }
        error
    }

    /// An error of the exporter's own making; it is never retriable.
    pub fn task(operation: &'static str, message: &str) -> (error: Self)
        ensures
            error@ == request_error(operation@, None, message@),
    {
        Self::new(operation, None, message)
    }

    /// Whether the request may be tried again.
    pub fn is_retriable(&self) -> (retriable: bool)
        ensures
            retriable == self@.retriable,
    {
        self.retriable
    }

    /// A second error that says the same.
    pub fn duplicate(&self) -> (copy: Self)
        ensures
            copy@ == self@,
    {
        AdminRequestError {
            operation: self.operation,
            code: self.code,
            message: self.message.clone(),
            retriable: self.retriable,
        }
    }

    /// The error in words. A code is shown by its name.
    pub fn text(&self, code_name: &str) -> (text: String)
        ensures
            text@ == self@.operation + ": "@ + self@.message + (if self@.code is Some {
                " ("@ + code_name@ + ")"@
            } else {
                Seq::empty()
            }),
    {
        let mut text = self.operation.to_owned();
        text.append(": ");
        text.append(self.message.as_str());
        if self.code.is_some() {
            text.append(" (");
            text.append(code_name);
            text.append(")");
        }
        assert(text@ =~= self@.operation + ": "@ + self@.message + (if self@.code is Some {
            " ("@ + code_name@ + ")"@
        } else {
            Seq::empty()
        }));
        text
    }
}

/// A group whose request failed.
#[derive(Debug)]
pub struct GroupRequestFailure {
    pub group_id: String,
    pub error: AdminRequestError,
}

/// What a `GroupRequestFailure` holds.
#[verifier::ext_equal]
pub struct FailureView {
    pub group_id: Seq<char>,
    pub error: AdminErrorView,
}

impl View for GroupRequestFailure {
    type V = FailureView;

    open spec fn view(&self) -> FailureView {
        FailureView { group_id: self.group_id@, error: self.error@ }
    }
}

/// A member of a described group.
#[derive(Debug, Clone)]
pub struct BatchedMember {
    pub member_id: String,
    pub client_id: String,
    pub client_host: String,
    pub assignments: Vec<TopicPartition>,
}

impl View for BatchedMember {
    type V = MemberView;

    open spec fn view(&self) -> MemberView {
        MemberView {
            member_id: self.member_id@,
            client_id: self.client_id@,
            client_host: self.client_host@,
            assignments: views(self.assignments@),
        }
    }
}

/// A described group.
#[derive(Debug, Clone)]
pub struct BatchedGroupDescription {
    pub group_id: String,
    pub state: String,
    pub members: Vec<BatchedMember>,
}

/// What a `BatchedGroupDescription` holds.
#[verifier::ext_equal]
pub struct DescriptionView {
    pub group_id: Seq<char>,
    pub state: Seq<char>,
    pub members: Seq<MemberView>,
}

impl View for BatchedGroupDescription {
    type V = DescriptionView;

    open spec fn view(&self) -> DescriptionView {
        DescriptionView {
            group_id: self.group_id@,
            state: self.state@,
            members: views(self.members@),
        }
    }
}

/// What the request for a set of groups gave: descriptions, and failures per group.
#[derive(Debug)]
pub struct DescribeGroupsResponse {
    pub descriptions: Vec<BatchedGroupDescription>,
    pub failures: Vec<GroupRequestFailure>,
}

/// What a `DescribeGroupsResponse` holds.
#[verifier::ext_equal]
pub struct DescribeView {
    pub descriptions: Seq<DescriptionView>,
    pub failures: Seq<FailureView>,
}

impl View for DescribeGroupsResponse {
    type V = DescribeView;

    open spec fn view(&self) -> DescribeView {
        DescribeView {
            descriptions: views(self.descriptions@),
            failures: views(self.failures@),
        }
    }
}

/// A response, split into what is done and what is asked again.
pub struct DescribeRetryPartition {
    pub descriptions: Vec<BatchedGroupDescription>,
    pub retryable_group_ids: Vec<String>,
    pub terminal_failures: Vec<GroupRequestFailure>,
}

/// The groups that are asked again.
pub open spec fn asked_again(failures: Seq<FailureView>, can_retry: bool) -> Seq<Seq<char>> {
    flat(
        failures,
        |f: FailureView|
            if can_retry && f.error.retriable {
                seq![f.group_id]
            } else {
                Seq::empty()
            },
    )
}

/// The failures that stand.
pub open spec fn standing(failures: Seq<FailureView>, can_retry: bool) -> Seq<FailureView> {
    flat(
        failures,
        |f: FailureView|
            if can_retry && f.error.retriable {
                Seq::empty()
            } else {
                seq![f]
            },
    )
}

impl DescribeGroupsResponse {
    /// A request that failed for all of its groups.
    pub fn failed(group_ids: Vec<String>, error: AdminRequestError) -> (response: Self)
        ensures
            response@ == (DescribeView {
                descriptions: Seq::empty(),
                failures: Seq::new(
                    group_ids@.len(),
                    |i: int| FailureView { group_id: group_ids@[i]@, error: error@ },
                ),
            }),
    {
        let ghost wanted = Seq::new(
            group_ids@.len(),
            |i: int| FailureView { group_id: group_ids@[i]@, error: error@ },
        );
        let mut failures: Vec<GroupRequestFailure> = Vec::new();
        let mut i: usize = 0;
        while i < group_ids.len()
            invariant
                i <= group_ids.len(),
                wanted == Seq::new(
                    group_ids@.len(),
                    |i: int| FailureView { group_id: group_ids@[i]@, error: error@ },
                ),
                views(failures@) =~= wanted.take(i as int),
            decreases group_ids.len() - i,
        {
            failures.push(
                GroupRequestFailure { group_id: group_ids[i].clone(), error: error.duplicate() },
            );
            i += 1;
        }
        let response = DescribeGroupsResponse { descriptions: Vec::new(), failures };
        assert(response@.descriptions =~= Seq::empty());
        assert(response@.failures =~= wanted);
        response
    }

    /// Splits the failures: while there may be another round, the retriable ones are asked
    /// again; all others stand.
    pub fn partition_for_retry(self, can_retry: bool) -> (split: DescribeRetryPartition)
        ensures
            split.descriptions == self.descriptions,
            views(split.retryable_group_ids@) == asked_again(self@.failures, can_retry),
            views(split.terminal_failures@) == standing(self@.failures, can_retry),
    {
        let ghost all = self@.failures;
        let ghost again = |f: FailureView|
            if can_retry && f.error.retriable {
                seq![f.group_id]
            } else {
                Seq::empty()
            };
        let ghost stand = |f: FailureView|
            if can_retry && f.error.retriable {
                Seq::empty()
            } else {
                seq![f]
            };
        let ghost source = self.failures@;
        let mut retryable_group_ids: Vec<String> = Vec::new();
        let mut terminal_failures: Vec<GroupRequestFailure> = Vec::new();
        assert(all.take(0) =~= Seq::<FailureView>::empty());
        for failure in it: self.failures.into_iter()
            invariant
                it.seq() == source,
                all == views(source),
                again == (|f: FailureView|
                    if can_retry && f.error.retriable {
                        seq![f.group_id]
                    } else {
                        Seq::empty()
                    }),
                stand == (|f: FailureView|
                    if can_retry && f.error.retriable {
                        Seq::empty()
                    } else {
                        seq![f]
                    }),
                views(retryable_group_ids@) =~= flat(all.take(it.index()), again),
                views(terminal_failures@) =~= flat(all.take(it.index()), stand),
        {
            proof {
                assert(failure == source[it.index()]);
                flat_step(all, again, it.index());
                flat_step(all, stand, it.index());
            }
            if can_retry && failure.error.is_retriable() {
                retryable_group_ids.push(failure.group_id);
            } else {
                terminal_failures.push(failure);
            }
        }
        assert(all.take(all.len() as int) =~= all);
        DescribeRetryPartition {
            descriptions: self.descriptions,
            retryable_group_ids,
            terminal_failures,
        }
    }
}

} // verus!

//! What is asked of the admin API, in which portions, and what is asked again.

use crate::collector::offset_collector::Tp;
use crate::kafka::admin::{
    asked_again, request_error, standing, AdminErrorView, AdminRequestError,
    BatchedGroupDescription, DescribeGroupsResponse, DescribeView, DescriptionView, FailureView,
    GroupRequestFailure, NO_ERROR,
};
use crate::kafka::client::TopicPartition;
use crate::kafka::replies::{
    listed_offsets, offsets_of_all, read_all_offsets, read_listed, AdminReply, OffsetMap,
    RawGroupOffsets, RawListedOffset, DESCRIBE_GROUPS, LIST_GROUP_OFFSETS_EVENT,
    LIST_OFFSETS_EVENT,
};
use crate::keymap::{put_all, with_name, OrderMap};
use crate::retry::attempts_allowed;
use crate::text::{
    bytes_text, decimal, flat, flat_step, lossy_text, same_text, signed_text, unsigned_text,
};
use crate::views::{views, views_push};
use std::sync::Arc;
use vstd::prelude::*;
use vstd::slice::slice_subrange;
use vstd::utf8::encode_utf8;

verus! {

broadcast use views_push;

/// A request's timeout: the given milliseconds, as far as the field can hold them.
pub fn request_timeout_ms(millis: u64) -> (timeout: i32)
    ensures
        timeout == if millis <= i32::MAX {
            millis as i32
        } else {
            i32::MAX
        },
{
    if millis <= i32::MAX as u64 {
        millis as i32
    } else {
        i32::MAX
    }
}

/// Where the first zero byte of some bytes stands.
pub open spec fn first_zero(bytes: Seq<u8>, i: int) -> bool {
    &&& 0 <= i < bytes.len()
    &&& bytes[i] == 0
    &&& forall|k: int| 0 <= k < i ==> #[trigger] bytes[k] != 0
}

/// How a zero byte is reported.
pub open spec fn zero_text(i: int) -> Seq<char> {
    "nul byte found in provided data at position: "@ + decimal(i)
}

/// Finds the first zero byte.
fn find_zero(bytes: &[u8]) -> (found: Option<usize>)
    ensures
        match found {
            Some(i) => first_zero(bytes@, i as int),
            None => !bytes@.contains(0),
        },
{
    let mut i: usize = 0;
    while i < bytes.len()
        invariant
            i <= bytes.len(),
            forall|k: int| 0 <= k < i ==> #[trigger] bytes@[k] != 0,
        decreases bytes.len() - i,
    {
        if bytes[i] == 0 {
            return Some(i);
        }
        i += 1;
    }
    None
}

/// The bytes of a text that is handed to the client library, which ends a text at a zero byte;
/// a text that holds one is refused.
pub fn cstring_or_err(s: &str) -> (bytes: Result<Vec<u8>, String>)
    ensures
        match bytes {
            Ok(bytes) => bytes@ == encode_utf8(s@) && !bytes@.contains(0),
            Err(text) => exists|i: int| #[trigger]
                first_zero(encode_utf8(s@), i) && text@ == "Invalid C string '"@ + s@ + "': "@
                    + zero_text(i),
        },
{
    let bytes = s.as_bytes();
    match find_zero(bytes) {
        None => Ok(s.as_bytes_vec()),
        Some(i) => {
            let mut text = "Invalid C string '".to_owned();
            text.append(s);
            text.append("': ");
            let mut reason = "nul byte found in provided data at position: ".to_owned();
            reason.append(unsigned_text(i as u64).as_str());
            text.append(reason.as_str());
            assert(first_zero(encode_utf8(s@), i as int));
            Err(text)
        },
    }
}

/// The text in a buffer, which ends at its first zero byte.
pub fn errstr_to_string(buf: &[u8]) -> (text: String)
    requires
        buf@.contains(0),
    ensures
        exists|i: int| #[trigger] first_zero(buf@, i) && text@ == bytes_text(buf@.take(i)),
{
    match find_zero(buf) {
        Some(i) => {
            let text = lossy_text(slice_subrange(buf, 0, i));
            assert(buf@.subrange(0, i as int) =~= buf@.take(i as int));
            assert(first_zero(buf@, i as int));
            text
        },
        None => String::new(),
    }
}

/// Topic names, each kept once, so that equal names share their storage.
pub struct TopicInterner {
    names: Vec<Arc<String>>,
}

impl View for TopicInterner {
    type V = Seq<Seq<char>>;

    closed spec fn view(&self) -> Seq<Seq<char>> {
        Seq::new(self.names@.len(), |i: int| self.names@[i]@)
    }
}

impl TopicInterner {
    /// No names yet.
    pub fn new() -> (interner: Self)
        ensures
            interner@ == Seq::<Seq<char>>::empty(),
    {
        let interner = TopicInterner { names: Vec::new() };
        assert(interner@ =~= Seq::<Seq<char>>::empty());
        interner
    }

    /// The shared form of a name. It is stored where it is new.
    pub fn intern(&mut self, topic: &str) -> (name: Arc<String>)
        ensures
            name@ == topic@,
            final(self)@ == with_name(old(self)@, topic@),
    {
        let mut i: usize = 0;
        while i < self.names.len()
            invariant
                i <= self.names.len(),
                self@ == old(self)@,
                self@.len() == self.names@.len(),
                forall|k: int| 0 <= k < i ==> #[trigger] self@[k] != topic@,
            decreases self.names.len() - i,
        {
            if same_text(self.names[i].as_str(), topic) {
                assert(self@[i as int] == topic@);
                return Arc::clone(&self.names[i]);
            }
            i += 1;
        }
        let name = Arc::new(topic.to_owned());
        let ghost before = self@;
        self.names.push(Arc::clone(&name));
        assert(self@ =~= before.push(topic@));
        name
    }
}

impl Default for TopicInterner {
    fn default() -> (interner: Self)
        ensures
            interner@ == Seq::<Seq<char>>::empty(),
    {
        Self::new()
    }
}

/// What kept a request from being sent, where only words are reported.
#[derive(Debug)]
pub enum PlainProblem {
    NoPartitionList,
    /// The group's name holds a zero byte, in the words of the report.
    BadGroupId(String),
    /// A topic's name holds a zero byte, in the words of the report.
    BadTopic(String),
    PartitionRefused,
    NoRequest,
    NoOptions,
    TimeoutRefused(String),
    NoQueue,
}

/// The words for a request that was never sent: `mark` tells which request it was.
pub open spec fn problem_text(problem: PlainProblem, mark: Seq<char>) -> Seq<char> {
    match problem {
        PlainProblem::NoPartitionList => "Failed to create topic partition list"@,
        PlainProblem::BadGroupId(text) => text@,
        PlainProblem::BadTopic(text) => text@,
        PlainProblem::PartitionRefused => "Failed to add partition to ListOffsets request"@,
        PlainProblem::NoRequest => "Failed to create ListConsumerGroupOffsets request"@,
        PlainProblem::NoOptions => "Failed to create AdminOptions"@ + mark,
        PlainProblem::TimeoutRefused(text) => "Failed to set request timeout"@ + mark + ": "@
            + text@,
        PlainProblem::NoQueue => "Failed to create queue"@ + mark,
    }
}

/// The words for a request that was never sent.
fn describe_problem(problem: PlainProblem, mark: &str) -> (text: String)
    ensures
        text@ == problem_text(problem, mark@),
{
    match problem {
        PlainProblem::NoPartitionList => "Failed to create topic partition list".to_owned(),
        PlainProblem::BadGroupId(text) => text,
        PlainProblem::BadTopic(text) => text,
        PlainProblem::PartitionRefused => "Failed to add partition to ListOffsets request".to_owned(),
        PlainProblem::NoRequest => "Failed to create ListConsumerGroupOffsets request".to_owned(),
        PlainProblem::NoOptions => {
            let mut text = "Failed to create AdminOptions".to_owned();
            text.append(mark);
            text
        },
        PlainProblem::TimeoutRefused(reason) => {
            let mut text = "Failed to set request timeout".to_owned();
            text.append(mark);
            text.append(": ");
            text.append(reason.as_str());
            text
        },
        PlainProblem::NoQueue => {
            let mut text = "Failed to create queue".to_owned();
            text.append(mark);
            text
        },
    }
}

/// What a request's answer says: rows, or in words why there are none. `name` is the request's
/// name; `mark` stands in the reports that do not name it otherwise.
pub open spec fn plain_answer<R>(
    name: Seq<char>,
    mark: Seq<char>,
    expected_type: i32,
    outcome: Result<Option<AdminReply<R>>, PlainProblem>,
) -> Result<Seq<R>, Seq<char>> {
    match outcome {
        Err(problem) => Err(problem_text(problem, mark)),
        Ok(None) => Err(name + " timed out"@),
        Ok(Some(reply)) => if reply.event_type != expected_type {
            Err("Unexpected event type"@ + mark + ": "@ + decimal(reply.event_type as int))
        } else if reply.error_code != NO_ERROR {
            Err(
                name + " failed: "@ + (match reply.error_text {
                    Some(text) => text@,
                    None => "unknown error"@,
                }),
            )
        } else {
            match reply.rows {
                Some(rows) => Ok(rows@),
                None => Err(name + " result is null"@),
            }
        },
    }
}

/// Takes the rows out of a request's answer.
fn accept_plain<R>(
    name: &str,
    mark: &str,
    expected_type: i32,
    outcome: Result<Option<AdminReply<R>>, PlainProblem>,
) -> (rows: Result<Vec<R>, String>)
    ensures
        match (rows, plain_answer(name@, mark@, expected_type, outcome)) {
            (Ok(rows), Ok(wanted)) => rows@ == wanted,
            (Err(text), Err(wanted)) => text@ == wanted,
            _ => false,
        },
{
    let reply = match outcome {
        Err(problem) => {
            return Err(describe_problem(problem, mark));
        },
        Ok(None) => {
            let mut text = name.to_owned();
            text.append(" timed out");
            return Err(text);
        },
        Ok(Some(reply)) => reply,
    };
    if reply.event_type != expected_type {
        let mut text = "Unexpected event type".to_owned();
        text.append(mark);
        text.append(": ");
        text.append(signed_text(reply.event_type as i64).as_str());
        return Err(text);
    }
    if reply.error_code != NO_ERROR {
        let mut text = name.to_owned();
        text.append(" failed: ");
        match &reply.error_text {
            Some(reason) => {
                text.append(reason.as_str());
            },
            None => {
                text.append("unknown error");
            },
        }
        return Err(text);
    }
    match reply.rows {
        Some(rows) => Ok(rows),
        None => {
            let mut text = name.to_owned();
            text.append(" result is null");
            Err(text)
        },
    }
}

/// Reads the answer to a request for one end of some partitions' logs. A partition whose row
/// holds an error is left out; an error of the whole request is reported.
pub fn list_offsets_batched(
    outcome: Result<Option<AdminReply<Option<RawListedOffset>>>, PlainProblem>,
) -> (offsets: Result<OffsetMap, String>)
    ensures
        match (offsets, plain_answer("ListOffsets"@, " (ListOffsets)"@, LIST_OFFSETS_EVENT, outcome)) {
            (Ok(offsets), Ok(rows)) => offsets@ == listed_offsets(rows),
            (Err(text), Err(wanted)) => text@ == wanted,
            _ => false,
        },
{
    match accept_plain("ListOffsets", " (ListOffsets)", LIST_OFFSETS_EVENT, outcome) {
        Ok(rows) => Ok(read_listed(&rows)),
        Err(text) => Err(text),
    }
}

/// Whether the ends of partitions' logs have to be asked for: not where there are no partitions.
pub fn offsets_due(partitions: &[TopicPartition]) -> (due: bool)
    ensures
        due == (partitions@.len() > 0),
{
    partitions.len() > 0
}

/// One end of the logs of partitions, given how the request for them ended where one was due.
/// Without partitions there is nothing to know, whatever an answer would say.
pub fn list_offsets_if_due(
    partitions: &[TopicPartition],
    outcome: Option<Result<Option<AdminReply<Option<RawListedOffset>>>, PlainProblem>>,
) -> (offsets: Result<OffsetMap, String>)
    requires
        partitions@.len() > 0 ==> outcome is Some,
    ensures
        if partitions@.len() == 0 {
            offsets matches Ok(offsets) && offsets@ == Seq::<(Tp, i64)>::empty()
        } else {
            match (
                offsets,
                plain_answer(
                    "ListOffsets"@,
                    " (ListOffsets)"@,
                    LIST_OFFSETS_EVENT,
                    outcome->0,
                ),
            ) {
                (Ok(offsets), Ok(rows)) => offsets@ == listed_offsets(rows),
                (Err(text), Err(wanted)) => text@ == wanted,
                _ => false,
            }
        },
{
    if !offsets_due(partitions) {
        return Ok(OffsetMap::new());
    }
    match outcome {
        Some(outcome) => list_offsets_batched(outcome),
        None => Ok(OffsetMap::new()),
    }
}

/// Reads the answer to a request for one group's committed offsets on given partitions.
pub fn list_consumer_group_offsets(
    outcome: Result<Option<AdminReply<RawGroupOffsets>>, PlainProblem>,
) -> (offsets: Result<OffsetMap, String>)
    ensures
        match (offsets, plain_answer(
            "ListConsumerGroupOffsets"@,
            ""@,
            LIST_GROUP_OFFSETS_EVENT,
            outcome,
        )) {
            (Ok(offsets), Ok(rows)) => offsets@ == offsets_of_all(rows),
            (Err(text), Err(wanted)) => text@ == wanted,
            _ => false,
        },
{
    match accept_plain("ListConsumerGroupOffsets", "", LIST_GROUP_OFFSETS_EVENT, outcome) {
        Ok(rows) => Ok(read_all_offsets(&rows)),
        Err(text) => Err(text),
    }
}

/// The names in portions of `size`; the last one may be smaller.
pub open spec fn portions(names: Seq<Seq<char>>, size: nat) -> Seq<Seq<Seq<char>>>
    decreases names.len(),
{
    if names.len() == 0 || size == 0 {
        Seq::empty()
    } else if names.len() <= size {
        seq![names]
    } else {
        seq![names.take(size as int)] + portions(names.skip(size as int), size)
    }
}

/// The views of the elements of the elements.
pub open spec fn deep_views(lists: Seq<Vec<String>>) -> Seq<Seq<Seq<char>>> {
    Seq::new(lists.len(), |i: int| views(lists[i]@))
}

/// Splits names into portions. A size of 0 counts as 1.
pub fn chunks_of(names: &Vec<String>, size: usize) -> (chunks: Vec<Vec<String>>)
    ensures
        deep_views(chunks@) == portions(
            views(names@),
            if size == 0 {
                1
            } else {
                size as nat
            },
        ),
{
    let size: usize = if size == 0 {
        1
    } else {
        size
    };
    let ghost all = views(names@);
    let ghost wanted = portions(all, size as nat);
    let mut chunks: Vec<Vec<String>> = Vec::new();
    let mut pos: usize = 0;
    assert(all.skip(0) =~= all);
    assert(deep_views(chunks@) + portions(all.skip(0), size as nat) =~= wanted);
    while pos < names.len()
        invariant
            size > 0,
            all == views(names@),
            pos <= names.len(),
            deep_views(chunks@) + portions(all.skip(pos as int), size as nat) == wanted,
        decreases names.len() - pos,
    {
        let end: usize = if names.len() - pos <= size {
            names.len()
        } else {
            pos + size
        };
        let ghost rest = all.skip(pos as int);
        let mut chunk: Vec<String> = Vec::new();
        let mut i: usize = pos;
        while i < end
            invariant
                all == views(names@),
                pos <= i <= end <= names.len(),
                views(chunk@) =~= all.subrange(pos as int, i as int),
            decreases end - i,
        {
            chunk.push(names[i].clone());
            i += 1;
        }
        let ghost before = deep_views(chunks@);
        let ghost piece = views(chunk@);
        chunks.push(chunk);
        assert(deep_views(chunks@) =~= before.push(piece));
        proof {
            let next = all.skip(end as int);
            if rest.len() <= size {
                assert(piece =~= rest);
                assert(next =~= Seq::<Seq<char>>::empty());
            } else {
                assert(piece =~= rest.take(size as int));
                assert(rest.skip(size as int) =~= next);
            }
            assert(before.push(piece) + portions(next, size as nat) =~= before + portions(
                rest,
                size as nat,
            ));
        }
        pos = end;
    }
    assert(all.skip(pos as int) =~= Seq::<Seq<char>>::empty());
    assert(deep_views(chunks@) =~= wanted);
    chunks
}

/// Portions lose nothing, repeat nothing, keep the order, and none is empty or too large; all but
/// the last are as large as they may be.
pub proof fn portions_cover(names: Seq<Seq<char>>, size: nat)
    requires
        size > 0,
    ensures
        flat(portions(names, size), |p: Seq<Seq<char>>| p) == names,
        forall|i: int|
            0 <= i < portions(names, size).len() ==> 0 < (#[trigger] portions(names, size)[i]).len()
                <= size,
        forall|i: int|
            0 <= i < portions(names, size).len() - 1 ==> (
            #[trigger] portions(names, size)[i]).len() == size,
    decreases names.len(),
{
    let f = |p: Seq<Seq<char>>| p;
    let all = portions(names, size);
    if names.len() == 0 {
        assert(flat(all, f) =~= names);
    } else if names.len() <= size {
        assert(all.drop_last() =~= Seq::<Seq<Seq<char>>>::empty());
        assert(flat(all.drop_last(), f) =~= Seq::<Seq<char>>::empty());
        assert(flat(all, f) =~= names);
    } else {
        let head = names.take(size as int);
        let rest = names.skip(size as int);
        portions_cover(rest, size);
        prepend_flat(head, portions(rest, size), f);
        assert(flat(all, f) =~= head + rest);
        assert(names =~= head + rest);
        assert forall|i: int| 0 <= i < all.len() implies 0 < (#[trigger] all[i]).len() <= size by {
            if i > 0 {
                assert(all[i] == portions(rest, size)[i - 1]);
            }
        }
        assert forall|i: int| 0 <= i < all.len() - 1 implies (#[trigger] all[i]).len() == size by {
            if i > 0 {
                assert(all[i] == portions(rest, size)[i - 1]);
            }
        }
    }
}

proof fn prepend_flat<A, B>(a: A, s: Seq<A>, f: spec_fn(A) -> Seq<B>)
    ensures
        flat(seq![a] + s, f) == f(a) + flat(s, f),
    decreases s.len(),
{
    let whole = seq![a] + s;
    if s.len() == 0 {
        assert(whole.drop_last() =~= Seq::<A>::empty());
        assert(flat(whole.drop_last(), f) =~= Seq::<B>::empty());
        assert(flat(whole, f) =~= f(a) + flat(s, f));
    } else {
        assert(whole.drop_last() =~= seq![a] + s.drop_last());
        prepend_flat(a, s.drop_last(), f);
        assert(flat(whole, f) =~= f(a) + flat(s, f));
    }
}

/// How a blocking task can end without a result.
#[derive(Debug, Clone, Copy, PartialEq, Eq, Structural)]
pub enum TaskEnd {
    Cancelled,
    Panicked,
    Failed,
}

/// The word for a task's end.
pub open spec fn task_end_word(end: TaskEnd) -> Seq<char> {
    match end {
        TaskEnd::Cancelled => "cancelled"@,
        TaskEnd::Panicked => "panicked"@,
        TaskEnd::Failed => "failed"@,
    }
}

/// How the request for one portion of groups ended.
#[derive(Debug)]
pub enum ChunkResult {
    Answered(DescribeGroupsResponse),
    Refused(AdminRequestError),
    TaskEnded { end: TaskEnd, text: String },
}

/// What the request for one portion of groups gave.
pub open spec fn chunk_view(requested: Seq<Seq<char>>, result: ChunkResult) -> DescribeView {
    let failed = |error: AdminErrorView|
        DescribeView {
            descriptions: Seq::empty(),
            failures: Seq::new(
                requested.len(),
                |i: int| FailureView { group_id: requested[i], error },
            ),
        };
    match result {
        ChunkResult::Answered(response) => response@,
        ChunkResult::Refused(error) => failed(error@),
        ChunkResult::TaskEnded { end, text } => failed(
            request_error(
                DESCRIBE_GROUPS@,
                None,
                "blocking task "@ + task_end_word(end) + ": "@ + text@,
            ),
        ),
    }
}

/// Turns the end of a request into a response.
fn response_of(requested: Vec<String>, result: ChunkResult) -> (response: DescribeGroupsResponse)
    ensures
        response@ == chunk_view(views(requested@), result),
{
    let ghost names = views(requested@);
    match result {
        ChunkResult::Answered(response) => response,
        ChunkResult::Refused(error) => {
            let response = DescribeGroupsResponse::failed(requested, error);
            assert(response@.failures =~= chunk_view(names, result).failures);
            response
        },
        ChunkResult::TaskEnded { end, text } => {
            let mut message = "blocking task ".to_owned();
            message.append(
                match end {
                    TaskEnd::Cancelled => "cancelled",
                    TaskEnd::Panicked => "panicked",
                    TaskEnd::Failed => "failed",
                },
            );
            message.append(": ");
            message.append(text.as_str());
            let error = AdminRequestError::task(DESCRIBE_GROUPS, message.as_str());
            let response = DescribeGroupsResponse::failed(requested, error);
            assert(response@.failures =~= chunk_view(names, result).failures);
            response
        },
    }
}

/// The rounds in which groups are described: each round asks for the groups that failed in the
/// one before, as long as their errors may go away and rounds are left.
pub struct DescribeRounds {
    out: Vec<BatchedGroupDescription>,
    pending: Vec<String>,
    attempt: usize,
    max_attempts: usize,
}

/// What a `DescribeRounds` holds.
#[verifier::ext_equal]
pub struct RoundsView {
    /// The groups that were described so far.
    pub out: Seq<DescriptionView>,
    /// The groups that the round asks for.
    pub pending: Seq<Seq<char>>,
    /// The number of the round, from 1 on.
    pub attempt: usize,
    pub max_attempts: usize,
}

impl View for DescribeRounds {
    type V = RoundsView;

    closed spec fn view(&self) -> RoundsView {
        RoundsView {
            out: views(self.out@),
            pending: views(self.pending@),
            attempt: self.attempt,
            max_attempts: self.max_attempts,
        }
    }
}

/// What follows a round.
pub struct RoundEnd {
    /// The retry to wait for before the next round; nothing where there is no next round.
    pub retry_number: Option<usize>,
    /// The failures of this round that stand.
    pub failures: Vec<GroupRequestFailure>,
}

/// The groups that a round leaves to ask again.
pub open spec fn round_pending(responses: Seq<DescribeView>, can_retry: bool) -> Seq<Seq<char>> {
    flat(responses, |r: DescribeView| asked_again(r.failures, can_retry))
}

/// The failures of a round that stand.
pub open spec fn round_failures(responses: Seq<DescribeView>, can_retry: bool) -> Seq<FailureView> {
    flat(responses, |r: DescribeView| standing(r.failures, can_retry))
}

/// The groups that a round described.
pub open spec fn round_descriptions(responses: Seq<DescribeView>) -> Seq<DescriptionView> {
    flat(responses, |r: DescribeView| r.descriptions)
}

/// What the requests of a round gave.
pub open spec fn round_responses(results: Seq<(Vec<String>, ChunkResult)>) -> Seq<DescribeView> {
    Seq::new(results.len(), |i: int| chunk_view(views(results[i].0@), results[i].1))
}

impl DescribeRounds {
    /// Whether the round is allowed.
    pub open spec fn well_formed(&self) -> bool {
        1 <= self@.attempt <= self@.max_attempts
    }

    /// Before the first round.
    pub fn new(group_ids: Vec<String>, max_retries: usize) -> (rounds: Self)
        ensures
            rounds.well_formed(),
            rounds@ == (RoundsView {
                out: Seq::empty(),
                pending: views(group_ids@),
                attempt: 1,
                max_attempts: attempts_allowed(max_retries),
            }),
    {
        let rounds = DescribeRounds {
            out: Vec::new(),
            pending: group_ids,
            attempt: 1,
            max_attempts: max_retries.saturating_add(1),
        };
        assert(rounds@.out =~= Seq::empty());
        rounds
    }

    /// The portions that the round asks for.
    pub fn chunks(&self, chunk_size: usize) -> (chunks: Vec<Vec<String>>)
        ensures
            deep_views(chunks@) == portions(
                self@.pending,
                if chunk_size == 0 {
                    1
                } else {
                    chunk_size as nat
                },
            ),
    {
        chunks_of(&self.pending, chunk_size)
    }

    /// Takes in what the requests of the round gave, and says what follows.
    pub fn finish_round(&mut self, results: Vec<(Vec<String>, ChunkResult)>) -> (end: RoundEnd)
        requires
            old(self).well_formed(),
        ensures
            final(self).well_formed(),
            ({
                let responses = round_responses(results@);
                let can_retry = old(self)@.attempt < old(self)@.max_attempts;
                let pending = round_pending(responses, can_retry);
                &&& final(self)@.out == old(self)@.out + round_descriptions(responses)
                &&& final(self)@.pending == pending
                &&& final(self)@.max_attempts == old(self)@.max_attempts
                &&& views(end.failures@) == round_failures(responses, can_retry)
                &&& if pending.len() > 0 {
                    &&& end.retry_number == Some(old(self)@.attempt)
                    &&& final(self)@.attempt == old(self)@.attempt + 1
                } else {
                    &&& end.retry_number is None
                    &&& final(self)@.attempt == old(self)@.attempt
                }
            }),
    {
        let can_retry = self.attempt < self.max_attempts;
        let ghost source = results@;
        let ghost responses = round_responses(source);
        let ghost again = |r: DescribeView| asked_again(r.failures, can_retry);
        let ghost stand = |r: DescribeView| standing(r.failures, can_retry);
        let ghost done = |r: DescribeView| r.descriptions;
        let ghost before = views(self.out@);
        let mut pending: Vec<String> = Vec::new();
        let mut failures: Vec<GroupRequestFailure> = Vec::new();
        assert(responses.take(0) =~= Seq::<DescribeView>::empty());
        for (requested, result) in it: results.into_iter()
            invariant
                it.seq() == source,
                responses == round_responses(source),
                again == (|r: DescribeView| asked_again(r.failures, can_retry)),
                stand == (|r: DescribeView| standing(r.failures, can_retry)),
                done == (|r: DescribeView| r.descriptions),
                self.attempt == old(self)@.attempt,
                self.max_attempts == old(self)@.max_attempts,
                views(self.out@) =~= before + flat(responses.take(it.index()), done),
                views(pending@) =~= flat(responses.take(it.index()), again),
                views(failures@) =~= flat(responses.take(it.index()), stand),
        {
            let ghost n = it.index();
            proof {
                assert((requested, result) == source[n]);
                flat_step(responses, again, n);
                flat_step(responses, stand, n);
                flat_step(responses, done, n);
            }
            let response = response_of(requested, result);
            assert(response@ == responses[n]);
            let split = response.partition_for_retry(can_retry);
            let mut descriptions = split.descriptions;
            let mut ids = split.retryable_group_ids;
            let mut failed = split.terminal_failures;
            let ghost o = views(self.out@);
            let ghost d = views(descriptions@);
            self.out.append(&mut descriptions);
            assert(views(self.out@) =~= o + d);
            let ghost p = views(pending@);
            let ghost q = views(ids@);
            pending.append(&mut ids);
            assert(views(pending@) =~= p + q);
            let ghost a = views(failures@);
            let ghost b = views(failed@);
            failures.append(&mut failed);
            assert(views(failures@) =~= a + b);
        }
        assert(responses.take(responses.len() as int) =~= responses);
        let retry_number = if pending.len() > 0 {
            proof {
                if !can_retry {
                    nothing_asked_again(responses);
                }
            }
            let round: usize = self.attempt;
            self.attempt = round + 1;
            Some(round)
        } else {
            None
        };
        self.pending = pending;
        RoundEnd { retry_number, failures }
    }

    /// All groups that were described.
    pub fn into_descriptions(self) -> (out: Vec<BatchedGroupDescription>)
        ensures
            views(out@) == self@.out,
    {
        self.out
    }
}

/// When no round is left, nothing is asked again.
proof fn nothing_asked_again(responses: Seq<DescribeView>)
    ensures
        round_pending(responses, false) == Seq::<Seq<char>>::empty(),
    decreases responses.len(),
{
    let can_retry = false;
    let f = |r: DescribeView| asked_again(r.failures, can_retry);
    if responses.len() > 0 {
        nothing_asked_again(responses.drop_last());
        no_failure_asked_again(responses.last().failures);
        assert(round_pending(responses, can_retry) == flat(responses, f));
        assert(flat(responses.drop_last(), f) == round_pending(responses.drop_last(), can_retry));
        assert(flat(responses, f) =~= Seq::<Seq<char>>::empty());
    }
}

proof fn no_failure_asked_again(failures: Seq<FailureView>)
    ensures
        asked_again(failures, false) == Seq::<Seq<char>>::empty(),
    decreases failures.len(),
{
    if failures.len() > 0 {
        let can_retry = false;
        let f = |f: FailureView|
            if can_retry && f.error.retriable {
                seq![f.group_id]
            } else {
                Seq::empty()
            };
        no_failure_asked_again(failures.drop_last());
        assert(asked_again(failures, can_retry) == flat(failures, f));
        assert(flat(failures.drop_last(), f) == asked_again(failures.drop_last(), can_retry));
        assert(flat(failures, f) =~= Seq::<Seq<char>>::empty());
    }
}

/// A group is only asked again if its request failed with an error that may go away, and every
/// failure either is asked again or stands.
pub proof fn only_transient_failures_are_asked_again(
    failures: Seq<FailureView>,
    can_retry: bool,
    group: Seq<char>,
)
    ensures
        asked_again(failures, can_retry).contains(group) ==> can_retry && exists|i: int|
            0 <= i < failures.len() && (#[trigger] failures[i]).group_id == group
                && failures[i].error.retriable,
        asked_again(failures, can_retry).len() + standing(failures, can_retry).len()
            == failures.len(),
    decreases failures.len(),
{
    let again = |f: FailureView|
        if can_retry && f.error.retriable {
            seq![f.group_id]
        } else {
            Seq::empty()
        };
    let stand = |f: FailureView|
        if can_retry && f.error.retriable {
            Seq::empty()
        } else {
            seq![f]
        };
    assert(asked_again(failures, can_retry) == flat(failures, again));
    assert(standing(failures, can_retry) == flat(failures, stand));
    if failures.len() > 0 {
        let shorter = failures.drop_last();
        only_transient_failures_are_asked_again(shorter, can_retry, group);
        assert(asked_again(shorter, can_retry) == flat(shorter, again));
        assert(standing(shorter, can_retry) == flat(shorter, stand));
        let all = asked_again(failures, can_retry);
        if all.contains(group) {
            let k = choose|k: int| 0 <= k < all.len() && all[k] == group;
            if k < asked_again(shorter, can_retry).len() {
                assert(asked_again(shorter, can_retry)[k] == group);
                let i = choose|i: int|
                    0 <= i < shorter.len() && (#[trigger] shorter[i]).group_id == group
                        && shorter[i].error.retriable;
                assert(failures[i] == shorter[i]);
            } else {
                assert(failures[failures.len() - 1].group_id == group);
            }
        }
    }
}

/// The offsets of the requests that succeeded, put together from first to last.
pub open spec fn merged_offsets(
    results: Seq<Option<OrderMap<String, OffsetMap>>>,
) -> Seq<(Seq<char>, Seq<(Tp, i64)>)>
    decreases results.len(),
{
    if results.len() == 0 {
        Seq::empty()
    } else {
        let before = merged_offsets(results.drop_last());
        match results.last() {
            Some(offsets) => put_all(before, offsets@),
            None => before,
        }
    }
}

/// Merges the offsets of the groups whose requests succeeded; the others are left out.
pub fn merge_group_offsets(results: Vec<Option<OrderMap<String, OffsetMap>>>) -> (merged: OrderMap<
    String,
    OffsetMap,
>)
    ensures
        merged@ == merged_offsets(results@),
{
    let ghost source = results@;
    let mut merged: OrderMap<String, OffsetMap> = OrderMap::new();
    assert(source.take(0) =~= Seq::<Option<OrderMap<String, OffsetMap>>>::empty());
    for result in it: results.into_iter()
        invariant
            it.seq() == source,
            merged@ == merged_offsets(source.take(it.index())),
    {
        let ghost n = it.index();
        assert(source.take(n + 1).drop_last() =~= source.take(n));
        if let Some(offsets) = result {
            merged.absorb(offsets);
        }
    }
    assert(source.take(source.len() as int) =~= source);
    merged
}

} // verus!

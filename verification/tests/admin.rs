use klag_exporter::kafka::admin::{
    is_retriable_admin_code, AdminRequestError, BatchedGroupDescription, DescribeGroupsResponse,
    GroupRequestFailure, OffsetSpec, ERR_TIMED_OUT, NO_ERROR,
};
use klag_exporter::kafka::client::TopicPartition;
use klag_exporter::kafka::replies::{
    describe_consumer_groups_one_chunk, list_consumer_group_offsets_one_chunk, AdminReply,
    GroupOffsetsResponse, OffsetMap, RawError, RawGroup, RawGroupOffsets, RawListedOffset,
    RawMember, RawOffset, RawPartition, SetupProblem, DESCRIBE_GROUPS_EVENT,
    LIST_GROUP_OFFSETS_EVENT, LIST_OFFSETS_EVENT,
};
use klag_exporter::kafka::requests::{
    chunks_of, cstring_or_err, errstr_to_string, list_consumer_group_offsets, list_offsets_batched,
    list_offsets_if_due, merge_group_offsets, offsets_due, request_timeout_ms, ChunkResult, DescribeRounds, PlainProblem, TaskEnd,
    TopicInterner,
};
use klag_exporter::keymap::OrderMap;
use rdkafka::bindings::{
    rd_kafka_OffsetSpec_t, rd_kafka_resp_err_t, RD_KAFKA_EVENT_DESCRIBECONSUMERGROUPS_RESULT,
    RD_KAFKA_EVENT_LISTCONSUMERGROUPOFFSETS_RESULT, RD_KAFKA_EVENT_LISTOFFSETS_RESULT,
};
use std::sync::Arc;

fn names(list: &[&str]) -> Vec<String> {
    list.iter().map(|s| s.to_string()).collect()
}

fn some(text: &str) -> Option<String> {
    Some(text.to_string())
}

fn code(error: rd_kafka_resp_err_t) -> i32 {
    error as i32
}

fn group(id: &str) -> RawGroup {
    RawGroup { group_id: some(id), error: None, state: some("Stable"), members: vec![] }
}

fn failed_group(id: &str, code: i32, retriable: bool) -> RawGroup {
    RawGroup {
        group_id: some(id),
        error: Some(RawError { code, message: some("no"), retriable }),
        state: None,
        members: vec![],
    }
}

fn answer<R>(event_type: i32, rows: Vec<R>) -> AdminReply<R> {
    AdminReply { event_type, error_code: NO_ERROR, error_text: None, rows: Some(rows) }
}

#[test]
fn cstring_or_err_rejects_embedded_nul() {
    let err = cstring_or_err("bad\0name").unwrap_err();
    assert!(err.to_string().contains("Invalid C string"));
    assert_eq!(
        err,
        "Invalid C string 'bad\0name': nul byte found in provided data at position: 3"
    );
}

#[test]
fn cstring_or_err_accepts_normal_string() {
    let s = cstring_or_err("my-group").unwrap();
    assert_eq!(std::str::from_utf8(&s).unwrap(), "my-group");
}

#[test]
fn buffers_end_at_their_first_zero_byte() {
    assert_eq!(errstr_to_string(b"no such host\0rest\0"), "no such host");
    assert_eq!(errstr_to_string(b"\0"), "");
    assert_eq!(errstr_to_string(b"a\xffb\0"), "a\u{fffd}b");
}

#[test]
fn offset_spec_constants_match_librdkafka() {
    assert_eq!(OffsetSpec::Earliest.as_c_value(), -2);
    assert_eq!(OffsetSpec::Latest.as_c_value(), -1);
    assert_eq!(
        OffsetSpec::Earliest.as_c_value(),
        rd_kafka_OffsetSpec_t::RD_KAFKA_OFFSET_SPEC_EARLIEST as i64
    );
    assert_eq!(
        OffsetSpec::Latest.as_c_value(),
        rd_kafka_OffsetSpec_t::RD_KAFKA_OFFSET_SPEC_LATEST as i64
    );
}

#[test]
fn event_types_match_librdkafka() {
    assert_eq!(DESCRIBE_GROUPS_EVENT, RD_KAFKA_EVENT_DESCRIBECONSUMERGROUPS_RESULT as i32);
    assert_eq!(LIST_GROUP_OFFSETS_EVENT, RD_KAFKA_EVENT_LISTCONSUMERGROUPOFFSETS_RESULT as i32);
    assert_eq!(LIST_OFFSETS_EVENT, RD_KAFKA_EVENT_LISTOFFSETS_RESULT as i32);
    assert_eq!(NO_ERROR, code(rd_kafka_resp_err_t::RD_KAFKA_RESP_ERR_NO_ERROR));
}

#[test]
fn topic_interner_returns_same_arc_for_same_name() {
    let mut interner = TopicInterner::new();
    let a = interner.intern("foo");
    let b = interner.intern("foo");
    assert!(Arc::ptr_eq(&a, &b), "same topic must share the Arc");
    let c = interner.intern("bar");
    assert!(!Arc::ptr_eq(&a, &c));
}

#[test]
fn transient_group_admin_errors_are_retriable() {
    assert!(is_retriable_admin_code(code(rd_kafka_resp_err_t::RD_KAFKA_RESP_ERR__TRANSPORT)));
    assert!(is_retriable_admin_code(code(
        rd_kafka_resp_err_t::RD_KAFKA_RESP_ERR_REQUEST_TIMED_OUT
    )));
    assert!(is_retriable_admin_code(code(
        rd_kafka_resp_err_t::RD_KAFKA_RESP_ERR_COORDINATOR_NOT_AVAILABLE
    )));
    assert!(is_retriable_admin_code(code(
        rd_kafka_resp_err_t::RD_KAFKA_RESP_ERR_NOT_COORDINATOR
    )));
}

#[test]
fn every_transient_code_is_retriable() {
    let codes = [
        rd_kafka_resp_err_t::RD_KAFKA_RESP_ERR__TRANSPORT,
        rd_kafka_resp_err_t::RD_KAFKA_RESP_ERR__ALL_BROKERS_DOWN,
        rd_kafka_resp_err_t::RD_KAFKA_RESP_ERR__TIMED_OUT,
        rd_kafka_resp_err_t::RD_KAFKA_RESP_ERR__TIMED_OUT_QUEUE,
        rd_kafka_resp_err_t::RD_KAFKA_RESP_ERR__WAIT_COORD,
        rd_kafka_resp_err_t::RD_KAFKA_RESP_ERR_REQUEST_TIMED_OUT,
        rd_kafka_resp_err_t::RD_KAFKA_RESP_ERR_BROKER_NOT_AVAILABLE,
        rd_kafka_resp_err_t::RD_KAFKA_RESP_ERR_NETWORK_EXCEPTION,
        rd_kafka_resp_err_t::RD_KAFKA_RESP_ERR_COORDINATOR_LOAD_IN_PROGRESS,
        rd_kafka_resp_err_t::RD_KAFKA_RESP_ERR_COORDINATOR_NOT_AVAILABLE,
        rd_kafka_resp_err_t::RD_KAFKA_RESP_ERR_NOT_COORDINATOR,
    ];
    for c in codes {
        assert!(is_retriable_admin_code(code(c)));
    }
    let transient = (-300..300).filter(|c| is_retriable_admin_code(*c)).count();
    assert_eq!(transient, codes.len());
}

#[test]
fn permanent_group_admin_errors_are_not_retriable() {
    assert!(!is_retriable_admin_code(code(
        rd_kafka_resp_err_t::RD_KAFKA_RESP_ERR__AUTHENTICATION
    )));
    assert!(!is_retriable_admin_code(code(
        rd_kafka_resp_err_t::RD_KAFKA_RESP_ERR_GROUP_AUTHORIZATION_FAILED
    )));
    assert!(!is_retriable_admin_code(code(
        rd_kafka_resp_err_t::RD_KAFKA_RESP_ERR_INVALID_GROUP_ID
    )));
}

#[test]
fn successful_empty_group_offsets_are_not_a_failure() {
    let mut offsets = OrderMap::new();
    offsets.insert("group-a".to_string(), OffsetMap::new());
    let response = GroupOffsetsResponse { offsets, failures: Vec::new() };

    let offsets = response.into_single_group_result().ok().unwrap();
    assert!(offsets.contains_key(&"group-a".to_string()));
    assert!(offsets.get(&"group-a".to_string()).unwrap().is_empty());
}

#[test]
fn explicit_group_offset_failure_is_preserved() {
    let response = GroupOffsetsResponse {
        offsets: OrderMap::new(),
        failures: vec![GroupRequestFailure {
            group_id: "group-a".to_string(),
            error: AdminRequestError::new(
                "ListConsumerGroupOffsets",
                Some(code(rd_kafka_resp_err_t::RD_KAFKA_RESP_ERR__TRANSPORT)),
                "transport failure",
            ),
        }],
    };

    let error = response.into_single_group_result().err().unwrap();
    assert!(error.is_retriable());
}

#[test]
fn describe_retry_partition_selects_only_retriable_failures() {
    let response = DescribeGroupsResponse {
        descriptions: vec![BatchedGroupDescription {
            group_id: "successful-group".to_string(),
            state: "Stable".to_string(),
            members: Vec::new(),
        }],
        failures: vec![
            GroupRequestFailure {
                group_id: "transient-failure".to_string(),
                error: AdminRequestError::new(
                    "DescribeConsumerGroups",
                    Some(code(rd_kafka_resp_err_t::RD_KAFKA_RESP_ERR__TRANSPORT)),
                    "transport failure",
                ),
            },
            GroupRequestFailure {
                group_id: "permanent-failure".to_string(),
                error: AdminRequestError::new(
                    "DescribeConsumerGroups",
                    Some(code(
                        rd_kafka_resp_err_t::RD_KAFKA_RESP_ERR_GROUP_AUTHORIZATION_FAILED,
                    )),
                    "authorization failure",
                ),
            },
        ],
    };

    let partitioned = response.partition_for_retry(true);

    assert_eq!(partitioned.descriptions.len(), 1);
    assert_eq!(partitioned.descriptions[0].group_id, "successful-group");
    assert_eq!(partitioned.retryable_group_ids, vec!["transient-failure"]);
    assert_eq!(partitioned.terminal_failures.len(), 1);
    assert_eq!(partitioned.terminal_failures[0].group_id, "permanent-failure");
}

#[test]
fn without_a_retry_every_failure_stands() {
    let error = AdminRequestError::new("op", Some(ERR_TIMED_OUT), "late");
    let response = DescribeGroupsResponse::failed(names(&["a", "b"]), error);
    let partitioned = response.partition_for_retry(false);
    assert!(partitioned.retryable_group_ids.is_empty());
    assert_eq!(partitioned.terminal_failures.len(), 2);
    assert_eq!(partitioned.terminal_failures[1].error.message, "late");
}

#[test]
fn errors_in_words() {
    let coded = AdminRequestError::new("op", Some(-185), "late");
    assert_eq!(coded.text("TimedOut"), "op: late (TimedOut)");
    assert_eq!(AdminRequestError::task("op", "gone").text("unused"), "op: gone");
    assert!(!AdminRequestError::task("op", "gone").is_retriable());
    assert!(AdminRequestError::from_group_error("op", 30, "no", true).is_retriable());
    assert!(!AdminRequestError::from_group_error("op", 30, "no", false).is_retriable());
    assert!(AdminRequestError::from_group_error("op", -185, "late", false).is_retriable());
    assert_eq!(coded.duplicate().code, Some(-185));
}

#[test]
fn described_groups_with_members_and_failures() {
    let mut full = group("full");
    full.members = vec![
        None,
        Some(RawMember {
            member_id: some("m"),
            client_id: None,
            client_host: some("/10.0.0.1"),
            assignment: vec![
                RawPartition { topic: some("t"), partition: 3 },
                RawPartition { topic: None, partition: 4 },
            ],
        }),
    ];
    let asked = names(&["full", "refused", "missing"]);
    let reply = || {
        let mut rows = vec![group("full"), failed_group("refused", 30, false)];
        rows[0].members = vec![];
        rows
    };
    let mut rows = reply();
    rows[0] = full;
    let response = describe_consumer_groups_one_chunk(
        &asked,
        Ok(Some(answer(DESCRIBE_GROUPS_EVENT, rows))),
        true,
    )
    .ok()
    .unwrap();
    assert_eq!(response.descriptions.len(), 1);
    assert_eq!(response.descriptions[0].state, "Stable");
    assert_eq!(response.descriptions[0].members.len(), 1);
    let member = &response.descriptions[0].members[0];
    assert_eq!(member.client_id, "");
    assert_eq!(member.client_host, "/10.0.0.1");
    assert_eq!(member.assignments, vec![TopicPartition::new("t", 3)]);
    assert_eq!(response.failures.len(), 2);
    assert_eq!(response.failures[0].group_id, "refused");
    assert_eq!(response.failures[0].error.code, Some(30));
    assert_eq!(response.failures[1].group_id, "missing");
    assert_eq!(response.failures[1].error.message, "response omitted the requested group");
    assert!(!response.failures[1].error.is_retriable());

    let bare = describe_consumer_groups_one_chunk(
        &asked,
        Ok(Some(answer(DESCRIBE_GROUPS_EVENT, reply()))),
        false,
    )
    .ok()
    .unwrap();
    assert_eq!(bare.failures.len(), 2);
}

#[test]
fn no_group_is_both_answered_and_failed() {
    let asked = names(&["good", "bad", "missing"]);
    let rows = vec![failed_group("bad", 30, false), group("good"), group("extra")];
    let response = describe_consumer_groups_one_chunk(
        &asked,
        Ok(Some(answer(DESCRIBE_GROUPS_EVENT, rows))),
        true,
    )
    .ok()
    .unwrap();
    let described: Vec<&str> = response.descriptions.iter().map(|d| d.group_id.as_str()).collect();
    let failed: Vec<&str> = response.failures.iter().map(|f| f.group_id.as_str()).collect();
    assert_eq!(described, vec!["good", "extra"]);
    assert_eq!(failed, vec!["bad", "missing"]);

    let row = |id: &str, error: Option<RawError>| RawGroupOffsets {
        group_id: some(id),
        error,
        partitions: vec![],
    };
    let refused = RawError { code: 30, message: None, retriable: false };
    let response = list_consumer_group_offsets_one_chunk(
        &asked,
        Ok(Some(answer(
            LIST_GROUP_OFFSETS_EVENT,
            vec![row("good", None), row("bad", Some(refused))],
        ))),
    )
    .ok()
    .unwrap();
    let failed: Vec<&str> = response.failures.iter().map(|f| f.group_id.as_str()).collect();
    assert_eq!(failed, vec!["bad", "missing"]);
    assert_eq!(response.offsets.len(), 1);
    assert!(response.offsets.get(&"good".to_string()).is_some());
}

#[test]
fn assignments_are_left_out_on_request() {
    let mut g = group("g");
    g.members = vec![Some(RawMember {
        member_id: some("m"),
        client_id: some("c"),
        client_host: some("h"),
        assignment: vec![RawPartition { topic: some("t"), partition: 0 }],
    })];
    let response = describe_consumer_groups_one_chunk(
        &names(&["g"]),
        Ok(Some(answer(DESCRIBE_GROUPS_EVENT, vec![g]))),
        false,
    )
    .ok()
    .unwrap();
    assert!(response.descriptions[0].members[0].assignments.is_empty());
}

#[test]
fn every_way_a_group_request_can_fail() {
    let asked = names(&["g"]);
    let run = |outcome| {
        describe_consumer_groups_one_chunk(&asked, outcome, true).err().unwrap()
    };
    assert_eq!(run(Err(SetupProblem::BadGroupId("bad".to_string()))).message, "bad");
    assert_eq!(run(Err(SetupProblem::NoRequest)).message, "failed to create request");
    assert_eq!(run(Err(SetupProblem::NoOptions)).message, "failed to create AdminOptions");
    assert_eq!(run(Err(SetupProblem::NoQueue)).message, "failed to create queue");
    let refused = run(Err(SetupProblem::TimeoutRefused { code: -186, text: "x".to_string() }));
    assert_eq!(refused.message, "failed to set request timeout: x");
    assert_eq!(refused.code, Some(-186));
    let late = run(Ok(None));
    assert_eq!(late.message, "timed out waiting for response");
    assert!(late.is_retriable());
    assert_eq!(late.operation, "DescribeConsumerGroups");
    assert_eq!(run(Ok(Some(answer(7, vec![])))).message, "unexpected event type: 7");
    let mut reply = answer(DESCRIBE_GROUPS_EVENT, vec![]);
    reply.error_code = 30;
    reply.error_text = some("denied");
    assert_eq!(run(Ok(Some(reply))).message, "request failed: denied");
    let mut reply = answer(DESCRIBE_GROUPS_EVENT, vec![]);
    reply.error_code = -195;
    let unknown = run(Ok(Some(reply)));
    assert_eq!(unknown.message, "request failed: unknown error");
    assert!(unknown.is_retriable());
    let mut reply = answer(DESCRIBE_GROUPS_EVENT, vec![]);
    reply.rows = None;
    assert_eq!(run(Ok(Some(reply))).message, "result is null");
}

#[test]
fn committed_offsets_of_groups() {
    let offset = |topic: Option<String>, partition, offset| RawOffset { topic, partition, offset };
    let rows = vec![
        RawGroupOffsets {
            group_id: some("a"),
            error: None,
            partitions: vec![
                offset(some("t"), 0, 5),
                offset(some("t"), 1, -1001),
                offset(None, 2, 6),
                offset(some("t"), 3, 0),
            ],
        },
        RawGroupOffsets {
            group_id: some("b"),
            error: Some(RawError { code: 16, message: None, retriable: false }),
            partitions: vec![],
        },
        RawGroupOffsets {
            group_id: some("c"),
            error: Some(RawError { code: NO_ERROR, message: None, retriable: false }),
            partitions: vec![],
        },
    ];
    let response = list_consumer_group_offsets_one_chunk(
        &names(&["a", "b", "c", "d"]),
        Ok(Some(answer(LIST_GROUP_OFFSETS_EVENT, rows))),
    )
    .ok()
    .unwrap();
    assert_eq!(response.offsets.len(), 2);
    let a = response.offsets.get(&"a".to_string()).unwrap();
    assert_eq!(a.len(), 2);
    assert_eq!(a.get(&TopicPartition::new("t", 0)), Some(&5));
    assert_eq!(a.get(&TopicPartition::new("t", 3)), Some(&0));
    assert!(response.offsets.get(&"c".to_string()).unwrap().is_empty());
    assert_eq!(response.failures.len(), 2);
    assert!(response.failures[0].error.is_retriable());
    assert_eq!(response.failures[1].group_id, "d");

    let mut all = GroupOffsetsResponse::new();
    all.add_chunk(response);
    all.add_chunk(GroupOffsetsResponse::default());
    assert_eq!(all.offsets.len(), 2);
    assert_eq!(all.into_single_group_result().err().unwrap().message, "response omitted the requested group");
}

#[test]
fn offsets_of_partitions() {
    let row = |topic: Option<String>, partition, offset, error_code| {
        Some(RawListedOffset { topic, partition, offset, error_code })
    };
    let offsets = list_offsets_batched(Ok(Some(answer(
        LIST_OFFSETS_EVENT,
        vec![
            row(some("t"), 0, 10, NO_ERROR),
            None,
            row(some("t"), 1, 11, 3),
            row(None, 2, 12, NO_ERROR),
            row(some("u"), 0, 13, NO_ERROR),
            row(some("t"), 0, 14, NO_ERROR),
        ],
    ))))
    .unwrap_or_else(|e| panic!("{e}"));
    assert_eq!(offsets.len(), 2);
    assert_eq!(offsets.get(&TopicPartition::new("t", 0)), Some(&14));
    assert_eq!(offsets.get(&TopicPartition::new("u", 0)), Some(&13));
}

#[test]
fn without_partitions_nothing_is_asked() {
    assert!(!offsets_due(&[]));
    assert!(list_offsets_if_due(&[], None).unwrap_or_else(|e| panic!("{e}")).is_empty());
    assert!(list_offsets_if_due(&[], Some(Ok(None))).unwrap_or_else(|e| panic!("{e}")).is_empty());
    let some_partitions = [TopicPartition::new("t", 0)];
    assert!(offsets_due(&some_partitions));
    assert_eq!(
        list_offsets_if_due(&some_partitions, Some(Ok(None))).err().unwrap(),
        "ListOffsets timed out"
    );
    let row = RawListedOffset { topic: some("t"), partition: 0, offset: 6, error_code: NO_ERROR };
    let offsets = list_offsets_if_due(
        &some_partitions,
        Some(Ok(Some(answer(LIST_OFFSETS_EVENT, vec![Some(row)])))),
    )
    .unwrap_or_else(|e| panic!("{e}"));
    assert_eq!(offsets.get(&TopicPartition::new("t", 0)), Some(&6));
}

#[test]
fn every_way_an_offset_request_can_fail() {
    let run = |outcome| list_offsets_batched(outcome).err().unwrap();
    assert_eq!(run(Err(PlainProblem::NoPartitionList)), "Failed to create topic partition list");
    assert_eq!(run(Err(PlainProblem::BadTopic("bad".to_string()))), "bad");
    assert_eq!(
        run(Err(PlainProblem::PartitionRefused)),
        "Failed to add partition to ListOffsets request"
    );
    assert_eq!(run(Err(PlainProblem::NoOptions)), "Failed to create AdminOptions (ListOffsets)");
    assert_eq!(
        run(Err(PlainProblem::TimeoutRefused("x".to_string()))),
        "Failed to set request timeout (ListOffsets): x"
    );
    assert_eq!(run(Err(PlainProblem::NoQueue)), "Failed to create queue (ListOffsets)");
    assert_eq!(run(Ok(None)), "ListOffsets timed out");
    assert_eq!(run(Ok(Some(answer(5, vec![])))), "Unexpected event type (ListOffsets): 5");
    let mut reply = answer(LIST_OFFSETS_EVENT, vec![]);
    reply.error_code = 3;
    assert_eq!(run(Ok(Some(reply))), "ListOffsets failed: unknown error");
    let mut reply = answer(LIST_OFFSETS_EVENT, vec![]);
    reply.rows = None;
    assert_eq!(run(Ok(Some(reply))), "ListOffsets result is null");
}

#[test]
fn offsets_of_a_single_group() {
    let rows = vec![RawGroupOffsets {
        group_id: some("g"),
        error: None,
        partitions: vec![RawOffset { topic: some("t"), partition: 1, offset: 8 }],
    }];
    let offsets = list_consumer_group_offsets(Ok(Some(answer(LIST_GROUP_OFFSETS_EVENT, rows))))
        .unwrap_or_else(|e| panic!("{e}"));
    assert_eq!(offsets.get(&TopicPartition::new("t", 1)), Some(&8));
    let none = list_consumer_group_offsets(Ok(None)).err().unwrap();
    assert_eq!(none, "ListConsumerGroupOffsets timed out");
}

#[test]
fn timeouts_are_capped() {
    assert_eq!(request_timeout_ms(5_000), 5_000);
    assert_eq!(request_timeout_ms(i32::MAX as u64), i32::MAX);
    assert_eq!(request_timeout_ms(u64::MAX), i32::MAX);
}

#[test]
fn chunks_hold_every_name_in_order() {
    let all = names(&["a", "b", "c", "d", "e"]);
    assert_eq!(
        chunks_of(&all, 2),
        vec![names(&["a", "b"]), names(&["c", "d"]), names(&["e"])]
    );
    assert_eq!(chunks_of(&all, 0).len(), 5);
    assert!(chunks_of(&vec![], 3).is_empty());
}

#[test]
fn rounds_ask_again_for_what_may_come_back() {
    let mut rounds = DescribeRounds::new(names(&["a", "b", "c"]), 1);
    assert_eq!(rounds.chunks(2), vec![names(&["a", "b"]), names(&["c"])]);
    let first = describe_consumer_groups_one_chunk(
        &names(&["a", "b"]),
        Ok(Some(answer(
            DESCRIBE_GROUPS_EVENT,
            vec![group("a"), failed_group("b", ERR_TIMED_OUT, false)],
        ))),
        true,
    )
    .ok()
    .unwrap();
    let end = rounds.finish_round(vec![
        (names(&["a", "b"]), ChunkResult::Answered(first)),
        (
            names(&["c"]),
            ChunkResult::TaskEnded { end: TaskEnd::Panicked, text: "boom".to_string() },
        ),
    ]);
    assert_eq!(end.retry_number, Some(1));
    assert_eq!(end.failures.len(), 1);
    assert_eq!(end.failures[0].group_id, "c");
    assert_eq!(end.failures[0].error.message, "blocking task panicked: boom");
    assert_eq!(rounds.chunks(2), vec![names(&["b"])]);
    let end = rounds.finish_round(vec![(
        names(&["b"]),
        ChunkResult::Refused(AdminRequestError::new("op", Some(ERR_TIMED_OUT), "late")),
    )]);
    assert_eq!(end.retry_number, None);
    assert_eq!(end.failures.len(), 1);
    let described = rounds.into_descriptions();
    assert_eq!(described.len(), 1);
    assert_eq!(described[0].group_id, "a");
}

#[test]
fn group_offsets_are_merged() {
    let one = |id: &str, offset| {
        let mut offsets = OffsetMap::new();
        offsets.insert(TopicPartition::new("t", 0), offset);
        let mut map = OrderMap::new();
        map.insert(id.to_string(), offsets);
        Some(map)
    };
    let merged = merge_group_offsets(vec![one("a", 1), None, one("b", 2), one("a", 3)]);
    assert_eq!(merged.len(), 2);
    let offset = |id: &str| {
        *merged.get(&id.to_string()).unwrap().get(&TopicPartition::new("t", 0)).unwrap()
    };
    assert_eq!(offset("a"), 3);
    assert_eq!(offset("b"), 2);
}

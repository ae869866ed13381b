use std::sync::Arc;

use pi_agent::json::Json;
use pi_agent::lane_state::{
    reduce_lane_state, EffectiveLaneConfiguration, EffectiveModel, LaneReductionInput,
    LaneReductionResult, OperationState,
};
use pi_agent::reducer::{
    by_sequence_entries, by_sequence_records, validate_record_log, RecordLogCorruptionReason,
    RecordLogSlice,
};
use pi_agent::session::types::{
    Entry, EntryType, LaneRecord, OperationIntent, UsageCause,
};
use pi_agent::types::{
    AgentMessage, AssistantContent, AssistantMessage, BlockContent, DeferredHandle, StopReason,
    TextContent, ToolCall, ToolResultMessage, Usage, UserContent, UserMessage,
};

fn user(text: &str) -> AgentMessage {
    AgentMessage::User(Arc::new(UserMessage {
        content: UserContent::Text(text.to_string()),
        timestamp: 1,
    }))
}

fn answer(calls: &[&str], stop_reason: StopReason, deferred: bool) -> AgentMessage {
    let content = calls
        .iter()
        .map(|id| {
            AssistantContent::ToolCall(ToolCall {
                id: id.to_string(),
                name: "read".to_string(),
                arguments: Arc::new(Vec::new()),
                thought_signature: None,
                namespace: None,
            })
        })
        .collect();
    AgentMessage::Assistant(Arc::new(AssistantMessage {
        content,
        api: "test-api".to_string(),
        provider: "other-provider".to_string(),
        model: "other-model".to_string(),
        usage: Usage::default(),
        stop_reason,
        error_message: None,
        deferred: if deferred {
            Some(DeferredHandle { provider: "p".to_string(), id: "h".to_string() })
        } else {
            None
        },
        timestamp: 1,
    }))
}

fn result(call: &str) -> AgentMessage {
    AgentMessage::ToolResult(Arc::new(ToolResultMessage {
        tool_call_id: call.to_string(),
        tool_name: "read".to_string(),
        content: vec![BlockContent::Text(TextContent {
            text: "r".to_string(),
            text_signature: None,
        })],
        details: None,
        usage: None,
        added_tool_names: None,
        is_error: false,
        timestamp: 1,
    }))
}

fn entry(id: &str, seq: u64, message: AgentMessage) -> Entry {
    Entry::Message {
        id: id.to_string(),
        message,
        terminate: None,
        parent_id: None,
        seq,
        timestamp: 0,
    }
}

fn run(id: &str, seq: u64, initial: Vec<Entry>) -> LaneRecord {
    LaneRecord::OperationStarted {
        id: id.to_string(),
        lane: "main".to_string(),
        source_leaf_id: None,
        intent: OperationIntent::Run {
            original_prompt: Arc::new(Vec::new()),
            initial_messages: Arc::new(initial),
            system_prompt_override: None,
            resume_data: None,
        },
        seq,
        timestamp: 0,
    }
}

fn finish(run: &str, seq: u64) -> LaneRecord {
    LaneRecord::OperationFinished {
        id: format!("finish-{run}"),
        lane: "main".to_string(),
        run_id: run.to_string(),
        outcome: "completed".to_string(),
        error: None,
        seq,
        timestamp: 0,
    }
}

fn abort(run: &str, seq: u64) -> LaneRecord {
    LaneRecord::AbortRequested {
        id: format!("abort-{run}"),
        lane: "main".to_string(),
        run_id: run.to_string(),
        seq,
        timestamp: 0,
    }
}

fn attempt(step: &str, attempt: u32, target: &str, reason: Option<&str>, seq: u64) -> LaneRecord {
    LaneRecord::StepAttempt {
        id: format!("attempt-{seq}"),
        lane: "main".to_string(),
        run_id: "r".to_string(),
        step: step.to_string(),
        attempt,
        result_entry_id: target.to_string(),
        compaction_reason: reason.map(str::to_string),
        seq,
        timestamp: 0,
    }
}

fn tool(assistant: &str, index: u32, call: &str, target: &str, seq: u64) -> LaneRecord {
    LaneRecord::ToolStarted {
        id: format!("tool-{seq}"),
        lane: "main".to_string(),
        run_id: "r".to_string(),
        assistant_entry_id: assistant.to_string(),
        tool_index: index,
        tool_call_id: call.to_string(),
        tool_name: "read".to_string(),
        effective_args: Arc::new(Json::Null),
        result_entry_id: target.to_string(),
        replay: "never".to_string(),
        seq,
        timestamp: 0,
    }
}

fn enqueue(queue: &str, run: Option<&str>, target: Entry, seq: u64) -> LaneRecord {
    LaneRecord::QueueEnqueued {
        id: format!("queue-{seq}"),
        lane: "main".to_string(),
        queue: queue.to_string(),
        run_id: run.map(str::to_string),
        target,
        seq,
        timestamp: 0,
    }
}

fn cancel(run: Option<&str>, entry: &str, seq: u64) -> LaneRecord {
    LaneRecord::QueueCancelled {
        id: format!("cancel-{seq}"),
        lane: "main".to_string(),
        run_id: run.map(str::to_string),
        entry_id: entry.to_string(),
        seq,
        timestamp: 0,
    }
}

fn problem(records: Vec<LaneRecord>, entries: Vec<Entry>) -> Option<(RecordLogCorruptionReason, String)> {
    let slice = RecordLogSlice {
        lane: "main".to_string(),
        open_operations: Vec::new(),
        records,
        entries,
    };
    validate_record_log(&slice).err().map(|e| (e.reason, e.message))
}

#[test]
fn lanes_have_one_open_operation() {
    let slice = RecordLogSlice {
        lane: "main".to_string(),
        open_operations: vec![run("a", 1, vec![]), run("b", 2, vec![])],
        records: vec![],
        entries: vec![],
    };
    match validate_record_log(&slice) {
        Err(e) => {
            assert_eq!(e.reason, RecordLogCorruptionReason::MultipleOpenOperations);
            assert_eq!(e.reason.as_str(), "multiple_open_operations");
            assert_eq!(e.message, "Lane main has at least two open operations");
        }
        Ok(()) => panic!("accepted"),
    }
}

#[test]
fn operations_are_known_and_not_over() {
    assert!(problem(vec![finish("r", 2), run("r", 1, vec![])], vec![]).is_none());
    assert_eq!(
        problem(vec![finish("r", 2)], vec![]),
        Some((
            RecordLogCorruptionReason::UnknownOperation,
            "Record finish-r references unknown operation r".to_string()
        ))
    );
    assert_eq!(
        problem(vec![run("r", 1, vec![]), finish("r", 2), abort("r", 3)], vec![]),
        Some((
            RecordLogCorruptionReason::RecordAfterFinish,
            "Record abort-r follows the finish of operation r".to_string()
        ))
    );
}

#[test]
fn attempts_count_up() {
    let good = vec![
        run("r", 1, vec![]),
        attempt("assistant", 1, "e", None, 2),
        attempt("assistant", 2, "e", None, 3),
    ];
    assert!(problem(good, vec![]).is_none());
    assert_eq!(
        problem(vec![run("r", 1, vec![]), attempt("assistant", 2, "e", None, 2)], vec![]),
        Some((
            RecordLogCorruptionReason::NonConsecutiveAttempt,
            "assistant attempt attempt-2 is 2; expected 1".to_string()
        ))
    );
    let after_result = vec![
        run("r", 1, vec![]),
        attempt("assistant", 1, "e", None, 2),
        attempt("assistant", 1, "f", None, 4),
    ];
    let stored = vec![entry("e", 3, answer(&[], StopReason::Stop, false))];
    assert!(problem(after_result, stored).is_none());
}

#[test]
fn compactions_have_reasons() {
    let reason = |step: &str, why: Option<&str>| {
        problem(vec![run("r", 1, vec![]), attempt(step, 1, "e", why, 2)], vec![])
    };
    assert!(reason("compaction", Some("manual")).is_none());
    assert_eq!(
        reason("compaction", Some("fun")),
        Some((
            RecordLogCorruptionReason::InvalidCompactionReason,
            "Compaction attempt attempt-2 has no valid compaction reason".to_string()
        ))
    );
    assert_eq!(
        reason("assistant", Some("manual")),
        Some((
            RecordLogCorruptionReason::InvalidCompactionReason,
            "assistant attempt attempt-2 has a compaction reason".to_string()
        ))
    );
}

#[test]
fn attempts_of_a_step_agree() {
    let pair = |second: &str, why: &str| {
        problem(
            vec![
                run("r", 1, vec![]),
                attempt("compaction", 1, "e", Some("manual"), 2),
                attempt("compaction", 2, second, Some(why), 3),
            ],
            vec![],
        )
    };
    assert!(pair("e", "manual").is_none());
    assert_eq!(
        pair("f", "manual"),
        Some((
            RecordLogCorruptionReason::InconsistentStep,
            "compaction attempts disagree on their result entry id".to_string()
        ))
    );
    assert_eq!(
        pair("e", "overflow"),
        Some((
            RecordLogCorruptionReason::InconsistentStep,
            "compaction attempts disagree on their compaction reason".to_string()
        ))
    );
}

#[test]
fn nothing_is_queued_after_an_abort() {
    let queued = |queue: &str| {
        problem(
            vec![
                run("r", 1, vec![]),
                abort("r", 2),
                enqueue(queue, Some("r"), entry("q", 0, user("q")), 3),
            ],
            vec![],
        )
    };
    assert!(queued("nextRun").is_none());
    assert_eq!(
        queued("steer"),
        Some((
            RecordLogCorruptionReason::QueueAfterAbort,
            "steer item q was enqueued after abort".to_string()
        ))
    );
}

#[test]
fn cancellations_need_a_pending_item() {
    let base = || {
        vec![run("r", 1, vec![]), enqueue("steer", Some("r"), entry("q", 0, user("q")), 2)]
    };
    let mut good = base();
    good.push(cancel(Some("r"), "q", 3));
    assert!(problem(good, vec![]).is_none());
    for (run_id, id) in [(Some("r"), "x"), (None, "q")] {
        let mut bad = base();
        bad.push(cancel(run_id, id, 3));
        assert_eq!(
            problem(bad, vec![]),
            Some((
                RecordLogCorruptionReason::InvalidQueueCancellation,
                "Queue cancellation cancel-3 has no pending matching enqueue".to_string()
            ))
        );
    }
}

#[test]
fn tools_are_started_by_their_call() {
    let stored = || vec![entry("a", 2, answer(&["c1", "c2"], StopReason::ToolUse, false))];
    let log = |records: Vec<LaneRecord>| {
        let mut all = vec![run("r", 1, vec![])];
        all.extend(records);
        problem(all, stored())
    };
    assert!(log(vec![tool("a", 0, "c1", "e", 3), tool("a", 1, "c2", "f", 4)]).is_none());
    assert_eq!(
        log(vec![tool("a", 0, "c1", "e", 3), tool("a", 0, "c1", "e", 4)]),
        Some((
            RecordLogCorruptionReason::DuplicateToolInvocation,
            "Tool invocation a:0 is duplicated".to_string()
        ))
    );
    assert_eq!(
        log(vec![tool("b", 0, "c1", "e", 3)]),
        Some((
            RecordLogCorruptionReason::ToolCallMismatch,
            "Tool start tool-3 does not reference an assistant entry".to_string()
        ))
    );
    for (index, id) in [(0, "c2"), (2, "c1")] {
        assert_eq!(
            log(vec![tool("a", index, id, "e", 3)]),
            Some((
                RecordLogCorruptionReason::ToolCallMismatch,
                "Tool start tool-3 does not match its assistant tool-call ordinal".to_string()
            ))
        );
    }
}

#[test]
fn results_are_what_was_meant() {
    let other = vec![entry("e", 3, user("other"))];
    assert_eq!(
        problem(vec![run("r", 1, vec![]), attempt("assistant", 1, "e", None, 2)], other),
        Some((
            RecordLogCorruptionReason::ProvisionedEntryMismatch,
            "Provisioned assistant result entry e exists with different content".to_string()
        ))
    );
    let meant = entry("q", 0, user("one"));
    let same = vec![entry("q", 7, user("one"))];
    let different = vec![entry("q", 7, user("two"))];
    assert!(problem(vec![run("r", 1, vec![meant.clone()])], same).is_none());
    assert_eq!(
        problem(vec![run("r", 1, vec![meant])], different),
        Some((
            RecordLogCorruptionReason::ProvisionedEntryMismatch,
            "Provisioned entry q exists with content different from its intent".to_string()
        ))
    );
}

#[test]
fn deferred_answers_carry_handles() {
    let lost = vec![entry("d", 1, answer(&[], StopReason::Deferred, false))];
    assert_eq!(
        problem(vec![], lost),
        Some((
            RecordLogCorruptionReason::InvalidDeferredHandle,
            "Deferred assistant entry d does not carry a handle".to_string()
        ))
    );
    assert!(problem(vec![], vec![entry("d", 1, answer(&[], StopReason::Deferred, true))]).is_none());
}

#[test]
fn logs_are_put_in_order() {
    let sorted = by_sequence_records(&vec![finish("b", 3), run("a", 1, vec![]), finish("a", 3)]);
    let ids: Vec<&str> = sorted.iter().map(|r| r.id().as_str()).collect();
    assert_eq!(ids, vec!["a", "finish-b", "finish-a"]);
    let sorted = by_sequence_entries(&vec![entry("y", 2, user("y")), entry("x", 1, user("x"))]);
    assert_eq!(sorted[0].id(), "x");
}

fn input(open: Vec<LaneRecord>, records: Vec<LaneRecord>, own: Vec<Entry>) -> LaneReductionInput {
    LaneReductionInput {
        lane: "main".to_string(),
        open_operations: open,
        records,
        entries: own.clone(),
        leaf_id: Some("leaf".to_string()),
        own_entries: own,
        configuration_entries: vec![],
        defaults: EffectiveLaneConfiguration {
            model: EffectiveModel { provider: "p".to_string(), model_id: "m".to_string() },
            thinking_level: "off".to_string(),
            active_tool_names: vec!["read".to_string()],
        },
    }
}

fn reduced(input: LaneReductionInput) -> LaneReductionResult {
    match reduce_lane_state(input) {
        Ok(r) => r,
        Err(e) => panic!("corrupt: {}", e.message),
    }
}

fn operation(r: LaneReductionResult) -> OperationState {
    r.lane_state.operation.unwrap()
}

fn ids(entries: &[Entry]) -> Vec<String> {
    entries.iter().map(|e| e.id().clone()).collect()
}

#[test]
fn idle_lanes_keep_what_is_queued() {
    let records = vec![
        enqueue("nextRun", None, entry("n1", 0, user("n1")), 1),
        enqueue("nextRun", None, entry("n2", 0, user("n2")), 2),
        cancel(None, "n1", 3),
    ];
    let r = reduced(input(vec![], records, vec![]));
    assert!(r.lane_state.operation.is_none());
    assert_eq!(ids(&r.lane_state.pending_next_run), vec!["n2"]);
    assert_eq!(r.effective_configuration.model.model_id, "m");
    assert!(r.terminal_failure.is_none());
}

#[test]
fn open_runs_are_rebuilt() {
    let start = run("r", 1, vec![entry("i1", 0, user("i1")), entry("i2", 0, user("i2"))]);
    let records = vec![
        start.clone(),
        enqueue("steer", Some("r"), entry("s", 0, user("s")), 4),
        enqueue("followUp", Some("r"), entry("f", 0, user("f")), 5),
        attempt("assistant", 1, "a", None, 6),
        tool("a", 0, "c1", "t1", 8),
        attempt("assistant", 1, "b", None, 12),
    ];
    let own = vec![
        entry("i1", 2, user("i1")),
        entry("a", 7, answer(&["c1", "c2"], StopReason::ToolUse, false)),
        entry("t1", 9, result("c1")),
    ];
    let r = reduced(input(vec![start], records, own));
    assert_eq!(r.effective_configuration.model.provider, "other-provider");
    let o = operation(r);
    assert_eq!((o.id.as_str(), o.kind, o.aborting), ("r", "run", false));
    assert_eq!(ids(&o.missing_initial_messages), vec!["i2"]);
    assert_eq!(ids(&o.pending_steer), vec!["s"]);
    assert_eq!(ids(&o.pending_follow_up), vec!["f"]);
    let step = o.step.unwrap();
    assert_eq!((step.kind, step.attempts, step.result_entry_id.as_str()), ("assistant", 1, "b"));
    let batch = o.tool_batch.unwrap();
    assert_eq!(batch.assistant_entry_id, "a");
    assert!(batch.unresolved && !batch.truncated);
    assert!(batch.calls[0].result_exists && batch.calls[0].started.is_some());
    assert!(!batch.calls[1].result_exists && batch.calls[1].started.is_none());
    let newest = o.newest_own.unwrap();
    assert_eq!(newest.entry_type, EntryType::Message);
    assert_eq!((newest.entry_id.as_str(), newest.role.as_deref()), ("t1", Some("toolResult")));
    assert!(!o.overflow_recovery_used);
}

#[test]
fn aborted_runs_drop_their_queues() {
    let start = run("r", 1, vec![]);
    let records = vec![
        start.clone(),
        enqueue("steer", Some("r"), entry("s", 0, user("s")), 2),
        abort("r", 3),
    ];
    let o = operation(reduced(input(vec![start], records, vec![])));
    assert!(o.aborting);
    assert!(o.pending_steer.is_empty());
    assert!(o.newest_own.is_none() && o.tool_batch.is_none());
}

#[test]
fn overflow_is_recovered_once() {
    let start = run("r", 1, vec![]);
    let records = vec![start.clone(), attempt("compaction", 1, "k", Some("overflow"), 2)];
    let o = operation(reduced(input(vec![start.clone()], records, vec![])));
    assert!(o.overflow_recovery_used);
    assert_eq!(o.step.unwrap().compaction_reason.as_deref(), Some("overflow"));
    let records = vec![
        start.clone(),
        attempt("compaction", 1, "k", Some("overflow"), 2),
        enqueue("steer", Some("r"), entry("s", 0, user("s")), 3),
    ];
    let own = vec![entry("s", 4, user("s"))];
    assert!(!operation(reduced(input(vec![start], records, own))).overflow_recovery_used);
}

#[test]
fn failed_steps_are_terminal() {
    let start = run("r", 1, vec![]);
    let records = vec![start.clone(), attempt("assistant", 1, "x", None, 2)];
    let own = vec![entry("x", 3, answer(&[], StopReason::Error, false))];
    let failure = reduced(input(vec![start.clone()], records, own)).terminal_failure.unwrap();
    assert_eq!((failure.entry_id.as_str(), failure.source), ("x", "step"));
    let fetched = LaneRecord::Usage {
        id: "u".to_string(),
        lane: "main".to_string(),
        usage: Usage::default(),
        cause: UsageCause::DeferredFetch {
            run_id: "r".to_string(),
            entry_id: "x".to_string(),
            attempt: 1,
            stop_reason: "error".to_string(),
        },
        seq: 4,
        timestamp: 0,
    };
    let own = vec![entry("x", 3, answer(&[], StopReason::Error, false))];
    let failure =
        reduced(input(vec![start.clone()], vec![start.clone(), fetched], own)).terminal_failure.unwrap();
    assert_eq!(failure.source, "deferred_fetch");
    let own = vec![entry("d", 3, answer(&[], StopReason::Deferred, true))];
    let o = operation(reduced(input(vec![start.clone()], vec![start], own)));
    assert_eq!(o.deferred.unwrap().id, "h");
}

#[test]
fn corrupt_lanes_are_refused() {
    let r = reduce_lane_state(input(vec![], vec![finish("r", 2)], vec![]));
    assert!(matches!(r, Err(e) if e.reason == RecordLogCorruptionReason::UnknownOperation));
}

#[test]
fn the_order_of_slices_does_not_matter() {
    let start = run("r", 1, vec![entry("i1", 0, user("i1"))]);
    let records = vec![
        start.clone(),
        enqueue("steer", Some("r"), entry("s1", 0, user("s1")), 4),
        enqueue("steer", Some("r"), entry("s2", 0, user("s2")), 5),
        attempt("assistant", 1, "a", None, 6),
    ];
    let own = vec![
        entry("i1", 2, user("i1")),
        entry("a", 7, answer(&["c1"], StopReason::ToolUse, false)),
    ];
    let backwards: Vec<LaneRecord> = records.iter().rev().cloned().collect();
    let own_backwards: Vec<Entry> = own.iter().rev().cloned().collect();
    let first = operation(reduced(input(vec![start.clone()], records, own.clone())));
    let mut turned = input(vec![start], backwards, own_backwards);
    turned.entries = own;
    let second = operation(reduced(turned));
    assert_eq!(ids(&first.pending_steer), vec!["s1", "s2"]);
    assert_eq!(ids(&second.pending_steer), vec!["s1", "s2"]);
    assert_eq!(first.newest_own.unwrap().entry_id, "a");
    assert_eq!(second.newest_own.unwrap().entry_id, "a");
}

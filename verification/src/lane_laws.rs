//! What holds of a lane that is recovered from what is stored of it: what waits,
//! what runs, and which configuration is in effect.

use vstd::prelude::*;

use crate::lane_state::{
    answers, awaits_write, call_result, calls_tools, configured_by, effective, first_answer,
    last_caller, latest_by_id, missing, target_of, targets_where, terminal_failure, tool_batch,
    waits_for_next_run, waits_for_run, ConfigurationView, LaneReductionInput,
};
use crate::order::in_order;
use crate::reducer::{
    is_abort_of, is_attempt_of, is_call_start_of, is_cancellation_of, is_producer_of, is_write_of,
    last_record, lemma_last_record,
};
use crate::session::state_laws::{an_entry_has, lemma_entry_there};
use crate::session::types::{Entry, LaneRecord, OperationIntent};
use crate::text::{text_of_option, texts};
use crate::types::{message_role, tool_calls_of, AgentMessage, AssistantContent, StopReason, ToolCall};

verus! {

// ---------------------------------------------------------------------------
// What waits
// ---------------------------------------------------------------------------

/// The entry that a record queues, if it still waits in a queue: it is not
/// stored, and it was not taken off.
pub open spec fn waiting(
    r: LaneRecord,
    records: Seq<LaneRecord>,
    all: Seq<Entry>,
    in_queue: Seq<char>,
    for_run: Option<Seq<char>>,
) -> Option<Entry> {
    match r {
        LaneRecord::QueueEnqueued { target, queue, run_id, .. } => if queue@ == in_queue
            && text_of_option(run_id) == for_run && !an_entry_has(all, target.spec_id())
            && !taken_off(records, target.spec_id()) {
            Some(target)
        } else {
            None
        },
        _ => None,
    }
}

/// Whether a queued entry was taken off its queue.
pub open spec fn taken_off(records: Seq<LaneRecord>, id: Seq<char>) -> bool {
    exists|i: int|
        0 <= i < records.len() && (#[trigger] records[i] matches LaneRecord::QueueCancelled {
            entry_id,
            ..
        } && entry_id@ == id)
}

proof fn lemma_taken_off(records: Seq<LaneRecord>, id: Seq<char>)
    ensures
        last_record(records, is_cancellation_of(id)) is None <==> !taken_off(records, id),
{
    let p = is_cancellation_of(id);
    lemma_last_record(records, p);
    if last_record(records, p) is Some {
        let r = last_record(records, p).unwrap();
        let i = choose|i: int|
            0 <= i < records.len() && #[trigger] records[i] == r && forall|j: int|
                i < j < records.len() ==> !p(#[trigger] records[j]);
        assert(records[i] matches LaneRecord::QueueCancelled { entry_id, .. } && entry_id@ == id);
    } else if taken_off(records, id) {
        let i = choose|i: int|
            0 <= i < records.len() && (#[trigger] records[i] matches LaneRecord::QueueCancelled {
                entry_id,
                ..
            } && entry_id@ == id);
        assert(p(records[i]));
    }
}

proof fn lemma_targets(
    part: Seq<LaneRecord>,
    p: spec_fn(LaneRecord) -> bool,
    f: spec_fn(LaneRecord) -> Option<Entry>,
)
    requires
        forall|r: LaneRecord| #[trigger]
            f(r) == if p(r) {
                Some(target_of(r))
            } else {
                None
            },
    ensures
        targets_where(part, p) == part.filter_map(f),
    decreases part.len(),
{
    if part.len() > 0 {
        lemma_targets(part.drop_last(), p, f);
        assert(f(part.last()) == if p(part.last()) {
            Some(target_of(part.last()))
        } else {
            None
        });
    }
    assert(targets_where(part, p) =~= part.filter_map(f));
}

/// Steering and follow-up messages wait for an operation in the order in which
/// they were queued for it, unless it is to abort. Those that were stored or
/// taken off wait no longer.
pub proof fn law_queued_messages_wait_in_order(input: LaneReductionInput)
    requires
        input.open_operations@.len() > 0,
        input.open_operations@[0] is OperationStarted,
    ensures
        ({
            let op = input.operation().unwrap();
            let run = input.open_operations@[0].spec_id();
            let records = in_order(input.records@);
            let all = input.all_entries();
            &&& op.id == run
            &&& !op.aborting ==> op.pending_steer == records.filter_map(
                |r: LaneRecord| waiting(r, records, all, "steer"@, Some(run)),
            )
            &&& !op.aborting ==> op.pending_follow_up == records.filter_map(
                |r: LaneRecord| waiting(r, records, all, "followUp"@, Some(run)),
            )
        }),
{
    let run = input.open_operations@[0].spec_id();
    let records = in_order(input.records@);
    let all = input.all_entries();
    lemma_waiting(records, all, "steer"@, run);
    lemma_waiting(records, all, "followUp"@, run);
}

proof fn lemma_waiting(records: Seq<LaneRecord>, all: Seq<Entry>, queue: Seq<char>, run: Seq<char>)
    ensures
        targets_where(records, waits_for_run(records, all, queue, run)) == records.filter_map(
            |r: LaneRecord| waiting(r, records, all, queue, Some(run)),
        ),
{
    let p = waits_for_run(records, all, queue, run);
    let f = |r: LaneRecord| waiting(r, records, all, queue, Some(run));
    assert forall|r: LaneRecord| #[trigger] f(r) == if p(r) {
        Some(target_of(r))
    } else {
        None
    } by {
        if let LaneRecord::QueueEnqueued { target, .. } = r {
            lemma_entry_there(all, target.spec_id());
            lemma_taken_off(records, target.spec_id());
        }
    }
    lemma_targets(records, p, f);
}

/// Messages for the next run wait in the order in which they were queued, but
/// for those that the open run began with.
pub proof fn law_messages_wait_for_the_next_run(input: LaneReductionInput)
    ensures
        ({
            let records = in_order(input.records@);
            let all = input.all_entries();
            let captured = match (input.open_operations@.len() > 0, input.open_operations@[0]) {
                (
                    true,
                    LaneRecord::OperationStarted {
                        intent: OperationIntent::Run { initial_messages, .. },
                        ..
                    },
                ) => initial_messages@,
                _ => Seq::empty(),
            };
            input.next_run() == records.filter_map(
                |r: LaneRecord|
                    match waiting(r, records, all, "nextRun"@, None) {
                        Some(target) => if an_entry_has(captured, target.spec_id()) {
                            None
                        } else {
                            Some(target)
                        },
                        None => None,
                    },
            )
        }),
{
    let records = in_order(input.records@);
    let all = input.all_entries();
    let captured = match (input.open_operations@.len() > 0, input.open_operations@[0]) {
        (
            true,
            LaneRecord::OperationStarted {
                intent: OperationIntent::Run { initial_messages, .. },
                ..
            },
        ) => initial_messages@,
        _ => Seq::empty(),
    };
    assert(captured == input.captured());
    let p = waits_for_next_run(records, all, captured);
    let f = |r: LaneRecord|
        match waiting(r, records, all, "nextRun"@, None) {
            Some(target) => if an_entry_has(captured, target.spec_id()) {
                None
            } else {
                Some(target)
            },
            None => None,
        };
    assert forall|r: LaneRecord| #[trigger] f(r) == if p(r) {
        Some(target_of(r))
    } else {
        None
    } by {
        if let LaneRecord::QueueEnqueued { target, .. } = r {
            lemma_entry_there(all, target.spec_id());
            lemma_entry_there(captured, target.spec_id());
            lemma_taken_off(records, target.spec_id());
        }
    }
    lemma_targets(records, p, f);
}

/// The writes that an operation deferred wait in order until they are made, and
/// the messages that it began with are missing until they are stored.
pub proof fn law_writes_wait_until_they_are_made(input: LaneReductionInput)
    requires
        input.open_operations@.len() > 0,
        input.open_operations@[0] is OperationStarted,
    ensures
        ({
            let op = input.operation().unwrap();
            let run = input.open_operations@[0].spec_id();
            let records = in_order(input.records@);
            let all = input.all_entries();
            &&& op.pending_writes == records.filter_map(
                |r: LaneRecord|
                    match r {
                        LaneRecord::WriteDeferred { run_id, target, .. } => if run_id@ == run
                            && !an_entry_has(all, target.spec_id()) {
                            Some(target)
                        } else {
                            None
                        },
                        _ => None,
                    },
            )
            &&& op.missing_initial_messages == (match op.intent {
                OperationIntent::Run { initial_messages, .. } => initial_messages@.filter(
                    |e: Entry| !an_entry_has(all, e.spec_id()),
                ),
                _ => Seq::empty(),
            })
        }),
{
    let run = input.open_operations@[0].spec_id();
    let records = in_order(input.records@);
    let all = input.all_entries();
    let p = awaits_write(all, run);
    let f = |r: LaneRecord|
        match r {
            LaneRecord::WriteDeferred { run_id, target, .. } => if run_id@ == run && !an_entry_has(
                all,
                target.spec_id(),
            ) {
                Some(target)
            } else {
                None
            },
            _ => None,
        };
    assert forall|r: LaneRecord| #[trigger] f(r) == if p(r) {
        Some(target_of(r))
    } else {
        None
    } by {
        if let LaneRecord::WriteDeferred { target, .. } = r {
            lemma_entry_there(all, target.spec_id());
        }
    }
    lemma_targets(records, p, f);
    let op = input.operation().unwrap();
    if let OperationIntent::Run { initial_messages, .. } = op.intent {
        lemma_missing(initial_messages@, all);
    } else {
        assert(op.missing_initial_messages =~= Seq::<Entry>::empty());
    }
}

proof fn lemma_missing(targets: Seq<Entry>, all: Seq<Entry>)
    ensures
        missing(targets, all) == targets.filter(|e: Entry| !an_entry_has(all, e.spec_id())),
    decreases targets.len(),
{
    reveal(Seq::filter);
    let p = |e: Entry| !an_entry_has(all, e.spec_id());
    if targets.len() > 0 {
        lemma_missing(targets.drop_last(), all);
        lemma_entry_there(all, targets.last().spec_id());
    }
    assert(missing(targets, all) =~= targets.filter(p));
}

// ---------------------------------------------------------------------------
// What runs
// ---------------------------------------------------------------------------

/// Whether a record is an attempt at a step of an operation.
pub open spec fn attempts(r: LaneRecord, run: Seq<char>) -> bool {
    r matches LaneRecord::StepAttempt { run_id, .. } && run_id@ == run
}

/// An operation is to abort when that was asked of it. It is at the step that
/// was attempted last, until the result of that is stored.
pub proof fn law_operations_are_at_their_last_attempt(input: LaneReductionInput)
    requires
        input.open_operations@.len() > 0,
        input.open_operations@[0] is OperationStarted,
    ensures
        ({
            let op = input.operation().unwrap();
            let run = input.open_operations@[0].spec_id();
            let records = in_order(input.records@);
            let all = input.all_entries();
            &&& op.aborting <==> exists|i: int|
                0 <= i < records.len() && (
                #[trigger] records[i] matches LaneRecord::AbortRequested { run_id, .. } && run_id@
                    == run)
            &&& forall|i: int|
                0 <= i < records.len() && #[trigger] attempts(records[i], run) && (forall|j: int|
                    i < j < records.len() ==> !#[trigger] attempts(records[j], run)) ==> (
                records[i] matches LaneRecord::StepAttempt { result_entry_id, attempt, step, .. }
                    && match op.step {
                    Some(at) => {
                        &&& at.result_entry_id == result_entry_id@
                        &&& at.attempts == attempt
                        &&& !an_entry_has(all, result_entry_id@)
                        &&& step@ == "assistant"@ || step@ == "compaction"@ ==> at.kind == step@
                    },
                    None => an_entry_has(all, result_entry_id@),
                })
            &&& (forall|i: int| 0 <= i < records.len() ==> !#[trigger] attempts(records[i], run))
                ==> op.step is None
        }),
{
    let op = input.operation().unwrap();
    let run = input.open_operations@[0].spec_id();
    let records = in_order(input.records@);
    let all = input.all_entries();
    let abort = is_abort_of(run);
    lemma_last_record(records, abort);
    if op.aborting {
        let r = last_record(records, abort).unwrap();
        let i = choose|i: int|
            0 <= i < records.len() && #[trigger] records[i] == r && forall|j: int|
                i < j < records.len() ==> !abort(#[trigger] records[j]);
        assert(records[i] matches LaneRecord::AbortRequested { run_id, .. } && run_id@ == run);
    } else {
        assert forall|i: int| 0 <= i < records.len() implies !(
        #[trigger] records[i] matches LaneRecord::AbortRequested { run_id, .. } && run_id@
            == run) by {
            assert(!abort(records[i]));
        }
    }
    let attempt = is_attempt_of(run);
    lemma_last_record(records, attempt);
    assert forall|r: LaneRecord| #[trigger] attempt(r) <==> attempts(r, run) by {}
    match last_record(records, attempt) {
        Some(r) => {
            let k = choose|i: int|
                0 <= i < records.len() && #[trigger] records[i] == r && forall|j: int|
                    i < j < records.len() ==> !attempt(#[trigger] records[j]);
            assert(attempts(records[k], run));
            assert forall|i: int|
                0 <= i < records.len() && #[trigger] attempts(records[i], run) && (forall|j: int|
                    i < j < records.len() ==> !#[trigger] attempts(records[j], run)) implies i
                == k by {
                assert(attempt(records[i]));
            }
            if let LaneRecord::StepAttempt { result_entry_id, .. } = r {
                lemma_entry_there(all, result_entry_id@);
            }
        },
        None => {
            assert forall|i: int| 0 <= i < records.len() implies !#[trigger] attempts(
                records[i],
                run,
            ) by {
                assert(!attempt(records[i]));
            }
        },
    }
}

/// What is known of an operation's last entry is that of its last entry: who
/// said it, why it stopped, and the answer that it waits for.
pub proof fn law_the_last_entry_is_known(input: LaneReductionInput)
    requires
        input.open_operations@.len() > 0,
        input.open_operations@[0] is OperationStarted,
    ensures
        ({
            let op = input.operation().unwrap();
            let own = in_order(input.own_entries@);
            &&& op.newest_own is None <==> own.len() == 0
            &&& op.newest_own matches Some(known) ==> {
                let last = own.last();
                &&& known.entry_id == last.spec_id()
                &&& known.entry_type == last.spec_type()
                &&& last matches Entry::Message { message, .. } ==> known.role == Some(
                    message_role(message),
                )
                &&& last matches Entry::Message { message: AgentMessage::Assistant(m), .. }
                    ==> known.stop_reason == Some(m.stop_reason) && op.deferred == if m.stop_reason
                    == StopReason::Deferred {
                    m.deferred
                } else {
                    None
                }
            }
        }),
{
}

// ---------------------------------------------------------------------------
// Calls of tools
// ---------------------------------------------------------------------------

/// The calls that an entry makes, if it is an answer of the model.
pub open spec fn calls_made(entry: Entry) -> Seq<ToolCall> {
    match entry {
        Entry::Message { message: AgentMessage::Assistant(m), .. } => m.content@.filter_map(
            |block: AssistantContent|
                match block {
                    AssistantContent::ToolCall(call) => Some(call),
                    _ => None,
                },
        ),
        _ => Seq::empty(),
    }
}

/// The calls of an answer are its blocks that are calls.
pub proof fn lemma_calls(content: Seq<AssistantContent>)
    ensures
        tool_calls_of(content) == content.filter_map(
            |block: AssistantContent|
                match block {
                    AssistantContent::ToolCall(call) => Some(call),
                    _ => None,
                },
        ),
    decreases content.len(),
{
    let f = |block: AssistantContent|
        match block {
            AssistantContent::ToolCall(call) => Some(call),
            _ => None,
        };
    if content.len() > 0 {
        lemma_calls(content.drop_last());
    }
    assert(tool_calls_of(content) =~= content.filter_map(f));
}

proof fn lemma_calls_made(entry: Entry)
    ensures
        calls_tools(entry) <==> calls_made(entry).len() > 0,
        entry matches Entry::Message { message: AgentMessage::Assistant(m), .. } ==> calls_made(
            entry,
        ) == tool_calls_of(m.content@),
{
    if let Entry::Message { message: AgentMessage::Assistant(m), .. } = entry {
        lemma_calls(m.content@);
    }
}

proof fn lemma_caller(own: Seq<Entry>, at: int)
    requires
        0 <= at < own.len(),
        calls_made(own[at]).len() > 0,
        forall|i: int| at < i < own.len() ==> calls_made(#[trigger] own[i]).len() == 0,
    ensures
        last_caller(own) == Some(own[at]),
    decreases own.len(),
{
    lemma_calls_made(own.last());
    if at < own.len() - 1 {
        assert(calls_made(own[own.len() - 1]).len() == 0);
        let front = own.drop_last();
        assert forall|i: int| at < i < front.len() implies calls_made(#[trigger] front[i]).len()
            == 0 by {
            assert(front[i] == own[i]);
        }
        lemma_caller(front, at);
    }
}

/// The calls that an operation is to answer are those of its last answer that
/// made some, each in its place. A call has a result when that of its start is
/// stored, or when a later entry answers it.
pub proof fn law_calls_await_their_results(
    records: Seq<LaneRecord>,
    own: Seq<Entry>,
    all: Seq<Entry>,
    run: Seq<char>,
    at: int,
)
    requires
        0 <= at < own.len(),
        calls_made(own[at]).len() > 0,
        forall|i: int| at < i < own.len() ==> calls_made(#[trigger] own[i]).len() == 0,
        calls_made(own[at]).len() <= u32::MAX,
    ensures
        tool_batch(records, own, all, run) matches Some(batch) && {
            let calls = calls_made(own[at]);
            &&& batch.assistant_entry_id == own[at].spec_id()
            &&& batch.calls.len() == calls.len()
            &&& forall|i: int|
                0 <= i < calls.len() ==> {
                    let state = #[trigger] batch.calls[i];
                    let answered = exists|k: int|
                        0 <= k < own.len() && #[trigger] answers(
                            own[k],
                            records,
                            run,
                            own[at].spec_seq(),
                            calls[i].id@,
                        );
                    &&& state.tool_call == calls[i]
                    &&& state.tool_index == i
                    &&& state.result_exists <==> answered || (state.started matches Some(
                        LaneRecord::ToolStarted { result_entry_id, .. },
                    ) && an_entry_has(all, result_entry_id@))
                }
            &&& batch.unresolved <==> exists|i: int|
                0 <= i < calls.len() && !(#[trigger] batch.calls[i]).result_exists
        },
{
    lemma_caller(own, at);
    lemma_calls_made(own[at]);
    let calls = calls_made(own[at]);
    let batch = tool_batch(records, own, all, run).unwrap();
    assert forall|i: int| 0 <= i < calls.len() implies {
        let state = #[trigger] batch.calls[i];
        let answered = exists|k: int|
            0 <= k < own.len() && #[trigger] answers(
                own[k],
                records,
                run,
                own[at].spec_seq(),
                calls[i].id@,
            );
        &&& state.tool_call == calls[i]
        &&& state.tool_index == i
        &&& state.result_exists <==> answered || (state.started matches Some(
            LaneRecord::ToolStarted { result_entry_id, .. },
        ) && an_entry_has(all, result_entry_id@))
    } by {
        let state = batch.calls[i];
        let p = is_call_start_of(run, own[at].spec_id(), i as u32);
        lemma_last_record(records, p);
        lemma_first_answer(own, records, run, own[at].spec_seq(), calls[i].id@);
        if let Some(LaneRecord::ToolStarted { result_entry_id, .. }) = state.started {
            lemma_entry_there(all, result_entry_id@);
        }
        assert(state.result_exists == (call_result(
            state.started,
            first_answer(own, records, run, own[at].spec_seq(), calls[i].id@),
            all,
        ) is Some));
    }
}

proof fn lemma_first_answer(
    own: Seq<Entry>,
    records: Seq<LaneRecord>,
    run: Seq<char>,
    after: u64,
    call_id: Seq<char>,
)
    ensures
        first_answer(own, records, run, after, call_id) is Some <==> exists|k: int|
            0 <= k < own.len() && #[trigger] answers(own[k], records, run, after, call_id),
    decreases own.len(),
{
    if own.len() > 0 {
        let rest = own.drop_first();
        lemma_first_answer(rest, records, run, after, call_id);
        if answers(own[0], records, run, after, call_id) {
        } else {
            if exists|k: int|
                0 <= k < own.len() && #[trigger] answers(own[k], records, run, after, call_id) {
                let k = choose|k: int|
                    0 <= k < own.len() && #[trigger] answers(own[k], records, run, after, call_id);
                assert(answers(rest[k - 1], records, run, after, call_id));
            }
            if exists|k: int|
                0 <= k < rest.len() && #[trigger] answers(rest[k], records, run, after, call_id) {
                let k = choose|k: int|
                    0 <= k < rest.len() && #[trigger] answers(
                        rest[k],
                        records,
                        run,
                        after,
                        call_id,
                    );
                assert(answers(own[k + 1], records, run, after, call_id));
            }
        }
    }
}

/// Without a call there is nothing to answer.
pub proof fn law_without_calls_nothing_is_answered(
    records: Seq<LaneRecord>,
    own: Seq<Entry>,
    all: Seq<Entry>,
    run: Seq<char>,
)
    requires
        forall|i: int| 0 <= i < own.len() ==> calls_made(#[trigger] own[i]).len() == 0,
    ensures
        tool_batch(records, own, all, run) is None,
    decreases own.len(),
{
    if own.len() > 0 {
        lemma_calls_made(own.last());
        assert(calls_made(own[own.len() - 1]).len() == 0);
        let front = own.drop_last();
        assert forall|i: int| 0 <= i < front.len() implies calls_made(#[trigger] front[i]).len()
            == 0 by {
            assert(front[i] == own[i]);
        }
        law_without_calls_nothing_is_answered(records, front, all, run);
    }
}

// ---------------------------------------------------------------------------
// Configuration
// ---------------------------------------------------------------------------

/// An entry sets what it says and leaves the rest: a change of the model, the
/// thinking level or the tools, or the model that answered.
pub proof fn law_entries_set_what_they_say(
    defaults: ConfigurationView,
    entries: Seq<Entry>,
    entry: Entry,
)
    ensures
        configured_by(defaults, Seq::empty()) == defaults,
        ({
            let before = configured_by(defaults, entries);
            let after = configured_by(defaults, entries.push(entry));
            &&& match entry {
                Entry::ModelChange { provider, model_id, .. } => after.provider == provider@
                    && after.model_id == model_id@,
                Entry::Message { message: AgentMessage::Assistant(m), .. } => after.provider
                    == m.provider@ && after.model_id == m.model@,
                _ => after.provider == before.provider && after.model_id == before.model_id,
            }
            &&& match entry {
                Entry::ThinkingLevelChange { thinking_level, .. } => after.thinking_level
                    == thinking_level@,
                _ => after.thinking_level == before.thinking_level,
            }
            &&& match entry {
                Entry::ActiveToolsChange { active_tool_names, .. } => after.active_tool_names
                    == texts(active_tool_names@),
                _ => after.active_tool_names == before.active_tool_names,
            }
        }),
{
    assert(entries.push(entry).drop_last() =~= entries);
}

/// Of entries with the same id the last one stands, and what is in effect is
/// set by those in the order of their numbers.
pub proof fn law_later_entries_replace_earlier_ones(
    defaults: ConfigurationView,
    entry: Entry,
    rest: Seq<Entry>,
    configuration: Seq<Entry>,
    own: Seq<Entry>,
)
    ensures
        latest_by_id(seq![entry] + rest) == if an_entry_has(rest, entry.spec_id()) {
            latest_by_id(rest)
        } else {
            seq![entry] + latest_by_id(rest)
        },
        latest_by_id(Seq::empty()).len() == 0,
        effective(defaults, configuration, own) == configured_by(
            defaults,
            in_order(latest_by_id(configuration + own)),
        ),
{
    lemma_entry_there(rest, entry.spec_id());
    assert((seq![entry] + rest).drop_first() =~= rest);
}

/// An operation failed when its last entry is an answer that tells an error and
/// that a step or the fetch of a deferred answer made.
pub proof fn law_errors_at_the_end_are_failures(
    records: Seq<LaneRecord>,
    own: Seq<Entry>,
    run: Seq<char>,
)
    ensures
        match terminal_failure(records, own, run) {
            Some(failure) => own.len() > 0 && (own.last() matches Entry::Message {
                id,
                message: AgentMessage::Assistant(m),
                ..
            } && {
                &&& failure.entry_id == id@
                &&& failure.message == *m
                &&& m.stop_reason == StopReason::Error
                &&& failure.source == "step"@ || failure.source == "deferred_fetch"@
                &&& failure.source == "step"@ <==> exists|i: int|
                    0 <= i < records.len() && #[trigger] makes(records[i], run, id@)
            }),
            None => true,
        },
        own.len() > 0 && (own.last() matches Entry::Message {
            id,
            message: AgentMessage::Assistant(m),
            ..
        } && m.stop_reason == StopReason::Error && (exists|i: int|
            0 <= i < records.len() && #[trigger] makes(records[i], run, id@)) && forall|i: int|
            0 <= i < records.len() ==> !#[trigger] writes(records[i], run, id@))
            ==> terminal_failure(records, own, run) is Some,
{
    reveal_strlit("step");
    reveal_strlit("deferred_fetch");
    assert("step"@[0] == 's');
    assert("deferred_fetch"@[0] == 'd');
    if own.len() > 0 {
        if let Entry::Message { id, message: AgentMessage::Assistant(_), .. } = own.last() {
            let p = is_producer_of(run, id@);
            let q = is_write_of(run, id@);
            lemma_last_record(records, p);
            lemma_last_record(records, q);
            if let Some(r) = last_record(records, p) {
                let i = choose|i: int|
                    0 <= i < records.len() && #[trigger] records[i] == r && forall|j: int|
                        i < j < records.len() ==> !p(#[trigger] records[j]);
                assert(makes(records[i], run, id@));
            } else {
                assert forall|i: int| 0 <= i < records.len() implies !#[trigger] makes(
                    records[i],
                    run,
                    id@,
                ) by {
                    assert(!p(records[i]));
                }
            }
            if let Some(r) = last_record(records, q) {
                let i = choose|i: int|
                    0 <= i < records.len() && #[trigger] records[i] == r && forall|j: int|
                        i < j < records.len() ==> !q(#[trigger] records[j]);
                assert(writes(records[i], run, id@));
            }
        }
    }
}

/// Whether a record is an attempt of an operation that was to make an entry.
pub open spec fn makes(r: LaneRecord, run: Seq<char>, id: Seq<char>) -> bool {
    r matches LaneRecord::StepAttempt { run_id, result_entry_id, .. } && run_id@ == run
        && result_entry_id@ == id
}

/// Whether a record defers the write of an entry.
pub open spec fn writes(r: LaneRecord, run: Seq<char>, id: Seq<char>) -> bool {
    r matches LaneRecord::WriteDeferred { run_id, target, .. } && run_id@ == run
        && target.spec_id() == id
}

} // verus!

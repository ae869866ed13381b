//! What holds of the records of a lane that are accepted.

use vstd::prelude::*;

use crate::order::in_order;
use crate::reducer::{
    deferred_problem, is_abort_of, is_attempt_of, is_enqueue_of, is_finish_of, is_start_of,
    is_tool_start_of, last_record, lemma_last_record, log_problem, provisioned_problems,
    record_kind_problem, record_problem, RecordLogSlice,
};
use crate::lane_laws::calls_made;
use crate::session::state_laws::{an_entry_has, lemma_entry_there};
use crate::session::types::{entry_by_id, equal_intent, Entry, LaneRecord, OperationIntent};
use crate::text::text_of_option;
use crate::types::{message_role, AgentMessage, StopReason};

verus! {

// ---------------------------------------------------------------------------
// Logs
// ---------------------------------------------------------------------------

proof fn lemma_all_records(log: Seq<LaneRecord>, from: int, entries: Seq<Entry>)
    requires
        0 <= from,
    ensures
        log_problem(log, from, entries) is None <==> forall|i: int|
            from <= i < log.len() ==> record_problem(log.take(i), #[trigger] log[i], entries)
                is None,
    decreases log.len() - from,
{
    if from < log.len() {
        lemma_all_records(log, from + 1, entries);
        if log_problem(log, from, entries) is Some {
            if record_problem(log.take(from), log[from], entries) is None {
                let i = choose|i: int|
                    from + 1 <= i < log.len() && record_problem(
                        log.take(i),
                        #[trigger] log[i],
                        entries,
                    ) is Some;
                assert(record_problem(log.take(i), log[i], entries) is Some);
            }
        }
    }
}

/// Whether an entry waits for an answer that nothing leads to.
pub open spec fn has_no_handle(entry: Entry) -> bool {
    entry matches Entry::Message { message: AgentMessage::Assistant(m), .. } && m.stop_reason
        == StopReason::Deferred && m.deferred is None
}

proof fn lemma_handles(entries: Seq<Entry>)
    ensures
        deferred_problem(entries) is None <==> forall|i: int|
            0 <= i < entries.len() ==> !has_no_handle(#[trigger] entries[i]),
    decreases entries.len(),
{
    if entries.len() > 0 {
        let rest = entries.drop_first();
        lemma_handles(rest);
        if forall|i: int| 0 <= i < entries.len() ==> !has_no_handle(#[trigger] entries[i]) {
            assert(!has_no_handle(entries[0]));
            assert forall|i: int| 0 <= i < rest.len() implies !has_no_handle(
                #[trigger] rest[i],
            ) by {
                assert(rest[i] == entries[i + 1]);
            }
        }
        if deferred_problem(entries) is None {
            assert forall|i: int| 0 <= i < entries.len() implies !has_no_handle(
                #[trigger] entries[i],
            ) by {
                if i > 0 {
                    assert(rest[i - 1] == entries[i]);
                }
            }
        }
    }
}

/// A log is accepted when no more than one operation is open, each answer that
/// waits can be asked for, and each record fits those before it.
pub proof fn law_when_logs_are_accepted(slice: RecordLogSlice)
    ensures
        ({
            let log = in_order(slice.records@);
            let entries = slice.entries@;
            slice.problem() is None <==> {
                &&& slice.open_operations@.len() <= 1
                &&& forall|i: int| 0 <= i < entries.len() ==> !has_no_handle(#[trigger] entries[i])
                &&& forall|i: int|
                    0 <= i < log.len() ==> record_problem(log.take(i), #[trigger] log[i], entries)
                        is None
            }
        }),
{
    lemma_handles(slice.entries@);
    lemma_all_records(in_order(slice.records@), 0, slice.entries@);
}

// ---------------------------------------------------------------------------
// Records
// ---------------------------------------------------------------------------

/// Whether an entry that was to be made is there as it was meant, or not there.
pub open spec fn made_as_meant(entries: Seq<Entry>, target: Entry) -> bool {
    entry_by_id(entries, target.spec_id()) matches Some(entry) ==> equal_intent(entry, target)
}

proof fn lemma_all_made(entries: Seq<Entry>, targets: Seq<Entry>)
    ensures
        provisioned_problems(entries, targets) is None <==> forall|i: int|
            0 <= i < targets.len() ==> made_as_meant(entries, #[trigger] targets[i]),
    decreases targets.len(),
{
    if targets.len() > 0 {
        let rest = targets.drop_first();
        lemma_all_made(entries, rest);
        if forall|i: int| 0 <= i < targets.len() ==> made_as_meant(entries, #[trigger] targets[i]) {
            assert(made_as_meant(entries, targets[0]));
            assert forall|i: int| 0 <= i < rest.len() implies made_as_meant(
                entries,
                #[trigger] rest[i],
            ) by {
                assert(rest[i] == targets[i + 1]);
            }
        }
        if provisioned_problems(entries, targets) is None {
            assert forall|i: int| 0 <= i < targets.len() implies made_as_meant(
                entries,
                #[trigger] targets[i],
            ) by {
                if i > 0 {
                    assert(rest[i - 1] == targets[i]);
                }
            }
        }
    }
}

/// The start of an operation is accepted when what the operation was to make is,
/// where it is there, what it was meant to be.
pub proof fn law_when_starts_are_accepted(
    earlier: Seq<LaneRecord>,
    r: LaneRecord,
    entries: Seq<Entry>,
)
    ensures
        r matches LaneRecord::OperationStarted { intent, .. } ==> (record_problem(
            earlier,
            r,
            entries,
        ) is None <==> match intent {
            OperationIntent::Run { initial_messages, .. } => forall|i: int|
                0 <= i < initial_messages@.len() ==> made_as_meant(
                    entries,
                    #[trigger] initial_messages@[i],
                ),
            OperationIntent::Compaction { result_entry_id, .. } => entry_by_id(
                entries,
                result_entry_id@,
            ) matches Some(entry) ==> entry is Compaction,
            OperationIntent::Navigation { summary_entry_id, .. } => summary_entry_id matches Some(
                id,
            ) ==> (entry_by_id(entries, id@) matches Some(entry) ==> entry is BranchSummary),
        }),
{
    if let LaneRecord::OperationStarted { intent: OperationIntent::Run { initial_messages, .. }, .. } =
        r {
        lemma_all_made(entries, initial_messages@);
    }
}

/// Whether a record starts an operation.
pub open spec fn starts(r: LaneRecord, run: Seq<char>) -> bool {
    r matches LaneRecord::OperationStarted { id, .. } && id@ == run
}

/// Whether a record finishes an operation.
pub open spec fn finishes(r: LaneRecord, run: Seq<char>) -> bool {
    r matches LaneRecord::OperationFinished { run_id, .. } && run_id@ == run
}

/// A record of an operation is accepted when the operation was started before,
/// no finish of it has a smaller number at the last, and the rule on its kind
/// holds.
pub proof fn law_when_records_are_accepted(
    earlier: Seq<LaneRecord>,
    r: LaneRecord,
    entries: Seq<Entry>,
    run: Seq<char>,
)
    requires
        !(r is OperationStarted),
        r.spec_run_id() == Some(run),
    ensures
        record_problem(earlier, r, entries) is None <==> {
            &&& exists|i: int| 0 <= i < earlier.len() && starts(#[trigger] earlier[i], run)
            &&& forall|i: int|
                0 <= i < earlier.len() && finishes(#[trigger] earlier[i], run) && (forall|j: int|
                    i < j < earlier.len() ==> !finishes(#[trigger] earlier[j], run))
                    ==> r.spec_seq() <= earlier[i].spec_seq()
            &&& record_kind_problem(earlier, r, entries) is None
        },
{
    let p = is_start_of(run);
    let q = is_finish_of(run);
    lemma_last_record(earlier, p);
    lemma_last_record(earlier, q);
    assert forall|x: LaneRecord| #[trigger] p(x) <==> starts(x, run) by {}
    assert forall|x: LaneRecord| #[trigger] q(x) <==> finishes(x, run) by {}
    if let Some(found) = last_record(earlier, p) {
        let i = choose|i: int|
            0 <= i < earlier.len() && #[trigger] earlier[i] == found && forall|j: int|
                i < j < earlier.len() ==> !p(#[trigger] earlier[j]);
        assert(starts(earlier[i], run));
    } else {
        assert forall|i: int| 0 <= i < earlier.len() implies !starts(
            #[trigger] earlier[i],
            run,
        ) by {
            assert(!p(earlier[i]));
        }
    }
    match last_record(earlier, q) {
        Some(found) => {
            let k = choose|i: int|
                0 <= i < earlier.len() && #[trigger] earlier[i] == found && forall|j: int|
                    i < j < earlier.len() ==> !q(#[trigger] earlier[j]);
            assert(finishes(earlier[k], run));
            assert forall|j: int| k < j < earlier.len() implies !finishes(
                #[trigger] earlier[j],
                run,
            ) by {
                assert(!q(earlier[j]));
            }
            assert forall|i: int|
                0 <= i < earlier.len() && finishes(#[trigger] earlier[i], run) && (forall|j: int|
                    i < j < earlier.len() ==> !finishes(#[trigger] earlier[j], run)) implies i
                == k by {
                assert(q(earlier[i]));
            }
        },
        None => {
            assert forall|i: int| 0 <= i < earlier.len() implies !finishes(
                #[trigger] earlier[i],
                run,
            ) by {
                assert(!q(earlier[i]));
            }
        },
    }
}

/// A call of a tool is accepted when it was not started before, the answer that
/// it names makes that call at that place, and its result, where it is there,
/// is one of that call.
pub proof fn law_when_calls_are_accepted(
    earlier: Seq<LaneRecord>,
    r: LaneRecord,
    entries: Seq<Entry>,
)
    ensures
        r matches LaneRecord::ToolStarted {
            assistant_entry_id,
            tool_index,
            tool_call_id,
            tool_name,
            result_entry_id,
            ..
        } ==> (record_kind_problem(earlier, r, entries) is None <==> {
            &&& forall|i: int|
                0 <= i < earlier.len() ==> !(#[trigger] earlier[i] matches LaneRecord::ToolStarted {
                    assistant_entry_id: other,
                    tool_index: place,
                    ..
                } && other@ == assistant_entry_id@ && place == tool_index)
            &&& entry_by_id(entries, assistant_entry_id@) matches Some(caller) && {
                &&& caller matches Entry::Message { message: AgentMessage::Assistant(_), .. }
                &&& tool_index < calls_made(caller).len()
                &&& calls_made(caller)[tool_index as int].id@ == tool_call_id@
                &&& calls_made(caller)[tool_index as int].name@ == tool_name@
            }
            &&& entry_by_id(entries, result_entry_id@) matches Some(result) ==> (
            result matches Entry::Message { message: AgentMessage::ToolResult(m), .. }
                && m.tool_call_id@ == tool_call_id@ && m.tool_name@ == tool_name@)
        }),
{
    if let LaneRecord::ToolStarted { assistant_entry_id, tool_index, .. } = r {
        let p = is_tool_start_of(assistant_entry_id@, tool_index);
        lemma_last_record(earlier, p);
        if last_record(earlier, p) is None {
            assert forall|i: int| 0 <= i < earlier.len() implies !(
            #[trigger] earlier[i] matches LaneRecord::ToolStarted {
                assistant_entry_id: other,
                tool_index: place,
                ..
            } && other@ == assistant_entry_id@ && place == tool_index) by {
                assert(!p(earlier[i]));
            }
        }
        if let Some(Entry::Message { message: AgentMessage::Assistant(m), .. }) = entry_by_id(
            entries,
            assistant_entry_id@,
        ) {
            crate::lane_laws::lemma_calls(m.content@);
        }
    }
}

/// What is queued is accepted when it is, where it is there, as it was meant,
/// and, for a run, when that was not told to abort before it.
pub proof fn law_when_queued_entries_are_accepted(
    earlier: Seq<LaneRecord>,
    r: LaneRecord,
    entries: Seq<Entry>,
)
    ensures
        r matches LaneRecord::QueueEnqueued { queue, target, run_id, seq, .. } ==> {
            let accepted = record_kind_problem(earlier, r, entries) is None;
            &&& accepted ==> made_as_meant(entries, target)
            &&& queue@ == "nextRun"@ ==> (accepted <==> made_as_meant(entries, target))
            &&& queue@ != "nextRun"@ && run_id is Some ==> (accepted <==> made_as_meant(
                entries,
                target,
            ) && forall|i: int|
                0 <= i < earlier.len() && aborts(#[trigger] earlier[i], run_id->0@) && (forall|
                    j: int,
                |
                    i < j < earlier.len() ==> !aborts(#[trigger] earlier[j], run_id->0@))
                    ==> r.spec_seq() <= earlier[i].spec_seq())
        },
        r matches LaneRecord::WriteDeferred { target, .. } ==> (record_kind_problem(
            earlier,
            r,
            entries,
        ) is None <==> made_as_meant(entries, target)),
{
    if let LaneRecord::QueueEnqueued { run_id: Some(run), .. } = r {
        let p = is_abort_of(run@);
        lemma_last_record(earlier, p);
        assert forall|x: LaneRecord| #[trigger] p(x) <==> aborts(x, run@) by {}
        match last_record(earlier, p) {
            Some(found) => {
                let k = choose|i: int|
                    0 <= i < earlier.len() && #[trigger] earlier[i] == found && forall|j: int|
                        i < j < earlier.len() ==> !p(#[trigger] earlier[j]);
                assert(aborts(earlier[k], run@));
                assert forall|j: int| k < j < earlier.len() implies !aborts(
                    #[trigger] earlier[j],
                    run@,
                ) by {
                    assert(!p(earlier[j]));
                }
                assert forall|i: int|
                    0 <= i < earlier.len() && aborts(#[trigger] earlier[i], run@) && (forall|
                        j: int,
                    |
                        i < j < earlier.len() ==> !aborts(#[trigger] earlier[j], run@)) implies i
                    == k by {
                    assert(p(earlier[i]));
                }
            },
            None => {
                assert forall|i: int| 0 <= i < earlier.len() implies !aborts(
                    #[trigger] earlier[i],
                    run@,
                ) by {
                    assert(!p(earlier[i]));
                }
            },
        }
    }
}

/// Whether a record asks an operation to abort.
pub open spec fn aborts(r: LaneRecord, run: Seq<char>) -> bool {
    r matches LaneRecord::AbortRequested { run_id, .. } && run_id@ == run
}

/// Whether a record queues an entry.
pub open spec fn queues(r: LaneRecord, id: Seq<char>) -> bool {
    r matches LaneRecord::QueueEnqueued { target, .. } && target.spec_id() == id
}

/// What is taken off a queue was queued before by the same operation, and is not
/// stored.
pub proof fn law_when_cancellations_are_accepted(
    earlier: Seq<LaneRecord>,
    r: LaneRecord,
    entries: Seq<Entry>,
)
    ensures
        r matches LaneRecord::QueueCancelled { entry_id, run_id, .. } ==> (record_kind_problem(
            earlier,
            r,
            entries,
        ) is None <==> {
            &&& !an_entry_has(entries, entry_id@)
            &&& exists|i: int| #![trigger earlier[i]]
                0 <= i < earlier.len() && queues(earlier[i], entry_id@)
                    && earlier[i].spec_seq() < r.spec_seq() && earlier[i].spec_run_id()
                    == text_of_option(run_id) && forall|j: int|
                    i < j < earlier.len() ==> !queues(#[trigger] earlier[j], entry_id@)
        }),
{
    if let LaneRecord::QueueCancelled { entry_id, run_id, .. } = r {
        lemma_entry_there(entries, entry_id@);
        let p = is_enqueue_of(entry_id@);
        lemma_last_record(earlier, p);
        assert forall|x: LaneRecord| #[trigger] p(x) <==> queues(x, entry_id@) by {}
        match last_record(earlier, p) {
            Some(found) => {
                let k = choose|i: int|
                    0 <= i < earlier.len() && #[trigger] earlier[i] == found && forall|j: int|
                        i < j < earlier.len() ==> !p(#[trigger] earlier[j]);
                assert(queues(earlier[k], entry_id@));
                assert forall|j: int| k < j < earlier.len() implies !queues(
                    #[trigger] earlier[j],
                    entry_id@,
                ) by {
                    assert(!p(earlier[j]));
                }
                assert forall|i: int|
                    0 <= i < earlier.len() && queues(#[trigger] earlier[i], entry_id@) && (forall|
                        j: int,
                    |
                        i < j < earlier.len() ==> !queues(#[trigger] earlier[j], entry_id@))
                        implies i == k by {
                    assert(p(earlier[i]));
                }
            },
            None => {
                assert forall|i: int| 0 <= i < earlier.len() implies !queues(
                    #[trigger] earlier[i],
                    entry_id@,
                ) by {
                    assert(!p(earlier[i]));
                }
            },
        }
    }
}

/// The kind of a step.
pub open spec fn kind_of(step: Seq<char>) -> int {
    if step == "assistant"@ {
        0
    } else if step == "compaction"@ {
        1
    } else {
        2
    }
}

/// An attempt is accepted when only a compaction gives a reason, one of three;
/// when it is the next of the attempts at its step, or the first; when further
/// attempts at a summary agree with the one before; and when its result, where
/// it is there, is of its kind.
pub proof fn law_when_attempts_are_accepted(
    earlier: Seq<LaneRecord>,
    r: LaneRecord,
    entries: Seq<Entry>,
)
    ensures
        r matches LaneRecord::StepAttempt {
            run_id,
            step,
            attempt,
            result_entry_id,
            compaction_reason,
            ..
        } ==> (record_kind_problem(earlier, r, entries) is None <==> {
            let kind = kind_of(step@);
            let reason = text_of_option(compaction_reason);
            &&& kind == 1 ==> reason == Some("manual"@) || reason == Some("threshold"@) || reason
                == Some("overflow"@)
            &&& kind != 1 ==> reason is None
            &&& match last_record(earlier, is_attempt_of(run_id@)) {
                Some(
                    LaneRecord::StepAttempt {
                        step: before,
                        attempt: number,
                        result_entry_id: result,
                        compaction_reason: given,
                        ..
                    },
                ) => {
                    let repeats = kind_of(before@) == kind && (entry_by_id(
                        entries,
                        result@,
                    ) matches Some(stored) ==> stored.spec_seq() >= r.spec_seq());
                    &&& repeats ==> attempt == number + 1
                    &&& !repeats ==> attempt == 1
                    &&& repeats && kind != 0 ==> result_entry_id@ == result@ && reason
                        == text_of_option(given)
                },
                _ => attempt == 1,
            }
            &&& entry_by_id(entries, result_entry_id@) matches Some(entry) ==> if kind == 0 {
                entry matches Entry::Message { message, .. } && message_role(message)
                    == "assistant"@
            } else if kind == 1 {
                entry is Compaction
            } else {
                entry is BranchSummary
            }
        }),
{
    reveal_strlit("assistant");
    reveal_strlit("compaction");
    reveal_strlit("branch_summary");
    assert("assistant"@[0] == 'a');
    assert("compaction"@[0] == 'c');
    assert("branch_summary"@[0] == 'b');
    if let LaneRecord::StepAttempt { run_id, .. } = r {
        lemma_last_record(earlier, is_attempt_of(run_id@));
    }
}

/// The last record of a kind is the one with no other of it behind it.
pub proof fn law_the_last_record_is_found(
    records: Seq<LaneRecord>,
    p: spec_fn(LaneRecord) -> bool,
    i: int,
)
    requires
        0 <= i < records.len(),
        p(records[i]),
        forall|j: int| i < j < records.len() ==> !p(#[trigger] records[j]),
    ensures
        last_record(records, p) == Some(records[i]),
    decreases records.len(),
{
    if i < records.len() - 1 {
        assert(!p(records[records.len() - 1]));
        let front = records.drop_last();
        assert forall|j: int| i < j < front.len() implies !p(#[trigger] front[j]) by {
            assert(front[j] == records[j]);
        }
        law_the_last_record_is_found(front, p, i);
    }
}

} // verus!

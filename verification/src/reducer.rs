//! Lane recovery: validation of a lane's record log and the pure
//! reconstruction of its orchestration state.

use vstd::prelude::*;

use crate::order::{in_order, sort_stable, Keyed};
use crate::session::types::{
    entry_by_id, entry_exists, equal_intent, find_entry, has_entry, same_intent, Entry, EntryType,
    LaneRecord, OperationIntent, UsageCause,
};
use crate::text::{
    concat2, concat3, concat4, concat5, decimal, decimal_text, same_optional_text, same_text,
    text_of_option,
};
use crate::types::{
    collect_tool_calls, message_role, tool_calls_of, AgentMessage, StopReason, ToolCall,
};

verus! {

impl Keyed for LaneRecord {
    open spec fn spec_key(&self) -> u64 {
        self.spec_seq()
    }

    fn key(&self) -> (r: u64) {
        self.seq()
    }
}

impl Keyed for Entry {
    open spec fn spec_key(&self) -> u64 {
        self.spec_seq()
    }

    fn key(&self) -> (r: u64) {
        self.seq()
    }
}

// ---------------------------------------------------------------------------
// Corruption
// ---------------------------------------------------------------------------

/// The rule that a record log breaks.
#[derive(Clone, Copy, PartialEq, Eq, Structural, Debug)]
pub enum RecordLogCorruptionReason {
    MultipleOpenOperations,
    UnknownOperation,
    RecordAfterFinish,
    NonConsecutiveAttempt,
    InvalidCompactionReason,
    QueueAfterAbort,
    InvalidQueueCancellation,
    InconsistentStep,
    ToolCallMismatch,
    DuplicateToolInvocation,
    ProvisionedEntryMismatch,
    InvalidDeferredHandle,
}

/// The machine-readable name of a reason.
pub open spec fn reason_name(reason: RecordLogCorruptionReason) -> Seq<char> {
    match reason {
        RecordLogCorruptionReason::MultipleOpenOperations => "multiple_open_operations"@,
        RecordLogCorruptionReason::UnknownOperation => "unknown_operation"@,
        RecordLogCorruptionReason::RecordAfterFinish => "record_after_finish"@,
        RecordLogCorruptionReason::NonConsecutiveAttempt => "non_consecutive_attempt"@,
        RecordLogCorruptionReason::InvalidCompactionReason => "invalid_compaction_reason"@,
        RecordLogCorruptionReason::QueueAfterAbort => "queue_after_abort"@,
        RecordLogCorruptionReason::InvalidQueueCancellation => "invalid_queue_cancellation"@,
        RecordLogCorruptionReason::InconsistentStep => "inconsistent_step"@,
        RecordLogCorruptionReason::ToolCallMismatch => "tool_call_mismatch"@,
        RecordLogCorruptionReason::DuplicateToolInvocation => "duplicate_tool_invocation"@,
        RecordLogCorruptionReason::ProvisionedEntryMismatch => "provisioned_entry_mismatch"@,
        RecordLogCorruptionReason::InvalidDeferredHandle => "invalid_deferred_handle"@,
    }
}

impl RecordLogCorruptionReason {
    /// The machine-readable name of the reason.
    pub fn as_str(self) -> (r: &'static str)
        ensures
            r@ == reason_name(self),
    {
        match self {
            RecordLogCorruptionReason::MultipleOpenOperations => "multiple_open_operations",
            RecordLogCorruptionReason::UnknownOperation => "unknown_operation",
            RecordLogCorruptionReason::RecordAfterFinish => "record_after_finish",
            RecordLogCorruptionReason::NonConsecutiveAttempt => "non_consecutive_attempt",
            RecordLogCorruptionReason::InvalidCompactionReason => "invalid_compaction_reason",
            RecordLogCorruptionReason::QueueAfterAbort => "queue_after_abort",
            RecordLogCorruptionReason::InvalidQueueCancellation => "invalid_queue_cancellation",
            RecordLogCorruptionReason::InconsistentStep => "inconsistent_step",
            RecordLogCorruptionReason::ToolCallMismatch => "tool_call_mismatch",
            RecordLogCorruptionReason::DuplicateToolInvocation => "duplicate_tool_invocation",
            RecordLogCorruptionReason::ProvisionedEntryMismatch => "provisioned_entry_mismatch",
            RecordLogCorruptionReason::InvalidDeferredHandle => "invalid_deferred_handle",
        }
    }
}

/// A broken rule of a record log and its message.
pub struct RecordLogCorruption {
    pub reason: RecordLogCorruptionReason,
    pub message: String,
}

/// The mathematical value of a [`RecordLogCorruption`].
pub struct CorruptionView {
    pub reason: RecordLogCorruptionReason,
    pub message: Seq<char>,
}

impl View for RecordLogCorruption {
    type V = CorruptionView;

    open spec fn view(&self) -> CorruptionView {
        CorruptionView { reason: self.reason, message: self.message@ }
    }
}

/// The outcome of a check in terms of mathematical values.
pub open spec fn outcome_of(r: Result<(), RecordLogCorruption>) -> Option<CorruptionView> {
    match r {
        Ok(_) => None,
        Err(e) => Some(e@),
    }
}

fn corrupt(reason: RecordLogCorruptionReason, message: String) -> (r: Result<(), RecordLogCorruption>)
    ensures
        outcome_of(r) == Some(CorruptionView { reason, message: message@ }),
{
    Err(RecordLogCorruption { reason, message })
}

/// The part of a session that a lane is recovered from.
pub struct RecordLogSlice {
    pub lane: String,
    pub open_operations: Vec<LaneRecord>,
    pub records: Vec<LaneRecord>,
    /// Entries appended by the operation and entries that records refer to.
    pub entries: Vec<Entry>,
}

// ---------------------------------------------------------------------------
// Lookups
// ---------------------------------------------------------------------------

/// The last record that satisfies a predicate.
pub open spec fn last_record(records: Seq<LaneRecord>, p: spec_fn(LaneRecord) -> bool) -> Option<
    LaneRecord,
>
    decreases records.len(),
{
    if records.len() == 0 {
        None
    } else if p(records.last()) {
        Some(records.last())
    } else {
        last_record(records.drop_last(), p)
    }
}

pub open spec fn is_start_of(run: Seq<char>) -> spec_fn(LaneRecord) -> bool {
    |r: LaneRecord| r is OperationStarted && r.spec_id() == run
}

pub open spec fn is_finish_of(run: Seq<char>) -> spec_fn(LaneRecord) -> bool {
    |r: LaneRecord| r is OperationFinished && r.spec_run_id() == Some(run)
}

pub open spec fn is_abort_of(run: Seq<char>) -> spec_fn(LaneRecord) -> bool {
    |r: LaneRecord| r is AbortRequested && r.spec_run_id() == Some(run)
}

pub open spec fn is_attempt_of(run: Seq<char>) -> spec_fn(LaneRecord) -> bool {
    |r: LaneRecord| r is StepAttempt && r.spec_run_id() == Some(run)
}

pub open spec fn is_enqueue_of(entry_id: Seq<char>) -> spec_fn(LaneRecord) -> bool {
    |r: LaneRecord| r is QueueEnqueued && r->QueueEnqueued_target.spec_id() == entry_id
}

pub open spec fn is_tool_start_of(assistant: Seq<char>, index: u32) -> spec_fn(LaneRecord) -> bool {
    |r: LaneRecord|
        r is ToolStarted && r->assistant_entry_id@ == assistant && r->tool_index == index
}

pub open spec fn is_cancellation_of(entry_id: Seq<char>) -> spec_fn(LaneRecord) -> bool {
    |r: LaneRecord| r is QueueCancelled && r->entry_id@ == entry_id
}

pub open spec fn is_write_of(run: Seq<char>, entry_id: Seq<char>) -> spec_fn(LaneRecord) -> bool {
    |r: LaneRecord|
        r is WriteDeferred && r.spec_run_id() == Some(run)
            && r->WriteDeferred_target.spec_id() == entry_id
}

pub open spec fn is_producer_of(run: Seq<char>, entry_id: Seq<char>) -> spec_fn(
    LaneRecord,
) -> bool {
    |r: LaneRecord|
        r is StepAttempt && r.spec_run_id() == Some(run) && r->StepAttempt_result_entry_id@
            == entry_id
}

pub open spec fn is_fetch_of(run: Seq<char>, entry_id: Seq<char>) -> spec_fn(LaneRecord) -> bool {
    |r: LaneRecord|
        r is Usage && r.spec_run_id() == Some(run) && r->cause is DeferredFetch
            && r->cause->DeferredFetch_entry_id@ == entry_id
}

pub open spec fn is_overflow_of(run: Seq<char>, after: u64) -> spec_fn(LaneRecord) -> bool {
    |r: LaneRecord|
        r is StepAttempt && r.spec_run_id() == Some(run) && r->step@ == "compaction"@
            && text_of_option(r->compaction_reason) == Some("overflow"@) && r.spec_seq() > after
}

pub open spec fn is_call_start_of(run: Seq<char>, assistant: Seq<char>, index: u32) -> spec_fn(
    LaneRecord,
) -> bool {
    |r: LaneRecord|
        r is ToolStarted && r.spec_run_id() == Some(run) && r->assistant_entry_id@ == assistant
            && r->tool_index == index
}

/// Which records [`find_record`] looks for.
pub enum RecordFilter<'a> {
    Start(&'a String),
    Finish(&'a String),
    Abort(&'a String),
    Attempt(&'a String),
    Enqueue(&'a String),
    ToolStart(&'a String, u32),
    /// A cancellation of the entry.
    Cancellation(&'a String),
    /// A deferred write, by the operation, of the entry.
    Write(&'a String, &'a String),
    /// An attempt, by the operation, to produce the entry.
    Producer(&'a String, &'a String),
    /// Usage, by the operation, of fetching the entry's deferred response.
    Fetch(&'a String, &'a String),
    /// A compaction, by the operation, after an overflow and past a sequence
    /// number.
    Overflow(&'a String, u64),
    /// The start, by the operation, of the assistant entry's call.
    Call(&'a String, &'a String, u32),
}

pub open spec fn wanted(w: RecordFilter) -> spec_fn(LaneRecord) -> bool {
    match w {
        RecordFilter::Start(run) => is_start_of(run@),
        RecordFilter::Finish(run) => is_finish_of(run@),
        RecordFilter::Abort(run) => is_abort_of(run@),
        RecordFilter::Attempt(run) => is_attempt_of(run@),
        RecordFilter::Enqueue(id) => is_enqueue_of(id@),
        RecordFilter::ToolStart(id, index) => is_tool_start_of(id@, index),
        RecordFilter::Cancellation(id) => is_cancellation_of(id@),
        RecordFilter::Write(run, id) => is_write_of(run@, id@),
        RecordFilter::Producer(run, id) => is_producer_of(run@, id@),
        RecordFilter::Fetch(run, id) => is_fetch_of(run@, id@),
        RecordFilter::Overflow(run, after) => is_overflow_of(run@, after),
        RecordFilter::Call(run, id, index) => is_call_start_of(run@, id@, index),
    }
}

/// Whether a record is one that the filter looks for.
pub fn is_wanted(record: &LaneRecord, w: &RecordFilter) -> (r: bool)
    ensures
        r == wanted(*w)(*record),
{
    match (w, record) {
        (RecordFilter::Start(run), LaneRecord::OperationStarted { id, .. }) => *id == **run,
        (RecordFilter::Finish(run), LaneRecord::OperationFinished { run_id, .. }) => *run_id == **run,
        (RecordFilter::Abort(run), LaneRecord::AbortRequested { run_id, .. }) => *run_id == **run,
        (RecordFilter::Attempt(run), LaneRecord::StepAttempt { run_id, .. }) => *run_id == **run,
        (RecordFilter::Enqueue(wanted_id), LaneRecord::QueueEnqueued { target, .. }) => *target.id()
            == **wanted_id,
        (
            RecordFilter::ToolStart(wanted_id, index),
            LaneRecord::ToolStarted { assistant_entry_id, tool_index, .. },
        ) => *assistant_entry_id == **wanted_id && *tool_index == *index,
        (RecordFilter::Cancellation(wanted_id), LaneRecord::QueueCancelled { entry_id, .. }) =>
            *entry_id == **wanted_id,
        (
            RecordFilter::Write(run, wanted_id),
            LaneRecord::WriteDeferred { run_id, target, .. },
        ) => *run_id == **run && *target.id() == **wanted_id,
        (
            RecordFilter::Producer(run, wanted_id),
            LaneRecord::StepAttempt { run_id, result_entry_id, .. },
        ) => *run_id == **run && *result_entry_id == **wanted_id,
        (
            RecordFilter::Fetch(run, wanted_id),
            LaneRecord::Usage { cause: UsageCause::DeferredFetch { run_id, entry_id, .. }, .. },
        ) => *run_id == **run && *entry_id == **wanted_id,
        (
            RecordFilter::Overflow(run, after),
            LaneRecord::StepAttempt { run_id, step, compaction_reason: Some(reason), seq, .. },
        ) => *run_id == **run && same_text(step.as_str(), "compaction") && same_text(
            reason.as_str(),
            "overflow",
        ) && *seq > *after,
        (
            RecordFilter::Call(run, wanted_id, index),
            LaneRecord::ToolStarted { run_id, assistant_entry_id, tool_index, .. },
        ) => *run_id == **run && *assistant_entry_id == **wanted_id && *tool_index == *index,
        _ => false,
    }
}

/// The last wanted record among the first `end` ones.
pub fn find_record<'a>(records: &'a Vec<LaneRecord>, end: usize, w: &RecordFilter) -> (r: Option<
    &'a LaneRecord,
>)
    requires
        end <= records@.len(),
    ensures
        match r {
            Some(e) => last_record(records@.take(end as int), wanted(*w)) == Some(*e),
            None => last_record(records@.take(end as int), wanted(*w)) is None,
        },
{
    let mut i: usize = end;
    while i > 0
        invariant
            i <= end <= records@.len(),
            last_record(records@.take(end as int), wanted(*w)) == last_record(
                records@.take(i as int),
                wanted(*w),
            ),
        decreases i,
    {
        proof {
            assert(records@.take(i as int).drop_last() =~= records@.take(i as int - 1));
        }
        if is_wanted(&records[i - 1], w) {
            return Some(&records[i - 1]);
        }
        i = i - 1;
    }
    None
}

// ---------------------------------------------------------------------------
// Rules
// ---------------------------------------------------------------------------

/// An entry that was provisioned must, where it exists, hold what was intended.
pub open spec fn provisioned_problem(entries: Seq<Entry>, target: Entry) -> Option<CorruptionView> {
    match entry_by_id(entries, target.spec_id()) {
        Some(entry) if !equal_intent(entry, target) => Some(
            CorruptionView {
                reason: RecordLogCorruptionReason::ProvisionedEntryMismatch,
                message: "Provisioned entry "@ + target.spec_id()
                    + " exists with content different from its intent"@,
            },
        ),
        _ => None,
    }
}

fn validate_exact_provisioned_entry(entries: &Vec<Entry>, target: &Entry) -> (r: Result<
    (),
    RecordLogCorruption,
>)
    ensures
        outcome_of(r) == provisioned_problem(entries@, *target),
{
    match find_entry(entries, target.id()) {
        Some(entry) => if !same_intent(entry, target) {
            corrupt(
                RecordLogCorruptionReason::ProvisionedEntryMismatch,
                concat3(
                    "Provisioned entry ",
                    target.id().as_str(),
                    " exists with content different from its intent",
                ),
            )
        } else {
            Ok(())
        },
        None => Ok(()),
    }
}

/// A result entry must, where it exists, be of the expected kind.
pub open spec fn result_problem(
    entries: Seq<Entry>,
    id: Seq<char>,
    expected: spec_fn(Entry) -> bool,
    description: Seq<char>,
) -> Option<CorruptionView> {
    match entry_by_id(entries, id) {
        Some(entry) if !expected(entry) => Some(result_mismatch(id, description)),
        _ => None,
    }
}

/// The complaint about a result entry of another kind.
pub open spec fn result_mismatch(id: Seq<char>, description: Seq<char>) -> CorruptionView {
    CorruptionView {
        reason: RecordLogCorruptionReason::ProvisionedEntryMismatch,
        message: "Provisioned "@ + description + " entry "@ + id
            + " exists with different content"@,
    }
}

fn mismatched_result(id: &String, description: &str) -> (r: Result<(), RecordLogCorruption>)
    ensures
        outcome_of(r) == Some(result_mismatch(id@, description@)),
{
    corrupt(
        RecordLogCorruptionReason::ProvisionedEntryMismatch,
        concat5(
            "Provisioned ",
            description,
            " entry ",
            id.as_str(),
            " exists with different content",
        ),
    )
}

pub open spec fn is_compaction() -> spec_fn(Entry) -> bool {
    |e: Entry| e is Compaction
}

pub open spec fn is_branch_summary() -> spec_fn(Entry) -> bool {
    |e: Entry| e is BranchSummary
}

/// A message entry whose message has the assistant's role.
pub open spec fn has_assistant_role() -> spec_fn(Entry) -> bool {
    |e: Entry| e is Message && message_role(e->Message_message) == "assistant"@
}

pub open spec fn is_result_of_call(call_id: Seq<char>, name: Seq<char>) -> spec_fn(Entry) -> bool {
    |e: Entry|
        match e {
            Entry::Message { message: AgentMessage::ToolResult(m), .. } => m.tool_call_id@ == call_id
                && m.tool_name@ == name,
            _ => false,
        }
}

/// The kind of step that a step name stands for.
pub open spec fn step_kind_name(step: Seq<char>) -> Seq<char> {
    if step == "assistant"@ {
        "assistant"@
    } else if step == "compaction"@ {
        "compaction"@
    } else {
        "branch_summary"@
    }
}

pub(crate) fn step_kind(step: &str) -> (r: &'static str)
    ensures
        r@ == step_kind_name(step@),
{
    if same_text(step, "assistant") {
        "assistant"
    } else if same_text(step, "compaction") {
        "compaction"
    } else {
        "branch_summary"
    }
}

/// Only compaction attempts have a reason, and theirs is one of three.
pub open spec fn attempt_reason_problem(r: LaneRecord) -> Option<CorruptionView> {
    let kind = step_kind_name(r->step@);
    let reason = text_of_option(r->compaction_reason);
    if kind == "compaction"@ {
        if reason == Some("manual"@) || reason == Some("threshold"@) || reason == Some("overflow"@) {
            None
        } else {
            Some(
                CorruptionView {
                    reason: RecordLogCorruptionReason::InvalidCompactionReason,
                    message: "Compaction attempt "@ + r.spec_id()
                        + " has no valid compaction reason"@,
                },
            )
        }
    } else if reason is Some {
        Some(
            CorruptionView {
                reason: RecordLogCorruptionReason::InvalidCompactionReason,
                message: kind + " attempt "@ + r.spec_id() + " has a compaction reason"@,
            },
        )
    } else {
        None
    }
}

fn validate_attempt_reason(
    id: &String,
    step: &String,
    compaction_reason: &Option<String>,
    Ghost(record): Ghost<LaneRecord>,
) -> (r: Result<(), RecordLogCorruption>)
    requires
        record is StepAttempt,
        record.spec_id() == id@,
        record->step == *step,
        record->compaction_reason == *compaction_reason,
    ensures
        outcome_of(r) == attempt_reason_problem(record),
{
    let kind: &'static str = step_kind(step.as_str());
    if same_text(kind, "compaction") {
        let valid: bool = match compaction_reason {
            Some(reason) => same_text(reason.as_str(), "manual") || same_text(
                reason.as_str(),
                "threshold",
            ) || same_text(reason.as_str(), "overflow"),
            None => false,
        };
        if valid {
            Ok(())
        } else {
            corrupt(
                RecordLogCorruptionReason::InvalidCompactionReason,
                concat3("Compaction attempt ", id.as_str(), " has no valid compaction reason"),
            )
        }
    } else {
        match compaction_reason {
            Some(_) => corrupt(
                RecordLogCorruptionReason::InvalidCompactionReason,
                concat4(kind, " attempt ", id.as_str(), " has a compaction reason"),
            ),
            None => Ok(()),
        }
    }
}

/// Whether an attempt repeats the step of the previous attempt: the kinds
/// agree, and the previous result had not been stored before the attempt.
pub open spec fn continues_series(
    r: LaneRecord,
    previous: Option<LaneRecord>,
    entries: Seq<Entry>,
) -> bool {
    match previous {
        Some(p) => step_kind_name(p->step@) == step_kind_name(r->step@) && match entry_by_id(
            entries,
            p->StepAttempt_result_entry_id@,
        ) {
            Some(result) => result.spec_seq() >= r.spec_seq(),
            None => true,
        },
        None => false,
    }
}

/// The attempt number that an attempt must have.
pub open spec fn expected_attempt(
    r: LaneRecord,
    previous: Option<LaneRecord>,
    entries: Seq<Entry>,
) -> nat {
    if continues_series(r, previous, entries) {
        (previous.unwrap()->attempt + 1) as nat
    } else {
        1
    }
}

/// Attempts of one step are numbered consecutively, and the attempts of a
/// summarising step agree on their result and their reason.
pub open spec fn attempt_sequence_problem(
    r: LaneRecord,
    previous: Option<LaneRecord>,
    entries: Seq<Entry>,
) -> Option<CorruptionView> {
    let kind = step_kind_name(r->step@);
    let expected = expected_attempt(r, previous, entries);
    if r->attempt != expected {
        Some(
            CorruptionView {
                reason: RecordLogCorruptionReason::NonConsecutiveAttempt,
                message: kind + " attempt "@ + r.spec_id() + " is "@ + decimal(r->attempt as nat)
                    + "; expected "@ + decimal(expected),
            },
        )
    } else if !continues_series(r, previous, entries) || kind == "assistant"@ {
        None
    } else if r->StepAttempt_result_entry_id@ != previous.unwrap()->StepAttempt_result_entry_id@ {
        Some(
            CorruptionView {
                reason: RecordLogCorruptionReason::InconsistentStep,
                message: kind + " attempts disagree on their result entry id"@,
            },
        )
    } else if text_of_option(r->compaction_reason) != text_of_option(
        previous.unwrap()->compaction_reason,
    ) {
        Some(
            CorruptionView {
                reason: RecordLogCorruptionReason::InconsistentStep,
                message: kind + " attempts disagree on their compaction reason"@,
            },
        )
    } else {
        None
    }
}

fn validate_attempt_sequence(
    record: &LaneRecord,
    previous: Option<&LaneRecord>,
    entries: &Vec<Entry>,
) -> (r: Result<(), RecordLogCorruption>)
    requires
        record is StepAttempt,
        previous matches Some(p) ==> p is StepAttempt,
    ensures
        outcome_of(r) == attempt_sequence_problem(
            *record,
            match previous {
                Some(p) => Some(*p),
                None => None,
            },
            entries@,
        ),
{
    if let LaneRecord::StepAttempt { id, step, attempt, result_entry_id, compaction_reason, seq, .. } =
        record {
        let kind: &'static str = step_kind(step.as_str());
        let mut continues: bool = false;
        let mut expected: u64 = 1;
        if let Some(
            LaneRecord::StepAttempt {
                step: previous_step,
                attempt: previous_attempt,
                result_entry_id: previous_result,
                ..
            },
        ) = previous {
            let stored_later: bool = match find_entry(entries, previous_result) {
                Some(result) => result.seq() >= *seq,
                None => true,
            };
            continues = same_text(step_kind(previous_step.as_str()), kind) && stored_later;
            if continues {
                expected = *previous_attempt as u64 + 1;
            }
        }
        if *attempt as u64 != expected {
            let head: String = concat5(
                kind,
                " attempt ",
                id.as_str(),
                " is ",
                decimal_text(*attempt as u64).as_str(),
            );
            return corrupt(
                RecordLogCorruptionReason::NonConsecutiveAttempt,
                concat3(head.as_str(), "; expected ", decimal_text(expected).as_str()),
            );
        }
        if !continues || same_text(kind, "assistant") {
            return Ok(());
        }
        if let Some(
            LaneRecord::StepAttempt {
                result_entry_id: previous_result,
                compaction_reason: previous_reason,
                ..
            },
        ) = previous {
            if *result_entry_id != *previous_result {
                return corrupt(
                    RecordLogCorruptionReason::InconsistentStep,
                    concat2(kind, " attempts disagree on their result entry id"),
                );
            }
            if !same_optional_text(compaction_reason, previous_reason) {
                return corrupt(
                    RecordLogCorruptionReason::InconsistentStep,
                    concat2(kind, " attempts disagree on their compaction reason"),
                );
            }
        }
        Ok(())
    } else {
        Ok(())
    }
}

/// The result of an attempt is of the kind that its step produces.
pub open spec fn attempt_result_problem(r: LaneRecord, entries: Seq<Entry>) -> Option<
    CorruptionView,
> {
    let kind = step_kind_name(r->step@);
    let id = r->StepAttempt_result_entry_id@;
    if kind == "assistant"@ {
        result_problem(entries, id, has_assistant_role(), "assistant result"@)
    } else if kind == "compaction"@ {
        result_problem(entries, id, is_compaction(), "compaction result"@)
    } else {
        result_problem(entries, id, is_branch_summary(), "branch-summary result"@)
    }
}

fn validate_attempt_result(
    step: &String,
    result_entry_id: &String,
    entries: &Vec<Entry>,
    Ghost(record): Ghost<LaneRecord>,
) -> (r: Result<(), RecordLogCorruption>)
    requires
        record is StepAttempt,
        record->step == *step,
        record->StepAttempt_result_entry_id == *result_entry_id,
    ensures
        outcome_of(r) == attempt_result_problem(record, entries@),
{
    let kind: &'static str = step_kind(step.as_str());
    match find_entry(entries, result_entry_id) {
        None => Ok(()),
        Some(entry) => {
            if same_text(kind, "assistant") {
                let fits: bool = match entry {
                    Entry::Message { message, .. } => same_text(message.role(), "assistant"),
                    _ => false,
                };
                if fits {
                    Ok(())
                } else {
                    mismatched_result(result_entry_id, "assistant result")
                }
            } else if same_text(kind, "compaction") {
                if entry.entry_type() == EntryType::Compaction {
                    Ok(())
                } else {
                    mismatched_result(result_entry_id, "compaction result")
                }
            } else {
                if entry.entry_type() == EntryType::BranchSummary {
                    Ok(())
                } else {
                    mismatched_result(result_entry_id, "branch-summary result")
                }
            }
        },
    }
}

/// The tool calls of an entry, when it holds an assistant message.
pub open spec fn entry_tool_calls(entry: Option<Entry>) -> Option<Seq<ToolCall>> {
    match entry {
        Some(Entry::Message { message: AgentMessage::Assistant(m), .. }) => Some(
            tool_calls_of(m.content@),
        ),
        _ => None,
    }
}

/// A tool runs once for each call, and for a call that its assistant entry
/// makes at that position; its result, where it exists, answers that call.
pub open spec fn tool_start_problem(
    earlier: Seq<LaneRecord>,
    r: LaneRecord,
    entries: Seq<Entry>,
) -> Option<CorruptionView> {
    let calls = entry_tool_calls(entry_by_id(entries, r->assistant_entry_id@));
    let index = r->tool_index as int;
    if last_record(earlier, is_tool_start_of(r->assistant_entry_id@, r->tool_index)) is Some {
        Some(
            CorruptionView {
                reason: RecordLogCorruptionReason::DuplicateToolInvocation,
                message: "Tool invocation "@ + r->assistant_entry_id@ + ":"@ + decimal(
                    r->tool_index as nat,
                ) + " is duplicated"@,
            },
        )
    } else if calls is None {
        Some(
            CorruptionView {
                reason: RecordLogCorruptionReason::ToolCallMismatch,
                message: "Tool start "@ + r.spec_id() + " does not reference an assistant entry"@,
            },
        )
    } else if index >= calls.unwrap().len() || calls.unwrap()[index].id@ != r->tool_call_id@
        || calls.unwrap()[index].name@ != r->tool_name@ {
        Some(
            CorruptionView {
                reason: RecordLogCorruptionReason::ToolCallMismatch,
                message: "Tool start "@ + r.spec_id()
                    + " does not match its assistant tool-call ordinal"@,
            },
        )
    } else {
        result_problem(
            entries,
            r->ToolStarted_result_entry_id@,
            is_result_of_call(r->tool_call_id@, r->tool_name@),
            "tool result"@,
        )
    }
}

fn validate_tool_start(records: &Vec<LaneRecord>, at: usize, entries: &Vec<Entry>) -> (r: Result<
    (),
    RecordLogCorruption,
>)
    requires
        at < records@.len(),
        records@[at as int] is ToolStarted,
    ensures
        outcome_of(r) == tool_start_problem(records@.take(at as int), records@[at as int], entries@),
{
    if let LaneRecord::ToolStarted {
        id,
        assistant_entry_id,
        tool_index,
        tool_call_id,
        tool_name,
        result_entry_id,
        ..
    } = &records[at] {
        let repeated: bool = match find_record(
            records,
            at,
            &RecordFilter::ToolStart(assistant_entry_id, *tool_index),
        ) {
            Some(_) => true,
            None => false,
        };
        if repeated {
            return corrupt(
                RecordLogCorruptionReason::DuplicateToolInvocation,
                concat5(
                    "Tool invocation ",
                    assistant_entry_id.as_str(),
                    ":",
                    decimal_text(*tool_index as u64).as_str(),
                    " is duplicated",
                ),
            );
        }
        let calls: Vec<ToolCall> = match find_entry(entries, assistant_entry_id) {
            Some(Entry::Message { message: AgentMessage::Assistant(m), .. }) => collect_tool_calls(
                &m.content,
            ),
            _ => {
                return corrupt(
                    RecordLogCorruptionReason::ToolCallMismatch,
                    concat3(
                        "Tool start ",
                        id.as_str(),
                        " does not reference an assistant entry",
                    ),
                );
            },
        };
        let index: usize = *tool_index as usize;
        if index >= calls.len() || calls[index].id != *tool_call_id || calls[index].name
            != *tool_name {
            return corrupt(
                RecordLogCorruptionReason::ToolCallMismatch,
                concat3(
                    "Tool start ",
                    id.as_str(),
                    " does not match its assistant tool-call ordinal",
                ),
            );
        }
        match find_entry(entries, result_entry_id) {
            None => Ok(()),
            Some(entry) => {
                let fits: bool = match entry {
                    Entry::Message { message: AgentMessage::ToolResult(m), .. } => m.tool_call_id
                        == *tool_call_id && m.tool_name == *tool_name,
                    _ => false,
                };
                if fits {
                    Ok(())
                } else {
                    mismatched_result(result_entry_id, "tool result")
                }
            },
        }
    } else {
        Ok(())
    }
}

/// Whether an entry claims a deferred response without a handle to it.
pub open spec fn lacks_handle(entry: Entry) -> bool {
    match entry {
        Entry::Message { message: AgentMessage::Assistant(m), .. } => m.stop_reason
            == StopReason::Deferred && m.deferred is None,
        _ => false,
    }
}

/// Every deferred assistant entry carries a handle.
pub open spec fn deferred_problem(entries: Seq<Entry>) -> Option<CorruptionView>
    decreases entries.len(),
{
    if entries.len() == 0 {
        None
    } else if lacks_handle(entries[0]) {
        Some(
            CorruptionView {
                reason: RecordLogCorruptionReason::InvalidDeferredHandle,
                message: "Deferred assistant entry "@ + entries[0].spec_id()
                    + " does not carry a handle"@,
            },
        )
    } else {
        deferred_problem(entries.drop_first())
    }
}

fn validate_deferred_handles(entries: &Vec<Entry>) -> (r: Result<(), RecordLogCorruption>)
    ensures
        outcome_of(r) == deferred_problem(entries@),
{
    let mut i: usize = 0;
    proof {
        assert(entries@.skip(0) =~= entries@);
    }
    while i < entries.len()
        invariant
            i <= entries@.len(),
            deferred_problem(entries@) == deferred_problem(entries@.skip(i as int)),
        decreases entries@.len() - i,
    {
        proof {
            assert(entries@.skip(i as int)[0] == entries@[i as int]);
            assert(entries@.skip(i as int).drop_first() =~= entries@.skip(i as int + 1));
        }
        if let Entry::Message { message: AgentMessage::Assistant(m), .. } = &entries[i] {
            let missing: bool = match m.deferred {
                Some(_) => false,
                None => true,
            };
            if m.stop_reason == StopReason::Deferred && missing {
                return corrupt(
                    RecordLogCorruptionReason::InvalidDeferredHandle,
                    concat3(
                        "Deferred assistant entry ",
                        entries[i].id().as_str(),
                        " does not carry a handle",
                    ),
                );
            }
        }
        i = i + 1;
    }
    Ok(())
}

/// The first problem among provisioned entries.
pub open spec fn provisioned_problems(entries: Seq<Entry>, targets: Seq<Entry>) -> Option<
    CorruptionView,
>
    decreases targets.len(),
{
    if targets.len() == 0 {
        None
    } else if provisioned_problem(entries, targets[0]) is Some {
        provisioned_problem(entries, targets[0])
    } else {
        provisioned_problems(entries, targets.drop_first())
    }
}

/// What an operation was to produce is, where it exists, what was intended.
pub open spec fn operation_result_problem(intent: OperationIntent, entries: Seq<Entry>) -> Option<
    CorruptionView,
> {
    match intent {
        OperationIntent::Run { initial_messages, .. } => provisioned_problems(
            entries,
            initial_messages@,
        ),
        OperationIntent::Compaction { result_entry_id, .. } => result_problem(
            entries,
            result_entry_id@,
            is_compaction(),
            "manual compaction"@,
        ),
        OperationIntent::Navigation { summary_entry_id, .. } => match summary_entry_id {
            Some(id) => result_problem(entries, id@, is_branch_summary(), "navigation summary"@),
            None => None,
        },
    }
}

fn validate_provisioned_entries(targets: &Vec<Entry>, entries: &Vec<Entry>) -> (r: Result<
    (),
    RecordLogCorruption,
>)
    ensures
        outcome_of(r) == provisioned_problems(entries@, targets@),
{
    let mut i: usize = 0;
    proof {
        assert(targets@.skip(0) =~= targets@);
    }
    while i < targets.len()
        invariant
            i <= targets@.len(),
            provisioned_problems(entries@, targets@) == provisioned_problems(
                entries@,
                targets@.skip(i as int),
            ),
        decreases targets@.len() - i,
    {
        proof {
            let rest = targets@.skip(i as int);
            assert(rest[0] == targets@[i as int]);
            assert(rest.drop_first() =~= targets@.skip(i as int + 1));
        }
        let checked: Result<(), RecordLogCorruption> = validate_exact_provisioned_entry(
            entries,
            &targets[i],
        );
        if checked.is_err() {
            return checked;
        }
        i = i + 1;
    }
    Ok(())
}

fn validate_operation_result(intent: &OperationIntent, entries: &Vec<Entry>) -> (r: Result<
    (),
    RecordLogCorruption,
>)
    ensures
        outcome_of(r) == operation_result_problem(*intent, entries@),
{
    match intent {
        OperationIntent::Run { initial_messages, .. } => {
            validate_provisioned_entries(initial_messages, entries)
        },
        OperationIntent::Compaction { result_entry_id, .. } => match find_entry(
            entries,
            result_entry_id,
        ) {
            Some(entry) => if entry.entry_type() == EntryType::Compaction {
                Ok(())
            } else {
                mismatched_result(result_entry_id, "manual compaction")
            },
            None => Ok(()),
        },
        OperationIntent::Navigation { summary_entry_id, .. } => match summary_entry_id {
            Some(id) => match find_entry(entries, id) {
                Some(entry) => if entry.entry_type() == EntryType::BranchSummary {
                    Ok(())
                } else {
                    mismatched_result(id, "navigation summary")
                },
                None => Ok(()),
            },
            None => Ok(()),
        },
    }
}

// ---------------------------------------------------------------------------
// Validation
// ---------------------------------------------------------------------------

/// The text of an optional string, where a missing one counts as empty.
pub open spec fn text_or_empty(s: Option<String>) -> Seq<char> {
    match s {
        Some(text) => text@,
        None => Seq::<char>::empty(),
    }
}

/// Nothing is queued for an operation once it was told to abort, and what is
/// queued exists, if at all, as it was intended.
pub open spec fn enqueue_problem(
    earlier: Seq<LaneRecord>,
    r: LaneRecord,
    entries: Seq<Entry>,
) -> Option<CorruptionView> {
    let abort = last_record(earlier, is_abort_of(text_or_empty(r->QueueEnqueued_run_id)));
    if r->queue@ != "nextRun"@ && abort is Some && r.spec_seq() > abort.unwrap().spec_seq() {
        Some(
            CorruptionView {
                reason: RecordLogCorruptionReason::QueueAfterAbort,
                message: r->queue@ + " item "@ + r->QueueEnqueued_target.spec_id()
                    + " was enqueued after abort"@,
            },
        )
    } else {
        provisioned_problem(entries, r->QueueEnqueued_target)
    }
}

/// A cancellation takes back an earlier enqueue of the same operation whose
/// entry was not stored.
pub open spec fn cancellation_valid(
    earlier: Seq<LaneRecord>,
    r: LaneRecord,
    entries: Seq<Entry>,
) -> bool {
    match last_record(earlier, is_enqueue_of(r->entry_id@)) {
        Some(enqueue) => enqueue.spec_seq() < r.spec_seq() && enqueue.spec_run_id()
            == text_of_option(r->QueueCancelled_run_id) && !has_entry(entries, r->entry_id@),
        None => false,
    }
}

/// The rule that a record breaks after the records before it, if any.
pub open spec fn record_problem(
    earlier: Seq<LaneRecord>,
    r: LaneRecord,
    entries: Seq<Entry>,
) -> Option<CorruptionView> {
    let run = r.spec_run_id();
    let finish = last_record(earlier, is_finish_of(run.unwrap()));
    if r is OperationStarted {
        operation_result_problem(r->intent, entries)
    } else if run is Some && last_record(earlier, is_start_of(run.unwrap())) is None {
        Some(
            CorruptionView {
                reason: RecordLogCorruptionReason::UnknownOperation,
                message: "Record "@ + r.spec_id() + " references unknown operation "@
                    + run.unwrap(),
            },
        )
    } else if run is Some && finish is Some && r.spec_seq() > finish.unwrap().spec_seq() {
        Some(
            CorruptionView {
                reason: RecordLogCorruptionReason::RecordAfterFinish,
                message: "Record "@ + r.spec_id() + " follows the finish of operation "@
                    + run.unwrap(),
            },
        )
    } else {
        record_kind_problem(earlier, r, entries)
    }
}

/// The rule on its own kind that a record breaks, if any.
pub open spec fn record_kind_problem(
    earlier: Seq<LaneRecord>,
    r: LaneRecord,
    entries: Seq<Entry>,
) -> Option<CorruptionView> {
    match r {
        LaneRecord::StepAttempt { run_id, .. } => {
            let sequence = attempt_sequence_problem(
                r,
                last_record(earlier, is_attempt_of(run_id@)),
                entries,
            );
            if attempt_reason_problem(r) is Some {
                attempt_reason_problem(r)
            } else if sequence is Some {
                sequence
            } else {
                attempt_result_problem(r, entries)
            }
        },
        LaneRecord::ToolStarted { .. } => tool_start_problem(earlier, r, entries),
        LaneRecord::QueueEnqueued { .. } => enqueue_problem(earlier, r, entries),
        LaneRecord::QueueCancelled { .. } => if cancellation_valid(earlier, r, entries) {
            None
        } else {
            Some(
                CorruptionView {
                    reason: RecordLogCorruptionReason::InvalidQueueCancellation,
                    message: "Queue cancellation "@ + r.spec_id()
                        + " has no pending matching enqueue"@,
                },
            )
        },
        LaneRecord::WriteDeferred { target, .. } => provisioned_problem(entries, target),
        _ => None,
    }
}

/// The first problem of a log from position `from` on.
pub open spec fn log_problem(log: Seq<LaneRecord>, from: int, entries: Seq<Entry>) -> Option<
    CorruptionView,
>
    decreases log.len() - from,
{
    if from < 0 || from >= log.len() {
        None
    } else if record_problem(log.take(from), log[from], entries) is Some {
        record_problem(log.take(from), log[from], entries)
    } else {
        log_problem(log, from + 1, entries)
    }
}

/// The first problem of a lane's slice: its operations, then its deferred
/// entries, then its records in the order of their sequence numbers.
pub open spec fn lane_problem(
    lane: Seq<char>,
    open_operations: Seq<LaneRecord>,
    records: Seq<LaneRecord>,
    entries: Seq<Entry>,
) -> Option<CorruptionView> {
    if open_operations.len() > 1 {
        Some(
            CorruptionView {
                reason: RecordLogCorruptionReason::MultipleOpenOperations,
                message: "Lane "@ + lane + " has at least two open operations"@,
            },
        )
    } else if deferred_problem(entries) is Some {
        deferred_problem(entries)
    } else {
        log_problem(in_order(records), 0, entries)
    }
}

impl RecordLogSlice {
    /// The first problem of the slice, if it has one.
    pub open spec fn problem(self) -> Option<CorruptionView> {
        lane_problem(self.lane@, self.open_operations@, self.records@, self.entries@)
    }
}

fn validate_attempt(records: &Vec<LaneRecord>, at: usize, entries: &Vec<Entry>) -> (r: Result<
    (),
    RecordLogCorruption,
>)
    requires
        at < records@.len(),
        records@[at as int] is StepAttempt,
    ensures
        outcome_of(r) == record_kind_problem(
            records@.take(at as int),
            records@[at as int],
            entries@,
        ),
{
    let record: &LaneRecord = &records[at];
    if let LaneRecord::StepAttempt { id, run_id, step, result_entry_id, compaction_reason, .. } =
        record {
        let reason: Result<(), RecordLogCorruption> = validate_attempt_reason(
            id,
            step,
            compaction_reason,
            Ghost(*record),
        );
        if reason.is_err() {
            return reason;
        }
        let previous: Option<&LaneRecord> = find_record(records, at, &RecordFilter::Attempt(run_id));
        proof {
            lemma_last_record(records@.take(at as int), is_attempt_of(run_id@));
        }
        let sequence: Result<(), RecordLogCorruption> = validate_attempt_sequence(
            record,
            previous,
            entries,
        );
        if sequence.is_err() {
            return sequence;
        }
        validate_attempt_result(step, result_entry_id, entries, Ghost(*record))
    } else {
        Ok(())
    }
}

/// The last record that satisfies a predicate stands somewhere, satisfies it,
/// and no later one does; without one, none does.
pub proof fn lemma_last_record(records: Seq<LaneRecord>, p: spec_fn(LaneRecord) -> bool)
    ensures
        match last_record(records, p) {
            Some(r) => p(r) && exists|i: int|
                0 <= i < records.len() && #[trigger] records[i] == r && forall|j: int|
                    i < j < records.len() ==> !p(#[trigger] records[j]),
            None => forall|i: int| 0 <= i < records.len() ==> !p(#[trigger] records[i]),
        },
    decreases records.len(),
{
    if records.len() > 0 {
        let n = records.len() - 1;
        if p(records.last()) {
            assert(records[n] == records.last());
        } else {
            let shorter = records.drop_last();
            lemma_last_record(shorter, p);
            match last_record(shorter, p) {
                Some(r) => {
                    let i = choose|i: int|
                        0 <= i < shorter.len() && #[trigger] shorter[i] == r && forall|j: int|
                            i < j < shorter.len() ==> !p(#[trigger] shorter[j]);
                    assert(records[i] == r);
                    assert forall|j: int| i < j < records.len() implies !p(
                        #[trigger] records[j],
                    ) by {
                        if j < n {
                            assert(shorter[j] == records[j]);
                        }
                    }
                },
                None => {
                    assert forall|i: int| 0 <= i < records.len() implies !p(
                        #[trigger] records[i],
                    ) by {
                        if i < n {
                            assert(shorter[i] == records[i]);
                        }
                    }
                },
            }
        }
    }
}

fn validate_enqueue(records: &Vec<LaneRecord>, at: usize, entries: &Vec<Entry>) -> (r: Result<
    (),
    RecordLogCorruption,
>)
    requires
        at < records@.len(),
        records@[at as int] is QueueEnqueued,
    ensures
        outcome_of(r) == enqueue_problem(records@.take(at as int), records@[at as int], entries@),
{
    if let LaneRecord::QueueEnqueued { queue, run_id, target, seq, .. } = &records[at] {
        let run: String = match run_id {
            Some(id) => id.clone(),
            None => String::new(),
        };
        if !same_text(queue.as_str(), "nextRun") {
            let after_abort: bool = match find_record(records, at, &RecordFilter::Abort(&run)) {
                Some(abort) => *seq > abort.seq(),
                None => false,
            };
            if after_abort {
                return corrupt(
                    RecordLogCorruptionReason::QueueAfterAbort,
                    concat4(
                        queue.as_str(),
                        " item ",
                        target.id().as_str(),
                        " was enqueued after abort",
                    ),
                );
            }
        }
        validate_exact_provisioned_entry(entries, target)
    } else {
        Ok(())
    }
}

fn validate_cancellation(records: &Vec<LaneRecord>, at: usize, entries: &Vec<Entry>) -> (r: Result<
    (),
    RecordLogCorruption,
>)
    requires
        at < records@.len(),
        records@[at as int] is QueueCancelled,
    ensures
        outcome_of(r) == record_kind_problem(
            records@.take(at as int),
            records@[at as int],
            entries@,
        ),
{
    if let LaneRecord::QueueCancelled { id, run_id, entry_id, seq, .. } = &records[at] {
        let valid: bool = match find_record(records, at, &RecordFilter::Enqueue(entry_id)) {
            Some(enqueue) => enqueue.seq() < *seq && same_run(enqueue.run_id(), run_id)
                && !entry_exists(entries, entry_id),
            None => false,
        };
        if !valid {
            return corrupt(
                RecordLogCorruptionReason::InvalidQueueCancellation,
                concat3("Queue cancellation ", id.as_str(), " has no pending matching enqueue"),
            );
        }
        Ok(())
    } else {
        Ok(())
    }
}

fn same_run(a: Option<&String>, b: &Option<String>) -> (r: bool)
    ensures
        r == (text_of_option(*b) == match a {
            Some(x) => Some(x@),
            None => None::<Seq<char>>,
        }),
{
    match (a, b) {
        (Some(x), Some(y)) => *x == *y,
        (None, None) => true,
        _ => false,
    }
}

fn validate_record(records: &Vec<LaneRecord>, at: usize, entries: &Vec<Entry>) -> (r: Result<
    (),
    RecordLogCorruption,
>)
    requires
        at < records@.len(),
    ensures
        outcome_of(r) == record_problem(records@.take(at as int), records@[at as int], entries@),
{
    let record: &LaneRecord = &records[at];
    if let LaneRecord::OperationStarted { intent, .. } = record {
        return validate_operation_result(intent, entries);
    }
    if let Some(run_id) = record.run_id() {
        if find_record(records, at, &RecordFilter::Start(run_id)).is_none() {
            return corrupt(
                RecordLogCorruptionReason::UnknownOperation,
                concat4(
                    "Record ",
                    record.id().as_str(),
                    " references unknown operation ",
                    run_id.as_str(),
                ),
            );
        }
        let after_finish: bool = match find_record(records, at, &RecordFilter::Finish(run_id)) {
            Some(finish) => record.seq() > finish.seq(),
            None => false,
        };
        if after_finish {
            return corrupt(
                RecordLogCorruptionReason::RecordAfterFinish,
                concat4(
                    "Record ",
                    record.id().as_str(),
                    " follows the finish of operation ",
                    run_id.as_str(),
                ),
            );
        }
    }
    match record {
        LaneRecord::StepAttempt { .. } => validate_attempt(records, at, entries),
        LaneRecord::ToolStarted { .. } => validate_tool_start(records, at, entries),
        LaneRecord::QueueEnqueued { .. } => validate_enqueue(records, at, entries),
        LaneRecord::QueueCancelled { .. } => validate_cancellation(records, at, entries),
        LaneRecord::WriteDeferred { target, .. } => validate_exact_provisioned_entry(
            entries,
            target,
        ),
        _ => Ok(()),
    }
}

/// A copy of the records, ordered by their sequence numbers.
pub fn by_sequence_records(records: &Vec<LaneRecord>) -> (r: Vec<LaneRecord>)
    ensures
        r@ == in_order(records@),
{
    let copy: Vec<LaneRecord> = records.clone();
    proof {
        assert(copy@ =~= records@);
    }
    sort_stable(copy)
}

/// A copy of the entries, ordered by their sequence numbers.
pub fn by_sequence_entries(entries: &Vec<Entry>) -> (r: Vec<Entry>)
    ensures
        r@ == in_order(entries@),
{
    let copy: Vec<Entry> = entries.clone();
    proof {
        assert(copy@ =~= entries@);
    }
    sort_stable(copy)
}

/// Validates a slice whose records are already in order.
pub(crate) fn validate_log(
    lane: &String,
    open_operations: &Vec<LaneRecord>,
    records: &Vec<LaneRecord>,
    entries: &Vec<Entry>,
    Ghost(unordered): Ghost<Seq<LaneRecord>>,
) -> (r: Result<(), RecordLogCorruption>)
    requires
        records@ == in_order(unordered),
    ensures
        outcome_of(r) == lane_problem(lane@, open_operations@, unordered, entries@),
{
    if open_operations.len() > 1 {
        return corrupt(
            RecordLogCorruptionReason::MultipleOpenOperations,
            concat3("Lane ", lane.as_str(), " has at least two open operations"),
        );
    }
    let deferred: Result<(), RecordLogCorruption> = validate_deferred_handles(entries);
    if deferred.is_err() {
        return deferred;
    }
    let mut i: usize = 0;
    while i < records.len()
        invariant
            i <= records@.len(),
            lane_problem(lane@, open_operations@, unordered, entries@) == log_problem(
                records@,
                i as int,
                entries@,
            ),
        decreases records@.len() - i,
    {
        let checked: Result<(), RecordLogCorruption> = validate_record(records, i, entries);
        if checked.is_err() {
            return checked;
        }
        i = i + 1;
    }
    Ok(())
}

/// Validates the part of a session that a lane is recovered from.
pub fn validate_record_log(input: &RecordLogSlice) -> (r: Result<(), RecordLogCorruption>)
    ensures
        outcome_of(r) == input.problem(),
{
    let records: Vec<LaneRecord> = by_sequence_records(&input.records);
    validate_log(
        &input.lane,
        &input.open_operations,
        &records,
        &input.entries,
        Ghost(input.records@),
    )
}

// ---------------------------------------------------------------------------
// Laws of an accepted log
// ---------------------------------------------------------------------------

proof fn lemma_no_problem(log: Seq<LaneRecord>, from: int, entries: Seq<Entry>, i: int)
    requires
        0 <= from <= i < log.len(),
        log_problem(log, from, entries) is None,
    ensures
        record_problem(log.take(i), log[i], entries) is None,
    decreases i - from,
{
    if from < i {
        lemma_no_problem(log, from + 1, entries, i);
    }
}

/// In an accepted log every record of an operation follows a record that
/// starts the operation.
pub proof fn law_operations_are_started(slice: RecordLogSlice, i: int)
    requires
        slice.problem() is None,
        0 <= i < slice.records@.len(),
        in_order(slice.records@)[i].spec_run_id() is Some,
    ensures
        ({
            let log = in_order(slice.records@);
            exists|j: int|
                0 <= j <= i && (#[trigger] log[j]) is OperationStarted && Some(log[j].spec_id())
                    == log[i].spec_run_id()
        }),
{
    let log = in_order(slice.records@);
    crate::order::law_sorting_orders_the_same_items(slice.records@);
    lemma_no_problem(log, 0, slice.entries@, i);
    if log[i] is OperationStarted {
        assert(log[i].spec_id() == log[i].spec_run_id().unwrap());
    } else {
        let run = log[i].spec_run_id().unwrap();
        let earlier = log.take(i);
        lemma_last_record(earlier, is_start_of(run));
        let j = choose|j: int|
            0 <= j < earlier.len() && #[trigger] earlier[j] == last_record(
                earlier,
                is_start_of(run),
            ).unwrap() && forall|k: int|
                j < k < earlier.len() ==> !is_start_of(run)(#[trigger] earlier[k]);
        assert(earlier[j] == log[j]);
    }
}

/// In an accepted log no record of an operation has a higher sequence number
/// than an earlier record that finishes the operation.
pub proof fn law_nothing_follows_a_finish(slice: RecordLogSlice, i: int, j: int)
    requires
        slice.problem() is None,
        0 <= j < i < slice.records@.len(),
        in_order(slice.records@)[j] is OperationFinished,
        !(in_order(slice.records@)[i] is OperationStarted),
        in_order(slice.records@)[i].spec_run_id() == in_order(slice.records@)[j].spec_run_id(),
    ensures
        in_order(slice.records@)[i].spec_seq() == in_order(slice.records@)[j].spec_seq(),
    decreases i,
{
    let log = in_order(slice.records@);
    crate::order::law_sorting_orders_the_same_items(slice.records@);
    lemma_no_problem(log, 0, slice.entries@, i);
    let run = log[i].spec_run_id().unwrap();
    let earlier = log.take(i);
    lemma_last_record(earlier, is_finish_of(run));
    assert(is_finish_of(run)(earlier[j]));
    let finish = last_record(earlier, is_finish_of(run));
    assert(finish is Some);
    let k = choose|k: int|
        0 <= k < earlier.len() && #[trigger] earlier[k] == finish.unwrap() && forall|m: int|
            k < m < earlier.len() ==> !is_finish_of(run)(#[trigger] earlier[m]);
    assert(earlier[k] == log[k]);
    assert(j <= k);
    if j < k {
        law_nothing_follows_a_finish(slice, k, j);
    }
    assert(log[k].spec_key() <= log[i].spec_key());
}

/// In an accepted log no tool call is started twice.
pub proof fn law_tool_calls_start_once(slice: RecordLogSlice, i: int, j: int)
    requires
        slice.problem() is None,
        0 <= j < i < slice.records@.len(),
        in_order(slice.records@)[i] is ToolStarted,
        in_order(slice.records@)[j] is ToolStarted,
    ensures
        ({
            let a = in_order(slice.records@)[i];
            let b = in_order(slice.records@)[j];
            a->assistant_entry_id@ != b->assistant_entry_id@ || a->tool_index != b->tool_index
        }),
{
    let log = in_order(slice.records@);
    crate::order::law_sorting_orders_the_same_items(slice.records@);
    lemma_no_problem(log, 0, slice.entries@, i);
    let earlier = log.take(i);
    let p = is_tool_start_of(log[i]->assistant_entry_id@, log[i]->tool_index);
    lemma_last_record(earlier, p);
    assert(earlier[j] == log[j]);
    if p(earlier[j]) {
        assert(last_record(earlier, p) is None);
    }
}

/// In an accepted log the first attempt of an operation is number one.
pub proof fn law_first_attempt_is_one(slice: RecordLogSlice, i: int)
    requires
        slice.problem() is None,
        0 <= i < slice.records@.len(),
        in_order(slice.records@)[i] is StepAttempt,
        forall|j: int|
            0 <= j < i ==> !is_attempt_of(in_order(slice.records@)[i].spec_run_id().unwrap())(
                #[trigger] in_order(slice.records@)[j],
            ),
    ensures
        in_order(slice.records@)[i]->attempt == 1,
{
    let log = in_order(slice.records@);
    crate::order::law_sorting_orders_the_same_items(slice.records@);
    lemma_no_problem(log, 0, slice.entries@, i);
    let earlier = log.take(i);
    let p = is_attempt_of(log[i].spec_run_id().unwrap());
    lemma_last_record(earlier, p);
    if last_record(earlier, p) is Some {
        let k = choose|k: int|
            0 <= k < earlier.len() && #[trigger] earlier[k] == last_record(earlier, p).unwrap()
                && forall|m: int| k < m < earlier.len() ==> !p(#[trigger] earlier[m]);
        assert(earlier[k] == log[k]);
    }
}

} // verus!

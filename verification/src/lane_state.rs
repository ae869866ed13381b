//! The state of a lane, reconstructed from its records and entries.

use std::sync::Arc;

use vstd::prelude::*;

use crate::order::{
    distinct_keys, in_order, law_sorting_forgets_the_order, law_sorting_undoes_permutations,
    same_items, Keyed,
};
use crate::reducer::{
    by_sequence_entries, by_sequence_records, find_record, is_abort_of, is_attempt_of,
    is_call_start_of, is_cancellation_of, is_fetch_of, is_overflow_of, is_producer_of, is_write_of,
    lane_problem, last_record, step_kind, step_kind_name, validate_log, wanted, RecordFilter,
    RecordLogCorruption,
};
use crate::session::types::{
    entry_by_id, entry_exists, find_entry, has_entry, lemma_has_entry, Entry, EntryType, LaneRecord,
    OperationIntent,
};
use crate::text::{same_text, text_of_option, texts};
use crate::types::{
    collect_tool_calls, copy_text, message_role, share, tool_calls_of, AgentMessage,
    AssistantMessage, DeferredHandle, StopReason, ToolCall,
};

verus! {

// ---------------------------------------------------------------------------
// Types
// ---------------------------------------------------------------------------

/// The model that a lane talks to.
pub struct EffectiveModel {
    pub provider: String,
    pub model_id: String,
}

/// The configuration that is in effect on a lane.
pub struct EffectiveLaneConfiguration {
    pub model: EffectiveModel,
    pub thinking_level: String,
    pub active_tool_names: Vec<String>,
}

/// The mathematical value of an [`EffectiveLaneConfiguration`].
pub struct ConfigurationView {
    pub provider: Seq<char>,
    pub model_id: Seq<char>,
    pub thinking_level: Seq<char>,
    pub active_tool_names: Seq<Seq<char>>,
}

impl View for EffectiveLaneConfiguration {
    type V = ConfigurationView;

    open spec fn view(&self) -> ConfigurationView {
        ConfigurationView {
            provider: self.model.provider@,
            model_id: self.model.model_id@,
            thinking_level: self.thinking_level@,
            active_tool_names: texts(self.active_tool_names@),
        }
    }
}

/// An error that an operation ended with.
pub struct TerminalFailureState {
    pub entry_id: String,
    /// `"step"` or `"deferred_fetch"`.
    pub source: &'static str,
    pub message: Arc<AssistantMessage>,
}

/// The mathematical value of a [`TerminalFailureState`].
pub struct TerminalFailureView {
    pub entry_id: Seq<char>,
    pub source: Seq<char>,
    pub message: AssistantMessage,
}

impl View for TerminalFailureState {
    type V = TerminalFailureView;

    open spec fn view(&self) -> TerminalFailureView {
        TerminalFailureView {
            entry_id: self.entry_id@,
            source: self.source@,
            message: *self.message,
        }
    }
}

/// One tool call of a [`ToolBatchState`].
pub struct ToolCallState {
    pub tool_index: usize,
    pub tool_call: ToolCall,
    pub started: Option<LaneRecord>,
    pub result_exists: bool,
    pub terminate: bool,
}

/// The tool calls of the newest assistant entry that made some.
pub struct ToolBatchState {
    pub assistant_entry_id: String,
    pub calls: Vec<ToolCallState>,
    pub truncated: bool,
    pub unresolved: bool,
}

/// The mathematical value of a [`ToolBatchState`].
pub struct ToolBatchView {
    pub assistant_entry_id: Seq<char>,
    pub calls: Seq<ToolCallState>,
    pub truncated: bool,
    pub unresolved: bool,
}

impl View for ToolBatchState {
    type V = ToolBatchView;

    open spec fn view(&self) -> ToolBatchView {
        ToolBatchView {
            assistant_entry_id: self.assistant_entry_id@,
            calls: self.calls@,
            truncated: self.truncated,
            unresolved: self.unresolved,
        }
    }
}

/// The step that an operation is at.
pub struct StepState {
    /// `"assistant"`, `"compaction"`, or `"branch_summary"`.
    pub kind: &'static str,
    pub attempts: u32,
    pub result_entry_id: String,
    pub compaction_reason: Option<String>,
}

/// The mathematical value of a [`StepState`].
pub struct StepView {
    pub kind: Seq<char>,
    pub attempts: u32,
    pub result_entry_id: Seq<char>,
    pub compaction_reason: Option<Seq<char>>,
}

impl View for StepState {
    type V = StepView;

    open spec fn view(&self) -> StepView {
        StepView {
            kind: self.kind@,
            attempts: self.attempts,
            result_entry_id: self.result_entry_id@,
            compaction_reason: text_of_option(self.compaction_reason),
        }
    }
}

/// The newest entry that an operation appended.
pub struct NewestOwn {
    pub entry_id: String,
    pub entry_type: EntryType,
    pub role: Option<String>,
    pub stop_reason: Option<StopReason>,
}

/// The mathematical value of a [`NewestOwn`].
pub struct NewestOwnView {
    pub entry_id: Seq<char>,
    pub entry_type: EntryType,
    pub role: Option<Seq<char>>,
    pub stop_reason: Option<StopReason>,
}

impl View for NewestOwn {
    type V = NewestOwnView;

    open spec fn view(&self) -> NewestOwnView {
        NewestOwnView {
            entry_id: self.entry_id@,
            entry_type: self.entry_type,
            role: text_of_option(self.role),
            stop_reason: self.stop_reason,
        }
    }
}

/// Which of an operation's targets exist.
#[derive(Clone, Copy, PartialEq, Eq, Structural, Debug)]
pub struct Targets {
    pub result: bool,
    pub summary: bool,
}

impl Default for Targets {
    fn default() -> (r: Self)
        ensures
            r == (Targets { result: false, summary: false }),
    {
        Targets { result: false, summary: false }
    }
}

/// The open operation of a [`LaneState`].
pub struct OperationState {
    pub id: String,
    /// `"run"`, `"compaction"`, or `"navigation"`.
    pub kind: &'static str,
    pub intent: OperationIntent,
    pub aborting: bool,
    pub step: Option<StepState>,
    pub tool_batch: Option<ToolBatchState>,
    pub missing_initial_messages: Vec<Entry>,
    pub pending_steer: Vec<Entry>,
    pub pending_follow_up: Vec<Entry>,
    pub pending_writes: Vec<Entry>,
    pub deferred: Option<DeferredHandle>,
    pub overflow_recovery_used: bool,
    pub newest_own: Option<NewestOwn>,
    pub targets: Targets,
}

/// The mathematical value of an [`OperationState`].
pub struct OperationView {
    pub id: Seq<char>,
    pub kind: Seq<char>,
    pub intent: OperationIntent,
    pub aborting: bool,
    pub step: Option<StepView>,
    pub tool_batch: Option<ToolBatchView>,
    pub missing_initial_messages: Seq<Entry>,
    pub pending_steer: Seq<Entry>,
    pub pending_follow_up: Seq<Entry>,
    pub pending_writes: Seq<Entry>,
    pub deferred: Option<DeferredHandle>,
    pub overflow_recovery_used: bool,
    pub newest_own: Option<NewestOwnView>,
    pub targets: Targets,
}

/// The view of an optional value.
pub open spec fn view_of<T: View>(value: Option<T>) -> Option<T::V> {
    match value {
        Some(v) => Some(v@),
        None => None,
    }
}

impl View for OperationState {
    type V = OperationView;

    open spec fn view(&self) -> OperationView {
        OperationView {
            id: self.id@,
            kind: self.kind@,
            intent: self.intent,
            aborting: self.aborting,
            step: view_of(self.step),
            tool_batch: view_of(self.tool_batch),
            missing_initial_messages: self.missing_initial_messages@,
            pending_steer: self.pending_steer@,
            pending_follow_up: self.pending_follow_up@,
            pending_writes: self.pending_writes@,
            deferred: self.deferred,
            overflow_recovery_used: self.overflow_recovery_used,
            newest_own: view_of(self.newest_own),
            targets: self.targets,
        }
    }
}

/// The state of a lane.
pub struct LaneState {
    pub lane: String,
    pub leaf_id: Option<String>,
    pub operation: Option<OperationState>,
    pub pending_next_run: Vec<Entry>,
}

/// What a lane is recovered from.
pub struct LaneReductionInput {
    pub lane: String,
    pub open_operations: Vec<LaneRecord>,
    pub records: Vec<LaneRecord>,
    pub entries: Vec<Entry>,
    pub leaf_id: Option<String>,
    /// Entries appended by the open operation, oldest first.
    pub own_entries: Vec<Entry>,
    /// Configuration entries in effect where the operation started, or at the
    /// leaf of an idle lane.
    pub configuration_entries: Vec<Entry>,
    pub defaults: EffectiveLaneConfiguration,
}

/// The recovered state of a lane.
pub struct LaneReductionResult {
    pub lane_state: LaneState,
    pub effective_configuration: EffectiveLaneConfiguration,
    pub terminal_failure: Option<TerminalFailureState>,
}

// ---------------------------------------------------------------------------
// Configuration
// ---------------------------------------------------------------------------

/// The entries without those that a later entry with the same id replaces.
pub open spec fn latest_by_id(entries: Seq<Entry>) -> Seq<Entry>
    decreases entries.len(),
{
    if entries.len() == 0 {
        Seq::empty()
    } else if has_entry(entries.drop_first(), entries[0].spec_id()) {
        latest_by_id(entries.drop_first())
    } else {
        seq![entries[0]] + latest_by_id(entries.drop_first())
    }
}

/// The configuration after an entry.
pub open spec fn configured(before: ConfigurationView, entry: Entry) -> ConfigurationView {
    match entry {
        Entry::ModelChange { provider, model_id, .. } => ConfigurationView {
            provider: provider@,
            model_id: model_id@,
            ..before
        },
        Entry::ThinkingLevelChange { thinking_level, .. } => ConfigurationView {
            thinking_level: thinking_level@,
            ..before
        },
        Entry::ActiveToolsChange { active_tool_names, .. } => ConfigurationView {
            active_tool_names: texts(active_tool_names@),
            ..before
        },
        Entry::Message { message: AgentMessage::Assistant(m), .. } => ConfigurationView {
            provider: m.provider@,
            model_id: m.model@,
            ..before
        },
        _ => before,
    }
}

/// The configuration after a sequence of entries.
pub open spec fn configured_by(before: ConfigurationView, entries: Seq<Entry>) -> ConfigurationView
    decreases entries.len(),
{
    if entries.len() == 0 {
        before
    } else {
        configured(configured_by(before, entries.drop_last()), entries.last())
    }
}

/// The configuration in effect: the defaults, changed by the configuration
/// entries and the operation's own entries in the order of their sequence
/// numbers.
pub open spec fn effective(
    defaults: ConfigurationView,
    configuration: Seq<Entry>,
    own: Seq<Entry>,
) -> ConfigurationView {
    configured_by(defaults, in_order(latest_by_id(configuration + own)))
}

fn copy_texts(s: &Vec<String>) -> (r: Vec<String>)
    ensures
        r@ == s@,
{
    let r: Vec<String> = s.clone();
    proof {
        assert(r@ =~= s@);
    }
    r
}

fn joined(a: &Vec<Entry>, b: &Vec<Entry>) -> (r: Vec<Entry>)
    ensures
        r@ == a@ + b@,
{
    let mut out: Vec<Entry> = a.clone();
    proof {
        assert(out@ =~= a@);
    }
    let mut i: usize = 0;
    while i < b.len()
        invariant
            i <= b@.len(),
            out@ == a@ + b@.take(i as int),
        decreases b@.len() - i,
    {
        out.push(b[i].clone());
        proof {
            assert(b@.take(i as int + 1) =~= b@.take(i as int).push(b@[i as int]));
            assert(out@ =~= a@ + b@.take(i as int + 1));
        }
        i = i + 1;
    }
    proof {
        assert(b@.take(b@.len() as int) =~= b@);
    }
    out
}

fn replaced_later(entries: &Vec<Entry>, at: usize) -> (r: bool)
    requires
        at < entries@.len(),
    ensures
        r == has_entry(entries@.skip(at as int + 1), entries@[at as int].spec_id()),
{
    let n: usize = entries.len();
    let mut i: usize = at + 1;
    proof {
        lemma_has_entry(entries@.skip(at as int + 1), entries@[at as int].spec_id());
    }
    while i < n
        invariant
            at < i <= n == entries@.len(),
            forall|j: int|
                at < j < i ==> (#[trigger] entries@[j]).spec_id() != entries@[at as int].spec_id(),
            has_entry(entries@.skip(at as int + 1), entries@[at as int].spec_id()) <==> exists|
                k: int,
            |
                0 <= k < entries@.skip(at as int + 1).len() && (#[trigger] entries@.skip(
                    at as int + 1,
                )[k]).spec_id() == entries@[at as int].spec_id(),
        decreases entries@.len() - i,
    {
        if *entries[i].id() == *entries[at].id() {
            proof {
                assert(entries@.skip(at as int + 1)[i - at - 1] == entries@[i as int]);
            }
            return true;
        }
        i = i + 1;
    }
    proof {
        if has_entry(entries@.skip(at as int + 1), entries@[at as int].spec_id()) {
            let rest = entries@.skip(at as int + 1);
            let k = choose|k: int|
                0 <= k < rest.len() && (#[trigger] rest[k]).spec_id() == entries@[at as int].spec_id();
            assert(rest[k] == entries@[k + at + 1]);
        }
    }
    false
}

fn newest_versions(entries: &Vec<Entry>) -> (r: Vec<Entry>)
    ensures
        r@ == latest_by_id(entries@),
{
    let mut out: Vec<Entry> = Vec::new();
    let mut i: usize = 0;
    proof {
        assert(entries@.skip(0) =~= entries@);
        assert(out@ + latest_by_id(entries@) =~= latest_by_id(entries@));
    }
    while i < entries.len()
        invariant
            i <= entries@.len(),
            out@ + latest_by_id(entries@.skip(i as int)) == latest_by_id(entries@),
        decreases entries@.len() - i,
    {
        let ghost rest = entries@.skip(i as int);
        proof {
            assert(rest[0] == entries@[i as int]);
            assert(rest.drop_first() =~= entries@.skip(i as int + 1));
        }
        if !replaced_later(entries, i) {
            let ghost before = out@;
            out.push(entries[i].clone());
            proof {
                assert(out@ + latest_by_id(entries@.skip(i as int + 1)) =~= before + (
                seq![rest[0]] + latest_by_id(entries@.skip(i as int + 1))));
            }
        }
        i = i + 1;
    }
    proof {
        assert(out@ + latest_by_id(entries@.skip(i as int)) =~= out@);
    }
    out
}

/// The configuration in effect on a lane.
pub fn derive_effective_configuration(
    defaults: &EffectiveLaneConfiguration,
    configuration_entries: &Vec<Entry>,
    own_entries: &Vec<Entry>,
) -> (r: EffectiveLaneConfiguration)
    ensures
        r@ == effective(defaults@, configuration_entries@, own_entries@),
{
    let all: Vec<Entry> = joined(configuration_entries, own_entries);
    let ordered: Vec<Entry> = by_sequence_entries(&newest_versions(&all));
    let mut provider: String = defaults.model.provider.clone();
    let mut model_id: String = defaults.model.model_id.clone();
    let mut thinking_level: String = defaults.thinking_level.clone();
    let mut active_tool_names: Vec<String> = copy_texts(&defaults.active_tool_names);
    let mut i: usize = 0;
    proof {
        assert(ordered@.take(0) =~= Seq::<Entry>::empty());
    }
    while i < ordered.len()
        invariant
            i <= ordered@.len(),
            configured_by(defaults@, ordered@.take(i as int)) == (ConfigurationView {
                provider: provider@,
                model_id: model_id@,
                thinking_level: thinking_level@,
                active_tool_names: texts(active_tool_names@),
            }),
        decreases ordered@.len() - i,
    {
        proof {
            assert(ordered@.take(i as int + 1).drop_last() =~= ordered@.take(i as int));
        }
        match &ordered[i] {
            Entry::ModelChange { provider: new_provider, model_id: new_model, .. } => {
                provider = new_provider.clone();
                model_id = new_model.clone();
            },
            Entry::ThinkingLevelChange { thinking_level: new_level, .. } => {
                thinking_level = new_level.clone();
            },
            Entry::ActiveToolsChange { active_tool_names: new_names, .. } => {
                active_tool_names = copy_texts(new_names);
            },
            Entry::Message { message: AgentMessage::Assistant(m), .. } => {
                provider = m.provider.clone();
                model_id = m.model.clone();
            },
            _ => {},
        }
        i = i + 1;
    }
    proof {
        assert(ordered@.take(ordered@.len() as int) =~= ordered@);
    }
    EffectiveLaneConfiguration {
        model: EffectiveModel { provider, model_id },
        thinking_level,
        active_tool_names,
    }
}

// ---------------------------------------------------------------------------
// Queues, writes and steps
// ---------------------------------------------------------------------------

/// The entry that a record provisions.
pub open spec fn target_of(r: LaneRecord) -> Entry {
    match r {
        LaneRecord::QueueEnqueued { target, .. } => target,
        LaneRecord::WriteDeferred { target, .. } => target,
        _ => arbitrary(),
    }
}

/// The targets of the records that satisfy a predicate, in order.
pub open spec fn targets_where(records: Seq<LaneRecord>, p: spec_fn(LaneRecord) -> bool) -> Seq<
    Entry,
>
    decreases records.len(),
{
    if records.len() == 0 {
        Seq::empty()
    } else if p(records.last()) {
        targets_where(records.drop_last(), p).push(target_of(records.last()))
    } else {
        targets_where(records.drop_last(), p)
    }
}

/// Whether a record queues an entry that was neither stored nor cancelled.
pub open spec fn still_queued(records: Seq<LaneRecord>, all: Seq<Entry>, r: LaneRecord) -> bool {
    &&& r is QueueEnqueued
    &&& !has_entry(all, r->QueueEnqueued_target.spec_id())
    &&& last_record(records, is_cancellation_of(r->QueueEnqueued_target.spec_id())) is None
}

/// Records that queue an entry for the next run, apart from entries that the
/// open run started with.
pub open spec fn waits_for_next_run(
    records: Seq<LaneRecord>,
    all: Seq<Entry>,
    captured: Seq<Entry>,
) -> spec_fn(LaneRecord) -> bool {
    |r: LaneRecord|
        still_queued(records, all, r) && r->queue@ == "nextRun"@ && r->QueueEnqueued_run_id is None
            && !has_entry(captured, r->QueueEnqueued_target.spec_id())
}

/// Records that queue an entry for the operation.
pub open spec fn waits_for_run(
    records: Seq<LaneRecord>,
    all: Seq<Entry>,
    queue: Seq<char>,
    run: Seq<char>,
) -> spec_fn(LaneRecord) -> bool {
    |r: LaneRecord|
        still_queued(records, all, r) && r->queue@ == queue && text_of_option(
            r->QueueEnqueued_run_id,
        ) == Some(run)
}

/// Records of the operation that defer a write which was not made.
pub open spec fn awaits_write(all: Seq<Entry>, run: Seq<char>) -> spec_fn(LaneRecord) -> bool {
    |r: LaneRecord|
        r is WriteDeferred && r.spec_run_id() == Some(run) && !has_entry(
            all,
            r->WriteDeferred_target.spec_id(),
        )
}

/// Records that queued an input of the operation.
pub open spec fn feeds(run: Seq<char>) -> spec_fn(LaneRecord) -> bool {
    |r: LaneRecord|
        r is QueueEnqueued && r.spec_run_id() == Some(run) && r->queue@ != "nextRun"@
}

/// Which records [`collect_targets`] collects from.
enum Source<'a> {
    NextRun(&'a Vec<Entry>, &'a Vec<Entry>),
    Queue(&'a Vec<Entry>, &'static str, &'a String),
    Writes(&'a Vec<Entry>, &'a String),
    Inputs(&'a String),
}

spec fn source_of(records: Seq<LaneRecord>, source: Source) -> spec_fn(LaneRecord) -> bool {
    match source {
        Source::NextRun(all, captured) => waits_for_next_run(records, all@, captured@),
        Source::Queue(all, queue, run) => waits_for_run(records, all@, queue@, run@),
        Source::Writes(all, run) => awaits_write(all@, run@),
        Source::Inputs(run) => feeds(run@),
    }
}

fn latest_record<'a>(records: &'a Vec<LaneRecord>, w: &RecordFilter) -> (r: Option<&'a LaneRecord>)
    ensures
        match r {
            Some(e) => last_record(records@, wanted(*w)) == Some(*e),
            None => last_record(records@, wanted(*w)) is None,
        },
{
    proof {
        assert(records@.take(records@.len() as int) =~= records@);
    }
    find_record(records, records.len(), w)
}

fn record_exists(records: &Vec<LaneRecord>, w: &RecordFilter) -> (r: bool)
    ensures
        r == (last_record(records@, wanted(*w)) is Some),
{
    latest_record(records, w).is_some()
}

fn is_queued(records: &Vec<LaneRecord>, all: &Vec<Entry>, target: &Entry) -> (r: bool)
    ensures
        r == (!has_entry(all@, target.spec_id()) && last_record(
            records@,
            is_cancellation_of(target.spec_id()),
        ) is None),
{
    !entry_exists(all, target.id()) && !record_exists(
        records,
        &RecordFilter::Cancellation(target.id()),
    )
}

fn same_owner(run_id: &Option<String>, run: &String) -> (r: bool)
    ensures
        r == (text_of_option(*run_id) == Some(run@)),
{
    match run_id {
        Some(id) => *id == *run,
        None => false,
    }
}

fn collected<'a>(records: &'a Vec<LaneRecord>, at: usize, source: &Source) -> (r: Option<&'a Entry>)
    requires
        at < records@.len(),
    ensures
        match r {
            Some(target) => source_of(records@, *source)(records@[at as int]) && target_of(
                records@[at as int],
            ) == *target,
            None => !source_of(records@, *source)(records@[at as int]),
        },
{
    match (source, &records[at]) {
        (
            Source::NextRun(all, captured),
            LaneRecord::QueueEnqueued { queue, target, run_id: None, .. },
        ) => if same_text(queue.as_str(), "nextRun") && is_queued(records, all, target)
            && !entry_exists(captured, target.id()) {
            Some(target)
        } else {
            None
        },
        (
            Source::Queue(all, name, run),
            LaneRecord::QueueEnqueued { queue, target, run_id, .. },
        ) => if same_text(queue.as_str(), *name) && same_owner(run_id, run) && is_queued(
            records,
            all,
            target,
        ) {
            Some(target)
        } else {
            None
        },
        (Source::Writes(all, run), LaneRecord::WriteDeferred { run_id, target, .. }) => if *run_id
            == **run && !entry_exists(all, target.id()) {
            Some(target)
        } else {
            None
        },
        (Source::Inputs(run), LaneRecord::QueueEnqueued { queue, target, run_id, .. }) => if (
        same_text(queue.as_str(), "steer") || same_text(queue.as_str(), "followUp")) && same_owner(
            run_id,
            run,
        ) && !same_text(queue.as_str(), "nextRun") {
            Some(target)
        } else {
            None
        },
        _ => None,
    }
}

fn collect_targets(records: &Vec<LaneRecord>, source: &Source) -> (r: Vec<Entry>)
    ensures
        r@ == targets_where(records@, source_of(records@, *source)),
{
    let mut out: Vec<Entry> = Vec::new();
    let mut i: usize = 0;
    proof {
        assert(records@.take(0) =~= Seq::<LaneRecord>::empty());
    }
    while i < records.len()
        invariant
            i <= records@.len(),
            out@ == targets_where(records@.take(i as int), source_of(records@, *source)),
        decreases records@.len() - i,
    {
        proof {
            assert(records@.take(i as int + 1).drop_last() =~= records@.take(i as int));
        }
        if let Some(target) = collected(records, i, source) {
            out.push(target.clone());
        }
        i = i + 1;
    }
    proof {
        assert(records@.take(records@.len() as int) =~= records@);
    }
    out
}

/// The targets that do not exist.
pub open spec fn missing(targets: Seq<Entry>, all: Seq<Entry>) -> Seq<Entry>
    decreases targets.len(),
{
    if targets.len() == 0 {
        Seq::empty()
    } else if has_entry(all, targets.last().spec_id()) {
        missing(targets.drop_last(), all)
    } else {
        missing(targets.drop_last(), all).push(targets.last())
    }
}

fn missing_targets(targets: &Vec<Entry>, all: &Vec<Entry>) -> (r: Vec<Entry>)
    ensures
        r@ == missing(targets@, all@),
{
    let mut out: Vec<Entry> = Vec::new();
    let mut i: usize = 0;
    proof {
        assert(targets@.take(0) =~= Seq::<Entry>::empty());
    }
    while i < targets.len()
        invariant
            i <= targets@.len(),
            out@ == missing(targets@.take(i as int), all@),
        decreases targets@.len() - i,
    {
        proof {
            assert(targets@.take(i as int + 1).drop_last() =~= targets@.take(i as int));
        }
        if !entry_exists(all, targets[i].id()) {
            out.push(targets[i].clone());
        }
        i = i + 1;
    }
    proof {
        assert(targets@.take(targets@.len() as int) =~= targets@);
    }
    out
}

/// The step that an operation is at: its newest attempt, unless the attempt's
/// result exists.
pub open spec fn current_step(records: Seq<LaneRecord>, all: Seq<Entry>, run: Seq<char>) -> Option<
    StepView,
> {
    match last_record(records, is_attempt_of(run)) {
        Some(r) if !has_entry(all, r->StepAttempt_result_entry_id@) => Some(
            StepView {
                kind: step_kind_name(r->step@),
                attempts: r->attempt,
                result_entry_id: r->StepAttempt_result_entry_id@,
                compaction_reason: if step_kind_name(r->step@) == "compaction"@ {
                    text_of_option(r->compaction_reason)
                } else {
                    None
                },
            },
        ),
        _ => None,
    }
}

fn derive_step(records: &Vec<LaneRecord>, all: &Vec<Entry>, run: &String) -> (r: Option<StepState>)
    ensures
        view_of(r) == current_step(records@, all@, run@),
{
    proof {
        crate::reducer::lemma_last_record(records@, is_attempt_of(run@));
    }
    match latest_record(records, &RecordFilter::Attempt(run)) {
        Some(LaneRecord::StepAttempt { step, attempt, result_entry_id, compaction_reason, .. }) => {
            if entry_exists(all, result_entry_id) {
                return None;
            }
            let kind: &'static str = step_kind(step.as_str());
            Some(
                StepState {
                    kind,
                    attempts: *attempt,
                    result_entry_id: result_entry_id.clone(),
                    compaction_reason: if same_text(kind, "compaction") {
                        copy_text(compaction_reason)
                    } else {
                        None
                    },
                },
            )
        },
        _ => None,
    }
}

/// The sequence number of a stored message, or zero.
pub open spec fn message_seq(all: Seq<Entry>, id: Seq<char>) -> u64 {
    match entry_by_id(all, id) {
        Some(Entry::Message { seq, .. }) => seq,
        _ => 0,
    }
}

/// The highest sequence number among the stored messages of the targets, or
/// zero.
pub open spec fn newest_seq(targets: Seq<Entry>, all: Seq<Entry>) -> u64
    decreases targets.len(),
{
    if targets.len() == 0 {
        0
    } else {
        let before = newest_seq(targets.drop_last(), all);
        let last = message_seq(all, targets.last().spec_id());
        if last > before {
            last
        } else {
            before
        }
    }
}

fn newest_sequence(targets: &Vec<Entry>, all: &Vec<Entry>) -> (r: u64)
    ensures
        r == newest_seq(targets@, all@),
{
    let mut newest: u64 = 0;
    let mut i: usize = 0;
    proof {
        assert(targets@.take(0) =~= Seq::<Entry>::empty());
    }
    while i < targets.len()
        invariant
            i <= targets@.len(),
            newest == newest_seq(targets@.take(i as int), all@),
        decreases targets@.len() - i,
    {
        proof {
            assert(targets@.take(i as int + 1).drop_last() =~= targets@.take(i as int));
        }
        if let Some(Entry::Message { seq, .. }) = find_entry(all, targets[i].id()) {
            if *seq > newest {
                newest = *seq;
            }
        }
        i = i + 1;
    }
    proof {
        assert(targets@.take(targets@.len() as int) =~= targets@);
    }
    newest
}

/// The messages that a run starts with.
pub open spec fn initial_messages_of(intent: OperationIntent) -> Seq<Entry> {
    match intent {
        OperationIntent::Run { initial_messages, .. } => initial_messages@,
        _ => Seq::empty(),
    }
}

fn initial_messages(intent: &OperationIntent) -> (r: Vec<Entry>)
    ensures
        r@ == initial_messages_of(*intent),
{
    match intent {
        OperationIntent::Run { initial_messages, .. } => {
            let r: Vec<Entry> = (**initial_messages).clone();
            proof {
                assert(r@ =~= initial_messages@);
            }
            r
        },
        _ => Vec::new(),
    }
}

/// Whether an operation has compacted after an overflow since it last consumed
/// an input.
pub open spec fn overflow_recovered(
    records: Seq<LaneRecord>,
    all: Seq<Entry>,
    intent: OperationIntent,
    run: Seq<char>,
) -> bool {
    let inputs = initial_messages_of(intent) + targets_where(records, feeds(run));
    last_record(records, is_overflow_of(run, newest_seq(inputs, all))) is Some
}

/// What is known of the newest entry that an operation appended.
pub open spec fn newest_own_view(entry: Entry) -> NewestOwnView {
    NewestOwnView {
        entry_id: entry.spec_id(),
        entry_type: entry.spec_type(),
        role: match entry {
            Entry::Message { message, .. } => Some(message_role(message)),
            _ => None,
        },
        stop_reason: match entry {
            Entry::Message { message: AgentMessage::Assistant(m), .. } => Some(m.stop_reason),
            _ => None,
        },
    }
}

fn derive_newest_own(entry: &Entry) -> (r: NewestOwn)
    ensures
        r@ == newest_own_view(*entry),
{
    let role: Option<String> = match entry {
        Entry::Message { message, .. } => Some(message.role().to_owned()),
        _ => None,
    };
    let stop_reason: Option<StopReason> = match entry {
        Entry::Message { message: AgentMessage::Assistant(m), .. } => Some(m.stop_reason),
        _ => None,
    };
    NewestOwn { entry_id: entry.id().clone(), entry_type: entry.entry_type(), role, stop_reason }
}

// ---------------------------------------------------------------------------
// Tool batch
// ---------------------------------------------------------------------------

/// Whether an entry holds an assistant message that calls tools.
pub open spec fn calls_tools(entry: Entry) -> bool {
    match entry {
        Entry::Message { message: AgentMessage::Assistant(m), .. } => tool_calls_of(
            m.content@,
        ).len() > 0,
        _ => false,
    }
}

/// The last entry whose assistant message calls tools.
pub open spec fn last_caller(own: Seq<Entry>) -> Option<Entry>
    decreases own.len(),
{
    if own.len() == 0 {
        None
    } else if calls_tools(own.last()) {
        Some(own.last())
    } else {
        last_caller(own.drop_last())
    }
}

/// Whether an entry answers a call of an earlier entry, and was not written
/// by a deferred write.
pub open spec fn answers(
    entry: Entry,
    records: Seq<LaneRecord>,
    run: Seq<char>,
    after: u64,
    call_id: Seq<char>,
) -> bool {
    match entry {
        Entry::Message { message: AgentMessage::ToolResult(m), .. } => entry.spec_seq() > after
            && m.tool_call_id@ == call_id && last_record(
            records,
            is_write_of(run, entry.spec_id()),
        ) is None,
        _ => false,
    }
}

/// The first entry that answers a call.
pub open spec fn first_answer(
    own: Seq<Entry>,
    records: Seq<LaneRecord>,
    run: Seq<char>,
    after: u64,
    call_id: Seq<char>,
) -> Option<Entry>
    decreases own.len(),
{
    if own.len() == 0 {
        None
    } else if answers(own[0], records, run, after, call_id) {
        Some(own[0])
    } else {
        first_answer(own.drop_first(), records, run, after, call_id)
    }
}

/// The result of a call: the stored result of its start, or else the first
/// entry that answers it.
pub open spec fn call_result(
    started: Option<LaneRecord>,
    answer: Option<Entry>,
    all: Seq<Entry>,
) -> Option<Entry> {
    match started {
        Some(r) => match entry_by_id(all, r->ToolStarted_result_entry_id@) {
            Some(entry) => Some(entry),
            None => answer,
        },
        None => answer,
    }
}

/// Whether a result ends the run.
pub open spec fn terminates(result: Option<Entry>) -> bool {
    match result {
        Some(Entry::Message { terminate, .. }) => terminate == Some(true),
        _ => false,
    }
}

/// The state of the call at position `i` of an assistant entry.
pub open spec fn call_state(
    caller: Entry,
    calls: Seq<ToolCall>,
    i: int,
    records: Seq<LaneRecord>,
    own: Seq<Entry>,
    all: Seq<Entry>,
    run: Seq<char>,
) -> ToolCallState {
    let started = last_record(records, is_call_start_of(run, caller.spec_id(), i as u32));
    let answer = first_answer(own, records, run, caller.spec_seq(), calls[i].id@);
    let result = call_result(started, answer, all);
    ToolCallState {
        tool_index: (i as u32) as usize,
        tool_call: calls[i],
        started,
        result_exists: result is Some,
        terminate: terminates(result),
    }
}

/// The tool calls of the newest own entry that made some, with what is known
/// of each.
pub open spec fn tool_batch(
    records: Seq<LaneRecord>,
    own: Seq<Entry>,
    all: Seq<Entry>,
    run: Seq<char>,
) -> Option<ToolBatchView> {
    match last_caller(own) {
        Some(caller) => {
            let m = caller->Message_message->Assistant_0;
            let calls = tool_calls_of(m.content@);
            let states = Seq::new(
                calls.len(),
                |i: int| call_state(caller, calls, i, records, own, all, run),
            );
            Some(
                ToolBatchView {
                    assistant_entry_id: caller.spec_id(),
                    calls: states,
                    truncated: m.stop_reason == StopReason::Length,
                    unresolved: exists|i: int|
                        0 <= i < states.len() && !(#[trigger] states[i]).result_exists,
                },
            )
        },
        None => None,
    }
}

proof fn lemma_last_caller(own: Seq<Entry>)
    ensures
        last_caller(own) matches Some(e) ==> calls_tools(e),
    decreases own.len(),
{
    if own.len() > 0 && !calls_tools(own.last()) {
        lemma_last_caller(own.drop_last());
    }
}

fn find_caller(own: &Vec<Entry>) -> (r: Option<&Entry>)
    ensures
        match r {
            Some(e) => last_caller(own@) == Some(*e),
            None => last_caller(own@) is None,
        },
{
    let mut i: usize = own.len();
    proof {
        assert(own@.take(own@.len() as int) =~= own@);
    }
    while i > 0
        invariant
            i <= own@.len(),
            last_caller(own@) == last_caller(own@.take(i as int)),
        decreases i,
    {
        proof {
            assert(own@.take(i as int).drop_last() =~= own@.take(i as int - 1));
        }
        if let Entry::Message { message: AgentMessage::Assistant(m), .. } = &own[i - 1] {
            if collect_tool_calls(&m.content).len() > 0 {
                return Some(&own[i - 1]);
            }
        }
        i = i - 1;
    }
    None
}

fn find_answer<'a>(
    own: &'a Vec<Entry>,
    records: &Vec<LaneRecord>,
    run: &String,
    after: u64,
    call_id: &String,
) -> (r: Option<&'a Entry>)
    ensures
        match r {
            Some(e) => first_answer(own@, records@, run@, after, call_id@) == Some(*e),
            None => first_answer(own@, records@, run@, after, call_id@) is None,
        },
{
    let mut i: usize = 0;
    proof {
        assert(own@.skip(0) =~= own@);
    }
    while i < own.len()
        invariant
            i <= own@.len(),
            first_answer(own@, records@, run@, after, call_id@) == first_answer(
                own@.skip(i as int),
                records@,
                run@,
                after,
                call_id@,
            ),
        decreases own@.len() - i,
    {
        proof {
            assert(own@.skip(i as int)[0] == own@[i as int]);
            assert(own@.skip(i as int).drop_first() =~= own@.skip(i as int + 1));
        }
        if let Entry::Message { id, message: AgentMessage::ToolResult(m), seq, .. } = &own[i] {
            if *seq > after && m.tool_call_id == *call_id && !record_exists(
                records,
                &RecordFilter::Write(run, id),
            ) {
                return Some(&own[i]);
            }
        }
        i = i + 1;
    }
    None
}

fn derive_call(
    caller: &Entry,
    calls: &Vec<ToolCall>,
    i: usize,
    records: &Vec<LaneRecord>,
    own: &Vec<Entry>,
    all: &Vec<Entry>,
    run: &String,
) -> (r: ToolCallState)
    requires
        i < calls@.len(),
    ensures
        r == call_state(*caller, calls@, i as int, records@, own@, all@, run@),
{
    let tool_index: u32 = i as u32;
    proof {
        crate::reducer::lemma_last_record(
            records@,
            is_call_start_of(run@, caller.spec_id(), tool_index),
        );
    }
    let started: Option<&LaneRecord> = latest_record(
        records,
        &RecordFilter::Call(run, caller.id(), tool_index),
    );
    let stored: Option<&Entry> = match started {
        Some(LaneRecord::ToolStarted { result_entry_id, .. }) => find_entry(all, result_entry_id),
        _ => None,
    };
    let answer: Option<&Entry> = find_answer(own, records, run, caller.seq(), &calls[i].id);
    let result: Option<&Entry> = match stored {
        Some(entry) => Some(entry),
        None => answer,
    };
    let terminate: bool = match result {
        Some(Entry::Message { terminate: Some(ends), .. }) => *ends,
        _ => false,
    };
    ToolCallState {
        tool_index: tool_index as usize,
        tool_call: calls[i].clone(),
        started: match started {
            Some(record) => Some(record.clone()),
            None => None,
        },
        result_exists: result.is_some(),
        terminate,
    }
}

/// The tool calls of the newest own entry that made some, with what is known
/// of each.
pub fn derive_tool_batch(
    operation_id: &String,
    records: &Vec<LaneRecord>,
    own_entries: &Vec<Entry>,
    all_entries: &Vec<Entry>,
) -> (r: Option<ToolBatchState>)
    ensures
        view_of(r) == tool_batch(records@, own_entries@, all_entries@, operation_id@),
{
    proof {
        lemma_last_caller(own_entries@);
    }
    let caller: &Entry = match find_caller(own_entries) {
        Some(caller) => caller,
        None => {
            return None;
        },
    };
    if let Entry::Message { message: AgentMessage::Assistant(m), .. } = caller {
        let tool_calls: Vec<ToolCall> = collect_tool_calls(&m.content);
        let ghost states = tool_batch(
            records@,
            own_entries@,
            all_entries@,
            operation_id@,
        ).unwrap().calls;
        let mut calls: Vec<ToolCallState> = Vec::new();
        let mut unresolved: bool = false;
        let mut i: usize = 0;
        while i < tool_calls.len()
            invariant
                i <= tool_calls@.len(),
                states.len() == tool_calls@.len(),
                forall|k: int|
                    0 <= k < states.len() ==> #[trigger] states[k] == call_state(
                        *caller,
                        tool_calls@,
                        k,
                        records@,
                        own_entries@,
                        all_entries@,
                        operation_id@,
                    ),
                calls@ == states.take(i as int),
                unresolved == exists|k: int| 0 <= k < i && !(#[trigger] states[k]).result_exists,
            decreases tool_calls@.len() - i,
        {
            let call: ToolCallState = derive_call(
                caller,
                &tool_calls,
                i,
                records,
                own_entries,
                all_entries,
                operation_id,
            );
            proof {
                assert(call == states[i as int]);
                assert(states.take(i as int + 1) =~= states.take(i as int).push(states[i as int]));
            }
            if !call.result_exists {
                unresolved = true;
            }
            calls.push(call);
            i = i + 1;
        }
        proof {
            assert(states.take(states.len() as int) =~= states);
        }
        Some(
            ToolBatchState {
                assistant_entry_id: caller.id().clone(),
                calls,
                truncated: m.stop_reason == StopReason::Length,
                unresolved,
            },
        )
    } else {
        None
    }
}

// ---------------------------------------------------------------------------
// Failure and targets
// ---------------------------------------------------------------------------

/// Whether an entry is an assistant message that awaits a deferred response.
pub open spec fn awaits_response(entry: Entry) -> bool {
    match entry {
        Entry::Message { message: AgentMessage::Assistant(m), .. } => m.stop_reason
            == StopReason::Deferred,
        _ => false,
    }
}

/// The error that the newest own entry reports, when a step or the fetch of a
/// deferred response produced it.
pub open spec fn terminal_failure(
    records: Seq<LaneRecord>,
    own: Seq<Entry>,
    run: Seq<char>,
) -> Option<TerminalFailureView> {
    if own.len() == 0 {
        None
    } else {
        match own.last() {
            Entry::Message { id, message: AgentMessage::Assistant(m), .. } => {
                let by_step = last_record(records, is_producer_of(run, id@)) is Some;
                let by_fetch = last_record(records, is_fetch_of(run, id@)) is Some || (own.len()
                    >= 2 && awaits_response(own[own.len() - 2]));
                if m.stop_reason == StopReason::Error && last_record(
                    records,
                    is_write_of(run, id@),
                ) is None && (by_step || by_fetch) {
                    Some(
                        TerminalFailureView {
                            entry_id: id@,
                            source: if by_step {
                                "step"@
                            } else {
                                "deferred_fetch"@
                            },
                            message: *m,
                        },
                    )
                } else {
                    None
                }
            },
            _ => None,
        }
    }
}

fn derive_terminal_failure(records: &Vec<LaneRecord>, own: &Vec<Entry>, run: &String) -> (r: Option<
    TerminalFailureState,
>)
    ensures
        view_of(r) == terminal_failure(records@, own@, run@),
{
    let n: usize = own.len();
    if n == 0 {
        return None;
    }
    if let Entry::Message { id, message: AgentMessage::Assistant(m), .. } = &own[n - 1] {
        if m.stop_reason != StopReason::Error || record_exists(
            records,
            &RecordFilter::Write(run, id),
        ) {
            return None;
        }
        let by_step: bool = record_exists(records, &RecordFilter::Producer(run, id));
        let after_deferral: bool = if n >= 2 {
            match &own[n - 2] {
                Entry::Message { message: AgentMessage::Assistant(previous), .. } =>
                    previous.stop_reason == StopReason::Deferred,
                _ => false,
            }
        } else {
            false
        };
        let by_fetch: bool = record_exists(records, &RecordFilter::Fetch(run, id))
            || after_deferral;
        if by_step || by_fetch {
            Some(
                TerminalFailureState {
                    entry_id: id.clone(),
                    source: if by_step {
                        "step"
                    } else {
                        "deferred_fetch"
                    },
                    message: share(m),
                },
            )
        } else {
            None
        }
    } else {
        None
    }
}

/// The handle of the response that the newest own entry awaits.
pub open spec fn awaited_handle(own: Seq<Entry>) -> Option<DeferredHandle> {
    if own.len() > 0 && awaits_response(own.last()) {
        own.last()->Message_message->Assistant_0.deferred
    } else {
        None
    }
}

fn derive_deferred(own: &Vec<Entry>) -> (r: Option<DeferredHandle>)
    ensures
        r == awaited_handle(own@),
{
    let n: usize = own.len();
    if n == 0 {
        return None;
    }
    match &own[n - 1] {
        Entry::Message { message: AgentMessage::Assistant(m), .. } => if m.stop_reason
            == StopReason::Deferred {
            match &m.deferred {
                Some(handle) => Some(handle.clone()),
                None => None,
            }
        } else {
            None
        },
        _ => None,
    }
}

/// Which of an operation's targets exist.
pub open spec fn existing_targets(intent: OperationIntent, all: Seq<Entry>) -> Targets {
    match intent {
        OperationIntent::Compaction { result_entry_id, .. } => Targets {
            result: has_entry(all, result_entry_id@),
            summary: false,
        },
        OperationIntent::Navigation { summary_entry_id: Some(id), .. } => Targets {
            result: false,
            summary: has_entry(all, id@),
        },
        _ => Targets { result: false, summary: false },
    }
}

fn derive_targets(intent: &OperationIntent, all: &Vec<Entry>) -> (r: Targets)
    ensures
        r == existing_targets(*intent, all@),
{
    match intent {
        OperationIntent::Compaction { result_entry_id, .. } => Targets {
            result: entry_exists(all, result_entry_id),
            summary: false,
        },
        OperationIntent::Navigation { summary_entry_id: Some(id), .. } => Targets {
            result: false,
            summary: entry_exists(all, id),
        },
        _ => Targets { result: false, summary: false },
    }
}

// ---------------------------------------------------------------------------
// Reduction
// ---------------------------------------------------------------------------

/// The name of an operation's kind.
pub open spec fn operation_kind(intent: OperationIntent) -> Seq<char> {
    match intent {
        OperationIntent::Run { .. } => "run"@,
        OperationIntent::Compaction { .. } => "compaction"@,
        OperationIntent::Navigation { .. } => "navigation"@,
    }
}

/// Whether an operation was told to abort.
pub open spec fn aborting(records: Seq<LaneRecord>, run: Seq<char>) -> bool {
    last_record(records, is_abort_of(run)) is Some
}

/// The state of the operation that `started` starts, from the records and the
/// operation's own entries in order and all known entries.
pub open spec fn operation_state(
    started: LaneRecord,
    records: Seq<LaneRecord>,
    own: Seq<Entry>,
    all: Seq<Entry>,
) -> OperationView {
    let run = started.spec_id();
    let intent = started->intent;
    OperationView {
        id: run,
        kind: operation_kind(intent),
        intent,
        aborting: aborting(records, run),
        step: current_step(records, all, run),
        tool_batch: tool_batch(records, own, all, run),
        missing_initial_messages: missing(initial_messages_of(intent), all),
        pending_steer: if aborting(records, run) {
            Seq::empty()
        } else {
            targets_where(records, waits_for_run(records, all, "steer"@, run))
        },
        pending_follow_up: if aborting(records, run) {
            Seq::empty()
        } else {
            targets_where(records, waits_for_run(records, all, "followUp"@, run))
        },
        pending_writes: targets_where(records, awaits_write(all, run)),
        deferred: awaited_handle(own),
        overflow_recovery_used: overflow_recovered(records, all, intent, run),
        newest_own: if own.len() > 0 {
            Some(newest_own_view(own.last()))
        } else {
            None
        },
        targets: existing_targets(intent, all),
    }
}

fn derive_operation(
    started: &LaneRecord,
    records: &Vec<LaneRecord>,
    own: &Vec<Entry>,
    all: &Vec<Entry>,
) -> (r: Option<OperationState>)
    ensures
        started is OperationStarted ==> view_of(r) == Some(
            operation_state(*started, records@, own@, all@),
        ),
{
    if let LaneRecord::OperationStarted { id, intent, .. } = started {
        let aborted: bool = record_exists(records, &RecordFilter::Abort(id));
        let pending_steer: Vec<Entry> = if aborted {
            Vec::new()
        } else {
            collect_targets(records, &Source::Queue(all, "steer", id))
        };
        let pending_follow_up: Vec<Entry> = if aborted {
            Vec::new()
        } else {
            collect_targets(records, &Source::Queue(all, "followUp", id))
        };
        let initial: Vec<Entry> = initial_messages(intent);
        let inputs: Vec<Entry> = joined(
            &initial,
            &collect_targets(records, &Source::Inputs(id)),
        );
        let newest: u64 = newest_sequence(&inputs, all);
        let newest_own: Option<NewestOwn> = if own.len() > 0 {
            Some(derive_newest_own(&own[own.len() - 1]))
        } else {
            None
        };
        Some(
            OperationState {
                id: id.clone(),
                kind: match intent {
                    OperationIntent::Run { .. } => "run",
                    OperationIntent::Compaction { .. } => "compaction",
                    OperationIntent::Navigation { .. } => "navigation",
                },
                intent: intent.clone(),
                aborting: aborted,
                step: derive_step(records, all, id),
                tool_batch: derive_tool_batch(id, records, own, all),
                missing_initial_messages: missing_targets(&initial, all),
                pending_steer,
                pending_follow_up,
                pending_writes: collect_targets(records, &Source::Writes(all, id)),
                deferred: derive_deferred(own),
                overflow_recovery_used: record_exists(records, &RecordFilter::Overflow(id, newest)),
                newest_own,
                targets: derive_targets(intent, all),
            },
        )
    } else {
        None
    }
}

impl LaneReductionInput {
    /// The first problem of the records and entries, if there is one.
    pub open spec fn problem(self) -> Option<crate::reducer::CorruptionView> {
        lane_problem(self.lane@, self.open_operations@, self.records@, self.entries@)
    }

    /// Every known entry; of two with one id the later stands.
    pub open spec fn all_entries(self) -> Seq<Entry> {
        self.entries@ + in_order(self.own_entries@)
    }

    /// The messages that the open run started with.
    pub open spec fn captured(self) -> Seq<Entry> {
        if self.open_operations@.len() > 0 && self.open_operations@[0] is OperationStarted {
            initial_messages_of(self.open_operations@[0]->intent)
        } else {
            Seq::empty()
        }
    }

    /// The state of the open operation, when there is one.
    pub open spec fn operation(self) -> Option<OperationView> {
        if self.open_operations@.len() > 0 {
            Some(
                operation_state(
                    self.open_operations@[0],
                    in_order(self.records@),
                    in_order(self.own_entries@),
                    self.all_entries(),
                ),
            )
        } else {
            None
        }
    }

    /// The failure that the open operation ended with, if any.
    pub open spec fn failure(self) -> Option<TerminalFailureView> {
        if self.open_operations@.len() > 0 {
            terminal_failure(
                in_order(self.records@),
                in_order(self.own_entries@),
                self.open_operations@[0].spec_id(),
            )
        } else {
            None
        }
    }

    /// The entries that wait for the next run.
    pub open spec fn next_run(self) -> Seq<Entry> {
        let records = in_order(self.records@);
        targets_where(records, waits_for_next_run(records, self.all_entries(), self.captured()))
    }
}

/// Reconstructs the state of a lane from what is stored of it.
pub fn reduce_lane_state(input: LaneReductionInput) -> (r: Result<
    LaneReductionResult,
    RecordLogCorruption,
>)
    requires
        input.problem() is None && input.open_operations@.len() > 0
            ==> input.open_operations@[0] is OperationStarted,
    ensures
        match r {
            Ok(result) => {
                &&& input.problem() is None
                &&& result.lane_state.lane == input.lane
                &&& result.lane_state.leaf_id == input.leaf_id
                &&& view_of(result.lane_state.operation) == input.operation()
                &&& result.lane_state.pending_next_run@ == input.next_run()
                &&& result.effective_configuration@ == effective(
                    input.defaults@,
                    input.configuration_entries@,
                    input.own_entries@,
                )
                &&& view_of(result.terminal_failure) == input.failure()
            },
            Err(e) => input.problem() == Some(e@),
        },
{
    let records: Vec<LaneRecord> = by_sequence_records(&input.records);
    let checked: Result<(), RecordLogCorruption> = validate_log(
        &input.lane,
        &input.open_operations,
        &records,
        &input.entries,
        Ghost(input.records@),
    );
    if let Err(problem) = checked {
        return Err(problem);
    }
    let own: Vec<Entry> = by_sequence_entries(&input.own_entries);
    let all: Vec<Entry> = joined(&input.entries, &own);
    let captured: Vec<Entry> = if input.open_operations.len() > 0 {
        match &input.open_operations[0] {
            LaneRecord::OperationStarted { intent, .. } => initial_messages(intent),
            _ => Vec::new(),
        }
    } else {
        Vec::new()
    };
    let pending_next_run: Vec<Entry> = collect_targets(
        &records,
        &Source::NextRun(&all, &captured),
    );
    let effective_configuration: EffectiveLaneConfiguration = derive_effective_configuration(
        &input.defaults,
        &input.configuration_entries,
        &input.own_entries,
    );
    if input.open_operations.len() == 0 {
        return Ok(
            LaneReductionResult {
                lane_state: LaneState {
                    lane: input.lane,
                    leaf_id: input.leaf_id,
                    operation: None,
                    pending_next_run,
                },
                effective_configuration,
                terminal_failure: None,
            },
        );
    }
    let started: &LaneRecord = &input.open_operations[0];
    let operation: Option<OperationState> = derive_operation(started, &records, &own, &all);
    let failure: Option<TerminalFailureState> = derive_terminal_failure(
        &records,
        &own,
        started.id(),
    );
    Ok(
        LaneReductionResult {
            lane_state: LaneState {
                lane: input.lane,
                leaf_id: input.leaf_id,
                operation,
                pending_next_run,
            },
            effective_configuration,
            terminal_failure: failure,
        },
    )
}

// ---------------------------------------------------------------------------
// Laws
// ---------------------------------------------------------------------------

proof fn lemma_targets_where(records: Seq<LaneRecord>, p: spec_fn(LaneRecord) -> bool, k: int)
    requires
        0 <= k < targets_where(records, p).len(),
    ensures
        exists|i: int|
            0 <= i < records.len() && p(#[trigger] records[i]) && target_of(records[i])
                == targets_where(records, p)[k],
    decreases records.len(),
{
    let shorter = records.drop_last();
    let before = targets_where(shorter, p);
    if k < before.len() {
        lemma_targets_where(shorter, p, k);
        let i = choose|i: int|
            0 <= i < shorter.len() && p(#[trigger] shorter[i]) && target_of(shorter[i]) == before[k];
        assert(records[i] == shorter[i]);
    } else {
        assert(p(records[records.len() - 1]));
    }
}

/// An operation that was told to abort has nothing left to steer it and no
/// follow-up.
pub proof fn law_abort_drops_queued_messages(input: LaneReductionInput)
    requires
        input.open_operations@.len() > 0,
        input.operation().unwrap().aborting,
    ensures
        input.operation().unwrap().pending_steer.len() == 0,
        input.operation().unwrap().pending_follow_up.len() == 0,
{
}

/// Nothing that is pending exists yet: neither a message for the next run, nor
/// a steering or follow-up message, nor a deferred write, nor an initial
/// message.
pub proof fn law_pending_entries_are_missing(input: LaneReductionInput)
    requires
        input.open_operations@.len() > 0,
    ensures
        forall|k: int|
            0 <= k < input.next_run().len() ==> !has_entry(
                input.all_entries(),
                (#[trigger] input.next_run()[k]).spec_id(),
            ),
        forall|k: int|
            0 <= k < input.operation().unwrap().pending_steer.len() ==> !has_entry(
                input.all_entries(),
                (#[trigger] input.operation().unwrap().pending_steer[k]).spec_id(),
            ),
        forall|k: int|
            0 <= k < input.operation().unwrap().pending_follow_up.len() ==> !has_entry(
                input.all_entries(),
                (#[trigger] input.operation().unwrap().pending_follow_up[k]).spec_id(),
            ),
        forall|k: int|
            0 <= k < input.operation().unwrap().pending_writes.len() ==> !has_entry(
                input.all_entries(),
                (#[trigger] input.operation().unwrap().pending_writes[k]).spec_id(),
            ),
        forall|k: int|
            0 <= k < input.operation().unwrap().missing_initial_messages.len() ==> !has_entry(
                input.all_entries(),
                (#[trigger] input.operation().unwrap().missing_initial_messages[k]).spec_id(),
            ),
{
    let records = in_order(input.records@);
    let all = input.all_entries();
    let run = input.open_operations@[0].spec_id();
    let op = input.operation().unwrap();
    let next = waits_for_next_run(records, all, input.captured());
    assert forall|k: int| 0 <= k < input.next_run().len() implies !has_entry(
        all,
        (#[trigger] input.next_run()[k]).spec_id(),
    ) by {
        lemma_targets_where(records, next, k);
    }
    let steer = waits_for_run(records, all, "steer"@, run);
    assert forall|k: int| 0 <= k < op.pending_steer.len() implies !has_entry(
        all,
        (#[trigger] op.pending_steer[k]).spec_id(),
    ) by {
        lemma_targets_where(records, steer, k);
    }
    let follow_up = waits_for_run(records, all, "followUp"@, run);
    assert forall|k: int| 0 <= k < op.pending_follow_up.len() implies !has_entry(
        all,
        (#[trigger] op.pending_follow_up[k]).spec_id(),
    ) by {
        lemma_targets_where(records, follow_up, k);
    }
    let write = awaits_write(all, run);
    assert forall|k: int| 0 <= k < op.pending_writes.len() implies !has_entry(
        all,
        (#[trigger] op.pending_writes[k]).spec_id(),
    ) by {
        lemma_targets_where(records, write, k);
    }
    lemma_missing(initial_messages_of(input.open_operations@[0]->intent), all);
}

proof fn lemma_missing(targets: Seq<Entry>, all: Seq<Entry>)
    ensures
        forall|k: int|
            0 <= k < missing(targets, all).len() ==> !has_entry(
                all,
                (#[trigger] missing(targets, all)[k]).spec_id(),
            ),
    decreases targets.len(),
{
    if targets.len() > 0 {
        let before = missing(targets.drop_last(), all);
        lemma_missing(targets.drop_last(), all);
        assert forall|k: int| 0 <= k < missing(targets, all).len() implies !has_entry(
            all,
            (#[trigger] missing(targets, all)[k]).spec_id(),
        ) by {
            if k < before.len() {
                assert(missing(targets, all)[k] == before[k]);
            }
        }
    }
}

/// A step is pending only while its result is missing.
pub proof fn law_step_awaits_its_result(input: LaneReductionInput)
    requires
        input.open_operations@.len() > 0,
        input.operation().unwrap().step is Some,
    ensures
        !has_entry(
            input.all_entries(),
            input.operation().unwrap().step.unwrap().result_entry_id,
        ),
{
}

/// Whether entries are told apart by their numbers: equal ids stand for equal
/// entries, and entries with different ids have different numbers.
pub open spec fn numbered_apart(entries: Seq<Entry>) -> bool {
    forall|i: int, j: int|
        0 <= i < entries.len() && 0 <= j < entries.len() ==> {
            &&& (#[trigger] entries[i]).spec_id() == (#[trigger] entries[j]).spec_id()
                ==> entries[i] == entries[j]
            &&& entries[i].spec_id() != entries[j].spec_id() ==> entries[i].spec_seq()
                != entries[j].spec_seq()
        }
}

proof fn lemma_latest(entries: Seq<Entry>)
    requires
        numbered_apart(entries),
    ensures
        same_items(latest_by_id(entries), entries),
        distinct_keys(latest_by_id(entries)),
    decreases entries.len(),
{
    let latest = latest_by_id(entries);
    if entries.len() > 0 {
        let first = entries[0];
        let rest = entries.drop_first();
        let later = latest_by_id(rest);
        assert forall|i: int, j: int|
            0 <= i < rest.len() && 0 <= j < rest.len() implies {
            &&& (#[trigger] rest[i]).spec_id() == (#[trigger] rest[j]).spec_id() ==> rest[i]
                == rest[j]
            &&& rest[i].spec_id() != rest[j].spec_id() ==> rest[i].spec_seq()
                != rest[j].spec_seq()
        } by {
            assert(rest[i] == entries[i + 1] && rest[j] == entries[j + 1]);
        }
        lemma_latest(rest);
        lemma_has_entry(rest, first.spec_id());
        assert forall|x: Entry| #[trigger] latest.contains(x) <==> entries.contains(x) by {
            assert(later.contains(x) <==> rest.contains(x));
            if rest.contains(x) {
                let k = rest.index_of(x);
                assert(entries[k + 1] == x);
            }
            if entries.contains(x) && x != first {
                let k = entries.index_of(x);
                assert(rest[k - 1] == x);
            }
            assert(entries.contains(first));
            if has_entry(rest, first.spec_id()) {
                let k = choose|k: int|
                    0 <= k < rest.len() && (#[trigger] rest[k]).spec_id() == first.spec_id();
                assert(entries[k + 1] == entries[0]);
                assert(rest.contains(first));
                assert(later.contains(first));
            } else {
                assert(latest[0] == first);
                if later.contains(x) {
                    let k = later.index_of(x);
                    assert(latest[k + 1] == x);
                }
                if latest.contains(x) && x != first {
                    let k = latest.index_of(x);
                    assert(later[k - 1] == x);
                }
            }
        }
        if !has_entry(rest, first.spec_id()) {
            assert forall|i: int, j: int| 0 <= i < j < latest.len() implies (
            #[trigger] latest[i]).spec_key() != (#[trigger] latest[j]).spec_key() by {
                if i == 0 {
                    assert(later.contains(later[j - 1]));
                    assert(rest.contains(later[j - 1]));
                    let k = rest.index_of(later[j - 1]);
                    assert(rest[k].spec_id() != first.spec_id());
                    assert(entries[k + 1].spec_seq() != entries[0].spec_seq());
                } else {
                    assert(later[i - 1].spec_key() != later[j - 1].spec_key());
                }
            }
        }
    }
}

/// The order of the slices that a lane is recovered from does not matter: with
/// records and entries that their numbers tell apart, permuting the records and
/// the operation's own entries changes nothing of what is recovered, nor of the
/// problem that is found.
pub proof fn law_the_order_of_slices_does_not_matter(a: LaneReductionInput, b: LaneReductionInput)
    requires
        a.lane@ == b.lane@,
        a.open_operations@ == b.open_operations@,
        a.entries@ == b.entries@,
        a.configuration_entries@ == b.configuration_entries@,
        a.defaults@ == b.defaults@,
        a.records@.to_multiset() == b.records@.to_multiset(),
        a.own_entries@.to_multiset() == b.own_entries@.to_multiset(),
        distinct_keys(a.records@),
        numbered_apart(a.configuration_entries@ + a.own_entries@),
    ensures
        a.problem() == b.problem(),
        a.operation() == b.operation(),
        a.next_run() == b.next_run(),
        a.failure() == b.failure(),
        effective(a.defaults@, a.configuration_entries@, a.own_entries@) == effective(
            b.defaults@,
            b.configuration_entries@,
            b.own_entries@,
        ),
{
    broadcast use vstd::seq_lib::group_to_multiset_ensures;

    let fixed = a.configuration_entries@;
    let whole = fixed + a.own_entries@;
    let other = fixed + b.own_entries@;
    assert forall|i: int, j: int|
        0 <= i < a.records@.len() && 0 <= j < a.records@.len() && (
        #[trigger] a.records@[i]).spec_key() == (#[trigger] a.records@[j]).spec_key() implies
        a.records@[i] == a.records@[j] by {
        if i < j {
            assert(a.records@[i].spec_key() != a.records@[j].spec_key());
        } else if j < i {
            assert(a.records@[j].spec_key() != a.records@[i].spec_key());
        }
    }
    law_sorting_undoes_permutations(a.records@, b.records@);
    assert forall|i: int, j: int|
        0 <= i < a.own_entries@.len() && 0 <= j < a.own_entries@.len() && (
        #[trigger] a.own_entries@[i]).spec_key() == (#[trigger] a.own_entries@[j]).spec_key()
        implies a.own_entries@[i] == a.own_entries@[j] by {
        assert(whole[fixed.len() + i] == a.own_entries@[i]);
        assert(whole[fixed.len() + j] == a.own_entries@[j]);
    }
    law_sorting_undoes_permutations(a.own_entries@, b.own_entries@);
    assert forall|x: Entry| #[trigger] whole.contains(x) <==> other.contains(x) by {
        lemma_in_two_parts(fixed, a.own_entries@, x);
        lemma_in_two_parts(fixed, b.own_entries@, x);
        assert(a.own_entries@.contains(x) <==> a.own_entries@.to_multiset().count(x) > 0);
        assert(b.own_entries@.contains(x) <==> b.own_entries@.to_multiset().count(x) > 0);
    }
    assert forall|i: int, j: int|
        0 <= i < other.len() && 0 <= j < other.len() implies {
        &&& (#[trigger] other[i]).spec_id() == (#[trigger] other[j]).spec_id() ==> other[i]
            == other[j]
        &&& other[i].spec_id() != other[j].spec_id() ==> other[i].spec_seq() != other[j].spec_seq()
    } by {
        assert(other.contains(other[i]) && other.contains(other[j]));
        assert(whole.contains(other[i]) && whole.contains(other[j]));
        let x = whole.index_of(other[i]);
        let y = whole.index_of(other[j]);
        assert(whole[x] == other[i] && whole[y] == other[j]);
    }
    lemma_latest(whole);
    lemma_latest(other);
    assert forall|x: Entry|
        #[trigger] latest_by_id(whole).contains(x) <==> latest_by_id(other).contains(x) by {
        assert(whole.contains(x) <==> other.contains(x));
        assert(latest_by_id(other).contains(x) <==> other.contains(x));
    }
    law_sorting_forgets_the_order(latest_by_id(whole), latest_by_id(other));
}

proof fn lemma_in_two_parts(a: Seq<Entry>, b: Seq<Entry>, x: Entry)
    ensures
        (a + b).contains(x) <==> a.contains(x) || b.contains(x),
{
    let whole = a + b;
    if a.contains(x) {
        assert(whole[a.index_of(x)] == x);
    }
    if b.contains(x) {
        assert(whole[a.len() + b.index_of(x)] == x);
    }
    if whole.contains(x) {
        let k = whole.index_of(x);
        if k < a.len() {
            assert(a[k] == x);
        } else {
            assert(b[k - a.len()] == x);
        }
    }
}

} // verus!

//! Entries of the session tree, records of its lanes, queries and errors.

use std::sync::Arc;

use vstd::prelude::*;

use crate::json::{json_same, same_json, Json};
use crate::text::{concat3, same_text, text_of_option, texts};
use crate::types::{
    copy_text, equal_message, same_agent_message, same_texts, share, AgentMessage, Usage,
};

verus! {

// ---------------------------------------------------------------------------
// Entries
// ---------------------------------------------------------------------------

/// The kind of an entry.
#[derive(Clone, Copy, PartialEq, Eq, Structural, Debug)]
pub enum EntryType {
    Message,
    ModelChange,
    ThinkingLevelChange,
    ActiveToolsChange,
    Compaction,
    BranchSummary,
    Custom,
}

/// The name of an entry kind on the wire.
pub open spec fn entry_type_name(t: EntryType) -> Seq<char> {
    match t {
        EntryType::Message => "message"@,
        EntryType::ModelChange => "model_change"@,
        EntryType::ThinkingLevelChange => "thinking_level_change"@,
        EntryType::ActiveToolsChange => "active_tools_change"@,
        EntryType::Compaction => "compaction"@,
        EntryType::BranchSummary => "branch_summary"@,
        EntryType::Custom => "custom"@,
    }
}

impl EntryType {
    /// The name of the kind on the wire.
    pub fn as_str(self) -> (r: &'static str)
        ensures
            r@ == entry_type_name(self),
    {
        match self {
            EntryType::Message => "message",
            EntryType::ModelChange => "model_change",
            EntryType::ThinkingLevelChange => "thinking_level_change",
            EntryType::ActiveToolsChange => "active_tools_change",
            EntryType::Compaction => "compaction",
            EntryType::BranchSummary => "branch_summary",
            EntryType::Custom => "custom",
        }
    }
}

/// A node of the append-only session tree. The parent, the sequence number
/// and the timestamp are assigned by the storage.
pub enum Entry {
    Message {
        id: String,
        message: AgentMessage,
        terminate: Option<bool>,
        parent_id: Option<String>,
        seq: u64,
        timestamp: i64,
    },
    ModelChange {
        id: String,
        provider: String,
        model_id: String,
        parent_id: Option<String>,
        seq: u64,
        timestamp: i64,
    },
    ThinkingLevelChange {
        id: String,
        thinking_level: String,
        parent_id: Option<String>,
        seq: u64,
        timestamp: i64,
    },
    ActiveToolsChange {
        id: String,
        active_tool_names: Arc<Vec<String>>,
        parent_id: Option<String>,
        seq: u64,
        timestamp: i64,
    },
    Compaction {
        id: String,
        summary: String,
        retained_tail: Arc<Vec<AgentMessage>>,
        tokens_before: u64,
        details: Option<Arc<Json>>,
        usage: Option<Usage>,
        parent_id: Option<String>,
        seq: u64,
        timestamp: i64,
    },
    BranchSummary {
        id: String,
        from_id: String,
        summary: String,
        details: Option<Arc<Json>>,
        usage: Option<Usage>,
        parent_id: Option<String>,
        seq: u64,
        timestamp: i64,
    },
    Custom {
        id: String,
        custom_type: String,
        data: Option<Arc<Json>>,
        parent_id: Option<String>,
        seq: u64,
        timestamp: i64,
    },
}

pub(crate) fn share_json(value: &Option<Arc<Json>>) -> (r: Option<Arc<Json>>)
    ensures
        r == *value,
{
    match value {
        Some(v) => Some(share(v)),
        None => None,
    }
}

impl Clone for Entry {
    fn clone(&self) -> (r: Self)
        ensures
            r == *self,
    {
        match self {
            Entry::Message { id, message, terminate, parent_id, seq, timestamp } => Entry::Message {
                id: id.clone(),
                message: message.clone(),
                terminate: *terminate,
                parent_id: copy_text(parent_id),
                seq: *seq,
                timestamp: *timestamp,
            },
            Entry::ModelChange { id, provider, model_id, parent_id, seq, timestamp } =>
                Entry::ModelChange {
                id: id.clone(),
                provider: provider.clone(),
                model_id: model_id.clone(),
                parent_id: copy_text(parent_id),
                seq: *seq,
                timestamp: *timestamp,
            },
            Entry::ThinkingLevelChange { id, thinking_level, parent_id, seq, timestamp } =>
                Entry::ThinkingLevelChange {
                id: id.clone(),
                thinking_level: thinking_level.clone(),
                parent_id: copy_text(parent_id),
                seq: *seq,
                timestamp: *timestamp,
            },
            Entry::ActiveToolsChange { id, active_tool_names, parent_id, seq, timestamp } =>
                Entry::ActiveToolsChange {
                id: id.clone(),
                active_tool_names: share(active_tool_names),
                parent_id: copy_text(parent_id),
                seq: *seq,
                timestamp: *timestamp,
            },
            Entry::Compaction {
                id,
                summary,
                retained_tail,
                tokens_before,
                details,
                usage,
                parent_id,
                seq,
                timestamp,
            } => Entry::Compaction {
                id: id.clone(),
                summary: summary.clone(),
                retained_tail: share(retained_tail),
                tokens_before: *tokens_before,
                details: share_json(details),
                usage: *usage,
                parent_id: copy_text(parent_id),
                seq: *seq,
                timestamp: *timestamp,
            },
            Entry::BranchSummary {
                id,
                from_id,
                summary,
                details,
                usage,
                parent_id,
                seq,
                timestamp,
            } => Entry::BranchSummary {
                id: id.clone(),
                from_id: from_id.clone(),
                summary: summary.clone(),
                details: share_json(details),
                usage: *usage,
                parent_id: copy_text(parent_id),
                seq: *seq,
                timestamp: *timestamp,
            },
            Entry::Custom { id, custom_type, data, parent_id, seq, timestamp } => Entry::Custom {
                id: id.clone(),
                custom_type: custom_type.clone(),
                data: share_json(data),
                parent_id: copy_text(parent_id),
                seq: *seq,
                timestamp: *timestamp,
            },
        }
    }
}

impl Entry {
    pub open spec fn spec_type(self) -> EntryType {
        match self {
            Entry::Message { .. } => EntryType::Message,
            Entry::ModelChange { .. } => EntryType::ModelChange,
            Entry::ThinkingLevelChange { .. } => EntryType::ThinkingLevelChange,
            Entry::ActiveToolsChange { .. } => EntryType::ActiveToolsChange,
            Entry::Compaction { .. } => EntryType::Compaction,
            Entry::BranchSummary { .. } => EntryType::BranchSummary,
            Entry::Custom { .. } => EntryType::Custom,
        }
    }

    /// The id as stored.
    pub open spec fn id_string(self) -> String {
        match self {
            Entry::Message { id, .. } => id,
            Entry::ModelChange { id, .. } => id,
            Entry::ThinkingLevelChange { id, .. } => id,
            Entry::ActiveToolsChange { id, .. } => id,
            Entry::Compaction { id, .. } => id,
            Entry::BranchSummary { id, .. } => id,
            Entry::Custom { id, .. } => id,
        }
    }

    /// The parent id as stored.
    pub open spec fn parent_string(self) -> Option<String> {
        match self {
            Entry::Message { parent_id, .. } => parent_id,
            Entry::ModelChange { parent_id, .. } => parent_id,
            Entry::ThinkingLevelChange { parent_id, .. } => parent_id,
            Entry::ActiveToolsChange { parent_id, .. } => parent_id,
            Entry::Compaction { parent_id, .. } => parent_id,
            Entry::BranchSummary { parent_id, .. } => parent_id,
            Entry::Custom { parent_id, .. } => parent_id,
        }
    }

    pub open spec fn spec_id(self) -> Seq<char> {
        self.id_string()@
    }

    pub open spec fn spec_parent(self) -> Option<Seq<char>> {
        text_of_option(self.parent_string())
    }

    pub open spec fn spec_seq(self) -> u64 {
        match self {
            Entry::Message { seq, .. } => seq,
            Entry::ModelChange { seq, .. } => seq,
            Entry::ThinkingLevelChange { seq, .. } => seq,
            Entry::ActiveToolsChange { seq, .. } => seq,
            Entry::Compaction { seq, .. } => seq,
            Entry::BranchSummary { seq, .. } => seq,
            Entry::Custom { seq, .. } => seq,
        }
    }

    pub open spec fn spec_timestamp(self) -> i64 {
        match self {
            Entry::Message { timestamp, .. } => timestamp,
            Entry::ModelChange { timestamp, .. } => timestamp,
            Entry::ThinkingLevelChange { timestamp, .. } => timestamp,
            Entry::ActiveToolsChange { timestamp, .. } => timestamp,
            Entry::Compaction { timestamp, .. } => timestamp,
            Entry::BranchSummary { timestamp, .. } => timestamp,
            Entry::Custom { timestamp, .. } => timestamp,
        }
    }

    /// The entry with the fields that a storage assigns replaced.
    pub open spec fn stored(self, parent: Option<String>, number: u64, time: i64) -> Entry {
        match self {
            Entry::Message { id, message, terminate, .. } => Entry::Message {
                id,
                message,
                terminate,
                parent_id: parent,
                seq: number,
                timestamp: time,
            },
            Entry::ModelChange { id, provider, model_id, .. } => Entry::ModelChange {
                id,
                provider,
                model_id,
                parent_id: parent,
                seq: number,
                timestamp: time,
            },
            Entry::ThinkingLevelChange { id, thinking_level, .. } => Entry::ThinkingLevelChange {
                id,
                thinking_level,
                parent_id: parent,
                seq: number,
                timestamp: time,
            },
            Entry::ActiveToolsChange { id, active_tool_names, .. } => Entry::ActiveToolsChange {
                id,
                active_tool_names,
                parent_id: parent,
                seq: number,
                timestamp: time,
            },
            Entry::Compaction { id, summary, retained_tail, tokens_before, details, usage, .. } =>
                Entry::Compaction {
                id,
                summary,
                retained_tail,
                tokens_before,
                details,
                usage,
                parent_id: parent,
                seq: number,
                timestamp: time,
            },
            Entry::BranchSummary { id, from_id, summary, details, usage, .. } =>
                Entry::BranchSummary {
                id,
                from_id,
                summary,
                details,
                usage,
                parent_id: parent,
                seq: number,
                timestamp: time,
            },
            Entry::Custom { id, custom_type, data, .. } => Entry::Custom {
                id,
                custom_type,
                data,
                parent_id: parent,
                seq: number,
                timestamp: time,
            },
        }
    }

    /// The kind of the entry.
    pub fn entry_type(&self) -> (r: EntryType)
        ensures
            r == self.spec_type(),
    {
        match self {
            Entry::Message { .. } => EntryType::Message,
            Entry::ModelChange { .. } => EntryType::ModelChange,
            Entry::ThinkingLevelChange { .. } => EntryType::ThinkingLevelChange,
            Entry::ActiveToolsChange { .. } => EntryType::ActiveToolsChange,
            Entry::Compaction { .. } => EntryType::Compaction,
            Entry::BranchSummary { .. } => EntryType::BranchSummary,
            Entry::Custom { .. } => EntryType::Custom,
        }
    }

    /// The id of the entry.
    pub fn id(&self) -> (r: &String)
        ensures
            *r == self.id_string(),
            r@ == self.spec_id(),
    {
        match self {
            Entry::Message { id, .. } => id,
            Entry::ModelChange { id, .. } => id,
            Entry::ThinkingLevelChange { id, .. } => id,
            Entry::ActiveToolsChange { id, .. } => id,
            Entry::Compaction { id, .. } => id,
            Entry::BranchSummary { id, .. } => id,
            Entry::Custom { id, .. } => id,
        }
    }

    /// The id of the parent entry: the leaf of the appending lane at the time.
    pub fn parent_id(&self) -> (r: &Option<String>)
        ensures
            *r == self.parent_string(),
            text_of_option(*r) == self.spec_parent(),
    {
        match self {
            Entry::Message { parent_id, .. } => parent_id,
            Entry::ModelChange { parent_id, .. } => parent_id,
            Entry::ThinkingLevelChange { parent_id, .. } => parent_id,
            Entry::ActiveToolsChange { parent_id, .. } => parent_id,
            Entry::Compaction { parent_id, .. } => parent_id,
            Entry::BranchSummary { parent_id, .. } => parent_id,
            Entry::Custom { parent_id, .. } => parent_id,
        }
    }

    /// The `terminate` flag of a message entry.
    pub fn message_terminate(&self) -> (r: Option<bool>)
        ensures
            r == (match *self {
                Entry::Message { terminate, .. } => terminate,
                _ => None,
            }),
    {
        match self {
            Entry::Message { terminate, .. } => *terminate,
            _ => None,
        }
    }

    /// The sequence number of the entry.
    pub fn seq(&self) -> (r: u64)
        ensures
            r == self.spec_seq(),
    {
        match self {
            Entry::Message { seq, .. } => *seq,
            Entry::ModelChange { seq, .. } => *seq,
            Entry::ThinkingLevelChange { seq, .. } => *seq,
            Entry::ActiveToolsChange { seq, .. } => *seq,
            Entry::Compaction { seq, .. } => *seq,
            Entry::BranchSummary { seq, .. } => *seq,
            Entry::Custom { seq, .. } => *seq,
        }
    }

    /// The timestamp of the entry.
    pub fn timestamp(&self) -> (r: i64)
        ensures
            r == self.spec_timestamp(),
    {
        match self {
            Entry::Message { timestamp, .. } => *timestamp,
            Entry::ModelChange { timestamp, .. } => *timestamp,
            Entry::ThinkingLevelChange { timestamp, .. } => *timestamp,
            Entry::ActiveToolsChange { timestamp, .. } => *timestamp,
            Entry::Compaction { timestamp, .. } => *timestamp,
            Entry::BranchSummary { timestamp, .. } => *timestamp,
            Entry::Custom { timestamp, .. } => *timestamp,
        }
    }

    /// The entry with its parent, sequence number and timestamp assigned.
    pub fn with_storage_fields(self, parent: Option<String>, number: u64, time: i64) -> (r: Entry)
        ensures
            r == self.stored(parent, number, time),
    {
        match self {
            Entry::Message { id, message, terminate, .. } => Entry::Message {
                id,
                message,
                terminate,
                parent_id: parent,
                seq: number,
                timestamp: time,
            },
            Entry::ModelChange { id, provider, model_id, .. } => Entry::ModelChange {
                id,
                provider,
                model_id,
                parent_id: parent,
                seq: number,
                timestamp: time,
            },
            Entry::ThinkingLevelChange { id, thinking_level, .. } => Entry::ThinkingLevelChange {
                id,
                thinking_level,
                parent_id: parent,
                seq: number,
                timestamp: time,
            },
            Entry::ActiveToolsChange { id, active_tool_names, .. } => Entry::ActiveToolsChange {
                id,
                active_tool_names,
                parent_id: parent,
                seq: number,
                timestamp: time,
            },
            Entry::Compaction { id, summary, retained_tail, tokens_before, details, usage, .. } =>
                Entry::Compaction {
                id,
                summary,
                retained_tail,
                tokens_before,
                details,
                usage,
                parent_id: parent,
                seq: number,
                timestamp: time,
            },
            Entry::BranchSummary { id, from_id, summary, details, usage, .. } =>
                Entry::BranchSummary {
                id,
                from_id,
                summary,
                details,
                usage,
                parent_id: parent,
                seq: number,
                timestamp: time,
            },
            Entry::Custom { id, custom_type, data, .. } => Entry::Custom {
                id,
                custom_type,
                data,
                parent_id: parent,
                seq: number,
                timestamp: time,
            },
        }
    }
}

/// Whether two optional payloads are both absent or equal.
pub open spec fn equal_payload(a: Option<Arc<Json>>, b: Option<Arc<Json>>) -> bool {
    match (a, b) {
        (Some(x), Some(y)) => json_same((*x)@, (*y)@),
        (None, None) => true,
        _ => false,
    }
}

/// Whether two lists of messages hold equal values.
pub open spec fn equal_messages(a: Seq<AgentMessage>, b: Seq<AgentMessage>) -> bool {
    a.len() == b.len() && forall|i: int| 0 <= i < a.len() ==> equal_message(#[trigger] a[i], b[i])
}

/// Whether two entries agree on everything but the fields that a storage
/// assigns: the parent, the sequence number and the timestamp.
pub open spec fn equal_intent(a: Entry, b: Entry) -> bool {
    a.spec_id() == b.spec_id() && match (a, b) {
        (
            Entry::Message { message: m, terminate: t, .. },
            Entry::Message { message: n, terminate: u, .. },
        ) => equal_message(m, n) && t == u,
        (
            Entry::ModelChange { provider: p, model_id: m, .. },
            Entry::ModelChange { provider: q, model_id: n, .. },
        ) => p@ == q@ && m@ == n@,
        (
            Entry::ThinkingLevelChange { thinking_level: p, .. },
            Entry::ThinkingLevelChange { thinking_level: q, .. },
        ) => p@ == q@,
        (
            Entry::ActiveToolsChange { active_tool_names: p, .. },
            Entry::ActiveToolsChange { active_tool_names: q, .. },
        ) => texts(p@) == texts(q@),
        (
            Entry::Compaction {
                summary: s,
                retained_tail: r,
                tokens_before: k,
                details: d,
                usage: u,
                ..
            },
            Entry::Compaction {
                summary: s2,
                retained_tail: r2,
                tokens_before: k2,
                details: d2,
                usage: u2,
                ..
            },
        ) => s@ == s2@ && equal_messages(r@, r2@) && k == k2 && equal_payload(d, d2) && u == u2,
        (
            Entry::BranchSummary { from_id: f, summary: s, details: d, usage: u, .. },
            Entry::BranchSummary { from_id: f2, summary: s2, details: d2, usage: u2, .. },
        ) => f@ == f2@ && s@ == s2@ && equal_payload(d, d2) && u == u2,
        (
            Entry::Custom { custom_type: c, data: d, .. },
            Entry::Custom { custom_type: c2, data: d2, .. },
        ) => c@ == c2@ && equal_payload(d, d2),
        _ => false,
    }
}

fn same_payload(a: &Option<Arc<Json>>, b: &Option<Arc<Json>>) -> (r: bool)
    ensures
        r == equal_payload(*a, *b),
{
    match (a, b) {
        (Some(x), Some(y)) => same_json(x, y),
        (None, None) => true,
        _ => false,
    }
}

fn same_messages(a: &Vec<AgentMessage>, b: &Vec<AgentMessage>) -> (r: bool)
    ensures
        r == equal_messages(a@, b@),
{
    if a.len() != b.len() {
        return false;
    }
    let mut i: usize = 0;
    while i < a.len()
        invariant
            i <= a@.len(),
            a@.len() == b@.len(),
            forall|k: int| 0 <= k < i ==> equal_message(#[trigger] a@[k], b@[k]),
        decreases a@.len() - i,
    {
        if !same_agent_message(&a[i], &b[i]) {
            return false;
        }
        i = i + 1;
    }
    true
}

/// Whether two entries agree on everything but the fields that a storage
/// assigns.
pub fn same_intent(a: &Entry, b: &Entry) -> (r: bool)
    ensures
        r == equal_intent(*a, *b),
{
    if *a.id() != *b.id() {
        return false;
    }
    match (a, b) {
        (
            Entry::Message { message: m, terminate: t, .. },
            Entry::Message { message: n, terminate: u, .. },
        ) => same_agent_message(m, n) && *t == *u,
        (
            Entry::ModelChange { provider: p, model_id: m, .. },
            Entry::ModelChange { provider: q, model_id: n, .. },
        ) => *p == *q && *m == *n,
        (
            Entry::ThinkingLevelChange { thinking_level: p, .. },
            Entry::ThinkingLevelChange { thinking_level: q, .. },
        ) => *p == *q,
        (
            Entry::ActiveToolsChange { active_tool_names: p, .. },
            Entry::ActiveToolsChange { active_tool_names: q, .. },
        ) => same_texts(p, q),
        (
            Entry::Compaction {
                summary: s,
                retained_tail: r,
                tokens_before: k,
                details: d,
                usage: u,
                ..
            },
            Entry::Compaction {
                summary: s2,
                retained_tail: r2,
                tokens_before: k2,
                details: d2,
                usage: u2,
                ..
            },
        ) => *s == *s2 && same_messages(r, r2) && *k == *k2 && same_payload(d, d2) && *u == *u2,
        (
            Entry::BranchSummary { from_id: f, summary: s, details: d, usage: u, .. },
            Entry::BranchSummary { from_id: f2, summary: s2, details: d2, usage: u2, .. },
        ) => *f == *f2 && *s == *s2 && same_payload(d, d2) && *u == *u2,
        (
            Entry::Custom { custom_type: c, data: d, .. },
            Entry::Custom { custom_type: c2, data: d2, .. },
        ) => *c == *c2 && same_payload(d, d2),
        _ => false,
    }
}

// ---------------------------------------------------------------------------
// Lane records
// ---------------------------------------------------------------------------

/// The kind of a lane record.
#[derive(Clone, Copy, PartialEq, Eq, Structural, Debug)]
pub enum RecordType {
    OperationStarted,
    AbortRequested,
    OperationFinished,
    StepAttempt,
    ToolStarted,
    QueueEnqueued,
    QueueCancelled,
    WriteDeferred,
    Usage,
}

/// The name of a record kind on the wire.
pub open spec fn record_type_name(t: RecordType) -> Seq<char> {
    match t {
        RecordType::OperationStarted => "operation_started"@,
        RecordType::AbortRequested => "abort_requested"@,
        RecordType::OperationFinished => "operation_finished"@,
        RecordType::StepAttempt => "step_attempt"@,
        RecordType::ToolStarted => "tool_started"@,
        RecordType::QueueEnqueued => "queue_enqueued"@,
        RecordType::QueueCancelled => "queue_cancelled"@,
        RecordType::WriteDeferred => "write_deferred"@,
        RecordType::Usage => "usage"@,
    }
}

impl RecordType {
    /// The name of the kind on the wire.
    pub fn as_str(self) -> (r: &'static str)
        ensures
            r@ == record_type_name(self),
    {
        match self {
            RecordType::OperationStarted => "operation_started",
            RecordType::AbortRequested => "abort_requested",
            RecordType::OperationFinished => "operation_finished",
            RecordType::StepAttempt => "step_attempt",
            RecordType::ToolStarted => "tool_started",
            RecordType::QueueEnqueued => "queue_enqueued",
            RecordType::QueueCancelled => "queue_cancelled",
            RecordType::WriteDeferred => "write_deferred",
            RecordType::Usage => "usage",
        }
    }
}

/// What an operation was started to do.
pub enum OperationIntent {
    Run {
        original_prompt: Arc<Vec<AgentMessage>>,
        initial_messages: Arc<Vec<Entry>>,
        system_prompt_override: Option<String>,
        resume_data: Option<Arc<Json>>,
    },
    Compaction { custom_instructions: Option<String>, result_entry_id: String },
    Navigation {
        target_id: Option<String>,
        summarize: bool,
        custom_instructions: Option<String>,
        label: Option<String>,
        summary_entry_id: Option<String>,
    },
}

/// What a usage record was caused by.
pub enum UsageCause {
    Assistant { run_id: String, entry_id: String, attempt: u32, stop_reason: String },
    Compaction { run_id: String, entry_id: String, attempt: u32, stop_reason: String },
    BranchSummary { run_id: String, entry_id: String, attempt: u32, stop_reason: String },
    DeferredFetch { run_id: String, entry_id: String, attempt: u32, stop_reason: String },
    Tool { run_id: String, entry_id: String, tool_call_id: String },
    Hook { run_id: String, entry_id: String },
    Adjustment { run_id: Option<String>, entry_id: Option<String>, details: Option<Arc<Json>> },
}

/// The error of a finished operation.
pub struct RecordError {
    pub code: String,
    pub message: String,
}

/// A record of a lane's orchestration log.
pub enum LaneRecord {
    OperationStarted {
        id: String,
        lane: String,
        source_leaf_id: Option<String>,
        intent: OperationIntent,
        seq: u64,
        timestamp: i64,
    },
    AbortRequested { id: String, lane: String, run_id: String, seq: u64, timestamp: i64 },
    OperationFinished {
        id: String,
        lane: String,
        run_id: String,
        outcome: String,
        error: Option<RecordError>,
        seq: u64,
        timestamp: i64,
    },
    StepAttempt {
        id: String,
        lane: String,
        run_id: String,
        step: String,
        attempt: u32,
        result_entry_id: String,
        compaction_reason: Option<String>,
        seq: u64,
        timestamp: i64,
    },
    ToolStarted {
        id: String,
        lane: String,
        run_id: String,
        assistant_entry_id: String,
        tool_index: u32,
        tool_call_id: String,
        tool_name: String,
        effective_args: Arc<Json>,
        result_entry_id: String,
        replay: String,
        seq: u64,
        timestamp: i64,
    },
    QueueEnqueued {
        id: String,
        lane: String,
        queue: String,
        run_id: Option<String>,
        target: Entry,
        seq: u64,
        timestamp: i64,
    },
    QueueCancelled {
        id: String,
        lane: String,
        run_id: Option<String>,
        entry_id: String,
        seq: u64,
        timestamp: i64,
    },
    WriteDeferred { id: String, lane: String, run_id: String, target: Entry, seq: u64, timestamp: i64 },
    Usage { id: String, lane: String, usage: Usage, cause: UsageCause, seq: u64, timestamp: i64 },
}

impl Clone for OperationIntent {
    fn clone(&self) -> (r: Self)
        ensures
            r == *self,
    {
        match self {
            OperationIntent::Run {
                original_prompt,
                initial_messages,
                system_prompt_override,
                resume_data,
            } => OperationIntent::Run {
                original_prompt: share(original_prompt),
                initial_messages: share(initial_messages),
                system_prompt_override: copy_text(system_prompt_override),
                resume_data: share_json(resume_data),
            },
            OperationIntent::Compaction { custom_instructions, result_entry_id } =>
                OperationIntent::Compaction {
                custom_instructions: copy_text(custom_instructions),
                result_entry_id: result_entry_id.clone(),
            },
            OperationIntent::Navigation {
                target_id,
                summarize,
                custom_instructions,
                label,
                summary_entry_id,
            } => OperationIntent::Navigation {
                target_id: copy_text(target_id),
                summarize: *summarize,
                custom_instructions: copy_text(custom_instructions),
                label: copy_text(label),
                summary_entry_id: copy_text(summary_entry_id),
            },
        }
    }
}

impl Clone for UsageCause {
    fn clone(&self) -> (r: Self)
        ensures
            r == *self,
    {
        match self {
            UsageCause::Assistant { run_id, entry_id, attempt, stop_reason } =>
                UsageCause::Assistant {
                run_id: run_id.clone(),
                entry_id: entry_id.clone(),
                attempt: *attempt,
                stop_reason: stop_reason.clone(),
            },
            UsageCause::Compaction { run_id, entry_id, attempt, stop_reason } =>
                UsageCause::Compaction {
                run_id: run_id.clone(),
                entry_id: entry_id.clone(),
                attempt: *attempt,
                stop_reason: stop_reason.clone(),
            },
            UsageCause::BranchSummary { run_id, entry_id, attempt, stop_reason } =>
                UsageCause::BranchSummary {
                run_id: run_id.clone(),
                entry_id: entry_id.clone(),
                attempt: *attempt,
                stop_reason: stop_reason.clone(),
            },
            UsageCause::DeferredFetch { run_id, entry_id, attempt, stop_reason } =>
                UsageCause::DeferredFetch {
                run_id: run_id.clone(),
                entry_id: entry_id.clone(),
                attempt: *attempt,
                stop_reason: stop_reason.clone(),
            },
            UsageCause::Tool { run_id, entry_id, tool_call_id } => UsageCause::Tool {
                run_id: run_id.clone(),
                entry_id: entry_id.clone(),
                tool_call_id: tool_call_id.clone(),
            },
            UsageCause::Hook { run_id, entry_id } => UsageCause::Hook {
                run_id: run_id.clone(),
                entry_id: entry_id.clone(),
            },
            UsageCause::Adjustment { run_id, entry_id, details } => UsageCause::Adjustment {
                run_id: copy_text(run_id),
                entry_id: copy_text(entry_id),
                details: share_json(details),
            },
        }
    }
}

impl Clone for RecordError {
    fn clone(&self) -> (r: Self)
        ensures
            r == *self,
    {
        RecordError { code: self.code.clone(), message: self.message.clone() }
    }
}

impl Clone for LaneRecord {
    fn clone(&self) -> (r: Self)
        ensures
            r == *self,
    {
        match self {
            LaneRecord::OperationStarted { id, lane, source_leaf_id, intent, seq, timestamp } =>
                LaneRecord::OperationStarted {
                id: id.clone(),
                lane: lane.clone(),
                source_leaf_id: copy_text(source_leaf_id),
                intent: intent.clone(),
                seq: *seq,
                timestamp: *timestamp,
            },
            LaneRecord::AbortRequested { id, lane, run_id, seq, timestamp } =>
                LaneRecord::AbortRequested {
                id: id.clone(),
                lane: lane.clone(),
                run_id: run_id.clone(),
                seq: *seq,
                timestamp: *timestamp,
            },
            LaneRecord::OperationFinished { id, lane, run_id, outcome, error, seq, timestamp } =>
                LaneRecord::OperationFinished {
                id: id.clone(),
                lane: lane.clone(),
                run_id: run_id.clone(),
                outcome: outcome.clone(),
                error: match error {
                    Some(e) => Some(e.clone()),
                    None => None,
                },
                seq: *seq,
                timestamp: *timestamp,
            },
            LaneRecord::StepAttempt {
                id,
                lane,
                run_id,
                step,
                attempt,
                result_entry_id,
                compaction_reason,
                seq,
                timestamp,
            } => LaneRecord::StepAttempt {
                id: id.clone(),
                lane: lane.clone(),
                run_id: run_id.clone(),
                step: step.clone(),
                attempt: *attempt,
                result_entry_id: result_entry_id.clone(),
                compaction_reason: copy_text(compaction_reason),
                seq: *seq,
                timestamp: *timestamp,
            },
            LaneRecord::ToolStarted {
                id,
                lane,
                run_id,
                assistant_entry_id,
                tool_index,
                tool_call_id,
                tool_name,
                effective_args,
                result_entry_id,
                replay,
                seq,
                timestamp,
            } => LaneRecord::ToolStarted {
                id: id.clone(),
                lane: lane.clone(),
                run_id: run_id.clone(),
                assistant_entry_id: assistant_entry_id.clone(),
                tool_index: *tool_index,
                tool_call_id: tool_call_id.clone(),
                tool_name: tool_name.clone(),
                effective_args: share(effective_args),
                result_entry_id: result_entry_id.clone(),
                replay: replay.clone(),
                seq: *seq,
                timestamp: *timestamp,
            },
            LaneRecord::QueueEnqueued { id, lane, queue, run_id, target, seq, timestamp } =>
                LaneRecord::QueueEnqueued {
                id: id.clone(),
                lane: lane.clone(),
                queue: queue.clone(),
                run_id: copy_text(run_id),
                target: target.clone(),
                seq: *seq,
                timestamp: *timestamp,
            },
            LaneRecord::QueueCancelled { id, lane, run_id, entry_id, seq, timestamp } =>
                LaneRecord::QueueCancelled {
                id: id.clone(),
                lane: lane.clone(),
                run_id: copy_text(run_id),
                entry_id: entry_id.clone(),
                seq: *seq,
                timestamp: *timestamp,
            },
            LaneRecord::WriteDeferred { id, lane, run_id, target, seq, timestamp } =>
                LaneRecord::WriteDeferred {
                id: id.clone(),
                lane: lane.clone(),
                run_id: run_id.clone(),
                target: target.clone(),
                seq: *seq,
                timestamp: *timestamp,
            },
            LaneRecord::Usage { id, lane, usage, cause, seq, timestamp } => LaneRecord::Usage {
                id: id.clone(),
                lane: lane.clone(),
                usage: *usage,
                cause: cause.clone(),
                seq: *seq,
                timestamp: *timestamp,
            },
        }
    }
}

impl UsageCause {
    /// The operation that caused the usage, when there is one.
    pub open spec fn spec_run_id(self) -> Option<Seq<char>> {
        match self {
            UsageCause::Assistant { run_id, .. } => Some(run_id@),
            UsageCause::Compaction { run_id, .. } => Some(run_id@),
            UsageCause::BranchSummary { run_id, .. } => Some(run_id@),
            UsageCause::DeferredFetch { run_id, .. } => Some(run_id@),
            UsageCause::Tool { run_id, .. } => Some(run_id@),
            UsageCause::Hook { run_id, .. } => Some(run_id@),
            UsageCause::Adjustment { run_id, .. } => text_of_option(run_id),
        }
    }

    /// The operation that caused the usage, when there is one.
    pub fn run_id(&self) -> (r: Option<&String>)
        ensures
            match r {
                Some(id) => self.spec_run_id() == Some(id@),
                None => self.spec_run_id() is None,
            },
    {
        match self {
            UsageCause::Assistant { run_id, .. } => Some(run_id),
            UsageCause::Compaction { run_id, .. } => Some(run_id),
            UsageCause::BranchSummary { run_id, .. } => Some(run_id),
            UsageCause::DeferredFetch { run_id, .. } => Some(run_id),
            UsageCause::Tool { run_id, .. } => Some(run_id),
            UsageCause::Hook { run_id, .. } => Some(run_id),
            UsageCause::Adjustment { run_id, .. } => run_id.as_ref(),
        }
    }
}

impl LaneRecord {
    pub open spec fn spec_type(self) -> RecordType {
        match self {
            LaneRecord::OperationStarted { .. } => RecordType::OperationStarted,
            LaneRecord::AbortRequested { .. } => RecordType::AbortRequested,
            LaneRecord::OperationFinished { .. } => RecordType::OperationFinished,
            LaneRecord::StepAttempt { .. } => RecordType::StepAttempt,
            LaneRecord::ToolStarted { .. } => RecordType::ToolStarted,
            LaneRecord::QueueEnqueued { .. } => RecordType::QueueEnqueued,
            LaneRecord::QueueCancelled { .. } => RecordType::QueueCancelled,
            LaneRecord::WriteDeferred { .. } => RecordType::WriteDeferred,
            LaneRecord::Usage { .. } => RecordType::Usage,
        }
    }

    /// The id as stored.
    pub open spec fn id_string(self) -> String {
        match self {
            LaneRecord::OperationStarted { id, .. } => id,
            LaneRecord::AbortRequested { id, .. } => id,
            LaneRecord::OperationFinished { id, .. } => id,
            LaneRecord::StepAttempt { id, .. } => id,
            LaneRecord::ToolStarted { id, .. } => id,
            LaneRecord::QueueEnqueued { id, .. } => id,
            LaneRecord::QueueCancelled { id, .. } => id,
            LaneRecord::WriteDeferred { id, .. } => id,
            LaneRecord::Usage { id, .. } => id,
        }
    }

    pub open spec fn spec_id(self) -> Seq<char> {
        self.id_string()@
    }

    pub open spec fn spec_lane(self) -> Seq<char> {
        match self {
            LaneRecord::OperationStarted { lane, .. } => lane@,
            LaneRecord::AbortRequested { lane, .. } => lane@,
            LaneRecord::OperationFinished { lane, .. } => lane@,
            LaneRecord::StepAttempt { lane, .. } => lane@,
            LaneRecord::ToolStarted { lane, .. } => lane@,
            LaneRecord::QueueEnqueued { lane, .. } => lane@,
            LaneRecord::QueueCancelled { lane, .. } => lane@,
            LaneRecord::WriteDeferred { lane, .. } => lane@,
            LaneRecord::Usage { lane, .. } => lane@,
        }
    }

    pub open spec fn spec_seq(self) -> u64 {
        match self {
            LaneRecord::OperationStarted { seq, .. } => seq,
            LaneRecord::AbortRequested { seq, .. } => seq,
            LaneRecord::OperationFinished { seq, .. } => seq,
            LaneRecord::StepAttempt { seq, .. } => seq,
            LaneRecord::ToolStarted { seq, .. } => seq,
            LaneRecord::QueueEnqueued { seq, .. } => seq,
            LaneRecord::QueueCancelled { seq, .. } => seq,
            LaneRecord::WriteDeferred { seq, .. } => seq,
            LaneRecord::Usage { seq, .. } => seq,
        }
    }

    pub open spec fn spec_timestamp(self) -> i64 {
        match self {
            LaneRecord::OperationStarted { timestamp, .. } => timestamp,
            LaneRecord::AbortRequested { timestamp, .. } => timestamp,
            LaneRecord::OperationFinished { timestamp, .. } => timestamp,
            LaneRecord::StepAttempt { timestamp, .. } => timestamp,
            LaneRecord::ToolStarted { timestamp, .. } => timestamp,
            LaneRecord::QueueEnqueued { timestamp, .. } => timestamp,
            LaneRecord::QueueCancelled { timestamp, .. } => timestamp,
            LaneRecord::WriteDeferred { timestamp, .. } => timestamp,
            LaneRecord::Usage { timestamp, .. } => timestamp,
        }
    }

    /// The operation that the record belongs to, when it names one. Of the
    /// queues only steering and follow-up messages belong to an operation.
    pub open spec fn spec_run_id(self) -> Option<Seq<char>> {
        match self {
            LaneRecord::OperationStarted { id, .. } => Some(id@),
            LaneRecord::AbortRequested { run_id, .. } => Some(run_id@),
            LaneRecord::OperationFinished { run_id, .. } => Some(run_id@),
            LaneRecord::StepAttempt { run_id, .. } => Some(run_id@),
            LaneRecord::ToolStarted { run_id, .. } => Some(run_id@),
            LaneRecord::WriteDeferred { run_id, .. } => Some(run_id@),
            LaneRecord::QueueEnqueued { run_id, queue, .. } => if queue@ == "steer"@ || queue@
                == "followUp"@ {
                text_of_option(run_id)
            } else {
                None
            },
            LaneRecord::QueueCancelled { .. } => None,
            LaneRecord::Usage { cause, .. } => cause.spec_run_id(),
        }
    }

    /// The record with the fields that a storage assigns replaced.
    pub open spec fn stored(self, number: u64, time: i64) -> LaneRecord {
        match self {
            LaneRecord::OperationStarted { id, lane, source_leaf_id, intent, .. } =>
                LaneRecord::OperationStarted {
                id,
                lane,
                source_leaf_id,
                intent,
                seq: number,
                timestamp: time,
            },
            LaneRecord::AbortRequested { id, lane, run_id, .. } => LaneRecord::AbortRequested {
                id,
                lane,
                run_id,
                seq: number,
                timestamp: time,
            },
            LaneRecord::OperationFinished { id, lane, run_id, outcome, error, .. } =>
                LaneRecord::OperationFinished {
                id,
                lane,
                run_id,
                outcome,
                error,
                seq: number,
                timestamp: time,
            },
            LaneRecord::StepAttempt {
                id,
                lane,
                run_id,
                step,
                attempt,
                result_entry_id,
                compaction_reason,
                ..
            } => LaneRecord::StepAttempt {
                id,
                lane,
                run_id,
                step,
                attempt,
                result_entry_id,
                compaction_reason,
                seq: number,
                timestamp: time,
            },
            LaneRecord::ToolStarted {
                id,
                lane,
                run_id,
                assistant_entry_id,
                tool_index,
                tool_call_id,
                tool_name,
                effective_args,
                result_entry_id,
                replay,
                ..
            } => LaneRecord::ToolStarted {
                id,
                lane,
                run_id,
                assistant_entry_id,
                tool_index,
                tool_call_id,
                tool_name,
                effective_args,
                result_entry_id,
                replay,
                seq: number,
                timestamp: time,
            },
            LaneRecord::QueueEnqueued { id, lane, queue, run_id, target, .. } =>
                LaneRecord::QueueEnqueued {
                id,
                lane,
                queue,
                run_id,
                target,
                seq: number,
                timestamp: time,
            },
            LaneRecord::QueueCancelled { id, lane, run_id, entry_id, .. } =>
                LaneRecord::QueueCancelled {
                id,
                lane,
                run_id,
                entry_id,
                seq: number,
                timestamp: time,
            },
            LaneRecord::WriteDeferred { id, lane, run_id, target, .. } =>
                LaneRecord::WriteDeferred {
                id,
                lane,
                run_id,
                target,
                seq: number,
                timestamp: time,
            },
            LaneRecord::Usage { id, lane, usage, cause, .. } => LaneRecord::Usage {
                id,
                lane,
                usage,
                cause,
                seq: number,
                timestamp: time,
            },
        }
    }

    /// The kind of the record.
    pub fn record_type(&self) -> (r: RecordType)
        ensures
            r == self.spec_type(),
    {
        match self {
            LaneRecord::OperationStarted { .. } => RecordType::OperationStarted,
            LaneRecord::AbortRequested { .. } => RecordType::AbortRequested,
            LaneRecord::OperationFinished { .. } => RecordType::OperationFinished,
            LaneRecord::StepAttempt { .. } => RecordType::StepAttempt,
            LaneRecord::ToolStarted { .. } => RecordType::ToolStarted,
            LaneRecord::QueueEnqueued { .. } => RecordType::QueueEnqueued,
            LaneRecord::QueueCancelled { .. } => RecordType::QueueCancelled,
            LaneRecord::WriteDeferred { .. } => RecordType::WriteDeferred,
            LaneRecord::Usage { .. } => RecordType::Usage,
        }
    }

    /// The id of the record.
    pub fn id(&self) -> (r: &String)
        ensures
            *r == self.id_string(),
            r@ == self.spec_id(),
    {
        match self {
            LaneRecord::OperationStarted { id, .. } => id,
            LaneRecord::AbortRequested { id, .. } => id,
            LaneRecord::OperationFinished { id, .. } => id,
            LaneRecord::StepAttempt { id, .. } => id,
            LaneRecord::ToolStarted { id, .. } => id,
            LaneRecord::QueueEnqueued { id, .. } => id,
            LaneRecord::QueueCancelled { id, .. } => id,
            LaneRecord::WriteDeferred { id, .. } => id,
            LaneRecord::Usage { id, .. } => id,
        }
    }

    /// The sequence number of the record.
    pub fn seq(&self) -> (r: u64)
        ensures
            r == self.spec_seq(),
    {
        match self {
            LaneRecord::OperationStarted { seq, .. } => *seq,
            LaneRecord::AbortRequested { seq, .. } => *seq,
            LaneRecord::OperationFinished { seq, .. } => *seq,
            LaneRecord::StepAttempt { seq, .. } => *seq,
            LaneRecord::ToolStarted { seq, .. } => *seq,
            LaneRecord::QueueEnqueued { seq, .. } => *seq,
            LaneRecord::QueueCancelled { seq, .. } => *seq,
            LaneRecord::WriteDeferred { seq, .. } => *seq,
            LaneRecord::Usage { seq, .. } => *seq,
        }
    }

    /// The lane that the record belongs to.
    pub fn lane(&self) -> (r: &String)
        ensures
            r@ == self.spec_lane(),
    {
        match self {
            LaneRecord::OperationStarted { lane, .. } => lane,
            LaneRecord::AbortRequested { lane, .. } => lane,
            LaneRecord::OperationFinished { lane, .. } => lane,
            LaneRecord::StepAttempt { lane, .. } => lane,
            LaneRecord::ToolStarted { lane, .. } => lane,
            LaneRecord::QueueEnqueued { lane, .. } => lane,
            LaneRecord::QueueCancelled { lane, .. } => lane,
            LaneRecord::WriteDeferred { lane, .. } => lane,
            LaneRecord::Usage { lane, .. } => lane,
        }
    }

    /// The timestamp of the record.
    pub fn timestamp(&self) -> (r: i64)
        ensures
            r == self.spec_timestamp(),
    {
        match self {
            LaneRecord::OperationStarted { timestamp, .. } => *timestamp,
            LaneRecord::AbortRequested { timestamp, .. } => *timestamp,
            LaneRecord::OperationFinished { timestamp, .. } => *timestamp,
            LaneRecord::StepAttempt { timestamp, .. } => *timestamp,
            LaneRecord::ToolStarted { timestamp, .. } => *timestamp,
            LaneRecord::QueueEnqueued { timestamp, .. } => *timestamp,
            LaneRecord::QueueCancelled { timestamp, .. } => *timestamp,
            LaneRecord::WriteDeferred { timestamp, .. } => *timestamp,
            LaneRecord::Usage { timestamp, .. } => *timestamp,
        }
    }

    /// The operation that the record belongs to, when it names one.
    pub fn run_id(&self) -> (r: Option<&String>)
        ensures
            match r {
                Some(id) => self.spec_run_id() == Some(id@),
                None => self.spec_run_id() is None,
            },
    {
        match self {
            LaneRecord::OperationStarted { id, .. } => Some(id),
            LaneRecord::AbortRequested { run_id, .. } => Some(run_id),
            LaneRecord::OperationFinished { run_id, .. } => Some(run_id),
            LaneRecord::StepAttempt { run_id, .. } => Some(run_id),
            LaneRecord::ToolStarted { run_id, .. } => Some(run_id),
            LaneRecord::WriteDeferred { run_id, .. } => Some(run_id),
            LaneRecord::QueueEnqueued { run_id, queue, .. } => if same_text(queue.as_str(), "steer")
                || same_text(queue.as_str(), "followUp") {
                run_id.as_ref()
            } else {
                None
            },
            LaneRecord::QueueCancelled { .. } => None,
            LaneRecord::Usage { cause, .. } => cause.run_id(),
        }
    }

    /// The record with its sequence number and timestamp assigned.
    pub fn with_storage_fields(self, number: u64, time: i64) -> (r: LaneRecord)
        ensures
            r == self.stored(number, time),
    {
        match self {
            LaneRecord::OperationStarted { id, lane, source_leaf_id, intent, .. } =>
                LaneRecord::OperationStarted {
                id,
                lane,
                source_leaf_id,
                intent,
                seq: number,
                timestamp: time,
            },
            LaneRecord::AbortRequested { id, lane, run_id, .. } => LaneRecord::AbortRequested {
                id,
                lane,
                run_id,
                seq: number,
                timestamp: time,
            },
            LaneRecord::OperationFinished { id, lane, run_id, outcome, error, .. } =>
                LaneRecord::OperationFinished {
                id,
                lane,
                run_id,
                outcome,
                error,
                seq: number,
                timestamp: time,
            },
            LaneRecord::StepAttempt {
                id,
                lane,
                run_id,
                step,
                attempt,
                result_entry_id,
                compaction_reason,
                ..
            } => LaneRecord::StepAttempt {
                id,
                lane,
                run_id,
                step,
                attempt,
                result_entry_id,
                compaction_reason,
                seq: number,
                timestamp: time,
            },
            LaneRecord::ToolStarted {
                id,
                lane,
                run_id,
                assistant_entry_id,
                tool_index,
                tool_call_id,
                tool_name,
                effective_args,
                result_entry_id,
                replay,
                ..
            } => LaneRecord::ToolStarted {
                id,
                lane,
                run_id,
                assistant_entry_id,
                tool_index,
                tool_call_id,
                tool_name,
                effective_args,
                result_entry_id,
                replay,
                seq: number,
                timestamp: time,
            },
            LaneRecord::QueueEnqueued { id, lane, queue, run_id, target, .. } =>
                LaneRecord::QueueEnqueued {
                id,
                lane,
                queue,
                run_id,
                target,
                seq: number,
                timestamp: time,
            },
            LaneRecord::QueueCancelled { id, lane, run_id, entry_id, .. } =>
                LaneRecord::QueueCancelled {
                id,
                lane,
                run_id,
                entry_id,
                seq: number,
                timestamp: time,
            },
            LaneRecord::WriteDeferred { id, lane, run_id, target, .. } =>
                LaneRecord::WriteDeferred {
                id,
                lane,
                run_id,
                target,
                seq: number,
                timestamp: time,
            },
            LaneRecord::Usage { id, lane, usage, cause, .. } => LaneRecord::Usage {
                id,
                lane,
                usage,
                cause,
                seq: number,
                timestamp: time,
            },
        }
    }
}

// ---------------------------------------------------------------------------
// Queries, metadata, errors
// ---------------------------------------------------------------------------

/// The order of query results.
#[derive(Clone, Copy, PartialEq, Eq, Structural, Debug)]
pub enum EntryOrder {
    NewestFirst,
    OldestFirst,
}

impl Default for EntryOrder {
    /// Entries come newest first unless a query says otherwise.
    fn default() -> (r: Self)
        ensures
            r == EntryOrder::NewestFirst,
    {
        EntryOrder::NewestFirst
    }
}

/// A position in the sequence of entries.
#[derive(Clone, Copy, PartialEq, Eq, Structural, Debug)]
pub struct EntryCursor {
    pub after_seq: u64,
}

/// Which entries to look for.
pub struct EntryQuery {
    pub entry_type: Option<EntryType>,
    pub custom_type: Option<String>,
    pub order: Option<EntryOrder>,
    pub limit: Option<usize>,
    pub cursor: Option<EntryCursor>,
}

impl Default for EntryQuery {
    fn default() -> (r: Self)
        ensures
            r == (EntryQuery {
                entry_type: None,
                custom_type: None,
                order: None,
                limit: None,
                cursor: None,
            }),
    {
        EntryQuery { entry_type: None, custom_type: None, order: None, limit: None, cursor: None }
    }
}

/// Where a walk along a branch starts and stops.
pub struct BranchBounds {
    pub start: Option<String>,
    pub stop_at_type: Option<EntryType>,
    pub stop_at_id: Option<String>,
}

/// Which records to look for.
pub struct RecordQuery {
    pub lane: Option<String>,
    pub record_type: Option<RecordType>,
    pub run_id: Option<String>,
    pub operation_kind: Option<String>,
    pub after_seq: Option<u64>,
    pub order: Option<EntryOrder>,
    pub limit: Option<usize>,
}

/// Identity and origin of a session.
pub struct SessionMetadata {
    pub id: String,
    pub created_at: i64,
    pub parent_session_id: Option<String>,
}

impl Clone for SessionMetadata {
    fn clone(&self) -> (r: Self)
        ensures
            r == *self,
    {
        SessionMetadata {
            id: self.id.clone(),
            created_at: self.created_at,
            parent_session_id: copy_text(&self.parent_session_id),
        }
    }
}

/// A lane and the entry that it points to.
pub struct LanePointer {
    pub lane: String,
    pub leaf_id: Option<String>,
}

impl Clone for LanePointer {
    fn clone(&self) -> (r: Self)
        ensures
            r == *self,
    {
        LanePointer { lane: self.lane.clone(), leaf_id: copy_text(&self.leaf_id) }
    }
}

/// One step of a session's history.
pub enum LogItem {
    Entry { seq: u64, entry: Entry },
    Record { seq: u64, record: LaneRecord },
    Lane { seq: u64, lane: String, leaf_id: Option<String> },
    NameFact { seq: u64, name: Option<String> },
    LabelFact { seq: u64, target_id: String, label: Option<String> },
}

impl LogItem {
    pub open spec fn spec_seq(self) -> u64 {
        match self {
            LogItem::Entry { seq, .. } => seq,
            LogItem::Record { seq, .. } => seq,
            LogItem::Lane { seq, .. } => seq,
            LogItem::NameFact { seq, .. } => seq,
            LogItem::LabelFact { seq, .. } => seq,
        }
    }

    /// The sequence number of the step.
    pub fn seq(&self) -> (r: u64)
        ensures
            r == self.spec_seq(),
    {
        match self {
            LogItem::Entry { seq, .. } => *seq,
            LogItem::Record { seq, .. } => *seq,
            LogItem::Lane { seq, .. } => *seq,
            LogItem::NameFact { seq, .. } => *seq,
            LogItem::LabelFact { seq, .. } => *seq,
        }
    }
}

impl Clone for LogItem {
    fn clone(&self) -> (r: Self)
        ensures
            r == *self,
    {
        match self {
            LogItem::Entry { seq, entry } => LogItem::Entry { seq: *seq, entry: entry.clone() },
            LogItem::Record { seq, record } => LogItem::Record { seq: *seq, record: record.clone() },
            LogItem::Lane { seq, lane, leaf_id } => LogItem::Lane {
                seq: *seq,
                lane: lane.clone(),
                leaf_id: copy_text(leaf_id),
            },
            LogItem::NameFact { seq, name } => LogItem::NameFact {
                seq: *seq,
                name: copy_text(name),
            },
            LogItem::LabelFact { seq, target_id, label } => LogItem::LabelFact {
                seq: *seq,
                target_id: target_id.clone(),
                label: copy_text(label),
            },
        }
    }
}

/// Which part of a session's history to read.
#[derive(Clone, Copy, PartialEq, Eq, Structural, Debug)]
pub struct LogOptions {
    pub after_seq: Option<u64>,
    pub limit: Option<usize>,
}

/// Why a session operation failed.
#[derive(Clone, Copy, PartialEq, Eq, Structural, Debug)]
pub enum SessionErrorCode {
    NotFound,
    AlreadyExists,
    InvalidEntry,
    InvalidPayload,
    InvalidLane,
    InvalidQuery,
    InvalidForkTarget,
    Storage,
}

/// A failed session operation.
pub struct SessionError {
    pub code: SessionErrorCode,
    pub message: String,
}

/// The mathematical value of a [`SessionError`].
pub struct SessionErrorView {
    pub code: SessionErrorCode,
    pub message: Seq<char>,
}

impl View for SessionError {
    type V = SessionErrorView;

    open spec fn view(&self) -> SessionErrorView {
        SessionErrorView { code: self.code, message: self.message@ }
    }
}

impl SessionError {
    pub fn new(code: SessionErrorCode, message: String) -> (r: Self)
        ensures
            r@ == (SessionErrorView { code, message: message@ }),
    {
        SessionError { code, message }
    }
}

/// What a new session is created with.
pub struct SessionCreateOptions {
    pub id: Option<String>,
    pub parent_session_id: Option<String>,
}

/// Where a branch fork ends relative to the selected entry.
#[derive(Clone, Copy, PartialEq, Eq, Structural, Debug)]
pub enum ForkPosition {
    Before,
    At,
}

/// What a fork copies.
pub enum ForkOptions {
    Branch { entry_id: Option<String>, position: Option<ForkPosition> },
    Tree,
}

// ---------------------------------------------------------------------------
// Lookup
// ---------------------------------------------------------------------------

/// The last entry with the given id.
pub open spec fn entry_by_id(entries: Seq<Entry>, id: Seq<char>) -> Option<Entry>
    decreases entries.len(),
{
    if entries.len() == 0 {
        None
    } else if entries.last().spec_id() == id {
        Some(entries.last())
    } else {
        entry_by_id(entries.drop_last(), id)
    }
}

/// Whether one of the entries has the given id.
pub open spec fn has_entry(entries: Seq<Entry>, id: Seq<char>) -> bool {
    entry_by_id(entries, id) is Some
}

/// The last entry with the given id.
pub fn find_entry<'a>(entries: &'a Vec<Entry>, id: &String) -> (r: Option<&'a Entry>)
    ensures
        match r {
            Some(e) => entry_by_id(entries@, id@) == Some(*e),
            None => entry_by_id(entries@, id@) is None,
        },
{
    let mut i: usize = entries.len();
    proof {
        assert(entries@.take(entries@.len() as int) =~= entries@);
    }
    while i > 0
        invariant
            i <= entries@.len(),
            entry_by_id(entries@, id@) == entry_by_id(entries@.take(i as int), id@),
        decreases i,
    {
        proof {
            assert(entries@.take(i as int).drop_last() =~= entries@.take(i as int - 1));
        }
        if *entries[i - 1].id() == *id {
            return Some(&entries[i - 1]);
        }
        i = i - 1;
    }
    None
}

/// Whether one of the entries has the given id.
pub fn entry_exists(entries: &Vec<Entry>, id: &String) -> (r: bool)
    ensures
        r == has_entry(entries@, id@),
{
    match find_entry(entries, id) {
        Some(_) => true,
        None => false,
    }
}

/// Lookup by id finds an entry exactly when one has the id.
pub proof fn lemma_has_entry(entries: Seq<Entry>, id: Seq<char>)
    ensures
        has_entry(entries, id) <==> exists|i: int|
            0 <= i < entries.len() && (#[trigger] entries[i]).spec_id() == id,
    decreases entries.len(),
{
    if entries.len() > 0 {
        let shorter = entries.drop_last();
        lemma_has_entry(shorter, id);
        if entries.last().spec_id() == id {
            assert(entries[entries.len() - 1].spec_id() == id);
        } else {
            if has_entry(shorter, id) {
                let i = choose|i: int|
                    0 <= i < shorter.len() && (#[trigger] shorter[i]).spec_id() == id;
                assert(entries[i].spec_id() == id);
            }
            if exists|i: int| 0 <= i < entries.len() && (#[trigger] entries[i]).spec_id() == id {
                let i = choose|i: int|
                    0 <= i < entries.len() && (#[trigger] entries[i]).spec_id() == id;
                assert(shorter[i].spec_id() == id);
            }
        }
    }
}

/// The name of an error code.
pub open spec fn session_error_name(code: SessionErrorCode) -> Seq<char> {
    match code {
        SessionErrorCode::NotFound => "NotFound"@,
        SessionErrorCode::AlreadyExists => "AlreadyExists"@,
        SessionErrorCode::InvalidEntry => "InvalidEntry"@,
        SessionErrorCode::InvalidPayload => "InvalidPayload"@,
        SessionErrorCode::InvalidLane => "InvalidLane"@,
        SessionErrorCode::InvalidQuery => "InvalidQuery"@,
        SessionErrorCode::InvalidForkTarget => "InvalidForkTarget"@,
        SessionErrorCode::Storage => "Storage"@,
    }
}

impl SessionError {
    /// The error as text: its code and its message.
    pub fn display(&self) -> (r: String)
        ensures
            r@ == session_error_name(self.code) + ": "@ + self.message@,
    {
        let name: &'static str = match self.code {
            SessionErrorCode::NotFound => "NotFound",
            SessionErrorCode::AlreadyExists => "AlreadyExists",
            SessionErrorCode::InvalidEntry => "InvalidEntry",
            SessionErrorCode::InvalidPayload => "InvalidPayload",
            SessionErrorCode::InvalidLane => "InvalidLane",
            SessionErrorCode::InvalidQuery => "InvalidQuery",
            SessionErrorCode::InvalidForkTarget => "InvalidForkTarget",
            SessionErrorCode::Storage => "Storage",
        };
        concat3(name, ": ", self.message.as_str())
    }
}

} // verus!

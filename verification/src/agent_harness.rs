//! A harness around a session: how it is configured, what it answers while its
//! operations are missing, and what they will come to.

use vstd::prelude::*;

use crate::agent::Model;
use crate::compaction::estimate::{default_settings, CompactionSettings};
use crate::harness_types::{PromptTemplate, Skill};
use crate::session::types::Entry;
use crate::text::{concat3, texts};
use crate::tools::result::ToolDefinition;
use crate::types::{
    AgentMessage, AssistantMessage, DeferredHandle, ImageContent, QueueMode, ThinkingLevel,
};

verus! {

// ---------------------------------------------------------------------------
// Refusals
// ---------------------------------------------------------------------------

/// Why a request was rejected.
pub enum HarnessRejection {
    LaneBusy { lane: String, operation_id: String },
    MissingIdentities { lane: String, tools: Vec<String>, models: Vec<String> },
    NoActiveRun { lane: String },
    NoActiveOperation { lane: String },
    NothingToResume { lane: String },
    InvalidMessage { lane: String, reason: String },
    UnknownSkill { name: String },
    UnknownTemplate { name: String },
    UnknownTarget { target_id: String },
    UnknownQueueItem { lane: String, entry_id: String },
    LaneExists { lane: String },
    InvalidLane { lane: String, reason: String },
    NothingToCompact { lane: String },
    Closed,
}

/// A fault of the harness itself.
pub struct HarnessFault {
    pub message: String,
    pub cause: String,
}

/// The harness was closed.
#[derive(Clone, Copy, PartialEq, Eq, Structural, Debug)]
pub struct HarnessClosed;

impl HarnessClosed {
    /// The refusal as text.
    pub fn display(&self) -> (r: String)
        ensures
            r@ == "AgentHarness was closed while the operation was active"@,
    {
        "AgentHarness was closed while the operation was active".to_string()
    }
}

/// An operation that the harness does not have.
pub struct HarnessNotImplemented {
    pub operation: String,
}

impl HarnessNotImplemented {
    /// The refusal as text.
    pub fn display(&self) -> (r: String)
        ensures
            r@ == "AgentHarness."@ + self.operation@ + " is not implemented yet"@,
    {
        concat3("AgentHarness.", self.operation.as_str(), " is not implemented yet")
    }
}

/// What an operation that the harness does not have is answered with.
pub enum HarnessScaffoldError {
    Closed(HarnessClosed),
    NotImplemented(HarnessNotImplemented),
}

/// A refusal as text.
pub open spec fn scaffold_error_text(error: HarnessScaffoldError) -> Seq<char> {
    match error {
        HarnessScaffoldError::Closed(_) => "AgentHarness was closed while the operation was active"@,
        HarnessScaffoldError::NotImplemented(missing) => "AgentHarness."@ + missing.operation@
            + " is not implemented yet"@,
    }
}

impl HarnessScaffoldError {
    /// The refusal as text.
    pub fn display(&self) -> (r: String)
        ensures
            r@ == scaffold_error_text(*self),
    {
        match self {
            HarnessScaffoldError::Closed(error) => error.display(),
            HarnessScaffoldError::NotImplemented(error) => error.display(),
        }
    }
}

// ---------------------------------------------------------------------------
// Outcomes
// ---------------------------------------------------------------------------

/// Why an operation failed.
pub struct OperationError {
    pub code: String,
    pub message: String,
}

/// What a run comes to.
pub enum RunOutcome {
    Completed { leaf_id: String, final_entry_id: String, final_message: AssistantMessage },
    Aborted { leaf_id: String, final_entry_id: String, final_message: AssistantMessage },
    Failed {
        leaf_id: String,
        error: OperationError,
        final_entry_id: Option<String>,
        final_message: Option<AssistantMessage>,
    },
    Suspended { leaf_id: String, final_entry_id: String, deferred: DeferredHandle },
}

/// What a compaction comes to.
pub enum CompactionOutcome {
    Completed { leaf_id: String, entry: Box<Entry> },
    Declined { leaf_id: String },
    Aborted { leaf_id: String },
    Failed { leaf_id: String, error: OperationError },
}

/// What a navigation comes to.
pub enum NavigationOutcome {
    Completed { new_leaf_id: Option<String>, summary_entry: Option<Box<Entry>> },
    Declined { leaf_id: Option<String> },
    Aborted { leaf_id: Option<String> },
    Failed { leaf_id: Option<String>, error: OperationError },
}

/// What a run comes to, with its id.
pub struct RunWithId {
    pub run_id: String,
    pub outcome: RunOutcome,
}

/// What a compaction comes to, with its id.
pub struct CompactionWithId {
    pub run_id: String,
    pub outcome: CompactionOutcome,
}

/// What a navigation comes to, with its id.
pub struct NavigationWithId {
    pub run_id: String,
    pub outcome: NavigationOutcome,
}

/// What a resumed operation comes to.
pub enum ResumeOutcome {
    Run { run_id: String, outcome: Box<RunOutcome> },
    Compaction { run_id: String, outcome: Box<CompactionOutcome> },
    Navigation { run_id: String, outcome: Box<NavigationOutcome> },
}

/// A queued message, with its id.
pub struct QueuedEntry {
    pub entry_id: String,
    pub message: AgentMessage,
}

/// What became of a queued message that was cancelled.
#[derive(Clone, Copy, PartialEq, Eq, Structural, Debug)]
pub enum CancelQueuedOutcome {
    Cancelled,
    AlreadyConsumed,
    AlreadyCleared,
}

/// A run that was aborted, with the messages that were queued for it.
pub struct AbortedRun {
    pub run_id: String,
    pub steer: Vec<AgentMessage>,
    pub follow_up: Vec<AgentMessage>,
}

/// An operation that can be resumed.
pub struct SuspendedOperation {
    pub lane: String,
    /// `"run"`, `"compaction"` or `"navigation"`.
    pub kind: &'static str,
    pub id: String,
    pub started_at: i64,
    /// `"crash"` or `"deferred"`.
    pub reason: &'static str,
    pub prompt: Option<Vec<AgentMessage>>,
    pub deferred: Option<DeferredHandle>,
    pub aborting: Option<AbortedRun>,
    pub missing_tools: Vec<String>,
    pub missing_models: Vec<String>,
}

/// A lane and what is done on it.
pub struct LaneInfo {
    pub name: String,
    pub leaf_id: Option<String>,
    pub operation: Option<LaneOperationInfo>,
}

/// What is done on a lane.
pub struct LaneOperationInfo {
    pub id: String,
    /// `"run"`, `"compaction"` or `"navigation"`.
    pub kind: &'static str,
    /// `"running"`, `"suspended"` or `"aborting"`.
    pub status: &'static str,
}

/// How a navigation is done.
pub struct NavigateOptions {
    pub summarize: Option<bool>,
    pub custom_instructions: Option<String>,
    pub label: Option<String>,
}

/// How a compaction is done.
pub struct CompactOptions {
    pub custom_instructions: Option<String>,
}

/// What a run is started with.
pub enum PromptInput {
    Text { text: String, images: Option<Vec<ImageContent>> },
    Message(AgentMessage),
    Messages(Vec<AgentMessage>),
}

/// What is queued.
pub enum QueueInput {
    Text { text: String, images: Option<Vec<ImageContent>> },
    Message(AgentMessage),
}

/// Whether a tool call may be run again.
#[derive(Clone, Copy, PartialEq, Eq, Structural, Debug)]
pub enum ToolReplay {
    Never,
    Safe,
}

/// Who drives the harness.
#[derive(Clone, Copy, PartialEq, Eq, Structural, Debug)]
pub enum DriveMode {
    Automatic,
    Manual,
}

/// Whether the tool calls of one message run one after the other.
#[derive(Clone, Copy, PartialEq, Eq, Structural, Debug)]
pub enum ToolExecution {
    Sequential,
    Parallel,
}

/// How a hook is registered.
pub struct HookOptions {
    pub id: Option<String>,
}

/// What a harness does next.
pub enum ActionInfo {
    AppendEntry { entry_type: String, entry_id: String },
    AppendRecord { record_type: String },
    MoveLane { to: Option<String> },
    SetFact { fact: String },
    TryFinishRun { outcome: String },
    FinishOperation { outcome: String },
    CommitFollowUp,
    ConsumeQueueItem { queue: String, entry_id: String },
    ApplyPendingWrite { entry_id: String },
    StreamAssistant { step: String, attempt: u32 },
    ExecuteTool { tool_call_id: String, tool_name: String },
    FetchDeferred { provider: String, id: String },
    CancelDeferred { provider: String, id: String },
    Hook { name: String },
    Sleep { delay_ms: u64 },
}

/// An entry that is to be written.
pub struct PendingWrite {
    pub id: String,
    pub entry: Entry,
}

/// A lane at one time.
pub struct LaneSnapshot {
    pub lane: String,
    pub transcript: Vec<Entry>,
    pub leaf_id: Option<String>,
    pub operation: Option<LaneOperationInfo>,
    pub steer: Vec<QueuedEntry>,
    pub follow_up: Vec<QueuedEntry>,
    pub next_run: Vec<QueuedEntry>,
    pub pending_writes: Vec<PendingWrite>,
    pub faulted: bool,
}

/// A lane of a session at one time.
pub struct SessionLaneSnapshot {
    pub lane: LaneInfo,
    pub suspended: Option<SuspendedOperation>,
}

/// A session at one time.
pub struct SessionSnapshot {
    pub lanes: Vec<SessionLaneSnapshot>,
    pub faulted: bool,
}

/// The names of hooks.
pub const HOOK_NAMES: [&'static str; 11] = [
    "before_run",
    "before_resume",
    "before_run_end",
    "transform_context",
    "before_request",
    "before_payload",
    "after_response",
    "before_tool",
    "after_tool",
    "before_compaction",
    "before_navigation",
];

// ---------------------------------------------------------------------------
// The harness
// ---------------------------------------------------------------------------

/// Skills and prompt templates.
pub struct Resources {
    pub skills: Option<Vec<Skill>>,
    pub prompt_templates: Option<Vec<PromptTemplate>>,
}

/// Whether and how often requests are tried again.
#[derive(Clone, Copy, PartialEq, Eq, Structural, Debug)]
pub struct RetryPolicy {
    pub enabled: bool,
    pub max_retries: u32,
    pub base_delay_ms: u64,
}

/// What a harness is made with. The options of a stream are those of whoever
/// makes the requests.
pub struct AgentHarnessOptions<O> {
    pub model: Model,
    pub thinking_level: Option<ThinkingLevel>,
    pub active_tool_names: Option<Vec<String>>,
    pub tools: Option<Vec<ToolDefinition>>,
    pub stream_options: O,
    pub retry: Option<RetryPolicy>,
    pub compaction: Option<CompactionSettings>,
    pub steering_mode: Option<QueueMode>,
    pub follow_up_mode: Option<QueueMode>,
    pub resources: Option<Resources>,
}

/// A harness around a session.
pub struct AgentHarness<O> {
    model: Model,
    thinking_level: ThinkingLevel,
    active_tool_names: Vec<String>,
    tools: Vec<ToolDefinition>,
    resources: Resources,
    stream_options: O,
    retry_policy: RetryPolicy,
    compaction_settings: CompactionSettings,
    steering_mode: QueueMode,
    follow_up_mode: QueueMode,
    closed: bool,
}

/// The mathematical value of an [`AgentHarness`].
pub struct HarnessView<O> {
    pub model: Model,
    pub thinking_level: ThinkingLevel,
    pub active_tool_names: Seq<Seq<char>>,
    pub tools: Seq<ToolDefinition>,
    pub resources: Resources,
    pub stream_options: O,
    pub retry_policy: RetryPolicy,
    pub compaction_settings: CompactionSettings,
    pub steering_mode: QueueMode,
    pub follow_up_mode: QueueMode,
    pub closed: bool,
}

/// The names of tools.
pub open spec fn tool_names(tools: Seq<ToolDefinition>) -> Seq<Seq<char>> {
    Seq::new(tools.len(), |i: int| tools[i].name@)
}

/// The names of the tools that are active: those that were given, or else all.
pub open spec fn active_names(names: Option<Vec<String>>, tools: Seq<ToolDefinition>) -> Seq<
    Seq<char>,
> {
    match names {
        Some(given) => texts(given@),
        None => tool_names(tools),
    }
}

fn names_of_tools(tools: &Vec<ToolDefinition>) -> (r: Vec<String>)
    ensures
        texts(r@) == tool_names(tools@),
{
    let mut names: Vec<String> = Vec::new();
    let mut i: usize = 0;
    while i < tools.len()
        invariant
            i <= tools@.len(),
            texts(names@) == tool_names(tools@).take(i as int),
        decreases tools@.len() - i,
    {
        let ghost before = names@;
        let name: String = tools[i].name.clone();
        names.push(name);
        i = i + 1;
        proof {
            assert(texts(names@) =~= texts(before).push(name@));
            assert(texts(names@) =~= tool_names(tools@).take(i as int));
        }
    }
    proof {
        assert(tool_names(tools@).take(tools@.len() as int) =~= tool_names(tools@));
    }
    names
}

/// A value that was given, or else another.
pub open spec fn given_or<T>(value: Option<T>, other: T) -> T {
    match value {
        Some(v) => v,
        None => other,
    }
}

/// The tools that were given, or none.
pub open spec fn tools_or_none(tools: Option<Vec<ToolDefinition>>) -> Seq<ToolDefinition> {
    match tools {
        Some(all) => all@,
        None => Seq::empty(),
    }
}

impl<O> AgentHarness<O> {
    /// The configuration of the harness.
    pub closed spec fn view(&self) -> HarnessView<O> {
        HarnessView {
            model: self.model,
            thinking_level: self.thinking_level,
            active_tool_names: texts(self.active_tool_names@),
            tools: self.tools@,
            resources: self.resources,
            stream_options: self.stream_options,
            retry_policy: self.retry_policy,
            compaction_settings: self.compaction_settings,
            steering_mode: self.steering_mode,
            follow_up_mode: self.follow_up_mode,
            closed: self.closed,
        }
    }

    /// A harness for a session without records; operations of others cannot be
    /// restored.
    pub fn create(options: AgentHarnessOptions<O>, has_records: bool) -> (r: Result<
        AgentHarness<O>,
        HarnessNotImplemented,
    >)
        ensures
            match r {
                Ok(harness) => {
                    let h = harness@;
                    &&& !has_records
                    &&& h.model == options.model
                    &&& h.thinking_level == given_or(options.thinking_level, ThinkingLevel::Off)
                    &&& h.tools == tools_or_none(options.tools)
                    &&& h.active_tool_names == active_names(options.active_tool_names, h.tools)
                    &&& h.resources == given_or(
                        options.resources,
                        Resources { skills: None, prompt_templates: None },
                    )
                    &&& h.stream_options == options.stream_options
                    &&& h.retry_policy == given_or(
                        options.retry,
                        RetryPolicy { enabled: false, max_retries: 0, base_delay_ms: 1000 },
                    )
                    &&& h.compaction_settings == given_or(options.compaction, default_settings())
                    &&& h.steering_mode == given_or(options.steering_mode, QueueMode::OneAtATime)
                    &&& h.follow_up_mode == given_or(options.follow_up_mode, QueueMode::OneAtATime)
                    &&& !h.closed
                },
                Err(e) => has_records && e.operation@ == "create.restore"@,
            },
    {
        if has_records {
            return Err(HarnessNotImplemented { operation: "create.restore".to_string() });
        }
        let tools: Vec<ToolDefinition> = match options.tools {
            Some(tools) => tools,
            None => Vec::new(),
        };
        let active_tool_names: Vec<String> = match options.active_tool_names {
            Some(names) => names,
            None => names_of_tools(&tools),
        };
        Ok(
            AgentHarness {
                model: options.model,
                thinking_level: match options.thinking_level {
                    Some(level) => level,
                    None => ThinkingLevel::Off,
                },
                active_tool_names,
                tools,
                resources: match options.resources {
                    Some(resources) => resources,
                    None => Resources { skills: None, prompt_templates: None },
                },
                stream_options: options.stream_options,
                retry_policy: match options.retry {
                    Some(policy) => policy,
                    None => RetryPolicy { enabled: false, max_retries: 0, base_delay_ms: 1000 },
                },
                compaction_settings: match options.compaction {
                    Some(settings) => settings,
                    None => CompactionSettings::default(),
                },
                steering_mode: match options.steering_mode {
                    Some(mode) => mode,
                    None => QueueMode::OneAtATime,
                },
                follow_up_mode: match options.follow_up_mode {
                    Some(mode) => mode,
                    None => QueueMode::OneAtATime,
                },
                closed: false,
            },
        )
    }

    /// What an operation that the harness does not have is answered with: that
    /// it is closed, or that the operation is missing.
    pub fn unavailable(&self, operation: &str) -> (r: HarnessScaffoldError)
        ensures
            match r {
                HarnessScaffoldError::Closed(_) => self@.closed,
                HarnessScaffoldError::NotImplemented(missing) => !self@.closed
                    && missing.operation@ == operation@,
            },
    {
        if self.closed {
            HarnessScaffoldError::Closed(HarnessClosed)
        } else {
            HarnessScaffoldError::NotImplemented(
                HarnessNotImplemented { operation: operation.to_string() },
            )
        }
    }

    /// Whether the harness was closed.
    pub fn is_closed(&self) -> (r: bool)
        ensures
            r == self@.closed,
    {
        self.closed
    }

    /// Closes the harness.
    pub fn close(&mut self)
        ensures
            final(self)@ == (HarnessView { closed: true, ..old(self)@ }),
    {
        self.closed = true;
    }

    pub fn get_model(&self) -> (r: Model)
        ensures
            r == self@.model,
    {
        self.model.clone()
    }

    pub fn set_model(&mut self, model: Model)
        ensures
            final(self)@ == (HarnessView { model, ..old(self)@ }),
    {
        self.model = model;
    }

    pub fn get_thinking_level(&self) -> (r: ThinkingLevel)
        ensures
            r == self@.thinking_level,
    {
        self.thinking_level
    }

    pub fn set_thinking_level(&mut self, level: ThinkingLevel)
        ensures
            final(self)@ == (HarnessView { thinking_level: level, ..old(self)@ }),
    {
        self.thinking_level = level;
    }

    /// The names of the tools that are active.
    pub fn get_active_tools(&self) -> (r: Vec<String>)
        ensures
            texts(r@) == self@.active_tool_names,
    {
        let r: Vec<String> = self.active_tool_names.clone();
        proof {
            assert(r@ =~= self.active_tool_names@);
        }
        r
    }

    /// Makes tools active by their names.
    pub fn set_active_tools(&mut self, names: Vec<String>)
        ensures
            final(self)@ == (HarnessView { active_tool_names: texts(names@), ..old(self)@ }),
    {
        self.active_tool_names = names;
    }

    pub fn get_tools(&self) -> (r: &Vec<ToolDefinition>)
        ensures
            r@ == self@.tools,
    {
        &self.tools
    }

    /// Replaces the tools. All of them are active, unless names are given.
    pub fn set_tools(&mut self, tools: Vec<ToolDefinition>, names: Option<Vec<String>>)
        ensures
            final(self)@ == (HarnessView {
                tools: tools@,
                active_tool_names: active_names(names, tools@),
                ..old(self)@
            }),
    {
        let active: Vec<String> = match names {
            Some(names) => names,
            None => names_of_tools(&tools),
        };
        self.tools = tools;
        self.active_tool_names = active;
    }

    pub fn get_resources(&self) -> (r: &Resources)
        ensures
            *r == self@.resources,
    {
        &self.resources
    }

    pub fn set_resources(&mut self, resources: Resources)
        ensures
            final(self)@ == (HarnessView { resources, ..old(self)@ }),
    {
        self.resources = resources;
    }

    pub fn get_stream_options(&self) -> (r: &O)
        ensures
            *r == self@.stream_options,
    {
        &self.stream_options
    }

    pub fn set_stream_options(&mut self, options: O)
        ensures
            final(self)@ == (HarnessView { stream_options: options, ..old(self)@ }),
    {
        self.stream_options = options;
    }

    pub fn get_retry_policy(&self) -> (r: RetryPolicy)
        ensures
            r == self@.retry_policy,
    {
        self.retry_policy
    }

    pub fn set_retry_policy(&mut self, policy: RetryPolicy)
        ensures
            final(self)@ == (HarnessView { retry_policy: policy, ..old(self)@ }),
    {
        self.retry_policy = policy;
    }

    pub fn get_compaction_settings(&self) -> (r: CompactionSettings)
        ensures
            r == self@.compaction_settings,
    {
        self.compaction_settings
    }

    pub fn set_compaction_settings(&mut self, settings: CompactionSettings)
        ensures
            final(self)@ == (HarnessView { compaction_settings: settings, ..old(self)@ }),
    {
        self.compaction_settings = settings;
    }

    pub fn get_steering_mode(&self) -> (r: QueueMode)
        ensures
            r == self@.steering_mode,
    {
        self.steering_mode
    }

    pub fn set_steering_mode(&mut self, mode: QueueMode)
        ensures
            final(self)@ == (HarnessView { steering_mode: mode, ..old(self)@ }),
    {
        self.steering_mode = mode;
    }

    pub fn get_follow_up_mode(&self) -> (r: QueueMode)
        ensures
            r == self@.follow_up_mode,
    {
        self.follow_up_mode
    }

    pub fn set_follow_up_mode(&mut self, mode: QueueMode)
        ensures
            final(self)@ == (HarnessView { follow_up_mode: mode, ..old(self)@ }),
    {
        self.follow_up_mode = mode;
    }
}

} // verus!

//! The state of an agent: its transcript, its queues, and what becomes of them
//! as a run goes on.

use std::sync::Arc;

use vstd::prelude::*;

use crate::agent_events::{
    event_views, push_event, push_whole_message, whole_message, AgentEvent, EventView,
};
use crate::agent_loop::{copy_messages, LAST_IS_ASSISTANT};
use crate::messages::text_block;
use crate::text::{same_text, text_of_option, texts};
use crate::tool_calls::ToolMode;
use crate::types::{
    block_views, message_role, no_usage, share, text_block_view, AgentMessage, AgentMessageView,
    AssistantContent, AssistantMessage, BlockContent, BlockView, ImageContent, QueueMode,
    StopReason, TextContent, ThinkingLevel, ToolResultMessage, Usage, UserContent, UserContentView,
    UserMessage,
};

verus! {

// ---------------------------------------------------------------------------
// Models
// ---------------------------------------------------------------------------

/// A model that an agent asks.
pub struct Model {
    pub id: String,
    pub name: String,
    pub api: String,
    pub provider: String,
    pub base_url: String,
    pub reasoning: bool,
    pub context_window: u64,
    pub max_tokens: u64,
}

impl Clone for Model {
    fn clone(&self) -> (r: Self)
        ensures
            r == *self,
    {
        Model {
            id: self.id.clone(),
            name: self.name.clone(),
            api: self.api.clone(),
            provider: self.provider.clone(),
            base_url: self.base_url.clone(),
            reasoning: self.reasoning,
            context_window: self.context_window,
            max_tokens: self.max_tokens,
        }
    }
}

/// Whether a model is the one that stands for none.
pub open spec fn is_unknown(model: Model) -> bool {
    &&& model.id@ == "unknown"@
    &&& model.name@ == "unknown"@
    &&& model.api@ == "unknown"@
    &&& model.provider@ == "unknown"@
    &&& model.base_url@.len() == 0
    &&& !model.reasoning
    &&& model.context_window == 0
    &&& model.max_tokens == 0
}

/// The model that stands for none.
pub fn default_model() -> (r: Model)
    ensures
        is_unknown(r),
{
    Model {
        id: "unknown".to_string(),
        name: "unknown".to_string(),
        api: "unknown".to_string(),
        provider: "unknown".to_string(),
        base_url: String::new(),
        reasoning: false,
        context_window: 0,
        max_tokens: 0,
    }
}

// ---------------------------------------------------------------------------
// Queues
// ---------------------------------------------------------------------------

/// Messages that wait for a run.
pub struct PendingMessageQueue {
    pub messages: Vec<AgentMessage>,
    pub mode: QueueMode,
}

/// How many messages leave a queue at once.
pub open spec fn drained_count(mode: QueueMode, waiting: nat) -> nat {
    if mode == QueueMode::All || waiting == 0 {
        waiting
    } else {
        1
    }
}

impl PendingMessageQueue {
    /// An empty queue.
    pub fn new(mode: QueueMode) -> (r: Self)
        ensures
            r.messages@.len() == 0,
            r.mode == mode,
    {
        PendingMessageQueue { messages: Vec::new(), mode }
    }

    /// Puts a message at the end.
    pub fn enqueue(&mut self, message: AgentMessage)
        ensures
            final(self).messages@ == old(self).messages@.push(message),
            final(self).mode == old(self).mode,
    {
        self.messages.push(message);
    }

    /// Whether messages wait.
    pub fn has_items(&self) -> (r: bool)
        ensures
            r == (self.messages@.len() > 0),
    {
        self.messages.len() > 0
    }

    /// Takes the messages that are due: all of them, or the first.
    pub fn drain(&mut self) -> (r: Vec<AgentMessage>)
        ensures
            r@ == old(self).messages@.take(
                drained_count(old(self).mode, old(self).messages@.len()) as int,
            ),
            final(self).messages@ == old(self).messages@.skip(
                drained_count(old(self).mode, old(self).messages@.len()) as int,
            ),
            r@ + final(self).messages@ == old(self).messages@,
            final(self).mode == old(self).mode,
    {
        let ghost before = self.messages@;
        let mut out: Vec<AgentMessage> = Vec::new();
        if self.mode == QueueMode::All {
            std::mem::swap(&mut out, &mut self.messages);
        } else if self.messages.len() > 0 {
            out.push(self.messages.remove(0));
        }
        proof {
            let n = drained_count(self.mode, before.len()) as int;
            assert(out@ =~= before.take(n));
            assert(self.messages@ =~= before.skip(n));
            assert(out@ + self.messages@ =~= before);
        }
        out
    }

    /// Removes all messages.
    pub fn clear(&mut self)
        ensures
            final(self).messages@.len() == 0,
            final(self).mode == old(self).mode,
    {
        self.messages.clear();
    }
}

// ---------------------------------------------------------------------------
// Prompts
// ---------------------------------------------------------------------------

/// What a run starts with: a text with images, a message, or messages.
pub enum AgentPromptInput {
    Text { text: String, images: Vec<ImageContent> },
    Message(AgentMessage),
    Messages(Vec<AgentMessage>),
}

impl AgentPromptInput {
    /// A text without images.
    pub fn from_text(text: String) -> (r: Self)
        ensures
            r matches AgentPromptInput::Text { text: t, images } && t == text && images@.len() == 0,
    {
        AgentPromptInput::Text { text, images: Vec::new() }
    }
}

impl From<AgentMessage> for AgentPromptInput {
    fn from(message: AgentMessage) -> (r: Self) {
        AgentPromptInput::Message(message)
    }
}

impl vstd::std_specs::convert::FromSpecImpl<AgentMessage> for AgentPromptInput {
    open spec fn obeys_from_spec() -> bool {
        true
    }

    open spec fn from_spec(v: AgentMessage) -> Self {
        AgentPromptInput::Message(v)
    }
}

impl From<Vec<AgentMessage>> for AgentPromptInput {
    fn from(messages: Vec<AgentMessage>) -> (r: Self) {
        AgentPromptInput::Messages(messages)
    }
}

impl vstd::std_specs::convert::FromSpecImpl<Vec<AgentMessage>> for AgentPromptInput {
    open spec fn obeys_from_spec() -> bool {
        true
    }

    open spec fn from_spec(v: Vec<AgentMessage>) -> Self {
        AgentPromptInput::Messages(v)
    }
}

/// The images of a prompt as blocks.
pub open spec fn image_blocks(images: Seq<ImageContent>) -> Seq<BlockView> {
    Seq::new(
        images.len(),
        |i: int| BlockView::Image { data: images[i].data@, mime_type: images[i].mime_type@ },
    )
}

/// Whether messages are those of a prompt.
pub open spec fn prompts(
    input: AgentPromptInput,
    now: i64,
    messages: Seq<AgentMessage>,
) -> bool {
    match input {
        AgentPromptInput::Messages(given) => messages == given@,
        AgentPromptInput::Message(message) => messages == seq![message],
        AgentPromptInput::Text { text, images } => messages.len() == 1 && messages[0]@ == (
        AgentMessageView::User {
            content: UserContentView::Blocks(
                seq![text_block_view(text@)] + image_blocks(images@),
            ),
            timestamp: now as int,
        }),
    }
}

/// The messages of a prompt.
pub fn normalize_prompt_input(input: AgentPromptInput, now: i64) -> (r: Vec<AgentMessage>)
    ensures
        prompts(input, now, r@),
{
    match input {
        AgentPromptInput::Messages(messages) => messages,
        AgentPromptInput::Message(message) => {
            let mut out: Vec<AgentMessage> = Vec::new();
            out.push(message);
            proof {
                assert(out@ =~= seq![message]);
            }
            out
        },
        AgentPromptInput::Text { text, images } => {
            let ghost wanted = seq![text_block_view(text@)] + image_blocks(images@);
            let mut content: Vec<BlockContent> = Vec::new();
            content.push(text_block(text));
            let mut i: usize = 0;
            proof {
                assert(block_views(content@) =~= wanted.take(1));
            }
            while i < images.len()
                invariant
                    i <= images@.len(),
                    wanted == seq![text_block_view(text@)] + image_blocks(images@),
                    block_views(content@) == wanted.take(i + 1),
                decreases images@.len() - i,
            {
                let ghost before = content@;
                content.push(BlockContent::Image(images[i].clone()));
                proof {
                    assert(block_views(content@) =~= block_views(before).push(content@.last()@));
                    assert(block_views(content@) =~= wanted.take(i + 2));
                }
                i = i + 1;
            }
            proof {
                assert(wanted.take(wanted.len() as int) =~= wanted);
            }
            let mut out: Vec<AgentMessage> = Vec::new();
            out.push(
                AgentMessage::User(
                    Arc::new(
                        UserMessage { content: UserContent::Blocks(content), timestamp: now },
                    ),
                ),
            );
            out
        },
    }
}

// ---------------------------------------------------------------------------
// Names
// ---------------------------------------------------------------------------

/// The names without one of them.
pub open spec fn without_name(names: Seq<Seq<char>>, name: Seq<char>) -> Seq<Seq<char>>
    decreases names.len(),
{
    if names.len() == 0 {
        Seq::empty()
    } else if names.last() == name {
        without_name(names.drop_last(), name)
    } else {
        without_name(names.drop_last(), name).push(names.last())
    }
}

/// The names with one more.
pub open spec fn with_name(names: Seq<Seq<char>>, name: Seq<char>) -> Seq<Seq<char>> {
    if names.contains(name) {
        names
    } else {
        names.push(name)
    }
}

fn add_name(names: &mut Vec<String>, name: &str)
    ensures
        texts(final(names)@) == with_name(texts(old(names)@), name@),
{
    let ghost before = names@;
    let mut i: usize = 0;
    while i < names.len()
        invariant
            i <= names@.len(),
            names@ == before,
            forall|k: int| 0 <= k < i ==> texts(before)[k] != name@,
        decreases names@.len() - i,
    {
        if same_text(names[i].as_str(), name) {
            proof {
                assert(texts(before)[i as int] == name@);
            }
            return;
        }
        i = i + 1;
    }
    names.push(name.to_string());
    proof {
        assert(texts(names@) =~= texts(before).push(name@));
    }
}

fn remove_name(names: &Vec<String>, name: &str) -> (r: Vec<String>)
    ensures
        texts(r@) == without_name(texts(names@), name@),
{
    let ghost all = texts(names@);
    let mut out: Vec<String> = Vec::new();
    let mut i: usize = 0;
    proof {
        assert(all.take(0) =~= Seq::<Seq<char>>::empty());
        assert(texts(out@) =~= Seq::<Seq<char>>::empty());
    }
    while i < names.len()
        invariant
            i <= names@.len(),
            all == texts(names@),
            texts(out@) == without_name(all.take(i as int), name@),
        decreases names@.len() - i,
    {
        let ghost before = out@;
        proof {
            assert(all.take(i + 1).drop_last() =~= all.take(i as int));
            assert(all.take(i + 1).last() == names@[i as int]@);
        }
        if !same_text(names[i].as_str(), name) {
            out.push(names[i].clone());
            proof {
                assert(texts(out@) =~= texts(before).push(names@[i as int]@));
            }
        }
        i = i + 1;
    }
    proof {
        assert(all.take(all.len() as int) =~= all);
    }
    out
}

// ---------------------------------------------------------------------------
// The agent
// ---------------------------------------------------------------------------

/// What an agent starts with.
pub struct AgentInitialState {
    pub system_prompt: Option<String>,
    pub model: Option<Model>,
    pub thinking_level: Option<ThinkingLevel>,
    pub tools: Option<Vec<ToolMode>>,
    pub messages: Option<Vec<AgentMessage>>,
}

/// An agent: its transcript, its queues, and how far its run has come.
pub struct Agent {
    pub system_prompt: String,
    pub model: Model,
    pub thinking_level: ThinkingLevel,
    pub tools: Vec<ToolMode>,
    pub messages: Vec<AgentMessage>,
    pub is_streaming: bool,
    pub streaming_message: Option<AgentMessage>,
    pub pending_tool_calls: Vec<String>,
    pub error_message: Option<String>,
    pub steering_queue: PendingMessageQueue,
    pub follow_up_queue: PendingMessageQueue,
    pub active: bool,
    pub skip_next_poll: bool,
}

/// The mathematical value of what a run changes in an [`Agent`].
pub struct AgentView {
    pub messages: Seq<AgentMessage>,
    pub is_streaming: bool,
    pub streaming_message: Option<AgentMessage>,
    pub pending_tool_calls: Seq<Seq<char>>,
    pub error_message: Option<Seq<char>>,
    pub steering: Seq<AgentMessage>,
    pub follow_up: Seq<AgentMessage>,
    pub active: bool,
    pub skip_next_poll: bool,
}

impl View for Agent {
    type V = AgentView;

    open spec fn view(&self) -> AgentView {
        AgentView {
            messages: self.messages@,
            is_streaming: self.is_streaming,
            streaming_message: self.streaming_message,
            pending_tool_calls: texts(self.pending_tool_calls@),
            error_message: crate::text::text_of_option(self.error_message),
            steering: self.steering_queue.messages@,
            follow_up: self.follow_up_queue.messages@,
            active: self.active,
            skip_next_poll: self.skip_next_poll,
        }
    }
}

/// Why a prompt is refused.
pub const BUSY_PROMPTING: &'static str = "Agent is already processing a prompt. Use steer() or followUp() to queue messages, or wait for completion.";

/// Why a continuation is refused.
pub const BUSY_CONTINUING: &'static str = "Agent is already processing. Wait for completion before continuing.";

/// Why a reset is refused.
pub const BUSY_RESETTING: &'static str = "Agent is already processing. Wait for completion before resetting.";

/// Why a run is refused.
pub const BUSY: &'static str = "Agent is already processing.";

/// Why there is nothing to continue.
pub const NOTHING_TO_CONTINUE: &'static str = "No messages to continue from";

/// Why listeners are not told.
pub const NO_ACTIVE_RUN: &'static str = "Agent listener invoked outside active run";

/// How a run goes on: with queued messages, or from the transcript.
pub enum Continuation {
    Prompts { messages: Vec<AgentMessage>, skip_initial_poll: bool },
    Resume,
}

impl AgentView {
    /// The state after an event of a run.
    pub open spec fn after(self, event: EventView) -> AgentView {
        match event {
            EventView::MessageStart { message } => AgentView {
                streaming_message: Some(message),
                ..self
            },
            EventView::MessageUpdate { message, .. } => AgentView {
                streaming_message: Some(message),
                ..self
            },
            EventView::MessageEnd { message } => AgentView {
                streaming_message: None,
                messages: self.messages.push(message),
                ..self
            },
            EventView::ToolExecutionStart { tool_call_id, .. } => AgentView {
                pending_tool_calls: with_name(self.pending_tool_calls, tool_call_id),
                ..self
            },
            EventView::ToolExecutionEnd { tool_call_id, .. } => AgentView {
                pending_tool_calls: without_name(self.pending_tool_calls, tool_call_id),
                ..self
            },
            EventView::TurnEnd { message, .. } => AgentView {
                error_message: match message {
                    AgentMessage::Assistant(assistant) => match assistant.error_message {
                        Some(text) => Some(text@),
                        None => self.error_message,
                    },
                    _ => self.error_message,
                },
                ..self
            },
            EventView::AgentEnd { .. } => AgentView { streaming_message: None, ..self },
            _ => self,
        }
    }
}

impl Agent {
    /// What a run does not change.
    pub open spec fn same_setup(self, other: Agent) -> bool {
        &&& self.system_prompt == other.system_prompt
        &&& self.model == other.model
        &&& self.thinking_level == other.thinking_level
        &&& self.tools == other.tools
        &&& self.steering_queue.mode == other.steering_queue.mode
        &&& self.follow_up_queue.mode == other.follow_up_queue.mode
    }

    /// An agent that has not run. What is not given has a default; queues hand
    /// out one message at a time.
    pub fn new(
        initial_state: AgentInitialState,
        steering_mode: Option<QueueMode>,
        follow_up_mode: Option<QueueMode>,
    ) -> (r: Self)
        ensures
            initial_state.system_prompt matches Some(text) ==> r.system_prompt == text,
            initial_state.system_prompt is None ==> r.system_prompt@.len() == 0,
            initial_state.model matches Some(model) ==> r.model == model,
            initial_state.model is None ==> is_unknown(r.model),
            r.thinking_level == (match initial_state.thinking_level {
                Some(level) => level,
                None => ThinkingLevel::Off,
            }),
            initial_state.tools matches Some(tools) ==> r.tools == tools,
            initial_state.tools is None ==> r.tools@.len() == 0,
            r.steering_queue.mode == (match steering_mode {
                Some(mode) => mode,
                None => QueueMode::OneAtATime,
            }),
            r.follow_up_queue.mode == (match follow_up_mode {
                Some(mode) => mode,
                None => QueueMode::OneAtATime,
            }),
            r@ == (AgentView {
                messages: match initial_state.messages {
                    Some(messages) => messages@,
                    None => Seq::empty(),
                },
                is_streaming: false,
                streaming_message: None,
                pending_tool_calls: Seq::empty(),
                error_message: None,
                steering: Seq::empty(),
                follow_up: Seq::empty(),
                active: false,
                skip_next_poll: false,
            }),
    {
        let steering_mode: QueueMode = match steering_mode {
            Some(mode) => mode,
            None => QueueMode::OneAtATime,
        };
        let follow_up_mode: QueueMode = match follow_up_mode {
            Some(mode) => mode,
            None => QueueMode::OneAtATime,
        };
        let messages: Vec<AgentMessage> = match initial_state.messages {
            Some(messages) => messages,
            None => Vec::new(),
        };
        let r: Agent = Agent {
            system_prompt: match initial_state.system_prompt {
                Some(text) => text,
                None => String::new(),
            },
            model: match initial_state.model {
                Some(model) => model,
                None => default_model(),
            },
            thinking_level: match initial_state.thinking_level {
                Some(level) => level,
                None => ThinkingLevel::Off,
            },
            tools: match initial_state.tools {
                Some(tools) => tools,
                None => Vec::new(),
            },
            messages,
            is_streaming: false,
            streaming_message: None,
            pending_tool_calls: Vec::new(),
            error_message: None,
            steering_queue: PendingMessageQueue::new(steering_mode),
            follow_up_queue: PendingMessageQueue::new(follow_up_mode),
            active: false,
            skip_next_poll: false,
        };
        proof {
            assert(texts(r.pending_tool_calls@) =~= Seq::<Seq<char>>::empty());
            assert(r.steering_queue.messages@ =~= Seq::<AgentMessage>::empty());
            assert(r.follow_up_queue.messages@ =~= Seq::<AgentMessage>::empty());
            if initial_state.messages is None {
                assert(r.messages@ =~= Seq::<AgentMessage>::empty());
            }
        }
        r
    }

    /// Queues a message for after the current turn.
    pub fn steer(&mut self, message: AgentMessage)
        ensures
            final(self)@ == (AgentView {
                steering: old(self)@.steering.push(message),
                ..old(self)@
            }),
            final(self).same_setup(*old(self)),
    {
        self.steering_queue.enqueue(message);
    }

    /// Queues a message for when the agent would stop.
    pub fn follow_up(&mut self, message: AgentMessage)
        ensures
            final(self)@ == (AgentView {
                follow_up: old(self)@.follow_up.push(message),
                ..old(self)@
            }),
            final(self).same_setup(*old(self)),
    {
        self.follow_up_queue.enqueue(message);
    }

    /// Removes all messages queued for after the current turn.
    pub fn clear_steering_queue(&mut self)
        ensures
            final(self)@ == (AgentView { steering: Seq::empty(), ..old(self)@ }),
            final(self).same_setup(*old(self)),
    {
        self.steering_queue.clear();
        proof {
            assert(self.steering_queue.messages@ =~= Seq::<AgentMessage>::empty());
        }
    }

    /// Removes all messages queued for when the agent would stop.
    pub fn clear_follow_up_queue(&mut self)
        ensures
            final(self)@ == (AgentView { follow_up: Seq::empty(), ..old(self)@ }),
            final(self).same_setup(*old(self)),
    {
        self.follow_up_queue.clear();
        proof {
            assert(self.follow_up_queue.messages@ =~= Seq::<AgentMessage>::empty());
        }
    }

    /// Removes all queued messages.
    pub fn clear_all_queues(&mut self)
        ensures
            final(self)@ == (AgentView {
                steering: Seq::empty(),
                follow_up: Seq::empty(),
                ..old(self)@
            }),
            final(self).same_setup(*old(self)),
    {
        self.clear_steering_queue();
        self.clear_follow_up_queue();
    }

    /// Whether any messages are queued.
    pub fn has_queued_messages(&self) -> (r: bool)
        ensures
            r == (self@.steering.len() > 0 || self@.follow_up.len() > 0),
    {
        self.steering_queue.has_items() || self.follow_up_queue.has_items()
    }

    /// Clears the transcript, what a run left behind, and the queues. An agent
    /// that runs is not reset.
    pub fn reset(&mut self) -> (r: Result<(), String>)
        ensures
            r is Err <==> old(self).active,
            r matches Err(text) ==> text@ == BUSY_RESETTING@ && final(self)@ == old(self)@,
            r is Ok ==> final(self)@ == (AgentView {
                messages: Seq::empty(),
                is_streaming: false,
                streaming_message: None,
                pending_tool_calls: Seq::empty(),
                error_message: None,
                steering: Seq::empty(),
                follow_up: Seq::empty(),
                ..old(self)@
            }),
            final(self).same_setup(*old(self)),
    {
        if self.active {
            return Err(BUSY_RESETTING.to_string());
        }
        self.messages = Vec::new();
        self.is_streaming = false;
        self.streaming_message = None;
        self.pending_tool_calls = Vec::new();
        self.error_message = None;
        self.clear_all_queues();
        proof {
            assert(self.messages@ =~= Seq::<AgentMessage>::empty());
            assert(texts(self.pending_tool_calls@) =~= Seq::<Seq<char>>::empty());
        }
        Ok(())
    }

    /// The messages that a prompt starts a run with. An agent that runs takes no
    /// prompt.
    pub fn prompt(&self, input: AgentPromptInput, now: i64) -> (r: Result<
        Vec<AgentMessage>,
        String,
    >)
        ensures
            match r {
                Ok(messages) => !self.active && prompts(input, now, messages@),
                Err(text) => self.active && text@ == BUSY_PROMPTING@,
            },
    {
        if self.active {
            return Err(BUSY_PROMPTING.to_string());
        }
        Ok(normalize_prompt_input(input, now))
    }

    /// How a run goes on from the transcript: after an answer of the model with
    /// the messages that are queued, else from the last message.
    pub fn continue_(&mut self) -> (r: Result<Continuation, String>)
        ensures
            final(self).same_setup(*old(self)),
            ({
                let before = old(self)@;
                let steering = drained_count(
                    old(self).steering_queue.mode,
                    before.steering.len(),
                ) as int;
                let follow_up = drained_count(
                    old(self).follow_up_queue.mode,
                    before.follow_up.len(),
                ) as int;
                if before.active {
                    &&& r matches Err(text) && text@ == BUSY_CONTINUING@
                    &&& final(self)@ == before
                } else if before.messages.len() == 0 {
                    &&& r matches Err(text) && text@ == NOTHING_TO_CONTINUE@
                    &&& final(self)@ == before
                } else if message_role(before.messages.last()) != "assistant"@ {
                    &&& r matches Ok(Continuation::Resume)
                    &&& final(self)@ == before
                } else if before.steering.len() > 0 {
                    &&& r matches Ok(Continuation::Prompts { messages, skip_initial_poll })
                        && messages@ == before.steering.take(steering) && skip_initial_poll
                    &&& final(self)@ == (AgentView {
                        steering: before.steering.skip(steering),
                        ..before
                    })
                } else if before.follow_up.len() > 0 {
                    &&& r matches Ok(Continuation::Prompts { messages, skip_initial_poll })
                        && messages@ == before.follow_up.take(follow_up) && !skip_initial_poll
                    &&& final(self)@ == (AgentView {
                        follow_up: before.follow_up.skip(follow_up),
                        ..before
                    })
                } else {
                    &&& r matches Err(text) && text@ == LAST_IS_ASSISTANT@
                    &&& final(self)@ == before
                }
            }),
    {
        if self.active {
            return Err(BUSY_CONTINUING.to_string());
        }
        let n: usize = self.messages.len();
        if n == 0 {
            return Err(NOTHING_TO_CONTINUE.to_string());
        }
        if !same_text(self.messages[n - 1].role(), "assistant") {
            return Ok(Continuation::Resume);
        }
        let ghost before = self@;
        let steering: Vec<AgentMessage> = self.steering_queue.drain();
        if steering.len() > 0 {
            return Ok(Continuation::Prompts { messages: steering, skip_initial_poll: true });
        }
        proof {
            assert(before.steering =~= Seq::<AgentMessage>::empty());
            assert(self.steering_queue.messages@ =~= before.steering);
        }
        let follow_ups: Vec<AgentMessage> = self.follow_up_queue.drain();
        if follow_ups.len() > 0 {
            return Ok(Continuation::Prompts { messages: follow_ups, skip_initial_poll: false });
        }
        proof {
            assert(before.follow_up =~= Seq::<AgentMessage>::empty());
            assert(self.follow_up_queue.messages@ =~= before.follow_up);
        }
        Err(LAST_IS_ASSISTANT.to_string())
    }

    /// Starts a run.
    pub fn begin_run(&mut self, skip_initial_poll: bool) -> (r: Result<(), String>)
        ensures
            r is Err <==> old(self).active,
            r matches Err(text) ==> text@ == BUSY@ && final(self)@ == old(self)@,
            r is Ok ==> final(self)@ == (AgentView {
                active: true,
                is_streaming: true,
                streaming_message: None,
                error_message: None,
                skip_next_poll: skip_initial_poll,
                ..old(self)@
            }),
            final(self).same_setup(*old(self)),
    {
        if self.active {
            return Err(BUSY.to_string());
        }
        self.active = true;
        self.is_streaming = true;
        self.streaming_message = None;
        self.error_message = None;
        self.skip_next_poll = skip_initial_poll;
        Ok(())
    }

    /// The messages for the current turn. The first time none are handed out
    /// where the run started with queued ones.
    pub fn poll_steering(&mut self) -> (r: Vec<AgentMessage>)
        ensures
            final(self).same_setup(*old(self)),
            ({
                let before = old(self)@;
                let n = if before.skip_next_poll {
                    0
                } else {
                    drained_count(old(self).steering_queue.mode, before.steering.len()) as int
                };
                &&& r@ == before.steering.take(n)
                &&& final(self)@ == (AgentView {
                    steering: before.steering.skip(n),
                    skip_next_poll: false,
                    ..before
                })
            }),
    {
        if self.skip_next_poll {
            self.skip_next_poll = false;
            proof {
                assert(old(self)@.steering.take(0) =~= Seq::<AgentMessage>::empty());
                assert(old(self)@.steering.skip(0) =~= old(self)@.steering);
            }
            let none: Vec<AgentMessage> = Vec::new();
            proof {
                assert(none@ =~= Seq::<AgentMessage>::empty());
            }
            return none;
        }
        self.steering_queue.drain()
    }

    /// The messages for when the agent would stop.
    pub fn poll_follow_up(&mut self) -> (r: Vec<AgentMessage>)
        ensures
            final(self).same_setup(*old(self)),
            ({
                let n = drained_count(
                    old(self).follow_up_queue.mode,
                    old(self)@.follow_up.len(),
                ) as int;
                &&& r@ == old(self)@.follow_up.take(n)
                &&& final(self)@ == (AgentView {
                    follow_up: old(self)@.follow_up.skip(n),
                    ..old(self)@
                })
            }),
    {
        self.follow_up_queue.drain()
    }

    /// Takes an event of a run into the state. Listeners are told of it only
    /// while a run is active.
    pub fn process_event(&mut self, event: &AgentEvent) -> (r: Result<(), String>)
        ensures
            final(self)@ == old(self)@.after(event@),
            final(self).same_setup(*old(self)),
            r is Ok <==> old(self).active,
            r matches Err(text) ==> text@ == NO_ACTIVE_RUN@,
    {
        match event {
            AgentEvent::MessageStart { message } => {
                self.streaming_message = Some(message.clone());
            },
            AgentEvent::MessageUpdate { message, .. } => {
                self.streaming_message = Some(message.clone());
            },
            AgentEvent::MessageEnd { message } => {
                self.streaming_message = None;
                self.messages.push(message.clone());
            },
            AgentEvent::ToolExecutionStart { tool_call_id, .. } => {
                add_name(&mut self.pending_tool_calls, tool_call_id.as_str());
            },
            AgentEvent::ToolExecutionEnd { tool_call_id, .. } => {
                let rest: Vec<String> = remove_name(
                    &self.pending_tool_calls,
                    tool_call_id.as_str(),
                );
                self.pending_tool_calls = rest;
            },
            AgentEvent::TurnEnd { message, .. } => {
                if let AgentMessage::Assistant(assistant) = message {
                    if let Some(text) = &assistant.error_message {
                        self.error_message = Some(text.clone());
                    }
                }
            },
            AgentEvent::AgentEnd { .. } => {
                self.streaming_message = None;
            },
            _ => {},
        }
        if self.active {
            Ok(())
        } else {
            Err(NO_ACTIVE_RUN.to_string())
        }
    }

    /// Ends a run.
    pub fn finish_run(&mut self)
        ensures
            final(self)@ == (AgentView {
                active: false,
                is_streaming: false,
                streaming_message: None,
                pending_tool_calls: Seq::empty(),
                ..old(self)@
            }),
            final(self).same_setup(*old(self)),
    {
        self.is_streaming = false;
        self.streaming_message = None;
        self.pending_tool_calls = Vec::new();
        self.active = false;
        proof {
            assert(texts(self.pending_tool_calls@) =~= Seq::<Seq<char>>::empty());
        }
    }

    /// What is told of a run that failed: an empty answer that holds the reason.
    pub fn failure_events(&self, error: String, aborted: bool, now: i64) -> (r: Vec<AgentEvent>)
        ensures
            exists|message: Arc<AssistantMessage>|
                #[trigger] is_failure(*message, self.model, error@, aborted, now) && event_views(r@)
                    == failure_told(AgentMessage::Assistant(message)),
    {
        let mut content: Vec<AssistantContent> = Vec::new();
        content.push(
            AssistantContent::Text(TextContent { text: String::new(), text_signature: None }),
        );
        let message: Arc<AssistantMessage> = Arc::new(
            AssistantMessage {
                content,
                api: self.model.api.clone(),
                provider: self.model.provider.clone(),
                model: self.model.id.clone(),
                usage: Usage::default(),
                stop_reason: if aborted {
                    StopReason::Aborted
                } else {
                    StopReason::Error
                },
                error_message: Some(error),
                deferred: None,
                timestamp: now,
            },
        );
        let failure: AgentMessage = AgentMessage::Assistant(share(&message));
        let mut events: Vec<AgentEvent> = Vec::new();
        proof {
            assert(event_views(events@) =~= Seq::<EventView>::empty());
        }
        push_whole_message(&mut events, &failure);
        let none: Vec<Arc<ToolResultMessage>> = Vec::new();
        push_event(
            &mut events,
            AgentEvent::TurnEnd { message: failure.clone(), tool_results: none },
        );
        let mut all: Vec<AgentMessage> = Vec::new();
        all.push(failure.clone());
        push_event(&mut events, AgentEvent::AgentEnd { messages: all });
        proof {
            assert(none@ =~= Seq::<Arc<ToolResultMessage>>::empty());
            assert(all@ =~= seq![failure]);
            assert(is_failure(*message, self.model, error@, aborted, now));
            assert(event_views(events@) =~= failure_told(failure));
        }
        events
    }
}

/// Whether a message is the empty answer of a run that failed.
pub open spec fn is_failure(
    message: AssistantMessage,
    model: Model,
    error: Seq<char>,
    aborted: bool,
    now: i64,
) -> bool {
    &&& message.content@.len() == 1
    &&& message.content@[0] matches AssistantContent::Text(text) && text.text@.len() == 0
        && text.text_signature is None
    &&& message.api == model.api
    &&& message.provider == model.provider
    &&& message.model == model.id
    &&& message.usage == no_usage()
    &&& message.stop_reason == if aborted {
        StopReason::Aborted
    } else {
        StopReason::Error
    }
    &&& message.error_message matches Some(text) && text@ == error
    &&& message.deferred is None
    &&& message.timestamp == now
}

/// What is told of a run that failed.
pub open spec fn failure_told(failure: AgentMessage) -> Seq<EventView> {
    whole_message(failure) + seq![
        EventView::TurnEnd { message: failure, tool_results: Seq::empty() },
        EventView::AgentEnd { messages: seq![failure] },
    ]
}

/// The state after events of a run.
pub open spec fn after_all(state: AgentView, events: Seq<EventView>) -> AgentView
    decreases events.len(),
{
    if events.len() == 0 {
        state
    } else {
        after_all(state, events.drop_last()).after(events.last())
    }
}

/// The messages that events tell the end of.
pub open spec fn ended_messages(events: Seq<EventView>) -> Seq<AgentMessage>
    decreases events.len(),
{
    if events.len() == 0 {
        Seq::empty()
    } else {
        let before = ended_messages(events.drop_last());
        match events.last() {
            EventView::MessageEnd { message } => before.push(message),
            _ => before,
        }
    }
}

/// Events of a run only add to the transcript, the messages that they tell the
/// end of and in that order, and leave the queues alone.
pub proof fn law_events_only_add_ended_messages(state: AgentView, events: Seq<EventView>)
    ensures
        after_all(state, events).messages == state.messages + ended_messages(events),
        after_all(state, events).steering == state.steering,
        after_all(state, events).follow_up == state.follow_up,
        after_all(state, events).active == state.active,
    decreases events.len(),
{
    if events.len() > 0 {
        law_events_only_add_ended_messages(state, events.drop_last());
    }
    assert(after_all(state, events).messages =~= state.messages + ended_messages(events));
}

/// A call that has started and ended is no longer pending.
pub proof fn law_ended_calls_are_not_pending(state: AgentView, event: EventView)
    requires
        event is ToolExecutionEnd,
    ensures
        !state.after(event).pending_tool_calls.contains(event->ToolExecutionEnd_tool_call_id),
{
    lemma_name_is_gone(state.pending_tool_calls, event->ToolExecutionEnd_tool_call_id);
}

proof fn lemma_name_is_gone(names: Seq<Seq<char>>, name: Seq<char>)
    ensures
        !without_name(names, name).contains(name),
    decreases names.len(),
{
    if names.len() > 0 {
        lemma_name_is_gone(names.drop_last(), name);
        let rest = without_name(names.drop_last(), name);
        let all = without_name(names, name);
        assert forall|i: int| 0 <= i < all.len() implies all[i] != name by {
            if i < rest.len() {
                assert(rest.contains(rest[i]));
            }
        }
    }
}

// ---------------------------------------------------------------------------
// Reading and changing an agent
// ---------------------------------------------------------------------------

impl Agent {
    /// What the model is told before the conversation.
    pub fn system_prompt(&self) -> (r: String)
        ensures
            r@ == self.system_prompt@,
    {
        self.system_prompt.clone()
    }

    /// Replaces what the model is told before the conversation.
    pub fn set_system_prompt(&mut self, system_prompt: String)
        ensures
            *final(self) == (Agent { system_prompt, ..*old(self) }),
    {
        self.system_prompt = system_prompt;
    }

    /// The model for turns to come.
    pub fn model(&self) -> (r: Model)
        ensures
            r == self.model,
    {
        self.model.clone()
    }

    /// Replaces the model for turns to come.
    pub fn set_model(&mut self, model: Model)
        ensures
            *final(self) == (Agent { model, ..*old(self) }),
    {
        self.model = model;
    }

    /// How much the model reasons in turns to come.
    pub fn thinking_level(&self) -> (r: ThinkingLevel)
        ensures
            r == self.thinking_level,
    {
        self.thinking_level
    }

    /// Replaces how much the model reasons in turns to come.
    pub fn set_thinking_level(&mut self, thinking_level: ThinkingLevel)
        ensures
            *final(self) == (Agent { thinking_level, ..*old(self) }),
    {
        self.thinking_level = thinking_level;
    }

    /// The tools that the model can call.
    pub fn tools(&self) -> (r: &Vec<ToolMode>)
        ensures
            *r == self.tools,
    {
        &self.tools
    }

    /// Replaces the tools that the model can call.
    pub fn set_tools(&mut self, tools: Vec<ToolMode>)
        ensures
            *final(self) == (Agent { tools, ..*old(self) }),
    {
        self.tools = tools;
    }

    /// The transcript.
    pub fn messages(&self) -> (r: Vec<AgentMessage>)
        ensures
            r@ == self.messages@,
    {
        copy_messages(&self.messages)
    }

    /// Replaces the transcript.
    pub fn set_messages(&mut self, messages: Vec<AgentMessage>)
        ensures
            *final(self) == (Agent { messages, ..*old(self) }),
    {
        self.messages = messages;
    }

    /// Puts a message at the end of the transcript.
    pub fn push_message(&mut self, message: AgentMessage)
        ensures
            final(self).messages@ == old(self).messages@.push(message),
            *final(self) == (Agent { messages: final(self).messages, ..*old(self) }),
    {
        self.messages.push(message);
    }

    /// Whether a run goes on.
    pub fn is_streaming(&self) -> (r: bool)
        ensures
            r == self.is_streaming,
    {
        self.is_streaming
    }

    /// What there is of the answer that comes in.
    pub fn streaming_message(&self) -> (r: Option<AgentMessage>)
        ensures
            r == self.streaming_message,
    {
        match &self.streaming_message {
            Some(message) => Some(message.clone()),
            None => None,
        }
    }

    /// The calls that run.
    pub fn pending_tool_calls(&self) -> (r: Vec<String>)
        ensures
            texts(r@) == texts(self.pending_tool_calls@),
    {
        let r: Vec<String> = self.pending_tool_calls.clone();
        proof {
            assert(r@ =~= self.pending_tool_calls@);
        }
        r
    }

    /// Why the last turn failed, if it did.
    pub fn error_message(&self) -> (r: Option<String>)
        ensures
            text_of_option(r) == text_of_option(self.error_message),
    {
        match &self.error_message {
            Some(text) => Some(text.clone()),
            None => None,
        }
    }

    /// How many messages queued for after a turn are taken at once.
    pub fn steering_mode(&self) -> (r: QueueMode)
        ensures
            r == self.steering_queue.mode,
    {
        self.steering_queue.mode
    }

    /// Replaces how many messages queued for after a turn are taken at once.
    pub fn set_steering_mode(&mut self, mode: QueueMode)
        ensures
            *final(self) == (Agent {
                steering_queue: (PendingMessageQueue { mode, ..old(self).steering_queue }),
                ..*old(self)
            }),
    {
        self.steering_queue.mode = mode;
    }

    /// How many messages queued for when the agent would stop are taken at once.
    pub fn follow_up_mode(&self) -> (r: QueueMode)
        ensures
            r == self.follow_up_queue.mode,
    {
        self.follow_up_queue.mode
    }

    /// Replaces how many messages queued for when the agent would stop are taken at
    /// once.
    pub fn set_follow_up_mode(&mut self, mode: QueueMode)
        ensures
            *final(self) == (Agent {
                follow_up_queue: (PendingMessageQueue { mode, ..old(self).follow_up_queue }),
                ..*old(self)
            }),
    {
        self.follow_up_queue.mode = mode;
    }
}

} // verus!

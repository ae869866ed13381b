//! The loop of an agent: turns of the model, calls of tools, and messages that
//! come in meanwhile. The loop says what it needs next and what is told of it;
//! whoever runs it does the work and hands back the reply.

use std::sync::Arc;

use vstd::prelude::*;

use crate::agent::Model;
use crate::agent_events::{
    event_views, push_event, push_whole_message, push_whole_messages, whole_message,
    whole_messages, AgentEvent, EventView,
};
use crate::proxy::StreamEvent;
use crate::text::same_text;
use crate::tool_calls::{
    batch_terminates, call_end, call_start, create_tool_result_message, cut_off_events,
    cut_off_result, end_event, fail_tool_calls_from_truncated_message, result_messages,
    should_terminate_tool_batch, start_event, tells_result, FinalizedToolCall,
};
use crate::tools::result::AgentToolResult;
use crate::types::{
    collect_tool_calls, message_role, provider_reasoning, share, tool_calls_of, AgentMessage,
    AssistantMessage, Message, StopReason, ThinkingLevel, ToolCall, ToolResultMessage,
};

verus! {

/// Why a run cannot go on from nothing.
pub const NO_MESSAGES: &'static str = "Cannot continue: no messages in context";

/// Why a run cannot go on from an answer of the model.
pub const LAST_IS_ASSISTANT: &'static str = "Cannot continue from message role: assistant";

/// Why a run cannot go on from a context.
pub open spec fn continue_problem(context: Seq<AgentMessage>) -> Option<Seq<char>> {
    if context.len() == 0 {
        Some(NO_MESSAGES@)
    } else if message_role(context.last()) == "assistant"@ {
        Some(LAST_IS_ASSISTANT@)
    } else {
        None
    }
}

/// Whether a run can go on from a context.
pub fn check_continue(context: &Vec<AgentMessage>) -> (r: Result<(), String>)
    ensures
        match r {
            Ok(_) => continue_problem(context@) is None,
            Err(text) => continue_problem(context@) == Some(text@),
        },
{
    let n: usize = context.len();
    if n == 0 {
        return Err(NO_MESSAGES.to_string());
    }
    if same_text(context[n - 1].role(), "assistant") {
        return Err(LAST_IS_ASSISTANT.to_string());
    }
    Ok(())
}

// ---------------------------------------------------------------------------
// The loop
// ---------------------------------------------------------------------------

/// What the loop waits for.
#[derive(Clone, Copy, PartialEq, Eq, Structural, Debug)]
pub enum LoopStage {
    Polling,
    Preparing,
    Repolling,
    Streaming,
    Executing,
    Judging,
    FollowingUp,
    Done,
}

/// The loop of an agent.
pub struct LoopState {
    pub context: Vec<AgentMessage>,
    pub new_messages: Vec<AgentMessage>,
    pub pending: Vec<AgentMessage>,
    pub turn: Option<Arc<AssistantMessage>>,
    pub results: Vec<Arc<ToolResultMessage>>,
    pub turn_completed: bool,
    pub has_more: bool,
    pub partial: bool,
    pub stage: LoopStage,
}

/// The mathematical value of a [`LoopState`].
pub struct LoopView {
    pub context: Seq<AgentMessage>,
    pub new_messages: Seq<AgentMessage>,
    pub pending: Seq<AgentMessage>,
    pub turn: Option<Arc<AssistantMessage>>,
    pub results: Seq<Arc<ToolResultMessage>>,
    pub turn_completed: bool,
    pub has_more: bool,
    pub partial: bool,
    pub stage: LoopStage,
}

impl View for LoopState {
    type V = LoopView;

    open spec fn view(&self) -> LoopView {
        LoopView {
            context: self.context@,
            new_messages: self.new_messages@,
            pending: self.pending@,
            turn: self.turn,
            results: self.results@,
            turn_completed: self.turn_completed,
            has_more: self.has_more,
            partial: self.partial,
            stage: self.stage,
        }
    }
}

/// What the loop needs next.
pub enum LoopRequest {
    PollSteering,
    PrepareNextTurn,
    Stream,
    AwaitStream,
    ExecuteTools { calls: Vec<ToolCall> },
    JudgeTurn,
    PollFollowUp,
    Finish,
}

/// What the loop is told.
pub enum LoopReply {
    Messages(Vec<AgentMessage>),
    Prepared(Option<Vec<AgentMessage>>),
    PartialStarted(Arc<AssistantMessage>),
    PartialUpdated { partial: Arc<AssistantMessage>, event: StreamEvent },
    Answered { message: Arc<AssistantMessage>, now: i64 },
    Executed { results: Vec<Arc<ToolResultMessage>>, terminate: bool },
    Judged(bool),
}

/// Messages with the last replaced.
pub open spec fn with_last(messages: Seq<AgentMessage>, message: AgentMessage) -> Seq<
    AgentMessage,
> {
    if messages.len() > 0 {
        messages.update(messages.len() - 1, message)
    } else {
        messages
    }
}

/// A step: where the loop is, what is told, and what it needs next.
pub struct StepView {
    pub state: LoopView,
    pub events: Seq<EventView>,
    pub request: LoopRequestView,
}

/// The mathematical value of a [`LoopRequest`].
pub enum LoopRequestView {
    PollSteering,
    PrepareNextTurn,
    Stream,
    AwaitStream,
    ExecuteTools { calls: Seq<ToolCall> },
    JudgeTurn,
    PollFollowUp,
    Finish,
}

impl View for LoopRequest {
    type V = LoopRequestView;

    open spec fn view(&self) -> LoopRequestView {
        match *self {
            LoopRequest::PollSteering => LoopRequestView::PollSteering,
            LoopRequest::PrepareNextTurn => LoopRequestView::PrepareNextTurn,
            LoopRequest::Stream => LoopRequestView::Stream,
            LoopRequest::AwaitStream => LoopRequestView::AwaitStream,
            LoopRequest::ExecuteTools { calls } => LoopRequestView::ExecuteTools { calls: calls@ },
            LoopRequest::JudgeTurn => LoopRequestView::JudgeTurn,
            LoopRequest::PollFollowUp => LoopRequestView::PollFollowUp,
            LoopRequest::Finish => LoopRequestView::Finish,
        }
    }
}

impl LoopView {
    /// Pending messages go into the transcript, and the model is asked.
    pub open spec fn injected(self, events: Seq<EventView>) -> StepView {
        StepView {
            state: LoopView {
                context: self.context + self.pending,
                new_messages: self.new_messages + self.pending,
                pending: Seq::empty(),
                partial: false,
                stage: LoopStage::Streaming,
                ..self
            },
            events: events + whole_messages(self.pending),
            request: LoopRequestView::Stream,
        }
    }

    /// A turn begins: the first at once, each further one after preparation.
    pub open spec fn entered(self) -> StepView {
        if self.turn_completed {
            StepView {
                state: LoopView { stage: LoopStage::Preparing, ..self },
                events: Seq::empty(),
                request: LoopRequestView::PrepareNextTurn,
            }
        } else {
            self.injected(Seq::empty())
        }
    }

    /// The run is over.
    pub open spec fn ended(self, events: Seq<EventView>) -> StepView {
        StepView {
            state: LoopView { stage: LoopStage::Done, ..self },
            events: events.push(EventView::AgentEnd { messages: self.new_messages }),
            request: LoopRequestView::Finish,
        }
    }

    /// A turn is over: its results go into the transcript.
    pub open spec fn turn_ended(
        self,
        message: Arc<AssistantMessage>,
        results: Seq<Arc<ToolResultMessage>>,
        has_more: bool,
        events: Seq<EventView>,
    ) -> StepView {
        StepView {
            state: LoopView {
                context: self.context + result_messages(results),
                new_messages: self.new_messages + result_messages(results),
                results,
                has_more,
                turn_completed: true,
                stage: LoopStage::Judging,
                ..self
            },
            events: events.push(
                EventView::TurnEnd {
                    message: AgentMessage::Assistant(message),
                    tool_results: results,
                },
            ),
            request: LoopRequestView::JudgeTurn,
        }
    }

    /// The answer of the model goes into the transcript, in place of what was
    /// there of it.
    pub open spec fn answered(self, message: Arc<AssistantMessage>) -> (LoopView, Seq<EventView>) {
        let m = AgentMessage::Assistant(message);
        (
            LoopView {
                context: if self.partial {
                    with_last(self.context, m)
                } else {
                    self.context.push(m)
                },
                new_messages: self.new_messages.push(m),
                turn: Some(message),
                ..self
            },
            if self.partial {
                seq![EventView::MessageEnd { message: m }]
            } else {
                whole_message(m)
            },
        )
    }

    /// Whether a reply is one that the loop waits for.
    pub open spec fn expects(self, reply: LoopReply) -> bool {
        match self.stage {
            LoopStage::Polling | LoopStage::Repolling | LoopStage::FollowingUp => reply is Messages,
            LoopStage::Preparing => reply is Prepared,
            LoopStage::Streaming => reply is PartialStarted || reply is PartialUpdated || reply
                is Answered,
            LoopStage::Executing => reply is Executed && self.turn is Some,
            LoopStage::Judging => reply is Judged,
            LoopStage::Done => false,
        }
    }

    /// What a reply leads to.
    pub open spec fn leads_to(self, reply: LoopReply, step: StepView) -> bool {
        match (self.stage, reply) {
            (LoopStage::Polling, LoopReply::Messages(messages)) => {
                let now = LoopView { pending: messages@, ..self };
                step == if self.has_more || messages@.len() > 0 {
                    now.entered()
                } else {
                    StepView {
                        state: LoopView { stage: LoopStage::FollowingUp, ..now },
                        events: Seq::empty(),
                        request: LoopRequestView::PollFollowUp,
                    }
                }
            },
            (LoopStage::Preparing, LoopReply::Prepared(context)) => {
                let now = LoopView {
                    context: match context {
                        Some(messages) => messages@,
                        None => self.context,
                    },
                    ..self
                };
                step == if self.pending.len() == 0 {
                    StepView {
                        state: LoopView { stage: LoopStage::Repolling, ..now },
                        events: Seq::empty(),
                        request: LoopRequestView::PollSteering,
                    }
                } else {
                    now.injected(seq![EventView::TurnStart])
                }
            },
            (LoopStage::Repolling, LoopReply::Messages(messages)) => step == (LoopView {
                pending: messages@,
                ..self
            }).injected(seq![EventView::TurnStart]),
            (LoopStage::Streaming, LoopReply::PartialStarted(partial)) => {
                let m = AgentMessage::Assistant(partial);
                step == (StepView {
                    state: LoopView { context: self.context.push(m), partial: true, ..self },
                    events: seq![EventView::MessageStart { message: m }],
                    request: LoopRequestView::AwaitStream,
                })
            },
            (LoopStage::Streaming, LoopReply::PartialUpdated { partial, event }) => {
                let m = AgentMessage::Assistant(partial);
                step == if self.partial {
                    StepView {
                        state: LoopView { context: with_last(self.context, m), ..self },
                        events: seq![
                            EventView::MessageUpdate {
                                message: m,
                                assistant_message_event: event@,
                            },
                        ],
                        request: LoopRequestView::AwaitStream,
                    }
                } else {
                    StepView {
                        state: self,
                        events: Seq::empty(),
                        request: LoopRequestView::AwaitStream,
                    }
                }
            },
            (LoopStage::Streaming, LoopReply::Answered { message, now }) => {
                let (state, told) = self.answered(message);
                let calls = tool_calls_of(message.content@);
                if message.stop_reason == StopReason::Error || message.stop_reason
                    == StopReason::Aborted {
                    step == state.ended(
                        told.push(
                            EventView::TurnEnd {
                                message: AgentMessage::Assistant(message),
                                tool_results: Seq::empty(),
                            },
                        ),
                    )
                } else if calls.len() == 0 {
                    step == state.turn_ended(message, Seq::empty(), false, told)
                } else if message.stop_reason == StopReason::Length {
                    let results = step.state.results;
                    &&& results.len() == calls.len()
                    &&& forall|i: int|
                        0 <= i < results.len() ==> tells_result(
                            *(#[trigger] results[i]),
                            calls[i],
                            cut_off_result(calls[i]),
                            true,
                            now,
                        )
                    &&& step == state.turn_ended(
                        message,
                        results,
                        true,
                        told + cut_off_events(calls, results),
                    )
                } else {
                    step == (StepView {
                        state: LoopView { stage: LoopStage::Executing, ..state },
                        events: told,
                        request: LoopRequestView::ExecuteTools { calls },
                    })
                }
            },
            (LoopStage::Executing, LoopReply::Executed { results, terminate }) => step
                == self.turn_ended(self.turn->0, results@, !terminate, Seq::empty()),
            (LoopStage::Judging, LoopReply::Judged(stop)) => step == if stop {
                self.ended(Seq::empty())
            } else {
                StepView {
                    state: LoopView { stage: LoopStage::Polling, ..self },
                    events: Seq::empty(),
                    request: LoopRequestView::PollSteering,
                }
            },
            (LoopStage::FollowingUp, LoopReply::Messages(messages)) => {
                let now = LoopView { pending: messages@, ..self };
                step == if messages@.len() > 0 {
                    LoopView { has_more: true, ..now }.entered()
                } else {
                    now.ended(Seq::empty())
                }
            },
            _ => false,
        }
    }

    /// Before the first turn.
    pub open spec fn start(context: Seq<AgentMessage>, prompts: Seq<AgentMessage>) -> LoopView {
        LoopView {
            context: context + prompts,
            new_messages: prompts,
            pending: Seq::empty(),
            turn: None,
            results: Seq::empty(),
            turn_completed: false,
            has_more: true,
            partial: false,
            stage: LoopStage::Polling,
        }
    }
}

pub(crate) fn copy_messages(messages: &Vec<AgentMessage>) -> (r: Vec<AgentMessage>)
    ensures
        r@ == messages@,
{
    let r: Vec<AgentMessage> = messages.clone();
    proof {
        assert(r@ =~= messages@);
    }
    r
}

fn append_messages(to: &mut Vec<AgentMessage>, messages: &Vec<AgentMessage>)
    ensures
        final(to)@ == old(to)@ + messages@,
{
    let mut copy: Vec<AgentMessage> = copy_messages(messages);
    to.append(&mut copy);
}

fn append_results(to: &mut Vec<AgentMessage>, results: &Vec<Arc<ToolResultMessage>>)
    ensures
        final(to)@ == old(to)@ + result_messages(results@),
{
    let ghost before = to@;
    let mut i: usize = 0;
    proof {
        assert(to@ =~= before + result_messages(results@).take(0));
    }
    while i < results.len()
        invariant
            i <= results@.len(),
            to@ == before + result_messages(results@).take(i as int),
        decreases results@.len() - i,
    {
        to.push(AgentMessage::ToolResult(share(&results[i])));
        proof {
            assert(to@ =~= before + result_messages(results@).take(i + 1));
        }
        i = i + 1;
    }
    proof {
        assert(result_messages(results@).take(results@.len() as int) =~= result_messages(
            results@,
        ));
    }
}

fn replace_last(messages: &mut Vec<AgentMessage>, message: AgentMessage)
    ensures
        final(messages)@ == with_last(old(messages)@, message),
{
    let n: usize = messages.len();
    if n > 0 {
        messages.set(n - 1, message);
    }
}

impl LoopState {
    /// The state, the events and the request of a step.
    pub open spec fn step(self, events: Seq<AgentEvent>, request: LoopRequest) -> StepView {
        StepView { state: self@, events: event_views(events), request: request@ }
    }

    /// Starts a run with prompts.
    pub fn start(context: Vec<AgentMessage>, prompts: Vec<AgentMessage>) -> (r: (
        LoopState,
        Vec<AgentEvent>,
        LoopRequest,
    ))
        ensures
            r.0@ == LoopView::start(context@, prompts@),
            event_views(r.1@) == seq![EventView::AgentStart, EventView::TurnStart]
                + whole_messages(prompts@),
            r.2 is PollSteering,
    {
        let mut events: Vec<AgentEvent> = Vec::new();
        proof {
            assert(event_views(events@) =~= Seq::<EventView>::empty());
        }
        push_event(&mut events, AgentEvent::AgentStart);
        push_event(&mut events, AgentEvent::TurnStart);
        proof {
            assert(event_views(events@) =~= seq![EventView::AgentStart, EventView::TurnStart]);
        }
        push_whole_messages(&mut events, &prompts);
        let mut context: Vec<AgentMessage> = context;
        append_messages(&mut context, &prompts);
        let state: LoopState = LoopState {
            context,
            new_messages: prompts,
            pending: Vec::new(),
            turn: None,
            results: Vec::new(),
            turn_completed: false,
            has_more: true,
            partial: false,
            stage: LoopStage::Polling,
        };
        proof {
            assert(state.pending@ =~= Seq::<AgentMessage>::empty());
            assert(state.results@ =~= Seq::<Arc<ToolResultMessage>>::empty());
        }
        (state, events, LoopRequest::PollSteering)
    }

    fn inject(&mut self, events: Vec<AgentEvent>) -> (r: (Vec<AgentEvent>, LoopRequest))
        ensures
            final(self).step(r.0@, r.1) == old(self)@.injected(event_views(events@)),
    {
        let mut events: Vec<AgentEvent> = events;
        push_whole_messages(&mut events, &self.pending);
        let mut pending: Vec<AgentMessage> = Vec::new();
        std::mem::swap(&mut pending, &mut self.pending);
        append_messages(&mut self.context, &pending);
        append_messages(&mut self.new_messages, &pending);
        self.partial = false;
        self.stage = LoopStage::Streaming;
        proof {
            assert(self.pending@ =~= Seq::<AgentMessage>::empty());
        }
        (events, LoopRequest::Stream)
    }

    fn enter(&mut self) -> (r: (Vec<AgentEvent>, LoopRequest))
        ensures
            final(self).step(r.0@, r.1) == old(self)@.entered(),
    {
        let none: Vec<AgentEvent> = Vec::new();
        proof {
            assert(event_views(none@) =~= Seq::<EventView>::empty());
        }
        if self.turn_completed {
            self.stage = LoopStage::Preparing;
            (none, LoopRequest::PrepareNextTurn)
        } else {
            self.inject(none)
        }
    }

    fn end(&mut self, events: Vec<AgentEvent>) -> (r: (Vec<AgentEvent>, LoopRequest))
        ensures
            final(self).step(r.0@, r.1) == old(self)@.ended(event_views(events@)),
    {
        let mut events: Vec<AgentEvent> = events;
        push_event(
            &mut events,
            AgentEvent::AgentEnd { messages: copy_messages(&self.new_messages) },
        );
        self.stage = LoopStage::Done;
        (events, LoopRequest::Finish)
    }

    fn end_turn(
        &mut self,
        message: Arc<AssistantMessage>,
        results: Vec<Arc<ToolResultMessage>>,
        has_more: bool,
        events: Vec<AgentEvent>,
    ) -> (r: (Vec<AgentEvent>, LoopRequest))
        ensures
            final(self).step(r.0@, r.1) == old(self)@.turn_ended(
                message,
                results@,
                has_more,
                event_views(events@),
            ),
    {
        let mut events: Vec<AgentEvent> = events;
        append_results(&mut self.context, &results);
        append_results(&mut self.new_messages, &results);
        let told: Vec<Arc<ToolResultMessage>> = share_all(&results);
        push_event(
            &mut events,
            AgentEvent::TurnEnd {
                message: AgentMessage::Assistant(message),
                tool_results: told,
            },
        );
        self.results = results;
        self.has_more = has_more;
        self.turn_completed = true;
        self.stage = LoopStage::Judging;
        (events, LoopRequest::JudgeTurn)
    }

    fn take_answer(&mut self, message: &Arc<AssistantMessage>) -> (r: Vec<AgentEvent>)
        ensures
            (final(self)@, event_views(r@)) == old(self)@.answered(*message),
    {
        let m: AgentMessage = AgentMessage::Assistant(share(message));
        let mut events: Vec<AgentEvent> = Vec::new();
        proof {
            assert(event_views(events@) =~= Seq::<EventView>::empty());
        }
        if self.partial {
            replace_last(&mut self.context, m.clone());
            push_event(&mut events, AgentEvent::MessageEnd { message: m.clone() });
            proof {
                assert(event_views(events@) =~= seq![EventView::MessageEnd { message: m }]);
            }
        } else {
            self.context.push(m.clone());
            push_whole_message(&mut events, &m);
            proof {
                assert(event_views(events@) =~= whole_message(m));
            }
        }
        self.new_messages.push(m);
        self.turn = Some(share(message));
        events
    }

    fn on_answer(&mut self, message: Arc<AssistantMessage>, now: i64) -> (r: (
        Vec<AgentEvent>,
        LoopRequest,
    ))
        requires
            old(self).stage == LoopStage::Streaming,
        ensures
            old(self)@.leads_to(
                LoopReply::Answered { message, now },
                final(self).step(r.0@, r.1),
            ),
    {
        let mut events: Vec<AgentEvent> = self.take_answer(&message);
        if message.stop_reason == StopReason::Error || message.stop_reason
            == StopReason::Aborted {
            let none: Vec<Arc<ToolResultMessage>> = Vec::new();
            proof {
                assert(none@ =~= Seq::<Arc<ToolResultMessage>>::empty());
            }
            push_event(
                &mut events,
                AgentEvent::TurnEnd {
                    message: AgentMessage::Assistant(message),
                    tool_results: none,
                },
            );
            return self.end(events);
        }
        let calls: Vec<ToolCall> = collect_tool_calls(&message.content);
        if calls.len() == 0 {
            let none: Vec<Arc<ToolResultMessage>> = Vec::new();
            proof {
                assert(none@ =~= Seq::<Arc<ToolResultMessage>>::empty());
            }
            return self.end_turn(message, none, false, events);
        }
        if message.stop_reason == StopReason::Length {
            let results: Vec<Arc<ToolResultMessage>> = fail_tool_calls_from_truncated_message(
                &calls,
                now,
                &mut events,
            );
            return self.end_turn(message, results, true, events);
        }
        self.stage = LoopStage::Executing;
        (events, LoopRequest::ExecuteTools { calls })
    }

    /// Takes a reply that the loop waits for: says what is told, and what is
    /// needed next.
    pub fn next(&mut self, reply: LoopReply) -> (r: (Vec<AgentEvent>, LoopRequest))
        requires
            old(self)@.expects(reply),
        ensures
            old(self)@.leads_to(reply, final(self).step(r.0@, r.1)),
    {
        let none: Vec<AgentEvent> = Vec::new();
        proof {
            assert(event_views(none@) =~= Seq::<EventView>::empty());
        }
        let stage: LoopStage = self.stage;
        match reply {
            LoopReply::Messages(messages) => {
                let any: bool = messages.len() > 0;
                self.pending = messages;
                if stage == LoopStage::Repolling {
                    let mut events: Vec<AgentEvent> = none;
                    push_event(&mut events, AgentEvent::TurnStart);
                    proof {
                        assert(event_views(events@) =~= seq![EventView::TurnStart]);
                    }
                    self.inject(events)
                } else if stage == LoopStage::Polling {
                    if self.has_more || any {
                        self.enter()
                    } else {
                        self.stage = LoopStage::FollowingUp;
                        (none, LoopRequest::PollFollowUp)
                    }
                } else if any {
                    self.has_more = true;
                    self.enter()
                } else {
                    self.end(none)
                }
            },
            LoopReply::Prepared(context) => {
                match context {
                    Some(messages) => {
                        self.context = messages;
                    },
                    None => {},
                }
                if self.pending.len() == 0 {
                    self.stage = LoopStage::Repolling;
                    (none, LoopRequest::PollSteering)
                } else {
                    let mut events: Vec<AgentEvent> = none;
                    push_event(&mut events, AgentEvent::TurnStart);
                    proof {
                        assert(event_views(events@) =~= seq![EventView::TurnStart]);
                    }
                    self.inject(events)
                }
            },
            LoopReply::PartialStarted(partial) => {
                let m: AgentMessage = AgentMessage::Assistant(partial);
                self.context.push(m.clone());
                self.partial = true;
                let mut events: Vec<AgentEvent> = none;
                push_event(&mut events, AgentEvent::MessageStart { message: m });
                proof {
                    assert(event_views(events@) =~= seq![EventView::MessageStart { message: m }]);
                }
                (events, LoopRequest::AwaitStream)
            },
            LoopReply::PartialUpdated { partial, event } => {
                if !self.partial {
                    return (none, LoopRequest::AwaitStream);
                }
                let m: AgentMessage = AgentMessage::Assistant(partial);
                replace_last(&mut self.context, m.clone());
                let mut events: Vec<AgentEvent> = none;
                let ghost told = EventView::MessageUpdate {
                    message: m,
                    assistant_message_event: event@,
                };
                push_event(
                    &mut events,
                    AgentEvent::MessageUpdate { message: m, assistant_message_event: event },
                );
                proof {
                    assert(event_views(events@) =~= seq![told]);
                }
                (events, LoopRequest::AwaitStream)
            },
            LoopReply::Answered { message, now } => self.on_answer(message, now),
            LoopReply::Executed { results, terminate } => {
                let message: Arc<AssistantMessage> = match &self.turn {
                    Some(message) => share(message),
                    None => {
                        return (none, LoopRequest::Finish);
                    },
                };
                self.end_turn(message, results, !terminate, none)
            },
            LoopReply::Judged(stop) => {
                if stop {
                    self.end(none)
                } else {
                    self.stage = LoopStage::Polling;
                    (none, LoopRequest::PollSteering)
                }
            },
        }
    }
}

fn share_all(results: &Vec<Arc<ToolResultMessage>>) -> (r: Vec<Arc<ToolResultMessage>>)
    ensures
        r@ == results@,
{
    let mut out: Vec<Arc<ToolResultMessage>> = Vec::new();
    let mut i: usize = 0;
    while i < results.len()
        invariant
            i <= results@.len(),
            out@ == results@.take(i as int),
        decreases results@.len() - i,
    {
        out.push(share(&results[i]));
        proof {
            assert(out@ =~= results@.take(i + 1));
        }
        i = i + 1;
    }
    proof {
        assert(results@.take(results@.len() as int) =~= results@);
    }
    out
}

// ---------------------------------------------------------------------------
// What the loop promises
// ---------------------------------------------------------------------------

/// A run that is over has told of its end last, with all new messages, and asks
/// for nothing more; a run that is not over has not told of its end.
pub proof fn law_runs_end_with_their_messages(
    state: LoopView,
    reply: LoopReply,
    step: StepView,
)
    requires
        state.expects(reply),
        state.leads_to(reply, step),
    ensures
        step.state.stage is Done <==> step.request is Finish,
        step.state.stage is Done ==> step.events.len() > 0 && step.events.last()
            == (EventView::AgentEnd { messages: step.state.new_messages }),
        !(step.state.stage is Done) ==> forall|i: int|
            0 <= i < step.events.len() ==> !((#[trigger] step.events[i]) is AgentEnd),
{
    if !(step.state.stage is Done) {
        lemma_whole_messages_go_on(step.state.context);
        match reply {
            LoopReply::Messages(messages) => {
                lemma_whole_messages_go_on(messages@);
            },
            LoopReply::Prepared(_) => {
                lemma_whole_messages_go_on(state.pending);
            },
            LoopReply::Answered { message, now } => {
                lemma_cut_off_goes_on(tool_calls_of(message.content@), step.state.results);
            },
            _ => {},
        }
    }
}

proof fn lemma_whole_messages_go_on(messages: Seq<AgentMessage>)
    ensures
        forall|i: int|
            0 <= i < whole_messages(messages).len() ==> !((#[trigger] whole_messages(messages)[i])
                is AgentEnd),
    decreases messages.len(),
{
    if messages.len() > 0 {
        lemma_whole_messages_go_on(messages.drop_last());
    }
}

proof fn lemma_cut_off_goes_on(calls: Seq<ToolCall>, results: Seq<Arc<ToolResultMessage>>)
    ensures
        forall|i: int|
            0 <= i < cut_off_events(calls, results).len() ==> !((#[trigger] cut_off_events(
                calls,
                results,
            )[i]) is AgentEnd),
    decreases calls.len(),
{
    if calls.len() > 0 {
        lemma_cut_off_goes_on(calls.drop_last(), results);
    }
}

/// What a step adds to the new messages of a run it adds to the transcript too,
/// where no part of an answer stands there yet and no one replaces it.
pub proof fn law_new_messages_join_the_transcript(
    state: LoopView,
    reply: LoopReply,
    step: StepView,
)
    requires
        state.expects(reply),
        state.leads_to(reply, step),
        !state.partial,
        !(reply is PartialStarted),
        !(reply is Prepared),
    ensures
        step.state.new_messages.len() >= state.new_messages.len(),
        step.state.context == state.context + step.state.new_messages.skip(
            state.new_messages.len() as int,
        ),
{
    let added = step.state.new_messages.skip(state.new_messages.len() as int);
    assert(step.state.context =~= state.context + added);
}

/// Every call of a message that was cut off gets exactly one result, an error,
/// and none of them is run.
pub proof fn law_cut_off_calls_are_not_run(
    state: LoopView,
    message: Arc<AssistantMessage>,
    now: i64,
    step: StepView,
)
    requires
        state.stage == LoopStage::Streaming,
        state.leads_to(LoopReply::Answered { message, now }, step),
        message.stop_reason == StopReason::Length,
    ensures
        !(step.request is ExecuteTools),
        step.state.results.len() == tool_calls_of(message.content@).len(),
        forall|i: int|
            0 <= i < step.state.results.len() ==> (#[trigger] step.state.results[i]).is_error,
{
}

// ---------------------------------------------------------------------------
// Batches of calls
// ---------------------------------------------------------------------------

/// Calls that are run one after the other.
pub struct SequentialBatch {
    pub calls: Vec<ToolCall>,
    pub finalized: Vec<FinalizedToolCall>,
    pub messages: Vec<Arc<ToolResultMessage>>,
    pub stopped: bool,
}

impl SequentialBatch {
    /// Each call that has a result has a message that tells it.
    pub open spec fn wf(self) -> bool {
        &&& self.finalized@.len() == self.messages@.len()
        &&& self.finalized@.len() <= self.calls@.len()
        &&& forall|i: int|
            0 <= i < self.finalized@.len() ==> (#[trigger] self.finalized@[i]).call
                == self.calls@[i]
    }

    /// Whether there is a call to run.
    pub open spec fn is_open(self) -> bool {
        !self.stopped && self.finalized@.len() < self.calls@.len()
    }

    /// Before the first call.
    pub fn start(calls: Vec<ToolCall>) -> (r: Self)
        ensures
            r.wf(),
            r.calls == calls,
            r.finalized@.len() == 0,
            !r.stopped,
    {
        SequentialBatch { calls, finalized: Vec::new(), messages: Vec::new(), stopped: false }
    }

    /// The next call to run, and what is told of it.
    pub fn next_call(&self) -> (r: Option<(ToolCall, AgentEvent)>)
        requires
            self.wf(),
        ensures
            match r {
                Some(started) => self.is_open() && started.0
                    == self.calls@[self.finalized@.len() as int] && started.1@ == call_start(
                    started.0,
                ),
                None => !self.is_open(),
            },
    {
        let i: usize = self.finalized.len();
        if self.stopped || i >= self.calls.len() {
            return None;
        }
        Some((self.calls[i].clone(), start_event(&self.calls[i])))
    }

    /// Takes the result of the call that ran. An abort keeps further calls from
    /// running.
    pub fn finish_call(&mut self, finalized: FinalizedToolCall, now: i64, aborted: bool) -> (r: Vec<
        AgentEvent,
    >)
        requires
            old(self).wf(),
            old(self).is_open(),
            finalized.call == old(self).calls@[old(self).finalized@.len() as int],
        ensures
            final(self).wf(),
            final(self).calls == old(self).calls,
            final(self).finalized@ == old(self).finalized@.push(finalized),
            final(self).messages@.len() == old(self).messages@.len() + 1,
            final(self).messages@.drop_last() == old(self).messages@,
            tells_result(
                *final(self).messages@.last(),
                finalized.call,
                finalized.result@,
                finalized.is_error,
                now,
            ),
            final(self).stopped == aborted,
            event_views(r@) == seq![
                call_end(finalized.call, finalized.result@, finalized.is_error),
            ] + whole_message(AgentMessage::ToolResult(final(self).messages@.last())),
    {
        let mut events: Vec<AgentEvent> = Vec::new();
        proof {
            assert(event_views(events@) =~= Seq::<EventView>::empty());
        }
        push_event(&mut events, end_event(&finalized));
        proof {
            assert(event_views(events@) =~= seq![
                call_end(finalized.call, finalized.result@, finalized.is_error),
            ]);
        }
        let message: Arc<ToolResultMessage> = Arc::new(create_tool_result_message(&finalized, now));
        push_whole_message(&mut events, &AgentMessage::ToolResult(share(&message)));
        self.finalized.push(finalized);
        self.messages.push(message);
        self.stopped = aborted;
        proof {
            assert(self.messages@.drop_last() =~= old(self).messages@);
        }
        events
    }

    /// The results, and whether the agent stops after them.
    pub fn close(self) -> (r: (Vec<Arc<ToolResultMessage>>, bool))
        ensures
            r.0@ == self.messages@,
            r.1 == batch_terminates(self.finalized@),
    {
        let terminate: bool = should_terminate_tool_batch(&self.finalized);
        (self.messages, terminate)
    }
}

/// Calls that are run at the same time.
pub struct ParallelBatch {
    pub calls: Vec<ToolCall>,
    pub outcomes: Vec<Option<FinalizedToolCall>>,
    pub stopped: bool,
}

impl ParallelBatch {
    /// Each result is that of the call in its place.
    pub open spec fn wf(self) -> bool {
        &&& self.outcomes@.len() <= self.calls@.len()
        &&& forall|i: int|
            0 <= i < self.outcomes@.len() ==> ((#[trigger] self.outcomes@[i]) matches Some(outcome)
                ==> outcome.call == self.calls@[i])
    }

    /// Whether there is a call to start.
    pub open spec fn is_open(self) -> bool {
        !self.stopped && self.outcomes@.len() < self.calls@.len()
    }

    /// Whether a call was started and has no result yet.
    pub open spec fn awaits(self, i: int) -> bool {
        0 <= i < self.outcomes@.len() && self.outcomes@[i] is None
    }

    /// Before the first call.
    pub fn start(calls: Vec<ToolCall>) -> (r: Self)
        ensures
            r.wf(),
            r.calls == calls,
            r.outcomes@.len() == 0,
            !r.stopped,
    {
        ParallelBatch { calls, outcomes: Vec::new(), stopped: false }
    }

    /// The next call to start, and what is told of it.
    pub fn next_call(&self) -> (r: Option<(ToolCall, AgentEvent)>)
        requires
            self.wf(),
        ensures
            match r {
                Some(started) => self.is_open() && started.0
                    == self.calls@[self.outcomes@.len() as int] && started.1@ == call_start(
                    started.0,
                ),
                None => !self.is_open(),
            },
    {
        let i: usize = self.outcomes.len();
        if self.stopped || i >= self.calls.len() {
            return None;
        }
        Some((self.calls[i].clone(), start_event(&self.calls[i])))
    }

    /// Takes the call that was started. One that is refused has its result at
    /// once, an error. An abort keeps further calls from starting.
    pub fn place_call(&mut self, refused: Option<AgentToolResult>, aborted: bool) -> (r: Vec<
        AgentEvent,
    >)
        requires
            old(self).wf(),
            old(self).is_open(),
        ensures
            final(self).wf(),
            final(self).calls == old(self).calls,
            final(self).stopped == aborted,
            ({
                let i = old(self).outcomes@.len() as int;
                let call = old(self).calls@[i];
                match refused {
                    Some(result) => {
                        &&& final(self).outcomes@ == old(self).outcomes@.push(
                            Some(FinalizedToolCall { call, result, is_error: true }),
                        )
                        &&& event_views(r@) == seq![call_end(call, result@, true)]
                    },
                    None => {
                        &&& final(self).outcomes@ == old(self).outcomes@.push(None)
                        &&& event_views(r@) == Seq::<EventView>::empty()
                    },
                }
            }),
    {
        let mut events: Vec<AgentEvent> = Vec::new();
        proof {
            assert(event_views(events@) =~= Seq::<EventView>::empty());
        }
        let i: usize = self.outcomes.len();
        match refused {
            Some(result) => {
                let finalized: FinalizedToolCall = FinalizedToolCall {
                    call: self.calls[i].clone(),
                    result,
                    is_error: true,
                };
                push_event(&mut events, end_event(&finalized));
                proof {
                    assert(event_views(events@) =~= seq![
                        call_end(finalized.call, finalized.result@, true),
                    ]);
                }
                self.outcomes.push(Some(finalized));
            },
            None => {
                self.outcomes.push(None);
            },
        }
        self.stopped = aborted;
        events
    }

    /// The places of the calls that were started and have no result yet, in
    /// order.
    pub fn pending_calls(&self) -> (r: Vec<usize>)
        ensures
            forall|k: int| 0 <= k < r@.len() ==> self.awaits((#[trigger] r@[k]) as int),
            forall|k: int, l: int| 0 <= k < l < r@.len() ==> (#[trigger] r@[k]) < (#[trigger] r@[l]),
            forall|i: int| #[trigger] self.awaits(i) ==> r@.contains(i as usize),
    {
        let mut places: Vec<usize> = Vec::new();
        let mut i: usize = 0;
        while i < self.outcomes.len()
            invariant
                i <= self.outcomes@.len(),
                forall|k: int|
                    0 <= k < places@.len() ==> self.awaits((#[trigger] places@[k]) as int)
                        && places@[k] < i,
                forall|k: int, l: int|
                    0 <= k < l < places@.len() ==> (#[trigger] places@[k]) < (#[trigger] places@[l]),
                forall|j: int| #[trigger] self.awaits(j) && j < i ==> places@.contains(j as usize),
            decreases self.outcomes@.len() - i,
        {
            if self.outcomes[i].is_none() {
                let ghost before = places@;
                places.push(i);
                proof {
                    assert forall|j: int| #[trigger] self.awaits(j) && j < i + 1 implies places@.contains(
                        j as usize,
                    ) by {
                        if j == i {
                            assert(places@[before.len() as int] == i);
                        } else {
                            let k = choose|k: int| 0 <= k < before.len() && before[k] == j as usize;
                            assert(before.contains(j as usize));
                            assert(places@[k] == j as usize);
                        }
                    }
                }
            }
            i = i + 1;
        }
        places
    }

    /// Takes the result of a call that ran, and tells of it.
    pub fn settle(&mut self, index: usize, finalized: FinalizedToolCall) -> (r: AgentEvent)
        requires
            old(self).wf(),
            old(self).awaits(index as int),
            finalized.call == old(self).calls@[index as int],
        ensures
            final(self).wf(),
            final(self).calls == old(self).calls,
            final(self).stopped == old(self).stopped,
            final(self).outcomes@ == old(self).outcomes@.update(index as int, Some(finalized)),
            r@ == call_end(finalized.call, finalized.result@, finalized.is_error),
    {
        let event: AgentEvent = end_event(&finalized);
        self.outcomes.set(index, Some(finalized));
        event
    }

    /// The results in the order of the calls, whatever the order in which they
    /// came, what is told of them, and whether the agent stops after them.
    pub fn close(self, now: i64) -> (r: (Vec<Arc<ToolResultMessage>>, Vec<AgentEvent>, bool))
        requires
            self.wf(),
            forall|i: int| !self.awaits(i),
        ensures
            r.0@.len() == self.outcomes@.len(),
            forall|i: int|
                0 <= i < r.0@.len() ==> tells_result(
                    *(#[trigger] r.0@[i]),
                    self.calls@[i],
                    self.outcomes@[i]->0.result@,
                    self.outcomes@[i]->0.is_error,
                    now,
                ),
            event_views(r.1@) == whole_messages(result_messages(r.0@)),
            r.2 == batch_terminates(
                Seq::new(self.outcomes@.len(), |i: int| self.outcomes@[i]->0),
            ),
    {
        let ghost all = self.outcomes@;
        let mut rest: Vec<Option<FinalizedToolCall>> = self.outcomes;
        let mut finalized: Vec<FinalizedToolCall> = Vec::new();
        proof {
            assert(all.skip(0) =~= all);
        }
        while rest.len() > 0
            invariant
                finalized@.len() + rest@.len() == all.len(),
                rest@ == all.skip(finalized@.len() as int),
                all == self.outcomes@,
                forall|i: int| !self.awaits(i),
                forall|i: int|
                    0 <= i < finalized@.len() ==> all[i] == Some(#[trigger] finalized@[i]),
            decreases rest@.len(),
        {
            let ghost n = finalized@.len() as int;
            let first: Option<FinalizedToolCall> = rest.remove(0);
            proof {
                assert(!self.awaits(n));
                assert(first == all[n]);
                assert(rest@ =~= all.skip(n + 1));
            }
            match first {
                Some(outcome) => {
                    finalized.push(outcome);
                },
                None => {},
            }
        }
        proof {
            assert(Seq::new(all.len(), |i: int| all[i]->0) =~= finalized@);
            assert forall|i: int| 0 <= i < all.len() implies finalized@[i].call == self.calls@[i] by {
                assert(all[i] == Some(finalized@[i]));
            }
        }
        close_parallel_batch(&finalized, now)
    }
}

/// The messages of calls that ran at the same time, in the order of the calls,
/// what is told of them, and whether the agent stops after them.
fn close_parallel_batch(finalized: &Vec<FinalizedToolCall>, now: i64) -> (r: (
    Vec<Arc<ToolResultMessage>>,
    Vec<AgentEvent>,
    bool,
))
    ensures
        r.0@.len() == finalized@.len(),
        forall|i: int|
            0 <= i < r.0@.len() ==> tells_result(
                *(#[trigger] r.0@[i]),
                finalized@[i].call,
                finalized@[i].result@,
                finalized@[i].is_error,
                now,
            ),
        event_views(r.1@) == whole_messages(result_messages(r.0@)),
        r.2 == batch_terminates(finalized@),
{
    let mut messages: Vec<Arc<ToolResultMessage>> = Vec::new();
    let mut events: Vec<AgentEvent> = Vec::new();
    let mut i: usize = 0;
    proof {
        assert(result_messages(messages@) =~= Seq::<AgentMessage>::empty());
        assert(event_views(events@) =~= Seq::<EventView>::empty());
    }
    while i < finalized.len()
        invariant
            i <= finalized@.len(),
            messages@.len() == i,
            forall|k: int|
                0 <= k < i ==> tells_result(
                    *(#[trigger] messages@[k]),
                    finalized@[k].call,
                    finalized@[k].result@,
                    finalized@[k].is_error,
                    now,
                ),
            event_views(events@) == whole_messages(result_messages(messages@)),
        decreases finalized@.len() - i,
    {
        let ghost held = messages@;
        let message: Arc<ToolResultMessage> = Arc::new(
            create_tool_result_message(&finalized[i], now),
        );
        push_whole_message(&mut events, &AgentMessage::ToolResult(share(&message)));
        messages.push(message);
        proof {
            assert(result_messages(messages@).drop_last() =~= result_messages(held));
        }
        i = i + 1;
    }
    (messages, events, should_terminate_tool_batch(finalized))
}

// ---------------------------------------------------------------------------
// Messages for the model
// ---------------------------------------------------------------------------

/// A message as the model sees it, if it does.
pub open spec fn seen_by_model(message: AgentMessage) -> Option<Message> {
    match message {
        AgentMessage::User(m) => Some(Message::User(m)),
        AgentMessage::Assistant(m) => Some(Message::Assistant(m)),
        AgentMessage::ToolResult(m) => Some(Message::ToolResult(m)),
        AgentMessage::Custom(_) => None,
    }
}

/// The messages that the model sees: all but those of the application.
pub open spec fn passed_through(messages: Seq<AgentMessage>) -> Seq<Message>
    decreases messages.len(),
{
    if messages.len() == 0 {
        Seq::empty()
    } else {
        let before = passed_through(messages.drop_last());
        match seen_by_model(messages.last()) {
            Some(m) => before.push(m),
            None => before,
        }
    }
}

/// The messages that the model sees: all but those of the application.
pub fn pass_through_llm_messages(messages: Vec<AgentMessage>) -> (r: Vec<Message>)
    ensures
        r@ == passed_through(messages@),
{
    let mut out: Vec<Message> = Vec::new();
    let mut i: usize = 0;
    proof {
        assert(messages@.take(0) =~= Seq::<AgentMessage>::empty());
    }
    while i < messages.len()
        invariant
            i <= messages@.len(),
            out@ == passed_through(messages@.take(i as int)),
        decreases messages@.len() - i,
    {
        proof {
            assert(messages@.take(i + 1).drop_last() =~= messages@.take(i as int));
            assert(messages@.take(i + 1).last() == messages@[i as int]);
        }
        match &messages[i] {
            AgentMessage::User(m) => {
                out.push(Message::User(share(m)));
            },
            AgentMessage::Assistant(m) => {
                out.push(Message::Assistant(share(m)));
            },
            AgentMessage::ToolResult(m) => {
                out.push(Message::ToolResult(share(m)));
            },
            AgentMessage::Custom(_) => {},
        }
        i = i + 1;
    }
    proof {
        assert(messages@.take(messages@.len() as int) =~= messages@);
    }
    out
}

// ---------------------------------------------------------------------------
// Settings of a turn
// ---------------------------------------------------------------------------

/// What a model is asked with.
pub struct TurnSettings {
    pub model: Model,
    pub reasoning: Option<ThinkingLevel>,
}

/// What a hook changes before a turn.
pub struct TurnUpdate {
    pub model: Option<Model>,
    pub thinking_level: Option<ThinkingLevel>,
}

impl TurnSettings {
    /// Takes what a hook changes before a turn; the rest stays.
    pub fn update(&mut self, update: TurnUpdate)
        ensures
            final(self).model == match update.model {
                Some(model) => model,
                None => old(self).model,
            },
            final(self).reasoning == match update.thinking_level {
                Some(level) => provider_reasoning(level),
                None => old(self).reasoning,
            },
    {
        match update.model {
            Some(model) => {
                self.model = model;
            },
            None => {},
        }
        match update.thinking_level {
            Some(level) => {
                self.reasoning = level.as_provider_reasoning();
            },
            None => {},
        }
    }
}

/// The key that a provider is asked with: a fresh one that holds something, or
/// else the configured one.
pub fn resolve_api_key(configured: Option<String>, fresh: Option<String>) -> (r: Option<String>)
    ensures
        r == match fresh {
            Some(key) => if key@.len() > 0 {
                fresh
            } else {
                configured
            },
            None => configured,
        },
{
    match fresh {
        Some(key) => if key.as_str().unicode_len() > 0 {
            Some(key)
        } else {
            configured
        },
        None => configured,
    }
}

} // verus!

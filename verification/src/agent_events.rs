//! What an agent tells of its work.

use std::sync::Arc;

use vstd::prelude::*;

use crate::json::{Json, JsonView};
use crate::proxy::{StreamEvent, StreamEventView};
use crate::tools::result::{AgentToolResult, ToolResultView};
use crate::types::{AgentMessage, ToolResultMessage};

verus! {

/// What an agent tells of its work.
pub enum AgentEvent {
    AgentStart,
    TurnStart,
    MessageStart { message: AgentMessage },
    MessageUpdate { message: AgentMessage, assistant_message_event: StreamEvent },
    MessageEnd { message: AgentMessage },
    ToolExecutionStart { tool_call_id: String, tool_name: String, args: Json },
    ToolExecutionUpdate {
        tool_call_id: String,
        tool_name: String,
        args: Json,
        partial_result: AgentToolResult,
    },
    ToolExecutionEnd {
        tool_call_id: String,
        tool_name: String,
        result: AgentToolResult,
        is_error: bool,
    },
    TurnEnd { message: AgentMessage, tool_results: Vec<Arc<ToolResultMessage>> },
    AgentEnd { messages: Vec<AgentMessage> },
}

/// The mathematical value of an [`AgentEvent`].
pub enum EventView {
    AgentStart,
    TurnStart,
    MessageStart { message: AgentMessage },
    MessageUpdate { message: AgentMessage, assistant_message_event: StreamEventView },
    MessageEnd { message: AgentMessage },
    ToolExecutionStart { tool_call_id: Seq<char>, tool_name: Seq<char>, args: JsonView },
    ToolExecutionUpdate {
        tool_call_id: Seq<char>,
        tool_name: Seq<char>,
        args: JsonView,
        partial_result: ToolResultView,
    },
    ToolExecutionEnd {
        tool_call_id: Seq<char>,
        tool_name: Seq<char>,
        result: ToolResultView,
        is_error: bool,
    },
    TurnEnd { message: AgentMessage, tool_results: Seq<Arc<ToolResultMessage>> },
    AgentEnd { messages: Seq<AgentMessage> },
}

impl View for AgentEvent {
    type V = EventView;

    open spec fn view(&self) -> EventView {
        match *self {
            AgentEvent::AgentStart => EventView::AgentStart,
            AgentEvent::TurnStart => EventView::TurnStart,
            AgentEvent::MessageStart { message } => EventView::MessageStart { message },
            AgentEvent::MessageUpdate { message, assistant_message_event } =>
                EventView::MessageUpdate {
                message,
                assistant_message_event: assistant_message_event@,
            },
            AgentEvent::MessageEnd { message } => EventView::MessageEnd { message },
            AgentEvent::ToolExecutionStart { tool_call_id, tool_name, args } =>
                EventView::ToolExecutionStart {
                tool_call_id: tool_call_id@,
                tool_name: tool_name@,
                args: args@,
            },
            AgentEvent::ToolExecutionUpdate { tool_call_id, tool_name, args, partial_result } =>
                EventView::ToolExecutionUpdate {
                tool_call_id: tool_call_id@,
                tool_name: tool_name@,
                args: args@,
                partial_result: partial_result@,
            },
            AgentEvent::ToolExecutionEnd { tool_call_id, tool_name, result, is_error } =>
                EventView::ToolExecutionEnd {
                tool_call_id: tool_call_id@,
                tool_name: tool_name@,
                result: result@,
                is_error,
            },
            AgentEvent::TurnEnd { message, tool_results } => EventView::TurnEnd {
                message,
                tool_results: tool_results@,
            },
            AgentEvent::AgentEnd { messages } => EventView::AgentEnd { messages: messages@ },
        }
    }
}

/// The mathematical values of events.
pub open spec fn event_views(s: Seq<AgentEvent>) -> Seq<EventView> {
    Seq::new(s.len(), |i: int| s[i]@)
}

/// Adds an event at the end.
pub fn push_event(events: &mut Vec<AgentEvent>, event: AgentEvent)
    ensures
        event_views(final(events)@) == event_views(old(events)@).push(event@),
{
    let ghost before = events@;
    events.push(event);
    proof {
        assert(event_views(events@) =~= event_views(before).push(event@));
    }
}

/// What is told of a message that is complete.
pub open spec fn whole_message(message: AgentMessage) -> Seq<EventView> {
    seq![EventView::MessageStart { message }, EventView::MessageEnd { message }]
}

/// What is told of messages that are complete.
pub open spec fn whole_messages(messages: Seq<AgentMessage>) -> Seq<EventView>
    decreases messages.len(),
{
    if messages.len() == 0 {
        Seq::empty()
    } else {
        whole_messages(messages.drop_last()) + whole_message(messages.last())
    }
}

/// Tells of a message that is complete.
pub fn push_whole_message(events: &mut Vec<AgentEvent>, message: &AgentMessage)
    ensures
        event_views(final(events)@) == event_views(old(events)@) + whole_message(*message),
{
    let ghost before = event_views(events@);
    push_event(events, AgentEvent::MessageStart { message: message.clone() });
    push_event(events, AgentEvent::MessageEnd { message: message.clone() });
    proof {
        assert(event_views(events@) =~= before + whole_message(*message));
    }
}

/// Tells of messages that are complete.
pub fn push_whole_messages(events: &mut Vec<AgentEvent>, messages: &Vec<AgentMessage>)
    ensures
        event_views(final(events)@) == event_views(old(events)@) + whole_messages(messages@),
{
    let ghost before = event_views(events@);
    let mut i: usize = 0;
    proof {
        assert(messages@.take(0) =~= Seq::<AgentMessage>::empty());
        assert(before + whole_messages(messages@.take(0)) =~= before);
    }
    while i < messages.len()
        invariant
            i <= messages@.len(),
            event_views(events@) == before + whole_messages(messages@.take(i as int)),
        decreases messages@.len() - i,
    {
        push_whole_message(events, &messages[i]);
        proof {
            assert(messages@.take(i + 1).drop_last() =~= messages@.take(i as int));
            assert(messages@.take(i + 1).last() == messages@[i as int]);
            assert(event_views(events@) =~= before + whole_messages(messages@.take(i + 1)));
        }
        i = i + 1;
    }
    proof {
        assert(messages@.take(messages@.len() as int) =~= messages@);
    }
}

} // verus!

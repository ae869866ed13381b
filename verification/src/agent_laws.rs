//! What holds of the state of an agent as a run goes on.

use vstd::prelude::*;

use crate::agent::{
    after_all, drained_count, failure_told, is_failure, prompts, with_name, without_name,
    AgentPromptInput, AgentView, Model,
};
use crate::agent_events::EventView;
use crate::types::{
    text_block_view, AgentMessage, AgentMessageView, AssistantMessage, BlockView, QueueMode,
    StopReason, UserContentView,
};

verus! {

// ---------------------------------------------------------------------------
// Queues
// ---------------------------------------------------------------------------

/// A queue hands out all its messages at once, or the first, and hands out none
/// only when it is empty.
pub proof fn law_queues_hand_out_what_is_due(messages: Seq<AgentMessage>)
    ensures
        ({
            let all = drained_count(QueueMode::All, messages.len()) as int;
            let one = drained_count(QueueMode::OneAtATime, messages.len()) as int;
            &&& messages.take(all) == messages
            &&& messages.skip(all).len() == 0
            &&& messages.len() > 0 ==> messages.take(one) == seq![messages[0]] && messages.skip(one)
                == messages.drop_first()
            &&& messages.len() == 0 ==> one == 0
        }),
{
    let all = drained_count(QueueMode::All, messages.len()) as int;
    let one = drained_count(QueueMode::OneAtATime, messages.len()) as int;
    assert(messages.take(all) =~= messages);
    if messages.len() > 0 {
        assert(messages.take(one) =~= seq![messages[0]]);
        assert(messages.skip(one) =~= messages.drop_first());
    }
}

// ---------------------------------------------------------------------------
// Events
// ---------------------------------------------------------------------------

proof fn lemma_others_stay(names: Seq<Seq<char>>, name: Seq<char>, other: Seq<char>)
    ensures
        without_name(names, name).contains(other) <==> names.contains(other) && other != name,
    decreases names.len(),
{
    if names.len() > 0 {
        let front = names.drop_last();
        lemma_others_stay(front, name, other);
        let rest = without_name(front, name);
        if names.contains(other) && !front.contains(other) {
            let i = choose|i: int| 0 <= i < names.len() && names[i] == other;
            if i < front.len() {
                assert(front[i] == other);
            }
            assert(names.last() == other);
        }
        if front.contains(other) {
            let i = choose|i: int| 0 <= i < front.len() && front[i] == other;
            assert(names[i] == other);
        }
        if names.last() != name {
            let all = rest.push(names.last());
            if all.contains(other) {
                let i = choose|i: int| 0 <= i < all.len() && all[i] == other;
                if i < rest.len() {
                    assert(rest[i] == other);
                } else {
                    assert(names[names.len() - 1] == other);
                }
            }
            if rest.contains(other) {
                let i = choose|i: int| 0 <= i < rest.len() && rest[i] == other;
                assert(all[i] == other);
            }
            if names.last() == other {
                assert(all[rest.len() as int] == other);
            }
        }
    }
}

proof fn lemma_one_more_name(names: Seq<Seq<char>>, name: Seq<char>, other: Seq<char>)
    ensures
        with_name(names, name).contains(other) <==> names.contains(other) || other == name,
{
    if !names.contains(name) {
        let all = names.push(name);
        assert(all[names.len() as int] == name);
        if names.contains(other) {
            let i = choose|i: int| 0 <= i < names.len() && names[i] == other;
            assert(all[i] == other);
        }
        if all.contains(other) {
            let i = choose|i: int| 0 <= i < all.len() && all[i] == other;
            if i < names.len() {
                assert(names[i] == other);
            }
        }
    }
}

/// A call is pending from when it starts until it ends, whatever happens to
/// other calls.
pub proof fn law_calls_are_pending_until_they_end(state: AgentView, event: EventView, id: Seq<char>)
    ensures
        ({
            let starts = event matches EventView::ToolExecutionStart { tool_call_id, .. }
                && tool_call_id == id;
            let ends = event matches EventView::ToolExecutionEnd { tool_call_id, .. }
                && tool_call_id == id;
            state.after(event).pending_tool_calls.contains(id) <==> starts
                || state.pending_tool_calls.contains(id) && !ends
        }),
{
    match event {
        EventView::ToolExecutionStart { tool_call_id, .. } => {
            lemma_one_more_name(state.pending_tool_calls, tool_call_id, id);
        },
        EventView::ToolExecutionEnd { tool_call_id, .. } => {
            lemma_others_stay(state.pending_tool_calls, tool_call_id, id);
        },
        _ => {},
    }
}

/// The message that comes in is the one that was told last, until it ends or
/// the run does.
pub proof fn law_the_message_that_comes_in_is_shown(state: AgentView, event: EventView)
    ensures
        state.after(event).streaming_message == match event {
            EventView::MessageStart { message } => Some(message),
            EventView::MessageUpdate { message, .. } => Some(message),
            EventView::MessageEnd { .. } => None,
            EventView::AgentEnd { .. } => None,
            EventView::AgentStart => state.streaming_message,
            EventView::TurnStart => state.streaming_message,
            EventView::TurnEnd { .. } => state.streaming_message,
            EventView::ToolExecutionStart { .. } => state.streaming_message,
            EventView::ToolExecutionUpdate { .. } => state.streaming_message,
            EventView::ToolExecutionEnd { .. } => state.streaming_message,
        },
{
}

/// A message joins the transcript when it ends, at its end, and no other event
/// changes the transcript.
pub proof fn law_ended_messages_join_the_transcript(state: AgentView, event: EventView)
    ensures
        event matches EventView::MessageEnd { message } ==> state.after(event).messages
            == state.messages.push(message),
        !(event is MessageEnd) ==> state.after(event).messages == state.messages,
        state.after(event).is_streaming == state.is_streaming,
        state.after(event).skip_next_poll == state.skip_next_poll,
        state.after(event).active == state.active,
        state.after(event).steering == state.steering,
        state.after(event).follow_up == state.follow_up,
{
}

/// The error of an agent is that of the last turn that ended with one.
pub proof fn law_errors_of_turns_are_kept(state: AgentView, event: EventView)
    ensures
        ({
            let error = match event {
                EventView::TurnEnd { message: AgentMessage::Assistant(m), .. } => m.error_message,
                _ => None,
            };
            match error {
                Some(text) => state.after(event).error_message == Some(text@),
                None => state.after(event).error_message == state.error_message,
            }
        }),
{
}

/// A run that fails ends with an empty answer of its model that tells why: the
/// transcript gains it, the error is that one, and no message comes in.
pub proof fn law_failed_runs_leave_their_error(
    state: AgentView,
    message: std::sync::Arc<AssistantMessage>,
    model: Model,
    error: Seq<char>,
    aborted: bool,
    now: i64,
)
    requires
        is_failure(*message, model, error, aborted, now),
    ensures
        ({
            let failure = AgentMessage::Assistant(message);
            let after = after_all(state, failure_told(failure));
            &&& after.messages == state.messages.push(failure)
            &&& after.error_message == Some(error)
            &&& after.streaming_message is None
            &&& after.pending_tool_calls == state.pending_tool_calls
            &&& failure_told(failure).last() == (EventView::AgentEnd { messages: seq![failure] })
        }),
        message.stop_reason == StopReason::Aborted <==> aborted,
        message.stop_reason == StopReason::Error <==> !aborted,
        message.model == model.id,
        message.provider == model.provider,
        message.api == model.api,
        message.timestamp == now,
{
    let failure = AgentMessage::Assistant(message);
    let told = failure_told(failure);
    reveal_with_fuel(after_all, 5);
    assert(told.len() == 4);
    assert(told[0] == EventView::MessageStart { message: failure });
    assert(told[1] == EventView::MessageEnd { message: failure });
    assert(told.drop_last().last() == told[2]);
    assert(told.drop_last().drop_last().last() == told[1]);
    assert(told.drop_last().drop_last().drop_last().last() == told[0]);
    assert(told.drop_last().drop_last().drop_last().drop_last() =~= Seq::<EventView>::empty());
}

// ---------------------------------------------------------------------------
// Prompts
// ---------------------------------------------------------------------------

/// A prompt of messages is those messages; one of a text is one message of the
/// user that holds the text and then each image.
pub proof fn law_prompts_hold_what_was_given(
    input: AgentPromptInput,
    now: i64,
    messages: Seq<AgentMessage>,
)
    requires
        prompts(input, now, messages),
    ensures
        match input {
            AgentPromptInput::Messages(given) => messages == given@,
            AgentPromptInput::Message(message) => messages == seq![message],
            AgentPromptInput::Text { text, images } => {
                &&& messages.len() == 1
                &&& messages[0]@ matches AgentMessageView::User {
                    content: UserContentView::Blocks(blocks),
                    timestamp,
                } && {
                    &&& timestamp == now
                    &&& blocks.len() == 1 + images@.len()
                    &&& blocks[0] == text_block_view(text@)
                    &&& forall|i: int|
                        0 <= i < images@.len() ==> #[trigger] blocks[i + 1] == (BlockView::Image {
                            data: images@[i].data@,
                            mime_type: images@[i].mime_type@,
                        })
                }
            },
        },
{
}

} // verus!

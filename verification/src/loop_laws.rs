//! What holds of every run of the loop: no message is lost, each is told, turns
//! are balanced, and what the loop asks for follows from what it was told.

use vstd::prelude::*;

use crate::agent_events::{whole_message, whole_messages, EventView};
use crate::agent_loop::{continue_problem, passed_through, LoopReply, LoopRequestView, LoopView, StepView};
use crate::tool_calls::{cut_off_events, result_messages};
use crate::types::{
    tool_calls_of, AgentMessage, AssistantContent, AssistantMessage, Message, StopReason, ToolCall,
    ToolResultMessage,
};

use std::sync::Arc;

verus! {

// ---------------------------------------------------------------------------
// Parts
// ---------------------------------------------------------------------------

/// Each message is told by its start and its end, one after the other and in
/// order.
pub proof fn law_messages_start_and_end(messages: Seq<AgentMessage>)
    ensures
        whole_messages(messages).len() == 2 * messages.len(),
        forall|i: int|
            0 <= i < messages.len() ==> {
                &&& whole_messages(messages)[2 * i] == (EventView::MessageStart {
                    message: #[trigger] messages[i],
                })
                &&& whole_messages(messages)[2 * i + 1] == (EventView::MessageEnd {
                    message: messages[i],
                })
            },
    decreases messages.len(),
{
    if messages.len() > 0 {
        let front = messages.drop_last();
        law_messages_start_and_end(front);
        assert forall|i: int| 0 <= i < messages.len() implies {
            &&& whole_messages(messages)[2 * i] == (EventView::MessageStart {
                message: #[trigger] messages[i],
            })
            &&& whole_messages(messages)[2 * i + 1] == (EventView::MessageEnd {
                message: messages[i],
            })
        } by {
            if i < front.len() {
                assert(front[i] == messages[i]);
            }
        }
    }
}

/// The calls of an answer are those in its content, each once and in their order:
/// what stands in two parts of a content stands in the whole, and nothing but a
/// call is one.
pub proof fn law_answers_hold_their_calls(
    front: Seq<AssistantContent>,
    back: Seq<AssistantContent>,
    item: AssistantContent,
)
    ensures
        tool_calls_of(front + back) == tool_calls_of(front) + tool_calls_of(back),
        tool_calls_of(seq![item]) == match item {
            AssistantContent::ToolCall(call) => seq![call],
            _ => Seq::empty(),
        },
    decreases back.len(),
{
    if back.len() == 0 {
        assert(front + back =~= front);
        assert(tool_calls_of(front) + tool_calls_of(back) =~= tool_calls_of(front));
    } else {
        law_answers_hold_their_calls(front, back.drop_last(), item);
        assert((front + back).drop_last() =~= front + back.drop_last());
        assert(tool_calls_of(front + back) =~= tool_calls_of(front) + tool_calls_of(back));
    }
    reveal_with_fuel(tool_calls_of, 2);
    assert(seq![item].drop_last() =~= Seq::<AssistantContent>::empty());
    assert(tool_calls_of(seq![item]) =~= match item {
        AssistantContent::ToolCall(call) => seq![call],
        _ => Seq::empty(),
    });
}

/// The messages that events tell the end of, in order.
pub open spec fn ended_messages(events: Seq<EventView>) -> Seq<AgentMessage>
    decreases events.len(),
{
    if events.len() == 0 {
        Seq::empty()
    } else {
        let before = ended_messages(events.drop_last());
        match events.last() {
            EventView::MessageEnd { message } => before.push(message),
            _ => before,
        }
    }
}

/// How many turns events begin, less those that they end.
pub open spec fn turns_opened(events: Seq<EventView>) -> int
    decreases events.len(),
{
    if events.len() == 0 {
        0
    } else {
        turns_opened(events.drop_last()) + match events.last() {
            EventView::TurnStart => 1int,
            EventView::TurnEnd { .. } => -1,
            _ => 0,
        }
    }
}

proof fn lemma_events_concat(a: Seq<EventView>, b: Seq<EventView>)
    ensures
        ended_messages(a + b) == ended_messages(a) + ended_messages(b),
        turns_opened(a + b) == turns_opened(a) + turns_opened(b),
    decreases b.len(),
{
    if b.len() == 0 {
        assert(a + b =~= a);
        assert(ended_messages(a) + ended_messages(b) =~= ended_messages(a));
    } else {
        lemma_events_concat(a, b.drop_last());
        assert((a + b).drop_last() =~= a + b.drop_last());
        assert(ended_messages(a + b) =~= ended_messages(a) + ended_messages(b));
    }
}

proof fn lemma_one_event(event: EventView)
    ensures
        ended_messages(seq![event]) == match event {
            EventView::MessageEnd { message } => seq![message],
            _ => Seq::empty(),
        },
        turns_opened(seq![event]) == match event {
            EventView::TurnStart => 1int,
            EventView::TurnEnd { .. } => -1,
            _ => 0,
        },
{
    reveal_with_fuel(ended_messages, 2);
    reveal_with_fuel(turns_opened, 2);
    assert(seq![event].drop_last() =~= Seq::<EventView>::empty());
    assert(ended_messages(seq![event]) =~= match event {
        EventView::MessageEnd { message } => seq![message],
        _ => Seq::empty(),
    });
}

proof fn lemma_push_event(events: Seq<EventView>, event: EventView)
    ensures
        ended_messages(events.push(event)) == match event {
            EventView::MessageEnd { message } => ended_messages(events).push(message),
            _ => ended_messages(events),
        },
        turns_opened(events.push(event)) == turns_opened(events) + match event {
            EventView::TurnStart => 1int,
            EventView::TurnEnd { .. } => -1,
            _ => 0,
        },
{
    assert(events.push(event).drop_last() =~= events);
}

proof fn lemma_whole_message(message: AgentMessage)
    ensures
        ended_messages(whole_message(message)) == seq![message],
        turns_opened(whole_message(message)) == 0,
{
    let start = EventView::MessageStart { message };
    let end = EventView::MessageEnd { message };
    lemma_one_event(start);
    lemma_push_event(seq![start], end);
    assert(whole_message(message) =~= seq![start].push(end));
    assert(ended_messages(whole_message(message)) =~= seq![message]);
}

proof fn lemma_whole_messages(messages: Seq<AgentMessage>)
    ensures
        ended_messages(whole_messages(messages)) == messages,
        turns_opened(whole_messages(messages)) == 0,
    decreases messages.len(),
{
    if messages.len() > 0 {
        lemma_whole_messages(messages.drop_last());
        lemma_whole_message(messages.last());
        lemma_events_concat(whole_messages(messages.drop_last()), whole_message(messages.last()));
        assert(ended_messages(whole_messages(messages)) =~= messages);
    } else {
        assert(ended_messages(whole_messages(messages)) =~= messages);
    }
}

proof fn lemma_cut_off_events(calls: Seq<ToolCall>, results: Seq<Arc<ToolResultMessage>>)
    requires
        calls.len() <= results.len(),
    ensures
        ended_messages(cut_off_events(calls, results)) == result_messages(
            results.take(calls.len() as int),
        ),
        turns_opened(cut_off_events(calls, results)) == 0,
    decreases calls.len(),
{
    if calls.len() > 0 {
        let last = calls.len() - 1;
        let message = AgentMessage::ToolResult(results[last]);
        let front = cut_off_events(calls.drop_last(), results);
        let all = cut_off_events(calls, results);
        let n = front.len() as int;
        lemma_cut_off_events(calls.drop_last(), results);
        lemma_push_event(front, all[n]);
        lemma_push_event(front.push(all[n]), all[n + 1]);
        lemma_whole_message(message);
        lemma_events_concat(front.push(all[n]).push(all[n + 1]), whole_message(message));
        assert(all =~= front.push(all[n]).push(all[n + 1]) + whole_message(message));
        assert(ended_messages(all) =~= result_messages(results.take(calls.len() as int)));
    } else {
        assert(ended_messages(cut_off_events(calls, results)) =~= result_messages(
            results.take(0),
        ));
    }
}

// ---------------------------------------------------------------------------
// States of a run
// ---------------------------------------------------------------------------

/// What holds of a run between two steps. Messages wait only while a turn is
/// prepared; a part of an answer stands at the end of the transcript; the answer
/// whose calls are run is the last message; nothing but the first turn begins
/// without another before it; and follow-ups are asked for when the tools want
/// nothing more.
pub open spec fn consistent(state: LoopView) -> bool {
    &&& state.pending.len() > 0 ==> state.stage is Preparing
    &&& state.stage is Streaming && state.partial ==> state.context.len() > 0
    &&& state.stage is Executing ==> state.turn is Some && state.context.len() > 0
        && state.new_messages.len() > 0 && state.context.last() == AgentMessage::Assistant(
        state.turn->0,
    ) && state.new_messages.last() == AgentMessage::Assistant(state.turn->0)
    &&& !state.turn_completed ==> (state.stage is Polling && state.has_more) || state.stage
        is Streaming || state.stage is Executing || state.stage is Done
    &&& state.stage is FollowingUp ==> !state.has_more
}

/// A run is consistent from its first step on.
pub proof fn law_runs_stay_consistent(state: LoopView, reply: LoopReply, step: StepView)
    requires
        consistent(state),
        state.expects(reply),
        state.leads_to(reply, step),
    ensures
        consistent(step.state),
{
}

/// A run begins with the transcript and the prompts behind it; the prompts are
/// its first new messages, none waits, and the tools may want more.
pub proof fn law_runs_begin_with_their_prompts(
    context: Seq<AgentMessage>,
    prompts: Seq<AgentMessage>,
)
    ensures
        consistent(LoopView::start(context, prompts)),
        LoopView::start(context, prompts).context == context + prompts,
        LoopView::start(context, prompts).new_messages == prompts,
        LoopView::start(context, prompts).stage is Polling,
        LoopView::start(context, prompts).has_more,
        !LoopView::start(context, prompts).turn_completed,
{
}

// ---------------------------------------------------------------------------
// Messages
// ---------------------------------------------------------------------------

/// Results as messages of the transcript.
pub open spec fn as_messages(results: Seq<Arc<ToolResultMessage>>) -> Seq<AgentMessage> {
    results.map_values(|result: Arc<ToolResultMessage>| AgentMessage::ToolResult(result))
}

/// The messages that a reply brings into a run: those that were queued, an answer
/// with the results of its calls if it was cut off, and the results of calls.
pub open spec fn brought(reply: LoopReply, step: StepView) -> Seq<AgentMessage> {
    match reply {
        LoopReply::Messages(messages) => messages@,
        LoopReply::Answered { message, .. } => seq![AgentMessage::Assistant(message)]
            + if message.stop_reason == StopReason::Length {
            as_messages(step.state.results)
        } else {
            Seq::empty()
        },
        LoopReply::Executed { results, .. } => as_messages(results@),
        _ => Seq::empty(),
    }
}

/// The transcript that a reply builds on: the one that was prepared, if one was;
/// without the part of an answer that a whole answer replaces.
pub open spec fn built_on(state: LoopView, reply: LoopReply) -> Seq<AgentMessage> {
    match reply {
        LoopReply::Prepared(Some(context)) => context@,
        LoopReply::Answered { .. } => if state.partial {
            state.context.drop_last()
        } else {
            state.context
        },
        _ => state.context,
    }
}

/// No message is lost and none is made up: what a reply brings, and what waited
/// before, goes to the end of the transcript and of the new messages, or waits
/// while a turn is prepared.
pub proof fn law_no_message_is_lost(state: LoopView, reply: LoopReply, step: StepView)
    requires
        consistent(state),
        state.expects(reply),
        state.leads_to(reply, step),
    ensures
        step.state.new_messages + step.state.pending == state.new_messages + state.pending
            + brought(reply, step),
        !(reply is PartialStarted) && !(reply is PartialUpdated) ==> step.state.context
            + step.state.pending == built_on(state, reply) + state.pending + brought(reply, step),
        step.state.pending.len() > 0 ==> step.request is PrepareNextTurn,
{
    if let LoopReply::Answered { message, .. } = reply {
        assert(as_messages(step.state.results) =~= result_messages(step.state.results));
        if state.partial {
            let m = AgentMessage::Assistant(message);
            assert(state.context.update(state.context.len() - 1, m)
                =~= state.context.drop_last().push(m));
        }
    }
    if let LoopReply::Executed { results, .. } = reply {
        assert(as_messages(results@) =~= result_messages(results@));
    }
    assert(step.state.new_messages + step.state.pending =~= state.new_messages + state.pending
        + brought(reply, step));
    if !(reply is PartialStarted) && !(reply is PartialUpdated) {
        assert(step.state.context + step.state.pending =~= built_on(state, reply) + state.pending
            + brought(reply, step));
    }
}

/// Messages that were queued are in the transcript before the model is asked
/// again, at its end and told: at once in a first turn, and otherwise when the
/// next turn was prepared.
pub proof fn law_queued_messages_reach_the_model(
    state: LoopView,
    messages: Vec<AgentMessage>,
    polled: StepView,
    prepared: Option<Vec<AgentMessage>>,
    step: StepView,
)
    requires
        consistent(state),
        state.stage is Polling || state.stage is FollowingUp,
        messages@.len() > 0,
        state.leads_to(LoopReply::Messages(messages), polled),
        polled.request is PrepareNextTurn ==> polled.state.leads_to(
            LoopReply::Prepared(prepared),
            step,
        ),
        !(polled.request is PrepareNextTurn) ==> step == polled,
    ensures
        step.request is Stream,
        step.state.new_messages == state.new_messages + messages@,
        step.state.context == (match prepared {
            Some(context) if polled.request is PrepareNextTurn => context@,
            _ => state.context,
        }) + messages@,
        ended_messages(step.events) == messages@,
{
    lemma_whole_messages(messages@);
    lemma_one_event(EventView::TurnStart);
    lemma_events_concat(seq![EventView::TurnStart], whole_messages(messages@));
    lemma_events_concat(Seq::empty(), whole_messages(messages@));
    assert(ended_messages(step.events) =~= messages@);
}

/// Every message that joins a run is told, in order and once; the results of
/// calls that were run are told as they come, so they are not told again.
pub proof fn law_new_messages_are_told(state: LoopView, reply: LoopReply, step: StepView)
    requires
        state.expects(reply),
        state.leads_to(reply, step),
    ensures
        state.new_messages + ended_messages(step.events) + (match reply {
            LoopReply::Executed { results, .. } => as_messages(results@),
            _ => Seq::empty(),
        }) == step.state.new_messages,
{
    lemma_step_events(state, reply, step);
    if let LoopReply::Executed { results, .. } = reply {
        assert(as_messages(results@) =~= result_messages(results@));
    }
    assert(state.new_messages + ended_messages(step.events) + (match reply {
        LoopReply::Executed { results, .. } => as_messages(results@),
        _ => Seq::empty(),
    }) =~= step.state.new_messages);
}

/// Whether a turn is under way.
pub open spec fn in_turn(state: LoopView) -> bool {
    state.stage is Streaming || state.stage is Executing || (state.stage is Polling
        && !state.turn_completed)
}

/// Turns that begin are told and end: a turn is begun before the model is asked
/// and ended before the loop goes on, and none is begun within another.
pub proof fn law_turns_are_balanced(state: LoopView, reply: LoopReply, step: StepView)
    requires
        consistent(state),
        state.expects(reply),
        state.leads_to(reply, step),
    ensures
        turns_opened(step.events) == (if in_turn(step.state) {
            1int
        } else {
            0
        }) - (if in_turn(state) {
            1int
        } else {
            0
        }),
{
    lemma_step_events(state, reply, step);
}

proof fn lemma_step_events(state: LoopView, reply: LoopReply, step: StepView)
    requires
        state.expects(reply),
        state.leads_to(reply, step),
    ensures
        ended_messages(step.events) == (match reply {
            LoopReply::Messages(messages) => if step.request is Stream {
                messages@
            } else {
                Seq::empty()
            },
            LoopReply::Prepared(_) => state.pending,
            LoopReply::Answered { message, .. } => seq![AgentMessage::Assistant(message)]
                + if message.stop_reason == StopReason::Length {
                result_messages(step.state.results)
            } else {
                Seq::empty()
            },
            _ => Seq::empty(),
        }),
        turns_opened(step.events) == (match reply {
            LoopReply::Messages(_) => if state.stage is Repolling {
                1int
            } else {
                0
            },
            LoopReply::Prepared(_) => if state.pending.len() > 0 {
                1int
            } else {
                0
            },
            LoopReply::Answered { .. } => if step.request is ExecuteTools {
                0
            } else {
                -1
            },
            LoopReply::Executed { .. } => -1,
            _ => 0,
        }),
{
    let none = Seq::<EventView>::empty();
    let end = EventView::AgentEnd { messages: step.state.new_messages };
    lemma_push_event(none, end);
    match reply {
        LoopReply::Messages(messages) => {
            lemma_whole_messages(messages@);
            lemma_one_event(EventView::TurnStart);
            lemma_events_concat(seq![EventView::TurnStart], whole_messages(messages@));
            lemma_events_concat(none, whole_messages(messages@));
            assert(Seq::<AgentMessage>::empty() + messages@ =~= messages@);
            assert(none + whole_messages(messages@) =~= whole_messages(messages@));
        },
        LoopReply::Prepared(_) => {
            lemma_whole_messages(state.pending);
            lemma_one_event(EventView::TurnStart);
            lemma_events_concat(seq![EventView::TurnStart], whole_messages(state.pending));
            assert(Seq::<AgentMessage>::empty() + state.pending =~= state.pending);
            if state.pending.len() == 0 {
                assert(ended_messages(step.events) =~= state.pending);
            }
        },
        LoopReply::PartialStarted(partial) => {
            lemma_one_event(EventView::MessageStart { message: AgentMessage::Assistant(partial) });
        },
        LoopReply::PartialUpdated { partial, event } => {
            lemma_one_event(
                EventView::MessageUpdate {
                    message: AgentMessage::Assistant(partial),
                    assistant_message_event: event@,
                },
            );
        },
        LoopReply::Answered { message, now } => {
            let m = AgentMessage::Assistant(message);
            let calls = tool_calls_of(message.content@);
            let told = state.answered(message).1;
            lemma_whole_message(m);
            lemma_one_event(EventView::MessageEnd { message: m });
            assert(ended_messages(told) == seq![m] && turns_opened(told) == 0);
            let over = EventView::TurnEnd { message: m, tool_results: Seq::empty() };
            lemma_push_event(told, over);
            lemma_push_event(told.push(over), end);
            let results = step.state.results;
            if message.stop_reason == StopReason::Length {
                if calls.len() > 0 {
                    assert(results.take(calls.len() as int) =~= results);
                    lemma_cut_off_events(calls, results);
                    lemma_events_concat(told, cut_off_events(calls, results));
                    lemma_push_event(
                        told + cut_off_events(calls, results),
                        EventView::TurnEnd { message: m, tool_results: results },
                    );
                } else {
                    assert(result_messages(results) =~= Seq::<AgentMessage>::empty());
                }
            }
            assert(seq![m] + Seq::<AgentMessage>::empty() =~= seq![m]);
        },
        LoopReply::Executed { results, .. } => {
            lemma_push_event(
                none,
                EventView::TurnEnd {
                    message: AgentMessage::Assistant(state.turn->0),
                    tool_results: results@,
                },
            );
        },
        LoopReply::Judged(_) => {},
    }
}

// ---------------------------------------------------------------------------
// Answers
// ---------------------------------------------------------------------------

/// While an answer comes in, its part so far is the last message of the
/// transcript; the whole answer takes its place, so that nothing of the parts is
/// left.
pub proof fn law_answers_replace_their_parts(
    state: LoopView,
    partial: Arc<AssistantMessage>,
    started: StepView,
    message: Arc<AssistantMessage>,
    now: i64,
    step: StepView,
)
    requires
        state.stage is Streaming,
        state.leads_to(LoopReply::PartialStarted(partial), started),
        started.state.leads_to(LoopReply::Answered { message, now }, step),
    ensures
        started.state.context == state.context.push(AgentMessage::Assistant(partial)),
        started.state.new_messages == state.new_messages,
        started.state.partial,
        started.state.stage is Streaming,
        started.request is AwaitStream,
        step.state.context.take(state.context.len() as int + 1) == state.context.push(
            AgentMessage::Assistant(message),
        ),
        step.state.turn == Some(message),
{
    assert(step.state.context.take(state.context.len() as int + 1) =~= state.context.push(
        AgentMessage::Assistant(message),
    ));
}

/// A further part of an answer replaces the last; without a first part it changes
/// nothing.
pub proof fn law_parts_replace_each_other(
    state: LoopView,
    reply: LoopReply,
    partial: Arc<AssistantMessage>,
    step: StepView,
)
    requires
        consistent(state),
        state.expects(reply),
        reply matches LoopReply::PartialUpdated { partial: p, .. } && p == partial,
        state.leads_to(reply, step),
    ensures
        step.request is AwaitStream,
        step.state.new_messages == state.new_messages,
        !state.partial ==> step.state == state && step.events.len() == 0,
        state.partial ==> step.state.context == state.context.drop_last().push(
            AgentMessage::Assistant(partial),
        ) && step.events.len() == 1,
{
    if state.partial {
        assert(step.state.context =~= state.context.drop_last().push(
            AgentMessage::Assistant(partial),
        ));
    }
}

// ---------------------------------------------------------------------------
// Decisions
// ---------------------------------------------------------------------------

/// Whether the model's answer ends the run.
pub open spec fn fails(message: AssistantMessage) -> bool {
    message.stop_reason == StopReason::Error || message.stop_reason == StopReason::Aborted
}

/// A run is over exactly when the model failed or was stopped, when it is judged
/// so after a turn, or when there is nothing to follow up.
pub proof fn law_when_runs_end(state: LoopView, reply: LoopReply, step: StepView)
    requires
        consistent(state),
        state.expects(reply),
        state.leads_to(reply, step),
    ensures
        step.request is Finish <==> (match reply {
            LoopReply::Answered { message, .. } => fails(*message),
            LoopReply::Judged(stop) => stop,
            LoopReply::Messages(messages) => state.stage is FollowingUp && messages@.len() == 0,
            _ => false,
        }),
        step.request is Finish <==> step.state.stage is Done,
{
}

/// Calls are run exactly when an answer holds some and came to its end: all of
/// them, in their order. Otherwise the turn is over and is judged.
pub proof fn law_when_calls_are_run(
    state: LoopView,
    message: Arc<AssistantMessage>,
    now: i64,
    step: StepView,
)
    requires
        state.stage is Streaming,
        state.leads_to(LoopReply::Answered { message, now }, step),
    ensures
        ({
            let calls = tool_calls_of(message.content@);
            let run = !fails(*message) && message.stop_reason != StopReason::Length && calls.len()
                > 0;
            &&& run ==> step.request == (LoopRequestView::ExecuteTools { calls })
                && step.state.stage is Executing
            &&& !run && !fails(*message) ==> step.request is JudgeTurn && step.state.stage
                is Judging && step.state.turn_completed && step.state.has_more == (calls.len()
                > 0)
        }),
{
}

/// When the calls of a turn have run, the turn is over; it is the tools that say
/// whether another is wanted.
pub proof fn law_tools_decide_on_another_turn(
    state: LoopView,
    results: Vec<Arc<ToolResultMessage>>,
    terminate: bool,
    step: StepView,
)
    requires
        consistent(state),
        state.stage is Executing,
        state.leads_to(LoopReply::Executed { results, terminate }, step),
    ensures
        step.request is JudgeTurn,
        step.state.stage is Judging,
        step.state.turn_completed,
        step.state.has_more == !terminate,
        step.state.results == results@,
        step.events == seq![
            EventView::TurnEnd { message: state.new_messages.last(), tool_results: results@ },
        ],
{
    assert(step.events =~= seq![
        EventView::TurnEnd { message: state.new_messages.last(), tool_results: results@ },
    ]);
}

/// After a turn the loop asks for messages that steer it. It goes on exactly when
/// there are some or the tools want more; a further turn is prepared first. When
/// neither holds it asks for messages that follow up, and goes on with those.
pub proof fn law_when_the_loop_goes_on(state: LoopView, reply: LoopReply, step: StepView)
    requires
        consistent(state),
        state.expects(reply),
        state.leads_to(reply, step),
    ensures
        reply matches LoopReply::Judged(stop) && !stop ==> step.request is PollSteering
            && step.state.stage is Polling,
        state.stage is Polling ==> (reply matches LoopReply::Messages(messages) && {
            let goes_on = state.has_more || messages@.len() > 0;
            &&& goes_on && state.turn_completed ==> step.request is PrepareNextTurn
                && step.state.stage is Preparing
            &&& goes_on && !state.turn_completed ==> step.request is Stream && step.state.stage
                is Streaming
            &&& !goes_on ==> step.request is PollFollowUp && step.state.stage is FollowingUp
        }),
        state.stage is FollowingUp ==> (reply matches LoopReply::Messages(messages) && (
        messages@.len() > 0 ==> step.request is PrepareNextTurn && step.state.stage is Preparing
            && step.state.has_more)),
        state.stage is Preparing ==> if state.pending.len() > 0 {
            step.request is Stream && step.state.stage is Streaming
        } else {
            step.request is PollSteering && step.state.stage is Repolling
        },
        state.stage is Repolling ==> step.request is Stream && step.state.stage is Streaming,
{
}

/// The model is asked about a transcript without parts of answers, with no
/// message left waiting.
pub proof fn law_the_model_sees_the_whole_transcript(
    state: LoopView,
    reply: LoopReply,
    step: StepView,
)
    requires
        consistent(state),
        state.expects(reply),
        state.leads_to(reply, step),
        step.request is Stream,
    ensures
        step.state.pending.len() == 0,
        !step.state.partial,
        step.state.stage is Streaming,
        step.state.turn_completed == state.turn_completed,
        step.state.turn == state.turn,
{
}

// ---------------------------------------------------------------------------
// Beginning and transcript
// ---------------------------------------------------------------------------

/// A run goes on from a transcript exactly when its last message is there and is
/// no answer of the model.
pub proof fn law_runs_go_on_from_what_was_said(context: Seq<AgentMessage>, m: AgentMessage)
    ensures
        continue_problem(Seq::empty()) is Some,
        m is Assistant ==> continue_problem(context.push(m)) is Some,
        m is User || m is ToolResult ==> continue_problem(context.push(m)) is None,
        (m matches AgentMessage::Custom(c) && c.role@ != "assistant"@) ==> continue_problem(
            context.push(m),
        ) is None,
{
    reveal_strlit("user");
    reveal_strlit("assistant");
    reveal_strlit("toolResult");
    assert(context.push(m).last() == m);
    assert("user"@.len() != "assistant"@.len());
    assert("toolResult"@.len() != "assistant"@.len());
}

/// The model sees every message of a transcript but those of the application,
/// each as it is and in order.
pub proof fn law_the_model_sees_all_but_other_messages(
    a: Seq<AgentMessage>,
    b: Seq<AgentMessage>,
    m: AgentMessage,
)
    ensures
        passed_through(a + b) == passed_through(a) + passed_through(b),
        passed_through(seq![m]) == match m {
            AgentMessage::User(u) => seq![Message::User(u)],
            AgentMessage::Assistant(r) => seq![Message::Assistant(r)],
            AgentMessage::ToolResult(t) => seq![Message::ToolResult(t)],
            AgentMessage::Custom(_) => Seq::empty(),
        },
        passed_through(Seq::empty()).len() == 0,
    decreases b.len(),
{
    reveal_with_fuel(passed_through, 2);
    assert(seq![m].drop_last() =~= Seq::<AgentMessage>::empty());
    assert(seq![m].last() == m);
    if b.len() == 0 {
        assert(a + b =~= a);
        assert(passed_through(a) + passed_through(b) =~= passed_through(a));
    } else {
        assert((a + b).drop_last() =~= a + b.drop_last());
        assert((a + b).last() == b.last());
        law_the_model_sees_all_but_other_messages(a, b.drop_last(), m);
        assert(passed_through(a + b) =~= passed_through(a) + passed_through(b));
    }
}

} // verus!

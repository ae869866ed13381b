//! What holds of calls of tools: when they are run, what a hook can change, and
//! what the model is told.

use std::sync::Arc;

use vstd::prelude::*;

use crate::agent_events::EventView;
use crate::json::{json_same, JsonView};
use crate::tool_calls::{
    admission_problem, arguments_after, batch_terminates, call_arguments, cut_off_events,
    executed_view, finalized_view, hook_problem, mode_of, one_after_the_other, tells_result,
    AfterToolCallResult, BeforeToolCallResult, FinalizedToolCall, ToolMode,
};
use crate::tools::result::{AgentToolResult, ToolResultView};
use crate::types::{
    block_views, optional_texts, AgentMessage, BlockView, ToolCall, ToolExecutionMode,
    ToolResultMessage,
};

verus! {

// ---------------------------------------------------------------------------
// Before a call
// ---------------------------------------------------------------------------

/// Whether a result tells a text and nothing else.
pub open spec fn only_tells(result: ToolResultView, text: Seq<char>) -> bool {
    &&& result.content.len() == 1
    &&& result.content[0] matches BlockView::Text { text: said, .. } && said == text
    &&& result.usage is None
    &&& result.added_tool_names is None
}

/// A call is admitted when there is such a tool and nothing is wrong with its
/// arguments. Otherwise the model is told what is wrong.
pub proof fn law_calls_of_known_tools_are_admitted(
    name: Seq<char>,
    found: bool,
    problem: Option<Seq<char>>,
)
    ensures
        match admission_problem(name, found, problem) {
            None => found && problem is None,
            Some(result) => {
                &&& !found || problem is Some
                &&& result.terminate is None
                &&& !found ==> only_tells(result, "Tool "@ + name + " not found"@)
                &&& found ==> (problem matches Some(text) && only_tells(result, text))
            },
        },
{
}

/// A call that was admitted is run unless it was stopped or a hook blocks it.
/// Then the model is told so, with the hook's reason where it gives one, and
/// the run ends when the hook asks for it.
pub proof fn law_hooks_block_calls(before: Option<BeforeToolCallResult>, aborted: bool)
    ensures
        ({
            let blocked = before matches Some(said) && said.block == Some(true);
            match hook_problem(before, aborted) {
                None => !aborted && !blocked,
                Some(result) => {
                    &&& aborted || blocked
                    &&& aborted ==> only_tells(result, "Operation aborted"@) && result.terminate
                        is None
                    &&& !aborted ==> (before matches Some(said) && {
                        &&& result.terminate == Some(true) <==> said.terminate == Some(true)
                        &&& match said.reason {
                            Some(text) => text@.len() > 0 ==> only_tells(result, text@),
                            None => only_tells(result, "Tool execution was blocked"@),
                        }
                    })
                },
            }
        }),
{
}

/// The arguments of a call stay unless the tool makes other ones of them; what
/// is no object gives no arguments.
pub proof fn law_tools_prepare_their_arguments(call: ToolCall, prepared: JsonView)
    ensures
        arguments_after(call_arguments(call), None) == call_arguments(call),
        json_same(prepared, call_arguments(call)) ==> arguments_after(
            call_arguments(call),
            Some(prepared),
        ) == call_arguments(call),
        !json_same(prepared, call_arguments(call)) && prepared is Object ==> arguments_after(
            call_arguments(call),
            Some(prepared),
        ) == prepared,
        !json_same(prepared, call_arguments(call)) && !(prepared is Object) ==> arguments_after(
            call_arguments(call),
            Some(prepared),
        ) == JsonView::Object(Seq::empty()),
{
}

// ---------------------------------------------------------------------------
// After a call
// ---------------------------------------------------------------------------

/// A tool that succeeds gives its result as it is. One that fails gives a
/// result that tells why, and that is an error.
pub proof fn law_failed_tools_tell_why(executed: Result<AgentToolResult, String>)
    ensures
        match executed {
            Ok(result) => executed_view(executed) == (result@, false),
            Err(text) => executed_view(executed).1 && only_tells(executed_view(executed).0, text@)
                && executed_view(executed).0.terminate is None,
        },
{
}

/// A hook replaces the parts of a result that it gives, each on its own, and no
/// others.
pub proof fn law_hooks_replace_what_they_give(
    executed: (ToolResultView, bool),
    said: AfterToolCallResult,
)
    ensures
        finalized_view(executed, None) == executed,
        ({
            let (result, is_error) = finalized_view(executed, Some(said));
            &&& said.content is None ==> result.content == executed.0.content
            &&& said.content matches Some(content) ==> result.content == block_views(content@)
            &&& said.details is None ==> result.details == executed.0.details
            &&& said.details matches Some(details) ==> result.details == details@
            &&& said.usage is None ==> result.usage == executed.0.usage
            &&& said.usage is Some ==> result.usage == said.usage
            &&& said.terminate is None ==> result.terminate == executed.0.terminate
            &&& said.terminate is Some ==> result.terminate == said.terminate
            &&& result.added_tool_names == executed.0.added_tool_names
            &&& said.is_error is None ==> is_error == executed.1
            &&& said.is_error matches Some(error) ==> is_error == error
        }),
{
}

/// The message that tells the model a result is that of the call, with the
/// result's content, and names the tools that it added, if it added any.
pub proof fn law_the_model_is_told_the_result(
    message: ToolResultMessage,
    call: ToolCall,
    result: ToolResultView,
    is_error: bool,
    now: i64,
)
    requires
        tells_result(message, call, result, is_error, now),
    ensures
        message.tool_call_id@ == call.id@,
        message.tool_name@ == call.name@,
        block_views(message.content@) == result.content,
        message.details matches Some(details) && details@ == result.details,
        message.usage == result.usage,
        message.is_error == is_error,
        message.timestamp == now,
        match result.added_tool_names {
            Some(names) => if names.len() == 0 {
                message.added_tool_names is None
            } else {
                optional_texts(message.added_tool_names) == Some(names)
            },
            None => message.added_tool_names is None,
        },
{
}

/// An agent stops after calls when each asks for it: after two groups of them
/// when it stops after both, and never after none.
pub proof fn law_all_calls_must_ask_for_the_end(
    first: Seq<FinalizedToolCall>,
    second: Seq<FinalizedToolCall>,
    call: FinalizedToolCall,
)
    requires
        first.len() > 0,
        second.len() > 0,
    ensures
        batch_terminates(first + second) <==> batch_terminates(first) && batch_terminates(second),
        batch_terminates(seq![call]) <==> call.result.terminate == Some(true),
        !batch_terminates(Seq::empty()),
{
    let all = first + second;
    if batch_terminates(all) {
        assert forall|i: int| 0 <= i < first.len() implies (#[trigger] first[i]).result.terminate
            == Some(true) by {
            assert(all[i] == first[i]);
        }
        assert forall|i: int| 0 <= i < second.len() implies (#[trigger] second[i]).result.terminate
            == Some(true) by {
            assert(all[first.len() + i] == second[i]);
        }
    }
    if batch_terminates(seq![call]) {
        assert(seq![call][0].result.terminate == Some(true));
    }
}

// ---------------------------------------------------------------------------
// Order
// ---------------------------------------------------------------------------

/// Calls are run one after the other when all calls are, or when the first tool
/// of the name of one of them wants it. Otherwise they are run together.
pub proof fn law_one_tool_can_want_an_order(
    configured: Option<ToolExecutionMode>,
    tools: Seq<ToolMode>,
    calls: Seq<ToolCall>,
)
    ensures
        one_after_the_other(configured, tools, calls) <==> configured == Some(
            ToolExecutionMode::Sequential,
        ) || exists|i: int, k: int|
            0 <= i < calls.len() && 0 <= k < tools.len() && #[trigger] is_tool_of(
                tools,
                k,
                calls[i],
            ) && tools[k].execution_mode == Some(ToolExecutionMode::Sequential),
{
    if exists|i: int|
        0 <= i < calls.len() && mode_of(tools, (#[trigger] calls[i]).name@) == Some(
            ToolExecutionMode::Sequential,
        ) {
        let i = choose|i: int|
            0 <= i < calls.len() && mode_of(tools, (#[trigger] calls[i]).name@) == Some(
                ToolExecutionMode::Sequential,
            );
        let k = lemma_tool_of(tools, calls[i]);
        assert(is_tool_of(tools, k, calls[i]));
    }
    assert forall|i: int, k: int|
        0 <= i < calls.len() && 0 <= k < tools.len() && #[trigger] is_tool_of(tools, k, calls[i])
            implies mode_of(tools, calls[i].name@) == tools[k].execution_mode by {
        lemma_mode_of(tools, k, calls[i]);
    }
}

/// Whether a tool is the first of the name that a call gives.
pub open spec fn is_tool_of(tools: Seq<ToolMode>, k: int, call: ToolCall) -> bool {
    tools[k].name@ == call.name@ && forall|j: int|
        0 <= j < k ==> (#[trigger] tools[j]).name@ != call.name@
}

proof fn lemma_mode_of(tools: Seq<ToolMode>, k: int, call: ToolCall)
    requires
        0 <= k < tools.len(),
        is_tool_of(tools, k, call),
    ensures
        mode_of(tools, call.name@) == tools[k].execution_mode,
    decreases tools.len(),
{
    if k > 0 {
        let rest = tools.drop_first();
        assert(tools[0].name@ != call.name@);
        assert forall|j: int| 0 <= j < k - 1 implies (#[trigger] rest[j]).name@ != call.name@ by {
            assert(rest[j] == tools[j + 1]);
        }
        lemma_mode_of(rest, k - 1, call);
    }
}

proof fn lemma_tool_of(tools: Seq<ToolMode>, call: ToolCall) -> (k: int)
    requires
        mode_of(tools, call.name@) is Some,
    ensures
        0 <= k < tools.len(),
        is_tool_of(tools, k, call),
        mode_of(tools, call.name@) == tools[k].execution_mode,
    decreases tools.len(),
{
    if tools[0].name@ == call.name@ {
        0
    } else {
        let rest = tools.drop_first();
        let k = lemma_tool_of(rest, call);
        assert forall|j: int| 0 <= j < k + 1 implies (#[trigger] tools[j]).name@ != call.name@ by {
            if j > 0 {
                assert(rest[j - 1] == tools[j]);
            }
        }
        k + 1
    }
}

// ---------------------------------------------------------------------------
// Calls that were cut off
// ---------------------------------------------------------------------------

/// What is told of calls that were cut off is told of each in turn: that it
/// starts, that it failed, and its result.
pub proof fn law_cut_off_calls_are_told_in_turn(
    calls: Seq<ToolCall>,
    call: ToolCall,
    results: Seq<Arc<ToolResultMessage>>,
)
    requires
        results.len() == calls.len() + 1,
    ensures
        cut_off_events(Seq::empty(), results).len() == 0,
        ({
            let before = cut_off_events(calls, results);
            let after = cut_off_events(calls.push(call), results);
            let told = AgentMessage::ToolResult(results.last());
            &&& after.len() == before.len() + 4
            &&& after.take(before.len() as int) == before
            &&& after[before.len() as int] == (EventView::ToolExecutionStart {
                tool_call_id: call.id@,
                tool_name: call.name@,
                args: call_arguments(call),
            })
            &&& after[before.len() as int + 1] matches EventView::ToolExecutionEnd {
                tool_call_id,
                tool_name,
                is_error,
                ..
            } && tool_call_id == call.id@ && tool_name == call.name@ && is_error
            &&& after[before.len() as int + 2] == (EventView::MessageStart { message: told })
            &&& after[before.len() as int + 3] == (EventView::MessageEnd { message: told })
        }),
{
    let before = cut_off_events(calls, results);
    let after = cut_off_events(calls.push(call), results);
    assert(calls.push(call).drop_last() =~= calls);
    assert(after.take(before.len() as int) =~= before);
}

} // verus!

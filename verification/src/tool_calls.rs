//! Calls of tools: whether they are run, how, and what the model is told of
//! them.

use std::sync::Arc;

use vstd::prelude::*;

use crate::agent_events::{
    event_views, push_event, push_whole_message, whole_message, AgentEvent, EventView,
};
use crate::json::{json_same, member_views, same_json, Json, JsonView};
use crate::messages::text_block;
use crate::text::{concat3, same_text};
use crate::tools::edit::OPERATION_ABORTED;
use crate::tools::result::{AgentToolResult, ToolResultView};
use crate::types::{
    arguments_object, block_views, optional_texts, share, text_block_view, AgentMessage,
    BlockContent, ToolCall, ToolExecutionMode, ToolResultMessage, Usage,
};

verus! {

impl Clone for AgentToolResult {
    fn clone(&self) -> (r: Self)
        ensures
            r@ == self@,
    {
        let content: Vec<BlockContent> = self.content.clone();
        let added_tool_names: Option<Vec<String>> = copy_names(&self.added_tool_names);
        proof {
            assert(content@ =~= self.content@);
        }
        AgentToolResult {
            content,
            details: self.details.clone(),
            usage: self.usage,
            added_tool_names,
            terminate: self.terminate,
        }
    }
}

fn copy_names(names: &Option<Vec<String>>) -> (r: Option<Vec<String>>)
    ensures
        optional_texts(r) == optional_texts(*names),
{
    match names {
        Some(list) => {
            let copy: Vec<String> = list.clone();
            proof {
                assert(copy@ =~= list@);
            }
            Some(copy)
        },
        None => None,
    }
}

// ---------------------------------------------------------------------------
// Results
// ---------------------------------------------------------------------------

/// The result of a call that failed.
pub open spec fn error_result_view(text: Seq<char>) -> ToolResultView {
    ToolResultView {
        content: seq![text_block_view(text)],
        details: JsonView::Object(Seq::empty()),
        usage: None,
        added_tool_names: None,
        terminate: None,
    }
}

/// The result of a call that failed.
pub fn create_error_tool_result(message: String) -> (r: AgentToolResult)
    ensures
        r@ == error_result_view(message@),
{
    let mut content: Vec<BlockContent> = Vec::new();
    content.push(text_block(message));
    let members: Vec<(String, Json)> = Vec::new();
    proof {
        assert(block_views(content@) =~= seq![text_block_view(message@)]);
        assert(member_views(members@) =~= Seq::<(Seq<char>, JsonView)>::empty());
    }
    AgentToolResult {
        content,
        details: Json::Object(members),
        usage: None,
        added_tool_names: None,
        terminate: None,
    }
}

/// A call that has a result.
pub struct FinalizedToolCall {
    pub call: ToolCall,
    pub result: AgentToolResult,
    pub is_error: bool,
}

/// Names, unless there are none.
pub open spec fn some_names(names: Option<Seq<Seq<char>>>) -> Option<Seq<Seq<char>>> {
    match names {
        Some(list) => if list.len() > 0 {
            Some(list)
        } else {
            None
        },
        None => None,
    }
}

/// Whether a message tells the model the result of a call.
pub open spec fn tells_result(
    message: ToolResultMessage,
    call: ToolCall,
    result: ToolResultView,
    is_error: bool,
    now: i64,
) -> bool {
    &&& message.tool_call_id@ == call.id@
    &&& message.tool_name@ == call.name@
    &&& block_views(message.content@) == result.content
    &&& message.details matches Some(details) && details@ == result.details
    &&& message.usage == result.usage
    &&& optional_texts(message.added_tool_names) == some_names(result.added_tool_names)
    &&& message.is_error == is_error
    &&& message.timestamp == now
}

/// The message that tells the model the result of a call.
pub fn create_tool_result_message(finalized: &FinalizedToolCall, now: i64) -> (r: ToolResultMessage)
    ensures
        tells_result(r, finalized.call, finalized.result@, finalized.is_error, now),
{
    let content: Vec<BlockContent> = finalized.result.content.clone();
    proof {
        assert(content@ =~= finalized.result.content@);
    }
    let added_tool_names: Option<Vec<String>> = match &finalized.result.added_tool_names {
        Some(names) => if names.len() > 0 {
            copy_names(&finalized.result.added_tool_names)
        } else {
            None
        },
        None => None,
    };
    ToolResultMessage {
        tool_call_id: finalized.call.id.clone(),
        tool_name: finalized.call.name.clone(),
        content,
        details: Some(finalized.result.details.clone()),
        usage: finalized.result.usage,
        added_tool_names,
        is_error: finalized.is_error,
        timestamp: now,
    }
}

/// Whether the agent stops after calls: when there are calls, and each of them
/// asks for it.
pub open spec fn batch_terminates(finalized: Seq<FinalizedToolCall>) -> bool {
    finalized.len() > 0 && forall|i: int|
        0 <= i < finalized.len() ==> (#[trigger] finalized[i]).result.terminate == Some(true)
}

/// Whether the agent stops after calls.
pub fn should_terminate_tool_batch(finalized: &Vec<FinalizedToolCall>) -> (r: bool)
    ensures
        r == batch_terminates(finalized@),
{
    let mut i: usize = 0;
    while i < finalized.len()
        invariant
            i <= finalized@.len(),
            forall|k: int|
                0 <= k < i ==> (#[trigger] finalized@[k]).result.terminate == Some(true),
        decreases finalized@.len() - i,
    {
        let asked: bool = match finalized[i].result.terminate {
            Some(terminate) => terminate,
            None => false,
        };
        if !asked {
            proof {
                assert(finalized@[i as int].result.terminate != Some(true));
            }
            return false;
        }
        i = i + 1;
    }
    finalized.len() > 0
}

// ---------------------------------------------------------------------------
// Before a call
// ---------------------------------------------------------------------------

/// The arguments of a call after the tool prepared them: what it made of them,
/// if that is an object.
pub open spec fn arguments_after(
    arguments: JsonView,
    prepared: Option<JsonView>,
) -> JsonView {
    match prepared {
        Some(p) => if json_same(p, arguments) {
            arguments
        } else if p is Object {
            p
        } else {
            JsonView::Object(Seq::empty())
        },
        None => arguments,
    }
}

/// The arguments of a call as a value.
pub open spec fn call_arguments(call: ToolCall) -> JsonView {
    JsonView::Object(member_views(call.arguments@))
}

/// A call with the arguments that the tool prepared, if it prepares them.
pub fn prepare_tool_call_arguments(call: &ToolCall, prepared: Option<Json>) -> (r: ToolCall)
    ensures
        call_arguments(r) == arguments_after(
            call_arguments(*call),
            match prepared {
                Some(p) => Some(p@),
                None => None,
            },
        ),
        r.id == call.id,
        r.name == call.name,
        r.thought_signature == call.thought_signature,
        r.namespace == call.namespace,
{
    match prepared {
        Some(p) => {
            let raw: Json = arguments_object(call);
            if same_json(&p, &raw) {
                return call.clone();
            }
            let members: Vec<(String, Json)> = match p {
                Json::Object(members) => members,
                _ => {
                    let none: Vec<(String, Json)> = Vec::new();
                    proof {
                        assert(member_views(none@) =~= Seq::<(Seq<char>, JsonView)>::empty());
                    }
                    none
                },
            };
            let copy: ToolCall = call.clone();
            ToolCall {
                id: copy.id,
                name: copy.name,
                arguments: Arc::new(members),
                thought_signature: copy.thought_signature,
                namespace: copy.namespace,
            }
        },
        None => call.clone(),
    }
}

/// Why a call is not run: there is no such tool, or its arguments do not fit.
pub open spec fn admission_problem(
    name: Seq<char>,
    found: bool,
    problem: Option<Seq<char>>,
) -> Option<ToolResultView> {
    if !found {
        Some(error_result_view("Tool "@ + name + " not found"@))
    } else {
        match problem {
            Some(text) => Some(error_result_view(text)),
            None => None,
        }
    }
}

/// Why a call is not run, before any hook is asked. `problem` is what is wrong
/// with its arguments.
pub fn admit_tool_call(call: &ToolCall, found: bool, problem: Option<String>) -> (r: Option<
    AgentToolResult,
>)
    ensures
        match r {
            Some(result) => admission_problem(
                call.name@,
                found,
                crate::text::text_of_option(problem),
            ) == Some(result@),
            None => admission_problem(
                call.name@,
                found,
                crate::text::text_of_option(problem),
            ) is None,
        },
{
    if !found {
        let text: String = concat3("Tool ", call.name.as_str(), " not found");
        return Some(create_error_tool_result(text));
    }
    match problem {
        Some(text) => Some(create_error_tool_result(text)),
        None => None,
    }
}

/// What a hook said before a call.
pub struct BeforeToolCallResult {
    pub block: Option<bool>,
    pub reason: Option<String>,
    pub terminate: Option<bool>,
}

/// Why a call is not run, after a hook was asked: it was aborted, or the hook
/// blocks it.
pub open spec fn hook_problem(
    before: Option<BeforeToolCallResult>,
    aborted: bool,
) -> Option<ToolResultView> {
    if aborted {
        Some(error_result_view(OPERATION_ABORTED@))
    } else {
        match before {
            Some(said) => if said.block == Some(true) {
                let reason = match said.reason {
                    Some(text) => if text@.len() > 0 {
                        text@
                    } else {
                        "Tool execution was blocked"@
                    },
                    None => "Tool execution was blocked"@,
                };
                Some(
                    ToolResultView {
                        terminate: if said.terminate == Some(true) {
                            Some(true)
                        } else {
                            None
                        },
                        ..error_result_view(reason)
                    },
                )
            } else {
                None
            },
            None => None,
        }
    }
}

/// Why a call is not run, after a hook was asked.
pub fn judge_tool_call(before: Option<BeforeToolCallResult>, aborted: bool) -> (r: Option<
    AgentToolResult,
>)
    ensures
        match r {
            Some(result) => hook_problem(before, aborted) == Some(result@),
            None => hook_problem(before, aborted) is None,
        },
{
    if aborted {
        return Some(create_error_tool_result(OPERATION_ABORTED.to_string()));
    }
    match before {
        Some(said) => {
            let blocks: bool = match said.block {
                Some(b) => b,
                None => false,
            };
            if !blocks {
                return None;
            }
            let reason: String = match said.reason {
                Some(text) => if text.as_str().unicode_len() > 0 {
                    text
                } else {
                    "Tool execution was blocked".to_string()
                },
                None => "Tool execution was blocked".to_string(),
            };
            let mut result: AgentToolResult = create_error_tool_result(reason);
            let stops: bool = match said.terminate {
                Some(t) => t,
                None => false,
            };
            if stops {
                result.terminate = Some(true);
            }
            Some(result)
        },
        None => None,
    }
}

// ---------------------------------------------------------------------------
// After a call
// ---------------------------------------------------------------------------

/// What a hook said after a call: the parts of the result to replace.
pub struct AfterToolCallResult {
    pub content: Option<Vec<BlockContent>>,
    pub details: Option<Json>,
    pub usage: Option<Usage>,
    pub terminate: Option<bool>,
    pub is_error: Option<bool>,
}

/// The result of a call that was run, and whether it is an error.
pub open spec fn executed_view(executed: Result<AgentToolResult, String>) -> (
    ToolResultView,
    bool,
) {
    match executed {
        Ok(result) => (result@, false),
        Err(text) => (error_result_view(text@), true),
    }
}

/// A result with the parts that a hook replaced.
pub open spec fn finalized_view(
    executed: (ToolResultView, bool),
    after: Option<AfterToolCallResult>,
) -> (ToolResultView, bool) {
    match after {
        Some(said) => (
            ToolResultView {
                content: match said.content {
                    Some(content) => block_views(content@),
                    None => executed.0.content,
                },
                details: match said.details {
                    Some(details) => details@,
                    None => executed.0.details,
                },
                usage: match said.usage {
                    Some(usage) => Some(usage),
                    None => executed.0.usage,
                },
                added_tool_names: executed.0.added_tool_names,
                terminate: match said.terminate {
                    Some(terminate) => Some(terminate),
                    None => executed.0.terminate,
                },
            },
            match said.is_error {
                Some(is_error) => is_error,
                None => executed.1,
            },
        ),
        None => executed,
    }
}

/// A call with its result: what the tool gave, with the parts that a hook
/// replaced.
pub fn finalize_executed_tool_call(
    call: &ToolCall,
    executed: Result<AgentToolResult, String>,
    after: Option<AfterToolCallResult>,
) -> (r: FinalizedToolCall)
    ensures
        r.call == *call,
        (r.result@, r.is_error) == finalized_view(executed_view(executed), after),
{
    let mut is_error: bool = false;
    let mut result: AgentToolResult = match executed {
        Ok(result) => result,
        Err(text) => {
            is_error = true;
            create_error_tool_result(text)
        },
    };
    match after {
        Some(said) => {
            match said.content {
                Some(content) => {
                    result.content = content;
                },
                None => {},
            }
            match said.details {
                Some(details) => {
                    result.details = details;
                },
                None => {},
            }
            match said.usage {
                Some(usage) => {
                    result.usage = Some(usage);
                },
                None => {},
            }
            match said.terminate {
                Some(terminate) => {
                    result.terminate = Some(terminate);
                },
                None => {},
            }
            match said.is_error {
                Some(error) => {
                    is_error = error;
                },
                None => {},
            }
        },
        None => {},
    }
    FinalizedToolCall { call: call.clone(), result, is_error }
}

// ---------------------------------------------------------------------------
// Order
// ---------------------------------------------------------------------------

/// A tool as far as the order of its calls goes.
pub struct ToolMode {
    pub name: String,
    pub execution_mode: Option<ToolExecutionMode>,
}

/// How the calls of a tool are run, by the first tool of that name.
pub open spec fn mode_of(tools: Seq<ToolMode>, name: Seq<char>) -> Option<ToolExecutionMode>
    decreases tools.len(),
{
    if tools.len() == 0 {
        None
    } else if tools[0].name@ == name {
        tools[0].execution_mode
    } else {
        mode_of(tools.drop_first(), name)
    }
}

/// Whether calls are run one after the other: when that is how all calls are
/// run, or when one of the tools wants it.
pub open spec fn one_after_the_other(
    configured: Option<ToolExecutionMode>,
    tools: Seq<ToolMode>,
    calls: Seq<ToolCall>,
) -> bool {
    configured == Some(ToolExecutionMode::Sequential) || exists|i: int|
        0 <= i < calls.len() && mode_of(tools, (#[trigger] calls[i]).name@) == Some(
            ToolExecutionMode::Sequential,
        )
}

fn find_mode(tools: &Vec<ToolMode>, name: &str) -> (r: Option<ToolExecutionMode>)
    ensures
        r == mode_of(tools@, name@),
{
    let mut i: usize = 0;
    proof {
        assert(tools@.skip(0) =~= tools@);
    }
    while i < tools.len()
        invariant
            i <= tools@.len(),
            mode_of(tools@, name@) == mode_of(tools@.skip(i as int), name@),
        decreases tools@.len() - i,
    {
        proof {
            assert(tools@.skip(i as int)[0] == tools@[i as int]);
            assert(tools@.skip(i as int).drop_first() =~= tools@.skip(i + 1));
        }
        if same_text(tools[i].name.as_str(), name) {
            return tools[i].execution_mode;
        }
        i = i + 1;
    }
    None
}

/// Whether calls are run one after the other.
pub fn runs_sequentially(
    configured: Option<ToolExecutionMode>,
    tools: &Vec<ToolMode>,
    calls: &Vec<ToolCall>,
) -> (r: bool)
    ensures
        r == one_after_the_other(configured, tools@, calls@),
{
    if configured == Some(ToolExecutionMode::Sequential) {
        return true;
    }
    let mut i: usize = 0;
    while i < calls.len()
        invariant
            i <= calls@.len(),
            forall|k: int|
                0 <= k < i ==> mode_of(tools@, (#[trigger] calls@[k]).name@) != Some(
                    ToolExecutionMode::Sequential,
                ),
        decreases calls@.len() - i,
    {
        if find_mode(tools, calls[i].name.as_str()) == Some(ToolExecutionMode::Sequential) {
            proof {
                assert(mode_of(tools@, calls@[i as int].name@) == Some(
                    ToolExecutionMode::Sequential,
                ));
            }
            return true;
        }
        i = i + 1;
    }
    false
}

// ---------------------------------------------------------------------------
// Telling of calls
// ---------------------------------------------------------------------------

/// What is told when a call starts.
pub open spec fn call_start(call: ToolCall) -> EventView {
    EventView::ToolExecutionStart {
        tool_call_id: call.id@,
        tool_name: call.name@,
        args: call_arguments(call),
    }
}

/// What is told when a call has a result.
pub open spec fn call_end(call: ToolCall, result: ToolResultView, is_error: bool) -> EventView {
    EventView::ToolExecutionEnd {
        tool_call_id: call.id@,
        tool_name: call.name@,
        result,
        is_error,
    }
}

/// Tells that a call starts.
pub fn start_event(call: &ToolCall) -> (r: AgentEvent)
    ensures
        r@ == call_start(*call),
{
    AgentEvent::ToolExecutionStart {
        tool_call_id: call.id.clone(),
        tool_name: call.name.clone(),
        args: arguments_object(call),
    }
}

/// Tells that a call has a result.
pub fn end_event(finalized: &FinalizedToolCall) -> (r: AgentEvent)
    ensures
        r@ == call_end(finalized.call, finalized.result@, finalized.is_error),
{
    AgentEvent::ToolExecutionEnd {
        tool_call_id: finalized.call.id.clone(),
        tool_name: finalized.call.name.clone(),
        result: finalized.result.clone(),
        is_error: finalized.is_error,
    }
}

/// Why a call of a message that was cut off is not run.
pub open spec fn cut_off_text(name: Seq<char>) -> Seq<char> {
    "Tool call \""@ + name
        + "\" was not executed: the response hit the output token limit, so its arguments may be truncated. Re-issue the tool call with complete arguments."@
}

/// The result of a call of a message that was cut off.
pub open spec fn cut_off_result(call: ToolCall) -> ToolResultView {
    error_result_view(cut_off_text(call.name@))
}

/// The results of calls as messages of the transcript.
pub open spec fn result_messages(results: Seq<Arc<ToolResultMessage>>) -> Seq<AgentMessage> {
    Seq::new(results.len(), |i: int| AgentMessage::ToolResult(results[i]))
}

/// What is told of the calls of a message that was cut off: each starts, fails,
/// and its result is told.
pub open spec fn cut_off_events(
    calls: Seq<ToolCall>,
    results: Seq<Arc<ToolResultMessage>>,
) -> Seq<EventView>
    decreases calls.len(),
{
    if calls.len() == 0 {
        Seq::empty()
    } else {
        let last = calls.len() - 1;
        cut_off_events(calls.drop_last(), results) + seq![
            call_start(calls[last]),
            call_end(calls[last], cut_off_result(calls[last]), true),
        ] + whole_message(AgentMessage::ToolResult(results[last]))
    }
}

/// Fails the calls of a message that was cut off by the token limit: their
/// arguments may be incomplete, so none of them is run.
pub fn fail_tool_calls_from_truncated_message(
    calls: &Vec<ToolCall>,
    now: i64,
    events: &mut Vec<AgentEvent>,
) -> (r: Vec<Arc<ToolResultMessage>>)
    ensures
        r@.len() == calls@.len(),
        forall|i: int|
            0 <= i < r@.len() ==> tells_result(
                *(#[trigger] r@[i]),
                calls@[i],
                cut_off_result(calls@[i]),
                true,
                now,
            ),
        event_views(final(events)@) == event_views(old(events)@) + cut_off_events(calls@, r@),
{
    let ghost before = event_views(events@);
    let mut results: Vec<Arc<ToolResultMessage>> = Vec::new();
    let mut i: usize = 0;
    proof {
        assert(calls@.take(0) =~= Seq::<ToolCall>::empty());
        assert(before + cut_off_events(calls@.take(0), results@) =~= before);
    }
    while i < calls.len()
        invariant
            i <= calls@.len(),
            results@.len() == i,
            forall|k: int|
                0 <= k < i ==> tells_result(
                    *(#[trigger] results@[k]),
                    calls@[k],
                    cut_off_result(calls@[k]),
                    true,
                    now,
                ),
            event_views(events@) == before + cut_off_events(calls@.take(i as int), results@),
        decreases calls@.len() - i,
    {
        let ghost held = results@;
        let text: String = concat3(
            "Tool call \"",
            calls[i].name.as_str(),
            "\" was not executed: the response hit the output token limit, so its arguments may be truncated. Re-issue the tool call with complete arguments.",
        );
        let finalized: FinalizedToolCall = FinalizedToolCall {
            call: calls[i].clone(),
            result: create_error_tool_result(text),
            is_error: true,
        };
        push_event(events, start_event(&calls[i]));
        push_event(events, end_event(&finalized));
        let message: Arc<ToolResultMessage> = Arc::new(create_tool_result_message(&finalized, now));
        push_whole_message(events, &AgentMessage::ToolResult(share(&message)));
        results.push(message);
        proof {
            let shorter = calls@.take(i as int);
            let longer = calls@.take(i + 1);
            assert(longer.drop_last() =~= shorter);
            lemma_cut_off_prefix(shorter, held, results@);
            assert(event_views(events@) =~= before + cut_off_events(longer, results@));
        }
        i = i + 1;
    }
    proof {
        assert(calls@.take(calls@.len() as int) =~= calls@);
    }
    results
}

proof fn lemma_cut_off_prefix(
    calls: Seq<ToolCall>,
    results: Seq<Arc<ToolResultMessage>>,
    more: Seq<Arc<ToolResultMessage>>,
)
    requires
        calls.len() <= results.len() <= more.len(),
        forall|i: int| 0 <= i < results.len() ==> results[i] == more[i],
    ensures
        cut_off_events(calls, results) == cut_off_events(calls, more),
    decreases calls.len(),
{
    if calls.len() > 0 {
        lemma_cut_off_prefix(calls.drop_last(), results, more);
    }
}

// ---------------------------------------------------------------------------
// Updates of a call
// ---------------------------------------------------------------------------

/// What a call tells while it runs. It is kept until the call has a result; what
/// comes later is dropped.
pub struct UpdateBuffer {
    pub call: ToolCall,
    pub updates: Vec<AgentEvent>,
    pub settled: bool,
}

/// What is told when a call gives part of its result.
pub open spec fn call_update(call: ToolCall, partial: ToolResultView) -> EventView {
    EventView::ToolExecutionUpdate {
        tool_call_id: call.id@,
        tool_name: call.name@,
        args: call_arguments(call),
        partial_result: partial,
    }
}

impl UpdateBuffer {
    /// Before the call runs.
    pub fn new(call: ToolCall) -> (r: Self)
        ensures
            r.call == call,
            r.updates@.len() == 0,
            !r.settled,
    {
        UpdateBuffer { call, updates: Vec::new(), settled: false }
    }

    /// Keeps part of a result, unless the call has its result.
    pub fn offer(&mut self, partial: AgentToolResult)
        ensures
            final(self).call == old(self).call,
            final(self).settled == old(self).settled,
            event_views(final(self).updates@) == if old(self).settled {
                event_views(old(self).updates@)
            } else {
                event_views(old(self).updates@).push(call_update(old(self).call, partial@))
            },
    {
        if !self.settled {
            push_event(
                &mut self.updates,
                AgentEvent::ToolExecutionUpdate {
                    tool_call_id: self.call.id.clone(),
                    tool_name: self.call.name.clone(),
                    args: arguments_object(&self.call),
                    partial_result: partial,
                },
            );
        }
    }

    /// Takes what was kept, in order, now that the call has its result.
    pub fn settle(&mut self) -> (r: Vec<AgentEvent>)
        ensures
            final(self).call == old(self).call,
            final(self).settled,
            final(self).updates@.len() == 0,
            r@ == old(self).updates@,
    {
        let mut kept: Vec<AgentEvent> = Vec::new();
        std::mem::swap(&mut kept, &mut self.updates);
        self.settled = true;
        kept
    }
}

} // verus!

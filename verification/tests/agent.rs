use std::sync::Arc;

use pi_agent::agent::{
    default_model, normalize_prompt_input, Agent, AgentInitialState, AgentPromptInput,
    Continuation, PendingMessageQueue,
};
use pi_agent::agent_events::AgentEvent;
use pi_agent::agent_loop::{
    check_continue, pass_through_llm_messages, LoopReply, LoopRequest, LoopStage, LoopState,
    ParallelBatch, SequentialBatch,
};
use pi_agent::json::{write_json, Json};
use pi_agent::messages::custom_message;
use pi_agent::proxy::StreamEvent;
use pi_agent::tool_calls::{
    admit_tool_call, create_error_tool_result, create_tool_result_message,
    finalize_executed_tool_call, judge_tool_call, prepare_tool_call_arguments, runs_sequentially,
    should_terminate_tool_batch, AfterToolCallResult, BeforeToolCallResult, FinalizedToolCall,
    ToolMode,
};
use pi_agent::tools::result::{text_result, AgentToolResult};
use pi_agent::types::{
    arguments_object, AgentMessage, AssistantContent, AssistantMessage, BlockContent,
    ImageContent, Message, QueueMode, StopReason, TextContent, ToolCall, ToolExecutionMode,
    ToolResultMessage, Usage, UserContent, UserMessage,
};

fn user(text: &str) -> AgentMessage {
    AgentMessage::User(Arc::new(UserMessage {
        content: UserContent::Text(text.to_string()),
        timestamp: 1,
    }))
}

fn call(id: &str, name: &str) -> ToolCall {
    ToolCall {
        id: id.to_string(),
        name: name.to_string(),
        arguments: Arc::new(vec![("path".to_string(), Json::Text("f".to_string()))]),
        thought_signature: None,
        namespace: None,
    }
}

fn answer(text: &str, calls: Vec<ToolCall>, stop_reason: StopReason) -> Arc<AssistantMessage> {
    let mut content = vec![AssistantContent::Text(TextContent {
        text: text.to_string(),
        text_signature: None,
    })];
    content.extend(calls.into_iter().map(AssistantContent::ToolCall));
    Arc::new(AssistantMessage {
        content,
        api: "test-api".to_string(),
        provider: "test-provider".to_string(),
        model: "test-model".to_string(),
        usage: Usage::default(),
        stop_reason,
        error_message: None,
        deferred: None,
        timestamp: 2,
    })
}

fn text_of(message: &AgentMessage) -> String {
    match message {
        AgentMessage::User(m) => match &m.content {
            UserContent::Text(text) => text.clone(),
            UserContent::Blocks(blocks) => block_text(&blocks[0]),
        },
        AgentMessage::Assistant(m) => match &m.content[0] {
            AssistantContent::Text(t) => t.text.clone(),
            _ => panic!("no text"),
        },
        AgentMessage::ToolResult(m) => block_text(&m.content[0]),
        AgentMessage::Custom(m) => m.role.clone(),
    }
}

fn block_text(block: &BlockContent) -> String {
    match block {
        BlockContent::Text(t) => t.text.clone(),
        BlockContent::Image(i) => i.mime_type.clone(),
    }
}

fn texts(messages: &[AgentMessage]) -> Vec<String> {
    messages.iter().map(text_of).collect()
}

fn event_name(event: &AgentEvent) -> &'static str {
    match event {
        AgentEvent::AgentStart => "agent_start",
        AgentEvent::TurnStart => "turn_start",
        AgentEvent::MessageStart { .. } => "message_start",
        AgentEvent::MessageUpdate { .. } => "message_update",
        AgentEvent::MessageEnd { .. } => "message_end",
        AgentEvent::ToolExecutionStart { .. } => "tool_start",
        AgentEvent::ToolExecutionUpdate { .. } => "tool_update",
        AgentEvent::ToolExecutionEnd { .. } => "tool_end",
        AgentEvent::TurnEnd { .. } => "turn_end",
        AgentEvent::AgentEnd { .. } => "agent_end",
    }
}

fn names(events: &[AgentEvent]) -> Vec<&'static str> {
    events.iter().map(event_name).collect()
}

fn done(text: &str, terminate: Option<bool>) -> AgentToolResult {
    AgentToolResult { terminate, ..text_result(text.to_string(), Json::Null) }
}

fn outcome(call: ToolCall, text: &str, terminate: Option<bool>) -> FinalizedToolCall {
    FinalizedToolCall { call, result: done(text, terminate), is_error: false }
}

#[test]
fn runs_go_on_from_users_and_results() {
    assert!(matches!(check_continue(&vec![]), Err(e) if e == "Cannot continue: no messages in context"));
    assert!(check_continue(&vec![user("a")]).is_ok());
    let last = AgentMessage::Assistant(answer("b", vec![], StopReason::Stop));
    assert!(matches!(check_continue(&vec![user("a"), last]),
        Err(e) if e == "Cannot continue from message role: assistant"));
}

#[test]
fn a_run_without_tools() {
    let (mut state, events, first) = LoopState::start(vec![user("old")], vec![user("new")]);
    assert_eq!(names(&events), vec!["agent_start", "turn_start", "message_start", "message_end"]);
    assert!(matches!(first, LoopRequest::PollSteering));
    let (events, request) = state.next(LoopReply::Messages(vec![]));
    assert!(events.is_empty());
    assert!(matches!(request, LoopRequest::Stream));
    let partial = answer("pa", vec![], StopReason::Pending);
    let (events, request) = state.next(LoopReply::PartialStarted(partial));
    assert_eq!(names(&events), vec!["message_start"]);
    assert!(matches!(request, LoopRequest::AwaitStream));
    let partial = answer("par", vec![], StopReason::Pending);
    let event = StreamEvent::TextDelta { content_index: 0, delta: "r".to_string() };
    let (events, _) = state.next(LoopReply::PartialUpdated { partial, event });
    assert_eq!(names(&events), vec!["message_update"]);
    assert!(matches!(&events[0],
        AgentEvent::MessageUpdate { assistant_message_event: StreamEvent::TextDelta { delta, .. }, .. }
        if delta == "r"));
    assert_eq!(texts(&state.context), vec!["old", "new", "par"]);
    let whole = answer("part", vec![], StopReason::Stop);
    let (events, request) = state.next(LoopReply::Answered { message: whole, now: 7 });
    assert_eq!(names(&events), vec!["message_end", "turn_end"]);
    assert!(matches!(request, LoopRequest::JudgeTurn));
    let (_, request) = state.next(LoopReply::Judged(false));
    assert!(matches!(request, LoopRequest::PollSteering));
    let (_, request) = state.next(LoopReply::Messages(vec![]));
    assert!(matches!(request, LoopRequest::PollFollowUp));
    let (events, request) = state.next(LoopReply::Messages(vec![]));
    assert!(matches!(request, LoopRequest::Finish));
    assert_eq!(state.stage, LoopStage::Done);
    match &events[0] {
        AgentEvent::AgentEnd { messages } => assert_eq!(texts(messages), vec!["new", "part"]),
        _ => panic!("does not end"),
    }
    assert_eq!(texts(&state.context), vec!["old", "new", "part"]);
}

#[test]
fn a_run_with_tools_steering_and_follow_ups() {
    let (mut state, _, _) = LoopState::start(vec![], vec![user("go")]);
    state.next(LoopReply::Messages(vec![]));
    let first = answer("call", vec![call("1", "read")], StopReason::ToolUse);
    let (events, request) = state.next(LoopReply::Answered { message: first, now: 7 });
    assert_eq!(names(&events), vec!["message_start", "message_end"]);
    match request {
        LoopRequest::ExecuteTools { calls } => assert_eq!(calls[0].id, "1"),
        _ => panic!("no calls"),
    }
    let told = create_tool_result_message(&outcome(call("1", "read"), "text", None), 8);
    let (events, _) =
        state.next(LoopReply::Executed { results: vec![Arc::new(told)], terminate: false });
    assert_eq!(names(&events), vec!["turn_end"]);
    state.next(LoopReply::Judged(false));
    let (_, request) = state.next(LoopReply::Messages(vec![]));
    assert!(matches!(request, LoopRequest::PrepareNextTurn));
    let (_, request) = state.next(LoopReply::Prepared(None));
    assert!(matches!(request, LoopRequest::PollSteering));
    let (events, request) = state.next(LoopReply::Messages(vec![user("steer")]));
    assert_eq!(names(&events), vec!["turn_start", "message_start", "message_end"]);
    assert!(matches!(request, LoopRequest::Stream));
    let second = answer("done", vec![], StopReason::Stop);
    state.next(LoopReply::Answered { message: second, now: 9 });
    state.next(LoopReply::Judged(false));
    state.next(LoopReply::Messages(vec![]));
    let (_, request) = state.next(LoopReply::Messages(vec![user("more")]));
    assert!(matches!(request, LoopRequest::PrepareNextTurn));
    let (events, request) = state.next(LoopReply::Prepared(Some(vec![user("short")])));
    assert_eq!(names(&events), vec!["turn_start", "message_start", "message_end"]);
    assert!(matches!(request, LoopRequest::Stream));
    assert_eq!(texts(&state.context), vec!["short", "more"]);
    assert_eq!(texts(&state.new_messages), vec!["go", "call", "text", "steer", "done", "more"]);
}

#[test]
fn cut_off_calls_are_not_run() {
    let (mut state, _, _) = LoopState::start(vec![], vec![user("go")]);
    state.next(LoopReply::Messages(vec![]));
    let cut = answer("call", vec![call("1", "read"), call("2", "edit")], StopReason::Length);
    let (events, request) = state.next(LoopReply::Answered { message: cut, now: 7 });
    assert!(matches!(request, LoopRequest::JudgeTurn));
    assert_eq!(
        names(&events),
        vec![
            "message_start",
            "message_end",
            "tool_start",
            "tool_end",
            "message_start",
            "message_end",
            "tool_start",
            "tool_end",
            "message_start",
            "message_end",
            "turn_end",
        ]
    );
    assert_eq!(state.results.len(), 2);
    assert!(state.results.iter().all(|r| r.is_error && r.timestamp == 7));
    assert_eq!(
        block_text(&state.results[0].content[0]),
        "Tool call \"read\" was not executed: the response hit the output token limit, so its arguments may be truncated. Re-issue the tool call with complete arguments."
    );
}

#[test]
fn failed_answers_end_the_run() {
    for reason in [StopReason::Error, StopReason::Aborted] {
        let (mut state, _, _) = LoopState::start(vec![], vec![user("go")]);
        state.next(LoopReply::Messages(vec![]));
        let failed = answer("x", vec![call("1", "read")], reason);
        let (events, request) = state.next(LoopReply::Answered { message: failed, now: 7 });
        assert!(matches!(request, LoopRequest::Finish));
        assert_eq!(names(&events), vec!["message_start", "message_end", "turn_end", "agent_end"]);
    }
}

#[test]
fn a_judge_can_stop_the_run() {
    let (mut state, _, _) = LoopState::start(vec![], vec![user("go")]);
    state.next(LoopReply::Messages(vec![]));
    state.next(LoopReply::Answered { message: answer("x", vec![], StopReason::Stop), now: 7 });
    let (events, request) = state.next(LoopReply::Judged(true));
    assert_eq!(names(&events), vec!["agent_end"]);
    assert!(matches!(request, LoopRequest::Finish));
}

#[test]
fn calls_run_one_after_the_other() {
    let mut batch = SequentialBatch::start(vec![call("1", "a"), call("2", "b")]);
    let (next, event) = batch.next_call().unwrap();
    assert_eq!(next.id, "1");
    assert!(matches!(event, AgentEvent::ToolExecutionStart { args, .. }
        if write_json(&args) == "{\"path\":\"f\"}"));
    let events = batch.finish_call(outcome(next, "one", Some(true)), 5, false);
    assert_eq!(names(&events), vec!["tool_end", "message_start", "message_end"]);
    let (next, _) = batch.next_call().unwrap();
    assert_eq!(next.id, "2");
    batch.finish_call(outcome(next, "two", Some(true)), 6, false);
    assert!(batch.next_call().is_none());
    let (messages, terminate) = batch.close();
    assert_eq!(messages.len(), 2);
    assert!(terminate);
    let mut batch = SequentialBatch::start(vec![call("1", "a"), call("2", "b")]);
    batch.finish_call(outcome(call("1", "a"), "one", None), 5, true);
    assert!(batch.next_call().is_none());
    assert_eq!(batch.close().0.len(), 1);
}

#[test]
fn calls_run_at_the_same_time() {
    let mut batch =
        ParallelBatch::start(vec![call("1", "a"), call("2", "b"), call("3", "c")]);
    for refused in [None, Some(create_error_tool_result("no".to_string())), None] {
        let told = if refused.is_some() { vec!["tool_end"] } else { vec![] };
        assert!(batch.next_call().is_some());
        assert_eq!(names(&batch.place_call(refused, false)), told);
    }
    assert!(batch.next_call().is_none());
    assert_eq!(batch.pending_calls(), vec![0, 2]);
    batch.settle(2, outcome(call("3", "c"), "three", None));
    assert_eq!(batch.pending_calls(), vec![0]);
    let event = batch.settle(0, outcome(call("1", "a"), "one", None));
    assert!(matches!(event, AgentEvent::ToolExecutionEnd { tool_call_id, is_error, .. }
        if tool_call_id == "1" && !is_error));
    let (messages, events, terminate) = batch.close(4);
    let ids: Vec<&str> = messages.iter().map(|m| m.tool_call_id.as_str()).collect();
    assert_eq!(ids, vec!["1", "2", "3"]);
    assert!(messages[1].is_error && !messages[2].is_error);
    assert_eq!(events.len(), 6);
    assert!(!terminate);
    let mut batch = ParallelBatch::start(vec![call("1", "a"), call("2", "b")]);
    batch.place_call(None, true);
    assert!(batch.next_call().is_none());
}

#[test]
fn calls_are_admitted() {
    let c = call("1", "tool");
    let missing = admit_tool_call(&c, false, None).unwrap();
    assert_eq!(block_text(&missing.content[0]), "Tool tool not found");
    let wrong = admit_tool_call(&c, true, Some("bad".to_string())).unwrap();
    assert_eq!(block_text(&wrong.content[0]), "bad");
    assert!(admit_tool_call(&c, true, None).is_none());
}

fn hook(block: Option<bool>, reason: Option<&str>) -> Option<BeforeToolCallResult> {
    Some(BeforeToolCallResult {
        block,
        reason: reason.map(str::to_string),
        terminate: Some(true),
    })
}

#[test]
fn hooks_block_calls() {
    let aborted = judge_tool_call(None, true).unwrap();
    assert_eq!(block_text(&aborted.content[0]), "Operation aborted");
    let blocked = judge_tool_call(hook(Some(true), Some("why")), false).unwrap();
    assert_eq!(block_text(&blocked.content[0]), "why");
    assert_eq!(blocked.terminate, Some(true));
    let blocked = judge_tool_call(hook(Some(true), Some("")), false).unwrap();
    assert_eq!(block_text(&blocked.content[0]), "Tool execution was blocked");
    assert!(judge_tool_call(hook(None, Some("why")), false).is_none());
    assert!(judge_tool_call(None, false).is_none());
}

#[test]
fn hooks_replace_parts_of_results() {
    let after = AfterToolCallResult {
        content: None,
        details: Some(Json::Bool(true)),
        usage: None,
        terminate: Some(false),
        is_error: Some(true),
    };
    let r = finalize_executed_tool_call(&call("1", "a"), Ok(done("x", Some(true))), Some(after));
    assert_eq!(block_text(&r.result.content[0]), "x");
    assert_eq!(r.result.details.as_bool(), Some(true));
    assert_eq!(r.result.terminate, Some(false));
    assert!(r.is_error);
    let r = finalize_executed_tool_call(&call("1", "a"), Err("broken".to_string()), None);
    assert!(r.is_error);
    assert_eq!(block_text(&r.result.content[0]), "broken");
    assert_eq!(write_json(&r.result.details), "{}");
}

#[test]
fn prepared_arguments_replace_the_given() {
    let c = call("1", "a");
    let same = prepare_tool_call_arguments(&c, None);
    assert_eq!(write_json(&arguments_object(&same)), "{\"path\":\"f\"}");
    let members = vec![("x".to_string(), Json::Bool(false))];
    let changed = prepare_tool_call_arguments(&c, Some(Json::Object(members)));
    assert_eq!(write_json(&arguments_object(&changed)), "{\"x\":false}");
    let odd = prepare_tool_call_arguments(&c, Some(Json::Null));
    assert_eq!(write_json(&arguments_object(&odd)), "{}");
}

#[test]
fn batches_end_the_run_together() {
    let stop = |t| outcome(call("1", "a"), "x", t);
    assert!(!should_terminate_tool_batch(&vec![]));
    assert!(should_terminate_tool_batch(&vec![stop(Some(true))]));
    assert!(!should_terminate_tool_batch(&vec![stop(Some(true)), stop(None)]));
    assert!(!should_terminate_tool_batch(&vec![stop(Some(false))]));
}

#[test]
fn one_tool_makes_all_wait() {
    let tool = |name: &str, execution_mode| ToolMode { name: name.to_string(), execution_mode };
    let tools = vec![tool("a", None), tool("b", Some(ToolExecutionMode::Sequential))];
    let parallel = Some(ToolExecutionMode::Parallel);
    assert!(!runs_sequentially(parallel, &tools, &vec![call("1", "a")]));
    assert!(runs_sequentially(parallel, &tools, &vec![call("1", "a"), call("2", "b")]));
    assert!(runs_sequentially(Some(ToolExecutionMode::Sequential), &tools, &vec![]));
    assert!(!runs_sequentially(None, &tools, &vec![call("1", "c")]));
}

#[test]
fn empty_name_lists_are_left_out() {
    let mut finalized = outcome(call("1", "a"), "x", None);
    finalized.result.added_tool_names = Some(vec![]);
    assert!(create_tool_result_message(&finalized, 3).added_tool_names.is_none());
    finalized.result.added_tool_names = Some(vec!["t".to_string()]);
    let message = create_tool_result_message(&finalized, 3);
    assert_eq!(message.added_tool_names, Some(vec!["t".to_string()]));
    assert_eq!(message.tool_name, "a");
}

#[test]
fn application_messages_are_kept_from_the_model() {
    let messages = vec![user("a"), custom_message("note", Json::Null), user("b")];
    let seen = pass_through_llm_messages(messages);
    assert_eq!(seen.len(), 2);
    assert!(seen.iter().all(|m| matches!(m, Message::User(_))));
}

#[test]
fn queues_give_one_or_all() {
    let mut one = PendingMessageQueue::new(QueueMode::OneAtATime);
    assert!(!one.has_items());
    one.enqueue(user("a"));
    one.enqueue(user("b"));
    assert_eq!(texts(&one.drain()), vec!["a"]);
    assert_eq!(texts(&one.drain()), vec!["b"]);
    assert!(one.drain().is_empty());
    let mut all = PendingMessageQueue::new(QueueMode::All);
    all.enqueue(user("a"));
    all.enqueue(user("b"));
    assert_eq!(texts(&all.drain()), vec!["a", "b"]);
    all.enqueue(user("c"));
    all.clear();
    assert!(!all.has_items());
}

#[test]
fn prompts_become_messages() {
    let input = AgentPromptInput::Text {
        text: "look".to_string(),
        images: vec![ImageContent { data: "d".to_string(), mime_type: "image/png".to_string() }],
    };
    let messages = normalize_prompt_input(input, 9);
    match &messages[0] {
        AgentMessage::User(m) => {
            assert_eq!(m.timestamp, 9);
            match &m.content {
                UserContent::Blocks(blocks) => {
                    let shown: Vec<String> = blocks.iter().map(block_text).collect();
                    assert_eq!(shown, vec!["look", "image/png"]);
                }
                UserContent::Text(_) => panic!("no blocks"),
            }
        }
        _ => panic!("no user message"),
    }
    assert_eq!(texts(&normalize_prompt_input(AgentPromptInput::Message(user("m")), 9)), vec!["m"]);
}

fn agent(messages: Vec<AgentMessage>) -> Agent {
    let initial = AgentInitialState {
        system_prompt: Some("be brief".to_string()),
        model: None,
        thinking_level: None,
        tools: None,
        messages: Some(messages),
    };
    Agent::new(initial, None, None)
}

#[test]
fn agents_are_busy_while_they_run() {
    let mut a = agent(vec![]);
    assert_eq!(a.system_prompt, "be brief");
    assert!(matches!(a.prompt(AgentPromptInput::from_text("hi".to_string()), 1), Ok(m) if m.len() == 1));
    assert!(a.begin_run(false).is_ok());
    assert!(a.is_streaming);
    assert!(matches!(a.begin_run(false), Err(e) if e == "Agent is already processing."));
    assert!(matches!(a.prompt(AgentPromptInput::from_text("hi".to_string()), 1), Err(e)
        if e == "Agent is already processing a prompt. Use steer() or followUp() to queue messages, or wait for completion."));
    assert!(matches!(a.continue_(), Err(e)
        if e == "Agent is already processing. Wait for completion before continuing."));
    assert!(matches!(a.reset(), Err(e)
        if e == "Agent is already processing. Wait for completion before resetting."));
    a.finish_run();
    assert!(!a.is_streaming);
    assert!(a.reset().is_ok());
}

#[test]
fn agents_continue_from_what_is_there() {
    assert!(matches!(agent(vec![]).continue_(), Err(e) if e == "No messages to continue from"));
    assert!(matches!(agent(vec![user("a")]).continue_(), Ok(Continuation::Resume)));
    let answered = || vec![AgentMessage::Assistant(answer("x", vec![], StopReason::Stop))];
    assert!(matches!(agent(answered()).continue_(), Err(e)
        if e == "Cannot continue from message role: assistant"));
    let mut a = agent(answered());
    a.steer(user("s"));
    a.follow_up(user("f"));
    assert!(a.has_queued_messages());
    assert!(matches!(a.continue_(), Ok(Continuation::Prompts { messages, skip_initial_poll })
        if texts(&messages) == vec!["s"] && skip_initial_poll));
    assert!(matches!(a.continue_(), Ok(Continuation::Prompts { messages, skip_initial_poll })
        if texts(&messages) == vec!["f"] && !skip_initial_poll));
    assert!(!a.has_queued_messages());
}

#[test]
fn the_first_poll_can_be_skipped() {
    let mut a = agent(vec![]);
    a.steer(user("s"));
    a.begin_run(true).unwrap();
    assert!(a.poll_steering().is_empty());
    assert_eq!(texts(&a.poll_steering()), vec!["s"]);
    a.follow_up(user("f"));
    assert_eq!(texts(&a.poll_follow_up()), vec!["f"]);
}

#[test]
fn events_change_the_agent() {
    let mut a = agent(vec![]);
    assert!(matches!(a.process_event(&AgentEvent::AgentStart), Err(e)
        if e == "Agent listener invoked outside active run"));
    a.begin_run(false).unwrap();
    a.process_event(&AgentEvent::MessageStart { message: user("p") }).unwrap();
    assert!(a.streaming_message.is_some());
    a.process_event(&AgentEvent::MessageEnd { message: user("p") }).unwrap();
    assert!(a.streaming_message.is_none());
    assert_eq!(texts(&a.messages), vec!["p"]);
    let start = AgentEvent::ToolExecutionStart {
        tool_call_id: "1".to_string(),
        tool_name: "a".to_string(),
        args: Json::Null,
    };
    a.process_event(&start).unwrap();
    a.process_event(&start).unwrap();
    assert_eq!(a.pending_tool_calls, vec!["1"]);
    let end = AgentEvent::ToolExecutionEnd {
        tool_call_id: "1".to_string(),
        tool_name: "a".to_string(),
        result: done("x", None),
        is_error: false,
    };
    a.process_event(&end).unwrap();
    assert!(a.pending_tool_calls.is_empty());
}

#[test]
fn failures_are_told_as_answers() {
    let mut a = agent(vec![]);
    a.begin_run(false).unwrap();
    let events = a.failure_events("broken".to_string(), false, 4);
    assert_eq!(names(&events), vec!["message_start", "message_end", "turn_end", "agent_end"]);
    for event in &events {
        a.process_event(event).unwrap();
    }
    assert_eq!(a.error_message.as_deref(), Some("broken"));
    match &a.messages[0] {
        AgentMessage::Assistant(m) => {
            assert_eq!(m.stop_reason, StopReason::Error);
            assert_eq!(m.model, default_model().id);
        }
        _ => panic!("no answer"),
    }
    match &a.failure_events("stop".to_string(), true, 4)[0] {
        AgentEvent::MessageStart { message: AgentMessage::Assistant(m) } => {
            assert_eq!(m.stop_reason, StopReason::Aborted)
        }
        _ => panic!("no answer"),
    }
}

#[test]
fn results_stay_with_their_messages() {
    let message: ToolResultMessage =
        create_tool_result_message(&outcome(call("1", "a"), "x", None), 3);
    assert_eq!(text_of(&AgentMessage::ToolResult(Arc::new(message))), "x");
}

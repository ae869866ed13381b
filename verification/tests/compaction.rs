use std::sync::Arc;

use pi_agent::compaction::branch_summarization::{
    branch_token_budget, build_branch_summary_prompt, can_prepare_branch,
    collect_entries_for_branch_summary, empty_branch_summary, finish_branch_summary,
    plan_branch_summary, prepare_branch_entries, BranchSummaryPlan,
};
use pi_agent::compaction::compaction::{
    build_summary_prompt, build_turn_prefix_prompt, can_prepare_compaction, can_quote,
    combine_usage, details_value, finish_compaction, next_compaction_step, prepare_compaction,
    read_details, read_summary, read_turn_prefix_summary, summary_reasoning, summary_token_limit,
    try_prepare_compaction, CompactionDetails, CompactionPreparation, CompactionStep,
};
use pi_agent::compaction::cut::{find_cut_point, find_turn_start_index};
use pi_agent::compaction::estimate::{
    calculate_context_tokens, can_count, estimate_context_tokens, estimate_tokens,
    get_last_assistant_usage, should_compact, CompactionSettings,
};
use pi_agent::compaction::utils::{
    can_cut, compute_file_lists, create_file_ops, extract_file_ops_from_message,
    format_file_operations, serialize_conversation, truncate_for_summary,
};
use pi_agent::harness_types::{BranchSummaryErrorCode, CompactionErrorCode};
use pi_agent::json::{int_value, write_json, Json};
use pi_agent::messages::{
    bash_execution_to_text, convert_to_llm, create_branch_summary_message,
    create_compaction_summary_message, create_custom_message, custom_message,
    CustomMessageContent, BRANCH_SUMMARY_PREFIX, COMPACTION_SUMMARY_PREFIX,
};
use pi_agent::session::context::{build_default_context, default_context_entry_transform};
use pi_agent::session::types::{Entry, SessionErrorCode};
use pi_agent::types::{
    AgentMessage, AssistantContent, AssistantMessage, BlockContent, ImageContent, JsF64, Message,
    StopReason, TextContent, ThinkingContent, ThinkingLevel, ToolCall, ToolResultMessage, Usage,
    UsageCost, UserContent, UserMessage,
};

fn text(t: &str) -> TextContent {
    TextContent { text: t.to_string(), text_signature: None }
}

fn user(t: &str) -> AgentMessage {
    AgentMessage::User(Arc::new(UserMessage {
        content: UserContent::Text(t.to_string()),
        timestamp: 1,
    }))
}

fn call(name: &str, path: &str) -> AssistantContent {
    AssistantContent::ToolCall(ToolCall {
        id: "c".to_string(),
        name: name.to_string(),
        arguments: Arc::new(vec![("path".to_string(), Json::Text(path.to_string()))]),
        thought_signature: None,
        namespace: None,
    })
}

fn response(content: Vec<AssistantContent>, stop_reason: StopReason, total: u64) -> AssistantMessage {
    AssistantMessage {
        content,
        api: "test-api".to_string(),
        provider: "test-provider".to_string(),
        model: "test-model".to_string(),
        usage: Usage { total_tokens: total, ..Usage::default() },
        stop_reason,
        error_message: None,
        deferred: None,
        timestamp: 2,
    }
}

fn answer(t: &str) -> AgentMessage {
    AgentMessage::Assistant(Arc::new(response(
        vec![AssistantContent::Text(text(t))],
        StopReason::Stop,
        0,
    )))
}

fn calling(content: Vec<AssistantContent>) -> AgentMessage {
    AgentMessage::Assistant(Arc::new(response(content, StopReason::ToolUse, 0)))
}

fn result(t: &str) -> AgentMessage {
    AgentMessage::ToolResult(Arc::new(ToolResultMessage {
        tool_call_id: "c".to_string(),
        tool_name: "read".to_string(),
        content: vec![BlockContent::Text(text(t))],
        details: None,
        usage: None,
        added_tool_names: None,
        is_error: false,
        timestamp: 3,
    }))
}

fn entry(id: &str, parent: Option<&str>, message: AgentMessage) -> Entry {
    Entry::Message {
        id: id.to_string(),
        message,
        terminate: None,
        parent_id: parent.map(str::to_string),
        seq: 1,
        timestamp: 4,
    }
}

fn chain(messages: Vec<AgentMessage>) -> Vec<Entry> {
    messages.into_iter().enumerate().map(|(i, m)| entry(&format!("e{i}"), None, m)).collect()
}

fn compaction(summary: &str, tail: Vec<AgentMessage>, details: Option<Json>) -> Entry {
    Entry::Compaction {
        id: "k".to_string(),
        summary: summary.to_string(),
        retained_tail: Arc::new(tail),
        tokens_before: 50,
        details: details.map(Arc::new),
        usage: None,
        parent_id: None,
        seq: 1,
        timestamp: 4,
    }
}

fn texts(messages: &[AgentMessage]) -> Vec<String> {
    messages
        .iter()
        .map(|m| match m {
            AgentMessage::User(m) => match &m.content {
                UserContent::Text(t) => t.clone(),
                UserContent::Blocks(_) => "blocks".to_string(),
            },
            AgentMessage::Assistant(m) => match &m.content[0] {
                AssistantContent::Text(t) => t.text.clone(),
                AssistantContent::Thinking(t) => t.thinking.clone(),
                AssistantContent::ToolCall(c) => c.name.clone(),
            },
            AgentMessage::ToolResult(_) => "result".to_string(),
            AgentMessage::Custom(m) => m.role.clone(),
        })
        .collect()
}

fn seen(message: &Message) -> String {
    match message {
        Message::User(m) => match &m.content {
            UserContent::Blocks(blocks) => blocks
                .iter()
                .map(|b| match b {
                    BlockContent::Text(t) => t.text.clone(),
                    BlockContent::Image(_) => "image".to_string(),
                })
                .collect::<Vec<String>>()
                .join("|"),
            UserContent::Text(t) => t.clone(),
        },
        Message::Assistant(_) => "assistant".to_string(),
        Message::ToolResult(_) => "result".to_string(),
    }
}

fn settings(keep_recent_tokens: u64) -> CompactionSettings {
    CompactionSettings { enabled: true, reserve_tokens: 100, keep_recent_tokens }
}

#[test]
fn tokens_are_a_quarter_of_the_characters() {
    assert_eq!(estimate_tokens(&user("")), 0);
    assert_eq!(estimate_tokens(&user("abcd")), 1);
    assert_eq!(estimate_tokens(&user("abcde")), 2);
    assert_eq!(estimate_tokens(&user("é")), 1);
    let image = AgentMessage::User(Arc::new(UserMessage {
        content: UserContent::Blocks(vec![
            BlockContent::Text(text("abcd")),
            BlockContent::Image(ImageContent {
                data: "x".to_string(),
                mime_type: "image/png".to_string(),
            }),
        ]),
        timestamp: 1,
    }));
    assert_eq!(estimate_tokens(&image), 1201);
    assert_eq!(estimate_tokens(&calling(vec![call("read", "f")])), 4);
    assert_eq!(estimate_tokens(&result("abcd")), 1);
    assert_eq!(estimate_tokens(&create_branch_summary_message("abcdefgh".to_string(), "x".to_string(), 1)), 2);
    assert_eq!(estimate_tokens(&custom_message("note", Json::Null)), 0);
}

#[test]
fn usage_counts_before_estimates() {
    let mut usage = Usage { input: 1, output: 2, cache_read: 3, cache_write: 4, ..Usage::default() };
    assert_eq!(calculate_context_tokens(&usage), 10);
    usage.total_tokens = 7;
    assert_eq!(calculate_context_tokens(&usage), 7);
    let used = AgentMessage::Assistant(Arc::new(response(
        vec![AssistantContent::Text(text("x"))],
        StopReason::Stop,
        40,
    )));
    let failed = AgentMessage::Assistant(Arc::new(response(vec![], StopReason::Error, 99)));
    let messages = vec![user("abcd"), used.clone(), failed.clone(), user("abcdefgh")];
    assert!(can_count(&messages));
    let e = estimate_context_tokens(&messages);
    assert_eq!((e.tokens, e.usage_tokens, e.trailing_tokens), (42, 40, 2));
    assert_eq!(e.last_usage_index, Some(1));
    let e = estimate_context_tokens(&vec![user("abcd"), answer("abcd")]);
    assert_eq!((e.tokens, e.usage_tokens, e.last_usage_index), (2, 0, None));
    let last = get_last_assistant_usage(&chain(vec![used, failed]));
    assert!(matches!(last, Some(u) if u.total_tokens == 40));
}

#[test]
fn compaction_begins_near_the_limit() {
    assert!(should_compact(901, 1000, &settings(1)));
    assert!(!should_compact(900, 1000, &settings(1)));
    assert!(should_compact(1, 50, &settings(1)));
    let off = CompactionSettings { enabled: false, ..settings(1) };
    assert!(!should_compact(901, 1000, &off));
    assert_eq!(CompactionSettings::default().keep_recent_tokens, 20000);
}

#[test]
fn cuts_keep_recent_turns() {
    let entries = chain(vec![
        user("aaaaaaaa"),
        answer("bbbbbbbb"),
        user("cccccccc"),
        calling(vec![call("read", "f")]),
        result("dddddddd"),
        answer("eeeeeeee"),
    ]);
    let cut = find_cut_point(&entries, 0, 6, 2);
    assert_eq!(cut.first_kept_entry_index, 5);
    assert_eq!((cut.turn_start_index, cut.is_split_turn), (2, true));
    let cut = find_cut_point(&entries, 0, 6, 3);
    assert_eq!(cut.first_kept_entry_index, 5);
    let cut = find_cut_point(&entries, 0, 6, 10);
    assert_eq!((cut.first_kept_entry_index, cut.is_split_turn), (2, false));
    assert_eq!(cut.turn_start_index, -1);
    let cut = find_cut_point(&entries, 0, 6, 1000);
    assert_eq!(cut.first_kept_entry_index, 0);
    assert_eq!(find_turn_start_index(&entries, 5, 0), 2);
    assert_eq!(find_turn_start_index(&entries, 1, 1), -1);
}

#[test]
fn compactions_are_prepared() {
    assert!(matches!(prepare_compaction(&vec![], settings(2)), Ok(None)));
    assert!(matches!(prepare_compaction(&vec![compaction("s", vec![], None)], settings(2)), Ok(None)));
    let entries = chain(vec![
        user("aaaaaaaa"),
        calling(vec![call("read", "r.txt"), call("edit", "e.txt")]),
        user("cccccccc"),
        calling(vec![call("write", "w.txt")]),
        answer("eeeeeeee"),
    ]);
    let p = match prepare_compaction(&entries, settings(2)) {
        Ok(Some(p)) => p,
        _ => panic!("not prepared"),
    };
    assert_eq!(texts(&p.messages_to_summarize), vec!["aaaaaaaa", "read"]);
    assert_eq!(texts(&p.turn_prefix_messages), vec!["cccccccc", "write"]);
    assert_eq!(texts(&p.retained_tail), vec!["eeeeeeee"]);
    assert!(p.is_split_turn);
    assert!(p.previous_summary.is_none());
    let (read, modified) = compute_file_lists(&p.file_ops);
    assert_eq!(read, vec!["r.txt"]);
    assert_eq!(modified, vec!["e.txt", "w.txt"]);
}

#[test]
fn compactions_build_on_each_other() {
    let details = details_value(&CompactionDetails {
        read_files: vec!["old.txt".to_string()],
        modified_files: vec![],
    });
    let entries = vec![
        entry("x", None, user("gone")),
        compaction("before", vec![user("kept")], Some(details)),
        entry("y", None, user("aaaaaaaa")),
    ];
    let p = match prepare_compaction(&entries, settings(2)) {
        Ok(Some(p)) => p,
        _ => panic!("not prepared"),
    };
    assert_eq!(p.previous_summary.as_deref(), Some("before"));
    assert_eq!(texts(&p.messages_to_summarize), vec!["kept"]);
    assert_eq!(texts(&p.retained_tail), vec!["aaaaaaaa"]);
    assert_eq!(compute_file_lists(&p.file_ops).0, vec!["old.txt"]);
}

fn preparation(split: bool, history: Vec<AgentMessage>, prefix: Vec<AgentMessage>) -> CompactionPreparation {
    let mut file_ops = create_file_ops();
    extract_file_ops_from_message(&calling(vec![call("read", "r")]), &mut file_ops);
    CompactionPreparation {
        messages_to_summarize: history,
        turn_prefix_messages: prefix,
        retained_tail: vec![user("tail")],
        is_split_turn: split,
        tokens_before: 9,
        previous_summary: None,
        file_ops,
        settings: settings(2),
    }
}

#[test]
fn compactions_are_finished() {
    let whole = preparation(false, vec![user("h")], vec![]);
    assert!(matches!(next_compaction_step(&whole, false, false), CompactionStep::SummarizeHistory));
    assert!(matches!(next_compaction_step(&whole, true, false), CompactionStep::Finish));
    let r = finish_compaction(whole, Some("S".to_string()), None, Usage::default());
    assert_eq!(r.summary, "S\n\n<read-files>\nr\n</read-files>");
    assert_eq!(r.details.read_files, vec!["r"]);
    assert_eq!((r.tokens_before, r.retained_tail.len()), (9, 1));
    let split = preparation(true, vec![], vec![user("p")]);
    assert!(matches!(next_compaction_step(&split, false, false), CompactionStep::SummarizeTurnPrefix));
    assert!(matches!(next_compaction_step(&split, false, true), CompactionStep::Finish));
    let r = finish_compaction(split, None, Some("P".to_string()), Usage::default());
    assert_eq!(
        r.summary,
        "No prior history.\n\n---\n\n**Turn Context (split turn):**\n\nP\n\n<read-files>\nr\n</read-files>"
    );
    let both = preparation(true, vec![user("h")], vec![user("p")]);
    assert!(matches!(next_compaction_step(&both, false, false), CompactionStep::SummarizeHistory));
    assert!(matches!(next_compaction_step(&both, true, false), CompactionStep::SummarizeTurnPrefix));
}

#[test]
fn summaries_are_asked_for() {
    let messages = vec![user("hello")];
    assert!(can_quote(&messages));
    let prompt = build_summary_prompt(&messages, &Some("dates".to_string()), &None);
    assert!(prompt.starts_with("<conversation>\n[User]: hello\n</conversation>\n\nThe messages above are a conversation to summarize."));
    assert!(prompt.ends_with("\n\nAdditional focus: dates"));
    let prompt = build_summary_prompt(&messages, &None, &Some("old".to_string()));
    assert!(prompt.starts_with("<conversation>\n[User]: hello\n</conversation>\n\n<previous-summary>\nold\n</previous-summary>\n\nThe messages above are NEW conversation messages"));
    assert!(build_turn_prefix_prompt(&messages).contains("This is the PREFIX of a turn"));
    assert_eq!(summary_token_limit(80, 0), 80);
    assert_eq!(summary_token_limit(80, 50), 50);
    assert_eq!(summary_reasoning(true, Some(ThinkingLevel::High)), Some(ThinkingLevel::High));
    assert_eq!(summary_reasoning(true, Some(ThinkingLevel::Off)), None);
    assert_eq!(summary_reasoning(false, Some(ThinkingLevel::High)), None);
}

#[test]
fn summaries_are_read() {
    let content = || vec![AssistantContent::Text(text("a")), AssistantContent::Text(text("b"))];
    assert!(matches!(read_summary(&response(content(), StopReason::Stop, 5)),
        Ok((s, u)) if s == "a\nb" && u.total_tokens == 5));
    let mut failed = response(content(), StopReason::Error, 0);
    assert!(matches!(read_summary(&failed), Err(e)
        if e.code == CompactionErrorCode::SummarizationFailed
            && e.message == "Summarization failed: Unknown error"));
    failed.error_message = Some("net".to_string());
    assert!(matches!(read_turn_prefix_summary(&failed), Err(e)
        if e.message == "Turn prefix summarization failed: net"));
    let aborted = response(content(), StopReason::Aborted, 0);
    assert!(matches!(read_summary(&aborted), Err(e)
        if e.code == CompactionErrorCode::Aborted && e.message == "Summarization aborted"));
    assert!(matches!(read_turn_prefix_summary(&aborted), Err(e)
        if e.message == "Turn prefix summarization aborted"));
}

#[test]
fn usages_add_up() {
    let zero = JsF64 { bits: 0 };
    let cost = UsageCost { input: zero, output: zero, cache_read: zero, cache_write: zero, total: zero };
    let a = Usage { input: 1, reasoning: Some(2), ..Usage::default() };
    let b = Usage { input: 3, total_tokens: 4, ..Usage::default() };
    let sum = combine_usage(&a, &b, cost);
    assert_eq!((sum.input, sum.total_tokens), (4, 4));
    assert_eq!((sum.reasoning, sum.cache_write_1h), (Some(2), None));
}

#[test]
fn details_read_back() {
    let details = CompactionDetails {
        read_files: vec!["a".to_string()],
        modified_files: vec!["b".to_string(), "c".to_string()],
    };
    let value = details_value(&details);
    assert_eq!(write_json(&value), "{\"readFiles\":[\"a\"],\"modifiedFiles\":[\"b\",\"c\"]}");
    let read = read_details(&value).unwrap();
    assert_eq!(read.read_files, details.read_files);
    assert_eq!(read.modified_files, details.modified_files);
    assert!(read_details(&Json::Null).is_none());
}

#[test]
fn files_are_listed_once() {
    let mut ops = create_file_ops();
    let message = calling(vec![
        call("read", "b"),
        call("read", "a"),
        call("read", "m"),
        call("edit", "m"),
        call("write", "n"),
        call("bash", "z"),
    ]);
    extract_file_ops_from_message(&message, &mut ops);
    let (read, modified) = compute_file_lists(&ops);
    assert_eq!(read, vec!["a", "b"]);
    assert_eq!(modified, vec!["m", "n"]);
    assert_eq!(
        format_file_operations(&read, &modified),
        "\n\n<read-files>\na\nb\n</read-files>\n\n<modified-files>\nm\nn\n</modified-files>"
    );
    assert_eq!(format_file_operations(&vec![], &vec![]), "");
}

#[test]
fn conversations_are_written_out() {
    let assistant = Message::Assistant(Arc::new(response(
        vec![
            AssistantContent::Thinking(ThinkingContent {
                thinking: "hm".to_string(),
                thinking_signature: None,
            }),
            AssistantContent::Text(text("one")),
            call("read", "f"),
        ],
        StopReason::ToolUse,
        0,
    )));
    let messages = vec![
        Message::User(Arc::new(UserMessage {
            content: UserContent::Text("hi".to_string()),
            timestamp: 1,
        })),
        assistant,
    ];
    assert_eq!(
        serialize_conversation(&messages),
        "[User]: hi\n\n[Assistant thinking]: hm\n\n[Assistant]: one\n\n[Assistant tool calls]: read(path=\"f\")"
    );
    assert_eq!(truncate_for_summary("abcdef", 4), "abcd\n\n[... 2 more characters truncated]");
    assert_eq!(truncate_for_summary("abc", 4), "abc");
    assert!(!can_cut("aé", 2));
    assert!(can_cut("aé", 1));
}

#[test]
fn branches_are_collected_up_to_the_common_ancestor() {
    let a = || entry("a", None, user("a"));
    let b = || entry("b", Some("a"), user("b"));
    let c = || entry("c", Some("b"), user("c"));
    let d = || entry("d", Some("a"), user("d"));
    let old = vec![c(), b(), a()];
    let target = vec![d(), a()];
    let r = match collect_entries_for_branch_summary(&Some("c".to_string()), &old, &target) {
        Ok(r) => r,
        Err(_) => panic!("refused"),
    };
    let ids: Vec<&str> = r.entries.iter().map(|e| e.id().as_str()).collect();
    assert_eq!(ids, vec!["b", "c"]);
    assert_eq!(r.common_ancestor_id.as_deref(), Some("a"));
    assert!(matches!(collect_entries_for_branch_summary(&None, &old, &target),
        Ok(r) if r.entries.is_empty() && r.common_ancestor_id.is_none()));
    assert!(matches!(collect_entries_for_branch_summary(&Some("c".to_string()), &vec![], &target),
        Err(e) if e.code == SessionErrorCode::InvalidEntry && e.message == "Entry c not found"));
}

#[test]
fn branch_summaries_keep_to_the_budget() {
    let entries = chain(vec![user("aaaaaaaa"), result("rrrr"), user("bbbbbbbb"), user("cccc")]);
    let p = prepare_branch_entries(&entries, 3);
    assert_eq!(texts(&p.messages), vec!["bbbbbbbb", "cccc"]);
    assert_eq!(p.total_tokens, 3);
    let p = prepare_branch_entries(&entries, 0);
    assert_eq!(texts(&p.messages), vec!["aaaaaaaa", "bbbbbbbb", "cccc"]);
    assert_eq!(branch_token_budget(0, None), 128_000 - 16384);
    assert_eq!(branch_token_budget(1000, Some(2000)), 0);
}

#[test]
fn branch_summaries_are_made() {
    let messages = vec![user("x")];
    let custom = Some("dates".to_string());
    assert_eq!(
        build_branch_summary_prompt(&messages, &custom, true),
        "<conversation>\n[User]: x\n</conversation>\n\ndates"
    );
    assert!(build_branch_summary_prompt(&messages, &custom, false).ends_with("\n\nAdditional focus: dates"));
    assert_eq!(empty_branch_summary().summary, "No content to summarize");
    let mut ops = create_file_ops();
    extract_file_ops_from_message(&calling(vec![call("edit", "m")]), &mut ops);
    let good = response(vec![AssistantContent::Text(text("S"))], StopReason::Stop, 0);
    assert!(matches!(finish_branch_summary(&good, &ops), Ok(r) if r.summary
        == "The user explored a different conversation branch before returning here.\nSummary of that exploration:\n\nS\n\n<modified-files>\nm\n</modified-files>"));
    let failed = response(vec![], StopReason::Error, 0);
    assert!(matches!(finish_branch_summary(&failed, &ops), Err(e)
        if e.code == BranchSummaryErrorCode::SummarizationFailed
            && e.message == "Branch summary failed: Unknown error"));
    let aborted = response(vec![], StopReason::Aborted, 0);
    assert!(matches!(finish_branch_summary(&aborted, &ops), Err(e)
        if e.code == BranchSummaryErrorCode::Aborted && e.message == "Branch summary aborted"));
}

fn object(members: &[(&str, Json)]) -> Json {
    Json::Object(members.iter().map(|(k, v)| (k.to_string(), v.clone())).collect())
}

#[test]
fn shell_runs_are_told() {
    let words = |t: &str| Json::Text(t.to_string());
    let run = object(&[("command", words("ls")), ("output", words("a")), ("exitCode", int_value(2))]);
    assert_eq!(bash_execution_to_text(&run), "Ran `ls`\n```\na\n```\n\nCommand exited with code 2");
    let run = object(&[
        ("command", words("ls")),
        ("cancelled", Json::Bool(true)),
        ("truncated", Json::Bool(true)),
        ("fullOutputPath", words("/t")),
    ]);
    assert_eq!(
        bash_execution_to_text(&run),
        "Ran `ls`\n(no output)\n\n(command cancelled)\n\n[Output truncated. Full output: /t]"
    );
}

#[test]
fn application_messages_reach_the_model() {
    let run = object(&[("command", Json::Text("ls".to_string())), ("timestamp", int_value(8))]);
    let hidden = object(&[("excludeFromContext", Json::Bool(true))]);
    let messages = vec![
        user("u"),
        custom_message("bashExecution", run),
        custom_message("bashExecution", hidden),
        create_custom_message(
            "t".to_string(),
            CustomMessageContent::Blocks(vec![BlockContent::Text(text("b1")), BlockContent::Text(text("b2"))]),
            true,
            Json::Null,
            5,
        ),
        create_branch_summary_message("S".to_string(), "x".to_string(), 6),
        create_compaction_summary_message("C".to_string(), 7, 7),
        custom_message("unknown", Json::Null),
    ];
    let told = convert_to_llm(&messages);
    let shown: Vec<String> = told.iter().map(seen).collect();
    assert_eq!(
        shown,
        vec![
            "u".to_string(),
            "Ran `ls`\n(no output)".to_string(),
            "b1|b2".to_string(),
            format!("{BRANCH_SUMMARY_PREFIX}S</summary>"),
            format!("{COMPACTION_SUMMARY_PREFIX}C\n</summary>"),
        ]
    );
    assert!(matches!(&told[1], Message::User(m) if m.timestamp == 8));
}

#[test]
fn contexts_begin_at_the_last_compaction() {
    let deferred = AgentMessage::Assistant(Arc::new(response(vec![], StopReason::Deferred, 0)));
    let level = Entry::ThinkingLevelChange {
        id: "t".to_string(),
        thinking_level: "high".to_string(),
        parent_id: None,
        seq: 1,
        timestamp: 1,
    };
    let entries = vec![
        entry("x", None, user("gone")),
        level,
        compaction("C", vec![user("kept")], None),
        entry("y", None, answer("new")),
        entry("z", None, deferred),
    ];
    assert_eq!(default_context_entry_transform(&entries).len(), 3);
    let context = build_default_context(&entries);
    assert_eq!(texts(&context.messages), vec!["compactionSummary", "kept", "new"]);
    assert_eq!(context.thinking_level, "high");
    assert_eq!(context.model.unwrap().model_id, "test-model");
    assert!(context.active_tool_names.is_none());
}

#[test]
fn branch_summaries_are_planned() {
    let entries = chain(vec![user("hello"), calling(vec![call("read", "r.txt")])]);
    assert!(can_prepare_branch(&entries, 0));
    let custom = Some("dates".to_string());
    match plan_branch_summary(&entries, 0, None, &custom, true) {
        BranchSummaryPlan::Ask { prompt, file_ops } => {
            assert!(prompt.starts_with("<conversation>\n[User]: hello\n"));
            assert!(prompt.ends_with("\n</conversation>\n\ndates"));
            assert_eq!(compute_file_lists(&file_ops).0, vec!["r.txt"]);
        }
        _ => panic!("a model is asked"),
    }
    match plan_branch_summary(&chain(vec![result("r")]), 0, None, &None, false) {
        BranchSummaryPlan::Finished(found) => {
            assert_eq!(found.summary, "No content to summarize");
        }
        _ => panic!("there is nothing to ask"),
    }
}

#[test]
fn compactions_are_tried() {
    let entries = chain(vec![user("aaaaaaaa"), answer("bbbbbbbb"), user("cccc")]);
    assert!(can_prepare_compaction(&entries, settings(1)));
    match try_prepare_compaction(&entries, settings(1)) {
        Some(Ok(Some(p))) => {
            assert_eq!(texts(&p.messages_to_summarize), vec!["aaaaaaaa", "bbbbbbbb"]);
            assert_eq!(texts(&p.retained_tail), vec!["cccc"]);
        }
        _ => panic!("not prepared"),
    }
    let huge = |total: u64| {
        AgentMessage::Assistant(Arc::new(response(vec![], StopReason::Stop, total)))
    };
    let full = chain(vec![user("aaaa"), huge(u64::MAX), user("bbbb")]);
    assert!(try_prepare_compaction(&full, settings(1)).is_none());
}

#[test]
fn the_largest_usage_is_counted() {
    let largest = AgentMessage::Assistant(Arc::new(response(
        vec![AssistantContent::Text(text("abcd"))],
        StopReason::Stop,
        u64::MAX,
    )));
    let messages = vec![user("abcdefgh"), largest.clone()];
    assert!(can_count(&messages));
    let e = estimate_context_tokens(&messages);
    assert_eq!((e.tokens, e.usage_tokens, e.trailing_tokens), (u64::MAX, u64::MAX, 0));
    assert_eq!(e.last_usage_index, Some(1));
    let small = AgentMessage::Assistant(Arc::new(response(vec![], StopReason::Stop, 5)));
    let messages = vec![largest.clone(), small, user("abcd")];
    assert!(can_count(&messages));
    assert_eq!(estimate_context_tokens(&messages).tokens, 6);
    assert!(!can_count(&vec![largest.clone(), user("a")]));
    assert!(can_count(&vec![largest, user("")]));
}

#[test]
fn nothing_to_compact_needs_no_counting() {
    assert!(can_prepare_compaction(&vec![], settings(1)));
    assert!(matches!(try_prepare_compaction(&vec![], settings(1)), Some(Ok(None))));
}

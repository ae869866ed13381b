use std::sync::Arc;

use pi_agent::agent::{default_model, Agent, AgentInitialState};
use pi_agent::agent_events::AgentEvent;
use pi_agent::agent_loop::{resolve_api_key, TurnSettings, TurnUpdate};
use pi_agent::harness_types::{FileError, FileErrorCode, FileInfo, FileKind};
use pi_agent::json::{write_json, Json};
use pi_agent::prompt_templates::{
    list_diagnostic, load_template, PromptTemplateDiagnosticCode, TemplateAction, TemplateWalk,
};
use pi_agent::telemetry::{agent_schema_versions, ai_span_names, harness_span_names};
use pi_agent::tool_calls::{ToolMode, UpdateBuffer};
use pi_agent::tools::result::text_result;
use pi_agent::types::{
    AgentMessage, BlockContent, JsF64, QueueMode, ThinkingLevel, ToolCall, UserContent,
    UserMessage,
};
use pi_agent::utils::shell_output::CaptureState;

fn user(text: &str) -> AgentMessage {
    AgentMessage::User(Arc::new(UserMessage {
        content: UserContent::Text(text.to_string()),
        timestamp: 1,
    }))
}

fn info(name: &str, kind: FileKind) -> FileInfo {
    FileInfo {
        name: name.to_string(),
        path: format!("/prompts/{name}"),
        kind,
        size: 1,
        mtime_ms: JsF64 { bits: 0 },
    }
}

#[test]
fn reasoning_that_is_off_is_not_asked_for() {
    assert_eq!(ThinkingLevel::Off.as_provider_reasoning(), None);
    assert_eq!(
        ThinkingLevel::Xhigh.as_provider_reasoning(),
        Some(ThinkingLevel::Xhigh)
    );
}

#[test]
fn hooks_change_the_settings_of_a_turn() {
    let mut settings = TurnSettings { model: default_model(), reasoning: None };
    settings.update(TurnUpdate { model: None, thinking_level: Some(ThinkingLevel::Low) });
    assert_eq!(settings.reasoning, Some(ThinkingLevel::Low));
    assert_eq!(settings.model.id, "unknown");
    let mut other = default_model();
    other.id = "other".to_string();
    settings.update(TurnUpdate { model: Some(other), thinking_level: None });
    assert_eq!(settings.reasoning, Some(ThinkingLevel::Low));
    assert_eq!(settings.model.id, "other");
    settings.update(TurnUpdate { model: None, thinking_level: Some(ThinkingLevel::Off) });
    assert_eq!(settings.reasoning, None);
}

#[test]
fn fresh_keys_come_first() {
    let text = |t: &str| Some(t.to_string());
    assert_eq!(resolve_api_key(text("old"), text("new")), text("new"));
    assert_eq!(resolve_api_key(text("old"), text("")), text("old"));
    assert_eq!(resolve_api_key(text("old"), None), text("old"));
    assert_eq!(resolve_api_key(None, text("")), None);
}

#[test]
fn updates_are_told_when_a_call_has_settled() {
    let mut buffer = UpdateBuffer::new(ToolCall {
        id: "c1".to_string(),
        name: "bash".to_string(),
        arguments: Arc::new(Vec::new()),
        thought_signature: None,
        namespace: None,
    });
    buffer.offer(text_result("a".to_string(), Json::Null));
    buffer.offer(text_result("b".to_string(), Json::Null));
    let events = buffer.settle();
    let shown: Vec<String> = events
        .iter()
        .map(|event| match event {
            AgentEvent::ToolExecutionUpdate { tool_call_id, tool_name, partial_result, .. } => {
                assert_eq!(tool_call_id, "c1");
                assert_eq!(tool_name, "bash");
                match &partial_result.content[0] {
                    BlockContent::Text(block) => block.text.clone(),
                    BlockContent::Image(_) => panic!("no image was offered"),
                }
            }
            _ => panic!("only updates were offered"),
        })
        .collect();
    assert_eq!(shown, vec!["a".to_string(), "b".to_string()]);
    buffer.offer(text_result("late".to_string(), Json::Null));
    assert_eq!(buffer.settle().len(), 0);
}

#[test]
fn settings_of_an_agent_read_back() {
    let mut agent = Agent::new(
        AgentInitialState {
            system_prompt: Some("be brief".to_string()),
            model: None,
            thinking_level: None,
            tools: None,
            messages: Some(vec![user("a")]),
        },
        None,
        Some(QueueMode::All),
    );
    assert_eq!(agent.system_prompt(), "be brief");
    assert_eq!(agent.model().provider, "unknown");
    assert_eq!(agent.thinking_level(), ThinkingLevel::Off);
    assert_eq!(agent.tools().len(), 0);
    assert_eq!(agent.steering_mode(), QueueMode::OneAtATime);
    assert_eq!(agent.follow_up_mode(), QueueMode::All);
    assert!(!agent.is_streaming());
    assert!(agent.streaming_message().is_none());
    assert_eq!(agent.pending_tool_calls().len(), 0);
    assert_eq!(agent.error_message(), None);

    agent.set_system_prompt("be long".to_string());
    agent.set_thinking_level(ThinkingLevel::High);
    agent.set_tools(vec![ToolMode { name: "read".to_string(), execution_mode: None }]);
    agent.set_steering_mode(QueueMode::All);
    agent.set_follow_up_mode(QueueMode::OneAtATime);
    agent.push_message(user("b"));
    assert_eq!(agent.system_prompt(), "be long");
    assert_eq!(agent.thinking_level(), ThinkingLevel::High);
    assert_eq!(agent.tools()[0].name, "read");
    assert_eq!(agent.steering_mode(), QueueMode::All);
    assert_eq!(agent.follow_up_mode(), QueueMode::OneAtATime);
    assert_eq!(agent.messages().len(), 2);
    agent.set_messages(Vec::new());
    assert_eq!(agent.messages().len(), 0);
    let mut other = default_model();
    other.id = "other".to_string();
    agent.set_model(other);
    assert_eq!(agent.model().id, "other");
}

#[test]
fn template_directories_are_walked_in_order() {
    let listed = vec![
        info("z.md", FileKind::File),
        info("sub", FileKind::Directory),
        info("note.txt", FileKind::File),
        info("gone.md", FileKind::Symlink),
        info("link.md", FileKind::Symlink),
        info("a.md", FileKind::File),
    ];
    let mut walk = TemplateWalk::new(listed);
    let mut loaded: Vec<String> = Vec::new();
    let mut asked: Vec<String> = Vec::new();
    let mut resolved = None;
    loop {
        match walk.next(resolved.take()) {
            TemplateAction::Resolve { entry } => {
                if entry.name == "link.md" {
                    resolved = Some(FileKind::File);
                }
                asked.push(entry.name);
            }
            TemplateAction::Load { entry } => loaded.push(entry.path),
            TemplateAction::Finish => break,
        }
    }
    assert_eq!(asked, vec!["gone.md".to_string(), "link.md".to_string()]);
    assert_eq!(
        loaded,
        vec![
            "/prompts/a.md".to_string(),
            "/prompts/link.md".to_string(),
            "/prompts/z.md".to_string(),
        ]
    );
    assert!(matches!(walk.next(None), TemplateAction::Finish));
}

#[test]
fn templates_are_loaded_or_diagnosed() {
    let text = "---\ndescription: Looks at a change\n---\nLook at $1".to_string();
    let template = match load_template("/prompts/look.md", "look.md", Ok(text)) {
        Ok(template) => template,
        Err(_) => panic!("the file can be read"),
    };
    assert_eq!(template.name, "look");
    assert_eq!(template.description, Some("Looks at a change".to_string()));
    assert_eq!(template.content, "Look at $1");

    let broken = "---\ndescription: [1\n---\nx".to_string();
    assert!(matches!(load_template("/prompts/x.md", "x.md", Ok(broken)),
        Err(d) if d.code == PromptTemplateDiagnosticCode::ParseFailed && d.path == "/prompts/x.md"));

    let error = FileError::new(FileErrorCode::PermissionDenied, "denied".to_string());
    assert!(matches!(load_template("/prompts/x.md", "x.md", Err(error)),
        Err(d) if d.code == PromptTemplateDiagnosticCode::ReadFailed && d.message == "denied"));

    let error = FileError::new(FileErrorCode::NotFound, "gone".to_string());
    let diagnostic = list_diagnostic(&error, "/prompts");
    assert_eq!(diagnostic.code, PromptTemplateDiagnosticCode::ListFailed);
    assert_eq!(diagnostic.message, "gone");
    assert_eq!(diagnostic.path, "/prompts");
}

#[test]
fn schemas_are_read_by_name() {
    let payload = "{\"harness\":{\"version\":7,\"spans\":{\"run\":{}}},\
        \"ai\":{\"version\":3,\"spans\":{\"request\":{},\"answer\":{}}}}";
    assert_eq!(agent_schema_versions(payload), Some(vec![3, 7]));
    assert_eq!(harness_span_names(payload), Some(vec!["run".to_string()]));
    assert_eq!(
        ai_span_names(payload),
        Some(vec!["request".to_string(), "answer".to_string()])
    );
    assert_eq!(agent_schema_versions("{\"ai\":{\"version\":3}}"), None);
    assert_eq!(harness_span_names("no schemas"), None);
}

#[test]
fn ordinary_output_has_room() {
    let mut state = CaptureState::new();
    assert!(state.has_room("a line\r\n"));
    assert_eq!(state.on_chunk("a line\r\n"), "a line\n");
    assert!(state.has_room("another"));
}

#[test]
fn texts_are_quoted() {
    assert_eq!(write_json(&Json::Text("a\"b\n\u{1}".to_string())), "\"a\\\"b\\n\\u0001\"");
}

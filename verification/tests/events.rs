use pi_agent::agent_harness::{
    AgentHarness, AgentHarnessOptions, HarnessScaffoldError, HOOK_NAMES,
};
use pi_agent::agent::default_model;
use pi_agent::events::{HarnessEvent, HarnessEventBus, RunOutcome};
use pi_agent::telemetry::{span_names_in_order, AI_REQUEST_START_ATTRIBUTES};
use pi_agent::tools::bash::create_bash_tool;
use pi_agent::tools::read::create_read_tool;
use pi_agent::types::{QueueMode, ThinkingLevel};

fn start(id: &str) -> HarnessEvent {
    HarnessEvent::RunStart { lane: "main".to_string(), run_id: id.to_string() }
}

fn end(id: &str) -> HarnessEvent {
    HarnessEvent::RunEnd {
        lane: "main".to_string(),
        run_id: id.to_string(),
        outcome: RunOutcome::Completed,
        leaf_id: "l".to_string(),
    }
}

fn run_ids(events: &[HarnessEvent]) -> Vec<String> {
    events
        .iter()
        .map(|event| match event {
            HarnessEvent::RunStart { run_id, .. } => run_id.clone(),
            HarnessEvent::RunEnd { run_id, .. } => run_id.clone(),
        })
        .collect()
}

#[test]
fn events_and_outcomes_are_named() {
    assert_eq!(start("a").event_type(), "run_start");
    assert_eq!(end("a").event_type(), "run_end");
    assert_eq!(RunOutcome::Completed.as_str(), "completed");
    assert_eq!(RunOutcome::Aborted.as_str(), "aborted");
    assert_eq!(RunOutcome::Failed.as_str(), "failed");
}

#[test]
fn listeners_are_told_of_their_events() {
    let mut bus = HarnessEventBus::new();
    assert_eq!(bus.on("run_start", 1), 1);
    bus.on("run_end", 2);
    bus.on("run_start", 3);
    assert_eq!(bus.emit(start("a")), vec![1, 3]);
    assert_eq!(bus.emit(end("a")), vec![2]);
    bus.off("run_start", 1);
    assert_eq!(bus.emit(start("b")), vec![3]);
}

#[test]
fn taking_off_undoes_putting_on() {
    let mut bus = HarnessEventBus::new();
    bus.on("run_start", 1);
    bus.on("run_end", 2);
    let id = bus.on("run_start", 2);
    bus.off("run_start", id);
    assert_eq!(bus.emit(start("a")), vec![1]);
    assert_eq!(bus.emit(end("a")), vec![2]);
    bus.on("run_start", 1);
    bus.off("run_start", 1);
    assert!(bus.emit(start("b")).is_empty());
}

#[test]
fn watchers_miss_nothing() {
    let mut bus = HarnessEventBus::new();
    let watch = bus.watch();
    assert!(bus.emit(start("a")).is_empty());
    assert!(bus.emit(end("a")).is_empty());
    assert_eq!(run_ids(&watch.start(&mut bus, 7)), vec!["a", "a"]);
    assert!(bus.emit(start("b")).is_empty());
    assert_eq!(run_ids(&watch.start(&mut bus, 7)), vec!["b"]);
    assert!(watch.start(&mut bus, 7).is_empty());
    assert_eq!(bus.emit(start("c")), vec![7]);
    watch.unsubscribe(&mut bus);
    assert!(bus.emit(start("d")).is_empty());
}

#[test]
fn stopping_drops_what_was_kept() {
    let mut bus = HarnessEventBus::new();
    let watch = bus.watch();
    bus.emit(start("a"));
    watch.unsubscribe(&mut bus);
    bus.emit(start("b"));
    assert!(watch.start(&mut bus, 7).is_empty());
}

fn options() -> AgentHarnessOptions<u8> {
    AgentHarnessOptions {
        model: default_model(),
        thinking_level: None,
        active_tool_names: None,
        tools: Some(vec![create_bash_tool(), create_read_tool()]),
        stream_options: 5,
        retry: None,
        compaction: None,
        steering_mode: None,
        follow_up_mode: Some(QueueMode::All),
        resources: None,
    }
}

#[test]
fn harnesses_start_with_their_defaults() {
    let harness = match AgentHarness::create(options(), false) {
        Ok(harness) => harness,
        Err(_) => panic!("refused"),
    };
    assert_eq!(harness.get_thinking_level(), ThinkingLevel::Off);
    assert_eq!(harness.get_active_tools(), vec!["bash", "read"]);
    assert_eq!(harness.get_tools().len(), 2);
    assert_eq!(*harness.get_stream_options(), 5);
    assert_eq!(harness.get_retry_policy().base_delay_ms, 1000);
    assert!(!harness.get_retry_policy().enabled);
    assert_eq!(harness.get_compaction_settings().reserve_tokens, 16384);
    assert_eq!(harness.get_steering_mode(), QueueMode::OneAtATime);
    assert_eq!(harness.get_follow_up_mode(), QueueMode::All);
    assert!(harness.get_resources().skills.is_none());
    assert!(!harness.is_closed());
    assert_eq!(harness.get_model().id, "unknown");
}

#[test]
fn sessions_with_records_are_not_restored() {
    match AgentHarness::create(options(), true) {
        Err(e) => {
            assert_eq!(e.display(), "AgentHarness.create.restore is not implemented yet")
        }
        Ok(_) => panic!("accepted"),
    }
}

#[test]
fn missing_operations_are_refused() {
    let mut harness = match AgentHarness::create(options(), false) {
        Ok(harness) => harness,
        Err(_) => panic!("refused"),
    };
    let refused = harness.unavailable("prompt");
    assert!(matches!(&refused, HarnessScaffoldError::NotImplemented(e) if e.operation == "prompt"));
    assert_eq!(refused.display(), "AgentHarness.prompt is not implemented yet");
    harness.close();
    let refused = harness.unavailable("prompt");
    assert_eq!(refused.display(), "AgentHarness was closed while the operation was active");
}

#[test]
fn configurations_read_back() {
    let mut harness = match AgentHarness::create(options(), false) {
        Ok(harness) => harness,
        Err(_) => panic!("refused"),
    };
    harness.set_thinking_level(ThinkingLevel::High);
    assert_eq!(harness.get_thinking_level(), ThinkingLevel::High);
    harness.set_active_tools(vec!["read".to_string()]);
    assert_eq!(harness.get_active_tools(), vec!["read"]);
    harness.set_tools(vec![create_read_tool()], None);
    assert_eq!(harness.get_active_tools(), vec!["read"]);
    harness.set_tools(vec![create_read_tool()], Some(vec![]));
    assert!(harness.get_active_tools().is_empty());
    harness.set_stream_options(9);
    assert_eq!(*harness.get_stream_options(), 9);
    harness.set_steering_mode(QueueMode::All);
    assert_eq!(harness.get_steering_mode(), QueueMode::All);
    assert_eq!(HOOK_NAMES.len(), 11);
}

#[test]
fn spans_are_named_in_order() {
    let schemas = "{\"ai\":{\"spans\":{\"z\":1,\"a\":2}},\"harness\":{}}";
    assert_eq!(
        span_names_in_order(schemas, "ai"),
        Some(vec!["z".to_string(), "a".to_string()])
    );
    assert_eq!(span_names_in_order(schemas, "harness"), None);
    assert_eq!(span_names_in_order("{", "ai"), None);
    assert_eq!(AI_REQUEST_START_ATTRIBUTES[0], "pi.ai.operation");
}

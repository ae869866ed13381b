use std::sync::Arc;

use pi_agent::session::memory::{
    branch_start, check_record_query, custom_entry, fork_metadata, leaf_of_lane, message_entry,
    with_result_limit, InMemorySessionRepo, InMemorySessionStorage,
};
use pi_agent::session::state::{SessionMutation, SessionState};
use pi_agent::session::types::{
    BranchBounds, Entry, EntryCursor, EntryOrder, EntryQuery, EntryType, ForkOptions, ForkPosition,
    LaneRecord, LogItem, LogOptions, OperationIntent, RecordQuery, RecordType, SessionErrorCode,
    SessionMetadata, UsageCause,
};
use pi_agent::types::{
    AgentMessage, AssistantContent, AssistantMessage, BlockContent, JsF64, StopReason, TextContent,
    Usage, UserContent, UserMessage,
};

fn user(text: &str) -> AgentMessage {
    AgentMessage::User(Arc::new(UserMessage {
        content: UserContent::Blocks(vec![BlockContent::Text(TextContent {
            text: text.to_string(),
            text_signature: None,
        })]),
        timestamp: 1,
    }))
}

fn assistant(text: &str) -> AgentMessage {
    AgentMessage::Assistant(Arc::new(AssistantMessage {
        content: vec![AssistantContent::Text(TextContent {
            text: text.to_string(),
            text_signature: None,
        })],
        api: "test-api".to_string(),
        provider: "test-provider".to_string(),
        model: "test-model".to_string(),
        usage: Usage::default(),
        stop_reason: StopReason::Stop,
        error_message: None,
        deferred: None,
        timestamp: 1,
    }))
}

fn storage(id: &str) -> InMemorySessionStorage {
    InMemorySessionStorage::new(SessionMetadata {
        id: id.to_string(),
        created_at: 5,
        parent_session_id: None,
    })
}

fn message(id: &str, text: &str) -> Entry {
    message_entry(id.to_string(), user(text))
}

fn query(order: Option<EntryOrder>) -> EntryQuery {
    EntryQuery { entry_type: None, custom_type: None, order, limit: None, cursor: None }
}

fn records() -> RecordQuery {
    RecordQuery {
        lane: None,
        record_type: None,
        run_id: None,
        operation_kind: None,
        after_seq: None,
        order: None,
        limit: None,
    }
}

fn bounds(start: Option<&str>, stop_at_id: Option<&str>) -> BranchBounds {
    BranchBounds {
        start: start.map(str::to_string),
        stop_at_type: None,
        stop_at_id: stop_at_id.map(str::to_string),
    }
}

fn started(id: &str, lane: &str, kind: &str) -> LaneRecord {
    let intent = match kind {
        "run" => OperationIntent::Run {
            original_prompt: Arc::new(Vec::new()),
            initial_messages: Arc::new(Vec::new()),
            system_prompt_override: None,
            resume_data: None,
        },
        "compaction" => OperationIntent::Compaction {
            custom_instructions: None,
            result_entry_id: format!("{id}-result"),
        },
        _ => OperationIntent::Navigation {
            target_id: None,
            summarize: false,
            custom_instructions: None,
            label: None,
            summary_entry_id: None,
        },
    };
    LaneRecord::OperationStarted {
        id: id.to_string(),
        lane: lane.to_string(),
        source_leaf_id: None,
        intent,
        seq: 0,
        timestamp: 0,
    }
}

fn finished(id: &str, lane: &str, run: &str) -> LaneRecord {
    LaneRecord::OperationFinished {
        id: id.to_string(),
        lane: lane.to_string(),
        run_id: run.to_string(),
        outcome: "completed".to_string(),
        error: None,
        seq: 0,
        timestamp: 0,
    }
}

fn append(session: &mut InMemorySessionStorage, entry: Entry, lane: &str) -> String {
    match session.append_entry(entry, lane.to_string(), 100) {
        Ok(stored) => stored.id().clone(),
        Err(e) => panic!("append refused: {}", e.message),
    }
}

fn ids(entries: &[Entry]) -> Vec<String> {
    entries.iter().map(|entry| entry.id().clone()).collect()
}

#[test]
fn messages_are_appended_and_branches_read() {
    let mut session = storage("one");
    let first = append(&mut session, message("u", "hello"), "main");
    let second = append(
        &mut session,
        message_entry("a".to_string(), assistant("hi")),
        "main",
    );
    assert_eq!(session.get_lanes()[0].leaf_id, Some(second.clone()));
    let entries = session.find_entries(&query(Some(EntryOrder::OldestFirst)));
    assert_eq!(ids(&entries), vec![first.clone(), second.clone()]);
    let branch = session.find_entries_on_branch(
        &query(None),
        &bounds(Some(&second), Some(&first)),
        &second,
    );
    assert_eq!(ids(&branch), vec![second.clone(), first.clone()]);
    assert_eq!(entries[1].parent_id(), &Some(first));
    assert_eq!(entries[0].seq(), 1);
    assert_eq!(entries[1].seq(), 2);
    assert_eq!(entries[1].timestamp(), 100);
}

#[test]
fn duplicate_ids_are_refused_and_change_nothing() {
    let mut session = storage("two");
    append(&mut session, message("x", "first"), "main");
    let before = session.get_stats().message_count;
    let refused = session.append_entry(message("x", "again"), "main".to_string(), 100);
    match refused {
        Err(e) => {
            assert_eq!(e.code, SessionErrorCode::AlreadyExists);
            assert_eq!(e.message, "Session id already exists: x");
        }
        Ok(_) => panic!("accepted"),
    }
    assert_eq!(session.get_stats().message_count, before);
    assert_eq!(session.get_log(&LogOptions { after_seq: None, limit: None }).len(), 1);
}

#[test]
fn lanes_are_isolated_and_share_the_tree() {
    let mut session = storage("three");
    append(&mut session, message("root", "root"), "main");
    assert!(session
        .create_lane("thread".to_string(), Some("root".to_string()))
        .is_ok());
    append(&mut session, message("main-child", "main"), "main");
    append(&mut session, message("thread-child", "thread"), "thread");
    let lanes = session.get_lanes();
    assert_eq!(lanes.len(), 2);
    assert_eq!(lanes[0].lane, "main");
    assert_eq!(lanes[0].leaf_id.as_deref(), Some("main-child"));
    assert_eq!(lanes[1].lane, "thread");
    assert_eq!(lanes[1].leaf_id.as_deref(), Some("thread-child"));
    let oldest = query(Some(EntryOrder::OldestFirst));
    let start = "main-child".to_string();
    let branch = session.find_entries_on_branch(&oldest, &bounds(None, None), &start);
    assert_eq!(ids(&branch), vec!["root", "main-child"]);
    let start = "thread-child".to_string();
    let branch = session.find_entries_on_branch(&oldest, &bounds(None, None), &start);
    assert_eq!(ids(&branch), vec!["root", "thread-child"]);
}

#[test]
fn lanes_are_created_and_moved_only_where_they_can_be() {
    let mut session = storage("lanes");
    append(&mut session, message("root", "root"), "main");
    let taken = session.create_lane("main".to_string(), None);
    assert!(matches!(taken, Err(e) if e.code == SessionErrorCode::AlreadyExists
        && e.message == "Lane already exists: main"));
    let nowhere = session.create_lane("side".to_string(), Some("none".to_string()));
    assert!(matches!(nowhere, Err(e) if e.code == SessionErrorCode::NotFound
        && e.message == "Entry not found: none"));
    let unknown = session.move_lane("side".to_string(), None);
    assert!(matches!(unknown, Err(e) if e.code == SessionErrorCode::InvalidLane
        && e.message == "Lane not found: side"));
    assert!(session.move_lane("main".to_string(), None).is_ok());
    assert_eq!(session.get_lanes()[0].leaf_id, None);
    let refused = session.append_entry(message("x", "x"), "side".to_string(), 1);
    assert!(matches!(refused, Err(e) if e.code == SessionErrorCode::InvalidLane));
}

#[test]
fn one_operation_is_open_per_lane() {
    let mut session = storage("five");
    assert!(session.append_record(started("run-1", "main", "run"), 1).is_ok());
    match session.append_record(started("run-2", "main", "run"), 1) {
        Err(e) => {
            assert_eq!(e.code, SessionErrorCode::Storage);
            assert_eq!(e.message, "Lane main already has an open operation run-1");
        }
        Ok(_) => panic!("accepted"),
    }
    assert_eq!(session.find_open_operations("main", Some(2)).len(), 1);
    assert!(session.append_record(finished("finish-1", "main", "run-1"), 1).is_ok());
    assert!(session.find_open_operations("main", None).is_empty());
    assert!(session.append_record(started("run-2", "main", "run"), 1).is_ok());
}

#[test]
fn names_are_set_and_taken_away() {
    let mut session = storage("six");
    assert!(session.set_name(Some("a name".to_string())).is_ok());
    assert_eq!(session.get_name(), Some("a name".to_string()));
    assert!(session.set_name(None).is_ok());
    assert_eq!(session.get_name(), None);
}

#[test]
fn labels_read_back() {
    let mut session = storage("labels");
    append(&mut session, message("e", "x"), "main");
    let id = "e".to_string();
    assert!(session.set_label(id.clone(), Some("mark".to_string())).is_ok());
    assert_eq!(session.get_label(&id), Some("mark".to_string()));
    assert!(session.set_label(id.clone(), None).is_ok());
    assert_eq!(session.get_label(&id), None);
    let refused = session.set_label("other".to_string(), None);
    assert!(matches!(refused, Err(e) if e.code == SessionErrorCode::NotFound));
}

#[test]
fn metadata_is_kept() {
    let session = storage("seven");
    let metadata = session.get_metadata();
    assert_eq!(metadata.id, "seven");
    assert_eq!(metadata.created_at, 5);
    assert_eq!(metadata.parent_session_id, None);
}

#[test]
fn tree_forks_keep_messages_and_name() {
    let mut session = storage("eight");
    append(&mut session, message("a", "a"), "main");
    append(&mut session, message("b", "b"), "main");
    assert!(session.set_name(Some("kept".to_string())).is_ok());
    let metadata = fork_metadata(&"eight".to_string(), "fork".to_string(), 9, None);
    assert_eq!(metadata.parent_session_id, Some("eight".to_string()));
    match session.fork_storage(metadata, &ForkOptions::Tree) {
        Ok(fork) => {
            assert_eq!(fork.get_stats().message_count, 2);
            assert_eq!(fork.get_name(), Some("kept".to_string()));
            assert_eq!(fork.get_lanes()[0].leaf_id.as_deref(), Some("b"));
        }
        Err(e) => panic!("refused: {}", e.message),
    }
}

#[test]
fn branch_forks_keep_the_branch() {
    let mut session = storage("branch");
    append(&mut session, message("a", "a"), "main");
    append(&mut session, message("b", "b"), "main");
    append(&mut session, message("c", "c"), "main");
    let metadata = fork_metadata(&"branch".to_string(), "fork".to_string(), 9, None);
    let at = ForkOptions::Branch {
        entry_id: Some("b".to_string()),
        position: Some(ForkPosition::At),
    };
    match session.fork_storage(metadata, &at) {
        Ok(fork) => {
            let entries = fork.find_entries(&query(Some(EntryOrder::OldestFirst)));
            assert_eq!(ids(&entries), vec!["a", "b"]);
        }
        Err(e) => panic!("refused: {}", e.message),
    }
    let metadata = fork_metadata(
        &"branch".to_string(),
        "fork".to_string(),
        9,
        Some("other".to_string()),
    );
    assert_eq!(metadata.parent_session_id, Some("other".to_string()));
    let nowhere = ForkOptions::Branch { entry_id: Some("none".to_string()), position: None };
    match session.fork_storage(metadata, &nowhere) {
        Err(e) => assert_eq!(e.code, SessionErrorCode::InvalidForkTarget),
        Ok(_) => panic!("accepted"),
    }
}

#[test]
fn terminate_is_kept() {
    let mut session = storage("nine");
    let entry = Entry::Message {
        id: "t".to_string(),
        message: user("done"),
        terminate: Some(true),
        parent_id: None,
        seq: 0,
        timestamp: 0,
    };
    append(&mut session, entry, "main");
    let found = session.get_entry(&"t".to_string());
    match found {
        Some(entry) => assert_eq!(entry.message_terminate(), Some(true)),
        None => panic!("missing"),
    }
}

#[test]
fn records_are_filtered() {
    let mut session = storage("ten");
    assert!(session.append_record(started("run-1", "main", "run"), 1).is_ok());
    assert!(session.append_record(finished("finish-1", "main", "run-1"), 1).is_ok());
    assert!(session.append_record(started("comp-1", "main", "compaction"), 1).is_ok());
    let all = session.find_records(&records());
    assert_eq!(all.len(), 3);
    let starts = session.find_records(&RecordQuery {
        record_type: Some(RecordType::OperationStarted),
        ..records()
    });
    assert_eq!(starts.len(), 2);
    let runs = session.find_records(&RecordQuery {
        record_type: Some(RecordType::OperationStarted),
        operation_kind: Some("run".to_string()),
        ..records()
    });
    assert_eq!(runs.len(), 1);
    let of_run = session.find_records(&RecordQuery {
        run_id: Some("run-1".to_string()),
        ..records()
    });
    assert!(of_run.iter().all(|record| record.id() == "finish-1" || record.id() == "run-1"));
    let later = session.find_records(&RecordQuery { after_seq: Some(2), ..records() });
    assert_eq!(later.len(), 1);
    let other_lane = session.find_records(&RecordQuery {
        lane: Some("side".to_string()),
        ..records()
    });
    assert!(other_lane.is_empty());
}

#[test]
fn custom_entries_are_found_by_their_type() {
    let mut session = storage("eleven");
    append(&mut session, custom_entry("c1".to_string(), "note".to_string(), None), "main");
    append(&mut session, custom_entry("c2".to_string(), "mark".to_string(), None), "main");
    let found = session.find_entries(&EntryQuery {
        entry_type: Some(EntryType::Custom),
        custom_type: Some("mark".to_string()),
        ..query(None)
    });
    assert_eq!(ids(&found), vec!["c2"]);
}

#[test]
fn queries_are_limited_and_resumed() {
    let mut session = storage("limits");
    for id in ["a", "b", "c"] {
        append(&mut session, message(id, id), "main");
    }
    let newest = session.find_entries(&query(None));
    assert_eq!(ids(&newest), vec!["c", "b", "a"]);
    let two = session.find_entries(&EntryQuery { limit: Some(2), ..query(None) });
    assert_eq!(ids(&two), vec!["c", "b"]);
    let rest = session.find_entries(&EntryQuery {
        cursor: Some(EntryCursor { after_seq: 2 }),
        ..query(Some(EntryOrder::OldestFirst))
    });
    assert_eq!(ids(&rest), vec!["c"]);
    assert!(session.find_entries(&EntryQuery { limit: Some(0), ..query(None) }).is_empty());
}

#[test]
fn zero_limits_are_invalid_queries() {
    let state = SessionState::new();
    let refused = state.find_entries(&EntryQuery { limit: Some(0), ..query(None) });
    assert!(matches!(refused, Err(e) if e.code == SessionErrorCode::InvalidQuery));
    let refused = state.get_log(&LogOptions { after_seq: None, limit: Some(0) });
    assert!(matches!(refused, Err(e) if e.code == SessionErrorCode::InvalidQuery));
}

#[test]
fn the_log_holds_everything_in_order() {
    let mut session = storage("log");
    append(&mut session, message("a", "a"), "main");
    assert!(session.set_name(Some("n".to_string())).is_ok());
    assert!(session.create_lane("side".to_string(), None).is_ok());
    let log = session.get_log(&LogOptions { after_seq: Some(1), limit: None });
    assert_eq!(log.len(), 2);
    assert!(matches!(&log[0], LogItem::NameFact { seq: 2, .. }));
    assert!(matches!(&log[1], LogItem::Lane { seq: 3, lane, .. } if lane == "side"));
}

#[test]
fn usage_is_totalled() {
    let mut session = storage("usage");
    let usage = Usage {
        input: 10,
        output: 5,
        cache_read: 3,
        cache_write: 2,
        total_tokens: 20,
        ..Usage::default()
    };
    let record = LaneRecord::Usage {
        id: "u1".to_string(),
        lane: "main".to_string(),
        usage,
        cause: UsageCause::Hook { run_id: "r".to_string(), entry_id: "e".to_string() },
        seq: 0,
        timestamp: 0,
    };
    assert!(session.append_record(record, 1).is_ok());
    let stats = session.get_stats();
    assert_eq!(stats.cached_tokens, 3);
    assert_eq!(stats.uncached_tokens, 12);
    assert_eq!(stats.total_tokens, 20);
    assert_eq!(stats.costs, vec![JsF64 { bits: 0 }]);
}

#[test]
fn mutations_are_refused_where_they_break_the_session() {
    let mut state = SessionState::new();
    let gap = state.apply_mutation(SessionMutation::NameFact { seq: 2, name: None });
    assert!(matches!(gap, Err(e)
        if e.message == "Invalid session mutation: has non-consecutive seq 2"));
    let target = state.apply_mutation(SessionMutation::LabelFact {
        seq: 1,
        target_id: "x".to_string(),
        label: None,
    });
    assert!(matches!(target, Err(e)
        if e.message == "Invalid session mutation: references missing label target x"));
    let lane = state.apply_mutation(SessionMutation::Lane {
        seq: 1,
        lane: "side".to_string(),
        leaf_id: Some("x".to_string()),
    });
    assert!(matches!(lane, Err(e)
        if e.message == "Invalid session mutation: references missing lane target x"));
    let parent = state.apply_mutation(SessionMutation::Entry {
        lane: None,
        entry: message("a", "a").with_storage_fields(Some("p".to_string()), 1, 1),
    });
    assert!(matches!(parent, Err(e)
        if e.message == "Invalid session mutation: references missing parent p"));
    let chain = state.apply_mutation(SessionMutation::Entry {
        lane: Some("main".to_string()),
        entry: message("a", "a").with_storage_fields(Some("p".to_string()), 1, 1),
    });
    assert!(matches!(chain, Err(e)
        if e.message == "Invalid session mutation: does not chain to the lane leaf"));
    assert_eq!(state.sequence(), 0);
}

#[test]
fn branches_start_where_they_are_asked_to() {
    let mut session = storage("start");
    append(&mut session, message("a", "a"), "main");
    let lanes = session.get_lanes();
    assert!(matches!(branch_start(&bounds(Some("x"), None), &lanes, "main"),
        Ok(Some(id)) if id == "x"));
    assert!(matches!(branch_start(&bounds(None, None), &lanes, "main"),
        Ok(Some(id)) if id == "a"));
    assert!(matches!(branch_start(&bounds(None, None), &lanes, "side"),
        Err(e) if e.code == SessionErrorCode::InvalidLane));
    assert!(matches!(leaf_of_lane(&lanes, "main"), Ok(Some(id)) if id == "a"));
    assert_eq!(with_result_limit(query(None), Some(3)).limit, Some(3));
}

#[test]
fn record_queries_with_a_kind_ask_for_starts() {
    let asked = RecordQuery { operation_kind: Some("run".to_string()), ..records() };
    assert!(matches!(check_record_query(&asked),
        Err(e) if e.code == SessionErrorCode::InvalidQuery));
    let asked = RecordQuery {
        operation_kind: Some("run".to_string()),
        record_type: Some(RecordType::OperationStarted),
        ..records()
    };
    assert!(check_record_query(&asked).is_ok());
}

#[test]
fn sessions_are_registered_once() {
    let mut repo: InMemorySessionRepo<u32> = InMemorySessionRepo::new();
    let metadata = |id: &str, created_at: i64| SessionMetadata {
        id: id.to_string(),
        created_at,
        parent_session_id: None,
    };
    assert!(repo.create(metadata("b", 2), 20).is_ok());
    assert!(repo.create(metadata("a", 1), 10).is_ok());
    assert!(matches!(repo.create(metadata("a", 3), 30),
        Err(e) if e.code == SessionErrorCode::AlreadyExists));
    assert!(matches!(repo.open("a"), Ok(10)));
    assert!(matches!(repo.open("c"), Err(e) if e.code == SessionErrorCode::NotFound));
    let listed: Vec<String> = repo.list().iter().map(|m| m.id.clone()).collect();
    assert_eq!(listed.len(), 2);
    assert!(matches!(repo.check_fork("a", "b"),
        Err(e) if e.code == SessionErrorCode::AlreadyExists));
    assert!(repo.check_fork("a", "new").is_ok());
    assert!(matches!(repo.check_fork("none", "new"),
        Err(e) if e.code == SessionErrorCode::NotFound));
    repo.delete("a");
    assert!(repo.open("a").is_err());
}

#[test]
fn forks_count_from_one() {
    let mut state = SessionState::new();
    let steps = vec![
        SessionMutation::Entry {
            lane: Some("main".to_string()),
            entry: message("a", "a").with_storage_fields(None, 1, 0),
        },
        SessionMutation::NameFact { seq: 2, name: Some("old".to_string()) },
        SessionMutation::NameFact { seq: 3, name: Some("new".to_string()) },
        SessionMutation::LabelFact {
            seq: 4,
            target_id: "a".to_string(),
            label: Some("mark".to_string()),
        },
    ];
    assert!(state.replay(steps).is_ok());
    match state.create_fork_mutations(&ForkOptions::Tree) {
        Ok(steps) => {
            let numbers: Vec<u64> = steps
                .iter()
                .map(|step| match step {
                    SessionMutation::Entry { entry, .. } => entry.seq(),
                    SessionMutation::Record { record } => record.seq(),
                    SessionMutation::Lane { seq, .. }
                    | SessionMutation::NameFact { seq, .. }
                    | SessionMutation::LabelFact { seq, .. } => *seq,
                })
                .collect();
            assert_eq!(numbers, vec![1, 2, 3, 4]);
            assert!(matches!(&steps[0], SessionMutation::Entry { lane: None, .. }));
            assert!(matches!(&steps[1], SessionMutation::Lane { lane, .. } if lane == "main"));
            assert!(matches!(&steps[2], SessionMutation::NameFact { name: Some(n), .. } if n == "new"));
            assert!(matches!(&steps[3], SessionMutation::LabelFact { target_id, .. } if target_id == "a"));
        }
        Err(e) => panic!("refused: {}", e.message),
    }
}

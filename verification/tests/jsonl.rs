use std::sync::Arc;

use pi_agent::harness_types::{FileError, FileErrorCode, FileInfo, FileKind};
use pi_agent::json::{same_json, Json};
use pi_agent::session::jsonl::codec::{
    decode_mutation, encode_header, encode_mutation, metadata_from_header, parse_header,
    parse_mutation, JsonlSessionMetadata, JsonlV4Header, WireMutation,
};
use pi_agent::session::jsonl::errors::{
    file_err, file_result, invalid_file, JsonlDecodeError, JsonlDecodeErrorKind,
};
use pi_agent::session::jsonl::load::{LoadProgress, Payload};
use pi_agent::session::jsonl::repo::{
    check_loaded_id, civil_from_days, fork_options, is_session_entry,
    jsonl_session_directory_name, listed_metadata, missing_session_error, new_header,
    session_directories, session_file_name, session_id_exists, validate_session_id,
    ActiveCreations, JsonlSessionCreateOptions,
};
use pi_agent::session::jsonl::storage::{
    entry_mutation, read_header, record_mutation, session_lines, staging_path,
    JsonlSessionStorage, Publication, PublishReply, PublishRequest, Repair,
};
use pi_agent::session::memory::message_entry;
use pi_agent::session::state::SessionMutation;
use pi_agent::session::types::{Entry, SessionError, SessionErrorCode};
use pi_agent::types::{AgentMessage, JsF64, UserContent, UserMessage};

fn text(value: &str) -> Json {
    Json::Text(value.to_string())
}

fn object(members: Vec<(&str, Json)>) -> Json {
    Json::Object(members.into_iter().map(|(k, v)| (k.to_string(), v)).collect())
}

fn header() -> JsonlV4Header {
    JsonlV4Header {
        version: 4,
        id: "abc".to_string(),
        created_at: 1234,
        cwd: "/work".to_string(),
        parent_session_id: Some("p".to_string()),
        legacy_parent_session_path: None,
        metadata: Some(object(vec![("k", Json::Bool(true))])),
    }
}

fn metadata() -> JsonlSessionMetadata {
    metadata_from_header(&header(), "/s/file.jsonl".to_string(), JsF64 { bits: 7 })
}

fn parse_error(line: &str) -> (JsonlDecodeErrorKind, String) {
    match parse_mutation(line) {
        Err(e) => (e.kind, e.message),
        Ok(_) => panic!("accepted"),
    }
}

fn header_error(line: &str) -> String {
    match parse_header(line) {
        Err(e) => e.message,
        Ok(_) => panic!("accepted"),
    }
}

#[test]
fn headers_are_written_in_order() {
    assert_eq!(
        encode_header(&header()),
        "{\"kind\":\"header\",\"version\":4,\"id\":\"abc\",\"createdAt\":1234,\"cwd\":\"/work\",\"parentSessionId\":\"p\",\"metadata\":{\"k\":true}}\n"
    );
}

#[test]
fn headers_read_back() {
    let line = encode_header(&header());
    match parse_header(line.trim_end()) {
        Ok(read) => {
            assert_eq!(read.version, 4);
            assert_eq!(read.id, "abc");
            assert_eq!(read.created_at, 1234);
            assert_eq!(read.cwd, "/work");
            assert_eq!(read.parent_session_id, Some("p".to_string()));
            assert_eq!(read.legacy_parent_session_path, None);
            let kept = read.metadata.expect("metadata");
            assert!(same_json(&kept, &object(vec![("k", Json::Bool(true))])));
        }
        Err(e) => panic!("refused: {}", e.message),
    }
}

#[test]
fn bad_headers_are_told_apart() {
    assert!(header_error("{").starts_with("is not valid JSON: "));
    assert_eq!(header_error("[]"), "is not a JSON object");
    assert_eq!(header_error("{\"kind\":\"entry\"}"), "is not a header");
    assert_eq!(
        header_error("{\"kind\":\"header\",\"version\":3}"),
        "has unsupported session version"
    );
    assert_eq!(
        header_error("{\"kind\":\"header\",\"version\":4,\"parentSessionId\":null}"),
        "has invalid parentSessionId"
    );
    assert_eq!(
        header_error("{\"kind\":\"header\",\"version\":4,\"legacyParentSessionPath\":1}"),
        "has invalid legacyParentSessionPath"
    );
    assert_eq!(
        header_error(
            "{\"kind\":\"header\",\"version\":4,\"parentSessionId\":\"a\",\"legacyParentSessionPath\":\"b\"}"
        ),
        "has both parentSessionId and legacyParentSessionPath"
    );
    assert_eq!(
        header_error("{\"kind\":\"header\",\"version\":4,\"metadata\":[]}"),
        "has invalid metadata"
    );
    assert_eq!(header_error("{\"kind\":\"header\",\"version\":4}"), "has invalid id");
    assert_eq!(
        header_error("{\"kind\":\"header\",\"version\":4,\"id\":\"a\",\"createdAt\":-1}"),
        "has invalid timestamp"
    );
    assert_eq!(
        header_error("{\"kind\":\"header\",\"version\":4,\"id\":\"a\",\"createdAt\":1}"),
        "has invalid cwd"
    );
}

#[test]
fn plain_mutations_read_back() {
    let lane = WireMutation::Lane {
        seq: 3,
        lane: "side".to_string(),
        leaf_id: None,
    };
    let line = encode_mutation(&lane);
    assert_eq!(line, "{\"kind\":\"lane\",\"seq\":3,\"lane\":\"side\",\"leafId\":null}\n");
    assert!(matches!(parse_mutation(line.trim_end()),
        Ok(WireMutation::Lane { seq: 3, lane, leaf_id: None }) if lane == "side"));

    let name = WireMutation::NameFact { seq: 4, name: Some("a \"name\"".to_string()) };
    let line = encode_mutation(&name);
    assert_eq!(
        line,
        "{\"kind\":\"fact\",\"seq\":4,\"fact\":\"name\",\"name\":\"a \\\"name\\\"\"}\n"
    );
    assert!(matches!(parse_mutation(line.trim_end()),
        Ok(WireMutation::NameFact { seq: 4, name: Some(name) }) if name == "a \"name\""));

    let label = WireMutation::LabelFact { seq: 5, target_id: "e".to_string(), label: None };
    let line = encode_mutation(&label);
    assert_eq!(line, "{\"kind\":\"fact\",\"seq\":5,\"fact\":\"label\",\"targetId\":\"e\"}\n");
    assert!(matches!(parse_mutation(line.trim_end()),
        Ok(WireMutation::LabelFact { seq: 5, label: None, .. })));
}

#[test]
fn entries_read_back() {
    let payload = object(vec![
        ("type", text("custom")),
        ("id", text("e1")),
        ("customType", text("note")),
        ("parentId", Json::Null),
        ("seq", Json::Unsigned(1)),
        ("timestamp", Json::Unsigned(9)),
    ]);
    let entry = WireMutation::Entry { lane: Some("main".to_string()), payload: payload.clone() };
    let line = encode_mutation(&entry);
    assert_eq!(
        line,
        "{\"kind\":\"entry\",\"lane\":\"main\",\"type\":\"custom\",\"id\":\"e1\",\"customType\":\"note\",\"parentId\":null,\"seq\":1,\"timestamp\":9}\n"
    );
    match parse_mutation(line.trim_end()) {
        Ok(WireMutation::Entry { lane, payload: read }) => {
            assert_eq!(lane, Some("main".to_string()));
            assert!(same_json(&read, &payload));
        }
        _ => panic!("not an entry"),
    }
}

#[test]
fn records_read_back() {
    let payload = object(vec![
        ("type", text("operation_finished")),
        ("id", text("r1")),
        ("lane", text("main")),
        ("runId", text("run")),
        ("outcome", text("completed")),
        ("seq", Json::Unsigned(2)),
        ("timestamp", Json::Unsigned(9)),
    ]);
    let line = encode_mutation(&WireMutation::Record { payload: payload.clone() });
    match parse_mutation(line.trim_end()) {
        Ok(WireMutation::Record { payload: read }) => assert!(same_json(&read, &payload)),
        _ => panic!("not a record"),
    }
}

#[test]
fn bad_mutations_are_told_apart() {
    assert_eq!(parse_error("{\"seq\":").0, JsonlDecodeErrorKind::Syntax);
    assert_eq!(parse_error("3").1, "is not a JSON object");
    assert_eq!(parse_error("{\"seq\":0}").1, "has invalid seq");
    assert_eq!(parse_error("{\"seq\":9223372036854775808}").1, "has invalid seq");
    assert_eq!(parse_error("{\"seq\":1}").1, "has unknown mutation kind");
    assert_eq!(parse_error("{\"seq\":1,\"kind\":\"fact\"}").1, "has unknown fact type");
    assert_eq!(
        parse_error("{\"seq\":1,\"kind\":\"fact\",\"fact\":\"name\",\"name\":1}").1,
        "has invalid name"
    );
    assert_eq!(
        parse_error("{\"seq\":1,\"kind\":\"fact\",\"fact\":\"label\",\"label\":1}").1,
        "has invalid label"
    );
    assert_eq!(
        parse_error("{\"seq\":1,\"kind\":\"fact\",\"fact\":\"label\"}").1,
        "has invalid targetId"
    );
    assert_eq!(parse_error("{\"seq\":1,\"kind\":\"lane\"}").1, "has invalid lane");
    assert_eq!(
        parse_error("{\"seq\":1,\"kind\":\"lane\",\"lane\":\"x\",\"leafId\":4}").1,
        "has invalid leafId"
    );
    assert_eq!(parse_error("{\"seq\":1,\"kind\":\"entry\",\"lane\":2}").1, "has invalid lane");
    assert_eq!(parse_error("{\"seq\":1,\"kind\":\"entry\"}").1, "has invalid id");
    assert_eq!(
        parse_error("{\"seq\":1,\"kind\":\"entry\",\"id\":\"e\"}").1,
        "has invalid entry type"
    );
    assert_eq!(
        parse_error("{\"seq\":1,\"kind\":\"entry\",\"id\":\"e\",\"type\":\"odd\"}").1,
        "has unknown entry type odd"
    );
    assert_eq!(
        parse_error(
            "{\"seq\":1,\"kind\":\"entry\",\"id\":\"e\",\"type\":\"message\",\"parentId\":1}"
        )
        .1,
        "has invalid parentId"
    );
    assert_eq!(
        parse_error("{\"seq\":1,\"kind\":\"entry\",\"id\":\"e\",\"type\":\"message\"}").1,
        "has invalid timestamp"
    );
    assert_eq!(
        parse_error(
            "{\"seq\":1,\"kind\":\"entry\",\"id\":\"e\",\"type\":\"custom\",\"timestamp\":1}"
        )
        .1,
        "has invalid customType"
    );
    let record = "{\"seq\":1,\"kind\":\"record\",\"id\":\"r\",\"lane\":\"main\",\"timestamp\":1";
    assert_eq!(parse_error(&format!("{record}}}")).1, "has invalid record type");
    assert_eq!(
        parse_error(&format!("{record},\"type\":\"odd\"}}")).1,
        "has unknown record type odd"
    );
    assert_eq!(
        parse_error(&format!("{record},\"type\":\"operation_started\"}}")).1,
        "has invalid intent"
    );
    assert_eq!(
        parse_error(&format!("{record},\"type\":\"operation_started\",\"intent\":{{}}}}")).1,
        "has invalid operation kind"
    );
    assert_eq!(
        parse_error(&format!(
            "{record},\"type\":\"operation_started\",\"intent\":{{\"kind\":\"odd\"}}}}"
        ))
        .1,
        "has unknown operation kind odd"
    );
    assert_eq!(
        parse_error(&format!("{record},\"type\":\"operation_finished\"}}")).1,
        "has invalid runId"
    );
}

#[test]
fn entries_without_a_parent_get_one() {
    let value = object(vec![
        ("kind", text("entry")),
        ("id", text("e")),
        ("type", text("message")),
        ("timestamp", Json::Unsigned(1)),
        ("seq", Json::Unsigned(1)),
    ]);
    match decode_mutation(Ok(value)) {
        Ok(WireMutation::Entry { payload, .. }) => {
            assert!(matches!(payload.get("parentId"), Some(Json::Null)));
            assert!(payload.get("kind").is_none());
        }
        _ => panic!("not an entry"),
    }
}

fn user_entry(id: &str, parent: Option<&str>, seq: u64) -> Entry {
    let message = AgentMessage::User(Arc::new(UserMessage {
        content: UserContent::Text("hi".to_string()),
        timestamp: 1,
    }));
    message_entry(id.to_string(), message).with_storage_fields(parent.map(str::to_string), seq, 1)
}

fn entry_line(id: &str, seq: u64) -> String {
    encode_mutation(&WireMutation::Entry {
        lane: Some("main".to_string()),
        payload: object(vec![
            ("id", text(id)),
            ("type", text("message")),
            ("parentId", Json::Null),
            ("timestamp", Json::Unsigned(1)),
            ("seq", Json::Unsigned(seq)),
        ]),
    })
}

fn load(
    content: &str,
    payloads: Vec<Payload>,
) -> Result<(JsonlSessionStorage, Repair), SessionError> {
    let mut progress = JsonlSessionStorage::load("/f", metadata(), content);
    let mut rest = payloads.into_iter();
    loop {
        progress = match progress {
            LoadProgress::Entry { loading, .. } => match rest.next() {
                Some(Payload::Entry(entry)) => loading.next(Payload::Entry(entry)),
                _ => panic!("no entry was expected"),
            },
            LoadProgress::Record { loading, .. } => match rest.next() {
                Some(Payload::Record(record)) => loading.next(Payload::Record(record)),
                _ => panic!("no record was expected"),
            },
            LoadProgress::Finished { result } => {
                assert!(rest.next().is_none());
                return result;
            }
        };
    }
}

#[test]
fn whole_files_are_loaded() {
    let content = format!(
        "h\n{}{}{}",
        entry_line("a", 1),
        entry_line("b", 2),
        encode_mutation(&WireMutation::NameFact { seq: 3, name: Some("n".to_string()) }),
    );
    let loaded = load(
        &content,
        vec![
            Payload::Entry(Ok(user_entry("a", None, 1))),
            Payload::Entry(Ok(user_entry("b", Some("a"), 2))),
        ],
    );
    match loaded {
        Ok((storage, repair)) => {
            assert!(matches!(repair, Repair::Nothing));
            assert_eq!(storage.state().sequence(), 3);
            assert_eq!(storage.state().get_name(), Some("n".to_string()));
            assert_eq!(storage.get_metadata().id, "abc");
            assert_eq!(storage.jsonl_metadata().path, "/s/file.jsonl");
        }
        Err(e) => panic!("refused: {}", e.message),
    }
}

#[test]
fn payloads_are_asked_for_as_they_stand() {
    let content = format!("h\n{}", entry_line("a", 1));
    match JsonlSessionStorage::load("/f", metadata(), &content) {
        LoadProgress::Entry { payload, .. } => {
            assert!(matches!(payload.get("id"), Some(Json::Text(id)) if id == "a"));
            assert!(payload.get("kind").is_none());
            assert!(payload.get("lane").is_none());
        }
        _ => panic!("no entry"),
    }
}

#[test]
fn torn_tails_are_dropped() {
    let content = format!("h\n{}{{\"torn", entry_line("a", 1));
    match load(&content, vec![Payload::Entry(Ok(user_entry("a", None, 1)))]) {
        Ok((storage, Repair::Replace { content })) => {
            assert_eq!(content, format!("h\n{}", entry_line("a", 1)));
            assert_eq!(session_lines(&content).len(), 2);
            assert_eq!(storage.state().sequence(), 1);
        }
        _ => panic!("not repaired"),
    }
}

#[test]
fn unterminated_files_get_a_line_end() {
    let line = encode_mutation(&WireMutation::NameFact { seq: 1, name: None });
    let content = format!("h\n{}", line.trim_end());
    assert!(matches!(load(&content, vec![]), Ok((_, Repair::EndLine))));
}

#[test]
fn bad_lines_are_told_by_their_number() {
    match load(&format!("h\n{{\n{}", entry_line("b", 1)), vec![]) {
        Err(e) => {
            assert_eq!(e.code, SessionErrorCode::InvalidEntry);
            assert!(
                e.message.starts_with("Invalid JSONL v4 session /f: line 2 is not valid JSON"),
                "{}",
                e.message
            );
        }
        Ok(_) => panic!("accepted"),
    }
    let content = format!("h\n{}", entry_line("a", 7));
    match load(&content, vec![Payload::Entry(Ok(user_entry("a", None, 7)))]) {
        Err(e) => assert_eq!(
            e.message,
            "Invalid JSONL v4 session /f: line 2 Invalid session mutation: has non-consecutive seq 7"
        ),
        Ok(_) => panic!("accepted"),
    }
    match load(&content, vec![Payload::Entry(Err("odd".to_string()))]) {
        Err(e) => assert_eq!(
            e.message,
            "Invalid JSONL v4 session /f: line 2 has invalid entry: odd"
        ),
        Ok(_) => panic!("accepted"),
    }
}

#[test]
fn written_lines_read_back_with_their_line_end() {
    let lane = WireMutation::Lane { seq: 3, lane: "main".to_string(), leaf_id: None };
    let line = encode_mutation(&lane);
    assert!(line.ends_with('\n') && !line[..line.len() - 1].contains('\n'));
    assert!(matches!(parse_mutation(&line),
        Ok(WireMutation::Lane { seq: 3, lane, leaf_id: None }) if lane == "main"));
    let name = encode_mutation(&WireMutation::NameFact { seq: 1, name: None });
    assert!(matches!(parse_mutation(&name), Ok(WireMutation::NameFact { seq: 1, name: None })));
    let label = encode_mutation(&WireMutation::LabelFact {
        seq: 2,
        target_id: "t\n".to_string(),
        label: None,
    });
    assert_eq!(session_lines(&label).len(), 1);
    assert!(matches!(parse_mutation(&label),
        Ok(WireMutation::LabelFact { seq: 2, target_id, label: None }) if target_id == "t\n"));
    assert!(matches!(parse_header(&encode_header(&header())), Ok(read) if read.id == "abc"));
}

#[test]
fn files_need_a_header() {
    match read_header("/f", &session_lines("")) {
        Err(e) => {
            assert_eq!(e.message, "Invalid JSONL v4 session /f: line 1 is missing a header")
        }
        Ok(_) => panic!("accepted"),
    }
    let lines = session_lines(&encode_header(&header()));
    assert!(matches!(read_header("/f", &lines), Ok(read) if read.id == "abc"));
}

#[test]
fn written_lines_are_found_again() {
    let mut content = encode_header(&header());
    let first = encode_mutation(&WireMutation::NameFact { seq: 1, name: Some("x\ny".to_string()) });
    content.push_str(&first);
    let lines = session_lines(&content);
    assert_eq!(lines.len(), 2);
    assert_eq!(format!("{}\n", lines[1]), first);
    assert!(matches!(parse_mutation(&lines[1]),
        Ok(WireMutation::NameFact { name: Some(name), .. }) if name == "x\ny"));
}

#[test]
fn planned_mutations_are_committed() {
    let mut storage = JsonlSessionStorage::new(metadata());
    let planned = storage.state().plan_name(Some("n".to_string()));
    assert!(storage.commit(planned).is_ok());
    assert_eq!(storage.state().get_name(), Some("n".to_string()));
    let again = storage.commit(SessionMutation::NameFact { seq: 1, name: None });
    assert!(matches!(again, Err(e) if e.code == SessionErrorCode::InvalidEntry));
}

#[test]
fn entries_and_records_that_cannot_be_read_are_schema_errors() {
    assert!(matches!(entry_mutation(None, Err("odd".to_string())),
        Err(e) if e.kind == JsonlDecodeErrorKind::Schema
            && e.message == "has invalid entry: odd"));
    assert!(matches!(record_mutation(Err("odd".to_string())),
        Err(e) if e.message == "has invalid record: odd"));
}

#[test]
fn file_errors_become_session_errors() {
    let missing = FileError {
        code: FileErrorCode::NotFound,
        message: "gone".to_string(),
        path: None,
    };
    let e = file_err(missing, "Failed");
    assert_eq!(e.code, SessionErrorCode::NotFound);
    assert_eq!(e.message, "Failed: gone");
    let denied = FileError {
        code: FileErrorCode::PermissionDenied,
        message: "no".to_string(),
        path: None,
    };
    assert!(matches!(file_result::<u32>(Err(denied), "Failed"),
        Err(e) if e.code == SessionErrorCode::Storage));
    assert!(matches!(file_result(Ok(3), "Failed"), Ok(3)));
    let bad = invalid_file("/f", 3, &JsonlDecodeError::schema("is odd".to_string()));
    assert_eq!(bad.message, "Invalid JSONL v4 session /f: line 3 is odd");
}

#[test]
fn session_ids_are_checked() {
    for id in ["a", "a-b_c.d", "0x9"] {
        assert!(validate_session_id(id).is_ok(), "{id}");
    }
    for id in ["", "-a", "a-", "a b", "a/b", "é"] {
        assert!(
            matches!(validate_session_id(id),
                Err(e) if e.code == SessionErrorCode::InvalidPayload),
            "{id}"
        );
    }
}

#[test]
fn directories_are_named_after_the_working_directory() {
    assert_eq!(jsonl_session_directory_name("/home/me/x"), "--home-me-x--");
    assert_eq!(jsonl_session_directory_name("\\srv\\x"), "--srv-x--");
    assert_eq!(jsonl_session_directory_name("C:\\x"), "--C--x--");
}

#[test]
fn days_become_dates() {
    assert_eq!(civil_from_days(0), (1970, 1, 1));
    assert_eq!(civil_from_days(-1), (1969, 12, 31));
    assert_eq!(civil_from_days(11016), (2000, 2, 29));
    assert_eq!(civil_from_days(11017), (2000, 3, 1));
    assert_eq!(civil_from_days(19782), (2024, 2, 29));
    assert_eq!(civil_from_days(-719_468), (0, 3, 1));
    assert_eq!(civil_from_days(-719_469), (0, 2, 29));
    assert_eq!(civil_from_days(47_540), (2100, 2, 28));
    assert_eq!(civil_from_days(47_541), (2100, 3, 1));
}

#[test]
fn files_are_named_after_their_time() {
    assert_eq!(session_file_name(0, "abc"), "1970-01-01T00-00-00-000Z_abc.jsonl");
    assert_eq!(
        session_file_name(1_709_210_096_789, "x.y"),
        "2024-02-29T12-34-56-789Z_x.y.jsonl"
    );
    assert_eq!(session_file_name(-1, "a"), "1969-12-31T23-59-59-999Z_a.jsonl");
    assert_eq!(
        session_file_name(253_402_300_800_000, "a"),
        "+010000-01-01T00-00-00-000Z_a.jsonl"
    );
    assert_eq!(
        session_file_name(-62_167_219_200_001, "a"),
        "-000001-12-31T23-59-59-999Z_a.jsonl"
    );
}

fn info(name: &str, kind: FileKind) -> FileInfo {
    FileInfo {
        name: name.to_string(),
        path: format!("/d/{name}"),
        kind,
        size: 0,
        mtime_ms: JsF64 { bits: 0 },
    }
}

#[test]
fn sessions_are_found_in_their_directory() {
    let entries = vec![
        info(&session_file_name(5, "abc"), FileKind::File),
        info("x_def.jsonl", FileKind::Directory),
        info("notes.txt", FileKind::File),
    ];
    assert!(session_id_exists(&entries, "abc"));
    assert!(!session_id_exists(&entries, "def"));
    assert!(!session_id_exists(&entries, "bc"));
    assert!(is_session_entry(&entries[0]));
    assert!(!is_session_entry(&entries[1]));
    assert!(!is_session_entry(&entries[2]));
    let roots = vec![
        info("a", FileKind::Directory),
        info("b", FileKind::File),
        info("c", FileKind::Symlink),
    ];
    assert_eq!(session_directories(&roots), vec!["/d/a", "/d/c"]);
}

#[test]
fn files_are_listed_by_their_header() {
    let line = encode_header(&header()).trim_end().to_string();
    let listed = listed_metadata(&Some(line), "/p".to_string(), JsF64 { bits: 3 });
    assert!(matches!(listed, Some(m) if m.id == "abc" && m.path == "/p" && m.source_format == 4));
    assert!(listed_metadata(&None, "/p".to_string(), JsF64 { bits: 3 }).is_none());
    assert!(listed_metadata(&Some("{}".to_string()), "/p".to_string(), JsF64 { bits: 3 }).is_none());
}

#[test]
fn creations_are_claimed_once() {
    let mut active = ActiveCreations::new();
    assert!(active.claim("/w", "a").is_ok());
    assert!(matches!(active.claim("/w", "a"),
        Err(e) if e.code == SessionErrorCode::AlreadyExists
            && e.message == "Session already exists: a"));
    assert!(active.claim("/v", "a").is_ok());
    active.release("/w", "a");
    assert!(active.claim("/w", "a").is_ok());
}

fn create_options(parent: Option<&str>) -> JsonlSessionCreateOptions {
    JsonlSessionCreateOptions {
        id: None,
        parent_session_id: parent.map(str::to_string),
        cwd: "/w".to_string(),
        metadata: None,
    }
}

#[test]
fn forks_name_their_parent() {
    let options = fork_options(create_options(None), "source");
    assert_eq!(options.parent_session_id, Some("source".to_string()));
    let options = fork_options(create_options(Some("other")), "source");
    assert_eq!(options.parent_session_id, Some("other".to_string()));
    let header = new_header("id", "/w", 3, &options);
    assert_eq!(header.parent_session_id, Some("other".to_string()));
    assert_eq!(header.legacy_parent_session_path, None);
    assert_eq!(header.created_at, 3);
}

#[test]
fn loaded_ids_have_to_match() {
    assert!(check_loaded_id("a", "a").is_ok());
    assert!(matches!(check_loaded_id("a", "b"),
        Err(e) if e.message == "Session id does not match header: a"));
    assert_eq!(missing_session_error("a").message, "Session not found: a");
    assert_eq!(staging_path("/x"), "/x.tmp");
}

#[test]
fn staged_files_take_the_place_of_others() {
    let (mut publication, request) = Publication::start("/s/a.jsonl".to_string());
    assert!(matches!(request, PublishRequest::Populate { path } if path == "/s/a.jsonl.tmp"));
    assert!(matches!(publication.next(PublishReply::Populated(Ok(()))),
        PublishRequest::Rename { from, to } if from == "/s/a.jsonl.tmp" && to == "/s/a.jsonl"));
    assert!(matches!(publication.next(PublishReply::Renamed(Ok(()))),
        PublishRequest::Finish { result: Ok(()) }));
}

#[test]
fn staged_files_are_taken_away_after_an_error() {
    let full = SessionError::new(SessionErrorCode::Storage, "disk full".to_string());
    let (mut publication, _) = Publication::start("/s/a.jsonl".to_string());
    assert!(matches!(publication.next(PublishReply::Populated(Err(full))),
        PublishRequest::Remove { path } if path == "/s/a.jsonl.tmp"));
    assert!(matches!(publication.next(PublishReply::Removed),
        PublishRequest::Finish { result: Err(error) } if error.message == "disk full"));

    let (mut publication, _) = Publication::start("/s/a.jsonl".to_string());
    publication.next(PublishReply::Populated(Ok(())));
    let denied = FileError::new(FileErrorCode::PermissionDenied, "denied".to_string());
    assert!(matches!(publication.next(PublishReply::Renamed(Err(denied))),
        PublishRequest::Remove { path } if path == "/s/a.jsonl.tmp"));
    assert!(matches!(publication.next(PublishReply::Removed),
        PublishRequest::Finish { result: Err(error) } if error.code == SessionErrorCode::Storage
            && error.message == "Failed to publish staged file /s/a.jsonl: denied"));
}

#[test]
fn claims_are_of_one_session() {
    let mut active = ActiveCreations::new();
    assert!(active.claim("/a", "b").is_ok());
    assert!(active.claim("/a/b", "b").is_ok());
    assert!(active.claim("/a", "b2").is_ok());
    assert!(matches!(active.claim("/a", "b"), Err(e) if e.code == SessionErrorCode::AlreadyExists));
    active.release("/a", "b");
    assert!(active.claim("/a", "b").is_ok());
    assert!(active.claim("/a", "b2").is_err());
}

#[test]
fn later_files_sort_later() {
    let times: [i64; 8] = [
        0,
        999,
        1000,
        86_399_999,
        86_400_000,
        1_709_210_096_789,
        1_735_689_600_000,
        253_402_300_799_999,
    ];
    for pair in times.windows(2) {
        let earlier = session_file_name(pair[0], "zz");
        let later = session_file_name(pair[1], "aa");
        assert!(earlier[..24] < later[..24]);
        assert_eq!(&earlier[24..], "_zz.jsonl");
        assert!(!earlier[..24].contains(':') && !earlier[..24].contains('.'));
    }
}

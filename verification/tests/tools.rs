use pi_agent::harness_types::{ExecutionError, ExecutionErrorCode, FileError, FileErrorCode};
use pi_agent::json::{write_json, Json};
use pi_agent::tools::bash::{
    bash_result, bash_update, create_bash_tool, plan_execution, BashReply, BashRequest, BashRun,
    BASH_UPDATE_THROTTLE_MS,
};
use pi_agent::tools::file_mutation_queue::mutation_queue_key;
use pi_agent::tools::image::{detect_supported_image_mime_type, encode_base64};
use pi_agent::tools::path_utils::{
    choose_read_path, normalize_tool_path, read_path_variants, replace_time_suffix,
};
use pi_agent::tools::read::{
    create_read_tool, plain_image, processed_image, read_text, ReadImageProcessorResult, ReadReply,
    ReadRequest, ReadRun,
};
use pi_agent::tools::result::AgentToolResult;
use pi_agent::tools::write::{create_write_tool, WriteReply, WriteRequest, WriteRun};
use pi_agent::types::BlockContent;
use pi_agent::utils::capture_run::{CaptureReply, CaptureRequest, CaptureRun};
use pi_agent::utils::shell_output::{
    capture_outcome, sanitize_binary_output, to_execution_error, CaptureState, FullOutputWrite,
    ShellCaptureProgress, ShellCaptureResult,
};
use pi_agent::utils::truncate::{
    format_size, truncate_head, truncate_line, truncate_line_default, truncate_tail, TruncatedBy,
    TruncationOptions,
};

fn options(max_lines: usize, max_bytes: usize) -> TruncationOptions {
    TruncationOptions { max_lines: Some(max_lines), max_bytes: Some(max_bytes) }
}

fn text_of(result: &AgentToolResult) -> String {
    match &result.content[0] {
        BlockContent::Text(t) => t.text.clone(),
        BlockContent::Image(_) => panic!("an image"),
    }
}

fn file_error(code: FileErrorCode) -> FileError {
    FileError { code, message: "no".to_string(), path: Some("/f".to_string()) }
}

#[test]
fn heads_keep_whole_lines() {
    let r = truncate_head("a\nb\nc\n", options(2, 100));
    assert_eq!(r.content, "a\nb");
    assert!(r.truncated);
    assert_eq!(r.truncated_by, Some(TruncatedBy::Lines));
    assert_eq!((r.total_lines, r.output_lines), (3, 2));
    let r = truncate_head("aaaa\nbbbb\n", options(10, 6));
    assert_eq!(r.content, "aaaa");
    assert_eq!(r.truncated_by, Some(TruncatedBy::Bytes));
    assert_eq!(r.output_bytes, 4);
    let r = truncate_head("aaaa\n", options(10, 3));
    assert!(r.first_line_exceeds_limit);
    assert_eq!(r.content, "");
    let r = truncate_head("a\n", options(10, 10));
    assert!(!r.truncated);
    assert_eq!(r.content, "a\n");
}

#[test]
fn tails_keep_the_end() {
    let r = truncate_tail("a\nb\nc\n", options(2, 100));
    assert_eq!(r.content, "b\nc");
    assert_eq!(r.truncated_by, Some(TruncatedBy::Lines));
    let r = truncate_tail("x\naéb", options(10, 3));
    assert_eq!(r.content, "éb");
    assert!(r.last_line_partial);
    assert_eq!(r.truncated_by, Some(TruncatedBy::Bytes));
    assert_eq!(r.output_bytes, 3);
}

#[test]
fn long_lines_are_cut() {
    assert_eq!(truncate_line("abc", 3), ("abc".to_string(), false));
    assert_eq!(truncate_line("abcd", 3), ("abc... [truncated]".to_string(), true));
    let long = "x".repeat(501);
    assert!(truncate_line_default(&long).1);
}

#[test]
fn sizes_are_rounded_as_floats_are() {
    assert_eq!(format_size(0), "0B");
    assert_eq!(format_size(1023), "1023B");
    assert_eq!(format_size(1024), "1.0KB");
    assert_eq!(format_size(1536), "1.5KB");
    assert_eq!(format_size(1024 * 1024), "1.0MB");
    for bytes in [1075u64, 1280, 5_000, 51_200, 51_251, 1_048_575, 1_101_005, 123_456_789] {
        let expected = if bytes < 1024 * 1024 {
            format!("{:.1}KB", bytes as f64 / 1024.0)
        } else {
            format!("{:.1}MB", bytes as f64 / (1024.0 * 1024.0))
        };
        assert_eq!(format_size(bytes), expected);
    }
    assert_eq!(
        format_size(u64::MAX),
        format!("{:.1}MB", u64::MAX as f64 / (1024.0 * 1024.0))
    );
}

#[test]
fn control_characters_are_removed() {
    assert_eq!(sanitize_binary_output("a\u{1}\tb\u{fff9}\nc\r"), "a\tb\nc\r");
}

#[test]
fn captures_count_what_was_printed() {
    let mut state = CaptureState::new();
    assert_eq!(state.on_chunk("one\r\ntw"), "one\ntw");
    state.on_chunk("o");
    let progress = state.create_progress();
    assert_eq!(progress.output, "one\ntwo");
    assert_eq!(progress.truncation.total_lines, 2);
    assert_eq!(progress.truncation.total_bytes, 7);
    assert_eq!(progress.last_line_bytes, 3);
    assert!(!progress.truncation.truncated);
    assert!(state.next_write().is_none());
}

#[test]
fn long_output_is_saved() {
    let mut state = CaptureState::new();
    let line = format!("{}\n", "x".repeat(99));
    for _ in 0..600 {
        state.on_chunk(&line);
    }
    match state.next_write() {
        Some(FullOutputWrite::Create { initial }) => assert!(initial.len() > 50 * 1024),
        _ => panic!("no file"),
    }
    assert!(matches!(state.append_path(), Err(e)
        if e.code == ExecutionErrorCode::Unknown && e.message == "Full output path was not created"));
    state.file_created("/tmp/out.log".to_string());
    assert!(matches!(state.append_path(), Ok(path) if path == "/tmp/out.log"));
    assert!(matches!(state.next_write(), Some(FullOutputWrite::Append { text }) if text == line));
    state.settle();
    let progress = state.create_progress();
    assert!(progress.truncation.truncated);
    assert_eq!(progress.truncation.truncated_by, Some(TruncatedBy::Bytes));
    assert_eq!(progress.truncation.total_lines, 600);
    assert_eq!(progress.truncation.total_bytes, 60_000);
    assert!(progress.output.len() <= 50 * 1024);
    assert_eq!(progress.full_output_path.as_deref(), Some("/tmp/out.log"));
}

fn progress(output: &str) -> ShellCaptureProgress {
    let mut state = CaptureState::new();
    state.on_chunk(output);
    state.create_progress()
}

fn capture(output: &str, exit_code: i32) -> ShellCaptureResult {
    match capture_outcome(Ok(exit_code), progress(output), false, true) {
        Ok(result) => result,
        Err(_) => panic!("failed"),
    }
}

fn failure(code: ExecutionErrorCode) -> ExecutionError {
    ExecutionError { code, message: "broken".to_string() }
}

#[test]
fn captures_end_as_the_command_did() {
    let done = capture("x", 3);
    assert_eq!(done.exit_code, Some(3));
    assert!(!done.cancelled);
    let stopped = capture_outcome(Ok(3), progress("x"), true, true);
    assert!(matches!(stopped, Ok(r) if r.cancelled && r.exit_code.is_none()));
    let aborted = capture_outcome(
        Err(failure(ExecutionErrorCode::Aborted)),
        progress("x"),
        false,
        false,
    );
    assert!(matches!(aborted, Ok(r) if r.cancelled));
    let kept = capture_outcome(
        Err(failure(ExecutionErrorCode::SpawnError)),
        progress("x"),
        false,
        true,
    );
    assert!(matches!(kept, Ok(r) if r.execution_error.is_some() && r.output == "x"));
    let failed = capture_outcome(
        Err(failure(ExecutionErrorCode::SpawnError)),
        progress("x"),
        false,
        false,
    );
    assert!(matches!(failed, Err(e) if e.code == ExecutionErrorCode::SpawnError));
    let e = to_execution_error(&file_error(FileErrorCode::NotFound));
    assert_eq!(e.message, "not_found: no (/f)");
}

#[test]
fn commands_are_reported() {
    assert!(matches!(bash_result(&capture("out", 0), "5"), Ok(r) if text_of(&r) == "out"));
    assert!(matches!(bash_result(&capture("", 0), "5"), Ok(r) if text_of(&r) == "(no output)"));
    assert!(matches!(bash_result(&capture("out", 2), "5"),
        Err(m) if m == "out\n\nCommand exited with code 2"));
    assert!(matches!(bash_result(&capture("", 2), "5"),
        Err(m) if m == "Command exited with code 2"));
    let cancelled = match capture_outcome(Ok(0), progress("x"), true, true) {
        Ok(r) => r,
        Err(_) => panic!("failed"),
    };
    assert!(matches!(bash_result(&cancelled, "5"), Err(m) if m == "x\n\nCommand aborted"));
    let timed_out = match capture_outcome(
        Err(failure(ExecutionErrorCode::Timeout)),
        progress("x"),
        false,
        true,
    ) {
        Ok(r) => r,
        Err(_) => panic!("failed"),
    };
    assert!(matches!(bash_result(&timed_out, "1.5"),
        Err(m) if m == "x\n\nCommand timed out after 1.5 seconds"));
    let broken = match capture_outcome(
        Err(failure(ExecutionErrorCode::SpawnError)),
        progress("x"),
        false,
        true,
    ) {
        Ok(r) => r,
        Err(_) => panic!("failed"),
    };
    assert!(matches!(bash_result(&broken, "1"), Err(m) if m == "spawn_error: broken"));
    assert_eq!(text_of(&bash_update(&capture("live", 0))), "live");
    assert_eq!(BASH_UPDATE_THROTTLE_MS, 100);
}

#[test]
fn shortened_output_says_so() {
    let mut state = CaptureState::new();
    for i in 0..2001 {
        state.on_chunk(&format!("{i}\n"));
    }
    let result = match capture_outcome(Ok(0), state.create_progress(), false, true) {
        Ok(r) => r,
        Err(_) => panic!("failed"),
    };
    match bash_result(&result, "1") {
        Ok(r) => {
            let text = text_of(&r);
            assert!(text.ends_with("\n\n[Showing lines 2-2001 of 2001. Full output: unknown]"));
            assert_eq!(r.details.get("truncation").and_then(|t| t.int_field("totalLines")), Some(2001));
        }
        Err(m) => panic!("failed: {m}"),
    }
}

#[test]
fn commands_are_prefixed() {
    let params = Json::Object(vec![("command".to_string(), Json::Text("ls".to_string()))]);
    let plain = plan_execution(&None, &params, "/w".to_string());
    assert_eq!(plain.command, "ls");
    assert!(plain.inherit_env);
    let prefixed = plan_execution(&Some("set -e".to_string()), &params, "/w".to_string());
    assert_eq!(prefixed.command, "set -e\nls");
}

#[test]
fn images_are_recognized_by_their_first_bytes() {
    assert_eq!(detect_supported_image_mime_type(&[0xff, 0xd8, 0xff, 0xe0]), Some("image/jpeg"));
    assert_eq!(detect_supported_image_mime_type(b"GIF89a"), Some("image/gif"));
    assert_eq!(detect_supported_image_mime_type(b"RIFF\0\0\0\0WEBP"), Some("image/webp"));
    assert_eq!(detect_supported_image_mime_type(b"plain"), None);
}

#[test]
fn bytes_are_written_in_base64() {
    assert_eq!(encode_base64(b""), "");
    assert_eq!(encode_base64(b"a"), "YQ==");
    assert_eq!(encode_base64(b"ab"), "YWI=");
    assert_eq!(encode_base64(b"abc"), "YWJj");
    assert_eq!(encode_base64(&[0xff, 0xfe, 0xfd]), "//79");
}

#[test]
fn paths_are_cleaned() {
    assert_eq!(normalize_tool_path("@a\u{a0}b"), "a b");
    assert_eq!(normalize_tool_path("@@x"), "@x");
    assert_eq!(replace_time_suffix("at 1 PM.png"), "at 1\u{202f}PM.png");
    assert_eq!(replace_time_suffix("at 1 PMx"), "at 1 PMx");
}

#[test]
fn spellings_of_a_path_are_distinct() {
    assert_eq!(read_path_variants("/plain"), vec!["/plain"]);
    assert_eq!(
        read_path_variants("/caf\u{e9}'s"),
        vec![
            "/caf\u{e9}'s",
            "/cafe\u{301}'s",
            "/caf\u{e9}\u{2019}s",
            "/cafe\u{301}\u{2019}s",
        ]
    );
    let variants = vec!["a".to_string(), "b".to_string()];
    assert_eq!(choose_read_path(&variants, &vec![false, true], "a"), "b");
    assert_eq!(choose_read_path(&variants, &vec![false, false], "a"), "a");
}

#[test]
fn texts_are_read_by_lines() {
    let text = "one\ntwo\nthree";
    assert!(matches!(read_text("f", text, None, None), Ok(r) if text_of(&r) == text));
    assert!(matches!(read_text("f", text, Some(2), Some(1)), Ok(r)
        if text_of(&r) == "two\n\n[1 more lines in file. Use offset=3 to continue.]"));
    assert!(matches!(read_text("f", text, Some(2), None), Ok(r) if text_of(&r) == "two\nthree"));
    assert!(matches!(read_text("f", text, Some(4), None),
        Err(m) if m == "Offset 4 is beyond end of file (3 lines total)"));
}

#[test]
fn long_texts_are_read_in_parts() {
    let text: String = (1..=2500).map(|i| format!("{i}\n")).collect();
    match read_text("f", &text, None, None) {
        Ok(r) => {
            let shown = text_of(&r);
            assert!(shown.ends_with(
                "\n2000\n\n[Showing lines 1-2000 of 2501. Use offset=2001 to continue.]"
            ));
            assert!(r.details.get("truncation").is_some());
        }
        Err(m) => panic!("failed: {m}"),
    }
    let wide = "x".repeat(60_000);
    assert!(matches!(read_text("f", &wide, None, None), Ok(r)
        if text_of(&r) == "[Line 1 is 58.6KB, exceeds 50.0KB limit. Use bash: sed -n '1p' f | head -c 51200]"));
}

#[test]
fn images_are_read_as_attachments() {
    let plain = plain_image("image/png", b"abc");
    assert_eq!(text_of(&plain), "Read image file [image/png]");
    assert!(matches!(&plain.content[1], BlockContent::Image(i)
        if i.data == "YWJj" && i.mime_type == "image/png"));
    let omitted = plain_image("image/bmp", b"abc");
    assert_eq!(omitted.content.len(), 1);
    let converted = processed_image(
        "image/bmp",
        ReadImageProcessorResult::Converted {
            data: "d".to_string(),
            mime_type: "image/png".to_string(),
            hints: vec!["h1".to_string(), "h2".to_string()],
        },
    );
    assert_eq!(text_of(&converted), "Read image file [image/png]\nh1\nh2");
    let failed = processed_image("image/bmp", ReadImageProcessorResult::Failed("no".to_string()));
    assert_eq!(text_of(&failed), "Read image file [image/bmp]\nno");
}

#[test]
fn a_read_runs_from_path_to_text() {
    let (mut run, first) = ReadRun::start("@f".to_string(), None, None, false);
    assert!(matches!(first, ReadRequest::Resolve { path } if path == "f"));
    let probe = run.next(ReadReply::Path(Ok("/w/f".to_string())));
    assert!(matches!(probe, ReadRequest::Probe { paths } if paths == vec!["/w/f"]));
    let read = run.next(ReadReply::Exist(vec![true]));
    assert!(matches!(read, ReadRequest::Read { path } if path == "/w/f"));
    match run.next(ReadReply::Bytes(Ok(b"hi\xff".to_vec()))) {
        ReadRequest::Finish { result: Ok(r) } => assert_eq!(text_of(&r), "hi\u{fffd}"),
        _ => panic!("does not finish"),
    }
    let (mut run, _) = ReadRun::start("f".to_string(), None, None, false);
    assert!(matches!(run.next(ReadReply::Path(Err(file_error(FileErrorCode::Invalid)))),
        ReadRequest::Finish { result: Err(m) } if m == "invalid: no (/f)"));
}

#[test]
fn a_write_runs_from_path_to_report() {
    let params = Json::Object(vec![
        ("path".to_string(), Json::Text("f".to_string())),
        ("content".to_string(), Json::Text("héllo".to_string())),
    ]);
    let (mut run, first) = WriteRun::start(&params);
    assert!(matches!(first, WriteRequest::Resolve { path } if path == "f"));
    assert!(matches!(run.next(WriteReply::Path(Ok("/w/f".to_string()))),
        WriteRequest::Lock { .. }));
    assert!(matches!(run.next(WriteReply::Locked), WriteRequest::CheckAborted));
    assert!(matches!(run.next(WriteReply::Aborted(false)),
        WriteRequest::Write { path, content } if path == "/w/f" && content == "héllo"));
    assert!(matches!(run.next(WriteReply::Written(Ok(()))), WriteRequest::CheckAborted));
    match run.next(WriteReply::Aborted(false)) {
        WriteRequest::Finish { result: Ok(r) } => {
            assert_eq!(text_of(&r), "Successfully wrote 6 bytes to f")
        }
        _ => panic!("does not finish"),
    }
}

#[test]
fn tools_present_themselves() {
    for (tool, name) in [
        (create_bash_tool(), "bash"),
        (create_read_tool(), "read"),
        (create_write_tool(), "write"),
    ] {
        assert_eq!(tool.name, name);
        assert_eq!(tool.label, name);
        assert!(write_json(&tool.parameters).starts_with("{\"type\":\"object\",\"required\":["));
    }
}

#[test]
fn files_are_queued_by_their_real_path() {
    assert_eq!(
        mutation_queue_key("f", Ok("/w/f".to_string()), Ok("/real/f".to_string())),
        "/real/f"
    );
    assert_eq!(
        mutation_queue_key(
            "f",
            Ok("/w/f".to_string()),
            Err(file_error(FileErrorCode::NotFound))
        ),
        "/w/f"
    );
}

#[test]
fn only_whole_lines_are_kept() {
    let content = "aa\nbbbb\ncc\n";
    for bytes in 2..12 {
        let kept = truncate_head(content, options(10, bytes)).content;
        assert!(["aa", "aa\nbbbb", "aa\nbbbb\ncc", content].contains(&kept.as_str()));
        let kept = truncate_tail(content, options(10, bytes)).content;
        assert!(["cc", "bbbb\ncc", "aa\nbbbb\ncc", content].contains(&kept.as_str()));
    }
}

fn long_output() -> CaptureState {
    let mut state = CaptureState::new();
    state.on_chunk(&"line\n".repeat(2001));
    state.on_chunk("last\n");
    state
}

#[test]
fn long_outputs_are_saved_before_the_outcome_is_told() {
    let (mut run, request) = CaptureRun::start(long_output(), Ok(0), true);
    assert!(matches!(request, CaptureRequest::CreateFile));
    let request = run.next(CaptureReply::Created(Ok("/tmp/bash-1.log".to_string())));
    let first = match request {
        CaptureRequest::Append { path, text } => {
            assert_eq!(path, "/tmp/bash-1.log");
            text
        }
        _ => panic!("nothing is appended"),
    };
    let request = run.next(CaptureReply::Appended(Ok(())));
    let second = match request {
        CaptureRequest::Append { path, text } => {
            assert_eq!(path, "/tmp/bash-1.log");
            text
        }
        _ => panic!("nothing more is appended"),
    };
    assert_eq!(first + &second, "line\n".repeat(2001) + "last\n");
    let request = run.next(CaptureReply::Appended(Ok(())));
    assert!(matches!(request, CaptureRequest::CheckAborted));
    match run.next(CaptureReply::Aborted(false)) {
        CaptureRequest::Finish { result: Ok(outcome) } => {
            assert!(outcome.truncated);
            assert_eq!(outcome.exit_code, Some(0));
            assert_eq!(outcome.full_output_path, Some("/tmp/bash-1.log".to_string()));
        }
        _ => panic!("no outcome"),
    }
}

#[test]
fn a_failed_write_is_the_outcome() {
    let (mut run, _) = CaptureRun::start(long_output(), Ok(0), true);
    match run.next(CaptureReply::Created(Err(file_error(FileErrorCode::NotFound)))) {
        CaptureRequest::Finish { result: Err(error) } => {
            assert_eq!(error.code, ExecutionErrorCode::Unknown);
            assert_eq!(error.message, file_error(FileErrorCode::NotFound).display());
        }
        _ => panic!("no failure"),
    }
    let (mut run, _) = CaptureRun::start(long_output(), Ok(0), true);
    run.next(CaptureReply::Created(Ok("/tmp/x".to_string())));
    let request = run.next(CaptureReply::Appended(Err(file_error(FileErrorCode::NotFound))));
    assert!(matches!(request, CaptureRequest::Finish { result: Err(_) }));
}

#[test]
fn short_outputs_are_not_saved() {
    let mut state = CaptureState::new();
    state.on_chunk("x\n");
    let (mut run, request) = CaptureRun::start(state, Ok(3), true);
    assert!(matches!(request, CaptureRequest::CheckAborted));
    match run.next(CaptureReply::Aborted(true)) {
        CaptureRequest::Finish { result: Ok(outcome) } => {
            assert!(outcome.cancelled);
            assert_eq!(outcome.exit_code, None);
            assert_eq!(outcome.output, "x\n");
        }
        _ => panic!("no outcome"),
    }
}

fn command(text: &str) -> Json {
    Json::Object(vec![("command".to_string(), Json::Text(text.to_string()))])
}

fn started(text: &str) -> BashRun {
    let prefix = Some("set -e".to_string());
    let (run, request) = BashRun::start(&prefix, &command(text), "/w".to_string(), Ok("5".to_string()));
    match request {
        BashRequest::Prepare { execution } => {
            assert_eq!(execution.command, "set -e\n".to_string() + text);
            assert_eq!(execution.cwd, "/w");
            assert!(execution.inherit_env);
        }
        _ => panic!("nothing is prepared"),
    }
    run
}

fn running(text: &str) -> BashRun {
    let mut run = started(text);
    let prepared = plan_execution(&None, &command("other"), "/v".to_string());
    match run.next(BashReply::Prepared(prepared)) {
        BashRequest::Report { update } => {
            assert!(update.content.is_empty());
            assert!(matches!(update.details, Json::Null));
        }
        _ => panic!("nothing is reported"),
    }
    match run.next(BashReply::Reported) {
        BashRequest::Run { execution } => {
            assert_eq!(execution.command, "other");
            assert_eq!(execution.cwd, "/v");
        }
        _ => panic!("nothing is run"),
    }
    run
}

#[test]
fn commands_are_prepared_run_and_reported() {
    let mut run = running("ls");
    match run.next(BashReply::Ran(Ok(capture("out", 0)))) {
        BashRequest::Report { update } => assert_eq!(text_of(&update), "out"),
        _ => panic!("nothing is reported"),
    }
    assert!(matches!(run.next(BashReply::Reported),
        BashRequest::Finish { result: Ok(r) } if text_of(&r) == "out"));
    let mut run = running("ls");
    run.next(BashReply::Ran(Ok(capture("out", 1))));
    assert!(matches!(run.next(BashReply::Reported),
        BashRequest::Finish { result: Err(m) } if m == "out\n\nCommand exited with code 1"));
}

#[test]
fn commands_that_cannot_be_captured_fail() {
    let mut run = running("ls");
    let error = ExecutionError {
        code: ExecutionErrorCode::Unknown,
        message: "disk full".to_string(),
    };
    assert!(matches!(run.next(BashReply::Ran(Err(error))),
        BashRequest::Finish { result: Err(m) } if m == "unknown: disk full"));
    let (_, request) =
        BashRun::start(&None, &command("ls"), "/w".to_string(), Err("Invalid timeout".to_string()));
    assert!(matches!(request,
        BashRequest::Finish { result: Err(m) } if m == "Invalid timeout"));
}

#[test]
fn the_byte_limit_is_named_where_every_line_fits() {
    let r = truncate_head("ab\n", options(10, 2));
    assert!(r.truncated);
    assert_eq!(r.content, "ab");
    assert_eq!(r.truncated_by, Some(TruncatedBy::Bytes));
    let r = truncate_tail("ab\n", options(10, 2));
    assert!(r.truncated);
    assert_eq!(r.content, "ab");
    assert_eq!(r.truncated_by, Some(TruncatedBy::Bytes));
}

#[test]
fn the_byte_limit_is_named_where_the_last_line_is_cut() {
    let r = truncate_tail("abcdef", options(1, 3));
    assert_eq!(r.content, "def");
    assert!(r.last_line_partial);
    assert_eq!(r.truncated_by, Some(TruncatedBy::Bytes));
    let r = truncate_tail("a\nb\n", options(1, 3));
    assert_eq!(r.content, "b");
    assert_eq!(r.truncated_by, Some(TruncatedBy::Lines));
}

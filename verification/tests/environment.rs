use pi_agent::command_run::{CommandReply, CommandRequest, CommandRun, OutputStream};
use pi_agent::execution_env::{
    aborted_error, check_not_aborted, command_outcome, exists_outcome, file_info_from_metadata,
    file_url_to_path, first_shell_found, get_bash_shell_config, get_shell_config, get_shell_env,
    join_path, missing_directory_error, normalize_absolute, percent_decode, plan_spawn,
    remove_outcome, resolve_path, temp_file_name, text_of_file, to_file_error, to_hex, CommandEnd,
    CommandTransport, IncrementalUtf8Decoder, LineReader, NodeExecutionEnv,
    NodeExecutionEnvOptions, SystemErrorKind,
};
use pi_agent::harness_types::{
    CreateTempFileOptions, ExecutionError, ExecutionErrorCode, FileError, FileErrorCode, FileKind,
};
use pi_agent::types::JsF64;

#[test]
fn percent_signs_are_decoded() {
    assert_eq!(percent_decode("/a%20b%C3%A9"), "/a b\u{e9}");
    assert_eq!(percent_decode("%zz%4"), "%zz%4");
    assert_eq!(percent_decode("%ff"), "\u{fffd}");
    assert_eq!(percent_decode("100%"), "100%");
    assert_eq!(percent_decode("%+f"), "\u{f}");
    assert_eq!(percent_decode("%++%+g%-f"), "%++%+g%-f");
}

#[test]
fn file_urls_become_paths() {
    assert_eq!(file_url_to_path("file:///a%20b"), Some("/a b".to_string()));
    assert_eq!(file_url_to_path("file://localhost/x"), Some("/x".to_string()));
    assert_eq!(file_url_to_path("file://host/x"), None);
    assert_eq!(file_url_to_path("/x"), None);
}

#[test]
fn paths_are_resolved() {
    assert_eq!(resolve_path("/w", "a/../b/./c", "/home/me"), "/w/b/c");
    assert_eq!(resolve_path("/w", "/x//y/", "/home/me"), "/x/y");
    assert_eq!(resolve_path("/w", "~", "/home/me"), "/home/me");
    assert_eq!(resolve_path("/w", "~/x", "/home/me"), "/home/me/x");
    assert_eq!(resolve_path("/w", "~x", "/home/me"), "/w/~x");
    assert_eq!(resolve_path("/w", "file:///t/a", "/home/me"), "/t/a");
    assert_eq!(resolve_path("/w", "../../..", "/home/me"), "/");
    assert_eq!(resolve_path("/w", "a\\b", "/home/me"), "/w/a/b");
    assert_eq!(normalize_absolute(""), "/");
}

#[test]
fn paths_are_joined() {
    let parts = |all: &[&str]| all.iter().map(|s| s.to_string()).collect::<Vec<String>>();
    assert_eq!(join_path(&parts(&["/a", "b", "c"])), "/a/b/c");
    assert_eq!(join_path(&parts(&["/a/", "b"])), "/a/b");
    assert_eq!(join_path(&parts(&["/a", "/b"])), "/b");
    assert_eq!(join_path(&parts(&[])), "");
}

#[test]
fn streams_are_decoded_across_chunks() {
    let bytes = "a\u{e9}\u{1f600}z".as_bytes();
    for cut in 0..=bytes.len() {
        let mut decoder = IncrementalUtf8Decoder::new();
        let mut text = decoder.push(&bytes[..cut]);
        text.push_str(&decoder.push(&bytes[cut..]));
        assert_eq!(text, "a\u{e9}\u{1f600}z");
        assert!(decoder.buffer.is_empty());
    }
    let mut decoder = IncrementalUtf8Decoder::new();
    assert_eq!(decoder.push(&[0x61, 0xc3]), "a");
    assert_eq!(decoder.buffer, vec![0xc3]);
}

#[test]
fn lines_are_read_from_chunks() {
    let mut reader = LineReader::new(None);
    assert!(!reader.push(b"one\r\ntw"));
    assert!(!reader.push(b"o\nthr"));
    assert!(!reader.push(b"ee\r"));
    assert_eq!(reader.finish(), vec!["one", "two", "three"]);
    let mut reader = LineReader::new(Some(1));
    assert!(reader.push(b"one\ntwo\n"));
    assert_eq!(reader.lines, vec!["one"]);
}

#[test]
fn system_errors_get_codes() {
    let code = |kind| to_file_error(kind, "m".to_string(), None).code;
    assert_eq!(code(SystemErrorKind::NotFound), FileErrorCode::NotFound);
    assert_eq!(code(SystemErrorKind::PermissionDenied), FileErrorCode::PermissionDenied);
    assert_eq!(code(SystemErrorKind::NotADirectory), FileErrorCode::NotDirectory);
    assert_eq!(code(SystemErrorKind::IsADirectory), FileErrorCode::IsDirectory);
    assert_eq!(code(SystemErrorKind::InvalidInput), FileErrorCode::Invalid);
    assert_eq!(code(SystemErrorKind::InvalidData), FileErrorCode::Invalid);
    assert_eq!(code(SystemErrorKind::Other(Some(20))), FileErrorCode::NotDirectory);
    assert_eq!(code(SystemErrorKind::Other(Some(21))), FileErrorCode::IsDirectory);
    assert_eq!(code(SystemErrorKind::Other(Some(5))), FileErrorCode::Unknown);
    assert_eq!(code(SystemErrorKind::Other(None)), FileErrorCode::Unknown);
    assert_eq!(aborted_error(Some("/f".to_string())).display(), "aborted: aborted (/f)");
}

fn error(code: FileErrorCode) -> FileError {
    FileError { code, message: "m".to_string(), path: None }
}

#[test]
fn objects_are_looked_at() {
    let info = file_info_from_metadata("/a/b.txt", Some(FileKind::File), 3, JsF64 { bits: 0 });
    assert!(matches!(info, Ok(i) if i.name == "b.txt" && i.path == "/a/b.txt" && i.size == 3));
    let odd = file_info_from_metadata("/a/b", None, 3, JsF64 { bits: 0 });
    assert!(matches!(odd, Err(e) if e.code == FileErrorCode::Invalid
        && e.message == "Unsupported file type"));
    let root = file_info_from_metadata("/", Some(FileKind::Directory), 0, JsF64 { bits: 0 });
    assert!(matches!(root, Ok(i) if i.name == "/"));
    assert!(matches!(exists_outcome(Err(error(FileErrorCode::NotFound))), Ok(false)));
    assert!(matches!(exists_outcome(Err(error(FileErrorCode::Unknown))), Err(_)));
    assert!(remove_outcome(Err(error(FileErrorCode::NotFound)), true).is_ok());
    assert!(remove_outcome(Err(error(FileErrorCode::NotFound)), false).is_err());
    assert!(remove_outcome(Err(error(FileErrorCode::Unknown)), true).is_err());
}

#[test]
fn temporary_files_are_named() {
    assert_eq!(to_hex(&[0, 0x0f, 0xa5]), "000fa5");
    let options = CreateTempFileOptions {
        prefix: Some("bash-".to_string()),
        suffix: Some(".log".to_string()),
    };
    assert_eq!(temp_file_name(&options, "00"), "bash-00.log");
}

#[test]
fn shells_are_chosen() {
    let found = Some("/usr/bin/bash".to_string());
    let custom = Some("/my/sh".to_string());
    assert!(matches!(get_shell_config(&custom, true, true, &None), Ok(c) if c.shell == "/my/sh"));
    assert!(matches!(get_shell_config(&custom, false, true, &None),
        Err(e) if e.code == ExecutionErrorCode::ShellUnavailable
            && e.message == "Custom shell path not found: /my/sh"));
    assert!(matches!(get_shell_config(&None, false, true, &found),
        Ok(c) if c.shell == "/bin/bash"));
    assert!(matches!(get_shell_config(&None, false, false, &found),
        Ok(c) if c.shell == "/usr/bin/bash"));
    assert!(matches!(get_shell_config(&None, false, false, &None), Ok(c) if c.shell == "sh"));
    assert_eq!(
        first_shell_found(b" /usr/bin/bash\r\n/bin/bash\n", Some(0)),
        Some("/usr/bin/bash".to_string())
    );
    assert_eq!(first_shell_found(b"x", Some(1)), None);
    assert_eq!(first_shell_found(b"  \n", Some(0)), None);
    let legacy = get_bash_shell_config("C:/Windows/System32/bash.exe");
    assert_eq!(legacy.command_transport, Some(CommandTransport::Stdin));
    assert_eq!(legacy.args, vec!["-s"]);
}

#[test]
fn commands_reach_their_shell() {
    let plan = plan_spawn(&get_bash_shell_config("/bin/bash"), "ls");
    assert_eq!(plan.args, vec!["-c", "ls"]);
    assert!(plan.input.is_none());
    let plan = plan_spawn(&get_bash_shell_config("c:\\windows\\sysnative\\bash.exe"), "ls");
    assert_eq!(plan.args, vec!["-s"]);
    assert_eq!(plan.input.as_deref(), Some("ls"));
}

fn pairs(all: &[(&str, &str)]) -> Vec<(String, String)> {
    all.iter().map(|(k, v)| (k.to_string(), v.to_string())).collect()
}

fn value<'a>(all: &'a [(String, String)], key: &str) -> Option<&'a str> {
    all.iter().rev().find(|(k, _)| k == key).map(|(_, v)| v.as_str())
}

#[test]
fn environments_are_merged() {
    let process = pairs(&[("A", "1"), ("B", "1")]);
    let base = Some(pairs(&[("B", "2"), ("C", "2")]));
    let extra = Some(pairs(&[("C", "3")]));
    let merged = get_shell_env(&process, &base, &extra, true);
    assert_eq!(value(&merged, "A"), Some("1"));
    assert_eq!(value(&merged, "B"), Some("2"));
    assert_eq!(value(&merged, "C"), Some("3"));
    let bare = get_shell_env(&process, &base, &extra, false);
    assert_eq!(value(&bare, "A"), None);
    assert_eq!(value(&bare, "B"), None);
    assert_eq!(value(&bare, "C"), Some("3"));
}

fn end() -> CommandEnd {
    CommandEnd {
        callback_error: None,
        timed_out: None,
        aborted: false,
        status: Ok(Some(4)),
        stdout: "o".to_string(),
        stderr: "e".to_string(),
    }
}

#[test]
fn commands_come_to_something() {
    assert!(matches!(command_outcome(end()), Ok(r)
        if r.exit_code == 4 && r.stdout == "o" && r.stderr == "e"));
    assert!(matches!(command_outcome(CommandEnd { status: Ok(None), ..end() }),
        Ok(r) if r.exit_code == 0));
    let all = CommandEnd {
        callback_error: Some("cb".to_string()),
        timed_out: Some("5".to_string()),
        aborted: true,
        ..end()
    };
    assert!(matches!(command_outcome(all), Err(e)
        if e.code == ExecutionErrorCode::CallbackError && e.message == "cb"));
    let late = CommandEnd { timed_out: Some("5".to_string()), aborted: true, ..end() };
    assert!(matches!(command_outcome(late), Err(e)
        if e.code == ExecutionErrorCode::Timeout && e.message == "timeout:5"));
    let aborted = CommandEnd { aborted: true, ..end() };
    assert!(matches!(command_outcome(aborted), Err(e)
        if e.code == ExecutionErrorCode::Aborted));
    let lost = CommandEnd { status: Err("lost".to_string()), ..end() };
    assert!(matches!(command_outcome(lost), Err(e)
        if e.code == ExecutionErrorCode::SpawnError && e.message == "lost"));
    assert!(check_not_aborted(false).is_ok());
    assert!(check_not_aborted(true).is_err());
    assert_eq!(
        missing_directory_error("/x").message,
        "Working directory does not exist: /x\nCannot execute bash commands."
    );
}

#[test]
fn running_processes_are_kept_track_of() {
    let mut env = NodeExecutionEnv::new(NodeExecutionEnvOptions {
        cwd: "/w".to_string(),
        shell_path: None,
        shell_env: None,
    });
    env.track(3);
    env.track(4);
    env.track(3);
    env.untrack(4);
    assert_eq!(env.take_running(), vec![3]);
    assert!(env.take_running().is_empty());
    assert_eq!(env.command_directory(&Some("s".to_string()), "/h"), "/w/s");
    assert_eq!(env.command_directory(&None, "/h"), "/w");
}

fn begin(time_limit: Result<Option<String>, String>, aborted: bool) -> (CommandRun, CommandRequest) {
    CommandRun::start(
        "echo hi".to_string(),
        "/work".to_string(),
        vec![("A".to_string(), "1".to_string())],
        time_limit,
        aborted,
    )
}

fn running(time_limit: Option<&str>) -> CommandRun {
    let (mut run, request) = begin(Ok(time_limit.map(str::to_string)), false);
    assert!(matches!(request, CommandRequest::FindShell));
    let shell = get_bash_shell_config("/bin/bash");
    assert!(matches!(run.next(CommandReply::Shell(Ok(shell))),
        CommandRequest::FindDirectory { path } if path == "/work"));
    match run.next(CommandReply::Directory(true)) {
        CommandRequest::Spawn { plan, directory, env } => {
            assert_eq!(plan.program, "/bin/bash");
            assert_eq!(plan.args, vec!["-c".to_string(), "echo hi".to_string()]);
            assert_eq!(plan.input, None);
            assert_eq!(directory, "/work");
            assert_eq!(env, vec![("A".to_string(), "1".to_string())]);
        }
        _ => panic!("the command is to be spawned"),
    }
    assert!(matches!(run.next(CommandReply::Spawned(Ok(()))), CommandRequest::Wait));
    run
}

fn exit(run: &mut CommandRun, aborted: bool) -> Result<(String, String, i32), (ExecutionErrorCode, String)> {
    match run.next(CommandReply::Exited { status: Ok(Some(0)), aborted }) {
        CommandRequest::Finish { result } => match result {
            Ok(found) => Ok((found.stdout, found.stderr, found.exit_code)),
            Err(error) => Err((error.code, error.message)),
        },
        _ => panic!("a command that exited is finished"),
    }
}

fn print(run: &mut CommandRun, stream: OutputStream, bytes: &[u8]) -> String {
    match run.next(CommandReply::Output { stream, bytes: bytes.to_vec() }) {
        CommandRequest::Deliver { stream: to, text } => {
            assert_eq!(to, stream);
            text
        }
        _ => panic!("output is delivered"),
    }
}

#[test]
fn commands_report_their_output() {
    let mut run = running(None);
    assert_eq!(print(&mut run, OutputStream::Stdout, b"caf\xc3"), "caf");
    assert!(matches!(run.next(CommandReply::Delivered(Ok(()))), CommandRequest::Wait));
    assert_eq!(print(&mut run, OutputStream::Stderr, b"warn"), "warn");
    assert!(matches!(run.next(CommandReply::Delivered(Ok(()))), CommandRequest::Wait));
    assert_eq!(print(&mut run, OutputStream::Stdout, b"\xa9\n"), "\u{e9}\n");
    assert!(matches!(run.next(CommandReply::Delivered(Ok(()))), CommandRequest::Wait));
    assert_eq!(exit(&mut run, false), Ok(("caf\u{e9}\n".to_string(), "warn".to_string(), 0)));
}

#[test]
fn stopped_commands_fail() {
    let mut run = running(Some("5"));
    print(&mut run, OutputStream::Stdout, b"x");
    assert!(matches!(run.next(CommandReply::Delivered(Err("no".to_string()))), CommandRequest::Kill));
    assert!(run.stdout.refused && !run.stderr.refused);
    assert!(matches!(run.next(CommandReply::TimeUp), CommandRequest::Kill));
    assert!(!run.watched);
    assert_eq!(exit(&mut run, false), Err((ExecutionErrorCode::CallbackError, "no".to_string())));

    let mut run = running(Some("5"));
    assert!(matches!(run.next(CommandReply::TimeUp), CommandRequest::Kill));
    assert_eq!(exit(&mut run, true), Err((ExecutionErrorCode::Timeout, "timeout:5".to_string())));

    let mut run = running(None);
    assert!(matches!(run.next(CommandReply::CalledOff), CommandRequest::Kill));
    assert_eq!(exit(&mut run, true), Err((ExecutionErrorCode::Aborted, "aborted".to_string())));
}

#[test]
fn commands_that_cannot_run_are_refused() {
    let failed = |request: CommandRequest| match request {
        CommandRequest::Finish { result: Err(error) } => (error.code, error.message),
        _ => panic!("the command cannot run"),
    };
    assert_eq!(
        failed(begin(Err("bad".to_string()), true).1),
        (ExecutionErrorCode::Aborted, "aborted".to_string())
    );
    assert_eq!(
        failed(begin(Err("bad".to_string()), false).1),
        (ExecutionErrorCode::Timeout, "bad".to_string())
    );
    let none = ExecutionError::new(ExecutionErrorCode::ShellUnavailable, "none".to_string());
    let (mut run, _) = begin(Ok(None), false);
    assert_eq!(
        failed(run.next(CommandReply::Shell(Err(none)))),
        (ExecutionErrorCode::ShellUnavailable, "none".to_string())
    );
    let (mut run, _) = begin(Ok(None), false);
    run.next(CommandReply::Shell(Ok(get_bash_shell_config("/bin/bash"))));
    assert_eq!(failed(run.next(CommandReply::Directory(false))).0, ExecutionErrorCode::SpawnError);
    let (mut run, _) = begin(Ok(None), false);
    run.next(CommandReply::Shell(Ok(get_bash_shell_config("/bin/bash"))));
    run.next(CommandReply::Directory(true));
    assert_eq!(
        failed(run.next(CommandReply::Spawned(Err("no such file".to_string())))),
        (ExecutionErrorCode::SpawnError, "no such file".to_string())
    );
}

#[test]
fn lines_do_not_depend_on_chunks() {
    let bytes = "caf\u{e9}\r\nna\u{ef}ve\n\nend".as_bytes();
    let expected: Vec<String> =
        ["caf\u{e9}", "na\u{ef}ve", "", "end"].iter().map(|line| line.to_string()).collect();
    for size in 1..=bytes.len() {
        let mut reader = LineReader::new(None);
        for chunk in bytes.chunks(size) {
            assert!(!reader.push(chunk));
        }
        assert_eq!(reader.finish(), expected);
    }
}

#[test]
fn streams_are_decoded_as_far_as_they_can() {
    let mut decoder = IncrementalUtf8Decoder::new();
    assert_eq!(decoder.push(b"ab\xe2\x82"), "ab");
    assert_eq!(decoder.push(b"\xacc"), "\u{20ac}c");
    assert_eq!(decoder.push(b"d\xffe"), "d");
    assert_eq!(decoder.buffer, vec![0xff, b'e']);
    assert_eq!(decoder.push(b"f"), "");
    assert_eq!(text_of_file(b"a\xff"), "a\u{fffd}");
    assert_eq!(text_of_file("\u{e9}".as_bytes()), "\u{e9}");
}

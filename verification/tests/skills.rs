use pi_agent::front_matter::{
    can_split_front, read_field, read_flag, read_front, split_front, Yaml,
};
use pi_agent::harness_types::{FileError, FileErrorCode, FileInfo, FileKind, PromptTemplate, Skill};
use pi_agent::prompt_templates::{
    format_prompt_template_invocation, info_diagnostic, is_template_file, parse_command_args,
    substitute_args, template_from_file,
};
use pi_agent::skills::{
    dirname_env_path, format_skill_invocation, ignore_file_action, ignore_patterns,
    relative_env_path, skill_from_file, skill_info_diagnostic, validate_description,
    validate_name, DirectoryWalk, IgnoreFileAction, IgnoreMatcher, SkillDiagnosticCode,
    WalkAction,
};
use pi_agent::types::JsF64;

fn matcher(lines: &str) -> IgnoreMatcher {
    let mut matcher = IgnoreMatcher::new();
    matcher.add(&ignore_patterns(lines, "/root", "/root"));
    matcher
}

#[test]
fn directories_of_paths() {
    assert_eq!(dirname_env_path("/a/b/c.md"), "/a/b");
    assert_eq!(dirname_env_path("/a"), "/");
    assert_eq!(dirname_env_path("a"), "/");
    assert_eq!(dirname_env_path("/a/b/"), "/a");
    assert_eq!(dirname_env_path("C:\\x"), "C:\\");
    assert_eq!(dirname_env_path("C:\\x\\y"), "C:\\x");
}

#[test]
fn paths_seen_from_a_root() {
    assert_eq!(relative_env_path("/root", "/root/a/b"), "a/b");
    assert_eq!(relative_env_path("/root/", "/root"), "");
    assert_eq!(relative_env_path("/root", "/other/x"), "other/x");
    assert_eq!(relative_env_path("C:\\r", "C:\\r\\a"), "a");
}

#[test]
fn ignore_files_hold_patterns() {
    assert_eq!(
        ignore_patterns("# note\n\n/a\n!b\r\n\\!c", "/root", "/root/sub"),
        vec!["sub/a", "!sub/b", "sub/c"]
    );
}

#[test]
fn patterns_match_segments() {
    let m = matcher("build\n*.tmp\ndocs/**/x\nonly/\n");
    assert!(m.ignores("build", false));
    assert!(m.ignores("build/deep/file", false));
    assert!(!m.ignores("rebuild", false));
    assert!(m.ignores("a.tmp", false));
    assert!(!m.ignores("a.tmpx", false));
    assert!(m.ignores("docs/a/b/x", false));
    assert!(m.ignores("docs/x", false));
    assert!(m.ignores("only/", true));
    assert!(!m.ignores("only", false));
}

#[test]
fn the_last_matching_pattern_counts() {
    let m = matcher("*.md\n!keep.md\n");
    assert!(m.ignores("a.md", false));
    assert!(!m.ignores("keep.md", false));
}

#[test]
fn names_of_skills_are_checked() {
    assert!(validate_name("my-skill", "my-skill").is_empty());
    assert_eq!(
        validate_name("Bad--", "other"),
        vec![
            "name \"Bad--\" does not match parent directory \"other\"",
            "name contains invalid characters (must be lowercase a-z, 0-9, hyphens only)",
            "name must not start or end with a hyphen",
            "name must not contain consecutive hyphens",
        ]
    );
    let long = "a".repeat(65);
    assert_eq!(validate_name(&long, &long), vec!["name exceeds 64 characters (65)"]);
    assert_eq!(validate_description(&None), vec!["description is required"]);
    assert_eq!(
        validate_description(&Some("  ".to_string())),
        vec!["description is required"]
    );
    assert_eq!(
        validate_description(&Some("x".repeat(1025))),
        vec!["description exceeds 1024 characters (1025)"]
    );
}

#[test]
fn skills_are_read_from_files() {
    let raw = "---\nname: tidy\ndescription: Tidies up.\ndisable-model-invocation: true\n---\nDo it.\n";
    let (skill, problems) = skill_from_file("/s/tidy/SKILL.md", "tidy", raw);
    assert!(problems.is_empty());
    let skill = match skill {
        Some(skill) => skill,
        None => panic!("no skill"),
    };
    assert_eq!(skill.name, "tidy");
    assert_eq!(skill.description, "Tidies up.");
    assert_eq!(skill.disable_model_invocation, Some(true));
    assert_eq!(skill.file_path, "/s/tidy/SKILL.md");
    assert_eq!(skill.content.trim(), "Do it.");
}

#[test]
fn skills_without_a_description_are_reported_where_they_are_declared() {
    let (skill, problems) = skill_from_file("/s/x/SKILL.md", "x", "no fields");
    assert!(skill.is_none());
    assert_eq!(problems.len(), 1);
    assert_eq!(problems[0].code, SkillDiagnosticCode::InvalidMetadata);
    assert_eq!(problems[0].message, "description is required");
    let (skill, problems) = skill_from_file("/s/notes.md", "s", "no fields");
    assert!(skill.is_none());
    assert!(problems.is_empty());
}

#[test]
fn fields_that_cannot_be_read_are_reported() {
    let raw = "---\nname: [unclosed\n---\nbody";
    let (skill, problems) = skill_from_file("/s/x/SKILL.md", "x", raw);
    assert!(skill.is_none());
    assert_eq!(problems[0].code, SkillDiagnosticCode::ParseFailed);
}

#[test]
fn skills_are_shown_with_their_place() {
    let skill = Skill {
        name: "n".to_string(),
        description: "d".to_string(),
        content: "body".to_string(),
        file_path: "/s/n/SKILL.md".to_string(),
        disable_model_invocation: None,
    };
    assert_eq!(
        format_skill_invocation(&skill, None),
        "<skill name=\"n\" location=\"/s/n/SKILL.md\">\nReferences are relative to /s/n.\n\nbody\n</skill>"
    );
    assert!(format_skill_invocation(&skill, Some("more")).ends_with("</skill>\n\nmore"));
}

fn info(name: &str, kind: FileKind) -> FileInfo {
    FileInfo {
        name: name.to_string(),
        path: format!("/root/{name}"),
        kind,
        size: 0,
        mtime_ms: JsF64 { bits: 0 },
    }
}

#[test]
fn a_skill_file_is_all_of_its_directory() {
    let listed = vec![info("a", FileKind::Directory), info("SKILL.md", FileKind::File)];
    let mut walk = DirectoryWalk::new(listed, "/root", true);
    let m = IgnoreMatcher::new();
    assert!(matches!(walk.next(None, &m), WalkAction::Load { path } if path == "/root/SKILL.md"));
    assert!(matches!(walk.next(None, &m), WalkAction::Finish));
}

#[test]
fn directories_are_walked_in_order() {
    let listed = vec![
        info("z.md", FileKind::File),
        info("node_modules", FileKind::Directory),
        info(".git", FileKind::Directory),
        info("link", FileKind::Symlink),
        info("b", FileKind::Directory),
        info("skip.md", FileKind::File),
        info("note.txt", FileKind::File),
    ];
    let m = matcher("skip.md\n");
    let mut walk = DirectoryWalk::new(listed, "/root", true);
    assert!(matches!(walk.next(None, &m), WalkAction::Enter { path } if path == "/root/b"));
    assert!(matches!(walk.next(None, &m), WalkAction::Resolve { entry } if entry.name == "link"));
    assert!(matches!(walk.next(Some(FileKind::Directory), &m),
        WalkAction::Enter { path } if path == "/root/link"));
    assert!(matches!(walk.next(None, &m), WalkAction::Load { path } if path == "/root/z.md"));
    assert!(matches!(walk.next(None, &m), WalkAction::Finish));
}

#[test]
fn files_below_the_root_are_not_loaded() {
    let m = IgnoreMatcher::new();
    let mut walk = DirectoryWalk::new(vec![info("z.md", FileKind::File)], "/root", false);
    assert!(matches!(walk.next(None, &m), WalkAction::Finish));
}

#[test]
fn missing_objects_are_no_problem() {
    let gone = FileError {
        code: FileErrorCode::NotFound,
        message: "gone".to_string(),
        path: None,
    };
    assert!(skill_info_diagnostic(&gone, "/x").is_none());
    assert!(info_diagnostic(&gone, "/x").is_none());
    let denied = FileError { code: FileErrorCode::PermissionDenied, ..gone };
    assert!(matches!(skill_info_diagnostic(&denied, "/x"),
        Some(d) if d.code == SkillDiagnosticCode::FileInfoFailed && d.message == "gone"));
}

#[test]
fn front_matter_is_split_off() {
    let (fields, body) = split_front("---\na: 1\n---\nrest\n");
    assert!(fields.is_some());
    assert_eq!(body, "rest");
    let (fields, body) = split_front("plain");
    assert!(fields.is_none());
    assert_eq!(body, "plain");
    assert!(can_split_front("plain"));
    let front = read_front(&Some("name: x\nflag: true\nother: 3\nword: !kind y".to_string()));
    assert!(matches!(read_field(&front, "name"), Ok(Some(text)) if text == "x"));
    assert!(matches!(read_field(&front, "word"), Ok(Some(text)) if text == "y"));
    assert!(matches!(read_field(&front, "missing"), Ok(None)));
    assert!(matches!(read_field(&front, "other"), Ok(None)));
    assert!(read_flag(&front, "flag"));
    assert!(!read_flag(&front, "other"));
    let broken = read_front(&Some("a: [".to_string()));
    assert!(read_field(&broken, "a").is_err());
    assert!(!read_flag(&broken, "a"));
    assert!(matches!(read_front(&None), Ok(Yaml::Null)));
    let pairs = vec![(Yaml::Text("flag".to_string()), Yaml::Bool(true))];
    let tagged = Yaml::Tagged {
        tag: "!kind".to_string(),
        value: Box::new(Yaml::Mapping(pairs)),
    };
    assert!(tagged.is_true("flag"));
    assert!(!Yaml::Sequence(vec![]).is_true("flag"));
}

#[test]
fn arguments_are_split_with_quotes() {
    assert_eq!(parse_command_args("a 'b c' \"d\" e"), vec!["a", "b c", "d", "e"]);
    assert!(parse_command_args("   ").is_empty());
}

#[test]
fn arguments_are_put_into_templates() {
    let args: Vec<String> = ["x", "y", "z"].iter().map(|s| s.to_string()).collect();
    assert_eq!(substitute_args("$1 and $2", &args), "x and y");
    assert_eq!(substitute_args("[$9]", &args), "[]");
    assert_eq!(substitute_args("$@", &args), "x y z");
    assert_eq!(substitute_args("$ARGUMENTS", &args), "x y z");
    assert_eq!(substitute_args("${@:2}", &args), "y z");
    assert_eq!(substitute_args("${@:2:1}", &args), "y");
    assert_eq!(substitute_args("plain", &args), "plain");
    let template = PromptTemplate {
        name: "t".to_string(),
        description: None,
        content: "do $1".to_string(),
    };
    assert_eq!(format_prompt_template_invocation(&template, &args), "do x");
}

#[test]
fn templates_are_read_from_files() {
    let raw = "---\ndescription: Does it.\n---\nDo $1\n";
    match template_from_file("do.md", raw) {
        Ok(template) => {
            assert_eq!(template.name, "do");
            assert_eq!(template.description.as_deref(), Some("Does it."));
            assert_eq!(template.content.trim(), "Do $1");
        }
        Err(message) => panic!("refused: {message}"),
    }
    assert!(template_from_file("do.md", "---\ndescription: [\n---\nx").is_err());
    assert!(is_template_file(Some(FileKind::File), "a.md"));
    assert!(!is_template_file(Some(FileKind::File), "a.txt"));
    assert!(!is_template_file(Some(FileKind::Directory), "a.md"));
}

#[test]
fn ignore_files_are_read_where_they_exist() {
    let gone = FileError::new(FileErrorCode::NotFound, "gone".to_string());
    assert!(matches!(ignore_file_action(Err(gone), "/root/.ignore"), IgnoreFileAction::Skip));
    let denied = FileError::new(FileErrorCode::PermissionDenied, "denied".to_string());
    assert!(matches!(ignore_file_action(Err(denied), "/root/.ignore"),
        IgnoreFileAction::Report(d) if d.code == SkillDiagnosticCode::FileInfoFailed
            && d.message == "denied" && d.path == "/root/.ignore"));
    assert!(matches!(ignore_file_action(Ok(info(".ignore", FileKind::Symlink)), "/root/.ignore"),
        IgnoreFileAction::Skip));
    assert!(matches!(ignore_file_action(Ok(info(".ignore", FileKind::File)), "/root/.ignore"),
        IgnoreFileAction::Read));

    let mut matcher = IgnoreMatcher::new();
    let denied = FileError::new(FileErrorCode::PermissionDenied, "denied".to_string());
    assert!(matches!(matcher.add_file(Err(denied), "/root", "/root", "/root/.ignore"),
        Some(d) if d.code == SkillDiagnosticCode::ReadFailed));
    assert_eq!(matcher.patterns.len(), 0);
    let content = "# drafts\nold.md\n".to_string();
    assert!(matcher.add_file(Ok(content), "/root", "/root/sub", "/root/sub/.ignore").is_none());
    assert!(matcher.ignores("sub/old.md", false));
    assert!(!matcher.ignores("old.md", false));
}

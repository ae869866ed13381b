use pi_agent::harness_types::{FileError, FileErrorCode, FileKind};
use pi_agent::json::{write_json, Json};
use pi_agent::tools::edit::{
    create_edit_tool, parse_edits, prepare_edit_arguments, EditReply, EditRequest, EditRun,
};
use pi_agent::tools::edit_diff::{
    detect_line_ending, fuzzy_find_text, normalize_for_fuzzy_match, normalize_to_lf,
    restore_line_endings, strip_bom, try_apply_edits, Edit,
};
use pi_agent::tools::line_diff::{
    build_script, diff_lines, generate_diff_string, generate_unified_patch,
    split_lines_with_endings,
};
use pi_agent::types::BlockContent;

fn edit(old_text: &str, new_text: &str) -> Edit {
    Edit { old_text: old_text.to_string(), new_text: new_text.to_string() }
}

fn applied(content: &str, edits: &[Edit]) -> Result<String, String> {
    match try_apply_edits(content, edits, "f.txt") {
        Some(Ok(result)) => {
            assert_eq!(result.base_content, content);
            Ok(result.new_content)
        }
        Some(Err(message)) => Err(message),
        None => panic!("cannot be placed"),
    }
}

#[test]
fn line_endings_are_told_apart() {
    assert_eq!(detect_line_ending("a\r\nb"), "\r\n");
    assert_eq!(detect_line_ending("a\nb\r\n"), "\n");
    assert_eq!(detect_line_ending("a"), "\n");
}

#[test]
fn normalizing_undoes_restoring() {
    let text = "a\nb\n\nc";
    let crlf = restore_line_endings(text, "\r\n");
    assert_eq!(crlf, "a\r\nb\r\n\r\nc");
    assert_eq!(normalize_to_lf(&crlf), text);
    assert_eq!(normalize_to_lf("a\rb\r\nc"), "a\nb\nc");
    assert_eq!(restore_line_endings(text, "\n"), text);
}

#[test]
fn byte_order_marks_are_split_off() {
    let (mark, rest) = strip_bom("\u{feff}text");
    assert_eq!(mark, "\u{feff}");
    assert_eq!(rest, "text");
    let (mark, rest) = strip_bom("text");
    assert_eq!(mark, "");
    assert_eq!(rest, "text");
}

#[test]
fn fuzzy_forms_compose_and_simplify() {
    assert_eq!(normalize_for_fuzzy_match("\u{201c}a\u{2019}b\u{201d}"), "\"a'b\"");
    assert_eq!(normalize_for_fuzzy_match("x \u{2014} y  \nz\t"), "x - y\nz");
    assert_eq!(normalize_for_fuzzy_match("\u{fb01}n\u{ff21}"), "finA");
    assert_eq!(normalize_for_fuzzy_match("e\u{301}"), "\u{e9}");
}

#[test]
fn texts_are_found_exactly_or_in_their_fuzzy_form() {
    let exact = fuzzy_find_text("aéb", "b");
    assert!(exact.found && !exact.used_fuzzy_match);
    assert_eq!(exact.index, 3);
    assert_eq!(exact.match_length, 1);
    let fuzzy = fuzzy_find_text("say \u{201c}hi\u{201d}", "\"hi\"");
    assert!(fuzzy.found && fuzzy.used_fuzzy_match);
    assert_eq!(fuzzy.index, 4);
    assert_eq!(fuzzy.match_length, 4);
    assert_eq!(fuzzy.content_for_replacement, "say \"hi\"");
    let missing = fuzzy_find_text("abc", "x");
    assert!(!missing.found);
    assert_eq!(missing.content_for_replacement, "abc");
}

#[test]
fn exact_edits_change_only_their_matches() {
    assert_eq!(applied("one two three", &[edit("two", "2")]), Ok("one 2 three".to_string()));
    assert_eq!(
        applied("one two three", &[edit("three", "3"), edit("one", "1")]),
        Ok("1 two 3".to_string())
    );
    assert_eq!(applied("a\nb\n", &[edit("a\r\nb", "c\r\nd")]), Ok("c\nd\n".to_string()));
}

#[test]
fn fuzzy_edits_leave_other_lines_as_they_are() {
    let content = "keep \u{201c}this\u{201d}  \nchange \u{201c}that\u{201d}\n";
    assert_eq!(
        applied(content, &[edit("change \"that\"", "done")]),
        Ok("keep \u{201c}this\u{201d}  \ndone\n".to_string())
    );
}

#[test]
fn edits_that_cannot_be_made_are_refused() {
    assert_eq!(
        applied("abc", &[edit("x", "y")]),
        Err("Could not find the exact text in f.txt. The old text must match exactly including all whitespace and newlines.".to_string())
    );
    assert_eq!(
        applied("abc", &[edit("a", "b"), edit("x", "y")]),
        Err("Could not find edits[1] in f.txt. The oldText must match exactly including all whitespace and newlines.".to_string())
    );
    assert_eq!(
        applied("aXbXc", &[edit("X", "y")]),
        Err("Found 2 occurrences of the text in f.txt. The text must be unique. Please provide more context to make it unique.".to_string())
    );
    assert_eq!(
        applied("aXbXc", &[edit("a", "b"), edit("X", "y")]),
        Err("Found 2 occurrences of edits[1] in f.txt. Each oldText must be unique. Please provide more context to make it unique.".to_string())
    );
    assert_eq!(
        applied("abc", &[edit("", "y")]),
        Err("oldText must not be empty in f.txt.".to_string())
    );
    assert_eq!(
        applied("abc", &[edit("a", "b"), edit("", "y")]),
        Err("edits[1].oldText must not be empty in f.txt.".to_string())
    );
    assert_eq!(
        applied("abcd", &[edit("bc", "x"), edit("ab", "y")]),
        Err("edits[1] and edits[0] overlap in f.txt. Merge them into one edit or target disjoint regions.".to_string())
    );
    assert_eq!(
        applied("abc", &[edit("b", "b")]),
        Err("No changes made to f.txt. The replacement produced identical content. This might indicate an issue with special characters or the text not existing as expected.".to_string())
    );
    assert_eq!(
        applied("abc", &[edit("b", "b"), edit("a", "a")]),
        Err("No changes made to f.txt. The replacements produced identical content.".to_string())
    );
}

#[test]
fn lines_keep_their_endings() {
    assert_eq!(split_lines_with_endings("a\n\nb"), vec!["a\n", "\n", "b"]);
    assert!(split_lines_with_endings("").is_empty());
}

#[test]
fn diffs_come_in_runs() {
    let parts = diff_lines("a\nb\nc\n", "a\nx\ny\nc\n");
    let shown: Vec<(String, usize, bool, bool)> =
        parts.iter().map(|p| (p.value.clone(), p.count, p.added, p.removed)).collect();
    assert_eq!(
        shown,
        vec![
            ("a\n".to_string(), 1, false, false),
            ("b\n".to_string(), 1, false, true),
            ("x\ny\n".to_string(), 2, true, false),
            ("c\n".to_string(), 1, false, false),
        ]
    );
}

#[test]
fn scripts_hold_both_texts() {
    let script = build_script("a\nb\nc\n", "b\nc\nd\n");
    let old: String = script
        .iter()
        .filter(|l| !matches!(l.op, pi_agent::tools::line_diff::LineOp::Add))
        .map(|l| l.text.clone())
        .collect();
    let new: String = script
        .iter()
        .filter(|l| !matches!(l.op, pi_agent::tools::line_diff::LineOp::Remove))
        .map(|l| l.text.clone())
        .collect();
    assert_eq!(old, "a\nb\nc\n");
    assert_eq!(new, "b\nc\nd\n");
    assert_eq!(script.len(), 4);
}

#[test]
fn patches_are_unified() {
    assert_eq!(
        generate_unified_patch("f", "a\nb\nc\n", "a\nx\nc\n", 1),
        "--- f\n+++ f\n@@ -1,3 +1,3 @@\n a\n-b\n+x\n c\n"
    );
    assert_eq!(
        generate_unified_patch("f", "", "a\n", 3),
        "--- f\n+++ f\n@@ -0,0 +1,1 @@\n+a\n"
    );
    assert_eq!(
        generate_unified_patch("f", "1\n2\n3\n4\n5\n", "1\n2\n3\n4\nfive\n", 1),
        "--- f\n+++ f\n@@ -4,2 +4,2 @@\n 4\n-5\n+five\n"
    );
    assert_eq!(generate_unified_patch("f", "a\n", "a\n", 3), "--- f\n+++ f\n");
}

#[test]
fn diffs_are_shown_with_line_numbers() {
    let (text, first) = generate_diff_string("a\nb\nc\n", "a\nx\nc\n", 4);
    assert_eq!(first, Some(2));
    assert_eq!(text, " 1 a\n-2 b\n+2 x\n 3 c");
    let (text, first) = generate_diff_string("a\n", "a\n", 4);
    assert_eq!(first, None);
    assert_eq!(text, "");
}

fn text(value: &str) -> Json {
    Json::Text(value.to_string())
}

fn object(members: Vec<(&str, Json)>) -> Json {
    Json::Object(members.into_iter().map(|(k, v)| (k.to_string(), v)).collect())
}

#[test]
fn arguments_are_brought_into_shape() {
    let spelled = object(vec![
        ("path", text("f")),
        ("edits", text("[{\"oldText\":\"a\",\"newText\":\"b\"}]")),
    ]);
    assert_eq!(
        write_json(&prepare_edit_arguments(&spelled)),
        "{\"path\":\"f\",\"edits\":[{\"oldText\":\"a\",\"newText\":\"b\"}]}"
    );
    let single = object(vec![
        ("path", text("f")),
        ("oldText", text("a")),
        ("newText", text("b")),
    ]);
    assert_eq!(
        write_json(&prepare_edit_arguments(&single)),
        "{\"path\":\"f\",\"edits\":[{\"oldText\":\"a\",\"newText\":\"b\"}]}"
    );
}

#[test]
fn inputs_need_edits() {
    let none = object(vec![("path", text("f")), ("edits", Json::Array(vec![]))]);
    assert!(matches!(parse_edits(&none), Err(message)
        if message == "Edit tool input is invalid. edits must contain at least one replacement."));
    let one = object(vec![
        ("path", text("f")),
        (
            "edits",
            Json::Array(vec![object(vec![("oldText", text("a")), ("newText", text("b"))])]),
        ),
    ]);
    match parse_edits(&one) {
        Ok((path, edits)) => {
            assert_eq!(path, "f");
            assert_eq!(edits.len(), 1);
            assert_eq!(edits[0].old_text, "a");
        }
        Err(message) => panic!("refused: {message}"),
    }
}

#[test]
fn an_edit_runs_from_path_to_report() {
    let (mut run, first) = EditRun::start("f.txt".to_string(), vec![edit("b", "x")]);
    assert!(matches!(first, EditRequest::Resolve { path } if path == "f.txt"));
    let next = run.next(EditReply::Path(Ok("/w/f.txt".to_string())));
    assert!(matches!(next, EditRequest::Lock { path } if path == "/w/f.txt"));
    assert!(matches!(run.next(EditReply::Locked), EditRequest::CheckAborted));
    assert!(matches!(run.next(EditReply::Aborted(false)), EditRequest::Inspect { .. }));
    assert!(matches!(run.next(EditReply::Kind(Ok(FileKind::File))), EditRequest::Read { .. }));
    let next = run.next(EditReply::Text(Ok("\u{feff}a\r\nb\r\n".to_string())));
    assert!(matches!(next, EditRequest::CheckAborted));
    assert!(matches!(run.next(EditReply::Aborted(false)), EditRequest::CheckAborted));
    match run.next(EditReply::Aborted(false)) {
        EditRequest::Write { path, content } => {
            assert_eq!(path, "/w/f.txt");
            assert_eq!(content, "\u{feff}a\r\nx\r\n");
        }
        _ => panic!("does not write"),
    }
    assert!(matches!(run.next(EditReply::Written(Ok(()))), EditRequest::CheckAborted));
    match run.next(EditReply::Aborted(false)) {
        EditRequest::Finish { result: Ok(report) } => {
            assert!(matches!(&report.content[0], BlockContent::Text(t)
                if t.text == "Successfully replaced 1 block(s) in f.txt."));
            assert_eq!(
                report.details.text_field("diff"),
                " 1 a\n-2 b\n+2 x"
            );
        }
        _ => panic!("does not finish"),
    }
}

#[test]
fn an_aborted_edit_writes_nothing() {
    let (mut run, _) = EditRun::start("f".to_string(), vec![edit("b", "x")]);
    run.next(EditReply::Path(Ok("/f".to_string())));
    run.next(EditReply::Locked);
    match run.next(EditReply::Aborted(true)) {
        EditRequest::Finish { result: Err(message) } => assert_eq!(message, "Operation aborted"),
        _ => panic!("goes on"),
    }
}

#[test]
fn a_missing_file_is_reported() {
    let (mut run, _) = EditRun::start("f".to_string(), vec![edit("b", "x")]);
    run.next(EditReply::Path(Ok("/f".to_string())));
    run.next(EditReply::Locked);
    run.next(EditReply::Aborted(false));
    let error = FileError {
        code: FileErrorCode::NotFound,
        message: "gone".to_string(),
        path: Some("/f".to_string()),
    };
    assert!(matches!(run.next(EditReply::Kind(Err(error))),
        EditRequest::Finish { result: Err(_) }));
}

#[test]
fn the_edit_tool_presents_itself() {
    let tool = create_edit_tool();
    assert_eq!(tool.name, "edit");
    assert!(write_json(&tool.parameters).starts_with("{\"type\":\"object\""));
}

#[test]
fn normalizing_twice_changes_nothing_more() {
    let once = normalize_to_lf("a\r\n\r\rb\n\r\nc");
    assert_eq!(once, "a\n\n\nb\n\nc");
    assert_eq!(normalize_to_lf(&once), once);
}

#[test]
fn restoring_undoes_normalizing() {
    for text in ["a\r\nb\r\n\r\n", "a\nb\n\n", "a", "", "\r\n"] {
        let normalized = normalize_to_lf(text);
        assert_eq!(restore_line_endings(&normalized, detect_line_ending(text)), text);
    }
}

#[test]
fn fuzzy_forms_are_plain() {
    let form = normalize_for_fuzzy_match("a\u{3000}\u{a0}\n\u{2003}\u{2212}\u{2018}\t\n");
    assert_eq!(form, "a\n -'\n");
    assert_eq!(normalize_for_fuzzy_match(&form), form);
    for text in [
        "e\u{301} \t\n\u{2019}\u{301}\u{2010}\u{338}",
        "<\u{338}=\u{338} \u{b4}\n\u{1100}\u{1161}\u{11a8} ",
        "\u{fb01}\u{2460}\u{3000}\u{300}x\u{323}\u{302}",
    ] {
        let form = normalize_for_fuzzy_match(text);
        assert_eq!(normalize_for_fuzzy_match(&form), form);
    }
}

#[test]
fn edits_are_made_in_any_order() {
    let content = "one\ntwo\nthree\n";
    let there = [edit("one", "1"), edit("three", "3"), edit("two", "2")];
    let back = [edit("two", "2"), edit("three", "3"), edit("one", "1")];
    assert_eq!(applied(content, &there), Ok("1\n2\n3\n".to_string()));
    assert_eq!(applied(content, &back), Ok("1\n2\n3\n".to_string()));
    let quoted = "say \u{201c}hi\u{201d}\nstay\u{2019}\nend\n";
    let there = [edit("say \"hi\"", "said"), edit("end", "over")];
    let back = [edit("end", "over"), edit("say \"hi\"", "said")];
    assert_eq!(applied(quoted, &there), Ok("said\nstay\u{2019}\nover\n".to_string()));
    assert_eq!(applied(quoted, &back), applied(quoted, &there));
}

/// Applies a patch whose lines all end with line feeds.
fn patched(old: &str, patch: &str) -> String {
    let lines: Vec<&str> = old.split_inclusive('\n').collect();
    let mut at = 0;
    let mut new = String::new();
    for line in patch.split_inclusive('\n').skip(2) {
        let text = &line[1..];
        match &line[..1] {
            "@" => {
                let range = line.split(' ').nth(1).unwrap();
                let (first, count) = range[1..].split_once(',').unwrap();
                let first: usize = first.parse().unwrap();
                let start = if count == "0" { first } else { first - 1 };
                while at < start {
                    new.push_str(lines[at]);
                    at += 1;
                }
            }
            "+" => new.push_str(text),
            mark => {
                assert_eq!(lines[at], text);
                if mark == " " {
                    new.push_str(text);
                }
                at += 1;
            }
        }
    }
    new.push_str(&lines[at..].concat());
    new
}

#[test]
fn patches_make_the_new_text() {
    let old = "1\n2\n3\n4\n5\n6\n7\n8\n9\n";
    for new in ["", "1\n", "0\n1\n2\n3\n5\n6\n7\nx\n9\n10\n", "9\n8\n7\n", old] {
        for context in [0, 1, 4] {
            assert_eq!(patched(old, &generate_unified_patch("f", old, new, context)), new);
            assert_eq!(patched(new, &generate_unified_patch("f", new, old, context)), old);
        }
    }
}

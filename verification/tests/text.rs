use pi_agent::json::{write_json, Json};
use pi_agent::text::{parse_number, replace_all_text, split_text, trim_text};

#[test]
fn splitting_keeps_empty_pieces() {
    assert_eq!(split_text("a,,b,", ','), vec!["a", "", "b", ""]);
    assert_eq!(split_text("", ','), vec![""]);
}

#[test]
fn joining_undoes_splitting() {
    let text = "one\ntwo\n\nthree";
    let parts = split_text(text, '\n');
    assert_eq!(pi_agent::text::join_texts(&parts, "\n"), text);
}

#[test]
fn trimming_removes_unicode_space() {
    assert_eq!(trim_text("\u{3000} a b \t\n"), "a b");
}

#[test]
fn replacing_takes_matches_from_the_left() {
    assert_eq!(replace_all_text("aaa", "aa", "b"), "ba");
}

#[test]
fn numbers_are_read_with_an_optional_plus() {
    assert_eq!(parse_number("+12"), Some(12));
    assert_eq!(parse_number("12x"), None);
    assert_eq!(parse_number(""), None);
    assert_eq!(parse_number("99999999999999999999999"), None);
}

#[test]
fn quoted_texts_escape_what_must_be() {
    let text = Json::Text("a\"\\/\u{8}\u{c}\n\r\t\u{1}\u{1f}\u{7f}\u{e9}".to_string());
    assert_eq!(
        write_json(&text),
        "\"a\\\"\\\\/\\b\\f\\n\\r\\t\\u0001\\u001f\u{7f}\u{e9}\""
    );
}

//! Prompt templates: loading them from files, and filling in arguments.

use vstd::prelude::*;

use crate::front_matter::{
    field_of, front_fits, front_parts, front_value, read_field, read_front, split_front,
    yaml_result, Yaml,
};
use crate::harness_types::{FileError, FileErrorCode, FileInfo, FileKind, PromptTemplate};
use crate::text::{
    chars_of, concat2, digits_value, find_from, finishes_with, first_match, has_suffix, is_digit,
    join, join_texts, lemma_first_match, parse_number, read_digits, replace_all, replace_all_text,
    spelled_number, split, split_text, substring, text_of_option, texts, trim, trim_text,
};
use crate::text_set::{stands_before, text_before};

verus! {

// ---------------------------------------------------------------------------
// Arguments
// ---------------------------------------------------------------------------

/// How far a line of arguments has been read.
pub struct ArgsView {
    pub args: Seq<Seq<char>>,
    pub current: Seq<char>,
    pub quote: Option<char>,
}

/// A line of arguments with one more character read. Quotes keep blanks inside
/// an argument, and are not part of it.
pub open spec fn with_char(at: ArgsView, c: char) -> ArgsView {
    match at.quote {
        Some(quote) => if c == quote {
            ArgsView { quote: None, ..at }
        } else {
            ArgsView { current: at.current.push(c), ..at }
        },
        None => if c == '"' || c == '\'' {
            ArgsView { quote: Some(c), ..at }
        } else if c == ' ' || c == '\t' {
            args_closed(at)
        } else {
            ArgsView { current: at.current.push(c), ..at }
        },
    }
}

/// A line of arguments whose last argument is complete.
pub open spec fn args_closed(at: ArgsView) -> ArgsView {
    if at.current.len() > 0 {
        ArgsView { args: at.args.push(at.current), current: Seq::empty(), ..at }
    } else {
        at
    }
}

/// A line of arguments after some characters.
pub open spec fn args_after(s: Seq<char>) -> ArgsView
    decreases s.len(),
{
    if s.len() == 0 {
        ArgsView { args: Seq::empty(), current: Seq::empty(), quote: None }
    } else {
        with_char(args_after(s.drop_last()), s.last())
    }
}

/// The arguments of a line.
pub open spec fn command_args(s: Seq<char>) -> Seq<Seq<char>> {
    args_closed(args_after(s)).args
}

fn close_arg(args: &mut Vec<String>, current: &mut String)
    ensures
        texts(final(args)@) == if old(current)@.len() > 0 {
            texts(old(args)@).push(old(current)@)
        } else {
            texts(old(args)@)
        },
        final(current)@.len() == 0,
{
    if current.as_str().unicode_len() > 0 {
        let ghost before = args@;
        let ghost held = current@;
        let mut taken: String = String::new();
        std::mem::swap(&mut taken, current);
        args.push(taken);
        proof {
            assert(texts(args@) =~= texts(before).push(held));
        }
    }
}

/// The arguments of a line: texts between blanks, or between quotes.
pub fn parse_command_args(args_string: &str) -> (r: Vec<String>)
    ensures
        texts(r@) == command_args(args_string@),
{
    let chars: Vec<char> = chars_of(args_string);
    let mut args: Vec<String> = Vec::new();
    let mut current: String = String::new();
    let mut quote: Option<char> = None;
    let mut i: usize = 0;
    proof {
        assert(chars@.take(0) =~= Seq::<char>::empty());
        assert(texts(args@) =~= Seq::<Seq<char>>::empty());
        assert(current@ =~= Seq::<char>::empty());
    }
    while i < chars.len()
        invariant
            i <= chars@.len(),
            (ArgsView { args: texts(args@), current: current@, quote }) == args_after(
                chars@.take(i as int),
            ),
        decreases chars@.len() - i,
    {
        let c: char = chars[i];
        proof {
            assert(chars@.take(i + 1).drop_last() =~= chars@.take(i as int));
            assert(chars@.take(i + 1).last() == c);
        }
        match quote {
            Some(q) => {
                if c == q {
                    quote = None;
                } else {
                    current.push(c);
                }
            },
            None => {
                if c == '"' || c == '\'' {
                    quote = Some(c);
                } else if c == ' ' || c == '\t' {
                    let ghost held = current@;
                    close_arg(&mut args, &mut current);
                    proof {
                        assert(current@ =~= Seq::<char>::empty());
                        if held.len() == 0 {
                            assert(held =~= Seq::<char>::empty());
                        }
                    }
                } else {
                    current.push(c);
                }
            },
        }
        i = i + 1;
    }
    proof {
        assert(chars@.take(chars@.len() as int) =~= chars@);
    }
    close_arg(&mut args, &mut current);
    args
}

/// The argument at a position, or nothing.
pub open spec fn arg_at(args: Seq<Seq<char>>, i: int) -> Seq<char> {
    if 0 <= i < args.len() {
        args[i]
    } else {
        Seq::empty()
    }
}

/// How many digits a text starts with.
pub open spec fn digit_count(s: Seq<char>) -> nat
    decreases s.len(),
{
    if s.len() > 0 && is_digit(s[0]) {
        1 + digit_count(s.skip(1))
    } else {
        0
    }
}

/// The position of the argument that a number stands for: arguments are counted
/// from one on. A number that is too large stands for the first.
pub open spec fn arg_position(digits: Seq<char>) -> int {
    let n = digits_value(digits);
    if n > usize::MAX || n == 0 {
        0
    } else {
        n - 1
    }
}

/// The text with arguments in place of numbers behind a dollar sign.
pub open spec fn with_numbered(s: Seq<char>, args: Seq<Seq<char>>) -> Seq<char>
    decreases s.len(),
    via numbered_advance
{
    if s.len() == 0 {
        Seq::empty()
    } else if s[0] == '$' && digit_count(s.skip(1)) > 0 {
        let n = digit_count(s.skip(1)) as int;
        arg_at(args, arg_position(s.subrange(1, 1 + n))) + with_numbered(s.skip(1 + n), args)
    } else {
        seq![s[0]] + with_numbered(s.skip(1), args)
    }
}

#[via_fn]
proof fn numbered_advance(s: Seq<char>, args: Seq<Seq<char>>) {
    if s.len() > 0 {
        lemma_digits_inside(s.skip(1));
    }
}

proof fn lemma_digits_inside(s: Seq<char>)
    ensures
        digit_count(s) <= s.len(),
    decreases s.len(),
{
    if s.len() > 0 && is_digit(s[0]) {
        lemma_digits_inside(s.skip(1));
    }
}

/// Digits up to another character are those that a text starts with.
pub proof fn lemma_digit_count(s: Seq<char>, n: int)
    requires
        0 <= n <= s.len(),
        forall|i: int| 0 <= i < n ==> is_digit(#[trigger] s[i]),
        n < s.len() ==> !is_digit(s[n]),
    ensures
        digit_count(s) == n,
    decreases n,
{
    if n > 0 {
        assert(is_digit(s[0]));
        let rest = s.skip(1);
        assert forall|i: int| 0 <= i < n - 1 implies is_digit(#[trigger] rest[i]) by {
            assert(is_digit(s[i + 1]));
        }
        lemma_digit_count(rest, n - 1);
    }
}

fn replace_numbered(content: &str, args: &[String]) -> (r: String)
    ensures
        r@ == with_numbered(content@, texts(args@)),
{
    let chars: Vec<char> = chars_of(content);
    let ghost all = texts(args@);
    let n: usize = chars.len();
    let mut out: String = String::new();
    let mut i: usize = 0;
    proof {
        assert(chars@.skip(0) =~= chars@);
        assert(out@ + with_numbered(chars@, all) =~= with_numbered(chars@, all));
    }
    while i < n
        invariant
            i <= n == chars@.len(),
            all == texts(args@),
            out@ + with_numbered(chars@.skip(i as int), all) == with_numbered(chars@, all),
        decreases n - i,
    {
        let ghost rest = chars@.skip(i as int);
        let ghost before = out@;
        let mut end: usize = i + 1;
        if chars[i] == '$' {
            while end < n && '0' <= chars[end] && chars[end] <= '9'
                invariant
                    i < end <= n == chars@.len(),
                    forall|k: int| i < k < end ==> is_digit(#[trigger] chars@[k]),
                decreases n - end,
            {
                end = end + 1;
            }
            proof {
                let tail = rest.skip(1);
                assert forall|k: int| 0 <= k < end - i - 1 implies is_digit(#[trigger] tail[k]) by {
                    assert(is_digit(chars@[i + 1 + k]));
                }
                lemma_digit_count(tail, end - i - 1);
            }
        }
        if end > i + 1 {
            let number: usize = match read_digits(chars.as_slice(), i + 1, end) {
                Some(number) => number,
                None => 0,
            };
            let position: usize = if number > 0 {
                number - 1
            } else {
                0
            };
            proof {
                assert(rest.subrange(1, (end - i) as int) =~= chars@.subrange(
                    i + 1,
                    end as int,
                ));
                assert(rest.skip((end - i) as int) =~= chars@.skip(end as int));
            }
            if position < args.len() {
                out.append(args[position].as_str());
            }
            proof {
                assert(out@ =~= before + arg_at(all, position as int));
                assert(out@ + with_numbered(chars@.skip(end as int), all) =~= before
                    + with_numbered(rest, all));
            }
            i = end;
        } else {
            out.push(chars[i]);
            proof {
                assert(rest.skip(1) =~= chars@.skip(i + 1));
                assert(out@ + with_numbered(chars@.skip(i + 1), all) =~= before + with_numbered(
                    rest,
                    all,
                ));
            }
            i = i + 1;
        }
    }
    proof {
        assert(chars@.skip(n as int) =~= Seq::<char>::empty());
        assert(out@ =~= with_numbered(chars@, all));
    }
    out
}

/// A number that a text spells, or another.
pub open spec fn number_or(s: Seq<char>, other: nat) -> nat {
    match spelled_number(s) {
        Some(n) => n,
        None => other,
    }
}

/// The arguments that a token stands for: from a position on, and as many as it
/// says.
pub open spec fn args_of_token(token: Seq<char>, args: Seq<Seq<char>>) -> Seq<Seq<char>> {
    let colon = first_match(token, ":"@, 0);
    let from = number_or(
        match colon {
            Some(i) => token.take(i),
            None => token,
        },
        1,
    );
    let start = if from == 0 {
        0
    } else {
        from - 1
    };
    let rest = args.skip(
        if start < args.len() {
            start
        } else {
            args.len() as int
        },
    );
    match colon {
        Some(i) => {
            let n = number_or(token.skip(i + 1), 0);
            rest.take(
                if n < rest.len() {
                    n as int
                } else {
                    rest.len() as int
                },
            )
        },
        None => rest,
    }
}

/// The text with arguments in place of tokens that stand for several.
pub open spec fn with_slices(s: Seq<char>, args: Seq<Seq<char>>) -> Seq<char>
    decreases s.len(),
    via slices_advance
{
    match first_match(s, "${@:"@, 0) {
        Some(start) => match first_match(s.skip(start + 4), "}"@, 0) {
            Some(close) => s.take(start) + join(
                args_of_token(s.skip(start + 4).take(close), args),
                " "@,
            ) + with_slices(s.skip(start + 4).skip(close + 1), args),
            None => s,
        },
        None => s,
    }
}

#[via_fn]
proof fn slices_advance(s: Seq<char>, args: Seq<Seq<char>>) {
    reveal_strlit("${@:");
    reveal_strlit("}");
    lemma_first_match(s, "${@:"@, 0);
    match first_match(s, "${@:"@, 0) {
        Some(start) => {
            lemma_first_match(s.skip(start + 4), "}"@, 0);
        },
        None => {},
    }
}

fn join_token(token: &str, args: &[String]) -> (r: String)
    ensures
        r@ == join(args_of_token(token@, texts(args@)), " "@),
{
    proof {
        reveal_strlit(":");
    }
    let ghost all = texts(args@);
    let chars: Vec<char> = chars_of(token);
    let colon_chars: Vec<char> = chars_of(":");
    let size: usize = chars.len();
    let colon: Option<usize> = find_from(chars.as_slice(), colon_chars.as_slice(), 0);
    let mut start_text: String = token.to_string();
    let mut length_text: Option<String> = None;
    proof {
        lemma_first_match(token@, ":"@, 0);
    }
    match colon {
        Some(i) => {
            start_text = substring(token, 0, i);
            let tail: String = substring(token, i + 1, size);
            proof {
                assert(token@.subrange(0, i as int) =~= token@.take(i as int));
                assert(token@.subrange(i + 1, size as int) =~= token@.skip(i + 1));
            }
            length_text = Some(tail);
        },
        None => {},
    }
    let from: usize = match parse_number(start_text.as_str()) {
        Some(n) => n,
        None => 1,
    };
    let wanted: usize = if from == 0 {
        0
    } else {
        from - 1
    };
    let n: usize = args.len();
    let start: usize = if wanted < n {
        wanted
    } else {
        n
    };
    let mut end: usize = n;
    match &length_text {
        Some(text) => {
            let count: usize = match parse_number(text.as_str()) {
                Some(count) => count,
                None => 0,
            };
            if count < n - start {
                end = start + count;
            }
        },
        None => {},
    }
    let chosen: &[String] = vstd::slice::slice_subrange(args, start, end);
    proof {
        assert(texts(chosen@) =~= args_of_token(token@, all));
    }
    join_texts(chosen, " ")
}

fn replace_slice_tokens(content: &str, args: &[String]) -> (r: String)
    ensures
        r@ == with_slices(content@, texts(args@)),
{
    proof {
        reveal_strlit("${@:");
        reveal_strlit("}");
    }
    let ghost all = texts(args@);
    let mark: Vec<char> = chars_of("${@:");
    let brace: Vec<char> = chars_of("}");
    let mut out: String = String::new();
    let mut rest: String = content.to_string();
    let mut done: bool = false;
    proof {
        assert(out@ + with_slices(rest@, all) =~= with_slices(content@, all));
    }
    while !done
        invariant
            all == texts(args@),
            mark@ == "${@:"@,
            mark@.len() == 4,
            brace@ == "}"@,
            brace@.len() == 1,
            !done ==> out@ + with_slices(rest@, all) == with_slices(content@, all),
            done ==> out@ == with_slices(content@, all),
        decreases
                rest@.len() + if done {
                    0int
                } else {
                    1int
                },
    {
        let chars: Vec<char> = chars_of(rest.as_str());
        let n: usize = chars.len();
        proof {
            lemma_first_match(rest@, "${@:"@, 0);
        }
        match find_from(chars.as_slice(), mark.as_slice(), 0) {
            Some(start) => {
                let after: String = substring(rest.as_str(), start + 4, n);
                proof {
                    assert(rest@.subrange(start + 4, n as int) =~= rest@.skip(start + 4));
                    lemma_first_match(after@, "}"@, 0);
                }
                let after_chars: Vec<char> = chars_of(after.as_str());
                let m: usize = after_chars.len();
                match find_from(after_chars.as_slice(), brace.as_slice(), 0) {
                    Some(close) => {
                        let ghost before = out@;
                        let front: String = substring(rest.as_str(), 0, start);
                        let token: String = substring(after.as_str(), 0, close);
                        let tail: String = substring(after.as_str(), close + 1, m);
                        proof {
                            assert(rest@.subrange(0, start as int) =~= rest@.take(start as int));
                            assert(after@.subrange(0, close as int) =~= after@.take(
                                close as int,
                            ));
                            assert(after@.subrange(close + 1, m as int) =~= after@.skip(
                                close + 1,
                            ));
                        }
                        let filled: String = join_token(token.as_str(), args);
                        out.append(front.as_str());
                        out.append(filled.as_str());
                        proof {
                            assert(out@ + with_slices(tail@, all) =~= before + with_slices(
                                rest@,
                                all,
                            ));
                        }
                        rest = tail;
                    },
                    None => {
                        out.append(rest.as_str());
                        done = true;
                    },
                }
            },
            None => {
                out.append(rest.as_str());
                done = true;
            },
        }
    }
    out
}

/// The text with arguments filled in: numbers behind a dollar sign, tokens that
/// stand for several arguments, and marks that stand for all.
pub open spec fn substituted(content: Seq<char>, args: Seq<Seq<char>>) -> Seq<char> {
    let all = join(args, " "@);
    replace_all(
        replace_all(with_slices(with_numbered(content, args), args), "$ARGUMENTS"@, all),
        "$@"@,
        all,
    )
}

/// The text with arguments filled in.
pub fn substitute_args(content: &str, args: &[String]) -> (r: String)
    ensures
        r@ == substituted(content@, texts(args@)),
{
    proof {
        reveal_strlit("$ARGUMENTS");
        reveal_strlit("$@");
    }
    let numbered: String = replace_numbered(content, args);
    let sliced: String = replace_slice_tokens(numbered.as_str(), args);
    let all: String = join_texts(args, " ");
    let named: String = replace_all_text(sliced.as_str(), "$ARGUMENTS", all.as_str());
    replace_all_text(named.as_str(), "$@", all.as_str())
}

/// The content of a template with arguments filled in.
pub fn format_prompt_template_invocation(template: &PromptTemplate, args: &[String]) -> (r: String)
    ensures
        r@ == substituted(template.content@, texts(args@)),
{
    substitute_args(template.content.as_str(), args)
}

/// A text without a dollar sign is not changed by filling in arguments.
pub proof fn law_plain_templates_stay(content: Seq<char>, args: Seq<Seq<char>>)
    requires
        !content.contains('$'),
    ensures
        substituted(content, args) == content,
{
    reveal_strlit("$ARGUMENTS");
    reveal_strlit("$@");
    reveal_strlit("${@:");
    lemma_no_numbers(content, args);
    lemma_no_mark(content, "${@:"@);
    lemma_no_mark(content, "$ARGUMENTS"@);
    lemma_no_mark(content, "$@"@);
}

/// Without a dollar sign there is no number to fill in.
pub proof fn lemma_no_numbers(s: Seq<char>, args: Seq<Seq<char>>)
    requires
        !s.contains('$'),
    ensures
        with_numbered(s, args) == s,
    decreases s.len(),
{
    if s.len() > 0 {
        assert(s.contains(s[0]));
        let rest = s.skip(1);
        assert forall|i: int| 0 <= i < rest.len() implies rest[i] != '$' by {
            assert(s.contains(s[i + 1]));
        }
        lemma_no_numbers(rest, args);
        assert(seq![s[0]] + rest =~= s);
    }
}

/// Without a dollar sign there is no mark to fill in.
pub proof fn lemma_no_mark(s: Seq<char>, mark: Seq<char>)
    requires
        !s.contains('$'),
        mark.len() > 0,
        mark[0] == '$',
    ensures
        first_match(s, mark, 0) is None,
{
    lemma_first_match(s, mark, 0);
    match first_match(s, mark, 0) {
        Some(i) => {
            assert(s.subrange(i, i + mark.len())[0] == s[i]);
            assert(s.contains(s[i]));
        },
        None => {},
    }
}

// ---------------------------------------------------------------------------
// Loading
// ---------------------------------------------------------------------------

/// Why a template, or something on the way to it, could not be loaded.
#[derive(Clone, Copy, PartialEq, Eq, Structural, Debug)]
pub enum PromptTemplateDiagnosticCode {
    FileInfoFailed,
    ListFailed,
    ReadFailed,
    ParseFailed,
}

/// What could not be loaded.
pub struct PromptTemplateDiagnostic {
    pub code: PromptTemplateDiagnosticCode,
    pub message: String,
    pub path: String,
}

/// Templates, and what could not be loaded.
pub struct LoadedPromptTemplates {
    pub prompt_templates: Vec<PromptTemplate>,
    pub diagnostics: Vec<PromptTemplateDiagnostic>,
}

/// A template with where it comes from.
pub struct SourcedPromptTemplate<TSource> {
    pub prompt_template: PromptTemplate,
    pub source: TSource,
}

/// What could not be loaded, with where it comes from.
pub struct SourcedPromptTemplateDiagnostic<TSource> {
    pub diagnostic: PromptTemplateDiagnostic,
    pub source: TSource,
}

/// A path with where it comes from.
pub struct SourcedInput<TSource> {
    pub path: String,
    pub source: TSource,
}

/// The mathematical value of a template.
pub struct TemplateView {
    pub name: Seq<char>,
    pub description: Option<Seq<char>>,
    pub content: Seq<char>,
}

/// The mathematical value of a template.
pub open spec fn template_view(t: PromptTemplate) -> TemplateView {
    TemplateView {
        name: t.name@,
        description: text_of_option(t.description),
        content: t.content@,
    }
}

/// The first line that holds something, or nothing.
pub open spec fn first_filled_line(lines: Seq<Seq<char>>) -> Seq<char>
    decreases lines.len(),
{
    if lines.len() == 0 {
        Seq::empty()
    } else if trim(lines[0]).len() > 0 {
        lines[0]
    } else {
        first_filled_line(lines.skip(1))
    }
}

/// A line cut to sixty characters.
pub open spec fn short_description(line: Seq<char>) -> Seq<char> {
    if line.len() > 60 {
        line.take(60) + "..."@
    } else {
        line
    }
}

/// The description of a template: the one that it declares, or else its first
/// line.
pub open spec fn template_description(declared: Seq<char>, body: Seq<char>) -> Option<Seq<char>> {
    let text = if declared.len() > 0 {
        declared
    } else {
        short_description(first_filled_line(split(body, '\n')))
    };
    if text.len() > 0 {
        Some(text)
    } else {
        None
    }
}

/// The name of a template: the name of its file without the ending.
pub open spec fn template_name(file_name: Seq<char>) -> Seq<char> {
    if finishes_with(file_name, ".md"@) || finishes_with(file_name, ".MD"@) {
        file_name.take(file_name.len() - 3)
    } else {
        file_name
    }
}

/// The template of a file, given the description that it declares.
pub open spec fn template_of(
    file_name: Seq<char>,
    declared: Option<Seq<char>>,
    body: Seq<char>,
) -> TemplateView {
    TemplateView {
        name: template_name(file_name),
        description: template_description(
            match declared {
                Some(text) => text,
                None => Seq::empty(),
            },
            body,
        ),
        content: body,
    }
}

fn find_filled_line(lines: &Vec<String>) -> (r: String)
    ensures
        r@ == first_filled_line(texts(lines@)),
{
    let ghost all = texts(lines@);
    let mut i: usize = 0;
    proof {
        assert(all.skip(0) =~= all);
    }
    while i < lines.len()
        invariant
            i <= lines@.len(),
            all == texts(lines@),
            first_filled_line(all) == first_filled_line(all.skip(i as int)),
        decreases lines@.len() - i,
    {
        proof {
            assert(all.skip(i as int)[0] == lines@[i as int]@);
            assert(all.skip(i as int).skip(1) =~= all.skip(i + 1));
        }
        let trimmed: String = trim_text(lines[i].as_str());
        if trimmed.as_str().unicode_len() > 0 {
            return lines[i].clone();
        }
        i = i + 1;
    }
    let none: String = String::new();
    proof {
        assert(none@ =~= Seq::<char>::empty());
    }
    none
}

/// The template of a file, given the description that it declares.
pub fn make_template(file_name: &str, declared: Option<String>, body: String) -> (r: PromptTemplate)
    ensures
        template_view(r) == template_of(file_name@, text_of_option(declared), body@),
{
    let declared: String = match declared {
        Some(text) => text,
        None => {
            let none: String = String::new();
            proof {
                assert(none@ =~= Seq::<char>::empty());
            }
            none
        },
    };
    let text: String = if declared.as_str().unicode_len() > 0 {
        declared
    } else {
        let lines: Vec<String> = split_text(body.as_str(), '\n');
        let line: String = find_filled_line(&lines);
        if line.as_str().unicode_len() > 60 {
            let front: String = substring(line.as_str(), 0, 60);
            proof {
                assert(line@.subrange(0, 60) =~= line@.take(60));
            }
            concat2(front.as_str(), "...")
        } else {
            line
        }
    };
    let description: Option<String> = if text.as_str().unicode_len() > 0 {
        Some(text)
    } else {
        None
    };
    proof {
        reveal_strlit(".md");
        reveal_strlit(".MD");
    }
    let name: String = if has_suffix(file_name, ".md") || has_suffix(file_name, ".MD") {
        let n: usize = file_name.unicode_len();
        proof {
            assert(file_name@.subrange(0, n - 3) =~= file_name@.take(n - 3));
        }
        substring(file_name, 0, n - 3)
    } else {
        file_name.to_string()
    };
    PromptTemplate { name, description, content: body }
}

/// The template of a file: or why its front matter cannot be read.
pub fn template_from_file(file_name: &str, raw_content: &str) -> (r: Result<PromptTemplate, String>)
    requires
        front_fits(raw_content@),
    ensures
        ({
            let parts = front_parts(raw_content@);
            match field_of(front_value(parts.0), "description"@) {
                Ok(declared) => r matches Ok(template) && template_view(template) == template_of(
                    file_name@,
                    declared,
                    parts.1,
                ),
                Err(message) => r matches Err(text) && text@ == message,
            }
        }),
{
    let (fields, body) = split_front(raw_content);
    let front: Result<Yaml, String> = read_front(&fields);
    template_from_front(file_name, &front, body)
}

/// The template of a file, from what its front matter holds: or why that cannot
/// be read.
pub fn template_from_front(file_name: &str, front: &Result<Yaml, String>, body: String) -> (r:
    Result<PromptTemplate, String>)
    ensures
        match field_of(yaml_result(*front), "description"@) {
            Ok(declared) => r matches Ok(template) && template_view(template) == template_of(
                file_name@,
                declared,
                body@,
            ),
            Err(message) => r matches Err(text) && text@ == message,
        },
{
    match read_field(front, "description") {
        Ok(declared) => Ok(make_template(file_name, declared, body)),
        Err(message) => Err(message),
    }
}

/// What is said of an object that could not be looked at: nothing where it does
/// not exist.
pub fn info_diagnostic(error: &FileError, path: &str) -> (r: Option<PromptTemplateDiagnostic>)
    ensures
        r is None <==> error.code == FileErrorCode::NotFound,
        r matches Some(d) ==> d.code == PromptTemplateDiagnosticCode::FileInfoFailed && d.message@
            == error.message@ && d.path@ == path@,
{
    if error.code == FileErrorCode::NotFound {
        None
    } else {
        Some(
            PromptTemplateDiagnostic {
                code: PromptTemplateDiagnosticCode::FileInfoFailed,
                message: error.message.clone(),
                path: path.to_string(),
            },
        )
    }
}

/// Whether a file is loaded as a template: a file that ends in `.md`.
pub fn is_template_file(kind: Option<FileKind>, name: &str) -> (r: bool)
    ensures
        r == names_template(kind, name@),
{
    kind == Some(FileKind::File) && has_suffix(name, ".md")
}

/// What an object is that a link leads to: a file or a directory, or nothing
/// that is loaded.
pub fn followed_kind(kind: FileKind) -> (r: Option<FileKind>)
    ensures
        r == loadable_kind(kind),
{
    if kind == FileKind::File || kind == FileKind::Directory {
        Some(kind)
    } else {
        None
    }
}

// ---------------------------------------------------------------------------
// Listings
// ---------------------------------------------------------------------------

/// The entries with one more put in front of the first whose name does not stand
/// before its own.
pub open spec fn insert_by_name(s: Seq<FileInfo>, x: FileInfo) -> Seq<FileInfo>
    decreases s.len(),
{
    if s.len() == 0 || !text_before(s[0].name@, x.name@) {
        seq![x] + s
    } else {
        seq![s[0]] + insert_by_name(s.drop_first(), x)
    }
}

/// The entries in the order of their names; those of equal names keep their
/// order.
pub open spec fn by_name(s: Seq<FileInfo>) -> Seq<FileInfo>
    decreases s.len(),
{
    if s.len() == 0 {
        Seq::empty()
    } else {
        insert_by_name(by_name(s.drop_first()), s[0])
    }
}

fn place_by_name(items: &mut Vec<FileInfo>, x: FileInfo)
    ensures
        final(items)@ == insert_by_name(old(items)@, x),
{
    let mut i: usize = 0;
    let ghost s = items@;
    proof {
        assert(s.skip(0) =~= s);
        assert(s.take(0) + insert_by_name(s, x) =~= insert_by_name(s, x));
    }
    while i < items.len()
        invariant_except_break
            i <= s.len(),
            items@ == s,
            s.take(i as int) + insert_by_name(s.skip(i as int), x) == insert_by_name(s, x),
        ensures
            i <= s.len(),
            items@ == s,
            s.take(i as int) + (seq![x] + s.skip(i as int)) == insert_by_name(s, x),
        decreases s.len() - i,
    {
        if !stands_before(items[i].name.as_str(), x.name.as_str()) {
            break;
        }
        proof {
            let rest = s.skip(i as int);
            assert(rest[0] == s[i as int]);
            assert(rest.drop_first() =~= s.skip(i + 1));
            assert(s.take(i as int) + (seq![rest[0]] + insert_by_name(rest.drop_first(), x))
                =~= s.take(i + 1) + insert_by_name(s.skip(i + 1), x));
        }
        i = i + 1;
    }
    proof {
        assert(s.insert(i as int, x) =~= s.take(i as int) + (seq![x] + s.skip(i as int)));
    }
    items.insert(i, x);
}

/// The entries in the order of their names; those of equal names keep their
/// order.
pub fn sort_by_name(entries: Vec<FileInfo>) -> (r: Vec<FileInfo>)
    ensures
        r@ == by_name(entries@),
{
    let mut rest: Vec<FileInfo> = entries;
    let mut out: Vec<FileInfo> = Vec::new();
    let ghost all = entries@;
    proof {
        assert(all.take(all.len() as int) =~= all);
        assert(all.skip(all.len() as int) =~= Seq::<FileInfo>::empty());
        assert(out@ =~= Seq::<FileInfo>::empty());
    }
    while rest.len() > 0
        invariant
            rest@.len() <= all.len(),
            rest@ == all.take(rest@.len() as int),
            out@ == by_name(all.skip(rest@.len() as int)),
        decreases rest@.len(),
    {
        let ghost n = rest@.len();
        match rest.pop() {
            Some(x) => {
                proof {
                    assert(all.skip(n - 1)[0] == x);
                    assert(all.skip(n - 1).drop_first() =~= all.skip(n as int));
                    assert(rest@ =~= all.take(n - 1));
                }
                place_by_name(&mut out, x);
            },
            None => {},
        }
    }
    proof {
        assert(all.skip(0) =~= all);
    }
    out
}

// ---------------------------------------------------------------------------
// Directories
// ---------------------------------------------------------------------------

/// What an object is that can be loaded from: a file or a directory.
pub open spec fn loadable_kind(kind: FileKind) -> Option<FileKind> {
    if kind == FileKind::File || kind == FileKind::Directory {
        Some(kind)
    } else {
        None
    }
}

/// Whether a file is loaded as a template: a file that ends in `.md`.
pub open spec fn names_template(kind: Option<FileKind>, name: Seq<char>) -> bool {
    kind == Some(FileKind::File) && finishes_with(name, ".md"@)
}

/// A walk through the entries of a directory, in the order of their names.
pub struct TemplateWalk {
    pub entries: Vec<FileInfo>,
    pub index: usize,
    pub asked: bool,
}

/// What a walk does next: a link to follow, a file to load, or nothing.
pub enum TemplateAction {
    Resolve { entry: FileInfo },
    Load { entry: FileInfo },
    Finish,
}

/// The mathematical value of a [`TemplateWalk`].
pub struct TemplateWalkView {
    pub entries: Seq<FileInfo>,
    pub index: nat,
    pub asked: bool,
}

impl View for TemplateWalk {
    type V = TemplateWalkView;

    open spec fn view(&self) -> TemplateWalkView {
        TemplateWalkView {
            entries: self.entries@,
            index: self.index as nat,
            asked: self.asked,
        }
    }
}

impl TemplateWalkView {
    /// The walk at the next entry.
    pub open spec fn passed(self) -> TemplateWalkView {
        TemplateWalkView { index: self.index + 1, asked: false, ..self }
    }

    /// What the walk does from the current entry on.
    pub open spec fn went_on(self) -> (TemplateWalkView, TemplateAction)
        decreases self.entries.len() - self.index,
    {
        if self.index >= self.entries.len() {
            (self, TemplateAction::Finish)
        } else {
            let entry = self.entries[self.index as int];
            if loadable_kind(entry.kind) is None {
                (TemplateWalkView { asked: true, ..self }, TemplateAction::Resolve { entry })
            } else if names_template(loadable_kind(entry.kind), entry.name@) {
                (self.passed(), TemplateAction::Load { entry })
            } else {
                self.passed().went_on()
            }
        }
    }

    /// What the walk does next, given what the link leads to that was asked for.
    pub open spec fn next(self, resolved: Option<FileKind>) -> (TemplateWalkView, TemplateAction) {
        if self.asked {
            let entry = self.entries[self.index as int];
            if names_template(resolved, entry.name@) {
                (self.passed(), TemplateAction::Load { entry })
            } else {
                self.passed().went_on()
            }
        } else {
            self.went_on()
        }
    }
}

impl TemplateWalk {
    /// An entry that was asked for is there.
    pub open spec fn wf(self) -> bool {
        self.asked ==> self.index < self.entries@.len()
    }

    /// A walk through a listing.
    pub fn new(listed: Vec<FileInfo>) -> (r: Self)
        ensures
            r.wf(),
            r@ == (TemplateWalkView { entries: by_name(listed@), index: 0, asked: false }),
    {
        TemplateWalk { entries: sort_by_name(listed), index: 0, asked: false }
    }

    /// What the walk does next. `resolved` is what the link leads to that was
    /// asked for.
    pub fn next(&mut self, resolved: Option<FileKind>) -> (r: TemplateAction)
        requires
            old(self).wf(),
        ensures
            final(self).wf(),
            (final(self)@, r) == old(self)@.next(resolved),
    {
        let n: usize = self.entries.len();
        if self.asked {
            let i: usize = self.index;
            self.index = i + 1;
            self.asked = false;
            if is_template_file(resolved, self.entries[i].name.as_str()) {
                return TemplateAction::Load { entry: self.entries[i].clone() };
            }
        }
        let ghost start = self@;
        while self.index < n
            invariant
                n == self.entries@.len(),
                !self.asked,
                start.went_on() == self@.went_on(),
                old(self)@.next(resolved) == start.went_on(),
            decreases n - self.index,
        {
            let i: usize = self.index;
            match followed_kind(self.entries[i].kind) {
                Some(kind) => {
                    self.index = i + 1;
                    if is_template_file(Some(kind), self.entries[i].name.as_str()) {
                        return TemplateAction::Load { entry: self.entries[i].clone() };
                    }
                },
                None => {
                    self.asked = true;
                    return TemplateAction::Resolve { entry: self.entries[i].clone() };
                },
            }
        }
        TemplateAction::Finish
    }
}

/// What is said of a directory that could not be listed.
pub fn list_diagnostic(error: &FileError, path: &str) -> (r: PromptTemplateDiagnostic)
    ensures
        r.code == PromptTemplateDiagnosticCode::ListFailed,
        r.message@ == error.message@,
        r.path@ == path@,
{
    PromptTemplateDiagnostic {
        code: PromptTemplateDiagnosticCode::ListFailed,
        message: error.message.clone(),
        path: path.to_string(),
    }
}

/// The template of a file that was read, or what is said of one that could not
/// be read, or whose front matter cannot be.
pub fn load_template(path: &str, file_name: &str, content: Result<String, FileError>) -> (r: Result<
    PromptTemplate,
    PromptTemplateDiagnostic,
>)
    requires
        content matches Ok(text) ==> front_fits(text@),
    ensures
        r matches Err(diagnostic) ==> diagnostic.path@ == path@,
        match content {
            Ok(text) => {
                let parts = front_parts(text@);
                match field_of(front_value(parts.0), "description"@) {
                    Ok(declared) => r matches Ok(template) && template_view(template)
                        == template_of(file_name@, declared, parts.1),
                    Err(message) => r matches Err(diagnostic) && diagnostic.code
                        == PromptTemplateDiagnosticCode::ParseFailed && diagnostic.message@
                        == message,
                }
            },
            Err(error) => r matches Err(diagnostic) && diagnostic.code
                == PromptTemplateDiagnosticCode::ReadFailed && diagnostic.message@
                == error.message@,
        },
{
    let text: String = match content {
        Ok(text) => text,
        Err(error) => {
            return Err(
                PromptTemplateDiagnostic {
                    code: PromptTemplateDiagnosticCode::ReadFailed,
                    message: error.message,
                    path: path.to_string(),
                },
            );
        },
    };
    match template_from_file(file_name, text.as_str()) {
        Ok(template) => Ok(template),
        Err(message) => Err(
            PromptTemplateDiagnostic {
                code: PromptTemplateDiagnosticCode::ParseFailed,
                message,
                path: path.to_string(),
            },
        ),
    }
}

/// What an entry is, given what a link leads to.
pub open spec fn entry_kind(entry: FileInfo, resolves: spec_fn(FileInfo) -> Option<FileKind>) -> Option<
    FileKind,
> {
    match loadable_kind(entry.kind) {
        Some(kind) => Some(kind),
        None => resolves(entry),
    }
}

/// The entries that are loaded as templates, in order.
pub open spec fn templates_among(
    entries: Seq<FileInfo>,
    resolves: spec_fn(FileInfo) -> Option<FileKind>,
) -> Seq<FileInfo>
    decreases entries.len(),
{
    if entries.len() == 0 {
        Seq::empty()
    } else {
        let rest = templates_among(entries.drop_first(), resolves);
        if names_template(entry_kind(entries[0], resolves), entries[0].name@) {
            seq![entries[0]] + rest
        } else {
            rest
        }
    }
}

/// The templates that a walk has yet to load.
pub open spec fn still_to_load(
    walk: TemplateWalkView,
    resolves: spec_fn(FileInfo) -> Option<FileKind>,
) -> Seq<FileInfo> {
    if walk.index < walk.entries.len() {
        templates_among(walk.entries.skip(walk.index as int), resolves)
    } else {
        Seq::empty()
    }
}

/// What a step of a walk leaves to load: all that there was before, but for the
/// file that it loads.
pub open spec fn step_loads(
    before: TemplateWalkView,
    step: (TemplateWalkView, TemplateAction),
    resolves: spec_fn(FileInfo) -> Option<FileKind>,
) -> bool {
    still_to_load(before, resolves) == match step.1 {
        TemplateAction::Load { entry } => seq![entry] + still_to_load(step.0, resolves),
        TemplateAction::Resolve { .. } => still_to_load(step.0, resolves),
        TemplateAction::Finish => Seq::empty(),
    }
}

proof fn lemma_steps_load(walk: TemplateWalkView, resolves: spec_fn(FileInfo) -> Option<FileKind>)
    ensures
        step_loads(walk, walk.went_on(), resolves),
    decreases walk.entries.len() - walk.index,
{
    let rest = walk.entries.skip(walk.index as int);
    if walk.index < walk.entries.len() {
        assert(rest[0] == walk.entries[walk.index as int]);
        assert(rest.drop_first() =~= walk.entries.skip(walk.index as int + 1));
        assert(templates_among(rest.drop_first(), resolves) =~= still_to_load(
            walk.passed(),
            resolves,
        ));
        lemma_steps_load(walk.passed(), resolves);
    }
}

/// A walk through a directory loads each of its templates once, in the order of
/// their names, and nothing else: each step loads the first of those that are
/// left, and the walk ends when none is.
pub proof fn law_walks_load_every_template(
    walk: TemplateWalkView,
    resolves: spec_fn(FileInfo) -> Option<FileKind>,
)
    requires
        walk.asked ==> walk.index < walk.entries.len() && loadable_kind(
            walk.entries[walk.index as int].kind,
        ) is None,
    ensures
        step_loads(walk, walk.next(resolves(walk.entries[walk.index as int])), resolves),
        ({
            let after = walk.next(resolves(walk.entries[walk.index as int])).0;
            after.asked ==> after.index < after.entries.len() && loadable_kind(
                after.entries[after.index as int].kind,
            ) is None
        }),
{
    lemma_steps_load(walk, resolves);
    lemma_asks_for_links(walk);
    if walk.asked {
        let rest = walk.entries.skip(walk.index as int);
        assert(rest[0] == walk.entries[walk.index as int]);
        assert(rest.drop_first() =~= walk.entries.skip(walk.index as int + 1));
        assert(templates_among(rest.drop_first(), resolves) =~= still_to_load(
            walk.passed(),
            resolves,
        ));
        lemma_steps_load(walk.passed(), resolves);
        lemma_asks_for_links(walk.passed());
    }
}

proof fn lemma_asks_for_links(walk: TemplateWalkView)
    requires
        walk.asked ==> walk.index < walk.entries.len() && loadable_kind(
            walk.entries[walk.index as int].kind,
        ) is None,
    ensures
        ({
            let after = walk.went_on().0;
            after.asked ==> after.index < after.entries.len() && loadable_kind(
                after.entries[after.index as int].kind,
            ) is None
        }),
    decreases walk.entries.len() - walk.index,
{
    if walk.index < walk.entries.len() {
        lemma_asks_for_links(walk.passed());
    }
}

} // verus!

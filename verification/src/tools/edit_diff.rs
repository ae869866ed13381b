//! Edits of texts: line endings, matching that forgives typographic
//! differences, and targeted replacements.

use vstd::prelude::*;

use unicode_normalization::UnicodeNormalization;

use crate::order::{in_order, law_sorting_orders_the_same_items, sort_stable, Keyed};
use crate::text::{
    begins_with, byte_len, chars_of, concat3, concat5, cut_at, decimal, decimal_text, find_cut,
    find_from, finishes_with, first_match, join, join_texts, lemma_byte_len_concat,
    law_join_undoes_split, lemma_byte_len_grows, lemma_cut_at, lemma_first_match,
    lemma_split_nonempty, lemma_split_pieces, matches_at, replace_all,
    replace_all_text, replace_char, replace_char_text, same_text, split, split_text, substring,
    texts, trim_end, trim_end_of, utf8_len, wide_decimal_text,
};
use crate::tools::edit_order::{forms_hold, lemma_made_in_any_order, made_in_any_order};
use crate::tools::line_diff::{
    concat_all, law_lines_make_up_the_text, lemma_concat_push, lemma_concat_split, lines_of,
    split_lines_with_endings,
};

verus! {

// ---------------------------------------------------------------------------
// Line endings and marks
// ---------------------------------------------------------------------------

/// The ending of the first line: a line feed, or a carriage return before it.
pub open spec fn line_ending(content: Seq<char>) -> Seq<char> {
    match (first_match(content, "\r\n"@, 0), first_match(content, "\n"@, 0)) {
        (Some(crlf), Some(lf)) => if crlf < lf {
            "\r\n"@
        } else {
            "\n"@
        },
        _ => "\n"@,
    }
}

/// The ending of the first line: a line feed, or a carriage return before it.
pub fn detect_line_ending(content: &str) -> (r: &'static str)
    ensures
        r@ == line_ending(content@),
{
    let chars: Vec<char> = chars_of(content);
    let crlf_chars: Vec<char> = chars_of("\r\n");
    let lf_chars: Vec<char> = chars_of("\n");
    let crlf: Option<usize> = find_from(chars.as_slice(), crlf_chars.as_slice(), 0);
    let lf: Option<usize> = find_from(chars.as_slice(), lf_chars.as_slice(), 0);
    match crlf {
        Some(a) => match lf {
            Some(b) => if a < b {
                "\r\n"
            } else {
                "\n"
            },
            None => "\n",
        },
        None => "\n",
    }
}

/// The text with line feeds alone at the ends of its lines.
pub open spec fn to_lf(text: Seq<char>) -> Seq<char> {
    replace_char(replace_all(text, "\r\n"@, "\n"@), '\r', "\n"@)
}

/// The text with line feeds alone at the ends of its lines.
pub fn normalize_to_lf(text: &str) -> (r: String)
    ensures
        r@ == to_lf(text@),
{
    proof {
        reveal_strlit("\r\n");
    }
    let paired: String = replace_all_text(text, "\r\n", "\n");
    replace_char_text(paired.as_str(), '\r', "\n")
}

/// The text with its line feeds turned into the given ending.
pub open spec fn with_ending(text: Seq<char>, ending: Seq<char>) -> Seq<char> {
    if ending == "\r\n"@ {
        replace_char(text, '\n', "\r\n"@)
    } else {
        text
    }
}

/// The text with its line feeds turned into the given ending.
pub fn restore_line_endings(text: &str, ending: &str) -> (r: String)
    ensures
        r@ == with_ending(text@, ending@),
{
    if same_text(ending, "\r\n") {
        replace_char_text(text, '\n', "\r\n")
    } else {
        text.to_string()
    }
}

proof fn lemma_replaced_char_is_gone(s: Seq<char>, from: char, to: Seq<char>)
    requires
        !to.contains(from),
    ensures
        !replace_char(s, from, to).contains(from),
    decreases s.len(),
{
    if s.len() > 0 {
        lemma_replaced_char_is_gone(s.drop_last(), from, to);
        let front = replace_char(s.drop_last(), from, to);
        let r = replace_char(s, from, to);
        assert forall|i: int| 0 <= i < r.len() implies r[i] != from by {
            if i < front.len() {
                assert(r[i] == front[i]);
                assert(front.contains(front[i]));
            } else if s.last() == from {
                assert(r[i] == to[i - front.len()]);
                assert(to.contains(to[i - front.len()]));
            }
        }
    }
}

/// Texts with line feeds alone hold no carriage return.
pub proof fn law_normalized_texts_hold_no_carriage_return(text: Seq<char>)
    ensures
        !to_lf(text).contains('\r'),
{
    reveal_strlit("\n");
    lemma_replaced_char_is_gone(replace_all(text, "\r\n"@, "\n"@), '\r', "\n"@);
}

pub proof fn lemma_replace_char_concat(a: Seq<char>, b: Seq<char>, from: char, to: Seq<char>)
    ensures
        replace_char(a + b, from, to) == replace_char(a, from, to) + replace_char(b, from, to),
    decreases b.len(),
{
    if b.len() == 0 {
        assert(a + b =~= a);
        assert(replace_char(a, from, to) + replace_char(b, from, to) =~= replace_char(
            a,
            from,
            to,
        ));
    } else {
        lemma_replace_char_concat(a, b.drop_last(), from, to);
        assert((a + b).drop_last() =~= a + b.drop_last());
        assert((a + b).last() == b.last());
        assert(replace_char(a + b, from, to) =~= replace_char(a, from, to) + replace_char(
            b,
            from,
            to,
        ));
    }
}

proof fn lemma_replace_char_absent(s: Seq<char>, from: char, to: Seq<char>)
    requires
        !s.contains(from),
    ensures
        replace_char(s, from, to) == s,
    decreases s.len(),
{
    if s.len() > 0 {
        assert(s.contains(s.last()));
        assert forall|i: int| 0 <= i < s.drop_last().len() implies s.drop_last()[i] != from by {
            assert(s.contains(s[i]));
        }
        lemma_replace_char_absent(s.drop_last(), from, to);
        assert(s.drop_last().push(s.last()) =~= s);
    }
}

proof fn lemma_pairs_undone(t: Seq<char>)
    requires
        !t.contains('\r'),
    ensures
        replace_all(replace_char(t, '\n', "\r\n"@), "\r\n"@, "\n"@) == t,
    decreases t.len(),
{
    reveal_strlit("\r\n");
    reveal_strlit("\n");
    let pair = "\r\n"@;
    let whole = replace_char(t, '\n', pair);
    lemma_first_match(whole, pair, 0);
    lemma_first_match(t, "\n"@, 0);
    match first_match(t, "\n"@, 0) {
        None => {
            assert(!t.contains('\n')) by {
                if t.contains('\n') {
                    let i = t.index_of('\n');
                    assert(t.subrange(i, i + 1) =~= "\n"@);
                    assert(matches_at(t, i, "\n"@));
                }
            }
            lemma_replace_char_absent(t, '\n', pair);
            assert(first_match(whole, pair, 0) is None) by {
                if let Some(i) = first_match(whole, pair, 0) {
                    assert(whole.subrange(i, i + 2)[0] == '\r');
                    assert(t.contains(t[i]));
                }
            }
        },
        Some(k) => {
            let a = t.take(k);
            let rest = t.skip(k + 1);
            assert(t.subrange(k, k + 1)[0] == '\n');
            assert(t =~= a + "\n"@ + rest);
            assert forall|i: int| 0 <= i < a.len() implies a[i] != '\n' && a[i] != '\r' by {
                assert(t.contains(t[i]));
                if t[i] == '\n' {
                    assert(t.subrange(i, i + 1) =~= "\n"@);
                    assert(matches_at(t, i, "\n"@));
                }
            }
            assert forall|i: int| 0 <= i < rest.len() implies rest[i] != '\r' by {
                assert(t.contains(t[i + k + 1]));
            }
            lemma_replace_char_concat(a + "\n"@, rest, '\n', pair);
            lemma_replace_char_concat(a, "\n"@, '\n', pair);
            lemma_replace_char_absent(a, '\n', pair);
            assert("\n"@.drop_last() =~= Seq::<char>::empty());
            assert(replace_char(Seq::<char>::empty(), '\n', pair) =~= Seq::<char>::empty());
            assert(replace_char("\n"@, '\n', pair) =~= pair);
            assert(whole =~= a + pair + replace_char(rest, '\n', pair));
            assert(whole.subrange(k, k + 2) =~= pair);
            assert(matches_at(whole, k, pair));
            assert(first_match(whole, pair, 0) == Some(k)) by {
                let i = first_match(whole, pair, 0)->0;
                if i < k {
                    assert(whole.subrange(i, i + 2)[0] == '\r');
                    assert(whole[i] == a[i]);
                }
            }
            assert(whole.skip(k + 2) =~= replace_char(rest, '\n', pair));
            lemma_pairs_undone(rest);
            assert(whole.take(k) =~= a);
        },
    }
}

/// Normalizing undoes what restoring the line endings did.
pub proof fn law_normalizing_undoes_restoring(text: Seq<char>, ending: Seq<char>)
    requires
        !text.contains('\r'),
    ensures
        to_lf(with_ending(text, ending)) == text,
{
    reveal_strlit("\r\n");
    if ending == "\r\n"@ {
        lemma_pairs_undone(text);
    } else {
        lemma_first_match(text, "\r\n"@, 0);
        if let Some(i) = first_match(text, "\r\n"@, 0) {
            assert(text.subrange(i, i + 2)[0] == '\r');
            assert(text.contains(text[i]));
        }
    }
    lemma_replace_char_absent(text, '\r', "\n"@);
}

/// The text with one line feed for each of its line ends: for a carriage return
/// with a line feed behind it, and for each other one of the two. Every other
/// character keeps its place among the others.
pub open spec fn feeds_for_ends(text: Seq<char>) -> Seq<char>
    decreases text.len(),
{
    if text.len() == 0 {
        Seq::empty()
    } else if text.len() > 1 && text[0] == '\r' && text[1] == '\n' {
        seq!['\n'] + feeds_for_ends(text.skip(2))
    } else if text[0] == '\r' {
        seq!['\n'] + feeds_for_ends(text.skip(1))
    } else {
        seq![text[0]] + feeds_for_ends(text.skip(1))
    }
}

proof fn lemma_pairs_behind(s: Seq<char>)
    requires
        s.len() > 0,
        !matches_at(s, 0, "\r\n"@),
    ensures
        replace_all(s, "\r\n"@, "\n"@) == seq![s[0]] + replace_all(s.skip(1), "\r\n"@, "\n"@),
{
    reveal_strlit("\r\n");
    let pair = "\r\n"@;
    let rest = s.skip(1);
    lemma_first_match(s, pair, 0);
    lemma_first_match(rest, pair, 0);
    assert forall|i: int| matches_at(rest, i, pair) ==> matches_at(s, i + 1, pair) by {
        if matches_at(rest, i, pair) {
            assert(s.subrange(i + 1, i + 1 + pair.len()) =~= rest.subrange(i, i + pair.len()));
        }
    }
    assert forall|i: int| 0 < i && matches_at(s, i, pair) ==> matches_at(rest, i - 1, pair) by {
        if 0 < i && matches_at(s, i, pair) {
            assert(rest.subrange(i - 1, i - 1 + pair.len()) =~= s.subrange(i, i + pair.len()));
        }
    }
    match first_match(s, pair, 0) {
        Some(i) => {
            assert(i > 0);
            assert(matches_at(rest, i - 1, pair));
            let k = first_match(rest, pair, 0)->0;
            assert(matches_at(s, k + 1, pair));
            assert(k == i - 1);
            assert(s.take(i) =~= seq![s[0]] + rest.take(k));
            assert(s.skip(i + 2) =~= rest.skip(k + 2));
            assert(replace_all(s, pair, "\n"@) =~= seq![s[0]] + replace_all(rest, pair, "\n"@));
        },
        None => {
            if let Some(k) = first_match(rest, pair, 0) {
                assert(matches_at(s, k + 1, pair));
            }
            assert(s =~= seq![s[0]] + rest);
        },
    }
}

/// In a text with line feeds alone, one line feed stands for each line end of the
/// text that it was, and the other characters follow in their order.
pub proof fn law_each_line_end_becomes_one_feed(text: Seq<char>)
    ensures
        to_lf(text) == feeds_for_ends(text),
    decreases text.len(),
{
    reveal_strlit("\r\n");
    reveal_strlit("\n");
    let pair = "\r\n"@;
    let feed = "\n"@;
    assert(replace_char(Seq::<char>::empty(), '\r', feed) =~= Seq::<char>::empty());
    if text.len() == 0 {
        lemma_first_match(text, pair, 0);
    } else if text.len() > 1 && text[0] == '\r' && text[1] == '\n' {
        let rest = text.skip(2);
        assert(text.subrange(0, 2) =~= pair);
        assert(matches_at(text, 0, pair));
        assert(replace_all(text, pair, feed) =~= feed + replace_all(rest, pair, feed));
        lemma_replace_char_concat(feed, replace_all(rest, pair, feed), '\r', feed);
        lemma_replace_char_absent(feed, '\r', feed);
        law_each_line_end_becomes_one_feed(rest);
        assert(feed =~= seq!['\n']);
    } else {
        let rest = text.skip(1);
        let first = seq![text[0]];
        if matches_at(text, 0, pair) {
            assert(text.subrange(0, 2)[0] == '\r' && text.subrange(0, 2)[1] == '\n');
        }
        lemma_pairs_behind(text);
        lemma_replace_char_concat(first, replace_all(rest, pair, feed), '\r', feed);
        assert(first.drop_last() =~= Seq::<char>::empty());
        assert(replace_char(first, '\r', feed) =~= if text[0] == '\r' {
            feed
        } else {
            first
        });
        law_each_line_end_becomes_one_feed(rest);
        assert(feed =~= seq!['\n']);
    }
}

/// Normalizing twice changes nothing more.
pub proof fn law_normalizing_is_idempotent(text: Seq<char>)
    ensures
        to_lf(to_lf(text)) == to_lf(text),
{
    reveal_strlit("\n");
    reveal_strlit("\r\n");
    law_normalized_texts_hold_no_carriage_return(text);
    law_normalizing_undoes_restoring(to_lf(text), "\n"@);
}

/// Whether every carriage return and every line feed belongs to a pair of the
/// two.
pub open spec fn ends_in_pairs(text: Seq<char>) -> bool {
    &&& forall|i: int|
        0 <= i < text.len() && #[trigger] text[i] == '\r' ==> i + 1 < text.len() && text[i + 1]
            == '\n'
    &&& forall|i: int|
        0 <= i < text.len() && #[trigger] text[i] == '\n' ==> i > 0 && text[i - 1] == '\r'
}

proof fn lemma_pairs_come_back(text: Seq<char>)
    requires
        ends_in_pairs(text),
    ensures
        replace_char(feeds_for_ends(text), '\n', "\r\n"@) == text,
    decreases text.len(),
{
    reveal_strlit("\r\n");
    let pair = "\r\n"@;
    assert(replace_char(Seq::<char>::empty(), '\n', pair) =~= Seq::<char>::empty());
    if text.len() > 0 {
        let (first, rest) = if text[0] == '\r' {
            (seq!['\n'], text.skip(2))
        } else {
            (seq![text[0]], text.skip(1))
        };
        let cut = text.len() - rest.len();
        assert(text[0] != '\n');
        assert(ends_in_pairs(rest)) by {
            assert forall|i: int| 0 <= i < rest.len() && #[trigger] rest[i] == '\r' implies i + 1
                < rest.len() && rest[i + 1] == '\n' by {
                assert(text[i + cut] == '\r');
                assert(text[i + cut + 1] == '\n');
            }
            assert forall|i: int| 0 <= i < rest.len() && #[trigger] rest[i] == '\n' implies i > 0
                && rest[i - 1] == '\r' by {
                assert(text[i + cut] == '\n');
                assert(text[i + cut - 1] == '\r');
            }
        }
        lemma_pairs_come_back(rest);
        lemma_replace_char_concat(first, feeds_for_ends(rest), '\n', pair);
        assert(first.drop_last() =~= Seq::<char>::empty());
        assert(replace_char(first, '\n', pair) =~= text.take(cut));
        assert(text.take(cut) + rest =~= text);
    }
}

/// Restoring undoes what normalizing did: a text whose line ends are all the same
/// comes back when the line end that was detected in it is restored.
pub proof fn law_restoring_undoes_normalizing(text: Seq<char>)
    requires
        ends_in_pairs(text) || !text.contains('\r'),
    ensures
        with_ending(to_lf(text), line_ending(text)) == text,
{
    reveal_strlit("\r\n");
    reveal_strlit("\n");
    lemma_first_match(text, "\r\n"@, 0);
    lemma_first_match(text, "\n"@, 0);
    if !text.contains('\r') {
        if let Some(i) = first_match(text, "\r\n"@, 0) {
            assert(text.subrange(i, i + 2)[0] == '\r');
            assert(text.contains(text[i]));
        }
        law_normalizing_undoes_restoring(text, "\n"@);
        assert("\n"@.len() != "\r\n"@.len());
    } else {
        let r = text.index_of('\r');
        assert(text[r] == '\r');
        assert(text[r + 1] == '\n');
        assert(text.subrange(r, r + 2) =~= "\r\n"@);
        assert(matches_at(text, r, "\r\n"@));
        assert(text.subrange(r + 1, r + 2) =~= "\n"@);
        assert(matches_at(text, r + 1, "\n"@));
        let lf = first_match(text, "\n"@, 0)->0;
        assert(text.subrange(lf, lf + 1)[0] == '\n');
        assert(text[lf] == '\n');
        assert(text[lf - 1] == '\r');
        assert(text.subrange(lf - 1, lf + 1) =~= "\r\n"@);
        assert(matches_at(text, lf - 1, "\r\n"@));
        law_each_line_end_becomes_one_feed(text);
        lemma_pairs_come_back(text);
    }
}

/// The byte order mark that a text starts with, if any, and the rest.
pub open spec fn without_mark(content: Seq<char>) -> (Seq<char>, Seq<char>) {
    if content.len() > 0 && content[0] == '\u{feff}' {
        (content.take(1), content.skip(1))
    } else {
        (Seq::empty(), content)
    }
}

/// The byte order mark that a text starts with, if any, and the rest.
pub fn strip_bom(content: &str) -> (r: (String, String))
    ensures
        r.0@ == without_mark(content@).0,
        r.1@ == without_mark(content@).1,
{
    let n: usize = content.unicode_len();
    if n > 0 && content.get_char(0) == '\u{feff}' {
        proof {
            assert(content@.subrange(0, 1) =~= content@.take(1));
            assert(content@.subrange(1, n as int) =~= content@.skip(1));
        }
        (substring(content, 0, 1), substring(content, 1, n))
    } else {
        let none: String = String::new();
        proof {
            assert(none@ =~= Seq::<char>::empty());
        }
        (none, content.to_string())
    }
}

/// The mark and the rest make up the text.
pub proof fn law_marks_are_kept(content: Seq<char>)
    ensures
        without_mark(content).0 + without_mark(content).1 == content,
{
    assert(without_mark(content).0 + without_mark(content).1 =~= content);
}

// ---------------------------------------------------------------------------
// Forgiving forms
// ---------------------------------------------------------------------------

/// The compatibility composition of a text.
pub uninterp spec fn nfkc_form(text: Seq<char>) -> Seq<char>;

/// Whether a character is a typographic space.
pub open spec fn is_wide_space(c: char) -> bool {
    c == '\u{a0}' || '\u{2002}' <= c <= '\u{200a}' || c == '\u{202f}' || c == '\u{205f}' || c
        == '\u{3000}'
}

/// Whether a character is a typographic quote, dash or space.
pub open spec fn is_typographic(c: char) -> bool {
    '\u{2018}' <= c <= '\u{201f}' || '\u{2010}' <= c <= '\u{2015}' || c == '\u{2212}'
        || is_wide_space(c)
}

/// Whether a text holds no typographic space.
pub open spec fn without_wide_spaces(text: Seq<char>) -> bool {
    forall|i: int| 0 <= i < text.len() ==> !is_wide_space(#[trigger] text[i])
}

/// Calls `UnicodeNormalization::nfkc` of the `unicode_normalization` crate and
/// collects what it yields: the compatibility composition of the text, named
/// here `nfkc_form`, which depends on the text alone. The typographic spaces are
/// all decomposed to the plain one, so none is left. Line feeds are neither
/// decomposed nor composed, nor does one come out of another character, so there
/// are as many lines as before. A text of ASCII characters stays as it is. The
/// plain form of the composition is composed already: composing is stable, and
/// that form only drops blanks in front of line feeds and at the end, and puts
/// quotes, hyphens and spaces, which start no composition and end none, where
/// other such characters stood.
#[verifier::external_body]
fn nfkc(text: &str) -> (r: String)
    ensures
        r@ == nfkc_form(text@),
        without_wide_spaces(r@),
        split(r@, '\n').len() == split(text@, '\n').len(),
        vstd::utf8::is_ascii_chars(text@) ==> r@ == text@,
        nfkc_form(plain_form(r@)) == plain_form(r@),
{
    text.nfkc().collect()
}

/// The plain character that stands for a typographic quote, dash or space.
pub open spec fn plain_char(c: char) -> char {
    if '\u{2018}' <= c <= '\u{201b}' {
        '\''
    } else if '\u{201c}' <= c <= '\u{201f}' {
        '"'
    } else if '\u{2010}' <= c <= '\u{2015}' || c == '\u{2212}' {
        '-'
    } else if is_wide_space(c) {
        ' '
    } else {
        c
    }
}

/// Whether a character is a space or a tab.
pub open spec fn is_blank(c: char) -> bool {
    c == ' ' || c == '\t'
}

/// The lines of a text without trailing spaces and tabs.
pub open spec fn trimmed_lines(text: Seq<char>) -> Seq<Seq<char>> {
    split(text, '\n').map_values(|line: Seq<char>| trim_end(line, |c: char| is_blank(c)))
}

/// A composed text without trailing blanks in its lines and with plain quotes,
/// dashes and spaces.
pub open spec fn plain_form(text: Seq<char>) -> Seq<char> {
    join(trimmed_lines(text), "\n"@).map_values(|c: char| plain_char(c))
}

/// The form of a text in which it is matched when it does not match exactly.
pub open spec fn fuzzy_form(text: Seq<char>) -> Seq<char> {
    plain_form(nfkc_form(text))
}

fn plain_char_of(c: char) -> (r: char)
    ensures
        r == plain_char(c),
{
    if '\u{2018}' <= c && c <= '\u{201b}' {
        '\''
    } else if '\u{201c}' <= c && c <= '\u{201f}' {
        '"'
    } else if ('\u{2010}' <= c && c <= '\u{2015}') || c == '\u{2212}' {
        '-'
    } else if c == '\u{a0}' || ('\u{2002}' <= c && c <= '\u{200a}') || c == '\u{202f}'
        || c == '\u{205f}' || c == '\u{3000}' {
        ' '
    } else {
        c
    }
}

/// A composed text without trailing blanks in its lines and with plain quotes,
/// dashes and spaces.
pub fn simplify_composed(text: &str) -> (r: String)
    ensures
        r@ == plain_form(text@),
{
    let lines: Vec<String> = split_text(text, '\n');
    let ghost pieces = split(text@, '\n');
    let blanks: Vec<char> = vec![' ', '\t'];
    let mut trimmed: Vec<String> = Vec::new();
    let mut i: usize = 0;
    while i < lines.len()
        invariant
            i <= lines@.len(),
            texts(lines@) == pieces,
            blanks@ =~= seq![' ', '\t'],
            texts(trimmed@) == pieces.take(i as int).map_values(
                |line: Seq<char>| trim_end(line, |c: char| is_blank(c)),
            ),
        decreases lines@.len() - i,
    {
        let ghost before = trimmed@;
        let line: String = trim_end_of(lines[i].as_str(), blanks.as_slice());
        proof {
            assert(pieces[i as int] == lines@[i as int]@);
            let listed = |c: char| blanks@.contains(c);
            let blank = |c: char| is_blank(c);
            assert forall|c: char| #[trigger] listed(c) == #[trigger] blank(c) by {
                assert(blanks@[0] == ' ' && blanks@[1] == '\t');
                if blank(c) {
                    assert(blanks@.contains(blanks@[0]) && blanks@.contains(blanks@[1]));
                }
            }
            lemma_trim_end_agrees(pieces[i as int], listed, blank);
        }
        trimmed.push(line);
        proof {
            assert(texts(trimmed@) =~= texts(before).push(line@));
            assert(pieces.take(i + 1) =~= pieces.take(i as int).push(pieces[i as int]));
            assert(texts(trimmed@) =~= pieces.take(i + 1).map_values(
                |line: Seq<char>| trim_end(line, |c: char| is_blank(c)),
            ));
        }
        i = i + 1;
    }
    proof {
        assert(pieces.take(pieces.len() as int) =~= pieces);
    }
    let joined: String = join_texts(trimmed.as_slice(), "\n");
    let chars: Vec<char> = chars_of(joined.as_str());
    let mut out: String = String::new();
    let mut k: usize = 0;
    proof {
        assert(out@ =~= chars@.take(0).map_values(|c: char| plain_char(c)));
    }
    while k < chars.len()
        invariant
            k <= chars@.len(),
            out@ == chars@.take(k as int).map_values(|c: char| plain_char(c)),
        decreases chars@.len() - k,
    {
        let ghost before = out@;
        out.push(plain_char_of(chars[k]));
        proof {
            assert(out@ =~= chars@.take(k + 1).map_values(|c: char| plain_char(c)));
        }
        k = k + 1;
    }
    proof {
        assert(chars@.take(chars@.len() as int) =~= chars@);
    }
    out
}

pub proof fn lemma_trim_end_agrees(s: Seq<char>, p: spec_fn(char) -> bool, q: spec_fn(char) -> bool)
    requires
        forall|c: char| #[trigger] p(c) == #[trigger] q(c),
    ensures
        trim_end(s, p) == trim_end(s, q),
    decreases s.len(),
{
    if s.len() > 0 {
        assert(p(s.last()) == q(s.last()));
        lemma_trim_end_agrees(s.drop_last(), p, q);
    }
}

proof fn lemma_split_none(s: Seq<char>, sep: char)
    requires
        !s.contains(sep),
    ensures
        split(s, sep) == seq![s],
    decreases s.len(),
{
    if s.len() > 0 {
        assert(s.contains(s.last()));
        assert forall|i: int| 0 <= i < s.drop_last().len() implies s.drop_last()[i] != sep by {
            assert(s.contains(s[i]));
        }
        lemma_split_none(s.drop_last(), sep);
        assert(s.drop_last().push(s.last()) =~= s);
        assert(split(s, sep) =~= seq![s]);
    } else {
        assert(s =~= Seq::<char>::empty());
    }
}

proof fn lemma_split_last(a: Seq<char>, b: Seq<char>, sep: char)
    requires
        !b.contains(sep),
    ensures
        split(a + seq![sep] + b, sep) == split(a, sep).push(b),
    decreases b.len(),
{
    let whole = a + seq![sep] + b;
    if b.len() == 0 {
        assert(whole.drop_last() =~= a);
        assert(whole.last() == sep);
        assert(b =~= Seq::<char>::empty());
    } else {
        assert(b.contains(b.last()));
        assert forall|i: int| 0 <= i < b.drop_last().len() implies b.drop_last()[i] != sep by {
            assert(b.contains(b[i]));
        }
        lemma_split_last(a, b.drop_last(), sep);
        assert(whole.drop_last() =~= a + seq![sep] + b.drop_last());
        assert(b.drop_last().push(b.last()) =~= b);
        assert(split(whole, sep) =~= split(a, sep).push(b));
    }
}

pub proof fn lemma_split_undoes_join(parts: Seq<Seq<char>>, sep: char)
    requires
        parts.len() > 0,
        forall|i: int| 0 <= i < parts.len() ==> !(#[trigger] parts[i]).contains(sep),
    ensures
        split(join(parts, seq![sep]), sep) == parts,
    decreases parts.len(),
{
    assert(!parts[parts.len() - 1].contains(sep));
    if parts.len() == 1 {
        lemma_split_none(parts[0], sep);
        assert(seq![parts[0]] =~= parts);
    } else {
        let front = parts.drop_last();
        assert forall|i: int| 0 <= i < front.len() implies !(#[trigger] front[i]).contains(sep) by {
            assert(!parts[i].contains(sep));
        }
        lemma_split_undoes_join(front, sep);
        lemma_split_last(join(front, seq![sep]), parts.last(), sep);
        assert(front.push(parts.last()) =~= parts);
    }
}

/// A text in plain characters.
spec fn in_plain(text: Seq<char>) -> Seq<char> {
    text.map_values(|c: char| plain_char(c))
}

proof fn lemma_split_in_plain(s: Seq<char>)
    ensures
        split(in_plain(s), '\n') == split(s, '\n').map_values(|line: Seq<char>| in_plain(line)),
    decreases s.len(),
{
    let f = |line: Seq<char>| in_plain(line);
    let before = split(s.drop_last(), '\n');
    if s.len() == 0 {
        assert(in_plain(s) =~= Seq::<char>::empty());
        assert(in_plain(Seq::<char>::empty()) =~= Seq::<char>::empty());
        assert(split(s, '\n').map_values(f) =~= seq![Seq::<char>::empty()]);
    } else {
        lemma_split_in_plain(s.drop_last());
        lemma_split_nonempty(s.drop_last(), '\n');
        assert(in_plain(s).drop_last() =~= in_plain(s.drop_last()));
        assert(in_plain(s).last() == plain_char(s.last()));
        if s.last() == '\n' {
            assert(in_plain(Seq::<char>::empty()) =~= Seq::<char>::empty());
            assert(split(in_plain(s), '\n') =~= split(s, '\n').map_values(f));
        } else {
            assert(in_plain(before.last().push(s.last())) =~= in_plain(before.last()).push(
                plain_char(s.last()),
            ));
            assert(split(in_plain(s), '\n') =~= split(s, '\n').map_values(f));
        }
    }
}

proof fn lemma_trimmed(line: Seq<char>)
    ensures
        ({
            let kept = trim_end(line, |c: char| is_blank(c));
            &&& kept.len() <= line.len()
            &&& kept == line.take(kept.len() as int)
            &&& kept.len() > 0 ==> !is_blank(kept.last())
        }),
    decreases line.len(),
{
    if line.len() > 0 && is_blank(line.last()) {
        lemma_trimmed(line.drop_last());
        let kept = trim_end(line, |c: char| is_blank(c));
        assert(line.drop_last().take(kept.len() as int) =~= line.take(kept.len() as int));
    } else {
        assert(line.take(line.len() as int) =~= line);
    }
}

proof fn lemma_trimmed_lines(text: Seq<char>)
    ensures
        trimmed_lines(text).len() == split(text, '\n').len() > 0,
        split(join(trimmed_lines(text), "\n"@), '\n') == trimmed_lines(text),
{
    reveal_strlit("\n");
    let pieces = split(text, '\n');
    let lines = trimmed_lines(text);
    lemma_split_nonempty(text, '\n');
    lemma_split_pieces(text, '\n');
    assert forall|i: int| 0 <= i < lines.len() implies !(#[trigger] lines[i]).contains('\n') by {
        assert(!pieces[i].contains('\n'));
        lemma_trimmed(pieces[i]);
        assert forall|k: int| 0 <= k < lines[i].len() implies lines[i][k] != '\n' by {
            assert(pieces[i].contains(pieces[i][k]));
        }
    }
    lemma_split_undoes_join(lines, '\n');
    assert(seq!['\n'] =~= "\n"@);
}

/// Whether no line of a text ends in a blank.
pub open spec fn ends_no_line_in_a_blank(text: Seq<char>) -> bool {
    forall|i: int|
        0 <= i < split(text, '\n').len() ==> ((#[trigger] split(text, '\n')[i]).len() > 0
            ==> !is_blank(split(text, '\n')[i].last()))
}

/// Whether a text holds no typographic quote, dash or space.
pub open spec fn in_plain_characters(text: Seq<char>) -> bool {
    forall|i: int| 0 <= i < text.len() ==> !is_typographic(#[trigger] text[i])
}

/// A plain form holds no typographic character and as many lines as its text.
/// Where the text held no typographic space, no line of the plain form ends in a
/// blank, and its own plain form is the same.
pub proof fn law_plain_forms_are_plain(text: Seq<char>)
    ensures
        in_plain_characters(plain_form(text)),
        split(plain_form(text), '\n').len() == split(text, '\n').len(),
        without_wide_spaces(text) ==> ends_no_line_in_a_blank(plain_form(text)),
        without_wide_spaces(text) ==> plain_form(plain_form(text)) == plain_form(text),
{
    reveal_strlit("\n");
    let pieces = split(text, '\n');
    let lines = trimmed_lines(text);
    let joined = join(lines, "\n"@);
    let form = plain_form(text);
    assert(form =~= in_plain(joined));
    lemma_trimmed_lines(text);
    lemma_split_in_plain(joined);
    let plain_lines = split(form, '\n');
    if without_wide_spaces(text) {
        law_join_undoes_split(text, '\n');
        assert forall|i: int| 0 <= i < plain_lines.len() implies ((
        #[trigger] plain_lines[i]).len() > 0 ==> !is_blank(plain_lines[i].last())) by {
            if plain_lines[i].len() > 0 {
                lemma_trimmed(pieces[i]);
                let last = lines[i].last();
                assert(plain_lines[i] == in_plain(lines[i]));
                assert(plain_lines[i].last() == plain_char(last));
                if is_wide_space(last) {
                    assert(pieces[i][lines[i].len() - 1] == last);
                    lemma_character_of_piece(pieces, '\n', i, lines[i].len() - 1);
                    let k = text.index_of(last);
                    assert(text[k] == last);
                }
            }
        }
        let again = trimmed_lines(form);
        assert(again =~= plain_lines) by {
            assert forall|i: int| 0 <= i < again.len() implies again[i] == plain_lines[i] by {
                let line = plain_lines[i];
                assert(line.len() > 0 ==> !is_blank(line.last()));
                assert(trim_end(line, |c: char| is_blank(c)) == line);
            }
        }
        law_join_undoes_split(form, '\n');
        assert(seq!['\n'] =~= "\n"@);
        assert(in_plain(form) =~= form);
        assert(plain_form(form) =~= in_plain(form));
    }
}

proof fn lemma_character_of_piece(parts: Seq<Seq<char>>, sep: char, i: int, k: int)
    requires
        0 <= i < parts.len(),
        0 <= k < parts[i].len(),
    ensures
        join(parts, seq![sep]).contains(parts[i][k]),
    decreases parts.len(),
{
    let whole = join(parts, seq![sep]);
    if parts.len() == 1 {
        assert(whole[k] == parts[i][k]);
    } else {
        let front = join(parts.drop_last(), seq![sep]);
        if i < parts.len() - 1 {
            lemma_character_of_piece(parts.drop_last(), sep, i, k);
            let at = front.index_of(parts[i][k]);
            assert(whole[at] == front[at]);
        } else {
            assert(whole[front.len() + 1 + k] == parts[i][k]);
        }
    }
}

/// The form of a text in which it is matched when it does not match exactly. The
/// form of such a form is that form itself.
pub fn normalize_for_fuzzy_match(text: &str) -> (r: String)
    ensures
        r@ == fuzzy_form(text@),
        fuzzy_form(r@) == r@,
        in_plain_characters(r@),
        ends_no_line_in_a_blank(r@),
        split(r@, '\n').len() == split(text@, '\n').len(),
        vstd::utf8::is_ascii_chars(text@) ==> r@ == plain_form(text@),
{
    let composed: String = nfkc(text);
    proof {
        law_plain_forms_are_plain(composed@);
    }
    simplify_composed(composed.as_str())
}

// ---------------------------------------------------------------------------
// Matching
// ---------------------------------------------------------------------------

/// Where a text was found in another, in bytes, and in which form of it.
pub struct FuzzyMatchResult {
    pub found: bool,
    pub index: usize,
    pub match_length: usize,
    pub used_fuzzy_match: bool,
    pub content_for_replacement: String,
}

/// The mathematical value of a [`FuzzyMatchResult`].
pub struct MatchView {
    pub found: bool,
    pub index: nat,
    pub match_length: nat,
    pub used_fuzzy_match: bool,
    pub content: Seq<char>,
}

impl View for FuzzyMatchResult {
    type V = MatchView;

    open spec fn view(&self) -> MatchView {
        MatchView {
            found: self.found,
            index: self.index as nat,
            match_length: self.match_length as nat,
            used_fuzzy_match: self.used_fuzzy_match,
            content: self.content_for_replacement@,
        }
    }
}

/// Where a text is found in another: where it stands exactly, or else where
/// its forgiving form stands in that of the other.
pub open spec fn match_in(
    content: Seq<char>,
    old_text: Seq<char>,
    fuzzy_content: Seq<char>,
    fuzzy_old_text: Seq<char>,
) -> MatchView {
    match first_match(content, old_text, 0) {
        Some(i) => MatchView {
            found: true,
            index: byte_len(content.take(i)),
            match_length: byte_len(old_text),
            used_fuzzy_match: false,
            content,
        },
        None => match first_match(fuzzy_content, fuzzy_old_text, 0) {
            Some(i) => MatchView {
                found: true,
                index: byte_len(fuzzy_content.take(i)),
                match_length: byte_len(fuzzy_old_text),
                used_fuzzy_match: true,
                content: fuzzy_content,
            },
            None => MatchView {
                found: false,
                index: 0,
                match_length: 0,
                used_fuzzy_match: false,
                content,
            },
        },
    }
}

/// Where a text stands in another, in bytes.
fn find_text(hay: &str, needle: &str) -> (r: Option<(usize, usize)>)
    ensures
        match r {
            Some(at) => match first_match(hay@, needle@, 0) {
                Some(i) => at.0 == byte_len(hay@.take(i)) && at.1 == byte_len(needle@),
                None => false,
            },
            None => first_match(hay@, needle@, 0) is None,
        },
{
    let h: Vec<char> = chars_of(hay);
    let n: Vec<char> = chars_of(needle);
    match find_from(h.as_slice(), n.as_slice(), 0) {
        Some(i) => {
            proof {
                lemma_first_match(hay@, needle@, 0);
                assert(hay@.subrange(0, i as int) =~= hay@.take(i as int));
            }
            let front: String = substring(hay, 0, i);
            Some((utf8_len(front.as_str()), utf8_len(needle)))
        },
        None => None,
    }
}

/// Where a text is found in another, given the forgiving forms of both.
pub fn find_in_forms(
    content: &str,
    old_text: &str,
    fuzzy_content: &str,
    fuzzy_old_text: &str,
) -> (r: FuzzyMatchResult)
    ensures
        r@ == match_in(content@, old_text@, fuzzy_content@, fuzzy_old_text@),
{
    match find_text(content, old_text) {
        Some(at) => FuzzyMatchResult {
            found: true,
            index: at.0,
            match_length: at.1,
            used_fuzzy_match: false,
            content_for_replacement: content.to_string(),
        },
        None => match find_text(fuzzy_content, fuzzy_old_text) {
            Some(at) => FuzzyMatchResult {
                found: true,
                index: at.0,
                match_length: at.1,
                used_fuzzy_match: true,
                content_for_replacement: fuzzy_content.to_string(),
            },
            None => FuzzyMatchResult {
                found: false,
                index: 0,
                match_length: 0,
                used_fuzzy_match: false,
                content_for_replacement: content.to_string(),
            },
        },
    }
}

/// Where a text is found in another: where it stands exactly, or else where
/// its forgiving form stands in that of the other.
pub fn fuzzy_find_text(content: &str, old_text: &str) -> (r: FuzzyMatchResult)
    ensures
        r@ == match_in(content@, old_text@, fuzzy_form(content@), fuzzy_form(old_text@)),
{
    let fuzzy_content: String = normalize_for_fuzzy_match(content);
    let fuzzy_old_text: String = normalize_for_fuzzy_match(old_text);
    find_in_forms(content, old_text, fuzzy_content.as_str(), fuzzy_old_text.as_str())
}

/// How often a text occurs from a position on, taken from left to right
/// without overlap.
pub open spec fn occurrences_from(hay: Seq<char>, needle: Seq<char>, from: int) -> nat
    decreases hay.len() - from,
    when 0 <= from && needle.len() > 0
    via occurrences_advance
{
    match first_match(hay, needle, from) {
        Some(i) => 1 + occurrences_from(hay, needle, i + needle.len()),
        None => 0,
    }
}

#[via_fn]
proof fn occurrences_advance(hay: Seq<char>, needle: Seq<char>, from: int) {
    lemma_first_match(hay, needle, from);
}

/// How often a text occurs in another. The empty text occurs before each
/// character and at the end.
pub open spec fn occurrences(hay: Seq<char>, needle: Seq<char>) -> nat {
    if needle.len() == 0 {
        hay.len() + 1
    } else {
        occurrences_from(hay, needle, 0)
    }
}

/// How often a text occurs in another.
fn count_in(hay: &str, needle: &str) -> (r: u128)
    ensures
        r == occurrences(hay@, needle@),
{
    let h: Vec<char> = chars_of(hay);
    let n: Vec<char> = chars_of(needle);
    if n.len() == 0 {
        return h.len() as u128 + 1;
    }
    let total: usize = h.len();
    let mut count: u128 = 0;
    let mut from: usize = 0;
    let mut done: bool = false;
    while !done
        invariant
            total == h@.len(),
            h@ == hay@,
            n@ == needle@,
            n@.len() > 0,
            from <= h@.len(),
            count <= from,
            !done ==> count + occurrences_from(hay@, needle@, from as int) == occurrences_from(
                hay@,
                needle@,
                0,
            ),
            done ==> count == occurrences_from(hay@, needle@, 0),
        decreases
                h@.len() - from + if done {
                    0int
                } else {
                    1int
                },
    {
        match find_from(h.as_slice(), n.as_slice(), from) {
            Some(i) => {
                proof {
                    lemma_first_match(hay@, needle@, from as int);
                }
                count = count + 1;
                from = i + n.len();
            },
            None => {
                done = true;
            },
        }
    }
    count
}

// ---------------------------------------------------------------------------
// Messages
// ---------------------------------------------------------------------------

/// Why an edit could not be made: its text is not there.
pub open spec fn not_found_text(path: Seq<char>, index: nat, total: nat) -> Seq<char> {
    if total == 1 {
        "Could not find the exact text in "@ + path
            + ". The old text must match exactly including all whitespace and newlines."@
    } else {
        "Could not find edits["@ + decimal(index) + "] in "@ + path
            + ". The oldText must match exactly including all whitespace and newlines."@
    }
}

fn not_found_error(path: &str, index: usize, total: usize) -> (r: String)
    ensures
        r@ == not_found_text(path@, index as nat, total as nat),
{
    if total == 1 {
        concat3(
            "Could not find the exact text in ",
            path,
            ". The old text must match exactly including all whitespace and newlines.",
        )
    } else {
        concat5(
            "Could not find edits[",
            decimal_text(index as u64).as_str(),
            "] in ",
            path,
            ". The oldText must match exactly including all whitespace and newlines.",
        )
    }
}

/// Why an edit could not be made: its text is there more than once.
pub open spec fn duplicate_text(path: Seq<char>, index: nat, total: nat, count: nat) -> Seq<char> {
    if total == 1 {
        "Found "@ + decimal(count) + " occurrences of the text in "@ + path
            + ". The text must be unique. Please provide more context to make it unique."@
    } else {
        "Found "@ + decimal(count) + " occurrences of edits["@ + decimal(index) + (("] in "@
            + path)
            + ". Each oldText must be unique. Please provide more context to make it unique."@)
    }
}

fn duplicate_error(path: &str, index: usize, total: usize, count: u128) -> (r: String)
    ensures
        r@ == duplicate_text(path@, index as nat, total as nat, count as nat),
{
    let number: String = wide_decimal_text(count);
    if total == 1 {
        concat5(
            "Found ",
            number.as_str(),
            " occurrences of the text in ",
            path,
            ". The text must be unique. Please provide more context to make it unique.",
        )
    } else {
        let tail: String = concat3(
            "] in ",
            path,
            ". Each oldText must be unique. Please provide more context to make it unique.",
        );
        concat5(
            "Found ",
            number.as_str(),
            " occurrences of edits[",
            decimal_text(index as u64).as_str(),
            tail.as_str(),
        )
    }
}

/// Why an edit could not be made: it has no text to look for.
pub open spec fn empty_old_text(path: Seq<char>, index: nat, total: nat) -> Seq<char> {
    if total == 1 {
        "oldText must not be empty in "@ + path + "."@
    } else {
        "edits["@ + decimal(index) + "].oldText must not be empty in "@ + path + "."@
    }
}

fn empty_old_text_error(path: &str, index: usize, total: usize) -> (r: String)
    ensures
        r@ == empty_old_text(path@, index as nat, total as nat),
{
    if total == 1 {
        concat3("oldText must not be empty in ", path, ".")
    } else {
        concat5(
            "edits[",
            decimal_text(index as u64).as_str(),
            "].oldText must not be empty in ",
            path,
            ".",
        )
    }
}

/// Why edits could not be made: they change nothing.
pub open spec fn no_change_text(path: Seq<char>, total: nat) -> Seq<char> {
    if total == 1 {
        "No changes made to "@ + path
            + ". The replacement produced identical content. This might indicate an issue with special characters or the text not existing as expected."@
    } else {
        "No changes made to "@ + path + ". The replacements produced identical content."@
    }
}

fn no_change_error(path: &str, total: usize) -> (r: String)
    ensures
        r@ == no_change_text(path@, total as nat),
{
    if total == 1 {
        concat3(
            "No changes made to ",
            path,
            ". The replacement produced identical content. This might indicate an issue with special characters or the text not existing as expected.",
        )
    } else {
        concat3(
            "No changes made to ",
            path,
            ". The replacements produced identical content.",
        )
    }
}

/// Why edits could not be made: two of them meet.
pub open spec fn overlap_text(path: Seq<char>, first: nat, second: nat) -> Seq<char> {
    "edits["@ + decimal(first) + "] and edits["@ + decimal(second) + (("] overlap in "@ + path)
        + ". Merge them into one edit or target disjoint regions."@)
}

fn overlap_error(path: &str, first: usize, second: usize) -> (r: String)
    ensures
        r@ == overlap_text(path@, first as nat, second as nat),
{
    let tail: String = concat3(
        "] overlap in ",
        path,
        ". Merge them into one edit or target disjoint regions.",
    );
    concat5(
        "edits[",
        decimal_text(first as u64).as_str(),
        "] and edits[",
        decimal_text(second as u64).as_str(),
        tail.as_str(),
    )
}

// ---------------------------------------------------------------------------
// Replacing
// ---------------------------------------------------------------------------

/// Where an edit is to be made, in bytes.
#[derive(Clone, Copy)]
pub struct Placement {
    pub edit: usize,
    pub index: usize,
    pub length: usize,
}

impl Keyed for Placement {
    open spec fn spec_key(&self) -> u64 {
        self.index as u64
    }

    fn key(&self) -> (r: u64) {
        self.index as u64
    }
}

/// A text with the bytes of a range replaced. Both ends of the range stand
/// between characters.
pub open spec fn with_range_replaced(text: Seq<char>, from: nat, to: nat, new: Seq<char>) -> Option<
    Seq<char>,
> {
    if from > to {
        None
    } else {
        match (cut_at(text, from), cut_at(text, to)) {
            (Some(a), Some(b)) => Some(text.take(a) + new + text.skip(b)),
            _ => None,
        }
    }
}

/// Where a placement starts in a text that starts at an offset.
pub open spec fn start_in(p: Placement, offset: nat) -> nat {
    if p.index > offset {
        (p.index - offset) as nat
    } else {
        0
    }
}

/// Where a placement ends in a text that starts at an offset: not behind the
/// text.
pub open spec fn end_in(p: Placement, offset: nat, text: Seq<char>) -> nat {
    let end = start_in(p, offset) + p.length as nat;
    if end < byte_len(text) {
        end
    } else {
        byte_len(text)
    }
}

/// A text with replacements made from the last to the first.
pub open spec fn replaced(
    text: Seq<char>,
    placements: Seq<Placement>,
    news: Seq<Seq<char>>,
    offset: nat,
) -> Option<Seq<char>>
    decreases placements.len(),
{
    if placements.len() == 0 {
        Some(text)
    } else {
        let p = placements.last();
        match with_range_replaced(
            text,
            start_in(p, offset),
            end_in(p, offset, text),
            news[p.edit as int],
        ) {
            Some(t) => replaced(t, placements.drop_last(), news, offset),
            None => None,
        }
    }
}

/// The line that holds the byte at a position, from a line on.
pub open spec fn line_holding(lines: Seq<Seq<char>>, at: nat, from: int) -> Option<int>
    decreases lines.len() - from,
{
    if from < 0 || from >= lines.len() {
        None
    } else if at < byte_len(concat_all(lines.take(from + 1))) {
        Some(from)
    } else {
        line_holding(lines, at, from + 1)
    }
}

/// The first line, from a line on, that does not end before a position.
pub open spec fn line_reaching(lines: Seq<Seq<char>>, end: nat, from: int) -> Option<int>
    decreases lines.len() - from,
{
    if from < 0 || from >= lines.len() {
        None
    } else if byte_len(concat_all(lines.take(from + 1))) >= end {
        Some(from)
    } else {
        line_reaching(lines, end, from + 1)
    }
}

/// The lines that a placement touches, up to the line after the last.
pub open spec fn lines_touched(lines: Seq<Seq<char>>, p: Placement) -> Option<(int, int)> {
    match line_holding(lines, p.index as nat, 0) {
        Some(start) => match line_reaching(lines, (p.index + p.length) as nat, start) {
            Some(last) => Some((start, last + 1)),
            None => None,
        },
        None => None,
    }
}

/// Placements that share lines, and the lines that they touch.
#[derive(Clone, Copy)]
pub struct LineGroup {
    pub start: usize,
    pub end: usize,
    pub first: usize,
    pub after: usize,
}

/// The groups with one more placement.
pub open spec fn with_placement(groups: Seq<LineGroup>, start: int, end: int, i: int) -> Seq<
    LineGroup,
> {
    if groups.len() > 0 && start < groups.last().end {
        let last = groups.last();
        groups.drop_last().push(
            LineGroup {
                start: last.start,
                end: if end > last.end {
                    end as usize
                } else {
                    last.end
                },
                first: last.first,
                after: (i + 1) as usize,
            },
        )
    } else {
        groups.push(
            LineGroup {
                start: start as usize,
                end: end as usize,
                first: i as usize,
                after: (i + 1) as usize,
            },
        )
    }
}

/// The groups of the first placements.
pub open spec fn line_groups(lines: Seq<Seq<char>>, placements: Seq<Placement>, n: nat) -> Option<
    Seq<LineGroup>,
>
    decreases n,
{
    if n == 0 {
        Some(Seq::empty())
    } else {
        match line_groups(lines, placements, (n - 1) as nat) {
            Some(groups) => match lines_touched(lines, placements[n - 1]) {
                Some(range) => Some(with_placement(groups, range.0, range.1, n - 1)),
                None => None,
            },
            None => None,
        }
    }
}

/// The line after the first groups.
pub open spec fn line_after(groups: Seq<LineGroup>, n: nat) -> int {
    if n == 0 {
        0
    } else {
        groups[n - 1].end as int
    }
}

/// The text up to the end of the first groups: original lines between them,
/// and the lines of a group with its replacements made.
pub open spec fn groups_replaced(
    original: Seq<Seq<char>>,
    base: Seq<Seq<char>>,
    groups: Seq<LineGroup>,
    placements: Seq<Placement>,
    news: Seq<Seq<char>>,
    n: nat,
) -> Option<Seq<char>>
    decreases n,
{
    if n == 0 {
        Some(Seq::empty())
    } else {
        let g = groups[n - 1];
        let front = groups_replaced(original, base, groups, placements, news, (n - 1) as nat);
        let body = replaced(
            concat_all(base.subrange(g.start as int, g.end as int)),
            placements.subrange(g.first as int, g.after as int),
            news,
            byte_len(concat_all(base.take(g.start as int))),
        );
        match (front, body) {
            (Some(a), Some(b)) => Some(
                a + concat_all(
                    original.subrange(line_after(groups, (n - 1) as nat), g.start as int),
                ) + b,
            ),
            _ => None,
        }
    }
}

/// A text with replacements made in the lines of another form of it. Lines
/// that no replacement touches stay as they are in the original.
pub open spec fn replaced_in_lines(
    original: Seq<char>,
    base: Seq<char>,
    placements: Seq<Placement>,
    news: Seq<Seq<char>>,
) -> Option<Seq<char>> {
    let original_lines = lines_of(original);
    let base_lines = lines_of(base);
    if original_lines.len() != base_lines.len() {
        None
    } else {
        match line_groups(base_lines, placements, placements.len()) {
            Some(groups) => match groups_replaced(
                original_lines,
                base_lines,
                groups,
                placements,
                news,
                groups.len(),
            ) {
                Some(t) => Some(
                    t + concat_all(original_lines.skip(line_after(groups, groups.len()))),
                ),
                None => None,
            },
            None => None,
        }
    }
}

fn replace_range(text: &str, from: usize, to: usize, new: &str) -> (r: Option<String>)
    ensures
        match r {
            Some(t) => with_range_replaced(text@, from as nat, to as nat, new@) == Some(t@),
            None => with_range_replaced(text@, from as nat, to as nat, new@) is None,
        },
{
    if from > to {
        return None;
    }
    match find_cut(text, from) {
        Some(a) => match find_cut(text, to) {
            Some(b) => {
                let n: usize = text.unicode_len();
                let front: String = substring(text, 0, a);
                let back: String = substring(text, b, n);
                proof {
                    assert(text@.subrange(0, a as int) =~= text@.take(a as int));
                    assert(text@.subrange(b as int, n as int) =~= text@.skip(b as int));
                }
                Some(concat3(front.as_str(), new, back.as_str()))
            },
            None => None,
        },
        None => None,
    }
}

/// The placements that have an edit and end at a position that can be told.
spec fn placements_ok(placements: Seq<Placement>, edits: int) -> bool {
    forall|i: int|
        0 <= i < placements.len() ==> (#[trigger] placements[i]).edit < edits
            && placements[i].index + placements[i].length <= usize::MAX
}

fn apply_replacements(
    text: &str,
    placements: &Vec<Placement>,
    first: usize,
    after: usize,
    edits: &Vec<Edit>,
    offset: usize,
) -> (r: Option<String>)
    requires
        first <= after <= placements@.len(),
        placements_ok(placements@, edits@.len() as int),
    ensures
        match r {
            Some(t) => replaced(
                text@,
                placements@.subrange(first as int, after as int),
                new_texts(edits@),
                offset as nat,
            ) == Some(t@),
            None => replaced(
                text@,
                placements@.subrange(first as int, after as int),
                new_texts(edits@),
                offset as nat,
            ) is None,
        },
{
    let mut result: String = text.to_string();
    let mut i: usize = after;
    while i > first
        invariant
            first <= i <= after <= placements@.len(),
            placements_ok(placements@, edits@.len() as int),
            replaced(
                text@,
                placements@.subrange(first as int, after as int),
                new_texts(edits@),
                offset as nat,
            ) == replaced(
                result@,
                placements@.subrange(first as int, i as int),
                new_texts(edits@),
                offset as nat,
            ),
        decreases i - first,
    {
        let p: Placement = placements[i - 1];
        proof {
            let part = placements@.subrange(first as int, i as int);
            assert(part.last() == p);
            assert(part.drop_last() =~= placements@.subrange(first as int, i - 1));
            assert(p.edit < edits@.len());
            assert(new_texts(edits@)[p.edit as int] == edits@[p.edit as int].new_text@);
        }
        let start: usize = if p.index > offset {
            p.index - offset
        } else {
            0
        };
        let size: usize = utf8_len(result.as_str());
        let mut end: usize = size;
        if start + p.length < size {
            end = start + p.length;
        }
        match replace_range(result.as_str(), start, end, edits[p.edit].new_text.as_str()) {
            Some(t) => {
                result = t;
            },
            None => {
                return None;
            },
        }
        i = i - 1;
    }
    proof {
        assert(placements@.subrange(first as int, first as int) =~= Seq::<Placement>::empty());
    }
    Some(result)
}

/// A replacement of one text by another.
pub struct Edit {
    pub old_text: String,
    pub new_text: String,
}

impl Clone for Edit {
    fn clone(&self) -> (r: Self)
        ensures
            r == *self,
    {
        Edit { old_text: self.old_text.clone(), new_text: self.new_text.clone() }
    }
}

/// The texts that are looked for.
pub open spec fn old_texts(edits: Seq<Edit>) -> Seq<Seq<char>> {
    Seq::new(edits.len(), |i: int| edits[i].old_text@)
}

/// The texts that are put in.
pub open spec fn new_texts(edits: Seq<Edit>) -> Seq<Seq<char>> {
    Seq::new(edits.len(), |i: int| edits[i].new_text@)
}

/// The groups lie in order inside the lines and the placements.
spec fn groups_ok(groups: Seq<LineGroup>, lines: int, placements: int) -> bool {
    &&& forall|k: int|
        0 <= k < groups.len() ==> (#[trigger] groups[k]).start < groups[k].end <= lines
            && groups[k].first < groups[k].after <= placements
    &&& forall|k: int, m: int|
        0 <= k < m < groups.len() ==> (#[trigger] groups[k]).end <= (#[trigger] groups[m]).start
}

proof fn lemma_with_placement(
    groups: Seq<LineGroup>,
    start: int,
    end: int,
    i: int,
    lines: int,
    placements: int,
)
    requires
        groups_ok(groups, lines, i),
        0 <= start < end <= lines <= usize::MAX,
        0 <= i < placements <= usize::MAX,
    ensures
        groups_ok(with_placement(groups, start, end, i), lines, i + 1),
{
    let now = with_placement(groups, start, end, i);
    assert forall|k: int| 0 <= k < now.len() implies (#[trigger] now[k]).start < now[k].end
        <= lines && now[k].first < now[k].after <= i + 1 by {
        if k < groups.len() {
            assert(groups[k].start < groups[k].end <= lines);
        }
    }
    assert forall|k: int, m: int| 0 <= k < m < now.len() implies (#[trigger] now[k]).end <= (
    #[trigger] now[m]).start by {
        if m < groups.len() {
            assert(groups[k].end <= groups[m].start);
            assert(now[k].end == groups[k].end);
        } else {
            let last = groups.len() - 1;
            if k < last {
                assert(groups[k].end <= groups[last].start);
                assert(groups[last].start < groups[last].end);
            }
        }
    }
}

fn line_ends(lines: &Vec<String>, base: &str) -> (r: Vec<usize>)
    requires
        texts(lines@) == lines_of(base@),
    ensures
        r@.len() == lines@.len(),
        forall|k: int|
            0 <= k < r@.len() ==> #[trigger] r@[k] == byte_len(
                concat_all(texts(lines@).take(k + 1)),
            ),
{
    let ghost all = texts(lines@);
    let size: usize = utf8_len(base);
    let mut ends: Vec<usize> = Vec::new();
    let mut used: usize = 0;
    let mut i: usize = 0;
    proof {
        assert(all.take(0) =~= Seq::<Seq<char>>::empty());
        law_lines_make_up_the_text(base@);
    }
    while i < lines.len()
        invariant
            i <= lines@.len(),
            all == texts(lines@),
            concat_all(all) == base@,
            size == byte_len(base@),
            used == byte_len(concat_all(all.take(i as int))),
            ends@.len() == i,
            forall|k: int|
                0 <= k < i ==> #[trigger] ends@[k] == byte_len(concat_all(all.take(k + 1))),
        decreases lines@.len() - i,
    {
        let width: usize = utf8_len(lines[i].as_str());
        proof {
            assert(all.take(i + 1) =~= all.take(i as int).push(all[i as int]));
            lemma_concat_push(all.take(i as int), all[i as int]);
            lemma_byte_len_concat(concat_all(all.take(i as int)), all[i as int]);
            lemma_concat_split(all, i + 1);
            lemma_byte_len_concat(concat_all(all.take(i + 1)), concat_all(all.skip(i + 1)));
        }
        used = used + width;
        ends.push(used);
        i = i + 1;
    }
    ends
}

fn find_touched(lines: &Vec<String>, ends: &Vec<usize>, p: Placement) -> (r: Option<(usize, usize)>)
    requires
        p.index + p.length <= usize::MAX,
        ends@.len() == lines@.len(),
        forall|k: int|
            0 <= k < ends@.len() ==> #[trigger] ends@[k] == byte_len(
                concat_all(texts(lines@).take(k + 1)),
            ),
    ensures
        match r {
            Some(range) => lines_touched(texts(lines@), p) == Some(
                (range.0 as int, range.1 as int),
            ) && range.0 < range.1 <= lines@.len(),
            None => lines_touched(texts(lines@), p) is None,
        },
{
    let ghost all = texts(lines@);
    let n: usize = ends.len();
    let stop: usize = p.index + p.length;
    let mut start: usize = 0;
    while start < n && p.index >= ends[start]
        invariant
            start <= n == ends@.len() == lines@.len(),
            all == texts(lines@),
            forall|k: int|
                0 <= k < ends@.len() ==> #[trigger] ends@[k] == byte_len(
                    concat_all(all.take(k + 1)),
                ),
            line_holding(all, p.index as nat, 0) == line_holding(
                all,
                p.index as nat,
                start as int,
            ),
        decreases n - start,
    {
        start = start + 1;
    }
    if start >= n {
        return None;
    }
    let mut last: usize = start;
    while last < n && ends[last] < stop
        invariant
            start <= last <= n == ends@.len() == lines@.len(),
            stop == p.index + p.length,
            all == texts(lines@),
            forall|k: int|
                0 <= k < ends@.len() ==> #[trigger] ends@[k] == byte_len(
                    concat_all(all.take(k + 1)),
                ),
            line_reaching(all, stop as nat, start as int) == line_reaching(
                all,
                stop as nat,
                last as int,
            ),
        decreases n - last,
    {
        last = last + 1;
    }
    if last >= n {
        return None;
    }
    Some((start, last + 1))
}

fn collect_groups(lines: &Vec<String>, ends: &Vec<usize>, placements: &Vec<Placement>) -> (r: Option<
    Vec<LineGroup>,
>)
    requires
        forall|i: int|
            0 <= i < placements@.len() ==> (#[trigger] placements@[i]).index
                + placements@[i].length <= usize::MAX,
        ends@.len() == lines@.len(),
        forall|k: int|
            0 <= k < ends@.len() ==> #[trigger] ends@[k] == byte_len(
                concat_all(texts(lines@).take(k + 1)),
            ),
    ensures
        match r {
            Some(groups) => line_groups(texts(lines@), placements@, placements@.len()) == Some(
                groups@,
            ) && groups_ok(groups@, lines@.len() as int, placements@.len() as int),
            None => line_groups(texts(lines@), placements@, placements@.len()) is None,
        },
{
    let ghost all = texts(lines@);
    let count: usize = lines.len();
    let n: usize = placements.len();
    let mut groups: Vec<LineGroup> = Vec::new();
    let mut i: usize = 0;
    proof {
        assert(groups@ =~= Seq::<LineGroup>::empty());
    }
    while i < n
        invariant
            i <= n == placements@.len(),
            count == lines@.len(),
            all == texts(lines@),
            forall|k: int|
                0 <= k < placements@.len() ==> (#[trigger] placements@[k]).index
                    + placements@[k].length <= usize::MAX,
            ends@.len() == lines@.len(),
            forall|k: int|
                0 <= k < ends@.len() ==> #[trigger] ends@[k] == byte_len(
                    concat_all(texts(lines@).take(k + 1)),
                ),
            line_groups(all, placements@, i as nat) == Some(groups@),
            groups_ok(groups@, count as int, i as int),
        decreases n - i,
    {
        match find_touched(lines, ends, placements[i]) {
            Some(range) => {
                let ghost before = groups@;
                let m: usize = groups.len();
                proof {
                    lemma_with_placement(
                        before,
                        range.0 as int,
                        range.1 as int,
                        i as int,
                        count as int,
                        n as int,
                    );
                }
                if m > 0 && range.0 < groups[m - 1].end {
                    let last: LineGroup = groups[m - 1];
                    let end: usize = if range.1 > last.end {
                        range.1
                    } else {
                        last.end
                    };
                    groups.set(
                        m - 1,
                        LineGroup { start: last.start, end, first: last.first, after: i + 1 },
                    );
                } else {
                    groups.push(
                        LineGroup { start: range.0, end: range.1, first: i, after: i + 1 },
                    );
                }
                proof {
                    assert(groups@ =~= with_placement(
                        before,
                        range.0 as int,
                        range.1 as int,
                        i as int,
                    ));
                }
            },
            None => {
                proof {
                    lemma_groups_fail(all, placements@, (i + 1) as nat, n as nat);
                }
                return None;
            },
        }
        i = i + 1;
    }
    Some(groups)
}

proof fn lemma_groups_fail(
    lines: Seq<Seq<char>>,
    placements: Seq<Placement>,
    n: nat,
    more: nat,
)
    requires
        n <= more,
        line_groups(lines, placements, n) is None,
    ensures
        line_groups(lines, placements, more) is None,
    decreases more,
{
    if n < more {
        lemma_groups_fail(lines, placements, n, (more - 1) as nat);
    }
}

proof fn lemma_groups_replaced_fail(
    original: Seq<Seq<char>>,
    base: Seq<Seq<char>>,
    groups: Seq<LineGroup>,
    placements: Seq<Placement>,
    news: Seq<Seq<char>>,
    n: nat,
    more: nat,
)
    requires
        n <= more,
        groups_replaced(original, base, groups, placements, news, n) is None,
    ensures
        groups_replaced(original, base, groups, placements, news, more) is None,
    decreases more,
{
    if n < more {
        lemma_groups_replaced_fail(
            original,
            base,
            groups,
            placements,
            news,
            n,
            (more - 1) as nat,
        );
    }
}

fn concat_range(lines: &Vec<String>, from: usize, to: usize) -> (r: String)
    requires
        from <= to <= lines@.len(),
    ensures
        r@ == concat_all(texts(lines@).subrange(from as int, to as int)),
{
    let ghost all = texts(lines@);
    let mut out: String = String::new();
    let mut i: usize = from;
    proof {
        assert(all.subrange(from as int, from as int) =~= Seq::<Seq<char>>::empty());
        assert(out@ =~= Seq::<char>::empty());
    }
    while i < to
        invariant
            from <= i <= to <= lines@.len(),
            all == texts(lines@),
            out@ == concat_all(all.subrange(from as int, i as int)),
        decreases to - i,
    {
        out.append(lines[i].as_str());
        proof {
            let shorter = all.subrange(from as int, i as int);
            assert(all.subrange(from as int, i + 1) =~= shorter.push(all[i as int]));
            lemma_concat_push(shorter, all[i as int]);
        }
        i = i + 1;
    }
    out
}

fn apply_replacements_preserving_unchanged_lines(
    original: &str,
    base: &str,
    placements: &Vec<Placement>,
    edits: &Vec<Edit>,
) -> (r: Option<String>)
    requires
        placements_ok(placements@, edits@.len() as int),
    ensures
        match r {
            Some(t) => replaced_in_lines(original@, base@, placements@, new_texts(edits@)) == Some(
                t@,
            ),
            None => replaced_in_lines(original@, base@, placements@, new_texts(edits@)) is None,
        },
{
    let original_lines: Vec<String> = split_lines_with_endings(original);
    let base_lines: Vec<String> = split_lines_with_endings(base);
    if original_lines.len() != base_lines.len() {
        proof {
            assert(texts(original_lines@).len() != texts(base_lines@).len());
        }
        return None;
    }
    proof {
        assert(texts(original_lines@).len() == texts(base_lines@).len());
    }
    let ends: Vec<usize> = line_ends(&base_lines, base);
    let ghost news = new_texts(edits@);
    let ghost olds = texts(original_lines@);
    let ghost bases = texts(base_lines@);
    match collect_groups(&base_lines, &ends, placements) {
        Some(groups) => {
            let count: usize = original_lines.len();
            let mut out: String = String::new();
            let mut at: usize = 0;
            let mut k: usize = 0;
            proof {
                assert(out@ =~= Seq::<char>::empty());
            }
            while k < groups.len()
                invariant
                    k <= groups@.len(),
                    groups_ok(groups@, count as int, placements@.len() as int),
                    placements_ok(placements@, edits@.len() as int),
                    count == original_lines@.len() == base_lines@.len() == ends@.len(),
                    olds == texts(original_lines@),
                    olds == lines_of(original@),
                    bases == texts(base_lines@),
                    bases == lines_of(base@),
                    line_groups(bases, placements@, placements@.len()) == Some(groups@),
                    news == new_texts(edits@),
                    forall|j: int|
                        0 <= j < ends@.len() ==> #[trigger] ends@[j] == byte_len(
                            concat_all(bases.take(j + 1)),
                        ),
                    at == line_after(groups@, k as nat),
                    at <= count,
                    groups_replaced(olds, bases, groups@, placements@, news, k as nat) == Some(
                        out@,
                    ),
                decreases groups@.len() - k,
            {
                let g: LineGroup = groups[k];
                proof {
                    if k > 0 {
                        assert(groups@[k - 1].end <= groups@[k as int].start);
                    }
                    assert(bases.take(0) =~= Seq::<Seq<char>>::empty());
                }
                let front: String = concat_range(&original_lines, at, g.start);
                let body: String = concat_range(&base_lines, g.start, g.end);
                let offset: usize = if g.start == 0 {
                    0
                } else {
                    ends[g.start - 1]
                };
                match apply_replacements(
                    body.as_str(),
                    placements,
                    g.first,
                    g.after,
                    edits,
                    offset,
                ) {
                    Some(t) => {
                        out.append(front.as_str());
                        out.append(t.as_str());
                    },
                    None => {
                        proof {
                            lemma_groups_replaced_fail(
                                olds,
                                bases,
                                groups@,
                                placements@,
                                news,
                                (k + 1) as nat,
                                groups@.len(),
                            );
                        }
                        return None;
                    },
                }
                at = g.end;
                k = k + 1;
            }
            let tail: String = concat_range(&original_lines, at, count);
            proof {
                assert(olds.subrange(at as int, count as int) =~= olds.skip(at as int));
            }
            out.append(tail.as_str());
            Some(out)
        },
        None => None,
    }
}

// ---------------------------------------------------------------------------
// Edits
// ---------------------------------------------------------------------------

/// The forgiving forms that edits are matched in: those of the content, of the
/// text in which replacements are made, and of the texts to look for.
pub struct FuzzyForms {
    pub content: String,
    pub base: String,
    pub old_texts: Vec<String>,
}

/// The mathematical value of [`FuzzyForms`].
pub struct FormsView {
    pub content: Seq<char>,
    pub base: Seq<char>,
    pub old_texts: Seq<Seq<char>>,
}

impl View for FuzzyForms {
    type V = FormsView;

    open spec fn view(&self) -> FormsView {
        FormsView {
            content: self.content@,
            base: self.base@,
            old_texts: texts(self.old_texts@),
        }
    }
}

/// Whether some text does not stand exactly in the content but its forgiving
/// form stands in that of the content.
pub open spec fn some_match_is_fuzzy(
    content: Seq<char>,
    fuzzy_content: Seq<char>,
    olds: Seq<Seq<char>>,
    fuzzy_olds: Seq<Seq<char>>,
) -> bool {
    exists|i: int|
        0 <= i < olds.len() && (#[trigger] match_in(
            content,
            olds[i],
            fuzzy_content,
            fuzzy_olds[i],
        )).used_fuzzy_match
}

/// The text in which replacements are made: the content, or its forgiving form
/// where some match needs it.
pub open spec fn edit_base(
    content: Seq<char>,
    fuzzy_content: Seq<char>,
    olds: Seq<Seq<char>>,
    fuzzy_olds: Seq<Seq<char>>,
) -> Seq<char> {
    if some_match_is_fuzzy(content, fuzzy_content, olds, fuzzy_olds) {
        fuzzy_content
    } else {
        content
    }
}

/// The forgiving forms for a content and the texts to look for.
pub open spec fn forms_for(content: Seq<char>, olds: Seq<Seq<char>>) -> FormsView {
    let fuzzy_olds = olds.map_values(|old_text: Seq<char>| fuzzy_form(old_text));
    let fuzzy_content = fuzzy_form(content);
    FormsView {
        content: fuzzy_content,
        base: fuzzy_form(edit_base(content, fuzzy_content, olds, fuzzy_olds)),
        old_texts: fuzzy_olds,
    }
}

/// The first edit without a text to look for.
pub open spec fn first_empty(olds: Seq<Seq<char>>, from: int) -> Option<int>
    decreases olds.len() - from,
{
    if from < 0 || from >= olds.len() {
        None
    } else if olds[from].len() == 0 {
        Some(from)
    } else {
        first_empty(olds, from + 1)
    }
}

/// Why an edit cannot be placed, if it cannot.
pub open spec fn placing_problem(
    base: Seq<char>,
    fuzzy_base: Seq<char>,
    old: Seq<char>,
    fuzzy_old: Seq<char>,
    path: Seq<char>,
    i: nat,
    total: nat,
) -> Option<Seq<char>> {
    let count = occurrences(fuzzy_base, fuzzy_old);
    if !match_in(base, old, fuzzy_base, fuzzy_old).found {
        Some(not_found_text(path, i, total))
    } else if count > 1 {
        Some(duplicate_text(path, i, total, count))
    } else {
        None
    }
}

/// Why one of the edits cannot be placed: the reason of the first that cannot.
pub open spec fn first_placing_problem(
    base: Seq<char>,
    fuzzy_base: Seq<char>,
    olds: Seq<Seq<char>>,
    fuzzy_olds: Seq<Seq<char>>,
    path: Seq<char>,
    from: int,
) -> Option<Seq<char>>
    decreases olds.len() - from,
{
    if from < 0 || from >= olds.len() {
        None
    } else {
        match placing_problem(
            base,
            fuzzy_base,
            olds[from],
            fuzzy_olds[from],
            path,
            from as nat,
            olds.len(),
        ) {
            Some(text) => Some(text),
            None => first_placing_problem(base, fuzzy_base, olds, fuzzy_olds, path, from + 1),
        }
    }
}

/// Where the edits are made, in the order in which they were given.
pub open spec fn placements_of(
    base: Seq<char>,
    fuzzy_base: Seq<char>,
    olds: Seq<Seq<char>>,
    fuzzy_olds: Seq<Seq<char>>,
) -> Seq<Placement> {
    Seq::new(
        olds.len(),
        |i: int|
            Placement {
                edit: i as usize,
                index: match_in(base, olds[i], fuzzy_base, fuzzy_olds[i]).index as usize,
                length: match_in(base, olds[i], fuzzy_base, fuzzy_olds[i]).match_length as usize,
            },
    )
}

/// The first of the placements that reaches into the next.
pub open spec fn first_overlap(placements: Seq<Placement>, from: int) -> Option<int>
    decreases placements.len() - from,
{
    if from < 0 || from + 1 >= placements.len() {
        None
    } else if placements[from].index + placements[from].length > placements[from + 1].index {
        Some(from)
    } else {
        first_overlap(placements, from + 1)
    }
}

/// What edits make of a content: the new content, or the reason why they cannot
/// be made. There is neither where a fuzzy replacement does not fit the lines
/// of the content.
pub open spec fn edit_outcome(
    content: Seq<char>,
    olds: Seq<Seq<char>>,
    news: Seq<Seq<char>>,
    path: Seq<char>,
    forms: FormsView,
) -> Option<Result<Seq<char>, Seq<char>>> {
    let total = olds.len();
    let fuzzy = some_match_is_fuzzy(content, forms.content, olds, forms.old_texts);
    let base = edit_base(content, forms.content, olds, forms.old_texts);
    let sorted = in_order(placements_of(base, forms.base, olds, forms.old_texts));
    match first_empty(olds, 0) {
        Some(i) => Some(Err(empty_old_text(path, i as nat, total))),
        None => match first_placing_problem(base, forms.base, olds, forms.old_texts, path, 0) {
            Some(text) => Some(Err(text)),
            None => match first_overlap(sorted, 0) {
                Some(i) => Some(
                    Err(overlap_text(path, sorted[i].edit as nat, sorted[i + 1].edit as nat)),
                ),
                None => {
                    let result = if fuzzy {
                        replaced_in_lines(content, base, sorted, news)
                    } else {
                        replaced(base, sorted, news, 0)
                    };
                    match result {
                        Some(t) => if t == content {
                            Some(Err(no_change_text(path, total)))
                        } else {
                            Some(Ok(t))
                        },
                        None => None,
                    }
                },
            },
        },
    }
}

/// A content before and after edits.
pub struct AppliedEditsResult {
    pub base_content: String,
    pub new_content: String,
}

/// What applying edits to a content returned.
pub open spec fn edit_result(r: Result<AppliedEditsResult, String>) -> Result<
    Seq<char>,
    Seq<char>,
> {
    match r {
        Ok(applied) => Ok(applied.new_content@),
        Err(text) => Err(text@),
    }
}

fn any_fuzzy(content: &str, fuzzy_content: &str, edits: &Vec<Edit>, fuzzy_olds: &Vec<String>) -> (r:
    bool)
    requires
        fuzzy_olds@.len() == edits@.len(),
    ensures
        r == some_match_is_fuzzy(
            content@,
            fuzzy_content@,
            old_texts(edits@),
            texts(fuzzy_olds@),
        ),
{
    let ghost olds = old_texts(edits@);
    let ghost fuzzy = texts(fuzzy_olds@);
    let mut i: usize = 0;
    while i < edits.len()
        invariant
            i <= edits@.len() == fuzzy_olds@.len(),
            olds == old_texts(edits@),
            fuzzy == texts(fuzzy_olds@),
            forall|k: int|
                0 <= k < i ==> !(#[trigger] match_in(
                    content@,
                    olds[k],
                    fuzzy_content@,
                    fuzzy[k],
                )).used_fuzzy_match,
        decreases edits@.len() - i,
    {
        let found: FuzzyMatchResult = find_in_forms(
            content,
            edits[i].old_text.as_str(),
            fuzzy_content,
            fuzzy_olds[i].as_str(),
        );
        if found.used_fuzzy_match {
            proof {
                assert(match_in(
                    content@,
                    olds[i as int],
                    fuzzy_content@,
                    fuzzy[i as int],
                ).used_fuzzy_match);
            }
            return true;
        }
        i = i + 1;
    }
    false
}

pub proof fn lemma_match_fits(
    content: Seq<char>,
    old_text: Seq<char>,
    fuzzy_content: Seq<char>,
    fuzzy_old_text: Seq<char>,
)
    ensures
        ({
            let m = match_in(content, old_text, fuzzy_content, fuzzy_old_text);
            m.index + m.match_length <= byte_len(m.content)
        }),
{
    lemma_first_match(content, old_text, 0);
    lemma_first_match(fuzzy_content, fuzzy_old_text, 0);
    match first_match(content, old_text, 0) {
        Some(i) => {
            lemma_match_bytes(content, old_text, i);
        },
        None => match first_match(fuzzy_content, fuzzy_old_text, 0) {
            Some(i) => {
                lemma_match_bytes(fuzzy_content, fuzzy_old_text, i);
            },
            None => {},
        },
    }
}

pub proof fn lemma_match_bytes(hay: Seq<char>, needle: Seq<char>, i: int)
    requires
        matches_at(hay, i, needle),
    ensures
        byte_len(hay.take(i)) + byte_len(needle) == byte_len(hay.take(i + needle.len())),
        byte_len(hay.take(i + needle.len())) <= byte_len(hay),
{
    let end = i + needle.len();
    assert(hay.take(end) =~= hay.take(i) + needle) by {
        assert forall|k: int| i <= k < end implies hay[k] == needle[k - i] by {
            assert(hay.subrange(i, end)[k - i] == needle[k - i]);
        }
    }
    lemma_byte_len_concat(hay.take(i), needle);
    lemma_byte_len_concat(hay.take(end), hay.skip(end));
    assert(hay =~= hay.take(end) + hay.skip(end));
}

proof fn lemma_sorted_ok(placements: Seq<Placement>, edits: int)
    requires
        placements_ok(placements, edits),
    ensures
        placements_ok(in_order(placements), edits),
{
    broadcast use vstd::seq_lib::group_to_multiset_ensures;

    law_sorting_orders_the_same_items(placements);
    let sorted = in_order(placements);
    assert forall|i: int| 0 <= i < sorted.len() implies (#[trigger] sorted[i]).edit < edits
        && sorted[i].index + sorted[i].length <= usize::MAX by {
        assert(sorted.contains(sorted[i]));
        assert(sorted.to_multiset().count(sorted[i]) > 0);
        assert(placements.contains(sorted[i]));
        let k = choose|k: int| 0 <= k < placements.len() && placements[k] == sorted[i];
        assert(placements[k].edit < edits);
    }
}

/// Where the edits are made, or why one of them cannot be placed.
fn place_edits(
    base: &str,
    fuzzy_base: &str,
    edits: &Vec<Edit>,
    fuzzy_olds: &Vec<String>,
    path: &str,
) -> (r: Result<Vec<Placement>, String>)
    requires
        fuzzy_olds@.len() == edits@.len(),
    ensures
        match r {
            Ok(placements) => first_placing_problem(
                base@,
                fuzzy_base@,
                old_texts(edits@),
                texts(fuzzy_olds@),
                path@,
                0,
            ) is None && placements@ == placements_of(
                base@,
                fuzzy_base@,
                old_texts(edits@),
                texts(fuzzy_olds@),
            ) && placements_ok(placements@, edits@.len() as int),
            Err(text) => first_placing_problem(
                base@,
                fuzzy_base@,
                old_texts(edits@),
                texts(fuzzy_olds@),
                path@,
                0,
            ) == Some(text@),
        },
{
    let ghost olds = old_texts(edits@);
    let ghost fuzzy = texts(fuzzy_olds@);
    let ghost wanted = placements_of(base@, fuzzy_base@, olds, fuzzy);
    let total: usize = edits.len();
    let mut placements: Vec<Placement> = Vec::new();
    let mut i: usize = 0;
    while i < total
        invariant
            i <= total == edits@.len() == fuzzy_olds@.len(),
            olds == old_texts(edits@),
            fuzzy == texts(fuzzy_olds@),
            wanted == placements_of(base@, fuzzy_base@, olds, fuzzy),
            first_placing_problem(base@, fuzzy_base@, olds, fuzzy, path@, 0)
                == first_placing_problem(base@, fuzzy_base@, olds, fuzzy, path@, i as int),
            placements@.len() == i,
            forall|k: int| 0 <= k < i ==> #[trigger] placements@[k] == wanted[k],
            placements_ok(placements@, total as int),
        decreases total - i,
    {
        let found: FuzzyMatchResult = find_in_forms(
            base,
            edits[i].old_text.as_str(),
            fuzzy_base,
            fuzzy_olds[i].as_str(),
        );
        if !found.found {
            return Err(not_found_error(path, i, total));
        }
        let count: u128 = count_in(fuzzy_base, fuzzy_olds[i].as_str());
        if count > 1 {
            return Err(duplicate_error(path, i, total, count));
        }
        proof {
            assert(found@ == match_in(base@, olds[i as int], fuzzy_base@, fuzzy[i as int]));
            lemma_match_fits(base@, olds[i as int], fuzzy_base@, fuzzy[i as int]);
            assert(first_placing_problem(base@, fuzzy_base@, olds, fuzzy, path@, i as int)
                == first_placing_problem(base@, fuzzy_base@, olds, fuzzy, path@, i + 1));
        }
        let size: usize = utf8_len(found.content_for_replacement.as_str());
        let ghost before = placements@;
        placements.push(
            Placement { edit: i, index: found.index, length: found.match_length },
        );
        proof {
            assert(found.index + found.match_length <= size);
            assert(placements@.last() == wanted[i as int]);
            assert forall|k: int| 0 <= k < placements@.len() implies (#[trigger] placements@[k]).edit
                < total && placements@[k].index + placements@[k].length <= usize::MAX by {
                if k < before.len() {
                    assert(before[k].edit < total);
                }
            }
        }
        i = i + 1;
    }
    proof {
        assert(placements@ =~= wanted);
    }
    Ok(placements)
}

/// What edits make of a content, given the forgiving forms of its texts. There
/// is no result where a fuzzy replacement does not fit the lines of the
/// content.
pub fn apply_edits_in_forms(content: &str, edits: &Vec<Edit>, path: &str, forms: &FuzzyForms) -> (r:
    Option<Result<AppliedEditsResult, String>>)
    requires
        forms.old_texts@.len() == edits@.len(),
    ensures
        match r {
            Some(result) => edit_outcome(
                content@,
                old_texts(edits@),
                new_texts(edits@),
                path@,
                forms@,
            ) == Some(edit_result(result)) && (result matches Ok(applied)
                ==> applied.base_content@ == content@),
            None => edit_outcome(
                content@,
                old_texts(edits@),
                new_texts(edits@),
                path@,
                forms@,
            ) is None,
        },
{
    let ghost olds = old_texts(edits@);
    let ghost news = new_texts(edits@);
    let ghost fuzzy_olds = texts(forms.old_texts@);
    let total: usize = edits.len();
    let mut i: usize = 0;
    while i < total
        invariant
            i <= total == edits@.len(),
            olds == old_texts(edits@),
            news == new_texts(edits@),
            first_empty(olds, 0) == first_empty(olds, i as int),
        decreases total - i,
    {
        proof {
            assert(olds[i as int] == edits@[i as int].old_text@);
        }
        if edits[i].old_text.as_str().unicode_len() == 0 {
            return Some(Err(empty_old_text_error(path, i, total)));
        }
        i = i + 1;
    }
    let fuzzy: bool = any_fuzzy(content, forms.content.as_str(), edits, &forms.old_texts);
    let base: String = if fuzzy {
        forms.content.clone()
    } else {
        content.to_string()
    };
    let placements: Vec<Placement> = match place_edits(
        base.as_str(),
        forms.base.as_str(),
        edits,
        &forms.old_texts,
        path,
    ) {
        Ok(placements) => placements,
        Err(text) => {
            return Some(Err(text));
        },
    };
    proof {
        lemma_sorted_ok(placements@, total as int);
        law_sorting_orders_the_same_items(placements@);
    }
    let sorted: Vec<Placement> = sort_stable(placements);
    let n: usize = sorted.len();
    let mut k: usize = 0;
    while k < n && k + 1 < n
        invariant
            k <= n == sorted@.len(),
            total == edits@.len() == olds.len(),
            placements_ok(sorted@, total as int),
            olds == old_texts(edits@),
            news == new_texts(edits@),
            base@ == edit_base(content@, forms.content@, olds, fuzzy_olds),
            fuzzy_olds == texts(forms.old_texts@),
            first_empty(olds, 0) is None,
            first_placing_problem(base@, forms.base@, olds, fuzzy_olds, path@, 0) is None,
            sorted@ == in_order(placements_of(base@, forms.base@, olds, fuzzy_olds)),
            first_overlap(sorted@, 0) == first_overlap(sorted@, k as int),
        decreases n - k,
    {
        let first: Placement = sorted[k];
        let second: Placement = sorted[k + 1];
        proof {
            assert(sorted@[k as int].index + sorted@[k as int].length <= usize::MAX);
        }
        if first.index + first.length > second.index {
            return Some(Err(overlap_error(path, first.edit, second.edit)));
        }
        k = k + 1;
    }
    let result: Option<String> = if fuzzy {
        apply_replacements_preserving_unchanged_lines(content, base.as_str(), &sorted, edits)
    } else {
        proof {
            assert(sorted@.subrange(0, n as int) =~= sorted@);
        }
        apply_replacements(base.as_str(), &sorted, 0, n, edits, 0)
    };
    match result {
        Some(new_content) => if same_text(content, new_content.as_str()) {
            Some(Err(no_change_error(path, total)))
        } else {
            Some(Ok(AppliedEditsResult { base_content: content.to_string(), new_content }))
        },
        None => None,
    }
}

/// The edits with line feeds alone in their texts.
fn normalize_edits(edits: &[Edit]) -> (r: Vec<Edit>)
    ensures
        old_texts(r@) == lf_texts(old_texts(edits@)),
        new_texts(r@) == lf_texts(new_texts(edits@)),
        r@.len() == edits@.len(),
{
    let mut out: Vec<Edit> = Vec::new();
    let mut i: usize = 0;
    while i < edits.len()
        invariant
            i <= edits@.len(),
            out@.len() == i,
            forall|k: int|
                0 <= k < i ==> (#[trigger] out@[k]).old_text@ == to_lf(edits@[k].old_text@)
                    && out@[k].new_text@ == to_lf(edits@[k].new_text@),
        decreases edits@.len() - i,
    {
        out.push(
            Edit {
                old_text: normalize_to_lf(edits[i].old_text.as_str()),
                new_text: normalize_to_lf(edits[i].new_text.as_str()),
            },
        );
        i = i + 1;
    }
    proof {
        assert(old_texts(out@) =~= lf_texts(old_texts(edits@)));
        assert(new_texts(out@) =~= lf_texts(new_texts(edits@)));
    }
    out
}

/// Texts with line feeds alone at the ends of their lines.
pub open spec fn lf_texts(all: Seq<Seq<char>>) -> Seq<Seq<char>> {
    all.map_values(|text: Seq<char>| to_lf(text))
}

/// What edits make of a content whose lines end with line feeds.
pub open spec fn applied_edits(content: Seq<char>, edits: Seq<Edit>, path: Seq<char>) -> Option<
    Result<Seq<char>, Seq<char>>,
> {
    let olds = lf_texts(old_texts(edits));
    edit_outcome(content, olds, lf_texts(new_texts(edits)), path, forms_for(content, olds))
}

/// The length of a text that is held somewhere fits the machine.
fn check_fits(text: &str)
    ensures
        byte_len(text@) <= usize::MAX,
{
    let _length: usize = utf8_len(text);
}

/// The forgiving forms for a content and edits.
fn fuzzy_forms(content: &str, edits: &Vec<Edit>) -> (r: FuzzyForms)
    ensures
        r@ == forms_for(content@, old_texts(edits@)),
        r.old_texts@.len() == edits@.len(),
        forms_hold(content@, old_texts(edits@)),
{
    let ghost olds = old_texts(edits@);
    let mut fuzzy_olds: Vec<String> = Vec::new();
    let mut i: usize = 0;
    while i < edits.len()
        invariant
            i <= edits@.len(),
            olds == old_texts(edits@),
            fuzzy_olds@.len() == i,
            forall|k: int| 0 <= k < i ==> (#[trigger] fuzzy_olds@[k])@ == fuzzy_form(olds[k]),
        decreases edits@.len() - i,
    {
        fuzzy_olds.push(normalize_for_fuzzy_match(edits[i].old_text.as_str()));
        i = i + 1;
    }
    proof {
        assert(texts(fuzzy_olds@) =~= olds.map_values(
            |old_text: Seq<char>| fuzzy_form(old_text),
        ));
    }
    let fuzzy_content: String = normalize_for_fuzzy_match(content);
    let base: String = if any_fuzzy(content, fuzzy_content.as_str(), edits, &fuzzy_olds) {
        normalize_for_fuzzy_match(fuzzy_content.as_str())
    } else {
        fuzzy_content.clone()
    };
    check_fits(content);
    check_fits(fuzzy_content.as_str());
    FuzzyForms { content: fuzzy_content, base, old_texts: fuzzy_olds }
}

/// Makes edits in a content whose lines end with line feeds. The order in which
/// the edits are given does not matter.
pub fn apply_edits_to_normalized_content(normalized_content: &str, edits: &[Edit], path: &str) -> (r:
    Result<AppliedEditsResult, String>)
    requires
        applied_edits(normalized_content@, edits@, path@) is Some,
    ensures
        applied_edits(normalized_content@, edits@, path@) == Some(edit_result(r)),
        r matches Ok(applied) ==> applied.base_content@ == normalized_content@
            && applied.new_content@ != normalized_content@,
        made_in_any_order(normalized_content@, edits@, path@, edit_result(r)),
{
    let normalized: Vec<Edit> = normalize_edits(edits);
    let forms: FuzzyForms = fuzzy_forms(normalized_content, &normalized);
    proof {
        lemma_made_in_any_order(normalized_content@, edits@, path@);
    }
    match apply_edits_in_forms(normalized_content, &normalized, path, &forms) {
        Some(result) => result,
        None => {
            proof {
                assert(false);
            }
            Err(String::new())
        },
    }
}

/// Whether edits can be made or refused in a content: they cannot where a
/// fuzzy replacement does not fit the lines of the content.
fn can_apply_edits(normalized_content: &str, edits: &[Edit], path: &str) -> (r: bool)
    ensures
        r == (applied_edits(normalized_content@, edits@, path@) is Some),
{
    let normalized: Vec<Edit> = normalize_edits(edits);
    let forms: FuzzyForms = fuzzy_forms(normalized_content, &normalized);
    apply_edits_in_forms(normalized_content, &normalized, path, &forms).is_some()
}

/// Makes edits in a content whose lines end with line feeds, where they can be
/// made or refused. The order in which the edits are given does not matter.
pub fn try_apply_edits(normalized_content: &str, edits: &[Edit], path: &str) -> (r: Option<
    Result<AppliedEditsResult, String>,
>)
    ensures
        match r {
            Some(result) => applied_edits(normalized_content@, edits@, path@) == Some(
                edit_result(result),
            ) && (result matches Ok(applied) ==> applied.base_content@ == normalized_content@
                && applied.new_content@ != normalized_content@) && made_in_any_order(
                normalized_content@,
                edits@,
                path@,
                edit_result(result),
            ),
            None => applied_edits(normalized_content@, edits@, path@) is None,
        },
{
    if can_apply_edits(normalized_content, edits, path) {
        Some(apply_edits_to_normalized_content(normalized_content, edits, path))
    } else {
        None
    }
}

// ---------------------------------------------------------------------------
// What edits leave alone
// ---------------------------------------------------------------------------

/// A text with its placements filled in: between them it stays as it is.
pub open spec fn spliced(text: Seq<char>, placements: Seq<Placement>, news: Seq<Seq<char>>) -> Seq<
    char,
>
    decreases placements.len(),
{
    if placements.len() == 0 {
        text
    } else {
        let p = placements.last();
        let start = cut_at(text, p.index as nat)->0;
        let end = cut_at(text, (p.index + p.length) as nat)->0;
        spliced(text.take(start), placements.drop_last(), news) + news[p.edit as int] + text.skip(
            end,
        )
    }
}

/// Placements between characters of a text that lie one after the other.
spec fn placed_well(text: Seq<char>, placements: Seq<Placement>) -> bool {
    &&& forall|i: int|
        0 <= i < placements.len() ==> cut_at(text, (#[trigger] placements[i]).index as nat) is Some
            && cut_at(text, (placements[i].index + placements[i].length) as nat) is Some
    &&& forall|i: int, j: int|
        0 <= i < j < placements.len() ==> (#[trigger] placements[i]).index + placements[i].length
            <= (#[trigger] placements[j]).index
}

proof fn lemma_cut_found(text: Seq<char>, bytes: nat)
    ensures
        match cut_at(text, bytes) {
            Some(k) => 0 <= k <= text.len() && byte_len(text.take(k)) == bytes && bytes
                <= byte_len(text),
            None => true,
        },
    decreases text.len(),
{
    assert(text.take(text.len() as int) =~= text);
    if byte_len(text) != bytes && text.len() > 0 {
        lemma_cut_found(text.drop_last(), bytes);
        match cut_at(text.drop_last(), bytes) {
            Some(k) => {
                assert(text.drop_last().take(k) =~= text.take(k));
                if k < text.len() {
                    lemma_byte_len_grows(text, k, text.len() as int);
                }
            },
            None => {},
        }
    }
}

proof fn lemma_cut_in_front(front: Seq<char>, tail: Seq<char>, bytes: nat)
    requires
        bytes <= byte_len(front),
    ensures
        cut_at(front + tail, bytes) == cut_at(front, bytes),
    decreases tail.len(),
{
    if tail.len() == 0 {
        assert(front + tail =~= front);
    } else {
        let whole = front + tail;
        assert(whole.drop_last() =~= front + tail.drop_last());
        assert(whole.take(front.len() as int) =~= front);
        assert(whole.take(whole.len() as int) =~= whole);
        lemma_byte_len_grows(whole, front.len() as int, whole.len() as int);
        lemma_cut_in_front(front, tail.drop_last(), bytes);
    }
}

pub proof fn lemma_cut_of_front(text: Seq<char>, k: int)
    requires
        0 <= k <= text.len(),
    ensures
        cut_at(text, byte_len(text.take(k))) == Some(k),
{
    assert forall|j: int| k < j <= text.len() implies #[trigger] byte_len(text.take(j))
        != byte_len(text.take(k)) by {
        lemma_byte_len_grows(text, k, j);
    }
    lemma_cut_at(text, byte_len(text.take(k)), k);
}

proof fn lemma_replaced_is_spliced(
    front: Seq<char>,
    tail: Seq<char>,
    placements: Seq<Placement>,
    news: Seq<Seq<char>>,
)
    requires
        placed_well(front, placements),
    ensures
        replaced(front + tail, placements, news, 0) == Some(
            spliced(front, placements, news) + tail,
        ),
    decreases placements.len(),
{
    if placements.len() > 0 {
        let p = placements.last();
        let rest = placements.drop_last();
        let new = news[p.edit as int];
        let whole = front + tail;
        let last = placements.len() - 1;
        assert(placements[last] == p);
        let a = cut_at(front, p.index as nat)->0;
        let b = cut_at(front, (p.index + p.length) as nat)->0;
        lemma_cut_found(front, p.index as nat);
        lemma_cut_found(front, (p.index + p.length) as nat);
        lemma_cut_in_front(front, tail, p.index as nat);
        lemma_cut_in_front(front, tail, (p.index + p.length) as nat);
        lemma_byte_len_concat(front, tail);
        assert(end_in(p, 0, whole) == p.index + p.length);
        assert(start_in(p, 0) == p.index);
        let next = front.take(a);
        let after = new + front.skip(b) + tail;
        assert(whole.take(a) + new + whole.skip(b) =~= next + after);
        assert(front =~= next + front.skip(a));
        assert forall|i: int| 0 <= i < rest.len() implies cut_at(
            next,
            (#[trigger] rest[i]).index as nat,
        ) is Some && cut_at(next, (rest[i].index + rest[i].length) as nat) is Some by {
            assert(placements[i].index + placements[i].length <= placements[last].index);
            lemma_cut_in_front(next, front.skip(a), rest[i].index as nat);
            lemma_cut_in_front(next, front.skip(a), (rest[i].index + rest[i].length) as nat);
        }
        assert forall|i: int, j: int| 0 <= i < j < rest.len() implies (#[trigger] rest[i]).index
            + rest[i].length <= (#[trigger] rest[j]).index by {
            assert(placements[i].index + placements[i].length <= placements[j].index);
        }
        lemma_replaced_is_spliced(next, after, rest, news);
        assert(spliced(next, rest, news) + after =~= spliced(front, placements, news) + tail);
    }
}

pub proof fn lemma_no_overlap(placements: Seq<Placement>, from: int)
    requires
        0 <= from,
        first_overlap(placements, from) is None,
    ensures
        forall|i: int|
            from <= i && i + 1 < placements.len() ==> (#[trigger] placements[i]).index
                + placements[i].length <= placements[i + 1].index,
    decreases placements.len() - from,
{
    if from + 1 < placements.len() {
        lemma_no_overlap(placements, from + 1);
    }
}

proof fn lemma_found_where_placed(
    base: Seq<char>,
    fuzzy_base: Seq<char>,
    olds: Seq<Seq<char>>,
    fuzzy_olds: Seq<Seq<char>>,
    path: Seq<char>,
    from: int,
)
    requires
        0 <= from,
        first_placing_problem(base, fuzzy_base, olds, fuzzy_olds, path, from) is None,
    ensures
        forall|i: int|
            from <= i < olds.len() ==> (#[trigger] match_in(
                base,
                olds[i],
                fuzzy_base,
                fuzzy_olds[i],
            )).found,
    decreases olds.len() - from,
{
    if from < olds.len() {
        lemma_found_where_placed(base, fuzzy_base, olds, fuzzy_olds, path, from + 1);
    }
}

proof fn lemma_exact_placements(
    content: Seq<char>,
    olds: Seq<Seq<char>>,
    path: Seq<char>,
    forms: FormsView,
)
    requires
        byte_len(content) <= usize::MAX,
        forms.base == forms.content,
        !some_match_is_fuzzy(content, forms.content, olds, forms.old_texts),
        first_placing_problem(content, forms.base, olds, forms.old_texts, path, 0) is None,
        first_overlap(
            in_order(placements_of(content, forms.base, olds, forms.old_texts)),
            0,
        ) is None,
    ensures
        placed_well(content, in_order(placements_of(content, forms.base, olds, forms.old_texts))),
{
    broadcast use vstd::seq_lib::group_to_multiset_ensures;

    let placements = placements_of(content, forms.base, olds, forms.old_texts);
    let sorted = in_order(placements);
    law_sorting_orders_the_same_items(placements);
    lemma_no_overlap(sorted, 0);
    lemma_found_where_placed(content, forms.base, olds, forms.old_texts, path, 0);
    assert forall|k: int| 0 <= k < placements.len() implies cut_at(
        content,
        (#[trigger] placements[k]).index as nat,
    ) is Some && cut_at(content, (placements[k].index + placements[k].length) as nat) is Some by {
        let m = match_in(content, olds[k], forms.base, forms.old_texts[k]);
        assert(m.found && !m.used_fuzzy_match);
        lemma_first_match(content, olds[k], 0);
        let i = first_match(content, olds[k], 0)->0;
        lemma_match_bytes(content, olds[k], i);
        lemma_cut_of_front(content, i);
        lemma_cut_of_front(content, i + olds[k].len());
    }
    assert forall|i: int| 0 <= i < sorted.len() implies cut_at(
        content,
        (#[trigger] sorted[i]).index as nat,
    ) is Some && cut_at(content, (sorted[i].index + sorted[i].length) as nat) is Some by {
        assert(sorted.contains(sorted[i]));
        assert(sorted.to_multiset().count(sorted[i]) > 0);
        assert(placements.contains(sorted[i]));
        let k = choose|k: int| 0 <= k < placements.len() && placements[k] == sorted[i];
        assert(cut_at(content, placements[k].index as nat) is Some);
    }
    assert forall|i: int, j: int| 0 <= i < j < sorted.len() implies (#[trigger] sorted[i]).index
        + sorted[i].length <= (#[trigger] sorted[j]).index by {
        assert(sorted[i + 1].spec_key() <= sorted[j].spec_key());
    }
}

/// Edits whose texts stand exactly in the content are always made or refused,
/// and where they are made the content between them stays as it is.
pub proof fn law_exact_edits_change_only_their_matches(
    content: Seq<char>,
    olds: Seq<Seq<char>>,
    news: Seq<Seq<char>>,
    path: Seq<char>,
    forms: FormsView,
)
    requires
        byte_len(content) <= usize::MAX,
        forms.base == forms.content,
        !some_match_is_fuzzy(content, forms.content, olds, forms.old_texts),
    ensures
        edit_outcome(content, olds, news, path, forms) is Some,
        edit_outcome(content, olds, news, path, forms) matches Some(Ok(t)) ==> t == spliced(
            content,
            in_order(placements_of(content, forms.base, olds, forms.old_texts)),
            news,
        ),
{
    let sorted = in_order(placements_of(content, forms.base, olds, forms.old_texts));
    if first_empty(olds, 0) is None && first_placing_problem(
        content,
        forms.base,
        olds,
        forms.old_texts,
        path,
        0,
    ) is None && first_overlap(sorted, 0) is None {
        lemma_exact_placements(content, olds, path, forms);
        lemma_replaced_is_spliced(content, Seq::empty(), sorted, news);
        assert(content + Seq::<char>::empty() =~= content);
        assert(spliced(content, sorted, news) + Seq::<char>::empty() =~= spliced(
            content,
            sorted,
            news,
        ));
    }
}

/// An edit whose text stands exactly in the content replaces its first
/// occurrence there and nothing else.
pub proof fn law_one_exact_edit_replaces_its_match(
    content: Seq<char>,
    old: Seq<char>,
    new: Seq<char>,
    path: Seq<char>,
    forms: FormsView,
)
    requires
        byte_len(content) <= usize::MAX,
        forms.base == forms.content,
        first_match(content, old, 0) is Some,
    ensures
        edit_outcome(content, seq![old], seq![new], path, forms) matches Some(Ok(t)) ==> t
            == content.take(first_match(content, old, 0)->0) + new + content.skip(
            first_match(content, old, 0)->0 + old.len(),
        ),
{
    let olds = seq![old];
    let news = seq![new];
    let placements = placements_of(content, forms.base, olds, forms.old_texts);
    let i = first_match(content, old, 0)->0;
    assert(!some_match_is_fuzzy(content, forms.content, olds, forms.old_texts)) by {
        assert forall|k: int| 0 <= k < olds.len() implies !(#[trigger] match_in(
            content,
            olds[k],
            forms.content,
            forms.old_texts[k],
        )).used_fuzzy_match by {
            assert(olds[k] == old);
        }
    }
    law_exact_edits_change_only_their_matches(content, olds, news, path, forms);
    law_sorting_orders_the_same_items(placements);
    lemma_first_match(content, old, 0);
    lemma_match_bytes(content, old, i);
    lemma_cut_of_front(content, i);
    lemma_cut_of_front(content, i + old.len());
    let p = placements[0];
    assert(placements =~= seq![p]);
    assert(placements.drop_first() =~= Seq::<Placement>::empty());
    assert(in_order(Seq::<Placement>::empty()) =~= Seq::<Placement>::empty());
    assert(in_order(placements) =~= seq![p]);
    assert(seq![p].drop_last() =~= Seq::<Placement>::empty());
    assert(spliced(content.take(i), Seq::<Placement>::empty(), news) == content.take(i));
}

/// Where replacements are made in lines, the lines before the first that they
/// touch and the lines after the last stay as they are.
pub proof fn law_untouched_lines_stay(
    original: Seq<char>,
    base: Seq<char>,
    placements: Seq<Placement>,
    news: Seq<Seq<char>>,
)
    requires
        placements.len() > 0,
        replaced_in_lines(original, base, placements, news) is Some,
    ensures
        ({
            let groups = line_groups(lines_of(base), placements, placements.len())->0;
            let t = replaced_in_lines(original, base, placements, news)->0;
            &&& groups.len() > 0
            &&& begins_with(t, concat_all(lines_of(original).take(groups[0].start as int)))
            &&& finishes_with(
                t,
                concat_all(lines_of(original).skip(groups.last().end as int)),
            )
        }),
{
    let olds = lines_of(original);
    let bases = lines_of(base);
    let groups = line_groups(bases, placements, placements.len())->0;
    lemma_groups_exist(bases, placements, placements.len());
    lemma_front_stays(olds, bases, groups, placements, news, groups.len());
    let body = groups_replaced(olds, bases, groups, placements, news, groups.len())->0;
    let front = concat_all(olds.take(groups[0].start as int));
    let tail = concat_all(olds.skip(groups.last().end as int));
    let t = body + tail;
    assert(line_after(groups, groups.len()) == groups.last().end);
    assert(t.take(front.len() as int) =~= body.take(front.len() as int));
    assert(t.skip(t.len() - tail.len()) =~= tail);
}

proof fn lemma_groups_exist(lines: Seq<Seq<char>>, placements: Seq<Placement>, n: nat)
    requires
        n > 0,
        line_groups(lines, placements, n) is Some,
    ensures
        line_groups(lines, placements, n)->0.len() > 0,
{
}

proof fn lemma_front_stays(
    olds: Seq<Seq<char>>,
    bases: Seq<Seq<char>>,
    groups: Seq<LineGroup>,
    placements: Seq<Placement>,
    news: Seq<Seq<char>>,
    n: nat,
)
    requires
        0 < n <= groups.len(),
        groups_replaced(olds, bases, groups, placements, news, n) is Some,
    ensures
        begins_with(
            groups_replaced(olds, bases, groups, placements, news, n)->0,
            concat_all(olds.take(groups[0].start as int)),
        ),
    decreases n,
{
    let front = concat_all(olds.take(groups[0].start as int));
    let t = groups_replaced(olds, bases, groups, placements, news, n)->0;
    if n == 1 {
        assert(groups_replaced(olds, bases, groups, placements, news, 0) == Some(
            Seq::<char>::empty(),
        ));
        assert(olds.subrange(0, groups[0].start as int) =~= olds.take(groups[0].start as int));
        assert(t.take(front.len() as int) =~= front);
    } else {
        lemma_front_stays(olds, bases, groups, placements, news, (n - 1) as nat);
        let before = groups_replaced(olds, bases, groups, placements, news, (n - 1) as nat)->0;
        assert(t.take(front.len() as int) =~= before.take(front.len() as int));
    }
}

} // verus!

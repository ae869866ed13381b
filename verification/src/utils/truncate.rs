//! Truncation of tool output by two independent limits, lines and bytes:
//! whichever is hit first wins. Lines are never cut, but for the last line of
//! an output whose end is kept.

use vstd::prelude::*;

use crate::text::{
    begins_with, byte_len, char_utf8_len, chars_of, concat2, concat3, decimal, decimal_text,
    finishes_with, join, join_texts, law_join_undoes_split, lemma_byte_len_concat,
    lemma_byte_len_push, lemma_split_nonempty, lemma_split_pieces, split, split_text, substring,
    texts, utf8_len,
    wide_decimal_text,
};

verus! {

/// How many lines are kept unless told otherwise.
pub const DEFAULT_MAX_LINES: usize = 2000;

/// How many bytes are kept unless told otherwise.
pub const DEFAULT_MAX_BYTES: usize = 51200;

/// How many characters of a matching line are shown.
pub const GREP_MAX_LINE_LENGTH: usize = 500;

/// The limit that was hit.
#[derive(Clone, Copy, Debug, PartialEq, Eq, Structural)]
pub enum TruncatedBy {
    Lines,
    Bytes,
}

/// What was kept of a content, and of how much.
pub struct TruncationResult {
    pub content: String,
    pub truncated: bool,
    pub truncated_by: Option<TruncatedBy>,
    pub total_lines: usize,
    pub total_bytes: usize,
    pub output_lines: usize,
    pub output_bytes: usize,
    pub last_line_partial: bool,
    pub first_line_exceeds_limit: bool,
    pub max_lines: usize,
    pub max_bytes: usize,
}

/// The mathematical value of a [`TruncationResult`].
pub struct TruncationView {
    pub content: Seq<char>,
    pub truncated: bool,
    pub truncated_by: Option<TruncatedBy>,
    pub total_lines: nat,
    pub total_bytes: nat,
    pub output_lines: nat,
    pub output_bytes: nat,
    pub last_line_partial: bool,
    pub first_line_exceeds_limit: bool,
    pub max_lines: nat,
    pub max_bytes: nat,
}

impl View for TruncationResult {
    type V = TruncationView;

    open spec fn view(&self) -> TruncationView {
        TruncationView {
            content: self.content@,
            truncated: self.truncated,
            truncated_by: self.truncated_by,
            total_lines: self.total_lines as nat,
            total_bytes: self.total_bytes as nat,
            output_lines: self.output_lines as nat,
            output_bytes: self.output_bytes as nat,
            last_line_partial: self.last_line_partial,
            first_line_exceeds_limit: self.first_line_exceeds_limit,
            max_lines: self.max_lines as nat,
            max_bytes: self.max_bytes as nat,
        }
    }
}

impl Clone for TruncationResult {
    fn clone(&self) -> (r: Self)
        ensures
            r == *self,
    {
        TruncationResult {
            content: self.content.clone(),
            truncated: self.truncated,
            truncated_by: self.truncated_by,
            total_lines: self.total_lines,
            total_bytes: self.total_bytes,
            output_lines: self.output_lines,
            output_bytes: self.output_bytes,
            last_line_partial: self.last_line_partial,
            first_line_exceeds_limit: self.first_line_exceeds_limit,
            max_lines: self.max_lines,
            max_bytes: self.max_bytes,
        }
    }
}

/// The limits to apply.
#[derive(Clone, Copy, Debug)]
pub struct TruncationOptions {
    pub max_lines: Option<usize>,
    pub max_bytes: Option<usize>,
}

impl Default for TruncationOptions {
    fn default() -> (r: Self)
        ensures
            r.max_lines is None,
            r.max_bytes is None,
    {
        TruncationOptions { max_lines: None, max_bytes: None }
    }
}

impl TruncationOptions {
    /// The line limit.
    pub open spec fn lines(self) -> nat {
        match self.max_lines {
            Some(n) => n as nat,
            None => DEFAULT_MAX_LINES as nat,
        }
    }

    /// The byte limit.
    pub open spec fn bytes(self) -> nat {
        match self.max_bytes {
            Some(n) => n as nat,
            None => DEFAULT_MAX_BYTES as nat,
        }
    }

    fn line_limit(&self) -> (r: usize)
        ensures
            r == self.lines(),
    {
        match self.max_lines {
            Some(n) => n,
            None => DEFAULT_MAX_LINES,
        }
    }

    fn byte_limit(&self) -> (r: usize)
        ensures
            r == self.bytes(),
    {
        match self.max_bytes {
            Some(n) => n,
            None => DEFAULT_MAX_BYTES,
        }
    }
}

/// The lines of a content as they are counted: a line feed at the end opens no
/// further line.
pub open spec fn counted_lines(content: Seq<char>) -> Seq<Seq<char>> {
    if content.len() == 0 {
        Seq::empty()
    } else if content.last() == '\n' {
        split(content, '\n').drop_last()
    } else {
        split(content, '\n')
    }
}

fn split_lines_for_counting(content: &str) -> (r: Vec<String>)
    ensures
        texts(r@) == counted_lines(content@),
{
    let n: usize = content.unicode_len();
    if n == 0 {
        let none: Vec<String> = Vec::new();
        proof {
            assert(texts(none@) =~= Seq::<Seq<char>>::empty());
        }
        return none;
    }
    let mut lines: Vec<String> = split_text(content, '\n');
    if content.get_char(n - 1) == '\n' {
        let ghost before = lines@;
        lines.pop();
        proof {
            assert(texts(lines@) =~= texts(before).drop_last());
        }
    }
    lines
}

/// A content that is kept whole.
pub open spec fn untruncated_view(content: Seq<char>, max_lines: nat, max_bytes: nat) -> TruncationView {
    TruncationView {
        content,
        truncated: false,
        truncated_by: None,
        total_lines: counted_lines(content).len(),
        total_bytes: byte_len(content),
        output_lines: counted_lines(content).len(),
        output_bytes: byte_len(content),
        last_line_partial: false,
        first_line_exceeds_limit: false,
        max_lines,
        max_bytes,
    }
}

/// The first lines, joined.
pub open spec fn head_text(lines: Seq<Seq<char>>, k: int) -> Seq<char> {
    join(lines.take(k), "\n"@)
}

/// The last lines, joined.
pub open spec fn tail_text(lines: Seq<Seq<char>>, k: int) -> Seq<char> {
    join(lines.skip(lines.len() - k), "\n"@)
}

/// How many of the first lines fit, given that `k` do.
pub open spec fn head_count(lines: Seq<Seq<char>>, max_lines: nat, max_bytes: nat, k: nat) -> nat
    decreases lines.len() - k,
{
    if k < lines.len() && k < max_lines && byte_len(head_text(lines, (k + 1) as int)) <= max_bytes {
        head_count(lines, max_lines, max_bytes, k + 1)
    } else {
        k
    }
}

/// How many of the last lines fit, given that `k` do.
pub open spec fn tail_count(lines: Seq<Seq<char>>, max_lines: nat, max_bytes: nat, k: nat) -> nat
    decreases lines.len() - k,
{
    if k < lines.len() && k < max_lines && byte_len(tail_text(lines, (k + 1) as int)) <= max_bytes {
        tail_count(lines, max_lines, max_bytes, k + 1)
    } else {
        k
    }
}

/// The limit that was hit by a content that is over one of them: the lines
/// where as many are kept as may be and there are more, the bytes otherwise.
pub open spec fn limit_hit(kept: nat, total: nat, max_lines: nat) -> TruncatedBy {
    if kept >= max_lines && total > max_lines {
        TruncatedBy::Lines
    } else {
        TruncatedBy::Bytes
    }
}

/// What is kept of the start of a content.
pub open spec fn head_view(content: Seq<char>, max_lines: nat, max_bytes: nat) -> TruncationView {
    let lines = counted_lines(content);
    let total = lines.len();
    let kept = head_count(lines, max_lines, max_bytes, 0);
    if total <= max_lines && byte_len(content) <= max_bytes {
        untruncated_view(content, max_lines, max_bytes)
    } else if total > 0 && byte_len(lines[0]) > max_bytes {
        TruncationView {
            content: Seq::empty(),
            truncated: true,
            truncated_by: Some(TruncatedBy::Bytes),
            total_lines: total,
            total_bytes: byte_len(content),
            output_lines: 0,
            output_bytes: 0,
            last_line_partial: false,
            first_line_exceeds_limit: true,
            max_lines,
            max_bytes,
        }
    } else {
        TruncationView {
            content: head_text(lines, kept as int),
            truncated: true,
            truncated_by: Some(limit_hit(kept, total, max_lines)),
            total_lines: total,
            total_bytes: byte_len(content),
            output_lines: kept,
            output_bytes: byte_len(head_text(lines, kept as int)),
            last_line_partial: false,
            first_line_exceeds_limit: false,
            max_lines,
            max_bytes,
        }
    }
}

/// Where the longest end of a text starts that fits a number of bytes, looked
/// for from a position on.
pub open spec fn end_start(text: Seq<char>, max_bytes: nat, from: int) -> int
    decreases text.len() - from,
{
    if from < 0 || from >= text.len() || byte_len(text.skip(from)) <= max_bytes {
        from
    } else {
        end_start(text, max_bytes, from + 1)
    }
}

/// The longest end of a text that fits a number of bytes.
pub open spec fn last_bytes(text: Seq<char>, max_bytes: nat) -> Seq<char> {
    text.skip(end_start(text, max_bytes, 0))
}

/// What is kept of the end of a content.
pub open spec fn tail_view(content: Seq<char>, max_lines: nat, max_bytes: nat) -> TruncationView {
    let lines = counted_lines(content);
    let total = lines.len();
    let kept = tail_count(lines, max_lines, max_bytes, 0);
    if total <= max_lines && byte_len(content) <= max_bytes {
        untruncated_view(content, max_lines, max_bytes)
    } else if total > 0 && max_lines > 0 && byte_len(lines.last()) > max_bytes {
        TruncationView {
            content: last_bytes(lines.last(), max_bytes),
            truncated: true,
            truncated_by: Some(TruncatedBy::Bytes),
            total_lines: total,
            total_bytes: byte_len(content),
            output_lines: 1,
            output_bytes: byte_len(last_bytes(lines.last(), max_bytes)),
            last_line_partial: true,
            first_line_exceeds_limit: false,
            max_lines,
            max_bytes,
        }
    } else {
        TruncationView {
            content: tail_text(lines, kept as int),
            truncated: true,
            truncated_by: Some(limit_hit(kept, total, max_lines)),
            total_lines: total,
            total_bytes: byte_len(content),
            output_lines: kept,
            output_bytes: byte_len(tail_text(lines, kept as int)),
            last_line_partial: false,
            first_line_exceeds_limit: false,
            max_lines,
            max_bytes,
        }
    }
}

fn untruncated(content: &str, total: usize, max_lines: usize, max_bytes: usize) -> (r:
    TruncationResult)
    requires
        total == counted_lines(content@).len(),
    ensures
        r@ == untruncated_view(content@, max_lines as nat, max_bytes as nat),
{
    let bytes: usize = utf8_len(content);
    TruncationResult {
        content: content.to_string(),
        truncated: false,
        truncated_by: None,
        total_lines: total,
        total_bytes: bytes,
        output_lines: total,
        output_bytes: bytes,
        last_line_partial: false,
        first_line_exceeds_limit: false,
        max_lines,
        max_bytes,
    }
}

proof fn lemma_head_grows(lines: Seq<Seq<char>>, k: int)
    requires
        0 <= k < lines.len(),
    ensures
        byte_len(head_text(lines, k + 1)) == byte_len(head_text(lines, k)) + byte_len(lines[k]) + (
        if k > 0 {
            1nat
        } else {
            0nat
        }),
{
    reveal_strlit("\n");
    let longer = lines.take(k + 1);
    assert(longer.drop_last() =~= lines.take(k));
    assert(longer.last() == lines[k]);
    lemma_one_byte();
    if k > 0 {
        lemma_byte_len_concat(head_text(lines, k) + "\n"@, lines[k]);
        lemma_byte_len_concat(head_text(lines, k), "\n"@);
    } else {
        assert(lines.take(0) =~= Seq::<Seq<char>>::empty());
        assert(longer[0] == lines[0]);
    }
}

proof fn lemma_one_byte()
    ensures
        byte_len("\n"@) == 1,
{
    reveal_strlit("\n");
    assert("\n"@ =~= Seq::<char>::empty().push('\n'));
    lemma_byte_len_push(Seq::empty(), '\n');
}

proof fn lemma_tail_grows(lines: Seq<Seq<char>>, k: int)
    requires
        0 <= k < lines.len(),
    ensures
        byte_len(tail_text(lines, k + 1)) == byte_len(tail_text(lines, k)) + byte_len(
            lines[lines.len() - k - 1],
        ) + (if k > 0 {
            1nat
        } else {
            0nat
        }),
{
    let longer = lines.skip(lines.len() - k - 1);
    let line = lines[lines.len() - k - 1];
    lemma_one_byte();
    assert(longer[0] == line);
    if k > 0 {
        lemma_join_parts(longer, "\n"@, 1);
        assert(longer.take(1) =~= seq![line]);
        assert(join(seq![line], "\n"@) == line);
        assert(longer.skip(1) =~= lines.skip(lines.len() - k));
        lemma_byte_len_concat(line + "\n"@, tail_text(lines, k));
        lemma_byte_len_concat(line, "\n"@);
    } else {
        assert(lines.skip(lines.len() as int) =~= Seq::<Seq<char>>::empty());
        assert(longer =~= seq![line]);
    }
}

/// Keeps the start of a content: as many whole lines as fit both limits.
pub fn truncate_head(content: &str, options: TruncationOptions) -> (r: TruncationResult)
    ensures
        r@ == head_view(content@, options.lines(), options.bytes()),
{
    let max_lines: usize = options.line_limit();
    let max_bytes: usize = options.byte_limit();
    let total_bytes: usize = utf8_len(content);
    let lines: Vec<String> = split_lines_for_counting(content);
    let ghost views = counted_lines(content@);
    let total: usize = lines.len();
    proof {
        assert(total == views.len());
    }
    if total <= max_lines && total_bytes <= max_bytes {
        return untruncated(content, total, max_lines, max_bytes);
    }
    if total > 0 && utf8_len(lines[0].as_str()) > max_bytes {
        proof {
            assert(views[0] == lines@[0]@);
        }
        let none: String = String::new();
        proof {
            assert(none@ =~= Seq::<char>::empty());
        }
        return TruncationResult {
            content: none,
            truncated: true,
            truncated_by: Some(TruncatedBy::Bytes),
            total_lines: total,
            total_bytes,
            output_lines: 0,
            output_bytes: 0,
            last_line_partial: false,
            first_line_exceeds_limit: true,
            max_lines,
            max_bytes,
        };
    }
    let mut kept: usize = 0;
    let mut used: usize = 0;
    let mut full: bool = false;
    proof {
        assert(views.take(0) =~= Seq::<Seq<char>>::empty());
        if total > 0 {
            assert(views[0] == lines@[0]@);
        }
    }
    while !full && kept < total && kept < max_lines
        invariant
            kept <= total == lines@.len() == views.len(),
            texts(lines@) == views,
            used <= max_bytes,
            used == byte_len(head_text(views, kept as int)),
            head_count(views, max_lines as nat, max_bytes as nat, 0) == head_count(
                views,
                max_lines as nat,
                max_bytes as nat,
                kept as nat,
            ),
            full ==> kept < total && kept < max_lines && byte_len(
                head_text(views, kept + 1),
            ) > max_bytes,
        decreases
                total - kept + if full {
                    0int
                } else {
                    1int
                },
    {
        let line: usize = utf8_len(lines[kept].as_str());
        let feed: usize = if kept > 0 {
            1
        } else {
            0
        };
        let left: usize = max_bytes - used;
        proof {
            assert(views[kept as int] == lines@[kept as int]@);
            lemma_head_grows(views, kept as int);
        }
        if feed > left || line > left - feed {
            full = true;
        } else {
            used = used + feed + line;
            kept = kept + 1;
        }
    }
    proof {
        assert(head_count(views, max_lines as nat, max_bytes as nat, kept as nat) == kept);
    }
    let shown: &[String] = vstd::slice::slice_subrange(lines.as_slice(), 0, kept);
    proof {
        assert(texts(shown@) =~= views.take(kept as int));
    }
    let content_kept: String = join_texts(shown, "\n");
    let truncated_by: TruncatedBy = if kept >= max_lines && total > max_lines {
        TruncatedBy::Lines
    } else {
        TruncatedBy::Bytes
    };
    let output_bytes: usize = utf8_len(content_kept.as_str());
    TruncationResult {
        content: content_kept,
        truncated: true,
        truncated_by: Some(truncated_by),
        total_lines: total,
        total_bytes,
        output_lines: kept,
        output_bytes,
        last_line_partial: false,
        first_line_exceeds_limit: false,
        max_lines,
        max_bytes,
    }
}

/// The longest end of a text that fits a number of bytes.
pub(crate) fn truncate_string_to_bytes_from_end(text: &str, max_bytes: usize) -> (r: String)
    ensures
        r@ == last_bytes(text@, max_bytes as nat),
{
    let chars: Vec<char> = chars_of(text);
    let n: usize = chars.len();
    let mut start: usize = n;
    let mut used: usize = 0;
    let mut full: bool = false;
    proof {
        assert(text@.skip(n as int) =~= Seq::<char>::empty());
    }
    while !full && start > 0
        invariant
            start <= n == chars@.len(),
            chars@ == text@,
            used <= max_bytes,
            used == byte_len(text@.skip(start as int)),
            full ==> start > 0 && byte_len(text@.skip(start - 1)) > max_bytes,
        decreases
                start + if full {
                    0int
                } else {
                    1int
                },
    {
        let width: usize = char_utf8_len(chars[start - 1]);
        proof {
            let one = seq![text@[start - 1]];
            assert(text@.skip(start - 1) =~= one + text@.skip(start as int));
            lemma_byte_len_concat(one, text@.skip(start as int));
            assert(one =~= Seq::<char>::empty().push(text@[start - 1]));
            lemma_byte_len_push(Seq::empty(), text@[start - 1]);
        }
        if width > max_bytes - used {
            full = true;
        } else {
            used = used + width;
            start = start - 1;
        }
    }
    proof {
        lemma_end_start(text@, max_bytes as nat, 0, start as int);
        assert(text@.subrange(start as int, n as int) =~= text@.skip(start as int));
    }
    substring(text, start, n)
}

proof fn lemma_end_start(text: Seq<char>, max_bytes: nat, from: int, start: int)
    requires
        0 <= from <= start <= text.len(),
        byte_len(text.skip(start)) <= max_bytes,
        start > 0 ==> byte_len(text.skip(start - 1)) > max_bytes,
    ensures
        end_start(text, max_bytes, from) == start,
    decreases start - from,
{
    if from < start {
        lemma_skip_shrinks(text, from, start - 1);
        lemma_end_start(text, max_bytes, from + 1, start);
    }
}

proof fn lemma_skip_shrinks(text: Seq<char>, i: int, j: int)
    requires
        0 <= i <= j <= text.len(),
    ensures
        byte_len(text.skip(j)) <= byte_len(text.skip(i)),
{
    assert(text.skip(i) =~= text.subrange(i, j) + text.skip(j));
    lemma_byte_len_concat(text.subrange(i, j), text.skip(j));
}

/// Keeps the end of a content: as many whole lines as fit both limits, or the
/// end of the last line where that line alone is too long.
pub fn truncate_tail(content: &str, options: TruncationOptions) -> (r: TruncationResult)
    ensures
        r@ == tail_view(content@, options.lines(), options.bytes()),
{
    let max_lines: usize = options.line_limit();
    let max_bytes: usize = options.byte_limit();
    let total_bytes: usize = utf8_len(content);
    let lines: Vec<String> = split_lines_for_counting(content);
    let ghost views = counted_lines(content@);
    let total: usize = lines.len();
    proof {
        assert(total == views.len());
    }
    if total <= max_lines && total_bytes <= max_bytes {
        return untruncated(content, total, max_lines, max_bytes);
    }
    proof {
        if total > 0 {
            assert(views[total - 1] == lines@[total - 1]@);
        }
    }
    if total > 0 && max_lines > 0 && utf8_len(lines[total - 1].as_str()) > max_bytes {
        let end: String = truncate_string_to_bytes_from_end(lines[total - 1].as_str(), max_bytes);
        let output_bytes: usize = utf8_len(end.as_str());
        return TruncationResult {
            content: end,
            truncated: true,
            truncated_by: Some(TruncatedBy::Bytes),
            total_lines: total,
            total_bytes,
            output_lines: 1,
            output_bytes,
            last_line_partial: true,
            first_line_exceeds_limit: false,
            max_lines,
            max_bytes,
        };
    }
    let mut kept: usize = 0;
    let mut used: usize = 0;
    let mut full: bool = false;
    proof {
        assert(views.skip(views.len() as int) =~= Seq::<Seq<char>>::empty());
    }
    while !full && kept < total && kept < max_lines
        invariant
            kept <= total == lines@.len() == views.len(),
            texts(lines@) == views,
            used <= max_bytes,
            used == byte_len(tail_text(views, kept as int)),
            tail_count(views, max_lines as nat, max_bytes as nat, 0) == tail_count(
                views,
                max_lines as nat,
                max_bytes as nat,
                kept as nat,
            ),
            full ==> kept < total && kept < max_lines && byte_len(
                tail_text(views, kept + 1),
            ) > max_bytes,
        decreases
                total - kept + if full {
                    0int
                } else {
                    1int
                },
    {
        let line: usize = utf8_len(lines[total - kept - 1].as_str());
        let feed: usize = if kept > 0 {
            1
        } else {
            0
        };
        let left: usize = max_bytes - used;
        proof {
            assert(views[total - kept - 1] == lines@[total - kept - 1]@);
            lemma_tail_grows(views, kept as int);
        }
        if feed > left || line > left - feed {
            full = true;
        } else {
            used = used + feed + line;
            kept = kept + 1;
        }
    }
    proof {
        assert(tail_count(views, max_lines as nat, max_bytes as nat, kept as nat) == kept);
    }
    let shown: &[String] = vstd::slice::slice_subrange(lines.as_slice(), total - kept, total);
    proof {
        assert(texts(shown@) =~= views.skip(views.len() - kept));
    }
    let content_kept: String = join_texts(shown, "\n");
    let truncated_by: TruncatedBy = if kept >= max_lines && total > max_lines {
        TruncatedBy::Lines
    } else {
        TruncatedBy::Bytes
    };
    let output_bytes: usize = utf8_len(content_kept.as_str());
    TruncationResult {
        content: content_kept,
        truncated: true,
        truncated_by: Some(truncated_by),
        total_lines: total,
        total_bytes,
        output_lines: kept,
        output_bytes,
        last_line_partial: false,
        first_line_exceeds_limit: false,
        max_lines,
        max_bytes,
    }
}

/// A line cut to a number of characters, and whether it was cut.
pub open spec fn short_line(line: Seq<char>, max_chars: nat) -> (Seq<char>, bool) {
    if line.len() <= max_chars {
        (line, false)
    } else {
        (line.take(max_chars as int) + "... [truncated]"@, true)
    }
}

/// A line cut to a number of characters, and whether it was cut.
pub fn truncate_line(line: &str, max_chars: usize) -> (r: (String, bool))
    ensures
        (r.0@, r.1) == short_line(line@, max_chars as nat),
{
    if line.unicode_len() <= max_chars {
        (line.to_string(), false)
    } else {
        let front: String = substring(line, 0, max_chars);
        proof {
            assert(line@.subrange(0, max_chars as int) =~= line@.take(max_chars as int));
        }
        (concat2(front.as_str(), "... [truncated]"), true)
    }
}

/// A line cut to the usual number of characters, and whether it was cut.
pub fn truncate_line_default(line: &str) -> (r: (String, bool))
    ensures
        (r.0@, r.1) == short_line(line@, GREP_MAX_LINE_LENGTH as nat),
{
    truncate_line(line, GREP_MAX_LINE_LENGTH)
}

// ---------------------------------------------------------------------------
// Sizes
// ---------------------------------------------------------------------------

/// The spacing of doubles at a number.
pub open spec fn double_spacing(n: nat) -> nat
    decreases n,
{
    if n < 0x20_0000_0000_0000 {
        1
    } else {
        2 * double_spacing(n / 2)
    }
}

/// A quotient rounded to the nearest integer, ties to the even one.
pub open spec fn rounded(n: nat, d: nat) -> nat {
    let q = n / d;
    let r = n % d;
    if 2 * r > d || (2 * r == d && q % 2 == 1) {
        q + 1
    } else {
        q
    }
}

/// The double nearest to a number.
pub open spec fn nearest_double(n: nat) -> nat {
    rounded(n, double_spacing(n)) * double_spacing(n)
}

/// A number of tenths with one decimal place.
pub open spec fn one_decimal(tenths: nat) -> Seq<char> {
    decimal(tenths / 10) + "."@ + decimal(tenths % 10)
}

/// A number of bytes for people to read: bytes, or kilobytes or megabytes with
/// one decimal place.
pub open spec fn size_text(bytes: nat) -> Seq<char> {
    if bytes < 1024 {
        decimal(bytes) + "B"@
    } else if bytes < 1048576 {
        one_decimal(rounded(bytes * 10, 1024)) + "KB"@
    } else {
        one_decimal(rounded(nearest_double(bytes) * 10, 1048576)) + "MB"@
    }
}

fn spacing_of(n: u128) -> (r: u128)
    ensures
        r == double_spacing(n as nat),
        r == 1 || r * 0x10_0000_0000_0000 <= n,
        r >= 1,
    decreases n,
{
    if n < 0x20_0000_0000_0000 {
        1
    } else {
        let half: u128 = spacing_of(n / 2);
        2 * half
    }
}

fn round_quotient(n: u128, d: u128) -> (r: u128)
    requires
        0 < d < 0x1_0000_0000_0000_0000,
        n < 0x1_0000_0000_0000_0000_0000_0000,
    ensures
        r == rounded(n as nat, d as nat),
        r <= n + 1,
{
    let q: u128 = n / d;
    let rest: u128 = n % d;
    proof {
        assert(q <= n) by (nonlinear_arith)
            requires
                q == n / d,
                d > 0,
        ;
    }
    if 2 * rest > d || (2 * rest == d && q % 2 == 1) {
        q + 1
    } else {
        q
    }
}

fn one_decimal_text(tenths: u128) -> (r: String)
    ensures
        r@ == one_decimal(tenths as nat),
{
    concat3(
        wide_decimal_text(tenths / 10).as_str(),
        ".",
        wide_decimal_text(tenths % 10).as_str(),
    )
}

/// A number of bytes for people to read: bytes, or kilobytes or megabytes with
/// one decimal place.
pub fn format_size(bytes: u64) -> (r: String)
    ensures
        r@ == size_text(bytes as nat),
{
    let wide: u128 = bytes as u128;
    if bytes < 1024 {
        concat2(decimal_text(bytes).as_str(), "B")
    } else if bytes < 1048576 {
        concat2(one_decimal_text(round_quotient(wide * 10, 1024)).as_str(), "KB")
    } else {
        let spacing: u128 = spacing_of(wide);
        let steps: u128 = round_quotient(wide, spacing);
        proof {
            assert(steps * spacing <= wide + spacing) by (nonlinear_arith)
                requires
                    spacing >= 1,
                    steps <= wide / spacing + 1,
            ;
        }
        let nearest: u128 = steps * spacing;
        concat2(one_decimal_text(round_quotient(nearest * 10, 1048576)).as_str(), "MB")
    }
}

// ---------------------------------------------------------------------------
// What truncation promises
// ---------------------------------------------------------------------------

proof fn lemma_head_fits(lines: Seq<Seq<char>>, max_lines: nat, max_bytes: nat, k: nat)
    requires
        k <= lines.len(),
        k <= max_lines,
        byte_len(head_text(lines, k as int)) <= max_bytes,
    ensures
        k <= head_count(lines, max_lines, max_bytes, k) <= lines.len(),
        head_count(lines, max_lines, max_bytes, k) <= max_lines,
        byte_len(
            head_text(lines, head_count(lines, max_lines, max_bytes, k) as int),
        ) <= max_bytes,
    decreases lines.len() - k,
{
    if k < lines.len() && k < max_lines && byte_len(head_text(lines, (k + 1) as int))
        <= max_bytes {
        lemma_head_fits(lines, max_lines, max_bytes, k + 1);
    }
}

proof fn lemma_tail_fits(lines: Seq<Seq<char>>, max_lines: nat, max_bytes: nat, k: nat)
    requires
        k <= lines.len(),
        k <= max_lines,
        byte_len(tail_text(lines, k as int)) <= max_bytes,
    ensures
        k <= tail_count(lines, max_lines, max_bytes, k) <= lines.len(),
        tail_count(lines, max_lines, max_bytes, k) <= max_lines,
        byte_len(
            tail_text(lines, tail_count(lines, max_lines, max_bytes, k) as int),
        ) <= max_bytes,
    decreases lines.len() - k,
{
    if k < lines.len() && k < max_lines && byte_len(tail_text(lines, (k + 1) as int))
        <= max_bytes {
        lemma_tail_fits(lines, max_lines, max_bytes, k + 1);
    }
}

/// The longest end of a text that fits fits, and starts inside the text.
pub proof fn lemma_last_bytes(text: Seq<char>, max_bytes: nat, from: int)
    requires
        0 <= from <= text.len(),
    ensures
        from <= end_start(text, max_bytes, from) <= text.len(),
        byte_len(text.skip(end_start(text, max_bytes, from))) <= max_bytes,
        end_start(text, max_bytes, from) > from ==> byte_len(
            text.skip(end_start(text, max_bytes, from) - 1),
        ) > max_bytes,
    decreases text.len() - from,
{
    if from == text.len() {
        assert(text.skip(from) =~= Seq::<char>::empty());
    } else if byte_len(text.skip(from)) > max_bytes {
        lemma_last_bytes(text, max_bytes, from + 1);
    }
}

/// Truncation keeps no more lines and bytes than allowed, whichever end of the
/// content it keeps.
pub proof fn law_truncation_respects_both_limits(
    content: Seq<char>,
    max_lines: nat,
    max_bytes: nat,
)
    ensures
        head_view(content, max_lines, max_bytes).output_lines <= max_lines,
        byte_len(head_view(content, max_lines, max_bytes).content) <= max_bytes,
        tail_view(content, max_lines, max_bytes).output_lines <= max_lines,
        byte_len(tail_view(content, max_lines, max_bytes).content) <= max_bytes,
{
    let lines = counted_lines(content);
    assert(lines.take(0) =~= Seq::<Seq<char>>::empty());
    assert(lines.skip(lines.len() as int) =~= Seq::<Seq<char>>::empty());
    lemma_head_fits(lines, max_lines, max_bytes, 0);
    lemma_tail_fits(lines, max_lines, max_bytes, 0);
    if lines.len() > 0 {
        lemma_last_bytes(lines.last(), max_bytes, 0);
    }
}

proof fn lemma_join_parts(parts: Seq<Seq<char>>, sep: Seq<char>, k: int)
    requires
        0 < k < parts.len(),
    ensures
        join(parts, sep) == join(parts.take(k), sep) + sep + join(parts.skip(k), sep),
    decreases parts.len(),
{
    if k == parts.len() - 1 {
        assert(parts.take(k) =~= parts.drop_last());
        assert(parts.skip(k) =~= seq![parts.last()]);
    } else {
        let shorter = parts.drop_last();
        lemma_join_parts(shorter, sep, k);
        assert(shorter.take(k) =~= parts.take(k));
        assert(shorter.skip(k) =~= parts.skip(k).drop_last());
    }
    assert(join(parts, sep) =~= join(parts.take(k), sep) + sep + join(parts.skip(k), sep));
}

/// A content without the line feed at its end.
pub open spec fn without_last_feed(content: Seq<char>) -> Seq<char> {
    if content.len() > 0 && content.last() == '\n' {
        content.drop_last()
    } else {
        content
    }
}

proof fn lemma_counted_lines_joined(content: Seq<char>)
    ensures
        join(counted_lines(content), "\n"@) == without_last_feed(content),
{
    reveal_strlit("\n");
    if content.len() > 0 {
        let pieces = split(content, '\n');
        law_join_undoes_split(content, '\n');
        assert(seq!['\n'] =~= "\n"@);
        if content.last() == '\n' {
            lemma_split_nonempty(content.drop_last(), '\n');
            assert(pieces.drop_last() =~= split(content.drop_last(), '\n'));
            law_join_undoes_split(content.drop_last(), '\n');
        }
    }
}

proof fn lemma_head_is_front(lines: Seq<Seq<char>>, k: int)
    requires
        0 <= k <= lines.len(),
    ensures
        begins_with(join(lines, "\n"@), head_text(lines, k)),
{
    let whole = join(lines, "\n"@);
    let head = head_text(lines, k);
    if k == 0 {
        assert(lines.take(0) =~= Seq::<Seq<char>>::empty());
    } else if k < lines.len() {
        lemma_join_parts(lines, "\n"@, k);
    } else {
        assert(lines.take(k) =~= lines);
    }
    assert(whole.subrange(0, head.len() as int) =~= head);
}

proof fn lemma_tail_is_end(lines: Seq<Seq<char>>, k: int)
    requires
        0 <= k <= lines.len(),
    ensures
        finishes_with(join(lines, "\n"@), tail_text(lines, k)),
{
    let whole = join(lines, "\n"@);
    let tail = tail_text(lines, k);
    if k == 0 {
        assert(lines.skip(lines.len() as int) =~= Seq::<Seq<char>>::empty());
    } else if k < lines.len() {
        lemma_join_parts(lines, "\n"@, lines.len() - k);
    } else {
        assert(lines.skip(0) =~= lines);
    }
    assert(whole.subrange(whole.len() - tail.len(), whole.len() as int) =~= tail);
}

/// Truncation keeps whole lines only. The one exception is the end of a content
/// whose last line alone takes too many bytes; where the first line alone does,
/// nothing of the start is kept.
pub proof fn law_only_whole_lines_are_kept(content: Seq<char>, max_lines: nat, max_bytes: nat)
    ensures
        ({
            let lines = counted_lines(content);
            let head = head_view(content, max_lines, max_bytes);
            let tail = tail_view(content, max_lines, max_bytes);
            &&& head.truncated ==> head.output_lines <= lines.len() && head.content == join(
                lines.take(head.output_lines as int),
                "\n"@,
            )
            &&& !head.truncated ==> head.content == content
            &&& head.first_line_exceeds_limit ==> head.content.len() == 0 && byte_len(lines[0])
                > max_bytes
            &&& tail.truncated && !tail.last_line_partial ==> tail.output_lines <= lines.len()
                && tail.content == join(lines.skip(lines.len() - tail.output_lines), "\n"@)
            &&& tail.last_line_partial ==> byte_len(lines.last()) > max_bytes && finishes_with(
                lines.last(),
                tail.content,
            )
        }),
{
    let lines = counted_lines(content);
    assert(lines.take(0) =~= Seq::<Seq<char>>::empty());
    assert(lines.skip(lines.len() as int) =~= Seq::<Seq<char>>::empty());
    lemma_head_fits(lines, max_lines, max_bytes, 0);
    lemma_tail_fits(lines, max_lines, max_bytes, 0);
    if lines.len() > 0 {
        let last = lines.last();
        lemma_last_bytes(last, max_bytes, 0);
        let kept = last_bytes(last, max_bytes);
        assert(last.subrange(last.len() - kept.len(), last.len() as int) =~= kept);
    }
}

/// What is kept of the start of a content is how the content begins.
pub proof fn law_heads_begin_the_content(content: Seq<char>, max_lines: nat, max_bytes: nat)
    ensures
        begins_with(content, head_view(content, max_lines, max_bytes).content),
{
    let lines = counted_lines(content);
    let body = without_last_feed(content);
    let head = head_view(content, max_lines, max_bytes).content;
    lemma_counted_lines_joined(content);
    assert(lines.take(0) =~= Seq::<Seq<char>>::empty());
    lemma_head_fits(lines, max_lines, max_bytes, 0);
    let k = head_count(lines, max_lines, max_bytes, 0) as int;
    lemma_head_is_front(lines, k);
    if head == head_text(lines, k) {
        assert(content.subrange(0, head.len() as int) =~= body.subrange(0, head.len() as int));
    } else {
        assert(content.subrange(0, head.len() as int) =~= head);
    }
}

/// What is kept of the end of a content that is too long is how the content
/// ends, but for the line feed at its end.
pub proof fn law_tails_end_the_content(content: Seq<char>, max_lines: nat, max_bytes: nat)
    ensures
        tail_view(content, max_lines, max_bytes).truncated ==> finishes_with(
            without_last_feed(content),
            tail_view(content, max_lines, max_bytes).content,
        ),
        !tail_view(content, max_lines, max_bytes).truncated ==> tail_view(
            content,
            max_lines,
            max_bytes,
        ).content == content,
{
    let lines = counted_lines(content);
    let body = without_last_feed(content);
    let tail = tail_view(content, max_lines, max_bytes).content;
    lemma_counted_lines_joined(content);
    assert(lines.skip(lines.len() as int) =~= Seq::<Seq<char>>::empty());
    lemma_tail_fits(lines, max_lines, max_bytes, 0);
    if tail_view(content, max_lines, max_bytes).truncated {
        if lines.len() > 0 && max_lines > 0 && byte_len(lines.last()) > max_bytes {
            let last = lines.last();
            lemma_last_bytes(last, max_bytes, 0);
            lemma_tail_is_end(lines, 1);
            assert(lines.skip(lines.len() - 1) =~= seq![last]);
            assert(tail_text(lines, 1) == last);
            let start = body.len() - tail.len();
            assert forall|i: int| 0 <= i < tail.len() implies body[start + i] == tail[i] by {
                let j = i + last.len() - tail.len();
                assert(body.subrange(body.len() - last.len(), body.len() as int)[j] == last[j]);
            }
            assert(body.subrange(start, body.len() as int) =~= tail);
        } else {
            lemma_tail_is_end(lines, tail_count(lines, max_lines, max_bytes, 0) as int);
        }
    }
}

proof fn lemma_head_stops(lines: Seq<Seq<char>>, max_lines: nat, max_bytes: nat, k: nat)
    requires
        k <= lines.len(),
    ensures
        ({
            let kept = head_count(lines, max_lines, max_bytes, k);
            kept < lines.len() && kept < max_lines ==> byte_len(head_text(lines, (kept + 1) as int))
                > max_bytes
        }),
    decreases lines.len() - k,
{
    if k < lines.len() && k < max_lines && byte_len(head_text(lines, (k + 1) as int))
        <= max_bytes {
        lemma_head_stops(lines, max_lines, max_bytes, k + 1);
    }
}

proof fn lemma_tail_stops(lines: Seq<Seq<char>>, max_lines: nat, max_bytes: nat, k: nat)
    requires
        k <= lines.len(),
    ensures
        ({
            let kept = tail_count(lines, max_lines, max_bytes, k);
            kept < lines.len() && kept < max_lines ==> byte_len(tail_text(lines, (kept + 1) as int))
                > max_bytes
        }),
    decreases lines.len() - k,
{
    if k < lines.len() && k < max_lines && byte_len(tail_text(lines, (k + 1) as int))
        <= max_bytes {
        lemma_tail_stops(lines, max_lines, max_bytes, k + 1);
    }
}

proof fn lemma_longer_than_its_front(content: Seq<char>, front: Seq<char>)
    requires
        begins_with(without_last_feed(content), front),
    ensures
        byte_len(front) <= byte_len(content),
{
    let rest = content.skip(front.len() as int);
    assert(content =~= front + rest) by {
        assert(without_last_feed(content).subrange(0, front.len() as int) == front);
        assert(content.subrange(0, front.len() as int) =~= without_last_feed(content).subrange(
            0,
            front.len() as int,
        ));
    }
    lemma_byte_len_concat(front, rest);
}

proof fn lemma_longer_than_its_end(content: Seq<char>, end: Seq<char>)
    requires
        finishes_with(without_last_feed(content), end),
    ensures
        byte_len(end) <= byte_len(content),
{
    let body = without_last_feed(content);
    let front = body.take(body.len() - end.len());
    let feed = content.skip(body.len() as int);
    assert(body =~= front + end) by {
        assert(body.subrange(body.len() - end.len(), body.len() as int) == end);
        assert(body.skip(body.len() - end.len()) =~= end);
    }
    assert(content =~= body + feed);
    lemma_byte_len_concat(body, feed);
    lemma_byte_len_concat(front, end);
}

/// A limit is named where a content is truncated and nowhere else, and the limit
/// that is named is one that the content is over.
pub proof fn law_the_limit_that_was_hit_is_named(
    content: Seq<char>,
    max_lines: nat,
    max_bytes: nat,
)
    ensures
        ({
            let head = head_view(content, max_lines, max_bytes);
            let tail = tail_view(content, max_lines, max_bytes);
            let total = counted_lines(content).len();
            &&& head.truncated == head.truncated_by is Some
            &&& tail.truncated == tail.truncated_by is Some
            &&& head.truncated_by == Some(TruncatedBy::Lines) ==> total > max_lines
            &&& tail.truncated_by == Some(TruncatedBy::Lines) ==> total > max_lines
            &&& head.truncated_by == Some(TruncatedBy::Bytes) ==> byte_len(content) > max_bytes
            &&& tail.truncated_by == Some(TruncatedBy::Bytes) ==> byte_len(content) > max_bytes
        }),
{
    let lines = counted_lines(content);
    lemma_counted_lines_joined(content);
    assert(lines.take(0) =~= Seq::<Seq<char>>::empty());
    assert(lines.skip(lines.len() as int) =~= Seq::<Seq<char>>::empty());
    lemma_head_fits(lines, max_lines, max_bytes, 0);
    lemma_tail_fits(lines, max_lines, max_bytes, 0);
    lemma_head_stops(lines, max_lines, max_bytes, 0);
    lemma_tail_stops(lines, max_lines, max_bytes, 0);
    let head_kept = head_count(lines, max_lines, max_bytes, 0) as int;
    let tail_kept = tail_count(lines, max_lines, max_bytes, 0) as int;
    if head_kept < lines.len() {
        lemma_head_is_front(lines, head_kept + 1);
        lemma_longer_than_its_front(content, head_text(lines, head_kept + 1));
    }
    if tail_kept < lines.len() {
        lemma_tail_is_end(lines, tail_kept + 1);
        lemma_longer_than_its_end(content, tail_text(lines, tail_kept + 1));
    }
    if lines.len() > 0 {
        lemma_head_is_front(lines, 1);
        assert(lines.take(1) =~= seq![lines[0]]);
        assert(head_text(lines, 1) == lines[0]);
        lemma_longer_than_its_front(content, lines[0]);
        lemma_tail_is_end(lines, 1);
        assert(lines.skip(lines.len() - 1) =~= seq![lines.last()]);
        assert(tail_text(lines, 1) == lines.last());
        lemma_longer_than_its_end(content, lines.last());
    }
}

/// The lines of a content are its pieces between line feeds; a line feed at its
/// end opens no further line.
pub proof fn law_lines_are_counted(content: Seq<char>)
    ensures
        join(counted_lines(content), "\n"@) == without_last_feed(content),
        counted_lines(content).len() == 0 <==> content.len() == 0,
        forall|i: int|
            0 <= i < counted_lines(content).len() ==> !(#[trigger] counted_lines(
                content,
            )[i]).contains('\n'),
{
    lemma_counted_lines_joined(content);
    lemma_split_pieces(content, '\n');
    if content.len() > 0 {
        lemma_split_nonempty(content, '\n');
        lemma_split_nonempty(content.drop_last(), '\n');
    }
}

/// A content is truncated exactly where it is over a limit, and then as much of
/// it is kept as both limits let: with one line more it would be over one. Where
/// the line at the end that is kept is too long itself, nothing of it is kept at
/// the start, and as much of its end as fits at the end.
pub proof fn law_as_much_is_kept_as_fits(content: Seq<char>, max_lines: nat, max_bytes: nat)
    ensures
        ({
            let lines = counted_lines(content);
            let over = lines.len() > max_lines || byte_len(content) > max_bytes;
            let head = head_view(content, max_lines, max_bytes);
            let tail = tail_view(content, max_lines, max_bytes);
            &&& head.truncated == over
            &&& tail.truncated == over
            &&& head.first_line_exceeds_limit == (over && lines.len() > 0 && byte_len(lines[0])
                > max_bytes)
            &&& tail.last_line_partial == (over && lines.len() > 0 && max_lines > 0 && byte_len(
                lines.last(),
            ) > max_bytes)
            &&& over && head.output_lines < lines.len() ==> head.output_lines == max_lines
                || byte_len(join(lines.take(head.output_lines as int + 1), "\n"@)) > max_bytes
            &&& over && !tail.last_line_partial && tail.output_lines < lines.len()
                ==> tail.output_lines == max_lines || byte_len(
                join(lines.skip(lines.len() - tail.output_lines - 1), "\n"@),
            ) > max_bytes
            &&& tail.last_line_partial ==> {
                let last = lines.last();
                let n = tail.content.len();
                &&& n < last.len()
                &&& tail.content == last.skip(last.len() - n)
                &&& byte_len(last.skip(last.len() - n - 1)) > max_bytes
            }
        }),
{
    let lines = counted_lines(content);
    assert(lines.take(0) =~= Seq::<Seq<char>>::empty());
    assert(lines.skip(lines.len() as int) =~= Seq::<Seq<char>>::empty());
    lemma_head_fits(lines, max_lines, max_bytes, 0);
    lemma_tail_fits(lines, max_lines, max_bytes, 0);
    lemma_head_stops(lines, max_lines, max_bytes, 0);
    lemma_tail_stops(lines, max_lines, max_bytes, 0);
    if lines.len() > 0 {
        let last = lines.last();
        lemma_last_bytes(last, max_bytes, 0);
        assert(lines.take(1) =~= seq![lines[0]]);
        assert(last.skip(0) =~= last);
    }
}

/// What is told of a truncation: how much there was, how much is kept, and the
/// limits.
pub proof fn law_truncations_count(content: Seq<char>, max_lines: nat, max_bytes: nat)
    ensures
        ({
            let head = head_view(content, max_lines, max_bytes);
            let tail = tail_view(content, max_lines, max_bytes);
            &&& head.total_lines == counted_lines(content).len() == tail.total_lines
            &&& head.total_bytes == byte_len(content) == tail.total_bytes
            &&& head.output_bytes == byte_len(head.content)
            &&& tail.output_bytes == byte_len(tail.content)
            &&& head.max_lines == max_lines == tail.max_lines
            &&& head.max_bytes == max_bytes == tail.max_bytes
            &&& !head.last_line_partial
            &&& !tail.first_line_exceeds_limit
            &&& !head.truncated ==> head.output_lines == head.total_lines
            &&& !tail.truncated ==> tail.output_lines == tail.total_lines
            &&& tail.last_line_partial ==> tail.output_lines == 1
        }),
{
}

/// A line that fits is kept whole, and only such a line is. Of a longer one as
/// many characters are kept as fit, with a note behind them.
pub proof fn law_long_lines_are_cut(line: Seq<char>, max_chars: nat)
    ensures
        ({
            let (text, cut) = short_line(line, max_chars);
            &&& cut <==> line.len() > max_chars
            &&& !cut ==> text == line
            &&& cut ==> text.len() == max_chars + 15 && text.subrange(0, max_chars as int)
                == line.subrange(0, max_chars as int) && text.skip(max_chars as int)
                == "... [truncated]"@
        }),
{
    reveal_strlit("... [truncated]");
    let text = short_line(line, max_chars).0;
    if line.len() > max_chars {
        assert(text.subrange(0, max_chars as int) =~= line.subrange(0, max_chars as int));
        assert(text.skip(max_chars as int) =~= "... [truncated]"@);
    }
}

/// A quotient is rounded to an integer that none is nearer to, and to the even
/// one of two that are equally near.
pub proof fn law_quotients_are_rounded_to_the_nearest(n: nat, d: nat)
    requires
        d > 0,
    ensures
        2 * rounded(n, d) * d <= 2 * n + d,
        2 * n <= 2 * rounded(n, d) * d + d,
        2 * rounded(n, d) * d == 2 * n + d ==> rounded(n, d) % 2 == 0,
        2 * n == 2 * rounded(n, d) * d + d ==> rounded(n, d) % 2 == 0,
{
    let q: int = n as int / d as int;
    let r: int = n as int % d as int;
    let w: int = d as int;
    assert(n as int == q * w + r && 0 <= r < w) by {
        vstd::arithmetic::div_mod::lemma_fundamental_div_mod(n as int, w);
        vstd::arithmetic::div_mod::lemma_mod_bound(n as int, w);
        assert(w * q == q * w) by (nonlinear_arith);
    }
    let k: int = rounded(n, d) as int;
    assert(k == q || k == q + 1);
    assert(2 * (q + 1) * w == 2 * (q * w) + 2 * w) by (nonlinear_arith);
    assert(2 * q * w == 2 * (q * w)) by (nonlinear_arith);
}

/// Sizes below a kilobyte are told in bytes. Larger ones are told in kilobytes,
/// and from a megabyte on in megabytes, to the nearest tenth.
pub proof fn law_sizes_are_told_to_a_tenth(bytes: nat, tenths: nat)
    ensures
        bytes < 1024 ==> size_text(bytes) == decimal(bytes) + "B"@,
        1024 <= bytes < 1024 * 1024 && tenths == rounded(bytes * 10, 1024) ==> size_text(bytes)
            == decimal(tenths / 10) + "."@ + decimal(tenths % 10) + "KB"@,
        1024 * 1024 <= bytes < 0x20_0000_0000_0000 && tenths == rounded(bytes * 10, 1024 * 1024)
            ==> size_text(bytes) == decimal(tenths / 10) + "."@ + decimal(tenths % 10) + "MB"@,
{
    if bytes < 0x20_0000_0000_0000 {
        assert(double_spacing(bytes) == 1);
        assert(bytes % 1 == 0 && bytes / 1 == bytes);
        assert(rounded(bytes, 1) == bytes);
        assert(nearest_double(bytes) == bytes);
        assert(nearest_double(bytes) * 10 == bytes * 10);
    }
}

} // verus!

//! Differences between texts, line by line: the lines that two texts have in
//! common, unified patches, and diffs for display.

use vstd::prelude::*;

use crate::text::{
    chars_of, concat3, concat4, concat5, decimal, decimal_text, join, join_texts, split, split_text,
    texts,
};

verus! {

// ---------------------------------------------------------------------------
// Lines
// ---------------------------------------------------------------------------

/// The texts one after the other.
pub open spec fn concat_all(parts: Seq<Seq<char>>) -> Seq<char>
    decreases parts.len(),
{
    if parts.len() == 0 {
        Seq::empty()
    } else {
        concat_all(parts.drop_last()) + parts.last()
    }
}

/// The lines of a text, each with its line feed; the last may lack one.
pub open spec fn lines_of(s: Seq<char>) -> Seq<Seq<char>>
    decreases s.len(),
{
    if s.len() == 0 {
        Seq::empty()
    } else {
        let before = lines_of(s.drop_last());
        if before.len() > 0 && before.last().last() != '\n' {
            before.update(before.len() - 1, before.last().push(s.last()))
        } else {
            before.push(seq![s.last()])
        }
    }
}

/// One more text at the end.
pub proof fn lemma_concat_push(parts: Seq<Seq<char>>, part: Seq<char>)
    ensures
        concat_all(parts.push(part)) == concat_all(parts) + part,
{
    assert(parts.push(part).drop_last() =~= parts);
}

/// Texts in two parts.
pub proof fn lemma_concat_split(parts: Seq<Seq<char>>, i: int)
    requires
        0 <= i <= parts.len(),
    ensures
        concat_all(parts) == concat_all(parts.take(i)) + concat_all(parts.skip(i)),
    decreases parts.len(),
{
    if i == parts.len() {
        assert(parts.take(i) =~= parts);
        assert(parts.skip(i) =~= Seq::<Seq<char>>::empty());
        assert(concat_all(parts) =~= concat_all(parts) + concat_all(parts.skip(i)));
    } else {
        let shorter = parts.drop_last();
        lemma_concat_split(shorter, i);
        assert(shorter.take(i) =~= parts.take(i));
        assert(shorter.skip(i) =~= parts.skip(i).drop_last());
        assert(parts.skip(i).last() == parts.last());
        assert(concat_all(parts) =~= concat_all(parts.take(i)) + concat_all(parts.skip(i)));
    }
}

/// The lines of a text make it up: one after the other they are the text, each
/// holds something, a line feed ends a line, and every line but the last ends
/// with one.
pub proof fn law_lines_make_up_the_text(s: Seq<char>)
    ensures
        concat_all(lines_of(s)) == s,
        lines_of(s).len() <= s.len(),
        forall|i: int| 0 <= i < lines_of(s).len() ==> (#[trigger] lines_of(s)[i]).len() > 0,
        forall|i: int|
            0 <= i < lines_of(s).len() - 1 ==> (#[trigger] lines_of(s)[i]).last() == '\n',
        forall|i: int, k: int|
            0 <= i < lines_of(s).len() && 0 <= k < lines_of(s)[i].len() - 1
                ==> #[trigger] lines_of(s)[i][k] != '\n',
    decreases s.len(),
{
    if s.len() > 0 {
        let before = lines_of(s.drop_last());
        let lines = lines_of(s);
        let c = s.last();
        law_lines_make_up_the_text(s.drop_last());
        assert(s =~= s.drop_last().push(c));
        if before.len() > 0 && before.last().last() != '\n' {
            let front = before.drop_last();
            assert(lines.drop_last() =~= front);
            assert(lines.last() == before.last().push(c));
            assert(concat_all(lines) =~= (concat_all(front) + before.last()).push(c));
            assert forall|i: int| 0 <= i < lines.len() implies (#[trigger] lines[i]).len() > 0 by {
                if i < front.len() {
                    assert(lines[i] == before[i]);
                }
            }
            assert forall|i: int| 0 <= i < lines.len() - 1 implies (#[trigger] lines[i]).last()
                == '\n' by {
                assert(lines[i] == before[i]);
            }
            assert forall|i: int, k: int|
                0 <= i < lines.len() && 0 <= k < lines[i].len() - 1 implies #[trigger] lines[i][k]
                != '\n' by {
                if i < front.len() {
                    assert(lines[i] == before[i]);
                    assert(before[i][k] != '\n');
                } else {
                    assert(lines[i][k] == before[i][k]);
                    if k < before[i].len() - 1 {
                        assert(before[i][k] != '\n');
                    }
                }
            }
        } else {
            assert(lines.drop_last() =~= before);
            assert(concat_all(lines) =~= concat_all(before).push(c));
            assert forall|i: int| 0 <= i < lines.len() implies (#[trigger] lines[i]).len() > 0 by {
                if i < before.len() {
                    assert(lines[i] == before[i]);
                }
            }
            assert forall|i: int| 0 <= i < lines.len() - 1 implies (#[trigger] lines[i]).last()
                == '\n' by {
                assert(lines[i] == before[i]);
                if i == before.len() - 1 {
                    assert(before.last() == before[i]);
                }
            }
            assert forall|i: int, k: int|
                0 <= i < lines.len() && 0 <= k < lines[i].len() - 1 implies #[trigger] lines[i][k]
                != '\n' by {
                if i < before.len() {
                    assert(lines[i] == before[i]);
                    assert(before[i][k] != '\n');
                }
            }
        }
    }
}

/// The lines of a text, each with its line feed.
pub fn split_lines_with_endings(content: &str) -> (r: Vec<String>)
    ensures
        texts(r@) == lines_of(content@),
{
    let chars: Vec<char> = chars_of(content);
    let mut done: Vec<String> = Vec::new();
    let mut current: String = String::new();
    let mut i: usize = 0;
    proof {
        assert(chars@.take(0) =~= Seq::<char>::empty());
        assert(texts(done@) =~= lines_of(chars@.take(0)));
    }
    while i < chars.len()
        invariant
            i <= chars@.len(),
            chars@ == content@,
            lines_of(chars@.take(i as int)) == if current@.len() > 0 {
                texts(done@).push(current@)
            } else {
                texts(done@)
            },
            current@.len() > 0 ==> current@.last() != '\n',
            forall|k: int| 0 <= k < done@.len() ==> (#[trigger] texts(done@)[k]).last() == '\n',
        decreases chars@.len() - i,
    {
        let c: char = chars[i];
        let ghost before = current@;
        let ghost held = done@;
        let ghost earlier = lines_of(chars@.take(i as int));
        proof {
            assert(chars@.take(i as int + 1).drop_last() =~= chars@.take(i as int));
            assert(chars@.take(i as int + 1).last() == c);
            if before.len() == 0 && earlier.len() > 0 {
                assert(earlier.last() == texts(done@)[done@.len() - 1]);
            }
        }
        current.push(c);
        proof {
            let now = lines_of(chars@.take(i as int + 1));
            if before.len() > 0 {
                assert(now =~= texts(held).push(current@));
            } else {
                assert(current@ =~= seq![c]);
                assert(now =~= texts(held).push(current@));
            }
        }
        if c == '\n' {
            let line: String = current;
            current = String::new();
            done.push(line);
            proof {
                assert(texts(done@) =~= texts(held).push(line@));
            }
        }
        i = i + 1;
    }
    proof {
        assert(chars@.take(chars@.len() as int) =~= chars@);
    }
    if current.as_str().unicode_len() > 0 {
        let ghost held = done@;
        done.push(current);
        proof {
            assert(texts(done@) =~= texts(held).push(current@));
        }
    }
    done
}

// ---------------------------------------------------------------------------
// Common lines
// ---------------------------------------------------------------------------

/// The length of a longest common subsequence of two sequences of lines, from
/// positions on.
pub open spec fn common_length(old: Seq<Seq<char>>, new: Seq<Seq<char>>, i: int, j: int) -> nat
    decreases old.len() - i, new.len() - j,
{
    if i < 0 || j < 0 || i >= old.len() || j >= new.len() {
        0
    } else if old[i] == new[j] {
        common_length(old, new, i + 1, j + 1) + 1
    } else {
        let skip_old = common_length(old, new, i + 1, j);
        let skip_new = common_length(old, new, i, j + 1);
        if skip_old >= skip_new {
            skip_old
        } else {
            skip_new
        }
    }
}

/// What becomes of a line.
#[derive(Clone, Copy, PartialEq, Eq, Structural, Debug)]
pub enum LineOp {
    Context,
    Remove,
    Add,
}

/// A line and what becomes of it.
pub struct LineView {
    pub op: LineOp,
    pub text: Seq<char>,
}

/// The lines of the old and of the new text, merged: common lines once, and
/// of the others those of the old text first where that keeps at least as
/// many common lines.
pub open spec fn script(old: Seq<Seq<char>>, new: Seq<Seq<char>>, i: int, j: int) -> Seq<LineView>
    decreases old.len() - i, new.len() - j,
{
    if i < 0 || j < 0 {
        Seq::empty()
    } else if i < old.len() && j < new.len() {
        if old[i] == new[j] {
            seq![LineView { op: LineOp::Context, text: old[i] }] + script(old, new, i + 1, j + 1)
        } else if common_length(old, new, i + 1, j) >= common_length(old, new, i, j + 1) {
            seq![LineView { op: LineOp::Remove, text: old[i] }] + script(old, new, i + 1, j)
        } else {
            seq![LineView { op: LineOp::Add, text: new[j] }] + script(old, new, i, j + 1)
        }
    } else if i < old.len() {
        seq![LineView { op: LineOp::Remove, text: old[i] }] + script(old, new, i + 1, j)
    } else if j < new.len() {
        seq![LineView { op: LineOp::Add, text: new[j] }] + script(old, new, i, j + 1)
    } else {
        Seq::empty()
    }
}

/// The merged lines of two texts.
pub open spec fn line_script(old: Seq<char>, new: Seq<char>) -> Seq<LineView> {
    script(lines_of(old), lines_of(new), 0, 0)
}

/// The texts of the lines that are not of the given kind.
pub open spec fn side(lines: Seq<LineView>, without: LineOp) -> Seq<Seq<char>>
    decreases lines.len(),
{
    if lines.len() == 0 {
        Seq::empty()
    } else if lines[0].op == without {
        side(lines.drop_first(), without)
    } else {
        seq![lines[0].text] + side(lines.drop_first(), without)
    }
}

pub proof fn lemma_script_sides(old: Seq<Seq<char>>, new: Seq<Seq<char>>, i: int, j: int)
    requires
        0 <= i <= old.len(),
        0 <= j <= new.len(),
    ensures
        side(script(old, new, i, j), LineOp::Add) == old.skip(i),
        side(script(old, new, i, j), LineOp::Remove) == new.skip(j),
    decreases old.len() - i, new.len() - j,
{
    let lines = script(old, new, i, j);
    if i < old.len() {
        assert(old.skip(i) =~= seq![old[i]] + old.skip(i + 1));
    } else {
        assert(old.skip(i) =~= Seq::<Seq<char>>::empty());
    }
    if j < new.len() {
        assert(new.skip(j) =~= seq![new[j]] + new.skip(j + 1));
    } else {
        assert(new.skip(j) =~= Seq::<Seq<char>>::empty());
    }
    if i < old.len() && j < new.len() && old[i] == new[j] {
        lemma_script_sides(old, new, i + 1, j + 1);
        assert(lines.drop_first() =~= script(old, new, i + 1, j + 1));
    } else if i < old.len() && (j >= new.len() || common_length(old, new, i + 1, j)
        >= common_length(old, new, i, j + 1)) {
        lemma_script_sides(old, new, i + 1, j);
        assert(lines.drop_first() =~= script(old, new, i + 1, j));
    } else if j < new.len() {
        lemma_script_sides(old, new, i, j + 1);
        assert(lines.drop_first() =~= script(old, new, i, j + 1));
    }
}

/// The merged lines hold both texts: without the added lines they are the old
/// text, without the removed lines the new one.
pub proof fn law_scripts_hold_both_texts(old: Seq<char>, new: Seq<char>)
    ensures
        concat_all(side(line_script(old, new), LineOp::Add)) == old,
        concat_all(side(line_script(old, new), LineOp::Remove)) == new,
{
    law_lines_make_up_the_text(old);
    law_lines_make_up_the_text(new);
    lemma_script_sides(lines_of(old), lines_of(new), 0, 0);
    assert(lines_of(old).skip(0) =~= lines_of(old));
    assert(lines_of(new).skip(0) =~= lines_of(new));
}

/// How many of the lines are common.
pub open spec fn context_count(lines: Seq<LineView>) -> nat
    decreases lines.len(),
{
    if lines.len() == 0 {
        0
    } else if lines[0].op == LineOp::Context {
        context_count(lines.drop_first()) + 1
    } else {
        context_count(lines.drop_first())
    }
}

proof fn lemma_script_context(old: Seq<Seq<char>>, new: Seq<Seq<char>>, i: int, j: int)
    requires
        0 <= i <= old.len(),
        0 <= j <= new.len(),
    ensures
        context_count(script(old, new, i, j)) == common_length(old, new, i, j),
    decreases old.len() - i, new.len() - j,
{
    let lines = script(old, new, i, j);
    if i < old.len() && j < new.len() && old[i] == new[j] {
        lemma_script_context(old, new, i + 1, j + 1);
        assert(lines.drop_first() =~= script(old, new, i + 1, j + 1));
    } else if i < old.len() && (j >= new.len() || common_length(old, new, i + 1, j)
        >= common_length(old, new, i, j + 1)) {
        lemma_script_context(old, new, i + 1, j);
        assert(lines.drop_first() =~= script(old, new, i + 1, j));
    } else if j < new.len() {
        lemma_script_context(old, new, i, j + 1);
        assert(lines.drop_first() =~= script(old, new, i, j + 1));
    }
}

/// Whether positions pick a common subsequence of two sequences of lines.
pub open spec fn picks_common(
    old: Seq<Seq<char>>,
    new: Seq<Seq<char>>,
    in_old: Seq<int>,
    in_new: Seq<int>,
) -> bool {
    &&& in_old.len() == in_new.len()
    &&& forall|k: int|
        0 <= k < in_old.len() ==> 0 <= #[trigger] in_old[k] < old.len() && 0 <= in_new[k]
            < new.len() && old[in_old[k]] == new[in_new[k]]
    &&& forall|k: int, m: int|
        0 <= k < m < in_old.len() ==> #[trigger] in_old[k] < #[trigger] in_old[m] && in_new[k]
            < in_new[m]
}

proof fn lemma_common_step(old: Seq<Seq<char>>, new: Seq<Seq<char>>, i: int, j: int)
    requires
        0 <= i,
        0 <= j,
    ensures
        common_length(old, new, i, j) <= common_length(old, new, i + 1, j) + 1,
        common_length(old, new, i, j) <= common_length(old, new, i, j + 1) + 1,
        common_length(old, new, i + 1, j) <= common_length(old, new, i, j),
        common_length(old, new, i, j + 1) <= common_length(old, new, i, j),
    decreases old.len() - i + new.len() - j,
{
    if i < old.len() && j < new.len() {
        lemma_common_step(old, new, i + 1, j);
        lemma_common_step(old, new, i, j + 1);
        lemma_common_step(old, new, i + 1, j + 1);
    }
}

proof fn lemma_common_is_longest(
    old: Seq<Seq<char>>,
    new: Seq<Seq<char>>,
    in_old: Seq<int>,
    in_new: Seq<int>,
    i: int,
    j: int,
)
    requires
        0 <= i,
        0 <= j,
        picks_common(old, new, in_old, in_new),
        in_old.len() > 0 ==> i <= in_old[0] && j <= in_new[0],
    ensures
        in_old.len() <= common_length(old, new, i, j),
    decreases old.len() - i + new.len() - j,
{
    if in_old.len() > 0 {
        assert(in_old[0] < old.len());
        let rest_old = in_old.drop_first();
        let rest_new = in_new.drop_first();
        if i < in_old[0] {
            lemma_common_is_longest(old, new, in_old, in_new, i + 1, j);
            lemma_common_step(old, new, i, j);
        } else if j < in_new[0] {
            lemma_common_is_longest(old, new, in_old, in_new, i, j + 1);
            lemma_common_step(old, new, i, j);
        } else {
            assert(picks_common(old, new, rest_old, rest_new)) by {
                assert forall|k: int| 0 <= k < rest_old.len() implies 0 <= #[trigger] rest_old[k]
                    < old.len() && 0 <= rest_new[k] < new.len() && old[rest_old[k]]
                    == new[rest_new[k]] by {
                    assert(rest_old[k] == in_old[k + 1]);
                    assert(rest_new[k] == in_new[k + 1]);
                }
                assert forall|k: int, m: int|
                    0 <= k < m < rest_old.len() implies #[trigger] rest_old[k]
                    < #[trigger] rest_old[m] && rest_new[k] < rest_new[m] by {
                    assert(in_old[k + 1] < in_old[m + 1]);
                }
            }
            if rest_old.len() > 0 {
                assert(in_old[0] < in_old[1]);
                assert(rest_old[0] == in_old[1]);
                assert(rest_new[0] == in_new[1]);
            }
            lemma_common_is_longest(old, new, rest_old, rest_new, i + 1, j + 1);
        }
    }
}

/// The merged lines keep as many lines in common as can be kept: no common
/// subsequence of the two texts' lines is longer.
pub proof fn law_scripts_keep_most_lines(
    old: Seq<char>,
    new: Seq<char>,
    in_old: Seq<int>,
    in_new: Seq<int>,
)
    requires
        picks_common(lines_of(old), lines_of(new), in_old, in_new),
    ensures
        in_old.len() <= context_count(line_script(old, new)),
{
    lemma_common_is_longest(lines_of(old), lines_of(new), in_old, in_new, 0, 0);
    lemma_script_context(lines_of(old), lines_of(new), 0, 0);
}

proof fn lemma_common_bound(old: Seq<Seq<char>>, new: Seq<Seq<char>>, i: int, j: int)
    requires
        0 <= i <= old.len(),
        0 <= j <= new.len(),
    ensures
        common_length(old, new, i, j) <= old.len() - i,
        common_length(old, new, i, j) <= new.len() - j,
    decreases old.len() - i, new.len() - j,
{
    if i < old.len() && j < new.len() {
        lemma_common_bound(old, new, i + 1, j + 1);
        lemma_common_bound(old, new, i + 1, j);
        lemma_common_bound(old, new, i, j + 1);
    }
}

fn common_row(old: &Vec<String>, new: &Vec<String>, i: usize, below: &Vec<usize>) -> (r: Vec<usize>)
    requires
        i < old@.len(),
        below@.len() == new@.len() + 1,
        forall|k: int|
            0 <= k <= new@.len() ==> #[trigger] below@[k] == common_length(
                texts(old@),
                texts(new@),
                i + 1,
                new@.len() - k,
            ),
    ensures
        r@.len() == new@.len() + 1,
        forall|k: int|
            0 <= k <= new@.len() ==> #[trigger] r@[k] == common_length(
                texts(old@),
                texts(new@),
                i as int,
                new@.len() - k,
            ),
{
    let ghost a = texts(old@);
    let ghost b = texts(new@);
    let n: usize = new.len();
    let mut row: Vec<usize> = Vec::new();
    row.push(0);
    let mut k: usize = 0;
    while k < n
        invariant
            k <= n == new@.len(),
            i < old@.len(),
            a == texts(old@),
            b == texts(new@),
            below@.len() == n + 1,
            forall|m: int|
                0 <= m <= n ==> #[trigger] below@[m] == common_length(a, b, i + 1, n - m),
            row@.len() == k + 1,
            forall|m: int|
                0 <= m <= k ==> #[trigger] row@[m] == common_length(a, b, i as int, n - m),
        decreases n - k,
    {
        let j: usize = n - 1 - k;
        proof {
            assert(below@[k as int] == common_length(a, b, i + 1, n - k));
            assert(below@[k as int + 1] == common_length(a, b, i + 1, n - (k + 1)));
            assert(row@[k as int] == common_length(a, b, i as int, n - k));
            lemma_common_bound(a, b, i + 1, j + 1);
            assert(a[i as int] == old@[i as int]@);
            assert(b[j as int] == new@[j as int]@);
        }
        let value: usize = if old[i] == new[j] {
            below[k] + 1
        } else if below[k + 1] >= row[k] {
            below[k + 1]
        } else {
            row[k]
        };
        row.push(value);
        k = k + 1;
    }
    row
}

/// The lengths of the longest common subsequences, row by row from the end.
fn common_table(old: &Vec<String>, new: &Vec<String>) -> (r: Vec<Vec<usize>>)
    ensures
        r@.len() == old@.len() + 1,
        forall|q: int|
            0 <= q <= old@.len() ==> (#[trigger] r@[q])@.len() == new@.len() + 1 && forall|k: int|
                0 <= k <= new@.len() ==> #[trigger] r@[q]@[k] == common_length(
                    texts(old@),
                    texts(new@),
                    old@.len() - q,
                    new@.len() - k,
                ),
{
    let ghost a = texts(old@);
    let ghost b = texts(new@);
    let m: usize = old.len();
    let n: usize = new.len();
    let mut first: Vec<usize> = Vec::new();
    first.push(0);
    let mut k: usize = 0;
    while k < n
        invariant
            k <= n,
            first@.len() == k + 1,
            forall|x: int| 0 <= x <= k ==> #[trigger] first@[x] == 0,
        decreases n - k,
    {
        first.push(0);
        k = k + 1;
    }
    let mut rows: Vec<Vec<usize>> = Vec::new();
    rows.push(first);
    let mut q: usize = 0;
    while q < m
        invariant
            q <= m == old@.len(),
            n == new@.len(),
            a == texts(old@),
            b == texts(new@),
            rows@.len() == q + 1,
            forall|p: int|
                0 <= p <= q ==> (#[trigger] rows@[p])@.len() == n + 1 && forall|x: int|
                    0 <= x <= n ==> #[trigger] rows@[p]@[x] == common_length(a, b, m - p, n - x),
        decreases m - q,
    {
        let row: Vec<usize> = common_row(old, new, m - 1 - q, &rows[q]);
        rows.push(row);
        q = q + 1;
    }
    rows
}

/// A line and what becomes of it.
pub struct ScriptLine {
    pub op: LineOp,
    pub text: String,
}

impl View for ScriptLine {
    type V = LineView;

    open spec fn view(&self) -> LineView {
        LineView { op: self.op, text: self.text@ }
    }
}

/// The mathematical values of lines.
pub open spec fn line_views(s: Seq<ScriptLine>) -> Seq<LineView> {
    Seq::new(s.len(), |i: int| s[i]@)
}

fn push_line(out: &mut Vec<ScriptLine>, op: LineOp, text: &String)
    ensures
        line_views(final(out)@) == line_views(old(out)@).push(LineView { op, text: text@ }),
{
    let ghost before = out@;
    out.push(ScriptLine { op, text: text.clone() });
    proof {
        assert(line_views(out@) =~= line_views(before).push(LineView { op, text: text@ }));
    }
}

/// The merged lines of two texts.
pub fn build_script(old_content: &str, new_content: &str) -> (r: Vec<ScriptLine>)
    ensures
        line_views(r@) == line_script(old_content@, new_content@),
{
    let old: Vec<String> = split_lines_with_endings(old_content);
    let new: Vec<String> = split_lines_with_endings(new_content);
    let table: Vec<Vec<usize>> = common_table(&old, &new);
    let ghost a = texts(old@);
    let ghost b = texts(new@);
    let m: usize = old.len();
    let n: usize = new.len();
    let mut out: Vec<ScriptLine> = Vec::new();
    let mut i: usize = 0;
    let mut j: usize = 0;
    proof {
        assert(line_views(out@) + script(a, b, 0, 0) =~= script(a, b, 0, 0));
    }
    while i < m || j < n
        invariant
            i <= m == old@.len(),
            j <= n == new@.len(),
            a == texts(old@),
            b == texts(new@),
            table@.len() == m + 1,
            forall|q: int|
                0 <= q <= m ==> (#[trigger] table@[q])@.len() == n + 1 && forall|k: int|
                    0 <= k <= n ==> #[trigger] table@[q]@[k] == common_length(a, b, m - q, n - k),
            line_views(out@) + script(a, b, i as int, j as int) == script(a, b, 0, 0),
        decreases (m - i) + (n - j),
    {
        let ghost before = line_views(out@);
        if i < m && j < n {
            proof {
                assert(a[i as int] == old@[i as int]@);
                assert(b[j as int] == new@[j as int]@);
                assert(table@[m - (i + 1)]@[n - j] == common_length(a, b, i + 1, j as int));
                assert(table@[m - i]@[n - (j + 1)] == common_length(a, b, i as int, j + 1));
            }
            if old[i] == new[j] {
                push_line(&mut out, LineOp::Context, &old[i]);
                proof {
                    assert(line_views(out@) + script(a, b, i + 1, j + 1) =~= before + script(
                        a,
                        b,
                        i as int,
                        j as int,
                    ));
                }
                i = i + 1;
                j = j + 1;
            } else if table[m - 1 - i][n - j] >= table[m - i][n - 1 - j] {
                push_line(&mut out, LineOp::Remove, &old[i]);
                proof {
                    assert(line_views(out@) + script(a, b, i + 1, j as int) =~= before + script(
                        a,
                        b,
                        i as int,
                        j as int,
                    ));
                }
                i = i + 1;
            } else {
                push_line(&mut out, LineOp::Add, &new[j]);
                proof {
                    assert(line_views(out@) + script(a, b, i as int, j + 1) =~= before + script(
                        a,
                        b,
                        i as int,
                        j as int,
                    ));
                }
                j = j + 1;
            }
        } else if i < m {
            push_line(&mut out, LineOp::Remove, &old[i]);
            proof {
                assert(line_views(out@) + script(a, b, i + 1, j as int) =~= before + script(
                    a,
                    b,
                    i as int,
                    j as int,
                ));
            }
            i = i + 1;
        } else {
            push_line(&mut out, LineOp::Add, &new[j]);
            proof {
                assert(line_views(out@) + script(a, b, i as int, j + 1) =~= before + script(
                    a,
                    b,
                    i as int,
                    j as int,
                ));
            }
            j = j + 1;
        }
    }
    proof {
        assert(line_views(out@) + script(a, b, i as int, j as int) =~= line_views(out@));
    }
    out
}

// ---------------------------------------------------------------------------
// Parts
// ---------------------------------------------------------------------------

/// Lines that follow each other and are of one kind.
pub struct RunView {
    pub op: LineOp,
    pub lines: Seq<Seq<char>>,
}

/// The longest runs of lines of one kind.
pub open spec fn runs_of(lines: Seq<LineView>) -> Seq<RunView>
    decreases lines.len(),
{
    if lines.len() == 0 {
        Seq::empty()
    } else {
        let before = runs_of(lines.drop_last());
        let line = lines.last();
        if before.len() > 0 && before.last().op == line.op {
            before.update(
                before.len() - 1,
                RunView { op: line.op, lines: before.last().lines.push(line.text) },
            )
        } else {
            before.push(RunView { op: line.op, lines: seq![line.text] })
        }
    }
}

/// The lines of one kind that follow each other, joined.
pub struct DiffPart {
    pub value: String,
    pub count: usize,
    pub added: bool,
    pub removed: bool,
}

/// The mathematical value of a [`DiffPart`].
pub struct PartView {
    pub value: Seq<char>,
    pub count: nat,
    pub added: bool,
    pub removed: bool,
}

impl View for DiffPart {
    type V = PartView;

    open spec fn view(&self) -> PartView {
        PartView {
            value: self.value@,
            count: self.count as nat,
            added: self.added,
            removed: self.removed,
        }
    }
}

/// A run as a part of a diff.
pub open spec fn part_of(run: RunView) -> PartView {
    PartView {
        value: concat_all(run.lines),
        count: run.lines.len(),
        added: run.op == LineOp::Add,
        removed: run.op == LineOp::Remove,
    }
}

/// The parts of a diff.
pub open spec fn parts_of(runs: Seq<RunView>) -> Seq<PartView> {
    Seq::new(runs.len(), |i: int| part_of(runs[i]))
}

/// A run of lines.
struct Run {
    op: LineOp,
    lines: Vec<String>,
}

impl Run {
    spec fn view(&self) -> RunView {
        RunView { op: self.op, lines: texts(self.lines@) }
    }
}

spec fn run_views(s: Seq<Run>) -> Seq<RunView> {
    Seq::new(s.len(), |i: int| s[i]@)
}

fn collect_runs(lines: &Vec<ScriptLine>) -> (r: Vec<Run>)
    ensures
        run_views(r@) == runs_of(line_views(lines@)),
{
    let ghost views = line_views(lines@);
    let mut done: Vec<Run> = Vec::new();
    let mut op: LineOp = LineOp::Context;
    let mut current: Vec<String> = Vec::new();
    let mut i: usize = 0;
    proof {
        assert(run_views(done@) =~= runs_of(views.take(0)));
    }
    while i < lines.len()
        invariant
            i <= lines@.len(),
            views == line_views(lines@),
            current@.len() == 0 ==> done@.len() == 0,
            runs_of(views.take(i as int)) == if current@.len() > 0 {
                run_views(done@).push(RunView { op, lines: texts(current@) })
            } else {
                run_views(done@)
            },
        decreases lines@.len() - i,
    {
        let ghost earlier = runs_of(views.take(i as int));
        let ghost held = current@;
        let ghost before = done@;
        proof {
            assert(views.take(i as int + 1).drop_last() =~= views.take(i as int));
            assert(views.take(i as int + 1).last() == lines@[i as int]@);
        }
        let next: LineOp = lines[i].op;
        if current.len() > 0 && op != next {
            done.push(Run { op, lines: current });
            proof {
                assert(run_views(done@) =~= run_views(before).push(
                    RunView { op, lines: texts(held) },
                ));
            }
            current = Vec::new();
        }
        let ghost kept = current@;
        current.push(lines[i].text.clone());
        op = next;
        proof {
            assert(texts(current@) =~= texts(kept).push(lines@[i as int].text@));
            let now = runs_of(views.take(i as int + 1));
            if earlier.len() > 0 && earlier.last().op == op {
                assert(kept == held);
                assert(earlier.last().lines == texts(kept));
            } else {
                assert(kept.len() == 0);
                assert(texts(current@) =~= seq![lines@[i as int].text@]);
            }
            assert(now =~= run_views(done@).push(RunView { op, lines: texts(current@) }));
        }
        i = i + 1;
    }
    proof {
        assert(views.take(views.len() as int) =~= views);
    }
    if current.len() > 0 {
        let ghost before = done@;
        let ghost held = current@;
        done.push(Run { op, lines: current });
        proof {
            assert(run_views(done@) =~= run_views(before).push(
                RunView { op, lines: texts(held) },
            ));
        }
    }
    done
}

fn join_all(lines: &Vec<String>) -> (r: String)
    ensures
        r@ == concat_all(texts(lines@)),
{
    let mut out: String = String::new();
    let mut i: usize = 0;
    proof {
        assert(texts(lines@).take(0) =~= Seq::<Seq<char>>::empty());
        assert(out@ =~= concat_all(texts(lines@).take(0)));
    }
    while i < lines.len()
        invariant
            i <= lines@.len(),
            out@ == concat_all(texts(lines@).take(i as int)),
        decreases lines@.len() - i,
    {
        out.append(lines[i].as_str());
        proof {
            let all = texts(lines@);
            assert(all.take(i as int + 1) =~= all.take(i as int).push(all[i as int]));
            lemma_concat_push(all.take(i as int), all[i as int]);
        }
        i = i + 1;
    }
    proof {
        assert(texts(lines@).take(lines@.len() as int) =~= texts(lines@));
    }
    out
}

/// The difference between two texts: runs of lines that are common, removed or
/// added.
pub fn diff_lines(old_content: &str, new_content: &str) -> (r: Vec<DiffPart>)
    ensures
        r@.len() == runs_of(line_script(old_content@, new_content@)).len(),
        forall|i: int|
            0 <= i < r@.len() ==> (#[trigger] r@[i])@ == parts_of(
                runs_of(line_script(old_content@, new_content@)),
            )[i],
{
    let lines: Vec<ScriptLine> = build_script(old_content, new_content);
    let runs: Vec<Run> = collect_runs(&lines);
    let ghost views = runs_of(line_script(old_content@, new_content@));
    let mut out: Vec<DiffPart> = Vec::new();
    let mut i: usize = 0;
    while i < runs.len()
        invariant
            i <= runs@.len(),
            run_views(runs@) == views,
            out@.len() == i,
            forall|k: int| 0 <= k < i ==> (#[trigger] out@[k])@ == parts_of(views)[k],
        decreases runs@.len() - i,
    {
        proof {
            assert(views[i as int] == runs@[i as int]@);
        }
        out.push(
            DiffPart {
                value: join_all(&runs[i].lines),
                count: runs[i].lines.len(),
                added: runs[i].op == LineOp::Add,
                removed: runs[i].op == LineOp::Remove,
            },
        );
        i = i + 1;
    }
    out
}

// ---------------------------------------------------------------------------
// Unified patches
// ---------------------------------------------------------------------------

/// The position after a run of changed lines.
pub open spec fn change_end(lines: Seq<LineView>, at: int) -> int
    decreases lines.len() - at,
{
    if 0 <= at < lines.len() && lines[at].op != LineOp::Context {
        change_end(lines, at + 1)
    } else {
        at
    }
}

/// Where the hunk of a change starts: with some lines before it.
pub open spec fn hunk_start(at: int, context: nat) -> int {
    if at > context {
        at - context
    } else {
        0
    }
}

/// Where the hunk of a change ends: with some lines after it.
pub open spec fn hunk_end(lines: Seq<LineView>, at: int, context: nat) -> int {
    let end = change_end(lines, at) + context;
    if end < lines.len() {
        end
    } else {
        lines.len() as int
    }
}

/// The hunks with one more, joined to the last where they meet.
pub open spec fn with_hunk(hunks: Seq<(int, int)>, start: int, end: int) -> Seq<(int, int)> {
    if hunks.len() > 0 && start <= hunks.last().1 {
        hunks.update(
            hunks.len() - 1,
            (
                hunks.last().0,
                if hunks.last().1 > end {
                    hunks.last().1
                } else {
                    end
                },
            ),
        )
    } else {
        hunks.push((start, end))
    }
}

/// The hunks of a patch, looked for from a position on. The search goes on
/// behind each hunk.
pub open spec fn hunks_from(lines: Seq<LineView>, context: nat, at: int, hunks: Seq<(int, int)>) -> Seq<
    (int, int),
>
    decreases lines.len() - at,
    when 0 <= at
    via hunks_advance
{
    if at >= lines.len() {
        hunks
    } else if lines[at].op == LineOp::Context {
        hunks_from(lines, context, at + 1, hunks)
    } else {
        let end = hunk_end(lines, at, context);
        hunks_from(lines, context, end, with_hunk(hunks, hunk_start(at, context), end))
    }
}

#[via_fn]
proof fn hunks_advance(lines: Seq<LineView>, context: nat, at: int, hunks: Seq<(int, int)>) {
    if at < lines.len() && lines[at].op != LineOp::Context {
        lemma_change_end(lines, at);
    }
}

proof fn lemma_change_end(lines: Seq<LineView>, at: int)
    requires
        0 <= at < lines.len(),
    ensures
        at <= change_end(lines, at) <= lines.len(),
        lines[at].op != LineOp::Context ==> at < change_end(lines, at),
    decreases lines.len() - at,
{
    reveal_with_fuel(change_end, 2);
    if lines[at].op != LineOp::Context && at + 1 < lines.len() {
        lemma_change_end(lines, at + 1);
    }
}

/// How many lines are not of the given kind.
pub open spec fn count_without(lines: Seq<LineView>, without: LineOp) -> nat
    decreases lines.len(),
{
    if lines.len() == 0 {
        0
    } else if lines.last().op == without {
        count_without(lines.drop_last(), without)
    } else {
        count_without(lines.drop_last(), without) + 1
    }
}

/// One side of a hunk's header. A side without lines names the line before.
pub open spec fn range_text(sign: Seq<char>, before: nat, count: nat) -> Seq<char> {
    if count == 0 {
        sign + decimal(before) + ",0"@
    } else {
        sign + decimal(before + 1) + ","@ + decimal(count)
    }
}

/// The mark in front of a line.
pub open spec fn line_mark(op: LineOp) -> char {
    match op {
        LineOp::Context => ' ',
        LineOp::Remove => '-',
        LineOp::Add => '+',
    }
}

/// The lines of a hunk, each with its mark.
pub open spec fn marked_lines(lines: Seq<LineView>) -> Seq<char>
    decreases lines.len(),
{
    if lines.len() == 0 {
        Seq::empty()
    } else {
        marked_lines(lines.drop_last()).push(line_mark(lines.last().op)) + lines.last().text
    }
}

/// A hunk: how many lines of the old and of the new text are in front of it, and
/// its lines.
pub struct HunkView {
    pub old_before: nat,
    pub new_before: nat,
    pub lines: Seq<LineView>,
}

/// The hunk of a range of lines. The old text holds the lines that are not
/// added, the new one those that are not removed.
pub open spec fn hunk_of(lines: Seq<LineView>, start: int, end: int) -> HunkView {
    HunkView {
        old_before: count_without(lines.take(start), LineOp::Add),
        new_before: count_without(lines.take(start), LineOp::Remove),
        lines: lines.subrange(start, end),
    }
}

/// The hunks of some ranges of lines.
pub open spec fn hunks_of(lines: Seq<LineView>, ranges: Seq<(int, int)>) -> Seq<HunkView> {
    ranges.map_values(|range: (int, int)| hunk_of(lines, range.0, range.1))
}

/// The text of a hunk: its header and its lines.
pub open spec fn hunk_text(hunk: HunkView) -> Seq<char> {
    "@@ "@ + range_text("-"@, hunk.old_before, count_without(hunk.lines, LineOp::Add)) + " "@
        + range_text("+"@, hunk.new_before, count_without(hunk.lines, LineOp::Remove)) + " @@\n"@
        + marked_lines(hunk.lines)
}

/// The texts of hunks one after the other.
pub open spec fn hunk_texts(hunks: Seq<HunkView>) -> Seq<char>
    decreases hunks.len(),
{
    if hunks.len() == 0 {
        Seq::empty()
    } else {
        hunk_texts(hunks.drop_last()) + hunk_text(hunks.last())
    }
}

/// The hunks of the patch between two texts.
pub open spec fn patch_hunks(old: Seq<char>, new: Seq<char>, context: nat) -> Seq<HunkView> {
    let lines = line_script(old, new);
    hunks_of(lines, hunks_from(lines, context, 0, Seq::empty()))
}

/// The unified patch between two texts.
pub open spec fn unified_patch(path: Seq<char>, old: Seq<char>, new: Seq<char>, context: nat) -> Seq<
    char,
> {
    "--- "@ + path + "\n+++ "@ + path + "\n"@ + hunk_texts(patch_hunks(old, new, context))
}

/// Whether hunks lie inside the lines.
pub open spec fn hunks_inside(hunks: Seq<(int, int)>, n: int) -> bool {
    forall|k: int|
        0 <= k < hunks.len() ==> 0 <= (#[trigger] hunks[k]).0 < hunks[k].1 && hunks[k].1 <= n
}

spec fn pair_views(s: Seq<(usize, usize)>) -> Seq<(int, int)> {
    Seq::new(s.len(), |i: int| (s[i].0 as int, s[i].1 as int))
}

fn find_hunks(lines: &Vec<ScriptLine>, context_lines: usize) -> (r: Vec<(usize, usize)>)
    ensures
        pair_views(r@) == hunks_from(
            line_views(lines@),
            context_lines as nat,
            0,
            Seq::empty(),
        ),
        hunks_inside(pair_views(r@), lines@.len() as int),
{
    let ghost views = line_views(lines@);
    let ghost context = context_lines as nat;
    let n: usize = lines.len();
    let mut hunks: Vec<(usize, usize)> = Vec::new();
    let mut at: usize = 0;
    proof {
        assert(pair_views(hunks@) =~= Seq::<(int, int)>::empty());
    }
    while at < n
        invariant
            at <= n == lines@.len(),
            views == line_views(lines@),
            context == context_lines,
            hunks_inside(pair_views(hunks@), n as int),
            hunks_from(views, context, 0, Seq::empty()) == hunks_from(
                views,
                context,
                at as int,
                pair_views(hunks@),
            ),
        decreases n - at,
    {
        if lines[at].op == LineOp::Context {
            at = at + 1;
        } else {
            let start: usize = if at > context_lines {
                at - context_lines
            } else {
                0
            };
            let mut end: usize = at + 1;
            while end < n && lines[end].op != LineOp::Context
                invariant
                    at < end <= n == lines@.len(),
                    views == line_views(lines@),
                    change_end(views, at as int) == change_end(views, end as int),
                decreases n - end,
            {
                end = end + 1;
            }
            proof {
                assert(change_end(views, end as int) == end);
            }
            if context_lines < n - end {
                end = end + context_lines;
            } else {
                end = n;
            }
            proof {
                assert(end == hunk_end(views, at as int, context));
                assert(start == hunk_start(at as int, context));
            }
            let ghost before = pair_views(hunks@);
            let count: usize = hunks.len();
            if count > 0 && start <= hunks[count - 1].1 {
                let last: (usize, usize) = hunks[count - 1];
                let joined: usize = if last.1 > end {
                    last.1
                } else {
                    end
                };
                proof {
                    assert(before[count - 1] == (last.0 as int, last.1 as int));
                }
                hunks.set(count - 1, (last.0, joined));
            } else {
                hunks.push((start, end));
            }
            proof {
                assert(pair_views(hunks@) =~= with_hunk(before, start as int, end as int));
                let now = pair_views(hunks@);
                assert forall|k: int| 0 <= k < now.len() implies 0 <= (#[trigger] now[k]).0
                    < now[k].1 && now[k].1 <= n by {
                    if k < before.len() {
                        assert(before[k].0 < before[k].1);
                    }
                }
            }
            at = end;
        }
    }
    hunks
}

fn count_lines(lines: &Vec<ScriptLine>, from: usize, to: usize, without: LineOp) -> (r: usize)
    requires
        from <= to <= lines@.len(),
    ensures
        r == count_without(line_views(lines@).subrange(from as int, to as int), without),
        r <= to - from,
{
    let ghost views = line_views(lines@);
    let mut count: usize = 0;
    let mut i: usize = from;
    while i < to
        invariant
            from <= i <= to <= lines@.len(),
            views == line_views(lines@),
            count <= i - from,
            count == count_without(views.subrange(from as int, i as int), without),
        decreases to - i,
    {
        proof {
            let longer = views.subrange(from as int, i as int + 1);
            assert(longer.drop_last() =~= views.subrange(from as int, i as int));
            assert(longer.last() == lines@[i as int]@);
        }
        if lines[i].op != without {
            count = count + 1;
        }
        i = i + 1;
    }
    count
}

fn build_range(sign: &str, before: usize, count: usize) -> (r: String)
    requires
        before < usize::MAX || count == 0,
    ensures
        r@ == range_text(sign@, before as nat, count as nat),
{
    if count == 0 {
        concat3(sign, decimal_text(before as u64).as_str(), ",0")
    } else {
        concat4(
            sign,
            decimal_text((before + 1) as u64).as_str(),
            ",",
            decimal_text(count as u64).as_str(),
        )
    }
}

fn append_marked(out: &mut String, lines: &Vec<ScriptLine>, from: usize, to: usize)
    requires
        from <= to <= lines@.len(),
    ensures
        final(out)@ == old(out)@ + marked_lines(
            line_views(lines@).subrange(from as int, to as int),
        ),
{
    let ghost views = line_views(lines@);
    let ghost before = out@;
    let mut i: usize = from;
    proof {
        assert(before + marked_lines(views.subrange(from as int, from as int)) =~= before);
    }
    while i < to
        invariant
            from <= i <= to <= lines@.len(),
            views == line_views(lines@),
            out@ == before + marked_lines(views.subrange(from as int, i as int)),
        decreases to - i,
    {
        let mark: char = match lines[i].op {
            LineOp::Context => ' ',
            LineOp::Remove => '-',
            LineOp::Add => '+',
        };
        out.push(mark);
        out.append(lines[i].text.as_str());
        proof {
            let shorter = views.subrange(from as int, i as int);
            let longer = views.subrange(from as int, i as int + 1);
            assert(longer.drop_last() =~= shorter);
            assert(longer.last() == lines@[i as int]@);
            assert(before + marked_lines(longer) =~= (before + marked_lines(shorter)).push(mark)
                + lines@[i as int].text@);
        }
        i = i + 1;
    }
}

/// The unified patch between two texts.
pub fn generate_unified_patch(
    path: &str,
    old_content: &str,
    new_content: &str,
    context_lines: usize,
) -> (r: String)
    ensures
        r@ == unified_patch(path@, old_content@, new_content@, context_lines as nat),
{
    let lines: Vec<ScriptLine> = build_script(old_content, new_content);
    let ghost views = line_views(lines@);
    let hunks: Vec<(usize, usize)> = find_hunks(&lines, context_lines);
    let ghost pairs = pair_views(hunks@);
    let mut patch: String = concat5("--- ", path, "\n+++ ", path, "\n");
    let ghost head = patch@;
    let mut k: usize = 0;
    proof {
        assert(hunks_of(views, pairs).take(0) =~= Seq::<HunkView>::empty());
        assert(head + hunk_texts(hunks_of(views, pairs).take(0)) =~= head);
    }
    while k < hunks.len()
        invariant
            k <= hunks@.len(),
            views == line_views(lines@),
            pairs == pair_views(hunks@),
            hunks_inside(pairs, lines@.len() as int),
            patch@ == head + hunk_texts(hunks_of(views, pairs).take(k as int)),
        decreases hunks@.len() - k,
    {
        let start: usize = hunks[k].0;
        let end: usize = hunks[k].1;
        proof {
            assert(pairs[k as int] == (start as int, end as int));
            assert(views.subrange(0, start as int) =~= views.take(start as int));
        }
        let old_before: usize = count_lines(&lines, 0, start, LineOp::Add);
        let old_count: usize = count_lines(&lines, start, end, LineOp::Add);
        let new_before: usize = count_lines(&lines, 0, start, LineOp::Remove);
        let new_count: usize = count_lines(&lines, start, end, LineOp::Remove);
        let old_range: String = build_range("-", old_before, old_count);
        let new_range: String = build_range("+", new_before, new_count);
        let header: String = concat5("@@ ", old_range.as_str(), " ", new_range.as_str(), " @@\n");
        let ghost before = patch@;
        patch.append(header.as_str());
        append_marked(&mut patch, &lines, start, end);
        proof {
            let all = hunks_of(views, pairs);
            assert(all.take(k as int + 1).drop_last() =~= all.take(k as int));
            assert(all.take(k as int + 1).last() == hunk_of(views, start as int, end as int));
            assert(patch@ =~= before + hunk_text(hunk_of(views, start as int, end as int)));
            assert(patch@ =~= head + hunk_texts(all.take(k as int + 1)));
        }
        k = k + 1;
    }
    proof {
        let all = hunks_of(views, pairs);
        assert(all.take(all.len() as int) =~= all);
        assert(patch@ =~= unified_patch(path@, old_content@, new_content@, context_lines as nat));
    }
    patch
}

/// Whether a line lies in one of the hunks.
pub open spec fn in_a_hunk(hunks: Seq<(int, int)>, i: int) -> bool {
    exists|k: int| 0 <= k < hunks.len() && (#[trigger] hunks[k]).0 <= i < hunks[k].1
}

proof fn lemma_with_hunk(hunks: Seq<(int, int)>, start: int, end: int, i: int)
    requires
        in_a_hunk(hunks, i) || start <= i < end,
        hunks.len() > 0 ==> hunks.last().0 <= start,
    ensures
        in_a_hunk(with_hunk(hunks, start, end), i),
{
    let now = with_hunk(hunks, start, end);
    if in_a_hunk(hunks, i) {
        let k = choose|k: int| 0 <= k < hunks.len() && (#[trigger] hunks[k]).0 <= i < hunks[k].1;
        assert(now[k].0 <= i < now[k].1);
    } else {
        let k = now.len() - 1;
        assert(now[k].0 <= i < now[k].1);
    }
}

proof fn lemma_hunks_cover(lines: Seq<LineView>, context: nat, at: int, hunks: Seq<(int, int)>)
    requires
        0 <= at <= lines.len(),
        hunks_inside(hunks, lines.len() as int),
        hunks.len() > 0 ==> hunks.last().0 <= hunk_start(at, context),
        forall|i: int|
            0 <= i < at && (#[trigger] lines[i]).op != LineOp::Context ==> in_a_hunk(hunks, i),
    ensures
        hunks_inside(hunks_from(lines, context, at, hunks), lines.len() as int),
        forall|i: int|
            0 <= i < lines.len() && (#[trigger] lines[i]).op != LineOp::Context ==> in_a_hunk(
                hunks_from(lines, context, at, hunks),
                i,
            ),
    decreases lines.len() - at,
{
    if at < lines.len() {
        if lines[at].op == LineOp::Context {
            lemma_hunks_cover(lines, context, at + 1, hunks);
        } else {
            lemma_change_end(lines, at);
            let start = hunk_start(at, context);
            let end = hunk_end(lines, at, context);
            let next = with_hunk(hunks, start, end);
            assert forall|k: int| 0 <= k < next.len() implies 0 <= (#[trigger] next[k]).0
                < next[k].1 && next[k].1 <= lines.len() by {
                if k < hunks.len() {
                    assert(hunks[k].0 < hunks[k].1);
                }
            }
            assert forall|i: int|
                0 <= i < end && (#[trigger] lines[i]).op != LineOp::Context implies in_a_hunk(
                next,
                i,
            ) by {
                lemma_with_hunk(hunks, start, end, i);
            }
            lemma_hunks_cover(lines, context, end, next);
        }
    }
}

/// Every changed line lies in a hunk of the patch, and every hunk lies inside
/// the lines.
pub proof fn law_patches_cover_every_change(lines: Seq<LineView>, context: nat)
    ensures
        hunks_inside(hunks_from(lines, context, 0, Seq::empty()), lines.len() as int),
        forall|i: int|
            0 <= i < lines.len() && (#[trigger] lines[i]).op != LineOp::Context ==> in_a_hunk(
                hunks_from(lines, context, 0, Seq::empty()),
                i,
            ),
{
    lemma_hunks_cover(lines, context, 0, Seq::empty());
}

/// Whether hunks follow each other without sharing a line.
pub open spec fn hunks_apart(hunks: Seq<(int, int)>) -> bool {
    forall|j: int, k: int|
        0 <= j < k < hunks.len() ==> (#[trigger] hunks[j]).1 <= (#[trigger] hunks[k]).0
}

proof fn lemma_hunks_apart(lines: Seq<LineView>, context: nat, at: int, hunks: Seq<(int, int)>)
    requires
        0 <= at <= lines.len(),
        hunks_inside(hunks, lines.len() as int),
        hunks_apart(hunks),
        hunks.len() > 0 ==> hunks.last().0 <= hunk_start(at, context),
    ensures
        hunks_apart(hunks_from(lines, context, at, hunks)),
    decreases lines.len() - at,
{
    if at < lines.len() {
        if lines[at].op == LineOp::Context {
            lemma_hunks_apart(lines, context, at + 1, hunks);
        } else {
            lemma_change_end(lines, at);
            let end = hunk_end(lines, at, context);
            let next = with_hunk(hunks, hunk_start(at, context), end);
            assert forall|k: int| 0 <= k < next.len() implies 0 <= (#[trigger] next[k]).0
                < next[k].1 && next[k].1 <= lines.len() by {
                if k < hunks.len() {
                    assert(hunks[k].0 < hunks[k].1);
                }
            }
            assert forall|j: int, k: int| 0 <= j < k < next.len() implies (#[trigger] next[j]).1
                <= (#[trigger] next[k]).0 by {
                let last = hunks.len() - 1;
                assert(next[j] == hunks[j]);
                assert(hunks[last].0 < hunks[last].1);
                if k < hunks.len() {
                    assert(hunks[j].1 <= hunks[k].0);
                } else if j < last {
                    assert(hunks[j].1 <= hunks[last].0);
                }
            }
            lemma_hunks_apart(lines, context, end, next);
        }
    }
}

/// What hunks have made of the lines of the old text, and how many of these they
/// have reached. There is nothing where a hunk does not fit: it stands in front
/// of where the last one ended, the old lines there are not those that it names,
/// or the new lines before it are not as many as it says.
pub open spec fn patched_part(old: Seq<Seq<char>>, hunks: Seq<HunkView>) -> Option<
    (Seq<Seq<char>>, int),
>
    decreases hunks.len(),
{
    if hunks.len() == 0 {
        Some((Seq::empty(), 0))
    } else {
        match patched_part(old, hunks.drop_last()) {
            Some((done, at)) => {
                let hunk = hunks.last();
                let named = side(hunk.lines, LineOp::Add);
                let end = hunk.old_before + named.len();
                let before = done + old.subrange(at, hunk.old_before as int);
                if at <= hunk.old_before && end <= old.len() && old.subrange(
                    hunk.old_before as int,
                    end as int,
                ) == named && before.len() == hunk.new_before {
                    Some((before + side(hunk.lines, LineOp::Remove), end as int))
                } else {
                    None
                }
            },
            None => None,
        }
    }
}

/// The text that hunks make of an old one, if they fit it.
pub open spec fn patched(old: Seq<char>, hunks: Seq<HunkView>) -> Option<Seq<char>> {
    let lines = lines_of(old);
    match patched_part(lines, hunks) {
        Some((done, at)) => Some(concat_all(done + lines.skip(at))),
        None => None,
    }
}

pub proof fn lemma_side_concat(a: Seq<LineView>, b: Seq<LineView>, without: LineOp)
    ensures
        side(a + b, without) == side(a, without) + side(b, without),
    decreases a.len(),
{
    if a.len() == 0 {
        assert(a + b =~= b);
        assert(side(a + b, without) =~= side(a, without) + side(b, without));
    } else {
        lemma_side_concat(a.drop_first(), b, without);
        assert((a + b).drop_first() =~= a.drop_first() + b);
        assert(side(a + b, without) =~= side(a, without) + side(b, without));
    }
}

proof fn lemma_side_count(lines: Seq<LineView>, without: LineOp)
    ensures
        side(lines, without).len() == count_without(lines, without),
    decreases lines.len(),
{
    if lines.len() > 0 {
        lemma_side_last(lines, without);
        lemma_side_count(lines.drop_last(), without);
    }
}

proof fn lemma_context_sides(lines: Seq<LineView>)
    requires
        forall|i: int| 0 <= i < lines.len() ==> (#[trigger] lines[i]).op == LineOp::Context,
    ensures
        side(lines, LineOp::Add) == side(lines, LineOp::Remove),
    decreases lines.len(),
{
    if lines.len() > 0 {
        assert(lines[0].op == LineOp::Context);
        let rest = lines.drop_first();
        assert forall|i: int| 0 <= i < rest.len() implies (#[trigger] rest[i]).op
            == LineOp::Context by {
            assert(rest[i] == lines[i + 1]);
        }
        lemma_context_sides(rest);
    }
}

/// The lines between two positions, outside of all hunks, are common lines.
proof fn lemma_gap(lines: Seq<LineView>, ranges: Seq<(int, int)>, k: int)
    requires
        0 <= k <= ranges.len(),
        hunks_inside(ranges, lines.len() as int),
        hunks_apart(ranges),
        forall|i: int|
            0 <= i < lines.len() && (#[trigger] lines[i]).op != LineOp::Context ==> in_a_hunk(
                ranges,
                i,
            ),
    ensures
        ({
            let from = if k == 0 {
                0
            } else {
                ranges[k - 1].1
            };
            let to = if k == ranges.len() {
                lines.len() as int
            } else {
                ranges[k].0
            };
            &&& 0 <= from <= to <= lines.len()
            &&& side(lines.subrange(from, to), LineOp::Add) == side(
                lines.subrange(from, to),
                LineOp::Remove,
            )
        }),
{
    let from = if k == 0 {
        0
    } else {
        ranges[k - 1].1
    };
    let to = if k == ranges.len() {
        lines.len() as int
    } else {
        ranges[k].0
    };
    if k > 0 {
        assert(ranges[k - 1].0 < ranges[k - 1].1);
    }
    if k < ranges.len() {
        assert(ranges[k].0 < ranges[k].1);
        assert(k > 0 ==> ranges[k - 1].1 <= ranges[k].0);
    }
    let gap = lines.subrange(from, to);
    assert forall|i: int| 0 <= i < gap.len() implies (#[trigger] gap[i]).op
        == LineOp::Context by {
        let at = from + i;
        assert(gap[i] == lines[at]);
        if lines[at].op != LineOp::Context {
            assert(in_a_hunk(ranges, at));
            let j = choose|j: int|
                0 <= j < ranges.len() && (#[trigger] ranges[j]).0 <= at < ranges[j].1;
            if j < k - 1 {
                assert(ranges[j].1 <= ranges[k - 1].0);
            } else if j > k {
                assert(ranges[k].1 <= ranges[j].0);
            }
        }
    }
    lemma_context_sides(gap);
}

proof fn lemma_patched_part(lines: Seq<LineView>, ranges: Seq<(int, int)>, k: int)
    requires
        0 <= k <= ranges.len(),
        hunks_inside(ranges, lines.len() as int),
        hunks_apart(ranges),
        forall|i: int|
            0 <= i < lines.len() && (#[trigger] lines[i]).op != LineOp::Context ==> in_a_hunk(
                ranges,
                i,
            ),
    ensures
        ({
            let end = if k == 0 {
                0
            } else {
                ranges[k - 1].1
            };
            patched_part(side(lines, LineOp::Add), hunks_of(lines, ranges).take(k)) == Some(
                (
                    side(lines.take(end), LineOp::Remove),
                    side(lines.take(end), LineOp::Add).len() as int,
                ),
            )
        }),
    decreases k,
{
    let old = side(lines, LineOp::Add);
    let hunks = hunks_of(lines, ranges);
    if k == 0 {
        assert(lines.take(0) =~= Seq::<LineView>::empty());
        assert(hunks.take(0) =~= Seq::<HunkView>::empty());
        assert(side(lines.take(0), LineOp::Remove) =~= Seq::<Seq<char>>::empty());
    } else {
        lemma_patched_part(lines, ranges, k - 1);
        lemma_gap(lines, ranges, k - 1);
        let from = if k == 1 {
            0
        } else {
            ranges[k - 2].1
        };
        let start = ranges[k - 1].0;
        let end = ranges[k - 1].1;
        assert(start < end <= lines.len());
        let front = lines.take(from);
        let gap = lines.subrange(from, start);
        let body = lines.subrange(start, end);
        let rest = lines.skip(end);
        let hunk = hunk_of(lines, start, end);
        assert(hunks.take(k).drop_last() =~= hunks.take(k - 1));
        assert(hunks.take(k).last() == hunk);
        assert(lines.take(start) =~= front + gap);
        assert(lines.take(end) =~= lines.take(start) + body);
        assert(lines =~= lines.take(end) + rest);
        lemma_side_concat(front, gap, LineOp::Add);
        lemma_side_concat(front, gap, LineOp::Remove);
        lemma_side_concat(lines.take(start), body, LineOp::Add);
        lemma_side_concat(lines.take(start), body, LineOp::Remove);
        lemma_side_concat(lines.take(end), rest, LineOp::Add);
        lemma_side_count(lines.take(start), LineOp::Add);
        lemma_side_count(lines.take(start), LineOp::Remove);
        let at = side(front, LineOp::Add).len() as int;
        let before = hunk.old_before as int;
        let named = side(body, LineOp::Add);
        assert(old.subrange(at, before) =~= side(gap, LineOp::Add));
        assert(old.subrange(before, before + named.len()) =~= named);
    }
}

/// The hunks of the patch between two texts fit the old text and make the new one
/// of it.
pub proof fn law_patches_make_the_new_text(old: Seq<char>, new: Seq<char>, context: nat)
    ensures
        patched(old, patch_hunks(old, new, context)) == Some(new),
{
    let lines = line_script(old, new);
    let ranges = hunks_from(lines, context, 0, Seq::empty());
    let hunks = hunks_of(lines, ranges);
    let n = ranges.len() as int;
    law_patches_cover_every_change(lines, context);
    lemma_hunks_apart(lines, context, 0, Seq::empty());
    lemma_patched_part(lines, ranges, n);
    lemma_gap(lines, ranges, n);
    assert(hunks.take(n) =~= hunks);
    let end = if n == 0 {
        0
    } else {
        ranges[n - 1].1
    };
    let rest = lines.subrange(end, lines.len() as int);
    assert(lines =~= lines.take(end) + rest);
    lemma_side_concat(lines.take(end), rest, LineOp::Add);
    lemma_side_concat(lines.take(end), rest, LineOp::Remove);
    lemma_script_sides(lines_of(old), lines_of(new), 0, 0);
    assert(lines_of(old).skip(0) =~= lines_of(old));
    let at = side(lines.take(end), LineOp::Add).len() as int;
    assert(lines_of(old).skip(at) =~= side(rest, LineOp::Add));
    law_scripts_hold_both_texts(old, new);
}

// ---------------------------------------------------------------------------
// Diffs for display
// ---------------------------------------------------------------------------

/// The lines of a part without their line feeds.
pub open spec fn raw_lines(value: Seq<char>) -> Seq<Seq<char>> {
    let pieces = split(value, '\n');
    if pieces.last() == Seq::<char>::empty() {
        pieces.drop_last()
    } else {
        pieces
    }
}

/// A number with spaces before it, up to a width.
pub open spec fn padded(number: nat, width: nat) -> Seq<char> {
    let digits = decimal(number);
    if digits.len() < width {
        Seq::new((width - digits.len()) as nat, |i: int| ' ') + digits
    } else {
        digits
    }
}

/// A line with its mark and its number.
pub open spec fn numbered(mark: char, number: nat, width: nat, line: Seq<char>) -> Seq<char> {
    seq![mark] + padded(number, width) + " "@ + line
}

/// Lines with a mark, numbered from a number on.
pub open spec fn numbered_lines(
    mark: char,
    lines: Seq<Seq<char>>,
    number: nat,
    width: nat,
) -> Seq<Seq<char>> {
    Seq::new(lines.len(), |i: int| numbered(mark, (number + i) as nat, width, lines[i]))
}

/// What is shown of common lines: some of them after a change and some before
/// one, with dots for what is left out between.
pub open spec fn shown_context(
    lines: Seq<Seq<char>>,
    number: nat,
    width: nat,
    after_change: bool,
    before_change: bool,
    context: nat,
) -> Seq<Seq<char>> {
    let most = if context < lines.len() {
        context
    } else {
        lines.len()
    };
    let head = if after_change {
        most
    } else {
        0
    };
    let tail = if before_change {
        most
    } else {
        0
    };
    if !after_change && !before_change {
        Seq::empty()
    } else if head + tail >= lines.len() {
        numbered_lines(' ', lines, number, width)
    } else {
        numbered_lines(' ', lines.take(head as int), number, width).push(
            numbered(' ', 0, width, "..."@),
        ) + numbered_lines(
            ' ',
            lines.skip(lines.len() - tail),
            (number + lines.len() - tail) as nat,
            width,
        )
    }
}

/// How far a diff has been written.
pub struct DisplayView {
    pub lines: Seq<Seq<char>>,
    pub old_line: nat,
    pub new_line: nat,
    pub after_change: bool,
    pub first_changed: Option<nat>,
}

/// A diff with one more part.
pub open spec fn display_step(
    at: DisplayView,
    run: RunView,
    before_change: bool,
    width: nat,
    context: nat,
) -> DisplayView {
    let raw = raw_lines(concat_all(run.lines));
    let first = if at.first_changed is None {
        Some(at.new_line)
    } else {
        at.first_changed
    };
    match run.op {
        LineOp::Add => DisplayView {
            lines: at.lines + numbered_lines('+', raw, at.new_line, width),
            old_line: at.old_line,
            new_line: at.new_line + raw.len(),
            after_change: true,
            first_changed: first,
        },
        LineOp::Remove => DisplayView {
            lines: at.lines + numbered_lines('-', raw, at.old_line, width),
            old_line: at.old_line + raw.len(),
            new_line: at.new_line,
            after_change: true,
            first_changed: first,
        },
        LineOp::Context => DisplayView {
            lines: at.lines + shown_context(
                raw,
                at.old_line,
                width,
                at.after_change,
                before_change,
                context,
            ),
            old_line: at.old_line + raw.len(),
            new_line: at.new_line + raw.len(),
            after_change: false,
            first_changed: at.first_changed,
        },
    }
}

/// Whether the part at a position is a change.
pub open spec fn is_change(runs: Seq<RunView>, i: int) -> bool {
    0 <= i < runs.len() && runs[i].op != LineOp::Context
}

/// A diff of the first parts.
pub open spec fn display(runs: Seq<RunView>, n: nat, width: nat, context: nat) -> DisplayView
    decreases n,
{
    if n == 0 {
        DisplayView {
            lines: Seq::empty(),
            old_line: 1,
            new_line: 1,
            after_change: false,
            first_changed: None,
        }
    } else {
        display_step(
            display(runs, (n - 1) as nat, width, context),
            runs[n - 1],
            is_change(runs, n as int),
            width,
            context,
        )
    }
}

/// How wide line numbers are: as wide as the largest.
pub open spec fn number_width(old: Seq<char>, new: Seq<char>) -> nat {
    let a = split(old, '\n').len();
    let b = split(new, '\n').len();
    decimal(
        if a > b {
            a
        } else {
            b
        },
    ).len()
}

/// The diff between two texts, as shown.
pub open spec fn shown_diff(old: Seq<char>, new: Seq<char>, context: nat) -> DisplayView {
    let runs = runs_of(line_script(old, new));
    display(runs, runs.len(), number_width(old, new), context)
}

proof fn lemma_raw_count(s: Seq<char>)
    ensures
        1 <= split(s, '\n').len() <= s.len() + 1,
        raw_lines(s).len() <= s.len(),
    decreases s.len(),
{
    if s.len() > 0 {
        lemma_raw_count(s.drop_last());
    }
}

/// How many characters the parts hold that are not of the given kind.
spec fn run_chars(runs: Seq<RunView>, without: LineOp) -> nat
    decreases runs.len(),
{
    if runs.len() == 0 {
        0
    } else if runs.last().op == without {
        run_chars(runs.drop_last(), without)
    } else {
        run_chars(runs.drop_last(), without) + concat_all(runs.last().lines).len()
    }
}

pub proof fn lemma_side_last(lines: Seq<LineView>, without: LineOp)
    requires
        lines.len() > 0,
    ensures
        side(lines, without) == if lines.last().op == without {
            side(lines.drop_last(), without)
        } else {
            side(lines.drop_last(), without).push(lines.last().text)
        },
    decreases lines.len(),
{
    if lines.len() == 1 {
        assert(lines.drop_first() =~= Seq::<LineView>::empty());
        assert(lines.drop_last() =~= Seq::<LineView>::empty());
    } else {
        lemma_side_last(lines.drop_first(), without);
        assert(lines.drop_first().drop_last() =~= lines.drop_last().drop_first());
        assert(lines.drop_last()[0] == lines[0]);
    }
    assert(side(lines, without) =~= if lines.last().op == without {
        side(lines.drop_last(), without)
    } else {
        side(lines.drop_last(), without).push(lines.last().text)
    });
}

proof fn lemma_run_chars(lines: Seq<LineView>, without: LineOp)
    ensures
        run_chars(runs_of(lines), without) == concat_all(side(lines, without)).len(),
    decreases lines.len(),
{
    if lines.len() > 0 {
        let shorter = lines.drop_last();
        lemma_run_chars(shorter, without);
        lemma_side_last(lines, without);
        lemma_concat_push(side(shorter, without), lines.last().text);
        let before = runs_of(shorter);
        let now = runs_of(lines);
        if before.len() > 0 && before.last().op == lines.last().op {
            assert(now.drop_last() =~= before.drop_last());
            lemma_concat_push(before.last().lines, lines.last().text);
        } else {
            assert(now.drop_last() =~= before);
            lemma_concat_push(Seq::<Seq<char>>::empty(), lines.last().text);
            assert(seq![lines.last().text] =~= Seq::<Seq<char>>::empty().push(lines.last().text));
        }
    }
}

proof fn lemma_run_chars_grow(runs: Seq<RunView>, n: int, without: LineOp)
    requires
        0 <= n <= runs.len(),
    ensures
        run_chars(runs.take(n), without) <= run_chars(runs, without),
    decreases runs.len(),
{
    if n == runs.len() {
        assert(runs.take(n) =~= runs);
    } else {
        lemma_run_chars_grow(runs.drop_last(), n, without);
        assert(runs.drop_last().take(n) =~= runs.take(n));
    }
}

proof fn lemma_display_numbers(old: Seq<char>, new: Seq<char>, n: nat, width: nat, context: nat)
    requires
        n <= runs_of(line_script(old, new)).len(),
    ensures
        display(runs_of(line_script(old, new)), n, width, context).old_line <= old.len() + 1,
        display(runs_of(line_script(old, new)), n, width, context).new_line <= new.len() + 1,
{
    let runs = runs_of(line_script(old, new));
    lemma_display_chars(runs, n, width, context);
    lemma_run_chars_grow(runs, n as int, LineOp::Add);
    lemma_run_chars_grow(runs, n as int, LineOp::Remove);
    lemma_run_chars(line_script(old, new), LineOp::Add);
    lemma_run_chars(line_script(old, new), LineOp::Remove);
    law_scripts_hold_both_texts(old, new);
}

proof fn lemma_display_chars(runs: Seq<RunView>, n: nat, width: nat, context: nat)
    requires
        n <= runs.len(),
    ensures
        display(runs, n, width, context).old_line <= run_chars(
            runs.take(n as int),
            LineOp::Add,
        ) + 1,
        display(runs, n, width, context).new_line <= run_chars(
            runs.take(n as int),
            LineOp::Remove,
        ) + 1,
    decreases n,
{
    if n > 0 {
        lemma_display_chars(runs, (n - 1) as nat, width, context);
        assert(runs.take(n as int).drop_last() =~= runs.take(n - 1));
        lemma_raw_count(concat_all(runs[n - 1].lines));
    }
}

fn pad_number(number: usize, width: usize) -> (r: String)
    ensures
        r@ == padded(number as nat, width as nat),
{
    let digits: String = decimal_text(number as u64);
    let count: usize = digits.as_str().unicode_len();
    let mut out: String = String::new();
    if count < width {
        let missing: usize = width - count;
        let mut i: usize = 0;
        while i < missing
            invariant
                i <= missing,
                out@ == Seq::new(i as nat, |k: int| ' '),
            decreases missing - i,
        {
            out.push(' ');
            proof {
                assert(out@ =~= Seq::new((i + 1) as nat, |k: int| ' '));
            }
            i = i + 1;
        }
    }
    out.append(digits.as_str());
    proof {
        assert(out@ =~= padded(number as nat, width as nat));
    }
    out
}

fn numbered_line(mark: char, number: usize, width: usize, line: &str) -> (r: String)
    ensures
        r@ == numbered(mark, number as nat, width as nat, line@),
{
    let pad: String = pad_number(number, width);
    let mut out: String = String::new();
    out.push(mark);
    out.append(pad.as_str());
    out.append(" ");
    out.append(line);
    proof {
        assert(out@ =~= numbered(mark, number as nat, width as nat, line@));
    }
    out
}

fn push_numbered(
    out: &mut Vec<String>,
    mark: char,
    lines: &Vec<String>,
    from: usize,
    to: usize,
    number: usize,
    width: usize,
)
    requires
        from <= to <= lines@.len(),
        number + (to - from) <= usize::MAX,
    ensures
        texts(final(out)@) == texts(old(out)@) + numbered_lines(
            mark,
            texts(lines@).subrange(from as int, to as int),
            number as nat,
            width as nat,
        ),
{
    let ghost before = texts(out@);
    let ghost all = texts(lines@);
    let mut i: usize = from;
    proof {
        assert(texts(out@) =~= before + numbered_lines(
            mark,
            all.subrange(from as int, from as int),
            number as nat,
            width as nat,
        ));
    }
    while i < to
        invariant
            from <= i <= to <= lines@.len(),
            number + (to - from) <= usize::MAX,
            all == texts(lines@),
            texts(out@) == before + numbered_lines(
                mark,
                all.subrange(from as int, i as int),
                number as nat,
                width as nat,
            ),
        decreases to - i,
    {
        let ghost held = out@;
        out.push(numbered_line(mark, number + (i - from), width, lines[i].as_str()));
        proof {
            assert(texts(out@) =~= texts(held).push(out@.last()@));
            assert(texts(out@) =~= before + numbered_lines(
                mark,
                all.subrange(from as int, i + 1),
                number as nat,
                width as nat,
            ));
        }
        i = i + 1;
    }
}

fn split_raw(value: &str) -> (r: Vec<String>)
    ensures
        texts(r@) == raw_lines(value@),
{
    let mut pieces: Vec<String> = split_text(value, '\n');
    let n: usize = pieces.len();
    let ghost before = pieces@;
    if pieces[n - 1].as_str().unicode_len() == 0 {
        proof {
            assert(pieces@[n - 1]@ =~= Seq::<char>::empty());
            assert(texts(pieces@).last() == Seq::<char>::empty());
        }
        pieces.pop();
        proof {
            assert(texts(pieces@) =~= texts(before).drop_last());
        }
    } else {
        proof {
            assert(texts(pieces@).last() == pieces@[n - 1]@);
        }
    }
    pieces
}

fn push_context(
    out: &mut Vec<String>,
    lines: &Vec<String>,
    number: usize,
    width: usize,
    after_change: bool,
    before_change: bool,
    context: usize,
)
    requires
        number + lines@.len() <= usize::MAX,
    ensures
        texts(final(out)@) == texts(old(out)@) + shown_context(
            texts(lines@),
            number as nat,
            width as nat,
            after_change,
            before_change,
            context as nat,
        ),
{
    let ghost before = texts(out@);
    let ghost all = texts(lines@);
    let n: usize = lines.len();
    let most: usize = if context < n {
        context
    } else {
        n
    };
    let head: usize = if after_change {
        most
    } else {
        0
    };
    let tail: usize = if before_change {
        most
    } else {
        0
    };
    if !after_change && !before_change {
        proof {
            assert(texts(out@) =~= before + Seq::<Seq<char>>::empty());
        }
    } else if head >= n - tail {
        push_numbered(out, ' ', lines, 0, n, number, width);
        proof {
            assert(all.subrange(0, n as int) =~= all);
        }
    } else {
        push_numbered(out, ' ', lines, 0, head, number, width);
        let ghost shown = out@;
        out.push(numbered_line(' ', 0, width, "..."));
        proof {
            assert(texts(out@) =~= texts(shown).push(out@.last()@));
        }
        push_numbered(out, ' ', lines, n - tail, n, number + (n - tail), width);
        proof {
            assert(all.subrange(0, head as int) =~= all.take(head as int));
            assert(all.subrange(n - tail, n as int) =~= all.skip(n - tail));
            assert(texts(out@) =~= before + shown_context(
                all,
                number as nat,
                width as nat,
                after_change,
                before_change,
                context as nat,
            ));
        }
    }
}

/// The diff between two texts for display, with numbered lines, and the number
/// of the first line of the new text that changed.
pub fn generate_diff_string(old_content: &str, new_content: &str, context_lines: usize) -> (r: (
    String,
    Option<usize>,
))
    requires
        old_content@.len() < usize::MAX,
        new_content@.len() < usize::MAX,
    ensures
        r.0@ == join(
            shown_diff(old_content@, new_content@, context_lines as nat).lines,
            "\n"@,
        ),
        r.1 is Some <==> shown_diff(
            old_content@,
            new_content@,
            context_lines as nat,
        ).first_changed is Some,
        r.1 is Some ==> r.1->0 == shown_diff(
            old_content@,
            new_content@,
            context_lines as nat,
        ).first_changed->0,
{
    let lines: Vec<ScriptLine> = build_script(old_content, new_content);
    let runs: Vec<Run> = collect_runs(&lines);
    let ghost views = runs_of(line_script(old_content@, new_content@));
    let a: usize = split_text(old_content, '\n').len();
    let b: usize = split_text(new_content, '\n').len();
    let most: usize = if a > b {
        a
    } else {
        b
    };
    let width: usize = decimal_text(most as u64).as_str().unicode_len();
    let ghost context = context_lines as nat;
    proof {
        assert(a == split(old_content@, '\n').len());
        assert(b == split(new_content@, '\n').len());
        assert(width == number_width(old_content@, new_content@));
    }
    let mut out: Vec<String> = Vec::new();
    let mut old_line: usize = 1;
    let mut new_line: usize = 1;
    let mut after_change: bool = false;
    let mut first: Option<usize> = None;
    let n: usize = runs.len();
    let mut i: usize = 0;
    proof {
        assert(texts(out@) =~= Seq::<Seq<char>>::empty());
    }
    while i < n
        invariant
            i <= n == runs@.len(),
            run_views(runs@) == views,
            views == runs_of(line_script(old_content@, new_content@)),
            context == context_lines,
            old_content@.len() < usize::MAX,
            new_content@.len() < usize::MAX,
            texts(out@) == display(views, i as nat, width as nat, context).lines,
            old_line == display(views, i as nat, width as nat, context).old_line,
            new_line == display(views, i as nat, width as nat, context).new_line,
            after_change == display(views, i as nat, width as nat, context).after_change,
            first is Some <==> display(views, i as nat, width as nat, context).first_changed is Some,
            first is Some ==> first->0 == display(
                views,
                i as nat,
                width as nat,
                context,
            ).first_changed->0,
        decreases n - i,
    {
        let value: String = join_all(&runs[i].lines);
        let raw: Vec<String> = split_raw(value.as_str());
        let count: usize = raw.len();
        proof {
            assert(views[i as int] == runs@[i as int]@);
            assert(count == raw_lines(value@).len());
            lemma_display_numbers(
                old_content@,
                new_content@,
                (i + 1) as nat,
                width as nat,
                context,
            );
        }
        let before_change: bool = i + 1 < n && runs[i + 1].op != LineOp::Context;
        proof {
            if i + 1 < n {
                assert(views[i + 1] == runs@[i + 1]@);
            }
            assert(before_change == is_change(views, i + 1));
        }
        match runs[i].op {
            LineOp::Add => {
                if first.is_none() {
                    first = Some(new_line);
                }
                push_numbered(&mut out, '+', &raw, 0, count, new_line, width);
                new_line = new_line + count;
                after_change = true;
            },
            LineOp::Remove => {
                if first.is_none() {
                    first = Some(new_line);
                }
                push_numbered(&mut out, '-', &raw, 0, count, old_line, width);
                old_line = old_line + count;
                after_change = true;
            },
            LineOp::Context => {
                push_context(
                    &mut out,
                    &raw,
                    old_line,
                    width,
                    after_change,
                    before_change,
                    context_lines,
                );
                old_line = old_line + count;
                new_line = new_line + count;
                after_change = false;
            },
        }
        proof {
            assert(texts(raw@).subrange(0, count as int) =~= texts(raw@));
        }
        i = i + 1;
    }
    (join_texts(out.as_slice(), "\n"), first)
}

} // verus!

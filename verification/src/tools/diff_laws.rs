//! What a diff for display shows: the changed lines and those near them, each
//! with its number in the text that it stands in.

use vstd::prelude::*;

use crate::text::{decimal, join, split};
use crate::tools::edit_diff::lemma_split_undoes_join;
use crate::tools::line_diff::{
    concat_all, display, is_change, law_lines_make_up_the_text, lemma_script_sides,
    lemma_side_concat, lemma_side_last, line_script, lines_of, numbered, numbered_lines, raw_lines,
    runs_of, shown_context, shown_diff, side, LineOp, LineView, RunView,
};

verus! {

// ---------------------------------------------------------------------------
// What is shown
// ---------------------------------------------------------------------------

/// A line without its line feed.
pub open spec fn chopped(line: Seq<char>) -> Seq<char> {
    if line.len() > 0 && line.last() == '\n' {
        line.drop_last()
    } else {
        line
    }
}

/// Whether a line is changed, or within some lines of one that is.
pub open spec fn near_change(lines: Seq<LineView>, context: nat, i: int) -> bool {
    exists|j: int|
        0 <= j < lines.len() && (#[trigger] lines[j]).op != LineOp::Context && i - context <= j <= i
            + context
}

/// Whether any line is changed.
pub open spec fn has_change(lines: Seq<LineView>) -> bool {
    exists|j: int| 0 <= j < lines.len() && (#[trigger] lines[j]).op != LineOp::Context
}

/// The number, counted from one, of the line at a position or behind it in the
/// text that lacks the lines of the given kind.
pub open spec fn number_at(lines: Seq<LineView>, without: LineOp, i: int) -> nat {
    lines.take(i).filter(|line: LineView| line.op != without).len() + 1
}

/// A line as it is shown: its mark, its number at the end of a column of the
/// given width, and its text.
pub open spec fn framed(mark: char, number: nat, width: nat, text: Seq<char>) -> Seq<char> {
    let digits = decimal(number);
    let pad = if digits.len() < width {
        (width - digits.len()) as nat
    } else {
        0
    };
    seq![mark] + Seq::new(pad, |i: int| ' ') + digits + " "@ + text
}

/// A line of the merged texts as it is shown: an added one with its number in the
/// new text, every other with its number in the old one.
pub open spec fn line_shown(lines: Seq<LineView>, width: nat, i: int) -> Seq<char> {
    let text = chopped(lines[i].text);
    match lines[i].op {
        LineOp::Add => framed('+', number_at(lines, LineOp::Remove, i), width, text),
        LineOp::Remove => framed('-', number_at(lines, LineOp::Add, i), width, text),
        LineOp::Context => framed(' ', number_at(lines, LineOp::Add, i), width, text),
    }
}

/// The lines near a change, with dots in place of each stretch of others.
pub open spec fn lines_near_changes(
    lines: Seq<LineView>,
    context: nat,
    width: nat,
    n: int,
) -> Seq<Seq<char>>
    decreases n,
{
    if n <= 0 {
        Seq::empty()
    } else {
        let before = lines_near_changes(lines, context, width, n - 1);
        if near_change(lines, context, n - 1) {
            before.push(line_shown(lines, width, n - 1))
        } else if has_change(lines) && (n == 1 || near_change(lines, context, n - 2)) {
            before.push(framed(' ', 0, width, "..."@))
        } else {
            before
        }
    }
}

/// The width of the column of numbers: that of the largest number of lines.
pub open spec fn column_width(old: Seq<char>, new: Seq<char>) -> nat {
    let a = split(old, '\n').len();
    let b = split(new, '\n').len();
    decimal(
        if a < b {
            b
        } else {
            a
        },
    ).len()
}

/// A diff shows exactly the changed lines and those within the context of one, in
/// order, with dots for what is left out.
pub proof fn law_diffs_show_what_is_near_a_change(old: Seq<char>, new: Seq<char>, context: nat)
    ensures
        shown_diff(old, new, context).lines == lines_near_changes(
            line_script(old, new),
            context,
            column_width(old, new),
            line_script(old, new).len() as int,
        ),
{
    let lines = line_script(old, new);
    let runs = runs_of(lines);
    lemma_runs(lines);
    lemma_run_shapes(old, new);
    lemma_display(lines, context, column_width(old, new), runs.len() as int);
}

/// The numbers that a diff shows are those of the lines: a line that is not added
/// stands under its number in the old text, one that is not removed under its
/// number in the new text.
pub proof fn law_shown_numbers_are_line_numbers(old: Seq<char>, new: Seq<char>, i: int)
    requires
        0 <= i < line_script(old, new).len(),
    ensures
        ({
            let lines = line_script(old, new);
            let in_old = number_at(lines, LineOp::Add, i) as int;
            let in_new = number_at(lines, LineOp::Remove, i) as int;
            &&& lines[i].op != LineOp::Add ==> in_old <= lines_of(old).len() && lines_of(
                old,
            )[in_old - 1] == lines[i].text
            &&& lines[i].op != LineOp::Remove ==> in_new <= lines_of(new).len() && lines_of(
                new,
            )[in_new - 1] == lines[i].text
        }),
{
    let lines = line_script(old, new);
    lemma_script_sides(lines_of(old), lines_of(new), 0, 0);
    assert(lines_of(old).skip(0) =~= lines_of(old));
    assert(lines_of(new).skip(0) =~= lines_of(new));
    if lines[i].op != LineOp::Add {
        lemma_side_at(lines, LineOp::Add, i);
    }
    if lines[i].op != LineOp::Remove {
        lemma_side_at(lines, LineOp::Remove, i);
    }
}

/// The first changed line is told by its number in the new text; there is none
/// exactly where nothing is changed.
pub proof fn law_the_first_change_is_told(old: Seq<char>, new: Seq<char>, context: nat)
    ensures
        ({
            let lines = line_script(old, new);
            match shown_diff(old, new, context).first_changed {
                Some(number) => exists|i: int|
                    0 <= i < lines.len() && (#[trigger] lines[i]).op != LineOp::Context && number
                        == number_at(lines, LineOp::Remove, i) && forall|j: int|
                        0 <= j < i ==> (#[trigger] lines[j]).op == LineOp::Context,
                None => !has_change(lines),
            }
        }),
{
    let lines = line_script(old, new);
    lemma_runs(lines);
    lemma_run_shapes(old, new);
    lemma_first_changed(lines, context, column_width(old, new), runs_of(lines).len() as int);
}

// ---------------------------------------------------------------------------
// Runs
// ---------------------------------------------------------------------------

/// Where a run starts among the lines.
spec fn run_start(runs: Seq<RunView>, n: int) -> int
    decreases n,
{
    if n <= 0 {
        0
    } else {
        run_start(runs, n - 1) + runs[n - 1].lines.len()
    }
}

/// Whether a run holds the lines from its start on.
spec fn run_holds(lines: Seq<LineView>, runs: Seq<RunView>, n: int) -> bool {
    &&& runs[n].lines.len() > 0
    &&& 0 <= run_start(runs, n)
    &&& run_start(runs, n + 1) <= lines.len()
    &&& forall|k: int|
        0 <= k < runs[n].lines.len() ==> lines[run_start(runs, n) + k] == (LineView {
            op: runs[n].op,
            text: #[trigger] runs[n].lines[k],
        })
}

spec fn runs_hold(lines: Seq<LineView>, runs: Seq<RunView>) -> bool {
    &&& run_start(runs, runs.len() as int) == lines.len()
    &&& forall|n: int| 0 <= n < runs.len() ==> #[trigger] run_holds(lines, runs, n)
    &&& forall|m: int, n: int|
        0 <= m < runs.len() && n == m + 1 && n < runs.len() ==> (#[trigger] runs[m]).op != (
        #[trigger] runs[n]).op
}

proof fn lemma_run_start_same(a: Seq<RunView>, b: Seq<RunView>, n: int)
    requires
        0 <= n <= a.len(),
        n <= b.len(),
        forall|k: int| 0 <= k < n ==> #[trigger] a[k] == b[k],
    ensures
        run_start(a, n) == run_start(b, n),
    decreases n,
{
    if n > 0 {
        lemma_run_start_same(a, b, n - 1);
        assert(a[n - 1] == b[n - 1]);
    }
}

proof fn lemma_run_kept(lines: Seq<LineView>, n: int)
    requires
        lines.len() > 0,
        runs_hold(lines.drop_last(), runs_of(lines.drop_last())),
        0 <= n < runs_of(lines).len() - 1,
    ensures
        run_holds(lines, runs_of(lines), n),
{
    let front = lines.drop_last();
    let before = runs_of(front);
    let runs = runs_of(lines);
    assert(run_holds(front, before, n));
    lemma_run_start_same(before, runs, n);
    assert(runs[n] == before[n]);
    assert forall|k: int| 0 <= k < runs[n].lines.len() implies lines[run_start(runs, n) + k] == (
    LineView { op: runs[n].op, text: #[trigger] runs[n].lines[k] }) by {
        assert(front[run_start(before, n) + k] == (LineView {
            op: before[n].op,
            text: before[n].lines[k],
        }));
    }
}

proof fn lemma_last_run(lines: Seq<LineView>)
    requires
        lines.len() > 0,
        runs_hold(lines.drop_last(), runs_of(lines.drop_last())),
    ensures
        runs_of(lines).len() > 0,
        run_holds(lines, runs_of(lines), runs_of(lines).len() - 1),
        run_start(runs_of(lines), runs_of(lines).len() as int) == lines.len(),
{
    let front = lines.drop_last();
    let before = runs_of(front);
    let runs = runs_of(lines);
    let last = runs.len() - 1;
    lemma_run_start_same(before, runs, last);
    if before.len() > 0 && before.last().op == lines.last().op {
        assert(run_holds(front, before, last));
        assert forall|k: int| 0 <= k < runs[last].lines.len() implies lines[run_start(runs, last)
            + k] == (LineView { op: runs[last].op, text: #[trigger] runs[last].lines[k] }) by {
            if k < before[last].lines.len() {
                assert(front[run_start(before, last) + k] == (LineView {
                    op: before[last].op,
                    text: before[last].lines[k],
                }));
            }
        }
    }
}

proof fn lemma_runs(lines: Seq<LineView>)
    ensures
        runs_hold(lines, runs_of(lines)),
    decreases lines.len(),
{
    if lines.len() > 0 {
        let front = lines.drop_last();
        let before = runs_of(front);
        let runs = runs_of(lines);
        lemma_runs(front);
        lemma_last_run(lines);
        assert forall|n: int| 0 <= n < runs.len() implies #[trigger] run_holds(lines, runs, n) by {
            if n < runs.len() - 1 {
                lemma_run_kept(lines, n);
            }
        }
        assert forall|m: int, n: int|
            0 <= m < runs.len() && n == m + 1 && n < runs.len() implies (#[trigger] runs[m]).op != (
        #[trigger] runs[n]).op by {
            if n < before.len() {
                assert(before[m].op != before[n].op);
            }
        }
    }
}

// ---------------------------------------------------------------------------
// Numbers
// ---------------------------------------------------------------------------

proof fn lemma_side_len(lines: Seq<LineView>, without: LineOp)
    ensures
        side(lines, without).len() == lines.filter(|line: LineView| line.op != without).len(),
    decreases lines.len(),
{
    reveal(Seq::filter);
    if lines.len() > 0 {
        lemma_side_last(lines, without);
        lemma_side_len(lines.drop_last(), without);
    }
}

proof fn lemma_side_at(lines: Seq<LineView>, without: LineOp, i: int)
    requires
        0 <= i < lines.len(),
        lines[i].op != without,
    ensures
        number_at(lines, without, i) <= side(lines, without).len(),
        side(lines, without)[number_at(lines, without, i) - 1] == lines[i].text,
{
    let front = lines.take(i);
    let back = lines.skip(i);
    assert(lines =~= front + back);
    lemma_side_concat(front, back, without);
    lemma_side_len(front, without);
    assert(back[0] == lines[i]);
    assert(side(back, without)[0] == lines[i].text);
}

proof fn lemma_next_number(lines: Seq<LineView>, without: LineOp, i: int)
    requires
        0 <= i < lines.len(),
    ensures
        number_at(lines, without, i + 1) == number_at(lines, without, i) + if lines[i].op
            == without {
            0nat
        } else {
            1nat
        },
{
    reveal(Seq::filter);
    assert(lines.take(i + 1).drop_last() =~= lines.take(i));
    assert(lines.take(i + 1).last() == lines[i]);
}

proof fn lemma_numbers_in_run(lines: Seq<LineView>, op: LineOp, without: LineOp, a: int, k: int)
    requires
        0 <= a,
        0 <= k,
        a + k <= lines.len(),
        forall|i: int| a <= i < a + k ==> (#[trigger] lines[i]).op == op,
    ensures
        number_at(lines, without, a + k) == number_at(lines, without, a) + if op == without {
            0
        } else {
            k
        },
    decreases k,
{
    if k > 0 {
        lemma_numbers_in_run(lines, op, without, a, k - 1);
        assert(lines[a + k - 1].op == op);
        lemma_next_number(lines, without, a + k - 1);
    }
}

// ---------------------------------------------------------------------------
// Lines of runs
// ---------------------------------------------------------------------------

/// Whether lines are whole: each but the last ends with a line feed, and a line
/// feed stands nowhere else.
spec fn whole_lines(lines: Seq<Seq<char>>) -> bool {
    &&& forall|i: int| 0 <= i < lines.len() ==> (#[trigger] lines[i]).len() > 0
    &&& forall|i: int| 0 <= i < lines.len() - 1 ==> (#[trigger] lines[i]).last() == '\n'
    &&& forall|i: int, k: int|
        0 <= i < lines.len() && 0 <= k < lines[i].len() - 1 ==> #[trigger] lines[i][k] != '\n'
}

spec fn chopped_all(lines: Seq<Seq<char>>) -> Seq<Seq<char>> {
    lines.map_values(|line: Seq<char>| chopped(line))
}

proof fn lemma_concat_of_whole(lines: Seq<Seq<char>>)
    requires
        lines.len() > 0,
        whole_lines(lines),
    ensures
        concat_all(lines) == join(chopped_all(lines), "\n"@) + if lines.last().last() == '\n' {
            "\n"@
        } else {
            Seq::empty()
        },
    decreases lines.len(),
{
    reveal_strlit("\n");
    let front = lines.drop_last();
    let last = lines.last();
    let n = lines.len() - 1;
    assert(last == lines[n]);
    assert(chopped_all(lines).drop_last() =~= chopped_all(front));
    assert(chopped_all(lines).last() == chopped(last));
    let end = if last.last() == '\n' {
        "\n"@
    } else {
        Seq::empty()
    };
    assert(last =~= chopped(last) + end);
    if lines.len() == 1 {
        assert(concat_all(front) =~= Seq::<char>::empty());
        assert(concat_all(lines) =~= join(chopped_all(lines), "\n"@) + end);
    } else {
        assert forall|i: int| 0 <= i < front.len() implies (#[trigger] front[i]).len() > 0 by {
            assert(lines[i].len() > 0);
        }
        assert forall|i: int| 0 <= i < front.len() - 1 implies (#[trigger] front[i]).last()
            == '\n' by {
            assert(lines[i].last() == '\n');
        }
        assert forall|i: int, k: int|
            0 <= i < front.len() && 0 <= k < front[i].len() - 1 implies #[trigger] front[i][k]
            != '\n' by {
            assert(lines[i][k] != '\n');
        }
        lemma_concat_of_whole(front);
        assert(front.last() == lines[n - 1]);
        assert(front.last().last() == '\n');
        assert(concat_all(lines) =~= join(chopped_all(lines), "\n"@) + end);
    }
}

proof fn lemma_raw_lines(lines: Seq<Seq<char>>)
    requires
        lines.len() > 0,
        whole_lines(lines),
    ensures
        raw_lines(concat_all(lines)) == chopped_all(lines),
{
    reveal_strlit("\n");
    assert(seq!['\n'] =~= "\n"@);
    lemma_concat_of_whole(lines);
    let parts = chopped_all(lines);
    assert forall|i: int| 0 <= i < parts.len() implies !(#[trigger] parts[i]).contains('\n') by {
        let line = lines[i];
        assert(parts[i] == chopped(line));
        assert forall|k: int| 0 <= k < parts[i].len() implies parts[i][k] != '\n' by {
            if k < line.len() - 1 {
                assert(lines[i][k] != '\n');
            } else {
                assert(line.last() == line[k]);
            }
        }
    }
    let last = lines.last();
    assert(last == lines[lines.len() - 1]);
    let empty = Seq::<char>::empty();
    if last.last() == '\n' {
        let more = parts.push(empty);
        assert forall|i: int| 0 <= i < more.len() implies !(#[trigger] more[i]).contains('\n') by {
            if i < parts.len() {
                assert(more[i] == parts[i]);
            }
        }
        assert(more.drop_last() =~= parts);
        assert(join(more, "\n"@) =~= join(parts, "\n"@) + "\n"@);
        lemma_split_undoes_join(more, '\n');
        assert(raw_lines(concat_all(lines)) =~= parts);
    } else {
        lemma_split_undoes_join(parts, '\n');
        assert(join(parts, "\n"@) + empty =~= join(parts, "\n"@));
        assert(parts.last() == last);
        assert(raw_lines(concat_all(lines)) =~= parts);
    }
}

spec fn shapes_hold(lines: Seq<LineView>) -> bool {
    forall|n: int|
        0 <= n < runs_of(lines).len() ==> whole_lines((#[trigger] runs_of(lines)[n]).lines)
}

proof fn lemma_run_shapes(old: Seq<char>, new: Seq<char>)
    ensures
        shapes_hold(line_script(old, new)),
{
    let lines = line_script(old, new);
    let runs = runs_of(lines);
    lemma_runs(lines);
    law_lines_make_up_the_text(old);
    law_lines_make_up_the_text(new);
    assert forall|n: int| 0 <= n < runs.len() implies whole_lines((#[trigger] runs[n]).lines) by {
        assert(run_holds(lines, runs, n));
        let a = run_start(runs, n);
        let run = runs[n];
        let text = if run.op == LineOp::Add {
            new
        } else {
            old
        };
        let without = if run.op == LineOp::Add {
            LineOp::Remove
        } else {
            LineOp::Add
        };
        let all = lines_of(text);
        assert(run_start(runs, n + 1) == a + run.lines.len());
        assert forall|k: int| 0 <= k < run.lines.len() implies 0 < number_at(lines, without, a + k)
            <= all.len() && all[number_at(lines, without, a + k) - 1] == #[trigger] run.lines[k] by {
            assert(lines[a + k] == (LineView { op: run.op, text: run.lines[k] }));
            law_shown_numbers_are_line_numbers(old, new, a + k);
        }
        assert forall|k: int| 0 <= k < run.lines.len() - 1 implies (#[trigger] run.lines[k]).last()
            == '\n' by {
            assert(lines[a + k] == (LineView { op: run.op, text: run.lines[k] }));
            assert(lines[a + k + 1] == (LineView { op: run.op, text: run.lines[k + 1] }));
            lemma_next_number(lines, without, a + k);
            let next = run.lines[k + 1];
            let at = number_at(lines, without, a + k) - 1;
            assert(number_at(lines, without, a + (k + 1)) <= all.len());
            assert(all[at].last() == '\n');
        }
        assert forall|k: int, j: int|
            0 <= k < run.lines.len() && 0 <= j < run.lines[k].len() - 1 implies #[trigger] run.lines[k][j]
            != '\n' by {
            let line = run.lines[k];
            let at = number_at(lines, without, a + k) - 1;
            assert(all[at][j] != '\n');
        }
    }
}

// ---------------------------------------------------------------------------
// Steps
// ---------------------------------------------------------------------------

proof fn lemma_near_itself(lines: Seq<LineView>, context: nat, i: int)
    requires
        0 <= i < lines.len(),
        lines[i].op != LineOp::Context,
    ensures
        near_change(lines, context, i),
{
}

/// Within common lines between two positions, those near a change are near one of
/// the ends that is a change.
proof fn lemma_near_in_gap(lines: Seq<LineView>, context: nat, a: int, b: int, i: int)
    requires
        0 <= a <= i < b <= lines.len(),
        forall|k: int| a <= k < b ==> (#[trigger] lines[k]).op == LineOp::Context,
        a > 0 ==> lines[a - 1].op != LineOp::Context,
        b < lines.len() ==> lines[b].op != LineOp::Context,
    ensures
        near_change(lines, context, i) <==> (a > 0 && i - a < context) || (b < lines.len() && b - i
            <= context),
{
    if a > 0 && i - a < context {
        assert(lines[a - 1].op != LineOp::Context && i - context <= a - 1 <= i + context);
    }
    if b < lines.len() && b - i <= context {
        assert(lines[b].op != LineOp::Context && i - context <= b <= i + context);
    }
    if near_change(lines, context, i) {
        let j = choose|j: int|
            0 <= j < lines.len() && (#[trigger] lines[j]).op != LineOp::Context && i - context <= j
                <= i + context;
        if a <= j < b {
            assert(lines[j].op == LineOp::Context);
        }
    }
}

proof fn lemma_all_shown(lines: Seq<LineView>, context: nat, width: nat, a: int, b: int)
    requires
        0 <= a <= b <= lines.len(),
        forall|i: int| a <= i < b ==> #[trigger] near_change(lines, context, i),
    ensures
        lines_near_changes(lines, context, width, b) == lines_near_changes(
            lines,
            context,
            width,
            a,
        ) + Seq::new((b - a) as nat, |k: int| line_shown(lines, width, a + k)),
    decreases b - a,
{
    let before = lines_near_changes(lines, context, width, a);
    let all = Seq::new((b - a) as nat, |k: int| line_shown(lines, width, a + k));
    if a < b {
        lemma_all_shown(lines, context, width, a, b - 1);
        assert(near_change(lines, context, b - 1));
    }
    assert(lines_near_changes(lines, context, width, b) =~= before + all);
}

proof fn lemma_none_shown(lines: Seq<LineView>, context: nat, width: nat, a: int, b: int)
    requires
        0 <= a <= b <= lines.len(),
        forall|i: int| a <= i < b ==> !(#[trigger] near_change(lines, context, i)),
        has_change(lines) ==> a > 0 && !near_change(lines, context, a - 1),
    ensures
        lines_near_changes(lines, context, width, b) == lines_near_changes(
            lines,
            context,
            width,
            a,
        ),
    decreases b - a,
{
    if a < b {
        lemma_none_shown(lines, context, width, a, b - 1);
        assert(!near_change(lines, context, b - 1));
        if b - 1 > a {
            assert(!near_change(lines, context, b - 2));
        }
    }
}

proof fn lemma_numbered_is_framed(mark: char, number: nat, width: nat, text: Seq<char>)
    ensures
        numbered(mark, number, width, text) == framed(mark, number, width, text),
{
    assert(numbered(mark, number, width, text) =~= framed(mark, number, width, text));
}

/// Lines of one kind that are numbered from the number of the first on are shown
/// as they are.
proof fn lemma_numbered_run(lines: Seq<LineView>, op: LineOp, width: nat, a: int, b: int)
    requires
        0 <= a <= b <= lines.len(),
        forall|i: int| a <= i < b ==> (#[trigger] lines[i]).op == op,
    ensures
        ({
            let texts = Seq::new((b - a) as nat, |k: int| chopped(lines[a + k].text));
            let shown = Seq::new((b - a) as nat, |k: int| line_shown(lines, width, a + k));
            match op {
                LineOp::Add => numbered_lines(
                    '+',
                    texts,
                    number_at(lines, LineOp::Remove, a),
                    width,
                ) == shown,
                LineOp::Remove => numbered_lines(
                    '-',
                    texts,
                    number_at(lines, LineOp::Add, a),
                    width,
                ) == shown,
                LineOp::Context => numbered_lines(
                    ' ',
                    texts,
                    number_at(lines, LineOp::Add, a),
                    width,
                ) == shown,
            }
        }),
{
    let texts = Seq::new((b - a) as nat, |k: int| chopped(lines[a + k].text));
    let shown = Seq::new((b - a) as nat, |k: int| line_shown(lines, width, a + k));
    let mark = match op {
        LineOp::Add => '+',
        LineOp::Remove => '-',
        LineOp::Context => ' ',
    };
    let without = match op {
        LineOp::Add => LineOp::Remove,
        _ => LineOp::Add,
    };
    let all = numbered_lines(mark, texts, number_at(lines, without, a), width);
    assert forall|k: int| 0 <= k < b - a implies #[trigger] all[k] == shown[k] by {
        assert(lines[a + k].op == op);
        lemma_numbers_in_run(lines, op, without, a, k);
        lemma_numbered_is_framed(mark, number_at(lines, without, a + k), width, texts[k]);
    }
    assert(all =~= shown);
}

#[verifier::spinoff_prover]
#[verifier::rlimit(60)]
proof fn lemma_context_step(
    lines: Seq<LineView>,
    context: nat,
    width: nat,
    a: int,
    b: int,
)
    requires
        0 <= a < b <= lines.len(),
        forall|k: int| a <= k < b ==> (#[trigger] lines[k]).op == LineOp::Context,
        a > 0 ==> lines[a - 1].op != LineOp::Context,
        b < lines.len() ==> lines[b].op != LineOp::Context,
    ensures
        lines_near_changes(lines, context, width, b) == lines_near_changes(
            lines,
            context,
            width,
            a,
        ) + shown_context(
            Seq::new((b - a) as nat, |k: int| chopped(lines[a + k].text)),
            number_at(lines, LineOp::Add, a),
            width,
            a > 0,
            b < lines.len(),
            context,
        ),
{
    let raw = Seq::new((b - a) as nat, |k: int| chopped(lines[a + k].text));
    let number = number_at(lines, LineOp::Add, a);
    let before = lines_near_changes(lines, context, width, a);
    let n = b - a;
    let most = if context < n {
        context as int
    } else {
        n
    };
    let head = if a > 0 {
        most
    } else {
        0
    };
    let tail = if b < lines.len() {
        most
    } else {
        0
    };
    assert forall|i: int| a <= i < b implies #[trigger] near_change(lines, context, i) == ((a > 0
        && i - a < context) || (b < lines.len() && b - i <= context)) by {
        lemma_near_in_gap(lines, context, a, b, i);
    }
    if a == 0 && b == lines.len() {
        assert(!has_change(lines));
        lemma_none_shown(lines, context, width, a, b);
        assert(before + Seq::<Seq<char>>::empty() =~= before);
    } else if head + tail >= n {
        lemma_all_shown(lines, context, width, a, b);
        lemma_numbered_run(lines, LineOp::Context, width, a, b);
    } else {
        lemma_long_context(lines, context, width, a, b, head, tail);
    }
}

/// Of a long run without changes what is near one is shown, with dots for the
/// rest.
#[verifier::spinoff_prover]
#[verifier::rlimit(60)]
proof fn lemma_long_context(
    lines: Seq<LineView>,
    context: nat,
    width: nat,
    a: int,
    b: int,
    head: int,
    tail: int,
)
    requires
        0 <= a < b <= lines.len(),
        forall|k: int| a <= k < b ==> (#[trigger] lines[k]).op == LineOp::Context,
        a > 0 ==> lines[a - 1].op != LineOp::Context,
        b < lines.len() ==> lines[b].op != LineOp::Context,
        a > 0 || b < lines.len(),
        head == if a > 0 {
            context as int
        } else {
            0
        },
        tail == if b < lines.len() {
            context as int
        } else {
            0
        },
        head + tail < b - a,
        forall|i: int|
            a <= i < b ==> #[trigger] near_change(lines, context, i) == ((a > 0 && i - a < context)
                || (b < lines.len() && b - i <= context)),
    ensures
        lines_near_changes(lines, context, width, b) == lines_near_changes(
            lines,
            context,
            width,
            a,
        ) + shown_context(
            Seq::new((b - a) as nat, |k: int| chopped(lines[a + k].text)),
            number_at(lines, LineOp::Add, a),
            width,
            a > 0,
            b < lines.len(),
            context,
        ),
{
    let raw = Seq::new((b - a) as nat, |k: int| chopped(lines[a + k].text));
    let number = number_at(lines, LineOp::Add, a);
    let before = lines_near_changes(lines, context, width, a);
    let n = b - a;
    assert(has_change(lines)) by {
        if a > 0 {
            assert(lines[a - 1].op != LineOp::Context);
        } else {
            assert(lines[b].op != LineOp::Context);
        }
    }
    let p = a + head;
    let q = b - tail;
    lemma_all_shown(lines, context, width, a, p);
    lemma_numbered_run(lines, LineOp::Context, width, a, p);
    assert(Seq::new((p - a) as nat, |k: int| chopped(lines[a + k].text)) =~= raw.take(head));
    assert(!near_change(lines, context, p));
    if p > 0 {
        if head == 0 {
            lemma_near_itself(lines, context, a - 1);
        } else {
            assert(near_change(lines, context, p - 1));
        }
    }
    lemma_numbered_is_framed(' ', 0, width, "..."@);
    lemma_none_shown(lines, context, width, p + 1, q);
    lemma_all_shown(lines, context, width, q, b);
    lemma_numbered_run(lines, LineOp::Context, width, q, b);
    assert(Seq::new((b - q) as nat, |k: int| chopped(lines[q + k].text)) =~= raw.skip(
        n - tail,
    ));
    lemma_numbers_in_run(lines, LineOp::Context, LineOp::Add, a, q - a);
    assert(lines_near_changes(lines, context, width, b) =~= before + shown_context(
        raw,
        number,
        width,
        a > 0,
        b < lines.len(),
        context,
    ));
}

/// What is around a run: the lines before it and behind it, if there are any, are
/// of another kind.
proof fn lemma_run_bounds(lines: Seq<LineView>, n: int)
    requires
        runs_hold(lines, runs_of(lines)),
        0 <= n < runs_of(lines).len(),
    ensures
        ({
            let runs = runs_of(lines);
            let a = run_start(runs, n);
            let b = run_start(runs, n + 1);
            &&& 0 <= a < b <= lines.len()
            &&& b == a + runs[n].lines.len()
            &&& forall|i: int| a <= i < b ==> (#[trigger] lines[i]).op == runs[n].op
            &&& n > 0 <==> a > 0
            &&& n > 0 ==> lines[a - 1].op == runs[n - 1].op
            &&& n + 1 < runs.len() <==> b < lines.len()
            &&& n + 1 < runs.len() ==> lines[b].op == runs[n + 1].op
        }),
{
    let runs = runs_of(lines);
    let a = run_start(runs, n);
    let b = run_start(runs, n + 1);
    assert(run_holds(lines, runs, n));
    assert forall|i: int| a <= i < b implies (#[trigger] lines[i]).op == runs[n].op by {
        let text = runs[n].lines[i - a];
        assert(lines[a + (i - a)].op == runs[n].op);
    }
    if n > 0 {
        assert(run_holds(lines, runs, n - 1));
        let last = runs[n - 1].lines.len() - 1;
        let text = runs[n - 1].lines[last];
        assert(lines[run_start(runs, n - 1) + last].op == runs[n - 1].op);
    }
    if n + 1 < runs.len() {
        assert(run_holds(lines, runs, n + 1));
        let text = runs[n + 1].lines[0];
        assert(lines[run_start(runs, n + 1) + 0].op == runs[n + 1].op);
    }
}

proof fn lemma_display(lines: Seq<LineView>, context: nat, width: nat, n: int)
    requires
        runs_hold(lines, runs_of(lines)),
        shapes_hold(lines),
        0 <= n <= runs_of(lines).len(),
    ensures
        ({
            let runs = runs_of(lines);
            let at = run_start(runs, n);
            let shown = display(runs, n as nat, width, context);
            &&& shown.lines == lines_near_changes(lines, context, width, at)
            &&& shown.old_line == number_at(lines, LineOp::Add, at)
            &&& shown.new_line == number_at(lines, LineOp::Remove, at)
            &&& shown.after_change == is_change(runs, n - 1)
        }),
    decreases n,
{
    let runs = runs_of(lines);
    reveal(Seq::filter);
    if n == 0 {
        assert(lines.take(0) =~= Seq::<LineView>::empty());
    } else {
        lemma_display(lines, context, width, n - 1);
        lemma_run_bounds(lines, n - 1);
        let run = runs[n - 1];
        let a = run_start(runs, n - 1);
        let b = run_start(runs, n);
        assert(whole_lines(run.lines));
        lemma_raw_lines(run.lines);
        let raw = Seq::new((b - a) as nat, |k: int| chopped(lines[a + k].text));
        assert(run_holds(lines, runs, n - 1));
        assert(chopped_all(run.lines) =~= raw) by {
            assert forall|k: int| 0 <= k < raw.len() implies chopped_all(run.lines)[k]
                == raw[k] by {
                let text = run.lines[k];
                assert(lines[a + k].text == text);
            }
        }
        lemma_numbers_in_run(lines, run.op, LineOp::Add, a, b - a);
        lemma_numbers_in_run(lines, run.op, LineOp::Remove, a, b - a);
        if run.op == LineOp::Context {
            if n - 1 > 0 {
                assert(runs[n - 2].op != runs[n - 1].op);
            }
            if n < runs.len() {
                assert(runs[n - 1].op != runs[n].op);
            }
            lemma_context_step(lines, context, width, a, b);
        } else {
            assert forall|i: int| a <= i < b implies #[trigger] near_change(
                lines,
                context,
                i,
            ) by {
                assert(lines[i].op == run.op);
                lemma_near_itself(lines, context, i);
            }
            lemma_all_shown(lines, context, width, a, b);
            lemma_numbered_run(lines, run.op, width, a, b);
        }
    }
}

proof fn lemma_first_changed(lines: Seq<LineView>, context: nat, width: nat, n: int)
    requires
        runs_hold(lines, runs_of(lines)),
        shapes_hold(lines),
        0 <= n <= runs_of(lines).len(),
    ensures
        ({
            let runs = runs_of(lines);
            let at = run_start(runs, n);
            match display(runs, n as nat, width, context).first_changed {
                Some(number) => exists|i: int|
                    0 <= i < lines.len() && (#[trigger] lines[i]).op != LineOp::Context && number
                        == number_at(lines, LineOp::Remove, i) && forall|j: int|
                        0 <= j < i ==> (#[trigger] lines[j]).op == LineOp::Context,
                None => forall|j: int|
                    0 <= j < at && j < lines.len() ==> (#[trigger] lines[j]).op
                        == LineOp::Context,
            }
        }),
    decreases n,
{
    let runs = runs_of(lines);
    if n > 0 {
        lemma_first_changed(lines, context, width, n - 1);
        lemma_display(lines, context, width, n - 1);
        lemma_run_bounds(lines, n - 1);
        let a = run_start(runs, n - 1);
        let run = runs[n - 1];
        if display(runs, (n - 1) as nat, width, context).first_changed is None && run.op
            != LineOp::Context {
            assert(lines[a].op == run.op);
        }
    }
}

} // verus!

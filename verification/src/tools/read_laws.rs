//! What a read of a text file shows: the lines that were asked for, as many of
//! them as fit, and how to go on.

use vstd::prelude::*;

use crate::text::{
    byte_len, decimal, join, lemma_split_nonempty, lemma_split_pieces, split,
};
use crate::tools::edit_diff::lemma_split_undoes_join;
use crate::tools::read::text_outcome;
use crate::tools::result::ToolResultView;
use crate::types::BlockView;
use crate::utils::truncate::{
    counted_lines, head_view, law_as_much_is_kept_as_fits, law_only_whole_lines_are_kept,
    law_truncation_respects_both_limits, size_text,
};

verus! {

/// The lines from one up to another, joined.
pub open spec fn lines_between(text: Seq<char>, from: int, to: int) -> Seq<char> {
    join(split(text, '\n').subrange(from, to), "\n"@)
}

/// The position of the first line that is asked for; lines count from one.
pub open spec fn asked_from(offset: Option<usize>) -> int {
    if offset is Some && offset->0 > 1 {
        offset->0 - 1
    } else {
        0
    }
}

/// The position behind the last line that is asked for: as many as the limit
/// says, but at least one, and not more than there are.
pub open spec fn asked_to(text: Seq<char>, offset: Option<usize>, limit: Option<usize>) -> int {
    let total = split(text, '\n').len() as int;
    let most = if limit is None {
        total
    } else if limit->0 == 0 {
        1
    } else {
        limit->0 as int
    };
    if asked_from(offset) + most > total {
        total
    } else {
        asked_from(offset) + most
    }
}

/// Whether lines can be shown whole: no more than two thousand, where an empty
/// last one does not count, and no more than fifty kilobytes.
pub open spec fn shown_whole(text: Seq<char>, from: int, to: int) -> bool {
    &&& to - from <= 2000 || (to - from == 2001 && split(text, '\n')[to - 1].len() == 0)
    &&& byte_len(lines_between(text, from, to)) <= 51200
}

/// Whether a result is one text.
pub open spec fn says(result: ToolResultView, text: Seq<char>) -> bool {
    result.content == seq![BlockView::Text { text, signature: None }]
}

/// A read fails exactly where it is asked to begin behind the end of the file.
pub proof fn law_reads_begin_inside_the_file(
    path: Seq<char>,
    text: Seq<char>,
    offset: Option<usize>,
    limit: Option<usize>,
)
    ensures
        text_outcome(path, text, offset, limit) is Err <==> asked_from(offset) >= split(
            text,
            '\n',
        ).len(),
        text_outcome(path, text, offset, limit) matches Err(message) ==> message == "Offset "@
            + decimal(offset->0 as nat) + " is beyond end of file ("@ + decimal(
            split(text, '\n').len(),
        ) + " lines total)"@,
{
    lemma_split_nonempty(text, '\n');
}

/// A read that fits shows exactly the lines that were asked for. Where a limit
/// left lines out, it says how many there are and where to go on; otherwise it
/// says nothing else.
pub proof fn law_reads_show_the_lines_asked_for(
    path: Seq<char>,
    text: Seq<char>,
    offset: Option<usize>,
    limit: Option<usize>,
)
    requires
        asked_from(offset) < split(text, '\n').len(),
        shown_whole(text, asked_from(offset), asked_to(text, offset, limit)),
    ensures
        text_outcome(path, text, offset, limit) matches Ok(result) && {
            let from = asked_from(offset);
            let to = asked_to(text, offset, limit);
            let total = split(text, '\n').len() as int;
            &&& result.details is Null
            &&& to == total ==> says(result, lines_between(text, from, to))
            &&& to < total ==> says(
                result,
                lines_between(text, from, to) + "\n\n["@ + decimal((total - to) as nat)
                    + " more lines in file. Use offset="@ + decimal((to + 1) as nat)
                    + " to continue.]"@,
            )
        },
{
    let from = asked_from(offset);
    let to = asked_to(text, offset, limit);
    let selected = lines_between(text, from, to);
    lemma_selected(text, from, to);
    law_as_much_is_kept_as_fits(selected, 2000, 51200);
    law_only_whole_lines_are_kept(selected, 2000, 51200);
}

/// Whether a result shows the first lines of those that were asked for: as many
/// as fit, with a note of which they are, of how many, and where to go on.
pub open spec fn shows_the_first(
    text: Seq<char>,
    offset: Option<usize>,
    limit: Option<usize>,
    result: ToolResultView,
    k: int,
) -> bool {
    let from = asked_from(offset);
    let to = asked_to(text, offset, limit);
    let lines = split(text, '\n');
    let shown = lines_between(text, from, from + k);
    let range = "\n\n[Showing lines "@ + decimal((from + 1) as nat) + "-"@ + decimal(
        (from + k) as nat,
    ) + " of "@ + decimal(lines.len());
    let resume = ". Use offset="@ + decimal((from + k + 1) as nat) + " to continue.]"@;
    let by_lines = k == 2000 && (to - from > 2001 || (to - from == 2001 && lines[to - 1].len()
        > 0));
    &&& 0 < k <= to - from
    &&& k <= 2000
    &&& byte_len(shown) <= 51200
    &&& k == 2000 || from + k == to || (from + k + 1 == to && lines[to - 1].len() == 0)
        || byte_len(lines_between(text, from, from + k + 1)) > 51200
    &&& !(result.details is Null)
    &&& by_lines ==> says(result, shown + range + resume)
    &&& !by_lines ==> says(
        result,
        shown + range + " ("@ + size_text(51200) + " limit)"@ + resume,
    )
}

/// A read that does not fit shows the first lines of those that were asked for,
/// as many as fit, and says which they are, of how many, and where to go on. The
/// next read goes on with the line behind the last one shown.
pub proof fn law_long_reads_show_what_fits(
    path: Seq<char>,
    text: Seq<char>,
    offset: Option<usize>,
    limit: Option<usize>,
)
    requires
        asked_from(offset) < split(text, '\n').len(),
        !shown_whole(text, asked_from(offset), asked_to(text, offset, limit)),
        byte_len(split(text, '\n')[asked_from(offset)]) <= 51200,
    ensures
        text_outcome(path, text, offset, limit) matches Ok(result) && exists|k: int|
            #[trigger] shows_the_first(text, offset, limit, result, k),
{
    let from = asked_from(offset);
    let to = asked_to(text, offset, limit);
    let all = split(text, '\n');
    let selected = lines_between(text, from, to);
    let lines = counted_lines(selected);
    lemma_selected(text, from, to);
    law_as_much_is_kept_as_fits(selected, 2000, 51200);
    law_only_whole_lines_are_kept(selected, 2000, 51200);
    law_truncation_respects_both_limits(selected, 2000, 51200);
    let t = head_view(selected, 2000, 51200);
    let k = t.output_lines as int;
    assert(lines.len() > 0) by {
        if lines.len() == 0 {
            assert(byte_len(selected) == 0);
        }
    }
    assert(lines[0] == all[from]);
    assert(!t.first_line_exceeds_limit);
    assert(k > 0) by {
        if k == 0 {
            assert(lines.take(1) =~= seq![lines[0]]);
        }
    }
    assert(lines.take(k) =~= all.subrange(from, from + k));
    if k < lines.len() {
        assert(lines.take(k + 1) =~= all.subrange(from, from + k + 1));
    }
    let shown = lines_between(text, from, from + k);
    assert(t.content == shown);
    let result = text_outcome(path, text, offset, limit)->Ok_0;
    assert(shows_the_first(text, offset, limit, result, k));
}

/// A read whose first line alone does not fit shows nothing of the file; it says
/// how long the line is, and how to see its start.
pub proof fn law_overlong_lines_are_told(
    path: Seq<char>,
    text: Seq<char>,
    offset: Option<usize>,
    limit: Option<usize>,
)
    requires
        asked_from(offset) < split(text, '\n').len(),
        byte_len(split(text, '\n')[asked_from(offset)]) > 51200,
    ensures
        text_outcome(path, text, offset, limit) matches Ok(result) && says(
            result,
            "[Line "@ + decimal((asked_from(offset) + 1) as nat) + " is "@ + size_text(
                byte_len(split(text, '\n')[asked_from(offset)]),
            ) + ", exceeds "@ + size_text(51200) + " limit. Use bash: sed -n '"@ + decimal(
                (asked_from(offset) + 1) as nat,
            ) + "p' "@ + path + " | head -c "@ + decimal(51200) + "]"@,
        ),
{
    let from = asked_from(offset);
    let to = asked_to(text, offset, limit);
    let all = split(text, '\n');
    let selected = lines_between(text, from, to);
    lemma_selected(text, from, to);
    law_as_much_is_kept_as_fits(selected, 2000, 51200);
    lemma_first_part(all.subrange(from, to));
    assert(counted_lines(selected)[0] == all[from]);
}

proof fn lemma_first_part(parts: Seq<Seq<char>>)
    requires
        parts.len() > 0,
    ensures
        byte_len(join(parts, "\n"@)) >= byte_len(parts[0]),
    decreases parts.len(),
{
    if parts.len() > 1 {
        lemma_first_part(parts.drop_last());
        crate::text::lemma_byte_len_concat(join(parts.drop_last(), "\n"@), "\n"@);
        crate::text::lemma_byte_len_concat(join(parts.drop_last(), "\n"@) + "\n"@, parts.last());
    }
}

proof fn lemma_selected(text: Seq<char>, from: int, to: int)
    requires
        0 <= from < to <= split(text, '\n').len(),
    ensures
        ({
            let part = split(text, '\n').subrange(from, to);
            let lines = counted_lines(lines_between(text, from, to));
            let n = lines.len() as int;
            &&& n == to - from || (n == to - from - 1 && part.last().len() == 0)
            &&& part.last().len() == 0 ==> n == to - from - 1
            &&& forall|i: int| 0 <= i < n ==> #[trigger] lines[i] == part[i]
        }),
{
    let all = split(text, '\n');
    let part = all.subrange(from, to);
    let selected = lines_between(text, from, to);
    lemma_split_pieces(text, '\n');
    assert forall|i: int| 0 <= i < part.len() implies !(#[trigger] part[i]).contains('\n') by {
        assert(part[i] == all[from + i]);
    }
    lemma_split_undoes_join(part, '\n');
    reveal_strlit("\n");
    assert(seq!['\n'] =~= "\n"@);
    assert(split(selected, '\n') == part);
    let last = part.last();
    if part.len() == 1 {
        if last.len() > 0 {
            assert(selected == last);
            if selected.last() == '\n' {
                assert(last[last.len() - 1] == '\n');
                assert(last.contains('\n'));
            }
        }
    } else {
        let front = join(part.drop_last(), "\n"@);
        assert(selected == front + "\n"@ + last);
        if last.len() == 0 {
            assert(selected.last() == '\n');
        } else {
            assert(selected.last() == last.last());
            if selected.last() == '\n' {
                assert(last[last.len() - 1] == '\n');
                assert(part[part.len() - 1].contains('\n'));
            }
        }
    }
}

} // verus!

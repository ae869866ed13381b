//! What edits do: which are refused and why, what one edit replaces, what is
//! saved of a file, and when it is written.

use vstd::prelude::*;

use crate::order::{in_order, insert_in_order};
use crate::text::{
    byte_len, first_match, lemma_byte_len_concat, lemma_byte_len_grows, lemma_first_match,
    matches_at, replace_char,
};
use crate::tools::edit::{
    edit_report_view, saved_text, EditReply, EditRequest, EditRun, EditStage,
};
use crate::tools::edit_diff::{
    applied_edits, duplicate_text, edit_outcome, empty_old_text, end_in, first_empty,
    first_overlap, first_placing_problem, groups_replaced, law_marks_are_kept,
    law_normalizing_undoes_restoring, law_one_exact_edit_replaces_its_match,
    lemma_cut_of_front, lemma_match_bytes, line_ending, line_groups,
    line_holding, line_reaching, lines_touched, match_in, no_change_text, not_found_text, occurrences,
    occurrences_from, overlap_text, placements_of, replaced, replaced_in_lines, some_match_is_fuzzy, start_in,
    to_lf, with_ending, without_mark, FormsView, LineGroup, Placement,
};
use crate::tools::line_diff::{
    concat_all, law_lines_make_up_the_text, lemma_concat_split, lines_of,
};
use crate::tools::result::{tool_outcome, ToolResultView};

verus! {

// ---------------------------------------------------------------------------
// Refusals
// ---------------------------------------------------------------------------

/// Whether a text stands somewhere in another.
pub open spec fn stands_in(text: Seq<char>, part: Seq<char>) -> bool {
    exists|i: int| #[trigger] matches_at(text, i, part)
}

/// Whether a text stands at two places of another that do not overlap.
pub open spec fn stands_twice(text: Seq<char>, part: Seq<char>) -> bool {
    exists|i: int, j: int|
        i + part.len() <= j && #[trigger] matches_at(text, i, part) && #[trigger] matches_at(
            text,
            j,
            part,
        )
}

/// Whether some text to look for stands in the content in its forgiving form
/// only.
pub open spec fn needs_forms(content: Seq<char>, olds: Seq<Seq<char>>, forms: FormsView) -> bool {
    exists|i: int|
        0 <= i < olds.len() && !stands_in(content, #[trigger] olds[i]) && stands_in(
            forms.content,
            forms.old_texts[i],
        )
}

/// The text that edits are looked for in: the content, or its forgiving form
/// where one of them needs it.
pub open spec fn looked_in(
    content: Seq<char>,
    olds: Seq<Seq<char>>,
    forms: FormsView,
) -> Seq<char> {
    if needs_forms(content, olds, forms) {
        forms.content
    } else {
        content
    }
}

/// Whether an edit can be placed: there is something to look for, it stands in
/// the text or in its forgiving form, and there only once.
pub open spec fn can_be_placed(
    content: Seq<char>,
    olds: Seq<Seq<char>>,
    forms: FormsView,
    i: int,
) -> bool {
    &&& olds[i].len() > 0
    &&& stands_in(looked_in(content, olds, forms), olds[i]) || stands_in(
        forms.base,
        forms.old_texts[i],
    )
    &&& forms.old_texts[i].len() > 0 ==> !stands_twice(forms.base, forms.old_texts[i])
    &&& forms.old_texts[i].len() == 0 ==> forms.base.len() == 0
}

proof fn lemma_stands_in(text: Seq<char>, part: Seq<char>)
    ensures
        first_match(text, part, 0) is Some <==> stands_in(text, part),
{
    lemma_first_match(text, part, 0);
    if stands_in(text, part) {
        let i = choose|i: int| #[trigger] matches_at(text, i, part);
        assert(matches_at(text, i, part));
    }
}

proof fn lemma_stands_twice(text: Seq<char>, part: Seq<char>)
    requires
        part.len() > 0,
    ensures
        occurrences(text, part) > 1 <==> stands_twice(text, part),
{
    reveal_with_fuel(occurrences_from, 3);
    lemma_first_match(text, part, 0);
    if let Some(i) = first_match(text, part, 0) {
        let after = i + part.len();
        lemma_first_match(text, part, after);
        if let Some(j) = first_match(text, part, after) {
            assert(matches_at(text, i, part) && matches_at(text, j, part));
        } else {
            assert(occurrences_from(text, part, after) == 0);
        }
    }
    if stands_twice(text, part) {
        let (i, j) = choose|i: int, j: int|
            i + part.len() <= j && #[trigger] matches_at(text, i, part) && #[trigger] matches_at(
                text,
                j,
                part,
            );
        let first = first_match(text, part, 0)->0;
        assert(matches_at(text, i, part));
        assert(first <= i);
        assert(matches_at(text, j, part));
    }
}

proof fn lemma_needs_forms(content: Seq<char>, olds: Seq<Seq<char>>, forms: FormsView)
    ensures
        needs_forms(content, olds, forms) == some_match_is_fuzzy(
            content,
            forms.content,
            olds,
            forms.old_texts,
        ),
{
    let f = forms.content;
    let fo = forms.old_texts;
    if needs_forms(content, olds, forms) {
        let i = choose|i: int|
            0 <= i < olds.len() && !stands_in(content, #[trigger] olds[i]) && stands_in(f, fo[i]);
        lemma_stands_in(content, olds[i]);
        lemma_stands_in(f, fo[i]);
        assert(match_in(content, olds[i], f, fo[i]).used_fuzzy_match);
    }
    if some_match_is_fuzzy(content, f, olds, fo) {
        let i = choose|i: int|
            0 <= i < olds.len() && (#[trigger] match_in(content, olds[i], f, fo[i])).used_fuzzy_match;
        lemma_stands_in(content, olds[i]);
        lemma_stands_in(f, fo[i]);
        assert(!stands_in(content, olds[i]));
    }
}

proof fn lemma_problems(
    base: Seq<char>,
    olds: Seq<Seq<char>>,
    path: Seq<char>,
    forms: FormsView,
    from: int,
)
    requires
        0 <= from <= olds.len(),
    ensures
        first_placing_problem(base, forms.base, olds, forms.old_texts, path, from) is None
            <==> forall|i: int|
            from <= i < olds.len() ==> (stands_in(base, #[trigger] olds[i]) || stands_in(
                forms.base,
                forms.old_texts[i],
            )) && occurrences(forms.base, forms.old_texts[i]) <= 1,
    decreases olds.len() - from,
{
    if from < olds.len() {
        lemma_problems(base, olds, path, forms, from + 1);
        lemma_stands_in(base, olds[from]);
        lemma_stands_in(forms.base, forms.old_texts[from]);
    }
}

proof fn lemma_empties(olds: Seq<Seq<char>>, from: int)
    requires
        0 <= from <= olds.len(),
    ensures
        first_empty(olds, from) is None <==> forall|i: int|
            from <= i < olds.len() ==> (#[trigger] olds[i]).len() > 0,
    decreases olds.len() - from,
{
    if from < olds.len() {
        lemma_empties(olds, from + 1);
    }
}

/// Edits that are made could all be placed, and change the content. Where one of
/// them cannot be placed, all are refused.
pub proof fn law_edits_that_cannot_be_placed_are_refused(
    content: Seq<char>,
    olds: Seq<Seq<char>>,
    news: Seq<Seq<char>>,
    path: Seq<char>,
    forms: FormsView,
)
    ensures
        edit_outcome(content, olds, news, path, forms) matches Some(Ok(t)) ==> t != content && forall|
            i: int,
        |
            0 <= i < olds.len() ==> #[trigger] can_be_placed(content, olds, forms, i),
        (exists|i: int|
            0 <= i < olds.len() && !(#[trigger] can_be_placed(content, olds, forms, i))) ==> (
        edit_outcome(content, olds, news, path, forms) matches Some(Err(_))),
{
    let base = looked_in(content, olds, forms);
    lemma_needs_forms(content, olds, forms);
    lemma_empties(olds, 0);
    lemma_problems(base, olds, path, forms, 0);
    assert forall|i: int| 0 <= i < olds.len() implies #[trigger] can_be_placed(
        content,
        olds,
        forms,
        i,
    ) == (olds[i].len() > 0 && (stands_in(base, olds[i]) || stands_in(
        forms.base,
        forms.old_texts[i],
    )) && occurrences(forms.base, forms.old_texts[i]) <= 1) by {
        if forms.old_texts[i].len() > 0 {
            lemma_stands_twice(forms.base, forms.old_texts[i]);
        }
    }
    if exists|i: int|
        0 <= i < olds.len() && !(#[trigger] can_be_placed(content, olds, forms, i)) {
        let i = choose|i: int|
            0 <= i < olds.len() && !(#[trigger] can_be_placed(content, olds, forms, i));
        assert(olds[i].len() == 0 || !((stands_in(base, olds[i]) || stands_in(
            forms.base,
            forms.old_texts[i],
        )) && occurrences(forms.base, forms.old_texts[i]) <= 1));
    }
}

/// One edit, whatever it asks for: what it leads to. Nothing to look for, a text
/// that is not there, and one that is there more than once are refused, each with
/// its reason; an exact text is replaced where it first stands, unless that
/// changes nothing.
pub proof fn law_what_one_exact_edit_does(
    content: Seq<char>,
    old: Seq<char>,
    new: Seq<char>,
    path: Seq<char>,
    forms: FormsView,
)
    requires
        byte_len(content) <= usize::MAX,
        forms.base == forms.content,
        forms.old_texts.len() == 1,
    ensures
        ({
            let outcome = edit_outcome(content, seq![old], seq![new], path, forms);
            let form = forms.old_texts[0];
            let count = occurrences(forms.base, form);
            if old.len() == 0 {
                outcome == Some(Err::<Seq<char>, Seq<char>>(empty_old_text(path, 0, 1)))
            } else if !stands_in(content, old) && !stands_in(forms.content, form) {
                outcome == Some(Err::<Seq<char>, Seq<char>>(not_found_text(path, 0, 1)))
            } else if count > 1 {
                outcome == Some(Err::<Seq<char>, Seq<char>>(duplicate_text(path, 0, 1, count)))
            } else if stands_in(content, old) {
                exists|i: int|
                    {
                        let changed = content.take(i) + new + content.skip(i + old.len());
                        &&& #[trigger] matches_at(content, i, old)
                        &&& forall|j: int| 0 <= j < i ==> !(#[trigger] matches_at(content, j, old))
                        &&& outcome == if changed == content {
                            Some(Err::<Seq<char>, Seq<char>>(no_change_text(path, 1)))
                        } else {
                            Some(Ok::<Seq<char>, Seq<char>>(changed))
                        }
                    }
            } else {
                true
            }
        }),
{
    let olds = seq![old];
    let news = seq![new];
    let form = forms.old_texts[0];
    let outcome = edit_outcome(content, olds, news, path, forms);
    lemma_stands_in(content, old);
    lemma_stands_in(forms.content, form);
    lemma_needs_forms(content, olds, forms);
    lemma_empties(olds, 0);
    reveal_with_fuel(first_empty, 2);
    reveal_with_fuel(first_placing_problem, 2);
    assert(olds[0] == old);
    if old.len() > 0 && stands_in(content, old) {
        assert(!needs_forms(content, olds, forms)) by {
            if needs_forms(content, olds, forms) {
                let i = choose|i: int|
                    0 <= i < olds.len() && !stands_in(content, #[trigger] olds[i]) && stands_in(
                        forms.content,
                        forms.old_texts[i],
                    );
                assert(olds[i] == old);
            }
        }
        if occurrences(forms.base, form) <= 1 {
            lemma_first_match(content, old, 0);
            let i = first_match(content, old, 0)->0;
            let changed = content.take(i) + new + content.skip(i + old.len());
            law_one_exact_edit_replaces_its_match(content, old, new, path, forms);
            lemma_exact_made(content, old, new, path, forms);
            assert(matches_at(content, i, old));
        }
    } else if old.len() > 0 {
        if needs_forms(content, olds, forms) {
            let i = choose|i: int|
                0 <= i < olds.len() && !stands_in(content, #[trigger] olds[i]) && stands_in(
                    forms.content,
                    forms.old_texts[i],
                );
            assert(i == 0);
        } else if stands_in(forms.content, form) {
            assert(!stands_in(content, olds[0]));
        }
        lemma_first_match(forms.content, old, 0);
    }
}

proof fn lemma_one_placement(p: Placement)
    ensures
        in_order(seq![p]) == seq![p],
{
    assert(seq![p].drop_first() =~= Seq::<Placement>::empty());
    reveal_with_fuel(in_order, 2);
    assert(in_order(seq![p]) =~= seq![p]);
}

proof fn lemma_exact_made(
    content: Seq<char>,
    old: Seq<char>,
    new: Seq<char>,
    path: Seq<char>,
    forms: FormsView,
)
    requires
        byte_len(content) <= usize::MAX,
        forms.base == forms.content,
        forms.old_texts.len() == 1,
        old.len() > 0,
        stands_in(content, old),
        occurrences(forms.base, forms.old_texts[0]) <= 1,
    ensures
        ({
            let i = first_match(content, old, 0)->0;
            let changed = content.take(i) + new + content.skip(i + old.len());
            edit_outcome(content, seq![old], seq![new], path, forms) == if changed == content {
                Some(Err::<Seq<char>, Seq<char>>(no_change_text(path, 1)))
            } else {
                Some(Ok::<Seq<char>, Seq<char>>(changed))
            }
        }),
{
    let olds = seq![old];
    let news = seq![new];
    lemma_stands_in(content, old);
    lemma_needs_forms(content, olds, forms);
    assert(!needs_forms(content, olds, forms)) by {
        if needs_forms(content, olds, forms) {
            let i = choose|i: int|
                0 <= i < olds.len() && !stands_in(content, #[trigger] olds[i]) && stands_in(
                    forms.content,
                    forms.old_texts[i],
                );
            assert(olds[i] == old);
        }
    }
    lemma_first_match(content, old, 0);
    let i = first_match(content, old, 0)->0;
    lemma_match_bytes(content, old, i);
    lemma_cut_of_front(content, i);
    lemma_cut_of_front(content, i + old.len());
    let placements = placements_of(content, forms.base, olds, forms.old_texts);
    let p = placements[0];
    assert(placements =~= seq![p]);
    lemma_one_placement(p);
    reveal_with_fuel(first_empty, 2);
    reveal_with_fuel(first_placing_problem, 2);
    reveal_with_fuel(replaced, 2);
    assert(seq![p].drop_last() =~= Seq::<Placement>::empty());
    assert(seq![p].last() == p);
    assert(start_in(p, 0) == p.index);
    assert(end_in(p, 0, content) == p.index + p.length);
    assert(news[p.edit as int] == new);
}

proof fn lemma_two_placements(p: Placement, q: Placement)
    requires
        p.index <= q.index,
    ensures
        in_order(seq![p, q]) == seq![p, q],
{
    let both = seq![p, q];
    assert(both.drop_first() =~= seq![q]);
    lemma_one_placement(q);
    reveal_with_fuel(insert_in_order, 2);
    assert(in_order(both) == insert_in_order(seq![q], p));
    assert(in_order(both) =~= both);
}

/// Two edits whose texts stand exactly in the content, each in one place, the
/// first before the second: both are replaced where they stand, and the rest
/// stays. Where they overlap, neither is.
pub proof fn law_what_two_exact_edits_do(
    content: Seq<char>,
    olds: Seq<Seq<char>>,
    news: Seq<Seq<char>>,
    path: Seq<char>,
    forms: FormsView,
    i: int,
    j: int,
)
    requires
        byte_len(content) <= usize::MAX,
        forms.base == forms.content,
        olds.len() == 2,
        news.len() == 2,
        forms.old_texts.len() == 2,
        olds[0].len() > 0,
        olds[1].len() > 0,
        matches_at(content, i, olds[0]),
        matches_at(content, j, olds[1]),
        forall|k: int| 0 <= k < i ==> !(#[trigger] matches_at(content, k, olds[0])),
        forall|k: int| 0 <= k < j ==> !(#[trigger] matches_at(content, k, olds[1])),
        occurrences(forms.base, forms.old_texts[0]) <= 1,
        occurrences(forms.base, forms.old_texts[1]) <= 1,
        i <= j,
    ensures
        i + olds[0].len() <= j ==> ({
            let changed = content.take(i) + news[0] + content.subrange(i + olds[0].len(), j)
                + news[1] + content.skip(j + olds[1].len());
            edit_outcome(content, olds, news, path, forms) == if changed == content {
                Some(Err::<Seq<char>, Seq<char>>(no_change_text(path, 2)))
            } else {
                Some(Ok::<Seq<char>, Seq<char>>(changed))
            }
        }),
        i + olds[0].len() > j ==> edit_outcome(content, olds, news, path, forms) == Some(
            Err::<Seq<char>, Seq<char>>(overlap_text(path, 0, 1)),
        ),
{
    let (a, b) = (olds[0], olds[1]);
    lemma_stands_in(content, a);
    lemma_stands_in(content, b);
    lemma_first_match(content, a, 0);
    lemma_first_match(content, b, 0);
    assert(first_match(content, a, 0) == Some(i));
    assert(first_match(content, b, 0) == Some(j));
    lemma_needs_forms(content, olds, forms);
    assert(!needs_forms(content, olds, forms)) by {
        if needs_forms(content, olds, forms) {
            let k = choose|k: int|
                0 <= k < olds.len() && !stands_in(content, #[trigger] olds[k]) && stands_in(
                    forms.content,
                    forms.old_texts[k],
                );
            assert(k == 0 || k == 1);
        }
    }
    lemma_match_bytes(content, a, i);
    lemma_match_bytes(content, b, j);
    let placements = placements_of(content, forms.base, olds, forms.old_texts);
    let (p, q) = (placements[0], placements[1]);
    assert(placements =~= seq![p, q]);
    let end = i + a.len();
    if i < j {
        lemma_byte_len_grows(content, i, j);
    }
    lemma_two_placements(p, q);
    let sorted = seq![p, q];
    reveal_with_fuel(first_empty, 3);
    reveal_with_fuel(first_placing_problem, 3);
    reveal_with_fuel(first_overlap, 2);
    assert(p.index + p.length == byte_len(content.take(end)));
    if end <= j {
        if end < j {
            lemma_byte_len_grows(content, end, j);
        }
        lemma_two_replaced(content, p, q, news, i, j, a, b);
    } else {
        lemma_byte_len_grows(content, j, end);
        assert(first_overlap(sorted, 0) == Some(0int));
    }
}

proof fn lemma_two_replaced(
    content: Seq<char>,
    p: Placement,
    q: Placement,
    news: Seq<Seq<char>>,
    i: int,
    j: int,
    a: Seq<char>,
    b: Seq<char>,
)
    requires
        matches_at(content, i, a),
        matches_at(content, j, b),
        i + a.len() <= j,
        p.edit == 0,
        q.edit == 1,
        p.index == byte_len(content.take(i)),
        p.index + p.length == byte_len(content.take(i + a.len())),
        q.index == byte_len(content.take(j)),
        q.index + q.length == byte_len(content.take(j + b.len())),
    ensures
        replaced(content, seq![p, q], news, 0) == Some(
            content.take(i) + news[0] + content.subrange(i + a.len(), j) + news[1] + content.skip(
                j + b.len(),
            ),
        ),
{
    let sorted = seq![p, q];
    assert(sorted.last() == q);
    assert(sorted.drop_last() =~= seq![p]);
    assert(seq![p].last() == p);
    assert(seq![p].drop_last() =~= Seq::<Placement>::empty());
    reveal_with_fuel(replaced, 3);
    lemma_cut_of_front(content, j);
    lemma_cut_of_front(content, j + b.len());
    assert(content =~= content.take(j + b.len()) + content.skip(j + b.len()));
    lemma_byte_len_concat(content.take(j + b.len()), content.skip(j + b.len()));
    let once = content.take(j) + news[1] + content.skip(j + b.len());
    assert(once.take(i) =~= content.take(i));
    assert(once.take(i + a.len()) =~= content.take(i + a.len()));
    lemma_cut_of_front(once, i);
    lemma_cut_of_front(once, i + a.len());
    assert(once =~= once.take(i + a.len()) + once.skip(i + a.len()));
    lemma_byte_len_concat(once.take(i + a.len()), once.skip(i + a.len()));
    assert(once.take(i) + news[0] + once.skip(i + a.len()) =~= content.take(i) + news[0]
        + content.subrange(i + a.len(), j) + news[1] + content.skip(j + b.len()));
}

// ---------------------------------------------------------------------------
// Forgiving edits
// ---------------------------------------------------------------------------

/// A text with a part of some of its lines replaced, the other lines being those
/// of another text: of the lines from one up to another in the forgiving form,
/// what stands before and behind the old text stays. Both of these lines hold a
/// part of the old text.
pub open spec fn replaces_in_lines(
    content: Seq<char>,
    form: Seq<char>,
    old_form: Seq<char>,
    new: Seq<char>,
    t: Seq<char>,
    a: int,
    b: int,
    u: Seq<char>,
    v: Seq<char>,
) -> bool {
    let lines = lines_of(content);
    let forms = lines_of(form);
    &&& 0 <= a < b <= forms.len()
    &&& form == concat_all(forms.take(a)) + u + old_form + v + concat_all(forms.skip(b))
    &&& u.len() < forms[a].len()
    &&& v.len() < forms[b - 1].len()
    &&& t == concat_all(lines.take(a)) + (u + new + v) + concat_all(lines.skip(b))
}

/// An edit whose text stands in the content in its forgiving form only replaces
/// it there, and takes over the forgiving form of the lines that it touches; all
/// other lines stay as they are in the content.
pub proof fn law_what_one_forgiving_edit_does(
    content: Seq<char>,
    old: Seq<char>,
    new: Seq<char>,
    path: Seq<char>,
    forms: FormsView,
)
    requires
        byte_len(forms.content) <= usize::MAX,
        forms.base == forms.content,
        forms.old_texts.len() == 1,
        forms.old_texts[0].len() > 0,
        old.len() > 0,
        !stands_in(content, old),
        !stands_in(forms.content, old),
        stands_in(forms.content, forms.old_texts[0]),
        !stands_twice(forms.content, forms.old_texts[0]),
        lines_of(content).len() == lines_of(forms.content).len(),
    ensures
        exists|t: Seq<char>, a: int, b: int, u: Seq<char>, v: Seq<char>|
            #[trigger] replaces_in_lines(
                content,
                forms.content,
                forms.old_texts[0],
                new,
                t,
                a,
                b,
                u,
                v,
            ) && edit_outcome(content, seq![old], seq![new], path, forms) == if t == content {
                Some(Err::<Seq<char>, Seq<char>>(no_change_text(path, 1)))
            } else {
                Some(Ok::<Seq<char>, Seq<char>>(t))
            },
{
    let olds = seq![old];
    let news = seq![new];
    let form = forms.content;
    let part = forms.old_texts[0];
    lemma_stands_in(content, old);
    lemma_stands_in(form, old);
    lemma_stands_in(form, part);
    lemma_stands_twice(form, part);
    lemma_needs_forms(content, olds, forms);
    assert(!stands_in(content, olds[0]));
    lemma_first_match(form, part, 0);
    let i = first_match(form, part, 0)->0;
    lemma_match_bytes(form, part, i);
    let placements = placements_of(form, forms.base, olds, forms.old_texts);
    let p = placements[0];
    assert(placements =~= seq![p]);
    lemma_one_placement(p);
    reveal_with_fuel(first_empty, 2);
    reveal_with_fuel(first_placing_problem, 2);
    assert(p.index == byte_len(form.take(i)) && p.length == byte_len(part));
    let (t, a, b, u, v) = lemma_replaced_in_touched_lines(content, form, part, new, p, i);
    assert(replaces_in_lines(content, form, part, new, t, a, b, u, v));
}

proof fn lemma_line_holding(lines: Seq<Seq<char>>, at: nat, from: int)
    requires
        0 <= from <= lines.len(),
        at < byte_len(concat_all(lines)),
        from > 0 ==> byte_len(concat_all(lines.take(from))) <= at,
    ensures
        line_holding(lines, at, from) matches Some(k) && from <= k < lines.len() && at < byte_len(
            concat_all(lines.take(k + 1)),
        ) && (k > 0 ==> byte_len(concat_all(lines.take(k))) <= at),
    decreases lines.len() - from,
{
    assert(lines.take(lines.len() as int) =~= lines);
    if from < lines.len() && at >= byte_len(concat_all(lines.take(from + 1))) {
        lemma_line_holding(lines, at, from + 1);
    }
}

proof fn lemma_line_reaching(lines: Seq<Seq<char>>, end: nat, from: int)
    requires
        0 <= from < lines.len(),
        end <= byte_len(concat_all(lines)),
        byte_len(concat_all(lines.take(from))) < end,
    ensures
        line_reaching(lines, end, from) matches Some(k) && from <= k < lines.len() && byte_len(
            concat_all(lines.take(k + 1)),
        ) >= end && byte_len(concat_all(lines.take(k))) < end,
    decreases lines.len() - from,
{
    assert(lines.take(lines.len() as int) =~= lines);
    if byte_len(concat_all(lines.take(from + 1))) < end {
        if from + 1 < lines.len() {
            lemma_line_reaching(lines, end, from + 1);
        }
    }
}

/// The prefix of a text that takes fewer bytes is the shorter one.
proof fn lemma_fewer_bytes(text: Seq<char>, i: int, j: int)
    requires
        0 <= i <= text.len(),
        0 <= j <= text.len(),
    ensures
        byte_len(text.take(i)) <= byte_len(text.take(j)) <==> i <= j,
        byte_len(text.take(i)) < byte_len(text.take(j)) <==> i < j,
{
    if i < j {
        lemma_byte_len_grows(text, i, j);
    } else if j < i {
        lemma_byte_len_grows(text, j, i);
    }
}

/// How the lines that a placement touches lie around the text that is placed.
spec fn touches(
    form: Seq<char>,
    part: Seq<char>,
    p: Placement,
    a: int,
    b: int,
    u: Seq<char>,
    v: Seq<char>,
) -> bool {
    let bases = lines_of(form);
    &&& 0 <= a < b <= bases.len()
    &&& lines_touched(bases, p) == Some((a, b))
    &&& form == concat_all(bases.take(a)) + u + part + v + concat_all(bases.skip(b))
    &&& concat_all(bases.subrange(a, b)) == u + part + v
    &&& u.len() < bases[a].len()
    &&& v.len() < bases[b - 1].len()
    &&& p.index == byte_len(concat_all(bases.take(a))) + byte_len(u)
    &&& p.length == byte_len(part)
}

proof fn lemma_first_touched(form: Seq<char>, part: Seq<char>, p: Placement, i: int) -> (a: int)
    requires
        part.len() > 0,
        matches_at(form, i, part),
        p.index == byte_len(form.take(i)),
    ensures
        line_holding(lines_of(form), p.index as nat, 0) == Some(a),
        0 <= a < lines_of(form).len(),
        concat_all(lines_of(form).take(a)) == form.take(
            concat_all(lines_of(form).take(a)).len() as int,
        ),
        concat_all(lines_of(form).take(a)).len() <= i < concat_all(lines_of(form).take(a)).len()
            + lines_of(form)[a].len() <= form.len(),
{
    let bases = lines_of(form);
    law_lines_make_up_the_text(form);
    assert(form.take(form.len() as int) =~= form);
    lemma_fewer_bytes(form, i, form.len() as int);
    lemma_line_holding(bases, p.index as nat, 0);
    let a = line_holding(bases, p.index as nat, 0)->0;
    lemma_concat_split(bases, a);
    lemma_concat_split(bases, a + 1);
    let x = concat_all(bases.take(a)).len() as int;
    let x1 = concat_all(bases.take(a + 1)).len() as int;
    assert(form.take(x) =~= concat_all(bases.take(a)));
    assert(form.take(x1) =~= concat_all(bases.take(a + 1)));
    assert(bases.take(a + 1).drop_last() =~= bases.take(a));
    if a == 0 {
        assert(bases.take(0) =~= Seq::<Seq<char>>::empty());
    }
    lemma_fewer_bytes(form, x, i);
    lemma_fewer_bytes(form, i, x1);
    a
}

proof fn lemma_last_touched(
    form: Seq<char>,
    part: Seq<char>,
    p: Placement,
    i: int,
    a: int,
) -> (b: int)
    requires
        part.len() > 0,
        matches_at(form, i, part),
        p.index == byte_len(form.take(i)),
        p.length == byte_len(part),
        0 <= a < lines_of(form).len(),
        concat_all(lines_of(form).take(a)) == form.take(
            concat_all(lines_of(form).take(a)).len() as int,
        ),
        concat_all(lines_of(form).take(a)).len() <= i,
    ensures
        line_reaching(lines_of(form), (p.index + p.length) as nat, a) == Some(b - 1),
        a < b <= lines_of(form).len(),
        concat_all(lines_of(form).take(b)) == form.take(
            concat_all(lines_of(form).take(b)).len() as int,
        ),
        concat_all(lines_of(form).take(b)).len() - lines_of(form)[b - 1].len() < i + part.len()
            <= concat_all(lines_of(form).take(b)).len() <= form.len(),
{
    let bases = lines_of(form);
    let end = i + part.len();
    law_lines_make_up_the_text(form);
    lemma_match_bytes(form, part, i);
    let x = concat_all(bases.take(a)).len() as int;
    lemma_fewer_bytes(form, x, end);
    lemma_line_reaching(bases, (p.index + p.length) as nat, a);
    let last = line_reaching(bases, (p.index + p.length) as nat, a)->0;
    let b = last + 1;
    lemma_concat_split(bases, b);
    lemma_concat_split(bases, last);
    let y = concat_all(bases.take(b)).len() as int;
    let y0 = concat_all(bases.take(last)).len() as int;
    assert(form.take(y) =~= concat_all(bases.take(b)));
    assert(form.take(y0) =~= concat_all(bases.take(last)));
    assert(bases.take(b).drop_last() =~= bases.take(last));
    lemma_fewer_bytes(form, end, y);
    lemma_fewer_bytes(form, y0, end);
    b
}

proof fn lemma_touched(form: Seq<char>, part: Seq<char>, p: Placement, i: int) -> (r: (
    int,
    int,
    Seq<char>,
    Seq<char>,
))
    requires
        part.len() > 0,
        matches_at(form, i, part),
        p.index == byte_len(form.take(i)),
        p.length == byte_len(part),
    ensures
        touches(form, part, p, r.0, r.1, r.2, r.3),
{
    let bases = lines_of(form);
    let a = lemma_first_touched(form, part, p, i);
    let b = lemma_last_touched(form, part, p, i, a);
    let end = i + part.len();
    let x = concat_all(bases.take(a)).len() as int;
    let y = concat_all(bases.take(b)).len() as int;
    let u = form.subrange(x, i);
    let v = form.subrange(end, y);
    law_lines_make_up_the_text(form);
    lemma_concat_split(bases, b);
    let front = bases.take(b);
    lemma_concat_split(front, a);
    assert(front.take(a) =~= bases.take(a));
    assert(front.skip(a) =~= bases.subrange(a, b));
    let body = concat_all(bases.subrange(a, b));
    assert(body =~= form.subrange(x, y));
    assert forall|k: int| i <= k < end implies form[k] == part[k - i] by {
        assert(form.subrange(i, end)[k - i] == part[k - i]);
    }
    assert(body =~= u + part + v);
    assert(form.subrange(y, form.len() as int) =~= concat_all(bases.skip(b)));
    assert(form =~= concat_all(bases.take(a)) + u + part + v + concat_all(bases.skip(b)));
    assert(form.take(i) =~= form.take(x) + u);
    lemma_byte_len_concat(form.take(x), u);
    (a, b, u, v)
}

proof fn lemma_range_made(
    body: Seq<char>,
    part: Seq<char>,
    new: Seq<char>,
    p: Placement,
    offset: nat,
    u: Seq<char>,
    v: Seq<char>,
)
    requires
        body == u + part + v,
        p.index == offset + byte_len(u),
        p.length == byte_len(part),
        p.edit == 0,
    ensures
        replaced(body, seq![p], seq![new], offset) == Some(u + new + v),
{
    lemma_byte_len_concat(u + part, v);
    lemma_byte_len_concat(u, part);
    assert(start_in(p, offset) == byte_len(u));
    assert(end_in(p, offset, body) == byte_len(u + part));
    assert(body.take(u.len() as int) =~= u);
    assert(body.take((u + part).len() as int) =~= u + part);
    lemma_cut_of_front(body, u.len() as int);
    lemma_cut_of_front(body, (u + part).len() as int);
    assert(body.skip((u + part).len() as int) =~= v);
    reveal_with_fuel(replaced, 2);
    assert(seq![p].drop_last() =~= Seq::<Placement>::empty());
    assert(seq![p].last() == p);
    assert(seq![new][0] == new);
}

proof fn lemma_replaced_in_touched_lines(
    content: Seq<char>,
    form: Seq<char>,
    part: Seq<char>,
    new: Seq<char>,
    p: Placement,
    i: int,
) -> (r: (Seq<char>, int, int, Seq<char>, Seq<char>))
    requires
        part.len() > 0,
        matches_at(form, i, part),
        p.index == byte_len(form.take(i)),
        p.length == byte_len(part),
        p.edit == 0,
        lines_of(content).len() == lines_of(form).len(),
        byte_len(form) <= usize::MAX,
    ensures
        replaced_in_lines(content, form, seq![p], seq![new]) == Some(r.0),
        replaces_in_lines(content, form, part, new, r.0, r.1, r.2, r.3, r.4),
{
    let lines = lines_of(content);
    let bases = lines_of(form);
    let (a, b, u, v) = lemma_touched(form, part, p, i);
    let body = concat_all(bases.subrange(a, b));
    let offset = byte_len(concat_all(bases.take(a)));
    let made = u + new + v;
    lemma_range_made(body, part, new, p, offset, u, v);
    assert(a <= usize::MAX && b <= usize::MAX) by {
        law_lines_make_up_the_text(form);
        crate::text::lemma_byte_len_bounds(form);
    }
    let group = LineGroup { start: a as usize, end: b as usize, first: 0, after: 1 };
    let groups = seq![group];
    reveal_with_fuel(line_groups, 2);
    reveal_with_fuel(groups_replaced, 2);
    assert(seq![p][0] == p);
    assert(line_groups(bases, seq![p], 1)->0 =~= groups);
    assert(seq![p].subrange(0, 1) =~= seq![p]);
    assert(lines.subrange(0, a) =~= lines.take(a));
    let t = concat_all(lines.take(a)) + made + concat_all(lines.skip(b));
    let whole = groups_replaced(lines, bases, groups, seq![p], seq![new], 1);
    assert(whole == Some(Seq::<char>::empty() + concat_all(lines.take(a)) + made));
    assert(Seq::<char>::empty() + concat_all(lines.take(a)) + made =~= concat_all(lines.take(a))
        + made);
    (t, a, b, u, v)
}

// ---------------------------------------------------------------------------
// Line endings
// ---------------------------------------------------------------------------

/// The ending of a text is that of its first line: a carriage return and a line
/// feed where the first line feed has one in front of it, a line feed otherwise.
pub proof fn law_the_first_line_decides_on_the_ending(content: Seq<char>, k: int)
    requires
        0 <= k < content.len(),
        content[k] == '\n',
        forall|j: int| 0 <= j < k ==> content[j] != '\n',
    ensures
        line_ending(content) == if k > 0 && content[k - 1] == '\r' {
            "\r\n"@
        } else {
            "\n"@
        },
{
    reveal_strlit("\n");
    reveal_strlit("\r\n");
    lemma_first_match(content, "\n"@, 0);
    lemma_first_match(content, "\r\n"@, 0);
    assert(content.subrange(k, k + 1) =~= "\n"@);
    assert(matches_at(content, k, "\n"@));
    let lf = first_match(content, "\n"@, 0)->0;
    assert(content.subrange(lf, lf + 1)[0] == '\n');
    assert(lf == k);
    if let Some(crlf) = first_match(content, "\r\n"@, 0) {
        assert(content.subrange(crlf, crlf + 2)[1] == '\n');
        assert(content.subrange(crlf, crlf + 2)[0] == '\r');
        assert(content[crlf + 1] == '\n');
        assert(crlf + 1 >= k);
        if crlf < lf {
            assert(crlf + 1 == k);
        }
    }
    if k > 0 && content[k - 1] == '\r' {
        assert(content.subrange(k - 1, k + 1) =~= "\r\n"@);
        assert(matches_at(content, k - 1, "\r\n"@));
    }
}

/// A text without line feeds has the ending of one line feed.
pub proof fn law_one_line_has_a_plain_ending(content: Seq<char>)
    requires
        !content.contains('\n'),
    ensures
        line_ending(content) == "\n"@,
{
    reveal_strlit("\n");
    lemma_first_match(content, "\n"@, 0);
    if let Some(k) = first_match(content, "\n"@, 0) {
        assert(content.subrange(k, k + 1)[0] == '\n');
        assert(content.contains(content[k]));
    }
}

/// Restoring an ending puts it in place of every line feed and changes nothing
/// else.
pub proof fn law_endings_are_put_back(front: Seq<char>, back: Seq<char>, c: char)
    ensures
        with_ending(front + back, "\r\n"@) == with_ending(front, "\r\n"@) + with_ending(
            back,
            "\r\n"@,
        ),
        with_ending(seq![c], "\r\n"@) == if c == '\n' {
            "\r\n"@
        } else {
            seq![c]
        },
        with_ending(front, "\n"@) == front,
    decreases back.len(),
{
    reveal_strlit("\n");
    reveal_strlit("\r\n");
    assert("\n"@.len() != "\r\n"@.len());
    reveal_with_fuel(replace_char, 2);
    assert(seq![c].drop_last() =~= Seq::<char>::empty());
    assert(seq![c].drop_first() =~= Seq::<char>::empty());
    assert(with_ending(seq![c], "\r\n"@) =~= if c == '\n' {
        "\r\n"@
    } else {
        seq![c]
    });
    lemma_replace_concat(front, back);
}

proof fn lemma_replace_concat(front: Seq<char>, back: Seq<char>)
    ensures
        replace_char(front + back, '\n', "\r\n"@) == replace_char(front, '\n', "\r\n"@)
            + replace_char(back, '\n', "\r\n"@),
    decreases front.len() + back.len(),
{
    crate::tools::edit_diff::lemma_replace_char_concat(front, back, '\n', "\r\n"@);
}

/// What is saved of an edited file has the mark of the file, and its lines end as
/// the first line of the file did: without both it is the new text.
pub proof fn law_saved_files_keep_mark_and_endings(read: Seq<char>, new: Seq<char>)
    requires
        !new.contains('\r'),
    ensures
        ({
            let mark = if read.len() > 0 && read[0] == '\u{feff}' {
                read.take(1)
            } else {
                Seq::empty()
            };
            let body = if read.len() > 0 && read[0] == '\u{feff}' {
                read.skip(1)
            } else {
                read
            };
            &&& saved_text(read, new) == mark + with_ending(new, line_ending(body))
            &&& to_lf(with_ending(new, line_ending(body))) == new
        }),
{
    let body = without_mark(read).1;
    reveal_strlit("\n");
    reveal_strlit("\r\n");
    law_marks_are_kept(read);
    law_normalizing_undoes_restoring(new, line_ending(body));
}

// ---------------------------------------------------------------------------
// Calls
// ---------------------------------------------------------------------------

/// A file is written only where its edits were made and nobody stopped the call;
/// what is written goes to the file that was read.
pub proof fn law_files_are_written_after_their_edits(
    run: EditRun,
    reply: EditReply,
    next: EditRun,
    request: EditRequest,
)
    requires
        run.expects(reply),
        run.leads_to(reply, next, request),
        request is Write,
    ensures
        run.stage matches EditStage::Saving { saved, .. } && reply == EditReply::Aborted(false)
            && (request matches EditRequest::Write { path, content } && content@ == saved@ && path@
            == run.absolute@),
{
}

/// A call that is stopped ends at once, with nothing written.
pub proof fn law_stopped_edits_write_nothing(
    run: EditRun,
    next: EditRun,
    request: EditRequest,
)
    requires
        run.expects(EditReply::Aborted(true)),
        run.leads_to(EditReply::Aborted(true), next, request),
    ensures
        next.stage is Done,
        request matches EditRequest::Finish { result } && result is Err,
{
}

/// From a text that was read, a call that nobody stops saves what the edits make
/// of it and then tells of it: the text that is written is the edited one, and the
/// report shows the change from the one to the other. Edits that are refused end
/// the call with their reason.
pub proof fn law_edits_are_saved_and_told(
    run: EditRun,
    read: Seq<char>,
    made: EditRun,
    first: EditRequest,
    saving: EditRun,
    second: EditRequest,
    written: EditRun,
    third: EditRequest,
    told: EditRun,
    last: EditRequest,
)
    requires
        run.stage matches EditStage::Applying { text } && text@ == read,
        run.leads_to(EditReply::Aborted(false), made, first),
        made.stage is Saving ==> made.leads_to(EditReply::Aborted(false), saving, second)
            && saving.leads_to(EditReply::Written(Ok(())), written, third) && written.leads_to(
            EditReply::Aborted(false),
            told,
            last,
        ),
    ensures
        ({
            let content = to_lf(without_mark(read).1);
            match applied_edits(content, run.edits@, run.path@) {
                Some(Ok(new)) => {
                    &&& second matches EditRequest::Write { path, content: saved } && path@
                        == run.absolute@ && saved@ == saved_text(read, new)
                    &&& last matches EditRequest::Finish { result } && tool_outcome(result) == Ok::<
                        ToolResultView,
                        Seq<char>,
                    >(edit_report_view(run.path@, run.edits@.len(), content, new))
                    &&& told.stage is Done
                },
                Some(Err(message)) => made.stage is Done && (first matches EditRequest::Finish {
                    result,
                } && tool_outcome(result) == Err::<ToolResultView, Seq<char>>(message)),
                None => made.stage is Done && first is Unplaceable,
            }
        }),
{
}

} // verus!

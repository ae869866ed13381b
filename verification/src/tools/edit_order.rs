//! The order of edits: it does not matter in which order they are given.

use vstd::prelude::*;

use crate::order::{
    distinct_keys, in_order, insert_in_order, law_sorting_forgets_the_order,
    law_sorting_orders_the_same_items, same_items, Keyed,
};
use crate::text::{byte_len, lemma_byte_len_bounds};
use crate::tools::edit_diff::{
    applied_edits, edit_base, edit_outcome, end_in, first_empty, first_overlap,
    first_placing_problem, forms_for, fuzzy_form, groups_replaced, lemma_match_fits,
    lemma_no_overlap, lf_texts, line_groups, lines_touched, match_in, new_texts, occurrences,
    old_texts, placements_of, placing_problem, replaced, replaced_in_lines, some_match_is_fuzzy,
    start_in, with_range_replaced, Edit, FormsView, LineGroup, Placement,
};
use crate::tools::line_diff::{concat_all, law_lines_make_up_the_text, lines_of};

verus! {

/// Whether two lists of numbers undo each other: the second holds, for each
/// place, where the first has it.
pub open spec fn undo_each_other(order: Seq<int>, back: Seq<int>) -> bool {
    &&& order.len() == back.len()
    &&& forall|i: int|
        0 <= i < order.len() ==> 0 <= #[trigger] order[i] < back.len() && back[order[i]] == i
    &&& forall|i: int|
        0 <= i < back.len() ==> 0 <= #[trigger] back[i] < order.len() && order[back[i]] == i
}

/// Whether a list is another in a given order.
pub open spec fn reordered<T>(a: Seq<T>, b: Seq<T>, order: Seq<int>) -> bool {
    &&& a.len() == b.len() == order.len()
    &&& forall|i: int| 0 <= i < b.len() ==> #[trigger] b[i] == a[order[i]]
}

/// A placement of the same edit under the number that it has in the other order.
spec fn renumbered(p: Placement, back: Seq<int>) -> Placement {
    Placement { edit: back[p.edit as int] as usize, ..p }
}

spec fn all_renumbered(s: Seq<Placement>, back: Seq<int>) -> Seq<Placement> {
    s.map_values(|p: Placement| renumbered(p, back))
}

spec fn numbers_fit(s: Seq<Placement>, n: int) -> bool {
    forall|i: int| 0 <= i < s.len() ==> (#[trigger] s[i]).edit < n
}

proof fn lemma_insert_renumbered(s: Seq<Placement>, x: Placement, back: Seq<int>)
    ensures
        insert_in_order(all_renumbered(s, back), renumbered(x, back)) == all_renumbered(
            insert_in_order(s, x),
            back,
        ),
    decreases s.len(),
{
    let t = all_renumbered(s, back);
    let y = renumbered(x, back);
    if s.len() == 0 || x.spec_key() <= s[0].spec_key() {
        assert(insert_in_order(t, y) =~= all_renumbered(insert_in_order(s, x), back));
    } else {
        lemma_insert_renumbered(s.drop_first(), x, back);
        assert(t.drop_first() =~= all_renumbered(s.drop_first(), back));
        assert(insert_in_order(t, y) =~= all_renumbered(insert_in_order(s, x), back));
    }
}

proof fn lemma_sorted_renumbered(s: Seq<Placement>, back: Seq<int>)
    ensures
        in_order(all_renumbered(s, back)) == all_renumbered(in_order(s), back),
    decreases s.len(),
{
    if s.len() > 0 {
        lemma_sorted_renumbered(s.drop_first(), back);
        assert(all_renumbered(s, back).drop_first() =~= all_renumbered(s.drop_first(), back));
        lemma_insert_renumbered(in_order(s.drop_first()), s[0], back);
    } else {
        assert(in_order(all_renumbered(s, back)) =~= all_renumbered(in_order(s), back));
    }
}

proof fn lemma_overlap_renumbered(s: Seq<Placement>, back: Seq<int>, from: int)
    ensures
        first_overlap(all_renumbered(s, back), from) == first_overlap(s, from),
    decreases s.len() - from,
{
    if 0 <= from && from + 1 < s.len() {
        lemma_overlap_renumbered(s, back, from + 1);
    }
}

proof fn lemma_replaced_renumbered(
    text: Seq<char>,
    s: Seq<Placement>,
    news: Seq<Seq<char>>,
    other: Seq<Seq<char>>,
    order: Seq<int>,
    back: Seq<int>,
    offset: nat,
)
    requires
        undo_each_other(order, back),
        reordered(news, other, order),
        news.len() <= usize::MAX,
        numbers_fit(s, news.len() as int),
    ensures
        replaced(text, all_renumbered(s, back), other, offset) == replaced(text, s, news, offset),
    decreases s.len(),
{
    if s.len() > 0 {
        let p = s.last();
        let q = renumbered(p, back);
        assert(p == s[s.len() - 1]);
        let e = p.edit as int;
        assert(0 <= back[e] < order.len() && order[back[e]] == e);
        assert(other[back[e]] == news[order[back[e]]]);
        assert(all_renumbered(s, back).last() == q);
        assert(all_renumbered(s, back).drop_last() =~= all_renumbered(s.drop_last(), back));
        assert forall|i: int| 0 <= i < s.drop_last().len() implies (
        #[trigger] s.drop_last()[i]).edit < news.len() by {
            assert(s[i].edit < news.len());
        }
        match with_range_replaced(
            text,
            start_in(p, offset),
            end_in(p, offset, text),
            news[e],
        ) {
            Some(t) => {
                lemma_replaced_renumbered(t, s.drop_last(), news, other, order, back, offset);
            },
            None => {},
        }
    }
}

proof fn lemma_groups_renumbered(lines: Seq<Seq<char>>, s: Seq<Placement>, back: Seq<int>, n: nat)
    requires
        n <= s.len(),
    ensures
        line_groups(lines, all_renumbered(s, back), n) == line_groups(lines, s, n),
    decreases n,
{
    if n > 0 {
        lemma_groups_renumbered(lines, s, back, (n - 1) as nat);
        assert(lines_touched(lines, all_renumbered(s, back)[n - 1]) == lines_touched(
            lines,
            s[n - 1],
        ));
    }
}

proof fn lemma_lines_renumbered(
    original: Seq<Seq<char>>,
    base: Seq<Seq<char>>,
    groups: Seq<LineGroup>,
    s: Seq<Placement>,
    news: Seq<Seq<char>>,
    other: Seq<Seq<char>>,
    order: Seq<int>,
    back: Seq<int>,
    n: nat,
)
    requires
        undo_each_other(order, back),
        reordered(news, other, order),
        news.len() <= usize::MAX,
        numbers_fit(s, news.len() as int),
        n <= groups.len(),
        forall|i: int|
            0 <= i < groups.len() ==> (#[trigger] groups[i]).first <= groups[i].after
                <= s.len(),
    ensures
        groups_replaced(original, base, groups, all_renumbered(s, back), other, n)
            == groups_replaced(original, base, groups, s, news, n),
    decreases n,
{
    if n > 0 {
        lemma_lines_renumbered(
            original,
            base,
            groups,
            s,
            news,
            other,
            order,
            back,
            (n - 1) as nat,
        );
        let g = groups[n - 1];
        let part = s.subrange(g.first as int, g.after as int);
        assert(all_renumbered(s, back).subrange(g.first as int, g.after as int) =~= all_renumbered(
            part,
            back,
        ));
        assert forall|i: int| 0 <= i < part.len() implies (#[trigger] part[i]).edit
            < news.len() by {
            assert(s[g.first + i].edit < news.len());
        }
        lemma_replaced_renumbered(
            concat_all(base.subrange(g.start as int, g.end as int)),
            part,
            news,
            other,
            order,
            back,
            byte_len(concat_all(base.take(g.start as int))),
        );
    }
}

proof fn lemma_groups_hold_placements(lines: Seq<Seq<char>>, s: Seq<Placement>, n: nat)
    requires
        n <= s.len() <= usize::MAX,
        line_groups(lines, s, n) is Some,
    ensures
        ({
            let groups = line_groups(lines, s, n)->0;
            forall|i: int|
                0 <= i < groups.len() ==> (#[trigger] groups[i]).first <= groups[i].after <= n
        }),
    decreases n,
{
    if n > 0 {
        lemma_groups_hold_placements(lines, s, (n - 1) as nat);
        let before = line_groups(lines, s, (n - 1) as nat)->0;
        let groups = line_groups(lines, s, n)->0;
        assert forall|i: int| 0 <= i < groups.len() implies (#[trigger] groups[i]).first
            <= groups[i].after <= n by {
            if i < before.len() {
                assert(before[i].first <= before[i].after <= n - 1);
            }
        }
    }
}

proof fn lemma_no_empty(olds: Seq<Seq<char>>, from: int)
    requires
        0 <= from,
    ensures
        first_empty(olds, from) is None <==> forall|i: int|
            from <= i < olds.len() ==> (#[trigger] olds[i]).len() > 0,
    decreases olds.len() - from,
{
    if from < olds.len() {
        lemma_no_empty(olds, from + 1);
    }
}

/// Whether a text can be placed.
spec fn is_placed(
    base: Seq<char>,
    fuzzy_base: Seq<char>,
    old: Seq<char>,
    fuzzy_old: Seq<char>,
) -> bool {
    match_in(base, old, fuzzy_base, fuzzy_old).found && occurrences(fuzzy_base, fuzzy_old) <= 1
}

proof fn lemma_all_placed(
    base: Seq<char>,
    fuzzy_base: Seq<char>,
    olds: Seq<Seq<char>>,
    fuzzy_olds: Seq<Seq<char>>,
    path: Seq<char>,
    from: int,
)
    requires
        0 <= from,
        olds.len() == fuzzy_olds.len(),
    ensures
        first_placing_problem(base, fuzzy_base, olds, fuzzy_olds, path, from) is None
            <==> forall|i: int|
            from <= i < olds.len() ==> #[trigger] is_placed(
                base,
                fuzzy_base,
                olds[i],
                fuzzy_olds[i],
            ),
    decreases olds.len() - from,
{
    if from < olds.len() {
        lemma_all_placed(base, fuzzy_base, olds, fuzzy_olds, path, from + 1);
        let problem = placing_problem(
            base,
            fuzzy_base,
            olds[from],
            fuzzy_olds[from],
            path,
            from as nat,
            olds.len(),
        );
        assert(problem is None <==> is_placed(base, fuzzy_base, olds[from], fuzzy_olds[from]));
    }
}

/// Whether the forgiving forms for two orders of edits agree.
spec fn forms_agree(a: FormsView, b: FormsView, order: Seq<int>) -> bool {
    a.content == b.content && a.base == b.base && reordered(a.old_texts, b.old_texts, order)
}

/// Whether all texts fit the machine, and the forgiving form of a forgiving form
/// is that form itself.
pub open spec fn forms_hold(content: Seq<char>, olds: Seq<Seq<char>>) -> bool {
    let forms = forms_for(content, olds);
    &&& olds.len() <= usize::MAX
    &&& byte_len(content) <= usize::MAX
    &&& byte_len(forms.content) <= usize::MAX
    &&& forms.base == forms.content
}

proof fn lemma_same_fuzzy(
    content: Seq<char>,
    olds: Seq<Seq<char>>,
    other: Seq<Seq<char>>,
    order: Seq<int>,
    back: Seq<int>,
)
    requires
        undo_each_other(order, back),
        reordered(olds, other, order),
    ensures
        forms_agree(forms_for(content, olds), forms_for(content, other), order),
        some_match_is_fuzzy(
            content,
            forms_for(content, olds).content,
            olds,
            forms_for(content, olds).old_texts,
        ) == some_match_is_fuzzy(
            content,
            forms_for(content, other).content,
            other,
            forms_for(content, other).old_texts,
        ),
{
    let f = fuzzy_form(content);
    let fo = olds.map_values(|t: Seq<char>| fuzzy_form(t));
    let ft = other.map_values(|t: Seq<char>| fuzzy_form(t));
    assert forall|i: int| 0 <= i < ft.len() implies #[trigger] ft[i] == fo[order[i]] by {
        assert(other[i] == olds[order[i]]);
    }
    if some_match_is_fuzzy(content, f, olds, fo) {
        let i = choose|i: int|
            0 <= i < olds.len() && (#[trigger] match_in(content, olds[i], f, fo[i])).used_fuzzy_match;
        let k = back[i];
        assert(order[k] == i);
        assert(other[k] == olds[order[k]]);
        assert(ft[k] == fo[order[k]]);
        assert(match_in(content, other[k], f, ft[k]).used_fuzzy_match);
    }
    if some_match_is_fuzzy(content, f, other, ft) {
        let k = choose|k: int|
            0 <= k < other.len() && (#[trigger] match_in(
                content,
                other[k],
                f,
                ft[k],
            )).used_fuzzy_match;
        let i = order[k];
        assert(other[k] == olds[i]);
        assert(ft[k] == fo[i]);
        assert(match_in(content, olds[i], f, fo[i]).used_fuzzy_match);
    }
    assert(some_match_is_fuzzy(content, f, olds, fo) == some_match_is_fuzzy(content, f, other, ft));
    assert(forms_for(content, olds).old_texts =~= fo);
    assert(forms_for(content, other).old_texts =~= ft);
}

/// The placements of edits that are made hold something and follow each other.
proof fn lemma_placements_follow(
    content: Seq<char>,
    olds: Seq<Seq<char>>,
    news: Seq<Seq<char>>,
    path: Seq<char>,
    t: Seq<char>,
)
    requires
        forms_hold(content, olds),
        edit_outcome(content, olds, news, path, forms_for(content, olds)) == Some(
            Ok::<Seq<char>, Seq<char>>(t),
        ),
    ensures
        ({
            let forms = forms_for(content, olds);
            let base = edit_base(content, forms.content, olds, forms.old_texts);
            distinct_keys(placements_of(base, forms.base, olds, forms.old_texts))
        }),
{
    broadcast use vstd::seq_lib::group_to_multiset_ensures;

    let forms = forms_for(content, olds);
    let fuzzy = some_match_is_fuzzy(content, forms.content, olds, forms.old_texts);
    let base = edit_base(content, forms.content, olds, forms.old_texts);
    let placements = placements_of(base, forms.base, olds, forms.old_texts);
    let sorted = in_order(placements);
    lemma_no_empty(olds, 0);
    lemma_all_placed(base, forms.base, olds, forms.old_texts, path, 0);
    law_sorting_orders_the_same_items(placements);
    lemma_no_overlap(sorted, 0);
    if fuzzy && base.len() == 0 && olds.len() > 0 {
        lemma_nothing_touched(content, base, sorted, news);
    }
    assert forall|i: int| 0 <= i < placements.len() implies (#[trigger] placements[i]).length
        > 0 by {
        let m = match_in(base, olds[i], forms.base, forms.old_texts[i]);
        assert(is_placed(base, forms.base, olds[i], forms.old_texts[i]));
        lemma_match_fits(base, olds[i], forms.base, forms.old_texts[i]);
        assert(olds[i].len() > 0);
        lemma_byte_len_bounds(olds[i]);
        lemma_byte_len_bounds(forms.old_texts[i]);
        if m.used_fuzzy_match {
            if !fuzzy {
                assert(base == content);
                assert(forms.base == forms.content);
                assert(!match_in(
                    content,
                    olds[i],
                    forms.content,
                    forms.old_texts[i],
                ).used_fuzzy_match);
            }
            assert(forms.base.len() > 0);
            assert(forms.old_texts[i].len() > 0);
        }
    }
    assert forall|k: int| 0 <= k < sorted.len() implies (#[trigger] sorted[k]).length > 0 by {
        assert(sorted.contains(sorted[k]));
        assert(sorted.to_multiset().count(sorted[k]) > 0);
        assert(placements.contains(sorted[k]));
        let i = choose|i: int| 0 <= i < placements.len() && placements[i] == sorted[k];
        assert(placements[i].length > 0);
    }
    assert forall|a: int, b: int| 0 <= a < b < sorted.len() implies (#[trigger] sorted[a]).index < (
    #[trigger] sorted[b]).index by {
        assert(sorted[a].index + sorted[a].length <= sorted[a + 1].index);
        assert(sorted[a + 1].spec_key() <= sorted[b].spec_key());
    }
    assert forall|i: int, j: int| 0 <= i < j < placements.len() implies (
    #[trigger] placements[i]).spec_key() != (#[trigger] placements[j]).spec_key() by {
        assert(placements[i].edit != placements[j].edit);
        assert(placements.contains(placements[i]) && placements.contains(placements[j]));
        assert(placements.to_multiset().count(placements[i]) > 0);
        assert(placements.to_multiset().count(placements[j]) > 0);
        assert(sorted.contains(placements[i]) && sorted.contains(placements[j]));
        let a = choose|a: int| 0 <= a < sorted.len() && sorted[a] == placements[i];
        let b = choose|b: int| 0 <= b < sorted.len() && sorted[b] == placements[j];
        if a < b {
            assert(sorted[a].index < sorted[b].index);
        } else {
            assert(b < a);
            assert(sorted[b].index < sorted[a].index);
        }
    }
}

proof fn lemma_nothing_touched(
    content: Seq<char>,
    base: Seq<char>,
    sorted: Seq<Placement>,
    news: Seq<Seq<char>>,
)
    requires
        base.len() == 0,
        sorted.len() > 0,
    ensures
        replaced_in_lines(content, base, sorted, news) is None,
{
    let lines = lines_of(base);
    assert(lines.len() == 0) by {
        law_lines_make_up_the_text(base);
    }
    lemma_no_group(lines, sorted, sorted.len());
}

proof fn lemma_no_group(lines: Seq<Seq<char>>, s: Seq<Placement>, n: nat)
    requires
        lines.len() == 0,
        n > 0,
    ensures
        line_groups(lines, s, n) is None,
    decreases n,
{
    if n > 1 {
        lemma_no_group(lines, s, (n - 1) as nat);
    }
    assert(lines_touched(lines, s[n - 1]) is None);
}

proof fn lemma_made_in_other_order(
    content: Seq<char>,
    olds: Seq<Seq<char>>,
    news: Seq<Seq<char>>,
    other_olds: Seq<Seq<char>>,
    other_news: Seq<Seq<char>>,
    order: Seq<int>,
    back: Seq<int>,
    path: Seq<char>,
    t: Seq<char>,
)
    requires
        undo_each_other(order, back),
        reordered(olds, other_olds, order),
        reordered(news, other_news, order),
        forms_hold(content, olds),
        edit_outcome(content, olds, news, path, forms_for(content, olds)) == Some(
            Ok::<Seq<char>, Seq<char>>(t),
        ),
    ensures
        edit_outcome(content, other_olds, other_news, path, forms_for(content, other_olds)) == Some(
            Ok::<Seq<char>, Seq<char>>(t),
        ),
{
    let forms = forms_for(content, olds);
    let other_forms = forms_for(content, other_olds);
    let base = edit_base(content, forms.content, olds, forms.old_texts);
    let placements = placements_of(base, forms.base, olds, forms.old_texts);
    let other = placements_of(base, forms.base, other_olds, other_forms.old_texts);
    let renamed = all_renumbered(placements, back);
    lemma_same_fuzzy(content, olds, other_olds, order, back);
    lemma_placements_follow(content, olds, news, path, t);
    lemma_no_empty(olds, 0);
    lemma_no_empty(other_olds, 0);
    lemma_all_placed(base, forms.base, olds, forms.old_texts, path, 0);
    lemma_all_placed(base, forms.base, other_olds, other_forms.old_texts, path, 0);
    assert forall|i: int| 0 <= i < other_olds.len() implies (#[trigger] other_olds[i]).len()
        > 0 by {
        assert(olds[order[i]].len() > 0);
    }
    assert forall|i: int| 0 <= i < other_olds.len() implies #[trigger] is_placed(
        base,
        forms.base,
        other_olds[i],
        other_forms.old_texts[i],
    ) by {
        let k = order[i];
        assert(other_olds[i] == olds[k]);
        assert(other_forms.old_texts[i] == forms.old_texts[k]);
        assert(is_placed(base, forms.base, olds[k], forms.old_texts[k]));
    }
    assert forall|i: int| 0 <= i < other.len() implies #[trigger] other[i] == renamed[order[i]] by {
        let k = order[i];
        assert(other_olds[i] == olds[k]);
        assert(other_forms.old_texts[i] == forms.old_texts[k]);
        assert(back[k] == i);
    }
    assert(same_items(other, renamed)) by {
        assert forall|x: Placement| #[trigger] other.contains(x) <==> renamed.contains(x) by {
            if other.contains(x) {
                let i = choose|i: int| 0 <= i < other.len() && other[i] == x;
                assert(renamed[order[i]] == x);
            }
            if renamed.contains(x) {
                let k = choose|k: int| 0 <= k < renamed.len() && renamed[k] == x;
                assert(order[back[k]] == k);
                assert(other[back[k]] == renamed[order[back[k]]]);
            }
        }
    }
    assert forall|i: int, j: int| 0 <= i < j < renamed.len() implies (
    #[trigger] renamed[i]).spec_key() != (#[trigger] renamed[j]).spec_key() by {
        assert(placements[i].spec_key() != placements[j].spec_key());
    }
    assert forall|i: int, j: int| 0 <= i < j < other.len() implies (
    #[trigger] other[i]).spec_key() != (#[trigger] other[j]).spec_key() by {
        assert(back[order[i]] == i && back[order[j]] == j);
        assert(order[i] != order[j]);
        assert(other[i] == renamed[order[i]] && other[j] == renamed[order[j]]);
        if order[i] < order[j] {
            assert(renamed[order[i]].spec_key() != renamed[order[j]].spec_key());
        } else {
            assert(renamed[order[j]].spec_key() != renamed[order[i]].spec_key());
        }
    }
    law_sorting_forgets_the_order(other, renamed);
    lemma_sorted_renumbered(placements, back);
    let sorted = in_order(placements);
    assert(in_order(other) == all_renumbered(sorted, back));
    lemma_overlap_renumbered(sorted, back, 0);
    assert(numbers_fit(sorted, news.len() as int)) by {
        broadcast use vstd::seq_lib::group_to_multiset_ensures;

        law_sorting_orders_the_same_items(placements);
        assert forall|k: int| 0 <= k < sorted.len() implies (#[trigger] sorted[k]).edit
            < news.len() by {
            assert(sorted.contains(sorted[k]));
            assert(sorted.to_multiset().count(sorted[k]) > 0);
            assert(placements.contains(sorted[k]));
            let i = choose|i: int| 0 <= i < placements.len() && placements[i] == sorted[k];
            assert(placements[i].edit == i);
        }
    }
    law_sorting_orders_the_same_items(placements);
    if some_match_is_fuzzy(content, forms.content, olds, forms.old_texts) {
        let lines = lines_of(base);
        lemma_groups_renumbered(lines, sorted, back, sorted.len());
        if let Some(groups) = line_groups(lines, sorted, sorted.len()) {
            lemma_groups_hold_placements(lines, sorted, sorted.len());
            lemma_lines_renumbered(
                lines_of(content),
                lines,
                groups,
                sorted,
                news,
                other_news,
                order,
                back,
                groups.len(),
            );
        }
    } else {
        lemma_replaced_renumbered(base, sorted, news, other_news, order, back, 0);
    }
}

/// Edits are made in one order where they are made in another, and give the same
/// content.
proof fn lemma_made_alike(
    content: Seq<char>,
    edits: Seq<Edit>,
    other: Seq<Edit>,
    order: Seq<int>,
    back: Seq<int>,
    path: Seq<char>,
    t: Seq<char>,
)
    requires
        undo_each_other(order, back),
        reordered(edits, other, order),
        forms_hold(content, lf_texts(old_texts(edits))),
    ensures
        applied_edits(content, edits, path) == Some(Ok::<Seq<char>, Seq<char>>(t))
            <==> applied_edits(content, other, path) == Some(Ok::<Seq<char>, Seq<char>>(t)),
{
    let olds = lf_texts(old_texts(edits));
    let news = lf_texts(new_texts(edits));
    let other_olds = lf_texts(old_texts(other));
    let other_news = lf_texts(new_texts(other));
    assert forall|i: int| 0 <= i < other_olds.len() implies #[trigger] other_olds[i]
        == olds[order[i]] by {
        assert(other[i] == edits[order[i]]);
    }
    assert forall|i: int| 0 <= i < other_news.len() implies #[trigger] other_news[i]
        == news[order[i]] by {
        assert(other[i] == edits[order[i]]);
    }
    assert forall|i: int| 0 <= i < olds.len() implies #[trigger] olds[i] == other_olds[back[i]] by {
        assert(other_olds[back[i]] == olds[order[back[i]]]);
    }
    assert forall|i: int| 0 <= i < news.len() implies #[trigger] news[i] == other_news[back[i]] by {
        assert(other_news[back[i]] == news[order[back[i]]]);
    }
    lemma_same_fuzzy(content, olds, other_olds, order, back);
    if applied_edits(content, edits, path) == Some(Ok::<Seq<char>, Seq<char>>(t)) {
        lemma_made_in_other_order(
            content,
            olds,
            news,
            other_olds,
            other_news,
            order,
            back,
            path,
            t,
        );
    }
    if applied_edits(content, other, path) == Some(Ok::<Seq<char>, Seq<char>>(t)) {
        lemma_made_in_other_order(
            content,
            other_olds,
            other_news,
            olds,
            news,
            back,
            order,
            path,
            t,
        );
    }
}

/// Whether edits that gave an outcome give it in every order: they are made in
/// one order where they are made in another, and give the same content.
pub open spec fn made_in_any_order(
    content: Seq<char>,
    edits: Seq<Edit>,
    path: Seq<char>,
    outcome: Result<Seq<char>, Seq<char>>,
) -> bool {
    forall|other: Seq<Edit>, order: Seq<int>, back: Seq<int>|
        #![trigger reordered(edits, other, order), undo_each_other(order, back)]
        reordered(edits, other, order) && undo_each_other(order, back) ==> made_alike(
            outcome,
            applied_edits(content, other, path),
        )
}

/// Whether edits are made in one order where they are made in another, and give
/// the same content.
pub open spec fn made_alike(
    outcome: Result<Seq<char>, Seq<char>>,
    other: Option<Result<Seq<char>, Seq<char>>>,
) -> bool {
    &&& outcome is Ok ==> other == Some(outcome)
    &&& other matches Some(Ok(t)) ==> outcome == Ok::<Seq<char>, Seq<char>>(t)
}

pub proof fn lemma_made_in_any_order(content: Seq<char>, edits: Seq<Edit>, path: Seq<char>)
    requires
        forms_hold(content, lf_texts(old_texts(edits))),
        applied_edits(content, edits, path) is Some,
    ensures
        made_in_any_order(content, edits, path, applied_edits(content, edits, path)->0),
{
    let outcome = applied_edits(content, edits, path)->0;
    assert forall|other: Seq<Edit>, order: Seq<int>, back: Seq<int>|
        #![trigger reordered(edits, other, order), undo_each_other(order, back)]
        reordered(edits, other, order) && undo_each_other(order, back) implies made_alike(
        outcome,
        applied_edits(content, other, path),
    ) by {
        if let Ok(t) = outcome {
            lemma_made_alike(content, edits, other, order, back, path, t);
        }
        if let Some(Ok(t)) = applied_edits(content, other, path) {
            lemma_made_alike(content, edits, other, order, back, path, t);
        }
    }
}

} // verus!

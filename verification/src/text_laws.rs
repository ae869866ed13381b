//! What holds of texts: numbers are spelled, texts are trimmed, joined and
//! replaced.

use vstd::prelude::*;

use crate::text::{
    all_digits, decimal, digits_value, first_match, is_digit, is_space, join, lemma_first_match,
    lemma_split_nonempty, matches_at, occurs_in, replace_all, spelled_number, split, trim,
    trim_end, trim_start,
};

verus! {

/// A number is read back from its decimal notation.
pub proof fn law_numbers_are_read_back(n: nat)
    ensures
        all_digits(decimal(n)),
        digits_value(decimal(n)) == n,
        n <= usize::MAX ==> spelled_number(decimal(n)) == Some(n),
    decreases n,
{
    let text = decimal(n);
    if n < 10 {
        reveal_with_fuel(digits_value, 2);
        assert(text.drop_last() =~= Seq::<char>::empty());
        assert(is_digit(text[0]));
    } else {
        law_numbers_are_read_back(n / 10);
        assert(text.drop_last() =~= decimal(n / 10));
        assert forall|i: int| 0 <= i < text.len() implies is_digit(#[trigger] text[i]) by {
            if i < decimal(n / 10).len() {
                assert(is_digit(decimal(n / 10)[i]));
            }
        }
    }
    assert(is_digit(text[0]));
}

/// A trimmed text is what is left when the space before it and behind it is
/// taken away, and nothing else.
pub proof fn law_only_space_is_trimmed(s: Seq<char>) -> (r: (Seq<char>, Seq<char>))
    ensures
        s == r.0 + trim(s) + r.1,
        forall|i: int| 0 <= i < r.0.len() ==> is_space(#[trigger] r.0[i]),
        forall|i: int| 0 <= i < r.1.len() ==> is_space(#[trigger] r.1[i]),
        trim(s).len() > 0 ==> !is_space(trim(s)[0]) && !is_space(trim(s).last()),
{
    let space = |c: char| is_space(c);
    let front = lemma_start(s, space);
    let rest = trim_start(s, space);
    let back = lemma_end(rest, space);
    assert(s =~= front + trim(s) + back);
    if trim(s).len() > 0 {
        assert(trim(s)[0] == rest[0]);
    }
    (front, back)
}

proof fn lemma_start(s: Seq<char>, drop: spec_fn(char) -> bool) -> (front: Seq<char>)
    ensures
        s == front + trim_start(s, drop),
        forall|i: int| 0 <= i < front.len() ==> drop(#[trigger] front[i]),
        trim_start(s, drop).len() > 0 ==> !drop(trim_start(s, drop)[0]),
    decreases s.len(),
{
    if s.len() > 0 && drop(s[0]) {
        let rest = lemma_start(s.drop_first(), drop);
        assert(trim_start(s, drop) == trim_start(s.drop_first(), drop));
        assert(s =~= seq![s[0]] + s.drop_first());
        assert(s =~= seq![s[0]] + rest + trim_start(s, drop));
        seq![s[0]] + rest
    } else {
        assert(s =~= Seq::<char>::empty() + s);
        Seq::empty()
    }
}

proof fn lemma_end(s: Seq<char>, drop: spec_fn(char) -> bool) -> (back: Seq<char>)
    ensures
        s == trim_end(s, drop) + back,
        forall|i: int| 0 <= i < back.len() ==> drop(#[trigger] back[i]),
        trim_end(s, drop).len() > 0 ==> !drop(trim_end(s, drop).last()),
    decreases s.len(),
{
    if s.len() > 0 && drop(s.last()) {
        let rest = lemma_end(s.drop_last(), drop);
        assert(trim_end(s, drop) == trim_end(s.drop_last(), drop));
        assert(s =~= s.drop_last().push(s.last()));
        assert(s =~= trim_end(s, drop) + rest.push(s.last()));
        rest.push(s.last())
    } else {
        assert(s =~= s + Seq::<char>::empty());
        Seq::empty()
    }
}

/// Texts are joined with the separator between them, wherever they are parted.
pub proof fn law_joins_join(a: Seq<Seq<char>>, b: Seq<Seq<char>>, sep: Seq<char>, one: Seq<char>)
    requires
        a.len() > 0,
        b.len() > 0,
    ensures
        join(a + b, sep) == join(a, sep) + sep + join(b, sep),
        join(seq![one], sep) == one,
        join(Seq::empty(), sep).len() == 0,
    decreases b.len(),
{
    assert((a + b).drop_last() =~= a + b.drop_last());
    assert((a + b).last() == b.last());
    if b.len() == 1 {
        assert(a + b.drop_last() =~= a);
    } else {
        law_joins_join(a, b.drop_last(), sep, one);
        assert(join(a + b, sep) =~= join(a, sep) + sep + join(b, sep));
    }
}

/// The pieces of a text hold no separator, and two texts with a separator
/// between them fall into the pieces of both.
pub proof fn law_separators_part_a_text(a: Seq<char>, b: Seq<char>, sep: char)
    ensures
        split(a + seq![sep] + b, sep) == split(a, sep) + split(b, sep),
        !a.contains(sep) ==> split(a, sep) == seq![a],
    decreases b.len(),
{
    lemma_split_nonempty(a, sep);
    lemma_split_nonempty(b, sep);
    let all = a + seq![sep] + b;
    if b.len() == 0 {
        assert(all.drop_last() =~= a);
        assert(all.last() == sep);
        assert(split(all, sep) =~= split(a, sep) + split(b, sep));
    } else {
        assert(all.drop_last() =~= a + seq![sep] + b.drop_last());
        law_separators_part_a_text(a, b.drop_last(), sep);
        lemma_split_nonempty(b.drop_last(), sep);
        assert(split(all, sep) =~= split(a, sep) + split(b, sep));
    }
    if !a.contains(sep) {
        lemma_whole(a, sep);
    }
}

proof fn lemma_whole(a: Seq<char>, sep: char)
    requires
        !a.contains(sep),
    ensures
        split(a, sep) == seq![a],
    decreases a.len(),
{
    if a.len() > 0 {
        let front = a.drop_last();
        assert forall|i: int| 0 <= i < front.len() implies front[i] != sep by {
            assert(a.contains(a[i]));
        }
        lemma_whole(front, sep);
        assert(a.contains(a.last()));
        assert(front.push(a.last()) =~= a);
        assert(split(a, sep) =~= seq![a]);
    } else {
        assert(a =~= Seq::<char>::empty());
    }
}

/// Each occurrence of a pattern is replaced from the front on: what is before
/// the first stays, and a text without one stays whole.
pub proof fn law_occurrences_are_replaced(
    front: Seq<char>,
    pattern: Seq<char>,
    rest: Seq<char>,
    to: Seq<char>,
)
    requires
        pattern.len() > 0,
        forall|i: int| 0 <= i < front.len() ==> !matches_at(front + pattern + rest, i, pattern),
    ensures
        replace_all(front + pattern + rest, pattern, to) == front + to + replace_all(
            rest,
            pattern,
            to,
        ),
        !occurs_in(rest, pattern) ==> replace_all(rest, pattern, to) == rest,
{
    let s = front + pattern + rest;
    let n = front.len() as int;
    lemma_first_match(s, pattern, 0);
    assert(s.subrange(n, n + pattern.len()) =~= pattern);
    assert(matches_at(s, n, pattern));
    assert(first_match(s, pattern, 0) == Some(n));
    assert(s.take(n) =~= front);
    assert(s.skip(n + pattern.len()) =~= rest);
    lemma_first_match(rest, pattern, 0);
}

} // verus!

//! What holds of prompt templates: how a line falls into arguments, what marks
//! stand for, and what is loaded.

use vstd::prelude::*;

use crate::harness_types::{FileInfo, FileKind};
use crate::prompt_templates::{
    args_after, args_closed, args_of_token, by_name, command_args, first_filled_line,
    insert_by_name, lemma_digit_count, lemma_no_mark, lemma_no_numbers, substituted, template_of,
    templates_among, with_numbered, with_slices, ArgsView,
};
use crate::text::{
    decimal, first_match, is_digit, join, lemma_first_match, matches_at, replace_all, split, trim,
};
use crate::text_laws::{law_numbers_are_read_back, law_occurrences_are_replaced};
use crate::text_set::{
    lemma_before_irreflexive, lemma_before_total, lemma_before_transitive, text_before,
};

verus! {

// ---------------------------------------------------------------------------
// Arguments
// ---------------------------------------------------------------------------

/// Whether a text is one argument as it is: it holds no blank and no quote.
pub open spec fn is_plain(s: Seq<char>) -> bool {
    forall|i: int|
        0 <= i < s.len() ==> #[trigger] s[i] != ' ' && s[i] != '\t' && s[i] != '"' && s[i] != '\''
}

proof fn lemma_parted(a: Seq<char>, blank: char, b: Seq<char>)
    requires
        args_after(a).quote is None,
        blank == ' ' || blank == '\t',
    ensures
        args_after(a + seq![blank] + b) == (ArgsView {
            args: command_args(a) + args_after(b).args,
            ..args_after(b)
        }),
    decreases b.len(),
{
    let all = a + seq![blank] + b;
    assert(all.len() > 0);
    if b.len() == 0 {
        assert(all.drop_last() =~= a);
        assert(all.last() == blank);
        assert(command_args(a) + args_after(b).args =~= command_args(a));
        assert(args_after(all) == args_closed(args_after(a)));
        assert(args_after(all).current =~= Seq::<char>::empty());
    } else {
        assert(all.drop_last() =~= a + seq![blank] + b.drop_last());
        assert(all.last() == b.last());
        lemma_parted(a, blank, b.drop_last());
        assert(args_after(all).args =~= command_args(a) + args_after(b).args);
    }
}

/// A blank outside of quotes parts a line: its arguments are those before it
/// and those behind it.
pub proof fn law_blanks_part_arguments(a: Seq<char>, blank: char, b: Seq<char>)
    requires
        args_after(a).quote is None,
        blank == ' ' || blank == '\t',
    ensures
        command_args(a + seq![blank] + b) == command_args(a) + command_args(b),
{
    lemma_parted(a, blank, b);
    assert(command_args(a + seq![blank] + b) =~= command_args(a) + command_args(b));
}

proof fn lemma_plain(a: Seq<char>)
    requires
        is_plain(a),
    ensures
        args_after(a) == (ArgsView { args: Seq::empty(), current: a, quote: None }),
    decreases a.len(),
{
    if a.len() > 0 {
        assert(is_plain(a.drop_last()));
        lemma_plain(a.drop_last());
        assert(a.drop_last().push(a.last()) =~= a);
        assert(a[a.len() - 1] == a.last());
    } else {
        assert(a =~= Seq::<char>::empty());
    }
}

proof fn lemma_quoted(a: Seq<char>, quote: char, b: Seq<char>)
    requires
        is_plain(a),
        quote == '"' || quote == '\'',
        !b.contains(quote),
    ensures
        args_after(a + seq![quote] + b) == (ArgsView {
            args: Seq::empty(),
            current: a + b,
            quote: Some(quote),
        }),
    decreases b.len(),
{
    let all = a + seq![quote] + b;
    if b.len() == 0 {
        assert(all.drop_last() =~= a);
        lemma_plain(a);
        assert(a + b =~= a);
    } else {
        let front = b.drop_last();
        assert forall|i: int| 0 <= i < front.len() implies front[i] != quote by {
            assert(b.contains(b[i]));
        }
        lemma_quoted(a, quote, front);
        assert(all.drop_last() =~= a + seq![quote] + front);
        assert(b.contains(b.last()));
        assert((a + front).push(b.last()) =~= a + b);
    }
}

/// A text without blanks and quotes is one argument, and so is one with blanks
/// between quotes, which are not part of it. Nothing is no argument.
pub proof fn law_quotes_keep_an_argument_together(a: Seq<char>, quote: char, b: Seq<char>)
    requires
        is_plain(a),
        quote == '"' || quote == '\'',
        !b.contains(quote),
    ensures
        command_args(a) == if a.len() > 0 {
            seq![a]
        } else {
            Seq::empty()
        },
        command_args(a + seq![quote] + b + seq![quote]) == if a.len() + b.len() > 0 {
            seq![a + b]
        } else {
            Seq::empty()
        },
        args_after(a).quote is None,
        args_after(a + seq![quote] + b + seq![quote]).quote is None,
{
    lemma_plain(a);
    lemma_quoted(a, quote, b);
    let all = a + seq![quote] + b + seq![quote];
    assert(all.drop_last() =~= a + seq![quote] + b);
    assert(all.last() == quote);
    assert(Seq::<Seq<char>>::empty().push(a) =~= seq![a]);
    assert(Seq::<Seq<char>>::empty().push(a + b) =~= seq![a + b]);
}

// ---------------------------------------------------------------------------
// Marks
// ---------------------------------------------------------------------------

/// Whether some arguments hold no dollar sign.
pub open spec fn plain_args(args: Seq<Seq<char>>) -> bool {
    forall|i: int| 0 <= i < args.len() ==> !(#[trigger] args[i]).contains('$')
}

proof fn lemma_plain_join(args: Seq<Seq<char>>)
    requires
        plain_args(args),
    ensures
        !join(args, " "@).contains('$'),
    decreases args.len(),
{
    reveal_strlit(" ");
    if args.len() > 1 {
        let front = args.drop_last();
        assert(plain_args(front)) by {
            assert forall|i: int| 0 <= i < front.len() implies !(#[trigger] front[i]).contains(
                '$',
            ) by {
                assert(front[i] == args[i]);
            }
        }
        lemma_plain_join(front);
        lemma_plain_concat(join(front, " "@), " "@);
        assert(!args[args.len() - 1].contains('$'));
        lemma_plain_concat(join(front, " "@) + " "@, args.last());
    } else if args.len() == 1 {
        assert(!args[0].contains('$'));
    }
}

proof fn lemma_plain_concat(a: Seq<char>, b: Seq<char>)
    requires
        !a.contains('$'),
        !b.contains('$'),
    ensures
        !(a + b).contains('$'),
{
    assert forall|i: int| 0 <= i < (a + b).len() implies (a + b)[i] != '$' by {
        if i < a.len() {
            assert(a.contains(a[i]));
        } else {
            assert(b.contains(b[i - a.len()]));
        }
    }
}

proof fn lemma_numbers_behind(t: Seq<char>, s: Seq<char>, args: Seq<Seq<char>>)
    requires
        !t.contains('$'),
    ensures
        with_numbered(t + s, args) == t + with_numbered(s, args),
    decreases t.len(),
{
    if t.len() == 0 {
        assert(t + s =~= s);
        assert(t + with_numbered(s, args) =~= with_numbered(s, args));
    } else {
        let rest = t.drop_first();
        assert(t.contains(t[0]));
        assert forall|i: int| 0 <= i < rest.len() implies rest[i] != '$' by {
            assert(t.contains(t[i + 1]));
        }
        assert((t + s).skip(1) =~= rest + s);
        assert((t + s)[0] == t[0]);
        lemma_numbers_behind(rest, s, args);
        assert(seq![t[0]] + (rest + with_numbered(s, args)) =~= t + with_numbered(s, args));
    }
}

/// A number behind a dollar sign stands for the argument of that number, counted
/// from one, and for nothing where there are fewer.
pub proof fn law_numbers_stand_for_arguments(
    front: Seq<char>,
    n: nat,
    rest: Seq<char>,
    args: Seq<Seq<char>>,
)
    requires
        !front.contains('$'),
        0 < n <= usize::MAX,
        rest.len() > 0 ==> !is_digit(rest[0]),
    ensures
        with_numbered(front + seq!['$'] + decimal(n) + rest, args) == front + (if n <= args.len() {
            args[n - 1]
        } else {
            Seq::empty()
        }) + with_numbered(rest, args),
        !rest.contains('$') && plain_args(args) ==> substituted(
            front + seq!['$'] + decimal(n) + rest,
            args,
        ) == front + (if n <= args.len() {
            args[n - 1]
        } else {
            Seq::empty()
        }) + rest,
{
    law_numbers_are_read_back(n);
    let digits = decimal(n);
    let k = digits.len() as int;
    let s = seq!['$'] + digits + rest;
    assert(front + seq!['$'] + digits + rest =~= front + s);
    lemma_numbers_behind(front, s, args);
    let tail = s.skip(1);
    assert(tail =~= digits + rest);
    assert forall|i: int| 0 <= i < k implies is_digit(#[trigger] tail[i]) by {
        assert(is_digit(digits[i]));
    }
    lemma_digit_count(tail, k);
    assert(s.subrange(1, 1 + k) =~= digits);
    assert(s.skip(1 + k) =~= rest);
    let found = if n <= args.len() {
        args[n - 1]
    } else {
        Seq::empty()
    };
    assert(front + (found + with_numbered(rest, args)) =~= front + found + with_numbered(
        rest,
        args,
    ));
    if !rest.contains('$') && plain_args(args) {
        lemma_no_numbers(rest, args);
        lemma_plain_concat(front, found);
        lemma_plain_concat(front + found, rest);
        let made = front + found + rest;
        reveal_strlit("$ARGUMENTS");
        reveal_strlit("$@");
        reveal_strlit("${@:");
        lemma_no_mark(made, "${@:"@);
        lemma_no_mark(made, "$ARGUMENTS"@);
        lemma_no_mark(made, "$@"@);
    }
}

proof fn lemma_one_dollar(front: Seq<char>, rest: Seq<char>, mark: Seq<char>)
    requires
        !front.contains('$'),
        !rest.contains('$'),
        mark.len() > 0,
        mark[0] == '$',
    ensures
        ({
            let s = front + seq!['$'] + rest;
            first_match(s, mark, 0) == if matches_at(s, front.len() as int, mark) {
                Some(front.len() as int)
            } else {
                None
            }
        }),
{
    let s = front + seq!['$'] + rest;
    lemma_first_match(s, mark, 0);
    if let Some(i) = first_match(s, mark, 0) {
        assert(s.subrange(i, i + mark.len())[0] == s[i]);
        if i < front.len() {
            assert(front.contains(front[i]));
        }
        if i > front.len() {
            assert(rest.contains(rest[i - front.len() - 1]));
        }
    }
}

proof fn lemma_no_digit_stays(front: Seq<char>, rest: Seq<char>, args: Seq<Seq<char>>)
    requires
        !front.contains('$'),
        !rest.contains('$'),
        rest.len() > 0 ==> !is_digit(rest[0]),
    ensures
        with_numbered(front + seq!['$'] + rest, args) == front + seq!['$'] + rest,
{
    let s = seq!['$'] + rest;
    assert(front + seq!['$'] + rest =~= front + s);
    lemma_numbers_behind(front, s, args);
    assert(s.skip(1) =~= rest);
    lemma_no_numbers(rest, args);
    assert(s[0] == '$');
}

proof fn lemma_replace_mark(front: Seq<char>, mark: Seq<char>, rest: Seq<char>, to: Seq<char>)
    requires
        !front.contains('$'),
        !rest.contains('$'),
        mark.len() > 0,
        mark[0] == '$',
    ensures
        replace_all(front + mark + rest, mark, to) == front + to + rest,
{
    let s = front + mark + rest;
    assert forall|i: int| 0 <= i < front.len() implies !matches_at(s, i, mark) by {
        if matches_at(s, i, mark) {
            assert(s.subrange(i, i + mark.len())[0] == s[i]);
            assert(front.contains(front[i]));
        }
    }
    lemma_no_mark(rest, mark);
    law_occurrences_are_replaced(front, mark, rest, to);
}

/// The marks for all arguments stand for all of them, with blanks between them.
pub proof fn law_marks_stand_for_all_arguments(
    front: Seq<char>,
    rest: Seq<char>,
    args: Seq<Seq<char>>,
)
    requires
        !front.contains('$'),
        !rest.contains('$'),
        plain_args(args),
    ensures
        substituted(front + "$@"@ + rest, args) == front + join(args, " "@) + rest,
        substituted(front + "$ARGUMENTS"@ + rest, args) == front + join(args, " "@) + rest,
{
    reveal_strlit("$ARGUMENTS");
    reveal_strlit("$@");
    reveal_strlit("${@:");
    let all = join(args, " "@);
    lemma_plain_join(args);
    let made = front + all + rest;
    lemma_plain_concat(front, all);
    lemma_plain_concat(front + all, rest);
    let n = front.len() as int;
    // The short mark.
    let tail = seq!['@'] + rest;
    let s = front + "$@"@ + rest;
    assert(s =~= front + seq!['$'] + tail);
    assert(!tail.contains('$')) by {
        assert forall|i: int| 0 <= i < tail.len() implies tail[i] != '$' by {
            if i > 0 {
                assert(rest.contains(rest[i - 1]));
            }
        }
    }
    lemma_no_digit_stays(front, tail, args);
    lemma_one_dollar(front, tail, "${@:"@);
    lemma_one_dollar(front, tail, "$ARGUMENTS"@);
    assert(s[n + 1] == '@');
    if matches_at(s, n, "${@:"@) {
        assert(s.subrange(n, n + 4)[1] == s[n + 1]);
    }
    if matches_at(s, n, "$ARGUMENTS"@) {
        assert(s.subrange(n, n + 10)[1] == s[n + 1]);
    }
    assert(replace_all(s, "$ARGUMENTS"@, all) == s);
    lemma_replace_mark(front, "$@"@, rest, all);
    // The long mark.
    let name = "ARGUMENTS"@;
    reveal_strlit("ARGUMENTS");
    let tail2 = name + rest;
    let s2 = front + "$ARGUMENTS"@ + rest;
    assert("$ARGUMENTS"@ =~= seq!['$'] + name);
    assert(s2 =~= front + seq!['$'] + tail2);
    assert(!tail2.contains('$')) by {
        assert forall|i: int| 0 <= i < tail2.len() implies tail2[i] != '$' by {
            if i >= 9 {
                assert(rest.contains(rest[i - 9]));
            }
        }
    }
    lemma_no_digit_stays(front, tail2, args);
    lemma_one_dollar(front, tail2, "${@:"@);
    assert(s2[n + 1] == 'A');
    if matches_at(s2, n, "${@:"@) {
        assert(s2.subrange(n, n + 4)[1] == s2[n + 1]);
    }
    lemma_replace_mark(front, "$ARGUMENTS"@, rest, all);
    lemma_no_mark(made, "$@"@);
}

proof fn lemma_no_colon(n: nat)
    ensures
        first_match(decimal(n), ":"@, 0) is None,
{
    reveal_strlit(":");
    law_numbers_are_read_back(n);
    let text = decimal(n);
    lemma_first_match(text, ":"@, 0);
    if let Some(i) = first_match(text, ":"@, 0) {
        assert(text.subrange(i, i + 1)[0] == text[i]);
        assert(is_digit(text[i]));
    }
}

/// A token with a number stands for the arguments from that one on, counted
/// from one, and one with a second number for that many of them.
pub proof fn law_tokens_stand_for_several_arguments(n: nat, count: nat, args: Seq<Seq<char>>)
    requires
        0 < n <= args.len(),
        args.len() <= usize::MAX,
        count <= usize::MAX,
    ensures
        args_of_token(decimal(n), args) == args.skip(n - 1),
        n - 1 + count <= args.len() ==> args_of_token(
            decimal(n) + seq![':'] + decimal(count),
            args,
        ) == args.subrange(n - 1, n - 1 + count),
        n - 1 + count > args.len() ==> args_of_token(
            decimal(n) + seq![':'] + decimal(count),
            args,
        ) == args.skip(n - 1),
{
    reveal_strlit(":");
    law_numbers_are_read_back(n);
    law_numbers_are_read_back(count);
    lemma_no_colon(n);
    let token = decimal(n) + seq![':'] + decimal(count);
    let k = decimal(n).len() as int;
    lemma_first_match(token, ":"@, 0);
    assert(token.subrange(k, k + 1) =~= ":"@);
    assert(matches_at(token, k, ":"@));
    assert forall|i: int| 0 <= i < k implies !matches_at(token, i, ":"@) by {
        assert(token.subrange(i, i + 1)[0] == token[i]);
        assert(is_digit(decimal(n)[i]));
    }
    assert(first_match(token, ":"@, 0) == Some(k));
    assert(token.take(k) =~= decimal(n));
    assert(token.skip(k + 1) =~= decimal(count));
    if n - 1 + count <= args.len() {
        assert(args.skip(n - 1).take(count as int) =~= args.subrange(n - 1, n - 1 + count));
        assert(args_of_token(token, args) =~= args.subrange(n - 1, n - 1 + count));
    } else {
        assert(args_of_token(token, args) =~= args.skip(n - 1));
    }
}

/// A token is replaced by the arguments that it stands for, with blanks between
/// them; what is before it stays.
pub proof fn law_tokens_are_replaced(
    front: Seq<char>,
    token: Seq<char>,
    rest: Seq<char>,
    args: Seq<Seq<char>>,
)
    requires
        !front.contains('$'),
        !token.contains('}'),
    ensures
        with_slices(front + "${@:"@ + token + seq!['}'] + rest, args) == front + join(
            args_of_token(token, args),
            " "@,
        ) + with_slices(rest, args),
{
    reveal_strlit("${@:");
    reveal_strlit("}");
    let s = front + "${@:"@ + token + seq!['}'] + rest;
    let n = front.len() as int;
    lemma_first_match(s, "${@:"@, 0);
    assert(s.subrange(n, n + 4) =~= "${@:"@);
    assert(matches_at(s, n, "${@:"@));
    assert forall|i: int| 0 <= i < n implies !matches_at(s, i, "${@:"@) by {
        if matches_at(s, i, "${@:"@) {
            assert(s.subrange(i, i + 4)[0] == s[i]);
            assert(front.contains(front[i]));
        }
    }
    assert(first_match(s, "${@:"@, 0) == Some(n));
    let inner = s.skip(n + 4);
    assert(inner =~= token + seq!['}'] + rest);
    let k = token.len() as int;
    lemma_first_match(inner, "}"@, 0);
    assert(inner.subrange(k, k + 1) =~= "}"@);
    assert(matches_at(inner, k, "}"@));
    assert forall|i: int| 0 <= i < k implies !matches_at(inner, i, "}"@) by {
        if matches_at(inner, i, "}"@) {
            assert(inner.subrange(i, i + 1)[0] == inner[i]);
            assert(token.contains(token[i]));
        }
    }
    assert(first_match(inner, "}"@, 0) == Some(k));
    assert(s.take(n) =~= front);
    assert(inner.take(k) =~= token);
    assert(inner.skip(k + 1) =~= rest);
}

// ---------------------------------------------------------------------------
// Loading
// ---------------------------------------------------------------------------

/// A template has the name of its file without the ending and the whole body. It
/// is described by what it declares, or else by its first line that holds
/// something, as far as sixty characters of it go.
pub proof fn law_templates_are_described(
    name: Seq<char>,
    declared: Seq<char>,
    blank: Seq<Seq<char>>,
    line: Seq<char>,
    more: Seq<Seq<char>>,
    body: Seq<char>,
)
    requires
        split(body, '\n') == blank + seq![line] + more,
        forall|i: int| 0 <= i < blank.len() ==> trim(#[trigger] blank[i]).len() == 0,
        trim(line).len() > 0,
        line.len() > 0,
    ensures
        template_of(name + ".md"@, None, body).name == name,
        template_of(name + ".md"@, None, body).content == body,
        declared.len() > 0 ==> template_of(name, Some(declared), body).description == Some(
            declared,
        ),
        line.len() <= 60 ==> template_of(name, None, body).description == Some(line),
        line.len() > 60 ==> template_of(name, None, body).description == Some(
            line.take(60) + "..."@,
        ),
        template_of(name, Some(Seq::empty()), body).description == template_of(
            name,
            None,
            body,
        ).description,
{
    reveal_strlit(".md");
    reveal_strlit("...");
    let file = name + ".md"@;
    assert(file.subrange(file.len() - 3, file.len() as int) =~= ".md"@);
    assert(file.take(file.len() - 3) =~= name);
    lemma_first_filled(blank, line, more);
}

proof fn lemma_first_filled(blank: Seq<Seq<char>>, line: Seq<char>, more: Seq<Seq<char>>)
    requires
        forall|i: int| 0 <= i < blank.len() ==> trim(#[trigger] blank[i]).len() == 0,
        trim(line).len() > 0,
    ensures
        first_filled_line(blank + seq![line] + more) == line,
    decreases blank.len(),
{
    let all = blank + seq![line] + more;
    if blank.len() > 0 {
        let rest = blank.drop_first();
        assert(all.skip(1) =~= rest + seq![line] + more);
        assert(all[0] == blank[0]);
        assert(trim(blank[0]).len() == 0);
        assert forall|i: int| 0 <= i < rest.len() implies trim(#[trigger] rest[i]).len() == 0 by {
            assert(rest[i] == blank[i + 1]);
        }
        lemma_first_filled(rest, line, more);
    } else {
        assert(all[0] == line);
    }
}

/// The entries of a directory are walked in the order of their names, each once.
pub proof fn law_entries_are_walked_by_name(entries: Seq<FileInfo>)
    ensures
        by_name(entries).to_multiset() == entries.to_multiset(),
        in_order(by_name(entries)),
    decreases entries.len(),
{
    if entries.len() > 0 {
        let rest = entries.drop_first();
        law_entries_are_walked_by_name(rest);
        lemma_inserted(by_name(rest), entries[0]);
        assert(entries =~= seq![entries[0]] + rest);
        lemma_one_more(entries[0], rest);
    } else {
        assert(by_name(entries) =~= entries);
    }
}

/// Whether no name stands before an earlier one.
pub open spec fn in_order(entries: Seq<FileInfo>) -> bool {
    forall|i: int, j: int|
        0 <= i < j < entries.len() ==> !text_before(
            (#[trigger] entries[j]).name@,
            (#[trigger] entries[i]).name@,
        )
}

proof fn lemma_one_more(x: FileInfo, s: Seq<FileInfo>)
    ensures
        (seq![x] + s).to_multiset() == s.to_multiset().insert(x),
{
    vstd::seq_lib::lemma_multiset_commutative(seq![x], s);
    broadcast use vstd::seq_lib::group_to_multiset_ensures;

    assert(seq![x] =~= Seq::<FileInfo>::empty().push(x));
    assert(s.to_multiset().insert(x) =~= seq![x].to_multiset().add(s.to_multiset()));
}

proof fn lemma_inserted(s: Seq<FileInfo>, x: FileInfo)
    requires
        in_order(s),
    ensures
        insert_by_name(s, x).to_multiset() == s.to_multiset().insert(x),
        in_order(insert_by_name(s, x)),
        forall|y: FileInfo| #[trigger]
            insert_by_name(s, x).contains(y) ==> y == x || s.contains(y),
    decreases s.len(),
{
    let all = insert_by_name(s, x);
    if s.len() == 0 || !text_before(s[0].name@, x.name@) {
        lemma_one_more(x, s);
        assert forall|i: int, j: int| 0 <= i < j < all.len() implies !text_before(
            (#[trigger] all[j]).name@,
            (#[trigger] all[i]).name@,
        ) by {
            if i == 0 && text_before(all[j].name@, x.name@) {
                if j > 1 {
                    assert(!text_before(s[j - 1].name@, s[0].name@));
                    lemma_not_before(s[j - 1].name@, s[0].name@, x.name@);
                }
            }
            if i > 0 {
                assert(all[i] == s[i - 1]);
                assert(all[j] == s[j - 1]);
            }
        }
        assert forall|y: FileInfo| #[trigger] all.contains(y) implies y == x || s.contains(y) by {
            let k = choose|k: int| 0 <= k < all.len() && all[k] == y;
            if k > 0 {
                assert(s[k - 1] == y);
            }
        }
    } else {
        let rest = s.drop_first();
        assert(in_order(rest)) by {
            assert forall|i: int, j: int| 0 <= i < j < rest.len() implies !text_before(
                (#[trigger] rest[j]).name@,
                (#[trigger] rest[i]).name@,
            ) by {
                assert(!text_before(s[j + 1].name@, s[i + 1].name@));
            }
        }
        lemma_inserted(rest, x);
        let placed = insert_by_name(rest, x);
        lemma_one_more(s[0], placed);
        lemma_one_more(s[0], rest);
        assert(s =~= seq![s[0]] + rest);
        assert(all.to_multiset() =~= s.to_multiset().insert(x));
        assert forall|i: int, j: int| 0 <= i < j < all.len() implies !text_before(
            (#[trigger] all[j]).name@,
            (#[trigger] all[i]).name@,
        ) by {
            assert(all[j] == placed[j - 1]);
            if i == 0 {
                assert(placed.contains(placed[j - 1]));
                if placed[j - 1] == x {
                    if text_before(x.name@, s[0].name@) {
                        lemma_before_transitive(s[0].name@, x.name@, s[0].name@);
                        lemma_before_irreflexive(s[0].name@);
                    }
                } else {
                    let k = choose|k: int| 0 <= k < rest.len() && rest[k] == placed[j - 1];
                    assert(s[k + 1] == placed[j - 1]);
                    assert(!text_before(s[k + 1].name@, s[0].name@));
                }
            } else {
                assert(all[i] == placed[i - 1]);
            }
        }
        assert forall|y: FileInfo| #[trigger] all.contains(y) implies y == x || s.contains(y) by {
            let k = choose|k: int| 0 <= k < all.len() && all[k] == y;
            if k > 0 {
                assert(placed[k - 1] == y);
                assert(placed.contains(y));
                if y != x {
                    let m = choose|m: int| 0 <= m < rest.len() && rest[m] == y;
                    assert(s[m + 1] == y);
                }
            } else {
                assert(s[0] == y);
            }
        }
    }
}

proof fn lemma_not_before(a: Seq<char>, b: Seq<char>, c: Seq<char>)
    requires
        text_before(a, c),
        !text_before(a, b),
    ensures
        text_before(b, c),
{
    lemma_before_total(a, b);
    if text_before(b, a) {
        lemma_before_transitive(b, a, c);
    }
}

/// What is loaded of a directory are its files that end in `.md`, also behind
/// links, in order.
pub proof fn law_files_of_templates_are_loaded(
    entries: Seq<FileInfo>,
    resolves: spec_fn(FileInfo) -> Option<FileKind>,
)
    ensures
        templates_among(entries, resolves) == entries.filter(|e: FileInfo| is_template(e, resolves)),
    decreases entries.len(),
{
    let p = |e: FileInfo| is_template(e, resolves);
    if entries.len() > 0 {
        let rest = entries.drop_first();
        law_files_of_templates_are_loaded(rest, resolves);
        assert(entries =~= seq![entries[0]] + rest);
        Seq::filter_distributes_over_add(seq![entries[0]], rest, p);
        lemma_filter_one(entries[0], p);
        reveal_strlit(".md");
        let name = entries[0].name@;
        if name.len() >= 3 {
            assert(name.skip(name.len() - 3) =~= name.subrange(name.len() - 3, name.len() as int));
        }
        assert(templates_among(entries, resolves) =~= entries.filter(p));
    } else {
        reveal(Seq::filter);
        assert(templates_among(entries, resolves) =~= entries.filter(p));
    }
}

proof fn lemma_filter_one(x: FileInfo, p: spec_fn(FileInfo) -> bool)
    ensures
        seq![x].filter(p) == if p(x) {
            seq![x]
        } else {
            Seq::empty()
        },
{
    reveal(Seq::filter);
    assert(seq![x].drop_last() =~= Seq::<FileInfo>::empty());
    assert(seq![x].drop_last().filter(p) =~= Seq::<FileInfo>::empty());
    assert(Seq::<FileInfo>::empty().push(x) =~= seq![x]);
}

/// Whether an entry is a file of a template.
pub open spec fn is_template(
    entry: FileInfo,
    resolves: spec_fn(FileInfo) -> Option<FileKind>,
) -> bool {
    let kind = if entry.kind == FileKind::File || entry.kind == FileKind::Directory {
        Some(entry.kind)
    } else {
        resolves(entry)
    };
    let name = entry.name@;
    kind == Some(FileKind::File) && name.len() >= 3 && name.skip(name.len() - 3) == ".md"@
}

} // verus!

//! The names of session files: they sort by the time of their creation.

use vstd::prelude::*;

use crate::session::jsonl::repo::{
    date_of, day_number, days_before_year, days_in_month, file_name, hyphenated, is_date, iso_text,
    lemma_date_in_year, lemma_months, lemma_months_grow, lemma_year_length, lemma_years_grow,
    zero_padded, DateView,
};
use crate::text::{decimal, digit};
use crate::text_set::text_before;

verus! {

proof fn lemma_day_has_a_date(days: int) -> (d: DateView)
    requires
        days >= 0,
    ensures
        is_date(d.year, d.month, d.day),
        day_number(d.year, d.month, d.day) == days,
    decreases days,
{
    if days == 0 {
        let d = DateView { year: 1970, month: 1, day: 1 };
        lemma_months(1970);
        d
    } else {
        let before = lemma_day_has_a_date(days - 1);
        let (year, month, day) = (before.year, before.month, before.day);
        lemma_months(year);
        lemma_months(year + 1);
        lemma_year_length(year);
        if day < days_in_month(year, month) {
            DateView { year, month, day: day + 1 }
        } else if month < 12 {
            DateView { year, month: month + 1, day: 1 }
        } else {
            DateView { year: year + 1, month: 1, day: 1 }
        }
    }
}

proof fn lemma_date_of(days: int)
    requires
        0 <= days < 2_932_897,
    ensures
        ({
            let d = date_of(days);
            &&& is_date(d.year, d.month, d.day)
            &&& day_number(d.year, d.month, d.day) == days
            &&& 1970 <= d.year <= 9999
            &&& 1 <= d.month <= 12
            &&& 1 <= d.day <= 31
        }),
{
    let found = lemma_day_has_a_date(days);
    assert(day_number(found.year, found.month, found.day) == days);
    let d = date_of(days);
    lemma_date_in_year(d.year, d.month, d.day);
    assert(days_before_year(1970) == 0);
    assert(days_before_year(10_000) == 2_932_897);
    if d.year < 1970 {
        lemma_years_grow(d.year + 1, 1970);
    }
    if d.year > 9999 {
        lemma_years_grow(10_000, d.year);
    }
}

proof fn lemma_padded(n: nat, width: int)
    requires
        2 <= width <= 4,
        width == 2 ==> n < 100,
        width == 3 ==> n < 1000,
        width == 4 ==> n < 10_000,
    ensures
        zero_padded(n, width).len() == width,
        width == 2 ==> zero_padded(n, width) == seq![digit(n / 10), digit(n % 10)],
        width == 3 ==> zero_padded(n, width) == seq![
            digit(n / 100),
            digit(n / 10 % 10),
            digit(n % 10),
        ],
        width == 4 ==> zero_padded(n, width) == seq![
            digit(n / 1000),
            digit(n / 100 % 10),
            digit(n / 10 % 10),
            digit(n % 10),
        ],
{
    reveal_with_fuel(decimal, 4);
    assert(digit(0) == '0');
    if width == 2 {
        assert(zero_padded(n, width) =~= seq![digit(n / 10), digit(n % 10)]);
    } else if width == 3 {
        assert(n / 10 / 10 == n / 100);
        assert(zero_padded(n, width) =~= seq![digit(n / 100), digit(n / 10 % 10), digit(n % 10)]);
    } else {
        assert(n / 10 / 10 == n / 100);
        assert(n / 10 / 10 / 10 == n / 1000);
        assert(zero_padded(n, width) =~= seq![
            digit(n / 1000),
            digit(n / 100 % 10),
            digit(n / 10 % 10),
            digit(n % 10),
        ]);
    }
}

proof fn lemma_before_at(a: Seq<char>, b: Seq<char>, k: int)
    requires
        0 <= k < a.len(),
        k < b.len(),
        forall|i: int| 0 <= i < k ==> a[i] == b[i],
        a[k] < b[k],
    ensures
        text_before(a, b),
    decreases k,
{
    if k > 0 {
        let x = a.drop_first();
        let y = b.drop_first();
        assert forall|i: int| 0 <= i < k - 1 implies x[i] == y[i] by {
            assert(a[i + 1] == b[i + 1]);
        }
        assert(x[k - 1] == a[k] && y[k - 1] == b[k]);
        lemma_before_at(x, y, k - 1);
    }
}

proof fn lemma_digits_in_order(a: nat, b: nat)
    requires
        a < b < 10,
    ensures
        digit(a) < digit(b),
{
}

proof fn lemma_difference_in_two(a: nat, b: nat) -> (k: int)
    requires
        a < b < 100,
    ensures
        0 <= k < 2,
        zero_padded(a, 2)[k] < zero_padded(b, 2)[k],
        forall|i: int| 0 <= i < k ==> zero_padded(a, 2)[i] == zero_padded(b, 2)[i],
{
    lemma_padded(a, 2);
    lemma_padded(b, 2);
    if a / 10 < b / 10 {
        lemma_digits_in_order(a / 10, b / 10);
        0
    } else {
        assert(a / 10 == b / 10);
        lemma_digits_in_order(a % 10, b % 10);
        1
    }
}

proof fn lemma_difference_in_three(a: nat, b: nat) -> (k: int)
    requires
        a < b < 1000,
    ensures
        0 <= k < 3,
        zero_padded(a, 3)[k] < zero_padded(b, 3)[k],
        forall|i: int| 0 <= i < k ==> zero_padded(a, 3)[i] == zero_padded(b, 3)[i],
{
    lemma_padded(a, 3);
    lemma_padded(b, 3);
    assert(a / 10 / 10 == a / 100 && b / 10 / 10 == b / 100);
    if a / 100 < b / 100 {
        lemma_digits_in_order(a / 100, b / 100);
        0
    } else if a / 10 < b / 10 {
        assert(a / 100 == b / 100);
        lemma_digits_in_order(a / 10 % 10, b / 10 % 10);
        1
    } else {
        assert(a / 10 == b / 10);
        lemma_digits_in_order(a % 10, b % 10);
        2
    }
}

proof fn lemma_difference_in_four(a: nat, b: nat) -> (k: int)
    requires
        a < b < 10_000,
    ensures
        0 <= k < 4,
        zero_padded(a, 4)[k] < zero_padded(b, 4)[k],
        forall|i: int| 0 <= i < k ==> zero_padded(a, 4)[i] == zero_padded(b, 4)[i],
{
    lemma_padded(a, 4);
    lemma_padded(b, 4);
    assert(a / 10 / 10 == a / 100 && b / 10 / 10 == b / 100);
    assert(a / 100 / 10 == a / 1000 && b / 100 / 10 == b / 1000);
    if a / 1000 < b / 1000 {
        lemma_digits_in_order(a / 1000, b / 1000);
        0
    } else if a / 100 < b / 100 {
        assert(a / 1000 == b / 1000);
        lemma_digits_in_order(a / 100 % 10, b / 100 % 10);
        1
    } else if a / 10 < b / 10 {
        assert(a / 100 == b / 100);
        lemma_digits_in_order(a / 10 % 10, b / 10 % 10);
        2
    } else {
        assert(a / 10 == b / 10);
        lemma_digits_in_order(a % 10, b % 10);
        3
    }
}

proof fn lemma_field_decides(a: nat, b: nat, width: int, rest: Seq<char>, other: Seq<char>)
    requires
        a < b,
        2 <= width <= 4,
        width == 2 ==> b < 100,
        width == 3 ==> b < 1000,
        width == 4 ==> b < 10_000,
    ensures
        text_before(zero_padded(a, width) + rest, zero_padded(b, width) + other),
{
    let k = if width == 2 {
        lemma_difference_in_two(a, b)
    } else if width == 3 {
        lemma_difference_in_three(a, b)
    } else {
        lemma_difference_in_four(a, b)
    };
    lemma_padded(a, width);
    lemma_padded(b, width);
    lemma_before_at(zero_padded(a, width) + rest, zero_padded(b, width) + other, k);
}

proof fn lemma_same_front(front: Seq<char>, a: Seq<char>, b: Seq<char>)
    requires
        text_before(a, b),
    ensures
        text_before(front + a, front + b),
    decreases front.len(),
{
    if front.len() == 0 {
        assert(front + a =~= a);
        assert(front + b =~= b);
    } else {
        lemma_same_front(front.drop_first(), a, b);
        assert((front + a).drop_first() =~= front.drop_first() + a);
        assert((front + b).drop_first() =~= front.drop_first() + b);
    }
}

proof fn lemma_regrouped(a: Seq<char>, b: Seq<char>, c: Seq<char>)
    ensures
        (a + b) + c == a + (b + c),
{
    assert((a + b) + c =~= a + (b + c));
}

/// The milliseconds and what follows them in a stamp.
pub open spec fn from_millis(millis: int) -> Seq<char> {
    zero_padded(millis as nat, 3) + seq!['Z']
}

/// The seconds and what follows them in a stamp.
pub open spec fn from_second(second: int, millis: int) -> Seq<char> {
    zero_padded(second as nat, 2) + (seq!['-'] + from_millis(millis))
}

/// The minutes and what follows them in a stamp.
pub open spec fn from_minute(minute: int, second: int, millis: int) -> Seq<char> {
    zero_padded(minute as nat, 2) + (seq!['-'] + from_second(second, millis))
}

/// The hours and what follows them in a stamp.
pub open spec fn from_hour(hour: int, minute: int, second: int, millis: int) -> Seq<char> {
    zero_padded(hour as nat, 2) + (seq!['-'] + from_minute(minute, second, millis))
}

/// A time with hyphens between its parts.
pub open spec fn stamp_of(
    date: DateView,
    hour: int,
    minute: int,
    second: int,
    millis: int,
) -> Seq<char> {
    zero_padded(date.year as nat, 4) + (seq!['-'] + (zero_padded(date.month as nat, 2) + (seq!['-']
        + (zero_padded(date.day as nat, 2) + (seq!['T'] + from_hour(
        hour,
        minute,
        second,
        millis,
    ))))))
}

/// How a session file's name starts: the time with hyphens between its parts.
pub open spec fn time_stamp(ms: int) -> Seq<char> {
    let time = ms % 86_400_000;
    stamp_of(
        date_of(ms / 86_400_000),
        time / 3_600_000,
        time / 60_000 % 60,
        time / 1000 % 60,
        time % 1000,
    )
}

proof fn lemma_hyphenated_concat(a: Seq<char>, b: Seq<char>, drop: Seq<char>)
    ensures
        hyphenated(a + b, drop) == hyphenated(a, drop) + hyphenated(b, drop),
{
    assert(hyphenated(a + b, drop) =~= hyphenated(a, drop) + hyphenated(b, drop));
}

proof fn lemma_digits_stay(n: nat, width: int)
    requires
        2 <= width <= 4,
        width == 2 ==> n < 100,
        width == 3 ==> n < 1000,
        width == 4 ==> n < 10_000,
    ensures
        hyphenated(zero_padded(n, width), ":."@) == zero_padded(n, width),
        !zero_padded(n, width).contains(':'),
        !zero_padded(n, width).contains('.'),
{
    reveal_strlit(":.");
    lemma_padded(n, width);
    let text = zero_padded(n, width);
    assert forall|i: int| 0 <= i < text.len() implies text[i] != ':' && text[i] != '.' by {}
    assert forall|i: int| 0 <= i < text.len() implies !(":."@).contains(text[i]) by {}
    assert(hyphenated(text, ":."@) =~= text);
}

proof fn lemma_marks(drop: Seq<char>)
    requires
        drop == ":."@,
    ensures
        hyphenated("-"@, drop) == seq!['-'],
        hyphenated("T"@, drop) == seq!['T'],
        hyphenated("Z"@, drop) == seq!['Z'],
        hyphenated(":"@, drop) == seq!['-'],
        hyphenated("."@, drop) == seq!['-'],
{
    reveal_strlit(":.");
    reveal_strlit("-");
    reveal_strlit("T");
    reveal_strlit("Z");
    reveal_strlit(":");
    reveal_strlit(".");
    assert(drop[0] == ':' && drop[1] == '.');
    assert(drop.contains(':') && drop.contains('.'));
    assert(!drop.contains('-') && !drop.contains('T') && !drop.contains('Z'));
    assert(hyphenated("-"@, drop) =~= seq!['-']);
    assert(hyphenated("T"@, drop) =~= seq!['T']);
    assert(hyphenated("Z"@, drop) =~= seq!['Z']);
    assert(hyphenated(":"@, drop) =~= seq!['-']);
    assert(hyphenated("."@, drop) =~= seq!['-']);
}

proof fn lemma_stamp(ms: int)
    requires
        0 <= ms < 253_402_300_800_000,
    ensures
        hyphenated(iso_text(ms), ":."@) == time_stamp(ms),
        time_stamp(ms).len() == 24,
{
    let drop = ":."@;
    let date = date_of(ms / 86_400_000);
    let time = ms % 86_400_000;
    lemma_date_of(ms / 86_400_000);
    let year = zero_padded(date.year as nat, 4);
    let month = zero_padded(date.month as nat, 2);
    let day = zero_padded(date.day as nat, 2);
    let hour = zero_padded((time / 3_600_000) as nat, 2);
    let minute = zero_padded((time / 60_000 % 60) as nat, 2);
    let second = zero_padded((time / 1000 % 60) as nat, 2);
    let millis = zero_padded((time % 1000) as nat, 3);
    lemma_digits_stay(date.year as nat, 4);
    lemma_digits_stay(date.month as nat, 2);
    lemma_digits_stay(date.day as nat, 2);
    lemma_digits_stay((time / 3_600_000) as nat, 2);
    lemma_digits_stay((time / 60_000 % 60) as nat, 2);
    lemma_digits_stay((time / 1000 % 60) as nat, 2);
    lemma_digits_stay((time % 1000) as nat, 3);
    lemma_padded(date.year as nat, 4);
    lemma_padded(date.month as nat, 2);
    lemma_padded(date.day as nat, 2);
    lemma_padded((time / 3_600_000) as nat, 2);
    lemma_padded((time / 60_000 % 60) as nat, 2);
    lemma_padded((time / 1000 % 60) as nat, 2);
    lemma_padded((time % 1000) as nat, 3);
    lemma_marks(drop);
    let p1 = year + "-"@;
    let p2 = p1 + month;
    let p3 = p2 + "-"@;
    let p4 = p3 + day;
    let p5 = p4 + "T"@;
    let p6 = p5 + hour;
    let p7 = p6 + ":"@;
    let p8 = p7 + minute;
    let p9 = p8 + ":"@;
    let p10 = p9 + second;
    let p11 = p10 + "."@;
    let p12 = p11 + millis;
    lemma_hyphenated_concat(year, "-"@, drop);
    lemma_hyphenated_concat(p1, month, drop);
    lemma_hyphenated_concat(p2, "-"@, drop);
    lemma_hyphenated_concat(p3, day, drop);
    lemma_hyphenated_concat(p4, "T"@, drop);
    lemma_hyphenated_concat(p5, hour, drop);
    lemma_hyphenated_concat(p6, ":"@, drop);
    lemma_hyphenated_concat(p7, minute, drop);
    lemma_hyphenated_concat(p8, ":"@, drop);
    lemma_hyphenated_concat(p9, second, drop);
    lemma_hyphenated_concat(p10, "."@, drop);
    lemma_hyphenated_concat(p11, millis, drop);
    lemma_hyphenated_concat(p12, "Z"@, drop);
    assert(iso_text(ms) == p12 + "Z"@);
    lemma_grouped_from_the_right(year, month, day, hour, minute, second, millis);
}

proof fn lemma_grouped_from_the_right(
    year: Seq<char>,
    month: Seq<char>,
    day: Seq<char>,
    hour: Seq<char>,
    minute: Seq<char>,
    second: Seq<char>,
    millis: Seq<char>,
)
    ensures
        year + seq!['-'] + month + seq!['-'] + day + seq!['T'] + hour + seq!['-'] + minute
            + seq!['-'] + second + seq!['-'] + millis + seq!['Z'] == year + (seq!['-'] + (month + (
        seq!['-'] + (day + (seq!['T'] + (hour + (seq!['-'] + (minute + (seq!['-'] + (second + (
        seq!['-'] + (millis + seq!['Z'])))))))))))),
{
    let p1 = year + seq!['-'];
    let p2 = p1 + month;
    let p3 = p2 + seq!['-'];
    let p4 = p3 + day;
    let p5 = p4 + seq!['T'];
    let p6 = p5 + hour;
    let p7 = p6 + seq!['-'];
    let p8 = p7 + minute;
    let p9 = p8 + seq!['-'];
    let p10 = p9 + second;
    let p11 = p10 + seq!['-'];
    let r1 = millis + seq!['Z'];
    let r2 = seq!['-'] + r1;
    let r3 = second + r2;
    let r4 = seq!['-'] + r3;
    let r5 = minute + r4;
    let r6 = seq!['-'] + r5;
    let r7 = hour + r6;
    let r8 = seq!['T'] + r7;
    let r9 = day + r8;
    let r10 = seq!['-'] + r9;
    let r11 = month + r10;
    lemma_regrouped(p11, millis, seq!['Z']);
    lemma_regrouped(p10, seq!['-'], r1);
    lemma_regrouped(p9, second, r2);
    lemma_regrouped(p8, seq!['-'], r3);
    lemma_regrouped(p7, minute, r4);
    lemma_regrouped(p6, seq!['-'], r5);
    lemma_regrouped(p5, hour, r6);
    lemma_regrouped(p4, seq!['T'], r7);
    lemma_regrouped(p3, day, r8);
    lemma_regrouped(p2, seq!['-'], r9);
    lemma_regrouped(p1, month, r10);
    lemma_regrouped(year, seq!['-'], r11);
}

/// The name of a session file from the years that four places hold is a time
/// stamp of 24 characters that holds neither a colon nor a period, and the id
/// behind it.
pub proof fn law_file_names_begin_with_their_time(created_at: int, id: Seq<char>)
    requires
        0 <= created_at < 253_402_300_800_000,
    ensures
        file_name(created_at, id).len() >= 24,
        file_name(created_at, id).take(24) == time_stamp(created_at),
        file_name(created_at, id).skip(24) == "_"@ + id + ".jsonl"@,
        !file_name(created_at, id).take(24).contains(':'),
        !file_name(created_at, id).take(24).contains('.'),
{
    lemma_stamp(created_at);
    lemma_named(time_stamp(created_at), id);
    lemma_replaced_by_hyphens(iso_text(created_at));
}

proof fn lemma_named(stamp: Seq<char>, id: Seq<char>)
    requires
        stamp.len() == 24,
    ensures
        ({
            let name = stamp + "_"@ + id + ".jsonl"@;
            name.len() >= 24 && name.take(24) == stamp && name.skip(24) == "_"@ + id + ".jsonl"@
        }),
{
    let name = stamp + "_"@ + id + ".jsonl"@;
    assert(name.take(24) =~= stamp);
    assert(name.skip(24) =~= "_"@ + id + ".jsonl"@);
}

proof fn lemma_replaced_by_hyphens(text: Seq<char>)
    ensures
        !hyphenated(text, ":."@).contains(':'),
        !hyphenated(text, ":."@).contains('.'),
{
    reveal_strlit(":.");
    let drop = ":."@;
    assert(drop[0] == ':' && drop[1] == '.');
    assert(drop.contains(':') && drop.contains('.'));
}

proof fn lemma_earlier_date(a: DateView, b: DateView)
    requires
        is_date(a.year, a.month, a.day),
        is_date(b.year, b.month, b.day),
        day_number(a.year, a.month, a.day) < day_number(b.year, b.month, b.day),
    ensures
        a.year < b.year || (a.year == b.year && (a.month < b.month || (a.month == b.month && a.day
            < b.day))),
{
    lemma_date_in_year(a.year, a.month, a.day);
    lemma_date_in_year(b.year, b.month, b.day);
    if b.year < a.year {
        lemma_years_grow(b.year + 1, a.year);
    } else if a.year == b.year && b.month < a.month {
        lemma_months_grow(a.year, b.month, a.month);
    }
}

proof fn lemma_earlier_day(a: DateView, b: DateView, u: Seq<char>, v: Seq<char>)
    requires
        0 <= a.year,
        0 <= b.year <= 9999,
        1 <= a.month,
        1 <= b.month <= 12,
        1 <= a.day,
        1 <= b.day <= 31,
        a.year < b.year || (a.year == b.year && (a.month < b.month || (a.month == b.month && a.day
            < b.day))),
    ensures
        text_before(
            zero_padded(a.year as nat, 4) + (seq!['-'] + (zero_padded(a.month as nat, 2) + (seq!['-']
                + (zero_padded(a.day as nat, 2) + u)))),
            zero_padded(b.year as nat, 4) + (seq!['-'] + (zero_padded(b.month as nat, 2) + (seq!['-']
                + (zero_padded(b.day as nat, 2) + v)))),
        ),
{
    let a_day = zero_padded(a.day as nat, 2) + u;
    let b_day = zero_padded(b.day as nat, 2) + v;
    let a_month = zero_padded(a.month as nat, 2) + (seq!['-'] + a_day);
    let b_month = zero_padded(b.month as nat, 2) + (seq!['-'] + b_day);
    if a.year < b.year {
        lemma_field_decides(
            a.year as nat,
            b.year as nat,
            4,
            seq!['-'] + a_month,
            seq!['-'] + b_month,
        );
    } else {
        if a.month < b.month {
            lemma_field_decides(
                a.month as nat,
                b.month as nat,
                2,
                seq!['-'] + a_day,
                seq!['-'] + b_day,
            );
        } else {
            lemma_field_decides(a.day as nat, b.day as nat, 2, u, v);
            lemma_same_front(seq!['-'], a_day, b_day);
            lemma_same_front(zero_padded(a.month as nat, 2), seq!['-'] + a_day, seq!['-'] + b_day);
        }
        lemma_same_front(seq!['-'], a_month, b_month);
        lemma_same_front(zero_padded(a.year as nat, 4), seq!['-'] + a_month, seq!['-'] + b_month);
    }
}

proof fn lemma_earlier_time(
    h: int,
    m: int,
    s: int,
    ms: int,
    other_h: int,
    other_m: int,
    other_s: int,
    other_ms: int,
)
    requires
        0 <= h,
        0 <= m,
        0 <= s,
        0 <= ms,
        0 <= other_h < 24,
        0 <= other_m < 60,
        0 <= other_s < 60,
        0 <= other_ms < 1000,
        h < other_h || (h == other_h && (m < other_m || (m == other_m && (s < other_s || (s
            == other_s && ms < other_ms))))),
    ensures
        text_before(from_hour(h, m, s, ms), from_hour(other_h, other_m, other_s, other_ms)),
{
    let x_ms = from_millis(ms);
    let y_ms = from_millis(other_ms);
    let x_s = from_second(s, ms);
    let y_s = from_second(other_s, other_ms);
    let x_m = from_minute(m, s, ms);
    let y_m = from_minute(other_m, other_s, other_ms);
    let mark = seq!['-'];
    if h < other_h {
        lemma_field_decides(h as nat, other_h as nat, 2, mark + x_m, mark + y_m);
    } else {
        if m < other_m {
            lemma_field_decides(m as nat, other_m as nat, 2, mark + x_s, mark + y_s);
        } else {
            if s < other_s {
                lemma_field_decides(s as nat, other_s as nat, 2, mark + x_ms, mark + y_ms);
            } else {
                lemma_field_decides(ms as nat, other_ms as nat, 3, seq!['Z'], seq!['Z']);
                lemma_same_front(mark, x_ms, y_ms);
                lemma_same_front(zero_padded(s as nat, 2), mark + x_ms, mark + y_ms);
            }
            lemma_same_front(mark, x_s, y_s);
            lemma_same_front(zero_padded(m as nat, 2), mark + x_s, mark + y_s);
        }
        lemma_same_front(mark, x_m, y_m);
        lemma_same_front(zero_padded(h as nat, 2), mark + x_m, mark + y_m);
    }
}

proof fn lemma_time_parts(s: int, t: int)
    requires
        0 <= s < t < 86_400_000,
    ensures
        ({
            let (h, m, sec, ms) = (s / 3_600_000, s / 60_000 % 60, s / 1000 % 60, s % 1000);
            let (oh, om, osec, oms) = (t / 3_600_000, t / 60_000 % 60, t / 1000 % 60, t % 1000);
            &&& oh < 24
            &&& h < oh || (h == oh && (m < om || (m == om && (sec < osec || (sec == osec && ms
                < oms)))))
        }),
{
    assert(s / 1000 / 60 == s / 60_000 && t / 1000 / 60 == t / 60_000);
    assert(s / 60_000 / 60 == s / 3_600_000 && t / 60_000 / 60 == t / 3_600_000);
}

/// The names of session files sort by the time of their creation, whatever the
/// ids, in the years that four places hold.
pub proof fn law_later_files_sort_later(
    earlier: int,
    later: int,
    id: Seq<char>,
    other: Seq<char>,
)
    requires
        0 <= earlier < later < 253_402_300_800_000,
    ensures
        text_before(file_name(earlier, id).take(24), file_name(later, other).take(24)),
{
    law_file_names_begin_with_their_time(earlier, id);
    law_file_names_begin_with_their_time(later, other);
    let a = date_of(earlier / 86_400_000);
    let b = date_of(later / 86_400_000);
    lemma_date_of(earlier / 86_400_000);
    lemma_date_of(later / 86_400_000);
    let s = earlier % 86_400_000;
    let t = later % 86_400_000;
    let (h, m, sec, ms) = (s / 3_600_000, s / 60_000 % 60, s / 1000 % 60, s % 1000);
    let (oh, om, osec, oms) = (t / 3_600_000, t / 60_000 % 60, t / 1000 % 60, t % 1000);
    let x = from_hour(h, m, sec, ms);
    let y = from_hour(oh, om, osec, oms);
    if earlier / 86_400_000 < later / 86_400_000 {
        lemma_earlier_date(a, b);
        lemma_earlier_day(a, b, seq!['T'] + x, seq!['T'] + y);
    } else {
        assert(earlier / 86_400_000 == later / 86_400_000);
        assert(s < t);
        lemma_time_parts(s, t);
        lemma_earlier_time(h, m, sec, ms, oh, om, osec, oms);
        lemma_same_front(seq!['T'], x, y);
        let (x_day, y_day) = (seq!['T'] + x, seq!['T'] + y);
        let day = zero_padded(a.day as nat, 2);
        lemma_same_front(day, x_day, y_day);
        lemma_same_front(seq!['-'], day + x_day, day + y_day);
        let (x_month, y_month) = (seq!['-'] + (day + x_day), seq!['-'] + (day + y_day));
        let month = zero_padded(a.month as nat, 2);
        lemma_same_front(month, x_month, y_month);
        lemma_same_front(seq!['-'], month + x_month, month + y_month);
        lemma_same_front(
            zero_padded(a.year as nat, 4),
            seq!['-'] + (month + x_month),
            seq!['-'] + (month + y_month),
        );
    }
}

} // verus!

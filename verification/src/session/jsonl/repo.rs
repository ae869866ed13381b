//! Session files in directories: their names, which of them are looked at, and
//! which may be created.

use vstd::prelude::*;

use crate::harness_types::{FileInfo, FileKind};
use crate::json::{parsed_json, Json};
use crate::session::jsonl::codec::{
    decoded_header, metadata_from_header, optional_json, parse_header, HeaderView,
    JsonlSessionMetadata, JsonlV4Header,
};
use crate::session::types::{SessionError, SessionErrorCode, SessionErrorView};
use crate::text::{
    chars_of, concat2, concat3, concat4, decimal, decimal_text, finishes_with, has_suffix, is_digit,
    matches_at, same_text, string_of, text_of_option, texts,
};
use crate::types::{copy_text, JsF64};

verus! {

/// Where session files are kept.
pub struct JsonlSessionRepoOptions {
    /// The directory that holds a directory for each working directory.
    pub sessions_root: String,
}

/// What a session file is created with.
pub struct JsonlSessionCreateOptions {
    pub id: Option<String>,
    pub parent_session_id: Option<String>,
    pub cwd: String,
    pub metadata: Option<Json>,
}

/// Which session files are listed.
pub struct JsonlSessionListOptions {
    pub cwd: Option<String>,
}

// ---------------------------------------------------------------------------
// Ids and directories
// ---------------------------------------------------------------------------

/// Whether a character is an ASCII letter or digit.
pub open spec fn is_alphanumeric(c: char) -> bool {
    'a' <= c <= 'z' || 'A' <= c <= 'Z' || is_digit(c)
}

/// Whether a character may stand in the id of a session.
pub open spec fn is_id_char(c: char) -> bool {
    is_alphanumeric(c) || c == '-' || c == '_' || c == '.'
}

/// Whether a text can be the id of a session.
pub open spec fn is_session_id(id: Seq<char>) -> bool {
    &&& id.len() > 0
    &&& is_alphanumeric(id[0])
    &&& is_alphanumeric(id.last())
    &&& forall|i: int| 0 <= i < id.len() ==> is_id_char(#[trigger] id[i])
}

/// The refusal of an id.
pub open spec fn bad_session_id() -> SessionErrorView {
    SessionErrorView {
        code: SessionErrorCode::InvalidPayload,
        message:
            "Session id must be non-empty, contain only alphanumeric characters, '-', '_', and '.', and start and end with an alphanumeric character"@,
    }
}

fn is_plain_char(c: char) -> (r: bool)
    ensures
        r == is_alphanumeric(c),
{
    ('a' <= c && c <= 'z') || ('A' <= c && c <= 'Z') || ('0' <= c && c <= '9')
}

/// Accepts a text that can be the id of a session.
pub fn validate_session_id(id: &str) -> (r: Result<(), SessionError>)
    ensures
        match r {
            Ok(_) => is_session_id(id@),
            Err(e) => !is_session_id(id@) && e@ == bad_session_id(),
        },
{
    let chars: Vec<char> = chars_of(id);
    let n: usize = chars.len();
    let mut valid: bool = n > 0 && is_plain_char(chars[0]) && is_plain_char(chars[n - 1]);
    let mut i: usize = 0;
    while i < n && valid
        invariant
            i <= n == chars@.len(),
            chars@ == id@,
            valid ==> n > 0 && is_alphanumeric(id@[0]) && is_alphanumeric(id@.last())
                && forall|k: int| 0 <= k < i ==> is_id_char(#[trigger] id@[k]),
            !valid ==> !is_session_id(id@),
        decreases n - i + if valid {
            1int
        } else {
            0int
        },
    {
        let c: char = chars[i];
        if is_plain_char(c) || c == '-' || c == '_' || c == '.' {
            i = i + 1;
        } else {
            proof {
                assert(!is_id_char(id@[i as int]));
            }
            valid = false;
        }
    }
    if valid {
        Ok(())
    } else {
        Err(
            SessionError::new(
                SessionErrorCode::InvalidPayload,
                "Session id must be non-empty, contain only alphanumeric characters, '-', '_', and '.', and start and end with an alphanumeric character".to_string(),
            ),
        )
    }
}

/// A text with some characters replaced by hyphens.
pub open spec fn hyphenated(text: Seq<char>, drop: Seq<char>) -> Seq<char> {
    Seq::new(
        text.len(),
        |i: int|
            if drop.contains(text[i]) {
                '-'
            } else {
                text[i]
            },
    )
}

fn hyphenate(text: &str, drop: &str) -> (r: String)
    ensures
        r@ == hyphenated(text@, drop@),
{
    let chars: Vec<char> = chars_of(text);
    let set: Vec<char> = chars_of(drop);
    let mut out: Vec<char> = Vec::new();
    let mut i: usize = 0;
    while i < chars.len()
        invariant
            i <= chars@.len(),
            chars@ == text@,
            set@ == drop@,
            out@ == hyphenated(text@, drop@).take(i as int),
        decreases chars@.len() - i,
    {
        let c: char = chars[i];
        let kept: char = if crate::text::char_in(c, set.as_slice()) {
            '-'
        } else {
            c
        };
        out.push(kept);
        proof {
            assert(out@ =~= hyphenated(text@, drop@).take(i + 1));
        }
        i = i + 1;
    }
    proof {
        assert(hyphenated(text@, drop@).take(text@.len() as int) =~= hyphenated(text@, drop@));
    }
    string_of(out.as_slice())
}

/// A path without one separator at its start.
pub open spec fn without_leading(cwd: Seq<char>) -> Seq<char> {
    if cwd.len() > 0 && (cwd[0] == '/' || cwd[0] == '\\') {
        cwd.skip(1)
    } else {
        cwd
    }
}

/// The name of the directory for the sessions of a working directory.
pub open spec fn directory_name(cwd: Seq<char>) -> Seq<char> {
    "--"@ + hyphenated(without_leading(cwd), "/\\:"@) + "--"@
}

/// The name of the directory for the sessions of a working directory.
pub fn jsonl_session_directory_name(cwd: &str) -> (r: String)
    ensures
        r@ == directory_name(cwd@),
{
    let n: usize = cwd.unicode_len();
    let stripped: String = if n > 0 && (cwd.get_char(0) == '/' || cwd.get_char(0) == '\\') {
        proof {
            assert(cwd@.subrange(1, n as int) =~= cwd@.skip(1));
        }
        crate::text::substring(cwd, 1, n)
    } else {
        cwd.to_string()
    };
    let plain: String = hyphenate(stripped.as_str(), "/\\:");
    concat3("--", plain.as_str(), "--")
}

// ---------------------------------------------------------------------------
// Dates
// ---------------------------------------------------------------------------

/// Whether a year has a day more.
pub open spec fn is_leap(year: int) -> bool {
    year % 4 == 0 && (year % 100 != 0 || year % 400 == 0)
}

/// How many days a month has.
pub open spec fn days_in_month(year: int, month: int) -> int {
    if month == 2 {
        if is_leap(year) {
            29
        } else {
            28
        }
    } else if month == 4 || month == 6 || month == 9 || month == 11 {
        30
    } else {
        31
    }
}

/// How many days of a year stand before a month.
pub open spec fn days_before_month(year: int, month: int) -> int
    decreases month,
{
    if month <= 1 {
        0
    } else {
        days_before_month(year, month - 1) + days_in_month(year, month - 1)
    }
}

/// How many days stand between the start of the Unix time and that of a year.
pub open spec fn days_before_year(year: int) -> int {
    let y = year - 1;
    365 * (year - 1970) + (y / 4 - y / 100 + y / 400) - (1969int / 4 - 1969int / 100 + 1969int
        / 400)
}

/// The day of the Unix time that a date is.
pub open spec fn day_number(year: int, month: int, day: int) -> int {
    days_before_year(year) + days_before_month(year, month) + day - 1
}

/// Whether a date is one of the calendar.
pub open spec fn is_date(year: int, month: int, day: int) -> bool {
    1 <= month <= 12 && 1 <= day <= days_in_month(year, month)
}

pub proof fn lemma_months(year: int)
    ensures
        days_before_month(year, 1) == 0,
        days_before_month(year, 2) == 31,
        ({
            let leap = if is_leap(year) {
                1int
            } else {
                0int
            };
            &&& days_before_month(year, 3) == 59 + leap
            &&& days_before_month(year, 4) == 90 + leap
            &&& days_before_month(year, 5) == 120 + leap
            &&& days_before_month(year, 6) == 151 + leap
            &&& days_before_month(year, 7) == 181 + leap
            &&& days_before_month(year, 8) == 212 + leap
            &&& days_before_month(year, 9) == 243 + leap
            &&& days_before_month(year, 10) == 273 + leap
            &&& days_before_month(year, 11) == 304 + leap
            &&& days_before_month(year, 12) == 334 + leap
        }),
{
    assert(days_before_month(year, 1) == 0);
    assert(days_before_month(year, 2) == 31);
    assert(days_before_month(year, 3) == 31 + days_in_month(year, 2));
    assert(days_before_month(year, 4) == days_before_month(year, 3) + 31);
    assert(days_before_month(year, 5) == days_before_month(year, 4) + 30);
    assert(days_before_month(year, 6) == days_before_month(year, 5) + 31);
    assert(days_before_month(year, 7) == days_before_month(year, 6) + 30);
    assert(days_before_month(year, 8) == days_before_month(year, 7) + 31);
    assert(days_before_month(year, 9) == days_before_month(year, 8) + 31);
    assert(days_before_month(year, 10) == days_before_month(year, 9) + 30);
    assert(days_before_month(year, 11) == days_before_month(year, 10) + 31);
    assert(days_before_month(year, 12) == days_before_month(year, 11) + 30);
}

/// The months from March on and the days of a year from March on that stand
/// before them.
fn month_from_march(doy: i64) -> (r: (i64, i64))
    requires
        0 <= doy <= 365,
    ensures
        match r.0 {
            3 => r.1 == 0,
            4 => r.1 == 31,
            5 => r.1 == 61,
            6 => r.1 == 92,
            7 => r.1 == 122,
            8 => r.1 == 153,
            9 => r.1 == 184,
            10 => r.1 == 214,
            11 => r.1 == 245,
            12 => r.1 == 275,
            1 => r.1 == 306,
            2 => r.1 == 337,
            _ => false,
        },
        r.1 <= doy,
        doy - r.1 < (match r.0 {
            2 => 29int,
            4 => 30,
            6 => 30,
            9 => 30,
            11 => 30,
            _ => 31,
        }),
{
    let mp: i64 = (5 * doy + 2) / 153;
    let month: i64 = if mp < 10 {
        mp + 3
    } else {
        mp - 9
    };
    (month, (153 * mp + 2) / 5)
}

/// The day before which a year ends, for a year given by its place in a cycle
/// of four hundred years.
proof fn lemma_year_end(era: int, century: int, cycle: int, rest: int)
    requires
        0 <= century <= 3,
        0 <= cycle <= 24,
        0 <= rest <= 3,
    ensures
        days_before_year(400 * era + 100 * century + 4 * cycle + rest + 1) == 146_097 * era + 36_524
            * century + 1_461 * cycle + 365 * rest - 719_468 + 306,
{
    let y = 400 * era + 100 * century + 4 * cycle + rest;
    assert(y / 4 == 100 * era + 25 * century + cycle);
    assert(y / 100 == 4 * era + century);
    assert(y / 400 == era);
}

/// A year is as long as its days say.
pub proof fn lemma_year_length(year: int)
    ensures
        days_before_year(year + 1) == days_before_year(year) + 365 + if is_leap(year) {
            1int
        } else {
            0int
        },
{
    let y = year - 1;
    assert(year / 4 == y / 4 + if year % 4 == 0 {
        1int
    } else {
        0int
    });
    assert(year / 100 == y / 100 + if year % 100 == 0 {
        1int
    } else {
        0int
    });
    assert(year / 400 == y / 400 + if year % 400 == 0 {
        1int
    } else {
        0int
    });
}

/// A year that ends a cycle of four years has a day more, unless it ends a
/// century and not a cycle of four hundred years.
proof fn lemma_cycle_end(era: int, century: int, cycle: int)
    requires
        0 <= century <= 3,
        0 <= cycle <= 24,
        cycle == 24 ==> century == 3,
    ensures
        is_leap(400 * era + 100 * century + 4 * cycle + 4),
{
    let y = 400 * era + 100 * century + 4 * cycle + 4;
    assert(y % 4 == 0);
    if cycle == 24 {
        assert(y == 400 * (era + 1));
        assert(y % 400 == 0);
    } else {
        assert(y % 100 == 4 * cycle + 4);
    }
}

/// The place of a day in a cycle of four hundred years that begins with March:
/// the century, the cycle of four years, the year, and the day of the year.
fn place_in_era(doe: i64) -> (r: (i64, i64, i64, i64))
    requires
        0 <= doe <= 146_096,
    ensures
        0 <= r.0 <= 3,
        0 <= r.1 <= 24,
        0 <= r.2 <= 3,
        0 <= r.3 <= 365,
        doe == 36_524 * r.0 + 1_461 * r.1 + 365 * r.2 + r.3,
        r.3 == 365 ==> r.2 == 3 && (r.1 == 24 ==> r.0 == 3),
{
    let century: i64 = if doe == 146_096 {
        3
    } else {
        doe / 36_524
    };
    let in_century: i64 = doe - century * 36_524;
    let cycle: i64 = if in_century == 36_524 {
        24
    } else {
        in_century / 1_461
    };
    let in_cycle: i64 = in_century - cycle * 1_461;
    let rest: i64 = if in_cycle >= 1_460 {
        3
    } else {
        in_cycle / 365
    };
    (century, cycle, rest, in_cycle - rest * 365)
}

/// The date of a day of the Unix time.
pub fn civil_from_days(days: i64) -> (r: (i64, u32, u32))
    requires
        -0x4000_0000_0000_0000 <= days <= 0x4000_0000_0000_0000,
    ensures
        is_date(r.0 as int, r.1 as int, r.2 as int),
        day_number(r.0 as int, r.1 as int, r.2 as int) == days,
{
    let z: i64 = days + 719_468;
    let era: i64 = if z >= 0 {
        z / 146_097
    } else {
        -((-z + 146_096) / 146_097)
    };
    let doe: i64 = z - era * 146_097;
    let (century, cycle, rest, doy) = place_in_era(doe);
    let march_year: i64 = era * 400 + century * 100 + cycle * 4 + rest;
    let (month, before) = month_from_march(doy);
    let day: i64 = doy - before + 1;
    let year: i64 = if month <= 2 {
        march_year + 1
    } else {
        march_year
    };
    proof {
        lemma_months(year as int);
        lemma_year_end(era as int, century as int, cycle as int, rest as int);
        lemma_year_length(march_year as int);
        if doy == 365 {
            lemma_cycle_end(era as int, century as int, cycle as int);
        }
    }
    (year, month as u32, day as u32)
}

pub proof fn lemma_years_grow(a: int, b: int)
    requires
        a <= b,
    ensures
        days_before_year(a) <= days_before_year(b),
    decreases b - a,
{
    if a < b {
        lemma_years_grow(a, b - 1);
        lemma_year_length(b - 1);
    }
}

pub proof fn lemma_date_in_year(year: int, month: int, day: int)
    requires
        is_date(year, month, day),
    ensures
        days_before_year(year) <= day_number(year, month, day) < days_before_year(year + 1),
{
    lemma_months(year);
    lemma_year_length(year);
}

pub proof fn lemma_months_grow(year: int, a: int, b: int)
    requires
        1 <= a < b <= 12,
    ensures
        days_before_month(year, a) + days_in_month(year, a) <= days_before_month(year, b),
    decreases b - a,
{
    if a + 1 < b {
        lemma_months_grow(year, a, b - 1);
    }
}

/// A day has one date.
pub proof fn law_days_have_one_date(
    year: int,
    month: int,
    day: int,
    other_year: int,
    other_month: int,
    other_day: int,
)
    requires
        is_date(year, month, day),
        is_date(other_year, other_month, other_day),
        day_number(year, month, day) == day_number(other_year, other_month, other_day),
    ensures
        year == other_year,
        month == other_month,
        day == other_day,
{
    lemma_date_in_year(year, month, day);
    lemma_date_in_year(other_year, other_month, other_day);
    if year < other_year {
        lemma_years_grow(year + 1, other_year);
    } else if other_year < year {
        lemma_years_grow(other_year + 1, year);
    }
    if month < other_month {
        lemma_months_grow(year, month, other_month);
    } else if other_month < month {
        lemma_months_grow(year, other_month, month);
    }
}

/// A date.
pub struct DateView {
    pub year: int,
    pub month: int,
    pub day: int,
}

/// The date of a day of the Unix time.
pub open spec fn date_of(days: int) -> DateView {
    choose|d: DateView| is_date(d.year, d.month, d.day) && #[trigger] day_number(
        d.year,
        d.month,
        d.day,
    ) == days
}

/// Zeros.
pub open spec fn zeros(n: int) -> Seq<char> {
    Seq::new(
        if n > 0 {
            n as nat
        } else {
            0
        },
        |i: int| '0',
    )
}

/// A number with zeros in front of it up to a width.
pub open spec fn zero_padded(n: nat, width: int) -> Seq<char> {
    zeros(width - decimal(n).len()) + decimal(n)
}

/// A year in four places. One that has no four places is written in six, with
/// its sign.
pub open spec fn year_text(year: int) -> Seq<char> {
    if 0 <= year <= 9999 {
        zero_padded(year as nat, 4)
    } else if year > 9999 {
        "+"@ + zero_padded(year as nat, 6)
    } else {
        "-"@ + zero_padded((-year) as nat, 6)
    }
}

/// A time in milliseconds of the Unix time, as ISO 8601 writes it.
pub open spec fn iso_text(ms: int) -> Seq<char> {
    let date = date_of(ms / 86_400_000);
    let time = ms % 86_400_000;
    year_text(date.year) + "-"@ + zero_padded(date.month as nat, 2) + "-"@ + zero_padded(
        date.day as nat,
        2,
    ) + "T"@ + zero_padded((time / 3_600_000) as nat, 2) + ":"@ + zero_padded(
        (time / 60_000 % 60) as nat,
        2,
    ) + ":"@ + zero_padded((time / 1000 % 60) as nat, 2) + "."@ + zero_padded(
        (time % 1000) as nat,
        3,
    ) + "Z"@
}

fn pad(n: u64, width: usize) -> (r: String)
    requires
        width <= 6,
    ensures
        r@ == zero_padded(n as nat, width as int),
{
    let digits: String = decimal_text(n);
    let size: usize = digits.as_str().unicode_len();
    let mut out: Vec<char> = Vec::new();
    let mut i: usize = size;
    while i < width
        invariant
            size <= i,
            width <= 6,
            out@ == zeros(i - size),
            i <= width || i == size,
        decreases width - i,
    {
        out.push('0');
        i = i + 1;
        proof {
            assert(out@ =~= zeros(i - size));
        }
    }
    proof {
        assert(out@ =~= zeros(width - size));
    }
    let front: String = string_of(out.as_slice());
    concat2(front.as_str(), digits.as_str())
}

fn write_year(year: i64) -> (r: String)
    requires
        year > i64::MIN,
    ensures
        r@ == year_text(year as int),
{
    if 0 <= year && year <= 9999 {
        pad(year as u64, 4)
    } else if year > 9999 {
        let digits: String = pad(year as u64, 6);
        concat2("+", digits.as_str())
    } else {
        let digits: String = pad((-year) as u64, 6);
        concat2("-", digits.as_str())
    }
}

fn iso_timestamp(timestamp_ms: i64) -> (r: String)
    ensures
        r@ == iso_text(timestamp_ms as int),
{
    let wide: i128 = timestamp_ms as i128;
    let shifted: i128 = wide + 106_751_991_168 * 86_400_000;
    let days: i64 = (shifted / 86_400_000 - 106_751_991_168) as i64;
    let time: u64 = (shifted % 86_400_000) as u64;
    let (year, month, day) = civil_from_days(days);
    proof {
        assert(timestamp_ms as int / 86_400_000 == days);
        assert(timestamp_ms as int % 86_400_000 == time);
        let found = date_of(days as int);
        let here = DateView { year: year as int, month: month as int, day: day as int };
        assert(is_date(here.year, here.month, here.day) && day_number(
            here.year,
            here.month,
            here.day,
        ) == days);
        law_days_have_one_date(
            here.year,
            here.month,
            here.day,
            found.year,
            found.month,
            found.day,
        );
        if year == i64::MIN {
            lemma_years_grow(year as int, -9_000_000_000_000_000_000);
            lemma_date_in_year(year as int, month as int, day as int);
            lemma_years_grow(year as int + 1, -9_000_000_000_000_000_000);
            assert(false);
        }
    }
    let first: String = write_year(year);
    let second: String = pad(month as u64, 2);
    let third: String = pad(day as u64, 2);
    let date: String = crate::text::concat5(
        first.as_str(),
        "-",
        second.as_str(),
        "-",
        third.as_str(),
    );
    let hour: String = pad(time / 3_600_000, 2);
    let minute: String = pad(time / 60_000 % 60, 2);
    let second: String = pad(time / 1000 % 60, 2);
    let millis: String = pad(time % 1000, 3);
    let head: String = crate::text::concat5(
        date.as_str(),
        "T",
        hour.as_str(),
        ":",
        minute.as_str(),
    );
    let tail: String = crate::text::concat5(
        head.as_str(),
        ":",
        second.as_str(),
        ".",
        millis.as_str(),
    );
    concat2(tail.as_str(), "Z")
}

/// The name of a session file.
pub open spec fn file_name(created_at: int, id: Seq<char>) -> Seq<char> {
    hyphenated(iso_text(created_at), ":."@) + "_"@ + id + ".jsonl"@
}

/// The name of a session file: when it was created, and the id of the session.
pub fn session_file_name(created_at: i64, id: &str) -> (r: String)
    ensures
        r@ == file_name(created_at as int, id@),
{
    let iso: String = iso_timestamp(created_at);
    let plain: String = hyphenate(iso.as_str(), ":.");
    concat4(plain.as_str(), "_", id, ".jsonl")
}

// ---------------------------------------------------------------------------
// Listing
// ---------------------------------------------------------------------------

/// The directories among the entries of the sessions root, by their paths.
pub open spec fn directory_paths(entries: Seq<FileInfo>) -> Seq<Seq<char>>
    decreases entries.len(),
{
    if entries.len() == 0 {
        Seq::empty()
    } else {
        let before = directory_paths(entries.drop_last());
        let last = entries.last();
        if last.kind == FileKind::Directory || last.kind == FileKind::Symlink {
            before.push(last.path@)
        } else {
            before
        }
    }
}

/// The directories among the entries of the sessions root, by their paths.
pub fn session_directories(entries: &Vec<FileInfo>) -> (r: Vec<String>)
    ensures
        texts(r@) == directory_paths(entries@),
{
    let mut out: Vec<String> = Vec::new();
    let mut i: usize = 0;
    proof {
        assert(entries@.take(0) =~= Seq::<FileInfo>::empty());
        assert(texts(out@) =~= Seq::<Seq<char>>::empty());
    }
    while i < entries.len()
        invariant
            i <= entries@.len(),
            texts(out@) == directory_paths(entries@.take(i as int)),
        decreases entries@.len() - i,
    {
        let ghost before = out@;
        proof {
            assert(entries@.take(i + 1).drop_last() =~= entries@.take(i as int));
            assert(entries@.take(i + 1).last() == entries@[i as int]);
        }
        if entries[i].kind == FileKind::Directory || entries[i].kind == FileKind::Symlink {
            let path: String = entries[i].path.clone();
            out.push(path);
            proof {
                assert(texts(out@) =~= texts(before).push(path@));
            }
        }
        i = i + 1;
    }
    proof {
        assert(entries@.take(entries@.len() as int) =~= entries@);
    }
    out
}

/// Whether an entry of a directory is a session file.
pub open spec fn is_session_file(entry: FileInfo) -> bool {
    entry.kind != FileKind::Directory && finishes_with(entry.name@, ".jsonl"@)
}

/// Whether an entry of a directory is a session file.
pub fn is_session_entry(entry: &FileInfo) -> (r: bool)
    ensures
        r == is_session_file(*entry),
{
    entry.kind != FileKind::Directory && has_suffix(entry.name.as_str(), ".jsonl")
}

/// What is known of a session file from its first line, if that is a header.
pub fn listed_metadata(first_line: &Option<String>, path: String, modified_at: JsF64) -> (r: Option<
    JsonlSessionMetadata,
>)
    ensures
        match r {
            Some(metadata) => first_line matches Some(line) && decoded_header(
                parsed_json(line@),
            ) matches Ok(header) && metadata.id@ == header.id && metadata.created_at
                == header.created_at && metadata.cwd@ == header.cwd && metadata.path@ == path@
                && metadata.modified_at == modified_at && metadata.source_format == 4
                && text_of_option(metadata.parent_session_id) == header.parent_session_id
                && text_of_option(metadata.legacy_parent_session_path)
                == header.legacy_parent_session_path && optional_json(metadata.metadata)
                == header.metadata,
            None => first_line is None || decoded_header(parsed_json(first_line->0@)) is Err,
        },
{
    match first_line {
        None => None,
        Some(line) => match parse_header(line.as_str()) {
            Ok(header) => Some(metadata_from_header(&header, path, modified_at)),
            Err(_) => None,
        },
    }
}

/// Whether one of the entries of a directory is the file of a session.
pub open spec fn holds_session(entries: Seq<FileInfo>, id: Seq<char>) -> bool {
    exists|i: int|
        0 <= i < entries.len() && (#[trigger] entries[i]).kind != FileKind::Directory
            && finishes_with(entries[i].name@, "_"@ + id + ".jsonl"@)
}

/// Whether one of the entries of a directory is the file of a session.
pub fn session_id_exists(entries: &Vec<FileInfo>, id: &str) -> (r: bool)
    ensures
        r == holds_session(entries@, id@),
{
    let suffix: String = concat3("_", id, ".jsonl");
    let mut i: usize = 0;
    while i < entries.len()
        invariant
            i <= entries@.len(),
            suffix@ == "_"@ + id@ + ".jsonl"@,
            forall|k: int|
                0 <= k < i ==> !((#[trigger] entries@[k]).kind != FileKind::Directory
                    && finishes_with(entries@[k].name@, suffix@)),
        decreases entries@.len() - i,
    {
        if entries[i].kind != FileKind::Directory && has_suffix(
            entries[i].name.as_str(),
            suffix.as_str(),
        ) {
            return true;
        }
        i = i + 1;
    }
    false
}

/// A session that was created is found in its directory.
pub proof fn law_created_sessions_exist(
    entries: Seq<FileInfo>,
    i: int,
    created_at: int,
    id: Seq<char>,
)
    requires
        0 <= i < entries.len(),
        entries[i].kind != FileKind::Directory,
        entries[i].name@ == file_name(created_at, id),
    ensures
        holds_session(entries, id),
{
    let name = file_name(created_at, id);
    let suffix = "_"@ + id + ".jsonl"@;
    let front = hyphenated(iso_text(created_at), ":."@);
    assert(name =~= front + suffix);
    assert(matches_at(name, name.len() - suffix.len(), suffix)) by {
        assert(name.subrange(name.len() - suffix.len(), name.len() as int) =~= suffix);
    }
    assert(finishes_with(entries[i].name@, suffix));
}

// ---------------------------------------------------------------------------
// Creating
// ---------------------------------------------------------------------------

/// The refusal of a session that exists.
pub open spec fn existing_session(id: Seq<char>) -> SessionErrorView {
    SessionErrorView {
        code: SessionErrorCode::AlreadyExists,
        message: "Session already exists: "@ + id,
    }
}

/// The refusal of a session that exists.
pub fn session_exists_error(id: &str) -> (r: SessionError)
    ensures
        r@ == existing_session(id@),
{
    SessionError::new(
        SessionErrorCode::AlreadyExists,
        concat2("Session already exists: ", id),
    )
}

/// The sessions that are being created, by working directory and id.
pub struct ActiveCreations {
    keys: Vec<String>,
}

/// The name of a session that is being created.
pub open spec fn creation_key(cwd: Seq<char>, id: Seq<char>) -> Seq<char> {
    cwd + "\0"@ + id
}

/// A claim is of one session: no two sessions have the same name while they are
/// being created.
pub proof fn law_claims_are_of_one_session(
    cwd: Seq<char>,
    id: Seq<char>,
    other_cwd: Seq<char>,
    other_id: Seq<char>,
)
    requires
        is_session_id(id),
        is_session_id(other_id),
        creation_key(cwd, id) == creation_key(other_cwd, other_id),
    ensures
        cwd == other_cwd,
        id == other_id,
{
    reveal_strlit("\0");
    let key = creation_key(cwd, id);
    let n = cwd.len() as int;
    let m = other_cwd.len() as int;
    assert("\0"@.len() == 1);
    assert(key.len() == n + 1 + id.len());
    assert(key.len() == m + 1 + other_id.len());
    assert(key[n] == '\0');
    assert(creation_key(other_cwd, other_id)[m] == '\0');
    if n < m {
        assert(key[m] == id[m - n - 1]);
        assert(is_id_char(id[m - n - 1]));
    } else if m < n {
        assert(creation_key(other_cwd, other_id)[n] == other_id[n - m - 1]);
        assert(is_id_char(other_id[n - m - 1]));
    }
    assert(cwd =~= key.take(n));
    assert(other_cwd =~= key.take(n));
    assert(id =~= key.skip(n + 1));
    assert(other_id =~= key.skip(n + 1));
}

impl ActiveCreations {
    /// The sessions that are being created.
    pub closed spec fn view(&self) -> Set<Seq<char>> {
        texts(self.keys@).to_set()
    }

    /// None.
    pub fn new() -> (r: Self)
        ensures
            r@ == Set::<Seq<char>>::empty(),
    {
        let r = ActiveCreations { keys: Vec::new() };
        proof {
            assert(r@ =~= Set::<Seq<char>>::empty());
        }
        r
    }

    /// Claims a session, unless it is being created.
    pub fn claim(&mut self, cwd: &str, id: &str) -> (r: Result<(), SessionError>)
        ensures
            match r {
                Ok(_) => !old(self)@.contains(creation_key(cwd@, id@)) && final(self)@ == old(
                    self,
                )@.insert(creation_key(cwd@, id@)),
                Err(e) => old(self)@.contains(creation_key(cwd@, id@)) && e@ == existing_session(
                    id@,
                ) && final(self)@ == old(self)@,
            },
    {
        let key: String = concat3(cwd, "\0", id);
        let mut i: usize = 0;
        while i < self.keys.len()
            invariant
                i <= self.keys@.len(),
                self == old(self),
                key@ == creation_key(cwd@, id@),
                forall|k: int| 0 <= k < i ==> (#[trigger] self.keys@[k])@ != key@,
            decreases self.keys@.len() - i,
        {
            if same_text(self.keys[i].as_str(), key.as_str()) {
                proof {
                    assert(texts(self.keys@)[i as int] == key@);
                }
                return Err(session_exists_error(id));
            }
            i = i + 1;
        }
        let ghost before = self.keys@;
        proof {
            assert(!texts(before).contains(key@)) by {
                if texts(before).contains(key@) {
                    let k = choose|k: int|
                        0 <= k < texts(before).len() && texts(before)[k] == key@;
                    assert(before[k]@ == key@);
                }
            }
        }
        self.keys.push(key);
        proof {
            assert(texts(self.keys@) =~= texts(before).push(key@));
            let now = texts(self.keys@);
            assert forall|t: Seq<char>| now.to_set().contains(t) == texts(before).to_set().insert(
                key@,
            ).contains(t) by {
                if now.contains(t) {
                    let k = choose|k: int| 0 <= k < now.len() && now[k] == t;
                    if k < before.len() {
                        assert(texts(before)[k] == t);
                    }
                }
                if texts(before).contains(t) {
                    let k = choose|k: int| 0 <= k < texts(before).len() && texts(before)[k] == t;
                    assert(now[k] == t);
                }
                if t == key@ {
                    assert(now[before.len() as int] == t);
                }
            }
            assert(self@ =~= old(self)@.insert(key@));
        }
        Ok(())
    }

    /// Releases a session.
    pub fn release(&mut self, cwd: &str, id: &str)
        ensures
            final(self)@ == old(self)@.remove(creation_key(cwd@, id@)),
    {
        let key: String = concat3(cwd, "\0", id);
        let mut kept: Vec<String> = Vec::new();
        let mut i: usize = 0;
        while i < self.keys.len()
            invariant
                i <= self.keys@.len(),
                self == old(self),
                key@ == creation_key(cwd@, id@),
                forall|k: int|
                    0 <= k < kept@.len() ==> (#[trigger] kept@[k])@ != key@ && texts(
                        self.keys@,
                    ).contains(kept@[k]@),
                forall|k: int|
                    0 <= k < i && (#[trigger] self.keys@[k])@ != key@ ==> texts(kept@).contains(
                        self.keys@[k]@,
                    ),
            decreases self.keys@.len() - i,
        {
            let ghost before = kept@;
            if !same_text(self.keys[i].as_str(), key.as_str()) {
                kept.push(self.keys[i].clone());
                proof {
                    assert(texts(self.keys@)[i as int] == self.keys@[i as int]@);
                    assert(texts(kept@)[before.len() as int] == self.keys@[i as int]@);
                    assert forall|k: int|
                        0 <= k < i + 1 && (#[trigger] self.keys@[k])@ != key@ implies texts(
                        kept@,
                    ).contains(self.keys@[k]@) by {
                        if k < i {
                            let m = choose|m: int|
                                0 <= m < texts(before).len() && texts(before)[m]
                                    == self.keys@[k]@;
                            assert(texts(kept@)[m] == self.keys@[k]@);
                        }
                    }
                }
            }
            i = i + 1;
        }
        proof {
            let all = texts(self.keys@);
            assert forall|t: Seq<char>| texts(kept@).to_set().contains(t) == all.to_set().remove(
                key@,
            ).contains(t) by {
                if texts(kept@).contains(t) {
                    let k = choose|k: int| 0 <= k < texts(kept@).len() && texts(kept@)[k] == t;
                    assert(kept@[k]@ == t);
                }
                if all.contains(t) && t != key@ {
                    let k = choose|k: int| 0 <= k < all.len() && all[k] == t;
                    assert(self.keys@[k]@ == t);
                }
            }
            assert(texts(kept@).to_set() =~= old(self)@.remove(key@));
        }
        self.keys = kept;
    }
}

/// The header of a new session.
pub fn new_header(id: &str, cwd: &str, created_at: i64, options: &JsonlSessionCreateOptions) -> (r:
    JsonlV4Header)
    ensures
        r@ == (HeaderView {
            version: 4,
            id: id@,
            created_at,
            cwd: cwd@,
            parent_session_id: text_of_option(options.parent_session_id),
            legacy_parent_session_path: None,
            metadata: optional_json(options.metadata),
        }),
{
    JsonlV4Header {
        version: 4,
        id: id.to_string(),
        created_at,
        cwd: cwd.to_string(),
        parent_session_id: copy_text(&options.parent_session_id),
        legacy_parent_session_path: None,
        metadata: match &options.metadata {
            Some(json) => Some(json.clone()),
            None => None,
        },
    }
}

/// What a fork is created with: its parent is the session that it is forked
/// from, unless another is given.
pub fn fork_options(options: JsonlSessionCreateOptions, source_id: &str) -> (r:
    JsonlSessionCreateOptions)
    ensures
        r.id == options.id,
        r.cwd == options.cwd,
        r.metadata == options.metadata,
        text_of_option(r.parent_session_id) == (match options.parent_session_id {
            Some(id) => Some(id@),
            None => Some(source_id@),
        }),
{
    let parent_session_id: Option<String> = match options.parent_session_id {
        Some(id) => Some(id),
        None => Some(source_id.to_string()),
    };
    JsonlSessionCreateOptions {
        id: options.id,
        parent_session_id,
        cwd: options.cwd,
        metadata: options.metadata,
    }
}

/// Accepts a file whose header has the id that was asked for.
pub fn check_loaded_id(asked: &str, loaded: &str) -> (r: Result<(), SessionError>)
    ensures
        match r {
            Ok(_) => loaded@ == asked@,
            Err(e) => loaded@ != asked@ && e@ == (SessionErrorView {
                code: SessionErrorCode::InvalidEntry,
                message: "Session id does not match header: "@ + asked@,
            }),
        },
{
    if same_text(loaded, asked) {
        Ok(())
    } else {
        Err(
            SessionError::new(
                SessionErrorCode::InvalidEntry,
                concat2("Session id does not match header: ", asked),
            ),
        )
    }
}

/// The refusal of a session whose file is missing.
pub fn missing_session_error(id: &str) -> (r: SessionError)
    ensures
        r@ == (SessionErrorView {
            code: SessionErrorCode::NotFound,
            message: "Session not found: "@ + id@,
        }),
{
    SessionError::new(SessionErrorCode::NotFound, concat2("Session not found: ", id))
}

} // verus!

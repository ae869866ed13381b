//! What holds of session files: when they are refused, how they are published,
//! and how they are named and listed.

use vstd::prelude::*;

use crate::harness_types::{FileInfo, FileKind};
use crate::session::jsonl::errors::{bad_file, DecodeErrorView};
use crate::session::jsonl::repo::{
    date_of, day_number, days_before_year, days_in_month, directory_name, directory_paths,
    holds_session, hyphenated, is_date, is_leap, is_session_file, iso_text,
    law_days_have_one_date, year_text, zero_padded, DateView,
};
use crate::session::jsonl::storage::{
    is_torn, line_refusal, loaded_from, Publication, PublishReply, PublishRequest,
};
use crate::session::state::{MutationView, SessionView};
use crate::session::types::{SessionError, SessionErrorView};

verus! {

// ---------------------------------------------------------------------------
// Loading
// ---------------------------------------------------------------------------

/// A line that says what fits is taken, and reading goes on behind it.
pub proof fn law_lines_that_fit_are_taken(
    path: Seq<char>,
    state: SessionView,
    mutations: Seq<Result<MutationView, DecodeErrorView>>,
    i: int,
    m: MutationView,
)
    requires
        0 <= i < mutations.len(),
        mutations[i] == Ok::<MutationView, DecodeErrorView>(m),
    ensures
        state.problem(m) is None ==> loaded_from(path, state, mutations, i) == loaded_from(
            path,
            state.after(m),
            mutations,
            i + 1,
        ),
        state.problem(m) matches Some(e) ==> (loaded_from(
            path,
            state,
            mutations,
            i,
        ) matches Err(refusal) && refusal == line_refusal(path, i, e)),
{
}

/// A line that cannot be read makes the file bad, unless it is the last one and
/// was cut off. The first line behind the header is the second of the file.
pub proof fn law_bad_lines_make_a_bad_file(
    path: Seq<char>,
    state: SessionView,
    mutations: Seq<Result<MutationView, DecodeErrorView>>,
    i: int,
    error: DecodeErrorView,
)
    requires
        0 <= i < mutations.len(),
        mutations[i] == Err::<MutationView, DecodeErrorView>(error),
    ensures
        i < mutations.len() - 1 ==> (loaded_from(path, state, mutations, i) matches Err(e) && e
            == bad_file(path, (i + 2) as nat, error)),
        is_torn(mutations, i) ==> loaded_from(path, state, mutations, i) == Ok::<
            (SessionView, bool),
            SessionErrorView,
        >((state, true)),
{
}

// ---------------------------------------------------------------------------
// Publishing
// ---------------------------------------------------------------------------

/// A file takes the place of another only when it was written whole beside it.
pub proof fn law_files_take_their_place_when_whole(
    a: Publication,
    b: Publication,
    c: Publication,
    rename: PublishRequest,
    end: PublishRequest,
)
    requires
        a.stage is Populating,
        a.leads_to(PublishReply::Populated(Ok(())), b, rename),
        b.leads_to(PublishReply::Renamed(Ok(())), c, end),
    ensures
        rename matches PublishRequest::Rename { from, to } && from@ == a.destination@ + ".tmp"@
            && to@ == a.destination@,
        end matches PublishRequest::Finish { result: Ok(_) },
{
}

/// A file that could not be written is taken away, nothing takes its place, and
/// the reason is told.
pub proof fn law_files_that_fail_are_taken_away(
    a: Publication,
    b: Publication,
    c: Publication,
    error: SessionError,
    remove: PublishRequest,
    end: PublishRequest,
)
    requires
        a.stage is Populating,
        a.leads_to(PublishReply::Populated(Err(error)), b, remove),
        b.leads_to(PublishReply::Removed, c, end),
    ensures
        remove matches PublishRequest::Remove { path } && path@ == a.destination@ + ".tmp"@,
        end matches PublishRequest::Finish { result: Err(e) } && e@ == error@,
{
}

// ---------------------------------------------------------------------------
// Dates
// ---------------------------------------------------------------------------

/// The Unix time starts with the year 1970, and each day follows the day before
/// it: in its month, at the turn of a month and at the turn of a year.
pub proof fn law_days_follow_each_other(year: int, month: int, day: int)
    requires
        is_date(year, month, day),
    ensures
        day_number(1970, 1, 1) == 0,
        day < days_in_month(year, month) ==> day_number(year, month, day + 1) == day_number(
            year,
            month,
            day,
        ) + 1,
        day == days_in_month(year, month) && month < 12 ==> day_number(year, month + 1, 1)
            == day_number(year, month, day) + 1,
        day == days_in_month(year, month) && month == 12 ==> day_number(year + 1, 1, 1)
            == day_number(year, month, day) + 1,
        days_in_month(year, 2) == 29 <==> year % 4 == 0 && (year % 100 != 0 || year % 400 == 0),
{
    crate::session::jsonl::repo::lemma_months(year);
    crate::session::jsonl::repo::lemma_months(year + 1);
    crate::session::jsonl::repo::lemma_months(1970);
    if month == 12 {
        lemma_year_length(year);
    }
}

proof fn lemma_year_length(year: int)
    ensures
        days_before_year(year + 1) == days_before_year(year) + 365 + (if is_leap(year) {
            1int
        } else {
            0int
        }),
{
}

/// A time is written as its date and its hour, minute, second and thousandth, in
/// that order and in fixed places.
pub proof fn law_times_are_written_out(
    year: int,
    month: int,
    day: int,
    hour: int,
    minute: int,
    second: int,
    milli: int,
)
    requires
        is_date(year, month, day),
        0 <= hour < 24,
        0 <= minute < 60,
        0 <= second < 60,
        0 <= milli < 1000,
    ensures
        iso_text(
            day_number(year, month, day) * 86_400_000 + hour * 3_600_000 + minute * 60_000 + second
                * 1000 + milli,
        ) == year_text(year) + "-"@ + zero_padded(month as nat, 2) + "-"@ + zero_padded(
            day as nat,
            2,
        ) + "T"@ + zero_padded(hour as nat, 2) + ":"@ + zero_padded(minute as nat, 2) + ":"@
            + zero_padded(second as nat, 2) + "."@ + zero_padded(milli as nat, 3) + "Z"@,
{
    let days = day_number(year, month, day);
    let time = hour * 3_600_000 + minute * 60_000 + second * 1000 + milli;
    let ms = days * 86_400_000 + hour * 3_600_000 + minute * 60_000 + second * 1000 + milli;
    assert(0 <= time < 86_400_000);
    assert(ms == days * 86_400_000 + time);
    assert(ms / 86_400_000 == days);
    assert(ms % 86_400_000 == time);
    let d = DateView { year, month, day };
    assert(is_date(d.year, d.month, d.day) && day_number(d.year, d.month, d.day) == days);
    let found = date_of(days);
    law_days_have_one_date(found.year, found.month, found.day, year, month, day);
    assert(time / 3_600_000 == hour);
    assert(time / 60_000 % 60 == minute);
    assert(time / 1000 % 60 == second);
    assert(time % 1000 == milli);
}

// ---------------------------------------------------------------------------
// Names
// ---------------------------------------------------------------------------

/// The directory of a working directory is named like it, between dashes, with a
/// dash for what separates its parts.
pub proof fn law_directories_are_named_like_their_path(path: Seq<char>)
    requires
        path.len() == 0 || path[0] != '/' && path[0] != '\\',
    ensures
        ({
            let name = directory_name(seq!['/'] + path);
            &&& name.len() == path.len() + 4
            &&& name == directory_name(path)
            &&& name.take(2) == "--"@
            &&& name.skip(path.len() as int + 2) == "--"@
            &&& forall|i: int|
                0 <= i < path.len() ==> #[trigger] name[i + 2] == if path[i] == '/' || path[i]
                    == '\\' || path[i] == ':' {
                    '-'
                } else {
                    path[i]
                }
        }),
{
    reveal_strlit("--");
    reveal_strlit("/\\:");
    let set = "/\\:"@;
    let all = seq!['/'] + path;
    assert(all.skip(1) =~= path);
    let name = directory_name(all);
    assert(name.take(2) =~= "--"@);
    assert(name.skip(path.len() as int + 2) =~= "--"@);
    assert forall|i: int| 0 <= i < path.len() implies #[trigger] name[i + 2] == if path[i] == '/'
        || path[i] == '\\' || path[i] == ':' {
        '-'
    } else {
        path[i]
    } by {
        assert(name[i + 2] == hyphenated(path, set)[i]);
        assert(set[0] == '/' && set[1] == '\\' && set[2] == ':');
        if set.contains(path[i]) {
            let k = choose|k: int| 0 <= k < set.len() && set[k] == path[i];
            assert(k == 0 || k == 1 || k == 2);
        }
    }
}

/// Directories with sessions are the directories and links of the root, in
/// order.
pub proof fn law_directories_are_listed_in_order(entries: Seq<FileInfo>)
    ensures
        directory_paths(entries) == entries.filter_map(
            |e: FileInfo|
                if e.kind == FileKind::Directory || e.kind == FileKind::Symlink {
                    Some(e.path@)
                } else {
                    None
                },
        ),
    decreases entries.len(),
{
    let f = |e: FileInfo|
        if e.kind == FileKind::Directory || e.kind == FileKind::Symlink {
            Some(e.path@)
        } else {
            None
        };
    if entries.len() > 0 {
        law_directories_are_listed_in_order(entries.drop_last());
    }
    assert(directory_paths(entries) =~= entries.filter_map(f));
}

/// A session file is one that ends like one and is no directory. A session is
/// there when such a file ends with its id.
pub proof fn law_sessions_are_known_by_their_file(entry: FileInfo, front: Seq<char>, id: Seq<char>)
    ensures
        is_session_file(entry) <==> entry.kind != FileKind::Directory && entry.name@.len() >= 6
            && entry.name@.skip(entry.name@.len() - 6) == ".jsonl"@,
        entry.kind != FileKind::Directory && entry.name@ == front + "_"@ + id + ".jsonl"@
            ==> holds_session(seq![entry], id),
        entry.kind == FileKind::Directory ==> !holds_session(seq![entry], id),
        !holds_session(Seq::empty(), id),
{
    reveal_strlit(".jsonl");
    let name = entry.name@;
    if name.len() >= 6 {
        assert(name.skip(name.len() - 6) =~= name.subrange(name.len() - 6, name.len() as int));
    }
    if entry.kind != FileKind::Directory && name == front + "_"@ + id + ".jsonl"@ {
        let suffix = "_"@ + id + ".jsonl"@;
        assert(name =~= front + suffix);
        assert(name.subrange(name.len() - suffix.len(), name.len() as int) =~= suffix);
        assert(seq![entry][0] == entry);
        assert(crate::text::finishes_with(seq![entry][0].name@, suffix));
    }
}

} // verus!

//! What holds of a call of a tool from its start to its end: what is run, read
//! or written, and what the model is told of it.

use vstd::prelude::*;

use crate::harness_types::{ExecutionErrorCode, FileErrorCode};
use crate::json::JsonView;
use crate::text::{byte_len, decimal, lossy_text, signed_decimal, texts};
use crate::tools::bash::{
    bash_details, bash_outcome, prefixed, truncation_note, BashExecution, BashReply, BashRequest,
    BashRun,
};
use crate::tools::file_mutation_queue::queue_key;
use crate::tools::image::{base64_char, base64_text, bytes_at, image_type, is_still_png};
use crate::tools::path_utils::{
    distinct, existing_path, nfd_form, path_spellings, tool_path, with_narrow_spaces,
};
use crate::tools::read::{
    image_view, processed_view, text_outcome, truncation_value, ReadImageProcessorResult,
    ReadReply, ReadRequest, ReadRun,
};
use crate::tools::result::{tool_outcome, ToolResultView};
use crate::tools::write::{WriteReply, WriteRequest, WriteRun};
use crate::types::BlockView;
use crate::utils::shell_output::{ProgressView, ShellCaptureResult};
use crate::utils::truncate::{size_text, TruncatedBy};

verus! {

/// Whether an outcome is a text with details.
pub open spec fn tells_text(
    outcome: Result<ToolResultView, Seq<char>>,
    text: Seq<char>,
    details: JsonView,
) -> bool {
    outcome matches Ok(result) && {
        &&& result.content.len() == 1
        &&& result.content[0] matches BlockView::Text { text: said, .. } && said == text
        &&& result.details == details
        &&& result.terminate is None
    }
}

// ---------------------------------------------------------------------------
// Commands
// ---------------------------------------------------------------------------

/// A command is run as it was prepared, what it printed is told when it ended,
/// and the call ends with what its capture stands for, under the time limit that
/// it began with.
pub proof fn law_commands_are_run_as_prepared(
    a: BashRun,
    b: BashRun,
    c: BashRun,
    d: BashRun,
    e: BashRun,
    execution: BashExecution,
    capture: ShellCaptureResult,
    opening: BashRequest,
    run: BashRequest,
    closing: BashRequest,
    end: BashRequest,
)
    requires
        a.stage is Preparing,
        a.leads_to(BashReply::Prepared(execution), b, opening),
        b.leads_to(BashReply::Reported, c, run),
        c.leads_to(BashReply::Ran(Ok(capture)), d, closing),
        d.leads_to(BashReply::Reported, e, end),
    ensures
        opening matches BashRequest::Report { update } && update@.content.len() == 0,
        run == (BashRequest::Run { execution }),
        closing matches BashRequest::Report { update } && tells_text(
            Ok(update@),
            capture.output@,
            bash_details(capture.captured()),
        ),
        end matches BashRequest::Finish { result } && tool_outcome(result) == bash_outcome(
            capture,
            a.time_limit@,
        ),
        e.stage is Done,
{
}

/// What a command printed is told whatever became of it: first its output and
/// what is said of what was left out, then how it ended. It succeeds when it
/// ended with the exit code zero or without one.
pub proof fn law_outputs_are_told(capture: ShellCaptureResult, timeout: Seq<char>)
    ensures
        ({
            let captured = capture.captured();
            let output = captured.output + truncation_note(captured);
            let told = |status: Seq<char>|
                if output.len() == 0 {
                    status
                } else {
                    output + "\n\n"@ + status
                };
            let outcome = bash_outcome(capture, timeout);
            let failed = |text: Seq<char>| outcome == Err::<ToolResultView, Seq<char>>(text);
            &&& captured.output == capture.output@
            &&& capture.cancelled ==> failed(told("Command aborted"@))
            &&& !capture.cancelled ==> match capture.execution_error {
                Some(error) => error.code == ExecutionErrorCode::Timeout ==> failed(
                    told("Command timed out after "@ + timeout + " seconds"@),
                ),
                None => match capture.exit_code {
                    Some(code) => if code == 0 {
                        tells_text(
                            outcome,
                            if output.len() == 0 {
                                "(no output)"@
                            } else {
                                output
                            },
                            bash_details(captured),
                        )
                    } else {
                        failed(told("Command exited with code "@ + signed_decimal(code as int)))
                    },
                    None => tells_text(
                        outcome,
                        if output.len() == 0 {
                            "(no output)"@
                        } else {
                            output
                        },
                        bash_details(captured),
                    ),
                },
            }
        }),
{
}

/// What was left out of an output is told with the lines that are shown, the
/// last of all, and with where the whole output is. Nothing is told where
/// nothing was left out.
pub proof fn law_what_is_left_out_is_told(captured: ProgressView, path: Seq<char>)
    ensures
        ({
            let t = captured.truncation;
            let note = truncation_note(captured);
            let total = decimal(t.total_lines);
            let lines = "\n\n[Showing lines "@ + decimal(
                (t.total_lines - t.output_lines + 1) as nat,
            ) + "-"@ + total + " of "@ + total;
            &&& !t.truncated ==> note.len() == 0 && bash_details(captured) == JsonView::Null
            &&& t.truncated && captured.full_output_path == Some(path) ==> {
                let file = ". Full output: "@ + path + "]"@;
                &&& t.last_line_partial ==> note == "\n\n[Showing last "@ + size_text(
                    t.output_bytes,
                ) + " of line "@ + total + " (line is "@ + size_text(captured.last_line_bytes)
                    + ")"@ + file
                &&& !t.last_line_partial && t.truncated_by == Some(TruncatedBy::Lines) ==> note
                    == lines + file
                &&& !t.last_line_partial && t.truncated_by == Some(TruncatedBy::Bytes) ==> note
                    == lines + " ("@ + size_text(51200) + " limit)"@ + file
                &&& bash_details(captured) == JsonView::Object(
                    seq![
                        ("truncation"@, truncation_value(t)),
                        ("fullOutputPath"@, JsonView::Text(path)),
                    ],
                )
            }
        }),
{
}

/// A prefix stands in a line of its own before the command.
pub proof fn law_prefixes_stand_before_the_command(prefix: Seq<char>, command: Seq<char>)
    ensures
        prefixed(None, command) == command,
        prefixed(Some(prefix), command) == prefix + "\n"@ + command,
{
}

// ---------------------------------------------------------------------------
// Writing
// ---------------------------------------------------------------------------

/// What is written is the content of the call, to the path that its own was
/// resolved to, while that is locked. The model is told the path that it gave
/// and how many bytes were written.
pub proof fn law_contents_are_written_whole(
    a: WriteRun,
    b: WriteRun,
    c: WriteRun,
    d: WriteRun,
    e: WriteRun,
    f: WriteRun,
    resolved: String,
    locking: WriteRequest,
    entering: WriteRequest,
    writing: WriteRequest,
    reporting: WriteRequest,
    end: WriteRequest,
)
    requires
        a.stage is Resolving,
        a.leads_to(WriteReply::Path(Ok(resolved)), b, locking),
        b.leads_to(WriteReply::Locked, c, entering),
        c.leads_to(WriteReply::Aborted(false), d, writing),
        d.leads_to(WriteReply::Written(Ok(())), e, reporting),
        e.leads_to(WriteReply::Aborted(false), f, end),
    ensures
        locking matches WriteRequest::Lock { path } && path@ == resolved@,
        entering is CheckAborted,
        writing matches WriteRequest::Write { path, content } && path@ == resolved@ && content@
            == a.content@,
        reporting is CheckAborted,
        end matches WriteRequest::Finish { result } && tells_text(
            tool_outcome(result),
            "Successfully wrote "@ + decimal(byte_len(a.content@)) + " bytes to "@ + a.path@,
            JsonView::Null,
        ),
{
}

/// A file is written only when the call was not stopped before, and a call that
/// was stopped fails.
pub proof fn law_stopped_calls_write_nothing(
    run: WriteRun,
    reply: WriteReply,
    next: WriteRun,
    request: WriteRequest,
)
    requires
        run.leads_to(reply, next, request),
    ensures
        request is Write ==> run.stage is Entering && reply == WriteReply::Aborted(false),
        reply == WriteReply::Aborted(true) ==> (request matches WriteRequest::Finish { result }
            && tool_outcome(result) == Err::<ToolResultView, Seq<char>>("Operation aborted"@)),
        request matches WriteRequest::Finish { result } && result is Ok ==> run.stage is Reporting
            && reply == WriteReply::Aborted(false),
{
}

// ---------------------------------------------------------------------------
// Reading
// ---------------------------------------------------------------------------

proof fn lemma_first_existing(
    spellings: Seq<Seq<char>>,
    exists: Seq<bool>,
    resolved: Seq<char>,
    from: int,
    i: int,
)
    requires
        0 <= from <= i < spellings.len(),
        i < exists.len(),
        exists[i],
        forall|k: int| from <= k < i ==> !(#[trigger] exists[k]),
    ensures
        existing_path(spellings, exists, resolved, from) == spellings[i],
    decreases i - from,
{
    if from < i {
        assert(!exists[from]);
        lemma_first_existing(spellings, exists, resolved, from + 1, i);
    }
}

proof fn lemma_none_existing(
    spellings: Seq<Seq<char>>,
    exists: Seq<bool>,
    resolved: Seq<char>,
    from: int,
)
    requires
        0 <= from,
        forall|k: int| from <= k < exists.len() ==> !(#[trigger] exists[k]),
    ensures
        existing_path(spellings, exists, resolved, from) == resolved,
    decreases spellings.len() - from,
{
    if from < spellings.len() && from < exists.len() {
        lemma_none_existing(spellings, exists, resolved, from + 1);
    }
}

/// The file that is read is the first of the spellings of its path that is
/// there, and the path itself where none is.
pub proof fn law_the_first_spelling_that_exists_is_read(
    spellings: Seq<Seq<char>>,
    exists: Seq<bool>,
    resolved: Seq<char>,
    i: int,
)
    ensures
        0 <= i < spellings.len() && i < exists.len() && exists[i] && (forall|k: int|
            0 <= k < i ==> !(#[trigger] exists[k])) ==> existing_path(
            spellings,
            exists,
            resolved,
            0,
        ) == spellings[i],
        (forall|k: int| 0 <= k < exists.len() ==> !(#[trigger] exists[k])) ==> existing_path(
            spellings,
            exists,
            resolved,
            0,
        ) == resolved,
{
    if 0 <= i < spellings.len() && i < exists.len() && exists[i] && (forall|k: int|
        0 <= k < i ==> !(#[trigger] exists[k])) {
        lemma_first_existing(spellings, exists, resolved, 0, i);
    }
    if forall|k: int| 0 <= k < exists.len() ==> !(#[trigger] exists[k]) {
        lemma_none_existing(spellings, exists, resolved, 0);
    }
}

/// What is asked for first is whether the spellings of the resolved path exist,
/// then what the chosen one holds. A text is shown as far as was asked for, an
/// image as it is, or as the processor made it.
pub proof fn law_files_are_read_and_shown(
    a: ReadRun,
    b: ReadRun,
    c: ReadRun,
    d: ReadRun,
    resolved: String,
    exists: Vec<bool>,
    bytes: Vec<u8>,
    probe: ReadRequest,
    read: ReadRequest,
    end: ReadRequest,
)
    requires
        a.stage is Resolving,
        a.leads_to(ReadReply::Path(Ok(resolved)), b, probe),
        b.leads_to(ReadReply::Exist(exists), c, read),
        c.leads_to(ReadReply::Bytes(Ok(bytes)), d, end),
    ensures
        ({
            let spellings = path_spellings(resolved@, nfd_form(resolved@));
            &&& probe matches ReadRequest::Probe { paths } && texts(paths@) == spellings
            &&& read matches ReadRequest::Read { path } && path@ == existing_path(
                spellings,
                exists@,
                resolved@,
                0,
            )
            &&& image_type(bytes@) is None ==> (end matches ReadRequest::Finish { result }
                && tool_outcome(result) == text_outcome(
                a.path@,
                lossy_text(bytes@),
                a.offset,
                a.limit,
            ))
            &&& image_type(bytes@) matches Some(kind) ==> if a.has_processor {
                end matches ReadRequest::Process { bytes: given, mime_type } && given@ == bytes@
                    && mime_type@ == kind
            } else {
                end matches ReadRequest::Finish { result } && tool_outcome(result) == Ok::<
                    ToolResultView,
                    Seq<char>,
                >(image_view(kind, bytes@))
            }
        }),
{
}

/// An image is told with its kind and its bytes; one that was processed with
/// what the processor gave. A bitmap and an image that could not be processed
/// are told without bytes.
pub proof fn law_images_are_shown(
    kind: Seq<char>,
    bytes: Seq<u8>,
    processed: ReadImageProcessorResult,
)
    ensures
        kind != "image/bmp"@ ==> {
            let shown = image_view(kind, bytes);
            &&& shown.content.len() == 2
            &&& shown.content[0] matches BlockView::Text { text, .. } && text
                == "Read image file ["@ + kind + "]"@
            &&& shown.content[1] == (BlockView::Image {
                data: base64_text(bytes),
                mime_type: kind,
            })
        },
        kind == "image/bmp"@ ==> image_view(kind, bytes).content.len() == 1 && image_view(
            kind,
            bytes,
        ).content[0] is Text,
        ({
            let shown = processed_view(kind, processed);
            match processed {
                ReadImageProcessorResult::Converted { data, mime_type, .. } => {
                    &&& shown.content.len() == 2
                    &&& shown.content[1] == (BlockView::Image {
                        data: data@,
                        mime_type: mime_type@,
                    })
                },
                ReadImageProcessorResult::Failed(message) => {
                    &&& shown.content.len() == 1
                    &&& shown.content[0] matches BlockView::Text { text, .. } && text
                        == "Read image file ["@ + kind + "]\n"@ + message@
                },
            }
        }),
{
}

/// Images are told apart by how they begin.
pub proof fn law_images_are_known_by_how_they_begin(b: Seq<u8>)
    ensures
        bytes_at(b, 0, seq![0xffu8, 0xd8, 0xff]) && !(b.len() > 3 && b[3] == 0xf7) ==> image_type(b)
            == Some("image/jpeg"@),
        bytes_at(b, 0, seq![0xffu8, 0xd8, 0xff]) && b.len() > 3 && b[3] == 0xf7 ==> image_type(b)
            is None,
        is_still_png(b) ==> image_type(b) == Some("image/png"@),
        bytes_at(b, 0, seq![0x47u8, 0x49, 0x46]) ==> image_type(b) == Some("image/gif"@),
        bytes_at(b, 0, seq![0x52u8, 0x49, 0x46, 0x46]) && bytes_at(
            b,
            8,
            seq![0x57u8, 0x45, 0x42, 0x50],
        ) ==> image_type(b) == Some("image/webp"@),
        image_type(b) is Some ==> b.len() >= 3 && (b[0] == 0xff || b[0] == 0x89 || b[0] == 0x47
            || b[0] == 0x52 || b[0] == 0x42),
{
    lemma_first_byte(b, seq![0xffu8, 0xd8, 0xff]);
    lemma_first_byte(b, crate::tools::image::png_signature());
    lemma_first_byte(b, seq![0x47u8, 0x49, 0x46]);
    lemma_first_byte(b, seq![0x52u8, 0x49, 0x46, 0x46]);
    lemma_first_byte(b, seq![0x42u8, 0x4d]);
}

proof fn lemma_first_byte(b: Seq<u8>, wanted: Seq<u8>)
    requires
        wanted.len() > 0,
    ensures
        bytes_at(b, 0, wanted) ==> b.len() >= wanted.len() && b[0] == wanted[0],
{
    if bytes_at(b, 0, wanted) {
        assert(b.subrange(0, wanted.len() as int)[0] == b[0]);
    }
}

/// The number that a character of the alphabet stands for.
pub open spec fn base64_value(c: char) -> int {
    if 'A' <= c <= 'Z' {
        c as int - 'A' as int
    } else if 'a' <= c <= 'z' {
        c as int - 'a' as int + 26
    } else if '0' <= c <= '9' {
        c as int - '0' as int + 52
    } else if c == '+' {
        62
    } else {
        63
    }
}

proof fn lemma_base64_value(n: int)
    requires
        0 <= n < 64,
    ensures
        base64_value(base64_char(n)) == n,
{
}

/// Three bytes are written as four characters that stand for the same number,
/// and what follows them is written behind.
pub proof fn law_bytes_are_read_back_from_their_text(b: Seq<u8>, rest: Seq<u8>)
    requires
        b.len() == 3,
    ensures
        ({
            let text = base64_text(b + rest);
            &&& text.len() == 4 + base64_text(rest).len()
            &&& text.skip(4) == base64_text(rest)
            &&& base64_value(text[0]) * 262144 + base64_value(text[1]) * 4096 + base64_value(
                text[2],
            ) * 64 + base64_value(text[3]) == b[0] * 65536 + b[1] * 256 + b[2]
        }),
{
    let all = b + rest;
    assert(all.skip(3) =~= rest);
    let text = base64_text(all);
    assert(text.skip(4) =~= base64_text(rest));
    let (x, y, z) = (b[0] as int, b[1] as int, b[2] as int);
    assert(all[0] == b[0] && all[1] == b[1] && all[2] == b[2]);
    lemma_base64_value(x / 4);
    lemma_base64_value((x % 4) * 16 + y / 16);
    lemma_base64_value((y % 16) * 4 + z / 64);
    lemma_base64_value(z % 64);
}

// ---------------------------------------------------------------------------
// Paths
// ---------------------------------------------------------------------------

/// A path of a call is taken as it is, but for a mark in front and for spaces
/// that are not plain.
pub proof fn law_paths_lose_their_mark(path: Seq<char>)
    requires
        forall|i: int| 0 <= i < path.len() ==> 0x20 <= #[trigger] path[i] as u32 && (path[i] as u32)
            < 0x7f,
    ensures
        path.len() > 0 && path[0] == '@' ==> tool_path(path) == path.skip(1),
        path.len() == 0 || path[0] != '@' ==> tool_path(path) == path,
{
    let plain = path.map_values(|c: char| crate::tools::path_utils::plain_space(c));
    assert forall|i: int| 0 <= i < path.len() implies plain[i] == path[i] by {
        assert(0x20 <= path[i] as u32);
    }
    assert(plain =~= path);
}

/// A path is first looked for as it is.
pub proof fn law_paths_are_first_looked_for_as_they_are(
    resolved: Seq<char>,
    decomposed: Seq<char>,
)
    ensures
        ({
            let spellings = path_spellings(resolved, decomposed);
            &&& spellings.len() >= 1
            &&& spellings[0] == resolved
            &&& spellings.contains(with_narrow_spaces(resolved))
            &&& spellings.contains(decomposed)
            &&& spellings.contains(crate::text::replace_char(resolved, '\'', "\u{2019}"@))
            &&& spellings.contains(crate::text::replace_char(decomposed, '\'', "\u{2019}"@))
        }),
{
    let all = seq![
        resolved,
        with_narrow_spaces(resolved),
        decomposed,
        crate::text::replace_char(resolved, '\'', "\u{2019}"@),
        crate::text::replace_char(decomposed, '\'', "\u{2019}"@),
    ];
    lemma_distinct_holds(all);
    assert(distinct(all).contains(all[1]));
    assert(distinct(all).contains(all[2]));
    assert(distinct(all).contains(all[3]));
    assert(distinct(all).contains(all[4]));
}

proof fn lemma_distinct_holds(all: Seq<Seq<char>>)
    requires
        all.len() > 0,
    ensures
        distinct(all).len() > 0,
        distinct(all)[0] == all[0],
        forall|i: int| 0 <= i < all.len() ==> distinct(all).contains(#[trigger] all[i]),
    decreases all.len(),
{
    let front = all.drop_last();
    let before = distinct(front);
    if front.len() > 0 {
        lemma_distinct_holds(front);
    }
    let kept = distinct(all);
    assert forall|i: int| 0 <= i < all.len() implies kept.contains(#[trigger] all[i]) by {
        if i < front.len() {
            assert(before.contains(front[i]));
            let k = choose|k: int| 0 <= k < before.len() && before[k] == front[i];
            assert(kept[k] == all[i]);
        } else if !before.contains(all.last()) {
            assert(kept[before.len() as int] == all[i]);
        }
    }
}

/// Changes of one file wait in one queue, by whichever path it is named: its
/// real path is the key. A file that is not there yet, or whose real path cannot
/// be told, is known by its absolute path, and otherwise by the path that was
/// given.
pub proof fn law_changes_of_one_file_wait_in_one_queue(
    path: Seq<char>,
    other: Seq<char>,
    absolute: Result<Seq<char>, FileErrorCode>,
    code: FileErrorCode,
    found: Seq<char>,
    place: Seq<char>,
)
    ensures
        queue_key(path, Ok(place), Ok(found)) == found,
        queue_key(path, Ok(place), Ok(found)) == queue_key(other, Ok(other), Ok(found)),
        code == FileErrorCode::NotFound || code == FileErrorCode::NotSupported ==> queue_key(
            path,
            Ok(place),
            Err(code),
        ) == place,
        code != FileErrorCode::NotFound && code != FileErrorCode::NotSupported ==> queue_key(
            path,
            Ok(place),
            Err(code),
        ) == path,
        absolute is Err ==> queue_key(path, absolute, Ok(found)) == path,
{
}

} // verus!

//! Capture of what a shell command prints: the end of the output is kept, and
//! an output over the limits is saved to a file as a whole.

use vstd::prelude::*;

use crate::harness_types::{file_error_text, ExecutionError, ExecutionErrorCode, FileError};
use crate::text::{
    byte_len, chars_of, lemma_byte_len_bounds, lemma_byte_len_concat, lemma_split_nonempty,
    replace_char, replace_char_text, split, substring, text_of_option, utf8_len,
};
use crate::utils::truncate::{
    counted_lines, end_start, last_bytes, lemma_last_bytes, tail_count, tail_text, tail_view,
    truncate_string_to_bytes_from_end, truncate_tail, TruncatedBy, TruncationOptions,
    TruncationResult, TruncationView, DEFAULT_MAX_BYTES, DEFAULT_MAX_LINES,
};

verus! {

// ---------------------------------------------------------------------------
// Clean text
// ---------------------------------------------------------------------------

/// Whether a character is kept in printable output: control characters but
/// tab, line feed and carriage return are not, nor are interlinear annotation
/// characters.
pub open spec fn is_printable(c: char) -> bool {
    ||| c == '\t'
    ||| c == '\n'
    ||| c == '\r'
    ||| c > '\u{1f}' && !('\u{fff9}' <= c <= '\u{fffb}')
}

/// A text without the characters that are not kept.
pub open spec fn sanitized(text: Seq<char>) -> Seq<char>
    decreases text.len(),
{
    if text.len() == 0 {
        Seq::empty()
    } else if is_printable(text.last()) {
        sanitized(text.drop_last()).push(text.last())
    } else {
        sanitized(text.drop_last())
    }
}

/// A text without control characters but tab, line feed and carriage return,
/// and without interlinear annotation characters.
pub fn sanitize_binary_output(text: &str) -> (r: String)
    ensures
        r@ == sanitized(text@),
{
    let chars: Vec<char> = chars_of(text);
    let mut out: String = String::new();
    let mut i: usize = 0;
    proof {
        assert(chars@.take(0) =~= Seq::<char>::empty());
    }
    while i < chars.len()
        invariant
            i <= chars@.len(),
            out@ == sanitized(chars@.take(i as int)),
        decreases chars@.len() - i,
    {
        let c: char = chars[i];
        proof {
            assert(chars@.take(i + 1).drop_last() =~= chars@.take(i as int));
            assert(chars@.take(i + 1).last() == c);
        }
        if c == '\t' || c == '\n' || c == '\r' || (c > '\u{1f}' && !('\u{fff9}' <= c && c
            <= '\u{fffb}')) {
            out.push(c);
        }
        i = i + 1;
    }
    proof {
        assert(chars@.take(chars@.len() as int) =~= chars@);
    }
    out
}

/// What is captured of a chunk of output: printable text without carriage
/// returns.
pub open spec fn clean(chunk: Seq<char>) -> Seq<char> {
    replace_char(sanitized(chunk), '\r', ""@)
}

/// How many line feeds a text holds.
pub open spec fn feeds(text: Seq<char>) -> nat
    decreases text.len(),
{
    if text.len() == 0 {
        0
    } else if text.last() == '\n' {
        feeds(text.drop_last()) + 1
    } else {
        feeds(text.drop_last())
    }
}

/// What follows the last line feed of a text.
pub open spec fn open_part(text: Seq<char>) -> Seq<char>
    decreases text.len(),
{
    if text.len() == 0 || text.last() == '\n' {
        Seq::empty()
    } else {
        open_part(text.drop_last()).push(text.last())
    }
}

// ---------------------------------------------------------------------------
// State
// ---------------------------------------------------------------------------

/// A write to the file that holds the whole output.
pub enum FullOutputWrite {
    Create { initial: String },
    Append { text: String },
}

/// The mathematical value of a [`FullOutputWrite`].
pub enum WriteView {
    Create { initial: Seq<char> },
    Append { text: Seq<char> },
}

impl View for FullOutputWrite {
    type V = WriteView;

    open spec fn view(&self) -> WriteView {
        match self {
            FullOutputWrite::Create { initial } => WriteView::Create { initial: initial@ },
            FullOutputWrite::Append { text } => WriteView::Append { text: text@ },
        }
    }
}

/// The writes of a list.
pub open spec fn write_views(s: Seq<FullOutputWrite>) -> Seq<WriteView> {
    Seq::new(s.len(), |i: int| s[i]@)
}

/// How far an output has been captured.
pub struct CaptureState {
    tail_output: String,
    total_bytes: usize,
    completed_lines: usize,
    has_open_line: bool,
    current_line_bytes: usize,
    full_output_path: Option<String>,
    full_output_requested: bool,
    pending_writes: Vec<FullOutputWrite>,
}

/// The mathematical value of a [`CaptureState`].
pub struct CaptureView {
    pub tail_output: Seq<char>,
    pub total_bytes: nat,
    pub completed_lines: nat,
    pub has_open_line: bool,
    pub current_line_bytes: nat,
    pub full_output_path: Option<Seq<char>>,
    pub full_output_requested: bool,
    pub pending_writes: Seq<WriteView>,
}

impl View for CaptureState {
    type V = CaptureView;

    closed spec fn view(&self) -> CaptureView {
        CaptureView {
            tail_output: self.tail_output@,
            total_bytes: self.total_bytes as nat,
            completed_lines: self.completed_lines as nat,
            has_open_line: self.has_open_line,
            current_line_bytes: self.current_line_bytes as nat,
            full_output_path: text_of_option(self.full_output_path),
            full_output_requested: self.full_output_requested,
            pending_writes: write_views(self.pending_writes@),
        }
    }
}

impl CaptureView {
    /// How many lines were printed.
    pub open spec fn total_lines(self) -> nat {
        self.completed_lines + if self.has_open_line {
            1nat
        } else {
            0nat
        }
    }

    /// Whether the output is over the limits.
    pub open spec fn is_over(self) -> bool {
        self.total_bytes > DEFAULT_MAX_BYTES || self.total_lines() > DEFAULT_MAX_LINES
    }

    /// Before anything was printed.
    pub open spec fn start() -> CaptureView {
        CaptureView {
            tail_output: Seq::empty(),
            total_bytes: 0,
            completed_lines: 0,
            has_open_line: false,
            current_line_bytes: 0,
            full_output_path: None,
            full_output_requested: false,
            pending_writes: Seq::empty(),
        }
    }

    /// After some more text.
    pub open spec fn with_text(self, text: Seq<char>) -> CaptureView {
        let whole = self.tail_output + text;
        let counted = CaptureView {
            tail_output: last_bytes(whole, (DEFAULT_MAX_BYTES * 2) as nat),
            total_bytes: self.total_bytes + byte_len(text),
            completed_lines: self.completed_lines + feeds(text),
            has_open_line: if feeds(text) > 0 {
                open_part(text).len() > 0
            } else {
                self.has_open_line || text.len() > 0
            },
            current_line_bytes: if feeds(text) > 0 {
                byte_len(open_part(text))
            } else {
                self.current_line_bytes + byte_len(text)
            },
            ..self
        };
        CaptureView {
            full_output_requested: self.full_output_requested || counted.is_over(),
            pending_writes: if self.full_output_requested {
                self.pending_writes.push(WriteView::Append { text })
            } else if counted.is_over() {
                self.pending_writes.push(WriteView::Create { initial: whole })
            } else {
                self.pending_writes
            },
            ..counted
        }
    }
}

/// What has been captured so far, for display.
pub struct ShellCaptureProgress {
    pub output: String,
    pub truncation: TruncationResult,
    pub full_output_path: Option<String>,
    pub last_line_bytes: usize,
}

/// The mathematical value of a [`ShellCaptureProgress`].
pub struct ProgressView {
    pub output: Seq<char>,
    pub truncation: TruncationView,
    pub full_output_path: Option<Seq<char>>,
    pub last_line_bytes: nat,
}

impl View for ShellCaptureProgress {
    type V = ProgressView;

    open spec fn view(&self) -> ProgressView {
        ProgressView {
            output: self.output@,
            truncation: self.truncation@,
            full_output_path: text_of_option(self.full_output_path),
            last_line_bytes: self.last_line_bytes as nat,
        }
    }
}

impl CaptureView {
    /// How the captured output is shown: truncated when the whole output is over
    /// the limits.
    pub open spec fn progress(self) -> ProgressView {
        let tail = tail_view(
            self.tail_output,
            DEFAULT_MAX_LINES as nat,
            DEFAULT_MAX_BYTES as nat,
        );
        let by = match tail.truncated_by {
            Some(by) => by,
            None => if self.total_bytes > DEFAULT_MAX_BYTES {
                TruncatedBy::Bytes
            } else {
                TruncatedBy::Lines
            },
        };
        ProgressView {
            output: if self.is_over() {
                tail.content
            } else {
                self.tail_output
            },
            truncation: TruncationView {
                truncated: self.is_over(),
                truncated_by: if self.is_over() {
                    Some(by)
                } else {
                    None
                },
                total_lines: self.total_lines(),
                total_bytes: self.total_bytes,
                ..tail
            },
            full_output_path: self.full_output_path,
            last_line_bytes: self.current_line_bytes,
        }
    }

    /// After the command ended: an output over the limits is to be saved.
    pub open spec fn settled(self) -> CaptureView {
        if self.is_over() && !self.full_output_requested {
            CaptureView {
                full_output_requested: true,
                pending_writes: self.pending_writes.push(
                    WriteView::Create { initial: self.tail_output },
                ),
                ..self
            }
        } else {
            self
        }
    }
}

fn count_feeds(text: &str) -> (r: usize)
    ensures
        r == feeds(text@),
        r <= byte_len(text@),
{
    let chars: Vec<char> = chars_of(text);
    let mut count: usize = 0;
    let mut i: usize = 0;
    proof {
        assert(chars@.take(0) =~= Seq::<char>::empty());
    }
    while i < chars.len()
        invariant
            i <= chars@.len(),
            count <= i,
            count == feeds(chars@.take(i as int)),
        decreases chars@.len() - i,
    {
        proof {
            assert(chars@.take(i + 1).drop_last() =~= chars@.take(i as int));
            assert(chars@.take(i + 1).last() == chars@[i as int]);
        }
        if chars[i] == '\n' {
            count = count + 1;
        }
        i = i + 1;
    }
    proof {
        assert(chars@.take(chars@.len() as int) =~= chars@);
        lemma_byte_len_bounds(text@);
    }
    count
}

fn open_part_of(text: &str) -> (r: String)
    ensures
        r@ == open_part(text@),
{
    let chars: Vec<char> = chars_of(text);
    let n: usize = chars.len();
    let mut start: usize = n;
    proof {
        assert(chars@.take(n as int) =~= chars@);
        assert(open_part(chars@) =~= open_part(chars@) + chars@.skip(n as int));
    }
    while start > 0 && chars[start - 1] != '\n'
        invariant
            start <= n == chars@.len(),
            open_part(chars@) == open_part(chars@.take(start as int)) + chars@.skip(
                start as int,
            ),
        decreases start,
    {
        proof {
            let front = chars@.take(start as int);
            assert(front.drop_last() =~= chars@.take(start - 1));
            assert(front.last() == chars@[start - 1]);
            assert(open_part(front) + chars@.skip(start as int) =~= open_part(
                chars@.take(start - 1),
            ) + chars@.skip(start - 1));
        }
        start = start - 1;
    }
    proof {
        let front = chars@.take(start as int);
        if start > 0 {
            assert(front.last() == chars@[start - 1]);
        }
        assert(open_part(chars@) =~= chars@.skip(start as int));
        assert(text@.subrange(start as int, n as int) =~= text@.skip(start as int));
    }
    substring(text, start, n)
}

proof fn lemma_open_part(text: Seq<char>)
    ensures
        feeds(text) + byte_len(open_part(text)) <= byte_len(text),
        feeds(text) == 0 ==> open_part(text) == text,
        open_part(text).len() > 0 ==> byte_len(open_part(text)) > 0,
    decreases text.len(),
{
    lemma_byte_len_bounds(open_part(text));
    if text.len() > 0 {
        let front = text.drop_last();
        lemma_open_part(front);
        let one = seq![text.last()];
        assert(text =~= front + one);
        lemma_byte_len_concat(front, one);
        lemma_byte_len_bounds(one);
        if text.last() != '\n' {
            assert(open_part(text) =~= open_part(front) + one);
            lemma_byte_len_concat(open_part(front), one);
            if feeds(text) == 0 {
                assert(open_part(text) =~= text);
            }
        }
    }
}

/// The file error that kept the output from being saved, as an execution
/// error.
pub fn to_execution_error(error: &FileError) -> (r: ExecutionError)
    ensures
        r.code == ExecutionErrorCode::Unknown,
        r.message@ == file_error_text(error@),
{
    ExecutionError::new(ExecutionErrorCode::Unknown, error.display())
}

impl CaptureState {
    #[verifier::type_invariant]
    spec fn counts_fit(self) -> bool {
        &&& self.completed_lines + (if self.has_open_line {
            1int
        } else {
            0
        }) <= self.total_bytes
        &&& self.current_line_bytes <= self.total_bytes
    }

    /// Before anything was printed.
    pub fn new() -> (r: Self)
        ensures
            r@ == CaptureView::start(),
    {
        let r: CaptureState = CaptureState {
            tail_output: String::new(),
            total_bytes: 0,
            completed_lines: 0,
            has_open_line: false,
            current_line_bytes: 0,
            full_output_path: None,
            full_output_requested: false,
            pending_writes: Vec::new(),
        };
        proof {
            assert(r.tail_output@ =~= Seq::<char>::empty());
            assert(write_views(r.pending_writes@) =~= Seq::<WriteView>::empty());
        }
        r
    }

    /// Whether a chunk of output can be counted with what was captured before.
    pub fn has_room(&self, chunk: &str) -> (r: bool)
        ensures
            r == (self@.total_bytes + byte_len(clean(chunk@)) <= usize::MAX),
    {
        proof {
            reveal_strlit("");
            assert(""@ =~= Seq::<char>::empty());
        }
        let printable: String = sanitize_binary_output(chunk);
        let text: String = replace_char_text(printable.as_str(), '\r', "");
        self.total_bytes.checked_add(utf8_len(text.as_str())).is_some()
    }

    /// Captures a chunk of output, and gives back the text that was captured.
    pub fn on_chunk(&mut self, chunk: &str) -> (r: String)
        requires
            old(self)@.total_bytes + byte_len(clean(chunk@)) <= usize::MAX,
        ensures
            r@ == clean(chunk@),
            final(self)@ == old(self)@.with_text(clean(chunk@)),
    {
        proof {
            use_type_invariant(&*self);
            reveal_strlit("");
            assert(""@ =~= Seq::<char>::empty());
        }
        let printable: String = sanitize_binary_output(chunk);
        let text: String = replace_char_text(printable.as_str(), '\r', "");
        let text_bytes: usize = utf8_len(text.as_str());
        let added_lines: usize = count_feeds(text.as_str());
        let open: String = open_part_of(text.as_str());
        proof {
            lemma_open_part(text@);
            lemma_byte_len_bounds(text@);
        }
        let has_open_line: bool = if added_lines > 0 {
            open.as_str().unicode_len() > 0
        } else {
            self.has_open_line || text.as_str().unicode_len() > 0
        };
        let current_line_bytes: usize = if added_lines > 0 {
            utf8_len(open.as_str())
        } else {
            self.current_line_bytes + text_bytes
        };
        let total_bytes: usize = self.total_bytes + text_bytes;
        let completed_lines: usize = self.completed_lines + added_lines;
        let total_lines: usize = if has_open_line {
            completed_lines + 1
        } else {
            completed_lines
        };
        let mut whole: String = self.tail_output.clone();
        whole.append(text.as_str());
        let over: bool = total_bytes > DEFAULT_MAX_BYTES || total_lines > DEFAULT_MAX_LINES;
        let mut writes: Vec<FullOutputWrite> = Vec::new();
        std::mem::swap(&mut writes, &mut self.pending_writes);
        let ghost before = writes@;
        if self.full_output_requested {
            writes.push(FullOutputWrite::Append { text: text.clone() });
            proof {
                assert(write_views(writes@) =~= write_views(before).push(writes@.last()@));
            }
        } else if over {
            writes.push(FullOutputWrite::Create { initial: whole.clone() });
            proof {
                assert(write_views(writes@) =~= write_views(before).push(writes@.last()@));
            }
        }
        let tail_output: String = truncate_string_to_bytes_from_end(
            whole.as_str(),
            DEFAULT_MAX_BYTES * 2,
        );
        let mut path: Option<String> = None;
        std::mem::swap(&mut path, &mut self.full_output_path);
        *self = CaptureState {
            tail_output,
            total_bytes,
            completed_lines,
            has_open_line,
            current_line_bytes,
            full_output_path: path,
            full_output_requested: self.full_output_requested || over,
            pending_writes: writes,
        };
        text
    }

    /// How the captured output is shown: truncated when the whole output is over
    /// the limits.
    pub fn create_progress(&self) -> (r: ShellCaptureProgress)
        ensures
            r@ == self@.progress(),
    {
        proof {
            use_type_invariant(&*self);
        }
        let tail: TruncationResult = truncate_tail(
            self.tail_output.as_str(),
            TruncationOptions { max_lines: None, max_bytes: None },
        );
        let total_lines: usize = if self.has_open_line {
            self.completed_lines + 1
        } else {
            self.completed_lines
        };
        let truncated: bool = total_lines > DEFAULT_MAX_LINES || self.total_bytes
            > DEFAULT_MAX_BYTES;
        let by: TruncatedBy = match tail.truncated_by {
            Some(by) => by,
            None => if self.total_bytes > DEFAULT_MAX_BYTES {
                TruncatedBy::Bytes
            } else {
                TruncatedBy::Lines
            },
        };
        let output: String = if truncated {
            tail.content.clone()
        } else {
            self.tail_output.clone()
        };
        ShellCaptureProgress {
            output,
            truncation: TruncationResult {
                content: tail.content,
                truncated,
                truncated_by: if truncated {
                    Some(by)
                } else {
                    None
                },
                total_lines,
                total_bytes: self.total_bytes,
                output_lines: tail.output_lines,
                output_bytes: tail.output_bytes,
                last_line_partial: tail.last_line_partial,
                first_line_exceeds_limit: tail.first_line_exceeds_limit,
                max_lines: tail.max_lines,
                max_bytes: tail.max_bytes,
            },
            full_output_path: self.full_output_path.clone(),
            last_line_bytes: self.current_line_bytes,
        }
    }

    /// Notes that the command ended: an output over the limits is to be saved.
    pub fn settle(&mut self)
        ensures
            final(self)@ == old(self)@.settled(),
    {
        proof {
            use_type_invariant(&*self);
        }
        let progress: ShellCaptureProgress = self.create_progress();
        if progress.truncation.truncated && !self.full_output_requested {
            let initial: String = self.tail_output.clone();
            let mut writes: Vec<FullOutputWrite> = Vec::new();
            std::mem::swap(&mut writes, &mut self.pending_writes);
            let ghost before = writes@;
            writes.push(FullOutputWrite::Create { initial });
            proof {
                assert(write_views(writes@) =~= write_views(before).push(writes@.last()@));
            }
            self.pending_writes = writes;
            self.full_output_requested = true;
        }
    }

    /// Takes the next write to the file that holds the whole output.
    pub fn next_write(&mut self) -> (r: Option<FullOutputWrite>)
        ensures
            match r {
                Some(write) => old(self)@.pending_writes.len() > 0 && write@
                    == old(self)@.pending_writes[0] && final(self)@ == (CaptureView {
                    pending_writes: old(self)@.pending_writes.skip(1),
                    ..old(self)@
                }),
                None => old(self)@.pending_writes.len() == 0 && final(self)@ == old(self)@,
            },
    {
        proof {
            use_type_invariant(&*self);
        }
        if self.pending_writes.len() == 0 {
            return None;
        }
        let mut writes: Vec<FullOutputWrite> = Vec::new();
        std::mem::swap(&mut writes, &mut self.pending_writes);
        let ghost before = writes@;
        let first: FullOutputWrite = writes.remove(0);
        proof {
            assert(write_views(writes@) =~= write_views(before).skip(1));
        }
        self.pending_writes = writes;
        Some(first)
    }

    /// Notes the path of the file that holds the whole output.
    pub fn file_created(&mut self, path: String)
        ensures
            final(self)@ == (CaptureView {
                full_output_path: Some(path@),
                ..old(self)@
            }),
    {
        proof {
            use_type_invariant(&*self);
        }
        self.full_output_path = Some(path);
    }

    /// The path of the file to append to.
    pub fn append_path(&self) -> (r: Result<String, ExecutionError>)
        ensures
            match r {
                Ok(path) => self@.full_output_path == Some(path@),
                Err(error) => self@.full_output_path is None && error.code
                    == ExecutionErrorCode::Unknown && error.message@
                    == "Full output path was not created"@,
            },
    {
        match &self.full_output_path {
            Some(path) => Ok(path.clone()),
            None => Err(
                ExecutionError::new(
                    ExecutionErrorCode::Unknown,
                    "Full output path was not created".to_string(),
                ),
            ),
        }
    }
}

// ---------------------------------------------------------------------------
// Outcome
// ---------------------------------------------------------------------------

/// What came of a captured command.
pub struct ShellCaptureResult {
    pub output: String,
    pub truncation: TruncationResult,
    pub full_output_path: Option<String>,
    pub last_line_bytes: usize,
    pub exit_code: Option<i32>,
    pub cancelled: bool,
    pub truncated: bool,
    pub execution_error: Option<ExecutionError>,
}

impl ShellCaptureResult {
    /// What was captured of the output.
    pub open spec fn captured(self) -> ProgressView {
        ProgressView {
            output: self.output@,
            truncation: self.truncation@,
            full_output_path: text_of_option(self.full_output_path),
            last_line_bytes: self.last_line_bytes as nat,
        }
    }
}

/// Whether an outcome is what came of a command, from its result, what was
/// captured of its output, and whether it was aborted. A failure is part of the
/// outcome where the caller asked for that.
pub open spec fn came_of(
    result: Result<i32, ExecutionError>,
    progress: ProgressView,
    aborted: bool,
    return_execution_errors: bool,
    r: Result<ShellCaptureResult, ExecutionError>,
) -> bool {
    &&& r is Err <==> (result matches Err(error) && error.code != ExecutionErrorCode::Aborted
        && !aborted && !return_execution_errors)
    &&& r matches Err(error) ==> result == Err::<i32, ExecutionError>(error)
    &&& r matches Ok(outcome) ==> {
        &&& outcome.captured() == progress
        &&& outcome.truncated == progress.truncation.truncated
        &&& outcome.cancelled == (aborted || (result matches Err(error) && error.code
            == ExecutionErrorCode::Aborted))
        &&& outcome.exit_code == (match result {
            Ok(code) => if aborted {
                None
            } else {
                Some(code)
            },
            Err(_) => None,
        })
        &&& outcome.execution_error == (match result {
            Ok(_) => None,
            Err(error) => if outcome.cancelled {
                None
            } else {
                Some(error)
            },
        })
    }
}

/// What came of a command.
pub fn capture_outcome(
    result: Result<i32, ExecutionError>,
    progress: ShellCaptureProgress,
    aborted: bool,
    return_execution_errors: bool,
) -> (r: Result<ShellCaptureResult, ExecutionError>)
    ensures
        came_of(result, progress@, aborted, return_execution_errors, r),
{
    let truncated: bool = progress.truncation.truncated;
    match result {
        Err(error) => {
            let cancelled: bool = aborted || error.code == ExecutionErrorCode::Aborted;
            if !cancelled && !return_execution_errors {
                return Err(error);
            }
            Ok(
                ShellCaptureResult {
                    output: progress.output,
                    truncation: progress.truncation,
                    full_output_path: progress.full_output_path,
                    last_line_bytes: progress.last_line_bytes,
                    exit_code: None,
                    cancelled,
                    truncated,
                    execution_error: if cancelled {
                        None
                    } else {
                        Some(error)
                    },
                },
            )
        },
        Ok(code) => Ok(
            ShellCaptureResult {
                output: progress.output,
                truncation: progress.truncation,
                full_output_path: progress.full_output_path,
                last_line_bytes: progress.last_line_bytes,
                exit_code: if aborted {
                    None
                } else {
                    Some(code)
                },
                cancelled: aborted,
                truncated,
                execution_error: None,
            },
        ),
    }
}

// ---------------------------------------------------------------------------
// What capturing promises
// ---------------------------------------------------------------------------

/// The text of a write.
pub open spec fn written(write: WriteView) -> Seq<char> {
    match write {
        WriteView::Create { initial } => initial,
        WriteView::Append { text } => text,
    }
}

/// The texts of writes one after the other.
pub open spec fn all_written(writes: Seq<WriteView>) -> Seq<char>
    decreases writes.len(),
{
    if writes.len() == 0 {
        Seq::empty()
    } else {
        all_written(writes.drop_last()) + written(writes.last())
    }
}

/// The state after chunks of output.
pub open spec fn captured(chunks: Seq<Seq<char>>) -> CaptureView
    decreases chunks.len(),
{
    if chunks.len() == 0 {
        CaptureView::start()
    } else {
        captured(chunks.drop_last()).with_text(clean(chunks.last()))
    }
}

/// The text of chunks of output.
pub open spec fn clean_output(chunks: Seq<Seq<char>>) -> Seq<char>
    decreases chunks.len(),
{
    if chunks.len() == 0 {
        Seq::empty()
    } else {
        clean_output(chunks.drop_last()) + clean(chunks.last())
    }
}

proof fn lemma_parts(a: Seq<char>, b: Seq<char>)
    ensures
        feeds(a + b) == feeds(a) + feeds(b),
        open_part(a + b) == if feeds(b) > 0 {
            open_part(b)
        } else {
            open_part(a) + b
        },
    decreases b.len(),
{
    if b.len() == 0 {
        assert(a + b =~= a);
        assert(open_part(a) + b =~= open_part(a));
    } else {
        lemma_parts(a, b.drop_last());
        assert((a + b).drop_last() =~= a + b.drop_last());
        assert((a + b).last() == b.last());
        if b.last() != '\n' && feeds(b) == 0 {
            assert((open_part(a) + b.drop_last()).push(b.last()) =~= open_part(a) + b);
        }
    }
}

proof fn lemma_last_bytes_twice(a: Seq<char>, b: Seq<char>, max_bytes: nat)
    ensures
        last_bytes(last_bytes(a, max_bytes) + b, max_bytes) == last_bytes(a + b, max_bytes),
{
    let cut = end_start(a, max_bytes, 0);
    lemma_last_bytes(a, max_bytes, 0);
    let kept = a.skip(cut);
    let short = kept + b;
    let whole = a + b;
    lemma_last_bytes(short, max_bytes, 0);
    lemma_last_bytes(whole, max_bytes, 0);
    let s = end_start(short, max_bytes, 0);
    let w = end_start(whole, max_bytes, 0);
    assert forall|i: int| 0 <= i <= short.len() implies #[trigger] short.skip(i) == whole.skip(
        i + cut,
    ) by {
        assert(short.skip(i) =~= whole.skip(i + cut));
    }
    assert(short.skip(s) == whole.skip(s + cut));
    if w < cut {
        let tail = a.skip(w);
        assert(whole.skip(w) =~= tail + b);
        lemma_byte_len_concat(tail, b);
        let more = a.skip(cut - 1);
        assert(tail =~= a.subrange(w, cut - 1) + more);
        lemma_byte_len_concat(a.subrange(w, cut - 1), more);
        assert(false);
    }
    if s + cut < w {
        assert(whole.skip(w - 1) =~= short.skip(w - 1 - cut));
        let mid = whole.subrange(s + cut, w - 1);
        assert(whole.skip(s + cut) =~= mid + whole.skip(w - 1));
        lemma_byte_len_concat(mid, whole.skip(w - 1));
        assert(false);
    }
    if s + cut > w {
        assert(short.skip(w - cut) == whole.skip(w));
        assert(s > 0);
        let mid = short.subrange(w - cut, s - 1);
        assert(short.skip(w - cut) =~= mid + short.skip(s - 1));
        lemma_byte_len_concat(mid, short.skip(s - 1));
        assert(false);
    }
}

proof fn lemma_all_fits(text: Seq<char>, max_bytes: nat)
    requires
        byte_len(text) <= max_bytes,
    ensures
        last_bytes(text, max_bytes) == text,
{
    assert(text.skip(0) =~= text);
}

/// After any chunks of output the counts are those of the whole output, its end
/// is kept, and what is to be saved is the whole output, as soon as the output
/// is over the limits and not before.
pub proof fn law_captures_describe_the_output(chunks: Seq<Seq<char>>)
    ensures
        ({
            let state = captured(chunks);
            let output = clean_output(chunks);
            &&& state.total_bytes == byte_len(output)
            &&& state.completed_lines == feeds(output)
            &&& state.has_open_line == (open_part(output).len() > 0)
            &&& state.current_line_bytes == byte_len(open_part(output))
            &&& state.tail_output == last_bytes(output, (DEFAULT_MAX_BYTES * 2) as nat)
            &&& state.full_output_requested == state.is_over()
            &&& all_written(state.pending_writes) == if state.is_over() {
                output
            } else {
                Seq::empty()
            }
        }),
    decreases chunks.len(),
{
    let most = (DEFAULT_MAX_BYTES * 2) as nat;
    if chunks.len() == 0 {
        lemma_all_fits(Seq::empty(), most);
    } else {
        law_captures_describe_the_output(chunks.drop_last());
        let before = captured(chunks.drop_last());
        let now = captured(chunks);
        let front = clean_output(chunks.drop_last());
        let text = clean(chunks.last());
        let output = clean_output(chunks);
        lemma_byte_len_concat(front, text);
        lemma_parts(front, text);
        lemma_byte_len_concat(open_part(front), text);
        lemma_last_bytes_twice(front, text, most);
        assert(now.has_open_line == (open_part(output).len() > 0));
        assert(now.current_line_bytes == byte_len(open_part(output)));
        assert(before.is_over() ==> now.is_over());
        if before.full_output_requested {
            assert(now.pending_writes.drop_last() =~= before.pending_writes);
        } else {
            lemma_all_fits(front, most);
            assert(before.tail_output + text == output);
            if now.is_over() {
                assert(now.pending_writes.drop_last() =~= before.pending_writes);
                assert(all_written(now.pending_writes) =~= output);
            }
        }
    }
}

proof fn lemma_counted(s: Seq<char>)
    ensures
        counted_lines(s).len() == feeds(s) + if open_part(s).len() > 0 {
            1nat
        } else {
            0nat
        },
        split(s, '\n').len() == feeds(s) + 1,
    decreases s.len(),
{
    if s.len() > 0 {
        lemma_counted(s.drop_last());
        lemma_split_nonempty(s.drop_last(), '\n');
    }
}

proof fn lemma_tail_lines(lines: Seq<Seq<char>>, max_lines: nat, max_bytes: nat, k: nat)
    requires
        k <= lines.len(),
    ensures
        tail_count(lines, max_lines, max_bytes, k) <= lines.len(),
    decreases lines.len() - k,
{
    if k < lines.len() && k < max_lines && byte_len(tail_text(lines, (k + 1) as int))
        <= max_bytes {
        lemma_tail_lines(lines, max_lines, max_bytes, k + 1);
    }
}

/// No more lines are shown than were printed.
pub proof fn law_shown_lines_were_printed(chunks: Seq<Seq<char>>)
    ensures
        captured(chunks).progress().truncation.output_lines
            <= captured(chunks).progress().truncation.total_lines,
{
    law_captures_describe_the_output(chunks);
    let state = captured(chunks);
    let output = clean_output(chunks);
    let most = (DEFAULT_MAX_BYTES * 2) as nat;
    lemma_last_bytes(output, most, 0);
    let cut = end_start(output, most, 0);
    let tail = output.skip(cut);
    assert(output =~= output.take(cut) + tail);
    lemma_parts(output.take(cut), tail);
    lemma_open_part(tail);
    lemma_counted(tail);
    lemma_tail_lines(
        counted_lines(tail),
        DEFAULT_MAX_LINES as nat,
        DEFAULT_MAX_BYTES as nat,
        0,
    );
}

} // verus!

//! What follows a captured command: an output over the limits is saved to a
//! file, and the outcome is told.

use vstd::prelude::*;

use crate::harness_types::{file_error_text, ExecutionError, ExecutionErrorCode, FileError};
use crate::utils::shell_output::{
    all_written, came_of, capture_outcome, to_execution_error, written, CaptureState, CaptureView,
    FullOutputWrite, ShellCaptureProgress, ShellCaptureResult, WriteView,
};

verus! {

/// How far the end of a captured command has come.
pub enum CaptureStage {
    Creating { initial: String },
    Appending,
    Checking,
    Done,
}

/// A captured command that ended.
pub struct CaptureRun {
    pub state: CaptureState,
    pub result: Result<i32, ExecutionError>,
    pub return_execution_errors: bool,
    pub stage: CaptureStage,
}

/// What is asked for next.
pub enum CaptureRequest {
    CreateFile,
    Append { path: String, text: String },
    CheckAborted,
    Finish { result: Result<ShellCaptureResult, ExecutionError> },
}

/// What is told.
pub enum CaptureReply {
    Created(Result<String, FileError>),
    Appended(Result<(), FileError>),
    Aborted(bool),
}

/// Whether a captured command ended with an error.
pub open spec fn capture_fails(
    next: CaptureRun,
    request: CaptureRequest,
    message: Seq<char>,
) -> bool {
    &&& next.stage is Done
    &&& request matches CaptureRequest::Finish { result: Err(e) } && e.code
        == ExecutionErrorCode::Unknown && e.message@ == message
}

impl CaptureRun {
    /// What stays as it is.
    pub open spec fn same_command(self, other: CaptureRun) -> bool {
        self.result == other.result && self.return_execution_errors
            == other.return_execution_errors
    }

    /// Whether the next write is asked for, or the last question where there is
    /// none.
    pub open spec fn goes_on(before: CaptureView, next: CaptureRun, request: CaptureRequest) -> bool {
        if before.pending_writes.len() == 0 {
            &&& next.state@ == before
            &&& next.stage is Checking
            &&& request is CheckAborted
        } else {
            let rest = CaptureView {
                pending_writes: before.pending_writes.skip(1),
                ..before
            };
            match before.pending_writes[0] {
                WriteView::Create { initial } => {
                    &&& next.state@ == rest
                    &&& next.stage matches CaptureStage::Creating { initial: held } && held@
                        == initial
                    &&& request is CreateFile
                },
                WriteView::Append { text } => match before.full_output_path {
                    Some(file) => {
                        &&& next.state@ == rest
                        &&& next.stage is Appending
                        &&& request matches CaptureRequest::Append { path, text: added } && path@
                            == file && added@ == text
                    },
                    None => capture_fails(next, request, "Full output path was not created"@),
                },
            }
        }
    }

    /// Whether a reply is the one that is waited for.
    pub open spec fn expects(self, reply: CaptureReply) -> bool {
        match self.stage {
            CaptureStage::Creating { .. } => reply is Created,
            CaptureStage::Appending => reply is Appended,
            CaptureStage::Checking => reply is Aborted,
            CaptureStage::Done => false,
        }
    }

    /// What a reply leads to. The first write that fails is what is told.
    pub open spec fn leads_to(
        self,
        reply: CaptureReply,
        next: CaptureRun,
        request: CaptureRequest,
    ) -> bool {
        match (self.stage, reply) {
            (CaptureStage::Creating { initial }, CaptureReply::Created(Ok(file))) => {
                &&& next.same_command(self)
                &&& next.state@ == (CaptureView { full_output_path: Some(file@), ..self.state@ })
                &&& next.stage is Appending
                &&& request matches CaptureRequest::Append { path, text } && path@ == file@
                    && text@ == initial@
            },
            (CaptureStage::Creating { .. }, CaptureReply::Created(Err(error))) => capture_fails(
                next,
                request,
                file_error_text(error@),
            ),
            (CaptureStage::Appending, CaptureReply::Appended(Ok(_))) => next.same_command(self)
                && Self::goes_on(self.state@, next, request),
            (CaptureStage::Appending, CaptureReply::Appended(Err(error))) => capture_fails(
                next,
                request,
                file_error_text(error@),
            ),
            (CaptureStage::Checking, CaptureReply::Aborted(aborted)) => {
                &&& next.stage is Done
                &&& request matches CaptureRequest::Finish { result } && came_of(
                    self.result,
                    self.state@.progress(),
                    aborted,
                    self.return_execution_errors,
                    result,
                )
            },
            _ => false,
        }
    }

    /// What is still to be saved.
    pub open spec fn unsaved(self) -> Seq<char> {
        match self.stage {
            CaptureStage::Creating { initial } => initial@ + all_written(
                self.state@.pending_writes,
            ),
            _ => all_written(self.state@.pending_writes),
        }
    }

    fn advance(&mut self) -> (r: CaptureRequest)
        requires
            old(self).stage is Done,
        ensures
            final(self).same_command(*old(self)),
            Self::goes_on(old(self).state@, *final(self), r),
    {
        match self.state.next_write() {
            None => {
                self.stage = CaptureStage::Checking;
                CaptureRequest::CheckAborted
            },
            Some(FullOutputWrite::Create { initial }) => {
                self.stage = CaptureStage::Creating { initial };
                CaptureRequest::CreateFile
            },
            Some(FullOutputWrite::Append { text }) => match self.state.append_path() {
                Ok(path) => {
                    self.stage = CaptureStage::Appending;
                    CaptureRequest::Append { path, text }
                },
                Err(error) => CaptureRequest::Finish { result: Err(error) },
            },
        }
    }

    /// Starts with the output of a command that ended.
    pub fn start(
        state: CaptureState,
        result: Result<i32, ExecutionError>,
        return_execution_errors: bool,
    ) -> (r: (CaptureRun, CaptureRequest))
        ensures
            r.0.result == result,
            r.0.return_execution_errors == return_execution_errors,
            Self::goes_on(state@.settled(), r.0, r.1),
    {
        let mut state: CaptureState = state;
        state.settle();
        let mut run = CaptureRun {
            state,
            result,
            return_execution_errors,
            stage: CaptureStage::Done,
        };
        let request: CaptureRequest = run.advance();
        (run, request)
    }

    /// Takes the reply that is waited for, and says what is asked for next.
    pub fn next(&mut self, reply: CaptureReply) -> (r: CaptureRequest)
        requires
            old(self).expects(reply),
        ensures
            old(self).leads_to(reply, *final(self), r),
    {
        let mut stage: CaptureStage = CaptureStage::Done;
        std::mem::swap(&mut stage, &mut self.stage);
        match (stage, reply) {
            (CaptureStage::Creating { initial }, CaptureReply::Created(Ok(file))) => {
                self.state.file_created(file.clone());
                self.stage = CaptureStage::Appending;
                CaptureRequest::Append { path: file, text: initial }
            },
            (CaptureStage::Creating { .. }, CaptureReply::Created(Err(error))) => {
                CaptureRequest::Finish { result: Err(to_execution_error(&error)) }
            },
            (CaptureStage::Appending, CaptureReply::Appended(Ok(_))) => self.advance(),
            (CaptureStage::Appending, CaptureReply::Appended(Err(error))) => {
                CaptureRequest::Finish { result: Err(to_execution_error(&error)) }
            },
            (CaptureStage::Checking, CaptureReply::Aborted(aborted)) => {
                let progress: ShellCaptureProgress = self.state.create_progress();
                let mut result: Result<i32, ExecutionError> = Ok(0);
                std::mem::swap(&mut result, &mut self.result);
                CaptureRequest::Finish {
                    result: capture_outcome(
                        result,
                        progress,
                        aborted,
                        self.return_execution_errors,
                    ),
                }
            },
            _ => CaptureRequest::CheckAborted,
        }
    }
}

/// The text that a request asks to append.
pub open spec fn appended(request: CaptureRequest) -> Seq<char> {
    match request {
        CaptureRequest::Append { text, .. } => text@,
        _ => Seq::empty(),
    }
}

proof fn lemma_first_written(writes: Seq<WriteView>)
    requires
        writes.len() > 0,
    ensures
        all_written(writes) == written(writes[0]) + all_written(writes.skip(1)),
    decreases writes.len(),
{
    if writes.len() == 1 {
        assert(writes.drop_last() =~= Seq::<WriteView>::empty());
        assert(writes.skip(1) =~= Seq::<WriteView>::empty());
        assert(all_written(writes) =~= written(writes[0]) + all_written(writes.skip(1)));
    } else {
        lemma_first_written(writes.drop_last());
        assert(writes.drop_last().skip(1) =~= writes.skip(1).drop_last());
        assert(all_written(writes) =~= written(writes[0]) + all_written(writes.skip(1)));
    }
}

proof fn lemma_goes_on(before: CaptureView, next: CaptureRun, request: CaptureRequest)
    requires
        CaptureRun::goes_on(before, next, request),
        !(next.stage is Done),
    ensures
        all_written(before.pending_writes) == appended(request) + next.unsaved(),
{
    if before.pending_writes.len() > 0 {
        lemma_first_written(before.pending_writes);
    }
    assert(all_written(before.pending_writes) =~= appended(request) + next.unsaved());
}

/// A saved output is whole: what is still to be saved is what is appended next
/// and what is still to be saved then, and where the outcome is told nothing is
/// left.
pub proof fn law_saved_outputs_are_whole(
    run: CaptureRun,
    reply: CaptureReply,
    next: CaptureRun,
    request: CaptureRequest,
)
    requires
        run.leads_to(reply, next, request),
    ensures
        !(next.stage is Done) ==> run.unsaved() == appended(request) + next.unsaved(),
        next.stage is Checking ==> next.unsaved().len() == 0,
{
    if !(next.stage is Done) {
        match run.stage {
            CaptureStage::Appending => {
                lemma_goes_on(run.state@, next, request);
            },
            _ => {},
        }
        assert(run.unsaved() =~= appended(request) + next.unsaved());
    }
}

} // verus!

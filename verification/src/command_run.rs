//! Running a command: what is asked of the system, in which order, and what the
//! command comes to.

use vstd::prelude::*;

use crate::execution_env::{
    check_not_aborted, comes_to, command_outcome, decoded_chunks, missing_directory_error,
    plan_spawn, valid_length, CommandEnd, CommandEndView, CommandTransport,
    IncrementalUtf8Decoder, ShellConfig, SpawnPlan,
};
use crate::harness_types::{ExecutionError, ExecutionErrorCode, ShellExecResult};
use crate::text::{concat2, text_of_option, texts};

verus! {

/// The streams that a command prints to.
#[derive(Clone, Copy, PartialEq, Eq, Structural, Debug)]
pub enum OutputStream {
    Stdout,
    Stderr,
}

/// What came in on a stream.
pub struct StreamText {
    pub decoder: IncrementalUtf8Decoder,
    pub text: String,
    /// Whether a listener refused what came in; nothing more is read then.
    pub refused: bool,
}

/// The mathematical value of a [`StreamText`].
pub struct StreamView {
    pub held: Seq<u8>,
    pub text: Seq<char>,
    pub refused: bool,
}

impl View for StreamText {
    type V = StreamView;

    open spec fn view(&self) -> StreamView {
        StreamView { held: self.decoder.buffer@, text: self.text@, refused: self.refused }
    }
}

impl StreamView {
    /// Whether a stream holds what chunks decode to.
    pub open spec fn holds(self, chunks: Seq<Seq<u8>>) -> bool {
        (self.text, self.held) == decoded_chunks(chunks)
    }

    /// The characters that are complete with more bytes.
    pub open spec fn completed(self, bytes: Seq<u8>) -> Seq<char> {
        vstd::utf8::decode_utf8((self.held + bytes).take(valid_length(self.held + bytes)))
    }

    /// A stream after more bytes.
    pub open spec fn after(self, bytes: Seq<u8>) -> StreamView {
        StreamView {
            held: (self.held + bytes).skip(valid_length(self.held + bytes)),
            text: self.text + self.completed(bytes),
            refused: self.refused,
        }
    }
}

impl StreamText {
    fn new() -> (r: Self)
        ensures
            r@ == (StreamView { held: Seq::empty(), text: Seq::empty(), refused: false }),
    {
        let r = StreamText {
            decoder: IncrementalUtf8Decoder::new(),
            text: String::new(),
            refused: false,
        };
        proof {
            assert(r@.held =~= Seq::<u8>::empty());
            assert(r@.text =~= Seq::<char>::empty());
        }
        r
    }

    fn push(&mut self, bytes: &Vec<u8>) -> (r: String)
        ensures
            r@ == old(self)@.completed(bytes@),
            final(self)@ == old(self)@.after(bytes@),
    {
        let chunk: String = self.decoder.push(bytes.as_slice());
        self.text = concat2(self.text.as_str(), chunk.as_str());
        chunk
    }
}

fn copy_pairs(pairs: &Vec<(String, String)>) -> (r: Vec<(String, String)>)
    ensures
        r@ == pairs@,
{
    let mut copy: Vec<(String, String)> = Vec::new();
    let mut i: usize = 0;
    while i < pairs.len()
        invariant
            i <= pairs@.len(),
            copy@ == pairs@.take(i as int),
        decreases pairs@.len() - i,
    {
        copy.push((pairs[i].0.clone(), pairs[i].1.clone()));
        i = i + 1;
        proof {
            assert(copy@ =~= pairs@.take(i as int));
        }
    }
    proof {
        assert(pairs@.take(i as int) =~= pairs@);
    }
    copy
}

/// How far a command has come.
pub enum CommandStage {
    FindingShell,
    FindingDirectory { config: ShellConfig },
    Spawning,
    Running,
    Delivering { stream: OutputStream },
    Done,
}

/// A command that is run.
pub struct CommandRun {
    pub command: String,
    pub directory: String,
    pub env: Vec<(String, String)>,
    /// The time that is allowed, as text.
    pub time_limit: Option<String>,
    pub stdout: StreamText,
    pub stderr: StreamText,
    /// Why a listener refused output, if one did.
    pub refusal: Option<String>,
    pub timed_out: bool,
    /// Whether the time and the abort signal are watched.
    pub watched: bool,
    pub stage: CommandStage,
}

/// What a command asks for next.
pub enum CommandRequest {
    FindShell,
    FindDirectory { path: String },
    Spawn { plan: SpawnPlan, directory: String, env: Vec<(String, String)> },
    Deliver { stream: OutputStream, text: String },
    Kill,
    Wait,
    Finish { result: Result<ShellExecResult, ExecutionError> },
}

/// What a command is told.
pub enum CommandReply {
    Shell(Result<ShellConfig, ExecutionError>),
    Directory(bool),
    Spawned(Result<(), String>),
    Output { stream: OutputStream, bytes: Vec<u8> },
    Delivered(Result<(), String>),
    TimeUp,
    CalledOff,
    Exited { status: Result<Option<i32>, String>, aborted: bool },
}

/// Whether a command ended with an error.
pub open spec fn fails_with(
    next: CommandRun,
    request: CommandRequest,
    code: ExecutionErrorCode,
    message: Seq<char>,
) -> bool {
    &&& next.stage is Done
    &&& request matches CommandRequest::Finish { result: Err(e) } && e.code == code && e.message@
        == message
}

impl CommandRun {
    /// What came in on one of the streams.
    pub open spec fn stream(self, stream: OutputStream) -> StreamView {
        match stream {
            OutputStream::Stdout => self.stdout@,
            OutputStream::Stderr => self.stderr@,
        }
    }

    /// Whether a reply is one that the command waits for.
    pub open spec fn expects(self, reply: CommandReply) -> bool {
        match self.stage {
            CommandStage::FindingShell => reply is Shell,
            CommandStage::FindingDirectory { .. } => reply is Directory,
            CommandStage::Spawning => reply is Spawned,
            CommandStage::Running => match reply {
                CommandReply::Output { stream, .. } => !self.stream(stream).refused,
                CommandReply::TimeUp => self.watched && self.time_limit is Some,
                CommandReply::CalledOff => self.watched,
                CommandReply::Exited { .. } => true,
                _ => false,
            },
            CommandStage::Delivering { .. } => reply is Delivered,
            CommandStage::Done => false,
        }
    }

    /// What was asked for stays as it is.
    pub open spec fn same_command(self, other: CommandRun) -> bool {
        &&& self.command == other.command
        &&& self.directory == other.directory
        &&& self.env == other.env
        &&& self.time_limit == other.time_limit
    }

    /// What came in stays as it is.
    pub open spec fn same_output(self, other: CommandRun) -> bool {
        &&& self.stdout@ == other.stdout@
        &&& self.stderr@ == other.stderr@
        &&& self.refusal == other.refusal
        &&& self.timed_out == other.timed_out
        &&& self.watched == other.watched
    }

    /// What the command comes to when it exits.
    pub open spec fn end(self, status: Result<Option<i32>, String>, aborted: bool) -> CommandEndView {
        CommandEndView {
            callback_error: text_of_option(self.refusal),
            timed_out: if self.timed_out {
                text_of_option(self.time_limit)
            } else {
                None
            },
            aborted,
            status: match status {
                Ok(code) => Ok(code),
                Err(message) => Err(message@),
            },
            stdout: self.stdout@.text,
            stderr: self.stderr@.text,
        }
    }

    /// Whether what is to be spawned is the command in its directory with its
    /// environment.
    pub open spec fn spawns(self, config: ShellConfig, request: CommandRequest) -> bool {
        &&& request matches CommandRequest::Spawn { plan, directory, env }
        &&& plan.program@ == config.shell@
        &&& directory@ == self.directory@
        &&& env@ == self.env@
        &&& if config.command_transport == Some(CommandTransport::Stdin) {
            texts(plan.args@) == texts(config.args@) && text_of_option(plan.input) == Some(
                self.command@,
            )
        } else {
            texts(plan.args@) == texts(config.args@).push(self.command@) && plan.input is None
        }
    }

    /// What a reply leads to.
    pub open spec fn leads_to(
        self,
        reply: CommandReply,
        next: CommandRun,
        request: CommandRequest,
    ) -> bool {
        &&& next.same_command(self)
        &&& match (self.stage, reply) {
            (CommandStage::FindingShell, CommandReply::Shell(Ok(config))) => {
                &&& next.same_output(self)
                &&& next.stage == (CommandStage::FindingDirectory { config })
                &&& request matches CommandRequest::FindDirectory { path } && path@
                    == self.directory@
            },
            (CommandStage::FindingShell, CommandReply::Shell(Err(error))) => fails_with(
                next,
                request,
                error.code,
                error.message@,
            ),
            (CommandStage::FindingDirectory { config }, CommandReply::Directory(true)) => {
                &&& next.same_output(self)
                &&& next.stage is Spawning
                &&& self.spawns(config, request)
            },
            (CommandStage::FindingDirectory { .. }, CommandReply::Directory(false)) => fails_with(
                next,
                request,
                ExecutionErrorCode::SpawnError,
                "Working directory does not exist: "@ + self.directory@
                    + "\nCannot execute bash commands."@,
            ),
            (CommandStage::Spawning, CommandReply::Spawned(Ok(_))) => {
                &&& next.same_output(self)
                &&& next.stage is Running
                &&& request is Wait
            },
            (CommandStage::Spawning, CommandReply::Spawned(Err(message))) => fails_with(
                next,
                request,
                ExecutionErrorCode::SpawnError,
                message@,
            ),
            (CommandStage::Running, CommandReply::Output { stream, bytes }) => {
                &&& next.stream(stream) == self.stream(stream).after(bytes@)
                &&& forall|other: OutputStream| other != stream ==> #[trigger] next.stream(other)
                    == self.stream(other)
                &&& next.refusal == self.refusal
                &&& next.timed_out == self.timed_out
                &&& next.watched == self.watched
                &&& next.stage == (CommandStage::Delivering { stream })
                &&& request matches CommandRequest::Deliver { stream: to, text } && to == stream
                    && text@ == self.stream(stream).completed(bytes@)
            },
            (CommandStage::Delivering { .. }, CommandReply::Delivered(Ok(_))) => {
                &&& next.same_output(self)
                &&& next.stage is Running
                &&& request is Wait
            },
            (CommandStage::Delivering { stream }, CommandReply::Delivered(Err(message))) => {
                &&& next.stream(stream) == (StreamView { refused: true, ..self.stream(stream) })
                &&& forall|other: OutputStream| other != stream ==> #[trigger] next.stream(other)
                    == self.stream(other)
                &&& next.refusal == Some(message)
                &&& next.timed_out == self.timed_out
                &&& next.watched == self.watched
                &&& next.stage is Running
                &&& request is Kill
            },
            (CommandStage::Running, CommandReply::TimeUp) => {
                &&& next.stdout@ == self.stdout@
                &&& next.stderr@ == self.stderr@
                &&& next.refusal == self.refusal
                &&& next.timed_out
                &&& !next.watched
                &&& next.stage is Running
                &&& request is Kill
            },
            (CommandStage::Running, CommandReply::CalledOff) => {
                &&& next.stdout@ == self.stdout@
                &&& next.stderr@ == self.stderr@
                &&& next.refusal == self.refusal
                &&& next.timed_out == self.timed_out
                &&& !next.watched
                &&& next.stage is Running
                &&& request is Kill
            },
            (CommandStage::Running, CommandReply::Exited { status, aborted }) => {
                &&& next.stage is Done
                &&& request matches CommandRequest::Finish { result } && comes_to(
                    self.end(status, aborted),
                    result,
                )
            },
            _ => false,
        }
    }

    /// Starts a command. `time_limit` is the time that is allowed, as text, or
    /// what is wrong with it.
    pub fn start(
        command: String,
        directory: String,
        env: Vec<(String, String)>,
        time_limit: Result<Option<String>, String>,
        aborted: bool,
    ) -> (r: (CommandRun, CommandRequest))
        ensures
            r.0.command == command,
            r.0.directory == directory,
            r.0.env == env,
            r.0.stdout@.holds(Seq::empty()) && !r.0.stdout@.refused,
            r.0.stderr@.holds(Seq::empty()) && !r.0.stderr@.refused,
            r.0.refusal is None && !r.0.timed_out && r.0.watched,
            if aborted {
                fails_with(r.0, r.1, ExecutionErrorCode::Aborted, "aborted"@)
            } else {
                match time_limit {
                    Err(problem) => fails_with(
                        r.0,
                        r.1,
                        ExecutionErrorCode::Timeout,
                        problem@,
                    ),
                    Ok(limit) => r.0.time_limit == limit && r.0.stage is FindingShell && r.1
                        is FindShell,
                }
            },
    {
        let mut run = CommandRun {
            command,
            directory,
            env,
            time_limit: None,
            stdout: StreamText::new(),
            stderr: StreamText::new(),
            refusal: None,
            timed_out: false,
            watched: true,
            stage: CommandStage::Done,
        };
        if let Err(error) = check_not_aborted(aborted) {
            return (run, CommandRequest::Finish { result: Err(error) });
        }
        match time_limit {
            Err(problem) => {
                let error = ExecutionError::new(ExecutionErrorCode::Timeout, problem);
                (run, CommandRequest::Finish { result: Err(error) })
            },
            Ok(limit) => {
                run.time_limit = limit;
                run.stage = CommandStage::FindingShell;
                (run, CommandRequest::FindShell)
            },
        }
    }

    fn take_output(&mut self, stream: OutputStream, bytes: Vec<u8>) -> (r: CommandRequest)
        requires
            old(self).stage is Done,
        ensures
            (CommandRun { stage: CommandStage::Running, ..*old(self) }).leads_to(
                CommandReply::Output { stream, bytes },
                *final(self),
                r,
            ),
    {
        let text: String = match stream {
            OutputStream::Stdout => self.stdout.push(&bytes),
            OutputStream::Stderr => self.stderr.push(&bytes),
        };
        self.stage = CommandStage::Delivering { stream };
        CommandRequest::Deliver { stream, text }
    }

    /// Takes a reply that the command waits for, and says what it asks for next.
    pub fn next(&mut self, reply: CommandReply) -> (r: CommandRequest)
        requires
            old(self).expects(reply),
        ensures
            old(self).leads_to(reply, *final(self), r),
    {
        let mut stage: CommandStage = CommandStage::Done;
        std::mem::swap(&mut stage, &mut self.stage);
        match (stage, reply) {
            (CommandStage::FindingShell, CommandReply::Shell(Ok(config))) => {
                self.stage = CommandStage::FindingDirectory { config };
                CommandRequest::FindDirectory { path: self.directory.clone() }
            },
            (CommandStage::FindingShell, CommandReply::Shell(Err(error))) => {
                CommandRequest::Finish { result: Err(error) }
            },
            (CommandStage::FindingDirectory { config }, CommandReply::Directory(exists)) => {
                if !exists {
                    let error: ExecutionError = missing_directory_error(self.directory.as_str());
                    return CommandRequest::Finish { result: Err(error) };
                }
                let plan: SpawnPlan = plan_spawn(&config, self.command.as_str());
                self.stage = CommandStage::Spawning;
                CommandRequest::Spawn {
                    plan,
                    directory: self.directory.clone(),
                    env: copy_pairs(&self.env),
                }
            },
            (CommandStage::Spawning, CommandReply::Spawned(Ok(_))) => {
                self.stage = CommandStage::Running;
                CommandRequest::Wait
            },
            (CommandStage::Spawning, CommandReply::Spawned(Err(message))) => {
                let error = ExecutionError::new(ExecutionErrorCode::SpawnError, message);
                CommandRequest::Finish { result: Err(error) }
            },
            (CommandStage::Running, CommandReply::Output { stream, bytes }) => {
                self.take_output(stream, bytes)
            },
            (CommandStage::Delivering { .. }, CommandReply::Delivered(Ok(_))) => {
                self.stage = CommandStage::Running;
                CommandRequest::Wait
            },
            (CommandStage::Delivering { stream }, CommandReply::Delivered(Err(message))) => {
                match stream {
                    OutputStream::Stdout => {
                        self.stdout.refused = true;
                    },
                    OutputStream::Stderr => {
                        self.stderr.refused = true;
                    },
                }
                self.refusal = Some(message);
                self.stage = CommandStage::Running;
                CommandRequest::Kill
            },
            (CommandStage::Running, CommandReply::TimeUp) => {
                self.timed_out = true;
                self.watched = false;
                self.stage = CommandStage::Running;
                CommandRequest::Kill
            },
            (CommandStage::Running, CommandReply::CalledOff) => {
                self.watched = false;
                self.stage = CommandStage::Running;
                CommandRequest::Kill
            },
            (CommandStage::Running, CommandReply::Exited { status, aborted }) => {
                let timed_out: Option<String> = if self.timed_out {
                    self.time_limit.clone()
                } else {
                    None
                };
                let end = CommandEnd {
                    callback_error: self.refusal.clone(),
                    timed_out,
                    aborted,
                    status,
                    stdout: self.stdout.text.clone(),
                    stderr: self.stderr.text.clone(),
                };
                CommandRequest::Finish { result: command_outcome(end) }
            },
            _ => CommandRequest::Wait,
        }
    }
}

/// The chunks of a stream after a reply.
pub open spec fn chunks_after(
    chunks: Seq<Seq<u8>>,
    stream: OutputStream,
    reply: CommandReply,
) -> Seq<Seq<u8>> {
    match reply {
        CommandReply::Output { stream: from, bytes } => if from == stream {
            chunks.push(bytes@)
        } else {
            chunks
        },
        _ => chunks,
    }
}

/// However the output of a command comes in, each of its streams holds what its
/// chunks decode to, and a command that succeeds reports just that.
pub proof fn law_commands_report_their_output(
    run: CommandRun,
    reply: CommandReply,
    next: CommandRun,
    request: CommandRequest,
    out: Seq<Seq<u8>>,
    err: Seq<Seq<u8>>,
)
    requires
        run.leads_to(reply, next, request),
        run.stdout@.holds(out),
        run.stderr@.holds(err),
    ensures
        !(next.stage is Done) ==> next.stdout@.holds(
            chunks_after(out, OutputStream::Stdout, reply),
        ),
        !(next.stage is Done) ==> next.stderr@.holds(
            chunks_after(err, OutputStream::Stderr, reply),
        ),
        request matches CommandRequest::Finish { result: Ok(found) } ==> found.stdout@
            == decoded_chunks(out).0 && found.stderr@ == decoded_chunks(err).0,
{
    assert(next.stream(OutputStream::Stdout) == next.stdout@);
    assert(next.stream(OutputStream::Stderr) == next.stderr@);
    match reply {
        CommandReply::Output { stream, bytes } => {
            assert(out.push(bytes@).drop_last() =~= out);
            assert(err.push(bytes@).drop_last() =~= err);
        },
        _ => {},
    }
}

/// A command whose output was refused, or that ran out of time, does not
/// succeed.
pub proof fn law_stopped_commands_fail(
    run: CommandRun,
    reply: CommandReply,
    next: CommandRun,
    request: CommandRequest,
)
    requires
        run.leads_to(reply, next, request),
        run.refusal is Some || (run.timed_out && run.time_limit is Some),
    ensures
        !(next.stage is Done) ==> next.refusal is Some || (next.timed_out && next.time_limit
            is Some),
        request matches CommandRequest::Finish { result } ==> result is Err,
{
}

} // verus!

//! The bash tool: a command, its output, and how it ended.

use vstd::prelude::*;

use crate::harness_types::{execution_error_name, ExecutionError, ExecutionErrorCode};
use crate::json::{
    member_views, push_member, text_value, texts_value, texts_view, Json, JsonView,
};
use crate::text::{
    concat2, concat3, concat4, concat5, decimal, decimal_text, signed_decimal, signed_decimal_text,
    text_of_option, texts,
};
use crate::tools::read::{truncation_json, truncation_value};
use crate::tools::result::{
    define_tool, empty_result, object_schema, object_schema_view, property, property_view,
    result_of, text_result, text_result_view, tool_outcome, AgentToolResult, ToolDefinition,
    ToolResultView,
};
use crate::utils::shell_output::{ProgressView, ShellCaptureResult};
use crate::utils::truncate::{
    format_size, size_text, TruncatedBy, TruncationResult, DEFAULT_MAX_BYTES,
};

verus! {

/// What the model is told of the tool.
pub const BASH_DESCRIPTION: &'static str = "Execute a bash command in the current working directory. Returns stdout and stderr. Output is truncated to last 2000 lines or 50KB (whichever is hit first). If truncated, full output is saved to a temp file. Optionally provide a timeout in seconds.";

/// How many milliseconds lie between two updates on a running command at least.
/// The tool tells one update before a command and one after it, so it holds none
/// back.
pub const BASH_UPDATE_THROTTLE_MS: u64 = 100;

/// What the command of an input is.
pub const COMMAND_TEXT: &'static str = "Bash command to execute";

/// What the time limit of an input is.
pub const TIMEOUT_TEXT: &'static str = "Timeout in seconds (optional, no default timeout)";

/// The schema of the tool's input.
pub open spec fn bash_schema_view() -> JsonView {
    object_schema_view(
        texts_view(seq!["command"@]),
        JsonView::Object(
            seq![
                ("command"@, property_view("string"@, COMMAND_TEXT@)),
                ("timeout"@, property_view("number"@, TIMEOUT_TEXT@)),
            ],
        ),
    )
}

/// The schema of the tool's input.
pub fn bash_schema() -> (r: Json)
    ensures
        r@ == bash_schema_view(),
{
    let mut properties: Vec<(String, Json)> = Vec::new();
    push_member(&mut properties, "command", property("string", COMMAND_TEXT));
    push_member(&mut properties, "timeout", property("number", TIMEOUT_TEXT));
    proof {
        assert(member_views(properties@) =~= seq![
            ("command"@, property_view("string"@, COMMAND_TEXT@)),
            ("timeout"@, property_view("number"@, TIMEOUT_TEXT@)),
        ]);
    }
    let mut names: Vec<String> = Vec::new();
    names.push("command".to_string());
    proof {
        assert(texts(names@) =~= seq!["command"@]);
    }
    object_schema(texts_value(&names), Json::Object(properties))
}

/// What a command left out of its answer.
pub struct BashToolDetails {
    pub truncation: Option<TruncationResult>,
    pub full_output_path: Option<String>,
}

/// A command as it is run.
pub struct BashExecution {
    pub command: String,
    pub cwd: String,
    pub env: Vec<(String, String)>,
    pub inherit_env: bool,
}

/// The command to run: with a prefix in a line of its own.
pub open spec fn prefixed(prefix: Option<Seq<char>>, command: Seq<char>) -> Seq<char> {
    match prefix {
        Some(p) => p + "\n"@ + command,
        None => command,
    }
}

/// The command of a call as it is run: in the current directory and with the
/// inherited environment.
pub fn plan_execution(prefix: &Option<String>, params: &Json, cwd: String) -> (r: BashExecution)
    ensures
        r.command@ == prefixed(text_of_option(*prefix), params@.text_field("command"@)),
        r.cwd == cwd,
        r.env@.len() == 0,
        r.inherit_env,
{
    let command: String = params.text_field("command");
    let command: String = match prefix {
        Some(p) => concat3(p.as_str(), "\n", command.as_str()),
        None => command,
    };
    BashExecution { command, cwd, env: Vec::new(), inherit_env: true }
}

/// The path of the file that holds the whole output.
pub open spec fn path_shown(path: Option<Seq<char>>) -> Seq<char> {
    match path {
        Some(p) => p,
        None => "unknown"@,
    }
}

/// The path of the file as a value.
pub open spec fn path_value(path: Option<Seq<char>>) -> JsonView {
    match path {
        Some(p) => JsonView::Text(p),
        None => JsonView::Null,
    }
}

/// The details of an output: how it was truncated, where it was.
pub open spec fn bash_details(captured: ProgressView) -> JsonView {
    if captured.truncation.truncated {
        JsonView::Object(
            seq![
                ("truncation"@, truncation_value(captured.truncation)),
                ("fullOutputPath"@, path_value(captured.full_output_path)),
            ],
        )
    } else {
        JsonView::Null
    }
}

/// What is said of an output that was truncated.
pub open spec fn truncation_note(captured: ProgressView) -> Seq<char> {
    let t = captured.truncation;
    let first = decimal((t.total_lines - t.output_lines + 1) as nat);
    let total = decimal(t.total_lines);
    let full = ". Full output: "@ + path_shown(captured.full_output_path) + "]"@;
    if !t.truncated {
        Seq::empty()
    } else if t.last_line_partial {
        "\n\n[Showing last "@ + size_text(t.output_bytes) + " of line "@ + total + " (line is "@
            + size_text(captured.last_line_bytes) + ")"@ + full
    } else if t.truncated_by == Some(TruncatedBy::Lines) {
        "\n\n[Showing lines "@ + first + "-"@ + total + " of "@ + total + full
    } else {
        "\n\n[Showing lines "@ + first + "-"@ + total + " of "@ + total + " ("@ + size_text(
            DEFAULT_MAX_BYTES as nat,
        ) + " limit)"@ + full
    }
}

/// The output with a note on how the command ended.
pub open spec fn with_status(output: Seq<char>, status: Seq<char>) -> Seq<char> {
    if output.len() == 0 {
        status
    } else {
        output + "\n\n"@ + status
    }
}

/// What the tool answers.
pub open spec fn bash_outcome(capture: ShellCaptureResult, timeout: Seq<char>) -> Result<
    ToolResultView,
    Seq<char>,
> {
    let captured = capture.captured();
    let output = captured.output + truncation_note(captured);
    if capture.cancelled {
        Err(with_status(output, "Command aborted"@))
    } else if capture.execution_error is Some {
        let error = capture.execution_error->0;
        if error.code == ExecutionErrorCode::Timeout {
            Err(with_status(output, "Command timed out after "@ + timeout + " seconds"@))
        } else {
            Err(execution_error_name(error.code) + ": "@ + error.message@)
        }
    } else if capture.exit_code is Some && capture.exit_code->0 != 0 {
        Err(
            with_status(
                output,
                "Command exited with code "@ + signed_decimal(capture.exit_code->0 as int),
            ),
        )
    } else {
        Ok(
            text_result_view(
                if output.len() == 0 {
                    "(no output)"@
                } else {
                    output
                },
                bash_details(captured),
            ),
        )
    }
}

fn details_json(capture: &ShellCaptureResult) -> (r: Json)
    ensures
        r@ == bash_details(capture.captured()),
{
    if !capture.truncation.truncated {
        return Json::Null;
    }
    let path: Json = match &capture.full_output_path {
        Some(p) => text_value(p.as_str()),
        None => Json::Null,
    };
    let ghost path_view = path@;
    let mut members: Vec<(String, Json)> = Vec::new();
    push_member(&mut members, "truncation", truncation_json(&capture.truncation));
    push_member(&mut members, "fullOutputPath", path);
    proof {
        assert(path_view == path_value(capture.captured().full_output_path));
        assert(member_views(members@) =~= seq![
            ("truncation"@, truncation_value(capture.truncation@)),
            ("fullOutputPath"@, path_view),
        ]);
    }
    Json::Object(members)
}

fn note_of(capture: &ShellCaptureResult) -> (r: String)
    requires
        capture.truncation.truncated ==> capture.truncation.output_lines
            <= capture.truncation.total_lines,
    ensures
        r@ == truncation_note(capture.captured()),
{
    let t: &TruncationResult = &capture.truncation;
    if !t.truncated {
        let none: String = String::new();
        proof {
            assert(none@ =~= Seq::<char>::empty());
        }
        return none;
    }
    let shown_path: String = match &capture.full_output_path {
        Some(p) => p.clone(),
        None => "unknown".to_string(),
    };
    let full: String = concat3(". Full output: ", shown_path.as_str(), "]");
    let total: String = decimal_text(t.total_lines as u64);
    let first: String = crate::text::wide_decimal_text(
        (t.total_lines - t.output_lines) as u128 + 1,
    );
    if t.last_line_partial {
        let front: String = concat5(
            "\n\n[Showing last ",
            format_size(t.output_bytes as u64).as_str(),
            " of line ",
            total.as_str(),
            " (line is ",
        );
        return concat4(
            front.as_str(),
            format_size(capture.last_line_bytes as u64).as_str(),
            ")",
            full.as_str(),
        );
    }
    let front: String = concat5(
        "\n\n[Showing lines ",
        first.as_str(),
        "-",
        total.as_str(),
        " of ",
    );
    let range: String = concat2(front.as_str(), total.as_str());
    if t.truncated_by == Some(TruncatedBy::Lines) {
        return concat2(range.as_str(), full.as_str());
    }
    concat5(
        range.as_str(),
        " (",
        format_size(DEFAULT_MAX_BYTES as u64).as_str(),
        " limit)",
        full.as_str(),
    )
}

fn append_status(output: &str, status: &str) -> (r: String)
    ensures
        r@ == with_status(output@, status@),
{
    if output.unicode_len() == 0 {
        status.to_string()
    } else {
        concat3(output, "\n\n", status)
    }
}

/// What the tool answers for a command that ended. `timeout` is the time limit
/// in seconds, as a text.
pub fn bash_result(capture: &ShellCaptureResult, timeout: &str) -> (r: Result<
    AgentToolResult,
    String,
>)
    requires
        capture.truncation.truncated ==> capture.truncation.output_lines
            <= capture.truncation.total_lines,
    ensures
        tool_outcome(r) == bash_outcome(*capture, timeout@),
{
    let note: String = note_of(capture);
    let output: String = concat2(capture.output.as_str(), note.as_str());
    if capture.cancelled {
        return Err(append_status(output.as_str(), "Command aborted"));
    }
    match &capture.execution_error {
        Some(error) => {
            if error.code == ExecutionErrorCode::Timeout {
                let status: String = concat3("Command timed out after ", timeout, " seconds");
                return Err(append_status(output.as_str(), status.as_str()));
            }
            return Err(error.display());
        },
        None => {},
    }
    match capture.exit_code {
        Some(code) => {
            if code != 0 {
                let status: String = concat2(
                    "Command exited with code ",
                    signed_decimal_text(code as i64).as_str(),
                );
                return Err(append_status(output.as_str(), status.as_str()));
            }
        },
        None => {},
    }
    let details: Json = details_json(capture);
    if output.as_str().unicode_len() == 0 {
        Ok(text_result("(no output)".to_string(), details))
    } else {
        Ok(text_result(output, details))
    }
}

/// What the tool tells when a command ended: its output and its details.
pub fn bash_update(capture: &ShellCaptureResult) -> (r: AgentToolResult)
    ensures
        r@ == text_result_view(capture.output@, bash_details(capture.captured())),
{
    text_result(capture.output.clone(), details_json(capture))
}

/// How far a call of the tool has come.
pub enum BashStage {
    Preparing,
    Opening { execution: BashExecution },
    Running,
    Closing { capture: ShellCaptureResult },
    Done,
}

/// One call of the tool.
pub struct BashRun {
    pub time_limit: String,
    pub stage: BashStage,
}

/// What is asked for next.
pub enum BashRequest {
    Prepare { execution: BashExecution },
    Report { update: AgentToolResult },
    Run { execution: BashExecution },
    Finish { result: Result<AgentToolResult, String> },
}

/// What is told.
pub enum BashReply {
    Prepared(BashExecution),
    Reported,
    Ran(Result<ShellCaptureResult, ExecutionError>),
}

impl BashRun {
    /// Whether a reply is the one that is waited for.
    pub open spec fn expects(self, reply: BashReply) -> bool {
        match (self.stage, reply) {
            (BashStage::Preparing, BashReply::Prepared(_)) => true,
            (BashStage::Opening { .. }, BashReply::Reported) => true,
            (BashStage::Running, BashReply::Ran(Ok(capture))) => capture.truncation.truncated
                ==> capture.truncation.output_lines <= capture.truncation.total_lines,
            (BashStage::Running, BashReply::Ran(Err(_))) => true,
            (BashStage::Closing { capture }, BashReply::Reported) => capture.truncation.truncated
                ==> capture.truncation.output_lines <= capture.truncation.total_lines,
            _ => false,
        }
    }

    /// What a reply leads to: an empty update, the command as it was prepared,
    /// an update with its output, and the answer.
    pub open spec fn leads_to(self, reply: BashReply, next: BashRun, request: BashRequest) -> bool {
        &&& next.time_limit == self.time_limit
        &&& match (self.stage, reply) {
            (BashStage::Preparing, BashReply::Prepared(execution)) => {
                &&& next.stage == (BashStage::Opening { execution })
                &&& request matches BashRequest::Report { update } && update@ == result_of(
                    Seq::empty(),
                    JsonView::Null,
                )
            },
            (BashStage::Opening { execution }, BashReply::Reported) => {
                &&& next.stage is Running
                &&& request == (BashRequest::Run { execution })
            },
            (BashStage::Running, BashReply::Ran(Ok(capture))) => {
                &&& next.stage == (BashStage::Closing { capture })
                &&& request matches BashRequest::Report { update } && update@ == text_result_view(
                    capture.output@,
                    bash_details(capture.captured()),
                )
            },
            (BashStage::Running, BashReply::Ran(Err(error))) => {
                &&& next.stage is Done
                &&& request matches BashRequest::Finish { result } && tool_outcome(result) == Err::<
                    ToolResultView,
                    Seq<char>,
                >(execution_error_name(error.code) + ": "@ + error.message@)
            },
            (BashStage::Closing { capture }, BashReply::Reported) => {
                &&& next.stage is Done
                &&& request matches BashRequest::Finish { result } && tool_outcome(result)
                    == bash_outcome(capture, self.time_limit@)
            },
            _ => false,
        }
    }

    /// Starts a call. `time_limit` is the time limit in seconds as a text, or
    /// what is wrong with it.
    pub fn start(
        prefix: &Option<String>,
        params: &Json,
        cwd: String,
        time_limit: Result<String, String>,
    ) -> (r: (BashRun, BashRequest))
        ensures
            match time_limit {
                Ok(limit) => {
                    &&& r.0.time_limit == limit
                    &&& r.0.stage is Preparing
                    &&& r.1 matches BashRequest::Prepare { execution } && {
                        &&& execution.command@ == prefixed(
                            text_of_option(*prefix),
                            params@.text_field("command"@),
                        )
                        &&& execution.cwd == cwd
                        &&& execution.env@.len() == 0
                        &&& execution.inherit_env
                    }
                },
                Err(problem) => {
                    &&& r.0.stage is Done
                    &&& r.1 == (BashRequest::Finish { result: Err(problem) })
                },
            },
    {
        match time_limit {
            Ok(limit) => {
                let execution: BashExecution = plan_execution(prefix, params, cwd);
                (
                    BashRun { time_limit: limit, stage: BashStage::Preparing },
                    BashRequest::Prepare { execution },
                )
            },
            Err(problem) => (
                BashRun { time_limit: String::new(), stage: BashStage::Done },
                BashRequest::Finish { result: Err(problem) },
            ),
        }
    }

    /// Takes the reply that is waited for, and says what is asked for next.
    pub fn next(&mut self, reply: BashReply) -> (r: BashRequest)
        requires
            old(self).expects(reply),
        ensures
            old(self).leads_to(reply, *final(self), r),
    {
        let mut stage: BashStage = BashStage::Done;
        std::mem::swap(&mut stage, &mut self.stage);
        match (stage, reply) {
            (BashStage::Preparing, BashReply::Prepared(execution)) => {
                self.stage = BashStage::Opening { execution };
                BashRequest::Report { update: empty_result() }
            },
            (BashStage::Opening { execution }, BashReply::Reported) => {
                self.stage = BashStage::Running;
                BashRequest::Run { execution }
            },
            (BashStage::Running, BashReply::Ran(Ok(capture))) => {
                let update: AgentToolResult = bash_update(&capture);
                self.stage = BashStage::Closing { capture };
                BashRequest::Report { update }
            },
            (BashStage::Running, BashReply::Ran(Err(error))) => {
                BashRequest::Finish { result: Err(error.display()) }
            },
            (BashStage::Closing { capture }, BashReply::Reported) => {
                BashRequest::Finish { result: bash_result(&capture, self.time_limit.as_str()) }
            },
            _ => BashRequest::Report { update: empty_result() },
        }
    }
}

/// A call succeeds only where its command ended on its own with the exit code
/// zero or none at all.
pub proof fn law_failed_commands_fail(
    run: BashRun,
    reply: BashReply,
    next: BashRun,
    request: BashRequest,
)
    requires
        run.leads_to(reply, next, request),
        request is Finish,
    ensures
        request->Finish_result is Ok ==> (run.stage matches BashStage::Closing { capture }
            && !capture.cancelled && capture.execution_error is None && (capture.exit_code is None
            || capture.exit_code == Some(0i32))),
        run.stage is Closing && request->Finish_result is Err ==> (run.stage matches
            BashStage::Closing { capture } && (capture.cancelled || capture.execution_error is Some
            || (capture.exit_code is Some && capture.exit_code->0 != 0))),
{
}

/// How the tool is presented to the model.
pub fn create_bash_tool() -> (r: ToolDefinition)
    ensures
        r.presents("bash"@, BASH_DESCRIPTION@, bash_schema_view()),
{
    define_tool("bash", BASH_DESCRIPTION, bash_schema())
}

} // verus!

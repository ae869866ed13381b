//! The write tool: a whole file at once.

use vstd::prelude::*;

use crate::harness_types::{file_error_text, FileError};
use crate::json::{member_views, push_member, texts_view, Json, JsonView};
use crate::text::{byte_len, concat4, decimal, decimal_text, utf8_len};
use crate::tools::edit::{two_names, OPERATION_ABORTED};
use crate::tools::path_utils::{normalize_tool_path, tool_path};
use crate::tools::result::{
    define_tool, object_schema, object_schema_view, property, property_view, text_result,
    text_result_view, tool_outcome, AgentToolResult, ToolDefinition, ToolResultView,
};

verus! {

/// What the model is told of the tool.
pub const WRITE_DESCRIPTION: &'static str = "Write content to a file. Creates the file if it doesn't exist, overwrites if it does. Automatically creates parent directories.";

/// What the path of an input is.
pub const PATH_TEXT: &'static str = "Path to the file to write (relative or absolute)";

/// What the content of an input is.
pub const CONTENT_TEXT: &'static str = "Content to write to the file";

/// The schema of the tool's input.
pub open spec fn write_schema_view() -> JsonView {
    object_schema_view(
        texts_view(seq!["path"@, "content"@]),
        JsonView::Object(
            seq![
                ("path"@, property_view("string"@, PATH_TEXT@)),
                ("content"@, property_view("string"@, CONTENT_TEXT@)),
            ],
        ),
    )
}

/// The schema of the tool's input.
pub fn write_schema() -> (r: Json)
    ensures
        r@ == write_schema_view(),
{
    let mut properties: Vec<(String, Json)> = Vec::new();
    push_member(&mut properties, "path", property("string", PATH_TEXT));
    push_member(&mut properties, "content", property("string", CONTENT_TEXT));
    proof {
        assert(member_views(properties@) =~= seq![
            ("path"@, property_view("string"@, PATH_TEXT@)),
            ("content"@, property_view("string"@, CONTENT_TEXT@)),
        ]);
    }
    object_schema(two_names("path", "content"), Json::Object(properties))
}

/// How far a call of the tool has come.
#[derive(Clone, Copy, PartialEq, Eq, Structural, Debug)]
pub enum WriteStage {
    Resolving,
    Locking,
    Entering,
    Writing,
    Reporting,
    Done,
}

/// A call of the tool.
pub struct WriteRun {
    pub path: String,
    pub content: String,
    pub absolute: String,
    pub stage: WriteStage,
}

/// What a call asks for next.
pub enum WriteRequest {
    Resolve { path: String },
    Lock { path: String },
    CheckAborted,
    Write { path: String, content: String },
    Finish { result: Result<AgentToolResult, String> },
}

/// What a call is told.
pub enum WriteReply {
    Path(Result<String, FileError>),
    Locked,
    Aborted(bool),
    Written(Result<(), FileError>),
}

/// What the tool reports after it wrote a file.
pub open spec fn write_report_view(path: Seq<char>, content: Seq<char>) -> ToolResultView {
    text_result_view(
        "Successfully wrote "@ + decimal(byte_len(content)) + " bytes to "@ + path,
        JsonView::Null,
    )
}

impl WriteRun {
    /// Whether a call ended with an error.
    pub open spec fn ends_with(self, request: WriteRequest, text: Seq<char>) -> bool {
        &&& self.stage is Done
        &&& request matches WriteRequest::Finish { result } && tool_outcome(result) == Err::<
            ToolResultView,
            Seq<char>,
        >(text)
    }

    /// Whether a reply is the one that the call waits for.
    pub open spec fn expects(self, reply: WriteReply) -> bool {
        match self.stage {
            WriteStage::Resolving => reply is Path,
            WriteStage::Locking => reply is Locked,
            WriteStage::Entering => reply is Aborted,
            WriteStage::Writing => reply is Written,
            WriteStage::Reporting => reply is Aborted,
            WriteStage::Done => false,
        }
    }

    /// What a reply leads to. An abort is looked for before and after the file is
    /// written.
    pub open spec fn leads_to(
        self,
        reply: WriteReply,
        next: WriteRun,
        request: WriteRequest,
    ) -> bool {
        &&& next.path == self.path
        &&& next.content == self.content
        &&& match (self.stage, reply) {
            (WriteStage::Resolving, WriteReply::Path(Ok(p))) => {
                &&& next.stage is Locking
                &&& next.absolute@ == p@
                &&& request matches WriteRequest::Lock { path } && path@ == p@
            },
            (WriteStage::Resolving, WriteReply::Path(Err(error))) => next.ends_with(
                request,
                file_error_text(error@),
            ),
            (WriteStage::Locking, WriteReply::Locked) => {
                &&& next.stage is Entering
                &&& next.absolute == self.absolute
                &&& request is CheckAborted
            },
            (_, WriteReply::Aborted(true)) => next.ends_with(request, OPERATION_ABORTED@),
            (WriteStage::Entering, WriteReply::Aborted(false)) => {
                &&& next.stage is Writing
                &&& next.absolute == self.absolute
                &&& request matches WriteRequest::Write { path, content } && path@
                    == self.absolute@ && content@ == self.content@
            },
            (WriteStage::Writing, WriteReply::Written(Err(error))) => next.ends_with(
                request,
                file_error_text(error@),
            ),
            (WriteStage::Writing, WriteReply::Written(Ok(_))) => {
                &&& next.stage is Reporting
                &&& request is CheckAborted
            },
            (WriteStage::Reporting, WriteReply::Aborted(false)) => {
                &&& next.stage is Done
                &&& request matches WriteRequest::Finish { result } && tool_outcome(result) == Ok::<
                    ToolResultView,
                    Seq<char>,
                >(write_report_view(self.path@, self.content@))
            },
            _ => false,
        }
    }

    /// Starts a call: its path is to be resolved.
    pub fn start(params: &Json) -> (r: (WriteRun, WriteRequest))
        ensures
            r.0.path@ == params@.text_field("path"@),
            r.0.content@ == params@.text_field("content"@),
            r.0.stage is Resolving,
            r.1 matches WriteRequest::Resolve { path } && path@ == tool_path(
                params@.text_field("path"@),
            ),
    {
        let path: String = params.text_field("path");
        let wanted: String = normalize_tool_path(path.as_str());
        (
            WriteRun {
                path,
                content: params.text_field("content"),
                absolute: String::new(),
                stage: WriteStage::Resolving,
            },
            WriteRequest::Resolve { path: wanted },
        )
    }

    /// Takes the reply that the call waits for, and says what it asks for next.
    pub fn next(&mut self, reply: WriteReply) -> (r: WriteRequest)
        requires
            old(self).expects(reply),
        ensures
            old(self).leads_to(reply, *final(self), r),
    {
        let stage: WriteStage = self.stage;
        self.stage = WriteStage::Done;
        match reply {
            WriteReply::Path(Ok(path)) => {
                self.absolute = path.clone();
                self.stage = WriteStage::Locking;
                WriteRequest::Lock { path }
            },
            WriteReply::Path(Err(error)) => WriteRequest::Finish { result: Err(error.display()) },
            WriteReply::Locked => {
                self.stage = WriteStage::Entering;
                WriteRequest::CheckAborted
            },
            WriteReply::Aborted(true) => WriteRequest::Finish {
                result: Err(OPERATION_ABORTED.to_string()),
            },
            WriteReply::Aborted(false) => {
                if stage == WriteStage::Entering {
                    self.stage = WriteStage::Writing;
                    WriteRequest::Write {
                        path: self.absolute.clone(),
                        content: self.content.clone(),
                    }
                } else {
                    let text: String = concat4(
                        "Successfully wrote ",
                        decimal_text(utf8_len(self.content.as_str()) as u64).as_str(),
                        " bytes to ",
                        self.path.as_str(),
                    );
                    WriteRequest::Finish { result: Ok(text_result(text, Json::Null)) }
                }
            },
            WriteReply::Written(Err(error)) => WriteRequest::Finish {
                result: Err(error.display()),
            },
            WriteReply::Written(Ok(_)) => {
                self.stage = WriteStage::Reporting;
                WriteRequest::CheckAborted
            },
        }
    }
}

/// How the tool is presented to the model.
pub fn create_write_tool() -> (r: ToolDefinition)
    ensures
        r.presents("write"@, WRITE_DESCRIPTION@, write_schema_view()),
{
    define_tool("write", WRITE_DESCRIPTION, write_schema())
}

} // verus!

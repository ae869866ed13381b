//! The read tool: text by lines, and images.

use vstd::prelude::*;

use crate::harness_types::{file_error_text, FileError};
use crate::json::{
    member_views, push_member, text_value, texts_value, texts_view, Json, JsonView,
};
use crate::text::{
    byte_len, concat2, concat3, concat4, concat5, decimal, decimal_text, join, join_texts,
    lossy_text, same_text, split, split_text, text_of_bytes, texts, utf8_len, wide_decimal_text,
};
use crate::tools::image::{
    base64_text, detect_supported_image_mime_type, encode_base64, image_type,
};
use crate::tools::path_utils::{
    choose_read_path, existing_path, nfd_form, normalize_tool_path, path_spellings,
    read_path_variants, tool_path,
};
use crate::tools::result::{
    define_tool, image_result, image_result_view, object_schema, object_schema_view, property,
    property_view, text_result, text_result_view, tool_outcome, AgentToolResult, ToolDefinition,
    ToolResultView,
};
use crate::utils::truncate::{
    format_size, head_view, size_text, truncate_head, TruncatedBy, TruncationOptions,
    TruncationResult, TruncationView, DEFAULT_MAX_BYTES, DEFAULT_MAX_LINES,
};

verus! {

/// What the model is told of the tool.
pub const READ_DESCRIPTION: &'static str = "Read the contents of a file. Supports text files and images (jpg, png, gif, webp, bmp). Images are sent as attachments. For text files, output is truncated to 2000 lines or 50KB (whichever is hit first). Use offset/limit for large files. When you need the full file, continue with offset until complete.";

/// What the path of an input is.
pub const PATH_TEXT: &'static str = "Path to the file to read (relative or absolute)";

/// What the offset of an input is.
pub const OFFSET_TEXT: &'static str = "Line number to start reading from (1-indexed)";

/// What the limit of an input is.
pub const LIMIT_TEXT: &'static str = "Maximum number of lines to read";

/// What is shown in place of a bitmap that nothing can convert.
pub const BITMAP_OMITTED: &'static str = "Read image file [image/bmp]\n[Image omitted: configure an imageProcessor to convert BMP images.]";

/// The schema of the tool's input.
pub open spec fn read_schema_view() -> JsonView {
    object_schema_view(
        texts_view(seq!["path"@]),
        JsonView::Object(
            seq![
                ("path"@, property_view("string"@, PATH_TEXT@)),
                ("offset"@, property_view("number"@, OFFSET_TEXT@)),
                ("limit"@, property_view("number"@, LIMIT_TEXT@)),
            ],
        ),
    )
}

/// The schema of the tool's input.
pub fn read_schema() -> (r: Json)
    ensures
        r@ == read_schema_view(),
{
    let mut properties: Vec<(String, Json)> = Vec::new();
    push_member(&mut properties, "path", property("string", PATH_TEXT));
    push_member(&mut properties, "offset", property("number", OFFSET_TEXT));
    push_member(&mut properties, "limit", property("number", LIMIT_TEXT));
    proof {
        assert(member_views(properties@) =~= seq![
            ("path"@, property_view("string"@, PATH_TEXT@)),
            ("offset"@, property_view("number"@, OFFSET_TEXT@)),
            ("limit"@, property_view("number"@, LIMIT_TEXT@)),
        ]);
    }
    let mut names: Vec<String> = Vec::new();
    names.push("path".to_string());
    proof {
        assert(texts(names@) =~= seq!["path"@]);
    }
    object_schema(texts_value(&names), Json::Object(properties))
}

// ---------------------------------------------------------------------------
// Details
// ---------------------------------------------------------------------------

/// The limit that was hit, as a value.
pub open spec fn limit_value(by: Option<TruncatedBy>) -> JsonView {
    match by {
        Some(TruncatedBy::Lines) => JsonView::Text("lines"@),
        Some(TruncatedBy::Bytes) => JsonView::Text("bytes"@),
        None => JsonView::Null,
    }
}

/// A truncation as a value.
pub open spec fn truncation_value(t: TruncationView) -> JsonView {
    JsonView::Object(
        seq![
            ("content"@, JsonView::Text(t.content)),
            ("truncated"@, JsonView::Bool(t.truncated)),
            ("truncatedBy"@, limit_value(t.truncated_by)),
            ("totalLines"@, JsonView::Unsigned(t.total_lines)),
            ("totalBytes"@, JsonView::Unsigned(t.total_bytes)),
            ("outputLines"@, JsonView::Unsigned(t.output_lines)),
            ("outputBytes"@, JsonView::Unsigned(t.output_bytes)),
            ("lastLinePartial"@, JsonView::Bool(t.last_line_partial)),
            ("firstLineExceedsLimit"@, JsonView::Bool(t.first_line_exceeds_limit)),
            ("maxLines"@, JsonView::Unsigned(t.max_lines)),
            ("maxBytes"@, JsonView::Unsigned(t.max_bytes)),
        ],
    )
}

/// A truncation as a value.
pub fn truncation_json(t: &TruncationResult) -> (r: Json)
    ensures
        r@ == truncation_value(t@),
{
    let by: Json = match t.truncated_by {
        Some(TruncatedBy::Lines) => text_value("lines"),
        Some(TruncatedBy::Bytes) => text_value("bytes"),
        None => Json::Null,
    };
    let ghost by_view = by@;
    let mut members: Vec<(String, Json)> = Vec::new();
    push_member(&mut members, "content", text_value(t.content.as_str()));
    push_member(&mut members, "truncated", Json::Bool(t.truncated));
    push_member(&mut members, "truncatedBy", by);
    push_member(&mut members, "totalLines", Json::Unsigned(t.total_lines as u64));
    push_member(&mut members, "totalBytes", Json::Unsigned(t.total_bytes as u64));
    push_member(&mut members, "outputLines", Json::Unsigned(t.output_lines as u64));
    push_member(&mut members, "outputBytes", Json::Unsigned(t.output_bytes as u64));
    push_member(&mut members, "lastLinePartial", Json::Bool(t.last_line_partial));
    push_member(
        &mut members,
        "firstLineExceedsLimit",
        Json::Bool(t.first_line_exceeds_limit),
    );
    push_member(&mut members, "maxLines", Json::Unsigned(t.max_lines as u64));
    push_member(&mut members, "maxBytes", Json::Unsigned(t.max_bytes as u64));
    proof {
        assert(by_view == limit_value(t@.truncated_by));
        assert(JsonView::Object(member_views(members@)) == truncation_value(t@)) by {
            assert(member_views(members@) =~= truncation_value(t@)->Object_0);
        }
    }
    Json::Object(members)
}

/// Details that hold a truncation.
pub open spec fn truncation_details(t: TruncationView) -> JsonView {
    JsonView::Object(seq![("truncation"@, truncation_value(t))])
}

fn truncation_details_json(t: &TruncationResult) -> (r: Json)
    ensures
        r@ == truncation_details(t@),
{
    let mut members: Vec<(String, Json)> = Vec::new();
    push_member(&mut members, "truncation", truncation_json(t));
    proof {
        assert(member_views(members@) =~= seq![("truncation"@, truncation_value(t@))]);
    }
    Json::Object(members)
}

// ---------------------------------------------------------------------------
// Text
// ---------------------------------------------------------------------------

/// The position of the first line to read: lines are asked for from one on.
pub open spec fn first_line(offset: Option<usize>) -> int {
    match offset {
        Some(n) => if n > 1 {
            n - 1
        } else {
            0
        },
        None => 0,
    }
}

/// The position after the last line to read. At least one line is read.
pub open spec fn line_after_last(start: int, limit: Option<usize>, total: int) -> int {
    match limit {
        Some(n) => {
            let wanted = start + if n > 1 {
                n as int
            } else {
                1
            };
            if wanted < total {
                wanted
            } else {
                total
            }
        },
        None => total,
    }
}

/// The text shown of a file, and its details.
pub open spec fn shown_text(
    path: Seq<char>,
    text: Seq<char>,
    start: int,
    end: int,
    limited: bool,
) -> ToolResultView {
    let lines = split(text, '\n');
    let total = lines.len();
    let t = head_view(
        join(lines.subrange(start, end), "\n"@),
        DEFAULT_MAX_LINES as nat,
        DEFAULT_MAX_BYTES as nat,
    );
    let first = (start + 1) as nat;
    let last = (start + t.output_lines) as nat;
    let range = "\n\n[Showing lines "@ + decimal(first) + "-"@ + decimal(last) + " of "@ + decimal(
        total,
    );
    let resume = ". Use offset="@ + decimal(last + 1) + " to continue.]"@;
    if t.first_line_exceeds_limit {
        text_result_view(
            "[Line "@ + decimal(first) + " is "@ + size_text(byte_len(lines[start]))
                + ", exceeds "@ + size_text(DEFAULT_MAX_BYTES as nat)
                + " limit. Use bash: sed -n '"@ + decimal(first) + "p' "@ + path
                + " | head -c "@ + decimal(DEFAULT_MAX_BYTES as nat) + "]"@,
            truncation_details(t),
        )
    } else if t.truncated && t.truncated_by == Some(TruncatedBy::Lines) {
        text_result_view(t.content + range + resume, truncation_details(t))
    } else if t.truncated {
        text_result_view(
            t.content + range + " ("@ + size_text(DEFAULT_MAX_BYTES as nat) + " limit)"@ + resume,
            truncation_details(t),
        )
    } else if limited && end < total {
        text_result_view(
            t.content + "\n\n["@ + decimal((total - end) as nat)
                + " more lines in file. Use offset="@ + decimal((end + 1) as nat)
                + " to continue.]"@,
            JsonView::Null,
        )
    } else {
        text_result_view(t.content, JsonView::Null)
    }
}

/// What the tool answers for a text file.
pub open spec fn text_outcome(
    path: Seq<char>,
    text: Seq<char>,
    offset: Option<usize>,
    limit: Option<usize>,
) -> Result<ToolResultView, Seq<char>> {
    let total = split(text, '\n').len();
    let start = first_line(offset);
    if start >= total {
        Err(
            "Offset "@ + decimal(
                match offset {
                    Some(n) => n as nat,
                    None => 0,
                },
            ) + " is beyond end of file ("@ + decimal(total) + " lines total)"@,
        )
    } else {
        Ok(
            shown_text(
                path,
                text,
                start,
                line_after_last(start, limit, total as int),
                limit is Some,
            ),
        )
    }
}

/// What the tool answers for a text file. `offset` and `limit` are whole
/// numbers; what was asked for is rounded down.
pub fn read_text(path: &str, text: &str, offset: Option<usize>, limit: Option<usize>) -> (r: Result<
    AgentToolResult,
    String,
>)
    ensures
        tool_outcome(r) == text_outcome(path@, text@, offset, limit),
{
    let lines: Vec<String> = split_text(text, '\n');
    let ghost views = split(text@, '\n');
    let total: usize = lines.len();
    proof {
        assert(total == views.len());
    }
    let asked: usize = match offset {
        Some(n) => n,
        None => 0,
    };
    let start: usize = if asked > 1 {
        asked - 1
    } else {
        0
    };
    if start >= total {
        let message: String = concat5(
            "Offset ",
            decimal_text(asked as u64).as_str(),
            " is beyond end of file (",
            decimal_text(total as u64).as_str(),
            " lines total)",
        );
        return Err(message);
    }
    let end: usize = match limit {
        Some(n) => {
            let wanted: usize = if n > 1 {
                n
            } else {
                1
            };
            if wanted < total - start {
                start + wanted
            } else {
                total
            }
        },
        None => total,
    };
    let chosen: &[String] = vstd::slice::slice_subrange(lines.as_slice(), start, end);
    proof {
        assert(texts(chosen@) =~= views.subrange(start as int, end as int));
        assert(views[start as int] == lines@[start as int]@);
        assert(end == line_after_last(start as int, limit, total as int));
    }
    let selected: String = join_texts(chosen, "\n");
    let t: TruncationResult = truncate_head(
        selected.as_str(),
        TruncationOptions { max_lines: None, max_bytes: None },
    );
    let first: String = wide_decimal_text(start as u128 + 1);
    let last: u128 = start as u128 + t.output_lines as u128;
    let size_limit: String = format_size(DEFAULT_MAX_BYTES as u64);
    if t.first_line_exceeds_limit {
        let head: String = concat5(
            "[Line ",
            first.as_str(),
            " is ",
            format_size(utf8_len(lines[start].as_str()) as u64).as_str(),
            ", exceeds ",
        );
        let middle: String = concat5(
            head.as_str(),
            size_limit.as_str(),
            " limit. Use bash: sed -n '",
            first.as_str(),
            "p' ",
        );
        let message: String = concat5(
            middle.as_str(),
            path,
            " | head -c ",
            decimal_text(DEFAULT_MAX_BYTES as u64).as_str(),
            "]",
        );
        let details: Json = truncation_details_json(&t);
        return Ok(text_result(message, details));
    }
    if t.truncated {
        let front: String = concat5(
            "\n\n[Showing lines ",
            first.as_str(),
            "-",
            wide_decimal_text(last).as_str(),
            " of ",
        );
        let range: String = concat2(front.as_str(), decimal_text(total as u64).as_str());
        let resume: String = concat3(
            ". Use offset=",
            wide_decimal_text(last + 1).as_str(),
            " to continue.]",
        );
        let details: Json = truncation_details_json(&t);
        if t.truncated_by == Some(TruncatedBy::Lines) {
            let message: String = concat3(t.content.as_str(), range.as_str(), resume.as_str());
            return Ok(text_result(message, details));
        }
        let shown: String = concat5(
            t.content.as_str(),
            range.as_str(),
            " (",
            size_limit.as_str(),
            " limit)",
        );
        let message: String = concat2(shown.as_str(), resume.as_str());
        return Ok(text_result(message, details));
    }
    if limit.is_some() && end < total {
        let shown: String = concat3(
            t.content.as_str(),
            "\n\n[",
            decimal_text((total - end) as u64).as_str(),
        );
        let message: String = concat4(
            shown.as_str(),
            " more lines in file. Use offset=",
            wide_decimal_text(end as u128 + 1).as_str(),
            " to continue.]",
        );
        return Ok(text_result(message, Json::Null));
    }
    Ok(text_result(t.content, Json::Null))
}

// ---------------------------------------------------------------------------
// Images
// ---------------------------------------------------------------------------

/// What a processor of images gave back.
pub enum ReadImageProcessorResult {
    Converted { data: String, mime_type: String, hints: Vec<String> },
    Failed(String),
}

/// What the tool answers for an image that a processor converted.
pub open spec fn processed_view(
    mime_type: Seq<char>,
    processed: ReadImageProcessorResult,
) -> ToolResultView {
    match processed {
        ReadImageProcessorResult::Failed(message) => text_result_view(
            "Read image file ["@ + mime_type + "]\n"@ + message@,
            JsonView::Null,
        ),
        ReadImageProcessorResult::Converted { data, mime_type: converted, hints } => image_result_view(
            "Read image file ["@ + converted@ + "]"@ + if hints@.len() > 0 {
                "\n"@ + join(texts(hints@), "\n"@)
            } else {
                Seq::empty()
            },
            data@,
            converted@,
        ),
    }
}

/// What the tool answers for an image that a processor converted.
pub fn processed_image(mime_type: &str, processed: ReadImageProcessorResult) -> (r:
    AgentToolResult)
    ensures
        r@ == processed_view(mime_type@, processed),
{
    match processed {
        ReadImageProcessorResult::Failed(message) => text_result(
            concat4("Read image file [", mime_type, "]\n", message.as_str()),
            Json::Null,
        ),
        ReadImageProcessorResult::Converted { data, mime_type: converted, hints } => {
            let hint_text: String = if hints.len() > 0 {
                concat2("\n", join_texts(hints.as_slice(), "\n").as_str())
            } else {
                String::new()
            };
            proof {
                if hints@.len() == 0 {
                    assert(hint_text@ =~= Seq::<char>::empty());
                }
            }
            let text: String = concat4(
                "Read image file [",
                converted.as_str(),
                "]",
                hint_text.as_str(),
            );
            image_result(text, data, converted)
        },
    }
}

/// What the tool answers for an image that no processor converts.
pub open spec fn image_view(mime_type: Seq<char>, bytes: Seq<u8>) -> ToolResultView {
    if mime_type == "image/bmp"@ {
        text_result_view(BITMAP_OMITTED@, JsonView::Null)
    } else {
        image_result_view(
            "Read image file ["@ + mime_type + "]"@,
            base64_text(bytes),
            mime_type,
        )
    }
}

/// What the tool answers for an image that no processor converts.
pub fn plain_image(mime_type: &str, bytes: &[u8]) -> (r: AgentToolResult)
    requires
        bytes@.len() <= isize::MAX / 4 * 3,
    ensures
        r@ == image_view(mime_type@, bytes@),
{
    if same_text(mime_type, "image/bmp") {
        text_result(BITMAP_OMITTED.to_string(), Json::Null)
    } else {
        let text: String = concat3("Read image file [", mime_type, "]");
        image_result(text, encode_base64(bytes), mime_type.to_string())
    }
}

// ---------------------------------------------------------------------------
// A call
// ---------------------------------------------------------------------------

/// How far a call of the tool has come.
pub enum ReadStage {
    Resolving,
    Probing { resolved: String, variants: Vec<String> },
    Reading,
    Processing { mime_type: String },
    Done,
}

/// A call of the tool. The numbers that were asked for are rounded down to whole
/// ones, not below zero.
pub struct ReadRun {
    pub path: String,
    pub offset: Option<usize>,
    pub limit: Option<usize>,
    pub has_processor: bool,
    pub stage: ReadStage,
}

/// What a call asks for next.
pub enum ReadRequest {
    Resolve { path: String },
    Probe { paths: Vec<String> },
    Read { path: String },
    Process { bytes: Vec<u8>, mime_type: String },
    Finish { result: Result<AgentToolResult, String> },
}

/// What a call is told.
pub enum ReadReply {
    Path(Result<String, FileError>),
    Exist(Vec<bool>),
    Bytes(Result<Vec<u8>, FileError>),
    Processed(ReadImageProcessorResult),
}

/// The outcome that a request ends a call with.
pub open spec fn read_finishes(
    request: ReadRequest,
    outcome: Result<ToolResultView, Seq<char>>,
) -> bool {
    request matches ReadRequest::Finish { result } && tool_outcome(result) == outcome
}

impl ReadRun {
    /// Whether a reply is the one that the call waits for.
    pub open spec fn expects(self, reply: ReadReply) -> bool {
        match self.stage {
            ReadStage::Resolving => reply is Path,
            ReadStage::Probing { .. } => reply is Exist,
            ReadStage::Reading => reply matches ReadReply::Bytes(bytes) && (bytes matches Ok(b)
                ==> b@.len() <= isize::MAX / 4 * 3),
            ReadStage::Processing { .. } => reply is Processed,
            ReadStage::Done => false,
        }
    }

    /// What a reply leads to.
    pub open spec fn leads_to(self, reply: ReadReply, next: ReadRun, request: ReadRequest) -> bool {
        &&& next.path == self.path
        &&& next.offset == self.offset
        &&& next.limit == self.limit
        &&& next.has_processor == self.has_processor
        &&& match (self.stage, reply) {
            (ReadStage::Resolving, ReadReply::Path(Ok(p))) => {
                &&& next.stage matches ReadStage::Probing { resolved, variants } && resolved@ == p@
                    && texts(variants@) == path_spellings(p@, nfd_form(p@))
                &&& request matches ReadRequest::Probe { paths } && texts(paths@)
                    == path_spellings(p@, nfd_form(p@))
            },
            (ReadStage::Resolving, ReadReply::Path(Err(error))) => next.stage is Done
                && read_finishes(request, Err(file_error_text(error@))),
            (ReadStage::Probing { resolved, variants }, ReadReply::Exist(exists)) => {
                &&& next.stage is Reading
                &&& request matches ReadRequest::Read { path } && path@ == existing_path(
                    texts(variants@),
                    exists@,
                    resolved@,
                    0,
                )
            },
            (ReadStage::Reading, ReadReply::Bytes(Err(error))) => next.stage is Done
                && read_finishes(request, Err(file_error_text(error@))),
            (ReadStage::Reading, ReadReply::Bytes(Ok(bytes))) => match image_type(bytes@) {
                Some(kind) => if self.has_processor {
                    &&& next.stage matches ReadStage::Processing { mime_type } && mime_type@ == kind
                    &&& request matches ReadRequest::Process { bytes: b, mime_type } && b@
                        == bytes@ && mime_type@ == kind
                } else {
                    next.stage is Done && read_finishes(request, Ok(image_view(kind, bytes@)))
                },
                None => next.stage is Done && read_finishes(
                    request,
                    text_outcome(self.path@, lossy_text(bytes@), self.offset, self.limit),
                ),
            },
            (ReadStage::Processing { mime_type }, ReadReply::Processed(processed)) => next.stage
                is Done && read_finishes(
                request,
                Ok(processed_view(mime_type@, processed)),
            ),
            _ => false,
        }
    }

    /// Starts a call: its path is to be resolved.
    pub fn start(
        path: String,
        offset: Option<usize>,
        limit: Option<usize>,
        has_processor: bool,
    ) -> (r: (ReadRun, ReadRequest))
        ensures
            r.0 == (ReadRun { path, offset, limit, has_processor, stage: ReadStage::Resolving }),
            r.1 matches ReadRequest::Resolve { path: p } && p@ == tool_path(path@),
    {
        let wanted: String = normalize_tool_path(path.as_str());
        (
            ReadRun { path, offset, limit, has_processor, stage: ReadStage::Resolving },
            ReadRequest::Resolve { path: wanted },
        )
    }

    /// Takes the reply that the call waits for, and says what it asks for next.
    pub fn next(&mut self, reply: ReadReply) -> (r: ReadRequest)
        requires
            old(self).expects(reply),
        ensures
            old(self).leads_to(reply, *final(self), r),
    {
        let mut stage: ReadStage = ReadStage::Done;
        std::mem::swap(&mut stage, &mut self.stage);
        match (stage, reply) {
            (ReadStage::Resolving, ReadReply::Path(Ok(path))) => {
                let variants: Vec<String> = read_path_variants(path.as_str());
                let paths: Vec<String> = variants.clone();
                proof {
                    assert(paths@ =~= variants@);
                }
                self.stage = ReadStage::Probing { resolved: path, variants };
                ReadRequest::Probe { paths }
            },
            (ReadStage::Resolving, ReadReply::Path(Err(error))) => ReadRequest::Finish {
                result: Err(error.display()),
            },
            (ReadStage::Probing { resolved, variants }, ReadReply::Exist(exists)) => {
                let path: String = choose_read_path(&variants, &exists, resolved.as_str());
                self.stage = ReadStage::Reading;
                ReadRequest::Read { path }
            },
            (ReadStage::Reading, ReadReply::Bytes(Err(error))) => ReadRequest::Finish {
                result: Err(error.display()),
            },
            (ReadStage::Reading, ReadReply::Bytes(Ok(bytes))) => {
                match detect_supported_image_mime_type(bytes.as_slice()) {
                    Some(kind) => {
                        if self.has_processor {
                            self.stage = ReadStage::Processing { mime_type: kind.to_string() };
                            ReadRequest::Process { bytes, mime_type: kind.to_string() }
                        } else {
                            ReadRequest::Finish { result: Ok(plain_image(kind, bytes.as_slice())) }
                        }
                    },
                    None => {
                        let text: String = text_of_bytes(bytes.as_slice());
                        ReadRequest::Finish {
                            result: read_text(
                                self.path.as_str(),
                                text.as_str(),
                                self.offset,
                                self.limit,
                            ),
                        }
                    },
                }
            },
            (ReadStage::Processing { mime_type }, ReadReply::Processed(processed)) => {
                ReadRequest::Finish { result: Ok(processed_image(mime_type.as_str(), processed)) }
            },
            _ => ReadRequest::Finish { result: Err(String::new()) },
        }
    }
}

/// How the tool is presented to the model.
pub fn create_read_tool() -> (r: ToolDefinition)
    ensures
        r.presents("read"@, READ_DESCRIPTION@, read_schema_view()),
{
    define_tool("read", READ_DESCRIPTION, read_schema())
}

} // verus!

//! The edit tool: targeted replacements in one file.

use vstd::prelude::*;

use crate::harness_types::{file_error_name, file_error_text, FileError, FileErrorCode, FileKind};
use crate::json::{
    drop_member, json_views, lemma_json_views, member_of, member_views, parse_json, parsed_json,
    push_item, push_member, set_member, text_value, texts_value, texts_view, with_member,
    without_member, Json, JsonView,
};
use crate::text::{concat2, concat3, concat5, decimal, decimal_text, texts};
use crate::tools::edit_diff::{
    applied_edits, detect_line_ending, line_ending, normalize_to_lf, restore_line_endings,
    strip_bom, to_lf, try_apply_edits, with_ending, without_mark, Edit,
};
use crate::text::join;
use crate::tools::line_diff::{
    generate_diff_string, generate_unified_patch, shown_diff, unified_patch,
};
use crate::tools::path_utils::{normalize_tool_path, tool_path};
use crate::tools::result::{
    define_tool, object_schema, object_schema_view, property, property_view, text_result,
    text_result_view, tool_outcome, AgentToolResult, ToolDefinition, ToolResultView,
};

verus! {

/// What the model is told of the tool.
pub const EDIT_DESCRIPTION: &'static str = "Edit a single file using exact text replacement. Every edits[].oldText must match a unique, non-overlapping region of the original file. If two changes affect the same block or nearby lines, merge them into one edit instead of emitting overlapping edits. Do not include large unchanged regions just to connect distant changes.";

/// What the path of an input is.
pub const PATH_TEXT: &'static str = "Path to the file to edit (relative or absolute)";

/// What the edits of an input are.
pub const EDITS_TEXT: &'static str = "One or more targeted replacements. Each edit is matched against the original file, not incrementally. Do not include overlapping or nested edits. If two changes touch the same block or nearby lines, merge them into one edit instead.";

/// What the old text of an edit is.
pub const OLD_TEXT: &'static str = "Exact text for one targeted replacement. It must be unique in the original file and must not overlap with any other edits[].oldText in the same call.";

/// What the new text of an edit is.
pub const NEW_TEXT: &'static str = "Replacement text for this targeted edit.";

/// Why the input of the tool was refused.
pub const NO_EDITS: &'static str = "Edit tool input is invalid. edits must contain at least one replacement.";

/// What a tool answers when it was told to stop.
pub const OPERATION_ABORTED: &'static str = "Operation aborted";

/// The schema of one edit.
pub open spec fn edit_item_schema() -> JsonView {
    object_schema_view(
        texts_view(seq!["oldText"@, "newText"@]),
        JsonView::Object(
            seq![
                ("oldText"@, property_view("string"@, OLD_TEXT@)),
                ("newText"@, property_view("string"@, NEW_TEXT@)),
            ],
        ),
    )
}

/// The schema of the tool's input.
pub open spec fn edit_schema_view() -> JsonView {
    object_schema_view(
        texts_view(seq!["path"@, "edits"@]),
        JsonView::Object(
            seq![
                ("path"@, property_view("string"@, PATH_TEXT@)),
                (
                    "edits"@,
                    JsonView::Object(
                        seq![
                            ("type"@, JsonView::Text("array"@)),
                            ("description"@, JsonView::Text(EDITS_TEXT@)),
                            ("items"@, edit_item_schema()),
                        ],
                    ),
                ),
            ],
        ),
    )
}

/// A list of two names.
pub(crate) fn two_names(a: &str, b: &str) -> (r: Json)
    ensures
        r@ == texts_view(seq![a@, b@]),
{
    let mut names: Vec<String> = Vec::new();
    names.push(a.to_string());
    names.push(b.to_string());
    proof {
        assert(texts(names@) =~= seq![a@, b@]);
    }
    texts_value(&names)
}

/// The schema of the tool's input.
pub fn edit_schema() -> (r: Json)
    ensures
        r@ == edit_schema_view(),
{
    let mut texts_of_edit: Vec<(String, Json)> = Vec::new();
    push_member(&mut texts_of_edit, "oldText", property("string", OLD_TEXT));
    push_member(&mut texts_of_edit, "newText", property("string", NEW_TEXT));
    proof {
        assert(member_views(texts_of_edit@) =~= seq![
            ("oldText"@, property_view("string"@, OLD_TEXT@)),
            ("newText"@, property_view("string"@, NEW_TEXT@)),
        ]);
    }
    let item: Json = object_schema(two_names("oldText", "newText"), Json::Object(texts_of_edit));
    let mut list: Vec<(String, Json)> = Vec::new();
    push_member(&mut list, "type", text_value("array"));
    push_member(&mut list, "description", text_value(EDITS_TEXT));
    push_member(&mut list, "items", item);
    proof {
        assert(member_views(list@) =~= seq![
            ("type"@, JsonView::Text("array"@)),
            ("description"@, JsonView::Text(EDITS_TEXT@)),
            ("items"@, edit_item_schema()),
        ]);
    }
    let list: Json = Json::Object(list);
    let ghost list_view = list@;
    let mut properties: Vec<(String, Json)> = Vec::new();
    push_member(&mut properties, "path", property("string", PATH_TEXT));
    push_member(&mut properties, "edits", list);
    proof {
        assert(member_views(properties@) =~= seq![
            ("path"@, property_view("string"@, PATH_TEXT@)),
            ("edits"@, list_view),
        ]);
    }
    object_schema(two_names("path", "edits"), Json::Object(properties))
}

// ---------------------------------------------------------------------------
// Input
// ---------------------------------------------------------------------------

/// Whether a value is one edit.
pub open spec fn is_one_edit(v: JsonView) -> bool {
    &&& v.get("oldText"@) matches Some(JsonView::Text(_))
    &&& v.get("newText"@) matches Some(JsonView::Text(_))
}

fn is_single_edit_input(value: &Json) -> (r: bool)
    ensures
        r == is_one_edit(value@),
{
    let old_ok: bool = match value.get("oldText") {
        Some(v) => v.as_str().is_some(),
        None => false,
    };
    let new_ok: bool = match value.get("newText") {
        Some(v) => v.as_str().is_some(),
        None => false,
    };
    old_ok && new_ok
}

/// The list of edits that a value stands for: the list that a text spells, or
/// one edit alone. Other values stand for themselves.
pub open spec fn spelled_edits(edits: JsonView, spelled: Result<JsonView, Seq<char>>) -> JsonView {
    match edits {
        JsonView::Text(_) => match spelled {
            Ok(v) => if v is Array {
                v
            } else if is_one_edit(v) {
                JsonView::Array(seq![v])
            } else {
                edits
            },
            Err(_) => edits,
        },
        _ => if is_one_edit(edits) {
            JsonView::Array(seq![edits])
        } else {
            edits
        },
    }
}

/// The arguments with their edits as a list.
pub open spec fn with_edit_list(
    members: Seq<(Seq<char>, JsonView)>,
    spelled: Result<JsonView, Seq<char>>,
) -> Seq<(Seq<char>, JsonView)> {
    match member_of(members, "edits"@) {
        Some(edits) => with_member(members, "edits"@, spelled_edits(edits, spelled)),
        None => members,
    }
}

/// One edit as a value.
pub open spec fn edit_value(old_text: Seq<char>, new_text: Seq<char>) -> JsonView {
    JsonView::Object(
        seq![("oldText"@, JsonView::Text(old_text)), ("newText"@, JsonView::Text(new_text))],
    )
}

/// The arguments with an edit that stands outside the list put into it.
pub open spec fn with_outside_edit(members: Seq<(Seq<char>, JsonView)>) -> Seq<
    (Seq<char>, JsonView),
> {
    match (member_of(members, "oldText"@), member_of(members, "newText"@)) {
        (Some(JsonView::Text(old_text)), Some(JsonView::Text(new_text))) => {
            let listed = match member_of(members, "edits"@) {
                Some(JsonView::Array(items)) => items,
                _ => Seq::empty(),
            };
            with_member(
                without_member(without_member(members, "oldText"@), "newText"@),
                "edits"@,
                JsonView::Array(listed.push(edit_value(old_text, new_text))),
            )
        },
        _ => members,
    }
}

/// The arguments of a call in the form that the tool takes, given what the text
/// of their edits spells.
pub open spec fn prepared_arguments(
    input: JsonView,
    spelled: Result<JsonView, Seq<char>>,
) -> JsonView {
    match input {
        JsonView::Object(members) => JsonView::Object(
            with_outside_edit(with_edit_list(members, spelled)),
        ),
        _ => input,
    }
}

/// What the text of the edits spells, where the arguments hold their edits as a
/// text.
pub open spec fn spelled_in(input: JsonView) -> Result<JsonView, Seq<char>> {
    match input.get("edits"@) {
        Some(JsonView::Text(text)) => parsed_json(text),
        _ => Err(Seq::empty()),
    }
}

/// What was spelled, if anything.
pub open spec fn spelling_of(spelled: Option<Json>) -> Result<JsonView, Seq<char>> {
    match spelled {
        Some(v) => Ok(v@),
        None => Err(Seq::empty()),
    }
}

fn one_item(value: Json) -> (r: Json)
    ensures
        r@ == JsonView::Array(seq![value@]),
{
    let mut items: Vec<Json> = Vec::new();
    push_item(&mut items, value);
    proof {
        assert(json_views(items@) =~= seq![value@]);
    }
    Json::Array(items)
}

fn list_edits(edits: &Json, spelled: Option<Json>) -> (r: Json)
    ensures
        r@ == spelled_edits(
            edits@,
            spelling_of(spelled),
        ),
{
    match edits {
        Json::Text(_) => match spelled {
            Some(v) => match v {
                Json::Array(_) => v,
                _ => if is_single_edit_input(&v) {
                    one_item(v)
                } else {
                    edits.clone()
                },
            },
            None => edits.clone(),
        },
        _ => if is_single_edit_input(edits) {
            one_item(edits.clone())
        } else {
            edits.clone()
        },
    }
}

/// The arguments of a call in the form that the tool takes, given what the text
/// of their edits spells, if anything.
pub fn prepare_with_spelled(input: &Json, spelled: Option<Json>) -> (r: Json)
    ensures
        r@ == prepared_arguments(
            input@,
            spelling_of(spelled),
        ),
{
    let mut args: Vec<(String, Json)> = match input.clone() {
        Json::Object(members) => members,
        other => {
            return other;
        },
    };
    let ghost start = member_views(args@);
    let ghost spelling = spelling_of(spelled);
    match input.get("edits") {
        Some(edits) => {
            let listed: Json = list_edits(edits, spelled);
            set_member(&mut args, "edits", listed);
        },
        None => {},
    }
    proof {
        assert(member_views(args@) == with_edit_list(start, spelling));
    }
    let args: Json = Json::Object(args);
    let old_text: Option<String> = args.optional_text_field("oldText");
    let new_text: Option<String> = args.optional_text_field("newText");
    match old_text {
        Some(old_text) => match new_text {
            Some(new_text) => {
                let mut listed: Vec<Json> = Vec::new();
                proof {
                    assert(json_views(listed@) =~= Seq::<JsonView>::empty());
                }
                match args.get("edits") {
                    Some(Json::Array(items)) => {
                        listed = copy_items(items);
                    },
                    _ => {},
                }
                let mut one: Vec<(String, Json)> = Vec::new();
                push_member(&mut one, "oldText", text_value(old_text.as_str()));
                push_member(&mut one, "newText", text_value(new_text.as_str()));
                proof {
                    assert(member_views(one@) =~= seq![
                        ("oldText"@, JsonView::Text(old_text@)),
                        ("newText"@, JsonView::Text(new_text@)),
                    ]);
                }
                push_item(&mut listed, Json::Object(one));
                match args {
                    Json::Object(members) => {
                        let mut kept: Vec<(String, Json)> = drop_member(
                            drop_member(members, "oldText"),
                            "newText",
                        );
                        set_member(&mut kept, "edits", Json::Array(listed));
                        Json::Object(kept)
                    },
                    other => other,
                }
            },
            None => args,
        },
        None => args,
    }
}

fn copy_items(items: &Vec<Json>) -> (r: Vec<Json>)
    ensures
        json_views(r@) == json_views(items@),
{
    let mut out: Vec<Json> = Vec::new();
    let mut i: usize = 0;
    proof {
        assert(items@.take(0) =~= Seq::<Json>::empty());
    }
    while i < items.len()
        invariant
            i <= items@.len(),
            json_views(out@) == json_views(items@.take(i as int)),
        decreases items@.len() - i,
    {
        push_item(&mut out, items[i].clone());
        proof {
            assert(items@.take(i + 1).drop_last() =~= items@.take(i as int));
        }
        i = i + 1;
    }
    proof {
        assert(items@.take(items@.len() as int) =~= items@);
    }
    out
}

/// The arguments of a call in the form that the tool takes: edits as a list,
/// where they came as a text, as one edit, or outside the list.
pub fn prepare_edit_arguments(input: &Json) -> (r: Json)
    ensures
        r@ == prepared_arguments(input@, spelled_in(input@)),
{
    let mut spelled: Option<Json> = None;
    match input.get("edits") {
        Some(Json::Text(text)) => {
            match parse_json(text.as_str()) {
                Ok(v) => {
                    spelled = Some(v);
                },
                Err(_) => {},
            }
        },
        _ => {},
    }
    prepare_with_spelled(input, spelled)
}

/// The edits of a list of values.
pub open spec fn edits_read(items: Seq<JsonView>) -> Seq<(Seq<char>, Seq<char>)> {
    Seq::new(
        items.len(),
        |i: int| (items[i].text_field("oldText"@), items[i].text_field("newText"@)),
    )
}

/// The edits as pairs of texts.
pub open spec fn edit_pairs(edits: Seq<Edit>) -> Seq<(Seq<char>, Seq<char>)> {
    Seq::new(edits.len(), |i: int| (edits[i].old_text@, edits[i].new_text@))
}

/// The path and the edits of a call. There must be at least one edit.
pub fn parse_edits(input: &Json) -> (r: Result<(String, Vec<Edit>), String>)
    ensures
        match input@.get("edits"@) {
            Some(JsonView::Array(items)) => if items.len() > 0 {
                r matches Ok(parsed) && parsed.0@ == input@.text_field("path"@) && edit_pairs(
                    parsed.1@,
                ) == edits_read(items)
            } else {
                r matches Err(text) && text@ == NO_EDITS@
            },
            _ => r matches Err(text) && text@ == NO_EDITS@,
        },
{
    let path: String = input.text_field("path");
    match input.get("edits") {
        Some(Json::Array(items)) => {
            let ghost views = json_views(items@);
            proof {
                lemma_json_views(items@);
            }
            if items.len() == 0 {
                return Err(NO_EDITS.to_string());
            }
            let mut edits: Vec<Edit> = Vec::new();
            let mut i: usize = 0;
            while i < items.len()
                invariant
                    i <= items@.len(),
                    views == json_views(items@),
                    views.len() == items@.len(),
                    forall|k: int|
                        0 <= k < items@.len() ==> #[trigger] views[k] == crate::json::json_view(
                            items@[k],
                        ),
                    edits@.len() == i,
                    forall|k: int|
                        0 <= k < i ==> (#[trigger] edits@[k]).old_text@ == views[k].text_field(
                            "oldText"@,
                        ) && edits@[k].new_text@ == views[k].text_field("newText"@),
                decreases items@.len() - i,
            {
                edits.push(
                    Edit {
                        old_text: items[i].text_field("oldText"),
                        new_text: items[i].text_field("newText"),
                    },
                );
                i = i + 1;
            }
            proof {
                assert(edit_pairs(edits@) =~= edits_read(views));
            }
            Ok((path, edits))
        },
        _ => Err(NO_EDITS.to_string()),
    }
}

// ---------------------------------------------------------------------------
// A call
// ---------------------------------------------------------------------------

/// Why a file could not be edited.
pub open spec fn edit_access_text(path: Seq<char>, code: FileErrorCode) -> Seq<char> {
    "Could not edit file: "@ + path + ". Error code: "@ + file_error_name(code) + "."@
}

fn edit_access_error(path: &str, error: &FileError) -> (r: String)
    ensures
        r@ == edit_access_text(path@, error.code),
{
    let name: &'static str = match error.code {
        FileErrorCode::Aborted => "aborted",
        FileErrorCode::NotFound => "not_found",
        FileErrorCode::PermissionDenied => "permission_denied",
        FileErrorCode::NotDirectory => "not_directory",
        FileErrorCode::IsDirectory => "is_directory",
        FileErrorCode::Invalid => "invalid",
        FileErrorCode::NotSupported => "not_supported",
        FileErrorCode::Unknown => "unknown",
    };
    concat5("Could not edit file: ", path, ". Error code: ", name, ".")
}

/// A text before and after edits, and what is saved of it.
pub struct Revision {
    pub base: String,
    pub new: String,
    pub saved: String,
}

/// The text to save: the new text with the mark and the line endings of the
/// text that was read.
pub open spec fn saved_text(read: Seq<char>, new: Seq<char>) -> Seq<char> {
    let parts = without_mark(read);
    parts.0 + with_ending(new, line_ending(parts.1))
}

/// Makes edits in the text of a file. There is no result where a fuzzy
/// replacement does not fit the lines of the text.
pub fn revise(read: &str, edits: &Vec<Edit>, path: &str) -> (r: Option<Result<Revision, String>>)
    ensures
        ({
            let content = to_lf(without_mark(read@).1);
            match applied_edits(content, edits@, path@) {
                None => r is None,
                Some(Err(text)) => r matches Some(Err(message)) && message@ == text,
                Some(Ok(new)) => r matches Some(Ok(revision)) && revision.base@ == content
                    && revision.new@ == new && revision.saved@ == saved_text(read@, new),
            }
        }),
{
    let (bom, content) = strip_bom(read);
    let ending: &'static str = detect_line_ending(content.as_str());
    let normalized: String = normalize_to_lf(content.as_str());
    match try_apply_edits(normalized.as_str(), edits.as_slice(), path) {
        None => None,
        Some(Err(text)) => Some(Err(text)),
        Some(Ok(applied)) => {
            let restored: String = restore_line_endings(applied.new_content.as_str(), ending);
            let saved: String = concat2(bom.as_str(), restored.as_str());
            Some(
                Ok(
                    Revision { base: applied.base_content, new: applied.new_content, saved },
                ),
            )
        },
    }
}

/// The number of the first changed line as a value.
pub open spec fn line_value(line: Option<nat>) -> JsonView {
    match line {
        Some(n) => JsonView::Unsigned(n),
        None => JsonView::Null,
    }
}

/// What the tool reports after it made edits.
pub open spec fn edit_report_view(
    path: Seq<char>,
    count: nat,
    base: Seq<char>,
    new: Seq<char>,
) -> ToolResultView {
    let shown = shown_diff(base, new, 4);
    text_result_view(
        "Successfully replaced "@ + decimal(count) + " block(s) in "@ + path + "."@,
        JsonView::Object(
            seq![
                ("diff"@, JsonView::Text(join(shown.lines, "\n"@))),
                ("patch"@, JsonView::Text(unified_patch(path, base, new, 4))),
                ("firstChangedLine"@, line_value(shown.first_changed)),
            ],
        ),
    )
}

/// What the tool reports after it made edits.
pub fn edit_report(path: &str, count: usize, base: &str, new: &str) -> (r: AgentToolResult)
    requires
        base@.len() < usize::MAX,
        new@.len() < usize::MAX,
    ensures
        r@ == edit_report_view(path@, count as nat, base@, new@),
{
    let (diff, first) = generate_diff_string(base, new, 4);
    let patch: String = generate_unified_patch(path, base, new, 4);
    let text: String = concat5(
        "Successfully replaced ",
        decimal_text(count as u64).as_str(),
        " block(s) in ",
        path,
        ".",
    );
    let line: Json = match first {
        Some(n) => Json::Unsigned(n as u64),
        None => Json::Null,
    };
    let ghost line_view = line@;
    let mut details: Vec<(String, Json)> = Vec::new();
    push_member(&mut details, "diff", text_value(diff.as_str()));
    push_member(&mut details, "patch", text_value(patch.as_str()));
    push_member(&mut details, "firstChangedLine", line);
    proof {
        assert(line_view == line_value(shown_diff(base@, new@, 4).first_changed));
        assert(member_views(details@) =~= seq![
            ("diff"@, JsonView::Text(diff@)),
            ("patch"@, JsonView::Text(patch@)),
            ("firstChangedLine"@, line_view),
        ]);
    }
    text_result(text, Json::Object(details))
}

/// How far a call of the tool has come.
pub enum EditStage {
    Resolving,
    Locking,
    Entering,
    Inspecting,
    Reading,
    Applying { text: String },
    Saving { base: String, new: String, saved: String },
    Writing { base: String, new: String },
    Reporting { base: String, new: String },
    Done,
}

/// A call of the tool.
pub struct EditRun {
    pub path: String,
    pub edits: Vec<Edit>,
    pub absolute: String,
    pub stage: EditStage,
}

/// What a call asks for next.
pub enum EditRequest {
    Resolve { path: String },
    Lock { path: String },
    CheckAborted,
    Inspect { path: String },
    Read { path: String },
    Write { path: String, content: String },
    Finish { result: Result<AgentToolResult, String> },
    Unplaceable,
}

/// What a call is told.
pub enum EditReply {
    Path(Result<String, FileError>),
    Locked,
    Aborted(bool),
    Kind(Result<FileKind, FileError>),
    Text(Result<String, FileError>),
    Written(Result<(), FileError>),
}

/// Whether a call ended with an error.
pub open spec fn ends_with(run: EditRun, request: EditRequest, text: Seq<char>) -> bool {
    &&& run.stage is Done
    &&& request matches EditRequest::Finish { result } && tool_outcome(result) == Err::<
        ToolResultView,
        Seq<char>,
    >(text)
}

impl EditRun {
    /// Whether a reply is the one that the call waits for.
    pub open spec fn expects(self, reply: EditReply) -> bool {
        match self.stage {
            EditStage::Resolving => reply is Path,
            EditStage::Locking => reply is Locked,
            EditStage::Entering => reply is Aborted,
            EditStage::Inspecting => reply is Kind,
            EditStage::Reading => reply is Text,
            EditStage::Applying { .. } => reply is Aborted,
            EditStage::Saving { .. } => reply is Aborted,
            EditStage::Writing { .. } => reply is Written,
            EditStage::Reporting { base, new } => reply is Aborted && base@.len() < usize::MAX
                && new@.len() < usize::MAX,
            EditStage::Done => false,
        }
    }

    /// What a reply leads to. An abort is looked for on entering, before the
    /// edits are made, before they are written, and before the report.
    pub open spec fn leads_to(self, reply: EditReply, next: EditRun, request: EditRequest) -> bool {
        &&& next.path == self.path
        &&& next.edits == self.edits
        &&& match (self.stage, reply) {
            (EditStage::Resolving, EditReply::Path(Ok(p))) => {
                &&& next.stage is Locking
                &&& next.absolute@ == p@
                &&& request matches EditRequest::Lock { path } && path@ == p@
            },
            (EditStage::Resolving, EditReply::Path(Err(error))) => ends_with(
                next,
                request,
                file_error_text(error@),
            ),
            (EditStage::Locking, EditReply::Locked) => {
                &&& next.stage is Entering
                &&& next.absolute == self.absolute
                &&& request is CheckAborted
            },
            (EditStage::Entering, EditReply::Aborted(false)) => {
                &&& next.stage is Inspecting
                &&& next.absolute == self.absolute
                &&& request matches EditRequest::Inspect { path } && path@ == self.absolute@
            },
            (_, EditReply::Aborted(true)) => ends_with(next, request, OPERATION_ABORTED@),
            (EditStage::Inspecting, EditReply::Kind(Err(error))) => ends_with(
                next,
                request,
                edit_access_text(self.path@, error.code),
            ),
            (EditStage::Inspecting, EditReply::Kind(Ok(kind))) => if kind == FileKind::File || kind
                == FileKind::Symlink {
                &&& next.stage is Reading
                &&& next.absolute == self.absolute
                &&& request matches EditRequest::Read { path } && path@ == self.absolute@
            } else {
                ends_with(
                    next,
                    request,
                    "Could not edit file: "@ + self.path@ + ". Path is not a file."@,
                )
            },
            (EditStage::Reading, EditReply::Text(Err(error))) => ends_with(
                next,
                request,
                edit_access_text(self.path@, error.code),
            ),
            (EditStage::Reading, EditReply::Text(Ok(read))) => {
                &&& next.stage matches EditStage::Applying { text } && text@ == read@
                &&& next.absolute == self.absolute
                &&& request is CheckAborted
            },
            (EditStage::Applying { text }, EditReply::Aborted(false)) => {
                let content = to_lf(without_mark(text@).1);
                match applied_edits(content, self.edits@, self.path@) {
                    None => next.stage is Done && request is Unplaceable,
                    Some(Err(message)) => ends_with(next, request, message),
                    Some(Ok(revised)) => {
                        &&& next.stage matches EditStage::Saving { base, new, saved } && base@
                            == content && new@ == revised && saved@ == saved_text(text@, revised)
                        &&& next.absolute == self.absolute
                        &&& request is CheckAborted
                    },
                }
            },
            (EditStage::Saving { base, new, saved }, EditReply::Aborted(false)) => {
                &&& next.stage matches EditStage::Writing { base: b, new: n } && b == base && n
                    == new
                &&& next.absolute == self.absolute
                &&& request matches EditRequest::Write { path, content } && path@
                    == self.absolute@ && content@ == saved@
            },
            (EditStage::Writing { base, new }, EditReply::Written(Err(error))) => ends_with(
                next,
                request,
                edit_access_text(self.path@, error.code),
            ),
            (EditStage::Writing { base, new }, EditReply::Written(Ok(_))) => {
                &&& next.stage matches EditStage::Reporting { base: b, new: n } && b == base && n
                    == new
                &&& request is CheckAborted
            },
            (EditStage::Reporting { base, new }, EditReply::Aborted(false)) => {
                &&& next.stage is Done
                &&& request matches EditRequest::Finish { result } && tool_outcome(result) == Ok::<
                    ToolResultView,
                    Seq<char>,
                >(edit_report_view(self.path@, self.edits@.len(), base@, new@))
            },
            _ => false,
        }
    }

    /// Starts a call: its path is to be resolved.
    pub fn start(path: String, edits: Vec<Edit>) -> (r: (EditRun, EditRequest))
        ensures
            r.0.path == path,
            r.0.edits == edits,
            r.0.stage is Resolving,
            r.1 matches EditRequest::Resolve { path: p } && p@ == tool_path(path@),
    {
        let wanted: String = normalize_tool_path(path.as_str());
        (
            EditRun { path, edits, absolute: String::new(), stage: EditStage::Resolving },
            EditRequest::Resolve { path: wanted },
        )
    }

    fn fail(&mut self, text: String) -> (r: EditRequest)
        ensures
            ends_with(*final(self), r, text@),
            final(self).path == old(self).path,
            final(self).edits == old(self).edits,
            final(self).absolute == old(self).absolute,
    {
        self.stage = EditStage::Done;
        EditRequest::Finish { result: Err(text) }
    }

    /// Takes the reply that the call waits for, and says what it asks for next.
    pub fn next(&mut self, reply: EditReply) -> (r: EditRequest)
        requires
            old(self).expects(reply),
        ensures
            old(self).leads_to(reply, *final(self), r),
    {
        let mut stage: EditStage = EditStage::Done;
        std::mem::swap(&mut stage, &mut self.stage);
        match reply {
            EditReply::Aborted(true) => {
                return self.fail(OPERATION_ABORTED.to_string());
            },
            _ => {},
        }
        match (stage, reply) {
            (EditStage::Resolving, EditReply::Path(Ok(path))) => {
                self.absolute = path.clone();
                self.stage = EditStage::Locking;
                EditRequest::Lock { path }
            },
            (EditStage::Resolving, EditReply::Path(Err(error))) => self.fail(error.display()),
            (EditStage::Locking, _) => {
                self.stage = EditStage::Entering;
                EditRequest::CheckAborted
            },
            (EditStage::Entering, _) => {
                self.stage = EditStage::Inspecting;
                EditRequest::Inspect { path: self.absolute.clone() }
            },
            (EditStage::Inspecting, EditReply::Kind(Err(error))) => {
                let text: String = edit_access_error(self.path.as_str(), &error);
                self.fail(text)
            },
            (EditStage::Inspecting, EditReply::Kind(Ok(kind))) => {
                if kind == FileKind::File || kind == FileKind::Symlink {
                    self.stage = EditStage::Reading;
                    EditRequest::Read { path: self.absolute.clone() }
                } else {
                    let text: String = concat3(
                        "Could not edit file: ",
                        self.path.as_str(),
                        ". Path is not a file.",
                    );
                    self.fail(text)
                }
            },
            (EditStage::Reading, EditReply::Text(Err(error))) => {
                let text: String = edit_access_error(self.path.as_str(), &error);
                self.fail(text)
            },
            (EditStage::Reading, EditReply::Text(Ok(text))) => {
                self.stage = EditStage::Applying { text };
                EditRequest::CheckAborted
            },
            (EditStage::Applying { text }, _) => {
                match revise(text.as_str(), &self.edits, self.path.as_str()) {
                    None => EditRequest::Unplaceable,
                    Some(Err(message)) => self.fail(message),
                    Some(Ok(revision)) => {
                        self.stage = EditStage::Saving {
                            base: revision.base,
                            new: revision.new,
                            saved: revision.saved,
                        };
                        EditRequest::CheckAborted
                    },
                }
            },
            (EditStage::Saving { base, new, saved }, _) => {
                self.stage = EditStage::Writing { base, new };
                EditRequest::Write { path: self.absolute.clone(), content: saved }
            },
            (EditStage::Writing { .. }, EditReply::Written(Err(error))) => {
                let text: String = edit_access_error(self.path.as_str(), &error);
                self.fail(text)
            },
            (EditStage::Writing { base, new }, _) => {
                self.stage = EditStage::Reporting { base, new };
                EditRequest::CheckAborted
            },
            (EditStage::Reporting { base, new }, _) => {
                let report: AgentToolResult = edit_report(
                    self.path.as_str(),
                    self.edits.len(),
                    base.as_str(),
                    new.as_str(),
                );
                EditRequest::Finish { result: Ok(report) }
            },
            _ => EditRequest::CheckAborted,
        }
    }
}

/// How the tool is presented to the model.
pub fn create_edit_tool() -> (r: ToolDefinition)
    ensures
        r.presents("edit"@, EDIT_DESCRIPTION@, edit_schema_view()),
{
    define_tool("edit", EDIT_DESCRIPTION, edit_schema())
}

} // verus!

//! The lines of a session file: what they say, and how they are written.

use vstd::prelude::*;

use crate::json::{
    drop_member, has_key, int_value, int_view, json_depth, json_plain, json_readable, json_result,
    json_text, json_view, lemma_member_views, member_index, member_of, member_position,
    member_views, members_depth, members_plain, parse_json, parsed_json, push_member, reads_back,
    set_member, text_value, with_member, without_member, write_json, Json, JsonView,
};
use crate::session::jsonl::errors::{
    schema_error, syntax_error, DecodeErrorView, JsonlDecodeError,
};
use crate::text::{concat2, same_text, text_of_option};
use crate::types::JsF64;

verus! {

// ---------------------------------------------------------------------------
// Types
// ---------------------------------------------------------------------------

/// The first line of a session file.
pub struct JsonlV4Header {
    pub version: u8,
    pub id: String,
    pub created_at: i64,
    pub cwd: String,
    pub parent_session_id: Option<String>,
    /// The path of a parent session whose id is not known.
    pub legacy_parent_session_path: Option<String>,
    /// What the application keeps with the session.
    pub metadata: Option<Json>,
}

/// The mathematical value of a [`JsonlV4Header`].
pub struct HeaderView {
    pub version: u8,
    pub id: Seq<char>,
    pub created_at: i64,
    pub cwd: Seq<char>,
    pub parent_session_id: Option<Seq<char>>,
    pub legacy_parent_session_path: Option<Seq<char>>,
    pub metadata: Option<JsonView>,
}

/// A value that may be missing.
pub open spec fn optional_json(value: Option<Json>) -> Option<JsonView> {
    match value {
        Some(json) => Some(json@),
        None => None,
    }
}

impl View for JsonlV4Header {
    type V = HeaderView;

    open spec fn view(&self) -> HeaderView {
        HeaderView {
            version: self.version,
            id: self.id@,
            created_at: self.created_at,
            cwd: self.cwd@,
            parent_session_id: text_of_option(self.parent_session_id),
            legacy_parent_session_path: text_of_option(self.legacy_parent_session_path),
            metadata: optional_json(self.metadata),
        }
    }
}

/// What is known of a session file without reading it whole.
pub struct JsonlSessionMetadata {
    pub id: String,
    pub created_at: i64,
    pub cwd: String,
    pub path: String,
    /// When the file was last changed, in milliseconds of the Unix time.
    pub modified_at: JsF64,
    pub source_format: u8,
    pub parent_session_id: Option<String>,
    pub legacy_parent_session_path: Option<String>,
    pub metadata: Option<Json>,
}

/// A line after the first. What an entry or a record says is left as it is
/// written.
pub enum WireMutation {
    Entry { lane: Option<String>, payload: Json },
    Record { payload: Json },
    Lane { seq: u64, lane: String, leaf_id: Option<String> },
    NameFact { seq: u64, name: Option<String> },
    LabelFact { seq: u64, target_id: String, label: Option<String> },
}

/// The mathematical value of a [`WireMutation`].
pub enum WireView {
    Entry { lane: Option<Seq<char>>, payload: JsonView },
    Record { payload: JsonView },
    Lane { seq: u64, lane: Seq<char>, leaf: Option<Seq<char>> },
    NameFact { seq: u64, name: Option<Seq<char>> },
    LabelFact { seq: u64, target: Seq<char>, label: Option<Seq<char>> },
}

impl View for WireMutation {
    type V = WireView;

    open spec fn view(&self) -> WireView {
        match *self {
            WireMutation::Entry { lane, payload } => WireView::Entry {
                lane: text_of_option(lane),
                payload: payload@,
            },
            WireMutation::Record { payload } => WireView::Record { payload: payload@ },
            WireMutation::Lane { seq, lane, leaf_id } => WireView::Lane {
                seq,
                lane: lane@,
                leaf: text_of_option(leaf_id),
            },
            WireMutation::NameFact { seq, name } => WireView::NameFact {
                seq,
                name: text_of_option(name),
            },
            WireMutation::LabelFact { seq, target_id, label } => WireView::LabelFact {
                seq,
                target: target_id@,
                label: text_of_option(label),
            },
        }
    }
}

// ---------------------------------------------------------------------------
// Fields
// ---------------------------------------------------------------------------

/// The members of an object.
pub open spec fn line_members(value: Result<JsonView, Seq<char>>) -> Result<
    Seq<(Seq<char>, JsonView)>,
    DecodeErrorView,
> {
    match value {
        Err(message) => Err(syntax_error("is not valid JSON: "@ + message)),
        Ok(JsonView::Object(members)) => Ok(members),
        Ok(_) => Err(schema_error("is not a JSON object"@)),
    }
}

/// A text that has to be there.
pub open spec fn required_text(
    members: Seq<(Seq<char>, JsonView)>,
    key: Seq<char>,
    field: Seq<char>,
) -> Result<Seq<char>, DecodeErrorView> {
    match member_of(members, key) {
        Some(JsonView::Text(text)) => Ok(text),
        _ => Err(schema_error("has invalid "@ + field)),
    }
}

/// A text that may be missing, but be nothing else.
pub open spec fn optional_text(
    members: Seq<(Seq<char>, JsonView)>,
    key: Seq<char>,
    field: Seq<char>,
) -> Result<Option<Seq<char>>, DecodeErrorView> {
    match member_of(members, key) {
        None => Ok(None),
        Some(JsonView::Text(text)) => Ok(Some(text)),
        Some(_) => Err(schema_error("has invalid "@ + field)),
    }
}

/// An id that may be missing or null.
pub open spec fn nullable_id(
    members: Seq<(Seq<char>, JsonView)>,
    key: Seq<char>,
) -> Result<Option<Seq<char>>, DecodeErrorView> {
    match member_of(members, key) {
        None => Ok(None),
        Some(JsonView::Null) => Ok(None),
        Some(JsonView::Text(text)) => Ok(Some(text)),
        Some(_) => Err(schema_error("has invalid "@ + key)),
    }
}

/// A sequence number: a whole number from one to the largest signed one.
pub open spec fn sequence_of(members: Seq<(Seq<char>, JsonView)>) -> Result<u64, DecodeErrorView> {
    match member_of(members, "seq"@) {
        Some(JsonView::Unsigned(n)) => if 0 < n <= i64::MAX {
            Ok(n as u64)
        } else {
            Err(schema_error("has invalid seq"@))
        },
        _ => Err(schema_error("has invalid seq"@)),
    }
}

/// A time: a whole number that is not negative.
pub open spec fn timestamp_of(members: Seq<(Seq<char>, JsonView)>, key: Seq<char>) -> Result<
    i64,
    DecodeErrorView,
> {
    match member_of(members, key) {
        Some(JsonView::Unsigned(n)) => if n <= i64::MAX {
            Ok(n as i64)
        } else {
            Err(schema_error("has invalid timestamp"@))
        },
        _ => Err(schema_error("has invalid timestamp"@)),
    }
}

/// An optional text in terms of mathematical values.
pub open spec fn option_result(r: Result<Option<String>, JsonlDecodeError>) -> Result<
    Option<Seq<char>>,
    DecodeErrorView,
> {
    match r {
        Ok(text) => Ok(text_of_option(text)),
        Err(e) => Err(e@),
    }
}

/// A text in terms of mathematical values.
pub open spec fn text_result_view(r: Result<String, JsonlDecodeError>) -> Result<
    Seq<char>,
    DecodeErrorView,
> {
    match r {
        Ok(text) => Ok(text@),
        Err(e) => Err(e@),
    }
}

/// A plain value in terms of mathematical values.
pub open spec fn plain_result<T>(r: Result<T, JsonlDecodeError>) -> Result<T, DecodeErrorView> {
    match r {
        Ok(value) => Ok(value),
        Err(e) => Err(e@),
    }
}

fn find_member<'a>(members: &'a Vec<(String, Json)>, key: &str) -> (r: Option<&'a Json>)
    ensures
        match r {
            Some(value) => member_of(member_views(members@), key@) == Some(value@),
            None => member_of(member_views(members@), key@) is None,
        },
{
    match member_index(members, key) {
        Some(i) => Some(&members[i].1),
        None => None,
    }
}

fn has_invalid(field: &str) -> (r: JsonlDecodeError)
    ensures
        r@ == schema_error("has invalid "@ + field@),
{
    JsonlDecodeError::schema(concat2("has invalid ", field))
}

fn require_string(members: &Vec<(String, Json)>, key: &str, field: &str) -> (r: Result<
    String,
    JsonlDecodeError,
>)
    ensures
        text_result_view(r) == required_text(member_views(members@), key@, field@),
{
    match find_member(members, key) {
        Some(Json::Text(text)) => Ok(text.clone()),
        _ => Err(has_invalid(field)),
    }
}

fn optional_string(members: &Vec<(String, Json)>, key: &str, field: &str) -> (r: Result<
    Option<String>,
    JsonlDecodeError,
>)
    ensures
        option_result(r) == optional_text(member_views(members@), key@, field@),
{
    match find_member(members, key) {
        None => Ok(None),
        Some(Json::Text(text)) => Ok(Some(text.clone())),
        Some(_) => Err(has_invalid(field)),
    }
}

fn require_nullable_id(members: &Vec<(String, Json)>, key: &str) -> (r: Result<
    Option<String>,
    JsonlDecodeError,
>)
    ensures
        option_result(r) == nullable_id(member_views(members@), key@),
{
    match find_member(members, key) {
        None => Ok(None),
        Some(Json::Null) => Ok(None),
        Some(Json::Text(text)) => Ok(Some(text.clone())),
        Some(_) => Err(has_invalid(key)),
    }
}

fn require_sequence(members: &Vec<(String, Json)>) -> (r: Result<u64, JsonlDecodeError>)
    ensures
        plain_result(r) == sequence_of(member_views(members@)),
{
    match find_member(members, "seq") {
        Some(Json::Unsigned(n)) => if 0 < *n && *n <= i64::MAX as u64 {
            Ok(*n)
        } else {
            Err(JsonlDecodeError::schema("has invalid seq".to_string()))
        },
        _ => Err(JsonlDecodeError::schema("has invalid seq".to_string())),
    }
}

fn require_timestamp(members: &Vec<(String, Json)>, key: &str) -> (r: Result<i64, JsonlDecodeError>)
    ensures
        plain_result(r) == timestamp_of(member_views(members@), key@),
{
    match find_member(members, key) {
        Some(Json::Unsigned(n)) => if *n <= i64::MAX as u64 {
            Ok(*n as i64)
        } else {
            Err(JsonlDecodeError::schema("has invalid timestamp".to_string()))
        },
        _ => Err(JsonlDecodeError::schema("has invalid timestamp".to_string())),
    }
}

// ---------------------------------------------------------------------------
// The header
// ---------------------------------------------------------------------------

/// The header that a value says, or what is wrong with it.
pub open spec fn decoded_header(value: Result<JsonView, Seq<char>>) -> Result<
    HeaderView,
    DecodeErrorView,
> {
    match line_members(value) {
        Err(e) => Err(e),
        Ok(members) => header_of(members),
    }
}

/// The header that members say, or what is wrong with them.
pub open spec fn header_of(members: Seq<(Seq<char>, JsonView)>) -> Result<
    HeaderView,
    DecodeErrorView,
> {
    let parent = optional_text(members, "parentSessionId"@, "parentSessionId"@);
    let legacy = optional_text(members, "legacyParentSessionPath"@, "legacyParentSessionPath"@);
    let metadata = member_of(members, "metadata"@);
    if member_of(members, "kind"@) != Some(JsonView::Text("header"@)) {
        Err(schema_error("is not a header"@))
    } else if member_of(members, "version"@) != Some(JsonView::Unsigned(4)) {
        Err(schema_error("has unsupported session version"@))
    } else if parent is Err {
        Err(parent->Err_0)
    } else if legacy is Err {
        Err(legacy->Err_0)
    } else if parent->Ok_0 is Some && legacy->Ok_0 is Some {
        Err(schema_error("has both parentSessionId and legacyParentSessionPath"@))
    } else if metadata is Some && !(metadata->0 is Object) {
        Err(schema_error("has invalid metadata"@))
    } else {
        match required_text(members, "id"@, "id"@) {
            Err(e) => Err(e),
            Ok(id) => match timestamp_of(members, "createdAt"@) {
                Err(e) => Err(e),
                Ok(created_at) => match required_text(members, "cwd"@, "cwd"@) {
                    Err(e) => Err(e),
                    Ok(cwd) => Ok(
                        HeaderView {
                            version: 4,
                            id,
                            created_at,
                            cwd,
                            parent_session_id: parent->Ok_0,
                            legacy_parent_session_path: legacy->Ok_0,
                            metadata,
                        },
                    ),
                },
            },
        }
    }
}

/// A header in terms of mathematical values.
pub open spec fn header_result(r: Result<JsonlV4Header, JsonlDecodeError>) -> Result<
    HeaderView,
    DecodeErrorView,
> {
    match r {
        Ok(header) => Ok(header@),
        Err(e) => Err(e@),
    }
}

fn is_text(value: Option<&Json>, text: &str) -> (r: bool)
    ensures
        r == (match value {
            Some(json) => json@ == JsonView::Text(text@),
            None => false,
        }),
{
    match value {
        Some(Json::Text(found)) => same_text(found.as_str(), text),
        _ => false,
    }
}

fn members_of_line(value: Result<Json, String>) -> (r: Result<Vec<(String, Json)>, JsonlDecodeError>)
    ensures
        (match r {
            Ok(members) => Ok::<Seq<(Seq<char>, JsonView)>, DecodeErrorView>(
                member_views(members@),
            ),
            Err(e) => Err(e@),
        }) == line_members(json_result(value)),
{
    match value {
        Err(message) => Err(
            JsonlDecodeError::syntax(concat2("is not valid JSON: ", message.as_str())),
        ),
        Ok(Json::Object(members)) => Ok(members),
        Ok(_) => Err(JsonlDecodeError::schema("is not a JSON object".to_string())),
    }
}

/// The header that a parsed line says, or what is wrong with it.
pub fn decode_header(value: Result<Json, String>) -> (r: Result<JsonlV4Header, JsonlDecodeError>)
    ensures
        header_result(r) == decoded_header(json_result(value)),
{
    let members: Vec<(String, Json)> = match members_of_line(value) {
        Ok(members) => members,
        Err(e) => {
            return Err(e);
        },
    };
    if !is_text(find_member(&members, "kind"), "header") {
        return Err(JsonlDecodeError::schema("is not a header".to_string()));
    }
    let version_is_right: bool = match find_member(&members, "version") {
        Some(Json::Unsigned(n)) => *n == 4,
        _ => false,
    };
    if !version_is_right {
        return Err(JsonlDecodeError::schema("has unsupported session version".to_string()));
    }
    let parent_session_id: Option<String> = match optional_string(
        &members,
        "parentSessionId",
        "parentSessionId",
    ) {
        Ok(text) => text,
        Err(e) => {
            return Err(e);
        },
    };
    let legacy_parent_session_path: Option<String> = match optional_string(
        &members,
        "legacyParentSessionPath",
        "legacyParentSessionPath",
    ) {
        Ok(text) => text,
        Err(e) => {
            return Err(e);
        },
    };
    if parent_session_id.is_some() && legacy_parent_session_path.is_some() {
        return Err(
            JsonlDecodeError::schema(
                "has both parentSessionId and legacyParentSessionPath".to_string(),
            ),
        );
    }
    let metadata: Option<Json> = match find_member(&members, "metadata") {
        None => None,
        Some(json) => match json {
            Json::Object(_) => Some(json.clone()),
            _ => {
                return Err(JsonlDecodeError::schema("has invalid metadata".to_string()));
            },
        },
    };
    let id: String = match require_string(&members, "id", "id") {
        Ok(id) => id,
        Err(e) => {
            return Err(e);
        },
    };
    let created_at: i64 = match require_timestamp(&members, "createdAt") {
        Ok(time) => time,
        Err(e) => {
            return Err(e);
        },
    };
    let cwd: String = match require_string(&members, "cwd", "cwd") {
        Ok(cwd) => cwd,
        Err(e) => {
            return Err(e);
        },
    };
    Ok(
        JsonlV4Header {
            version: 4,
            id,
            created_at,
            cwd,
            parent_session_id,
            legacy_parent_session_path,
            metadata,
        },
    )
}

/// A member, if there is a value.
pub open spec fn member_if(key: Seq<char>, value: Option<JsonView>) -> Seq<(Seq<char>, JsonView)> {
    match value {
        Some(v) => seq![(key, v)],
        None => Seq::empty(),
    }
}

/// A text as a value, if there is one.
pub open spec fn text_json(text: Option<Seq<char>>) -> Option<JsonView> {
    match text {
        Some(t) => Some(JsonView::Text(t)),
        None => None,
    }
}

/// The members of a header.
pub open spec fn header_members(header: HeaderView) -> Seq<(Seq<char>, JsonView)> {
    seq![
        ("kind"@, JsonView::Text("header"@)),
        ("version"@, JsonView::Unsigned(4)),
        ("id"@, JsonView::Text(header.id)),
        ("createdAt"@, int_view(header.created_at as int)),
        ("cwd"@, JsonView::Text(header.cwd)),
    ] + member_if("parentSessionId"@, text_json(header.parent_session_id)) + member_if(
        "legacyParentSessionPath"@,
        text_json(header.legacy_parent_session_path),
    ) + member_if("metadata"@, header.metadata)
}

/// The line of a header, with its end.
pub open spec fn header_line(header: HeaderView) -> Seq<char> {
    json_text(JsonView::Object(header_members(header))) + "\n"@
}

fn push_text(members: &mut Vec<(String, Json)>, key: &str, text: &Option<String>)
    ensures
        member_views(final(members)@) == member_views(old(members)@) + member_if(
            key@,
            text_json(text_of_option(*text)),
        ),
{
    let ghost before = member_views(members@);
    match text {
        Some(t) => {
            push_member(members, key, Json::Text(t.clone()));
        },
        None => {},
    }
    proof {
        assert(member_views(members@) =~= before + member_if(
            key@,
            text_json(text_of_option(*text)),
        ));
    }
}

/// Whether a text is one line with its end.
pub open spec fn is_one_line(text: Seq<char>) -> bool {
    text.len() > 0 && text.last() == '\n' && !text.drop_last().contains('\n')
}

fn ended_line(line: &str) -> (r: String)
    ensures
        r@ == line@ + "\n"@,
        !line@.contains('\n') ==> is_one_line(r@),
{
    proof {
        reveal_strlit("\n");
        assert((line@ + "\n"@).drop_last() =~= line@);
    }
    concat2(line, "\n")
}

/// The line of a header, with its end.
pub fn encode_header(header: &JsonlV4Header) -> (r: String)
    ensures
        r@ == header_line(header@),
        json_plain(JsonView::Object(header_members(header@))) ==> is_one_line(r@),
{
    let mut members: Vec<(String, Json)> = Vec::new();
    push_member(&mut members, "kind", text_value("header"));
    push_member(&mut members, "version", Json::Unsigned(4));
    push_member(&mut members, "id", Json::Text(header.id.clone()));
    push_member(&mut members, "createdAt", int_value(header.created_at));
    push_member(&mut members, "cwd", Json::Text(header.cwd.clone()));
    push_text(&mut members, "parentSessionId", &header.parent_session_id);
    push_text(&mut members, "legacyParentSessionPath", &header.legacy_parent_session_path);
    match &header.metadata {
        Some(json) => {
            push_member(&mut members, "metadata", json.clone());
        },
        None => {},
    }
    proof {
        assert(member_views(members@) =~= header_members(header@));
    }
    let line: String = write_json(&Json::Object(members));
    ended_line(line.as_str())
}

/// What is known of a session file from its header.
pub fn metadata_from_header(header: &JsonlV4Header, path: String, modified_at: JsF64) -> (r:
    JsonlSessionMetadata)
    ensures
        r.id@ == header.id@,
        r.created_at == header.created_at,
        r.cwd@ == header.cwd@,
        r.path@ == path@,
        r.modified_at == modified_at,
        r.source_format == 4,
        text_of_option(r.parent_session_id) == text_of_option(header.parent_session_id),
        text_of_option(r.legacy_parent_session_path) == text_of_option(
            header.legacy_parent_session_path,
        ),
        optional_json(r.metadata) == optional_json(header.metadata),
{
    JsonlSessionMetadata {
        id: header.id.clone(),
        created_at: header.created_at,
        cwd: header.cwd.clone(),
        path,
        modified_at,
        source_format: 4,
        parent_session_id: crate::types::copy_text(&header.parent_session_id),
        legacy_parent_session_path: crate::types::copy_text(&header.legacy_parent_session_path),
        metadata: match &header.metadata {
            Some(json) => Some(json.clone()),
            None => None,
        },
    }
}

// ---------------------------------------------------------------------------
// Mutations
// ---------------------------------------------------------------------------

/// The names of entry types.
pub open spec fn entry_types() -> Seq<Seq<char>> {
    seq![
        "message"@,
        "model_change"@,
        "thinking_level_change"@,
        "active_tools_change"@,
        "compaction"@,
        "branch_summary"@,
        "custom"@,
    ]
}

/// The names of record types.
pub open spec fn record_types() -> Seq<Seq<char>> {
    seq![
        "operation_started"@,
        "abort_requested"@,
        "operation_finished"@,
        "step_attempt"@,
        "tool_started"@,
        "queue_enqueued"@,
        "queue_cancelled"@,
        "write_deferred"@,
        "usage"@,
    ]
}

/// The names of kinds of operations.
pub open spec fn operation_kinds() -> Seq<Seq<char>> {
    seq!["run"@, "compaction"@, "navigation"@]
}

/// What an entry says, without what the line says of it.
pub open spec fn entry_payload(
    members: Seq<(Seq<char>, JsonView)>,
    seq: u64,
    id: Seq<char>,
    parent: Option<Seq<char>>,
    timestamp: i64,
) -> Seq<(Seq<char>, JsonView)> {
    let bare = without_member(without_member(members, "kind"@), "lane"@);
    let named = with_member(bare, "id"@, JsonView::Text(id));
    let numbered = with_member(named, "seq"@, JsonView::Unsigned(seq as nat));
    let rooted = if parent is None {
        with_member(numbered, "parentId"@, JsonView::Null)
    } else {
        numbered
    };
    with_member(rooted, "timestamp"@, int_view(timestamp as int))
}

/// What a record says, without what the line says of it.
pub open spec fn record_payload(
    members: Seq<(Seq<char>, JsonView)>,
    seq: u64,
    id: Seq<char>,
    lane: Seq<char>,
) -> Seq<(Seq<char>, JsonView)> {
    let bare = without_member(members, "kind"@);
    let named = with_member(bare, "id"@, JsonView::Text(id));
    let placed = with_member(named, "lane"@, JsonView::Text(lane));
    with_member(placed, "seq"@, JsonView::Unsigned(seq as nat))
}

/// The entry of a line, or what is wrong with it.
pub open spec fn entry_of(members: Seq<(Seq<char>, JsonView)>, seq: u64) -> Result<
    WireView,
    DecodeErrorView,
> {
    match optional_text(members, "lane"@, "lane"@) {
        Err(e) => Err(e),
        Ok(lane) => match required_text(members, "id"@, "id"@) {
            Err(e) => Err(e),
            Ok(id) => match required_text(members, "type"@, "entry type"@) {
                Err(e) => Err(e),
                Ok(entry_type) => if !entry_types().contains(entry_type) {
                    Err(schema_error("has unknown entry type "@ + entry_type))
                } else {
                    match nullable_id(members, "parentId"@) {
                        Err(e) => Err(e),
                        Ok(parent) => match timestamp_of(members, "timestamp"@) {
                            Err(e) => Err(e),
                            Ok(timestamp) => if entry_type == "custom"@ && required_text(
                                members,
                                "customType"@,
                                "customType"@,
                            ) is Err {
                                Err(schema_error("has invalid "@ + "customType"@))
                            } else {
                                Ok(
                                    WireView::Entry {
                                        lane,
                                        payload: JsonView::Object(
                                            entry_payload(members, seq, id, parent, timestamp),
                                        ),
                                    },
                                )
                            },
                        },
                    }
                },
            },
        },
    }
}

/// What is wrong with what a record says of its type, if anything.
pub open spec fn record_problem(
    members: Seq<(Seq<char>, JsonView)>,
    record_type: Seq<char>,
) -> Option<DecodeErrorView> {
    if record_type == "operation_started"@ {
        match member_of(members, "intent"@) {
            Some(JsonView::Object(intent)) => match required_text(
                intent,
                "kind"@,
                "operation kind"@,
            ) {
                Err(e) => Some(e),
                Ok(kind) => if operation_kinds().contains(kind) {
                    None
                } else {
                    Some(schema_error("has unknown operation kind "@ + kind))
                },
            },
            _ => Some(schema_error("has invalid intent"@)),
        }
    } else if record_type == "operation_finished"@ {
        match required_text(members, "runId"@, "runId"@) {
            Err(e) => Some(e),
            Ok(_) => None,
        }
    } else {
        None
    }
}

/// The record of a line, or what is wrong with it.
pub open spec fn record_of(members: Seq<(Seq<char>, JsonView)>, seq: u64) -> Result<
    WireView,
    DecodeErrorView,
> {
    match required_text(members, "id"@, "id"@) {
        Err(e) => Err(e),
        Ok(id) => match required_text(members, "lane"@, "lane"@) {
            Err(e) => Err(e),
            Ok(lane) => match required_text(members, "type"@, "record type"@) {
                Err(e) => Err(e),
                Ok(record_type) => if !record_types().contains(record_type) {
                    Err(schema_error("has unknown record type "@ + record_type))
                } else {
                    match timestamp_of(members, "timestamp"@) {
                        Err(e) => Err(e),
                        Ok(_) => match record_problem(members, record_type) {
                            Some(e) => Err(e),
                            None => Ok(
                                WireView::Record {
                                    payload: JsonView::Object(
                                        record_payload(members, seq, id, lane),
                                    ),
                                },
                            ),
                        },
                    }
                },
            },
        },
    }
}

/// The lane pointer of a line, or what is wrong with it.
pub open spec fn lane_of(members: Seq<(Seq<char>, JsonView)>, seq: u64) -> Result<
    WireView,
    DecodeErrorView,
> {
    match required_text(members, "lane"@, "lane"@) {
        Err(e) => Err(e),
        Ok(lane) => match nullable_id(members, "leafId"@) {
            Err(e) => Err(e),
            Ok(leaf) => Ok(WireView::Lane { seq, lane, leaf }),
        },
    }
}

/// The fact of a line, or what is wrong with it.
pub open spec fn fact_of(members: Seq<(Seq<char>, JsonView)>, seq: u64) -> Result<
    WireView,
    DecodeErrorView,
> {
    let fact = member_of(members, "fact"@);
    if fact == Some(JsonView::Text("name"@)) {
        match optional_text(members, "name"@, "name"@) {
            Err(e) => Err(e),
            Ok(name) => Ok(WireView::NameFact { seq, name }),
        }
    } else if fact == Some(JsonView::Text("label"@)) {
        match optional_text(members, "label"@, "label"@) {
            Err(e) => Err(e),
            Ok(label) => match required_text(members, "targetId"@, "targetId"@) {
                Err(e) => Err(e),
                Ok(target) => Ok(WireView::LabelFact { seq, target, label }),
            },
        }
    } else {
        Err(schema_error("has unknown fact type"@))
    }
}

/// The mutation that members say, or what is wrong with them.
pub open spec fn mutation_of(members: Seq<(Seq<char>, JsonView)>) -> Result<
    WireView,
    DecodeErrorView,
> {
    let kind = member_of(members, "kind"@);
    match sequence_of(members) {
        Err(e) => Err(e),
        Ok(seq) => if kind == Some(JsonView::Text("entry"@)) {
            entry_of(members, seq)
        } else if kind == Some(JsonView::Text("record"@)) {
            record_of(members, seq)
        } else if kind == Some(JsonView::Text("lane"@)) {
            lane_of(members, seq)
        } else if kind == Some(JsonView::Text("fact"@)) {
            fact_of(members, seq)
        } else {
            Err(schema_error("has unknown mutation kind"@))
        },
    }
}

/// The mutation that a value says, or what is wrong with it.
pub open spec fn decoded_mutation(value: Result<JsonView, Seq<char>>) -> Result<
    WireView,
    DecodeErrorView,
> {
    match line_members(value) {
        Err(e) => Err(e),
        Ok(members) => mutation_of(members),
    }
}

/// A mutation in terms of mathematical values.
pub open spec fn wire_result(r: Result<WireMutation, JsonlDecodeError>) -> Result<
    WireView,
    DecodeErrorView,
> {
    match r {
        Ok(mutation) => Ok(mutation@),
        Err(e) => Err(e@),
    }
}

fn is_entry_type(name: &str) -> (r: bool)
    ensures
        r == entry_types().contains(name@),
{
    proof {
        let all = entry_types();
        assert(all[0] == "message"@ && all[1] == "model_change"@ && all[2]
            == "thinking_level_change"@ && all[3] == "active_tools_change"@);
        assert(all[4] == "compaction"@ && all[5] == "branch_summary"@ && all[6] == "custom"@);
    }
    same_text(name, "message") || same_text(name, "model_change") || same_text(
        name,
        "thinking_level_change",
    ) || same_text(name, "active_tools_change") || same_text(name, "compaction") || same_text(
        name,
        "branch_summary",
    ) || same_text(name, "custom")
}

fn is_record_type(name: &str) -> (r: bool)
    ensures
        r == record_types().contains(name@),
{
    proof {
        let all = record_types();
        assert(all[0] == "operation_started"@ && all[1] == "abort_requested"@ && all[2]
            == "operation_finished"@ && all[3] == "step_attempt"@);
        assert(all[4] == "tool_started"@ && all[5] == "queue_enqueued"@ && all[6]
            == "queue_cancelled"@ && all[7] == "write_deferred"@ && all[8] == "usage"@);
    }
    same_text(name, "operation_started") || same_text(name, "abort_requested") || same_text(
        name,
        "operation_finished",
    ) || same_text(name, "step_attempt") || same_text(name, "tool_started") || same_text(
        name,
        "queue_enqueued",
    ) || same_text(name, "queue_cancelled") || same_text(name, "write_deferred") || same_text(
        name,
        "usage",
    )
}

fn is_operation_kind(name: &str) -> (r: bool)
    ensures
        r == operation_kinds().contains(name@),
{
    proof {
        let all = operation_kinds();
        assert(all[0] == "run"@ && all[1] == "compaction"@ && all[2] == "navigation"@);
    }
    same_text(name, "run") || same_text(name, "compaction") || same_text(name, "navigation")
}

fn parse_entry_mutation(members: Vec<(String, Json)>, seq: u64) -> (r: Result<
    WireMutation,
    JsonlDecodeError,
>)
    ensures
        wire_result(r) == entry_of(member_views(members@), seq),
{
    let lane: Option<String> = match optional_string(&members, "lane", "lane") {
        Ok(lane) => lane,
        Err(e) => {
            return Err(e);
        },
    };
    let id: String = match require_string(&members, "id", "id") {
        Ok(id) => id,
        Err(e) => {
            return Err(e);
        },
    };
    let entry_type: String = match require_string(&members, "type", "entry type") {
        Ok(name) => name,
        Err(e) => {
            return Err(e);
        },
    };
    if !is_entry_type(entry_type.as_str()) {
        return Err(
            JsonlDecodeError::schema(concat2("has unknown entry type ", entry_type.as_str())),
        );
    }
    let parent_id: Option<String> = match require_nullable_id(&members, "parentId") {
        Ok(parent) => parent,
        Err(e) => {
            return Err(e);
        },
    };
    let timestamp: i64 = match require_timestamp(&members, "timestamp") {
        Ok(time) => time,
        Err(e) => {
            return Err(e);
        },
    };
    if same_text(entry_type.as_str(), "custom") {
        match require_string(&members, "customType", "customType") {
            Ok(_) => {},
            Err(e) => {
                return Err(e);
            },
        }
    }
    let mut payload: Vec<(String, Json)> = drop_member(drop_member(members, "kind"), "lane");
    set_member(&mut payload, "id", Json::Text(id));
    set_member(&mut payload, "seq", Json::Unsigned(seq));
    if parent_id.is_none() {
        set_member(&mut payload, "parentId", Json::Null);
    }
    set_member(&mut payload, "timestamp", int_value(timestamp));
    Ok(WireMutation::Entry { lane, payload: Json::Object(payload) })
}

fn check_record(members: &Vec<(String, Json)>, record_type: &str) -> (r: Result<
    (),
    JsonlDecodeError,
>)
    ensures
        match r {
            Ok(_) => record_problem(member_views(members@), record_type@) is None,
            Err(e) => record_problem(member_views(members@), record_type@) == Some(e@),
        },
{
    if same_text(record_type, "operation_started") {
        match find_member(members, "intent") {
            Some(Json::Object(intent)) => match require_string(intent, "kind", "operation kind") {
                Err(e) => Err(e),
                Ok(kind) => if is_operation_kind(kind.as_str()) {
                    Ok(())
                } else {
                    Err(
                        JsonlDecodeError::schema(
                            concat2("has unknown operation kind ", kind.as_str()),
                        ),
                    )
                },
            },
            _ => Err(JsonlDecodeError::schema("has invalid intent".to_string())),
        }
    } else if same_text(record_type, "operation_finished") {
        match require_string(members, "runId", "runId") {
            Err(e) => Err(e),
            Ok(_) => Ok(()),
        }
    } else {
        Ok(())
    }
}

fn parse_record_mutation(members: Vec<(String, Json)>, seq: u64) -> (r: Result<
    WireMutation,
    JsonlDecodeError,
>)
    ensures
        wire_result(r) == record_of(member_views(members@), seq),
{
    let id: String = match require_string(&members, "id", "id") {
        Ok(id) => id,
        Err(e) => {
            return Err(e);
        },
    };
    let lane: String = match require_string(&members, "lane", "lane") {
        Ok(lane) => lane,
        Err(e) => {
            return Err(e);
        },
    };
    let record_type: String = match require_string(&members, "type", "record type") {
        Ok(name) => name,
        Err(e) => {
            return Err(e);
        },
    };
    if !is_record_type(record_type.as_str()) {
        return Err(
            JsonlDecodeError::schema(concat2("has unknown record type ", record_type.as_str())),
        );
    }
    match require_timestamp(&members, "timestamp") {
        Ok(_) => {},
        Err(e) => {
            return Err(e);
        },
    }
    match check_record(&members, record_type.as_str()) {
        Ok(_) => {},
        Err(e) => {
            return Err(e);
        },
    }
    let mut payload: Vec<(String, Json)> = drop_member(members, "kind");
    set_member(&mut payload, "id", Json::Text(id));
    set_member(&mut payload, "lane", Json::Text(lane));
    set_member(&mut payload, "seq", Json::Unsigned(seq));
    Ok(WireMutation::Record { payload: Json::Object(payload) })
}

fn parse_lane_mutation(members: &Vec<(String, Json)>, seq: u64) -> (r: Result<
    WireMutation,
    JsonlDecodeError,
>)
    ensures
        wire_result(r) == lane_of(member_views(members@), seq),
{
    let lane: String = match require_string(members, "lane", "lane") {
        Ok(lane) => lane,
        Err(e) => {
            return Err(e);
        },
    };
    match require_nullable_id(members, "leafId") {
        Ok(leaf_id) => Ok(WireMutation::Lane { seq, lane, leaf_id }),
        Err(e) => Err(e),
    }
}

fn parse_fact_mutation(members: &Vec<(String, Json)>, seq: u64) -> (r: Result<
    WireMutation,
    JsonlDecodeError,
>)
    ensures
        wire_result(r) == fact_of(member_views(members@), seq),
{
    proof {
        reveal_strlit("name");
        reveal_strlit("label");
    }
    if is_text(find_member(members, "fact"), "name") {
        match optional_string(members, "name", "name") {
            Ok(name) => Ok(WireMutation::NameFact { seq, name }),
            Err(e) => Err(e),
        }
    } else if is_text(find_member(members, "fact"), "label") {
        let label: Option<String> = match optional_string(members, "label", "label") {
            Ok(label) => label,
            Err(e) => {
                return Err(e);
            },
        };
        match require_string(members, "targetId", "targetId") {
            Ok(target_id) => Ok(WireMutation::LabelFact { seq, target_id, label }),
            Err(e) => Err(e),
        }
    } else {
        Err(JsonlDecodeError::schema("has unknown fact type".to_string()))
    }
}

/// The mutation that a parsed line says, or what is wrong with it.
pub fn decode_mutation(value: Result<Json, String>) -> (r: Result<WireMutation, JsonlDecodeError>)
    ensures
        wire_result(r) == decoded_mutation(json_result(value)),
{
    let members: Vec<(String, Json)> = match members_of_line(value) {
        Ok(members) => members,
        Err(e) => {
            return Err(e);
        },
    };
    let seq: u64 = match require_sequence(&members) {
        Ok(seq) => seq,
        Err(e) => {
            return Err(e);
        },
    };
    if is_text(find_member(&members, "kind"), "entry") {
        parse_entry_mutation(members, seq)
    } else if is_text(find_member(&members, "kind"), "record") {
        parse_record_mutation(members, seq)
    } else if is_text(find_member(&members, "kind"), "lane") {
        parse_lane_mutation(&members, seq)
    } else if is_text(find_member(&members, "kind"), "fact") {
        parse_fact_mutation(&members, seq)
    } else {
        Err(JsonlDecodeError::schema("has unknown mutation kind".to_string()))
    }
}

// ---------------------------------------------------------------------------
// Writing mutations
// ---------------------------------------------------------------------------

/// Members with others set one after the other.
pub open spec fn with_members(
    members: Seq<(Seq<char>, JsonView)>,
    more: Seq<(Seq<char>, JsonView)>,
) -> Seq<(Seq<char>, JsonView)>
    decreases more.len(),
{
    if more.len() == 0 {
        members
    } else {
        with_member(with_members(members, more.drop_last()), more.last().0, more.last().1)
    }
}

/// The members of a value, none where it is no object.
pub open spec fn payload_members(payload: JsonView) -> Seq<(Seq<char>, JsonView)> {
    match payload {
        JsonView::Object(members) => members,
        _ => Seq::empty(),
    }
}

/// The members of the line of a mutation.
pub open spec fn wire_members(mutation: WireView) -> Seq<(Seq<char>, JsonView)> {
    match mutation {
        WireView::Entry { lane, payload } => with_members(
            seq![("kind"@, JsonView::Text("entry"@))] + member_if("lane"@, text_json(lane)),
            payload_members(payload),
        ),
        WireView::Record { payload } => with_members(
            seq![("kind"@, JsonView::Text("record"@))],
            payload_members(payload),
        ),
        WireView::Lane { seq, lane, leaf } => seq![
            ("kind"@, JsonView::Text("lane"@)),
            ("seq"@, JsonView::Unsigned(seq as nat)),
            ("lane"@, JsonView::Text(lane)),
            (
                "leafId"@,
                match leaf {
                    Some(id) => JsonView::Text(id),
                    None => JsonView::Null,
                },
            ),
        ],
        WireView::NameFact { seq, name } => seq![
            ("kind"@, JsonView::Text("fact"@)),
            ("seq"@, JsonView::Unsigned(seq as nat)),
            ("fact"@, JsonView::Text("name"@)),
        ] + member_if("name"@, text_json(name)),
        WireView::LabelFact { seq, target, label } => seq![
            ("kind"@, JsonView::Text("fact"@)),
            ("seq"@, JsonView::Unsigned(seq as nat)),
            ("fact"@, JsonView::Text("label"@)),
            ("targetId"@, JsonView::Text(target)),
        ] + member_if("label"@, text_json(label)),
    }
}

/// The line of a mutation, with its end.
pub open spec fn mutation_line(mutation: WireView) -> Seq<char> {
    json_text(JsonView::Object(wire_members(mutation))) + "\n"@
}

/// Whether the value of a mutation is plain. The payload of an entry or a
/// record decides; what a lane, a name or a label says always is.
pub open spec fn wire_plain(mutation: WireView) -> bool {
    mutation is Entry || mutation is Record ==> json_plain(
        JsonView::Object(wire_members(mutation)),
    )
}

/// Whether the parser gives the value of a mutation back. The payload of an
/// entry or a record decides; what a lane, a name or a label says always is.
pub open spec fn wire_readable(mutation: WireView) -> bool {
    mutation is Entry || mutation is Record ==> json_readable(
        JsonView::Object(wire_members(mutation)),
    )
}

/// A value that is neither a container nor a float.
spec fn is_leaf(v: JsonView) -> bool {
    match v {
        JsonView::Unsigned(n) => n <= u64::MAX,
        JsonView::Negative(_) => false,
        JsonView::Float(_) => false,
        JsonView::Array(_) => false,
        JsonView::Object(_) => false,
        _ => true,
    }
}

proof fn lemma_flat_readable(members: Seq<(Seq<char>, JsonView)>)
    requires
        distinct_keys(members),
        forall|i: int| 0 <= i < members.len() ==> is_leaf((#[trigger] members[i]).1),
    ensures
        members_plain(members),
        members_depth(members) == 0,
    decreases members.len(),
{
    if members.len() > 0 {
        let last = members.len() - 1;
        let rest = members.drop_last();
        assert forall|i: int| 0 <= i < rest.len() implies is_leaf((#[trigger] rest[i]).1) by {
            assert(rest[i] == members[i]);
        }
        assert forall|i: int, j: int| 0 <= i < j < rest.len() implies (#[trigger] rest[i]).0 != (
        #[trigger] rest[j]).0 by {
            assert(rest[i] == members[i] && rest[j] == members[j]);
        }
        lemma_flat_readable(rest);
        let value = members.last().1;
        assert(is_leaf(value));
        assert(json_plain(value) && json_depth(value) == 0);
        assert(!has_key(rest, members.last().0)) by {
            if has_key(rest, members.last().0) {
                let i = choose|i: int| 0 <= i < rest.len() && (#[trigger] rest[i]).0
                    == members.last().0;
                assert(rest[i] == members[i]);
                assert(members[i].0 != members[last].0);
            }
        }
    }
}

proof fn lemma_own_fields_readable(mutation: WireView)
    ensures
        mutation is Lane || mutation is NameFact || mutation is LabelFact ==> json_readable(
            JsonView::Object(wire_members(mutation)),
        ),
{
    let all = wire_members(mutation);
    if mutation is Lane || mutation is NameFact || mutation is LabelFact {
        lemma_keys();
        match mutation {
            WireView::Lane { .. } => {
                assert(all[0].0 == "kind"@ && all[1].0 == "seq"@ && all[2].0 == "lane"@
                    && all[3].0 == "leafId"@);
            },
            WireView::NameFact { name, .. } => {
                assert(all[0].0 == "kind"@ && all[1].0 == "seq"@ && all[2].0 == "fact"@);
                assert(name is Some ==> all[3].0 == "name"@);
            },
            WireView::LabelFact { label, .. } => {
                assert(all[0].0 == "kind"@ && all[1].0 == "seq"@ && all[2].0 == "fact"@
                    && all[3].0 == "targetId"@);
                assert(label is Some ==> all[4].0 == "label"@);
            },
            _ => {},
        }
        lemma_flat_readable(all);
    }
}

fn set_all(members: &mut Vec<(String, Json)>, payload: &Json)
    ensures
        member_views(final(members)@) == with_members(
            member_views(old(members)@),
            payload_members(payload@),
        ),
{
    match payload {
        Json::Object(more) => {
            let ghost start = member_views(members@);
            let ghost all = member_views(more@);
            let mut i: usize = 0;
            proof {
                lemma_member_views(more@);
                assert(all.take(0) =~= Seq::<(Seq<char>, JsonView)>::empty());
            }
            while i < more.len()
                invariant
                    i <= more@.len(),
                    all.len() == more@.len(),
                    all == member_views(more@),
                    forall|k: int|
                        0 <= k < more@.len() ==> #[trigger] all[k] == (
                            more@[k].0@,
                            json_view(more@[k].1),
                        ),
                    member_views(members@) == with_members(start, all.take(i as int)),
                decreases more@.len() - i,
            {
                proof {
                    assert(all.take(i + 1).drop_last() =~= all.take(i as int));
                    assert(all.take(i + 1).last() == all[i as int]);
                }
                set_member(members, more[i].0.as_str(), more[i].1.clone());
                i = i + 1;
            }
            proof {
                assert(all.take(all.len() as int) =~= all);
            }
        },
        _ => {},
    }
}

/// The line of a mutation, with its end.
pub fn encode_mutation(mutation: &WireMutation) -> (r: String)
    ensures
        r@ == mutation_line(mutation@),
        wire_plain(mutation@) ==> is_one_line(r@),
{
    let mut members: Vec<(String, Json)> = Vec::new();
    match mutation {
        WireMutation::Entry { lane, payload } => {
            push_member(&mut members, "kind", text_value("entry"));
            push_text(&mut members, "lane", lane);
            proof {
                assert(member_views(members@) =~= seq![("kind"@, JsonView::Text("entry"@))]
                    + member_if("lane"@, text_json(text_of_option(*lane))));
            }
            set_all(&mut members, payload);
        },
        WireMutation::Record { payload } => {
            push_member(&mut members, "kind", text_value("record"));
            proof {
                assert(member_views(members@) =~= seq![("kind"@, JsonView::Text("record"@))]);
            }
            set_all(&mut members, payload);
        },
        WireMutation::Lane { seq, lane, leaf_id } => {
            push_member(&mut members, "kind", text_value("lane"));
            push_member(&mut members, "seq", Json::Unsigned(*seq));
            push_member(&mut members, "lane", Json::Text(lane.clone()));
            match leaf_id {
                Some(id) => {
                    push_member(&mut members, "leafId", Json::Text(id.clone()));
                },
                None => {
                    push_member(&mut members, "leafId", Json::Null);
                },
            }
        },
        WireMutation::NameFact { seq, name } => {
            push_member(&mut members, "kind", text_value("fact"));
            push_member(&mut members, "seq", Json::Unsigned(*seq));
            push_member(&mut members, "fact", text_value("name"));
            push_text(&mut members, "name", name);
        },
        WireMutation::LabelFact { seq, target_id, label } => {
            push_member(&mut members, "kind", text_value("fact"));
            push_member(&mut members, "seq", Json::Unsigned(*seq));
            push_member(&mut members, "fact", text_value("label"));
            push_member(&mut members, "targetId", Json::Text(target_id.clone()));
            push_text(&mut members, "label", label);
        },
    }
    proof {
        assert(member_views(members@) =~= wire_members(mutation@));
        lemma_own_fields_readable(mutation@);
    }
    let line: String = write_json(&Json::Object(members));
    ended_line(line.as_str())
}

// ---------------------------------------------------------------------------
// Reading back what was written
// ---------------------------------------------------------------------------

/// Whether no two members have the same key.
pub open spec fn distinct_keys(members: Seq<(Seq<char>, JsonView)>) -> bool {
    forall|i: int, j: int|
        0 <= i < j < members.len() ==> (#[trigger] members[i]).0 != (#[trigger] members[j]).0
}

proof fn lemma_position(members: Seq<(Seq<char>, JsonView)>, key: Seq<char>, from: int)
    requires
        0 <= from <= members.len(),
    ensures
        match member_position(members, key, from) {
            Some(i) => from <= i < members.len() && members[i].0 == key && member_of(
                members.skip(from),
                key,
            ) == Some(members[i].1),
            None => member_of(members.skip(from), key) is None && forall|k: int|
                from <= k < members.len() ==> (#[trigger] members[k]).0 != key,
        },
    decreases members.len() - from,
{
    if from < members.len() {
        assert(members.skip(from)[0] == members[from]);
        assert(members.skip(from).drop_first() =~= members.skip(from + 1));
        if members[from].0 != key {
            lemma_position(members, key, from + 1);
        }
    }
}

/// Setting a member to the value that it has changes nothing.
proof fn lemma_set_same(members: Seq<(Seq<char>, JsonView)>, key: Seq<char>, value: JsonView)
    requires
        member_of(members, key) == Some(value),
    ensures
        with_member(members, key, value) == members,
{
    lemma_position(members, key, 0);
    assert(members.skip(0) =~= members);
    assert(with_member(members, key, value) =~= members);
}

/// A member that is missing is set at the end.
proof fn lemma_set_new(members: Seq<(Seq<char>, JsonView)>, key: Seq<char>, value: JsonView)
    requires
        !has_key(members, key),
    ensures
        with_member(members, key, value) == members.push((key, value)),
{
    lemma_position(members, key, 0);
    assert(members.skip(0) =~= members);
}

proof fn lemma_set_all_new(
    base: Seq<(Seq<char>, JsonView)>,
    more: Seq<(Seq<char>, JsonView)>,
)
    requires
        distinct_keys(more),
        forall|i: int| 0 <= i < more.len() ==> !has_key(base, (#[trigger] more[i]).0),
    ensures
        with_members(base, more) == base + more,
    decreases more.len(),
{
    if more.len() > 0 {
        let front = more.drop_last();
        assert forall|i: int| 0 <= i < front.len() implies !has_key(
            base,
            (#[trigger] front[i]).0,
        ) by {
            assert(front[i] == more[i]);
        }
        assert(distinct_keys(front)) by {
            assert forall|i: int, j: int| 0 <= i < j < front.len() implies (#[trigger] front[i]).0
                != (#[trigger] front[j]).0 by {
                assert(front[i] == more[i] && front[j] == more[j]);
            }
        }
        lemma_set_all_new(base, front);
        let key = more.last().0;
        assert(!has_key(base + front, key)) by {
            if has_key(base + front, key) {
                let k = choose|k: int|
                    0 <= k < (base + front).len() && (#[trigger] (base + front)[k]).0 == key;
                if k < base.len() {
                    assert(base[k].0 == key);
                    assert(has_key(base, more[more.len() - 1].0));
                } else {
                    assert(front[k - base.len()] == more[k - base.len()]);
                }
            }
        }
        lemma_set_new(base + front, key, more.last().1);
        assert((base + front).push(more.last()) =~= base + more);
    } else {
        assert(base + more =~= base);
    }
}

proof fn lemma_member_of_parts(
    a: Seq<(Seq<char>, JsonView)>,
    b: Seq<(Seq<char>, JsonView)>,
    key: Seq<char>,
)
    requires
        !has_key(a, key),
    ensures
        member_of(a + b, key) == member_of(b, key),
    decreases a.len(),
{
    if a.len() > 0 {
        assert((a + b)[0] == a[0]);
        assert(a[0].0 != key);
        assert((a + b).drop_first() =~= a.drop_first() + b);
        assert(!has_key(a.drop_first(), key)) by {
            if has_key(a.drop_first(), key) {
                let k = choose|k: int|
                    0 <= k < a.drop_first().len() && (#[trigger] a.drop_first()[k]).0 == key;
                assert(a[k + 1].0 == key);
            }
        }
        lemma_member_of_parts(a.drop_first(), b, key);
    } else {
        assert(a + b =~= b);
    }
}

proof fn lemma_member_at(members: Seq<(Seq<char>, JsonView)>, key: Seq<char>, i: int)
    requires
        0 <= i < members.len(),
        members[i].0 == key,
        forall|k: int| 0 <= k < i ==> (#[trigger] members[k]).0 != key,
    ensures
        member_of(members, key) == Some(members[i].1),
    decreases i,
{
    if i > 0 {
        assert(members[0].0 != key);
        let rest = members.drop_first();
        assert(rest[i - 1] == members[i]);
        assert forall|k: int| 0 <= k < i - 1 implies (#[trigger] rest[k]).0 != key by {
            assert(rest[k] == members[k + 1]);
        }
        lemma_member_at(rest, key, i - 1);
    }
}

proof fn lemma_member_none(members: Seq<(Seq<char>, JsonView)>, key: Seq<char>)
    requires
        !has_key(members, key),
    ensures
        member_of(members, key) is None,
    decreases members.len(),
{
    lemma_member_of_parts(members, Seq::empty(), key);
    assert(members + Seq::<(Seq<char>, JsonView)>::empty() =~= members);
}

proof fn lemma_drop_parts(
    a: Seq<(Seq<char>, JsonView)>,
    b: Seq<(Seq<char>, JsonView)>,
    key: Seq<char>,
)
    requires
        !has_key(b, key),
    ensures
        without_member(a + b, key) == without_member(a, key) + b,
    decreases b.len(),
{
    if b.len() > 0 {
        let front = b.drop_last();
        assert((a + b).drop_last() =~= a + front);
        assert((a + b).last() == b.last());
        assert(b[b.len() - 1].0 != key);
        assert(!has_key(front, key)) by {
            if has_key(front, key) {
                let k = choose|k: int| 0 <= k < front.len() && (#[trigger] front[k]).0 == key;
                assert(b[k].0 == key);
            }
        }
        lemma_drop_parts(a, front, key);
        assert((without_member(a, key) + front).push(b.last()) =~= without_member(a, key) + b);
    } else {
        assert(a + b =~= a);
        assert(without_member(a, key) + b =~= without_member(a, key));
    }
}

/// Whether a header is one that a file can begin with.
pub open spec fn header_valid(header: HeaderView) -> bool {
    &&& header.version == 4
    &&& header.created_at >= 0
    &&& header.parent_session_id is None || header.legacy_parent_session_path is None
    &&& header.metadata matches Some(value) ==> value is Object
}

/// Whether what an entry says can be read back.
pub open spec fn entry_valid(payload: Seq<(Seq<char>, JsonView)>) -> bool {
    &&& distinct_keys(payload)
    &&& !has_key(payload, "kind"@)
    &&& !has_key(payload, "lane"@)
    &&& sequence_of(payload) is Ok
    &&& required_text(payload, "id"@, "id"@) is Ok
    &&& required_text(payload, "type"@, "entry type"@) matches Ok(entry_type) && {
        &&& entry_types().contains(entry_type)
        &&& entry_type == "custom"@ ==> required_text(payload, "customType"@, "customType"@) is Ok
    }
    &&& member_of(payload, "parentId"@) is Some
    &&& nullable_id(payload, "parentId"@) is Ok
    &&& timestamp_of(payload, "timestamp"@) is Ok
}

/// Whether what a record says can be read back.
pub open spec fn record_valid(payload: Seq<(Seq<char>, JsonView)>) -> bool {
    &&& distinct_keys(payload)
    &&& !has_key(payload, "kind"@)
    &&& sequence_of(payload) is Ok
    &&& required_text(payload, "id"@, "id"@) is Ok
    &&& required_text(payload, "lane"@, "lane"@) is Ok
    &&& required_text(payload, "type"@, "record type"@) matches Ok(record_type) && {
        &&& record_types().contains(record_type)
        &&& record_problem(payload, record_type) is None
    }
    &&& timestamp_of(payload, "timestamp"@) is Ok
}

/// Whether a mutation is one that a line can hold.
pub open spec fn wire_valid(mutation: WireView) -> bool {
    match mutation {
        WireView::Entry { payload, .. } => payload matches JsonView::Object(members)
            && entry_valid(members),
        WireView::Record { payload } => payload matches JsonView::Object(members) && record_valid(
            members,
        ),
        WireView::Lane { seq, .. } => 0 < seq <= i64::MAX,
        WireView::NameFact { seq, .. } => 0 < seq <= i64::MAX,
        WireView::LabelFact { seq, .. } => 0 < seq <= i64::MAX,
    }
}

proof fn lemma_keys()
    ensures
        "kind"@ != "lane"@,
        "kind"@ != "seq"@,
        "kind"@ != "fact"@,
        "kind"@ != "name"@,
        "kind"@ != "id"@,
        "kind"@ != "type"@,
        "kind"@ != "parentId"@,
        "kind"@ != "timestamp"@,
        "kind"@ != "customType"@,
        "kind"@ != "intent"@,
        "kind"@ != "runId"@,
        "kind"@ != "leafId"@,
        "kind"@ != "targetId"@,
        "kind"@ != "label"@,
        "lane"@ != "seq"@,
        "lane"@ != "id"@,
        "lane"@ != "type"@,
        "lane"@ != "parentId"@,
        "lane"@ != "timestamp"@,
        "lane"@ != "customType"@,
        "lane"@ != "leafId"@,
        "seq"@ != "leafId"@,
        "seq"@ != "fact"@,
        "seq"@ != "name"@,
        "seq"@ != "targetId"@,
        "seq"@ != "label"@,
        "fact"@ != "name"@,
        "fact"@ != "targetId"@,
        "fact"@ != "label"@,
        "targetId"@ != "label"@,
        "name"@ != "label"@,
        "entry"@ != "record"@,
        "entry"@ != "lane"@,
        "entry"@ != "fact"@,
        "record"@ != "lane"@,
        "record"@ != "fact"@,
        "lane"@ != "fact"@,
{
    reveal_strlit("kind");
    reveal_strlit("lane");
    reveal_strlit("seq");
    reveal_strlit("fact");
    reveal_strlit("name");
    reveal_strlit("id");
    reveal_strlit("type");
    reveal_strlit("parentId");
    reveal_strlit("timestamp");
    reveal_strlit("customType");
    reveal_strlit("intent");
    reveal_strlit("runId");
    reveal_strlit("leafId");
    reveal_strlit("targetId");
    reveal_strlit("label");
    reveal_strlit("entry");
    reveal_strlit("record");
    assert("kind"@[0] == 'k' && "lane"@[0] == 'l' && "fact"@[0] == 'f' && "name"@[0] == 'n'
        && "type"@[0] == 't' && "entry"@[0] == 'e' && "label"@[0] == 'l' && "runId"@[0] == 'r');
    assert("kind"@.len() == 4 && "lane"@.len() == 4 && "seq"@.len() == 3 && "id"@.len() == 2);
    assert("parentId"@.len() == 8 && "timestamp"@.len() == 9 && "customType"@.len() == 10);
    assert("intent"@.len() == 6 && "leafId"@.len() == 6 && "targetId"@.len() == 8);
    assert("label"@.len() == 5 && "entry"@.len() == 5 && "record"@.len() == 6);
    assert("fact"@.len() == 4 && "name"@.len() == 4 && "type"@.len() == 4 && "runId"@.len() == 5);
}

proof fn lemma_entry_reads_back(lane: Option<Seq<char>>, payload: Seq<(Seq<char>, JsonView)>)
    requires
        entry_valid(payload),
    ensures
        mutation_of(
            wire_members(WireView::Entry { lane, payload: JsonView::Object(payload) }),
        ) == Ok::<WireView, DecodeErrorView>(
            WireView::Entry { lane, payload: JsonView::Object(payload) },
        ),
{
    lemma_keys();
    let head = seq![("kind"@, JsonView::Text("entry"@))];
    let placed = member_if("lane"@, text_json(lane));
    let base = head + placed;
    assert forall|i: int| 0 <= i < payload.len() implies !has_key(
        base,
        (#[trigger] payload[i]).0,
    ) by {
        if has_key(base, payload[i].0) {
            let k = choose|k: int| 0 <= k < base.len() && (#[trigger] base[k]).0 == payload[i].0;
            assert(k == 0 ==> has_key(payload, "kind"@));
            assert(k == 1 ==> has_key(payload, "lane"@));
        }
    }
    lemma_set_all_new(base, payload);
    let all = base + payload;
    assert forall|key: Seq<char>| key != "kind"@ && key != "lane"@ implies #[trigger] member_of(
        all,
        key,
    ) == member_of(payload, key) by {
        assert(!has_key(base, key));
        lemma_member_of_parts(base, payload, key);
    }
    assert(base[0] == ("kind"@, JsonView::Text("entry"@)));
    lemma_member_at(all, "kind"@, 0);
    assert(optional_text(all, "lane"@, "lane"@) == Ok::<Option<Seq<char>>, DecodeErrorView>(lane))
        by {
        match lane {
            Some(name) => {
                assert(all[1] == ("lane"@, JsonView::Text(name)));
                lemma_member_at(all, "lane"@, 1);
            },
            None => {
                assert(!has_key(all, "lane"@)) by {
                    if has_key(all, "lane"@) {
                        let k = choose|k: int|
                            0 <= k < all.len() && (#[trigger] all[k]).0 == "lane"@;
                        assert(k > 0);
                        assert(all[k] == payload[k - 1]);
                    }
                }
                lemma_member_none(all, "lane"@);
            },
        }
    }
    lemma_drop_parts(base, payload, "kind"@);
    assert(without_member(base, "kind"@) =~= placed) by {
        reveal_with_fuel(without_member, 3);
        assert(base.drop_last() =~= if lane is Some {
            head
        } else {
            Seq::<(Seq<char>, JsonView)>::empty()
        });
        if lane is Some {
            assert(head.drop_last() =~= Seq::<(Seq<char>, JsonView)>::empty());
            assert(base.last() == placed[0]);
        }
    }
    lemma_drop_parts(placed, payload, "lane"@);
    assert(without_member(placed, "lane"@) =~= Seq::<(Seq<char>, JsonView)>::empty()) by {
        reveal_with_fuel(without_member, 2);
        if lane is Some {
            assert(placed.drop_last() =~= Seq::<(Seq<char>, JsonView)>::empty());
        }
    }
    assert(Seq::<(Seq<char>, JsonView)>::empty() + payload =~= payload);
    let id = required_text(payload, "id"@, "id"@)->Ok_0;
    let seq = sequence_of(payload)->Ok_0;
    let time = timestamp_of(payload, "timestamp"@)->Ok_0;
    lemma_set_same(payload, "id"@, JsonView::Text(id));
    lemma_set_same(payload, "seq"@, JsonView::Unsigned(seq as nat));
    if nullable_id(payload, "parentId"@)->Ok_0 is None {
        lemma_set_same(payload, "parentId"@, JsonView::Null);
    }
    lemma_set_same(payload, "timestamp"@, int_view(time as int));
}

proof fn lemma_record_reads_back(payload: Seq<(Seq<char>, JsonView)>)
    requires
        record_valid(payload),
    ensures
        mutation_of(
            wire_members(WireView::Record { payload: JsonView::Object(payload) }),
        ) == Ok::<WireView, DecodeErrorView>(
            WireView::Record { payload: JsonView::Object(payload) },
        ),
{
    lemma_keys();
    let base = seq![("kind"@, JsonView::Text("record"@))];
    assert forall|i: int| 0 <= i < payload.len() implies !has_key(
        base,
        (#[trigger] payload[i]).0,
    ) by {
        if has_key(base, payload[i].0) {
            assert(has_key(payload, "kind"@));
        }
    }
    lemma_set_all_new(base, payload);
    let all = base + payload;
    assert forall|key: Seq<char>| key != "kind"@ implies #[trigger] member_of(all, key)
        == member_of(payload, key) by {
        assert(!has_key(base, key));
        lemma_member_of_parts(base, payload, key);
    }
    lemma_member_at(all, "kind"@, 0);
    lemma_drop_parts(base, payload, "kind"@);
    assert(without_member(base, "kind"@) =~= Seq::<(Seq<char>, JsonView)>::empty()) by {
        reveal_with_fuel(without_member, 2);
        assert(base.drop_last() =~= Seq::<(Seq<char>, JsonView)>::empty());
    }
    assert(Seq::<(Seq<char>, JsonView)>::empty() + payload =~= payload);
    lemma_set_same(payload, "id"@, JsonView::Text(required_text(payload, "id"@, "id"@)->Ok_0));
    lemma_set_same(
        payload,
        "lane"@,
        JsonView::Text(required_text(payload, "lane"@, "lane"@)->Ok_0),
    );
    lemma_set_same(payload, "seq"@, JsonView::Unsigned(sequence_of(payload)->Ok_0 as nat));
}

proof fn lemma_plain_reads_back(mutation: WireView)
    requires
        wire_valid(mutation),
        mutation is Lane || mutation is NameFact || mutation is LabelFact,
    ensures
        mutation_of(wire_members(mutation)) == Ok::<WireView, DecodeErrorView>(mutation),
{
    lemma_keys();
    let all = wire_members(mutation);
    assert(all[0].0 == "kind"@ && all[1].0 == "seq"@);
    lemma_member_at(all, "kind"@, 0);
    lemma_member_at(all, "seq"@, 1);
    match mutation {
        WireView::Lane { seq, lane, leaf } => {
            assert(all[2].0 == "lane"@ && all[3].0 == "leafId"@);
            lemma_member_at(all, "lane"@, 2);
            lemma_member_at(all, "leafId"@, 3);
        },
        WireView::NameFact { seq, name } => {
            assert(all[2] == ("fact"@, JsonView::Text("name"@)));
            lemma_member_at(all, "fact"@, 2);
            match name {
                Some(text) => {
                    assert(all[3] == ("name"@, JsonView::Text(text)));
                    lemma_member_at(all, "name"@, 3);
                },
                None => {
                    lemma_member_none(all, "name"@);
                },
            }
        },
        WireView::LabelFact { seq, target, label } => {
            assert(all[2] == ("fact"@, JsonView::Text("label"@)));
            assert(all[3] == ("targetId"@, JsonView::Text(target)));
            lemma_member_at(all, "fact"@, 2);
            lemma_member_at(all, "targetId"@, 3);
            match label {
                Some(text) => {
                    assert(all[4] == ("label"@, JsonView::Text(text)));
                    lemma_member_at(all, "label"@, 4);
                },
                None => {
                    lemma_member_none(all, "label"@);
                },
            }
        },
        _ => {},
    }
}

/// The value that is written for a mutation says that mutation.
pub proof fn law_mutations_read_back(mutation: WireView)
    requires
        wire_valid(mutation),
    ensures
        decoded_mutation(Ok(JsonView::Object(wire_members(mutation)))) == Ok::<
            WireView,
            DecodeErrorView,
        >(mutation),
{
    match mutation {
        WireView::Entry { lane, payload } => {
            lemma_entry_reads_back(lane, payload->Object_0);
        },
        WireView::Record { payload } => {
            lemma_record_reads_back(payload->Object_0);
        },
        _ => {
            lemma_plain_reads_back(mutation);
        },
    }
}

proof fn lemma_header_keys()
    ensures
        "kind"@ != "version"@,
        "kind"@ != "id"@,
        "kind"@ != "createdAt"@,
        "kind"@ != "cwd"@,
        "kind"@ != "parentSessionId"@,
        "kind"@ != "legacyParentSessionPath"@,
        "kind"@ != "metadata"@,
        "version"@ != "id"@,
        "version"@ != "createdAt"@,
        "version"@ != "cwd"@,
        "version"@ != "parentSessionId"@,
        "version"@ != "legacyParentSessionPath"@,
        "version"@ != "metadata"@,
        "id"@ != "createdAt"@,
        "id"@ != "cwd"@,
        "id"@ != "parentSessionId"@,
        "id"@ != "legacyParentSessionPath"@,
        "id"@ != "metadata"@,
        "createdAt"@ != "cwd"@,
        "createdAt"@ != "parentSessionId"@,
        "createdAt"@ != "legacyParentSessionPath"@,
        "createdAt"@ != "metadata"@,
        "cwd"@ != "parentSessionId"@,
        "cwd"@ != "legacyParentSessionPath"@,
        "cwd"@ != "metadata"@,
        "parentSessionId"@ != "legacyParentSessionPath"@,
        "parentSessionId"@ != "metadata"@,
        "legacyParentSessionPath"@ != "metadata"@,
{
    reveal_strlit("kind");
    reveal_strlit("version");
    reveal_strlit("id");
    reveal_strlit("createdAt");
    reveal_strlit("cwd");
    reveal_strlit("parentSessionId");
    reveal_strlit("legacyParentSessionPath");
    reveal_strlit("metadata");
    assert("kind"@.len() == 4 && "version"@.len() == 7 && "id"@.len() == 2);
    assert("createdAt"@.len() == 9 && "cwd"@.len() == 3 && "parentSessionId"@.len() == 15);
    assert("legacyParentSessionPath"@.len() == 23 && "metadata"@.len() == 8);
}

/// The value that is written for a header says that header.
pub proof fn law_headers_read_back(header: HeaderView)
    requires
        header_valid(header),
    ensures
        decoded_header(Ok(JsonView::Object(header_members(header)))) == Ok::<
            HeaderView,
            DecodeErrorView,
        >(header),
{
    lemma_header_keys();
    let all = header_members(header);
    assert(all[0] == ("kind"@, JsonView::Text("header"@)));
    assert(all[1] == ("version"@, JsonView::Unsigned(4)));
    assert(all[2] == ("id"@, JsonView::Text(header.id)));
    assert(all[3] == ("createdAt"@, int_view(header.created_at as int)));
    assert(all[4] == ("cwd"@, JsonView::Text(header.cwd)));
    lemma_member_at(all, "kind"@, 0);
    lemma_member_at(all, "version"@, 1);
    lemma_member_at(all, "id"@, 2);
    lemma_member_at(all, "createdAt"@, 3);
    lemma_member_at(all, "cwd"@, 4);
    let one = header.parent_session_id is Some || header.legacy_parent_session_path is Some;
    match header.parent_session_id {
        Some(text) => {
            assert(all[5] == ("parentSessionId"@, JsonView::Text(text)));
            lemma_member_at(all, "parentSessionId"@, 5);
        },
        None => {
            lemma_member_none(all, "parentSessionId"@);
        },
    }
    match header.legacy_parent_session_path {
        Some(text) => {
            assert(all[5] == ("legacyParentSessionPath"@, JsonView::Text(text)));
            lemma_member_at(all, "legacyParentSessionPath"@, 5);
        },
        None => {
            lemma_member_none(all, "legacyParentSessionPath"@);
        },
    }
    match header.metadata {
        Some(value) => {
            let at = if one {
                6int
            } else {
                5int
            };
            assert(all[at] == ("metadata"@, value));
            lemma_member_at(all, "metadata"@, at);
        },
        None => {
            lemma_member_none(all, "metadata"@);
        },
    }
}

/// Whether a text is a written line, with its end or without it.
pub open spec fn with_or_without_end(text: Seq<char>, line: Seq<char>) -> bool {
    text == line || text + "\n"@ == line
}

/// Whether the outcome for a line that was written for a header is that header.
pub open spec fn reads_header_back(
    line: Seq<char>,
    r: Result<JsonlV4Header, JsonlDecodeError>,
) -> bool {
    forall|header: HeaderView|
        header_valid(header) && json_readable(JsonView::Object(header_members(header)))
            && with_or_without_end(line, #[trigger] header_line(header)) ==> header_result(r)
            == Ok::<HeaderView, DecodeErrorView>(header)
}

/// Whether the outcome for a line that was written for a mutation is that
/// mutation.
pub open spec fn reads_mutation_back(
    line: Seq<char>,
    r: Result<WireMutation, JsonlDecodeError>,
) -> bool {
    forall|mutation: WireView|
        wire_valid(mutation) && wire_readable(mutation) && with_or_without_end(
            line,
            #[trigger] mutation_line(mutation),
        ) ==> wire_result(r) == Ok::<WireView, DecodeErrorView>(mutation)
}

proof fn lemma_same_line(a: Seq<char>, b: Seq<char>)
    requires
        a + "\n"@ == b + "\n"@,
    ensures
        a == b,
{
    reveal_strlit("\n");
    let end = "\n"@;
    assert((a + end).len() == a.len() + end.len());
    assert((b + end).len() == b.len() + end.len());
    assert(a =~= (a + "\n"@).take(a.len() as int));
    assert(b =~= (b + "\n"@).take(b.len() as int));
}

/// The header that a line says, or what is wrong with it. A line that was
/// written for a header is read as that header, with its line end or without.
pub fn parse_header(line: &str) -> (r: Result<JsonlV4Header, JsonlDecodeError>)
    ensures
        header_result(r) == decoded_header(parsed_json(line@)),
        reads_header_back(line@, r),
{
    let value: Result<Json, String> = parse_json(line);
    let ghost parsed = json_result(value);
    let ghost back = reads_back(line@, value);
    let r: Result<JsonlV4Header, JsonlDecodeError> = decode_header(value);
    proof {
        assert forall|header: HeaderView|
            header_valid(header) && json_readable(JsonView::Object(header_members(header)))
                && with_or_without_end(line@, #[trigger] header_line(header)) implies header_result(
            r,
        ) == Ok::<HeaderView, DecodeErrorView>(header) by {
            let written = JsonView::Object(header_members(header));
            if line@ + "\n"@ == header_line(header) {
                lemma_same_line(line@, json_text(written));
            }
            assert(back);
            assert(parsed == Ok::<JsonView, Seq<char>>(written));
            law_headers_read_back(header);
        }
    }
    r
}

/// The mutation that a line says, or what is wrong with it. A line that was
/// written for a mutation is read as that mutation, with its line end or
/// without.
pub fn parse_mutation(line: &str) -> (r: Result<WireMutation, JsonlDecodeError>)
    ensures
        wire_result(r) == decoded_mutation(parsed_json(line@)),
        reads_mutation_back(line@, r),
{
    let value: Result<Json, String> = parse_json(line);
    let ghost parsed = json_result(value);
    let ghost back = reads_back(line@, value);
    let r: Result<WireMutation, JsonlDecodeError> = decode_mutation(value);
    proof {
        assert forall|mutation: WireView|
            wire_valid(mutation) && wire_readable(mutation) && with_or_without_end(
                line@,
                #[trigger] mutation_line(mutation),
            ) implies wire_result(r) == Ok::<WireView, DecodeErrorView>(mutation) by {
            let written = JsonView::Object(wire_members(mutation));
            lemma_own_fields_readable(mutation);
            if line@ + "\n"@ == mutation_line(mutation) {
                lemma_same_line(line@, json_text(written));
            }
            assert(back);
            assert(parsed == Ok::<JsonView, Seq<char>>(written));
            law_mutations_read_back(mutation);
        }
    }
    r
}

} // verus!

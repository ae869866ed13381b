//! What a tool hands back to the model.

use vstd::prelude::*;

use crate::json::{push_member, text_value, Json, JsonView};
use crate::messages::text_block;
use crate::types::{
    block_views, optional_texts, text_block_view, BlockContent, BlockView, ImageContent, Usage,
};

verus! {

/// What a tool hands back to the model.
pub struct AgentToolResult {
    pub content: Vec<BlockContent>,
    pub details: Json,
    pub usage: Option<Usage>,
    pub added_tool_names: Option<Vec<String>>,
    pub terminate: Option<bool>,
}

/// The mathematical value of an [`AgentToolResult`].
pub struct ToolResultView {
    pub content: Seq<BlockView>,
    pub details: JsonView,
    pub usage: Option<Usage>,
    pub added_tool_names: Option<Seq<Seq<char>>>,
    pub terminate: Option<bool>,
}

impl View for AgentToolResult {
    type V = ToolResultView;

    open spec fn view(&self) -> ToolResultView {
        ToolResultView {
            content: block_views(self.content@),
            details: self.details@,
            usage: self.usage,
            added_tool_names: optional_texts(self.added_tool_names),
            terminate: self.terminate,
        }
    }
}

/// A result of blocks with details.
pub open spec fn result_of(content: Seq<BlockView>, details: JsonView) -> ToolResultView {
    ToolResultView { content, details, usage: None, added_tool_names: None, terminate: None }
}

/// A result of one text with details.
pub open spec fn text_result_view(text: Seq<char>, details: JsonView) -> ToolResultView {
    result_of(seq![text_block_view(text)], details)
}

/// A result of nothing.
pub fn empty_result() -> (r: AgentToolResult)
    ensures
        r@ == result_of(Seq::empty(), JsonView::Null),
{
    let content: Vec<BlockContent> = Vec::new();
    proof {
        assert(block_views(content@) =~= Seq::empty());
    }
    AgentToolResult {
        content,
        details: Json::Null,
        usage: None,
        added_tool_names: None,
        terminate: None,
    }
}

/// A result of one text with details.
pub fn text_result(text: String, details: Json) -> (r: AgentToolResult)
    ensures
        r@ == text_result_view(text@, details@),
{
    let mut content: Vec<BlockContent> = Vec::new();
    content.push(text_block(text));
    proof {
        assert(block_views(content@) =~= seq![text_block_view(text@)]);
    }
    AgentToolResult { content, details, usage: None, added_tool_names: None, terminate: None }
}

/// A result of a text and an image.
pub open spec fn image_result_view(
    text: Seq<char>,
    data: Seq<char>,
    mime_type: Seq<char>,
) -> ToolResultView {
    result_of(seq![text_block_view(text), BlockView::Image { data, mime_type }], JsonView::Null)
}

/// A result of a text and an image.
pub fn image_result(text: String, data: String, mime_type: String) -> (r: AgentToolResult)
    ensures
        r@ == image_result_view(text@, data@, mime_type@),
{
    let mut content: Vec<BlockContent> = Vec::new();
    content.push(text_block(text));
    content.push(BlockContent::Image(ImageContent { data, mime_type }));
    proof {
        assert(block_views(content@) =~= seq![
            text_block_view(text@),
            BlockView::Image { data: data@, mime_type: mime_type@ },
        ]);
    }
    AgentToolResult {
        content,
        details: Json::Null,
        usage: None,
        added_tool_names: None,
        terminate: None,
    }
}

/// The outcome of a tool: a result, or the text of an error.
pub open spec fn tool_outcome(r: Result<AgentToolResult, String>) -> Result<
    ToolResultView,
    Seq<char>,
> {
    match r {
        Ok(result) => Ok(result@),
        Err(text) => Err(text@),
    }
}

/// The schema of a property of one type.
pub open spec fn property_view(kind: Seq<char>, description: Seq<char>) -> JsonView {
    JsonView::Object(
        seq![("type"@, JsonView::Text(kind)), ("description"@, JsonView::Text(description))],
    )
}

/// The schema of a property of one type.
pub fn property(kind: &str, description: &str) -> (r: Json)
    ensures
        r@ == property_view(kind@, description@),
{
    let mut members: Vec<(String, Json)> = Vec::new();
    push_member(&mut members, "type", text_value(kind));
    push_member(&mut members, "description", text_value(description));
    proof {
        assert(crate::json::member_views(members@) =~= seq![
            ("type"@, JsonView::Text(kind@)),
            ("description"@, JsonView::Text(description@)),
        ]);
    }
    Json::Object(members)
}

/// The schema of an object with properties, some of them required.
pub open spec fn object_schema_view(required: JsonView, properties: JsonView) -> JsonView {
    JsonView::Object(
        seq![
            ("type"@, JsonView::Text("object"@)),
            ("required"@, required),
            ("properties"@, properties),
        ],
    )
}

/// The schema of an object with properties, some of them required.
pub fn object_schema(required: Json, properties: Json) -> (r: Json)
    ensures
        r@ == object_schema_view(required@, properties@),
{
    let mut members: Vec<(String, Json)> = Vec::new();
    push_member(&mut members, "type", text_value("object"));
    push_member(&mut members, "required", required);
    push_member(&mut members, "properties", properties);
    proof {
        assert(crate::json::member_views(members@) =~= seq![
            ("type"@, JsonView::Text("object"@)),
            ("required"@, required@),
            ("properties"@, properties@),
        ]);
    }
    Json::Object(members)
}

/// How a tool is presented to the model.
pub struct ToolDefinition {
    pub name: String,
    pub label: String,
    pub description: String,
    pub parameters: Json,
}

impl ToolDefinition {
    /// Whether a definition has a name, which is its label too, a description and
    /// parameters.
    pub open spec fn presents(
        self,
        name: Seq<char>,
        description: Seq<char>,
        parameters: JsonView,
    ) -> bool {
        &&& self.name@ == name
        &&& self.label@ == name
        &&& self.description@ == description
        &&& self.parameters@ == parameters
    }
}

/// A tool with its name as its label.
pub fn define_tool(name: &str, description: &str, parameters: Json) -> (r: ToolDefinition)
    ensures
        r.presents(name@, description@, parameters@),
{
    ToolDefinition {
        name: name.to_string(),
        label: name.to_string(),
        description: description.to_string(),
        parameters,
    }
}

} // verus!

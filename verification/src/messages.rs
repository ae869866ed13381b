//! The messages that a harness adds to a transcript, and the conversion of a
//! transcript to what a model provider understands.

use std::sync::Arc;

use vstd::prelude::*;

use crate::json::{
    int_value, int_view, json_view, json_views, lemma_json_views, member_views, push_item,
    push_member, text_value, Json, JsonView,
};
use crate::text::{concat2, concat3, concat4, same_text, signed_decimal, signed_decimal_text};
use crate::types::{
    block_views, message_views, share, text_block_view, AgentMessage, AgentMessageView,
    BlockContent, BlockView, CustomAgentMessage, ImageContent, Message, MessageView, TextContent,
    UserContent, UserContentView, UserMessage,
};

verus! {

pub const COMPACTION_SUMMARY_PREFIX: &'static str = "The conversation history before this point was compacted into the following summary:\n\n<summary>\n";

pub const COMPACTION_SUMMARY_SUFFIX: &'static str = "\n</summary>";

pub const BRANCH_SUMMARY_PREFIX: &'static str = "The following is a summary of a branch that this conversation came back from:\n\n<summary>\n";

pub const BRANCH_SUMMARY_SUFFIX: &'static str = "</summary>";

/// A shell command that ran outside of the model's control.
pub struct BashExecutionMessage {
    pub role: String,
    pub command: String,
    pub output: String,
    pub exit_code: Option<i32>,
    pub cancelled: bool,
    pub truncated: bool,
    pub full_output_path: Option<String>,
    pub timestamp: i64,
    pub exclude_from_context: Option<bool>,
}

/// A message of the application with the given role and payload.
pub fn custom_message(role: &str, fields: Json) -> (r: AgentMessage)
    ensures
        r@ == (AgentMessageView::Custom { role: role@, value: fields@ }),
{
    AgentMessage::Custom(Arc::new(CustomAgentMessage { role: role.to_owned(), value: fields }))
}

/// A user message that consists of one block of text.
pub open spec fn user_text_view(text: Seq<char>, timestamp: int) -> MessageView {
    MessageView::User {
        content: UserContentView::Blocks(seq![text_block_view(text)]),
        timestamp,
    }
}

fn user_message(content: Vec<BlockContent>, timestamp: i64) -> (r: Message)
    ensures
        r@ == (MessageView::User {
            content: UserContentView::Blocks(block_views(content@)),
            timestamp: timestamp as int,
        }),
{
    Message::User(Arc::new(UserMessage { content: UserContent::Blocks(content), timestamp }))
}

/// A block of plain text.
pub fn text_block(text: String) -> (r: BlockContent)
    ensures
        r@ == text_block_view(text@),
{
    BlockContent::Text(TextContent { text, text_signature: None })
}

/// A user message that consists of one block of text.
pub fn user_text_message(text: String, timestamp: i64) -> (r: Message)
    ensures
        r@ == user_text_view(text@, timestamp as int),
{
    let mut blocks: Vec<BlockContent> = Vec::new();
    let ghost content = text@;
    blocks.push(text_block(text));
    proof {
        assert(block_views(blocks@) =~= seq![text_block_view(content)]);
    }
    user_message(blocks, timestamp)
}

/// The timestamp of a payload, or zero.
pub open spec fn timestamp_of(value: JsonView) -> int {
    match value.int_field("timestamp"@) {
        Some(i) => i,
        None => 0,
    }
}

fn message_timestamp(value: &Json) -> (r: i64)
    ensures
        r == timestamp_of(value@),
{
    match value.int_field("timestamp") {
        Some(i) => i,
        None => 0,
    }
}

// ---------------------------------------------------------------------------
// Shell executions
// ---------------------------------------------------------------------------

/// How a command ended, when that is worth telling.
pub open spec fn ending_text(message: JsonView) -> Seq<char> {
    if message.bool_field("cancelled"@) {
        "\n\n(command cancelled)"@
    } else {
        match message.int_field("exitCode"@) {
            Some(code) if code != 0 => "\n\nCommand exited with code "@ + signed_decimal(code),
            _ => ""@,
        }
    }
}

/// Where the whole output of a command is, when it was truncated.
pub open spec fn full_output_text(message: JsonView) -> Seq<char> {
    match message.optional_text_field("fullOutputPath"@) {
        Some(path) if message.bool_field("truncated"@) =>
            "\n\n[Output truncated. Full output: "@ + path + "]"@,
        _ => ""@,
    }
}

/// The text that tells a model of a command: the command, its output, how it
/// ended, and where the whole output is.
pub open spec fn execution_text(message: JsonView) -> Seq<char> {
    let output = message.text_field("output"@);
    "Ran `"@ + message.text_field("command"@) + "`\n"@ + (if output.len() > 0 {
        "```\n"@ + output + "\n```"@
    } else {
        "(no output)"@
    }) + ending_text(message) + full_output_text(message)
}

/// The text that tells a model of a command.
pub fn bash_execution_to_text(message: &Json) -> (r: String)
    ensures
        r@ == execution_text(message@),
{
    let command: String = message.text_field("command");
    let output: String = message.text_field("output");
    let shown: String = if output.as_str().unicode_len() > 0 {
        concat3("```\n", output.as_str(), "\n```")
    } else {
        "(no output)".to_owned()
    };
    let ending: String = if message.bool_field("cancelled") {
        "\n\n(command cancelled)".to_owned()
    } else {
        match message.int_field("exitCode") {
            Some(code) => if code != 0 {
                concat2("\n\nCommand exited with code ", signed_decimal_text(code).as_str())
            } else {
                "".to_owned()
            },
            None => "".to_owned(),
        }
    };
    let full: String = match message.optional_text_field("fullOutputPath") {
        Some(path) => if message.bool_field("truncated") {
            concat3("\n\n[Output truncated. Full output: ", path.as_str(), "]")
        } else {
            "".to_owned()
        },
        None => "".to_owned(),
    };
    let head: String = concat3("Ran `", command.as_str(), "`\n");
    concat4(head.as_str(), shown.as_str(), ending.as_str(), full.as_str())
}

// ---------------------------------------------------------------------------
// Summaries and custom messages
// ---------------------------------------------------------------------------

/// The message that stands for a summarized branch.
pub open spec fn branch_summary_view(
    summary: Seq<char>,
    from_id: Seq<char>,
    timestamp: int,
) -> AgentMessageView {
    AgentMessageView::Custom {
        role: "branchSummary"@,
        value: JsonView::Object(
            seq![
                ("role"@, JsonView::Text("branchSummary"@)),
                ("summary"@, JsonView::Text(summary)),
                ("fromId"@, JsonView::Text(from_id)),
                ("timestamp"@, int_view(timestamp)),
            ],
        ),
    }
}

/// The message that stands for a summarized branch.
pub fn create_branch_summary_message(summary: String, from_id: String, timestamp: i64) -> (r:
    AgentMessage)
    ensures
        r@ == branch_summary_view(summary@, from_id@, timestamp as int),
{
    let mut members: Vec<(String, Json)> = Vec::new();
    push_member(&mut members, "role", text_value("branchSummary"));
    push_member(&mut members, "summary", Json::Text(summary));
    push_member(&mut members, "fromId", Json::Text(from_id));
    push_member(&mut members, "timestamp", int_value(timestamp));
    let r: AgentMessage = custom_message("branchSummary", Json::Object(members));
    proof {
        assert(member_views(members@) =~= branch_summary_view(
            summary@,
            from_id@,
            timestamp as int,
        )->value->Object_0);
    }
    r
}

/// The message that stands for compacted history.
pub open spec fn compaction_summary_view(
    summary: Seq<char>,
    tokens_before: nat,
    timestamp: int,
) -> AgentMessageView {
    AgentMessageView::Custom {
        role: "compactionSummary"@,
        value: JsonView::Object(
            seq![
                ("role"@, JsonView::Text("compactionSummary"@)),
                ("summary"@, JsonView::Text(summary)),
                ("tokensBefore"@, JsonView::Unsigned(tokens_before)),
                ("timestamp"@, int_view(timestamp)),
            ],
        ),
    }
}

/// The message that stands for compacted history.
pub fn create_compaction_summary_message(summary: String, tokens_before: u64, timestamp: i64) -> (r:
    AgentMessage)
    ensures
        r@ == compaction_summary_view(summary@, tokens_before as nat, timestamp as int),
{
    let mut members: Vec<(String, Json)> = Vec::new();
    push_member(&mut members, "role", text_value("compactionSummary"));
    push_member(&mut members, "summary", Json::Text(summary));
    push_member(&mut members, "tokensBefore", Json::Unsigned(tokens_before));
    push_member(&mut members, "timestamp", int_value(timestamp));
    let r: AgentMessage = custom_message("compactionSummary", Json::Object(members));
    proof {
        assert(member_views(members@) =~= compaction_summary_view(
            summary@,
            tokens_before as nat,
            timestamp as int,
        )->value->Object_0);
    }
    r
}

/// The content of a custom message.
pub enum CustomMessageContent {
    Text(String),
    Blocks(Vec<BlockContent>),
}

/// The JSON value of a block.
pub open spec fn block_json(block: BlockView) -> JsonView {
    match block {
        BlockView::Text { text, signature } => match signature {
            Some(s) => JsonView::Object(
                seq![
                    ("type"@, JsonView::Text("text"@)),
                    ("text"@, JsonView::Text(text)),
                    ("textSignature"@, JsonView::Text(s)),
                ],
            ),
            None => JsonView::Object(
                seq![("type"@, JsonView::Text("text"@)), ("text"@, JsonView::Text(text))],
            ),
        },
        BlockView::Image { data, mime_type } => JsonView::Object(
            seq![
                ("type"@, JsonView::Text("image"@)),
                ("data"@, JsonView::Text(data)),
                ("mimeType"@, JsonView::Text(mime_type)),
            ],
        ),
    }
}

/// The JSON value of some blocks.
pub open spec fn blocks_json(blocks: Seq<BlockView>) -> Seq<JsonView> {
    Seq::new(blocks.len(), |i: int| block_json(blocks[i]))
}

fn block_value(block: &BlockContent) -> (r: Json)
    ensures
        r@ == block_json(block@),
{
    let mut members: Vec<(String, Json)> = Vec::new();
    match block {
        BlockContent::Text(t) => {
            push_member(&mut members, "type", text_value("text"));
            push_member(&mut members, "text", Json::Text(t.text.clone()));
            if let Some(signature) = &t.text_signature {
                push_member(&mut members, "textSignature", Json::Text(signature.clone()));
            }
        },
        BlockContent::Image(i) => {
            push_member(&mut members, "type", text_value("image"));
            push_member(&mut members, "data", Json::Text(i.data.clone()));
            push_member(&mut members, "mimeType", Json::Text(i.mime_type.clone()));
        },
    }
    proof {
        assert(member_views(members@) =~= block_json(block@)->Object_0);
    }
    Json::Object(members)
}

fn blocks_value(blocks: &Vec<BlockContent>) -> (r: Json)
    ensures
        r@ == JsonView::Array(blocks_json(block_views(blocks@))),
{
    let ghost all = blocks_json(block_views(blocks@));
    let mut out: Vec<Json> = Vec::new();
    let mut i: usize = 0;
    proof {
        assert(json_views(out@) =~= all.take(0));
    }
    while i < blocks.len()
        invariant
            i <= blocks@.len(),
            all == blocks_json(block_views(blocks@)),
            json_views(out@) == all.take(i as int),
        decreases blocks@.len() - i,
    {
        push_item(&mut out, block_value(&blocks[i]));
        proof {
            assert(all.take(i as int + 1) =~= all.take(i as int).push(all[i as int]));
        }
        i = i + 1;
    }
    proof {
        assert(all.take(all.len() as int) =~= all);
    }
    Json::Array(out)
}

/// The JSON value of the content of a custom message.
pub open spec fn custom_content_json(content: CustomMessageContent) -> JsonView {
    match content {
        CustomMessageContent::Text(text) => JsonView::Text(text@),
        CustomMessageContent::Blocks(blocks) => JsonView::Array(
            blocks_json(block_views(blocks@)),
        ),
    }
}

/// A message that an extension adds.
pub open spec fn custom_view(
    custom_type: Seq<char>,
    content: JsonView,
    display: bool,
    details: JsonView,
    timestamp: int,
) -> AgentMessageView {
    AgentMessageView::Custom {
        role: "custom"@,
        value: JsonView::Object(
            seq![
                ("role"@, JsonView::Text("custom"@)),
                ("customType"@, JsonView::Text(custom_type)),
                ("content"@, content),
                ("display"@, JsonView::Bool(display)),
                ("details"@, details),
                ("timestamp"@, int_view(timestamp)),
            ],
        ),
    }
}

/// A message that an extension adds.
pub fn create_custom_message(
    custom_type: String,
    content: CustomMessageContent,
    display: bool,
    details: Json,
    timestamp: i64,
) -> (r: AgentMessage)
    ensures
        r@ == custom_view(
            custom_type@,
            custom_content_json(content),
            display,
            details@,
            timestamp as int,
        ),
{
    let ghost expected = custom_view(
        custom_type@,
        custom_content_json(content),
        display,
        details@,
        timestamp as int,
    );
    let value: Json = match content {
        CustomMessageContent::Text(text) => Json::Text(text),
        CustomMessageContent::Blocks(blocks) => blocks_value(&blocks),
    };
    let mut members: Vec<(String, Json)> = Vec::new();
    push_member(&mut members, "role", text_value("custom"));
    push_member(&mut members, "customType", Json::Text(custom_type));
    push_member(&mut members, "content", value);
    push_member(&mut members, "display", Json::Bool(display));
    push_member(&mut members, "details", details);
    push_member(&mut members, "timestamp", int_value(timestamp));
    let r: AgentMessage = custom_message("custom", Json::Object(members));
    proof {
        assert(member_views(members@) =~= expected->value->Object_0);
    }
    r
}

// ---------------------------------------------------------------------------
// Conversion
// ---------------------------------------------------------------------------

/// The block that a JSON value stands for.
pub open spec fn block_of_json(value: JsonView) -> Option<BlockView> {
    let kind = value.optional_text_field("type"@);
    if kind == Some("text"@) {
        match (value.optional_text_field("text"@), value.get("textSignature"@)) {
            (Some(text), None) => Some(text_block_view(text)),
            (Some(text), Some(JsonView::Null)) => Some(text_block_view(text)),
            (Some(text), Some(JsonView::Text(s))) => Some(
                BlockView::Text { text, signature: Some(s) },
            ),
            _ => None,
        }
    } else if kind == Some("image"@) {
        match (value.optional_text_field("data"@), value.optional_text_field("mimeType"@)) {
            (Some(data), Some(mime_type)) => Some(BlockView::Image { data, mime_type }),
            _ => None,
        }
    } else {
        None
    }
}

/// The blocks that JSON values stand for, when each stands for one.
pub open spec fn blocks_of_json(items: Seq<JsonView>) -> Option<Seq<BlockView>> {
    if forall|i: int| 0 <= i < items.len() ==> block_of_json(#[trigger] items[i]) is Some {
        Some(Seq::new(items.len(), |i: int| block_of_json(items[i]).unwrap()))
    } else {
        None
    }
}

fn read_block(value: &Json) -> (r: Option<BlockContent>)
    ensures
        match r {
            Some(b) => block_of_json(value@) == Some(b@),
            None => block_of_json(value@) is None,
        },
{
    let kind: String = match value.optional_text_field("type") {
        Some(kind) => kind,
        None => {
            return None;
        },
    };
    if same_text(kind.as_str(), "text") {
        let text: String = match value.optional_text_field("text") {
            Some(text) => text,
            None => {
                return None;
            },
        };
        match value.get("textSignature") {
            None => Some(text_block(text)),
            Some(Json::Null) => Some(text_block(text)),
            Some(Json::Text(signature)) => Some(
                BlockContent::Text(TextContent { text, text_signature: Some(signature.clone()) }),
            ),
            Some(_) => None,
        }
    } else if same_text(kind.as_str(), "image") {
        match (value.optional_text_field("data"), value.optional_text_field("mimeType")) {
            (Some(data), Some(mime_type)) => Some(
                BlockContent::Image(ImageContent { data, mime_type }),
            ),
            _ => None,
        }
    } else {
        None
    }
}

/// The blocks that JSON values stand for, when each stands for one.
pub fn read_blocks(items: &Vec<Json>) -> (r: Option<Vec<BlockContent>>)
    ensures
        match r {
            Some(blocks) => blocks_of_json(json_views(items@)) == Some(block_views(blocks@)),
            None => blocks_of_json(json_views(items@)) is None,
        },
{
    let ghost views = json_views(items@);
    proof {
        lemma_json_views(items@);
    }
    let mut out: Vec<BlockContent> = Vec::new();
    let mut i: usize = 0;
    while i < items.len()
        invariant
            i <= items@.len(),
            views == json_views(items@),
            views.len() == items@.len(),
            forall|k: int| 0 <= k < items@.len() ==> #[trigger] views[k] == json_view(items@[k]),
            out@.len() == i,
            forall|k: int| 0 <= k < i ==> block_of_json(#[trigger] views[k]) == Some(out@[k]@),
        decreases items@.len() - i,
    {
        proof {
            assert(views[i as int] == json_view(items@[i as int]));
        }
        match read_block(&items[i]) {
            Some(block) => {
                out.push(block);
            },
            None => {
                return None;
            },
        }
        i = i + 1;
    }
    proof {
        assert(blocks_of_json(views).unwrap() =~= block_views(out@));
    }
    Some(out)
}

/// The blocks of a custom message: its text, or its blocks when all of them
/// can be read.
pub open spec fn custom_blocks(value: JsonView) -> Seq<BlockView> {
    match value.get("content"@) {
        Some(JsonView::Text(text)) => seq![text_block_view(text)],
        Some(JsonView::Array(items)) => match blocks_of_json(items) {
            Some(blocks) => blocks,
            None => Seq::empty(),
        },
        _ => Seq::empty(),
    }
}

/// What a model provider sees of an application message.
pub open spec fn custom_for_llm(role: Seq<char>, value: JsonView) -> Option<MessageView> {
    let time = timestamp_of(value);
    if role == "bashExecution"@ {
        if value.bool_field("excludeFromContext"@) {
            None
        } else {
            Some(user_text_view(execution_text(value), time))
        }
    } else if role == "custom"@ {
        Some(
            MessageView::User {
                content: UserContentView::Blocks(custom_blocks(value)),
                timestamp: time,
            },
        )
    } else if role == "branchSummary"@ {
        Some(
            user_text_view(
                BRANCH_SUMMARY_PREFIX@ + value.text_field("summary"@) + BRANCH_SUMMARY_SUFFIX@,
                time,
            ),
        )
    } else if role == "compactionSummary"@ {
        Some(
            user_text_view(
                COMPACTION_SUMMARY_PREFIX@ + value.text_field("summary"@)
                    + COMPACTION_SUMMARY_SUFFIX@,
                time,
            ),
        )
    } else {
        None
    }
}

/// What a model provider sees of a message.
pub open spec fn for_llm(message: AgentMessageView) -> Option<MessageView> {
    match message {
        AgentMessageView::User { content, timestamp } => Some(
            MessageView::User { content, timestamp },
        ),
        AgentMessageView::Assistant(m) => Some(MessageView::Assistant(m)),
        AgentMessageView::ToolResult(m) => Some(MessageView::ToolResult(m)),
        AgentMessageView::Custom { role, value } => custom_for_llm(role, value),
    }
}

/// What a model provider sees of a transcript.
pub open spec fn llm_messages(messages: Seq<AgentMessageView>) -> Seq<MessageView>
    decreases messages.len(),
{
    if messages.len() == 0 {
        Seq::empty()
    } else {
        let before = llm_messages(messages.drop_last());
        match for_llm(messages.last()) {
            Some(m) => before.push(m),
            None => before,
        }
    }
}

fn convert_custom(custom: &CustomAgentMessage) -> (r: Option<Message>)
    ensures
        match r {
            Some(m) => custom_for_llm(custom.role@, custom.value@) == Some(m@),
            None => custom_for_llm(custom.role@, custom.value@) is None,
        },
{
    let value: &Json = &custom.value;
    let role: &str = custom.role.as_str();
    let time: i64 = message_timestamp(value);
    if same_text(role, "bashExecution") {
        if value.bool_field("excludeFromContext") {
            None
        } else {
            Some(user_text_message(bash_execution_to_text(value), time))
        }
    } else if same_text(role, "custom") {
        let mut blocks: Vec<BlockContent> = Vec::new();
        match value.get("content") {
            Some(Json::Text(text)) => {
                blocks.push(text_block(text.clone()));
            },
            Some(Json::Array(items)) => {
                if let Some(found) = read_blocks(items) {
                    blocks = found;
                }
            },
            _ => {},
        }
        proof {
            assert(block_views(blocks@) =~= custom_blocks(value@));
        }
        Some(user_message(blocks, time))
    } else if same_text(role, "branchSummary") {
        let summary: String = value.text_field("summary");
        Some(
            user_text_message(
                concat3(BRANCH_SUMMARY_PREFIX, summary.as_str(), BRANCH_SUMMARY_SUFFIX),
                time,
            ),
        )
    } else if same_text(role, "compactionSummary") {
        let summary: String = value.text_field("summary");
        Some(
            user_text_message(
                concat3(COMPACTION_SUMMARY_PREFIX, summary.as_str(), COMPACTION_SUMMARY_SUFFIX),
                time,
            ),
        )
    } else {
        None
    }
}

/// Converts a transcript to what a model provider understands: standard
/// messages as they are, the harness's own as user messages.
pub fn convert_to_llm(messages: &Vec<AgentMessage>) -> (r: Vec<Message>)
    ensures
        message_views(r@) == llm_messages(crate::types::agent_message_views(messages@)),
{
    let ghost views = crate::types::agent_message_views(messages@);
    let mut out: Vec<Message> = Vec::new();
    let mut i: usize = 0;
    proof {
        assert(message_views(out@) =~= llm_messages(views.take(0)));
    }
    while i < messages.len()
        invariant
            i <= messages@.len(),
            views == crate::types::agent_message_views(messages@),
            message_views(out@) == llm_messages(views.take(i as int)),
        decreases messages@.len() - i,
    {
        let ghost before = out@;
        proof {
            assert(views.take(i as int + 1).drop_last() =~= views.take(i as int));
            assert(views.take(i as int + 1).last() == messages@[i as int]@);
        }
        let converted: Option<Message> = match &messages[i] {
            AgentMessage::User(m) => Some(Message::User(share(m))),
            AgentMessage::Assistant(m) => Some(Message::Assistant(share(m))),
            AgentMessage::ToolResult(m) => Some(Message::ToolResult(share(m))),
            AgentMessage::Custom(m) => convert_custom(m),
        };
        if let Some(message) = converted {
            out.push(message);
            proof {
                assert(message_views(out@) =~= message_views(before).push(message@));
            }
        }
        i = i + 1;
    }
    proof {
        assert(views.take(views.len() as int) =~= views);
    }
    out
}

// ---------------------------------------------------------------------------
// Laws
// ---------------------------------------------------------------------------

/// Blocks survive the way through their JSON value.
pub proof fn law_blocks_read_back(blocks: Seq<BlockView>)
    ensures
        blocks_of_json(blocks_json(blocks)) == Some(blocks),
{
    let items = blocks_json(blocks);
    assert forall|i: int| 0 <= i < items.len() implies block_of_json(#[trigger] items[i]) == Some(
        blocks[i],
    ) by {
        lemma_block_reads_back(blocks[i]);
    }
    assert(blocks_of_json(items).unwrap() =~= blocks);
}

proof fn lemma_block_reads_back(block: BlockView)
    ensures
        block_of_json(block_json(block)) == Some(block),
{
    reveal_strlit("type");
    reveal_strlit("text");
    reveal_strlit("textSignature");
    reveal_strlit("image");
    reveal_strlit("data");
    reveal_strlit("mimeType");
    reveal_with_fuel(crate::json::member_of, 4);
    assert("type"@.len() == 4 && "text"@.len() == 4 && "type"@[1] != "text"@[1]);
    assert("textSignature"@.len() == 13);
    assert("image"@.len() == 5);
    assert("mimeType"@.len() == 8);
    let members = block_json(block)->Object_0;
    assert(members.drop_first().len() == members.len() - 1);
    assert(members.drop_first()[0] == members[1]);
    if members.len() == 3 {
        assert(members.drop_first().drop_first()[0] == members[2]);
    }
    assert("data"@.len() == 4 && "data"@[0] != "type"@[0]);
}

} // verus!

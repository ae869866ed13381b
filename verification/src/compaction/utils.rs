//! Files that a conversation touched, and conversations as plain text.

use vstd::prelude::*;

use crate::json::{json_text, json_view, member_index, member_views, write_json, Json, JsonView};
use crate::text::{
    byte_len, concat2, concat3, concat4, cut_at, decimal, decimal_text, find_cut, join, join_texts,
    same_text, texts, utf8_len,
};
use crate::text_set::{lists, TextSet};
use crate::types::{
    agent_message_views, block_views, message_views, AgentMessage, AgentMessageView,
    AssistantContent, AssistantMessage, BlockContent, BlockView, Message, MessageView, ToolCall,
    UserContent, UserContentView,
};

verus! {

// ---------------------------------------------------------------------------
// Files
// ---------------------------------------------------------------------------

/// The files that a range of a session touched.
pub struct FileOperations {
    /// Files that were read.
    pub read: TextSet,
    /// Files that were written as a whole.
    pub written: TextSet,
    /// Files that were edited.
    pub edited: TextSet,
}

/// The mathematical value of [`FileOperations`].
#[verifier::ext_equal]
pub struct FileOperationsView {
    pub read: Set<Seq<char>>,
    pub written: Set<Seq<char>>,
    pub edited: Set<Seq<char>>,
}

impl View for FileOperations {
    type V = FileOperationsView;

    open spec fn view(&self) -> FileOperationsView {
        FileOperationsView { read: self.read@, written: self.written@, edited: self.edited@ }
    }
}

/// No files.
pub open spec fn no_files() -> FileOperationsView {
    FileOperationsView { read: Set::empty(), written: Set::empty(), edited: Set::empty() }
}

/// No files.
pub fn create_file_ops() -> (r: FileOperations)
    ensures
        r@ == no_files(),
{
    FileOperations { read: TextSet::new(), written: TextSet::new(), edited: TextSet::new() }
}

/// The path that a tool call names.
pub open spec fn path_argument(call: ToolCall) -> Option<Seq<char>> {
    JsonView::Object(member_views(call.arguments@)).optional_text_field("path"@)
}

/// The files after a tool call.
pub open spec fn files_after_call(files: FileOperationsView, call: ToolCall) -> FileOperationsView {
    match path_argument(call) {
        Some(path) => if call.name@ == "read"@ {
            FileOperationsView { read: files.read.insert(path), ..files }
        } else if call.name@ == "write"@ {
            FileOperationsView { written: files.written.insert(path), ..files }
        } else if call.name@ == "edit"@ {
            FileOperationsView { edited: files.edited.insert(path), ..files }
        } else {
            files
        },
        None => files,
    }
}

/// The files after the tool calls of an assistant message.
pub open spec fn files_after_content(files: FileOperationsView, content: Seq<AssistantContent>) -> FileOperationsView
    decreases content.len(),
{
    if content.len() == 0 {
        files
    } else {
        let before = files_after_content(files, content.drop_last());
        match content.last() {
            AssistantContent::ToolCall(call) => files_after_call(before, call),
            _ => before,
        }
    }
}

/// The files after a message.
pub open spec fn files_after(files: FileOperationsView, message: AgentMessageView) -> FileOperationsView {
    match message {
        AgentMessageView::Assistant(m) => files_after_content(files, m.content@),
        _ => files,
    }
}

/// The files after several messages.
pub open spec fn files_after_all(files: FileOperationsView, messages: Seq<AgentMessageView>) -> FileOperationsView
    decreases messages.len(),
{
    if messages.len() == 0 {
        files
    } else {
        files_after(files_after_all(files, messages.drop_last()), messages.last())
    }
}

fn call_path(call: &ToolCall) -> (r: Option<String>)
    ensures
        match r {
            Some(path) => path_argument(*call) == Some(path@),
            None => path_argument(*call) is None,
        },
{
    match member_index(&call.arguments, "path") {
        Some(i) => match &call.arguments[i].1 {
            Json::Text(path) => Some(path.clone()),
            _ => None,
        },
        None => None,
    }
}

/// Adds the files that a message's tool calls touched.
pub fn extract_file_ops_from_message(message: &AgentMessage, file_ops: &mut FileOperations)
    ensures
        final(file_ops)@ == files_after(old(file_ops)@, message@),
{
    let ghost before = file_ops@;
    if let AgentMessage::Assistant(m) = message {
        let mut i: usize = 0;
        proof {
            assert(m.content@.take(0) =~= Seq::<AssistantContent>::empty());
        }
        while i < m.content.len()
            invariant
                i <= m.content@.len(),
                file_ops@ == files_after_content(before, m.content@.take(i as int)),
            decreases m.content@.len() - i,
        {
            proof {
                assert(m.content@.take(i as int + 1).drop_last() =~= m.content@.take(i as int));
            }
            if let AssistantContent::ToolCall(call) = &m.content[i] {
                if let Some(path) = call_path(call) {
                    if same_text(call.name.as_str(), "read") {
                        file_ops.read.insert(path);
                    } else if same_text(call.name.as_str(), "write") {
                        file_ops.written.insert(path);
                    } else if same_text(call.name.as_str(), "edit") {
                        file_ops.edited.insert(path);
                    }
                }
            }
            i = i + 1;
        }
        proof {
            assert(m.content@.take(m.content@.len() as int) =~= m.content@);
        }
    }
}

/// Adds the files that several messages' tool calls touched.
pub fn extract_file_ops_from_messages(messages: &Vec<AgentMessage>, file_ops: &mut FileOperations)
    ensures
        final(file_ops)@ == files_after_all(old(file_ops)@, agent_message_views(messages@)),
{
    let ghost before = file_ops@;
    let ghost views = agent_message_views(messages@);
    let mut i: usize = 0;
    proof {
        assert(views.take(0) =~= Seq::<AgentMessageView>::empty());
    }
    while i < messages.len()
        invariant
            i <= messages@.len(),
            views == agent_message_views(messages@),
            file_ops@ == files_after_all(before, views.take(i as int)),
        decreases messages@.len() - i,
    {
        proof {
            assert(views.take(i as int + 1).drop_last() =~= views.take(i as int));
            assert(views.take(i as int + 1).last() == messages@[i as int]@);
        }
        extract_file_ops_from_message(&messages[i], file_ops);
        i = i + 1;
    }
    proof {
        assert(views.take(views.len() as int) =~= views);
    }
}

/// Adds texts to a set.
pub fn insert_all(set: &mut TextSet, items: &Vec<String>)
    ensures
        forall|t: Seq<char>|
            #[trigger] final(set)@.contains(t) == (old(set)@.contains(t) || texts(items@).contains(
                t,
            )),
{
    let ghost before = set@;
    let mut i: usize = 0;
    proof {
        assert(texts(items@).take(0) =~= Seq::<Seq<char>>::empty());
    }
    while i < items.len()
        invariant
            i <= items@.len(),
            forall|t: Seq<char>|
                #[trigger] set@.contains(t) == (before.contains(t) || texts(items@).take(
                    i as int,
                ).contains(t)),
        decreases items@.len() - i,
    {
        let ghost earlier = texts(items@).take(i as int);
        let ghost held = set@;
        set.insert(items[i].clone());
        proof {
            let longer = texts(items@).take(i as int + 1);
            assert(longer =~= earlier.push(items@[i as int]@));
            assert forall|t: Seq<char>| #[trigger] set@.contains(t) == (before.contains(t)
                || longer.contains(t)) by {
                if earlier.contains(t) {
                    let k = choose|k: int| 0 <= k < earlier.len() && earlier[k] == t;
                    assert(longer[k] == t);
                }
                if longer.contains(t) {
                    let k = choose|k: int| 0 <= k < longer.len() && longer[k] == t;
                    if k < earlier.len() {
                        assert(earlier[k] == t);
                    }
                }
                assert(longer[i as int] == items@[i as int]@);
                assert(held.contains(t) == (before.contains(t) || earlier.contains(t)));
            }
        }
        i = i + 1;
    }
    proof {
        assert(texts(items@).take(items@.len() as int) =~= texts(items@));
    }
}

/// The files that were changed.
pub open spec fn modified_set(files: FileOperationsView) -> Set<Seq<char>> {
    files.edited.union(files.written)
}

/// The files that were read and not changed.
pub open spec fn read_only_set(files: FileOperationsView) -> Set<Seq<char>> {
    files.read.difference(modified_set(files))
}

/// The files that were only read, and the files that were changed, each in
/// order.
pub fn compute_file_lists(file_ops: &FileOperations) -> (r: (Vec<String>, Vec<String>))
    ensures
        lists(texts(r.0@), read_only_set(file_ops@)),
        lists(texts(r.1@), modified_set(file_ops@)),
{
    let mut modified: TextSet = TextSet::new();
    let edited: Vec<String> = file_ops.edited.to_list();
    let written: Vec<String> = file_ops.written.to_list();
    insert_all(&mut modified, &edited);
    insert_all(&mut modified, &written);
    proof {
        assert(modified@ =~= modified_set(file_ops@));
    }
    let read: Vec<String> = file_ops.read.to_list();
    let mut read_only: TextSet = TextSet::new();
    let mut i: usize = 0;
    while i < read.len()
        invariant
            i <= read@.len(),
            modified@ == modified_set(file_ops@),
            forall|t: Seq<char>|
                #[trigger] read_only@.contains(t) == (texts(read@).take(i as int).contains(t)
                    && !modified@.contains(t)),
        decreases read@.len() - i,
    {
        let ghost earlier = texts(read@).take(i as int);
        let ghost longer = texts(read@).take(i as int + 1);
        let ghost held = read_only@;
        if !modified.contains(read[i].as_str()) {
            read_only.insert(read[i].clone());
        }
        proof {
            assert(longer =~= earlier.push(read@[i as int]@));
            assert forall|t: Seq<char>| #[trigger] read_only@.contains(t) == (longer.contains(t)
                && !modified@.contains(t)) by {
                assert(held.contains(t) == (earlier.contains(t) && !modified@.contains(t)));
                if earlier.contains(t) {
                    let k = choose|k: int| 0 <= k < earlier.len() && earlier[k] == t;
                    assert(longer[k] == t);
                }
                if longer.contains(t) {
                    let k = choose|k: int| 0 <= k < longer.len() && longer[k] == t;
                    if k < earlier.len() {
                        assert(earlier[k] == t);
                    }
                }
                assert(longer[i as int] == read@[i as int]@);
            }
        }
        i = i + 1;
    }
    proof {
        assert(texts(read@).take(read@.len() as int) =~= texts(read@));
        assert(read_only@ =~= read_only_set(file_ops@));
    }
    (read_only.to_list(), modified.to_list())
}

/// One section of the file lists.
pub open spec fn file_section(tag: Seq<char>, files: Seq<Seq<char>>) -> Seq<char> {
    "<"@ + tag + ">\n"@ + join(files, "\n"@) + "\n</"@ + tag + ">"@
}

/// The sections of the file lists that are not empty.
pub open spec fn file_sections(read: Seq<Seq<char>>, modified: Seq<Seq<char>>) -> Seq<Seq<char>> {
    (if read.len() > 0 {
        seq![file_section("read-files"@, read)]
    } else {
        Seq::empty()
    }) + (if modified.len() > 0 {
        seq![file_section("modified-files"@, modified)]
    } else {
        Seq::empty()
    })
}

/// The file lists as text that follows a summary.
pub open spec fn file_lists_text(read: Seq<Seq<char>>, modified: Seq<Seq<char>>) -> Seq<char> {
    let sections = file_sections(read, modified);
    if sections.len() == 0 {
        Seq::empty()
    } else {
        "\n\n"@ + join(sections, "\n\n"@)
    }
}

fn section_text(tag: &str, files: &Vec<String>) -> (r: String)
    ensures
        r@ == file_section(tag@, texts(files@)),
{
    let list: String = join_texts(files.as_slice(), "\n");
    let head: String = concat3("<", tag, ">\n");
    let tail: String = concat3("\n</", tag, ">");
    let r: String = concat3(head.as_str(), list.as_str(), tail.as_str());
    proof {
        assert(r@ =~= file_section(tag@, texts(files@)));
    }
    r
}

/// The file lists as text that follows a summary.
pub fn format_file_operations(read_files: &Vec<String>, modified_files: &Vec<String>) -> (r: String)
    ensures
        r@ == file_lists_text(texts(read_files@), texts(modified_files@)),
{
    let mut sections: Vec<String> = Vec::new();
    if read_files.len() > 0 {
        sections.push(section_text("read-files", read_files));
    }
    if modified_files.len() > 0 {
        sections.push(section_text("modified-files", modified_files));
    }
    proof {
        assert(texts(sections@) =~= file_sections(texts(read_files@), texts(modified_files@)));
    }
    if sections.len() == 0 {
        return String::new();
    }
    concat2("\n\n", join_texts(sections.as_slice(), "\n\n").as_str())
}

// ---------------------------------------------------------------------------
// Conversations
// ---------------------------------------------------------------------------

/// How much of a tool result a summary request quotes, in bytes.
pub const TOOL_RESULT_MAX_CHARS: usize = 2000;

/// The texts of the text blocks.
pub open spec fn block_texts(blocks: Seq<BlockView>) -> Seq<Seq<char>>
    decreases blocks.len(),
{
    if blocks.len() == 0 {
        Seq::empty()
    } else {
        match blocks.last() {
            BlockView::Text { text, .. } => block_texts(blocks.drop_last()).push(text),
            _ => block_texts(blocks.drop_last()),
        }
    }
}

/// The texts of the text blocks of an assistant message.
pub open spec fn assistant_texts(content: Seq<AssistantContent>) -> Seq<Seq<char>>
    decreases content.len(),
{
    if content.len() == 0 {
        Seq::empty()
    } else {
        match content.last() {
            AssistantContent::Text(t) => assistant_texts(content.drop_last()).push(t.text@),
            _ => assistant_texts(content.drop_last()),
        }
    }
}

/// The text of blocks: the text blocks joined.
pub fn block_text(blocks: &Vec<BlockContent>, separator: &str) -> (r: String)
    ensures
        r@ == join(block_texts(block_views(blocks@)), separator@),
{
    let ghost views = block_views(blocks@);
    let mut parts: Vec<String> = Vec::new();
    let mut i: usize = 0;
    proof {
        assert(texts(parts@) =~= block_texts(views.take(0)));
    }
    while i < blocks.len()
        invariant
            i <= blocks@.len(),
            views == block_views(blocks@),
            texts(parts@) == block_texts(views.take(i as int)),
        decreases blocks@.len() - i,
    {
        let ghost before = parts@;
        proof {
            assert(views.take(i as int + 1).drop_last() =~= views.take(i as int));
            assert(views.take(i as int + 1).last() == blocks@[i as int]@);
        }
        if let BlockContent::Text(t) = &blocks[i] {
            parts.push(t.text.clone());
            proof {
                assert(texts(parts@) =~= texts(before).push(t.text@));
            }
        }
        i = i + 1;
    }
    proof {
        assert(views.take(views.len() as int) =~= views);
    }
    join_texts(parts.as_slice(), separator)
}

fn collect_assistant_texts(content: &Vec<AssistantContent>) -> (r: Vec<String>)
    ensures
        texts(r@) == assistant_texts(content@),
{
    let mut parts: Vec<String> = Vec::new();
    let mut i: usize = 0;
    proof {
        assert(texts(parts@) =~= assistant_texts(content@.take(0)));
    }
    while i < content.len()
        invariant
            i <= content@.len(),
            texts(parts@) == assistant_texts(content@.take(i as int)),
        decreases content@.len() - i,
    {
        let ghost before = parts@;
        proof {
            assert(content@.take(i as int + 1).drop_last() =~= content@.take(i as int));
        }
        if let AssistantContent::Text(t) = &content[i] {
            parts.push(t.text.clone());
            proof {
                assert(texts(parts@) =~= texts(before).push(t.text@));
            }
        }
        i = i + 1;
    }
    proof {
        assert(content@.take(content@.len() as int) =~= content@);
    }
    parts
}

/// The text of an assistant message: its text blocks joined.
pub fn assistant_text(content: &Vec<AssistantContent>, separator: &str) -> (r: String)
    ensures
        r@ == join(assistant_texts(content@), separator@),
{
    let parts: Vec<String> = collect_assistant_texts(content);
    join_texts(parts.as_slice(), separator)
}

/// The JSON text of a value; a null stands for something undefined.
pub open spec fn argument_text(value: JsonView) -> Seq<char> {
    if value is Null {
        "undefined"@
    } else {
        json_text(value)
    }
}

/// The JSON text of a value; a null stands for something undefined.
pub fn safe_json_stringify(value: &Json) -> (r: String)
    ensures
        r@ == argument_text(value@),
{
    match value {
        Json::Null => "undefined".to_owned(),
        _ => write_json(value),
    }
}

/// The arguments of a tool call, one by one.
pub open spec fn argument_texts(members: Seq<(Seq<char>, JsonView)>) -> Seq<Seq<char>> {
    Seq::new(members.len(), |i: int| members[i].0 + "="@ + argument_text(members[i].1))
}

/// A tool call as text.
pub open spec fn call_text(call: ToolCall) -> Seq<char> {
    call.name@ + "("@ + join(argument_texts(member_views(call.arguments@)), ", "@) + ")"@
}

fn tool_call_text(call: &ToolCall) -> (r: String)
    ensures
        r@ == call_text(*call),
{
    let ghost views = member_views(call.arguments@);
    let ghost all = argument_texts(views);
    proof {
        crate::json::lemma_member_views(call.arguments@);
    }
    let mut parts: Vec<String> = Vec::new();
    let mut i: usize = 0;
    proof {
        assert(texts(parts@) =~= all.take(0));
    }
    while i < call.arguments.len()
        invariant
            i <= call.arguments@.len(),
            views == member_views(call.arguments@),
            views.len() == call.arguments@.len(),
            forall|k: int|
                0 <= k < views.len() ==> #[trigger] views[k] == (
                    call.arguments@[k].0@,
                    json_view(call.arguments@[k].1),
                ),
            all == argument_texts(views),
            texts(parts@) == all.take(i as int),
        decreases call.arguments@.len() - i,
    {
        let ghost before = parts@;
        let value: String = safe_json_stringify(&call.arguments[i].1);
        parts.push(concat3(call.arguments[i].0.as_str(), "=", value.as_str()));
        proof {
            assert(views[i as int] == (
                call.arguments@[i as int].0@,
                json_view(call.arguments@[i as int].1),
            ));
            assert(texts(parts@) =~= texts(before).push(all[i as int]));
            assert(all.take(i as int + 1) =~= all.take(i as int).push(all[i as int]));
        }
        i = i + 1;
    }
    proof {
        assert(all.take(all.len() as int) =~= all);
    }
    concat4(call.name.as_str(), "(", join_texts(parts.as_slice(), ", ").as_str(), ")")
}

/// The reasoning blocks of an assistant message.
pub open spec fn thinking_texts(content: Seq<AssistantContent>) -> Seq<Seq<char>>
    decreases content.len(),
{
    if content.len() == 0 {
        Seq::empty()
    } else {
        match content.last() {
            AssistantContent::Thinking(t) => thinking_texts(content.drop_last()).push(t.thinking@),
            _ => thinking_texts(content.drop_last()),
        }
    }
}

/// The tool calls of an assistant message as texts.
pub open spec fn call_texts(content: Seq<AssistantContent>) -> Seq<Seq<char>>
    decreases content.len(),
{
    if content.len() == 0 {
        Seq::empty()
    } else {
        match content.last() {
            AssistantContent::ToolCall(call) => call_texts(content.drop_last()).push(
                call_text(call),
            ),
            _ => call_texts(content.drop_last()),
        }
    }
}

/// Whether a text can be cut to a number of bytes: it is short enough, or a
/// character ends there.
pub open spec fn cuttable(text: Seq<char>, bytes: nat) -> bool {
    byte_len(text) <= bytes || cut_at(text, bytes) is Some
}

/// A text cut to a number of bytes, with a note of how much is missing.
pub open spec fn cut_text(text: Seq<char>, bytes: nat) -> Seq<char> {
    if byte_len(text) <= bytes {
        text
    } else {
        text.take(cut_at(text, bytes).unwrap()) + "\n\n[... "@ + decimal(
            (byte_len(text) - bytes) as nat,
        ) + " more characters truncated]"@
    }
}

/// Whether a text can be cut to a number of bytes.
pub fn can_cut(text: &str, bytes: usize) -> (r: bool)
    ensures
        r == cuttable(text@, bytes as nat),
{
    utf8_len(text) <= bytes || find_cut(text, bytes).is_some()
}

/// A text cut to a number of bytes, with a note of how much is missing.
pub fn truncate_for_summary(text: &str, max_chars: usize) -> (r: String)
    requires
        cuttable(text@, max_chars as nat),
    ensures
        r@ == cut_text(text@, max_chars as nat),
{
    let length: usize = utf8_len(text);
    if length <= max_chars {
        return text.to_owned();
    }
    let missing: usize = length - max_chars;
    match find_cut(text, max_chars) {
        Some(k) => {
            let head: String = crate::text::substring(text, 0, k);
            proof {
                assert(text@.subrange(0, k as int) =~= text@.take(k as int));
            }
            concat4(
                head.as_str(),
                "\n\n[... ",
                decimal_text(missing as u64).as_str(),
                " more characters truncated]",
            )
        },
        None => text.to_owned(),
    }
}

/// The text of a user message.
pub open spec fn user_text(content: UserContentView) -> Seq<char> {
    match content {
        UserContentView::Text(text) => text,
        UserContentView::Blocks(blocks) => join(block_texts(blocks), ""@),
    }
}

fn user_content_chars(content: &UserContent) -> (r: String)
    ensures
        r@ == user_text(content@),
{
    match content {
        UserContent::Text(text) => text.clone(),
        UserContent::Blocks(blocks) => block_text(blocks, ""),
    }
}

/// The parts of a conversation's text that an assistant message adds.
pub open spec fn assistant_parts(content: Seq<AssistantContent>) -> Seq<Seq<char>> {
    let thinking = thinking_texts(content);
    let said = assistant_texts(content);
    let calls = call_texts(content);
    (if thinking.len() > 0 {
        seq!["[Assistant thinking]: "@ + join(thinking, "\n"@)]
    } else {
        Seq::empty()
    }) + (if said.len() > 0 {
        seq!["[Assistant]: "@ + join(said, "\n"@)]
    } else {
        Seq::empty()
    }) + (if calls.len() > 0 {
        seq!["[Assistant tool calls]: "@ + join(calls, "; "@)]
    } else {
        Seq::empty()
    })
}

/// The parts of a conversation's text that a message adds.
pub open spec fn message_parts(message: MessageView) -> Seq<Seq<char>> {
    match message {
        MessageView::User { content, .. } => if user_text(content).len() > 0 {
            seq!["[User]: "@ + user_text(content)]
        } else {
            Seq::empty()
        },
        MessageView::Assistant(m) => assistant_parts(m.content@),
        MessageView::ToolResult(m) => {
            let text = join(block_texts(block_views(m.content@)), ""@);
            if text.len() > 0 {
                seq!["[Tool result]: "@ + cut_text(text, TOOL_RESULT_MAX_CHARS as nat)]
            } else {
                Seq::empty()
            }
        },
    }
}

/// The parts of a conversation's text.
pub open spec fn conversation_parts(messages: Seq<MessageView>) -> Seq<Seq<char>>
    decreases messages.len(),
{
    if messages.len() == 0 {
        Seq::empty()
    } else {
        conversation_parts(messages.drop_last()) + message_parts(messages.last())
    }
}

/// A conversation as plain text.
pub open spec fn conversation_text(messages: Seq<MessageView>) -> Seq<char> {
    join(conversation_parts(messages), "\n\n"@)
}

/// Whether the tool results of a message can be cut where a summary cuts them.
pub open spec fn message_serializable(message: MessageView) -> bool {
    match message {
        MessageView::ToolResult(m) => cuttable(
            join(block_texts(block_views(m.content@)), ""@),
            TOOL_RESULT_MAX_CHARS as nat,
        ),
        _ => true,
    }
}

/// Whether every tool result can be cut where a summary cuts it: it is short
/// enough, or a character ends there.
pub open spec fn serializable(messages: Seq<MessageView>) -> bool {
    forall|i: int| 0 <= i < messages.len() ==> message_serializable(#[trigger] messages[i])
}

/// Whether a conversation can be turned into text.
pub fn can_serialize(messages: &Vec<Message>) -> (r: bool)
    ensures
        r == serializable(message_views(messages@)),
{
    let ghost views = message_views(messages@);
    let mut i: usize = 0;
    while i < messages.len()
        invariant
            i <= messages@.len(),
            views == message_views(messages@),
            forall|k: int| 0 <= k < i ==> message_serializable(#[trigger] views[k]),
        decreases messages@.len() - i,
    {
        if let Message::ToolResult(m) = &messages[i] {
            let text: String = block_text(&m.content, "");
            if !can_cut(text.as_str(), TOOL_RESULT_MAX_CHARS) {
                proof {
                    assert(!message_serializable(views[i as int]));
                }
                return false;
            }
        }
        i = i + 1;
    }
    true
}

fn collect_thinking(content: &Vec<AssistantContent>) -> (r: Vec<String>)
    ensures
        texts(r@) == thinking_texts(content@),
{
    let mut parts: Vec<String> = Vec::new();
    let mut i: usize = 0;
    proof {
        assert(texts(parts@) =~= thinking_texts(content@.take(0)));
    }
    while i < content.len()
        invariant
            i <= content@.len(),
            texts(parts@) == thinking_texts(content@.take(i as int)),
        decreases content@.len() - i,
    {
        let ghost before = parts@;
        proof {
            assert(content@.take(i as int + 1).drop_last() =~= content@.take(i as int));
        }
        if let AssistantContent::Thinking(t) = &content[i] {
            parts.push(t.thinking.clone());
            proof {
                assert(texts(parts@) =~= texts(before).push(t.thinking@));
            }
        }
        i = i + 1;
    }
    proof {
        assert(content@.take(content@.len() as int) =~= content@);
    }
    parts
}

fn collect_calls(content: &Vec<AssistantContent>) -> (r: Vec<String>)
    ensures
        texts(r@) == call_texts(content@),
{
    let mut parts: Vec<String> = Vec::new();
    let mut i: usize = 0;
    proof {
        assert(texts(parts@) =~= call_texts(content@.take(0)));
    }
    while i < content.len()
        invariant
            i <= content@.len(),
            texts(parts@) == call_texts(content@.take(i as int)),
        decreases content@.len() - i,
    {
        let ghost before = parts@;
        proof {
            assert(content@.take(i as int + 1).drop_last() =~= content@.take(i as int));
        }
        if let AssistantContent::ToolCall(call) = &content[i] {
            let part: String = tool_call_text(call);
            parts.push(part);
            proof {
                assert(texts(parts@) =~= texts(before).push(part@));
            }
        }
        i = i + 1;
    }
    proof {
        assert(content@.take(content@.len() as int) =~= content@);
    }
    parts
}

fn serialize_assistant(m: &AssistantMessage) -> (r: Vec<String>)
    ensures
        texts(r@) == assistant_parts(m.content@),
{
    let thinking: Vec<String> = collect_thinking(&m.content);
    let said: Vec<String> = collect_assistant_texts(&m.content);
    let calls: Vec<String> = collect_calls(&m.content);
    let mut parts: Vec<String> = Vec::new();
    if thinking.len() > 0 {
        parts.push(
            concat2("[Assistant thinking]: ", join_texts(thinking.as_slice(), "\n").as_str()),
        );
    }
    if said.len() > 0 {
        parts.push(concat2("[Assistant]: ", join_texts(said.as_slice(), "\n").as_str()));
    }
    if calls.len() > 0 {
        parts.push(
            concat2("[Assistant tool calls]: ", join_texts(calls.as_slice(), "; ").as_str()),
        );
    }
    proof {
        assert(texts(thinking@).len() == thinking@.len());
        assert(texts(said@).len() == said@.len());
        assert(texts(calls@).len() == calls@.len());
        assert(texts(parts@) =~= assistant_parts(m.content@));
    }
    parts
}

fn serialize_message(message: &Message) -> (r: Vec<String>)
    requires
        message_serializable(message@),
    ensures
        texts(r@) == message_parts(message@),
{
    let mut parts: Vec<String> = Vec::new();
    match message {
        Message::User(m) => {
            let text: String = user_content_chars(&m.content);
            if text.as_str().unicode_len() > 0 {
                parts.push(concat2("[User]: ", text.as_str()));
            }
        },
        Message::Assistant(m) => {
            return serialize_assistant(m);
        },
        Message::ToolResult(m) => {
            let text: String = block_text(&m.content, "");
            if text.as_str().unicode_len() > 0 {
                let shown: String = truncate_for_summary(text.as_str(), TOOL_RESULT_MAX_CHARS);
                parts.push(concat2("[Tool result]: ", shown.as_str()));
            }
        },
    }
    proof {
        assert(texts(parts@) =~= message_parts(message@));
    }
    parts
}

/// Turns a conversation into plain text.
pub fn serialize_conversation(messages: &Vec<Message>) -> (r: String)
    requires
        serializable(message_views(messages@)),
    ensures
        r@ == conversation_text(message_views(messages@)),
{
    let ghost views = message_views(messages@);
    let mut parts: Vec<String> = Vec::new();
    let mut i: usize = 0;
    proof {
        assert(texts(parts@) =~= conversation_parts(views.take(0)));
    }
    while i < messages.len()
        invariant
            i <= messages@.len(),
            views == message_views(messages@),
            serializable(views),
            texts(parts@) == conversation_parts(views.take(i as int)),
        decreases messages@.len() - i,
    {
        proof {
            assert(views[i as int] == messages@[i as int]@);
            assert(views.take(i as int + 1).drop_last() =~= views.take(i as int));
            assert(views.take(i as int + 1).last() == messages@[i as int]@);
        }
        let more: Vec<String> = serialize_message(&messages[i]);
        let ghost before = parts@;
        let mut k: usize = 0;
        proof {
            assert(texts(parts@) =~= texts(before) + texts(more@).take(0));
        }
        while k < more.len()
            invariant
                k <= more@.len(),
                texts(parts@) == texts(before) + texts(more@).take(k as int),
            decreases more@.len() - k,
        {
            let ghost held = parts@;
            parts.push(more[k].clone());
            proof {
                assert(texts(parts@) =~= texts(held).push(more@[k as int]@));
                assert(texts(more@).take(k as int + 1) =~= texts(more@).take(k as int).push(
                    more@[k as int]@,
                ));
                assert(texts(parts@) =~= texts(before) + texts(more@).take(k as int + 1));
            }
            k = k + 1;
        }
        proof {
            assert(texts(more@).take(more@.len() as int) =~= texts(more@));
        }
        i = i + 1;
    }
    proof {
        assert(views.take(views.len() as int) =~= views);
    }
    join_texts(parts.as_slice(), "\n\n")
}

/// The files that a conversation only read are not among those it changed.
pub proof fn law_file_lists_are_disjoint(files: FileOperationsView)
    ensures
        read_only_set(files).disjoint(modified_set(files)),
        read_only_set(files).union(modified_set(files)) =~= files.read.union(
            files.written,
        ).union(files.edited),
{
}

} // verus!

//! The messages an agent exchanges with a model: content blocks, user,
//! assistant and tool-result messages, application messages, and usage.

use std::sync::Arc;

use vstd::prelude::*;

use crate::json::{json_same, member_views, same_json, Json, JsonView};
use crate::text::{same_optional_text, text_of_option, texts};

verus! {

/// `Arc::clone`: another pointer to the same value.
#[verifier::external_body]
pub(crate) fn share<T>(value: &Arc<T>) -> (r: Arc<T>)
    ensures
        r == *value,
{
    Arc::clone(value)
}

// ---------------------------------------------------------------------------
// Usage
// ---------------------------------------------------------------------------

/// A floating-point number carried by its IEEE-754 bit pattern.
#[derive(Clone, Copy, PartialEq, Eq, Structural, Debug)]
pub struct JsF64 {
    pub bits: u64,
}

/// The cost of a request, by kind of token.
#[derive(Clone, Copy, PartialEq, Eq, Structural, Debug)]
pub struct UsageCost {
    pub input: JsF64,
    pub output: JsF64,
    pub cache_read: JsF64,
    pub cache_write: JsF64,
    pub total: JsF64,
}

/// The tokens that a request used.
#[derive(Clone, Copy, PartialEq, Eq, Structural, Debug)]
pub struct Usage {
    pub input: u64,
    pub output: u64,
    pub cache_read: u64,
    pub cache_write: u64,
    pub cache_write_1h: Option<u64>,
    pub reasoning: Option<u64>,
    pub total_tokens: u64,
    pub cost: UsageCost,
}

/// A cost of nothing.
pub open spec fn no_cost() -> UsageCost {
    UsageCost {
        input: JsF64 { bits: 0 },
        output: JsF64 { bits: 0 },
        cache_read: JsF64 { bits: 0 },
        cache_write: JsF64 { bits: 0 },
        total: JsF64 { bits: 0 },
    }
}

/// No usage.
pub open spec fn no_usage() -> Usage {
    Usage {
        input: 0,
        output: 0,
        cache_read: 0,
        cache_write: 0,
        cache_write_1h: None,
        reasoning: None,
        total_tokens: 0,
        cost: no_cost(),
    }
}

impl Default for Usage {
    fn default() -> (r: Self)
        ensures
            r == no_usage(),
    {
        let zero: JsF64 = JsF64 { bits: 0 };
        Usage {
            input: 0,
            output: 0,
            cache_read: 0,
            cache_write: 0,
            cache_write_1h: None,
            reasoning: None,
            total_tokens: 0,
            cost: UsageCost {
                input: zero,
                output: zero,
                cache_read: zero,
                cache_write: zero,
                total: zero,
            },
        }
    }
}

// ---------------------------------------------------------------------------
// Settings
// ---------------------------------------------------------------------------

/// Why a model stopped producing output.
#[derive(Clone, Copy, PartialEq, Eq, Structural, Debug)]
pub enum StopReason {
    Pending,
    Stop,
    Length,
    ToolUse,
    Error,
    Aborted,
    Deferred,
}

/// How much reasoning is requested of a model.
#[derive(Clone, Copy, PartialEq, Eq, Structural, Debug)]
pub enum ThinkingLevel {
    Off,
    Minimal,
    Low,
    Medium,
    High,
    Xhigh,
}

/// How much reasoning is asked of a provider for a level: none for the lowest.
pub open spec fn provider_reasoning(level: ThinkingLevel) -> Option<ThinkingLevel> {
    if level == ThinkingLevel::Off {
        None
    } else {
        Some(level)
    }
}

impl ThinkingLevel {
    /// How much reasoning is asked of a provider.
    pub fn as_provider_reasoning(self) -> (r: Option<ThinkingLevel>)
        ensures
            r == provider_reasoning(self),
    {
        if self == ThinkingLevel::Off {
            None
        } else {
            Some(self)
        }
    }
}

/// How queued messages are drained.
#[derive(Clone, Copy, PartialEq, Eq, Structural, Debug)]
pub enum QueueMode {
    All,
    OneAtATime,
}

/// Whether the tool calls of one message run one after the other.
#[derive(Clone, Copy, PartialEq, Eq, Structural, Debug)]
pub enum ToolExecutionMode {
    Sequential,
    Parallel,
}

// ---------------------------------------------------------------------------
// Content
// ---------------------------------------------------------------------------

/// A block of text.
#[derive(Debug)]
pub struct TextContent {
    pub text: String,
    pub text_signature: Option<String>,
}

/// A block of reasoning.
#[derive(Debug)]
pub struct ThinkingContent {
    pub thinking: String,
    pub thinking_signature: Option<String>,
}

/// An image, base64 encoded.
#[derive(Debug)]
pub struct ImageContent {
    pub data: String,
    pub mime_type: String,
}

/// A request of the model to run a tool.
pub struct ToolCall {
    pub id: String,
    pub name: String,
    pub arguments: Arc<Vec<(String, Json)>>,
    pub thought_signature: Option<String>,
    pub namespace: Option<String>,
}

/// A block of a user or tool-result message.
pub enum BlockContent {
    Text(TextContent),
    Image(ImageContent),
}

/// A block of an assistant message.
pub enum AssistantContent {
    Text(TextContent),
    Thinking(ThinkingContent),
    ToolCall(ToolCall),
}

/// The content of a user message.
pub enum UserContent {
    Text(String),
    Blocks(Vec<BlockContent>),
}

/// A provider-side pointer to a response that will be fetched later.
pub struct DeferredHandle {
    pub provider: String,
    pub id: String,
}

pub(crate) fn copy_text(s: &Option<String>) -> (r: Option<String>)
    ensures
        r == *s,
{
    match s {
        Some(t) => Some(t.clone()),
        None => None,
    }
}

impl Clone for TextContent {
    fn clone(&self) -> (r: Self)
        ensures
            r == *self,
    {
        TextContent { text: self.text.clone(), text_signature: copy_text(&self.text_signature) }
    }
}

impl Clone for ThinkingContent {
    fn clone(&self) -> (r: Self)
        ensures
            r == *self,
    {
        ThinkingContent {
            thinking: self.thinking.clone(),
            thinking_signature: copy_text(&self.thinking_signature),
        }
    }
}

impl Clone for ImageContent {
    fn clone(&self) -> (r: Self)
        ensures
            r == *self,
    {
        ImageContent { data: self.data.clone(), mime_type: self.mime_type.clone() }
    }
}

impl Clone for ToolCall {
    fn clone(&self) -> (r: Self)
        ensures
            r == *self,
    {
        ToolCall {
            id: self.id.clone(),
            name: self.name.clone(),
            arguments: share(&self.arguments),
            thought_signature: copy_text(&self.thought_signature),
            namespace: copy_text(&self.namespace),
        }
    }
}

impl Clone for BlockContent {
    fn clone(&self) -> (r: Self)
        ensures
            r == *self,
    {
        match self {
            BlockContent::Text(t) => BlockContent::Text(t.clone()),
            BlockContent::Image(i) => BlockContent::Image(i.clone()),
        }
    }
}

impl Clone for AssistantContent {
    fn clone(&self) -> (r: Self)
        ensures
            r == *self,
    {
        match self {
            AssistantContent::Text(t) => AssistantContent::Text(t.clone()),
            AssistantContent::Thinking(t) => AssistantContent::Thinking(t.clone()),
            AssistantContent::ToolCall(c) => AssistantContent::ToolCall(c.clone()),
        }
    }
}

impl Clone for DeferredHandle {
    fn clone(&self) -> (r: Self)
        ensures
            r == *self,
    {
        DeferredHandle { provider: self.provider.clone(), id: self.id.clone() }
    }
}

// ---------------------------------------------------------------------------
// Messages
// ---------------------------------------------------------------------------

/// A message of the user.
pub struct UserMessage {
    pub content: UserContent,
    pub timestamp: i64,
}

/// A message of the model.
pub struct AssistantMessage {
    pub content: Vec<AssistantContent>,
    pub api: String,
    pub provider: String,
    pub model: String,
    pub usage: Usage,
    pub stop_reason: StopReason,
    pub error_message: Option<String>,
    pub deferred: Option<DeferredHandle>,
    pub timestamp: i64,
}

/// The outcome of a tool call, as the model sees it.
pub struct ToolResultMessage {
    pub tool_call_id: String,
    pub tool_name: String,
    pub content: Vec<BlockContent>,
    pub details: Option<Json>,
    pub usage: Option<Usage>,
    pub added_tool_names: Option<Vec<String>>,
    pub is_error: bool,
    pub timestamp: i64,
}

/// A message of the application: a role and a JSON payload.
pub struct CustomAgentMessage {
    pub role: String,
    pub value: Json,
}

/// Any message of a transcript.
pub enum AgentMessage {
    User(Arc<UserMessage>),
    Assistant(Arc<AssistantMessage>),
    ToolResult(Arc<ToolResultMessage>),
    Custom(Arc<CustomAgentMessage>),
}

/// A message that a model provider understands.
pub enum Message {
    User(Arc<UserMessage>),
    Assistant(Arc<AssistantMessage>),
    ToolResult(Arc<ToolResultMessage>),
}

impl Clone for AgentMessage {
    fn clone(&self) -> (r: Self)
        ensures
            r == *self,
    {
        match self {
            AgentMessage::User(m) => AgentMessage::User(share(m)),
            AgentMessage::Assistant(m) => AgentMessage::Assistant(share(m)),
            AgentMessage::ToolResult(m) => AgentMessage::ToolResult(share(m)),
            AgentMessage::Custom(m) => AgentMessage::Custom(share(m)),
        }
    }
}

impl Clone for Message {
    fn clone(&self) -> (r: Self)
        ensures
            r == *self,
    {
        match self {
            Message::User(m) => Message::User(share(m)),
            Message::Assistant(m) => Message::Assistant(share(m)),
            Message::ToolResult(m) => Message::ToolResult(share(m)),
        }
    }
}

/// Whether two assistant messages hold the same values.
pub open spec fn same_assistant(a: AssistantMessage, b: AssistantMessage) -> bool {
    &&& a.content@ == b.content@
    &&& a.api == b.api
    &&& a.provider == b.provider
    &&& a.model == b.model
    &&& a.usage == b.usage
    &&& a.stop_reason == b.stop_reason
    &&& a.error_message == b.error_message
    &&& a.deferred == b.deferred
    &&& a.timestamp == b.timestamp
}

impl Clone for AssistantMessage {
    fn clone(&self) -> (r: Self)
        ensures
            same_assistant(r, *self),
    {
        let content: Vec<AssistantContent> = self.content.clone();
        proof {
            assert(content@ =~= self.content@);
        }
        AssistantMessage {
            content,
            api: self.api.clone(),
            provider: self.provider.clone(),
            model: self.model.clone(),
            usage: self.usage,
            stop_reason: self.stop_reason,
            error_message: copy_text(&self.error_message),
            deferred: match &self.deferred {
                Some(handle) => Some(handle.clone()),
                None => None,
            },
            timestamp: self.timestamp,
        }
    }
}

// ---------------------------------------------------------------------------
// Mathematical values of messages that the library writes itself
// ---------------------------------------------------------------------------

/// The mathematical value of a [`BlockContent`].
pub enum BlockView {
    Text { text: Seq<char>, signature: Option<Seq<char>> },
    Image { data: Seq<char>, mime_type: Seq<char> },
}

impl View for BlockContent {
    type V = BlockView;

    open spec fn view(&self) -> BlockView {
        match *self {
            BlockContent::Text(t) => BlockView::Text {
                text: t.text@,
                signature: text_of_option(t.text_signature),
            },
            BlockContent::Image(i) => BlockView::Image { data: i.data@, mime_type: i.mime_type@ },
        }
    }
}

/// A block of plain text.
pub open spec fn text_block_view(text: Seq<char>) -> BlockView {
    BlockView::Text { text, signature: None }
}

/// The mathematical values of a sequence of blocks.
pub open spec fn block_views(blocks: Seq<BlockContent>) -> Seq<BlockView> {
    Seq::new(blocks.len(), |i: int| blocks[i]@)
}

/// The mathematical value of a [`UserContent`].
pub enum UserContentView {
    Text(Seq<char>),
    Blocks(Seq<BlockView>),
}

impl View for UserContent {
    type V = UserContentView;

    open spec fn view(&self) -> UserContentView {
        match *self {
            UserContent::Text(t) => UserContentView::Text(t@),
            UserContent::Blocks(blocks) => UserContentView::Blocks(block_views(blocks@)),
        }
    }
}

/// The mathematical value of an [`AgentMessage`].
pub enum AgentMessageView {
    User { content: UserContentView, timestamp: int },
    Assistant(AssistantMessage),
    ToolResult(ToolResultMessage),
    Custom { role: Seq<char>, value: JsonView },
}

impl View for AgentMessage {
    type V = AgentMessageView;

    open spec fn view(&self) -> AgentMessageView {
        match *self {
            AgentMessage::User(m) => AgentMessageView::User {
                content: m.content@,
                timestamp: m.timestamp as int,
            },
            AgentMessage::Assistant(m) => AgentMessageView::Assistant(*m),
            AgentMessage::ToolResult(m) => AgentMessageView::ToolResult(*m),
            AgentMessage::Custom(m) => AgentMessageView::Custom { role: m.role@, value: m.value@ },
        }
    }
}

/// The mathematical value of a [`Message`].
pub enum MessageView {
    User { content: UserContentView, timestamp: int },
    Assistant(AssistantMessage),
    ToolResult(ToolResultMessage),
}

impl View for Message {
    type V = MessageView;

    open spec fn view(&self) -> MessageView {
        match *self {
            Message::User(m) => MessageView::User {
                content: m.content@,
                timestamp: m.timestamp as int,
            },
            Message::Assistant(m) => MessageView::Assistant(*m),
            Message::ToolResult(m) => MessageView::ToolResult(*m),
        }
    }
}

/// The mathematical values of a sequence of messages.
pub open spec fn agent_message_views(s: Seq<AgentMessage>) -> Seq<AgentMessageView> {
    Seq::new(s.len(), |i: int| s[i]@)
}

/// The mathematical values of a sequence of provider messages.
pub open spec fn message_views(s: Seq<Message>) -> Seq<MessageView> {
    Seq::new(s.len(), |i: int| s[i]@)
}

/// The role of a message.
pub open spec fn message_role(m: AgentMessage) -> Seq<char> {
    match m {
        AgentMessage::User(_) => "user"@,
        AgentMessage::Assistant(_) => "assistant"@,
        AgentMessage::ToolResult(_) => "toolResult"@,
        AgentMessage::Custom(c) => c.role@,
    }
}

impl AgentMessage {
    /// The role of the message.
    pub fn role(&self) -> (r: &str)
        ensures
            r@ == message_role(*self),
    {
        match self {
            AgentMessage::User(_) => "user",
            AgentMessage::Assistant(_) => "assistant",
            AgentMessage::ToolResult(_) => "toolResult",
            AgentMessage::Custom(c) => c.role.as_str(),
        }
    }
}

/// The tool calls of a message's content, in order.
pub open spec fn tool_calls_of(content: Seq<AssistantContent>) -> Seq<ToolCall>
    decreases content.len(),
{
    if content.len() == 0 {
        Seq::empty()
    } else {
        let before = tool_calls_of(content.drop_last());
        match content.last() {
            AssistantContent::ToolCall(call) => before.push(call),
            _ => before,
        }
    }
}

/// The tool calls of a message's content, in order.
pub fn collect_tool_calls(content: &Vec<AssistantContent>) -> (r: Vec<ToolCall>)
    ensures
        r@ == tool_calls_of(content@),
{
    let mut out: Vec<ToolCall> = Vec::new();
    let mut i: usize = 0;
    proof {
        assert(content@.take(0) =~= Seq::<AssistantContent>::empty());
    }
    while i < content.len()
        invariant
            i <= content@.len(),
            out@ == tool_calls_of(content@.take(i as int)),
        decreases content@.len() - i,
    {
        proof {
            assert(content@.take(i as int + 1).drop_last() =~= content@.take(i as int));
        }
        if let AssistantContent::ToolCall(call) = &content[i] {
            out.push(call.clone());
        }
        i = i + 1;
    }
    proof {
        assert(content@.take(content@.len() as int) =~= content@);
    }
    out
}

// ---------------------------------------------------------------------------
// Equality of contents
// ---------------------------------------------------------------------------

/// Whether two optional JSON values are both absent or equal.
pub open spec fn equal_optional_json(a: Option<Json>, b: Option<Json>) -> bool {
    match (a, b) {
        (Some(x), Some(y)) => json_same(x@, y@),
        (None, None) => true,
        _ => false,
    }
}

/// Whether two tool calls hold equal values.
pub open spec fn equal_tool_call(a: ToolCall, b: ToolCall) -> bool {
    &&& a.id@ == b.id@
    &&& a.name@ == b.name@
    &&& json_same(
        JsonView::Object(member_views(a.arguments@)),
        JsonView::Object(member_views(b.arguments@)),
    )
    &&& text_of_option(a.thought_signature) == text_of_option(b.thought_signature)
    &&& text_of_option(a.namespace) == text_of_option(b.namespace)
}

/// Whether two blocks of assistant messages hold equal values.
pub open spec fn equal_assistant_content(a: AssistantContent, b: AssistantContent) -> bool {
    match (a, b) {
        (AssistantContent::Text(x), AssistantContent::Text(y)) => x.text@ == y.text@
            && text_of_option(x.text_signature) == text_of_option(y.text_signature),
        (AssistantContent::Thinking(x), AssistantContent::Thinking(y)) => x.thinking@ == y.thinking@
            && text_of_option(x.thinking_signature) == text_of_option(y.thinking_signature),
        (AssistantContent::ToolCall(x), AssistantContent::ToolCall(y)) => equal_tool_call(x, y),
        _ => false,
    }
}

/// Whether two optional handles are both absent or hold equal values.
pub open spec fn equal_handle(a: Option<DeferredHandle>, b: Option<DeferredHandle>) -> bool {
    match (a, b) {
        (Some(x), Some(y)) => x.provider@ == y.provider@ && x.id@ == y.id@,
        (None, None) => true,
        _ => false,
    }
}

/// Whether two assistant messages hold equal values.
pub open spec fn equal_assistant(a: AssistantMessage, b: AssistantMessage) -> bool {
    &&& a.content@.len() == b.content@.len()
    &&& forall|i: int|
        0 <= i < a.content@.len() ==> equal_assistant_content(#[trigger] a.content@[i], b.content@[i])
    &&& a.api@ == b.api@
    &&& a.provider@ == b.provider@
    &&& a.model@ == b.model@
    &&& a.usage == b.usage
    &&& a.stop_reason == b.stop_reason
    &&& text_of_option(a.error_message) == text_of_option(b.error_message)
    &&& equal_handle(a.deferred, b.deferred)
    &&& a.timestamp == b.timestamp
}

/// The texts of an optional list.
pub open spec fn optional_texts(s: Option<Vec<String>>) -> Option<Seq<Seq<char>>> {
    match s {
        Some(v) => Some(texts(v@)),
        None => None,
    }
}

/// Whether two tool results hold equal values.
pub open spec fn equal_tool_result(a: ToolResultMessage, b: ToolResultMessage) -> bool {
    &&& a.tool_call_id@ == b.tool_call_id@
    &&& a.tool_name@ == b.tool_name@
    &&& block_views(a.content@) == block_views(b.content@)
    &&& equal_optional_json(a.details, b.details)
    &&& a.usage == b.usage
    &&& optional_texts(a.added_tool_names) == optional_texts(b.added_tool_names)
    &&& a.is_error == b.is_error
    &&& a.timestamp == b.timestamp
}

/// Whether two messages hold equal values.
pub open spec fn equal_message(a: AgentMessage, b: AgentMessage) -> bool {
    match (a, b) {
        (AgentMessage::User(x), AgentMessage::User(y)) => x.content@ == y.content@ && x.timestamp
            == y.timestamp,
        (AgentMessage::Assistant(x), AgentMessage::Assistant(y)) => equal_assistant(*x, *y),
        (AgentMessage::ToolResult(x), AgentMessage::ToolResult(y)) => equal_tool_result(*x, *y),
        (AgentMessage::Custom(x), AgentMessage::Custom(y)) => x.role@ == y.role@ && json_same(
            x.value@,
            y.value@,
        ),
        _ => false,
    }
}

fn same_optional_json(a: &Option<Json>, b: &Option<Json>) -> (r: bool)
    ensures
        r == equal_optional_json(*a, *b),
{
    match (a, b) {
        (Some(x), Some(y)) => same_json(x, y),
        (None, None) => true,
        _ => false,
    }
}

fn copy_members(members: &Vec<(String, Json)>) -> (r: Vec<(String, Json)>)
    ensures
        member_views(r@) == member_views(members@),
{
    let mut out: Vec<(String, Json)> = Vec::new();
    let mut i: usize = 0;
    while i < members.len()
        invariant
            i <= members@.len(),
            member_views(out@) == member_views(members@.take(i as int)),
        decreases members@.len() - i,
    {
        let copy: (String, Json) = (members[i].0.clone(), members[i].1.clone());
        proof {
            assert(members@.take(i as int + 1).drop_last() =~= members@.take(i as int));
            assert(out@.push(copy).drop_last() =~= out@);
        }
        out.push(copy);
        i = i + 1;
    }
    proof {
        assert(members@.take(members@.len() as int) =~= members@);
    }
    out
}

/// The arguments of a tool call as one JSON object.
pub fn arguments_object(call: &ToolCall) -> (r: Json)
    ensures
        r@ == JsonView::Object(member_views(call.arguments@)),
{
    Json::Object(copy_members(&call.arguments))
}

fn same_tool_call(a: &ToolCall, b: &ToolCall) -> (r: bool)
    ensures
        r == equal_tool_call(*a, *b),
{
    a.id == b.id && a.name == b.name && same_json(&arguments_object(a), &arguments_object(b))
        && same_optional_text(&a.thought_signature, &b.thought_signature) && same_optional_text(
        &a.namespace,
        &b.namespace,
    )
}

fn same_block(a: &BlockContent, b: &BlockContent) -> (r: bool)
    ensures
        r == (a@ == b@),
{
    match (a, b) {
        (BlockContent::Text(x), BlockContent::Text(y)) => x.text == y.text && same_optional_text(
            &x.text_signature,
            &y.text_signature,
        ),
        (BlockContent::Image(x), BlockContent::Image(y)) => x.data == y.data && x.mime_type
            == y.mime_type,
        _ => false,
    }
}

fn same_blocks(a: &Vec<BlockContent>, b: &Vec<BlockContent>) -> (r: bool)
    ensures
        r == (block_views(a@) == block_views(b@)),
{
    if a.len() != b.len() {
        proof {
            assert(block_views(a@).len() != block_views(b@).len());
        }
        return false;
    }
    let mut i: usize = 0;
    while i < a.len()
        invariant
            i <= a@.len(),
            a@.len() == b@.len(),
            forall|k: int| 0 <= k < i ==> (#[trigger] a@[k])@ == b@[k]@,
        decreases a@.len() - i,
    {
        if !same_block(&a[i], &b[i]) {
            proof {
                assert(block_views(a@)[i as int] != block_views(b@)[i as int]);
            }
            return false;
        }
        i = i + 1;
    }
    proof {
        assert(block_views(a@) =~= block_views(b@));
    }
    true
}

fn same_assistant_content(a: &AssistantContent, b: &AssistantContent) -> (r: bool)
    ensures
        r == equal_assistant_content(*a, *b),
{
    match (a, b) {
        (AssistantContent::Text(x), AssistantContent::Text(y)) => x.text == y.text
            && same_optional_text(&x.text_signature, &y.text_signature),
        (AssistantContent::Thinking(x), AssistantContent::Thinking(y)) => x.thinking == y.thinking
            && same_optional_text(&x.thinking_signature, &y.thinking_signature),
        (AssistantContent::ToolCall(x), AssistantContent::ToolCall(y)) => same_tool_call(x, y),
        _ => false,
    }
}

fn same_handle(a: &Option<DeferredHandle>, b: &Option<DeferredHandle>) -> (r: bool)
    ensures
        r == equal_handle(*a, *b),
{
    match (a, b) {
        (Some(x), Some(y)) => x.provider == y.provider && x.id == y.id,
        (None, None) => true,
        _ => false,
    }
}

fn same_assistant_message(a: &AssistantMessage, b: &AssistantMessage) -> (r: bool)
    ensures
        r == equal_assistant(*a, *b),
{
    if a.content.len() != b.content.len() {
        return false;
    }
    let mut i: usize = 0;
    while i < a.content.len()
        invariant
            i <= a.content@.len(),
            a.content@.len() == b.content@.len(),
            forall|k: int|
                0 <= k < i ==> equal_assistant_content(#[trigger] a.content@[k], b.content@[k]),
        decreases a.content@.len() - i,
    {
        if !same_assistant_content(&a.content[i], &b.content[i]) {
            return false;
        }
        i = i + 1;
    }
    a.api == b.api && a.provider == b.provider && a.model == b.model && a.usage == b.usage
        && a.stop_reason == b.stop_reason && same_optional_text(&a.error_message, &b.error_message)
        && same_handle(&a.deferred, &b.deferred) && a.timestamp == b.timestamp
}

/// Whether two lists of strings hold the same texts.
pub(crate) fn same_texts(a: &Vec<String>, b: &Vec<String>) -> (r: bool)
    ensures
        r == (texts(a@) == texts(b@)),
{
    if a.len() != b.len() {
        proof {
            assert(texts(a@).len() != texts(b@).len());
        }
        return false;
    }
    let mut i: usize = 0;
    while i < a.len()
        invariant
            i <= a@.len(),
            a@.len() == b@.len(),
            forall|k: int| 0 <= k < i ==> (#[trigger] a@[k])@ == b@[k]@,
        decreases a@.len() - i,
    {
        if a[i] != b[i] {
            proof {
                assert(texts(a@)[i as int] != texts(b@)[i as int]);
            }
            return false;
        }
        i = i + 1;
    }
    proof {
        assert(texts(a@) =~= texts(b@));
    }
    true
}

fn same_optional_texts(a: &Option<Vec<String>>, b: &Option<Vec<String>>) -> (r: bool)
    ensures
        r == (optional_texts(*a) == optional_texts(*b)),
{
    match (a, b) {
        (Some(x), Some(y)) => same_texts(x, y),
        (None, None) => true,
        _ => false,
    }
}

fn same_tool_result(a: &ToolResultMessage, b: &ToolResultMessage) -> (r: bool)
    ensures
        r == equal_tool_result(*a, *b),
{
    a.tool_call_id == b.tool_call_id && a.tool_name == b.tool_name && same_blocks(
        &a.content,
        &b.content,
    ) && same_optional_json(&a.details, &b.details) && a.usage == b.usage && same_optional_texts(
        &a.added_tool_names,
        &b.added_tool_names,
    ) && a.is_error == b.is_error && a.timestamp == b.timestamp
}

/// Whether two messages hold equal values.
pub fn same_agent_message(a: &AgentMessage, b: &AgentMessage) -> (r: bool)
    ensures
        r == equal_message(*a, *b),
{
    match (a, b) {
        (AgentMessage::User(x), AgentMessage::User(y)) => {
            let same_content: bool = match (&x.content, &y.content) {
                (UserContent::Text(s), UserContent::Text(t)) => *s == *t,
                (UserContent::Blocks(s), UserContent::Blocks(t)) => same_blocks(s, t),
                _ => false,
            };
            same_content && x.timestamp == y.timestamp
        },
        (AgentMessage::Assistant(x), AgentMessage::Assistant(y)) => same_assistant_message(x, y),
        (AgentMessage::ToolResult(x), AgentMessage::ToolResult(y)) => same_tool_result(x, y),
        (AgentMessage::Custom(x), AgentMessage::Custom(y)) => x.role == y.role && same_json(
            &x.value,
            &y.value,
        ),
        _ => false,
    }
}

} // verus!

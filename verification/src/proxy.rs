//! Answers of a model that come through a server: the server sends what
//! changed, and the message is built up here.

use std::sync::Arc;

use vstd::prelude::*;

use crate::json::{member_views, parse_json, parsed_json, push_member, Json, JsonView};
use crate::text::{
    concat2, concat4, decimal, decimal_text, has_prefix, lossy_text, split, split_text, substring,
    text_of_bytes, text_of_option, texts, trim, trim_text, begins_with, lemma_split_nonempty,
};
use crate::types::{
    copy_text, no_usage, AssistantContent, StopReason, TextContent, ThinkingContent, ToolCall,
    Usage,
};

verus! {

// ---------------------------------------------------------------------------
// Events
// ---------------------------------------------------------------------------

/// Why a model finished its answer.
#[derive(Clone, Copy, PartialEq, Eq, Structural, Debug)]
pub enum DoneReason {
    Stop,
    Length,
    ToolUse,
}

/// Why an answer failed.
#[derive(Clone, Copy, PartialEq, Eq, Structural, Debug)]
pub enum ErrorReason {
    Aborted,
    Error,
}

/// Why an answer stopped, by why it finished.
pub open spec fn stop_when_done(reason: DoneReason) -> StopReason {
    match reason {
        DoneReason::Stop => StopReason::Stop,
        DoneReason::Length => StopReason::Length,
        DoneReason::ToolUse => StopReason::ToolUse,
    }
}

/// Why an answer stopped, by why it failed.
pub open spec fn stop_when_failed(reason: ErrorReason) -> StopReason {
    match reason {
        ErrorReason::Aborted => StopReason::Aborted,
        ErrorReason::Error => StopReason::Error,
    }
}

/// What the server sends: what changed, without the message so far.
pub enum ProxyAssistantMessageEvent {
    Start,
    TextStart { content_index: usize },
    TextDelta { content_index: usize, delta: String },
    TextEnd { content_index: usize, content_signature: Option<String> },
    ThinkingStart { content_index: usize },
    ThinkingDelta { content_index: usize, delta: String },
    ThinkingEnd { content_index: usize, content_signature: Option<String> },
    ToolcallStart { content_index: usize, id: String, tool_name: String },
    ToolcallDelta { content_index: usize, delta: String },
    ToolcallEnd { content_index: usize, tool_call: ToolCall },
    Done { reason: DoneReason, usage: Usage },
    Error { reason: ErrorReason, error_message: Option<String>, usage: Usage },
}

/// What is told of an answer as it comes in. The message so far goes with it.
pub enum StreamEvent {
    Start,
    TextStart { content_index: usize },
    TextDelta { content_index: usize, delta: String },
    TextEnd { content_index: usize, content: String },
    ThinkingStart { content_index: usize },
    ThinkingDelta { content_index: usize, delta: String },
    ThinkingEnd { content_index: usize, content: String },
    ToolcallStart { content_index: usize },
    ToolcallDelta { content_index: usize, delta: String },
    ToolcallEnd { content_index: usize, tool_call: ToolCall },
    Done { reason: DoneReason },
    Error { reason: ErrorReason },
}

/// The mathematical value of a [`StreamEvent`].
pub enum StreamEventView {
    Start,
    TextStart { content_index: nat },
    TextDelta { content_index: nat, delta: Seq<char> },
    TextEnd { content_index: nat, content: Seq<char> },
    ThinkingStart { content_index: nat },
    ThinkingDelta { content_index: nat, delta: Seq<char> },
    ThinkingEnd { content_index: nat, content: Seq<char> },
    ToolcallStart { content_index: nat },
    ToolcallDelta { content_index: nat, delta: Seq<char> },
    ToolcallEnd { content_index: nat, tool_call: CallView },
    Done { reason: DoneReason },
    Error { reason: ErrorReason },
}

impl View for StreamEvent {
    type V = StreamEventView;

    open spec fn view(&self) -> StreamEventView {
        match *self {
            StreamEvent::Start => StreamEventView::Start,
            StreamEvent::TextStart { content_index } => StreamEventView::TextStart {
                content_index: content_index as nat,
            },
            StreamEvent::TextDelta { content_index, delta } => StreamEventView::TextDelta {
                content_index: content_index as nat,
                delta: delta@,
            },
            StreamEvent::TextEnd { content_index, content } => StreamEventView::TextEnd {
                content_index: content_index as nat,
                content: content@,
            },
            StreamEvent::ThinkingStart { content_index } => StreamEventView::ThinkingStart {
                content_index: content_index as nat,
            },
            StreamEvent::ThinkingDelta { content_index, delta } => StreamEventView::ThinkingDelta {
                content_index: content_index as nat,
                delta: delta@,
            },
            StreamEvent::ThinkingEnd { content_index, content } => StreamEventView::ThinkingEnd {
                content_index: content_index as nat,
                content: content@,
            },
            StreamEvent::ToolcallStart { content_index } => StreamEventView::ToolcallStart {
                content_index: content_index as nat,
            },
            StreamEvent::ToolcallDelta { content_index, delta } => StreamEventView::ToolcallDelta {
                content_index: content_index as nat,
                delta: delta@,
            },
            StreamEvent::ToolcallEnd { content_index, tool_call } => StreamEventView::ToolcallEnd {
                content_index: content_index as nat,
                tool_call: call_view(tool_call),
            },
            StreamEvent::Done { reason } => StreamEventView::Done { reason },
            StreamEvent::Error { reason } => StreamEventView::Error { reason },
        }
    }
}

// ---------------------------------------------------------------------------
// The message so far
// ---------------------------------------------------------------------------

/// The mathematical value of a call in an answer.
pub struct CallView {
    pub id: Seq<char>,
    pub name: Seq<char>,
    pub arguments: Seq<(Seq<char>, JsonView)>,
    pub thought_signature: Option<Seq<char>>,
    pub namespace: Option<Seq<char>>,
}

/// The mathematical value of a call.
pub open spec fn call_view(call: ToolCall) -> CallView {
    CallView {
        id: call.id@,
        name: call.name@,
        arguments: member_views(call.arguments@),
        thought_signature: text_of_option(call.thought_signature),
        namespace: text_of_option(call.namespace),
    }
}

/// The mathematical value of a block of an answer.
pub enum ContentView {
    Text { text: Seq<char>, signature: Option<Seq<char>> },
    Thinking { thinking: Seq<char>, signature: Option<Seq<char>> },
    ToolCall(CallView),
}

/// The mathematical value of a block of an answer.
pub open spec fn content_view(c: AssistantContent) -> ContentView {
    match c {
        AssistantContent::Text(t) => ContentView::Text {
            text: t.text@,
            signature: text_of_option(t.text_signature),
        },
        AssistantContent::Thinking(t) => ContentView::Thinking {
            thinking: t.thinking@,
            signature: text_of_option(t.thinking_signature),
        },
        AssistantContent::ToolCall(call) => ContentView::ToolCall(call_view(call)),
    }
}

/// The blocks of an answer.
pub open spec fn content_views(s: Seq<AssistantContent>) -> Seq<ContentView> {
    Seq::new(s.len(), |i: int| content_view(s[i]))
}

/// An answer that comes in: the message so far, and the arguments of its calls
/// as far as they were sent.
pub struct ProxyPartial {
    pub content: Vec<AssistantContent>,
    pub stop_reason: StopReason,
    pub usage: Usage,
    pub error_message: Option<String>,
    pub tool_json: Vec<Option<String>>,
}

/// The mathematical value of a [`ProxyPartial`].
pub struct PartialView {
    pub content: Seq<ContentView>,
    pub stop_reason: StopReason,
    pub usage: Usage,
    pub error_message: Option<Seq<char>>,
    pub tool_json: Seq<Option<Seq<char>>>,
}

/// Texts that may be missing.
pub open spec fn option_texts(s: Seq<Option<String>>) -> Seq<Option<Seq<char>>> {
    Seq::new(s.len(), |i: int| text_of_option(s[i]))
}

impl View for ProxyPartial {
    type V = PartialView;

    open spec fn view(&self) -> PartialView {
        PartialView {
            content: content_views(self.content@),
            stop_reason: self.stop_reason,
            usage: self.usage,
            error_message: text_of_option(self.error_message),
            tool_json: option_texts(self.tool_json@),
        }
    }
}

/// An empty block.
pub open spec fn empty_text() -> ContentView {
    ContentView::Text { text: Seq::empty(), signature: None }
}

/// Items with as many more as make up a length.
pub open spec fn padded_to<T>(s: Seq<T>, len: nat, item: T) -> Seq<T> {
    if s.len() >= len {
        s
    } else {
        s + Seq::new((len - s.len()) as nat, |i: int| item)
    }
}

proof fn lemma_padded<T>(s: Seq<T>, len: nat, item: T)
    requires
        len >= s.len(),
    ensures
        padded_to(s, len + 1, item) == padded_to(s, len, item).push(item),
{
    assert(padded_to(s, len + 1, item) =~= padded_to(s, len, item).push(item));
}

impl PartialView {
    /// Before anything was sent.
    pub open spec fn start() -> PartialView {
        PartialView {
            content: Seq::empty(),
            stop_reason: StopReason::Pending,
            usage: no_usage(),
            error_message: None,
            tool_json: Seq::empty(),
        }
    }

    /// With a block at a position, and empty blocks before it where there were
    /// none.
    pub open spec fn with_block(self, index: nat, block: ContentView) -> PartialView {
        PartialView {
            content: padded_to(self.content, index + 1, empty_text()).update(index as int, block),
            tool_json: padded_to(self.tool_json, index + 1, None),
            ..self
        }
    }

    /// The arguments sent so far of the call at a position.
    pub open spec fn sent_json(self, index: nat) -> Seq<char> {
        if index < self.tool_json.len() {
            match self.tool_json[index as int] {
                Some(text) => text,
                None => Seq::empty(),
            }
        } else {
            Seq::empty()
        }
    }

    /// With the arguments sent so far of the call at a position.
    pub open spec fn with_json(self, index: nat, text: Option<Seq<char>>) -> PartialView {
        if index < self.tool_json.len() {
            PartialView { tool_json: self.tool_json.update(index as int, text), ..self }
        } else {
            self
        }
    }

    /// The block at a position.
    pub open spec fn block(self, index: nat) -> Option<ContentView> {
        if index < self.content.len() {
            Some(self.content[index as int])
        } else {
            None
        }
    }

    /// With another block in place of the one at a position.
    pub open spec fn replaced(self, index: nat, block: ContentView) -> PartialView {
        PartialView { content: self.content.update(index as int, block), ..self }
    }

    /// What an event makes of the message, and what is told of it. `arguments`
    /// are those that the text of a call sent so far spells.
    pub open spec fn processed(
        self,
        event: ProxyAssistantMessageEvent,
        arguments: Seq<(Seq<char>, JsonView)>,
    ) -> (PartialView, Result<Option<StreamEventView>, Seq<char>>) {
        match event {
            ProxyAssistantMessageEvent::Start => (self, Ok(Some(StreamEventView::Start))),
            ProxyAssistantMessageEvent::TextStart { content_index } => (
                self.with_block(content_index as nat, empty_text()),
                Ok(Some(StreamEventView::TextStart { content_index: content_index as nat })),
            ),
            ProxyAssistantMessageEvent::TextDelta { content_index, delta } => match self.block(
                content_index as nat,
            ) {
                Some(ContentView::Text { text, signature }) => (
                    self.replaced(
                        content_index as nat,
                        ContentView::Text { text: text + delta@, signature },
                    ),
                    Ok(
                        Some(
                            StreamEventView::TextDelta {
                                content_index: content_index as nat,
                                delta: delta@,
                            },
                        ),
                    ),
                ),
                _ => (self, Err("Received text_delta for non-text content"@)),
            },
            ProxyAssistantMessageEvent::TextEnd { content_index, content_signature } =>
            match self.block(content_index as nat) {
                Some(ContentView::Text { text, .. }) => (
                    self.replaced(
                        content_index as nat,
                        ContentView::Text { text, signature: text_of_option(content_signature) },
                    ),
                    Ok(
                        Some(
                            StreamEventView::TextEnd {
                                content_index: content_index as nat,
                                content: text,
                            },
                        ),
                    ),
                ),
                _ => (self, Err("Received text_end for non-text content"@)),
            },
            ProxyAssistantMessageEvent::ThinkingStart { content_index } => (
                self.with_block(
                    content_index as nat,
                    ContentView::Thinking { thinking: Seq::empty(), signature: None },
                ),
                Ok(Some(StreamEventView::ThinkingStart { content_index: content_index as nat })),
            ),
            ProxyAssistantMessageEvent::ThinkingDelta { content_index, delta } =>
            match self.block(content_index as nat) {
                Some(ContentView::Thinking { thinking, signature }) => (
                    self.replaced(
                        content_index as nat,
                        ContentView::Thinking { thinking: thinking + delta@, signature },
                    ),
                    Ok(
                        Some(
                            StreamEventView::ThinkingDelta {
                                content_index: content_index as nat,
                                delta: delta@,
                            },
                        ),
                    ),
                ),
                _ => (self, Err("Received thinking_delta for non-thinking content"@)),
            },
            ProxyAssistantMessageEvent::ThinkingEnd { content_index, content_signature } =>
            match self.block(content_index as nat) {
                Some(ContentView::Thinking { thinking, .. }) => (
                    self.replaced(
                        content_index as nat,
                        ContentView::Thinking {
                            thinking,
                            signature: text_of_option(content_signature),
                        },
                    ),
                    Ok(
                        Some(
                            StreamEventView::ThinkingEnd {
                                content_index: content_index as nat,
                                content: thinking,
                            },
                        ),
                    ),
                ),
                _ => (self, Err("Received thinking_end for non-thinking content"@)),
            },
            ProxyAssistantMessageEvent::ToolcallStart { content_index, id, tool_name } => (
                self.with_block(
                    content_index as nat,
                    ContentView::ToolCall(
                        CallView {
                            id: id@,
                            name: tool_name@,
                            arguments: Seq::empty(),
                            thought_signature: None,
                            namespace: None,
                        },
                    ),
                ).with_json(content_index as nat, Some(Seq::empty())),
                Ok(Some(StreamEventView::ToolcallStart { content_index: content_index as nat })),
            ),
            ProxyAssistantMessageEvent::ToolcallDelta { content_index, delta } =>
            match self.block(content_index as nat) {
                Some(ContentView::ToolCall(call)) => (
                    self.replaced(
                        content_index as nat,
                        ContentView::ToolCall(CallView { arguments, ..call }),
                    ).with_json(
                        content_index as nat,
                        Some(self.sent_json(content_index as nat) + delta@),
                    ),
                    Ok(
                        Some(
                            StreamEventView::ToolcallDelta {
                                content_index: content_index as nat,
                                delta: delta@,
                            },
                        ),
                    ),
                ),
                _ => (self, Err("Received toolcall_delta for non-toolCall content"@)),
            },
            ProxyAssistantMessageEvent::ToolcallEnd { content_index, tool_call } =>
            match self.block(content_index as nat) {
                Some(ContentView::ToolCall(call)) => {
                    let sent = call_view(tool_call);
                    let merged = CallView {
                        id: sent.id,
                        name: sent.name,
                        arguments: sent.arguments,
                        thought_signature: if sent.thought_signature is Some {
                            sent.thought_signature
                        } else {
                            call.thought_signature
                        },
                        namespace: if sent.namespace is Some {
                            sent.namespace
                        } else {
                            call.namespace
                        },
                    };
                    (
                        self.replaced(content_index as nat, ContentView::ToolCall(merged)).with_json(
                            content_index as nat,
                            None,
                        ),
                        Ok(
                            Some(
                                StreamEventView::ToolcallEnd {
                                    content_index: content_index as nat,
                                    tool_call: merged,
                                },
                            ),
                        ),
                    )
                },
                _ => (self.with_json(content_index as nat, None), Ok(None)),
            },
            ProxyAssistantMessageEvent::Done { reason, usage } => (
                PartialView { stop_reason: stop_when_done(reason), usage, ..self },
                Ok(Some(StreamEventView::Done { reason })),
            ),
            ProxyAssistantMessageEvent::Error { reason, error_message, usage } => (
                PartialView {
                    stop_reason: stop_when_failed(reason),
                    usage,
                    error_message: text_of_option(error_message),
                    ..self
                },
                Ok(Some(StreamEventView::Error { reason })),
            ),
        }
    }
}

/// The outcome of an event in terms of mathematical values.
pub open spec fn stream_outcome(r: Result<Option<StreamEvent>, String>) -> Result<
    Option<StreamEventView>,
    Seq<char>,
> {
    match r {
        Ok(Some(event)) => Ok(Some(event@)),
        Ok(None) => Ok(None),
        Err(text) => Err(text@),
    }
}

/// Whether an event can be taken: a position must leave room for one more.
pub open spec fn event_fits(event: ProxyAssistantMessageEvent) -> bool {
    match event {
        ProxyAssistantMessageEvent::TextStart { content_index } => content_index < usize::MAX,
        ProxyAssistantMessageEvent::ThinkingStart { content_index } => content_index < usize::MAX,
        ProxyAssistantMessageEvent::ToolcallStart { content_index, .. } => content_index
            < usize::MAX,
        _ => true,
    }
}

impl ProxyPartial {
    /// Each block has its place for arguments.
    pub open spec fn wf(self) -> bool {
        self.content@.len() == self.tool_json@.len()
    }

    /// Before anything was sent.
    pub fn new() -> (r: Self)
        ensures
            r.wf(),
            r@ == PartialView::start(),
    {
        let r: ProxyPartial = ProxyPartial {
            content: Vec::new(),
            stop_reason: StopReason::Pending,
            usage: Usage::default(),
            error_message: None,
            tool_json: Vec::new(),
        };
        proof {
            assert(content_views(r.content@) =~= Seq::<ContentView>::empty());
            assert(option_texts(r.tool_json@) =~= Seq::<Option<Seq<char>>>::empty());
        }
        r
    }

    fn set_content(&mut self, index: usize, block: AssistantContent)
        requires
            old(self).wf(),
            index < usize::MAX,
        ensures
            final(self).wf(),
            final(self)@ == old(self)@.with_block(index as nat, content_view(block)),
    {
        let ghost start_content = content_views(self.content@);
        let ghost start_json = option_texts(self.tool_json@);
        while self.content.len() <= index
            invariant
                self.wf(),
                index < usize::MAX,
                self.stop_reason == old(self).stop_reason,
                self.usage == old(self).usage,
                self.error_message == old(self).error_message,
                self.content@.len() >= start_content.len(),
                self.content@.len() <= index + 1 || self.content@.len() == start_content.len(),
                content_views(self.content@) == padded_to(
                    start_content,
                    self.content@.len(),
                    empty_text(),
                ),
                option_texts(self.tool_json@) == padded_to(start_json, self.content@.len(), None),
                start_json.len() == start_content.len(),
            decreases index + 1 - self.content@.len(),
        {
            let ghost before = self.content@;
            let ghost before_json = self.tool_json@;
            self.content.push(
                AssistantContent::Text(TextContent { text: String::new(), text_signature: None }),
            );
            self.tool_json.push(None);
            proof {
                let last = content_view(self.content@.last());
                assert(last->Text_text =~= Seq::<char>::empty());
                assert(last == empty_text());
                assert(content_views(self.content@) =~= content_views(before).push(last));
                assert(option_texts(self.tool_json@) =~= option_texts(before_json).push(None));
                lemma_padded(start_content, before.len(), empty_text());
                lemma_padded(start_json, before.len(), None::<Seq<char>>);
            }
        }
        let ghost padded = self.content@;
        self.content.set(index, block);
        proof {
            assert(content_views(padded) == padded_to(
                start_content,
                (index + 1) as nat,
                empty_text(),
            ));
            assert(content_views(self.content@) =~= content_views(padded).update(
                index as int,
                content_view(block),
            ));
            assert(option_texts(self.tool_json@) == padded_to(start_json, (index + 1) as nat, None));
        }
    }

    fn set_json(&mut self, index: usize, text: Option<String>)
        requires
            old(self).wf(),
        ensures
            final(self).wf(),
            final(self)@ == old(self)@.with_json(index as nat, text_of_option(text)),
    {
        if index < self.tool_json.len() {
            let ghost before = self.tool_json@;
            self.tool_json.set(index, text);
            proof {
                assert(option_texts(self.tool_json@) =~= option_texts(before).update(
                    index as int,
                    text_of_option(text),
                ));
            }
        }
    }

    fn replace(&mut self, index: usize, block: AssistantContent)
        requires
            old(self).wf(),
            index < old(self).content@.len(),
        ensures
            final(self).wf(),
            final(self)@ == old(self)@.replaced(index as nat, content_view(block)),
    {
        let ghost before = self.content@;
        self.content.set(index, block);
        proof {
            assert(content_views(self.content@) =~= content_views(before).update(
                index as int,
                content_view(block),
            ));
        }
    }

    /// The arguments of a call as far as they will have been sent after an event,
    /// where the event sends some. They are to be read before the event is taken.
    pub fn json_after(&self, event: &ProxyAssistantMessageEvent) -> (r: Option<String>)
        requires
            self.wf(),
        ensures
            match *event {
                ProxyAssistantMessageEvent::ToolcallDelta { content_index, delta } => r matches
                    Some(text) && text@ == self@.sent_json(content_index as nat) + delta@,
                _ => r is None,
            },
    {
        match event {
            ProxyAssistantMessageEvent::ToolcallDelta { content_index, delta } => {
                Some(self.sent_with(*content_index, delta.as_str()))
            },
            _ => None,
        }
    }

    fn sent_with(&self, index: usize, delta: &str) -> (r: String)
        requires
            self.wf(),
        ensures
            r@ == self@.sent_json(index as nat) + delta@,
    {
        if index < self.tool_json.len() {
            match &self.tool_json[index] {
                Some(text) => {
                    return concat2(text.as_str(), delta);
                },
                None => {},
            }
        }
        let r: String = delta.to_string();
        proof {
            assert(r@ =~= Seq::<char>::empty() + delta@);
        }
        r
    }

    /// Takes an event of the server into the message, and says what is told of
    /// it. `arguments` are those that the text of a call sent so far spells.
    pub fn process_proxy_event(
        &mut self,
        event: ProxyAssistantMessageEvent,
        arguments: Arc<Vec<(String, Json)>>,
    ) -> (r: Result<Option<StreamEvent>, String>)
        requires
            old(self).wf(),
            event_fits(event),
        ensures
            final(self).wf(),
            (final(self)@, stream_outcome(r)) == old(self)@.processed(
                event,
                member_views(arguments@),
            ),
    {
        match event {
            ProxyAssistantMessageEvent::Start => Ok(Some(StreamEvent::Start)),
            ProxyAssistantMessageEvent::TextStart { content_index } => {
                let block: AssistantContent = AssistantContent::Text(
                    TextContent { text: String::new(), text_signature: None },
                );
                proof {
                    assert(content_view(block)->Text_text =~= Seq::<char>::empty());
                }
                self.set_content(content_index, block);
                Ok(Some(StreamEvent::TextStart { content_index }))
            },
            ProxyAssistantMessageEvent::TextDelta { content_index, delta } => {
                if content_index < self.content.len() {
                    if let AssistantContent::Text(t) = &self.content[content_index] {
                        let block: AssistantContent = AssistantContent::Text(
                            TextContent {
                                text: concat2(t.text.as_str(), delta.as_str()),
                                text_signature: copy_text(&t.text_signature),
                            },
                        );
                        self.replace(content_index, block);
                        return Ok(Some(StreamEvent::TextDelta { content_index, delta }));
                    }
                }
                Err("Received text_delta for non-text content".to_string())
            },
            ProxyAssistantMessageEvent::TextEnd { content_index, content_signature } => {
                if content_index < self.content.len() {
                    if let AssistantContent::Text(t) = &self.content[content_index] {
                        let content: String = t.text.clone();
                        let block: AssistantContent = AssistantContent::Text(
                            TextContent { text: content.clone(), text_signature: content_signature },
                        );
                        self.replace(content_index, block);
                        return Ok(Some(StreamEvent::TextEnd { content_index, content }));
                    }
                }
                Err("Received text_end for non-text content".to_string())
            },
            ProxyAssistantMessageEvent::ThinkingStart { content_index } => {
                let block: AssistantContent = AssistantContent::Thinking(
                    ThinkingContent { thinking: String::new(), thinking_signature: None },
                );
                proof {
                    assert(content_view(block)->Thinking_thinking =~= Seq::<char>::empty());
                }
                self.set_content(content_index, block);
                Ok(Some(StreamEvent::ThinkingStart { content_index }))
            },
            ProxyAssistantMessageEvent::ThinkingDelta { content_index, delta } => {
                if content_index < self.content.len() {
                    if let AssistantContent::Thinking(t) = &self.content[content_index] {
                        let block: AssistantContent = AssistantContent::Thinking(
                            ThinkingContent {
                                thinking: concat2(t.thinking.as_str(), delta.as_str()),
                                thinking_signature: copy_text(&t.thinking_signature),
                            },
                        );
                        self.replace(content_index, block);
                        return Ok(Some(StreamEvent::ThinkingDelta { content_index, delta }));
                    }
                }
                Err("Received thinking_delta for non-thinking content".to_string())
            },
            ProxyAssistantMessageEvent::ThinkingEnd { content_index, content_signature } => {
                if content_index < self.content.len() {
                    if let AssistantContent::Thinking(t) = &self.content[content_index] {
                        let content: String = t.thinking.clone();
                        let block: AssistantContent = AssistantContent::Thinking(
                            ThinkingContent {
                                thinking: content.clone(),
                                thinking_signature: content_signature,
                            },
                        );
                        self.replace(content_index, block);
                        return Ok(Some(StreamEvent::ThinkingEnd { content_index, content }));
                    }
                }
                Err("Received thinking_end for non-thinking content".to_string())
            },
            ProxyAssistantMessageEvent::ToolcallStart { content_index, id, tool_name } => {
                let no_arguments: Vec<(String, Json)> = Vec::new();
                proof {
                    assert(member_views(no_arguments@) =~= Seq::<(Seq<char>, JsonView)>::empty());
                }
                let block: AssistantContent = AssistantContent::ToolCall(
                    ToolCall {
                        id,
                        name: tool_name,
                        arguments: Arc::new(no_arguments),
                        thought_signature: None,
                        namespace: None,
                    },
                );
                self.set_content(content_index, block);
                let none: String = String::new();
                proof {
                    assert(none@ =~= Seq::<char>::empty());
                }
                self.set_json(content_index, Some(none));
                Ok(Some(StreamEvent::ToolcallStart { content_index }))
            },
            ProxyAssistantMessageEvent::ToolcallDelta { content_index, delta } => {
                if content_index < self.content.len() {
                    if let AssistantContent::ToolCall(call) = &self.content[content_index] {
                        let sent: String = self.sent_with(content_index, delta.as_str());
                        let copy: ToolCall = call.clone();
                        let block: AssistantContent = AssistantContent::ToolCall(
                            ToolCall {
                                id: copy.id,
                                name: copy.name,
                                arguments,
                                thought_signature: copy.thought_signature,
                                namespace: copy.namespace,
                            },
                        );
                        self.replace(content_index, block);
                        self.set_json(content_index, Some(sent));
                        return Ok(Some(StreamEvent::ToolcallDelta { content_index, delta }));
                    }
                }
                Err("Received toolcall_delta for non-toolCall content".to_string())
            },
            ProxyAssistantMessageEvent::ToolcallEnd { content_index, tool_call } => {
                if content_index < self.content.len() {
                    if let AssistantContent::ToolCall(call) = &self.content[content_index] {
                        let held: ToolCall = call.clone();
                        let merged: ToolCall = ToolCall {
                            id: tool_call.id,
                            name: tool_call.name,
                            arguments: tool_call.arguments,
                            thought_signature: match tool_call.thought_signature {
                                Some(text) => Some(text),
                                None => held.thought_signature,
                            },
                            namespace: match tool_call.namespace {
                                Some(text) => Some(text),
                                None => held.namespace,
                            },
                        };
                        self.replace(content_index, AssistantContent::ToolCall(merged.clone()));
                        self.set_json(content_index, None);
                        return Ok(Some(StreamEvent::ToolcallEnd { content_index, tool_call: merged }));
                    }
                }
                self.set_json(content_index, None);
                Ok(None)
            },
            ProxyAssistantMessageEvent::Done { reason, usage } => {
                self.stop_reason = match reason {
                    DoneReason::Stop => StopReason::Stop,
                    DoneReason::Length => StopReason::Length,
                    DoneReason::ToolUse => StopReason::ToolUse,
                };
                self.usage = usage;
                Ok(Some(StreamEvent::Done { reason }))
            },
            ProxyAssistantMessageEvent::Error { reason, error_message, usage } => {
                self.stop_reason = match reason {
                    ErrorReason::Aborted => StopReason::Aborted,
                    ErrorReason::Error => StopReason::Error,
                };
                self.error_message = error_message;
                self.usage = usage;
                Ok(Some(StreamEvent::Error { reason }))
            },
        }
    }

    /// Ends an answer that failed: by an abort, or for another reason.
    pub fn fail(&mut self, aborted: bool, message: String) -> (r: StreamEvent)
        requires
            old(self).wf(),
        ensures
            final(self).wf(),
            r@ == (StreamEventView::Error { reason: failure_reason(aborted) }),
            final(self)@ == (PartialView {
                stop_reason: stop_when_failed(failure_reason(aborted)),
                error_message: Some(message@),
                ..old(self)@
            }),
    {
        let reason: ErrorReason = if aborted {
            ErrorReason::Aborted
        } else {
            ErrorReason::Error
        };
        self.stop_reason = if aborted {
            StopReason::Aborted
        } else {
            StopReason::Error
        };
        self.error_message = Some(message);
        StreamEvent::Error { reason }
    }
}

/// Why an answer failed.
pub open spec fn failure_reason(aborted: bool) -> ErrorReason {
    if aborted {
        ErrorReason::Aborted
    } else {
        ErrorReason::Error
    }
}

/// An event that is refused changes nothing, and no event moves a block.
pub proof fn law_refused_events_change_nothing(
    partial: PartialView,
    event: ProxyAssistantMessageEvent,
    arguments: Seq<(Seq<char>, JsonView)>,
)
    ensures
        partial.processed(event, arguments).1 is Err ==> partial.processed(event, arguments).0
            == partial,
        partial.processed(event, arguments).0.content.len() >= partial.content.len(),
{
}

// ---------------------------------------------------------------------------
// Lines of the stream
// ---------------------------------------------------------------------------

/// What a line of the stream carries, if anything.
pub open spec fn line_data(line: Seq<char>) -> Option<Seq<char>> {
    if begins_with(line, "data: "@) {
        let data = trim(line.skip(6));
        if data.len() > 0 {
            Some(data)
        } else {
            None
        }
    } else {
        None
    }
}

/// What lines of the stream carry.
pub open spec fn lines_data(lines: Seq<Seq<char>>) -> Seq<Seq<char>>
    decreases lines.len(),
{
    if lines.len() == 0 {
        Seq::empty()
    } else {
        let before = lines_data(lines.drop_last());
        match line_data(lines.last()) {
            Some(data) => before.push(data),
            None => before,
        }
    }
}

/// The lines of a text that are complete.
pub open spec fn complete_lines(text: Seq<char>) -> Seq<Seq<char>> {
    split(text, '\n').drop_last()
}

/// The line at the end of a text that is not complete.
pub open spec fn open_line(text: Seq<char>) -> Seq<char> {
    split(text, '\n').last()
}

/// The lines of a stream as it comes in.
pub struct LineBuffer {
    pub held: String,
}

impl LineBuffer {
    /// Before anything came in.
    pub fn new() -> (r: Self)
        ensures
            r.held@.len() == 0,
    {
        LineBuffer { held: String::new() }
    }

    /// Takes a chunk of bytes, and hands out what the lines carry that are now
    /// complete.
    pub fn push_chunk(&mut self, chunk: &[u8]) -> (r: Vec<String>)
        ensures
            texts(r@) == lines_data(complete_lines(old(self).held@ + lossy_text(chunk@))),
            final(self).held@ == open_line(old(self).held@ + lossy_text(chunk@)),
            vstd::utf8::valid_utf8(chunk@) ==> lossy_text(chunk@) == vstd::utf8::decode_utf8(
                chunk@,
            ),
    {
        let text: String = text_of_bytes(chunk);
        self.push_text(text.as_str())
    }

    /// Takes the text of a chunk, and hands out what the lines carry that are now
    /// complete.
    pub fn push_text(&mut self, chunk: &str) -> (r: Vec<String>)
        ensures
            texts(r@) == lines_data(complete_lines(old(self).held@ + chunk@)),
            final(self).held@ == open_line(old(self).held@ + chunk@),
    {
        let whole: String = concat2(self.held.as_str(), chunk);
        let mut lines: Vec<String> = split_text(whole.as_str(), '\n');
        let ghost all = lines@;
        let n: usize = lines.len();
        self.held = lines[n - 1].clone();
        lines.pop();
        proof {
            assert(texts(all).last() == self.held@);
            assert(texts(lines@) =~= texts(all).drop_last());
        }
        let mut out: Vec<String> = Vec::new();
        let mut i: usize = 0;
        proof {
            assert(texts(lines@).take(0) =~= Seq::<Seq<char>>::empty());
            assert(texts(out@) =~= Seq::<Seq<char>>::empty());
        }
        while i < lines.len()
            invariant
                i <= lines@.len(),
                texts(out@) == lines_data(texts(lines@).take(i as int)),
            decreases lines@.len() - i,
        {
            let ghost before = out@;
            proof {
                let views = texts(lines@);
                assert(views.take(i + 1).drop_last() =~= views.take(i as int));
                assert(views.take(i + 1).last() == lines@[i as int]@);
                reveal_strlit("data: ");
            }
            if has_prefix(lines[i].as_str(), "data: ") {
                let size: usize = lines[i].as_str().unicode_len();
                let rest: String = substring(lines[i].as_str(), 6, size);
                proof {
                    assert(lines@[i as int]@.subrange(6, size as int)
                        =~= lines@[i as int]@.skip(6));
                }
                let data: String = trim_text(rest.as_str());
                if data.as_str().unicode_len() > 0 {
                    out.push(data);
                    proof {
                        assert(texts(out@) =~= texts(before).push(data@));
                    }
                }
            }
            i = i + 1;
        }
        proof {
            assert(texts(lines@).take(lines@.len() as int) =~= texts(lines@));
        }
        out
    }
}

proof fn lemma_split_in_two(a: Seq<char>, b: Seq<char>)
    ensures
        split(a + b, '\n') == complete_lines(a) + split(open_line(a) + b, '\n'),
    decreases b.len(),
{
    lemma_split_nonempty(a, '\n');
    if b.len() == 0 {
        assert(a + b =~= a);
        let tail = open_line(a);
        assert(tail + b =~= tail);
        lemma_one_line(a);
        assert(split(a, '\n') =~= complete_lines(a) + seq![tail]);
    } else {
        let front = b.drop_last();
        lemma_split_in_two(a, front);
        assert((a + b).drop_last() =~= a + front);
        assert((open_line(a) + b).drop_last() =~= open_line(a) + front);
        lemma_split_nonempty(open_line(a) + front, '\n');
        assert(split(a + b, '\n') =~= complete_lines(a) + split(open_line(a) + b, '\n'));
    }
}

proof fn lemma_one_line(a: Seq<char>)
    ensures
        split(open_line(a), '\n') == seq![open_line(a)],
    decreases a.len(),
{
    lemma_split_nonempty(a, '\n');
    if a.len() > 0 {
        lemma_one_line(a.drop_last());
        let before = open_line(a.drop_last());
        lemma_split_nonempty(a.drop_last(), '\n');
        if a.last() != '\n' {
            let now = open_line(a);
            assert(now == before.push(a.last()));
            assert(now.drop_last() =~= before);
            assert(split(now, '\n') =~= seq![now]);
        } else {
            assert(open_line(a) =~= Seq::<char>::empty());
        }
    } else {
        assert(open_line(a) =~= Seq::<char>::empty());
    }
}

proof fn lemma_lines_data_concat(a: Seq<Seq<char>>, b: Seq<Seq<char>>)
    ensures
        lines_data(a + b) == lines_data(a) + lines_data(b),
    decreases b.len(),
{
    if b.len() == 0 {
        assert(a + b =~= a);
        assert(lines_data(a) + lines_data(b) =~= lines_data(a));
    } else {
        lemma_lines_data_concat(a, b.drop_last());
        assert((a + b).drop_last() =~= a + b.drop_last());
        assert(lines_data(a + b) =~= lines_data(a) + lines_data(b));
    }
}

/// How a stream is cut into chunks does not matter: two chunks carry what one
/// chunk of both carries.
pub proof fn law_chunks_carry_what_the_stream_carries(held: Seq<char>, a: Seq<char>, b: Seq<char>)
    ensures
        lines_data(complete_lines(held + (a + b))) == lines_data(complete_lines(held + a))
            + lines_data(complete_lines(open_line(held + a) + b)),
        open_line(held + (a + b)) == open_line(open_line(held + a) + b),
{
    let first = held + a;
    assert(held + (a + b) =~= first + b);
    lemma_split_in_two(first, b);
    let rest = open_line(first) + b;
    lemma_split_nonempty(rest, '\n');
    assert(complete_lines(first + b) =~= complete_lines(first) + complete_lines(rest));
    lemma_lines_data_concat(complete_lines(first), complete_lines(rest));
}

// ---------------------------------------------------------------------------
// The request and its answer
// ---------------------------------------------------------------------------

/// Where the server takes requests.
pub fn stream_url(proxy_url: &str) -> (r: String)
    ensures
        r@ == proxy_url@ + "/api/stream"@,
{
    concat2(proxy_url, "/api/stream")
}

/// The headers of a request.
pub fn request_headers(auth_token: &str) -> (r: Vec<(String, String)>)
    ensures
        r@.len() == 2,
        r@[0].0@ == "Authorization"@,
        r@[0].1@ == "Bearer "@ + auth_token@,
        r@[1].0@ == "Content-Type"@,
        r@[1].1@ == "application/json"@,
{
    let mut headers: Vec<(String, String)> = Vec::new();
    headers.push(("Authorization".to_string(), concat2("Bearer ", auth_token)));
    headers.push(("Content-Type".to_string(), "application/json".to_string()));
    headers
}

/// What a request says besides the model and the context. What only the server
/// reads is a value.
pub struct ProxyRequestOptions {
    pub temperature: Option<Json>,
    pub sampling_params: Option<Json>,
    pub max_tokens: Option<u64>,
    pub reasoning: Option<Json>,
    pub cache_retention: Option<Json>,
    pub session_id: Option<String>,
    pub headers: Option<Json>,
    pub metadata: Option<Json>,
    pub transport: Option<Json>,
    pub thinking_budgets: Option<Json>,
    pub max_retry_delay_ms: Option<u64>,
}

/// A member that is there only with its value.
pub open spec fn optional_member(key: Seq<char>, value: Option<JsonView>) -> Seq<
    (Seq<char>, JsonView),
> {
    match value {
        Some(v) => seq![(key, v)],
        None => Seq::empty(),
    }
}

/// The value of an option.
pub open spec fn option_view(value: Option<Json>) -> Option<JsonView> {
    match value {
        Some(v) => Some(v@),
        None => None,
    }
}

/// The value of an option that is a number.
pub open spec fn number_view(value: Option<u64>) -> Option<JsonView> {
    match value {
        Some(n) => Some(JsonView::Unsigned(n as nat)),
        None => None,
    }
}

/// The value of an option that is a text.
pub open spec fn optional_text_view(value: Option<String>) -> Option<JsonView> {
    match value {
        Some(text) => Some(JsonView::Text(text@)),
        None => None,
    }
}

impl ProxyRequestOptions {
    /// The options that are given, under their names.
    pub open spec fn members(self) -> Seq<(Seq<char>, JsonView)> {
        optional_member("temperature"@, option_view(self.temperature)) + optional_member(
            "samplingParams"@,
            option_view(self.sampling_params),
        ) + optional_member("maxTokens"@, number_view(self.max_tokens)) + optional_member(
            "reasoning"@,
            option_view(self.reasoning),
        ) + optional_member("cacheRetention"@, option_view(self.cache_retention))
            + optional_member("sessionId"@, optional_text_view(self.session_id)) + optional_member(
            "headers"@,
            option_view(self.headers),
        ) + optional_member("metadata"@, option_view(self.metadata)) + optional_member(
            "transport"@,
            option_view(self.transport),
        ) + optional_member("thinkingBudgets"@, option_view(self.thinking_budgets))
            + optional_member("maxRetryDelayMs"@, number_view(self.max_retry_delay_ms))
    }
}

fn push_optional(members: &mut Vec<(String, Json)>, key: &str, value: Option<Json>)
    ensures
        member_views(final(members)@) == member_views(old(members)@) + optional_member(
            key@,
            option_view(value),
        ),
{
    let ghost before = member_views(members@);
    match value {
        Some(v) => push_member(members, key, v),
        None => {},
    }
    proof {
        assert(member_views(members@) =~= before + optional_member(key@, option_view(value)));
    }
}

fn number_of(value: Option<u64>) -> (r: Option<Json>)
    ensures
        option_view(r) == number_view(value),
{
    match value {
        Some(n) => Some(Json::Unsigned(n)),
        None => None,
    }
}

fn text_of(value: Option<String>) -> (r: Option<Json>)
    ensures
        option_view(r) == optional_text_view(value),
{
    match value {
        Some(text) => Some(Json::Text(text)),
        None => None,
    }
}

/// What a request says: the model, the context, and the options that are given.
pub fn request_body(model: Json, context: Json, options: ProxyRequestOptions) -> (r: Json)
    ensures
        r@ == JsonView::Object(
            seq![
                ("model"@, model@),
                ("context"@, context@),
                ("options"@, JsonView::Object(options.members())),
            ],
        ),
{
    let ghost expected = options.members();
    let mut given: Vec<(String, Json)> = Vec::new();
    proof {
        assert(member_views(given@) =~= Seq::empty());
    }
    push_optional(&mut given, "temperature", options.temperature);
    push_optional(&mut given, "samplingParams", options.sampling_params);
    push_optional(&mut given, "maxTokens", number_of(options.max_tokens));
    push_optional(&mut given, "reasoning", options.reasoning);
    push_optional(&mut given, "cacheRetention", options.cache_retention);
    push_optional(&mut given, "sessionId", text_of(options.session_id));
    push_optional(&mut given, "headers", options.headers);
    push_optional(&mut given, "metadata", options.metadata);
    push_optional(&mut given, "transport", options.transport);
    push_optional(&mut given, "thinkingBudgets", options.thinking_budgets);
    push_optional(&mut given, "maxRetryDelayMs", number_of(options.max_retry_delay_ms));
    proof {
        assert(member_views(given@) =~= expected);
    }
    let mut members: Vec<(String, Json)> = Vec::new();
    push_member(&mut members, "model", model);
    push_member(&mut members, "context", context);
    push_member(&mut members, "options", Json::Object(given));
    proof {
        assert(member_views(members@) =~= seq![
            ("model"@, model@),
            ("context"@, context@),
            ("options"@, JsonView::Object(expected)),
        ]);
    }
    Json::Object(members)
}

/// Whether a status stands for success.
pub fn is_success(status: u16) -> (r: bool)
    ensures
        r == (200 <= status < 300),
{
    200 <= status && status < 300
}

/// The reason phrase of a status, empty where it has none.
pub uninterp spec fn reason_phrase(status: u16) -> Seq<char>;

/// Calls `StatusCode::canonical_reason` of the `reqwest` crate for a status: its
/// standardised reason phrase, and the empty text for a number that is no status
/// or has no phrase. The result is named `reason_phrase`.
#[verifier::external_body]
fn status_text(status: u16) -> (r: String)
    ensures
        r@ == reason_phrase(status),
{
    reqwest::StatusCode::from_u16(status)
        .ok()
        .and_then(|status| status.canonical_reason())
        .unwrap_or_default()
        .to_owned()
}

/// What is said of a request that failed: what the server said, or else the
/// status.
pub open spec fn proxy_error_text(
    status: u16,
    phrase: Seq<char>,
    answer: Result<JsonView, Seq<char>>,
) -> Seq<char> {
    let plain = "Proxy error: "@ + decimal(status as nat) + " "@ + phrase;
    match answer {
        Ok(value) => match value.get("error"@) {
            Some(JsonView::Text(error)) => "Proxy error: "@ + error,
            _ => plain,
        },
        Err(_) => plain,
    }
}

/// What is said of a request that failed, given the phrase of its status and the
/// answer of the server, if that is a value.
pub fn proxy_error_with(status: u16, phrase: &str, answer: &Option<Json>) -> (r: String)
    ensures
        r@ == proxy_error_text(
            status,
            phrase@,
            match *answer {
                Some(value) => Ok(value@),
                None => Err(Seq::empty()),
            },
        ),
{
    match answer {
        Some(value) => match value.get("error") {
            Some(Json::Text(error)) => {
                return concat2("Proxy error: ", error.as_str());
            },
            _ => {},
        },
        None => {},
    }
    concat4("Proxy error: ", decimal_text(status as u64).as_str(), " ", phrase)
}

/// What is said of a request that failed.
pub fn proxy_error(status: u16, body: &[u8]) -> (r: String)
    ensures
        r@ == proxy_error_text(status, reason_phrase(status), parsed_json(lossy_text(body@))),
{
    let text: String = text_of_bytes(body);
    let answer: Option<Json> = match parse_json(text.as_str()) {
        Ok(value) => Some(value),
        Err(_) => None,
    };
    let phrase: String = status_text(status);
    proxy_error_with(status, phrase.as_str(), &answer)
}

} // verus!

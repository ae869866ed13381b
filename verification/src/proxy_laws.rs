//! What holds of answers that come in through a server: their parts add up to
//! what was sent.

use vstd::prelude::*;

use crate::json::JsonView;
use crate::proxy::{
    call_view, line_data, lines_data, number_view, option_view, optional_member,
    optional_text_view, proxy_error_text, CallView, ContentView, DoneReason,
    ErrorReason, PartialView, ProxyAssistantMessageEvent, ProxyRequestOptions, StreamEventView,
};
use crate::text::{decimal, text_of_option, trim};
use crate::types::{StopReason, ToolCall, Usage};

verus! {

// ---------------------------------------------------------------------------
// Blocks
// ---------------------------------------------------------------------------

/// Whether two states of an answer differ in no block but one, and in nothing
/// else.
pub open spec fn only_block_changes(before: PartialView, after: PartialView, index: nat) -> bool {
    &&& after.stop_reason == before.stop_reason
    &&& after.usage == before.usage
    &&& after.error_message == before.error_message
    &&& forall|k: nat|
        k != index && k < before.content.len() ==> #[trigger] after.block(k) == before.block(k)
}

/// A text is what was sent for it, part after part, and has the signature that
/// its end gives. Each part is told as it was sent, and the whole at the end.
pub proof fn law_texts_are_what_was_sent(
    partial: PartialView,
    content_index: usize,
    first: String,
    second: String,
    content_signature: Option<String>,
    none: Seq<(Seq<char>, JsonView)>,
)
    ensures
        ({
            let index = content_index as nat;
            let (a, start) = partial.processed(
                ProxyAssistantMessageEvent::TextStart { content_index },
                none,
            );
            let (b, told) = a.processed(
                ProxyAssistantMessageEvent::TextDelta { content_index, delta: first },
                none,
            );
            let (c, also) = b.processed(
                ProxyAssistantMessageEvent::TextDelta { content_index, delta: second },
                none,
            );
            let (d, end) = c.processed(
                ProxyAssistantMessageEvent::TextEnd { content_index, content_signature },
                none,
            );
            &&& a.block(index) == Some(
                ContentView::Text { text: Seq::empty(), signature: None },
            )
            &&& c.block(index) == Some(
                ContentView::Text { text: first@ + second@, signature: None },
            )
            &&& d.block(index) == Some(
                ContentView::Text {
                    text: first@ + second@,
                    signature: text_of_option(content_signature),
                },
            )
            &&& only_block_changes(partial, d, index)
            &&& start == Ok::<Option<StreamEventView>, Seq<char>>(
                Some(StreamEventView::TextStart { content_index: index }),
            )
            &&& told == Ok::<Option<StreamEventView>, Seq<char>>(
                Some(StreamEventView::TextDelta { content_index: index, delta: first@ }),
            )
            &&& also == Ok::<Option<StreamEventView>, Seq<char>>(
                Some(StreamEventView::TextDelta { content_index: index, delta: second@ }),
            )
            &&& end == Ok::<Option<StreamEventView>, Seq<char>>(
                Some(StreamEventView::TextEnd { content_index: index, content: first@ + second@ }),
            )
        }),
{
    assert(Seq::<char>::empty() + first@ =~= first@);
}

/// A thought is what was sent for it, as a text is.
pub proof fn law_thoughts_are_what_was_sent(
    partial: PartialView,
    content_index: usize,
    first: String,
    second: String,
    content_signature: Option<String>,
    none: Seq<(Seq<char>, JsonView)>,
)
    ensures
        ({
            let index = content_index as nat;
            let (a, start) = partial.processed(
                ProxyAssistantMessageEvent::ThinkingStart { content_index },
                none,
            );
            let (b, told) = a.processed(
                ProxyAssistantMessageEvent::ThinkingDelta { content_index, delta: first },
                none,
            );
            let (c, also) = b.processed(
                ProxyAssistantMessageEvent::ThinkingDelta { content_index, delta: second },
                none,
            );
            let (d, end) = c.processed(
                ProxyAssistantMessageEvent::ThinkingEnd { content_index, content_signature },
                none,
            );
            &&& a.block(index) == Some(
                ContentView::Thinking { thinking: Seq::empty(), signature: None },
            )
            &&& d.block(index) == Some(
                ContentView::Thinking {
                    thinking: first@ + second@,
                    signature: text_of_option(content_signature),
                },
            )
            &&& only_block_changes(partial, d, index)
            &&& start == Ok::<Option<StreamEventView>, Seq<char>>(
                Some(StreamEventView::ThinkingStart { content_index: index }),
            )
            &&& told == Ok::<Option<StreamEventView>, Seq<char>>(
                Some(StreamEventView::ThinkingDelta { content_index: index, delta: first@ }),
            )
            &&& also == Ok::<Option<StreamEventView>, Seq<char>>(
                Some(StreamEventView::ThinkingDelta { content_index: index, delta: second@ }),
            )
            &&& end == Ok::<Option<StreamEventView>, Seq<char>>(
                Some(
                    StreamEventView::ThinkingEnd {
                        content_index: index,
                        content: first@ + second@,
                    },
                ),
            )
        }),
{
    assert(Seq::<char>::empty() + first@ =~= first@);
}

/// A call has the name and the id that it starts with and, while it comes in,
/// the arguments that the parts sent so far spell. Its end gives it whole; what
/// it does not give there stays.
pub proof fn law_calls_are_what_was_sent(
    partial: PartialView,
    content_index: usize,
    id: String,
    tool_name: String,
    first: String,
    second: String,
    spelled: Seq<(Seq<char>, JsonView)>,
    tool_call: ToolCall,
)
    requires
        partial.content.len() == partial.tool_json.len(),
    ensures
        ({
            let index = content_index as nat;
            let (a, start) = partial.processed(
                ProxyAssistantMessageEvent::ToolcallStart { content_index, id, tool_name },
                spelled,
            );
            let (b, told) = a.processed(
                ProxyAssistantMessageEvent::ToolcallDelta { content_index, delta: first },
                spelled,
            );
            let (c, also) = b.processed(
                ProxyAssistantMessageEvent::ToolcallDelta { content_index, delta: second },
                spelled,
            );
            let (d, end) = c.processed(
                ProxyAssistantMessageEvent::ToolcallEnd { content_index, tool_call },
                spelled,
            );
            let empty = CallView {
                id: id@,
                name: tool_name@,
                arguments: Seq::empty(),
                thought_signature: None,
                namespace: None,
            };
            &&& a.block(index) == Some(ContentView::ToolCall(empty))
            &&& a.sent_json(index).len() == 0
            &&& b.sent_json(index) == first@
            &&& c.sent_json(index) == first@ + second@
            &&& c.block(index) == Some(
                ContentView::ToolCall(CallView { arguments: spelled, ..empty }),
            )
            &&& d.block(index) == Some(ContentView::ToolCall(call_view(tool_call)))
            &&& d.sent_json(index).len() == 0
            &&& only_block_changes(partial, d, index)
            &&& start == Ok::<Option<StreamEventView>, Seq<char>>(
                Some(StreamEventView::ToolcallStart { content_index: index }),
            )
            &&& told == Ok::<Option<StreamEventView>, Seq<char>>(
                Some(StreamEventView::ToolcallDelta { content_index: index, delta: first@ }),
            )
            &&& end == Ok::<Option<StreamEventView>, Seq<char>>(
                Some(
                    StreamEventView::ToolcallEnd {
                        content_index: index,
                        tool_call: call_view(tool_call),
                    },
                ),
            )
        }),
{
    assert(Seq::<char>::empty() + first@ =~= first@);
}

/// The end of a call keeps the signature and the namespace that the call had
/// where it gives none.
pub proof fn law_ends_of_calls_keep_what_they_do_not_give(
    partial: PartialView,
    content_index: usize,
    call: CallView,
    tool_call: ToolCall,
    spelled: Seq<(Seq<char>, JsonView)>,
)
    requires
        partial.block(content_index as nat) == Some(ContentView::ToolCall(call)),
    ensures
        ({
            let after = partial.processed(
                ProxyAssistantMessageEvent::ToolcallEnd { content_index, tool_call },
                spelled,
            ).0;
            after.block(content_index as nat) matches Some(ContentView::ToolCall(made)) && {
                &&& made.id == tool_call.id@
                &&& made.name == tool_call.name@
                &&& made.arguments == call_view(tool_call).arguments
                &&& made.thought_signature == match tool_call.thought_signature {
                    Some(text) => Some(text@),
                    None => call.thought_signature,
                }
                &&& made.namespace == match tool_call.namespace {
                    Some(text) => Some(text@),
                    None => call.namespace,
                }
            }
        }),
{
}

/// A part is refused where no block of its kind stands, and only there.
pub proof fn law_parts_need_their_block(
    partial: PartialView,
    content_index: usize,
    delta: String,
    signature: Option<String>,
    spelled: Seq<(Seq<char>, JsonView)>,
)
    ensures
        ({
            let block = partial.block(content_index as nat);
            let is_text = block matches Some(ContentView::Text { .. });
            let is_thought = block matches Some(ContentView::Thinking { .. });
            let is_call = block matches Some(ContentView::ToolCall(_));
            let refused = |event: ProxyAssistantMessageEvent|
                partial.processed(event, spelled).1 is Err;
            &&& refused(ProxyAssistantMessageEvent::TextDelta { content_index, delta })
                <==> !is_text
            &&& refused(
                ProxyAssistantMessageEvent::TextEnd { content_index, content_signature: signature },
            ) <==> !is_text
            &&& refused(ProxyAssistantMessageEvent::ThinkingDelta { content_index, delta })
                <==> !is_thought
            &&& refused(
                ProxyAssistantMessageEvent::ThinkingEnd {
                    content_index,
                    content_signature: signature,
                },
            ) <==> !is_thought
            &&& refused(ProxyAssistantMessageEvent::ToolcallDelta { content_index, delta })
                <==> !is_call
            &&& !refused(ProxyAssistantMessageEvent::TextStart { content_index })
            &&& !refused(ProxyAssistantMessageEvent::ThinkingStart { content_index })
            &&& !refused(ProxyAssistantMessageEvent::Start)
        }),
{
}

/// The end of an answer leaves its blocks alone, and says why it stopped and
/// what it took.
pub proof fn law_answers_say_why_they_stopped(
    partial: PartialView,
    done: DoneReason,
    failed: ErrorReason,
    error_message: Option<String>,
    usage: Usage,
    none: Seq<(Seq<char>, JsonView)>,
)
    ensures
        ({
            let (ended, told) = partial.processed(
                ProxyAssistantMessageEvent::Done { reason: done, usage },
                none,
            );
            let (broken, why) = partial.processed(
                ProxyAssistantMessageEvent::Error { reason: failed, error_message, usage },
                none,
            );
            &&& ended.content == partial.content
            &&& broken.content == partial.content
            &&& ended.usage == usage
            &&& broken.usage == usage
            &&& ended.error_message == partial.error_message
            &&& broken.error_message == text_of_option(error_message)
            &&& ended.stop_reason == match done {
                DoneReason::Stop => StopReason::Stop,
                DoneReason::Length => StopReason::Length,
                DoneReason::ToolUse => StopReason::ToolUse,
            }
            &&& broken.stop_reason == match failed {
                ErrorReason::Aborted => StopReason::Aborted,
                ErrorReason::Error => StopReason::Error,
            }
            &&& told == Ok::<Option<StreamEventView>, Seq<char>>(
                Some(StreamEventView::Done { reason: done }),
            )
            &&& why == Ok::<Option<StreamEventView>, Seq<char>>(
                Some(StreamEventView::Error { reason: failed }),
            )
        }),
{
}

// ---------------------------------------------------------------------------
// Lines
// ---------------------------------------------------------------------------

/// A line carries what follows its mark, without the space around it, unless
/// there is nothing; a line without the mark carries nothing.
pub proof fn law_marked_lines_carry_data(line: Seq<char>, data: Seq<char>)
    ensures
        trim(data).len() > 0 ==> line_data("data: "@ + data) == Some(trim(data)),
        trim(data).len() == 0 ==> line_data("data: "@ + data) is None,
        line_data(line) matches Some(found) ==> found.len() > 0 && line.len() >= 6 && line.take(6)
            == "data: "@ && found == trim(line.skip(6)),
{
    reveal_strlit("data: ");
    let marked = "data: "@ + data;
    assert(marked.skip(6) =~= data);
    assert(crate::text::begins_with(marked, "data: "@)) by {
        assert(marked.subrange(0, 6) =~= "data: "@);
    }
    if line_data(line) is Some {
        assert(line.take(6) =~= "data: "@);
    }
}

/// Lines carry what each of them carries, in order.
pub proof fn law_lines_carry_data_in_order(lines: Seq<Seq<char>>)
    ensures
        lines_data(lines) == lines.filter_map(|line: Seq<char>| line_data(line)),
    decreases lines.len(),
{
    let f = |line: Seq<char>| line_data(line);
    if lines.len() > 0 {
        law_lines_carry_data_in_order(lines.drop_last());
    }
    assert(lines_data(lines) =~= lines.filter_map(f));
}

// ---------------------------------------------------------------------------
// Requests
// ---------------------------------------------------------------------------

/// A request holds each option that is given, under its name, and no other.
pub proof fn law_given_options_are_sent(options: ProxyRequestOptions)
    ensures
        ({
            let sent = options.members();
            let count = |given: bool| if given { 1int } else { 0int };
            &&& options.temperature matches Some(v) ==> sent.contains(("temperature"@, v@))
            &&& options.sampling_params matches Some(v) ==> sent.contains(("samplingParams"@, v@))
            &&& options.max_tokens matches Some(n) ==> sent.contains(
                ("maxTokens"@, JsonView::Unsigned(n as nat)),
            )
            &&& options.reasoning matches Some(v) ==> sent.contains(("reasoning"@, v@))
            &&& options.cache_retention matches Some(v) ==> sent.contains(("cacheRetention"@, v@))
            &&& options.session_id matches Some(text) ==> sent.contains(
                ("sessionId"@, JsonView::Text(text@)),
            )
            &&& options.headers matches Some(v) ==> sent.contains(("headers"@, v@))
            &&& options.metadata matches Some(v) ==> sent.contains(("metadata"@, v@))
            &&& options.transport matches Some(v) ==> sent.contains(("transport"@, v@))
            &&& options.thinking_budgets matches Some(v) ==> sent.contains(
                ("thinkingBudgets"@, v@),
            )
            &&& options.max_retry_delay_ms matches Some(n) ==> sent.contains(
                ("maxRetryDelayMs"@, JsonView::Unsigned(n as nat)),
            )
            &&& sent.len() == count(options.temperature is Some) + count(
                options.sampling_params is Some,
            ) + count(options.max_tokens is Some) + count(options.reasoning is Some) + count(
                options.cache_retention is Some,
            ) + count(options.session_id is Some) + count(options.headers is Some) + count(
                options.metadata is Some,
            ) + count(options.transport is Some) + count(options.thinking_budgets is Some) + count(
                options.max_retry_delay_ms is Some,
            )
        }),
{
    let none = Seq::<(Seq<char>, JsonView)>::empty();
    let s0 = lemma_one_more_option(none, "temperature"@, option_view(options.temperature));
    let s1 = lemma_one_more_option(s0, "samplingParams"@, option_view(options.sampling_params));
    let s2 = lemma_one_more_option(s1, "maxTokens"@, number_view(options.max_tokens));
    let s3 = lemma_one_more_option(s2, "reasoning"@, option_view(options.reasoning));
    let s4 = lemma_one_more_option(s3, "cacheRetention"@, option_view(options.cache_retention));
    let s5 = lemma_one_more_option(s4, "sessionId"@, optional_text_view(options.session_id));
    let s6 = lemma_one_more_option(s5, "headers"@, option_view(options.headers));
    let s7 = lemma_one_more_option(s6, "metadata"@, option_view(options.metadata));
    let s8 = lemma_one_more_option(s7, "transport"@, option_view(options.transport));
    let s9 = lemma_one_more_option(s8, "thinkingBudgets"@, option_view(options.thinking_budgets));
    let s10 = lemma_one_more_option(s9, "maxRetryDelayMs"@, number_view(options.max_retry_delay_ms));
    assert(none + optional_member("temperature"@, option_view(options.temperature)) =~= optional_member("temperature"@, option_view(options.temperature)));
    assert(options.members() == s10);
}

proof fn lemma_one_more_option(
    front: Seq<(Seq<char>, JsonView)>,
    key: Seq<char>,
    value: Option<JsonView>,
) -> (all: Seq<(Seq<char>, JsonView)>)
    ensures
        all == front + optional_member(key, value),
        value matches Some(v) ==> all.contains((key, v)) && all.len() == front.len() + 1,
        value is None ==> all.len() == front.len(),
        forall|x: (Seq<char>, JsonView)| #[trigger] front.contains(x) ==> all.contains(x),
{
    let all = front + optional_member(key, value);
    if let Some(v) = value {
        assert(all[front.len() as int] == (key, v));
    }
    assert forall|x: (Seq<char>, JsonView)| #[trigger] front.contains(x) implies all.contains(
        x,
    ) by {
        let i = choose|i: int| 0 <= i < front.len() && front[i] == x;
        assert(all[i] == x);
    }
    all
}

/// A request that failed is told by what the server says of it, and by its
/// status where the server says nothing.
pub proof fn law_servers_say_what_failed(
    status: u16,
    phrase: Seq<char>,
    answer: JsonView,
    problem: Seq<char>,
)
    ensures
        answer.get("error"@) matches Some(JsonView::Text(said)) ==> proxy_error_text(
            status,
            phrase,
            Ok(answer),
        ) == "Proxy error: "@ + said,
        !(answer.get("error"@) matches Some(JsonView::Text(_))) ==> proxy_error_text(
            status,
            phrase,
            Ok(answer),
        ) == "Proxy error: "@ + decimal(status as nat) + " "@ + phrase,
        proxy_error_text(status, phrase, Err(problem)) == "Proxy error: "@ + decimal(status as nat)
            + " "@ + phrase,
{
}

} // verus!

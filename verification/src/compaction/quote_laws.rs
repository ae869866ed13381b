//! What holds of a conversation that is quoted: every message with something to
//! say is in it, in order and in full, but for long results of tools.

use vstd::prelude::*;

use crate::compaction::utils::{
    assistant_texts, block_texts, call_texts, conversation_parts,
    conversation_text, message_parts, message_serializable, serializable, thinking_texts,
};
use crate::json::{json_text, json_view, lemma_member_views, Json};
use crate::text::{byte_len, cut_at, decimal, join};
use crate::types::{
    block_views, AssistantContent, BlockView, MessageView, ToolCall,
    UserContentView,
};

verus! {

/// The text blocks among blocks, joined.
pub open spec fn blocks_say(blocks: Seq<BlockView>) -> Seq<char> {
    join(
        blocks.filter_map(
            |block: BlockView|
                match block {
                    BlockView::Text { text, .. } => Some(text),
                    BlockView::Image { .. } => None,
                },
        ),
        ""@,
    )
}

/// A call as text: its name, and in brackets its arguments.
pub open spec fn call_says(call: ToolCall) -> Seq<char> {
    call.name@ + "("@ + join(
        call.arguments@.map_values(
            |argument: (String, Json)|
                argument.0@ + "="@ + (if argument.1 is Null {
                    "undefined"@
                } else {
                    json_text(json_view(argument.1))
                }),
        ),
        ", "@,
    ) + ")"@
}

/// What stands in front of a text, if there is one.
pub open spec fn labelled(label: Seq<char>, parts: Seq<Seq<char>>, sep: Seq<char>) -> Seq<
    Seq<char>,
> {
    if parts.len() == 0 {
        Seq::empty()
    } else {
        seq![label + join(parts, sep)]
    }
}

/// A result of a tool as it is quoted: in full, or its first two thousand bytes
/// and how many are missing.
pub open spec fn quotes_result(quoted: Seq<char>, text: Seq<char>) -> bool {
    if text.len() == 0 {
        quoted.len() == 0
    } else if byte_len(text) <= 2000 {
        quoted == "[Tool result]: "@ + text
    } else {
        exists|k: int|
            0 <= k <= text.len() && byte_len(#[trigger] text.take(k)) == 2000 && quoted
                == "[Tool result]: "@ + (text.take(k) + "\n\n[... "@ + decimal(
                (byte_len(text) - 2000) as nat,
            ) + " more characters truncated]"@)
    }
}

/// Whether a result of a tool can be quoted: it is short enough, or a character
/// ends where it is cut.
pub open spec fn can_be_quoted(message: MessageView) -> bool {
    message matches MessageView::ToolResult(m) ==> {
        let text = blocks_say(block_views(m.content@));
        byte_len(text) <= 2000 || exists|k: int|
            0 <= k <= text.len() && byte_len(#[trigger] text.take(k)) == 2000
    }
}

/// A conversation can be quoted exactly where each of its messages can.
pub proof fn law_what_can_be_quoted(messages: Seq<MessageView>)
    ensures
        serializable(messages) <==> forall|i: int|
            0 <= i < messages.len() ==> can_be_quoted(#[trigger] messages[i]),
{
    assert forall|i: int| 0 <= i < messages.len() implies message_serializable(
        #[trigger] messages[i],
    ) == can_be_quoted(messages[i]) by {
        if let MessageView::ToolResult(m) = messages[i] {
            let text = blocks_say(block_views(m.content@));
            lemma_block_texts(block_views(m.content@));
            if cut_at(text, 2000) is Some {
                lemma_cut_is_where_said(text, 2000);
            } else {
                lemma_no_cut(text, 2000);
            }
        }
    }
}

proof fn lemma_no_cut(text: Seq<char>, bytes: nat)
    requires
        cut_at(text, bytes) is None,
    ensures
        forall|k: int| 0 <= k <= text.len() ==> byte_len(#[trigger] text.take(k)) != bytes,
    decreases text.len(),
{
    assert(text.take(text.len() as int) =~= text);
    if text.len() > 0 {
        let front = text.drop_last();
        lemma_no_cut(front, bytes);
        assert forall|k: int| 0 <= k <= text.len() implies byte_len(#[trigger] text.take(k))
            != bytes by {
            if k < text.len() {
                assert(front.take(k) =~= text.take(k));
            }
        }
    }
}

/// A single message is quoted under the name of who said it. What an assistant
/// thought, said and called stands in three parts; a result of a tool is quoted
/// whether the tool failed or not.
pub proof fn law_messages_are_quoted(message: MessageView)
    requires
        can_be_quoted(message),
    ensures
        match message {
            MessageView::User { content, .. } => {
                let text = match content {
                    UserContentView::Text(text) => text,
                    UserContentView::Blocks(blocks) => blocks_say(blocks),
                };
                conversation_text(seq![message]) == if text.len() == 0 {
                    Seq::empty()
                } else {
                    "[User]: "@ + text
                }
            },
            MessageView::Assistant(m) => {
                let thought = m.content@.filter_map(
                    |item: AssistantContent|
                        match item {
                            AssistantContent::Thinking(t) => Some(t.thinking@),
                            _ => None,
                        },
                );
                let said = m.content@.filter_map(
                    |item: AssistantContent|
                        match item {
                            AssistantContent::Text(t) => Some(t.text@),
                            _ => None,
                        },
                );
                let called = m.content@.filter_map(
                    |item: AssistantContent|
                        match item {
                            AssistantContent::ToolCall(call) => Some(call_says(call)),
                            _ => None,
                        },
                );
                conversation_text(seq![message]) == join(
                    labelled("[Assistant thinking]: "@, thought, "\n"@) + labelled(
                        "[Assistant]: "@,
                        said,
                        "\n"@,
                    ) + labelled("[Assistant tool calls]: "@, called, "; "@),
                    "\n\n"@,
                )
            },
            MessageView::ToolResult(m) => quotes_result(
                conversation_text(seq![message]),
                blocks_say(block_views(m.content@)),
            ),
        },
{
    reveal_with_fuel(conversation_parts, 2);
    assert(seq![message].drop_last() =~= Seq::<MessageView>::empty());
    assert(conversation_parts(seq![message]) =~= message_parts(message));
    assert(seq![message][0] == message);
    match message {
        MessageView::User { content, .. } => {
            if let UserContentView::Blocks(blocks) = content {
                lemma_block_texts(blocks);
            }
        },
        MessageView::Assistant(m) => {
            lemma_assistant_parts(m.content@);
        },
        MessageView::ToolResult(m) => {
            let text = blocks_say(block_views(m.content@));
            lemma_block_texts(block_views(m.content@));
            if text.len() > 0 && byte_len(text) > 2000 {
                law_what_can_be_quoted(seq![message]);
                let k = cut_at(text, 2000)->0;
                lemma_cut_is_where_said(text, 2000);
                assert(byte_len(text.take(k)) == 2000);
            }
        },
    }
}

/// A conversation is quoted message by message, in order, with a blank line
/// between; messages without anything to say leave no trace.
pub proof fn law_conversations_are_quoted_in_order(front: Seq<MessageView>, back: Seq<MessageView>)
    ensures
        ({
            let before = conversation_text(front);
            let after = conversation_text(back);
            conversation_text(front + back) == if before.len() == 0 {
                after
            } else if after.len() == 0 {
                before
            } else {
                before + "\n\n"@ + after
            }
        }),
{
    lemma_parts_concat(front, back);
    lemma_parts_say_something(front);
    lemma_parts_say_something(back);
    let a = conversation_parts(front);
    let b = conversation_parts(back);
    if a.len() > 0 && b.len() > 0 {
        lemma_join_concat(a, b, "\n\n"@);
    }
    lemma_join_says_something(a, "\n\n"@);
    lemma_join_says_something(b, "\n\n"@);
    assert(a.len() == 0 ==> a + b =~= b);
    assert(b.len() == 0 ==> a + b =~= a);
}

proof fn lemma_cut_is_where_said(text: Seq<char>, bytes: nat)
    requires
        cut_at(text, bytes) is Some,
    ensures
        0 <= cut_at(text, bytes)->0 <= text.len(),
        byte_len(text.take(cut_at(text, bytes)->0)) == bytes,
    decreases text.len(),
{
    if byte_len(text) == bytes {
        assert(text.take(text.len() as int) =~= text);
    } else {
        lemma_cut_is_where_said(text.drop_last(), bytes);
        let k = cut_at(text, bytes)->0;
        assert(text.drop_last().take(k) =~= text.take(k));
    }
}

proof fn lemma_block_texts(blocks: Seq<BlockView>)
    ensures
        blocks_say(blocks) == join(block_texts(blocks), ""@),
        blocks.filter_map(
            |block: BlockView|
                match block {
                    BlockView::Text { text, .. } => Some(text),
                    BlockView::Image { .. } => None,
                },
        ) == block_texts(blocks),
    decreases blocks.len(),
{
    let f = |block: BlockView|
        match block {
            BlockView::Text { text, .. } => Some(text),
            BlockView::Image { .. } => None,
        };
    if blocks.len() > 0 {
        lemma_block_texts(blocks.drop_last());
        assert(blocks.filter_map(f) =~= block_texts(blocks));
    } else {
        assert(blocks.filter_map(f) =~= block_texts(blocks));
    }
}

proof fn lemma_assistant_parts(content: Seq<AssistantContent>)
    ensures
        content.filter_map(
            |item: AssistantContent|
                match item {
                    AssistantContent::Thinking(t) => Some(t.thinking@),
                    _ => None,
                },
        ) == thinking_texts(content),
        content.filter_map(
            |item: AssistantContent|
                match item {
                    AssistantContent::Text(t) => Some(t.text@),
                    _ => None,
                },
        ) == assistant_texts(content),
        content.filter_map(
            |item: AssistantContent|
                match item {
                    AssistantContent::ToolCall(call) => Some(call_says(call)),
                    _ => None,
                },
        ) == call_texts(content),
    decreases content.len(),
{
    let thought = |item: AssistantContent|
        match item {
            AssistantContent::Thinking(t) => Some(t.thinking@),
            _ => None,
        };
    let said = |item: AssistantContent|
        match item {
            AssistantContent::Text(t) => Some(t.text@),
            _ => None,
        };
    let called = |item: AssistantContent|
        match item {
            AssistantContent::ToolCall(call) => Some(call_says(call)),
            _ => None,
        };
    if content.len() > 0 {
        lemma_assistant_parts(content.drop_last());
        if let AssistantContent::ToolCall(call) = content.last() {
            lemma_call_text(call);
        }
    }
    assert(content.filter_map(thought) =~= thinking_texts(content));
    assert(content.filter_map(said) =~= assistant_texts(content));
    assert(content.filter_map(called) =~= call_texts(content));
}

proof fn lemma_call_text(call: ToolCall)
    ensures
        call_says(call) == crate::compaction::utils::call_text(call),
{
    lemma_member_views(call.arguments@);
    let members = crate::json::member_views(call.arguments@);
    assert(call.arguments@.map_values(
        |argument: (String, Json)|
            argument.0@ + "="@ + (if argument.1 is Null {
                "undefined"@
            } else {
                json_text(json_view(argument.1))
            }),
    ) =~= crate::compaction::utils::argument_texts(members));
}

proof fn lemma_parts_concat(front: Seq<MessageView>, back: Seq<MessageView>)
    ensures
        conversation_parts(front + back) == conversation_parts(front) + conversation_parts(back),
    decreases back.len(),
{
    if back.len() == 0 {
        assert(front + back =~= front);
        assert(conversation_parts(front) + conversation_parts(back) =~= conversation_parts(front));
    } else {
        lemma_parts_concat(front, back.drop_last());
        assert((front + back).drop_last() =~= front + back.drop_last());
        assert(conversation_parts(front + back) =~= conversation_parts(front)
            + conversation_parts(back));
    }
}

spec fn all_say_something(parts: Seq<Seq<char>>) -> bool {
    forall|i: int| 0 <= i < parts.len() ==> (#[trigger] parts[i]).len() > 0
}

proof fn lemma_parts_say_something(messages: Seq<MessageView>)
    ensures
        all_say_something(conversation_parts(messages)),
    decreases messages.len(),
{
    if messages.len() > 0 {
        lemma_parts_say_something(messages.drop_last());
        reveal_strlit("[User]: ");
        reveal_strlit("[Assistant thinking]: ");
        reveal_strlit("[Assistant]: ");
        reveal_strlit("[Assistant tool calls]: ");
        reveal_strlit("[Tool result]: ");
        let before = conversation_parts(messages.drop_last());
        let more = message_parts(messages.last());
        assert(all_say_something(more));
        assert forall|i: int| 0 <= i < (before + more).len() implies (#[trigger] (before + more)[i]).len()
            > 0 by {
            if i < before.len() {
                assert(before[i].len() > 0);
            } else {
                assert(more[i - before.len()].len() > 0);
            }
        }
    }
}

proof fn lemma_join_says_something(parts: Seq<Seq<char>>, sep: Seq<char>)
    requires
        all_say_something(parts),
    ensures
        parts.len() > 0 <==> join(parts, sep).len() > 0,
{
    if parts.len() > 0 {
        assert(parts[0].len() > 0);
        assert(parts.last().len() > 0) by {
            assert(parts[parts.len() - 1].len() > 0);
        }
    }
}

proof fn lemma_join_concat(a: Seq<Seq<char>>, b: Seq<Seq<char>>, sep: Seq<char>)
    requires
        a.len() > 0,
        b.len() > 0,
    ensures
        join(a + b, sep) == join(a, sep) + sep + join(b, sep),
    decreases b.len(),
{
    if b.len() == 1 {
        assert((a + b).drop_last() =~= a);
        assert(join(a + b, sep) =~= join(a, sep) + sep + join(b, sep));
    } else {
        lemma_join_concat(a, b.drop_last(), sep);
        assert((a + b).drop_last() =~= a + b.drop_last());
        assert(join(a + b, sep) =~= join(a, sep) + sep + join(b, sep));
    }
}

} // verus!

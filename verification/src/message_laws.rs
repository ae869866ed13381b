//! What a model provider sees of a transcript: every message in its place, and
//! what stands for others as text of the user.

use vstd::prelude::*;

use crate::json::{int_view, member_of, JsonView};
use crate::messages::{
    branch_summary_view, compaction_summary_view, custom_view, for_llm, llm_messages,
    BRANCH_SUMMARY_PREFIX, BRANCH_SUMMARY_SUFFIX, COMPACTION_SUMMARY_PREFIX,
    COMPACTION_SUMMARY_SUFFIX,
};
use crate::text::signed_decimal;
use crate::types::{AgentMessageView, BlockView, MessageView, UserContentView};

verus! {

/// What a provider sees of a transcript it sees message by message, in order.
pub proof fn law_transcripts_convert_in_order(
    front: Seq<AgentMessageView>,
    back: Seq<AgentMessageView>,
)
    ensures
        llm_messages(front + back) == llm_messages(front) + llm_messages(back),
    decreases back.len(),
{
    if back.len() == 0 {
        assert(front + back =~= front);
        assert(llm_messages(front) + llm_messages(back) =~= llm_messages(front));
    } else {
        law_transcripts_convert_in_order(front, back.drop_last());
        assert((front + back).drop_last() =~= front + back.drop_last());
        assert(llm_messages(front + back) =~= llm_messages(front) + llm_messages(back));
    }
}

/// A message of the user that is one block of text.
pub open spec fn user_says(text: Seq<char>, time: int) -> Seq<MessageView> {
    seq![
        MessageView::User {
            content: UserContentView::Blocks(seq![BlockView::Text { text, signature: None }]),
            timestamp: time,
        },
    ]
}

/// Messages of the user, of the model and of tools reach the provider as they
/// are.
pub proof fn law_standard_messages_stay(message: AgentMessageView)
    ensures
        llm_messages(seq![message]) == match message {
            AgentMessageView::User { content, timestamp } => seq![
                MessageView::User { content, timestamp },
            ],
            AgentMessageView::Assistant(m) => seq![MessageView::Assistant(m)],
            AgentMessageView::ToolResult(m) => seq![MessageView::ToolResult(m)],
            AgentMessageView::Custom { .. } => llm_messages(seq![message]),
        },
{
    lemma_one_message(message);
}

proof fn lemma_one_message(message: AgentMessageView)
    ensures
        llm_messages(seq![message]) == match for_llm(message) {
            Some(m) => seq![m],
            None => Seq::empty(),
        },
{
    reveal_with_fuel(llm_messages, 2);
    assert(seq![message].drop_last() =~= Seq::<AgentMessageView>::empty());
    assert(llm_messages(seq![message]) =~= match for_llm(message) {
        Some(m) => seq![m],
        None => Seq::empty(),
    });
}

proof fn lemma_roles()
    ensures
        "bashExecution"@ != "custom"@,
        "bashExecution"@ != "branchSummary"@,
        "bashExecution"@ != "compactionSummary"@,
        "custom"@ != "branchSummary"@,
        "custom"@ != "compactionSummary"@,
        "branchSummary"@ != "compactionSummary"@,
{
    reveal_strlit("bashExecution");
    reveal_strlit("custom");
    reveal_strlit("branchSummary");
    reveal_strlit("compactionSummary");
    assert("bashExecution"@[1] != "branchSummary"@[1]);
    assert("custom"@.len() == 6 && "compactionSummary"@.len() == 17);
    assert("bashExecution"@.len() == 13);
}

/// A summary, of compacted history or of a branch, is told as text of the user
/// that holds all of it, at the time at which it was made.
pub proof fn law_summaries_are_told(
    summary: Seq<char>,
    tokens_before: nat,
    from_id: Seq<char>,
    time: int,
)
    requires
        i64::MIN <= time <= i64::MAX,
    ensures
        llm_messages(seq![compaction_summary_view(summary, tokens_before, time)]) == user_says(
            COMPACTION_SUMMARY_PREFIX@ + summary + COMPACTION_SUMMARY_SUFFIX@,
            time,
        ),
        llm_messages(seq![branch_summary_view(summary, from_id, time)]) == user_says(
            BRANCH_SUMMARY_PREFIX@ + summary + BRANCH_SUMMARY_SUFFIX@,
            time,
        ),
{
    lemma_roles();
    lemma_one_message(compaction_summary_view(summary, tokens_before, time));
    lemma_one_message(branch_summary_view(summary, from_id, time));
    lemma_summary_keys();
    reveal_with_fuel(member_of, 5);
    let members = compaction_summary_view(summary, tokens_before, time)->value->Object_0;
    assert(members.drop_first()[0] == members[1]);
    assert(members.drop_first().drop_first()[0] == members[2]);
    assert(members.drop_first().drop_first().drop_first()[0] == members[3]);
    let others = branch_summary_view(summary, from_id, time)->value->Object_0;
    assert(others.drop_first()[0] == others[1]);
    assert(others.drop_first().drop_first()[0] == others[2]);
    assert(others.drop_first().drop_first().drop_first()[0] == others[3]);
}

proof fn lemma_summary_keys()
    ensures
        "role"@ != "summary"@,
        "role"@ != "timestamp"@,
        "role"@ != "content"@,
        "summary"@ != "timestamp"@,
        "tokensBefore"@ != "timestamp"@,
        "fromId"@ != "timestamp"@,
        "customType"@ != "content"@,
        "customType"@ != "timestamp"@,
        "content"@ != "timestamp"@,
        "display"@ != "timestamp"@,
        "details"@ != "timestamp"@,
{
    reveal_strlit("role");
    reveal_strlit("summary");
    reveal_strlit("timestamp");
    reveal_strlit("tokensBefore");
    reveal_strlit("fromId");
    reveal_strlit("customType");
    reveal_strlit("content");
    reveal_strlit("display");
    reveal_strlit("details");
    assert("role"@.len() == 4 && "summary"@.len() == 7 && "timestamp"@.len() == 9);
    assert("tokensBefore"@.len() == 12 && "fromId"@.len() == 6 && "customType"@.len() == 10);
    assert("content"@.len() == 7 && "display"@.len() == 7 && "details"@.len() == 7);
}

/// What an extension adds is told as the user's: its text, or its blocks as they
/// were given.
pub proof fn law_messages_of_extensions_are_told(
    custom_type: Seq<char>,
    text: Seq<char>,
    blocks: Seq<BlockView>,
    display: bool,
    details: JsonView,
    time: int,
)
    requires
        i64::MIN <= time <= i64::MAX,
    ensures
        llm_messages(
            seq![custom_view(custom_type, JsonView::Text(text), display, details, time)],
        ) == user_says(text, time),
        llm_messages(
            seq![
                custom_view(
                    custom_type,
                    JsonView::Array(crate::messages::blocks_json(blocks)),
                    display,
                    details,
                    time,
                ),
            ],
        ) == seq![
            MessageView::User { content: UserContentView::Blocks(blocks), timestamp: time },
        ],
{
    lemma_roles();
    lemma_summary_keys();
    crate::messages::law_blocks_read_back(blocks);
    let array = JsonView::Array(crate::messages::blocks_json(blocks));
    lemma_custom_fields(custom_type, JsonView::Text(text), display, details, time);
    lemma_custom_fields(custom_type, array, display, details, time);
    lemma_one_message(custom_view(custom_type, JsonView::Text(text), display, details, time));
    lemma_one_message(custom_view(custom_type, array, display, details, time));
}

proof fn lemma_custom_fields(
    custom_type: Seq<char>,
    content: JsonView,
    display: bool,
    details: JsonView,
    time: int,
)
    ensures
        ({
            let value = custom_view(custom_type, content, display, details, time)->value;
            value.get("content"@) == Some(content) && value.get("timestamp"@) == Some(
                int_view(time),
            )
        }),
{
    lemma_summary_keys();
    reveal_with_fuel(member_of, 7);
    let members = custom_view(custom_type, content, display, details, time)->value->Object_0;
    assert(members.drop_first()[0] == members[1]);
    assert(members.drop_first().drop_first()[0] == members[2]);
    assert(members.drop_first().drop_first().drop_first()[0] == members[3]);
    assert(members.drop_first().drop_first().drop_first().drop_first()[0] == members[4]);
    assert(members.drop_first().drop_first().drop_first().drop_first().drop_first()[0]
        == members[5]);
}

/// A command that the user ran is told unless it is kept out: the command, its
/// output, how it ended if it did not end well, and where the rest of its output
/// is. Messages of other roles are not told.
pub proof fn law_commands_are_told(role: Seq<char>, value: JsonView)
    ensures
        role == "bashExecution"@ ==> llm_messages(
            seq![AgentMessageView::Custom { role, value }],
        ) == if value.get("excludeFromContext"@) == Some(JsonView::Bool(true)) {
            Seq::empty()
        } else {
            let output = value.text_field("output"@);
            let code = value.int_field("exitCode"@);
            user_says(
                "Ran `"@ + value.text_field("command"@) + "`\n"@ + (if output.len() == 0 {
                    "(no output)"@
                } else {
                    "```\n"@ + output + "\n```"@
                }) + (if value.get("cancelled"@) == Some(JsonView::Bool(true)) {
                    "\n\n(command cancelled)"@
                } else if code is Some && code != Some(0int) {
                    "\n\nCommand exited with code "@ + signed_decimal(code->0)
                } else {
                    ""@
                }) + (if value.get("truncated"@) == Some(JsonView::Bool(true)) && value.get(
                    "fullOutputPath"@,
                ) is Some && value.get("fullOutputPath"@)->0 is Text {
                    "\n\n[Output truncated. Full output: "@ + value.text_field(
                        "fullOutputPath"@,
                    ) + "]"@
                } else {
                    ""@
                }),
                match value.int_field("timestamp"@) {
                    Some(time) => time,
                    None => 0,
                },
            )
        },
        role != "bashExecution"@ && role != "custom"@ && role != "branchSummary"@ && role
            != "compactionSummary"@ ==> llm_messages(
            seq![AgentMessageView::Custom { role, value }],
        ).len() == 0,
{
    lemma_one_message(AgentMessageView::Custom { role, value });
}

} // verus!

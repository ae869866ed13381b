//! What holds of compaction: where a conversation is cut, which messages are
//! summarized and which are kept, what is counted, and what is asked for.

use vstd::prelude::*;

use crate::compaction::compaction::{
    compactable, details_of_json, files_with_details, law_compaction_partitions_messages,
    message_slots, next_step, nothing_to_compact, optional_sum, prepared, summary_answer, summary_body, summary_prompt, turn_prefix_prompt, CompactionStep,
    PreparationView, DetailsView, SUMMARIZATION_PROMPT, TURN_PREFIX_SUMMARIZATION_PROMPT,
    UPDATE_SUMMARIZATION_PROMPT,
};
use crate::compaction::cut::{
    budget_reached, cut_index, cut_point, first_cut, is_cut_point, law_cuts_stay_inside, settled, slot_messages,
    slots_of, turn_start, Slot,
};
use crate::compaction::estimate::{
    block_sizes, content_sizes, context_estimate, countable, last_entry_usage, last_report, message_chars, message_tokens,
    tokens_of_messages, total, trailing, usage_total, CompactionSettings,
};
use crate::compaction::utils::{
    argument_text, assistant_texts, conversation_text, file_lists_text, file_section,
    file_sections, files_after_all, files_after_content, modified_set, no_files, read_only_set, FileOperationsView,
};
use crate::harness_types::CompactionErrorCode;
use crate::json::{member_views, JsonView};
use crate::messages::{branch_summary_view, llm_messages};
use crate::session::context::{last_compaction, lemma_last_compaction};
use crate::session::types::Entry;
use crate::text::{byte_len, join};
use crate::types::{
    agent_message_views, AgentMessage, AgentMessageView, AssistantContent, AssistantMessage, BlockView,
    StopReason, UserContentView,
};

verus! {

// ---------------------------------------------------------------------------
// Where a conversation is cut
// ---------------------------------------------------------------------------

/// Whether what is kept may begin with an entry: with any message but the
/// result of a tool, of the roles that a model is shown, or with the summary of
/// a branch.
pub open spec fn may_begin(slot: Slot) -> bool {
    match slot {
        Slot::Message(AgentMessageView::Custom { role, .. }) => role == "bashExecution"@ || role
            == "custom"@ || role == "branchSummary"@ || role == "compactionSummary"@,
        Slot::Message(m) => !(m is ToolResult),
        Slot::Branch(_) => true,
        Slot::Compaction(_) => false,
        Slot::Other => false,
    }
}

/// The tokens of the messages between two positions.
pub open spec fn tokens_between(slots: Seq<Slot>, from: int, to: int) -> nat
    decreases to - from,
{
    if from >= to {
        0
    } else {
        tokens_between(slots, from, to - 1) + match slots[to - 1] {
            Slot::Message(m) => message_tokens(m),
            _ => 0,
        }
    }
}

/// Whether a message is the last from which on the budget is used up.
pub open spec fn uses_up_budget(
    slots: Seq<Slot>,
    start: int,
    end: int,
    budget: nat,
    at: int,
) -> bool {
    &&& start <= at < end
    &&& slots[at] is Message
    &&& tokens_between(slots, at, end) >= budget
    &&& forall|k: int|
        at < k < end && slots[k] is Message ==> #[trigger] tokens_between(slots, k, end) < budget
}

proof fn lemma_budget_is_used_up(slots: Seq<Slot>, start: int, end: int, budget: nat, spent: nat)
    requires
        0 <= start,
    ensures
        match budget_reached(slots, start, end, budget, spent) {
            Some(r) => {
                &&& start <= r < end
                &&& slots[r] is Message
                &&& spent + tokens_between(slots, r, end) >= budget
                &&& forall|k: int|
                    r < k < end && slots[k] is Message ==> spent + #[trigger] tokens_between(
                        slots,
                        k,
                        end,
                    ) < budget
            },
            None => forall|k: int|
                start <= k < end && slots[k] is Message ==> spent + #[trigger] tokens_between(
                    slots,
                    k,
                    end,
                ) < budget,
        },
    decreases end,
{
    if end > start {
        let now = spent + match slots[end - 1] {
            Slot::Message(m) => message_tokens(m),
            _ => 0,
        };
        assert(tokens_between(slots, end - 1, end - 1) == 0);
        assert(spent + tokens_between(slots, end - 1, end) == now);
        if !(slots[end - 1] is Message && now >= budget) {
            lemma_budget_is_used_up(slots, start, end - 1, budget, now);
            assert forall|k: int|
                (match budget_reached(slots, start, end, budget, spent) {
                    Some(r) => r < k < end,
                    None => start <= k < end,
                }) && slots[k] is Message implies spent + #[trigger] tokens_between(slots, k, end)
                < budget by {
                if k < end - 1 {
                    assert(now + tokens_between(slots, k, end - 1) < budget);
                }
            }
        }
    }
}

proof fn lemma_first_beginning(slots: Seq<Slot>, from: int, end: int)
    requires
        0 <= from,
    ensures
        match first_cut(slots, from, end) {
            Some(i) => from <= i < end && may_begin(slots[i]) && forall|k: int|
                from <= k < i ==> !may_begin(#[trigger] slots[k]),
            None => forall|k: int| from <= k < end ==> !may_begin(#[trigger] slots[k]),
        },
    decreases end - from,
{
    if from < end && !is_cut_point(slots[from]) {
        lemma_first_beginning(slots, from + 1, end);
    }
}

proof fn lemma_settles(slots: Seq<Slot>, start: int, at: int)
    requires
        start <= at,
    ensures
        ({
            let cut = settled(slots, start, at);
            &&& start <= cut <= at
            &&& forall|k: int|
                cut <= k < at ==> !(#[trigger] slots[k] is Message) && !(slots[k] is Compaction)
            &&& cut > start ==> slots[cut - 1] is Message || slots[cut - 1] is Compaction
        }),
    decreases at - start,
{
    if at > start && !(slots[at - 1] is Message || slots[at - 1] is Compaction) {
        lemma_settles(slots, start, at - 1);
    }
}

/// Whether a turn begins with an entry: with what the user said or ran, or with
/// the summary of a branch.
pub open spec fn begins_turn(slot: Slot) -> bool {
    match slot {
        Slot::Message(AgentMessageView::User { .. }) => true,
        Slot::Message(AgentMessageView::Custom { role, .. }) => role == "bashExecution"@,
        Slot::Branch(_) => true,
        _ => false,
    }
}

proof fn lemma_turn_begins(slots: Seq<Slot>, at: int, start: int)
    requires
        0 <= start,
    ensures
        ({
            let turn = turn_start(slots, at, start);
            &&& turn == -1 ==> forall|k: int| start <= k <= at ==> !begins_turn(#[trigger] slots[k])
            &&& turn != -1 ==> start <= turn <= at && begins_turn(slots[turn]) && forall|k: int|
                turn < k <= at ==> !begins_turn(#[trigger] slots[k])
        }),
    decreases at - start + 1,
{
    if at >= start && !begins_turn(slots[at]) {
        lemma_turn_begins(slots, at - 1, start);
    }
}

/// A conversation is cut so that what is kept holds the budget. Let `used` be
/// the last message from which on the budget is used up. What is kept begins
/// with the first entry from `used` on with which it may begin, and with the
/// first of all where there is none, or where the conversation does not use up
/// the budget. Only entries that hold no message stand before it.
pub proof fn law_what_is_kept_holds_the_budget(
    slots: Seq<Slot>,
    start: int,
    end: int,
    budget: nat,
) -> (r: (int, Option<int>))
    requires
        0 <= start <= end <= slots.len(),
        exists|k: int| start <= k < end && may_begin(#[trigger] slots[k]),
    ensures
        ({
            let (first, used) = r;
            let cut = cut_point(slots, start, end, budget).0;
            let from = match used {
                Some(u) => if exists|k: int| u <= k < end && may_begin(#[trigger] slots[k]) {
                    u
                } else {
                    start
                },
                None => start,
            };
            &&& match used {
                Some(u) => uses_up_budget(slots, start, end, budget, u),
                None => forall|k: int|
                    start <= k < end && slots[k] is Message ==> #[trigger] tokens_between(
                        slots,
                        k,
                        end,
                    ) < budget,
            }
            &&& from <= first < end
            &&& may_begin(slots[first])
            &&& forall|k: int| from <= k < first ==> !may_begin(#[trigger] slots[k])
            &&& start <= cut <= first
            &&& forall|k: int|
                cut <= k < first ==> !(#[trigger] slots[k] is Message) && !(slots[k]
                    is Compaction)
            &&& cut > start ==> slots[cut - 1] is Message || slots[cut - 1] is Compaction
        }),
{
    lemma_first_beginning(slots, start, end);
    lemma_budget_is_used_up(slots, start, end, budget, 0);
    let used = budget_reached(slots, start, end, budget, 0);
    let least = first_cut(slots, start, end).unwrap();
    if let Some(u) = used {
        lemma_first_beginning(slots, u, end);
    }
    let first = match used {
        Some(u) => match first_cut(slots, u, end) {
            Some(cut) => cut,
            None => least,
        },
        None => least,
    };
    lemma_settles(slots, start, first);
    (first, used)
}

/// Where nothing can be kept alone, nothing is cut off.
pub proof fn law_what_cannot_be_cut_is_kept(slots: Seq<Slot>, start: int, end: int, budget: nat)
    requires
        0 <= start <= end <= slots.len(),
        forall|k: int| start <= k < end ==> !may_begin(#[trigger] slots[k]),
    ensures
        cut_point(slots, start, end, budget) == (start, -1int, false),
{
    lemma_first_beginning(slots, start, end);
}

/// A cut splits a turn when what is kept does not begin with what the user said
/// and a turn has begun before: the last one.
pub proof fn law_a_cut_splits_the_last_turn(slots: Seq<Slot>, start: int, end: int, budget: nat)
    requires
        0 <= start <= end <= slots.len(),
        exists|k: int| start <= k < end && may_begin(#[trigger] slots[k]),
    ensures
        ({
            let (cut, turn, split) = cut_point(slots, start, end, budget);
            let asked = slots[cut] matches Slot::Message(AgentMessageView::User { .. });
            &&& split <==> !asked && exists|k: int|
                start <= k <= cut && begins_turn(#[trigger] slots[k])
            &&& !split ==> turn == -1
            &&& split ==> start <= turn <= cut && begins_turn(slots[turn]) && forall|k: int|
                turn < k <= cut ==> !begins_turn(#[trigger] slots[k])
        }),
{
    lemma_first_beginning(slots, start, end);
    let cut = cut_index(slots, start, end, budget);
    lemma_turn_begins(slots, cut, start);
}

// ---------------------------------------------------------------------------
// What is summarized and what is kept
// ---------------------------------------------------------------------------

/// The message that an entry of a branch holds or stands for, unless it is a
/// compaction.
pub open spec fn held_message(entry: Entry) -> Option<AgentMessageView> {
    match entry {
        Entry::Message { message, .. } => Some(message@),
        Entry::BranchSummary { summary, from_id, timestamp, .. } => Some(
            branch_summary_view(summary@, from_id@, timestamp as int),
        ),
        _ => None,
    }
}

proof fn lemma_held(entries: Seq<Entry>)
    ensures
        slot_messages(slots_of(entries)) == entries.filter_map(|e: Entry| held_message(e)),
    decreases entries.len(),
{
    let f = |e: Entry| held_message(e);
    if entries.len() > 0 {
        lemma_held(entries.drop_last());
        assert(slots_of(entries).drop_last() =~= slots_of(entries.drop_last()));
        assert(slot_messages(slots_of(entries)) =~= entries.filter_map(f));
    } else {
        assert(slot_messages(slots_of(entries)) =~= entries.filter_map(f));
    }
}

proof fn lemma_slots_concat(a: Seq<Slot>, b: Seq<Slot>)
    ensures
        slot_messages(a + b) == slot_messages(a) + slot_messages(b),
    decreases b.len(),
{
    if b.len() == 0 {
        assert(a + b =~= a);
        assert(slot_messages(a) + slot_messages(b) =~= slot_messages(a));
    } else {
        assert((a + b).drop_last() =~= a + b.drop_last());
        lemma_slots_concat(a, b.drop_last());
        assert(slot_messages(a + b) =~= slot_messages(a) + slot_messages(b));
    }
}

proof fn lemma_kept_messages(messages: Seq<AgentMessage>)
    ensures
        slot_messages(message_slots(messages)) == agent_message_views(messages),
    decreases messages.len(),
{
    if messages.len() > 0 {
        lemma_kept_messages(messages.drop_last());
        assert(message_slots(messages).drop_last() =~= message_slots(messages.drop_last()));
        assert(agent_message_views(messages) =~= agent_message_views(messages.drop_last()).push(
            messages.last()@,
        ));
    } else {
        assert(agent_message_views(messages) =~= Seq::<AgentMessageView>::empty());
    }
}

/// A branch that was never compacted is compacted from its beginning: all its
/// messages are summarized or kept, in order.
pub proof fn law_first_compactions_take_the_whole_branch(
    path: Seq<Entry>,
    settings: CompactionSettings,
)
    requires
        forall|i: int| 0 <= i < path.len() ==> !(#[trigger] path[i] is Compaction),
    ensures
        ({
            let p = prepared(path, settings);
            &&& p.messages_to_summarize + p.turn_prefix_messages + p.retained_tail
                == path.filter_map(|e: Entry| held_message(e))
            &&& p.previous_summary is None
        }),
{
    lemma_last_compaction(path);
    lemma_held(path);
    law_compaction_partitions_messages(path, settings);
}

/// A branch that was compacted is compacted from what the last compaction kept:
/// those messages and all later ones are summarized or kept, in order, and the
/// summary of that compaction goes on.
pub proof fn law_later_compactions_take_what_was_kept(
    earlier: Seq<Entry>,
    compaction: Entry,
    later: Seq<Entry>,
    settings: CompactionSettings,
)
    requires
        compaction is Compaction,
        forall|i: int| 0 <= i < later.len() ==> !(#[trigger] later[i] is Compaction),
    ensures
        ({
            let p = prepared(earlier + seq![compaction] + later, settings);
            compaction matches Entry::Compaction { summary, retained_tail, .. } && {
                &&& p.messages_to_summarize + p.turn_prefix_messages + p.retained_tail
                    == agent_message_views(retained_tail@) + later.filter_map(
                    |e: Entry| held_message(e),
                )
                &&& p.previous_summary == Some(summary@)
            }
        }),
{
    let path = earlier + seq![compaction] + later;
    let n = earlier.len() as int;
    lemma_last_compaction(path);
    assert(path[n] == compaction);
    assert(forall|j: int| n < j < path.len() ==> path[j] == later[j - n - 1]);
    assert(last_compaction(path) == Some(n));
    assert(path.skip(n + 1) =~= later);
    if let Entry::Compaction { retained_tail, .. } = compaction {
        lemma_kept_messages(retained_tail@);
        lemma_held(later);
        lemma_slots_concat(message_slots(retained_tail@), slots_of(later));
    }
    law_compaction_partitions_messages(path, settings);
}

/// What is kept of a branch begins where it is cut, and what is summarized apart
/// is the part of the split turn before the cut.
pub proof fn law_the_cut_decides_what_is_kept(path: Seq<Entry>, settings: CompactionSettings)
    ensures
        ({
            let p = prepared(path, settings);
            let slots = compactable(path);
            let (cut, turn, split) = cut_point(
                slots,
                0,
                slots.len() as int,
                settings.keep_recent_tokens as nat,
            );
            &&& p.retained_tail == slot_messages(slots.skip(cut))
            &&& p.is_split_turn == split
            &&& split ==> p.turn_prefix_messages == slot_messages(slots.subrange(turn, cut))
            &&& !split ==> p.turn_prefix_messages.len() == 0
            &&& p.settings == settings
        }),
{
    let slots = compactable(path);
    let end = slots.len() as int;
    let budget = settings.keep_recent_tokens as nat;
    law_cuts_stay_inside(slots, 0, end, budget);
    let cut = cut_point(slots, 0, end, budget).0;
    assert(slots.skip(cut) =~= slots.subrange(cut, end));
}

// ---------------------------------------------------------------------------
// What is counted
// ---------------------------------------------------------------------------

/// What an answer reports that it took, if it was neither stopped nor failed:
/// the total that the provider gives, or else the sum of its parts.
pub open spec fn reported_by(message: AgentMessageView) -> Option<int> {
    match message {
        AgentMessageView::Assistant(m) => {
            let sum = if m.usage.total_tokens > 0 {
                m.usage.total_tokens as int
            } else {
                m.usage.input + m.usage.output + m.usage.cache_read + m.usage.cache_write
            };
            if m.stop_reason != StopReason::Aborted && m.stop_reason != StopReason::Error && sum
                > 0 {
                Some(sum)
            } else {
                None
            }
        },
        _ => None,
    }
}

proof fn lemma_tokens_push(messages: Seq<AgentMessageView>, message: AgentMessageView, from: int)
    requires
        0 <= from <= messages.len(),
    ensures
        trailing(messages.push(message), from) == trailing(messages, from) + message_tokens(
            message,
        ),
        trailing(messages.push(message), messages.len() as int + 1) == 0,
{
    let all = messages.push(message);
    assert(tokens_of_messages(all.skip(from)).drop_last() =~= tokens_of_messages(
        messages.skip(from),
    ));
    assert(tokens_of_messages(all.skip(from)).last() == message_tokens(message));
    assert(all.skip(messages.len() as int + 1) =~= Seq::<AgentMessageView>::empty());
}

proof fn lemma_reports(messages: Seq<AgentMessageView>)
    ensures
        last_report(messages) matches Some(i) ==> 0 <= i < messages.len() && reported_by(
            messages[i],
        ) is Some,
    decreases messages.len(),
{
    if messages.len() > 0 && reported_by(messages.last()) is None {
        lemma_reports(messages.drop_last());
    }
}

/// A conversation is estimated at what its last answer reports and at what is
/// estimated for each message after it: an answer that reports counts for all
/// before it, any other message adds its own tokens.
pub proof fn law_answers_count_for_what_is_before(
    messages: Seq<AgentMessageView>,
    message: AgentMessageView,
)
    requires
        countable(messages),
        countable(messages.push(message)),
        messages.len() < usize::MAX,
    ensures
        context_estimate(Seq::<AgentMessageView>::empty()).tokens == 0,
        ({
            let before = context_estimate(messages);
            let after = context_estimate(messages.push(message));
            match reported_by(message) {
                Some(n) => {
                    &&& after.tokens == n
                    &&& after.usage_tokens == n
                    &&& after.trailing_tokens == 0
                    &&& after.last_usage_index == Some(messages.len() as usize)
                },
                None => {
                    &&& after.tokens == before.tokens + message_tokens(message)
                    &&& after.usage_tokens == before.usage_tokens
                    &&& after.trailing_tokens == before.trailing_tokens + message_tokens(message)
                    &&& after.last_usage_index == before.last_usage_index
                },
            }
        }),
{
    let all = messages.push(message);
    assert(all.drop_last() =~= messages);
    assert(Seq::<AgentMessageView>::empty().skip(0) =~= Seq::<AgentMessageView>::empty());
    lemma_reports(messages);
    match last_report(messages) {
        Some(i) => {
            assert(all[i] == messages[i]);
            lemma_tokens_push(messages, message, i + 1);
        },
        None => lemma_tokens_push(messages, message, 0),
    }
    lemma_tokens_push(messages, message, 0);
}

/// A token is estimated for four characters, and for what is left of them.
pub proof fn law_four_characters_make_a_token(message: AgentMessageView)
    ensures
        4 * message_tokens(message) >= message_chars(message),
        4 * message_tokens(message) < message_chars(message) + 4,
{
}

proof fn lemma_total_concat(a: Seq<nat>, b: Seq<nat>)
    ensures
        total(a + b) == total(a) + total(b),
    decreases b.len(),
{
    if b.len() == 0 {
        assert(a + b =~= a);
    } else {
        assert((a + b).drop_last() =~= a + b.drop_last());
        lemma_total_concat(a, b.drop_last());
    }
}

/// What the user said counts for the bytes of its text, and for a fixed number
/// for each image.
pub proof fn law_what_the_user_said_counts(
    text: Seq<char>,
    blocks: Seq<BlockView>,
    more: Seq<BlockView>,
    block: BlockView,
    timestamp: int,
)
    ensures
        ({
            let chars = |content: UserContentView|
                message_chars(AgentMessageView::User { content, timestamp });
            &&& chars(UserContentView::Text(text)) == byte_len(text)
            &&& chars(UserContentView::Blocks(Seq::empty())) == 0
            &&& chars(UserContentView::Blocks(blocks + more)) == chars(
                UserContentView::Blocks(blocks),
            ) + chars(UserContentView::Blocks(more))
            &&& chars(UserContentView::Blocks(seq![block])) == match block {
                BlockView::Text { text, .. } => byte_len(text),
                BlockView::Image { .. } => 4800,
            }
        }),
{
    lemma_blocks_count(blocks, more);
    reveal_with_fuel(total, 2);
    assert(block_sizes(seq![block]).drop_last()
        =~= Seq::<nat>::empty());
    assert(block_sizes(Seq::<BlockView>::empty())
        =~= Seq::<nat>::empty());
}

proof fn lemma_blocks_count(blocks: Seq<BlockView>, more: Seq<BlockView>)
    ensures
        total(block_sizes(blocks + more)) == total(block_sizes(blocks)) + total(block_sizes(more)),
{
    let a = block_sizes(blocks);
    let b = block_sizes(more);
    assert(block_sizes(blocks + more) =~= a + b);
    lemma_total_concat(a, b);
}

/// An answer counts for the bytes of what it says and thinks and of the calls
/// that it makes, one after the other.
pub proof fn law_answers_count_for_their_parts(
    m: AssistantMessage,
    front: AssistantMessage,
    back: AssistantMessage,
)
    requires
        m.content@ == front.content@ + back.content@,
    ensures
        message_chars(AgentMessageView::Assistant(m)) == message_chars(
            AgentMessageView::Assistant(front),
        ) + message_chars(AgentMessageView::Assistant(back)),
        m.content@.len() == 0 ==> message_chars(AgentMessageView::Assistant(m)) == 0,
        m.content@.len() == 1 ==> message_chars(AgentMessageView::Assistant(m))
            == match m.content@[0] {
            AssistantContent::Text(t) => byte_len(t.text@),
            AssistantContent::Thinking(t) => byte_len(t.thinking@),
            AssistantContent::ToolCall(call) => byte_len(call.name@) + byte_len(
                argument_text(
                    JsonView::Object(member_views(call.arguments@)),
                ),
            ),
        },
{
    let a = content_sizes(front.content@);
    let b = content_sizes(back.content@);
    assert(content_sizes(m.content@) =~= a + b);
    lemma_total_concat(a, b);
    reveal_with_fuel(total, 2);
}

/// Commands count for what was run and printed, summaries for what they say.
pub proof fn law_messages_of_the_application_count(value: JsonView)
    ensures
        ({
            let chars = |role: Seq<char>| message_chars(AgentMessageView::Custom { role, value });
            &&& chars("bashExecution"@) == byte_len(value.text_field("command"@)) + byte_len(
                value.text_field("output"@),
            )
            &&& chars("branchSummary"@) == byte_len(value.text_field("summary"@))
            &&& chars("compactionSummary"@) == byte_len(value.text_field("summary"@))
            &&& value.get("content"@) matches Some(JsonView::Text(text)) ==> chars("custom"@)
                == byte_len(text) && chars("toolResult"@) == byte_len(text)
        }),
{
    reveal_strlit("bashExecution");
    reveal_strlit("branchSummary");
    reveal_strlit("compactionSummary");
    reveal_strlit("custom");
    reveal_strlit("toolResult");
    assert("bashExecution"@[1] == 'a');
    assert("branchSummary"@[1] == 'r');
    assert("compactionSummary"@[1] == 'o');
    assert("custom"@[1] == 'u');
    assert("toolResult"@[0] == 't');
    assert("custom"@[0] == 'c');
    assert("bashExecution"@[0] == 'b');
    assert("branchSummary"@[0] == 'b');
    assert("compactionSummary"@[0] == 'c');
}

// ---------------------------------------------------------------------------
// Which files are told
// ---------------------------------------------------------------------------

/// The file that a call of a tool names.
pub open spec fn file_named(block: AssistantContent, tool: Seq<char>) -> Option<Seq<char>> {
    match block {
        AssistantContent::ToolCall(call) => if call.name@ == tool {
            match JsonView::Object(member_views(call.arguments@)).get("path"@) {
                Some(JsonView::Text(path)) => Some(path),
                _ => None,
            }
        } else {
            None
        },
        _ => None,
    }
}

/// Whether one of some blocks is a call of a tool that names a file.
pub open spec fn file_is_named(
    content: Seq<AssistantContent>,
    tool: Seq<char>,
    path: Seq<char>,
) -> bool {
    exists|i: int| 0 <= i < content.len() && file_named(#[trigger] content[i], tool) == Some(path)
}

/// Whether one of some messages holds a call of a tool that names a file.
pub open spec fn file_was_named(
    messages: Seq<AgentMessageView>,
    tool: Seq<char>,
    path: Seq<char>,
) -> bool {
    exists|i: int|
        0 <= i < messages.len() && (#[trigger] messages[i] matches AgentMessageView::Assistant(m)
            && file_is_named(m.content@, tool, path))
}

proof fn lemma_named_last(content: Seq<AssistantContent>, tool: Seq<char>, path: Seq<char>)
    requires
        content.len() > 0,
    ensures
        file_is_named(content, tool, path) <==> file_is_named(content.drop_last(), tool, path)
            || file_named(content.last(), tool) == Some(path),
{
    let front = content.drop_last();
    if file_is_named(content, tool, path) {
        let i = choose|i: int|
            0 <= i < content.len() && file_named(#[trigger] content[i], tool) == Some(path);
        if i < front.len() {
            assert(file_named(front[i], tool) == Some(path));
        }
    }
    if file_is_named(front, tool, path) {
        let i = choose|i: int|
            0 <= i < front.len() && file_named(#[trigger] front[i], tool) == Some(path);
        assert(file_named(content[i], tool) == Some(path));
    }
    if file_named(content.last(), tool) == Some(path) {
        assert(file_named(content[content.len() - 1], tool) == Some(path));
    }
}

proof fn lemma_files_of_content(
    files: FileOperationsView,
    content: Seq<AssistantContent>,
    path: Seq<char>,
)
    ensures
        ({
            let after = files_after_content(files, content);
            &&& after.read.contains(path) <==> files.read.contains(path) || file_is_named(
                content,
                "read"@,
                path,
            )
            &&& after.written.contains(path) <==> files.written.contains(path) || file_is_named(
                content,
                "write"@,
                path,
            )
            &&& after.edited.contains(path) <==> files.edited.contains(path) || file_is_named(
                content,
                "edit"@,
                path,
            )
        }),
    decreases content.len(),
{
    reveal_strlit("read");
    reveal_strlit("write");
    reveal_strlit("edit");
    assert("read"@[0] == 'r');
    assert("write"@[0] == 'w');
    assert("edit"@[0] == 'e');
    if content.len() > 0 {
        lemma_files_of_content(files, content.drop_last(), path);
        lemma_named_last(content, "read"@, path);
        lemma_named_last(content, "write"@, path);
        lemma_named_last(content, "edit"@, path);
    }
}

proof fn lemma_was_named_last(messages: Seq<AgentMessageView>, tool: Seq<char>, path: Seq<char>)
    requires
        messages.len() > 0,
    ensures
        file_was_named(messages, tool, path) <==> file_was_named(messages.drop_last(), tool, path)
            || (messages.last() matches AgentMessageView::Assistant(m) && file_is_named(
            m.content@,
            tool,
            path,
        )),
{
    let front = messages.drop_last();
    if file_was_named(messages, tool, path) {
        let i = choose|i: int|
            0 <= i < messages.len() && (#[trigger] messages[i] matches AgentMessageView::Assistant(
                m,
            ) && file_is_named(m.content@, tool, path));
        if i < front.len() {
            assert(front[i] == messages[i]);
        }
    }
    if file_was_named(front, tool, path) {
        let i = choose|i: int|
            0 <= i < front.len() && (#[trigger] front[i] matches AgentMessageView::Assistant(m)
                && file_is_named(m.content@, tool, path));
        assert(front[i] == messages[i]);
    }
    assert(messages[messages.len() - 1] == messages.last());
}

/// A file counts as read, written or edited when it did before, or when an
/// answer calls the tool of that name with its path.
pub proof fn law_files_are_those_that_calls_name(
    files: FileOperationsView,
    messages: Seq<AgentMessageView>,
    path: Seq<char>,
)
    ensures
        ({
            let after = files_after_all(files, messages);
            &&& after.read.contains(path) <==> files.read.contains(path) || file_was_named(
                messages,
                "read"@,
                path,
            )
            &&& after.written.contains(path) <==> files.written.contains(path) || file_was_named(
                messages,
                "write"@,
                path,
            )
            &&& after.edited.contains(path) <==> files.edited.contains(path) || file_was_named(
                messages,
                "edit"@,
                path,
            )
        }),
    decreases messages.len(),
{
    if messages.len() > 0 {
        let front = messages.drop_last();
        law_files_are_those_that_calls_name(files, front, path);
        lemma_was_named_last(messages, "read"@, path);
        lemma_was_named_last(messages, "write"@, path);
        lemma_was_named_last(messages, "edit"@, path);
        if let AgentMessageView::Assistant(m) = messages.last() {
            lemma_files_of_content(files_after_all(files, front), m.content@, path);
        }
    }
}

/// A file that was written or edited is told as changed, and one that was only
/// read as read.
pub proof fn law_changed_files_are_told_as_changed(files: FileOperationsView, path: Seq<char>)
    ensures
        modified_set(files).contains(path) <==> files.written.contains(path)
            || files.edited.contains(path),
        read_only_set(files).contains(path) <==> files.read.contains(path)
            && !files.written.contains(path) && !files.edited.contains(path),
{
}

/// The files of a compaction are those of the last one and those that the
/// summarized messages name; kept messages do not count yet.
pub proof fn law_compactions_account_for_files(
    path: Seq<Entry>,
    settings: CompactionSettings,
    file: Seq<char>,
)
    ensures
        ({
            let p = prepared(path, settings);
            let named = |tool: Seq<char>|
                file_was_named(p.messages_to_summarize, tool, file) || file_was_named(
                    p.turn_prefix_messages,
                    tool,
                    file,
                );
            let last: Option<DetailsView> = match last_compaction(path) {
                Some(i) => match path[i] {
                    Entry::Compaction { details: Some(value), .. } => details_of_json(value@),
                    _ => None,
                },
                None => None,
            };
            &&& p.files.read.contains(file) <==> named("read"@) || (last matches Some(d)
                && d.read_files.contains(file))
            &&& p.files.written.contains(file) <==> named("write"@)
            &&& p.files.edited.contains(file) <==> named("edit"@) || (last matches Some(d)
                && d.modified_files.contains(file))
        }),
{
    lemma_last_compaction(path);
    let p = prepared(path, settings);
    let earlier = match last_compaction(path) {
        Some(i) => files_with_details(
            no_files(),
            path[i]->Compaction_details,
        ),
        None => no_files(),
    };
    law_files_are_those_that_calls_name(earlier, p.messages_to_summarize, file);
    law_files_are_those_that_calls_name(
        files_after_all(earlier, p.messages_to_summarize),
        p.turn_prefix_messages,
        file,
    );
}

// ---------------------------------------------------------------------------
// What a model is asked, and what its answers are made into
// ---------------------------------------------------------------------------

/// A compaction asks for nothing twice, and ends when it has what it needs: a
/// summary of the history, unless a turn is split and there is none before it,
/// and one of the beginning of the turn that is split.
pub proof fn law_compactions_ask_for_what_they_need(p: PreparationView, history: bool, prefix: bool)
    ensures
        ({
            let splits = p.is_split_turn && p.turn_prefix_messages.len() > 0;
            let needs_history = !splits || p.messages_to_summarize.len() > 0;
            let step = next_step(p, history, prefix);
            &&& step == CompactionStep::SummarizeHistory <==> needs_history && !history
            &&& step == CompactionStep::SummarizeTurnPrefix <==> (needs_history ==> history)
                && splits && !prefix
            &&& step == CompactionStep::Finish <==> (needs_history ==> history) && (splits
                ==> prefix)
        }),
{
}

/// A request for a summary holds the conversation, the earlier summary where
/// there is one, the task that fits, and at its end what the user wants looked
/// at.
pub proof fn law_requests_hold_what_is_to_be_summarized(
    messages: Seq<AgentMessageView>,
    focus: Seq<char>,
    previous: Seq<char>,
)
    ensures
        ({
            let quoted = "<conversation>\n"@ + conversation_text(llm_messages(messages))
                + "\n</conversation>\n\n"@;
            let asked_for = "\n\nAdditional focus: "@ + focus;
            let known = "<previous-summary>\n"@ + previous + "\n</previous-summary>\n\n"@;
            &&& summary_prompt(messages, None, None) == quoted + SUMMARIZATION_PROMPT@
            &&& summary_prompt(messages, None, Some(previous)) == quoted + known
                + UPDATE_SUMMARIZATION_PROMPT@
            &&& summary_prompt(messages, Some(focus), None) == quoted + SUMMARIZATION_PROMPT@
                + asked_for
            &&& summary_prompt(messages, Some(focus), Some(previous)) == quoted + known
                + UPDATE_SUMMARIZATION_PROMPT@ + asked_for
            &&& turn_prefix_prompt(messages) == quoted + TURN_PREFIX_SUMMARIZATION_PROMPT@
        }),
{
    reveal_strlit("");
    let quoted = "<conversation>\n"@ + conversation_text(llm_messages(messages))
        + "\n</conversation>\n\n"@;
    assert(summary_prompt(messages, None, None) =~= quoted + SUMMARIZATION_PROMPT@);
    assert(summary_prompt(messages, None, Some(previous)) =~= quoted + ("<previous-summary>\n"@
        + previous + "\n</previous-summary>\n\n"@) + UPDATE_SUMMARIZATION_PROMPT@);
    assert(summary_prompt(messages, Some(focus), None) =~= quoted + SUMMARIZATION_PROMPT@ + (
    "\n\nAdditional focus: "@ + focus));
}

/// An answer becomes a summary unless it was stopped or failed: then the reason
/// that it gives is told.
pub proof fn law_only_whole_answers_become_summaries(
    response: AssistantMessage,
    subject: Seq<char>,
)
    ensures
        match summary_answer(response, subject) {
            Ok(text) => {
                &&& response.stop_reason != StopReason::Aborted
                &&& response.stop_reason != StopReason::Error
                &&& text == join(
                    response.content@.filter_map(
                        |block: AssistantContent| match block {
                            AssistantContent::Text(t) => Some(t.text@),
                            _ => None,
                        },
                    ),
                    "\n"@,
                )
            },
            Err(e) => {
                &&& e.code == CompactionErrorCode::Aborted <==> response.stop_reason
                    == StopReason::Aborted
                &&& e.code == CompactionErrorCode::SummarizationFailed <==> response.stop_reason
                    == StopReason::Error
                &&& e.message == match (response.error_message, e.code) {
                    (Some(text), CompactionErrorCode::Aborted) => text@,
                    (None, CompactionErrorCode::Aborted) => subject + " aborted"@,
                    (Some(text), _) => subject + " failed: "@ + text@,
                    (None, _) => subject + " failed: "@ + "Unknown error"@,
                }
            },
        },
{
    lemma_answer_texts(response.content@);
}

proof fn lemma_answer_texts(content: Seq<AssistantContent>)
    ensures
        assistant_texts(content) == content.filter_map(
            |block: AssistantContent| match block {
                AssistantContent::Text(t) => Some(t.text@),
                _ => None,
            },
        ),
    decreases content.len(),
{
    let f = |block: AssistantContent|
        match block {
            AssistantContent::Text(t) => Some(t.text@),
            _ => None,
        };
    if content.len() > 0 {
        lemma_answer_texts(content.drop_last());
    }
    assert(assistant_texts(content) =~= content.filter_map(f));
}

/// The summary begins with that of the history and ends with that of the split
/// turn, and is the former alone where no turn is split.
pub proof fn law_summaries_hold_both_answers(history: Seq<char>, prefix: Seq<char>)
    ensures
        summary_body(Some(history), None) == history,
        summary_body(Some(history), Some(prefix)) == history
            + "\n\n---\n\n**Turn Context (split turn):**\n\n"@ + prefix,
        summary_body(None, Some(prefix)) == "No prior history."@
            + "\n\n---\n\n**Turn Context (split turn):**\n\n"@ + prefix,
{
}

// ---------------------------------------------------------------------------
// Lists of files, usage
// ---------------------------------------------------------------------------

/// A summary is followed by the files that were read and by those that were
/// changed, each list between its tags with one file in a line, and by nothing
/// where there are none.
pub proof fn law_files_are_listed_between_tags(
    read: Seq<Seq<char>>,
    modified: Seq<Seq<char>>,
)
    ensures
        file_lists_text(Seq::empty(), Seq::empty()).len() == 0,
        read.len() > 0 ==> file_lists_text(read, Seq::empty()) == "\n\n"@ + ("<"@ + "read-files"@
            + ">\n"@ + join(read, "\n"@) + "\n</"@ + "read-files"@ + ">"@),
        modified.len() > 0 ==> file_lists_text(Seq::empty(), modified) == "\n\n"@ + ("<"@
            + "modified-files"@ + ">\n"@ + join(modified, "\n"@) + "\n</"@ + "modified-files"@
            + ">"@),
        read.len() > 0 && modified.len() > 0 ==> file_lists_text(read, modified)
            == file_lists_text(read, Seq::empty()) + file_lists_text(Seq::empty(), modified),
{
    reveal_with_fuel(join, 3);
    let none = Seq::<Seq<char>>::empty();
    if read.len() > 0 {
        let one = file_section("read-files"@, read);
        assert(file_sections(read, none) =~= seq![one]);
        assert(join(seq![one], "\n\n"@) =~= one);
    }
    if modified.len() > 0 {
        let one = file_section("modified-files"@, modified);
        assert(file_sections(none, modified) =~= seq![one]);
        assert(join(seq![one], "\n\n"@) =~= one);
    }
    if read.len() > 0 && modified.len() > 0 {
        let a = file_section("read-files"@, read);
        let b = file_section("modified-files"@, modified);
        assert(file_sections(read, modified) =~= seq![a, b]);
        assert(seq![a, b].drop_last() =~= seq![a]);
        assert(join(seq![a, b], "\n\n"@) =~= a + "\n\n"@ + b);
        assert(file_lists_text(read, modified) =~= file_lists_text(read, none) + file_lists_text(
            none,
            modified,
        ));
    }
}

/// Whether an entry is an answer that reports its usage: one that was neither
/// broken off nor failed, and that used some tokens.
pub open spec fn reports_usage(entry: Entry) -> bool {
    entry matches Entry::Message { message, .. } && (message@ matches AgentMessageView::Assistant(
        m,
    ) && m.stop_reason != StopReason::Aborted && m.stop_reason != StopReason::Error
        && usage_total(m.usage) > 0)
}

/// The usage of a session is that of its last answer that reports one.
pub proof fn law_the_last_report_counts(entries: Seq<Entry>, entry: Entry)
    ensures
        last_entry_usage(Seq::empty()) is None,
        !reports_usage(entry) ==> last_entry_usage(entries.push(entry)) == last_entry_usage(
            entries,
        ),
        reports_usage(entry) ==> (entry matches Entry::Message { message, .. } && (
        message@ matches AgentMessageView::Assistant(m) && last_entry_usage(entries.push(entry))
            == Some(m.usage))),
{
    assert(entries.push(entry).drop_last() =~= entries);
    assert(entries.push(entry).last() == entry);
}

/// A branch is compacted unless it is empty or has just been compacted.
pub proof fn law_when_there_is_something_to_compact(path: Seq<Entry>, entry: Entry)
    ensures
        nothing_to_compact(Seq::empty()),
        nothing_to_compact(path.push(entry)) <==> entry is Compaction,
{
    assert(path.push(entry).last() == entry);
}

/// Counts that may be missing are added up, a missing one as nothing. The sum is
/// missing only where both are.
pub proof fn law_missing_counts_add_nothing(a: Option<u64>, b: Option<u64>)
    ensures
        optional_sum(a, b) is None <==> a is None && b is None,
        optional_sum(a, b) is Some ==> optional_sum(a, b)->0 == (if a is Some {
            a->0 as int
        } else {
            0
        }) + (if b is Some {
            b->0 as int
        } else {
            0
        }),
        optional_sum(a, b) == optional_sum(b, a),
{
}

} // verus!

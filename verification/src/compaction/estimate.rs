//! Estimates of how many tokens a conversation takes.

use vstd::prelude::*;

use crate::compaction::utils::{argument_text, safe_json_stringify};
use crate::json::{json_view, json_views, lemma_json_views, member_views, Json, JsonView};
use crate::session::types::Entry;
use crate::text::{byte_len, same_text, utf8_len};
use crate::types::{
    agent_message_views, arguments_object, block_views, AgentMessage, AgentMessageView,
    AssistantContent, BlockContent, BlockView, CustomAgentMessage, StopReason, ToolCall, Usage,
    UserContent, UserContentView,
};

verus! {

// ---------------------------------------------------------------------------
// Sums
// ---------------------------------------------------------------------------

/// The sum of some numbers.
pub open spec fn total(s: Seq<nat>) -> nat
    decreases s.len(),
{
    if s.len() == 0 {
        0
    } else {
        total(s.drop_last()) + s.last()
    }
}

/// A sum is not smaller than the sum of its first terms.
pub proof fn lemma_total_prefix(s: Seq<nat>, i: int)
    requires
        0 <= i <= s.len(),
    ensures
        total(s.take(i)) <= total(s),
    decreases s.len(),
{
    if i == s.len() {
        assert(s.take(i) =~= s);
    } else {
        lemma_total_prefix(s.drop_last(), i);
        assert(s.drop_last().take(i) =~= s.take(i));
    }
}

/// One more term adds itself to the sum.
pub proof fn lemma_total_step(s: Seq<nat>, i: int)
    requires
        0 <= i < s.len(),
    ensures
        total(s.take(i + 1)) == total(s.take(i)) + s[i],
{
    assert(s.take(i + 1).drop_last() =~= s.take(i));
}

// ---------------------------------------------------------------------------
// Usage
// ---------------------------------------------------------------------------

/// The tokens that a provider reports for a request.
pub open spec fn usage_total(usage: Usage) -> nat {
    if usage.total_tokens != 0 {
        usage.total_tokens as nat
    } else {
        (usage.input + usage.output + usage.cache_read + usage.cache_write) as nat
    }
}

/// The tokens that a provider reports for a request.
pub fn calculate_context_tokens(usage: &Usage) -> (r: u64)
    requires
        usage_total(*usage) <= u64::MAX,
    ensures
        r == usage_total(*usage),
{
    if usage.total_tokens != 0 {
        usage.total_tokens
    } else {
        usage.input + usage.output + usage.cache_read + usage.cache_write
    }
}

/// Whether a message is an answer of the model that was not cut off.
pub open spec fn completed(message: AgentMessageView) -> bool {
    match message {
        AgentMessageView::Assistant(m) => m.stop_reason != StopReason::Aborted && m.stop_reason
            != StopReason::Error,
        _ => false,
    }
}

/// The usage that an answer of the model reports, if it is worth anything.
pub open spec fn reported_usage(message: AgentMessageView) -> Option<Usage> {
    match message {
        AgentMessageView::Assistant(m) => if completed(message) && usage_total(m.usage) > 0 {
            Some(m.usage)
        } else {
            None
        },
        _ => None,
    }
}

/// Whether the reported tokens of a message can be counted.
pub open spec fn usage_countable(message: AgentMessageView) -> bool {
    match message {
        AgentMessageView::Assistant(m) => completed(message) ==> usage_total(m.usage) <= u64::MAX,
        _ => true,
    }
}

/// The usage that an answer of the model reports, if it is worth anything.
pub fn get_assistant_usage(message: &AgentMessage) -> (r: Option<Usage>)
    requires
        usage_countable(message@),
    ensures
        r == reported_usage(message@),
{
    match message {
        AgentMessage::Assistant(m) => {
            if m.stop_reason != StopReason::Aborted && m.stop_reason != StopReason::Error
                && calculate_context_tokens(&m.usage) > 0 {
                Some(m.usage)
            } else {
                None
            }
        },
        _ => None,
    }
}

/// The usage that the last answer in a session's entries reports.
pub open spec fn last_entry_usage(entries: Seq<Entry>) -> Option<Usage>
    decreases entries.len(),
{
    if entries.len() == 0 {
        None
    } else {
        let found = match entries.last() {
            Entry::Message { message, .. } => reported_usage(message@),
            _ => None,
        };
        match found {
            Some(usage) => Some(usage),
            None => last_entry_usage(entries.drop_last()),
        }
    }
}

/// The usage that the last answer in a session's entries reports.
pub fn get_last_assistant_usage(entries: &Vec<Entry>) -> (r: Option<Usage>)
    requires
        last_entry_usage(entries@) matches Some(usage) ==> usage_total(usage) <= u64::MAX,
    ensures
        r == last_entry_usage(entries@),
{
    let mut i: usize = entries.len();
    proof {
        assert(entries@.take(i as int) =~= entries@);
    }
    while i > 0
        invariant
            i <= entries@.len(),
            last_entry_usage(entries@) matches Some(usage) ==> usage_total(usage) <= u64::MAX,
            last_entry_usage(entries@) == last_entry_usage(entries@.take(i as int)),
        decreases i,
    {
        proof {
            assert(entries@.take(i as int).drop_last() =~= entries@.take(i as int - 1));
            assert(entries@.take(i as int).last() == entries@[i as int - 1]);
        }
        if let Entry::Message { message, .. } = &entries[i - 1] {
            if let Some(usage) = get_assistant_usage(message) {
                return Some(usage);
            }
        }
        i = i - 1;
    }
    None
}

// ---------------------------------------------------------------------------
// Characters
// ---------------------------------------------------------------------------

/// What an image counts for.
pub const ESTIMATED_IMAGE_CHARS: usize = 4800;

/// What a block counts for.
pub open spec fn block_size(block: BlockView) -> nat {
    match block {
        BlockView::Text { text, .. } => byte_len(text),
        BlockView::Image { .. } => ESTIMATED_IMAGE_CHARS as nat,
    }
}

/// What each block counts for.
pub open spec fn block_sizes(blocks: Seq<BlockView>) -> Seq<nat> {
    Seq::new(blocks.len(), |i: int| block_size(blocks[i]))
}

/// What a block of an assistant message counts for.
pub open spec fn content_size(block: AssistantContent) -> nat {
    match block {
        AssistantContent::Text(t) => byte_len(t.text@),
        AssistantContent::Thinking(t) => byte_len(t.thinking@),
        AssistantContent::ToolCall(call) => byte_len(call.name@) + byte_len(
            argument_text(JsonView::Object(member_views(call.arguments@))),
        ),
    }
}

/// What each block of an assistant message counts for.
pub open spec fn content_sizes(content: Seq<AssistantContent>) -> Seq<nat> {
    Seq::new(content.len(), |i: int| content_size(content[i]))
}

/// What an item of a custom message's content counts for.
pub open spec fn item_size(item: JsonView) -> nat {
    match item {
        JsonView::Object(_) => if item.optional_text_field("type"@) == Some("image"@) {
            ESTIMATED_IMAGE_CHARS as nat
        } else {
            byte_len(item.text_field("text"@))
        },
        _ => 0,
    }
}

/// What each item of a custom message's content counts for.
pub open spec fn item_sizes(items: Seq<JsonView>) -> Seq<nat> {
    Seq::new(items.len(), |i: int| item_size(items[i]))
}

/// What the content of a custom message counts for.
pub open spec fn custom_content_size(value: JsonView) -> nat {
    match value.get("content"@) {
        Some(JsonView::Text(text)) => byte_len(text),
        Some(JsonView::Array(items)) => total(item_sizes(items)),
        _ => 0,
    }
}

/// What an application message counts for.
pub open spec fn custom_size(role: Seq<char>, value: JsonView) -> nat {
    if role == "custom"@ || role == "toolResult"@ {
        custom_content_size(value)
    } else if role == "bashExecution"@ {
        byte_len(value.text_field("command"@)) + byte_len(value.text_field("output"@))
    } else if role == "branchSummary"@ || role == "compactionSummary"@ {
        byte_len(value.text_field("summary"@))
    } else {
        0
    }
}

/// How many characters a message counts for: the bytes of its text, and a
/// fixed number for each image.
pub open spec fn message_chars(message: AgentMessageView) -> nat {
    match message {
        AgentMessageView::User { content, .. } => match content {
            UserContentView::Text(text) => byte_len(text),
            UserContentView::Blocks(blocks) => total(block_sizes(blocks)),
        },
        AgentMessageView::Assistant(m) => total(content_sizes(m.content@)),
        AgentMessageView::ToolResult(m) => total(block_sizes(block_views(m.content@))),
        AgentMessageView::Custom { role, value } => custom_size(role, value),
    }
}

/// How many tokens a message is estimated at: a quarter of its characters,
/// rounded up.
pub open spec fn message_tokens(message: AgentMessageView) -> nat {
    (message_chars(message) + 3) / 4
}

/// The value of a number that may not fit the machine.
pub open spec fn fits(r: Option<usize>, n: nat) -> bool {
    match r {
        Some(counted) => counted == n,
        None => n > usize::MAX,
    }
}

fn sum_of(a: usize, b: usize) -> (r: Option<usize>)
    ensures
        fits(r, a as nat + b as nat),
{
    a.checked_add(b)
}

fn count_blocks(blocks: &Vec<BlockContent>) -> (r: Option<usize>)
    ensures
        fits(r, total(block_sizes(block_views(blocks@)))),
{
    let ghost sizes = block_sizes(block_views(blocks@));
    let mut sum: usize = 0;
    let mut i: usize = 0;
    proof {
        assert(sizes.take(0) =~= Seq::<nat>::empty());
    }
    while i < blocks.len()
        invariant
            i <= blocks@.len(),
            sizes == block_sizes(block_views(blocks@)),
            sum == total(sizes.take(i as int)),
        decreases blocks@.len() - i,
    {
        proof {
            assert(sizes[i as int] == block_size(blocks@[i as int]@));
            lemma_total_step(sizes, i as int);
            lemma_total_prefix(sizes, i as int + 1);
        }
        let size: usize = match &blocks[i] {
            BlockContent::Text(t) => utf8_len(t.text.as_str()),
            BlockContent::Image(_) => ESTIMATED_IMAGE_CHARS,
        };
        match sum_of(sum, size) {
            Some(next) => {
                sum = next;
            },
            None => {
                return None;
            },
        }
        i = i + 1;
    }
    proof {
        assert(sizes.take(sizes.len() as int) =~= sizes);
    }
    Some(sum)
}

fn count_call(call: &ToolCall) -> (r: Option<usize>)
    ensures
        fits(r, content_size(AssistantContent::ToolCall(*call))),
{
    let arguments: String = safe_json_stringify(&arguments_object(call));
    sum_of(utf8_len(call.name.as_str()), utf8_len(arguments.as_str()))
}

fn count_content(content: &Vec<AssistantContent>) -> (r: Option<usize>)
    ensures
        fits(r, total(content_sizes(content@))),
{
    let ghost sizes = content_sizes(content@);
    let mut sum: usize = 0;
    let mut i: usize = 0;
    proof {
        assert(sizes.take(0) =~= Seq::<nat>::empty());
    }
    while i < content.len()
        invariant
            i <= content@.len(),
            sizes == content_sizes(content@),
            sum == total(sizes.take(i as int)),
        decreases content@.len() - i,
    {
        proof {
            assert(sizes[i as int] == content_size(content@[i as int]));
            lemma_total_step(sizes, i as int);
            lemma_total_prefix(sizes, i as int + 1);
        }
        let size: Option<usize> = match &content[i] {
            AssistantContent::Text(t) => Some(utf8_len(t.text.as_str())),
            AssistantContent::Thinking(t) => Some(utf8_len(t.thinking.as_str())),
            AssistantContent::ToolCall(call) => count_call(call),
        };
        let next: Option<usize> = match size {
            Some(counted) => sum_of(sum, counted),
            None => None,
        };
        match next {
            Some(reached) => {
                sum = reached;
            },
            None => {
                return None;
            },
        }
        i = i + 1;
    }
    proof {
        assert(sizes.take(sizes.len() as int) =~= sizes);
    }
    Some(sum)
}

fn count_item(item: &Json) -> (r: usize)
    ensures
        r == item_size(item@),
{
    match item {
        Json::Object(_) => {
            let is_image: bool = match item.optional_text_field("type") {
                Some(kind) => same_text(kind.as_str(), "image"),
                None => false,
            };
            if is_image {
                ESTIMATED_IMAGE_CHARS
            } else {
                utf8_len(item.text_field("text").as_str())
            }
        },
        _ => 0,
    }
}

fn count_items(items: &Vec<Json>) -> (r: Option<usize>)
    ensures
        fits(r, total(item_sizes(json_views(items@)))),
{
    let ghost views = json_views(items@);
    let ghost sizes = item_sizes(views);
    let mut sum: usize = 0;
    let mut i: usize = 0;
    proof {
        lemma_json_views(items@);
        assert(sizes.take(0) =~= Seq::<nat>::empty());
    }
    while i < items.len()
        invariant
            i <= items@.len(),
            views == json_views(items@),
            views.len() == items@.len(),
            forall|k: int| 0 <= k < items@.len() ==> #[trigger] views[k] == json_view(items@[k]),
            sizes == item_sizes(views),
            sum == total(sizes.take(i as int)),
        decreases items@.len() - i,
    {
        proof {
            assert(views[i as int] == json_view(items@[i as int]));
            assert(sizes[i as int] == item_size(items@[i as int]@));
            lemma_total_step(sizes, i as int);
            lemma_total_prefix(sizes, i as int + 1);
        }
        match sum_of(sum, count_item(&items[i])) {
            Some(next) => {
                sum = next;
            },
            None => {
                return None;
            },
        }
        i = i + 1;
    }
    proof {
        assert(sizes.take(sizes.len() as int) =~= sizes);
    }
    Some(sum)
}

fn count_custom(custom: &CustomAgentMessage) -> (r: Option<usize>)
    ensures
        fits(r, custom_size(custom.role@, custom.value@)),
{
    let role: &str = custom.role.as_str();
    let value: &Json = &custom.value;
    if same_text(role, "custom") || same_text(role, "toolResult") {
        match value.get("content") {
            Some(Json::Text(text)) => Some(utf8_len(text.as_str())),
            Some(Json::Array(items)) => count_items(items),
            _ => Some(0),
        }
    } else if same_text(role, "bashExecution") {
        sum_of(
            utf8_len(value.text_field("command").as_str()),
            utf8_len(value.text_field("output").as_str()),
        )
    } else if same_text(role, "branchSummary") || same_text(role, "compactionSummary") {
        Some(utf8_len(value.text_field("summary").as_str()))
    } else {
        Some(0)
    }
}

/// How many characters a message counts for, when the number fits.
pub fn count_chars(message: &AgentMessage) -> (r: Option<usize>)
    ensures
        fits(r, message_chars(message@)),
{
    match message {
        AgentMessage::User(m) => match &m.content {
            UserContent::Text(text) => Some(utf8_len(text.as_str())),
            UserContent::Blocks(blocks) => count_blocks(blocks),
        },
        AgentMessage::Assistant(m) => count_content(&m.content),
        AgentMessage::ToolResult(m) => count_blocks(&m.content),
        AgentMessage::Custom(m) => count_custom(m),
    }
}

/// How many tokens a message is estimated at.
pub fn estimate_tokens(message: &AgentMessage) -> (r: u64)
    requires
        message_chars(message@) <= usize::MAX,
    ensures
        r == message_tokens(message@),
{
    let chars: usize = match count_chars(message) {
        Some(n) => n,
        None => 0,
    };
    let quarter: u64 = chars as u64 / 4;
    if chars % 4 > 0 {
        quarter + 1
    } else {
        quarter
    }
}

// ---------------------------------------------------------------------------
// Context
// ---------------------------------------------------------------------------

/// How many tokens each message is estimated at.
pub open spec fn tokens_of_messages(messages: Seq<AgentMessageView>) -> Seq<nat> {
    Seq::new(messages.len(), |i: int| message_tokens(messages[i]))
}

/// The position of the last message that reports usage.
pub open spec fn last_report(messages: Seq<AgentMessageView>) -> Option<int>
    decreases messages.len(),
{
    if messages.len() == 0 {
        None
    } else if reported_usage(messages.last()) is Some {
        Some(messages.len() - 1)
    } else {
        last_report(messages.drop_last())
    }
}

/// How many tokens a conversation takes.
#[derive(Clone, Copy, PartialEq, Eq, Structural, Debug)]
pub struct ContextUsageEstimate {
    pub tokens: u64,
    pub usage_tokens: u64,
    pub trailing_tokens: u64,
    pub last_usage_index: Option<usize>,
}

/// The tokens that are estimated for messages from a position on.
pub open spec fn trailing(messages: Seq<AgentMessageView>, from: int) -> nat {
    total(tokens_of_messages(messages.skip(from)))
}

/// How many tokens a conversation takes: what its last answer reported, and
/// an estimate of what follows it; an estimate of the whole where no answer
/// reported anything.
pub open spec fn context_estimate(messages: Seq<AgentMessageView>) -> ContextUsageEstimate {
    match last_report(messages) {
        Some(i) => {
            let used = usage_total(reported_usage(messages[i]).unwrap());
            let after = trailing(messages, i + 1);
            ContextUsageEstimate {
                tokens: (used + after) as u64,
                usage_tokens: used as u64,
                trailing_tokens: after as u64,
                last_usage_index: Some(i as usize),
            }
        },
        None => {
            let all = trailing(messages, 0);
            ContextUsageEstimate {
                tokens: all as u64,
                usage_tokens: 0,
                trailing_tokens: all as u64,
                last_usage_index: None,
            }
        },
    }
}

/// From where on the messages of a conversation are estimated: behind the last
/// that reports usage.
pub open spec fn estimated_from(messages: Seq<AgentMessageView>) -> int {
    match last_report(messages) {
        Some(i) => i + 1,
        None => 0,
    }
}

/// What the last answer that reported usage reported.
pub open spec fn last_reported(messages: Seq<AgentMessageView>) -> nat {
    match last_report(messages) {
        Some(i) => usage_total(reported_usage(messages[i]).unwrap()),
        None => 0,
    }
}

/// Whether the tokens of some messages can be counted: what was reported last and
/// the estimates behind it together, and the characters of each message that is
/// estimated.
pub open spec fn countable(messages: Seq<AgentMessageView>) -> bool {
    &&& last_reported(messages) + trailing(messages, estimated_from(messages)) <= u64::MAX
    &&& forall|i: int|
        estimated_from(messages) <= i < messages.len() ==> message_chars(#[trigger] messages[i])
            <= usize::MAX
}

proof fn lemma_last_report(messages: Seq<AgentMessageView>)
    ensures
        match last_report(messages) {
            Some(i) => 0 <= i < messages.len() && reported_usage(messages[i]) is Some && forall|
                k: int,
            |
                i < k < messages.len() ==> reported_usage(#[trigger] messages[k]) is None,
            None => forall|k: int|
                0 <= k < messages.len() ==> reported_usage(#[trigger] messages[k]) is None,
        },
    decreases messages.len(),
{
    if messages.len() > 0 && reported_usage(messages.last()) is None {
        lemma_last_report(messages.drop_last());
        assert forall|k: int|
            estimated_from(messages.drop_last()) <= k < messages.len() implies reported_usage(
            #[trigger] messages[k],
        ) is None by {
            if k < messages.len() - 1 {
                assert(messages.drop_last()[k] == messages[k]);
            }
        }
    }
}

/// The estimate of the messages from a position on, added to a number; none where
/// the sum or the characters of a message cannot be counted.
fn add_estimates(messages: &Vec<AgentMessage>, from: usize, base: u64) -> (r: Option<u64>)
    requires
        from <= messages@.len(),
    ensures
        ({
            let views = agent_message_views(messages@);
            let fit = base + trailing(views, from as int) <= u64::MAX && forall|i: int|
                from <= i < views.len() ==> message_chars(#[trigger] views[i]) <= usize::MAX;
            match r {
                Some(sum) => fit && sum == base + trailing(views, from as int),
                None => !fit,
            }
        }),
{
    let ghost views = agent_message_views(messages@);
    let ghost tail = views.skip(from as int);
    let ghost tokens = tokens_of_messages(tail);
    proof {
        assert(tokens.take(0) =~= Seq::<nat>::empty());
    }
    let mut sum: u64 = base;
    let mut i: usize = from;
    while i < messages.len()
        invariant
            from <= i <= messages@.len(),
            views == agent_message_views(messages@),
            tail == views.skip(from as int),
            tokens == tokens_of_messages(tail),
            sum == base + total(tokens.take(i - from)),
            forall|k: int| from <= k < i ==> message_chars(#[trigger] views[k]) <= usize::MAX,
        decreases messages@.len() - i,
    {
        proof {
            assert(views[i as int] == messages@[i as int]@);
            assert(tail[i - from] == messages@[i as int]@);
            lemma_total_step(tokens, i - from);
            lemma_total_prefix(tokens, i - from + 1);
        }
        if count_chars(&messages[i]).is_none() {
            return None;
        }
        match sum.checked_add(estimate_tokens(&messages[i])) {
            Some(next) => {
                sum = next;
            },
            None => {
                return None;
            },
        }
        i = i + 1;
    }
    proof {
        assert(tokens.take(tokens.len() as int) =~= tokens);
    }
    Some(sum)
}

fn estimate_from(messages: &Vec<AgentMessage>, from: usize) -> (r: u64)
    requires
        from <= messages@.len(),
        trailing(agent_message_views(messages@), from as int) <= u64::MAX,
        forall|i: int|
            from <= i < messages@.len() ==> message_chars(
                #[trigger] agent_message_views(messages@)[i],
            ) <= usize::MAX,
    ensures
        r == trailing(agent_message_views(messages@), from as int),
{
    match add_estimates(messages, from, 0) {
        Some(sum) => sum,
        None => 0,
    }
}

/// The position of the last message that reports usage, and the usage.
fn find_last_report(messages: &Vec<AgentMessage>) -> (r: Option<(usize, Usage)>)
    ensures
        match r {
            Some(found) => last_report(agent_message_views(messages@)) == Some(found.0 as int)
                && found.0 < messages@.len() && reported_usage(messages@[found.0 as int]@) == Some(
                found.1,
            ),
            None => last_report(agent_message_views(messages@)) is None,
        },
{
    let ghost views = agent_message_views(messages@);
    let mut i: usize = messages.len();
    proof {
        assert(views.take(i as int) =~= views);
    }
    while i > 0
        invariant
            i <= messages@.len(),
            views == agent_message_views(messages@),
            last_report(views) == last_report(views.take(i as int)),
        decreases i,
    {
        proof {
            assert(views.take(i as int).drop_last() =~= views.take(i as int - 1));
            assert(views.take(i as int).last() == messages@[i as int - 1]@);
        }
        if let AgentMessage::Assistant(m) = &messages[i - 1] {
            if m.stop_reason != StopReason::Aborted && m.stop_reason != StopReason::Error
                && wide_total(&m.usage) > 0 {
                return Some((i - 1, m.usage));
            }
        }
        i = i - 1;
    }
    None
}

fn wide_total(usage: &Usage) -> (r: u128)
    ensures
        r == usage_total(*usage),
{
    if usage.total_tokens != 0 {
        usage.total_tokens as u128
    } else {
        usage.input as u128 + usage.output as u128 + usage.cache_read as u128
            + usage.cache_write as u128
    }
}

/// How many tokens a conversation takes.
pub fn estimate_context_tokens(messages: &Vec<AgentMessage>) -> (r: ContextUsageEstimate)
    requires
        countable(agent_message_views(messages@)),
    ensures
        r == context_estimate(agent_message_views(messages@)),
{
    proof {
        lemma_last_report(agent_message_views(messages@));
    }
    match find_last_report(messages) {
        Some((i, usage)) => {
            assert(messages.len() <= usize::MAX);
            let used: u64 = calculate_context_tokens(&usage);
            let after: u64 = estimate_from(messages, i + 1);
            ContextUsageEstimate {
                tokens: used + after,
                usage_tokens: used,
                trailing_tokens: after,
                last_usage_index: Some(i),
            }
        },
        None => {
            let all: u64 = estimate_from(messages, 0);
            ContextUsageEstimate {
                tokens: all,
                usage_tokens: 0,
                trailing_tokens: all,
                last_usage_index: None,
            }
        },
    }
}

/// Whether the tokens of some messages can be counted.
pub fn can_count(messages: &Vec<AgentMessage>) -> (r: bool)
    ensures
        r == countable(agent_message_views(messages@)),
{
    proof {
        lemma_last_report(agent_message_views(messages@));
    }
    match find_last_report(messages) {
        Some((i, usage)) => {
            assert(messages.len() <= usize::MAX);
            let used: u128 = wide_total(&usage);
            if used > 0xffff_ffff_ffff_ffff {
                return false;
            }
            add_estimates(messages, i + 1, used as u64).is_some()
        },
        None => add_estimates(messages, 0, 0).is_some(),
    }
}

/// When a conversation is compacted and how much of it is kept.
#[derive(Clone, Copy, PartialEq, Eq, Structural, Debug)]
pub struct CompactionSettings {
    pub enabled: bool,
    pub reserve_tokens: u64,
    pub keep_recent_tokens: u64,
}

/// The settings that a harness uses unless told otherwise.
pub open spec fn default_settings() -> CompactionSettings {
    CompactionSettings { enabled: true, reserve_tokens: 16384, keep_recent_tokens: 20000 }
}

impl Default for CompactionSettings {
    fn default() -> (r: Self)
        ensures
            r == default_settings(),
    {
        CompactionSettings { enabled: true, reserve_tokens: 16384, keep_recent_tokens: 20000 }
    }
}

/// The tokens that a conversation may take before it is compacted.
pub open spec fn compaction_threshold(context_window: u64, reserve_tokens: u64) -> int {
    if context_window > reserve_tokens {
        context_window - reserve_tokens
    } else {
        0
    }
}

/// Whether a conversation has outgrown its window.
pub fn should_compact(context_tokens: u64, context_window: u64, settings: &CompactionSettings) -> (r:
    bool)
    ensures
        r == (settings.enabled && context_tokens > compaction_threshold(
            context_window,
            settings.reserve_tokens,
        )),
{
    if !settings.enabled {
        return false;
    }
    let threshold: u64 = if context_window > settings.reserve_tokens {
        context_window - settings.reserve_tokens
    } else {
        0
    };
    context_tokens > threshold
}

/// A conversation that is to be compacted stays so when it grows, and one
/// that is not stays so in a larger window.
pub proof fn law_compaction_is_monotone(
    tokens: u64,
    more_tokens: u64,
    window: u64,
    larger_window: u64,
    reserve: u64,
)
    requires
        tokens <= more_tokens,
        window <= larger_window,
    ensures
        tokens > compaction_threshold(window, reserve) ==> more_tokens > compaction_threshold(
            window,
            reserve,
        ),
        tokens > compaction_threshold(larger_window, reserve) ==> tokens > compaction_threshold(
            window,
            reserve,
        ),
{
}

} // verus!

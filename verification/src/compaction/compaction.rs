//! Compaction: what is summarized of a branch, what is kept of it, what a
//! model is asked, and what its answers are made into.

use std::sync::Arc;

use vstd::prelude::*;

use crate::compaction::cut::{
    can_find_cut, collect_messages, cut_countable, cut_point, find_cut_point, law_cuts_stay_inside,
    slot_messages, slots_of, CutPointResult, Slot,
};
use crate::compaction::estimate::{
    can_count, context_estimate, countable, estimate_context_tokens, CompactionSettings,
};
use crate::compaction::utils::{
    assistant_text, assistant_texts, compute_file_lists, conversation_text, create_file_ops,
    extract_file_ops_from_messages, file_lists_text, files_after_all, format_file_operations,
    insert_all, modified_set, no_files, read_only_set, serializable, serialize_conversation,
    FileOperations, FileOperationsView,
};
use crate::harness_types::{CompactionError, CompactionErrorCode, CompactionErrorView};
use crate::json::{
    as_texts, collect_text_items, json_views, lemma_json_views, push_member, texts_value,
    texts_view, Json, JsonView,
};
use crate::messages::{convert_to_llm, llm_messages};
use crate::session::context::{
    build_default_context, default_messages, entries_from, find_last_compaction, last_compaction,
    lemma_last_compaction, SessionContext,
};
use crate::session::types::{Entry, EntryType};
use crate::text::{concat2, concat3, concat4, decimal_text, join, text_of_option, texts};
use crate::text_set::lists;
use crate::types::{
    agent_message_views, AgentMessage, AgentMessageView, AssistantMessage, Message, StopReason,
    ThinkingLevel, Usage, UsageCost,
};

verus! {

// ---------------------------------------------------------------------------
// Details
// ---------------------------------------------------------------------------

/// The files that a summary accounts for.
pub struct CompactionDetails {
    pub read_files: Vec<String>,
    pub modified_files: Vec<String>,
}

/// The files that a summary accounts for, in terms of mathematical values.
pub struct DetailsView {
    pub read_files: Seq<Seq<char>>,
    pub modified_files: Seq<Seq<char>>,
}

impl View for CompactionDetails {
    type V = DetailsView;

    open spec fn view(&self) -> DetailsView {
        DetailsView {
            read_files: texts(self.read_files@),
            modified_files: texts(self.modified_files@),
        }
    }
}

/// The texts of a value that is an array of texts.
pub open spec fn text_array(value: Option<JsonView>) -> Option<Seq<Seq<char>>> {
    match value {
        Some(JsonView::Array(items)) => as_texts(items),
        _ => None,
    }
}

/// The files that a stored value accounts for: an object with both lists, or
/// an array of both.
pub open spec fn details_of_json(value: JsonView) -> Option<DetailsView> {
    let lists = match value {
        JsonView::Object(_) => (
            text_array(value.get("readFiles"@)),
            text_array(value.get("modifiedFiles"@)),
        ),
        JsonView::Array(items) if items.len() == 2 => (
            text_array(Some(items[0])),
            text_array(Some(items[1])),
        ),
        _ => (None, None),
    };
    match lists {
        (Some(read_files), Some(modified_files)) => Some(
            DetailsView { read_files, modified_files },
        ),
        _ => None,
    }
}

fn read_text_array(value: Option<&Json>) -> (r: Option<Vec<String>>)
    ensures
        match r {
            Some(found) => value matches Some(v) && text_array(Some(v@)) == Some(texts(found@)),
            None => value matches Some(v) ==> text_array(Some(v@)) is None,
        },
{
    match value {
        Some(Json::Array(items)) => collect_text_items(items),
        _ => None,
    }
}

/// The files that a stored value accounts for.
pub fn read_details(value: &Json) -> (r: Option<CompactionDetails>)
    ensures
        match r {
            Some(details) => details_of_json(value@) == Some(details@),
            None => details_of_json(value@) is None,
        },
{
    let (read, modified): (Option<Vec<String>>, Option<Vec<String>>) = match value {
        Json::Object(_) => (
            read_text_array(value.get("readFiles")),
            read_text_array(value.get("modifiedFiles")),
        ),
        Json::Array(items) => {
            proof {
                lemma_json_views(items@);
            }
            if items.len() == 2 {
                proof {
                    assert(json_views(items@)[0] == items@[0]@);
                    assert(json_views(items@)[1] == items@[1]@);
                }
                (read_text_array(Some(&items[0])), read_text_array(Some(&items[1])))
            } else {
                (None, None)
            }
        },
        _ => (None, None),
    };
    match (read, modified) {
        (Some(read_files), Some(modified_files)) => Some(
            CompactionDetails { read_files, modified_files },
        ),
        _ => None,
    }
}

/// The stored value of the files that a summary accounts for.
pub open spec fn details_json(details: DetailsView) -> JsonView {
    JsonView::Object(
        seq![
            ("readFiles"@, texts_view(details.read_files)),
            ("modifiedFiles"@, texts_view(details.modified_files)),
        ],
    )
}

/// The stored value of the files that a summary accounts for.
pub fn details_value(details: &CompactionDetails) -> (r: Json)
    ensures
        r@ == details_json(details@),
{
    let mut members: Vec<(String, Json)> = Vec::new();
    push_member(&mut members, "readFiles", texts_value(&details.read_files));
    push_member(&mut members, "modifiedFiles", texts_value(&details.modified_files));
    proof {
        assert(crate::json::member_views(members@) =~= details_json(details@)->Object_0);
    }
    Json::Object(members)
}

/// The files that a summary accounts for survive the way through their stored
/// value.
pub proof fn law_details_read_back(details: DetailsView)
    ensures
        details_of_json(details_json(details)) == Some(details),
{
    reveal_strlit("readFiles");
    reveal_strlit("modifiedFiles");
    assert("readFiles"@.len() == 9);
    assert("modifiedFiles"@.len() == 13);
    reveal_with_fuel(crate::json::member_of, 3);
    let members = details_json(details)->Object_0;
    assert(members.drop_first()[0] == members[1]);
    assert(as_texts(texts_view(details.read_files)->Array_0).unwrap() =~= details.read_files);
    assert(as_texts(texts_view(details.modified_files)->Array_0).unwrap()
        =~= details.modified_files);
}

/// The files that an earlier summary accounts for: what it read counts as
/// read, what it changed counts as edited.
pub open spec fn files_of_details(files: FileOperationsView, details: DetailsView) -> FileOperationsView {
    FileOperationsView {
        read: Set::new(|t: Seq<char>| files.read.contains(t) || details.read_files.contains(t)),
        written: files.written,
        edited: Set::new(
            |t: Seq<char>| files.edited.contains(t) || details.modified_files.contains(t),
        ),
    }
}

/// The files after what a stored value accounts for.
pub open spec fn files_with_details(files: FileOperationsView, value: Option<Arc<Json>>) -> FileOperationsView {
    match value {
        Some(json) => match details_of_json(json@) {
            Some(details) => files_of_details(files, details),
            None => files,
        },
        None => files,
    }
}

/// Adds the files that a stored value accounts for.
pub fn add_details(files: &mut FileOperations, value: &Option<Arc<Json>>)
    ensures
        final(files)@ == files_with_details(old(files)@, *value),
{
    let ghost before = files@;
    if let Some(json) = value {
        if let Some(details) = read_details(json) {
            insert_all(&mut files.read, &details.read_files);
            insert_all(&mut files.edited, &details.modified_files);
            proof {
                assert(files@ =~= files_of_details(before, details@));
            }
        }
    }
}

// ---------------------------------------------------------------------------
// Preparation
// ---------------------------------------------------------------------------

/// What a compaction works on.
pub struct CompactionPreparation {
    pub messages_to_summarize: Vec<AgentMessage>,
    pub turn_prefix_messages: Vec<AgentMessage>,
    pub retained_tail: Vec<AgentMessage>,
    pub is_split_turn: bool,
    pub tokens_before: u64,
    pub previous_summary: Option<String>,
    pub file_ops: FileOperations,
    pub settings: CompactionSettings,
}

/// The mathematical value of a [`CompactionPreparation`].
pub struct PreparationView {
    pub messages_to_summarize: Seq<AgentMessageView>,
    pub turn_prefix_messages: Seq<AgentMessageView>,
    pub retained_tail: Seq<AgentMessageView>,
    pub is_split_turn: bool,
    pub tokens_before: u64,
    pub previous_summary: Option<Seq<char>>,
    pub files: FileOperationsView,
    pub settings: CompactionSettings,
}

impl View for CompactionPreparation {
    type V = PreparationView;

    open spec fn view(&self) -> PreparationView {
        PreparationView {
            messages_to_summarize: agent_message_views(self.messages_to_summarize@),
            turn_prefix_messages: agent_message_views(self.turn_prefix_messages@),
            retained_tail: agent_message_views(self.retained_tail@),
            is_split_turn: self.is_split_turn,
            tokens_before: self.tokens_before,
            previous_summary: text_of_option(self.previous_summary),
            files: self.file_ops@,
            settings: self.settings,
        }
    }
}

/// The messages as entries that a cut can see.
pub open spec fn message_slots(messages: Seq<AgentMessage>) -> Seq<Slot> {
    Seq::new(messages.len(), |i: int| Slot::Message(messages[i]@))
}

/// What a compaction works on: the messages that the last compaction kept and
/// the entries after it, or the whole branch.
pub open spec fn compactable(path: Seq<Entry>) -> Seq<Slot> {
    match last_compaction(path) {
        Some(i) => message_slots(path[i]->retained_tail@) + slots_of(path.skip(i + 1)),
        None => slots_of(path),
    }
}

/// Where the summarized history ends.
pub open spec fn history_end(cut: (int, int, bool)) -> int {
    if cut.2 {
        cut.1
    } else {
        cut.0
    }
}

/// What a compaction of a branch works on.
pub open spec fn prepared(path: Seq<Entry>, settings: CompactionSettings) -> PreparationView {
    let slots = compactable(path);
    let end = slots.len() as int;
    let cut = cut_point(slots, 0, end, settings.keep_recent_tokens as nat);
    let summarized = slot_messages(slots.subrange(0, history_end(cut)));
    let prefix = if cut.2 {
        slot_messages(slots.subrange(cut.1, cut.0))
    } else {
        Seq::empty()
    };
    let earlier = match last_compaction(path) {
        Some(i) => files_with_details(no_files(), path[i]->Compaction_details),
        None => no_files(),
    };
    PreparationView {
        messages_to_summarize: summarized,
        turn_prefix_messages: prefix,
        retained_tail: slot_messages(slots.subrange(cut.0, end)),
        is_split_turn: cut.2,
        tokens_before: context_estimate(default_messages(path)).tokens,
        previous_summary: match last_compaction(path) {
            Some(i) => Some(path[i]->Compaction_summary@),
            None => None,
        },
        files: files_after_all(files_after_all(earlier, summarized), prefix),
        settings,
    }
}

/// Whether there is nothing to compact: the branch is empty, or was just
/// compacted.
pub open spec fn nothing_to_compact(path: Seq<Entry>) -> bool {
    path.len() == 0 || path.last() is Compaction
}

/// Whether the sizes that a compaction counts fit the machine; nothing is counted
/// where there is nothing to compact.
pub open spec fn branch_countable(path: Seq<Entry>, settings: CompactionSettings) -> bool {
    nothing_to_compact(path) || {
        &&& countable(default_messages(path))
        &&& compactable(path).len() <= isize::MAX
        &&& cut_countable(
            compactable(path),
            0,
            compactable(path).len() as int,
            settings.keep_recent_tokens as nat,
        )
    }
}

/// The timestamp of a message.
pub open spec fn time_of(message: AgentMessage) -> int {
    match message {
        AgentMessage::User(m) => m.timestamp as int,
        AgentMessage::Assistant(m) => m.timestamp as int,
        AgentMessage::ToolResult(m) => m.timestamp as int,
        AgentMessage::Custom(m) => crate::messages::timestamp_of(m.value@),
    }
}

/// The timestamp of a message.
pub fn message_timestamp(message: &AgentMessage) -> (r: i64)
    ensures
        r == time_of(*message),
{
    match message {
        AgentMessage::User(m) => m.timestamp,
        AgentMessage::Assistant(m) => m.timestamp,
        AgentMessage::ToolResult(m) => m.timestamp,
        AgentMessage::Custom(m) => match m.value.int_field("timestamp") {
            Some(time) => time,
            None => 0,
        },
    }
}

/// The id of the entry that stands for a kept message.
fn retained_id(id: &String, index: usize) -> (r: String)
    ensures
        r@ == id@ + ":retained:"@ + crate::text::decimal(index as nat),
{
    concat3(id.as_str(), ":retained:", decimal_text(index as u64).as_str())
}

/// The entries that stand for the messages that a compaction kept.
fn virtual_entries(id: &String, seq: u64, retained_tail: &Vec<AgentMessage>) -> (r: Vec<Entry>)
    ensures
        slots_of(r@) == message_slots(retained_tail@),
{
    let mut out: Vec<Entry> = Vec::new();
    let mut i: usize = 0;
    while i < retained_tail.len()
        invariant
            i <= retained_tail@.len(),
            slots_of(out@) == message_slots(retained_tail@).take(i as int),
        decreases retained_tail@.len() - i,
    {
        let ghost before = out@;
        let message: &AgentMessage = &retained_tail[i];
        let parent: String = if i == 0 {
            id.clone()
        } else {
            retained_id(id, i - 1)
        };
        out.push(
            Entry::Message {
                id: retained_id(id, i),
                message: message.clone(),
                terminate: None,
                parent_id: Some(parent),
                seq,
                timestamp: message_timestamp(message),
            },
        );
        proof {
            let all = message_slots(retained_tail@);
            assert(slots_of(out@) =~= slots_of(before).push(all[i as int]));
            assert(all.take(i as int + 1) =~= all.take(i as int).push(all[i as int]));
        }
        i = i + 1;
    }
    proof {
        let all = message_slots(retained_tail@);
        assert(all.take(all.len() as int) =~= all);
    }
    out
}

fn append_entries(out: &mut Vec<Entry>, more: &Vec<Entry>)
    ensures
        final(out)@ == old(out)@ + more@,
{
    let ghost before = out@;
    let mut i: usize = 0;
    proof {
        assert(before + more@.take(0) =~= before);
    }
    while i < more.len()
        invariant
            i <= more@.len(),
            out@ == before + more@.take(i as int),
        decreases more@.len() - i,
    {
        out.push(more[i].clone());
        proof {
            assert(before + more@.take(i as int + 1) =~= (before + more@.take(i as int)).push(
                more@[i as int],
            ));
        }
        i = i + 1;
    }
    proof {
        assert(more@.take(more@.len() as int) =~= more@);
    }
}

struct Working {
    entries: Vec<Entry>,
    previous_summary: Option<String>,
    files: FileOperations,
}

fn working_entries(path: &Vec<Entry>) -> (r: Working)
    ensures
        slots_of(r.entries@) == compactable(path@),
        text_of_option(r.previous_summary) == match last_compaction(path@) {
            Some(i) => Some(path@[i]->Compaction_summary@),
            None => None,
        },
        r.files@ == match last_compaction(path@) {
            Some(i) => files_with_details(no_files(), path@[i]->Compaction_details),
            None => no_files(),
        },
{
    proof {
        lemma_last_compaction(path@);
    }
    let mut files: FileOperations = create_file_ops();
    let n: usize = path.len();
    if let Some(i) = find_last_compaction(path) {
        if let Entry::Compaction { id, summary, retained_tail, details, seq, .. } = &path[i] {
            add_details(&mut files, details);
            let mut entries: Vec<Entry> = virtual_entries(id, *seq, retained_tail);
            let ghost front = entries@;
            let rest: Vec<Entry> = entries_from(path, i + 1);
            append_entries(&mut entries, &rest);
            proof {
                assert(slots_of(front + rest@) =~= slots_of(front) + slots_of(rest@));
            }
            return Working { entries, previous_summary: Some(summary.clone()), files };
        }
    }
    let entries: Vec<Entry> = entries_from(path, 0);
    proof {
        assert(path@.skip(0) =~= path@);
    }
    Working { entries, previous_summary: None, files }
}

/// Prepares the compaction of a branch; none where there is nothing to
/// compact.
pub fn prepare_compaction(path_entries: &Vec<Entry>, settings: CompactionSettings) -> (r: Result<
    Option<CompactionPreparation>,
    CompactionError,
>)
    requires
        branch_countable(path_entries@, settings),
    ensures
        r matches Ok(found) && match found {
            Some(preparation) => !nothing_to_compact(path_entries@) && preparation@ == prepared(
                path_entries@,
                settings,
            ),
            None => nothing_to_compact(path_entries@),
        },
{
    let n: usize = path_entries.len();
    if n == 0 || path_entries[n - 1].entry_type() == EntryType::Compaction {
        return Ok(None);
    }
    let Working { entries, previous_summary, files } = working_entries(path_entries);
    let ghost slots = slots_of(entries@);
    let context: SessionContext = build_default_context(path_entries);
    let tokens_before: u64 = estimate_context_tokens(&context.messages).tokens;
    let end: usize = entries.len();
    let cut: CutPointResult = find_cut_point(&entries, 0, end, settings.keep_recent_tokens);
    proof {
        law_cuts_stay_inside(slots, 0, end as int, settings.keep_recent_tokens as nat);
    }
    let history_end: usize = if cut.is_split_turn {
        cut.turn_start_index as usize
    } else {
        cut.first_kept_entry_index
    };
    let messages_to_summarize: Vec<AgentMessage> = collect_messages(&entries, 0, history_end);
    let turn_prefix_messages: Vec<AgentMessage> = if cut.is_split_turn {
        collect_messages(&entries, history_end, cut.first_kept_entry_index)
    } else {
        Vec::new()
    };
    let retained_tail: Vec<AgentMessage> = collect_messages(
        &entries,
        cut.first_kept_entry_index,
        end,
    );
    let mut file_ops: FileOperations = files;
    extract_file_ops_from_messages(&messages_to_summarize, &mut file_ops);
    extract_file_ops_from_messages(&turn_prefix_messages, &mut file_ops);
    proof {
        if !cut.is_split_turn {
            assert(agent_message_views(turn_prefix_messages@)
                =~= Seq::<AgentMessageView>::empty());
        }
    }
    Ok(
        Some(
            CompactionPreparation {
                messages_to_summarize,
                turn_prefix_messages,
                retained_tail,
                is_split_turn: cut.is_split_turn,
                tokens_before,
                previous_summary,
                file_ops,
                settings,
            },
        ),
    )
}

/// Whether the sizes that a compaction counts fit the machine.
pub fn can_prepare_compaction(path_entries: &Vec<Entry>, settings: CompactionSettings) -> (r: bool)
    ensures
        r == branch_countable(path_entries@, settings),
{
    let n: usize = path_entries.len();
    if n == 0 || path_entries[n - 1].entry_type() == EntryType::Compaction {
        return true;
    }
    let context: SessionContext = build_default_context(path_entries);
    if !can_count(&context.messages) {
        return false;
    }
    let Working { entries, .. } = working_entries(path_entries);
    entries.len() <= isize::MAX as usize && can_find_cut(
        &entries,
        0,
        entries.len(),
        settings.keep_recent_tokens,
    )
}

/// Prepares the compaction of a branch; none where its sizes do not fit the
/// machine.
pub fn try_prepare_compaction(path_entries: &Vec<Entry>, settings: CompactionSettings) -> (r: Option<
    Result<Option<CompactionPreparation>, CompactionError>,
>)
    ensures
        match r {
            Some(prepared_branch) => branch_countable(path_entries@, settings) && (prepared_branch matches Ok(
                found,
            ) && match found {
                Some(preparation) => !nothing_to_compact(path_entries@) && preparation@
                    == prepared(path_entries@, settings),
                None => nothing_to_compact(path_entries@),
            }),
            None => !branch_countable(path_entries@, settings),
        },
{
    if can_prepare_compaction(path_entries, settings) {
        Some(prepare_compaction(path_entries, settings))
    } else {
        None
    }
}

/// Compaction loses no message: what is summarized, the prefix of a split
/// turn, and what is kept are, one after the other, all messages that the
/// compaction works on.
pub proof fn law_compaction_partitions_messages(path: Seq<Entry>, settings: CompactionSettings)
    ensures
        ({
            let p = prepared(path, settings);
            p.messages_to_summarize + p.turn_prefix_messages + p.retained_tail == slot_messages(
                compactable(path),
            )
        }),
{
    let slots = compactable(path);
    let end = slots.len() as int;
    let budget = settings.keep_recent_tokens as nat;
    let cut = cut_point(slots, 0, end, budget);
    law_cuts_stay_inside(slots, 0, end, budget);
    let p = prepared(path, settings);
    if cut.2 {
        lemma_slot_messages_split(slots.subrange(0, cut.0), cut.1);
        assert(slots.subrange(0, cut.0).take(cut.1) =~= slots.subrange(0, cut.1));
        assert(slots.subrange(0, cut.0).skip(cut.1) =~= slots.subrange(cut.1, cut.0));
    } else {
        assert(p.messages_to_summarize + p.turn_prefix_messages =~= p.messages_to_summarize);
    }
    lemma_slot_messages_split(slots, cut.0);
    assert(slots.take(cut.0) =~= slots.subrange(0, cut.0));
    assert(slots.skip(cut.0) =~= slots.subrange(cut.0, end));
}

proof fn lemma_slot_messages_split(slots: Seq<Slot>, i: int)
    requires
        0 <= i <= slots.len(),
    ensures
        slot_messages(slots) == slot_messages(slots.take(i)) + slot_messages(slots.skip(i)),
    decreases slots.len(),
{
    if i == slots.len() {
        assert(slots.take(i) =~= slots);
        assert(slots.skip(i) =~= Seq::<Slot>::empty());
        assert(slot_messages(slots) =~= slot_messages(slots) + slot_messages(slots.skip(i)));
    } else {
        let shorter = slots.drop_last();
        lemma_slot_messages_split(shorter, i);
        assert(shorter.take(i) =~= slots.take(i));
        assert(shorter.skip(i) =~= slots.skip(i).drop_last());
        assert(slots.skip(i).last() == slots.last());
        assert(slot_messages(slots) =~= slot_messages(slots.take(i)) + slot_messages(
            slots.skip(i),
        ));
    }
}

// ---------------------------------------------------------------------------
// Requests
// ---------------------------------------------------------------------------

pub const SUMMARIZATION_SYSTEM_PROMPT: &'static str = "You are a context summarization assistant. Your task is to read a conversation between a user and an AI assistant, then produce a structured summary following the exact format specified.\n\nDo NOT continue the conversation. Do NOT respond to any questions in the conversation. ONLY output the structured summary.";

pub const SUMMARIZATION_PROMPT: &'static str = "The messages above are a conversation to summarize. Create a structured context checkpoint summary that another LLM will use to continue the work.\n\nUse this EXACT format:\n\n## Goal\n[What is the user trying to accomplish? Can be multiple items if the session covers different tasks.]\n\n## Constraints & Preferences\n- [Any constraints, preferences, or requirements mentioned by user]\n- [Or \"(none)\" if none were mentioned]\n\n## Progress\n### Done\n- [x] [Completed tasks/changes]\n\n### In Progress\n- [ ] [Current work]\n\n### Blocked\n- [Issues preventing progress, if any]\n\n## Key Decisions\n- **[Decision]**: [Brief rationale]\n\n## Next Steps\n1. [Ordered list of what should happen next]\n\n## Critical Context\n- [Any data, examples, or references needed to continue]\n- [Or \"(none)\" if not applicable]\n\nKeep each section concise. Preserve exact file paths, function names, and error messages.";

pub const UPDATE_SUMMARIZATION_PROMPT: &'static str = "The messages above are NEW conversation messages to incorporate into the existing summary provided in <previous-summary> tags.\n\nUpdate the existing structured summary with new information. RULES:\n- PRESERVE all existing information from the previous summary\n- ADD new progress, decisions, and context from the new messages\n- UPDATE the Progress section: move items from \"In Progress\" to \"Done\" when completed\n- UPDATE \"Next Steps\" based on what was accomplished\n- PRESERVE exact file paths, function names, and error messages\n- If something is no longer relevant, you may remove it\n\nUse this EXACT format:\n\n## Goal\n[Preserve existing goals, add new ones if the task expanded]\n\n## Constraints & Preferences\n- [Preserve existing, add new ones discovered]\n\n## Progress\n### Done\n- [x] [Include previously done items AND newly completed items]\n\n### In Progress\n- [ ] [Current work - update based on progress]\n\n### Blocked\n- [Current blockers - remove if resolved]\n\n## Key Decisions\n- **[Decision]**: [Brief rationale] (preserve all previous, add new)\n\n## Next Steps\n1. [Update based on current state]\n\n## Critical Context\n- [Preserve important context, add new if needed]\n\nKeep each section concise. Preserve exact file paths, function names, and error messages.";

pub const TURN_PREFIX_SUMMARIZATION_PROMPT: &'static str = "This is the PREFIX of a turn that was too large to keep. The SUFFIX (recent work) is retained.\n\nSummarize the prefix to provide context for the retained suffix:\n\n## Original Request\n[What did the user ask for in this turn?]\n\n## Early Progress\n- [Key decisions and work done in the prefix]\n\n## Context for Suffix\n- [Information needed to understand the retained recent work]\n\nBe concise. Focus on what's needed to understand the kept suffix.";

/// A conversation between tags.
pub open spec fn quoted_conversation(messages: Seq<AgentMessageView>) -> Seq<char> {
    "<conversation>\n"@ + conversation_text(llm_messages(messages)) + "\n</conversation>\n\n"@
}

/// What a model is asked for a summary.
pub open spec fn summary_prompt(
    messages: Seq<AgentMessageView>,
    custom_instructions: Option<Seq<char>>,
    previous_summary: Option<Seq<char>>,
) -> Seq<char> {
    let task = if previous_summary is Some {
        UPDATE_SUMMARIZATION_PROMPT@
    } else {
        SUMMARIZATION_PROMPT@
    };
    let focus = match custom_instructions {
        Some(text) => "\n\nAdditional focus: "@ + text,
        None => ""@,
    };
    let previous = match previous_summary {
        Some(text) => "<previous-summary>\n"@ + text + "\n</previous-summary>\n\n"@,
        None => ""@,
    };
    quoted_conversation(messages) + previous + task + focus
}

/// What a model is asked for a summary of the beginning of a turn.
pub open spec fn turn_prefix_prompt(messages: Seq<AgentMessageView>) -> Seq<char> {
    quoted_conversation(messages) + TURN_PREFIX_SUMMARIZATION_PROMPT@
}

/// Whether a conversation can be quoted in a request.
pub open spec fn quotable(messages: Seq<AgentMessageView>) -> bool {
    serializable(llm_messages(messages))
}

/// Whether a conversation can be quoted in a request.
pub fn can_quote(messages: &Vec<AgentMessage>) -> (r: bool)
    ensures
        r == quotable(agent_message_views(messages@)),
{
    crate::compaction::utils::can_serialize(&convert_to_llm(messages))
}

/// A conversation between tags.
pub fn quote_conversation(messages: &Vec<AgentMessage>) -> (r: String)
    requires
        quotable(agent_message_views(messages@)),
    ensures
        r@ == quoted_conversation(agent_message_views(messages@)),
{
    let llm: Vec<Message> = convert_to_llm(messages);
    let text: String = serialize_conversation(&llm);
    concat3("<conversation>\n", text.as_str(), "\n</conversation>\n\n")
}

/// What a model is asked for a summary.
pub fn build_summary_prompt(
    messages: &Vec<AgentMessage>,
    custom_instructions: &Option<String>,
    previous_summary: &Option<String>,
) -> (r: String)
    requires
        quotable(agent_message_views(messages@)),
    ensures
        r@ == summary_prompt(
            agent_message_views(messages@),
            text_of_option(*custom_instructions),
            text_of_option(*previous_summary),
        ),
{
    let quoted: String = quote_conversation(messages);
    let task: &'static str = match previous_summary {
        Some(_) => UPDATE_SUMMARIZATION_PROMPT,
        None => SUMMARIZATION_PROMPT,
    };
    let focus: String = match custom_instructions {
        Some(text) => concat2("\n\nAdditional focus: ", text.as_str()),
        None => "".to_owned(),
    };
    let previous: String = match previous_summary {
        Some(text) => concat3("<previous-summary>\n", text.as_str(), "\n</previous-summary>\n\n"),
        None => "".to_owned(),
    };
    concat4(quoted.as_str(), previous.as_str(), task, focus.as_str())
}

/// What a model is asked for a summary of the beginning of a turn.
pub fn build_turn_prefix_prompt(messages: &Vec<AgentMessage>) -> (r: String)
    requires
        quotable(agent_message_views(messages@)),
    ensures
        r@ == turn_prefix_prompt(agent_message_views(messages@)),
{
    let quoted: String = quote_conversation(messages);
    concat2(quoted.as_str(), TURN_PREFIX_SUMMARIZATION_PROMPT)
}

/// How many tokens a summary may take: a share of the reserve, but no more
/// than the model can produce, where that is known.
pub fn summary_token_limit(share: u64, model_max_tokens: u64) -> (r: u64)
    ensures
        r == if model_max_tokens > 0 && model_max_tokens < share {
            model_max_tokens
        } else {
            share
        },
{
    if model_max_tokens > 0 && model_max_tokens < share {
        model_max_tokens
    } else {
        share
    }
}

/// How much reasoning is asked of the model for a summary.
pub fn summary_reasoning(model_reasons: bool, level: Option<ThinkingLevel>) -> (r: Option<
    ThinkingLevel,
>)
    ensures
        r == if model_reasons && level != Some(ThinkingLevel::Off) {
            level
        } else {
            None
        },
{
    if !model_reasons {
        return None;
    }
    match level {
        Some(ThinkingLevel::Off) => None,
        other => other,
    }
}

// ---------------------------------------------------------------------------
// Answers
// ---------------------------------------------------------------------------

/// A text, or another where it is missing.
pub open spec fn text_or(text: Option<Seq<char>>, other: Seq<char>) -> Seq<char> {
    match text {
        Some(t) => t,
        None => other,
    }
}

/// What becomes of the answer to a request for a summary. `subject` names the
/// request in errors.
pub open spec fn summary_answer(response: AssistantMessage, subject: Seq<char>) -> Result<
    Seq<char>,
    CompactionErrorView,
> {
    if response.stop_reason == StopReason::Aborted {
        Err(
            CompactionErrorView {
                code: CompactionErrorCode::Aborted,
                message: text_or(text_of_option(response.error_message), subject + " aborted"@),
            },
        )
    } else if response.stop_reason == StopReason::Error {
        Err(
            CompactionErrorView {
                code: CompactionErrorCode::SummarizationFailed,
                message: subject + " failed: "@ + text_or(
                    text_of_option(response.error_message),
                    "Unknown error"@,
                ),
            },
        )
    } else {
        Ok(join(assistant_texts(response.content@), "\n"@))
    }
}

fn text_or_else(text: &Option<String>, other: &str) -> (r: String)
    ensures
        r@ == text_or(text_of_option(*text), other@),
{
    match text {
        Some(t) => t.clone(),
        None => other.to_owned(),
    }
}

fn read_answer(response: &AssistantMessage, subject: &str) -> (r: Result<
    (String, Usage),
    CompactionError,
>)
    ensures
        match r {
            Ok(found) => summary_answer(*response, subject@) == Ok::<
                Seq<char>,
                CompactionErrorView,
            >(found.0@) && found.1 == response.usage,
            Err(e) => summary_answer(*response, subject@) == Err::<
                Seq<char>,
                CompactionErrorView,
            >(e@),
        },
{
    if response.stop_reason == StopReason::Aborted {
        let fallback: String = concat2(subject, " aborted");
        return Err(
            CompactionError::new(
                CompactionErrorCode::Aborted,
                text_or_else(&response.error_message, fallback.as_str()),
            ),
        );
    }
    if response.stop_reason == StopReason::Error {
        let reason: String = text_or_else(&response.error_message, "Unknown error");
        return Err(
            CompactionError::new(
                CompactionErrorCode::SummarizationFailed,
                concat3(subject, " failed: ", reason.as_str()),
            ),
        );
    }
    Ok((assistant_text(&response.content, "\n"), response.usage))
}

/// What becomes of the answer to a request for a summary of the history.
pub fn read_summary(response: &AssistantMessage) -> (r: Result<(String, Usage), CompactionError>)
    ensures
        match r {
            Ok(found) => summary_answer(*response, "Summarization"@) == Ok::<
                Seq<char>,
                CompactionErrorView,
            >(found.0@) && found.1 == response.usage,
            Err(e) => summary_answer(*response, "Summarization"@) == Err::<
                Seq<char>,
                CompactionErrorView,
            >(e@),
        },
{
    read_answer(response, "Summarization")
}

/// What becomes of the answer to a request for a summary of the beginning of
/// a turn.
pub fn read_turn_prefix_summary(response: &AssistantMessage) -> (r: Result<
    (String, Usage),
    CompactionError,
>)
    ensures
        match r {
            Ok(found) => summary_answer(*response, "Turn prefix summarization"@) == Ok::<
                Seq<char>,
                CompactionErrorView,
            >(found.0@) && found.1 == response.usage,
            Err(e) => summary_answer(*response, "Turn prefix summarization"@) == Err::<
                Seq<char>,
                CompactionErrorView,
            >(e@),
        },
{
    read_answer(response, "Turn prefix summarization")
}

// ---------------------------------------------------------------------------
// Compaction
// ---------------------------------------------------------------------------

/// The sum of two counts of which each may be missing; missing only where
/// both are.
pub open spec fn optional_sum(a: Option<u64>, b: Option<u64>) -> Option<int> {
    match (a, b) {
        (None, None) => None,
        (Some(x), None) => Some(x as int),
        (None, Some(y)) => Some(y as int),
        (Some(x), Some(y)) => Some(x + y),
    }
}

/// Whether two usages can be added up.
pub open spec fn addable(first: Usage, second: Usage) -> bool {
    &&& first.input + second.input <= u64::MAX
    &&& first.output + second.output <= u64::MAX
    &&& first.cache_read + second.cache_read <= u64::MAX
    &&& first.cache_write + second.cache_write <= u64::MAX
    &&& first.total_tokens + second.total_tokens <= u64::MAX
    &&& optional_sum(first.cache_write_1h, second.cache_write_1h) matches Some(n) ==> n
        <= u64::MAX
    &&& optional_sum(first.reasoning, second.reasoning) matches Some(n) ==> n <= u64::MAX
}

fn add_optional(a: Option<u64>, b: Option<u64>) -> (r: Option<u64>)
    requires
        optional_sum(a, b) matches Some(n) ==> n <= u64::MAX,
    ensures
        match r {
            Some(n) => optional_sum(a, b) == Some(n as int),
            None => optional_sum(a, b) is None,
        },
{
    match (a, b) {
        (None, None) => None,
        (Some(x), None) => Some(x),
        (None, Some(y)) => Some(y),
        (Some(x), Some(y)) => Some(x + y),
    }
}

/// The sum of two usages. `cost` is the sum of their costs.
pub fn combine_usage(first: &Usage, second: &Usage, cost: UsageCost) -> (r: Usage)
    requires
        addable(*first, *second),
    ensures
        r.input == first.input + second.input,
        r.output == first.output + second.output,
        r.cache_read == first.cache_read + second.cache_read,
        r.cache_write == first.cache_write + second.cache_write,
        r.total_tokens == first.total_tokens + second.total_tokens,
        match r.cache_write_1h {
            Some(n) => optional_sum(first.cache_write_1h, second.cache_write_1h) == Some(n as int),
            None => optional_sum(first.cache_write_1h, second.cache_write_1h) is None,
        },
        match r.reasoning {
            Some(n) => optional_sum(first.reasoning, second.reasoning) == Some(n as int),
            None => optional_sum(first.reasoning, second.reasoning) is None,
        },
        r.cost == cost,
{
    Usage {
        input: first.input + second.input,
        output: first.output + second.output,
        cache_read: first.cache_read + second.cache_read,
        cache_write: first.cache_write + second.cache_write,
        cache_write_1h: add_optional(first.cache_write_1h, second.cache_write_1h),
        reasoning: add_optional(first.reasoning, second.reasoning),
        total_tokens: first.total_tokens + second.total_tokens,
        cost,
    }
}

/// What a compaction asks for next.
#[derive(Clone, Copy, PartialEq, Eq, Structural, Debug)]
pub enum CompactionStep {
    SummarizeHistory,
    SummarizeTurnPrefix,
    Finish,
}

/// Whether the beginning of a turn is summarized on its own.
pub open spec fn splits_turn(p: PreparationView) -> bool {
    p.is_split_turn && p.turn_prefix_messages.len() > 0
}

/// What a compaction asks for next, given which answers it has. The history
/// of a split turn is only summarized where there is one.
pub open spec fn next_step(p: PreparationView, has_history: bool, has_prefix: bool) -> CompactionStep {
    if splits_turn(p) {
        if p.messages_to_summarize.len() > 0 && !has_history {
            CompactionStep::SummarizeHistory
        } else if !has_prefix {
            CompactionStep::SummarizeTurnPrefix
        } else {
            CompactionStep::Finish
        }
    } else if !has_history {
        CompactionStep::SummarizeHistory
    } else {
        CompactionStep::Finish
    }
}

/// What a compaction asks for next, given which answers it has.
pub fn next_compaction_step(
    preparation: &CompactionPreparation,
    has_history: bool,
    has_prefix: bool,
) -> (r: CompactionStep)
    ensures
        r == next_step(preparation@, has_history, has_prefix),
{
    if preparation.is_split_turn && preparation.turn_prefix_messages.len() > 0 {
        if preparation.messages_to_summarize.len() > 0 && !has_history {
            CompactionStep::SummarizeHistory
        } else if !has_prefix {
            CompactionStep::SummarizeTurnPrefix
        } else {
            CompactionStep::Finish
        }
    } else if !has_history {
        CompactionStep::SummarizeHistory
    } else {
        CompactionStep::Finish
    }
}

/// The data of a finished compaction.
pub struct CompactResult {
    pub summary: String,
    pub tokens_before: u64,
    pub usage: Usage,
    pub retained_tail: Vec<AgentMessage>,
    pub details: CompactionDetails,
}

/// The summary without the file lists.
pub open spec fn summary_body(history: Option<Seq<char>>, prefix: Option<Seq<char>>) -> Seq<char> {
    match prefix {
        Some(text) => text_or(history, "No prior history."@)
            + "\n\n---\n\n**Turn Context (split turn):**\n\n"@ + text,
        None => text_or(history, ""@),
    }
}

/// Makes the answers of a compaction into its data. `usage` is what the
/// requests used together.
pub fn finish_compaction(
    preparation: CompactionPreparation,
    history: Option<String>,
    prefix: Option<String>,
    usage: Usage,
) -> (r: CompactResult)
    requires
        next_step(preparation@, history is Some, prefix is Some) == CompactionStep::Finish,
        prefix is Some ==> splits_turn(preparation@),
    ensures
        lists(r.details@.read_files, read_only_set(preparation@.files)),
        lists(r.details@.modified_files, modified_set(preparation@.files)),
        r.summary@ == summary_body(text_of_option(history), text_of_option(prefix))
            + file_lists_text(r.details@.read_files, r.details@.modified_files),
        r.tokens_before == preparation.tokens_before,
        r.usage == usage,
        r.retained_tail == preparation.retained_tail,
{
    let body: String = match &prefix {
        Some(text) => {
            let before: String = text_or_else(&history, "No prior history.");
            concat3(
                before.as_str(),
                "\n\n---\n\n**Turn Context (split turn):**\n\n",
                text.as_str(),
            )
        },
        None => text_or_else(&history, ""),
    };
    let (read_files, modified_files): (Vec<String>, Vec<String>) = compute_file_lists(
        &preparation.file_ops,
    );
    let files: String = format_file_operations(&read_files, &modified_files);
    CompactResult {
        summary: concat2(body.as_str(), files.as_str()),
        tokens_before: preparation.tokens_before,
        usage,
        retained_tail: preparation.retained_tail,
        details: CompactionDetails { read_files, modified_files },
    }
}

} // verus!

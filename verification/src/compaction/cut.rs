//! Where a conversation is cut when it is compacted.

use vstd::prelude::*;

use crate::compaction::estimate::{
    count_chars, estimate_tokens, message_chars, message_tokens,
};
use crate::messages::{branch_summary_view, compaction_summary_view, create_branch_summary_message};
use crate::session::types::{Entry, EntryType};
use crate::text::same_text;
use crate::types::{AgentMessage, AgentMessageView};

verus! {

/// What a cut sees of an entry.
pub enum Slot {
    Message(AgentMessageView),
    Branch(AgentMessageView),
    Compaction(AgentMessageView),
    Other,
}

/// What a cut sees of an entry.
pub open spec fn slot_of(entry: Entry) -> Slot {
    match entry {
        Entry::Message { message, .. } => Slot::Message(message@),
        Entry::BranchSummary { summary, from_id, timestamp, .. } => Slot::Branch(
            branch_summary_view(summary@, from_id@, timestamp as int),
        ),
        Entry::Compaction { summary, tokens_before, timestamp, .. } => Slot::Compaction(
            compaction_summary_view(summary@, tokens_before as nat, timestamp as int),
        ),
        _ => Slot::Other,
    }
}

/// What a cut sees of some entries.
pub open spec fn slots_of(entries: Seq<Entry>) -> Seq<Slot> {
    Seq::new(entries.len(), |i: int| slot_of(entries[i]))
}

/// The message that an entry stands for, unless it is a compaction.
pub open spec fn slot_message(slot: Slot) -> Option<AgentMessageView> {
    match slot {
        Slot::Message(m) => Some(m),
        Slot::Branch(m) => Some(m),
        _ => None,
    }
}

/// The messages that entries stand for.
pub open spec fn slot_messages(slots: Seq<Slot>) -> Seq<AgentMessageView>
    decreases slots.len(),
{
    if slots.len() == 0 {
        Seq::empty()
    } else {
        match slot_message(slots.last()) {
            Some(m) => slot_messages(slots.drop_last()).push(m),
            None => slot_messages(slots.drop_last()),
        }
    }
}

/// Whether a conversation can be cut in front of a message.
pub open spec fn can_cut_before(message: AgentMessageView) -> bool {
    match message {
        AgentMessageView::User { .. } => true,
        AgentMessageView::Assistant(_) => true,
        AgentMessageView::ToolResult(_) => false,
        AgentMessageView::Custom { role, .. } => role == "bashExecution"@ || role == "custom"@
            || role == "branchSummary"@ || role == "compactionSummary"@,
    }
}

/// Whether a conversation can be cut in front of an entry.
pub open spec fn is_cut_point(slot: Slot) -> bool {
    match slot {
        Slot::Message(m) => can_cut_before(m),
        Slot::Branch(_) => true,
        _ => false,
    }
}

/// The first cut point from a position on.
pub open spec fn first_cut(slots: Seq<Slot>, from: int, end: int) -> Option<int>
    decreases end - from,
{
    if from < 0 || from >= end {
        None
    } else if is_cut_point(slots[from]) {
        Some(from)
    } else {
        first_cut(slots, from + 1, end)
    }
}

/// The tokens that each entry is estimated at; only messages count.
pub open spec fn slot_tokens(slot: Slot) -> nat {
    match slot {
        Slot::Message(m) => message_tokens(m),
        _ => 0,
    }
}

/// Going back from `end`, the first message with which the budget is reached,
/// `spent` of it having been used before.
pub open spec fn budget_reached(
    slots: Seq<Slot>,
    start: int,
    end: int,
    budget: nat,
    spent: nat,
) -> Option<int>
    decreases end,
{
    if end <= start || end <= 0 {
        None
    } else {
        let now = spent + slot_tokens(slots[end - 1]);
        if slots[end - 1] is Message && now >= budget {
            Some(end - 1)
        } else {
            budget_reached(slots, start, end - 1, budget, now)
        }
    }
}

/// Whether the tokens of the messages, going back from `end`, can be added up
/// until the budget is reached.
pub open spec fn budget_countable(
    slots: Seq<Slot>,
    start: int,
    end: int,
    budget: nat,
    spent: nat,
) -> bool
    decreases end,
{
    if end <= start || end <= 0 {
        true
    } else {
        match slots[end - 1] {
            Slot::Message(m) => {
                let now = spent + message_tokens(m);
                message_chars(m) <= usize::MAX && now <= u64::MAX && (now >= budget
                    || budget_countable(slots, start, end - 1, budget, now))
            },
            _ => budget_countable(slots, start, end - 1, budget, spent),
        }
    }
}

/// Whether a cut can be looked for. Nothing is counted where there is no cut
/// point.
pub open spec fn cut_countable(slots: Seq<Slot>, start: int, end: int, budget: nat) -> bool {
    first_cut(slots, start, end) is None || budget_countable(slots, start, end, budget, 0)
}

/// The cut moved back over entries that are neither messages nor compactions.
pub open spec fn settled(slots: Seq<Slot>, start: int, at: int) -> int
    decreases at - start,
{
    if at <= start || slots[at - 1] is Message || slots[at - 1] is Compaction {
        at
    } else {
        settled(slots, start, at - 1)
    }
}

/// Whether a turn starts at an entry.
pub open spec fn starts_turn(slot: Slot) -> bool {
    match slot {
        Slot::Branch(_) => true,
        Slot::Message(m) => match m {
            AgentMessageView::User { .. } => true,
            AgentMessageView::Custom { role, .. } => role == "bashExecution"@,
            _ => false,
        },
        _ => false,
    }
}

/// The last entry up to a position at which a turn starts, or minus one.
pub open spec fn turn_start(slots: Seq<Slot>, at: int, start: int) -> int
    decreases at - start + 1,
{
    if at < start || at < 0 {
        -1
    } else if starts_turn(slots[at]) {
        at
    } else {
        turn_start(slots, at - 1, start)
    }
}

/// Where a conversation is cut.
#[derive(Clone, Copy, PartialEq, Eq, Structural, Debug)]
pub struct CutPointResult {
    pub first_kept_entry_index: usize,
    pub turn_start_index: isize,
    pub is_split_turn: bool,
}

/// Where the kept part begins: at the first cut point from the message on
/// with which the budget is reached, or else at the first cut point of all,
/// moved back over entries that hold no message.
pub open spec fn cut_index(slots: Seq<Slot>, start: int, end: int, budget: nat) -> int {
    let first = first_cut(slots, start, end).unwrap();
    let reached = match budget_reached(slots, start, end, budget, 0) {
        Some(i) => match first_cut(slots, i, end) {
            Some(cut) => cut,
            None => first,
        },
        None => first,
    };
    settled(slots, start, reached)
}

/// Whether an entry is a message of the user.
pub open spec fn is_user_slot(slot: Slot) -> bool {
    match slot {
        Slot::Message(m) => m is User,
        _ => false,
    }
}

/// Where a conversation is cut so that about `budget` tokens of it are kept.
pub open spec fn cut_point(slots: Seq<Slot>, start: int, end: int, budget: nat) -> (int, int, bool) {
    if first_cut(slots, start, end) is None {
        (start, -1, false)
    } else {
        let cut = cut_index(slots, start, end, budget);
        let turn = if is_user_slot(slots[cut]) {
            -1
        } else {
            turn_start(slots, cut, start)
        };
        (cut, turn, !is_user_slot(slots[cut]) && turn != -1)
    }
}

impl CutPointResult {
    /// The cut in terms of mathematical values.
    pub open spec fn view(&self) -> (int, int, bool) {
        (
            self.first_kept_entry_index as int,
            self.turn_start_index as int,
            self.is_split_turn,
        )
    }
}

proof fn lemma_first_cut(slots: Seq<Slot>, from: int, end: int)
    ensures
        first_cut(slots, from, end) matches Some(i) ==> from <= i < end && is_cut_point(slots[i]),
    decreases end - from,
{
    if 0 <= from < end && !is_cut_point(slots[from]) {
        lemma_first_cut(slots, from + 1, end);
    }
}

proof fn lemma_settled(slots: Seq<Slot>, start: int, at: int)
    requires
        start <= at,
    ensures
        start <= settled(slots, start, at) <= at,
        forall|k: int|
            settled(slots, start, at) <= k < at ==> !(#[trigger] slots[k] is Message)
                && !(slots[k] is Compaction),
    decreases at - start,
{
    if at > start && !(slots[at - 1] is Message || slots[at - 1] is Compaction) {
        lemma_settled(slots, start, at - 1);
    }
}

/// A turn starts inside the searched range, if anywhere.
pub proof fn lemma_turn_start(slots: Seq<Slot>, at: int, start: int)
    requires
        0 <= start,
    ensures
        turn_start(slots, at, start) == -1 || start <= turn_start(slots, at, start) <= at,
    decreases at - start + 1,
{
    if at >= start && !starts_turn(slots[at]) {
        lemma_turn_start(slots, at - 1, start);
    }
}

/// A cut lies inside the range that is cut, and the turn that it splits
/// starts before it.
pub proof fn law_cuts_stay_inside(slots: Seq<Slot>, start: int, end: int, budget: nat)
    requires
        0 <= start <= end <= slots.len(),
    ensures
        ({
            let (cut, turn, split) = cut_point(slots, start, end, budget);
            &&& start <= cut <= end
            &&& split ==> start <= turn <= cut
        }),
{
    lemma_first_cut(slots, start, end);
    if first_cut(slots, start, end) is Some {
        lemma_budget(slots, start, end, budget, 0);
        if let Some(i) = budget_reached(slots, start, end, budget, 0) {
            lemma_first_cut(slots, i, end);
        }
        let first = first_cut(slots, start, end).unwrap();
        let reached = match budget_reached(slots, start, end, budget, 0) {
            Some(i) => match first_cut(slots, i, end) {
                Some(cut) => cut,
                None => first,
            },
            None => first,
        };
        lemma_settled(slots, start, reached);
        lemma_turn_start(slots, cut_index(slots, start, end, budget), start);
    }
}

/// What is kept does not begin with the result of a tool whose call was cut
/// away: before any other message or compaction it holds an entry in front of
/// which a conversation can be cut.
pub proof fn law_kept_parts_begin_at_a_cut_point(
    slots: Seq<Slot>,
    start: int,
    end: int,
    budget: nat,
) -> (j: int)
    requires
        0 <= start <= end <= slots.len(),
        first_cut(slots, start, end) is Some,
    ensures
        cut_index(slots, start, end, budget) <= j < end,
        is_cut_point(slots[j]),
        forall|k: int|
            cut_index(slots, start, end, budget) <= k < j ==> !(#[trigger] slots[k] is Message)
                && !(slots[k] is Compaction),
{
    lemma_first_cut(slots, start, end);
    lemma_budget(slots, start, end, budget, 0);
    if let Some(i) = budget_reached(slots, start, end, budget, 0) {
        lemma_first_cut(slots, i, end);
    }
    let first = first_cut(slots, start, end).unwrap();
    let reached = match budget_reached(slots, start, end, budget, 0) {
        Some(i) => match first_cut(slots, i, end) {
            Some(cut) => cut,
            None => first,
        },
        None => first,
    };
    lemma_settled(slots, start, reached);
    reached
}

proof fn lemma_budget(slots: Seq<Slot>, start: int, end: int, budget: nat, spent: nat)
    requires
        0 <= start,
    ensures
        budget_reached(slots, start, end, budget, spent) matches Some(i) ==> start <= i < end
            && slots[i] is Message,
    decreases end,
{
    if end > start {
        let now = spent + slot_tokens(slots[end - 1]);
        if !(slots[end - 1] is Message && now >= budget) {
            lemma_budget(slots, start, end - 1, budget, now);
        }
    }
}

// ---------------------------------------------------------------------------
// Search
// ---------------------------------------------------------------------------

/// Whether a conversation can be cut in front of a message.
pub fn is_valid_cut_message_role(message: &AgentMessage) -> (r: bool)
    ensures
        r == can_cut_before(message@),
{
    match message {
        AgentMessage::User(_) => true,
        AgentMessage::Assistant(_) => true,
        AgentMessage::ToolResult(_) => false,
        AgentMessage::Custom(m) => {
            let role: &str = m.role.as_str();
            same_text(role, "bashExecution") || same_text(role, "custom") || same_text(
                role,
                "branchSummary",
            ) || same_text(role, "compactionSummary")
        },
    }
}

fn cut_allowed(entry: &Entry) -> (r: bool)
    ensures
        r == is_cut_point(slot_of(*entry)),
{
    match entry {
        Entry::Message { message, .. } => is_valid_cut_message_role(message),
        Entry::BranchSummary { .. } => true,
        _ => false,
    }
}

fn find_first_cut(entries: &Vec<Entry>, from: usize, end: usize) -> (r: Option<usize>)
    requires
        end <= entries@.len(),
    ensures
        match r {
            Some(i) => first_cut(slots_of(entries@), from as int, end as int) == Some(i as int)
                && from <= i < end,
            None => first_cut(slots_of(entries@), from as int, end as int) is None,
        },
{
    let mut i: usize = from;
    while i < end
        invariant
            from <= i,
            end <= entries@.len(),
            first_cut(slots_of(entries@), from as int, end as int) == first_cut(
                slots_of(entries@),
                i as int,
                end as int,
            ),
        decreases end - i,
    {
        if cut_allowed(&entries[i]) {
            return Some(i);
        }
        i = i + 1;
    }
    None
}

fn find_budget(entries: &Vec<Entry>, start: usize, end: usize, budget: u64) -> (r: Option<usize>)
    requires
        end <= entries@.len(),
        budget_countable(slots_of(entries@), start as int, end as int, budget as nat, 0),
    ensures
        match r {
            Some(i) => budget_reached(
                slots_of(entries@),
                start as int,
                end as int,
                budget as nat,
                0,
            ) == Some(i as int) && start <= i < end,
            None => budget_reached(
                slots_of(entries@),
                start as int,
                end as int,
                budget as nat,
                0,
            ) is None,
        },
{
    let ghost slots = slots_of(entries@);
    let mut spent: u64 = 0;
    let mut i: usize = end;
    while i > start
        invariant
            i <= end <= entries@.len(),
            slots == slots_of(entries@),
            budget_countable(slots, start as int, i as int, budget as nat, spent as nat),
            budget_reached(slots, start as int, end as int, budget as nat, 0) == budget_reached(
                slots,
                start as int,
                i as int,
                budget as nat,
                spent as nat,
            ),
        decreases i,
    {
        if let Entry::Message { message, .. } = &entries[i - 1] {
            proof {
                assert(slots[i as int - 1] == Slot::Message(message@));
            }
            spent = spent + estimate_tokens(message);
            if spent >= budget {
                return Some(i - 1);
            }
        }
        i = i - 1;
    }
    None
}

fn can_spend(entries: &Vec<Entry>, start: usize, end: usize, budget: u64) -> (r: bool)
    requires
        end <= entries@.len(),
    ensures
        r == budget_countable(slots_of(entries@), start as int, end as int, budget as nat, 0),
{
    let ghost slots = slots_of(entries@);
    let ghost whole = budget_countable(slots, start as int, end as int, budget as nat, 0);
    let mut spent: u64 = 0;
    let mut i: usize = end;
    while i > start
        invariant
            i <= end <= entries@.len(),
            slots == slots_of(entries@),
            whole == budget_countable(slots, start as int, end as int, budget as nat, 0),
            whole == budget_countable(slots, start as int, i as int, budget as nat, spent as nat),
        decreases i,
    {
        if let Entry::Message { message, .. } = &entries[i - 1] {
            proof {
                assert(slots[i as int - 1] == Slot::Message(message@));
            }
            if count_chars(message).is_none() {
                return false;
            }
            match spent.checked_add(estimate_tokens(message)) {
                Some(now) => {
                    if now >= budget {
                        return true;
                    }
                    spent = now;
                },
                None => {
                    return false;
                },
            }
        }
        i = i - 1;
    }
    true
}

/// Whether a cut can be looked for.
pub fn can_find_cut(
    entries: &Vec<Entry>,
    start_index: usize,
    end_index: usize,
    keep_recent_tokens: u64,
) -> (r: bool)
    requires
        end_index <= entries@.len(),
    ensures
        r == cut_countable(
            slots_of(entries@),
            start_index as int,
            end_index as int,
            keep_recent_tokens as nat,
        ),
{
    find_first_cut(entries, start_index, end_index).is_none() || can_spend(
        entries,
        start_index,
        end_index,
        keep_recent_tokens,
    )
}

fn begins_turn(entry: &Entry) -> (r: bool)
    ensures
        r == starts_turn(slot_of(*entry)),
{
    match entry {
        Entry::BranchSummary { .. } => true,
        Entry::Message { message, .. } => match message {
            AgentMessage::User(_) => true,
            AgentMessage::Custom(m) => same_text(m.role.as_str(), "bashExecution"),
            _ => false,
        },
        _ => false,
    }
}

/// The last entry up to a position at which a turn starts, or minus one.
pub fn find_turn_start_index(entries: &Vec<Entry>, entry_index: usize, start_index: usize) -> (r:
    isize)
    requires
        entry_index < entries@.len() <= isize::MAX,
    ensures
        r == turn_start(slots_of(entries@), entry_index as int, start_index as int),
{
    let ghost slots = slots_of(entries@);
    if entry_index < start_index {
        return -1;
    }
    let mut i: usize = entry_index;
    while i > start_index
        invariant
            start_index <= i <= entry_index < entries@.len() <= isize::MAX,
            slots == slots_of(entries@),
            turn_start(slots, entry_index as int, start_index as int) == turn_start(
                slots,
                i as int,
                start_index as int,
            ),
        decreases i,
    {
        if begins_turn(&entries[i]) {
            return i as isize;
        }
        i = i - 1;
    }
    if begins_turn(&entries[i]) {
        return i as isize;
    }
    proof {
        assert(turn_start(slots, i as int, start_index as int) == turn_start(
            slots,
            i as int - 1,
            start_index as int,
        ));
    }
    -1
}

/// Where a conversation is cut so that about the given number of tokens of it
/// are kept.
pub fn find_cut_point(
    entries: &Vec<Entry>,
    start_index: usize,
    end_index: usize,
    keep_recent_tokens: u64,
) -> (r: CutPointResult)
    requires
        end_index <= entries@.len() <= isize::MAX,
        cut_countable(
            slots_of(entries@),
            start_index as int,
            end_index as int,
            keep_recent_tokens as nat,
        ),
    ensures
        r@ == cut_point(
            slots_of(entries@),
            start_index as int,
            end_index as int,
            keep_recent_tokens as nat,
        ),
{
    let ghost slots = slots_of(entries@);
    let first: usize = match find_first_cut(entries, start_index, end_index) {
        Some(i) => i,
        None => {
            return CutPointResult {
                first_kept_entry_index: start_index,
                turn_start_index: -1,
                is_split_turn: false,
            };
        },
    };
    let mut cut: usize = first;
    if let Some(i) = find_budget(entries, start_index, end_index, keep_recent_tokens) {
        if let Some(later) = find_first_cut(entries, i, end_index) {
            cut = later;
        }
    }
    let ghost reached = cut as int;
    while cut > start_index && entries[cut - 1].entry_type() != EntryType::Message && entries[cut
        - 1].entry_type() != EntryType::Compaction
        invariant
            start_index <= cut <= reached < end_index <= entries@.len(),
            slots == slots_of(entries@),
            settled(slots, start_index as int, reached) == settled(
                slots,
                start_index as int,
                cut as int,
            ),
        decreases cut,
    {
        cut = cut - 1;
    }
    let is_user: bool = match &entries[cut] {
        Entry::Message { message: AgentMessage::User(_), .. } => true,
        _ => false,
    };
    let turn: isize = if is_user {
        -1
    } else {
        find_turn_start_index(entries, cut, start_index)
    };
    CutPointResult {
        first_kept_entry_index: cut,
        turn_start_index: turn,
        is_split_turn: !is_user && turn != -1,
    }
}

/// The message that an entry stands for, unless it is a compaction.
pub fn get_message_from_entry_for_compaction(entry: &Entry) -> (r: Option<AgentMessage>)
    ensures
        match r {
            Some(m) => slot_message(slot_of(*entry)) == Some(m@),
            None => slot_message(slot_of(*entry)) is None,
        },
{
    match entry {
        Entry::Message { message, .. } => Some(message.clone()),
        Entry::BranchSummary { summary, from_id, timestamp, .. } => Some(
            create_branch_summary_message(summary.clone(), from_id.clone(), *timestamp),
        ),
        _ => None,
    }
}

/// The messages that a range of entries stands for.
pub fn collect_messages(entries: &Vec<Entry>, from: usize, to: usize) -> (r: Vec<AgentMessage>)
    requires
        from <= to <= entries@.len(),
    ensures
        crate::types::agent_message_views(r@) == slot_messages(
            slots_of(entries@).subrange(from as int, to as int),
        ),
{
    let ghost slots = slots_of(entries@);
    let mut out: Vec<AgentMessage> = Vec::new();
    let mut i: usize = from;
    proof {
        assert(crate::types::agent_message_views(out@) =~= slot_messages(
            slots.subrange(from as int, from as int),
        ));
    }
    while i < to
        invariant
            from <= i <= to <= entries@.len(),
            slots == slots_of(entries@),
            crate::types::agent_message_views(out@) == slot_messages(
                slots.subrange(from as int, i as int),
            ),
        decreases to - i,
    {
        let ghost before = out@;
        proof {
            let longer = slots.subrange(from as int, i as int + 1);
            assert(longer.drop_last() =~= slots.subrange(from as int, i as int));
            assert(longer.last() == slot_of(entries@[i as int]));
        }
        if let Some(message) = get_message_from_entry_for_compaction(&entries[i]) {
            out.push(message);
            proof {
                assert(crate::types::agent_message_views(out@)
                    =~= crate::types::agent_message_views(before).push(message@));
            }
        }
        i = i + 1;
    }
    out
}

} // verus!

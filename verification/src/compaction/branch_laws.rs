//! What holds of the summary of a branch that is left: which entries it is of,
//! how much of them is read, and what is asked for.

use vstd::prelude::*;

use crate::compaction::branch_summarization::{
    before_ancestor, branch_answer_problem, branch_budget, branch_instructions, branch_prepared,
    common_ancestor, files_of_summaries, gathered, Gathered, BRANCH_SUMMARY_PROMPT,
};
use crate::compaction::compaction::files_with_details;
use crate::compaction::estimate::{message_tokens, tokens_of_messages, total};
use crate::compaction::utils::no_files;
use crate::harness_types::BranchSummaryErrorCode;
use crate::messages::{branch_summary_view, compaction_summary_view};
use crate::session::state_laws::{an_entry_has, lemma_entry_there};
use crate::session::types::Entry;
use crate::types::{AgentMessage, AgentMessageView, AssistantMessage, StopReason};

verus! {

// ---------------------------------------------------------------------------
// Which entries are left
// ---------------------------------------------------------------------------

/// Two branches meet at the first entry of the target's that is on the other,
/// going towards the root, and nowhere where there is none.
pub proof fn law_branches_meet_at_their_first_common_entry(
    old_path: Seq<Entry>,
    front: Seq<Entry>,
    entry: Entry,
    back: Seq<Entry>,
)
    requires
        forall|i: int|
            0 <= i < front.len() ==> !an_entry_has(old_path, (#[trigger] front[i]).spec_id()),
    ensures
        an_entry_has(old_path, entry.spec_id()) ==> common_ancestor(
            old_path,
            front + seq![entry] + back,
        ) == Some(entry.spec_id()),
        common_ancestor(old_path, front) is None,
    decreases front.len(),
{
    let all = front + seq![entry] + back;
    if front.len() == 0 {
        lemma_entry_there(old_path, entry.spec_id());
        assert(all[0] == entry);
    } else {
        let rest = front.drop_first();
        assert(!an_entry_has(old_path, front[0].spec_id()));
        lemma_entry_there(old_path, front[0].spec_id());
        assert(all[0] == front[0]);
        assert(all.drop_first() =~= rest + seq![entry] + back);
        assert forall|i: int| 0 <= i < rest.len() implies !an_entry_has(
            old_path,
            (#[trigger] rest[i]).spec_id(),
        ) by {
            assert(rest[i] == front[i + 1]);
        }
        law_branches_meet_at_their_first_common_entry(old_path, rest, entry, back);
    }
}

/// What is left of a branch are its entries before the one where the branches
/// meet, and all of them where they do not.
pub proof fn law_entries_before_the_common_one_are_left(
    front: Seq<Entry>,
    entry: Entry,
    back: Seq<Entry>,
)
    requires
        forall|i: int|
            0 <= i < front.len() ==> (#[trigger] front[i]).spec_id() != entry.spec_id(),
    ensures
        before_ancestor(front + seq![entry] + back, Some(entry.spec_id())) == front,
        before_ancestor(front, None) == front,
    decreases front.len(),
{
    let all = front + seq![entry] + back;
    if front.len() == 0 {
        assert(all[0] == entry);
        assert(before_ancestor(all, Some(entry.spec_id())) =~= front);
        assert(before_ancestor(front, None) =~= front);
    } else {
        let rest = front.drop_first();
        assert(all[0] == front[0]);
        assert(all.drop_first() =~= rest + seq![entry] + back);
        assert forall|i: int| 0 <= i < rest.len() implies (#[trigger] rest[i]).spec_id()
            != entry.spec_id() by {
            assert(rest[i] == front[i + 1]);
        }
        law_entries_before_the_common_one_are_left(rest, entry, back);
        assert(seq![front[0]] + rest =~= front);
    }
}

// ---------------------------------------------------------------------------
// How much is read
// ---------------------------------------------------------------------------

/// What an entry tells the summary of a branch: its message, unless that is the
/// result of a tool, or the summary that it is.
pub open spec fn told_of(entry: Entry) -> Option<AgentMessageView> {
    match entry {
        Entry::Message { message: AgentMessage::ToolResult(_), .. } => None,
        Entry::Message { message, .. } => Some(message@),
        Entry::BranchSummary { summary, from_id, timestamp, .. } => Some(
            branch_summary_view(summary@, from_id@, timestamp as int),
        ),
        Entry::Compaction { summary, tokens_before, timestamp, .. } => Some(
            compaction_summary_view(summary@, tokens_before as nat, timestamp as int),
        ),
        _ => None,
    }
}

/// What is told by some entries.
pub open spec fn told_by(entries: Seq<Entry>) -> Seq<AgentMessageView> {
    entries.filter_map(|e: Entry| told_of(e))
}

/// The tokens of some messages.
pub open spec fn tokens_in(messages: Seq<AgentMessageView>) -> nat {
    total(tokens_of_messages(messages))
}

proof fn lemma_tokens_in_front(message: AgentMessageView, rest: Seq<AgentMessageView>)
    ensures
        tokens_in(seq![message] + rest) == message_tokens(message) + tokens_in(rest),
    decreases rest.len(),
{
    let all = seq![message] + rest;
    reveal_with_fuel(total, 2);
    if rest.len() == 0 {
        assert(tokens_of_messages(all).drop_last() =~= Seq::<nat>::empty());
        assert(tokens_of_messages(rest) =~= Seq::<nat>::empty());
    } else {
        lemma_tokens_in_front(message, rest.drop_last());
        assert(tokens_of_messages(all).drop_last() =~= tokens_of_messages(
            seq![message] + rest.drop_last(),
        ));
        assert(tokens_of_messages(rest).drop_last() =~= tokens_of_messages(rest.drop_last()));
        assert(tokens_of_messages(all).last() == message_tokens(rest.last()));
        assert(tokens_of_messages(rest).last() == message_tokens(rest.last()));
    }
}

proof fn lemma_gathered(entries: Seq<Entry>, budget: nat, so_far: Gathered)
    requires
        so_far.tokens == tokens_in(so_far.messages),
    ensures
        ({
            let r = gathered(entries, budget, so_far);
            let all = told_by(entries) + so_far.messages;
            &&& r.messages.len() <= all.len()
            &&& r.messages.len() >= so_far.messages.len()
            &&& r.messages == all.skip(all.len() - r.messages.len())
            &&& r.tokens == tokens_in(r.messages)
            &&& r.messages.len() < all.len() ==> budget > 0 && r.tokens + message_tokens(
                all[all.len() - r.messages.len() - 1],
            ) > budget
        }),
    decreases entries.len(),
{
    let r = gathered(entries, budget, so_far);
    let all = told_by(entries) + so_far.messages;
    if entries.len() == 0 {
        assert(all =~= so_far.messages);
        assert(all.skip(0) =~= all);
    } else {
        let front = entries.drop_last();
        let f = |e: Entry| told_of(e);
        match told_of(entries.last()) {
            None => {
                assert(told_by(entries) =~= told_by(front));
                lemma_gathered(front, budget, so_far);
            },
            Some(message) => {
                assert(told_by(entries) =~= told_by(front) + seq![message]);
                let messages = seq![message] + so_far.messages;
                assert(all =~= told_by(front) + messages);
                lemma_tokens_in_front(message, so_far.messages);
                let n = told_by(front).len() as int;
                if budget > 0 && so_far.tokens + message_tokens(message) > budget {
                    assert(all.skip(n) =~= messages);
                    assert(all.skip(n + 1) =~= so_far.messages);
                    assert(all[n] == message);
                } else {
                    lemma_gathered(
                        front,
                        budget,
                        Gathered {
                            messages,
                            files: crate::compaction::utils::files_after(so_far.files, message),
                            tokens: so_far.tokens + message_tokens(message),
                        },
                    );
                }
            },
        }
    }
}

/// What is read of a branch is its end: as many of its last messages as the
/// budget holds, in order, and all of them without a budget. Where it is not
/// all, one message more would exceed the budget.
pub proof fn law_the_end_of_a_branch_is_read(entries: Seq<Entry>, budget: nat)
    ensures
        ({
            let r = branch_prepared(entries, budget);
            let all = told_by(entries);
            &&& r.messages.len() <= all.len()
            &&& r.messages == all.skip(all.len() - r.messages.len())
            &&& r.tokens == tokens_in(r.messages)
            &&& budget == 0 ==> r.messages == all
            &&& r.messages.len() < all.len() ==> r.tokens + message_tokens(
                all[all.len() - r.messages.len() - 1],
            ) > budget
        }),
{
    let start = Gathered {
        messages: Seq::empty(),
        files: files_of_summaries(entries),
        tokens: 0,
    };
    assert(tokens_of_messages(start.messages) =~= Seq::<nat>::empty());
    lemma_gathered(entries, budget, start);
    let all = told_by(entries);
    assert(all + start.messages =~= all);
    assert(all.skip(0) =~= all);
}

/// The files that earlier summaries of branches account for are counted, and
/// those of nothing else.
pub proof fn law_summaries_of_branches_bring_their_files(entries: Seq<Entry>, entry: Entry)
    ensures
        files_of_summaries(Seq::empty()) == no_files(),
        files_of_summaries(entries.push(entry)) == match entry {
            Entry::BranchSummary { details, .. } => files_with_details(
                files_of_summaries(entries),
                details,
            ),
            _ => files_of_summaries(entries),
        },
{
    assert(entries.push(entry).drop_last() =~= entries);
}

// ---------------------------------------------------------------------------
// What is asked for
// ---------------------------------------------------------------------------

/// The budget and the reserve make up the window, where it is larger than the
/// reserve.
pub proof fn law_budget_and_reserve_make_the_window(window: u64, reserve: u64)
    requires
        window > 0,
    ensures
        window > reserve ==> branch_budget(window, Some(reserve)) + reserve == window,
        window <= reserve ==> branch_budget(window, Some(reserve)) == 0,
        branch_budget(window, None) == branch_budget(window, Some(16384)),
        branch_budget(0, Some(reserve)) == branch_budget(128000, Some(reserve)),
{
}

/// Instructions of the user stand behind those of the summary, or in their
/// place where that is asked for.
pub proof fn law_instructions_are_added_or_replaced(text: Seq<char>, replace: bool)
    ensures
        branch_instructions(None, replace) == BRANCH_SUMMARY_PROMPT@,
        branch_instructions(Some(text), true) == text,
        branch_instructions(Some(text), false) == BRANCH_SUMMARY_PROMPT@
            + "\n\nAdditional focus: "@ + text,
{
}

/// An answer that was stopped or failed is told with the reason that it gives,
/// and any other one is taken.
pub proof fn law_only_whole_answers_summarize_a_branch(response: AssistantMessage)
    ensures
        match branch_answer_problem(response) {
            None => response.stop_reason != StopReason::Aborted && response.stop_reason
                != StopReason::Error,
            Some(e) => {
                &&& e.code == BranchSummaryErrorCode::Aborted <==> response.stop_reason
                    == StopReason::Aborted
                &&& e.code == BranchSummaryErrorCode::SummarizationFailed
                    <==> response.stop_reason == StopReason::Error
                &&& response.error_message matches Some(text) ==> e.message == if
                    response.stop_reason == StopReason::Aborted {
                    text@
                } else {
                    "Branch summary failed: "@ + text@
                }
            },
        },
{
}

} // verus!

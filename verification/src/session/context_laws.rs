//! What holds of the context of a branch: its last settings count, and its
//! messages since the last compaction are shown, each in its place.

use vstd::prelude::*;

use crate::messages::{branch_summary_view, compaction_summary_view};
use crate::session::context::{
    branch_state, context_messages, default_messages, last_compaction, lemma_last_compaction,
    projection_at,
};
use crate::session::types::Entry;
use crate::text::texts;
use crate::types::{agent_message_views, AgentMessage, AgentMessageView, StopReason};

verus! {

// ---------------------------------------------------------------------------
// Settings
// ---------------------------------------------------------------------------

/// The model that an entry names: the one that is changed to, or the one that
/// answered.
pub open spec fn model_named(entry: Entry) -> Option<(Seq<char>, Seq<char>)> {
    match entry {
        Entry::ModelChange { provider, model_id, .. } => Some((provider@, model_id@)),
        Entry::Message { message: AgentMessage::Assistant(m), .. } => Some((m.provider@, m.model@)),
        _ => None,
    }
}

/// The model of a branch is the one that its last entry to name one names.
pub proof fn law_the_last_model_counts(entries: Seq<Entry>, i: int)
    requires
        0 <= i < entries.len(),
        model_named(entries[i]) is Some,
        forall|j: int| i < j < entries.len() ==> model_named(#[trigger] entries[j]) is None,
    ensures
        branch_state(entries).model == model_named(entries[i]),
    decreases entries.len(),
{
    if i < entries.len() - 1 {
        let front = entries.drop_last();
        assert(model_named(entries[entries.len() - 1]) is None);
        assert forall|j: int| i < j < front.len() implies model_named(#[trigger] front[j])
            is None by {
            assert(front[j] == entries[j]);
        }
        law_the_last_model_counts(front, i);
    }
}

/// The thinking level of a branch is the one that was last changed to.
pub proof fn law_the_last_thinking_level_counts(entries: Seq<Entry>, i: int)
    requires
        0 <= i < entries.len(),
        entries[i] is ThinkingLevelChange,
        forall|j: int|
            i < j < entries.len() ==> !((#[trigger] entries[j]) is ThinkingLevelChange),
    ensures
        entries[i] matches Entry::ThinkingLevelChange { thinking_level, .. }
            && branch_state(entries).thinking_level == thinking_level@,
    decreases entries.len(),
{
    if i < entries.len() - 1 {
        let front = entries.drop_last();
        assert(!(entries[entries.len() - 1] is ThinkingLevelChange));
        assert forall|j: int| i < j < front.len() implies !((#[trigger] front[j])
            is ThinkingLevelChange) by {
            assert(front[j] == entries[j]);
        }
        law_the_last_thinking_level_counts(front, i);
    }
}

/// The active tools of a branch are those that were last changed to.
pub proof fn law_the_last_tools_count(entries: Seq<Entry>, i: int)
    requires
        0 <= i < entries.len(),
        entries[i] is ActiveToolsChange,
        forall|j: int| i < j < entries.len() ==> !((#[trigger] entries[j]) is ActiveToolsChange),
    ensures
        entries[i] matches Entry::ActiveToolsChange { active_tool_names, .. }
            && branch_state(entries).active_tool_names == Some(texts(active_tool_names@)),
    decreases entries.len(),
{
    if i < entries.len() - 1 {
        let front = entries.drop_last();
        assert(!(entries[entries.len() - 1] is ActiveToolsChange));
        assert forall|j: int| i < j < front.len() implies !((#[trigger] front[j])
            is ActiveToolsChange) by {
            assert(front[j] == entries[j]);
        }
        law_the_last_tools_count(front, i);
    }
}

/// What no entry sets stays as it is at first: thinking is off, and there is
/// neither a model nor a choice of tools.
pub proof fn law_settings_begin_unset(entries: Seq<Entry>)
    ensures
        (forall|i: int| 0 <= i < entries.len() ==> model_named(#[trigger] entries[i]) is None)
            ==> branch_state(entries).model is None,
        (forall|i: int|
            0 <= i < entries.len() ==> !((#[trigger] entries[i]) is ThinkingLevelChange))
            ==> branch_state(entries).thinking_level == "off"@,
        (forall|i: int| 0 <= i < entries.len() ==> !((#[trigger] entries[i]) is ActiveToolsChange))
            ==> branch_state(entries).active_tool_names is None,
    decreases entries.len(),
{
    if entries.len() > 0 {
        let front = entries.drop_last();
        let last = entries.len() - 1;
        law_settings_begin_unset(front);
        assert(entries.last() == entries[last]);
        assert(forall|i: int| 0 <= i < front.len() ==> #[trigger] front[i] == entries[i]);
    }
}

// ---------------------------------------------------------------------------
// Messages
// ---------------------------------------------------------------------------

/// What entries add to the context they add one after the other.
pub proof fn law_entries_add_their_messages_in_order(
    front: Seq<Entry>,
    back: Seq<Entry>,
    projections: Seq<Seq<AgentMessageView>>,
)
    requires
        front.len() <= projections.len(),
    ensures
        context_messages(front + back, projections) == context_messages(
            front,
            projections.take(front.len() as int),
        ) + context_messages(back, projections.skip(front.len() as int)),
    decreases back.len(),
{
    let n = front.len() as int;
    if back.len() == 0 {
        assert(front + back =~= front);
        lemma_projections_agree(front, projections, projections.take(n));
        assert(context_messages(front, projections) + context_messages(
            back,
            projections.skip(n),
        ) =~= context_messages(front, projections));
    } else {
        law_entries_add_their_messages_in_order(front, back.drop_last(), projections);
        let whole = front + back;
        assert(whole.drop_last() =~= front + back.drop_last());
        assert(projection_at(projections, whole.len() - 1) == projection_at(
            projections.skip(n),
            back.len() - 1,
        ));
        assert(context_messages(whole, projections) =~= context_messages(
            front,
            projections.take(n),
        ) + context_messages(back, projections.skip(n)));
    }
}

proof fn lemma_projections_agree(
    entries: Seq<Entry>,
    a: Seq<Seq<AgentMessageView>>,
    b: Seq<Seq<AgentMessageView>>,
)
    requires
        forall|i: int|
            0 <= i < entries.len() ==> #[trigger] projection_at(a, i) == projection_at(b, i),
    ensures
        context_messages(entries, a) == context_messages(entries, b),
    decreases entries.len(),
{
    if entries.len() > 0 {
        lemma_projections_agree(entries.drop_last(), a, b);
        assert(projection_at(a, entries.len() - 1) == projection_at(b, entries.len() - 1));
    }
}

/// A single entry adds to the context: a message itself, unless it is an answer
/// that is still to come; a compaction its summary and then what it kept; the
/// summary of a branch where it says something; what an extension makes of its
/// own entry; and nothing else does.
pub proof fn law_an_entry_adds(entry: Entry, projected: Seq<AgentMessageView>)
    ensures
        context_messages(seq![entry], seq![projected]) == match entry {
            Entry::Message { message, .. } => if message matches AgentMessage::Assistant(m)
                && m.stop_reason == StopReason::Deferred {
                Seq::empty()
            } else {
                seq![message@]
            },
            Entry::Compaction { summary, retained_tail, tokens_before, timestamp, .. } => seq![
                compaction_summary_view(summary@, tokens_before as nat, timestamp as int),
            ] + retained_tail@.map_values(|m: AgentMessage| m@),
            Entry::BranchSummary { summary, from_id, timestamp, .. } => if summary@.len() == 0 {
                Seq::empty()
            } else {
                seq![branch_summary_view(summary@, from_id@, timestamp as int)]
            },
            Entry::Custom { .. } => projected,
            _ => Seq::empty(),
        },
{
    reveal_with_fuel(context_messages, 2);
    let whole = seq![entry];
    assert(whole.drop_last() =~= Seq::<Entry>::empty());
    assert(projection_at(seq![projected], 0) == projected);
    if let Entry::Compaction { retained_tail, .. } = entry {
        assert(agent_message_views(retained_tail@) =~= retained_tail@.map_values(
            |m: AgentMessage| m@,
        ));
    }
    let added = crate::session::context::entry_messages(entry, projected);
    assert(Seq::<AgentMessageView>::empty() + added =~= added);
}

/// Without extensions, what a branch shows stays as it grows: behind it come the
/// messages of the entries that are added, as long as none of them is a
/// compaction.
pub proof fn law_branches_show_what_is_added(before: Seq<Entry>, more: Seq<Entry>)
    requires
        forall|i: int| 0 <= i < more.len() ==> !((#[trigger] more[i]) is Compaction),
    ensures
        default_messages(before + more) == default_messages(before) + default_messages(more),
    decreases more.len(),
{
    let none = Seq::<Seq<AgentMessageView>>::empty();
    let whole = before + more;
    lemma_last_compaction(whole);
    lemma_last_compaction(before);
    lemma_last_compaction(more);
    match last_compaction(before) {
        Some(i) => {
            assert(whole[i] == before[i]);
            let k = last_compaction(whole)->0;
            assert(last_compaction(whole) is Some);
            if k >= before.len() {
                assert(whole[k] == more[k - before.len()]);
            } else if k > i {
                assert(whole[k] == before[k]);
            } else if k < i {
                assert(!(whole[i] is Compaction));
            }
            assert(whole.skip(i) =~= before.skip(i) + more);
            lemma_plain_concat(before.skip(i), more);
        },
        None => {
            if let Some(k) = last_compaction(whole) {
                if k < before.len() {
                    assert(whole[k] == before[k]);
                } else {
                    assert(whole[k] == more[k - before.len()]);
                }
            }
            lemma_plain_concat(before, more);
        },
    }
    assert(last_compaction(more) is None) by {
        if let Some(k) = last_compaction(more) {
            assert(more[k] is Compaction);
        }
    }
}

proof fn lemma_plain_concat(front: Seq<Entry>, back: Seq<Entry>)
    ensures
        context_messages(front + back, Seq::empty()) == context_messages(front, Seq::empty())
            + context_messages(back, Seq::empty()),
    decreases back.len(),
{
    let none = Seq::<Seq<AgentMessageView>>::empty();
    if back.len() == 0 {
        assert(front + back =~= front);
        assert(context_messages(front, none) + context_messages(back, none) =~= context_messages(
            front,
            none,
        ));
    } else {
        lemma_plain_concat(front, back.drop_last());
        assert((front + back).drop_last() =~= front + back.drop_last());
        assert(context_messages(front + back, none) =~= context_messages(front, none)
            + context_messages(back, none));
    }
}

/// A branch of one entry shows what that entry adds.
pub proof fn law_a_branch_of_one_entry(entry: Entry)
    ensures
        default_messages(seq![entry]) == context_messages(seq![entry], seq![Seq::empty()]),
{
    reveal_with_fuel(last_compaction, 2);
    let whole = seq![entry];
    assert(whole.drop_last() =~= Seq::<Entry>::empty());
    lemma_last_compaction(whole);
    if last_compaction(whole) is Some {
        assert(last_compaction(whole) == Some(0int));
        assert(whole.skip(0) =~= whole);
    }
    lemma_projections_agree(whole, Seq::empty(), seq![Seq::empty()]);
}

} // verus!

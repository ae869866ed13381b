//! What a model is shown of a branch: its messages, the model, the thinking
//! level and the active tools.

use vstd::prelude::*;

use crate::messages::{
    branch_summary_view, compaction_summary_view, create_branch_summary_message,
    create_compaction_summary_message,
};
use crate::session::types::{Entry, EntryType};
use crate::text::texts;
use crate::types::{
    agent_message_views, AgentMessage, AgentMessageView, StopReason,
};

verus! {

/// The model that a branch was last talked to with.
pub struct SessionContextModel {
    pub provider: String,
    pub model_id: String,
}

/// What a model is shown of a branch.
pub struct SessionContext {
    pub messages: Vec<AgentMessage>,
    pub thinking_level: String,
    pub model: Option<SessionContextModel>,
    pub active_tool_names: Option<Vec<String>>,
}

/// The settings of a branch in terms of mathematical values.
pub struct ContextState {
    pub thinking_level: Seq<char>,
    pub model: Option<(Seq<char>, Seq<char>)>,
    pub active_tool_names: Option<Seq<Seq<char>>>,
}

impl SessionContext {
    /// The settings in terms of mathematical values.
    pub open spec fn state(self) -> ContextState {
        ContextState {
            thinking_level: self.thinking_level@,
            model: match self.model {
                Some(m) => Some((m.provider@, m.model_id@)),
                None => None,
            },
            active_tool_names: match self.active_tool_names {
                Some(names) => Some(texts(names@)),
                None => None,
            },
        }
    }
}

/// The settings after an entry.
pub open spec fn state_after(before: ContextState, entry: Entry) -> ContextState {
    match entry {
        Entry::ThinkingLevelChange { thinking_level, .. } => ContextState {
            thinking_level: thinking_level@,
            ..before
        },
        Entry::ModelChange { provider, model_id, .. } => ContextState {
            model: Some((provider@, model_id@)),
            ..before
        },
        Entry::Message { message: AgentMessage::Assistant(m), .. } => ContextState {
            model: Some((m.provider@, m.model@)),
            ..before
        },
        Entry::ActiveToolsChange { active_tool_names, .. } => ContextState {
            active_tool_names: Some(texts(active_tool_names@)),
            ..before
        },
        _ => before,
    }
}

/// The settings of a branch: what its entries last set.
pub open spec fn branch_state(entries: Seq<Entry>) -> ContextState
    decreases entries.len(),
{
    if entries.len() == 0 {
        ContextState { thinking_level: "off"@, model: None, active_tool_names: None }
    } else {
        state_after(branch_state(entries.drop_last()), entries.last())
    }
}

fn derive_session_context_state(path_entries: &Vec<Entry>) -> (r: SessionContext)
    ensures
        r.state() == branch_state(path_entries@),
        r.messages@.len() == 0,
{
    let mut context: SessionContext = SessionContext {
        messages: Vec::new(),
        thinking_level: "off".to_owned(),
        model: None,
        active_tool_names: None,
    };
    let mut i: usize = 0;
    proof {
        assert(path_entries@.take(0) =~= Seq::<Entry>::empty());
    }
    while i < path_entries.len()
        invariant
            i <= path_entries@.len(),
            context.state() == branch_state(path_entries@.take(i as int)),
            context.messages@.len() == 0,
        decreases path_entries@.len() - i,
    {
        proof {
            assert(path_entries@.take(i as int + 1).drop_last() =~= path_entries@.take(i as int));
        }
        match &path_entries[i] {
            Entry::ThinkingLevelChange { thinking_level, .. } => {
                context.thinking_level = thinking_level.clone();
            },
            Entry::ModelChange { provider, model_id, .. } => {
                context.model =
                Some(
                    SessionContextModel { provider: provider.clone(), model_id: model_id.clone() },
                );
            },
            Entry::Message { message: AgentMessage::Assistant(m), .. } => {
                context.model =
                Some(
                    SessionContextModel { provider: m.provider.clone(), model_id: m.model.clone() },
                );
            },
            Entry::ActiveToolsChange { active_tool_names, .. } => {
                let names: Vec<String> = (**active_tool_names).clone();
                proof {
                    assert(names@ =~= active_tool_names@);
                }
                context.active_tool_names = Some(names);
            },
            _ => {},
        }
        i = i + 1;
    }
    proof {
        assert(path_entries@.take(path_entries@.len() as int) =~= path_entries@);
    }
    context
}

/// The position of the last compaction.
pub open spec fn last_compaction(entries: Seq<Entry>) -> Option<int>
    decreases entries.len(),
{
    if entries.len() == 0 {
        None
    } else if entries.last() is Compaction {
        Some(entries.len() - 1)
    } else {
        last_compaction(entries.drop_last())
    }
}

/// The entries from the last compaction on.
pub open spec fn since_compaction(entries: Seq<Entry>) -> Seq<Entry> {
    match last_compaction(entries) {
        Some(i) => entries.skip(i),
        None => entries,
    }
}

/// The position of the last compaction stands inside the branch, at a
/// compaction, with none after it.
pub proof fn lemma_last_compaction(entries: Seq<Entry>)
    ensures
        match last_compaction(entries) {
            Some(i) => 0 <= i < entries.len() && entries[i] is Compaction && forall|j: int|
                i < j < entries.len() ==> !(#[trigger] entries[j] is Compaction),
            None => forall|j: int|
                0 <= j < entries.len() ==> !(#[trigger] entries[j] is Compaction),
        },
    decreases entries.len(),
{
    if entries.len() > 0 && !(entries.last() is Compaction) {
        let shorter = entries.drop_last();
        lemma_last_compaction(shorter);
        match last_compaction(shorter) {
            Some(i) => {
                assert(entries[i] == shorter[i]);
                assert forall|j: int| i < j < entries.len() implies !(
                #[trigger] entries[j] is Compaction) by {
                    if j < shorter.len() {
                        assert(shorter[j] == entries[j]);
                    }
                }
            },
            None => {
                assert forall|j: int| 0 <= j < entries.len() implies !(
                #[trigger] entries[j] is Compaction) by {
                    if j < shorter.len() {
                        assert(shorter[j] == entries[j]);
                    }
                }
            },
        }
    }
}

/// The position of the last compaction.
pub fn find_last_compaction(entries: &Vec<Entry>) -> (r: Option<usize>)
    ensures
        match r {
            Some(i) => last_compaction(entries@) == Some(i as int) && i < entries@.len(),
            None => last_compaction(entries@) is None,
        },
{
    let mut i: usize = entries.len();
    proof {
        assert(entries@.take(i as int) =~= entries@);
    }
    while i > 0
        invariant
            i <= entries@.len(),
            last_compaction(entries@) == last_compaction(entries@.take(i as int)),
        decreases i,
    {
        proof {
            assert(entries@.take(i as int).drop_last() =~= entries@.take(i as int - 1));
        }
        if entries[i - 1].entry_type() == EntryType::Compaction {
            return Some(i - 1);
        }
        i = i - 1;
    }
    None
}

/// The entries from a position on.
pub fn entries_from(entries: &Vec<Entry>, from: usize) -> (r: Vec<Entry>)
    requires
        from <= entries@.len(),
    ensures
        r@ == entries@.skip(from as int),
{
    let mut out: Vec<Entry> = Vec::new();
    let mut i: usize = from;
    while i < entries.len()
        invariant
            from <= i <= entries@.len(),
            out@ == entries@.subrange(from as int, i as int),
        decreases entries@.len() - i,
    {
        out.push(entries[i].clone());
        proof {
            assert(entries@.subrange(from as int, i as int + 1) =~= entries@.subrange(
                from as int,
                i as int,
            ).push(entries@[i as int]));
        }
        i = i + 1;
    }
    proof {
        assert(entries@.subrange(from as int, entries@.len() as int) =~= entries@.skip(
            from as int,
        ));
    }
    out
}

/// Keeps the last compaction and what follows it.
pub fn default_context_entry_transform(path_entries: &Vec<Entry>) -> (r: Vec<Entry>)
    ensures
        r@ == since_compaction(path_entries@),
{
    match find_last_compaction(path_entries) {
        Some(i) => entries_from(path_entries, i),
        None => {
            let r: Vec<Entry> = entries_from(path_entries, 0);
            proof {
                assert(path_entries@.skip(0) =~= path_entries@);
            }
            r
        },
    }
}

/// The messages that an entry adds to the context. `projected` is what an
/// extension made of it, when it is a custom entry.
pub open spec fn entry_messages(entry: Entry, projected: Seq<AgentMessageView>) -> Seq<
    AgentMessageView,
> {
    match entry {
        Entry::Message { message, .. } => match message {
            AgentMessage::Assistant(m) => if m.stop_reason == StopReason::Deferred {
                Seq::empty()
            } else {
                seq![message@]
            },
            _ => seq![message@],
        },
        Entry::Compaction { summary, retained_tail, tokens_before, timestamp, .. } => seq![
            compaction_summary_view(summary@, tokens_before as nat, timestamp as int),
        ] + agent_message_views(retained_tail@),
        Entry::BranchSummary { summary, from_id, timestamp, .. } => if summary@.len() > 0 {
            seq![branch_summary_view(summary@, from_id@, timestamp as int)]
        } else {
            Seq::empty()
        },
        Entry::Custom { .. } => projected,
        _ => Seq::empty(),
    }
}

fn append_messages(out: &mut Vec<AgentMessage>, more: &Vec<AgentMessage>)
    ensures
        agent_message_views(final(out)@) == agent_message_views(old(out)@) + agent_message_views(
            more@,
        ),
{
    let ghost before = out@;
    let mut i: usize = 0;
    proof {
        assert(before + more@.take(0) =~= before);
    }
    while i < more.len()
        invariant
            i <= more@.len(),
            out@ == before + more@.take(i as int),
        decreases more@.len() - i,
    {
        out.push(more[i].clone());
        proof {
            assert(before + more@.take(i as int + 1) =~= (before + more@.take(i as int)).push(
                more@[i as int],
            ));
        }
        i = i + 1;
    }
    proof {
        assert(more@.take(more@.len() as int) =~= more@);
        assert(agent_message_views(out@) =~= agent_message_views(before) + agent_message_views(
            more@,
        ));
    }
}

/// The messages that an entry adds to the context.
pub fn session_entry_to_context_messages(entry: &Entry, projected: &Vec<AgentMessage>) -> (r: Vec<
    AgentMessage,
>)
    ensures
        agent_message_views(r@) == entry_messages(*entry, agent_message_views(projected@)),
{
    let mut out: Vec<AgentMessage> = Vec::new();
    proof {
        assert(agent_message_views(out@) =~= Seq::<AgentMessageView>::empty());
    }
    match entry {
        Entry::Message { message, .. } => {
            let shown: bool = match message {
                AgentMessage::Assistant(m) => m.stop_reason != StopReason::Deferred,
                _ => true,
            };
            if shown {
                out.push(message.clone());
                proof {
                    assert(agent_message_views(out@) =~= seq![message@]);
                }
            }
        },
        Entry::Compaction { summary, retained_tail, tokens_before, timestamp, .. } => {
            out.push(
                create_compaction_summary_message(summary.clone(), *tokens_before, *timestamp),
            );
            proof {
                assert(agent_message_views(out@) =~= seq![
                    compaction_summary_view(
                        summary@,
                        *tokens_before as nat,
                        *timestamp as int,
                    ),
                ]);
            }
            append_messages(&mut out, retained_tail);
        },
        Entry::BranchSummary { summary, from_id, timestamp, .. } => {
            if summary.as_str().unicode_len() > 0 {
                out.push(
                    create_branch_summary_message(summary.clone(), from_id.clone(), *timestamp),
                );
                proof {
                    assert(agent_message_views(out@) =~= seq![
                        branch_summary_view(summary@, from_id@, *timestamp as int),
                    ]);
                }
            }
        },
        Entry::Custom { .. } => {
            append_messages(&mut out, projected);
            proof {
                assert(agent_message_views(out@) =~= agent_message_views(projected@));
            }
        },
        _ => {},
    }
    out
}

/// The views of what extensions made of each entry.
pub open spec fn projection_views(projections: Seq<Vec<AgentMessage>>) -> Seq<Seq<AgentMessageView>> {
    Seq::new(projections.len(), |i: int| agent_message_views(projections[i]@))
}

/// What extensions made of the entry at a position; nothing where they were
/// not asked.
pub open spec fn projection_at(projections: Seq<Seq<AgentMessageView>>, i: int) -> Seq<
    AgentMessageView,
> {
    if 0 <= i < projections.len() {
        projections[i]
    } else {
        Seq::empty()
    }
}

/// The messages that entries add to the context, in order.
pub open spec fn context_messages(entries: Seq<Entry>, projections: Seq<Seq<AgentMessageView>>) -> Seq<
    AgentMessageView,
>
    decreases entries.len(),
{
    if entries.len() == 0 {
        Seq::empty()
    } else {
        context_messages(entries.drop_last(), projections) + entry_messages(
            entries.last(),
            projection_at(projections, entries.len() - 1),
        )
    }
}

/// The context of a branch, from the entries that are shown of it and from
/// what extensions made of each of them.
pub fn build_session_context(
    path_entries: &Vec<Entry>,
    context_entries: &Vec<Entry>,
    projections: &Vec<Vec<AgentMessage>>,
) -> (r: SessionContext)
    ensures
        r.state() == branch_state(path_entries@),
        agent_message_views(r.messages@) == context_messages(
            context_entries@,
            projection_views(projections@),
        ),
{
    let mut context: SessionContext = derive_session_context_state(path_entries);
    let ghost settings = context.state();
    let ghost given = projection_views(projections@);
    let mut messages: Vec<AgentMessage> = Vec::new();
    let nothing: Vec<AgentMessage> = Vec::new();
    let mut i: usize = 0;
    proof {
        assert(context_entries@.take(0) =~= Seq::<Entry>::empty());
        assert(agent_message_views(messages@) =~= Seq::<AgentMessageView>::empty());
        assert(agent_message_views(nothing@) =~= Seq::<AgentMessageView>::empty());
    }
    while i < context_entries.len()
        invariant
            i <= context_entries@.len(),
            given == projection_views(projections@),
            agent_message_views(nothing@) == Seq::<AgentMessageView>::empty(),
            agent_message_views(messages@) == context_messages(
                context_entries@.take(i as int),
                given,
            ),
        decreases context_entries@.len() - i,
    {
        proof {
            assert(context_entries@.take(i as int + 1).drop_last() =~= context_entries@.take(
                i as int,
            ));
        }
        let more: Vec<AgentMessage> = if i < projections.len() {
            session_entry_to_context_messages(&context_entries[i], &projections[i])
        } else {
            session_entry_to_context_messages(&context_entries[i], &nothing)
        };
        append_messages(&mut messages, &more);
        i = i + 1;
    }
    proof {
        assert(context_entries@.take(context_entries@.len() as int) =~= context_entries@);
    }
    context.messages = messages;
    proof {
        assert(context.state() == settings);
    }
    context
}

/// The messages that a model is shown of a branch without extensions.
pub open spec fn default_messages(path_entries: Seq<Entry>) -> Seq<AgentMessageView> {
    context_messages(since_compaction(path_entries), Seq::empty())
}

/// The context of a branch without extensions.
pub fn build_default_context(path_entries: &Vec<Entry>) -> (r: SessionContext)
    ensures
        r.state() == branch_state(path_entries@),
        agent_message_views(r.messages@) == default_messages(path_entries@),
{
    let entries: Vec<Entry> = default_context_entry_transform(path_entries);
    let none: Vec<Vec<AgentMessage>> = Vec::new();
    proof {
        assert(projection_views(none@) =~= Seq::<Seq<AgentMessageView>>::empty());
    }
    build_session_context(path_entries, &entries, &none)
}

/// What precedes the last compaction of a branch does not reach the model:
/// two branches that agree from their last compaction on show the same
/// messages.
pub proof fn law_compaction_replaces_history(before: Seq<Entry>, tail: Seq<Entry>)
    requires
        tail.len() > 0,
        tail[0] is Compaction,
    ensures
        default_messages(before + tail) == default_messages(tail),
{
    let whole = before + tail;
    lemma_last_compaction(whole);
    lemma_last_compaction(tail);
    assert(whole[before.len() as int] == tail[0]);
    let i = last_compaction(whole).unwrap();
    let j = last_compaction(tail).unwrap();
    if i < before.len() {
        assert(!(whole[before.len() as int] is Compaction));
    }
    assert(whole[before.len() + j] == tail[j]);
    if i < before.len() + j {
        assert(!(whole[before.len() + j] is Compaction));
    }
    if i > before.len() + j {
        assert(whole[i] == tail[i - before.len()]);
        assert(!(tail[i - before.len()] is Compaction));
    }
    assert(whole.skip(i) =~= tail.skip(j));
}

} // verus!

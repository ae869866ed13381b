//! Summaries of branches that a conversation leaves.

use vstd::prelude::*;

use crate::compaction::compaction::{
    add_details, can_quote, files_with_details, quotable, quote_conversation, quoted_conversation,
    text_or,
};
use crate::compaction::estimate::{
    count_chars, estimate_tokens, message_chars, message_tokens,
};
use crate::compaction::utils::{
    assistant_text, assistant_texts, compute_file_lists, create_file_ops,
    extract_file_ops_from_message, file_lists_text, files_after, format_file_operations,
    modified_set, no_files, read_only_set, FileOperations, FileOperationsView,
};
use crate::harness_types::{BranchSummaryError, BranchSummaryErrorCode, BranchSummaryErrorView};
use crate::messages::{
    branch_summary_view, compaction_summary_view, create_branch_summary_message,
    create_compaction_summary_message,
};
use crate::session::state::{
    distinct_entries, law_branches_lead_to_the_root, lemma_entry_by_id, parents_first, walk,
};
use crate::session::types::{
    entry_exists, has_entry, lemma_has_entry, Entry, SessionError, SessionErrorCode,
    SessionErrorView,
};
use crate::text::{concat2, concat3, join, text_of_option, texts};
use crate::text_set::lists;
use crate::types::{
    agent_message_views, AgentMessage, AgentMessageView, AssistantMessage, StopReason, Usage,
};

verus! {

// ---------------------------------------------------------------------------
// Collection
// ---------------------------------------------------------------------------

/// The entries of a branch that is left, oldest first, and where the branch
/// that is entered joins it.
pub struct CollectEntriesResult {
    pub entries: Vec<Entry>,
    pub common_ancestor_id: Option<String>,
}

/// The first entry of the branch that is entered which lies on the branch that
/// is left.
pub open spec fn common_ancestor(old_path: Seq<Entry>, target_path: Seq<Entry>) -> Option<Seq<char>>
    decreases target_path.len(),
{
    if target_path.len() == 0 {
        None
    } else if has_entry(old_path, target_path[0].spec_id()) {
        Some(target_path[0].spec_id())
    } else {
        common_ancestor(old_path, target_path.drop_first())
    }
}

/// The entries in front of the one with the given id.
pub open spec fn before_ancestor(path: Seq<Entry>, ancestor: Option<Seq<char>>) -> Seq<Entry>
    decreases path.len(),
{
    if path.len() == 0 || Some(path[0].spec_id()) == ancestor {
        Seq::empty()
    } else {
        seq![path[0]] + before_ancestor(path.drop_first(), ancestor)
    }
}

fn find_ancestor(old_path: &Vec<Entry>, target_path: &Vec<Entry>) -> (r: Option<String>)
    ensures
        text_of_option(r) == common_ancestor(old_path@, target_path@),
{
    let mut i: usize = 0;
    proof {
        assert(target_path@.skip(0) =~= target_path@);
    }
    while i < target_path.len()
        invariant
            i <= target_path@.len(),
            common_ancestor(old_path@, target_path@) == common_ancestor(
                old_path@,
                target_path@.skip(i as int),
            ),
        decreases target_path@.len() - i,
    {
        proof {
            assert(target_path@.skip(i as int)[0] == target_path@[i as int]);
            assert(target_path@.skip(i as int).drop_first() =~= target_path@.skip(i as int + 1));
        }
        if entry_exists(old_path, target_path[i].id()) {
            return Some(target_path[i].id().clone());
        }
        i = i + 1;
    }
    None
}

fn take_before(path: &Vec<Entry>, ancestor: &Option<String>) -> (r: Vec<Entry>)
    ensures
        r@ == before_ancestor(path@, text_of_option(*ancestor)),
{
    let ghost stop = text_of_option(*ancestor);
    let mut out: Vec<Entry> = Vec::new();
    let mut i: usize = 0;
    proof {
        assert(path@.skip(0) =~= path@);
        assert(out@ + before_ancestor(path@, stop) =~= before_ancestor(path@, stop));
    }
    while i < path.len()
        invariant
            i <= path@.len(),
            stop == text_of_option(*ancestor),
            out@ + before_ancestor(path@.skip(i as int), stop) == before_ancestor(path@, stop),
        decreases path@.len() - i,
    {
        let ghost rest = path@.skip(i as int);
        let ghost before = out@;
        proof {
            assert(rest[0] == path@[i as int]);
            assert(rest.drop_first() =~= path@.skip(i as int + 1));
        }
        let reached: bool = match ancestor {
            Some(id) => *path[i].id() == *id,
            None => false,
        };
        if reached {
            proof {
                assert(out@ + before_ancestor(rest, stop) =~= out@);
            }
            return out;
        }
        out.push(path[i].clone());
        proof {
            assert(out@ + before_ancestor(path@.skip(i as int + 1), stop) =~= before + (seq![
                rest[0],
            ] + before_ancestor(path@.skip(i as int + 1), stop)));
        }
        i = i + 1;
    }
    proof {
        assert(out@ + before_ancestor(path@.skip(i as int), stop) =~= out@);
    }
    out
}

/// The refusal of an entry that is not there.
pub open spec fn missing_entry(id: Seq<char>) -> SessionErrorView {
    SessionErrorView {
        code: SessionErrorCode::InvalidEntry,
        message: "Entry "@ + id + " not found"@,
    }
}

/// Collects what is summarized when a session moves to another branch.
/// `old_path` and `target_path` are the branches from the old leaf and from
/// the target towards the root.
pub fn collect_entries_for_branch_summary(
    old_leaf_id: &Option<String>,
    old_path: &Vec<Entry>,
    target_path: &Vec<Entry>,
) -> (r: Result<CollectEntriesResult, SessionError>)
    ensures
        match *old_leaf_id {
            None => r matches Ok(found) && found.entries@.len() == 0
                && found.common_ancestor_id is None,
            Some(leaf) => if old_path@.len() == 0 {
                r matches Err(e) && e@ == missing_entry(leaf@)
            } else {
                r matches Ok(found) && text_of_option(found.common_ancestor_id)
                    == common_ancestor(old_path@, target_path@) && found.entries@
                    == before_ancestor(
                    old_path@,
                    common_ancestor(old_path@, target_path@),
                ).reverse()
            },
        },
{
    let leaf: &String = match old_leaf_id {
        Some(leaf) => leaf,
        None => {
            return Ok(
                CollectEntriesResult { entries: Vec::new(), common_ancestor_id: None },
            );
        },
    };
    if old_path.len() == 0 {
        return Err(
            SessionError::new(
                SessionErrorCode::InvalidEntry,
                concat3("Entry ", leaf.as_str(), " not found"),
            ),
        );
    }
    let common_ancestor_id: Option<String> = find_ancestor(old_path, target_path);
    let left: Vec<Entry> = take_before(old_path, &common_ancestor_id);
    Ok(
        CollectEntriesResult {
            entries: crate::session::select::reversed(&left),
            common_ancestor_id,
        },
    )
}

proof fn lemma_shorter(entries: Seq<Entry>)
    requires
        distinct_entries(entries),
        parents_first(entries),
        entries.len() > 0,
    ensures
        distinct_entries(entries.drop_last()),
        parents_first(entries.drop_last()),
        !has_entry(entries.drop_last(), entries.last().spec_id()),
{
    let shorter = entries.drop_last();
    let n = entries.len() - 1;
    assert forall|i: int, j: int| 0 <= i < j < shorter.len() implies (
    #[trigger] shorter[i]).spec_id() != (#[trigger] shorter[j]).spec_id() by {
        assert(shorter[i] == entries[i] && shorter[j] == entries[j]);
    }
    assert forall|k: int| 0 <= k < shorter.len() implies ((#[trigger] shorter[k]).spec_parent() matches Some(
        id,
    ) ==> has_entry(shorter.take(k), id)) by {
        assert(shorter[k] == entries[k]);
        assert(shorter.take(k) =~= entries.take(k));
    }
    lemma_has_entry(shorter, entries.last().spec_id());
    if has_entry(shorter, entries.last().spec_id()) {
        let i = choose|i: int|
            0 <= i < shorter.len() && (#[trigger] shorter[i]).spec_id()
                == entries.last().spec_id();
        assert(entries[i].spec_id() == entries[n].spec_id());
    }
}

proof fn lemma_walk_step(entries: Seq<Entry>, start: Seq<char>)
    requires
        distinct_entries(entries),
        parents_first(entries),
        has_entry(entries, start),
        walk(entries, start, None, None).len() > 1,
    ensures
        walk(entries, walk(entries, start, None, None)[1].spec_id(), None, None) == walk(
            entries,
            start,
            None,
            None,
        ).drop_first(),
    decreases entries.len(),
{
    let w = walk(entries, start, None, None);
    let shorter = entries.drop_last();
    lemma_shorter(entries);
    assert(entries.take(entries.len() - 1) =~= shorter);
    assert(entries[entries.len() - 1] == entries.last());
    if entries.last().spec_id() != start {
        lemma_walk_step(shorter, start);
        law_branches_lead_to_the_root(shorter, start, None, None);
        assert(shorter.contains(w[1]));
        let k = choose|k: int| 0 <= k < shorter.len() && shorter[k] == w[1];
        lemma_has_entry(shorter, w[1].spec_id());
        assert(shorter[k].spec_id() == w[1].spec_id());
    } else {
        let parent = entries.last().spec_parent().unwrap();
        assert(has_entry(shorter, parent));
        law_branches_lead_to_the_root(shorter, parent, None, None);
        lemma_entry_by_id(shorter, parent);
        let rest = walk(shorter, parent, None, None);
        assert(w =~= seq![entries.last()] + rest);
        assert(w[1] == rest[0]);
        assert(w[1].spec_id() == parent);
        assert(w.drop_first() =~= rest);
    }
}

proof fn lemma_walk_suffix(entries: Seq<Entry>, start: Seq<char>, i: int)
    requires
        distinct_entries(entries),
        parents_first(entries),
        has_entry(entries, start),
        0 <= i < walk(entries, start, None, None).len(),
    ensures
        has_entry(entries, walk(entries, start, None, None)[i].spec_id()),
        walk(entries, walk(entries, start, None, None)[i].spec_id(), None, None) == walk(
            entries,
            start,
            None,
            None,
        ).skip(i),
    decreases i,
{
    let w = walk(entries, start, None, None);
    law_branches_lead_to_the_root(entries, start, None, None);
    lemma_entry_by_id(entries, start);
    if i == 0 {
        assert(w.skip(0) =~= w);
    } else {
        lemma_walk_suffix(entries, start, i - 1);
        let before = w[i - 1].spec_id();
        let tail = w.skip(i - 1);
        assert(tail[1] == w[i]);
        lemma_walk_step(entries, before);
        assert(tail.drop_first() =~= w.skip(i));
        assert(entries.contains(w[i]));
        let k = choose|k: int| 0 <= k < entries.len() && entries[k] == w[i];
        lemma_has_entry(entries, w[i].spec_id());
        assert(entries[k].spec_id() == w[i].spec_id());
    }
}

proof fn lemma_common_ancestor(old_path: Seq<Entry>, target_path: Seq<Entry>)
    ensures
        match common_ancestor(old_path, target_path) {
            Some(id) => has_entry(old_path, id) && exists|p: int|
                0 <= p < target_path.len() && (#[trigger] target_path[p]).spec_id() == id && forall|
                    j: int,
                |
                    0 <= j < p ==> !has_entry(old_path, (#[trigger] target_path[j]).spec_id()),
            None => forall|j: int|
                0 <= j < target_path.len() ==> !has_entry(
                    old_path,
                    (#[trigger] target_path[j]).spec_id(),
                ),
        },
    decreases target_path.len(),
{
    if target_path.len() > 0 {
        if has_entry(old_path, target_path[0].spec_id()) {
            assert(target_path[0].spec_id() == common_ancestor(old_path, target_path).unwrap());
        } else {
            let rest = target_path.drop_first();
            lemma_common_ancestor(old_path, rest);
            match common_ancestor(old_path, rest) {
                Some(id) => {
                    let p = choose|p: int|
                        0 <= p < rest.len() && (#[trigger] rest[p]).spec_id() == id && forall|
                            j: int,
                        |
                            0 <= j < p ==> !has_entry(old_path, (#[trigger] rest[j]).spec_id());
                    assert(target_path[p + 1].spec_id() == id);
                    assert forall|j: int| 0 <= j < p + 1 implies !has_entry(
                        old_path,
                        (#[trigger] target_path[j]).spec_id(),
                    ) by {
                        if j > 0 {
                            assert(rest[j - 1] == target_path[j]);
                        }
                    }
                },
                None => {
                    assert forall|j: int| 0 <= j < target_path.len() implies !has_entry(
                        old_path,
                        (#[trigger] target_path[j]).spec_id(),
                    ) by {
                        if j > 0 {
                            assert(rest[j - 1] == target_path[j]);
                        }
                    }
                },
            }
        }
    }
}

proof fn lemma_before_ancestor(path: Seq<Entry>, ancestor: Option<Seq<char>>)
    ensures
        before_ancestor(path, ancestor).len() <= path.len(),
        forall|k: int|
            0 <= k < before_ancestor(path, ancestor).len() ==> #[trigger] before_ancestor(
                path,
                ancestor,
            )[k] == path[k] && Some(path[k].spec_id()) != ancestor,
    decreases path.len(),
{
    if path.len() > 0 && Some(path[0].spec_id()) != ancestor {
        let rest = path.drop_first();
        lemma_before_ancestor(rest, ancestor);
        let whole = before_ancestor(path, ancestor);
        assert forall|k: int| 0 <= k < whole.len() implies #[trigger] whole[k] == path[k] && Some(
            path[k].spec_id(),
        ) != ancestor by {
            if k > 0 {
                assert(whole[k] == before_ancestor(rest, ancestor)[k - 1]);
                assert(rest[k - 1] == path[k]);
            }
        }
    }
}

/// What is summarized of a branch that is left does not lie on the branch that
/// is entered.
pub proof fn law_left_entries_are_off_the_target(
    entries: Seq<Entry>,
    old_leaf: Seq<char>,
    target: Seq<char>,
    k: int,
)
    requires
        distinct_entries(entries),
        parents_first(entries),
        has_entry(entries, old_leaf),
        has_entry(entries, target),
        ({
            let old_path = walk(entries, old_leaf, None, None);
            let target_path = walk(entries, target, None, None);
            0 <= k < before_ancestor(old_path, common_ancestor(old_path, target_path)).len()
        }),
    ensures
        ({
            let old_path = walk(entries, old_leaf, None, None);
            let target_path = walk(entries, target, None, None);
            !has_entry(
                target_path,
                before_ancestor(old_path, common_ancestor(old_path, target_path))[k].spec_id(),
            )
        }),
{
    let old_path = walk(entries, old_leaf, None, None);
    let target_path = walk(entries, target, None, None);
    let ancestor = common_ancestor(old_path, target_path);
    law_branches_lead_to_the_root(entries, old_leaf, None, None);
    lemma_common_ancestor(old_path, target_path);
    lemma_before_ancestor(old_path, ancestor);
    let left = before_ancestor(old_path, ancestor);
    assert(left[k] == old_path[k]);
    let x = old_path[k].spec_id();
    lemma_has_entry(old_path, x);
    assert(has_entry(old_path, x));
    lemma_has_entry(target_path, x);
    if has_entry(target_path, x) {
        let j = choose|j: int|
            0 <= j < target_path.len() && (#[trigger] target_path[j]).spec_id() == x;
        assert(ancestor is Some);
        let id = ancestor.unwrap();
        let p = choose|p: int|
            0 <= p < target_path.len() && (#[trigger] target_path[p]).spec_id() == id && forall|
                m: int,
            |
                0 <= m < p ==> !has_entry(old_path, (#[trigger] target_path[m]).spec_id());
        assert(p <= j) by {
            if j < p {
                assert(!has_entry(old_path, target_path[j].spec_id()));
            }
        }
        lemma_has_entry(old_path, id);
        let q = choose|q: int| 0 <= q < old_path.len() && (#[trigger] old_path[q]).spec_id() == id;
        lemma_walk_suffix(entries, target, p);
        lemma_walk_suffix(entries, old_leaf, q);
        assert(target_path.skip(p) == old_path.skip(q));
        lemma_same_place(old_path, target_path, p, q, j, k);
        lemma_before_ancestor_stops(old_path, id, q);
    }
}

proof fn lemma_same_place(
    path: Seq<Entry>,
    other: Seq<Entry>,
    p: int,
    q: int,
    j: int,
    k: int,
)
    requires
        distinct_entries(path),
        0 <= p <= j < other.len(),
        0 <= q <= path.len(),
        0 <= k < path.len(),
        other.skip(p) == path.skip(q),
        path[k].spec_id() == other[j].spec_id(),
    ensures
        k >= q,
{
    assert(other.skip(p)[j - p] == other[j]);
    assert(path.skip(q).len() == path.len() - q);
    assert(other.skip(p).len() == other.len() - p);
    let there = j - p + q;
    assert(path.skip(q)[j - p] == path[there]);
    if k < q {
        assert(path[k].spec_id() != path[there].spec_id());
    }
}

proof fn lemma_before_ancestor_stops(path: Seq<Entry>, id: Seq<char>, q: int)
    requires
        0 <= q < path.len(),
        path[q].spec_id() == id,
    ensures
        before_ancestor(path, Some(id)).len() <= q,
    decreases path.len(),
{
    if path[0].spec_id() != id {
        assert(path.drop_first()[q - 1] == path[q]);
        lemma_before_ancestor_stops(path.drop_first(), id, q - 1);
    }
}

// ---------------------------------------------------------------------------
// Preparation
// ---------------------------------------------------------------------------

/// The files that the summary of a branch accounts for.
pub struct BranchSummaryDetails {
    pub read_files: Vec<String>,
    pub modified_files: Vec<String>,
}

/// The data of a finished summary.
pub struct BranchSummaryResult {
    pub summary: String,
    pub usage: Usage,
    pub read_files: Vec<String>,
    pub modified_files: Vec<String>,
}

/// What the summary of a branch works on.
pub struct BranchPreparation {
    pub messages: Vec<AgentMessage>,
    pub file_ops: FileOperations,
    pub total_tokens: u64,
}

/// The message that an entry stands for in a summary; results of tools are
/// left out.
pub open spec fn summarized_message(entry: Entry) -> Option<AgentMessageView> {
    match entry {
        Entry::Message { message, .. } => if message is ToolResult {
            None
        } else {
            Some(message@)
        },
        Entry::BranchSummary { summary, from_id, timestamp, .. } => Some(
            branch_summary_view(summary@, from_id@, timestamp as int),
        ),
        Entry::Compaction { summary, tokens_before, timestamp, .. } => Some(
            compaction_summary_view(summary@, tokens_before as nat, timestamp as int),
        ),
        _ => None,
    }
}

fn get_message_from_entry(entry: &Entry) -> (r: Option<AgentMessage>)
    ensures
        match r {
            Some(m) => summarized_message(*entry) == Some(m@),
            None => summarized_message(*entry) is None,
        },
{
    match entry {
        Entry::Message { message, .. } => match message {
            AgentMessage::ToolResult(_) => None,
            _ => Some(message.clone()),
        },
        Entry::BranchSummary { summary, from_id, timestamp, .. } => Some(
            create_branch_summary_message(summary.clone(), from_id.clone(), *timestamp),
        ),
        Entry::Compaction { summary, tokens_before, timestamp, .. } => Some(
            create_compaction_summary_message(summary.clone(), *tokens_before, *timestamp),
        ),
        _ => None,
    }
}

/// The files that earlier summaries of branches account for.
pub open spec fn files_of_summaries(entries: Seq<Entry>) -> FileOperationsView
    decreases entries.len(),
{
    if entries.len() == 0 {
        no_files()
    } else {
        let before = files_of_summaries(entries.drop_last());
        match entries.last() {
            Entry::BranchSummary { details, .. } => files_with_details(before, details),
            _ => before,
        }
    }
}

/// What is gathered of a branch while it is read from its end.
pub struct Gathered {
    pub messages: Seq<AgentMessageView>,
    pub files: FileOperationsView,
    pub tokens: nat,
}

/// Whether an entry is itself a summary.
pub open spec fn is_summary(entry: Entry) -> bool {
    entry is Compaction || entry is BranchSummary
}

/// What is gathered of entries read from their end, within a budget of
/// tokens. A budget of zero is none. The message with which the budget would
/// be exceeded ends the reading; it is still taken if it is a summary and less
/// than nine tenths of the budget are used.
pub open spec fn gathered(entries: Seq<Entry>, budget: nat, so_far: Gathered) -> Gathered
    decreases entries.len(),
{
    if entries.len() == 0 {
        so_far
    } else {
        match summarized_message(entries.last()) {
            None => gathered(entries.drop_last(), budget, so_far),
            Some(message) => {
                let files = files_after(so_far.files, message);
                let tokens = message_tokens(message);
                let taken = Gathered {
                    messages: seq![message] + so_far.messages,
                    files,
                    tokens: so_far.tokens + tokens,
                };
                if budget > 0 && so_far.tokens + tokens > budget {
                    if is_summary(entries.last()) && so_far.tokens < budget * 9 / 10 {
                        taken
                    } else {
                        Gathered { files, ..so_far }
                    }
                } else {
                    gathered(entries.drop_last(), budget, taken)
                }
            },
        }
    }
}

/// What the summary of a branch works on.
pub open spec fn branch_prepared(entries: Seq<Entry>, budget: nat) -> Gathered {
    gathered(
        entries,
        budget,
        Gathered { messages: Seq::empty(), files: files_of_summaries(entries), tokens: 0 },
    )
}

/// Whether the tokens of entries read from their end can be added up, as far as
/// they are read within a budget.
pub open spec fn reading_fits(entries: Seq<Entry>, budget: nat, spent: nat) -> bool
    decreases entries.len(),
{
    if entries.len() == 0 {
        true
    } else {
        match summarized_message(entries.last()) {
            None => reading_fits(entries.drop_last(), budget, spent),
            Some(message) => {
                let now = spent + message_tokens(message);
                message_chars(message) <= usize::MAX && now <= u64::MAX && ((budget > 0 && now
                    > budget) || reading_fits(entries.drop_last(), budget, now))
            },
        }
    }
}

/// Whether the sizes that the summary of a branch counts fit the machine.
pub open spec fn branch_fits(entries: Seq<Entry>, budget: nat) -> bool {
    reading_fits(entries, budget, 0)
}

fn summary_files(entries: &Vec<Entry>) -> (r: FileOperations)
    ensures
        r@ == files_of_summaries(entries@),
{
    let mut files: FileOperations = create_file_ops();
    let mut i: usize = 0;
    proof {
        assert(entries@.take(0) =~= Seq::<Entry>::empty());
    }
    while i < entries.len()
        invariant
            i <= entries@.len(),
            files@ == files_of_summaries(entries@.take(i as int)),
        decreases entries@.len() - i,
    {
        proof {
            assert(entries@.take(i as int + 1).drop_last() =~= entries@.take(i as int));
        }
        if let Entry::BranchSummary { details, .. } = &entries[i] {
            add_details(&mut files, details);
        }
        i = i + 1;
    }
    proof {
        assert(entries@.take(entries@.len() as int) =~= entries@);
    }
    files
}

/// Prepares the entries of a branch for a summary within a budget of tokens.
pub fn prepare_branch_entries(entries: &Vec<Entry>, token_budget: u64) -> (r: BranchPreparation)
    requires
        branch_fits(entries@, token_budget as nat),
    ensures
        agent_message_views(r.messages@) == branch_prepared(
            entries@,
            token_budget as nat,
        ).messages,
        r.file_ops@ == branch_prepared(entries@, token_budget as nat).files,
        r.total_tokens == branch_prepared(entries@, token_budget as nat).tokens,
{
    let ghost expected = branch_prepared(entries@, token_budget as nat);
    let mut backwards: Vec<AgentMessage> = Vec::new();
    let mut file_ops: FileOperations = summary_files(entries);
    let mut total_tokens: u64 = 0;
    let mut i: usize = entries.len();
    let mut done: bool = false;
    proof {
        assert(entries@.take(i as int) =~= entries@);
        assert(agent_message_views(backwards@).reverse() =~= Seq::<AgentMessageView>::empty());
    }
    while i > 0 && !done
        invariant
            i <= entries@.len(),
            !done ==> reading_fits(
                entries@.take(i as int),
                token_budget as nat,
                total_tokens as nat,
            ),
            expected == if done {
                Gathered {
                    messages: agent_message_views(backwards@).reverse(),
                    files: file_ops@,
                    tokens: total_tokens as nat,
                }
            } else {
                gathered(
                    entries@.take(i as int),
                    token_budget as nat,
                    Gathered {
                        messages: agent_message_views(backwards@).reverse(),
                        files: file_ops@,
                        tokens: total_tokens as nat,
                    },
                )
            },
        decreases i,
    {
        let entry: &Entry = &entries[i - 1];
        let ghost front = entries@.take(i as int);
        let ghost held = agent_message_views(backwards@);
        proof {
            assert(front.drop_last() =~= entries@.take(i as int - 1));
            assert(front.last() == *entry);
        }
        if let Some(message) = get_message_from_entry(entry) {
            extract_file_ops_from_message(&message, &mut file_ops);
            let ghost view = message@;
            proof {
                let longer = held.push(view).reverse();
                assert(longer =~= seq![view] + held.reverse());
            }
            let tokens: u64 = estimate_tokens(&message);
            if token_budget > 0 && total_tokens + tokens > token_budget {
                let summary: bool = match entry {
                    Entry::Compaction { .. } => true,
                    Entry::BranchSummary { .. } => true,
                    _ => false,
                };
                if summary && (total_tokens as u128) < token_budget as u128 * 9 / 10 {
                    backwards.push(message);
                    total_tokens = total_tokens + tokens;
                    proof {
                        assert(agent_message_views(backwards@) =~= held.push(view));
                    }
                }
                done = true;
            } else {
                backwards.push(message);
                total_tokens = total_tokens + tokens;
                proof {
                    assert(agent_message_views(backwards@) =~= held.push(view));
                }
            }
        }
        i = i - 1;
    }
    let messages: Vec<AgentMessage> = crate::session::select::reversed(&backwards);
    proof {
        assert(agent_message_views(messages@) =~= agent_message_views(backwards@).reverse());
    }
    BranchPreparation { messages, file_ops, total_tokens }
}

/// Whether the sizes that the summary of a branch counts fit the machine.
pub fn can_prepare_branch(entries: &Vec<Entry>, token_budget: u64) -> (r: bool)
    ensures
        r == branch_fits(entries@, token_budget as nat),
{
    let ghost whole = branch_fits(entries@, token_budget as nat);
    let mut spent: u64 = 0;
    let mut i: usize = entries.len();
    proof {
        assert(entries@.take(i as int) =~= entries@);
    }
    while i > 0
        invariant
            i <= entries@.len(),
            whole == branch_fits(entries@, token_budget as nat),
            whole == reading_fits(entries@.take(i as int), token_budget as nat, spent as nat),
        decreases i,
    {
        proof {
            assert(entries@.take(i as int).drop_last() =~= entries@.take(i as int - 1));
            assert(entries@.take(i as int).last() == entries@[i as int - 1]);
        }
        if let Some(message) = get_message_from_entry(&entries[i - 1]) {
            if count_chars(&message).is_none() {
                return false;
            }
            match spent.checked_add(estimate_tokens(&message)) {
                Some(now) => {
                    if token_budget > 0 && now > token_budget {
                        return true;
                    }
                    spent = now;
                },
                None => {
                    return false;
                },
            }
        }
        i = i - 1;
    }
    true
}

/// How many tokens of a branch a summary may quote: the model's window, or a
/// usual one where it is unknown, without a reserve.
pub open spec fn branch_budget(context_window: u64, reserve_tokens: Option<u64>) -> int {
    let window = if context_window > 0 {
        context_window as int
    } else {
        128000
    };
    let reserve = match reserve_tokens {
        Some(n) => n as int,
        None => 16384,
    };
    if window > reserve {
        window - reserve
    } else {
        0
    }
}

/// How many tokens of a branch a summary may quote.
pub fn branch_token_budget(context_window: u64, reserve_tokens: Option<u64>) -> (r: u64)
    ensures
        r == branch_budget(context_window, reserve_tokens),
{
    let window: u64 = if context_window > 0 {
        context_window
    } else {
        128000
    };
    let reserve: u64 = match reserve_tokens {
        Some(n) => n,
        None => 16384,
    };
    if window > reserve {
        window - reserve
    } else {
        0
    }
}

/// Within a budget, what is gathered of a branch does not exceed it, unless
/// its oldest message is a summary that was still taken.
pub proof fn law_branch_summaries_respect_the_budget(entries: Seq<Entry>, budget: nat)
    requires
        budget > 0,
    ensures
        ({
            let r = branch_prepared(entries, budget);
            r.tokens <= budget || (r.messages.len() > 0 && r.tokens - message_tokens(r.messages[0])
                < budget * 9 / 10)
        }),
{
    lemma_gathered_budget(
        entries,
        budget,
        Gathered { messages: Seq::empty(), files: files_of_summaries(entries), tokens: 0 },
    );
}

proof fn lemma_gathered_budget(entries: Seq<Entry>, budget: nat, so_far: Gathered)
    requires
        budget > 0,
        so_far.tokens <= budget,
    ensures
        ({
            let r = gathered(entries, budget, so_far);
            r.tokens <= budget || (r.messages.len() > 0 && r.tokens - message_tokens(r.messages[0])
                < budget * 9 / 10)
        }),
    decreases entries.len(),
{
    if entries.len() > 0 {
        match summarized_message(entries.last()) {
            None => lemma_gathered_budget(entries.drop_last(), budget, so_far),
            Some(message) => {
                let files = files_after(so_far.files, message);
                let tokens = message_tokens(message);
                let taken = Gathered {
                    messages: seq![message] + so_far.messages,
                    files,
                    tokens: so_far.tokens + tokens,
                };
                assert(taken.messages[0] == message);
                if so_far.tokens + tokens <= budget {
                    lemma_gathered_budget(entries.drop_last(), budget, taken);
                }
            },
        }
    }
}

// ---------------------------------------------------------------------------
// Request and answer
// ---------------------------------------------------------------------------

pub const BRANCH_SUMMARY_PREAMBLE: &'static str = "The user explored a different conversation branch before returning here.\nSummary of that exploration:\n\n";

pub const BRANCH_SUMMARY_PROMPT: &'static str = "Create a structured summary of this conversation branch for context when returning later.\n\nUse this EXACT format:\n\n## Goal\n[What was the user trying to accomplish in this branch?]\n\n## Constraints & Preferences\n- [Any constraints, preferences, or requirements mentioned]\n- [Or \"(none)\" if none were mentioned]\n\n## Progress\n### Done\n- [x] [Completed tasks/changes]\n\n### In Progress\n- [ ] [Work that was started but not finished]\n\n### Blocked\n- [Issues preventing progress, if any]\n\n## Key Decisions\n- **[Decision]**: [Brief rationale]\n\n## Next Steps\n1. [What should happen next to continue this work]\n\nKeep each section concise. Preserve exact file paths, function names, and error messages.";

/// What a model is asked to do with a branch.
pub open spec fn branch_instructions(custom: Option<Seq<char>>, replace: bool) -> Seq<char> {
    match custom {
        Some(text) => if replace {
            text
        } else {
            BRANCH_SUMMARY_PROMPT@ + "\n\nAdditional focus: "@ + text
        },
        None => BRANCH_SUMMARY_PROMPT@,
    }
}

/// What a model is asked for the summary of a branch.
pub fn build_branch_summary_prompt(
    messages: &Vec<AgentMessage>,
    custom_instructions: &Option<String>,
    replace_instructions: bool,
) -> (r: String)
    requires
        quotable(agent_message_views(messages@)),
    ensures
        r@ == quoted_conversation(agent_message_views(messages@)) + branch_instructions(
            text_of_option(*custom_instructions),
            replace_instructions,
        ),
{
    let quoted: String = quote_conversation(messages);
    let instructions: String = match custom_instructions {
        Some(text) => if replace_instructions {
            text.clone()
        } else {
            concat3(BRANCH_SUMMARY_PROMPT, "\n\nAdditional focus: ", text.as_str())
        },
        None => BRANCH_SUMMARY_PROMPT.to_owned(),
    };
    concat2(quoted.as_str(), instructions.as_str())
}

/// The result for a branch that holds nothing to summarize.
pub fn empty_branch_summary() -> (r: BranchSummaryResult)
    ensures
        r.summary@ == "No content to summarize"@,
        r.usage == crate::types::no_usage(),
        r.read_files@.len() == 0,
        r.modified_files@.len() == 0,
{
    BranchSummaryResult {
        summary: "No content to summarize".to_owned(),
        usage: Usage::default(),
        read_files: Vec::new(),
        modified_files: Vec::new(),
    }
}

/// How many tokens the summary of a branch may take.
pub const BRANCH_SUMMARY_MAX_TOKENS: u64 = 2048;

/// How the summary of a branch begins.
pub enum BranchSummaryPlan {
    /// There is nothing to ask: this is the result.
    Finished(BranchSummaryResult),
    /// A model is asked; the files are those that the branch touched.
    Ask { prompt: String, file_ops: FileOperations },
    /// The branch is too large for the machine, or it cannot be quoted.
    Unfit,
}

/// Plans the summary of a branch: what a model is asked within the budget of its
/// window, or the result for a branch that holds nothing to summarize.
pub fn plan_branch_summary(
    entries: &Vec<Entry>,
    context_window: u64,
    reserve_tokens: Option<u64>,
    custom_instructions: &Option<String>,
    replace_instructions: bool,
) -> (r: BranchSummaryPlan)
    ensures
        ({
            let budget = branch_budget(context_window, reserve_tokens);
            let gathered_branch = branch_prepared(entries@, budget as nat);
            match r {
                BranchSummaryPlan::Unfit => !branch_fits(entries@, budget as nat) || !quotable(
                    gathered_branch.messages,
                ),
                BranchSummaryPlan::Finished(result) => {
                    &&& branch_fits(entries@, budget as nat)
                    &&& gathered_branch.messages.len() == 0
                    &&& result.summary@ == "No content to summarize"@
                    &&& result.usage == crate::types::no_usage()
                    &&& result.read_files@.len() == 0
                    &&& result.modified_files@.len() == 0
                },
                BranchSummaryPlan::Ask { prompt, file_ops } => {
                    &&& branch_fits(entries@, budget as nat)
                    &&& quotable(gathered_branch.messages)
                    &&& gathered_branch.messages.len() > 0
                    &&& prompt@ == quoted_conversation(gathered_branch.messages)
                        + branch_instructions(
                        text_of_option(*custom_instructions),
                        replace_instructions,
                    )
                    &&& file_ops@ == gathered_branch.files
                },
            }
        }),
{
    let budget: u64 = branch_token_budget(context_window, reserve_tokens);
    if !can_prepare_branch(entries, budget) {
        return BranchSummaryPlan::Unfit;
    }
    let BranchPreparation { messages, file_ops, .. } = prepare_branch_entries(entries, budget);
    if messages.len() == 0 {
        return BranchSummaryPlan::Finished(empty_branch_summary());
    }
    if !can_quote(&messages) {
        return BranchSummaryPlan::Unfit;
    }
    let prompt: String = build_branch_summary_prompt(
        &messages,
        custom_instructions,
        replace_instructions,
    );
    BranchSummaryPlan::Ask { prompt, file_ops }
}

/// Why an answer gives no summary, if it does not.
pub open spec fn branch_answer_problem(response: AssistantMessage) -> Option<
    BranchSummaryErrorView,
> {
    if response.stop_reason == StopReason::Aborted {
        Some(
            BranchSummaryErrorView {
                code: BranchSummaryErrorCode::Aborted,
                message: text_or(
                    text_of_option(response.error_message),
                    "Branch summary aborted"@,
                ),
            },
        )
    } else if response.stop_reason == StopReason::Error {
        Some(
            BranchSummaryErrorView {
                code: BranchSummaryErrorCode::SummarizationFailed,
                message: "Branch summary failed: "@ + text_or(
                    text_of_option(response.error_message),
                    "Unknown error"@,
                ),
            },
        )
    } else {
        None
    }
}

/// Makes the answer of a model into the summary of a branch: what it said
/// after a preamble, and the files that the branch touched.
pub fn finish_branch_summary(response: &AssistantMessage, file_ops: &FileOperations) -> (r: Result<
    BranchSummaryResult,
    BranchSummaryError,
>)
    ensures
        match r {
            Ok(found) => {
                &&& branch_answer_problem(*response) is None
                &&& lists(texts(found.read_files@), read_only_set(file_ops@))
                &&& lists(texts(found.modified_files@), modified_set(file_ops@))
                &&& found.summary@ == BRANCH_SUMMARY_PREAMBLE@ + join(
                    assistant_texts(response.content@),
                    "\n"@,
                ) + file_lists_text(texts(found.read_files@), texts(found.modified_files@))
                &&& found.usage == response.usage
            },
            Err(e) => branch_answer_problem(*response) == Some(e@),
        },
{
    if response.stop_reason == StopReason::Aborted {
        let message: String = match &response.error_message {
            Some(text) => text.clone(),
            None => "Branch summary aborted".to_owned(),
        };
        return Err(BranchSummaryError::new(BranchSummaryErrorCode::Aborted, message));
    }
    if response.stop_reason == StopReason::Error {
        let reason: String = match &response.error_message {
            Some(text) => text.clone(),
            None => "Unknown error".to_owned(),
        };
        return Err(
            BranchSummaryError::new(
                BranchSummaryErrorCode::SummarizationFailed,
                concat2("Branch summary failed: ", reason.as_str()),
            ),
        );
    }
    let said: String = assistant_text(&response.content, "\n");
    let (read_files, modified_files): (Vec<String>, Vec<String>) = compute_file_lists(file_ops);
    let files: String = format_file_operations(&read_files, &modified_files);
    Ok(
        BranchSummaryResult {
            summary: concat3(BRANCH_SUMMARY_PREAMBLE, said.as_str(), files.as_str()),
            usage: response.usage,
            read_files,
            modified_files,
        },
    )
}

} // verus!

//! Forks: the mutations that rebuild a session's tree, or one of its branches,
//! in a new session.

use vstd::prelude::*;

use crate::session::state::{
    distinct_entries, fresh_session, lane_at, lane_view, lane_views, law_branches_lead_to_the_root,
    lemma_entry_by_id, messages_in, mutation_views, parents_first, replay, walk, LaneView,
    MutationView, SessionMutation, SessionState, SessionView,
};
use crate::session::types::{
    entry_by_id, has_entry, lemma_has_entry, Entry, EntryOrder, EntryQuery, ForkOptions,
    ForkPosition, LanePointer, SessionError, SessionErrorCode, SessionErrorView,
};
use crate::text::{concat2, text_of_option};
use crate::types::copy_text;

verus! {

/// What a fork copies: entries, oldest first, and lanes.
pub struct Selection {
    pub entries: Seq<Entry>,
    pub lanes: Seq<LaneView>,
}

/// The refusal of a fork at something other than a message.
pub open spec fn bad_target(id: Seq<char>) -> SessionErrorView {
    SessionErrorView {
        code: SessionErrorCode::InvalidForkTarget,
        message: "Fork target is not a message entry: "@ + id,
    }
}

/// The entry that a branch fork ends at: the selected message or its parent.
/// Without a position, the end of the main lane is kept and a chosen message
/// is left out.
pub open spec fn fork_end(entry: Entry, chosen: bool, position: Option<ForkPosition>) -> Option<
    Seq<char>,
> {
    let at = match position {
        Some(p) => p == ForkPosition::At,
        None => !chosen,
    };
    if at {
        Some(entry.spec_id())
    } else {
        entry.spec_parent()
    }
}

/// What a branch fork that ends at an entry copies.
pub open spec fn branch_selection(s: SessionView, end: Option<Seq<char>>) -> Selection {
    Selection {
        entries: match end {
            Some(id) => walk(s.entries, id, None, None).reverse(),
            None => Seq::empty(),
        },
        lanes: seq![LaneView { lane: "main"@, leaf: end }],
    }
}

/// What a fork copies, or why it is refused.
pub open spec fn selection(s: SessionView, options: ForkOptions) -> Result<
    Selection,
    SessionErrorView,
> {
    match options {
        ForkOptions::Tree => Ok(Selection { entries: s.entries, lanes: s.lanes }),
        ForkOptions::Branch { entry_id, position } => {
            let selected = match entry_id {
                Some(id) => Some(id@),
                None => s.lanes[0].leaf,
            };
            match selected {
                Some(id) => match entry_by_id(s.entries, id) {
                    Some(entry) if entry is Message => Ok(
                        branch_selection(s, fork_end(entry, entry_id is Some, position)),
                    ),
                    _ => Err(bad_target(id)),
                },
                None => Ok(branch_selection(s, None)),
            }
        },
    }
}

/// An entry with another sequence number.
pub open spec fn renumbered(entry: Entry, number: u64) -> Entry {
    entry.stored(entry.parent_string(), number, entry.spec_timestamp())
}

/// The mutations that add entries, numbered from one.
pub open spec fn entry_steps(entries: Seq<Entry>) -> Seq<MutationView> {
    Seq::new(
        entries.len(),
        |i: int| MutationView::Entry { lane: None, entry: renumbered(entries[i], (i + 1) as u64) },
    )
}

/// The mutations that set lanes, numbered after `before`.
pub open spec fn lane_steps(lanes: Seq<LaneView>, before: int) -> Seq<MutationView> {
    Seq::new(
        lanes.len(),
        |i: int|
            MutationView::Lane {
                seq: (before + i + 1) as u64,
                lane: lanes[i].lane,
                leaf: lanes[i].leaf,
            },
    )
}

/// The mutation that sets a name, if there is one.
pub open spec fn name_steps(name: Option<Seq<char>>, before: int) -> Seq<MutationView> {
    match name {
        Some(_) => seq![MutationView::NameFact { seq: (before + 1) as u64, name }],
        None => Seq::empty(),
    }
}

/// The mutations that label the entries that have a label.
pub open spec fn label_steps(
    entries: Seq<Entry>,
    labels: Map<Seq<char>, Seq<char>>,
    before: int,
) -> Seq<MutationView>
    decreases entries.len(),
{
    if entries.len() == 0 {
        Seq::empty()
    } else {
        let steps = label_steps(entries.drop_last(), labels, before);
        let id = entries.last().spec_id();
        if labels.dom().contains(id) {
            steps.push(
                MutationView::LabelFact {
                    seq: (before + steps.len() + 1) as u64,
                    target: id,
                    label: Some(labels[id]),
                },
            )
        } else {
            steps
        }
    }
}

/// The mutations that rebuild a selection.
pub open spec fn fork_steps(
    chosen: Selection,
    name: Option<Seq<char>>,
    labels: Map<Seq<char>, Seq<char>>,
) -> Seq<MutationView> {
    let n = chosen.entries.len() as int;
    let named = n + chosen.lanes.len();
    let labelled = named + name_steps(name, named).len();
    entry_steps(chosen.entries) + lane_steps(chosen.lanes, n) + name_steps(name, named)
        + label_steps(chosen.entries, labels, labelled)
}

/// Whether the numbers of a fork's mutations fit the machine.
pub open spec fn forkable(s: SessionView, options: ForkOptions) -> bool {
    selection(s, options) matches Ok(chosen) ==> fork_steps(chosen, s.name, s.labels).len()
        <= u64::MAX
}

proof fn lemma_fewer_labels(
    entries: Seq<Entry>,
    labels: Map<Seq<char>, Seq<char>>,
    before: int,
    k: int,
)
    requires
        0 <= k <= entries.len(),
    ensures
        label_steps(entries.take(k), labels, before).len() <= label_steps(
            entries,
            labels,
            before,
        ).len(),
    decreases entries.len(),
{
    if k < entries.len() {
        lemma_fewer_labels(entries.drop_last(), labels, before, k);
        assert(entries.drop_last().take(k) =~= entries.take(k));
    } else {
        assert(entries.take(k) =~= entries);
    }
}

proof fn lemma_walk_len(entries: Seq<Entry>, start: Seq<char>)
    ensures
        walk(entries, start, None, None).len() <= entries.len(),
    decreases entries.len(),
{
    if entries.len() > 0 {
        lemma_walk_len(entries.drop_last(), start);
        if let Some(parent) = entries.last().spec_parent() {
            lemma_walk_len(entries.drop_last(), parent);
        }
    }
}

fn all_entries() -> (r: EntryQuery)
    ensures
        r == (EntryQuery {
            entry_type: None,
            custom_type: None,
            order: Some(EntryOrder::OldestFirst),
            limit: None,
            cursor: None,
        }),
{
    EntryQuery {
        entry_type: None,
        custom_type: None,
        order: Some(EntryOrder::OldestFirst),
        limit: None,
        cursor: None,
    }
}

proof fn lemma_all_kept(items: Seq<Entry>, query: EntryQuery)
    requires
        query.entry_type is None,
        query.custom_type is None,
        query.cursor is None,
    ensures
        crate::session::select::kept(items, crate::session::state::entry_matches(query)) == items,
    decreases items.len(),
{
    let p = crate::session::state::entry_matches(query);
    if items.len() > 0 {
        lemma_all_kept(items.drop_last(), query);
        assert(p(items.last()));
        assert(items.drop_last().push(items.last()) =~= items);
    } else {
        assert(crate::session::select::kept(items, p) =~= items);
    }
}

proof fn lemma_unbounded(path: Seq<Entry>)
    ensures
        crate::session::state::up_to_bound(path, None, None) == path,
    decreases path.len(),
{
    if path.len() > 0 {
        lemma_unbounded(path.drop_first());
        assert(seq![path[0]] + path.drop_first() =~= path);
    } else {
        assert(crate::session::state::up_to_bound(path, None, None) =~= path);
    }
}

struct Copied {
    entries: Vec<Entry>,
    lanes: Vec<LanePointer>,
}

impl SessionState {
    fn select_branch(&self, entry_id: &Option<String>, position: Option<ForkPosition>) -> (r: Result<
        Copied,
        SessionError,
    >)
        requires
            self@.wf(),
        ensures
            match selection(
                self@,
                ForkOptions::Branch { entry_id: *entry_id, position },
            ) {
                Ok(chosen) => r matches Ok(c) && c.entries@ == chosen.entries && lane_views(
                    c.lanes@,
                ) == chosen.lanes,
                Err(e) => r matches Err(refused) && refused@ == e,
            },
    {
        proof {
            crate::session::state::lemma_lane_at(self@.lanes, "main"@);
            lemma_main_is_first(self@);
        }
        let selected: Option<String> = match entry_id {
            Some(id) => Some(id.clone()),
            None => match self.require_lane("main") {
                Ok(leaf) => leaf,
                Err(e) => {
                    return Err(e);
                },
            },
        };
        let mut end: Option<String> = None;
        if let Some(id) = &selected {
            let entry: Option<Entry> = self.get_entry(id);
            match &entry {
                Some(Entry::Message { .. }) => {},
                _ => {
                    return Err(
                        SessionError::new(
                            SessionErrorCode::InvalidForkTarget,
                            concat2("Fork target is not a message entry: ", id.as_str()),
                        ),
                    );
                },
            }
            if let Some(found) = &entry {
                let at: bool = match position {
                    Some(ForkPosition::At) => true,
                    Some(ForkPosition::Before) => false,
                    None => match entry_id {
                        Some(_) => false,
                        None => true,
                    },
                };
                end = if at {
                    Some(found.id().clone())
                } else {
                    copy_text(found.parent_id())
                };
                proof {
                    lemma_entry_by_id(self@.entries, id@);
                    lemma_end_exists(self@, *found);
                }
            }
        }
        let entries: Vec<Entry> = match &end {
            Some(id) => {
                let none: Option<String> = None;
                let query: EntryQuery = all_entries();
                proof {
                    let path = walk(self@.entries, id@, None, None);
                    lemma_unbounded(path.reverse());
                    lemma_all_kept(path.reverse(), query);
                }
                match self.find_entries_on_branch(&query, &none, None, id) {
                    Ok(found) => found,
                    Err(e) => {
                        return Err(e);
                    },
                }
            },
            None => Vec::new(),
        };
        let mut lanes: Vec<LanePointer> = Vec::new();
        let ghost leaf = text_of_option(end);
        lanes.push(LanePointer { lane: "main".to_owned(), leaf_id: end });
        proof {
            assert(lane_views(lanes@) =~= seq![LaneView { lane: "main"@, leaf }]);
        }
        Ok(Copied { entries, lanes })
    }

    /// The mutations that rebuild the session's tree or one of its branches in
    /// a new session.
    pub fn create_fork_mutations(&self, options: &ForkOptions) -> (r: Result<
        Vec<SessionMutation>,
        SessionError,
    >)
        requires
            self@.wf(),
            forkable(self@, *options),
        ensures
            match selection(self@, *options) {
                Ok(chosen) => r matches Ok(steps) && mutation_views(steps@) == fork_steps(
                    chosen,
                    self@.name,
                    self@.labels,
                ),
                Err(e) => r matches Err(refused) && refused@ == e,
            },
    {
        let copied: Copied = match options {
            ForkOptions::Tree => {
                let query: EntryQuery = all_entries();
                proof {
                    lemma_all_kept(self@.entries, query);
                }
                match self.find_entries(&query) {
                    Ok(entries) => Copied { entries, lanes: self.get_lanes() },
                    Err(e) => {
                        return Err(e);
                    },
                }
            },
            ForkOptions::Branch { entry_id, position } => match self.select_branch(
                entry_id,
                *position,
            ) {
                Ok(copied) => copied,
                Err(e) => {
                    return Err(e);
                },
            },
        };
        let ghost chosen = selection(self@, *options)->Ok_0;
        let ghost n = chosen.entries.len() as int;
        let ghost lane_part = lane_steps(chosen.lanes, n);
        let mut steps: Vec<SessionMutation> = Vec::new();
        let mut sequence: u64 = 0;
        let mut i: usize = 0;
        while i < copied.entries.len()
            invariant
                i <= copied.entries@.len(),
                copied.entries@ == chosen.entries,
                chosen.entries.len() <= u64::MAX,
                sequence == i,
                mutation_views(steps@) == entry_steps(chosen.entries).take(i as int),
            decreases copied.entries@.len() - i,
        {
            let entry: Entry = copied.entries[i].clone();
            let parent: Option<String> = copy_text(entry.parent_id());
            let time: i64 = entry.timestamp();
            let ghost before = steps@;
            sequence = sequence + 1;
            steps.push(
                SessionMutation::Entry {
                    lane: None,
                    entry: entry.with_storage_fields(parent, sequence, time),
                },
            );
            proof {
                let all = entry_steps(chosen.entries);
                assert(steps@.last()@ == all[i as int]);
                assert(mutation_views(steps@) =~= mutation_views(before).push(all[i as int]));
                assert(all.take(i as int + 1) =~= all.take(i as int).push(all[i as int]));
            }
            i = i + 1;
        }
        proof {
            assert(entry_steps(chosen.entries).take(n) =~= entry_steps(chosen.entries));
            assert(mutation_views(steps@) =~= entry_steps(chosen.entries) + lane_part.take(0));
        }
        let mut j: usize = 0;
        while j < copied.lanes.len()
            invariant
                j <= copied.lanes@.len(),
                lane_views(copied.lanes@) == chosen.lanes,
                n == chosen.entries.len(),
                n + chosen.lanes.len() <= u64::MAX,
                lane_part == lane_steps(chosen.lanes, n),
                sequence == n + j,
                mutation_views(steps@) == entry_steps(chosen.entries) + lane_part.take(j as int),
            decreases copied.lanes@.len() - j,
        {
            let ghost before = steps@;
            sequence = sequence + 1;
            steps.push(
                SessionMutation::Lane {
                    seq: sequence,
                    lane: copied.lanes[j].lane.clone(),
                    leaf_id: copy_text(&copied.lanes[j].leaf_id),
                },
            );
            proof {
                assert(lane_views(copied.lanes@)[j as int] == lane_view(copied.lanes@[j as int]));
                assert(steps@.last()@ == lane_part[j as int]);
                assert(mutation_views(steps@) =~= mutation_views(before).push(lane_part[j as int]));
                assert(lane_part.take(j as int + 1) =~= lane_part.take(j as int).push(
                    lane_part[j as int],
                ));
                assert(mutation_views(steps@) =~= entry_steps(chosen.entries) + lane_part.take(
                    j as int + 1,
                ));
            }
            j = j + 1;
        }
        let ghost named = n + chosen.lanes.len();
        let ghost tree_part = entry_steps(chosen.entries) + lane_part;
        let ghost name_part = name_steps(self@.name, named);
        proof {
            assert(lane_part.take(lane_part.len() as int) =~= lane_part);
            assert(mutation_views(steps@) =~= tree_part);
        }
        let name: Option<String> = self.get_name();
        if let Some(text) = name {
            let ghost before = steps@;
            sequence = sequence + 1;
            steps.push(SessionMutation::NameFact { seq: sequence, name: Some(text) });
            proof {
                assert(steps@.last()@ == name_part[0]);
                assert(mutation_views(steps@) =~= mutation_views(before).push(name_part[0]));
            }
        }
        let ghost labelled = named + name_part.len();
        proof {
            assert(mutation_views(steps@) =~= tree_part + name_part);
            assert(chosen.entries.take(0) =~= Seq::<Entry>::empty());
            assert(mutation_views(steps@) =~= tree_part + name_part + label_steps(
                chosen.entries.take(0),
                self@.labels,
                labelled,
            ));
        }
        let mut k: usize = 0;
        while k < copied.entries.len()
            invariant
                k <= copied.entries@.len(),
                copied.entries@ == chosen.entries,
                0 <= labelled,
                labelled + label_steps(chosen.entries, self@.labels, labelled).len() <= u64::MAX,
                sequence == labelled + label_steps(
                    chosen.entries.take(k as int),
                    self@.labels,
                    labelled,
                ).len(),
                mutation_views(steps@) == tree_part + name_part + label_steps(
                    chosen.entries.take(k as int),
                    self@.labels,
                    labelled,
                ),
            decreases copied.entries@.len() - k,
        {
            let ghost front = chosen.entries.take(k as int + 1);
            proof {
                assert(front.drop_last() =~= chosen.entries.take(k as int));
                assert(front.last() == chosen.entries[k as int]);
                lemma_fewer_labels(chosen.entries, self@.labels, labelled, k as int + 1);
            }
            let id: &String = copied.entries[k].id();
            if let Some(label) = self.get_label(id) {
                let ghost before = steps@;
                sequence = sequence + 1;
                steps.push(
                    SessionMutation::LabelFact {
                        seq: sequence,
                        target_id: id.clone(),
                        label: Some(label),
                    },
                );
                proof {
                    let part = label_steps(front, self@.labels, labelled);
                    assert(steps@.last()@ == part.last());
                    assert(mutation_views(steps@) =~= mutation_views(before).push(part.last()));
                    assert(mutation_views(steps@) =~= tree_part + name_part + part);
                }
            }
            k = k + 1;
        }
        proof {
            assert(chosen.entries.take(n) =~= chosen.entries);
        }
        Ok(steps)
    }
}

proof fn lemma_main_is_first(s: SessionView)
    requires
        s.wf(),
    ensures
        lane_at(s.lanes, "main"@) == Some(0int),
{
    crate::session::state::lemma_lane_at(s.lanes, "main"@);
}

proof fn lemma_end_exists(s: SessionView, entry: Entry)
    requires
        s.wf(),
        s.entries.contains(entry),
    ensures
        has_entry(s.entries, entry.spec_id()),
        entry.spec_parent() matches Some(id) ==> has_entry(s.entries, id),
{
    let i = choose|i: int| 0 <= i < s.entries.len() && s.entries[i] == entry;
    lemma_has_entry(s.entries, entry.spec_id());
    if let Some(id) = entry.spec_parent() {
        let front = s.entries.take(i);
        lemma_has_entry(front, id);
        let k = choose|k: int| 0 <= k < front.len() && (#[trigger] front[k]).spec_id() == id;
        assert(s.entries[k].spec_id() == id);
        lemma_has_entry(s.entries, id);
    }
}

proof fn lemma_labels_bound(
    entries: Seq<Entry>,
    labels: Map<Seq<char>, Seq<char>>,
    before: int,
    ids: Set<Seq<char>>,
)
    requires
        distinct_entries(entries),
        ids.finite(),
        forall|i: int|
            0 <= i < entries.len() && labels.dom().contains((#[trigger] entries[i]).spec_id())
                ==> ids.contains(entries[i].spec_id()),
    ensures
        label_steps(entries, labels, before).len() <= ids.len(),
    decreases entries.len(),
{
    if entries.len() > 0 {
        let front = entries.drop_last();
        let id = entries.last().spec_id();
        assert forall|i: int| 0 <= i < front.len() implies (#[trigger] front[i]).spec_id() != id by {
            assert(entries[i].spec_id() != entries[entries.len() - 1].spec_id());
        }
        if labels.dom().contains(id) {
            assert(entries[entries.len() - 1].spec_id() == id);
            lemma_labels_bound(front, labels, before, ids.remove(id));
        } else {
            lemma_labels_bound(front, labels, before, ids);
        }
    }
}

/// A fork of a session makes no more changes than the session saw, and one for
/// its first lane: there are numbers for them while the session can still be
/// changed.
pub proof fn law_forks_fit(s: SessionView, options: ForkOptions)
    requires
        s.wf(),
        s.sequence < u64::MAX,
    ensures
        forkable(s, options),
        selection(s, options) matches Ok(chosen) ==> fork_steps(chosen, s.name, s.labels).len()
            <= s.sequence + 1,
{
    if let Ok(chosen) = selection(s, options) {
        lemma_selection_stands_alone(s, options);
        let named = chosen.entries.len() + chosen.lanes.len();
        lemma_labels_bound(
            chosen.entries,
            s.labels,
            (named + name_steps(s.name, named as int).len()) as int,
            s.labels.dom(),
        );
        match options {
            ForkOptions::Tree => {},
            ForkOptions::Branch { entry_id, position } => {
                let selected = match entry_id {
                    Some(id) => Some(id@),
                    None => s.lanes[0].leaf,
                };
                if let Some(id) = selected {
                    if let Some(entry) = entry_by_id(s.entries, id) {
                        if let Some(end) = fork_end(entry, entry_id is Some, position) {
                            lemma_walk_len(s.entries, end);
                        }
                    }
                }
            },
        }
    }
}

// ---------------------------------------------------------------------------
// Laws
// ---------------------------------------------------------------------------

/// The entries, renumbered from one.
pub open spec fn renumbered_all(entries: Seq<Entry>) -> Seq<Entry> {
    Seq::new(entries.len(), |i: int| renumbered(entries[i], (i + 1) as u64))
}

/// Whether the entries can stand alone: distinct, with every parent before its
/// children.
pub open spec fn self_contained(entries: Seq<Entry>) -> bool {
    distinct_entries(entries) && parents_first(entries)
}

proof fn lemma_same_ids(a: Seq<Entry>, b: Seq<Entry>, id: Seq<char>)
    requires
        a.len() == b.len(),
        forall|i: int| 0 <= i < a.len() ==> (#[trigger] a[i]).spec_id() == b[i].spec_id(),
    ensures
        has_entry(a, id) == has_entry(b, id),
{
    lemma_has_entry(a, id);
    lemma_has_entry(b, id);
    if has_entry(a, id) {
        let i = choose|i: int| 0 <= i < a.len() && (#[trigger] a[i]).spec_id() == id;
        assert(b[i].spec_id() == id);
    }
    if has_entry(b, id) {
        let i = choose|i: int| 0 <= i < b.len() && (#[trigger] b[i]).spec_id() == id;
        assert(a[i].spec_id() == id);
    }
}

/// A state that a fork passes through.
spec fn forked(
    s: SessionView,
    entries: Seq<Entry>,
    lanes: Seq<LaneView>,
    name: Option<Seq<char>>,
    labels: Map<Seq<char>, Seq<char>>,
    sequence: int,
) -> bool {
    &&& s.wf()
    &&& s.entries == renumbered_all(entries)
    &&& s.lanes == lanes
    &&& s.name == name
    &&& s.labels == labels
    &&& s.records.len() == 0
    &&& s.open.len() == 0
    &&& s.sequence == sequence
}

proof fn lemma_fork_entries(entries: Seq<Entry>, k: int)
    requires
        self_contained(entries),
        entries.len() <= u64::MAX,
        0 <= k <= entries.len(),
    ensures
        replay(fresh_session(), entry_steps(entries).take(k)) matches Ok(t) && forked(
            t,
            entries.take(k),
            fresh_session().lanes,
            None,
            Map::empty(),
            k,
        ),
    decreases k,
{
    let all = entry_steps(entries);
    if k == 0 {
        assert(all.take(0) =~= Seq::<MutationView>::empty());
        assert(renumbered_all(entries.take(0)) =~= Seq::<Entry>::empty());
    } else {
        lemma_fork_entries(entries, k - 1);
        let t = replay(fresh_session(), all.take(k - 1))->Ok_0;
        let m = all[k - 1];
        let entry = entries[k - 1];
        assert(all.take(k).drop_last() =~= all.take(k - 1));
        assert(all.take(k).last() == m);
        let front = entries.take(k - 1);
        assert forall|i: int| 0 <= i < t.entries.len() implies (
        #[trigger] t.entries[i]).spec_id() == front[i].spec_id() by {}
        lemma_has_entry(front, entry.spec_id());
        lemma_same_ids(t.entries, front, entry.spec_id());
        if has_entry(front, entry.spec_id()) {
            let i = choose|i: int|
                0 <= i < front.len() && (#[trigger] front[i]).spec_id() == entry.spec_id();
            assert(entries[i].spec_id() == entries[k - 1].spec_id());
        }
        if let Some(parent) = entry.spec_parent() {
            assert(has_entry(entries.take(k - 1), parent));
            lemma_same_ids(t.entries, front, parent);
        }
        assert(t.problem(m) is None);
        crate::session::state::law_mutations_preserve_consistency(t, m);
        assert(t.after(m).entries =~= renumbered_all(entries.take(k)));
        assert(t.after(m).labels =~= Map::empty());
    }
}

proof fn lemma_replay_more(s: SessionView, a: Seq<MutationView>, b: Seq<MutationView>, k: int)
    requires
        0 <= k < b.len(),
    ensures
        replay(s, a + b.take(k + 1)) == match replay(s, a + b.take(k)) {
            Ok(t) => match t.problem(b[k]) {
                Some(e) => Err(e),
                None => Ok(t.after(b[k])),
            },
            Err(e) => Err(e),
        },
{
    let longer = a + b.take(k + 1);
    assert(longer.drop_last() =~= a + b.take(k));
    assert(longer.last() == b[k]);
}

proof fn lemma_fork_lanes(entries: Seq<Entry>, lanes: Seq<LaneView>, k: int)
    requires
        self_contained(entries),
        entries.len() + lanes.len() <= u64::MAX,
        lanes.len() > 0,
        lanes[0].lane == "main"@,
        forall|i: int, j: int|
            0 <= i < j < lanes.len() ==> (#[trigger] lanes[i]).lane != (#[trigger] lanes[j]).lane,
        forall|i: int|
            0 <= i < lanes.len() ==> ((#[trigger] lanes[i]).leaf matches Some(id) ==> has_entry(
                entries,
                id,
            )),
        0 <= k <= lanes.len(),
    ensures
        replay(
            fresh_session(),
            entry_steps(entries) + lane_steps(lanes, entries.len() as int).take(k),
        ) matches Ok(t) && forked(
            t,
            entries,
            if k == 0 {
                fresh_session().lanes
            } else {
                lanes.take(k)
            },
            None,
            Map::empty(),
            entries.len() + k,
        ),
    decreases k,
{
    let n = entries.len() as int;
    let a = entry_steps(entries);
    let b = lane_steps(lanes, n);
    if k == 0 {
        lemma_fork_entries(entries, n);
        assert(a.take(n) =~= a);
        assert(entries.take(n) =~= entries);
        assert(a + b.take(0) =~= a);
    } else {
        lemma_fork_lanes(entries, lanes, k - 1);
        lemma_replay_more(fresh_session(), a, b, k - 1);
        let t = replay(fresh_session(), a + b.take(k - 1))->Ok_0;
        let m = b[k - 1];
        let pointer = lanes[k - 1];
        if let Some(id) = pointer.leaf {
            lemma_same_ids(t.entries, entries, id);
        }
        assert(t.problem(m) is None);
        crate::session::state::law_mutations_preserve_consistency(t, m);
        crate::session::state::lemma_lane_at(t.lanes, pointer.lane);
        let u = t.after(m);
        if k == 1 {
            assert(t.lanes[0].lane == pointer.lane);
            assert(lane_at(t.lanes, pointer.lane) == Some(0int));
            assert(u.lanes =~= lanes.take(1));
        } else {
            if let Some(i) = lane_at(t.lanes, pointer.lane) {
                assert(t.lanes[i] == lanes[i]);
                assert(lanes[i].lane != lanes[k - 1].lane);
            }
            assert(u.lanes =~= lanes.take(k));
        }
    }
}

/// The labels of the given entries.
pub open spec fn labels_within(labels: Map<Seq<char>, Seq<char>>, entries: Seq<Entry>) -> Map<
    Seq<char>,
    Seq<char>,
> {
    Map::new(|id: Seq<char>| labels.dom().contains(id) && has_entry(entries, id), |id: Seq<char>| labels[id])
}

proof fn lemma_fork_labels(
    tree: Seq<MutationView>,
    entries: Seq<Entry>,
    lanes: Seq<LaneView>,
    name: Option<Seq<char>>,
    labels: Map<Seq<char>, Seq<char>>,
    before: int,
    k: int,
)
    requires
        0 <= before,
        before + label_steps(entries, labels, before).len() <= u64::MAX,
        0 <= k <= entries.len(),
        replay(fresh_session(), tree) matches Ok(t) && forked(
            t,
            entries,
            lanes,
            name,
            Map::empty(),
            before,
        ),
    ensures
        replay(
            fresh_session(),
            tree + label_steps(entries.take(k), labels, before),
        ) matches Ok(t) && forked(
            t,
            entries,
            lanes,
            name,
            labels_within(labels, entries.take(k)),
            before + label_steps(entries.take(k), labels, before).len(),
        ),
    decreases k,
{
    let steps = label_steps(entries.take(k), labels, before);
    if k == 0 {
        assert(tree + steps =~= tree);
        assert(labels_within(labels, entries.take(0)) =~= Map::empty());
    } else {
        lemma_fork_labels(tree, entries, lanes, name, labels, before, k - 1);
        let front = entries.take(k - 1);
        assert(entries.take(k).drop_last() =~= front);
        assert(entries.take(k).last() == entries[k - 1]);
        let earlier = label_steps(front, labels, before);
        lemma_fewer_labels(entries, labels, before, k);
        let id = entries[k - 1].spec_id();
        assert forall|x: Seq<char>| has_entry(entries.take(k), x) == (x == id || has_entry(
            front,
            x,
        )) by {}
        if labels.dom().contains(id) {
            assert(steps =~= earlier.push(steps.last()));
            assert((tree + steps).drop_last() =~= tree + earlier);
            assert((tree + steps).last() == steps.last());
            let t = replay(fresh_session(), tree + earlier)->Ok_0;
            let m = steps.last();
            lemma_has_entry(t.entries, id);
            assert(t.entries[k - 1].spec_id() == id);
            assert(t.problem(m) is None);
            crate::session::state::law_mutations_preserve_consistency(t, m);
            assert(t.after(m).labels =~= labels_within(labels, entries.take(k)));
        } else {
            assert(steps == earlier);
            assert(labels_within(labels, entries.take(k)) =~= labels_within(labels, front));
        }
    }
}

proof fn lemma_selection_stands_alone(s: SessionView, options: ForkOptions)
    requires
        s.wf(),
        selection(s, options) is Ok,
    ensures
        self_contained(selection(s, options)->Ok_0.entries),
        ({
            let lanes = selection(s, options)->Ok_0.lanes;
            &&& lanes.len() > 0
            &&& lanes[0].lane == "main"@
            &&& forall|i: int, j: int|
                0 <= i < j < lanes.len() ==> (#[trigger] lanes[i]).lane != (
                #[trigger] lanes[j]).lane
            &&& forall|i: int|
                0 <= i < lanes.len() ==> ((#[trigger] lanes[i]).leaf matches Some(id) ==> has_entry(
                    selection(s, options)->Ok_0.entries,
                    id,
                ))
        }),
{
    match options {
        ForkOptions::Tree => {},
        ForkOptions::Branch { entry_id, position } => {
            let selected = match entry_id {
                Some(id) => Some(id@),
                None => s.lanes[0].leaf,
            };
            if let Some(id) = selected {
                lemma_entry_by_id(s.entries, id);
                let entry = entry_by_id(s.entries, id).unwrap();
                lemma_end_exists(s, entry);
                if let Some(end) = fork_end(entry, entry_id is Some, position) {
                    lemma_branch_stands_alone(s.entries, end);
                }
            }
        },
    }
}

proof fn lemma_branch_stands_alone(entries: Seq<Entry>, end: Seq<char>)
    requires
        self_contained(entries),
        has_entry(entries, end),
    ensures
        self_contained(walk(entries, end, None, None).reverse()),
        has_entry(walk(entries, end, None, None).reverse(), end),
{
    let path = walk(entries, end, None, None);
    let branch = path.reverse();
    law_branches_lead_to_the_root(entries, end, None, None);
    lemma_entry_by_id(entries, end);
    assert forall|i: int, j: int| 0 <= i < j < branch.len() implies (
    #[trigger] branch[i]).spec_id() != (#[trigger] branch[j]).spec_id() by {
        assert(branch[i] == path[path.len() - 1 - i]);
        assert(branch[j] == path[path.len() - 1 - j]);
    }
    assert forall|i: int| 0 <= i < branch.len() implies ((#[trigger] branch[i]).spec_parent() matches Some(
        id,
    ) ==> has_entry(branch.take(i), id)) by {
        let k = path.len() - 1 - i;
        assert(branch[i] == path[k]);
        if let Some(id) = branch[i].spec_parent() {
            if k < path.len() - 1 {
                assert(path[k].spec_parent() == Some(path[k + 1].spec_id()));
                assert(branch[i - 1] == path[k + 1]);
                assert(branch.take(i)[i - 1].spec_id() == id);
                lemma_has_entry(branch.take(i), id);
            } else {
                assert(path.last() == path[k]);
            }
        }
    }
    assert(branch[branch.len() - 1] == path[0]);
    lemma_has_entry(branch, end);
}

/// A fork that is not refused can be rebuilt: its mutations apply one after
/// the other to a new session, and the result holds the selected entries in
/// order, the selected lanes, the name of the source, and the labels that the
/// selected entries have in the source.
pub proof fn law_forks_rebuild_their_selection(s: SessionView, options: ForkOptions)
    requires
        s.wf(),
        forkable(s, options),
        selection(s, options) is Ok,
    ensures
        ({
            let chosen = selection(s, options)->Ok_0;
            replay(fresh_session(), fork_steps(chosen, s.name, s.labels)) matches Ok(t) && {
                &&& t.wf()
                &&& t.entries == renumbered_all(chosen.entries)
                &&& t.lanes == chosen.lanes
                &&& t.name == s.name
                &&& t.labels == labels_within(s.labels, chosen.entries)
                &&& t.stats.message_count == messages_in(chosen.entries)
                &&& t.records.len() == 0
            }
        }),
{
    let chosen = selection(s, options)->Ok_0;
    let entries = chosen.entries;
    let lanes = chosen.lanes;
    let n = entries.len() as int;
    let named = n + lanes.len();
    lemma_selection_stands_alone(s, options);
    let a = entry_steps(entries);
    let b = lane_steps(lanes, n);
    let c = name_steps(s.name, named);
    lemma_fork_lanes(entries, lanes, lanes.len() as int);
    assert(b.take(lanes.len() as int) =~= b);
    assert(lanes.take(lanes.len() as int) =~= lanes);
    let tree = replay(fresh_session(), a + b)->Ok_0;
    if s.name is Some {
        lemma_replay_more(fresh_session(), a + b, c, 0);
        assert(c.take(0) =~= Seq::<MutationView>::empty());
        assert(c.take(1) =~= c);
        assert(a + b + c.take(0) =~= a + b);
        crate::session::state::law_mutations_preserve_consistency(tree, c[0]);
    } else {
        assert(a + b + c =~= a + b);
    }
    let labelled = named + c.len();
    lemma_fork_labels(a + b + c, entries, lanes, s.name, s.labels, labelled, n);
    assert(entries.take(n) =~= entries);
    lemma_messages_same(renumbered_all(entries), entries);
}

proof fn lemma_messages_same(a: Seq<Entry>, b: Seq<Entry>)
    requires
        a.len() == b.len(),
        forall|i: int| 0 <= i < a.len() ==> ((#[trigger] a[i]) is Message) == (b[i] is Message),
    ensures
        messages_in(a) == messages_in(b),
    decreases a.len(),
{
    if a.len() > 0 {
        assert forall|i: int| 0 <= i < a.len() - 1 implies ((#[trigger] a.drop_last()[i]) is Message)
            == (b.drop_last()[i] is Message) by {
            assert(a[i] is Message == b[i] is Message);
        }
        lemma_messages_same(a.drop_last(), b.drop_last());
        assert((a[a.len() - 1] is Message) == (b[b.len() - 1] is Message));
    }
}

/// Forking the tree copies every entry in order, and with them every message,
/// and keeps the lanes, the name and the labels.
pub proof fn law_tree_forks_keep_every_message(s: SessionView)
    requires
        s.wf(),
        forkable(s, ForkOptions::Tree),
    ensures
        ({
            let chosen = selection(s, ForkOptions::Tree)->Ok_0;
            replay(fresh_session(), fork_steps(chosen, s.name, s.labels)) matches Ok(t)
                && t.entries == renumbered_all(s.entries) && t.stats.message_count
                == s.stats.message_count && t.name == s.name && t.labels == s.labels && t.lanes
                == s.lanes
        }),
{
    law_forks_rebuild_their_selection(s, ForkOptions::Tree);
    assert(labels_within(s.labels, s.entries) =~= s.labels);
}

proof fn lemma_label_numbers(
    entries: Seq<Entry>,
    labels: Map<Seq<char>, Seq<char>>,
    before: int,
    i: int,
)
    requires
        0 <= i < label_steps(entries, labels, before).len(),
        0 <= before,
        before + label_steps(entries, labels, before).len() <= u64::MAX,
    ensures
        label_steps(entries, labels, before)[i].spec_seq() == before + i + 1,
    decreases entries.len(),
{
    let steps = label_steps(entries.drop_last(), labels, before);
    if i < steps.len() {
        lemma_label_numbers(entries.drop_last(), labels, before, i);
    }
}

/// The changes of a fork are numbered from one on, without a gap.
pub proof fn law_forks_count_from_one(s: SessionView, options: ForkOptions, i: int)
    requires
        forkable(s, options),
        selection(s, options) is Ok,
        0 <= i < fork_steps(selection(s, options)->Ok_0, s.name, s.labels).len(),
    ensures
        fork_steps(selection(s, options)->Ok_0, s.name, s.labels)[i].spec_seq() == i + 1,
{
    let chosen = selection(s, options)->Ok_0;
    let n = chosen.entries.len() as int;
    let named = n + chosen.lanes.len();
    let labelled = named + name_steps(s.name, named).len();
    let steps = fork_steps(chosen, s.name, s.labels);
    if i < n {
        assert(steps[i] == entry_steps(chosen.entries)[i]);
    } else if i < named {
        assert(steps[i] == lane_steps(chosen.lanes, n)[i - n]);
    } else if i < labelled {
        assert(steps[i] == name_steps(s.name, named)[i - named]);
    } else {
        assert(steps[i] == label_steps(chosen.entries, s.labels, labelled)[i - labelled]);
        lemma_label_numbers(chosen.entries, s.labels, labelled, i - labelled);
    }
}

} // verus!

//! The state of a session: the tree of entries, the lanes that point into it,
//! the records, and the facts about it. Every change is a mutation that is
//! validated before it takes effect.

use vstd::prelude::*;

use crate::session::select::{chosen, first_items, kept, limited, reversed, Chooser};
use crate::session::types::{
    entry_by_id, entry_exists, find_entry, has_entry, lemma_has_entry, Entry, EntryOrder,
    EntryQuery, EntryType, LanePointer, LaneRecord, LogItem, LogOptions, OperationIntent,
    RecordQuery, SessionError, SessionErrorCode, SessionErrorView,
};
use crate::text::{concat2, decimal, decimal_text, same_text, text_of_option};
use crate::types::{copy_text, JsF64};

verus! {

/// A change to a session.
pub enum SessionMutation {
    Entry { lane: Option<String>, entry: Entry },
    Record { record: LaneRecord },
    Lane { seq: u64, lane: String, leaf_id: Option<String> },
    NameFact { seq: u64, name: Option<String> },
    LabelFact { seq: u64, target_id: String, label: Option<String> },
}

/// The mathematical value of a [`SessionMutation`].
pub enum MutationView {
    Entry { lane: Option<Seq<char>>, entry: Entry },
    Record { record: LaneRecord },
    Lane { seq: u64, lane: Seq<char>, leaf: Option<Seq<char>> },
    NameFact { seq: u64, name: Option<Seq<char>> },
    LabelFact { seq: u64, target: Seq<char>, label: Option<Seq<char>> },
}

impl View for SessionMutation {
    type V = MutationView;

    open spec fn view(&self) -> MutationView {
        match *self {
            SessionMutation::Entry { lane, entry } => MutationView::Entry {
                lane: text_of_option(lane),
                entry,
            },
            SessionMutation::Record { record } => MutationView::Record { record },
            SessionMutation::Lane { seq, lane, leaf_id } => MutationView::Lane {
                seq,
                lane: lane@,
                leaf: text_of_option(leaf_id),
            },
            SessionMutation::NameFact { seq, name } => MutationView::NameFact {
                seq,
                name: text_of_option(name),
            },
            SessionMutation::LabelFact { seq, target_id, label } => MutationView::LabelFact {
                seq,
                target: target_id@,
                label: text_of_option(label),
            },
        }
    }
}

impl MutationView {
    /// The sequence number that a mutation takes.
    pub open spec fn spec_seq(self) -> u64 {
        match self {
            MutationView::Entry { entry, .. } => entry.spec_seq(),
            MutationView::Record { record } => record.spec_seq(),
            MutationView::Lane { seq, .. } => seq,
            MutationView::NameFact { seq, .. } => seq,
            MutationView::LabelFact { seq, .. } => seq,
        }
    }
}

impl SessionMutation {
    /// The sequence number that the mutation takes.
    pub fn seq(&self) -> (r: u64)
        ensures
            r == self@.spec_seq(),
    {
        match self {
            SessionMutation::Entry { entry, .. } => entry.seq(),
            SessionMutation::Record { record } => record.seq(),
            SessionMutation::Lane { seq, .. } => *seq,
            SessionMutation::NameFact { seq, .. } => *seq,
            SessionMutation::LabelFact { seq, .. } => *seq,
        }
    }
}

/// The mathematical value of a [`LanePointer`].
pub struct LaneView {
    pub lane: Seq<char>,
    pub leaf: Option<Seq<char>>,
}

/// The mathematical value of a lane pointer.
pub open spec fn lane_view(p: LanePointer) -> LaneView {
    LaneView { lane: p.lane@, leaf: text_of_option(p.leaf_id) }
}

/// The mathematical values of lane pointers.
pub open spec fn lane_views(s: Seq<LanePointer>) -> Seq<LaneView> {
    Seq::new(s.len(), |i: int| lane_view(s[i]))
}

/// The mathematical value of a [`LogItem`].
pub enum LogView {
    Entry { seq: u64, entry: Entry },
    Record { seq: u64, record: LaneRecord },
    Lane { seq: u64, lane: Seq<char>, leaf: Option<Seq<char>> },
    NameFact { seq: u64, name: Option<Seq<char>> },
    LabelFact { seq: u64, target: Seq<char>, label: Option<Seq<char>> },
}

/// The mathematical value of a log item.
pub open spec fn log_view(item: LogItem) -> LogView {
    match item {
        LogItem::Entry { seq, entry } => LogView::Entry { seq, entry },
        LogItem::Record { seq, record } => LogView::Record { seq, record },
        LogItem::Lane { seq, lane, leaf_id } => LogView::Lane {
            seq,
            lane: lane@,
            leaf: text_of_option(leaf_id),
        },
        LogItem::NameFact { seq, name } => LogView::NameFact { seq, name: text_of_option(name) },
        LogItem::LabelFact { seq, target_id, label } => LogView::LabelFact {
            seq,
            target: target_id@,
            label: text_of_option(label),
        },
    }
}

/// The mathematical values of log items.
pub open spec fn log_views(s: Seq<LogItem>) -> Seq<LogView> {
    Seq::new(s.len(), |i: int| log_view(s[i]))
}

impl LogView {
    pub open spec fn spec_seq(self) -> u64 {
        match self {
            LogView::Entry { seq, .. } => seq,
            LogView::Record { seq, .. } => seq,
            LogView::Lane { seq, .. } => seq,
            LogView::NameFact { seq, .. } => seq,
            LogView::LabelFact { seq, .. } => seq,
        }
    }
}

/// How a mutation appears in the log.
pub open spec fn logged(m: MutationView) -> LogView {
    match m {
        MutationView::Entry { entry, .. } => LogView::Entry { seq: entry.spec_seq(), entry },
        MutationView::Record { record } => LogView::Record { seq: record.spec_seq(), record },
        MutationView::Lane { seq, lane, leaf } => LogView::Lane { seq, lane, leaf },
        MutationView::NameFact { seq, name } => LogView::NameFact { seq, name },
        MutationView::LabelFact { seq, target, label } => LogView::LabelFact { seq, target, label },
    }
}

/// Totals over a session. Token counters wrap around at their width. The costs
/// of the session's usage records are kept one by one, in order.
pub struct SessionStats {
    pub message_count: u64,
    pub cached_tokens: u64,
    pub uncached_tokens: u64,
    pub total_tokens: u64,
    pub costs: Vec<JsF64>,
}

/// The mathematical value of [`SessionStats`].
pub struct StatsView {
    pub message_count: u64,
    pub cached_tokens: u64,
    pub uncached_tokens: u64,
    pub total_tokens: u64,
    pub costs: Seq<JsF64>,
}

impl View for SessionStats {
    type V = StatsView;

    open spec fn view(&self) -> StatsView {
        StatsView {
            message_count: self.message_count,
            cached_tokens: self.cached_tokens,
            uncached_tokens: self.uncached_tokens,
            total_tokens: self.total_tokens,
            costs: self.costs@,
        }
    }
}

/// The mathematical value of a [`SessionState`].
#[verifier::ext_equal]
pub struct SessionView {
    pub sequence: u64,
    pub entries: Seq<Entry>,
    pub records: Seq<LaneRecord>,
    /// The operations that were started and not finished, oldest first.
    pub open: Seq<LaneRecord>,
    pub lanes: Seq<LaneView>,
    pub log: Seq<LogView>,
    pub stats: StatsView,
    pub name: Option<Seq<char>>,
    pub labels: Map<Seq<char>, Seq<char>>,
}

/// The last record with the given id.
pub open spec fn has_record(records: Seq<LaneRecord>, id: Seq<char>) -> bool {
    exists|i: int| 0 <= i < records.len() && (#[trigger] records[i]).spec_id() == id
}

/// The position of the first lane with the given name.
pub open spec fn lane_at(lanes: Seq<LaneView>, name: Seq<char>) -> Option<int>
    decreases lanes.len(),
{
    if lanes.len() == 0 {
        None
    } else {
        match lane_at(lanes.drop_last(), name) {
            Some(i) => Some(i),
            None => if lanes.last().lane == name {
                Some(lanes.len() - 1)
            } else {
                None
            },
        }
    }
}

/// How many entries are messages.
pub open spec fn messages_in(entries: Seq<Entry>) -> nat
    decreases entries.len(),
{
    if entries.len() == 0 {
        0
    } else if entries.last() is Message {
        messages_in(entries.drop_last()) + 1
    } else {
        messages_in(entries.drop_last())
    }
}

/// The state of a new session.
pub open spec fn fresh_session() -> SessionView {
    SessionView {
        sequence: 0,
        entries: Seq::empty(),
        records: Seq::empty(),
        open: Seq::empty(),
        lanes: seq![LaneView { lane: "main"@, leaf: None }],
        log: Seq::empty(),
        stats: StatsView {
            message_count: 0,
            cached_tokens: 0,
            uncached_tokens: 0,
            total_tokens: 0,
            costs: Seq::empty(),
        },
        name: None,
        labels: Map::empty(),
    }
}

/// The error of an invalid mutation.
pub open spec fn invalid(message: Seq<char>) -> SessionErrorView {
    SessionErrorView {
        code: SessionErrorCode::InvalidEntry,
        message: "Invalid session mutation: "@ + message,
    }
}

/// The open operations without the one that a record finishes.
pub open spec fn without_operation(
    open: Seq<LaneRecord>,
    lane: Seq<char>,
    run: Seq<char>,
) -> Seq<LaneRecord> {
    kept(open, |r: LaneRecord| !(r.spec_lane() == lane && r.spec_id() == run))
}

/// The open operations after a record.
pub open spec fn open_after(open: Seq<LaneRecord>, record: LaneRecord) -> Seq<LaneRecord> {
    match record {
        LaneRecord::OperationStarted { .. } => open.push(record),
        LaneRecord::OperationFinished { lane, run_id, .. } => without_operation(
            open,
            lane@,
            run_id@,
        ),
        _ => open,
    }
}

/// The totals after a record.
pub open spec fn stats_after(stats: StatsView, record: LaneRecord) -> StatsView {
    match record {
        LaneRecord::Usage { usage, .. } => StatsView {
            message_count: stats.message_count,
            cached_tokens: stats.cached_tokens.wrapping_add(usage.cache_read),
            uncached_tokens: stats.uncached_tokens.wrapping_add(
                usage.input.wrapping_add(usage.cache_write),
            ),
            total_tokens: stats.total_tokens.wrapping_add(usage.total_tokens),
            costs: stats.costs.push(usage.cost.total),
        },
        _ => stats,
    }
}

/// The lanes with one of them pointed at an entry.
pub open spec fn lane_moved(
    lanes: Seq<LaneView>,
    lane: Seq<char>,
    leaf: Option<Seq<char>>,
) -> Seq<LaneView> {
    match lane_at(lanes, lane) {
        Some(i) => lanes.update(i, LaneView { lane, leaf }),
        None => lanes.push(LaneView { lane, leaf }),
    }
}

impl SessionView {
    /// Whether an entry or a record has the id.
    pub open spec fn uses_id(self, id: Seq<char>) -> bool {
        has_entry(self.entries, id) || has_record(self.records, id)
    }

    /// The rule that a mutation breaks, if any.
    pub open spec fn problem(self, m: MutationView) -> Option<SessionErrorView> {
        if m.spec_seq() != self.sequence + 1 {
            Some(invalid("has non-consecutive seq "@ + decimal(m.spec_seq() as nat)))
        } else {
            match m {
                MutationView::Entry { lane, entry } => self.entry_problem(lane, entry),
                MutationView::Record { record } => if lane_at(
                    self.lanes,
                    record.spec_lane(),
                ) is None {
                    Some(invalid("references missing lane "@ + record.spec_lane()))
                } else if self.uses_id(record.spec_id()) {
                    Some(invalid("contains duplicate id "@ + record.spec_id()))
                } else {
                    None
                },
                MutationView::Lane { leaf, .. } => match leaf {
                    Some(id) => if has_entry(self.entries, id) {
                        None
                    } else {
                        Some(invalid("references missing lane target "@ + id))
                    },
                    None => None,
                },
                MutationView::NameFact { .. } => None,
                MutationView::LabelFact { target, .. } => if has_entry(self.entries, target) {
                    None
                } else {
                    Some(invalid("references missing label target "@ + target))
                },
            }
        }
    }

    /// The rule that a new entry breaks, if any.
    pub open spec fn entry_problem(self, lane: Option<Seq<char>>, entry: Entry) -> Option<
        SessionErrorView,
    > {
        if self.uses_id(entry.spec_id()) {
            Some(invalid("contains duplicate id "@ + entry.spec_id()))
        } else if lane is Some && lane_at(self.lanes, lane.unwrap()) is None {
            Some(invalid("references missing lane "@ + lane.unwrap()))
        } else if lane is Some && entry.spec_parent() != self.lanes[lane_at(
            self.lanes,
            lane.unwrap(),
        ).unwrap()].leaf {
            Some(invalid("does not chain to the lane leaf"@))
        } else if entry.spec_parent() is Some && !has_entry(
            self.entries,
            entry.spec_parent().unwrap(),
        ) {
            Some(invalid("references missing parent "@ + entry.spec_parent().unwrap()))
        } else {
            None
        }
    }

    /// The state after a valid mutation.
    pub open spec fn after(self, m: MutationView) -> SessionView {
        let base = SessionView {
            sequence: m.spec_seq(),
            log: self.log.push(logged(m)),
            ..self
        };
        match m {
            MutationView::Entry { lane, entry } => SessionView {
                entries: self.entries.push(entry),
                lanes: match lane {
                    Some(name) => lane_moved(self.lanes, name, Some(entry.spec_id())),
                    None => self.lanes,
                },
                stats: if entry is Message {
                    StatsView {
                        message_count: (self.stats.message_count + 1) as u64,
                        ..self.stats
                    }
                } else {
                    self.stats
                },
                ..base
            },
            MutationView::Record { record } => SessionView {
                records: self.records.push(record),
                open: open_after(self.open, record),
                stats: stats_after(self.stats, record),
                ..base
            },
            MutationView::Lane { lane, leaf, .. } => SessionView {
                lanes: lane_moved(self.lanes, lane, leaf),
                ..base
            },
            MutationView::NameFact { name, .. } => SessionView { name, ..base },
            MutationView::LabelFact { target, label, .. } => SessionView {
                labels: match label {
                    Some(text) => self.labels.insert(target, text),
                    None => self.labels.remove(target),
                },
                ..base
            },
        }
    }

    /// Whether the parts of the state fit together.
    pub open spec fn wf(self) -> bool {
        &&& self.log.len() == self.sequence
        &&& forall|i: int|
            0 <= i < self.log.len() ==> (#[trigger] self.log[i]).spec_seq() == i + 1
        &&& self.labels.dom().finite()
        &&& self.entries.len() + self.lanes.len() + self.labels.dom().len() + (if self.name is Some {
            1nat
        } else {
            0nat
        }) <= self.sequence + 1
        &&& distinct_entries(self.entries)
        &&& parents_first(self.entries)
        &&& forall|i: int, j: int|
            0 <= i < j < self.records.len() ==> (#[trigger] self.records[i]).spec_id() != (
            #[trigger] self.records[j]).spec_id()
        &&& forall|i: int, j: int|
            0 <= i < self.entries.len() && 0 <= j < self.records.len() ==> (
            #[trigger] self.entries[i]).spec_id() != (#[trigger] self.records[j]).spec_id()
        &&& forall|i: int, j: int|
            0 <= i < j < self.entries.len() ==> (#[trigger] self.entries[i]).spec_seq() < (
            #[trigger] self.entries[j]).spec_seq()
        &&& forall|i: int|
            0 <= i < self.entries.len() ==> 0 < (#[trigger] self.entries[i]).spec_seq()
                <= self.sequence
        &&& self.lanes_wf()
        &&& forall|id: Seq<char>|
            #[trigger] self.labels.dom().contains(id) ==> has_entry(self.entries, id)
        &&& self.stats.message_count == messages_in(self.entries)
        &&& forall|i: int|
            0 <= i < self.open.len() ==> (#[trigger] self.open[i]) is OperationStarted
                && has_record(self.records, self.open[i].spec_id())
    }

    /// Lanes have distinct names, `main` is the first of them, and each points
    /// at an entry or at nothing.
    pub open spec fn lanes_wf(self) -> bool {
        &&& self.lanes.len() > 0
        &&& self.lanes[0].lane == "main"@
        &&& forall|i: int, j: int|
            0 <= i < j < self.lanes.len() ==> (#[trigger] self.lanes[i]).lane != (
            #[trigger] self.lanes[j]).lane
        &&& forall|i: int|
            0 <= i < self.lanes.len() ==> ((#[trigger] self.lanes[i]).leaf matches Some(id)
                ==> has_entry(self.entries, id))
    }
}

/// Entries have distinct ids.
pub open spec fn distinct_entries(entries: Seq<Entry>) -> bool {
    forall|i: int, j: int|
        0 <= i < j < entries.len() ==> (#[trigger] entries[i]).spec_id() != (
        #[trigger] entries[j]).spec_id()
}

/// The parent of each entry stands before it.
pub open spec fn parents_first(entries: Seq<Entry>) -> bool {
    forall|i: int|
        0 <= i < entries.len() ==> ((#[trigger] entries[i]).spec_parent() matches Some(id)
            ==> has_entry(entries.take(i), id))
}

// ---------------------------------------------------------------------------
// Preservation
// ---------------------------------------------------------------------------

/// What the search for a lane finds.
pub proof fn lemma_lane_at(lanes: Seq<LaneView>, name: Seq<char>)
    ensures
        match lane_at(lanes, name) {
            Some(i) => 0 <= i < lanes.len() && lanes[i].lane == name && forall|j: int|
                0 <= j < i ==> (#[trigger] lanes[j]).lane != name,
            None => forall|j: int| 0 <= j < lanes.len() ==> (#[trigger] lanes[j]).lane != name,
        },
    decreases lanes.len(),
{
    if lanes.len() > 0 {
        let shorter = lanes.drop_last();
        lemma_lane_at(shorter, name);
        match lane_at(shorter, name) {
            Some(i) => {
                assert(lanes[i] == shorter[i]);
                assert forall|j: int| 0 <= j < i implies (#[trigger] lanes[j]).lane != name by {
                    assert(shorter[j] == lanes[j]);
                }
            },
            None => {
                assert forall|j: int| 0 <= j < lanes.len() - 1 implies (#[trigger] lanes[j]).lane
                    != name by {
                    assert(shorter[j] == lanes[j]);
                }
            },
        }
    }
}

proof fn lemma_entry_pushed(entries: Seq<Entry>, entry: Entry)
    ensures
        forall|id: Seq<char>|
            #[trigger] has_entry(entries.push(entry), id) == (entry.spec_id() == id || has_entry(
                entries,
                id,
            )),
        messages_in(entries.push(entry)) == messages_in(entries) + if entry is Message {
            1nat
        } else {
            0nat
        },
{
    assert(entries.push(entry).drop_last() =~= entries);
}

proof fn lemma_messages_bound(entries: Seq<Entry>)
    ensures
        messages_in(entries) <= entries.len(),
    decreases entries.len(),
{
    if entries.len() > 0 {
        lemma_messages_bound(entries.drop_last());
    }
}

proof fn lemma_entry_preserves(s: SessionView, lane: Option<Seq<char>>, entry: Entry)
    requires
        s.wf(),
        s.problem(MutationView::Entry { lane, entry }) is None,
    ensures
        s.after(MutationView::Entry { lane, entry }).wf(),
{
    let t = s.after(MutationView::Entry { lane, entry });
    lemma_entry_pushed(s.entries, entry);
    lemma_messages_bound(s.entries);
    lemma_has_entry(s.entries, entry.spec_id());
    assert(distinct_entries(t.entries));
    assert forall|i: int| 0 <= i < t.entries.len() implies ((
    #[trigger] t.entries[i]).spec_parent() matches Some(id) ==> has_entry(t.entries.take(i), id)) by {
        if i < s.entries.len() {
            assert(t.entries.take(i) =~= s.entries.take(i));
            assert(t.entries[i] == s.entries[i]);
        } else {
            assert(t.entries.take(i) =~= s.entries);
        }
    }
    if let Some(name) = lane {
        lemma_lane_at(s.lanes, name);
        let at = lane_at(s.lanes, name).unwrap();
        assert(t.lanes == s.lanes.update(
            at,
            LaneView { lane: name, leaf: Some(entry.spec_id()) },
        ));
    }
    assert forall|i: int| 0 <= i < t.lanes.len() implies ((#[trigger] t.lanes[i]).leaf matches Some(
        id,
    ) ==> has_entry(t.entries, id)) by {
        if t.lanes[i] == s.lanes[i] {
        }
    }
    assert forall|i: int, j: int|
        0 <= i < j < t.lanes.len() implies (#[trigger] t.lanes[i]).lane != (
    #[trigger] t.lanes[j]).lane by {
        assert(t.lanes[i].lane == s.lanes[i].lane);
        assert(t.lanes[j].lane == s.lanes[j].lane);
    }
}

proof fn lemma_record_preserves(s: SessionView, record: LaneRecord)
    requires
        s.wf(),
        s.problem(MutationView::Record { record }) is None,
    ensures
        s.after(MutationView::Record { record }).wf(),
{
    let t = s.after(MutationView::Record { record });
    assert forall|i: int, j: int| 0 <= i < j < t.records.len() implies (
    #[trigger] t.records[i]).spec_id() != (#[trigger] t.records[j]).spec_id() by {
        assert(t.records[i] == s.records[i]);
        if j < s.records.len() {
            assert(t.records[j] == s.records[j]);
        }
    }
    lemma_has_entry(s.entries, record.spec_id());
    assert(t.records[s.records.len() as int] == record);
    assert forall|id: Seq<char>| has_record(s.records, id) implies #[trigger] has_record(
        t.records,
        id,
    ) by {
        let i = choose|i: int|
            0 <= i < s.records.len() && (#[trigger] s.records[i]).spec_id() == id;
        assert(t.records[i].spec_id() == id);
    }
    assert(has_record(t.records, record.spec_id()));
    match record {
        LaneRecord::OperationFinished { lane, run_id, .. } => {
            let p = |r: LaneRecord| !(r.spec_lane() == lane@ && r.spec_id() == run_id@);
            assert forall|k: int| 0 <= k < t.open.len() implies (#[trigger] t.open[k])
                is OperationStarted && has_record(t.records, t.open[k].spec_id()) by {
                crate::session::select::lemma_kept(s.open, p, k);
            }
        },
        _ => {},
    }
}

proof fn lemma_lane_preserves(s: SessionView, seq: u64, lane: Seq<char>, leaf: Option<Seq<char>>)
    requires
        s.wf(),
        s.problem(MutationView::Lane { seq, lane, leaf }) is None,
    ensures
        s.after(MutationView::Lane { seq, lane, leaf }).wf(),
{
    let t = s.after(MutationView::Lane { seq, lane, leaf });
    lemma_lane_at(s.lanes, lane);
    assert forall|i: int, j: int|
        0 <= i < j < t.lanes.len() implies (#[trigger] t.lanes[i]).lane != (
    #[trigger] t.lanes[j]).lane by {
        assert(t.lanes[i].lane == s.lanes[i].lane);
        if j < s.lanes.len() {
            assert(t.lanes[j].lane == s.lanes[j].lane);
        }
    }
    assert forall|i: int| 0 <= i < t.lanes.len() implies ((#[trigger] t.lanes[i]).leaf matches Some(
        id,
    ) ==> has_entry(t.entries, id)) by {
        if i < s.lanes.len() && t.lanes[i] == s.lanes[i] {
        }
    }
}

/// A valid mutation of a consistent session leaves it consistent.
pub proof fn law_mutations_preserve_consistency(s: SessionView, m: MutationView)
    requires
        s.wf(),
        s.problem(m) is None,
    ensures
        s.after(m).wf(),
{
    match m {
        MutationView::Entry { lane, entry } => lemma_entry_preserves(s, lane, entry),
        MutationView::Record { record } => lemma_record_preserves(s, record),
        MutationView::Lane { seq, lane, leaf } => lemma_lane_preserves(s, seq, lane, leaf),
        MutationView::NameFact { .. } => {},
        MutationView::LabelFact { .. } => {},
    }
}

// ---------------------------------------------------------------------------
// State
// ---------------------------------------------------------------------------

/// The state of a session.
pub struct SessionState {
    sequence: u64,
    entries: Vec<Entry>,
    records: Vec<LaneRecord>,
    open_operations: Vec<LaneRecord>,
    lanes: Vec<LanePointer>,
    log: Vec<LogItem>,
    stats: SessionStats,
    name: Option<String>,
    labels: Vec<(String, String)>,
}

/// The labels that a list of pairs stands for; a later pair replaces an
/// earlier one with the same target.
spec fn labels_of(pairs: Seq<(String, String)>) -> Map<Seq<char>, Seq<char>>
    decreases pairs.len(),
{
    if pairs.len() == 0 {
        Map::empty()
    } else {
        labels_of(pairs.drop_last()).insert(pairs.last().0@, pairs.last().1@)
    }
}

impl View for SessionState {
    type V = SessionView;

    closed spec fn view(&self) -> SessionView {
        SessionView {
            sequence: self.sequence,
            entries: self.entries@,
            records: self.records@,
            open: self.open_operations@,
            lanes: lane_views(self.lanes@),
            log: log_views(self.log@),
            stats: self.stats@,
            name: text_of_option(self.name),
            labels: labels_of(self.labels@),
        }
    }
}

fn invalid_mutation(message: &str) -> (r: Result<(), SessionError>)
    ensures
        r matches Err(e) && e@ == invalid(message@),
{
    Err(
        SessionError::new(
            SessionErrorCode::InvalidEntry,
            concat2("Invalid session mutation: ", message),
        ),
    )
}

/// The outcome of a check in terms of mathematical values.
pub open spec fn refusal(r: Result<(), SessionError>) -> Option<SessionErrorView> {
    match r {
        Ok(_) => None,
        Err(e) => Some(e@),
    }
}

/// The position of the lane with the given name.
pub fn find_lane(lanes: &Vec<LanePointer>, name: &str) -> (r: Option<usize>)
    ensures
        match r {
            Some(i) => lane_at(lane_views(lanes@), name@) == Some(i as int) && i < lanes@.len(),
            None => lane_at(lane_views(lanes@), name@) is None,
        },
{
    let ghost views = lane_views(lanes@);
    let mut i: usize = 0;
    proof {
        lemma_lane_at(views, name@);
    }
    while i < lanes.len()
        invariant
            i <= lanes@.len(),
            views == lane_views(lanes@),
            forall|j: int| 0 <= j < i ==> (#[trigger] views[j]).lane != name@,
            match lane_at(views, name@) {
                Some(k) => 0 <= k < views.len() && views[k].lane == name@ && forall|j: int|
                    0 <= j < k ==> (#[trigger] views[j]).lane != name@,
                None => forall|j: int|
                    0 <= j < views.len() ==> (#[trigger] views[j]).lane != name@,
            },
        decreases lanes@.len() - i,
    {
        if same_text(lanes[i].lane.as_str(), name) {
            proof {
                assert(views[i as int].lane == name@);
            }
            return Some(i);
        }
        i = i + 1;
    }
    None
}

fn record_id_used(records: &Vec<LaneRecord>, id: &str) -> (r: bool)
    ensures
        r == has_record(records@, id@),
{
    let mut i: usize = 0;
    while i < records.len()
        invariant
            i <= records@.len(),
            forall|j: int| 0 <= j < i ==> (#[trigger] records@[j]).spec_id() != id@,
        decreases records@.len() - i,
    {
        if same_text(records[i].id().as_str(), id) {
            return true;
        }
        i = i + 1;
    }
    false
}

fn same_leaf(a: &Option<String>, b: &Option<String>) -> (r: bool)
    ensures
        r == (text_of_option(*a) == text_of_option(*b)),
{
    crate::text::same_optional_text(a, b)
}

/// Chooses the open operations that a record does not finish.
struct Unfinished<'a> {
    lane: &'a String,
    run: &'a String,
}

impl<'a> Chooser<LaneRecord> for Unfinished<'a> {
    closed spec fn chooses(&self, item: LaneRecord) -> bool {
        !(item.spec_lane() == self.lane@ && item.spec_id() == self.run@)
    }

    fn test(&self, item: &LaneRecord) -> (r: bool) {
        !(*item.lane() == *self.lane && *item.id() == *self.run)
    }
}

fn without_label(pairs: &Vec<(String, String)>, target: &String) -> (r: Vec<(String, String)>)
    ensures
        labels_of(r@) == labels_of(pairs@).remove(target@),
{
    let mut out: Vec<(String, String)> = Vec::new();
    let mut i: usize = 0;
    proof {
        assert(pairs@.take(0) =~= Seq::<(String, String)>::empty());
        assert(labels_of(out@) =~= labels_of(pairs@.take(0)).remove(target@));
    }
    while i < pairs.len()
        invariant
            i <= pairs@.len(),
            labels_of(out@) == labels_of(pairs@.take(i as int)).remove(target@),
        decreases pairs@.len() - i,
    {
        let ghost before = labels_of(pairs@.take(i as int));
        let ghost kept_before = out@;
        proof {
            assert(pairs@.take(i as int + 1).drop_last() =~= pairs@.take(i as int));
        }
        if pairs[i].0 != *target {
            out.push((pairs[i].0.clone(), pairs[i].1.clone()));
            proof {
                assert(out@.drop_last() =~= kept_before);
                assert(labels_of(out@) =~= before.insert(
                    pairs@[i as int].0@,
                    pairs@[i as int].1@,
                ).remove(target@));
            }
        } else {
            proof {
                assert(before.remove(target@) =~= before.insert(
                    pairs@[i as int].0@,
                    pairs@[i as int].1@,
                ).remove(target@));
            }
        }
        i = i + 1;
    }
    proof {
        assert(pairs@.take(pairs@.len() as int) =~= pairs@);
    }
    out
}

impl SessionState {
    /// The state of a new session: one lane, `main`, that points nowhere.
    pub fn new() -> (r: Self)
        ensures
            r@ == fresh_session(),
            r@.wf(),
    {
        let mut lanes: Vec<LanePointer> = Vec::new();
        lanes.push(LanePointer { lane: "main".to_owned(), leaf_id: None });
        let state: SessionState = SessionState {
            sequence: 0,
            entries: Vec::new(),
            records: Vec::new(),
            open_operations: Vec::new(),
            lanes,
            log: Vec::new(),
            stats: SessionStats {
                message_count: 0,
                cached_tokens: 0,
                uncached_tokens: 0,
                total_tokens: 0,
                costs: Vec::new(),
            },
            name: None,
            labels: Vec::new(),
        };
        proof {
            assert(state@ =~= fresh_session());
        }
        state
    }

    /// The sequence number that the next mutation takes.
    pub fn next_sequence(&self) -> (r: u64)
        requires
            self@.sequence < u64::MAX,
        ensures
            r == self@.sequence + 1,
    {
        self.sequence + 1
    }

    /// The sequence number of the last mutation.
    pub fn sequence(&self) -> (r: u64)
        ensures
            r == self@.sequence,
    {
        self.sequence
    }

    /// The lanes, oldest first.
    pub fn get_lanes(&self) -> (r: Vec<LanePointer>)
        ensures
            lane_views(r@) == self@.lanes,
    {
        let r: Vec<LanePointer> = self.lanes.clone();
        proof {
            assert(r@ =~= self.lanes@);
        }
        r
    }

    /// The entry that a lane points to.
    pub fn require_lane(&self, lane: &str) -> (r: Result<Option<String>, SessionError>)
        ensures
            match r {
                Ok(leaf) => lane_at(self@.lanes, lane@) matches Some(i) && text_of_option(leaf)
                    == self@.lanes[i].leaf,
                Err(e) => lane_at(self@.lanes, lane@) is None && e@ == (SessionErrorView {
                    code: SessionErrorCode::InvalidLane,
                    message: "Lane not found: "@ + lane@,
                }),
            },
    {
        match find_lane(&self.lanes, lane) {
            Some(i) => Ok(copy_text(&self.lanes[i].leaf_id)),
            None => Err(
                SessionError::new(
                    SessionErrorCode::InvalidLane,
                    concat2("Lane not found: ", lane),
                ),
            ),
        }
    }

    /// Accepts a name that no lane has.
    pub fn validate_new_lane(&self, lane: &str) -> (r: Result<(), SessionError>)
        ensures
            refusal(r) == if lane_at(self@.lanes, lane@) is Some {
                Some(
                    SessionErrorView {
                        code: SessionErrorCode::AlreadyExists,
                        message: "Lane already exists: "@ + lane@,
                    },
                )
            } else {
                None
            },
    {
        match find_lane(&self.lanes, lane) {
            Some(_) => Err(
                SessionError::new(
                    SessionErrorCode::AlreadyExists,
                    concat2("Lane already exists: ", lane),
                ),
            ),
            None => Ok(()),
        }
    }

    /// Accepts the id of an entry, or none.
    pub fn validate_target(&self, target_id: &Option<String>) -> (r: Result<(), SessionError>)
        ensures
            refusal(r) == match *target_id {
                Some(id) => if has_entry(self@.entries, id@) {
                    None
                } else {
                    Some(
                        SessionErrorView {
                            code: SessionErrorCode::NotFound,
                            message: "Entry not found: "@ + id@,
                        },
                    )
                },
                None => None,
            },
    {
        match target_id {
            Some(id) => if entry_exists(&self.entries, id) {
                Ok(())
            } else {
                Err(
                    SessionError::new(
                        SessionErrorCode::NotFound,
                        concat2("Entry not found: ", id.as_str()),
                    ),
                )
            },
            None => Ok(()),
        }
    }

    fn id_used(&self, id: &String) -> (r: bool)
        ensures
            r == self@.uses_id(id@),
    {
        entry_exists(&self.entries, id) || record_id_used(&self.records, id.as_str())
    }

    /// Accepts an id that neither an entry nor a record has.
    pub fn validate_unused_id(&self, id: &String) -> (r: Result<(), SessionError>)
        ensures
            refusal(r) == if self@.uses_id(id@) {
                Some(
                    SessionErrorView {
                        code: SessionErrorCode::AlreadyExists,
                        message: "Session id already exists: "@ + id@,
                    },
                )
            } else {
                None
            },
    {
        if self.id_used(id) {
            Err(
                SessionError::new(
                    SessionErrorCode::AlreadyExists,
                    concat2("Session id already exists: ", id.as_str()),
                ),
            )
        } else {
            Ok(())
        }
    }

    fn check_entry(&self, lane: &Option<String>, entry: &Entry) -> (r: Result<(), SessionError>)
        ensures
            refusal(r) == self@.entry_problem(text_of_option(*lane), *entry),
    {
        if self.id_used(entry.id()) {
            return invalid_mutation(
                concat2("contains duplicate id ", entry.id().as_str()).as_str(),
            );
        }
        if let Some(name) = lane {
            match find_lane(&self.lanes, name.as_str()) {
                None => {
                    return invalid_mutation(
                        concat2("references missing lane ", name.as_str()).as_str(),
                    );
                },
                Some(i) => {
                    if !same_leaf(entry.parent_id(), &self.lanes[i].leaf_id) {
                        return invalid_mutation("does not chain to the lane leaf");
                    }
                },
            }
        }
        if let Some(parent) = entry.parent_id() {
            if !entry_exists(&self.entries, parent) {
                return invalid_mutation(
                    concat2("references missing parent ", parent.as_str()).as_str(),
                );
            }
        }
        Ok(())
    }

    fn check(&self, mutation: &SessionMutation) -> (r: Result<(), SessionError>)
        ensures
            refusal(r) == self@.problem(mutation@),
    {
        let seq: u64 = mutation.seq();
        if seq == 0 || seq - 1 != self.sequence {
            return invalid_mutation(
                concat2("has non-consecutive seq ", decimal_text(seq).as_str()).as_str(),
            );
        }
        match mutation {
            SessionMutation::Entry { lane, entry } => self.check_entry(lane, entry),
            SessionMutation::Record { record } => {
                if find_lane(&self.lanes, record.lane().as_str()).is_none() {
                    invalid_mutation(
                        concat2("references missing lane ", record.lane().as_str()).as_str(),
                    )
                } else if self.id_used(record.id()) {
                    invalid_mutation(
                        concat2("contains duplicate id ", record.id().as_str()).as_str(),
                    )
                } else {
                    Ok(())
                }
            },
            SessionMutation::Lane { leaf_id, .. } => match leaf_id {
                Some(id) => if entry_exists(&self.entries, id) {
                    Ok(())
                } else {
                    invalid_mutation(
                        concat2("references missing lane target ", id.as_str()).as_str(),
                    )
                },
                None => Ok(()),
            },
            SessionMutation::NameFact { .. } => Ok(()),
            SessionMutation::LabelFact { target_id, .. } => if entry_exists(
                &self.entries,
                target_id,
            ) {
                Ok(())
            } else {
                invalid_mutation(
                    concat2("references missing label target ", target_id.as_str()).as_str(),
                )
            },
        }
    }

    fn move_pointer(&mut self, lane: &String, leaf_id: Option<String>)
        ensures
            final(self)@ == (SessionView {
                lanes: lane_moved(old(self)@.lanes, lane@, text_of_option(leaf_id)),
                ..old(self)@
            }),
    {
        let ghost before = lane_views(self.lanes@);
        let ghost leaf = text_of_option(leaf_id);
        let pointer: LanePointer = LanePointer { lane: lane.clone(), leaf_id };
        match find_lane(&self.lanes, lane.as_str()) {
            Some(i) => {
                self.lanes.set(i, pointer);
                proof {
                    assert(lane_views(self.lanes@) =~= before.update(
                        i as int,
                        LaneView { lane: lane@, leaf },
                    ));
                }
            },
            None => {
                self.lanes.push(pointer);
                proof {
                    assert(lane_views(self.lanes@) =~= before.push(
                        LaneView { lane: lane@, leaf },
                    ));
                }
            },
        }
    }

    fn push_log(&mut self, seq: u64, item: LogItem)
        ensures
            final(self)@ == (SessionView {
                sequence: seq,
                log: old(self)@.log.push(log_view(item)),
                ..old(self)@
            }),
    {
        let ghost before = log_views(self.log@);
        self.sequence = seq;
        self.log.push(item);
        proof {
            assert(log_views(self.log@) =~= before.push(log_view(item)));
        }
    }

    fn apply_entry(&mut self, lane: Option<String>, entry: Entry)
        requires
            old(self)@.wf(),
            old(self)@.problem(
                MutationView::Entry { lane: text_of_option(lane), entry },
            ) is None,
        ensures
            final(self)@ == old(self)@.after(
                MutationView::Entry { lane: text_of_option(lane), entry },
            ),
    {
        proof {
            lemma_messages_bound(self.entries@);
        }
        if let Some(name) = &lane {
            self.move_pointer(name, Some(entry.id().clone()));
        }
        if entry.entry_type() == EntryType::Message {
            self.stats.message_count = self.stats.message_count + 1;
        }
        self.push_log(entry.seq(), LogItem::Entry { seq: entry.seq(), entry: entry.clone() });
        self.entries.push(entry);
        proof {
            assert(self@ =~= old(self)@.after(
                MutationView::Entry { lane: text_of_option(lane), entry },
            ));
        }
    }

    fn apply_record(&mut self, record: LaneRecord)
        ensures
            final(self)@ == old(self)@.after(MutationView::Record { record }),
    {
        match &record {
            LaneRecord::OperationStarted { .. } => {
                self.open_operations.push(record.clone());
            },
            LaneRecord::OperationFinished { lane, run_id, .. } => {
                let rest: Vec<LaneRecord> = chosen(
                    &self.open_operations,
                    &Unfinished { lane, run: run_id },
                    None,
                );
                proof {
                    let c = Unfinished { lane, run: run_id };
                    assert(crate::session::select::choice::<LaneRecord, Unfinished>(c) =~= (
                    |r: LaneRecord| !(r.spec_lane() == lane@ && r.spec_id() == run_id@)));
                }
                self.open_operations = rest;
            },
            LaneRecord::Usage { usage, .. } => {
                self.stats.cached_tokens = self.stats.cached_tokens.wrapping_add(usage.cache_read);
                self.stats.uncached_tokens =
                self.stats.uncached_tokens.wrapping_add(usage.input.wrapping_add(usage.cache_write));
                self.stats.total_tokens = self.stats.total_tokens.wrapping_add(usage.total_tokens);
                self.stats.costs.push(usage.cost.total);
            },
            _ => {},
        }
        self.push_log(record.seq(), LogItem::Record { seq: record.seq(), record: record.clone() });
        self.records.push(record);
        proof {
            assert(self@ =~= old(self)@.after(MutationView::Record { record }));
        }
    }

    fn apply_label(&mut self, seq: u64, target_id: String, label: Option<String>)
        ensures
            final(self)@ == old(self)@.after(
                MutationView::LabelFact {
                    seq,
                    target: target_id@,
                    label: text_of_option(label),
                },
            ),
    {
        let ghost before = labels_of(self.labels@);
        let mut rest: Vec<(String, String)> = without_label(&self.labels, &target_id);
        let ghost others = rest@;
        if let Some(text) = &label {
            rest.push((target_id.clone(), text.clone()));
            proof {
                assert(rest@.drop_last() =~= others);
                assert(labels_of(rest@) =~= before.insert(target_id@, text@));
            }
        }
        self.labels = rest;
        self.push_log(seq, LogItem::LabelFact { seq, target_id, label });
        proof {
            assert(self@ =~= old(self)@.after(
                MutationView::LabelFact {
                    seq,
                    target: target_id@,
                    label: text_of_option(label),
                },
            ));
        }
    }

    /// Applies a mutation, or refuses it and changes nothing.
    pub fn apply_mutation(&mut self, mutation: SessionMutation) -> (r: Result<(), SessionError>)
        requires
            old(self)@.wf(),
        ensures
            refusal(r) == old(self)@.problem(mutation@),
            r is Ok ==> final(self)@ == old(self)@.after(mutation@),
            r is Err ==> final(self)@ == old(self)@,
            final(self)@.wf(),
    {
        let checked: Result<(), SessionError> = self.check(&mutation);
        if checked.is_err() {
            return checked;
        }
        proof {
            law_mutations_preserve_consistency(self@, mutation@);
        }
        match mutation {
            SessionMutation::Entry { lane, entry } => {
                self.apply_entry(lane, entry);
            },
            SessionMutation::Record { record } => {
                self.apply_record(record);
            },
            SessionMutation::Lane { seq, lane, leaf_id } => {
                self.move_pointer(&lane, copy_text(&leaf_id));
                self.push_log(seq, LogItem::Lane { seq, lane, leaf_id });
                proof {
                    assert(self@ =~= old(self)@.after(mutation@));
                }
            },
            SessionMutation::NameFact { seq, name } => {
                self.name = copy_text(&name);
                self.push_log(seq, LogItem::NameFact { seq, name });
                proof {
                    assert(self@ =~= old(self)@.after(mutation@));
                }
            },
            SessionMutation::LabelFact { seq, target_id, label } => {
                self.apply_label(seq, target_id, label);
            },
        }
        Ok(())
    }
}

// ---------------------------------------------------------------------------
// Queries
// ---------------------------------------------------------------------------

/// The refusal of a limit of zero.
pub open spec fn limit_problem(limit: Option<usize>) -> Option<SessionErrorView> {
    if limit == Some(0usize) {
        Some(
            SessionErrorView {
                code: SessionErrorCode::InvalidQuery,
                message: "limit must be a positive integer"@,
            },
        )
    } else {
        None
    }
}

fn assert_valid_limit(limit: Option<usize>) -> (r: Result<(), SessionError>)
    ensures
        refusal(r) == limit_problem(limit),
{
    if let Some(n) = limit {
        if n == 0 {
            return Err(
                SessionError::new(
                    SessionErrorCode::InvalidQuery,
                    "limit must be a positive integer".to_owned(),
                ),
            );
        }
    }
    Ok(())
}

/// The outcome of a query in terms of mathematical values.
pub open spec fn outcome<T>(r: Result<Vec<T>, SessionError>) -> Result<Seq<T>, SessionErrorView> {
    match r {
        Ok(items) => Ok(items@),
        Err(e) => Err(e@),
    }
}

/// Whether an entry has the queried type.
pub open spec fn fits_type(entry: Entry, entry_type: Option<EntryType>) -> bool {
    entry_type is None || entry_type == Some(entry.spec_type())
}

/// Whether an entry has the queried custom type.
pub open spec fn fits_custom_type(entry: Entry, custom_type: Option<String>) -> bool {
    match custom_type {
        Some(wanted) => match entry {
            Entry::Custom { custom_type, .. } => custom_type@ == wanted@,
            _ => false,
        },
        None => true,
    }
}

/// Whether an entry lies past the cursor in the direction of the query.
pub open spec fn past_cursor(entry: Entry, query: EntryQuery) -> bool {
    match query.cursor {
        Some(cursor) => if query.order == Some(EntryOrder::OldestFirst) {
            entry.spec_seq() > cursor.after_seq
        } else {
            entry.spec_seq() < cursor.after_seq
        },
        None => true,
    }
}

/// Which entries a query looks for.
pub open spec fn entry_matches(query: EntryQuery) -> spec_fn(Entry) -> bool {
    |entry: Entry|
        fits_type(entry, query.entry_type) && fits_custom_type(entry, query.custom_type)
            && past_cursor(entry, query)
}

/// The name of an operation's kind.
pub open spec fn intent_kind(intent: OperationIntent) -> Seq<char> {
    match intent {
        OperationIntent::Run { .. } => "run"@,
        OperationIntent::Compaction { .. } => "compaction"@,
        OperationIntent::Navigation { .. } => "navigation"@,
    }
}

/// Which records a query looks for.
pub open spec fn record_matches(query: RecordQuery) -> spec_fn(LaneRecord) -> bool {
    |record: LaneRecord|
        {
            &&& query.lane matches Some(lane) ==> record.spec_lane() == lane@
            &&& query.record_type is None || query.record_type == Some(record.spec_type())
            &&& query.run_id matches Some(run) ==> record.spec_run_id() == Some(run@)
            &&& query.operation_kind matches Some(kind) ==> record is OperationStarted
                && intent_kind(record->intent) == kind@
            &&& query.after_seq matches Some(after) ==> record.spec_seq() > after
        }
}

struct EntryFilter<'a> {
    query: &'a EntryQuery,
}

impl<'a> Chooser<Entry> for EntryFilter<'a> {
    closed spec fn chooses(&self, item: Entry) -> bool {
        entry_matches(*self.query)(item)
    }

    fn test(&self, item: &Entry) -> (r: bool) {
        let query: &EntryQuery = self.query;
        let typed: bool = match query.entry_type {
            Some(wanted) => item.entry_type() == wanted,
            None => true,
        };
        let custom: bool = match &query.custom_type {
            Some(wanted) => match item {
                Entry::Custom { custom_type, .. } => *custom_type == *wanted,
                _ => false,
            },
            None => true,
        };
        let past: bool = match query.cursor {
            Some(cursor) => match query.order {
                Some(EntryOrder::OldestFirst) => item.seq() > cursor.after_seq,
                _ => item.seq() < cursor.after_seq,
            },
            None => true,
        };
        typed && custom && past
    }
}

struct RecordMatcher<'a> {
    query: &'a RecordQuery,
}

impl<'a> Chooser<LaneRecord> for RecordMatcher<'a> {
    closed spec fn chooses(&self, item: LaneRecord) -> bool {
        record_matches(*self.query)(item)
    }

    fn test(&self, item: &LaneRecord) -> (r: bool) {
        let query: &RecordQuery = self.query;
        let on_lane: bool = match &query.lane {
            Some(lane) => *item.lane() == *lane,
            None => true,
        };
        let typed: bool = match query.record_type {
            Some(wanted) => item.record_type() == wanted,
            None => true,
        };
        let of_run: bool = match &query.run_id {
            Some(run) => match item.run_id() {
                Some(id) => *id == *run,
                None => false,
            },
            None => true,
        };
        let of_kind: bool = match &query.operation_kind {
            Some(kind) => match item {
                LaneRecord::OperationStarted { intent, .. } => same_text(
                    match intent {
                        OperationIntent::Run { .. } => "run",
                        OperationIntent::Compaction { .. } => "compaction",
                        OperationIntent::Navigation { .. } => "navigation",
                    },
                    kind.as_str(),
                ),
                _ => false,
            },
            None => true,
        };
        let later: bool = match query.after_seq {
            Some(after) => item.seq() > after,
            None => true,
        };
        on_lane && typed && of_run && of_kind && later
    }
}

/// Items of the log after a sequence number.
pub open spec fn logged_after(after_seq: Option<u64>) -> spec_fn(LogView) -> bool {
    |item: LogView| after_seq matches Some(after) ==> item.spec_seq() > after
}

struct LogFilter {
    after_seq: Option<u64>,
}

impl Chooser<LogItem> for LogFilter {
    closed spec fn chooses(&self, item: LogItem) -> bool {
        self.after_seq matches Some(after) ==> item.spec_seq() > after
    }

    fn test(&self, item: &LogItem) -> (r: bool) {
        match self.after_seq {
            Some(after) => item.seq() > after,
            None => true,
        }
    }
}

struct OnLane<'a> {
    lane: &'a str,
}

impl<'a> Chooser<LaneRecord> for OnLane<'a> {
    closed spec fn chooses(&self, item: LaneRecord) -> bool {
        item.spec_lane() == self.lane@
    }

    fn test(&self, item: &LaneRecord) -> (r: bool) {
        same_text(item.lane().as_str(), self.lane)
    }
}

/// The open operations of a lane, oldest first.
pub open spec fn open_on_lane(open: Seq<LaneRecord>, lane: Seq<char>) -> Seq<LaneRecord> {
    kept(open, |r: LaneRecord| r.spec_lane() == lane)
}

/// Whether a walk towards the root ends at an entry.
pub open spec fn is_bound(
    entry: Entry,
    stop_at_id: Option<Seq<char>>,
    stop_at_type: Option<EntryType>,
) -> bool {
    stop_at_id == Some(entry.spec_id()) || stop_at_type == Some(entry.spec_type())
}

/// The walk from an entry towards the root, up to a bound. Parents are looked
/// for among the entries before their children.
pub open spec fn walk(
    entries: Seq<Entry>,
    start: Seq<char>,
    stop_at_id: Option<Seq<char>>,
    stop_at_type: Option<EntryType>,
) -> Seq<Entry>
    decreases entries.len(),
{
    if entries.len() == 0 {
        Seq::empty()
    } else if entries.last().spec_id() != start {
        walk(entries.drop_last(), start, stop_at_id, stop_at_type)
    } else if is_bound(entries.last(), stop_at_id, stop_at_type) {
        seq![entries.last()]
    } else {
        match entries.last().spec_parent() {
            Some(parent) => seq![entries.last()] + walk(
                entries.drop_last(),
                parent,
                stop_at_id,
                stop_at_type,
            ),
            None => seq![entries.last()],
        }
    }
}

/// The entries up to and with the first bound.
pub open spec fn up_to_bound(
    path: Seq<Entry>,
    stop_at_id: Option<Seq<char>>,
    stop_at_type: Option<EntryType>,
) -> Seq<Entry>
    decreases path.len(),
{
    if path.len() == 0 {
        Seq::empty()
    } else if is_bound(path[0], stop_at_id, stop_at_type) {
        seq![path[0]]
    } else {
        seq![path[0]] + up_to_bound(path.drop_first(), stop_at_id, stop_at_type)
    }
}

/// The part of a branch that a query looks at, in its order. Both ends of a
/// bounded read from the oldest entry are the bound, since the walk that finds
/// the branch ends there.
pub open spec fn branch_part(
    entries: Seq<Entry>,
    query: EntryQuery,
    stop_at_id: Option<Seq<char>>,
    stop_at_type: Option<EntryType>,
    start: Seq<char>,
) -> Seq<Entry> {
    let path = walk(entries, start, stop_at_id, stop_at_type);
    if query.order == Some(EntryOrder::OldestFirst) {
        up_to_bound(path.reverse(), stop_at_id, stop_at_type)
    } else {
        path
    }
}

impl SessionView {
    /// The entries that a query finds, newest first unless it asks otherwise.
    pub open spec fn found_entries(self, query: EntryQuery) -> Seq<Entry> {
        let items = if query.order == Some(EntryOrder::OldestFirst) {
            self.entries
        } else {
            self.entries.reverse()
        };
        limited(kept(items, entry_matches(query)), query.limit)
    }

    /// The records that a query finds, oldest first unless it asks otherwise.
    pub open spec fn found_records(self, query: RecordQuery) -> Seq<LaneRecord> {
        let items = if query.order == Some(EntryOrder::NewestFirst) {
            self.records.reverse()
        } else {
            self.records
        };
        limited(kept(items, record_matches(query)), query.limit)
    }

    /// The outcome of a query along a branch.
    pub open spec fn found_on_branch(
        self,
        query: EntryQuery,
        stop_at_id: Option<Seq<char>>,
        stop_at_type: Option<EntryType>,
        start: Seq<char>,
    ) -> Result<Seq<Entry>, SessionErrorView> {
        if query.limit == Some(0usize) {
            Err(limit_problem(query.limit).unwrap())
        } else if !has_entry(self.entries, start) {
            Err(
                SessionErrorView {
                    code: SessionErrorCode::NotFound,
                    message: "Entry not found: "@ + start,
                },
            )
        } else {
            Ok(
                limited(
                    kept(
                        branch_part(self.entries, query, stop_at_id, stop_at_type, start),
                        entry_matches(query),
                    ),
                    query.limit,
                ),
            )
        }
    }
}

fn reaches_bound(entry: &Entry, stop_at_id: &Option<String>, stop_at_type: Option<EntryType>) -> (r:
    bool)
    ensures
        r == is_bound(*entry, text_of_option(*stop_at_id), stop_at_type),
{
    let at_id: bool = match stop_at_id {
        Some(id) => *entry.id() == *id,
        None => false,
    };
    let at_type: bool = match stop_at_type {
        Some(wanted) => entry.entry_type() == wanted,
        None => false,
    };
    at_id || at_type
}

fn cut_at_bound(
    path: &Vec<Entry>,
    stop_at_id: &Option<String>,
    stop_at_type: Option<EntryType>,
) -> (r: Vec<Entry>)
    ensures
        r@ == up_to_bound(path@, text_of_option(*stop_at_id), stop_at_type),
{
    let ghost id = text_of_option(*stop_at_id);
    let mut out: Vec<Entry> = Vec::new();
    let mut i: usize = 0;
    proof {
        assert(path@.skip(0) =~= path@);
        assert(out@ + up_to_bound(path@, id, stop_at_type) =~= up_to_bound(path@, id, stop_at_type));
    }
    while i < path.len()
        invariant
            i <= path@.len(),
            id == text_of_option(*stop_at_id),
            out@ + up_to_bound(path@.skip(i as int), id, stop_at_type) == up_to_bound(
                path@,
                id,
                stop_at_type,
            ),
        decreases path@.len() - i,
    {
        let ghost before = out@;
        let ghost rest = path@.skip(i as int);
        proof {
            assert(rest[0] == path@[i as int]);
            assert(rest.drop_first() =~= path@.skip(i as int + 1));
        }
        out.push(path[i].clone());
        if reaches_bound(&path[i], stop_at_id, stop_at_type) {
            proof {
                assert(out@ =~= before + seq![rest[0]]);
            }
            return out;
        }
        proof {
            assert(out@ + up_to_bound(path@.skip(i as int + 1), id, stop_at_type) =~= before + (
            seq![rest[0]] + up_to_bound(path@.skip(i as int + 1), id, stop_at_type)));
        }
        i = i + 1;
    }
    proof {
        assert(out@ + up_to_bound(path@.skip(i as int), id, stop_at_type) =~= out@);
    }
    out
}

impl SessionState {
    /// The entry with the given id.
    pub fn get_entry(&self, id: &String) -> (r: Option<Entry>)
        ensures
            r == entry_by_id(self@.entries, id@),
    {
        match find_entry(&self.entries, id) {
            Some(entry) => Some(entry.clone()),
            None => None,
        }
    }

    /// The entries that a query looks for, newest first unless it asks
    /// otherwise.
    pub fn find_entries(&self, query: &EntryQuery) -> (r: Result<Vec<Entry>, SessionError>)
        ensures
            match r {
                Ok(found) => query.limit != Some(0usize) && found@ == self@.found_entries(*query),
                Err(e) => Some(e@) == limit_problem(query.limit),
            },
    {
        if let Err(e) = assert_valid_limit(query.limit) {
            return Err(e);
        }
        let filter: EntryFilter = EntryFilter { query };
        proof {
            assert(crate::session::select::choice::<Entry, EntryFilter>(filter) =~= entry_matches(
                *query,
            ));
        }
        match query.order {
            Some(EntryOrder::OldestFirst) => Ok(chosen(&self.entries, &filter, query.limit)),
            _ => Ok(chosen(&reversed(&self.entries), &filter, query.limit)),
        }
    }

    fn walk_to_root(
        &self,
        start: &String,
        stop_at_id: &Option<String>,
        stop_at_type: Option<EntryType>,
    ) -> (r: Vec<Entry>)
        requires
            self@.wf(),
        ensures
            r@ == walk(self@.entries, start@, text_of_option(*stop_at_id), stop_at_type),
    {
        let ghost id = text_of_option(*stop_at_id);
        let mut out: Vec<Entry> = Vec::new();
        let mut wanted: String = start.clone();
        let mut i: usize = self.entries.len();
        proof {
            assert(self.entries@.take(i as int) =~= self.entries@);
            assert(out@ + walk(self.entries@, start@, id, stop_at_type) =~= walk(
                self.entries@,
                start@,
                id,
                stop_at_type,
            ));
        }
        while i > 0
            invariant
                i <= self.entries@.len(),
                id == text_of_option(*stop_at_id),
                out@ + walk(self.entries@.take(i as int), wanted@, id, stop_at_type) == walk(
                    self.entries@,
                    start@,
                    id,
                    stop_at_type,
                ),
            decreases i,
        {
            let ghost front = self.entries@.take(i as int);
            let ghost before = out@;
            proof {
                assert(front.drop_last() =~= self.entries@.take(i as int - 1));
                assert(front.last() == self.entries@[i as int - 1]);
            }
            let entry: &Entry = &self.entries[i - 1];
            if *entry.id() == wanted {
                out.push(entry.clone());
                if reaches_bound(entry, stop_at_id, stop_at_type) {
                    proof {
                        assert(out@ =~= before + seq![front.last()]);
                    }
                    return out;
                }
                match entry.parent_id() {
                    Some(parent) => {
                        wanted = parent.clone();
                        proof {
                            assert(out@ + walk(front.drop_last(), parent@, id, stop_at_type)
                                =~= before + (seq![front.last()] + walk(
                                front.drop_last(),
                                parent@,
                                id,
                                stop_at_type,
                            )));
                        }
                    },
                    None => {
                        proof {
                            assert(out@ =~= before + seq![front.last()]);
                        }
                        return out;
                    },
                }
            }
            i = i - 1;
        }
        proof {
            assert(out@ + walk(self.entries@.take(0), wanted@, id, stop_at_type) =~= out@);
        }
        out
    }

    /// The entries of a branch that a query looks for: the walk from an entry
    /// towards the root, up to a bound.
    pub fn find_entries_on_branch(
        &self,
        query: &EntryQuery,
        stop_at_id: &Option<String>,
        stop_at_type: Option<EntryType>,
        start: &String,
    ) -> (r: Result<Vec<Entry>, SessionError>)
        requires
            self@.wf(),
        ensures
            outcome(r) == self@.found_on_branch(
                *query,
                text_of_option(*stop_at_id),
                stop_at_type,
                start@,
            ),
    {
        if let Err(e) = assert_valid_limit(query.limit) {
            return Err(e);
        }
        if !entry_exists(&self.entries, start) {
            return Err(
                SessionError::new(
                    SessionErrorCode::NotFound,
                    concat2("Entry not found: ", start.as_str()),
                ),
            );
        }
        let filter: EntryFilter = EntryFilter { query };
        proof {
            assert(crate::session::select::choice::<Entry, EntryFilter>(filter) =~= entry_matches(
                *query,
            ));
        }
        let path: Vec<Entry> = self.walk_to_root(start, stop_at_id, stop_at_type);
        match query.order {
            Some(EntryOrder::OldestFirst) => {
                let part: Vec<Entry> = cut_at_bound(&reversed(&path), stop_at_id, stop_at_type);
                Ok(chosen(&part, &filter, query.limit))
            },
            _ => Ok(chosen(&path, &filter, query.limit)),
        }
    }

    /// The records that a query looks for, oldest first unless it asks
    /// otherwise.
    pub fn find_records(&self, query: &RecordQuery) -> (r: Result<Vec<LaneRecord>, SessionError>)
        ensures
            match r {
                Ok(found) => query.limit != Some(0usize) && found@ == self@.found_records(*query),
                Err(e) => Some(e@) == limit_problem(query.limit),
            },
    {
        if let Err(e) = assert_valid_limit(query.limit) {
            return Err(e);
        }
        let filter: RecordMatcher = RecordMatcher { query };
        proof {
            assert(crate::session::select::choice::<LaneRecord, RecordMatcher>(filter)
                =~= record_matches(*query));
        }
        match query.order {
            Some(EntryOrder::NewestFirst) => Ok(
                chosen(&reversed(&self.records), &filter, query.limit),
            ),
            _ => Ok(chosen(&self.records, &filter, query.limit)),
        }
    }

    /// The open operations of a lane, newest first.
    pub fn find_open_operations(&self, lane: &str, limit: Option<usize>) -> (r: Result<
        Vec<LaneRecord>,
        SessionError,
    >)
        ensures
            match r {
                Ok(found) => limit != Some(0usize) && found@ == limited(
                    open_on_lane(self@.open, lane@).reverse(),
                    limit,
                ),
                Err(e) => Some(e@) == limit_problem(limit),
            },
    {
        if let Err(e) = assert_valid_limit(limit) {
            return Err(e);
        }
        let filter: OnLane = OnLane { lane };
        proof {
            assert(crate::session::select::choice::<LaneRecord, OnLane>(filter) =~= (
            |r: LaneRecord| r.spec_lane() == lane@));
        }
        let open: Vec<LaneRecord> = chosen(&self.open_operations, &filter, None);
        Ok(first_items(&reversed(&open), limit))
    }

    /// The history after a sequence number, oldest first.
    pub fn get_log(&self, options: &LogOptions) -> (r: Result<Vec<LogItem>, SessionError>)
        ensures
            match r {
                Ok(found) => options.limit != Some(0usize) && log_views(found@) == limited(
                    kept(self@.log, logged_after(options.after_seq)),
                    options.limit,
                ),
                Err(e) => Some(e@) == limit_problem(options.limit),
            },
    {
        if let Err(e) = assert_valid_limit(options.limit) {
            return Err(e);
        }
        let filter: LogFilter = LogFilter { after_seq: options.after_seq };
        let found: Vec<LogItem> = chosen(&self.log, &filter, options.limit);
        proof {
            let p = crate::session::select::choice::<LogItem, LogFilter>(filter);
            lemma_log_views_kept(self.log@, p, logged_after(options.after_seq));
            let all = kept(self.log@, p);
            if let Some(n) = options.limit {
                if n < all.len() {
                    assert(log_views(all.take(n as int)) =~= log_views(all).take(n as int));
                }
            }
        }
        Ok(found)
    }

    /// The name of the session.
    pub fn get_name(&self) -> (r: Option<String>)
        ensures
            text_of_option(r) == self@.name,
    {
        copy_text(&self.name)
    }

    /// The label of an entry.
    pub fn get_label(&self, id: &String) -> (r: Option<String>)
        ensures
            match r {
                Some(text) => self@.labels.dom().contains(id@) && self@.labels[id@] == text@,
                None => !self@.labels.dom().contains(id@),
            },
    {
        let mut i: usize = self.labels.len();
        proof {
            assert(self.labels@.take(i as int) =~= self.labels@);
        }
        while i > 0
            invariant
                i <= self.labels@.len(),
                labels_of(self.labels@).dom().contains(id@) == labels_of(
                    self.labels@.take(i as int),
                ).dom().contains(id@),
                labels_of(self.labels@).dom().contains(id@) ==> labels_of(self.labels@)[id@]
                    == labels_of(self.labels@.take(i as int))[id@],
            decreases i,
        {
            proof {
                assert(self.labels@.take(i as int).drop_last() =~= self.labels@.take(i as int - 1));
            }
            if self.labels[i - 1].0 == *id {
                return Some(self.labels[i - 1].1.clone());
            }
            i = i - 1;
        }
        None
    }

    /// Totals over the session.
    pub fn get_stats(&self) -> (r: SessionStats)
        ensures
            r@ == self@.stats,
    {
        let costs: Vec<JsF64> = self.stats.costs.clone();
        proof {
            assert(costs@ =~= self.stats.costs@);
        }
        SessionStats {
            message_count: self.stats.message_count,
            cached_tokens: self.stats.cached_tokens,
            uncached_tokens: self.stats.uncached_tokens,
            total_tokens: self.stats.total_tokens,
            costs,
        }
    }
}

proof fn lemma_log_views_kept(
    items: Seq<LogItem>,
    p: spec_fn(LogItem) -> bool,
    q: spec_fn(LogView) -> bool,
)
    requires
        forall|item: LogItem| #[trigger] p(item) == q(log_view(item)),
    ensures
        log_views(kept(items, p)) == kept(log_views(items), q),
    decreases items.len(),
{
    if items.len() > 0 {
        let shorter = items.drop_last();
        lemma_log_views_kept(shorter, p, q);
        assert(log_views(items).drop_last() =~= log_views(shorter));
        assert(log_views(items).last() == log_view(items.last()));
        assert(p(items.last()) == q(log_view(items.last())));
        if p(items.last()) {
            assert(log_views(kept(shorter, p).push(items.last())) =~= log_views(
                kept(shorter, p),
            ).push(log_view(items.last())));
        }
    } else {
        assert(log_views(kept(items, p)) =~= kept(log_views(items), q));
    }
}

// ---------------------------------------------------------------------------
// Branches
// ---------------------------------------------------------------------------

/// The facts that make a sequence of entries a walk towards the root.
pub open spec fn is_walk(
    path: Seq<Entry>,
    stop_at_id: Option<Seq<char>>,
    stop_at_type: Option<EntryType>,
) -> bool {
    &&& path.len() > 0
    &&& forall|i: int|
        0 <= i < path.len() - 1 ==> (#[trigger] path[i]).spec_parent() == Some(
            path[i + 1].spec_id(),
        ) && !is_bound(path[i], stop_at_id, stop_at_type)
    &&& path.last().spec_parent() is None || is_bound(path.last(), stop_at_id, stop_at_type)
}

/// In a consistent session the branch from an existing entry starts at the
/// entry, goes from child to parent, and ends at the first bound or at a root;
/// no entry occurs on it twice.
pub proof fn law_branches_lead_to_the_root(
    entries: Seq<Entry>,
    start: Seq<char>,
    stop_at_id: Option<Seq<char>>,
    stop_at_type: Option<EntryType>,
)
    requires
        distinct_entries(entries),
        parents_first(entries),
        has_entry(entries, start),
    ensures
        is_walk(walk(entries, start, stop_at_id, stop_at_type), stop_at_id, stop_at_type),
        Some(walk(entries, start, stop_at_id, stop_at_type)[0]) == entry_by_id(entries, start),
        distinct_entries(walk(entries, start, stop_at_id, stop_at_type)),
        forall|i: int|
            0 <= i < walk(entries, start, stop_at_id, stop_at_type).len() ==> entries.contains(
                #[trigger] walk(entries, start, stop_at_id, stop_at_type)[i],
            ),
    decreases entries.len(),
{
    let w = walk(entries, start, stop_at_id, stop_at_type);
    let n = entries.len() - 1;
    let shorter = entries.drop_last();
    assert(shorter =~= entries.take(n));
    assert(entries[n] == entries.last());
    assert forall|i: int, j: int| 0 <= i < j < shorter.len() implies (
    #[trigger] shorter[i]).spec_id() != (#[trigger] shorter[j]).spec_id() by {
        assert(shorter[i] == entries[i] && shorter[j] == entries[j]);
    }
    assert(parents_first(shorter)) by {
        assert forall|k: int| 0 <= k < shorter.len() implies ((
        #[trigger] shorter[k]).spec_parent() matches Some(id) ==> has_entry(shorter.take(k), id)) by {
            assert(shorter[k] == entries[k]);
            assert(shorter.take(k) =~= entries.take(k));
        }
    }
    if entries.last().spec_id() != start {
        law_branches_lead_to_the_root(shorter, start, stop_at_id, stop_at_type);
        assert forall|i: int| 0 <= i < w.len() implies entries.contains(#[trigger] w[i]) by {
            assert(shorter.contains(w[i]));
            let k = choose|k: int| 0 <= k < shorter.len() && shorter[k] == w[i];
            assert(entries[k] == w[i]);
        }
    } else if is_bound(entries.last(), stop_at_id, stop_at_type) {
        assert(w =~= seq![entries.last()]);
        assert(entries.contains(w[0]));
    } else {
        match entries.last().spec_parent() {
            Some(parent) => {
                assert(has_entry(entries.take(n), parent));
                law_branches_lead_to_the_root(shorter, parent, stop_at_id, stop_at_type);
                let rest = walk(shorter, parent, stop_at_id, stop_at_type);
                assert(w =~= seq![entries.last()] + rest);
                lemma_entry_by_id(shorter, parent);
                assert(rest[0].spec_id() == parent);
                assert forall|i: int| 0 <= i < w.len() implies entries.contains(#[trigger] w[i]) by {
                    if i > 0 {
                        assert(w[i] == rest[i - 1]);
                        assert(shorter.contains(rest[i - 1]));
                        let k = choose|k: int| 0 <= k < shorter.len() && shorter[k] == rest[i - 1];
                        assert(entries[k] == w[i]);
                    }
                }
                assert forall|i: int| 0 <= i < w.len() - 1 implies (
                #[trigger] w[i]).spec_parent() == Some(w[i + 1].spec_id()) && !is_bound(
                    w[i],
                    stop_at_id,
                    stop_at_type,
                ) by {
                    if i > 0 {
                        assert(w[i] == rest[i - 1]);
                        assert(w[i + 1] == rest[i]);
                    }
                }
                assert forall|i: int, j: int| 0 <= i < j < w.len() implies (
                #[trigger] w[i]).spec_id() != (#[trigger] w[j]).spec_id() by {
                    assert(w[j] == rest[j - 1]);
                    if i > 0 {
                        assert(w[i] == rest[i - 1]);
                    } else {
                        assert(shorter.contains(rest[j - 1]));
                        let k = choose|k: int| 0 <= k < shorter.len() && shorter[k] == rest[j - 1];
                        assert(entries[k] == w[j]);
                        assert(entries[k].spec_id() != entries[n].spec_id());
                    }
                }
                assert(w.last() == rest.last());
            },
            None => {
                assert(w =~= seq![entries.last()]);
                assert(entries.contains(w[0]));
            },
        }
    }
}

/// What a lookup finds has the id and stands among the entries.
pub proof fn lemma_entry_by_id(entries: Seq<Entry>, id: Seq<char>)
    ensures
        entry_by_id(entries, id) matches Some(e) ==> e.spec_id() == id && entries.contains(e),
    decreases entries.len(),
{
    if entries.len() > 0 {
        let shorter = entries.drop_last();
        if entries.last().spec_id() == id {
            assert(entries[entries.len() - 1] == entries.last());
        } else {
            lemma_entry_by_id(shorter, id);
            if let Some(e) = entry_by_id(shorter, id) {
                let k = choose|k: int| 0 <= k < shorter.len() && shorter[k] == e;
                assert(entries[k] == e);
            }
        }
    }
}

// ---------------------------------------------------------------------------
// Replay
// ---------------------------------------------------------------------------

/// The state after a sequence of mutations, or the first refusal.
pub open spec fn replay(s: SessionView, mutations: Seq<MutationView>) -> Result<
    SessionView,
    SessionErrorView,
>
    decreases mutations.len(),
{
    if mutations.len() == 0 {
        Ok(s)
    } else {
        match replay(s, mutations.drop_last()) {
            Ok(t) => match t.problem(mutations.last()) {
                Some(e) => Err(e),
                None => Ok(t.after(mutations.last())),
            },
            Err(e) => Err(e),
        }
    }
}

/// The mathematical values of mutations.
pub open spec fn mutation_views(s: Seq<SessionMutation>) -> Seq<MutationView> {
    Seq::new(s.len(), |i: int| s[i]@)
}

/// Replaying mutations on a consistent session leaves it consistent.
pub proof fn law_replay_preserves_consistency(s: SessionView, mutations: Seq<MutationView>)
    requires
        s.wf(),
    ensures
        replay(s, mutations) matches Ok(t) ==> t.wf(),
    decreases mutations.len(),
{
    if mutations.len() > 0 {
        law_replay_preserves_consistency(s, mutations.drop_last());
        if let Ok(t) = replay(s, mutations.drop_last()) {
            if t.problem(mutations.last()) is None {
                law_mutations_preserve_consistency(t, mutations.last());
            }
        }
    }
}

/// Once a mutation is refused, so is every longer history that starts with
/// the same mutations.
pub proof fn lemma_replay_prefix(s: SessionView, mutations: Seq<MutationView>, k: int)
    requires
        0 <= k <= mutations.len(),
        replay(s, mutations.take(k)) is Err,
    ensures
        replay(s, mutations) == replay(s, mutations.take(k)),
    decreases mutations.len(),
{
    if k == mutations.len() {
        assert(mutations.take(k) =~= mutations);
    } else {
        let shorter = mutations.drop_last();
        assert(shorter.take(k) =~= mutations.take(k));
        lemma_replay_prefix(s, shorter, k);
    }
}

impl SessionState {
    /// Applies mutations in order up to the first that is refused.
    pub fn replay(&mut self, mutations: Vec<SessionMutation>) -> (r: Result<(), SessionError>)
        requires
            old(self)@.wf(),
        ensures
            final(self)@.wf(),
            match replay(old(self)@, mutation_views(mutations@)) {
                Ok(t) => r is Ok && final(self)@ == t,
                Err(e) => r matches Err(refused) && refused@ == e,
            },
    {
        let ghost all = mutation_views(mutations@);
        let ghost start = self@;
        let ghost given = mutations@;
        let mut rest: Vec<SessionMutation> = mutations;
        let mut backwards: Vec<SessionMutation> = Vec::new();
        let n: usize = rest.len();
        while rest.len() > 0
            invariant
                rest@.len() <= n == given.len(),
                rest@ == given.take(rest@.len() as int),
                backwards@.len() == n - rest@.len(),
                forall|k: int|
                    0 <= k < backwards@.len() ==> #[trigger] backwards@[k] == given[n - 1 - k],
            decreases rest@.len(),
        {
            if let Some(last) = rest.pop() {
                proof {
                    assert(rest@ =~= given.take(rest@.len() as int));
                }
                backwards.push(last);
            }
        }
        let ghost mut done: int = 0;
        proof {
            assert(all.take(0) =~= Seq::<MutationView>::empty());
        }
        while backwards.len() > 0
            invariant
                all == mutation_views(given),
                given == mutations@,
                start == old(self)@,
                n == given.len(),
                0 <= done <= n,
                backwards@.len() == n - done,
                forall|k: int|
                    0 <= k < backwards@.len() ==> #[trigger] backwards@[k] == given[n - 1 - k],
                self@.wf(),
                replay(start, all.take(done)) == Ok::<SessionView, SessionErrorView>(self@),
            decreases backwards@.len(),
        {
            if let Some(next) = backwards.pop() {
                proof {
                    assert(next@ == all[done]);
                    assert(all.take(done + 1).drop_last() =~= all.take(done));
                    assert(all.take(done + 1).last() == next@);
                }
                if let Err(e) = self.apply_mutation(next) {
                    proof {
                        lemma_replay_prefix(start, all, done + 1);
                    }
                    return Err(e);
                }
                proof {
                    done = done + 1;
                }
            }
        }
        proof {
            assert(all.take(done) =~= all);
        }
        Ok(())
    }
}

} // verus!

//! What holds of the state of a session: which changes it takes, what they
//! change, and what queries find.

use vstd::prelude::*;

use crate::session::select::{kept, limited};
use crate::session::state::{
    branch_part, has_record, lemma_entry_by_id, lemma_lane_at, logged_after, up_to_bound, walk,
    LaneView, LogView, MutationView, SessionView,
};
use crate::session::types::{
    entry_by_id, has_entry, Entry, EntryOrder, EntryQuery, EntryType, LaneRecord,
    OperationIntent, RecordQuery, SessionErrorCode,
};

verus! {

// ---------------------------------------------------------------------------
// Which changes are taken
// ---------------------------------------------------------------------------

/// Whether some entry has an id.
pub open spec fn an_entry_has(entries: Seq<Entry>, id: Seq<char>) -> bool {
    exists|i: int| 0 <= i < entries.len() && (#[trigger] entries[i]).spec_id() == id
}

/// Whether some lane has a name.
pub open spec fn a_lane_has(lanes: Seq<LaneView>, name: Seq<char>) -> bool {
    exists|i: int| 0 <= i < lanes.len() && (#[trigger] lanes[i]).lane == name
}

/// An entry is found by its id exactly when some entry has it.
pub proof fn lemma_entry_there(entries: Seq<Entry>, id: Seq<char>)
    ensures
        has_entry(entries, id) <==> an_entry_has(entries, id),
    decreases entries.len(),
{
    if entries.len() > 0 {
        let front = entries.drop_last();
        lemma_entry_there(front, id);
        if entries.last().spec_id() == id {
            assert(entries[entries.len() - 1].spec_id() == id);
        } else {
            if an_entry_has(front, id) {
                let i = choose|i: int| 0 <= i < front.len() && (#[trigger] front[i]).spec_id() == id;
                assert(entries[i].spec_id() == id);
            }
            if an_entry_has(entries, id) {
                let i = choose|i: int|
                    0 <= i < entries.len() && (#[trigger] entries[i]).spec_id() == id;
                assert(front[i].spec_id() == id);
            }
        }
    }
}

/// A change is taken when it has the next number and what it speaks of fits: an
/// entry or a record has an id of its own and a lane that is there, an entry
/// follows the last one of its lane, and what is pointed at is there.
pub proof fn law_when_changes_are_taken(s: SessionView, m: MutationView)
    ensures
        s.problem(m) is None <==> {
            &&& m.spec_seq() == s.sequence + 1
            &&& match m {
                MutationView::Entry { lane, entry } => {
                    let id = entry.spec_id();
                    &&& !an_entry_has(s.entries, id)
                    &&& forall|i: int|
                        0 <= i < s.records.len() ==> (#[trigger] s.records[i]).spec_id() != id
                    &&& lane matches Some(name) ==> exists|i: int|
                        0 <= i < s.lanes.len() && (#[trigger] s.lanes[i]).lane == name
                            && s.lanes[i].leaf == entry.spec_parent() && forall|j: int|
                            0 <= j < i ==> (#[trigger] s.lanes[j]).lane != name
                    &&& entry.spec_parent() matches Some(parent) ==> an_entry_has(
                        s.entries,
                        parent,
                    )
                },
                MutationView::Record { record } => {
                    let id = record.spec_id();
                    &&& !an_entry_has(s.entries, id)
                    &&& forall|i: int|
                        0 <= i < s.records.len() ==> (#[trigger] s.records[i]).spec_id() != id
                    &&& a_lane_has(s.lanes, record.spec_lane())
                },
                MutationView::Lane { leaf, .. } => leaf matches Some(id) ==> an_entry_has(
                    s.entries,
                    id,
                ),
                MutationView::NameFact { .. } => true,
                MutationView::LabelFact { target, .. } => an_entry_has(s.entries, target),
            }
        },
{
    match m {
        MutationView::Entry { lane, entry } => {
            lemma_entry_there(s.entries, entry.spec_id());
            if let Some(name) = lane {
                lemma_lane_at(s.lanes, name);
            }
            if let Some(parent) = entry.spec_parent() {
                lemma_entry_there(s.entries, parent);
            }
        },
        MutationView::Record { record } => {
            lemma_entry_there(s.entries, record.spec_id());
            lemma_lane_at(s.lanes, record.spec_lane());
        },
        MutationView::Lane { leaf, .. } => {
            if let Some(id) = leaf {
                lemma_entry_there(s.entries, id);
            }
        },
        MutationView::NameFact { .. } => {},
        MutationView::LabelFact { target, .. } => lemma_entry_there(s.entries, target),
    }
}

/// A lane is created where there is none of that name, and moved where there
/// is one, if what it is to point at is there.
pub proof fn law_when_lanes_are_created_and_moved(
    s: SessionView,
    lane: Seq<char>,
    at: Option<Seq<char>>,
)
    ensures
        s.create_lane_problem(lane, at) is None <==> !a_lane_has(s.lanes, lane) && (at matches Some(
            id,
        ) ==> an_entry_has(s.entries, id)),
        s.move_lane_problem(lane, at) is None <==> a_lane_has(s.lanes, lane) && (at matches Some(
            id,
        ) ==> an_entry_has(s.entries, id)),
{
    lemma_lane_at(s.lanes, lane);
    if let Some(id) = at {
        lemma_entry_there(s.entries, id);
    }
}

/// An entry is appended to a lane that is there under an id that is not used,
/// and so is a record, unless it starts an operation while one is open.
pub proof fn law_when_something_is_appended(
    s: SessionView,
    id: Seq<char>,
    lane: Seq<char>,
    record: LaneRecord,
)
    ensures
        s.append_entry_problem(id, lane) is None <==> {
            &&& a_lane_has(s.lanes, lane)
            &&& !an_entry_has(s.entries, id)
            &&& !has_record(s.records, id)
        },
        s.append_record_problem(record) is None <==> {
            &&& a_lane_has(s.lanes, record.spec_lane())
            &&& !an_entry_has(s.entries, record.spec_id())
            &&& !has_record(s.records, record.spec_id())
            &&& record is OperationStarted ==> forall|i: int|
                0 <= i < s.open.len() ==> (#[trigger] s.open[i]).spec_lane() != record.spec_lane()
        },
{
    lemma_lane_at(s.lanes, lane);
    lemma_entry_there(s.entries, id);
    lemma_lane_at(s.lanes, record.spec_lane());
    lemma_entry_there(s.entries, record.spec_id());
    let p = |r: LaneRecord| r.spec_lane() == record.spec_lane();
    lemma_kept_some(s.open, p);
}

proof fn lemma_kept_some<T>(items: Seq<T>, p: spec_fn(T) -> bool)
    ensures
        kept(items, p).len() > 0 <==> exists|i: int| 0 <= i < items.len() && p(#[trigger] items[i]),
    decreases items.len(),
{
    if items.len() > 0 {
        let front = items.drop_last();
        lemma_kept_some(front, p);
        if kept(front, p).len() > 0 {
            let i = choose|i: int| 0 <= i < front.len() && p(#[trigger] front[i]);
            assert(p(items[i]));
        }
        if p(items.last()) {
            assert(p(items[items.len() - 1]));
        }
        if exists|i: int| 0 <= i < items.len() && p(#[trigger] items[i]) {
            let i = choose|i: int| 0 <= i < items.len() && p(#[trigger] items[i]);
            if i < front.len() {
                assert(p(front[i]));
            }
        }
    }
}

// ---------------------------------------------------------------------------
// What changes change
// ---------------------------------------------------------------------------

/// Each change is logged, at the end and as it is, under its number, which
/// becomes that of the session.
pub proof fn law_changes_are_logged(s: SessionView, m: MutationView)
    ensures
        s.after(m).sequence == m.spec_seq(),
        s.after(m).log == s.log.push(
            match m {
                MutationView::Entry { entry, .. } => LogView::Entry {
                    seq: m.spec_seq(),
                    entry,
                },
                MutationView::Record { record } => LogView::Record { seq: m.spec_seq(), record },
                MutationView::Lane { lane, leaf, .. } => LogView::Lane {
                    seq: m.spec_seq(),
                    lane,
                    leaf,
                },
                MutationView::NameFact { name, .. } => LogView::NameFact {
                    seq: m.spec_seq(),
                    name,
                },
                MutationView::LabelFact { target, label, .. } => LogView::LabelFact {
                    seq: m.spec_seq(),
                    target,
                    label,
                },
            },
        ),
{
}

/// An entry joins the others at the end, its lane points at it, and messages
/// are counted. Other lanes, records and facts stay.
pub proof fn law_entries_move_their_lane(s: SessionView, lane: Option<Seq<char>>, entry: Entry)
    requires
        s.wf(),
        lane matches Some(name) ==> a_lane_has(s.lanes, name),
        s.stats.message_count < u64::MAX,
    ensures
        ({
            let after = s.after(MutationView::Entry { lane, entry });
            &&& after.entries == s.entries.push(entry)
            &&& after.lanes.len() == s.lanes.len()
            &&& forall|i: int|
                0 <= i < s.lanes.len() ==> #[trigger] after.lanes[i] == (LaneView {
                    lane: s.lanes[i].lane,
                    leaf: if lane == Some(s.lanes[i].lane) {
                        Some(entry.spec_id())
                    } else {
                        s.lanes[i].leaf
                    },
                })
            &&& after.stats.message_count == s.stats.message_count + (if entry is Message {
                1int
            } else {
                0int
            })
            &&& after.stats.total_tokens == s.stats.total_tokens
            &&& after.stats.cached_tokens == s.stats.cached_tokens
            &&& after.stats.uncached_tokens == s.stats.uncached_tokens
            &&& after.stats.costs == s.stats.costs
            &&& after.records == s.records
            &&& after.open == s.open
            &&& after.name == s.name
            &&& after.labels == s.labels
        }),
{
    if let Some(name) = lane {
        lemma_lane_at(s.lanes, name);
    }
}

/// A record joins the others at the end and leaves all else but the open
/// operations and the totals: a started operation is open, a finished one no
/// longer, and usage is added up.
pub proof fn law_records_open_and_close_operations(s: SessionView, record: LaneRecord)
    ensures
        ({
            let after = s.after(MutationView::Record { record });
            &&& after.records == s.records.push(record)
            &&& after.entries == s.entries
            &&& after.lanes == s.lanes
            &&& after.name == s.name
            &&& after.labels == s.labels
            &&& after.stats.message_count == s.stats.message_count
            &&& match record {
                LaneRecord::OperationStarted { .. } => after.open == s.open.push(record),
                LaneRecord::OperationFinished { lane, run_id, .. } => after.open == s.open.filter(
                    |r: LaneRecord| r.spec_lane() != lane@ || r.spec_id() != run_id@,
                ),
                _ => after.open == s.open,
            }
            &&& match record {
                LaneRecord::Usage { usage, .. } => {
                    &&& s.stats.cached_tokens + usage.cache_read <= u64::MAX
                        ==> after.stats.cached_tokens == s.stats.cached_tokens + usage.cache_read
                    &&& s.stats.uncached_tokens + usage.input + usage.cache_write <= u64::MAX
                        ==> after.stats.uncached_tokens == s.stats.uncached_tokens + usage.input
                        + usage.cache_write
                    &&& s.stats.total_tokens + usage.total_tokens <= u64::MAX
                        ==> after.stats.total_tokens == s.stats.total_tokens + usage.total_tokens
                    &&& after.stats.costs == s.stats.costs.push(usage.cost.total)
                },
                _ => after.stats == s.stats,
            }
        }),
{
    if let LaneRecord::OperationFinished { lane, run_id, .. } = record {
        let gone = |r: LaneRecord| !(r.spec_lane() == lane@ && r.spec_id() == run_id@);
        let other = |r: LaneRecord| r.spec_lane() != lane@ || r.spec_id() != run_id@;
        law_selections_keep_the_order(s.open, gone);
        assert(gone =~= other);
    }
}

/// A lane that is set points where it is told, a new one behind the others; the
/// name and the labels are those that were set last.
pub proof fn law_facts_are_set(
    s: SessionView,
    seq: u64,
    lane: Seq<char>,
    leaf: Option<Seq<char>>,
    name: Option<Seq<char>>,
    other: Seq<char>,
)
    requires
        s.wf(),
    ensures
        ({
            let moved = s.after(MutationView::Lane { seq, lane, leaf });
            let named = s.after(MutationView::NameFact { seq, name });
            let labelled = s.after(MutationView::LabelFact { seq, target: lane, label: name });
            &&& !a_lane_has(s.lanes, lane) ==> moved.lanes == s.lanes.push(LaneView { lane, leaf })
            &&& a_lane_has(s.lanes, lane) ==> moved.lanes.len() == s.lanes.len() && forall|i: int|
                0 <= i < s.lanes.len() ==> #[trigger] moved.lanes[i] == (LaneView {
                    lane: s.lanes[i].lane,
                    leaf: if s.lanes[i].lane == lane {
                        leaf
                    } else {
                        s.lanes[i].leaf
                    },
                })
            &&& moved.entries == s.entries
            &&& moved.records == s.records
            &&& moved.open == s.open
            &&& moved.stats == s.stats
            &&& moved.labels == s.labels
            &&& moved.name == s.name
            &&& named.name == name
            &&& named.entries == s.entries
            &&& named.lanes == s.lanes
            &&& named.labels == s.labels
            &&& labelled.labels.dom().contains(lane) <==> name is Some
            &&& name matches Some(text) ==> labelled.labels[lane] == text
            &&& other != lane ==> (labelled.labels.dom().contains(other)
                <==> s.labels.dom().contains(other))
            &&& other != lane && s.labels.dom().contains(other) ==> labelled.labels[other]
                == s.labels[other]
            &&& labelled.entries == s.entries
            &&& labelled.lanes == s.lanes
            &&& labelled.name == s.name
        }),
{
    lemma_lane_at(s.lanes, lane);
}

// ---------------------------------------------------------------------------
// What queries find
// ---------------------------------------------------------------------------

/// What is kept of some items are those that are wanted, in order.
pub proof fn law_selections_keep_the_order<T>(items: Seq<T>, p: spec_fn(T) -> bool)
    ensures
        kept(items, p) == items.filter(p),
    decreases items.len(),
{
    reveal(Seq::filter);
    if items.len() > 0 {
        law_selections_keep_the_order(items.drop_last(), p);
    }
    assert(kept(items, p) =~= items.filter(p));
}

/// A limit keeps the first items, as many as there are up to it.
pub proof fn law_limits_keep_the_first<T>(items: Seq<T>, n: usize)
    ensures
        limited(items, None) == items,
        n <= items.len() ==> limited(items, Some(n)) == items.take(n as int),
        n >= items.len() ==> limited(items, Some(n)) == items,
{
    if n == items.len() {
        assert(items.take(n as int) =~= items);
    }
}

/// Whether an entry is one that a query asks for: of its type and its custom
/// type, and past its cursor.
pub open spec fn is_asked_for(query: EntryQuery, entry: Entry) -> bool {
    &&& query.entry_type matches Some(wanted) ==> entry.spec_type() == wanted
    &&& query.custom_type matches Some(wanted) ==> (entry matches Entry::Custom {
        custom_type,
        ..
    } && custom_type@ == wanted@)
    &&& query.cursor matches Some(cursor) ==> if query.order == Some(EntryOrder::OldestFirst) {
        entry.spec_seq() > cursor.after_seq
    } else {
        entry.spec_seq() < cursor.after_seq
    }
}

/// A query finds the entries that it asks for, the newest first unless it wants
/// the oldest first, and as many as it wants.
pub proof fn law_queries_find_what_they_ask_for(s: SessionView, query: EntryQuery)
    ensures
        ({
            let all = if query.order == Some(EntryOrder::OldestFirst) {
                s.entries
            } else {
                s.entries.reverse()
            };
            s.found_entries(query) == limited(
                all.filter(|e: Entry| is_asked_for(query, e)),
                query.limit,
            )
        }),
{
    let all = if query.order == Some(EntryOrder::OldestFirst) {
        s.entries
    } else {
        s.entries.reverse()
    };
    let p = crate::session::state::entry_matches(query);
    let q = |e: Entry| is_asked_for(query, e);
    assert(p =~= q);
    law_selections_keep_the_order(all, p);
}

/// Whether a record is one that a query asks for: of its lane, its type, its
/// operation and the kind of that, and after a number.
pub open spec fn is_record_asked_for(query: RecordQuery, record: LaneRecord) -> bool {
    &&& query.lane matches Some(lane) ==> record.spec_lane() == lane@
    &&& query.record_type matches Some(wanted) ==> record.spec_type() == wanted
    &&& query.run_id matches Some(run) ==> record.spec_run_id() == Some(run@)
    &&& query.after_seq matches Some(after) ==> record.spec_seq() > after
    &&& query.operation_kind matches Some(kind) ==> (record matches LaneRecord::OperationStarted {
        intent,
        ..
    } && kind@ == match intent {
        OperationIntent::Run { .. } => "run"@,
        OperationIntent::Compaction { .. } => "compaction"@,
        OperationIntent::Navigation { .. } => "navigation"@,
    })
}

/// A query finds the records that it asks for, the oldest first unless it wants
/// the newest first, and as many as it wants.
pub proof fn law_queries_find_records(s: SessionView, query: RecordQuery)
    ensures
        ({
            let all = if query.order == Some(EntryOrder::NewestFirst) {
                s.records.reverse()
            } else {
                s.records
            };
            s.found_records(query) == limited(
                all.filter(|r: LaneRecord| is_record_asked_for(query, r)),
                query.limit,
            )
        }),
{
    let all = if query.order == Some(EntryOrder::NewestFirst) {
        s.records.reverse()
    } else {
        s.records
    };
    let p = crate::session::state::record_matches(query);
    let q = |r: LaneRecord| is_record_asked_for(query, r);
    assert(p =~= q);
    law_selections_keep_the_order(all, p);
}

/// The log after a number is the log without that many items.
pub proof fn law_the_log_goes_on(s: SessionView, after: u64)
    requires
        s.wf(),
        after <= s.log.len(),
    ensures
        kept(s.log, logged_after(Some(after))) == s.log.skip(after as int),
        kept(s.log, logged_after(None)) == s.log,
{
    lemma_log_part(s.log, after);
}

proof fn lemma_log_part(log: Seq<LogView>, after: u64)
    requires
        after <= log.len(),
        forall|i: int| 0 <= i < log.len() ==> (#[trigger] log[i]).spec_seq() == i + 1,
    ensures
        kept(log, logged_after(Some(after))) == log.skip(after as int),
        kept(log, logged_after(None)) == log,
    decreases log.len(),
{
    let p = logged_after(Some(after));
    if log.len() > 0 {
        let front = log.drop_last();
        assert forall|i: int| 0 <= i < front.len() implies (#[trigger] front[i]).spec_seq() == i
            + 1 by {
            assert(front[i] == log[i]);
        }
        assert(log[log.len() - 1].spec_seq() == log.len());
        if after < log.len() {
            lemma_log_part(front, after);
            assert(kept(log, p) =~= log.skip(after as int));
        } else {
            lemma_log_part(front, (after - 1) as u64);
            lemma_none_later(front, after);
            assert(kept(log, p) =~= log.skip(after as int));
        }
        assert(front.push(log.last()) =~= log);
    } else {
        assert(kept(log, p) =~= log.skip(after as int));
    }
    assert(kept(log, logged_after(None)) =~= log);
}

proof fn lemma_none_later(log: Seq<LogView>, after: u64)
    requires
        log.len() <= after,
        forall|i: int| 0 <= i < log.len() ==> (#[trigger] log[i]).spec_seq() == i + 1,
    ensures
        kept(log, logged_after(Some(after))).len() == 0,
    decreases log.len(),
{
    if log.len() > 0 {
        let front = log.drop_last();
        assert forall|i: int| 0 <= i < front.len() implies (#[trigger] front[i]).spec_seq() == i
            + 1 by {
            assert(front[i] == log[i]);
        }
        assert(log[log.len() - 1].spec_seq() == log.len());
        lemma_none_later(front, after);
    }
}

/// A branch without a bound is walked from its entry to the root, or the other
/// way round where the oldest is wanted first.
pub proof fn law_branches_are_walked_both_ways(
    entries: Seq<Entry>,
    query: EntryQuery,
    start: Seq<char>,
)
    ensures
        query.order == Some(EntryOrder::OldestFirst) ==> branch_part(
            entries,
            query,
            None,
            None,
            start,
        ) == walk(entries, start, None, None).reverse(),
        query.order != Some(EntryOrder::OldestFirst) ==> branch_part(
            entries,
            query,
            None,
            None,
            start,
        ) == walk(entries, start, None, None),
{
    lemma_unbounded(walk(entries, start, None, None).reverse());
}

proof fn lemma_unbounded(path: Seq<Entry>)
    ensures
        up_to_bound(path, None, None) == path,
    decreases path.len(),
{
    if path.len() > 0 {
        lemma_unbounded(path.drop_first());
        assert(seq![path[0]] + path.drop_first() =~= path);
    }
}

/// A bounded part of a branch ends with the first entry that has the id or the
/// type of the bound, and is the whole branch where there is none.
pub proof fn law_bounds_end_a_branch(
    path: Seq<Entry>,
    stop_at_id: Option<Seq<char>>,
    stop_at_type: Option<EntryType>,
    at: int,
)
    requires
        0 <= at < path.len(),
        forall|i: int|
            0 <= i < at ==> stop_at_id != Some((#[trigger] path[i]).spec_id()) && stop_at_type
                != Some(path[i].spec_type()),
        stop_at_id == Some(path[at].spec_id()) || stop_at_type == Some(path[at].spec_type()) || at
            == path.len() - 1,
    ensures
        up_to_bound(path, stop_at_id, stop_at_type) == path.take(at + 1),
    decreases path.len(),
{
    if at == 0 {
        assert(path.take(1) =~= seq![path[0]]);
        if path.len() == 1 {
            reveal_with_fuel(up_to_bound, 2);
            assert(path.drop_first() =~= Seq::<Entry>::empty());
            assert(up_to_bound(path, stop_at_id, stop_at_type) =~= seq![path[0]]);
        }
    } else {
        let rest = path.drop_first();
        assert(stop_at_id != Some(path[0].spec_id()) && stop_at_type != Some(path[0].spec_type()));
        assert forall|i: int| 0 <= i < at - 1 implies stop_at_id != Some(
            (#[trigger] rest[i]).spec_id(),
        ) && stop_at_type != Some(rest[i].spec_type()) by {
            assert(rest[i] == path[i + 1]);
        }
        law_bounds_end_a_branch(rest, stop_at_id, stop_at_type, at - 1);
        assert(seq![path[0]] + rest.take(at) =~= path.take(at + 1));
    }
}

/// An entry is found under its id: the one that was appended last.
pub proof fn law_entries_are_found_by_id(entries: Seq<Entry>, entry: Entry, id: Seq<char>)
    ensures
        entry_by_id(entries.push(entry), entry.spec_id()) == Some(entry),
        id != entry.spec_id() ==> entry_by_id(entries.push(entry), id) == entry_by_id(entries, id),
        entry_by_id(entries, id) matches Some(found) ==> found.spec_id() == id
            && entries.contains(found),
        entry_by_id(entries, id) is None <==> !an_entry_has(entries, id),
{
    assert(entries.push(entry).drop_last() =~= entries);
    lemma_entry_by_id(entries, id);
    lemma_entry_there(entries, id);
}

/// Whether the parents of entries come before them.
pub open spec fn parents_come_first(entries: Seq<Entry>) -> bool {
    forall|i: int|
        0 <= i < entries.len() ==> ((#[trigger] entries[i]).spec_parent() matches Some(parent)
            ==> an_entry_has(entries.take(i), parent))
}

/// A walk begins with its entry, goes from each entry to its parent, and ends
/// with the first that is a bound, or else with a root.
pub proof fn law_walks_follow_the_parents(
    entries: Seq<Entry>,
    start: Seq<char>,
    stop_at_id: Option<Seq<char>>,
    stop_at_type: Option<EntryType>,
)
    requires
        parents_come_first(entries),
        an_entry_has(entries, start),
    ensures
        ({
            let path = walk(entries, start, stop_at_id, stop_at_type);
            &&& path.len() > 0
            &&& path[0].spec_id() == start
            &&& forall|i: int|
                0 <= i < path.len() - 1 ==> {
                    &&& (#[trigger] path[i]).spec_parent() == Some(path[i + 1].spec_id())
                    &&& stop_at_id != Some(path[i].spec_id())
                    &&& stop_at_type != Some(path[i].spec_type())
                }
            &&& stop_at_id == Some(path.last().spec_id()) || stop_at_type == Some(
                path.last().spec_type(),
            ) || path.last().spec_parent() is None
            &&& forall|i: int| 0 <= i < path.len() ==> entries.contains(#[trigger] path[i])
        }),
    decreases entries.len(),
{
    let path = walk(entries, start, stop_at_id, stop_at_type);
    let front = entries.drop_last();
    let last = entries.last();
    let n = entries.len() - 1;
    assert(front =~= entries.take(n));
    assert(parents_come_first(front)) by {
        assert forall|i: int| 0 <= i < front.len() implies (
        (#[trigger] front[i]).spec_parent() matches Some(parent) ==> an_entry_has(
            front.take(i),
            parent,
        )) by {
            assert(front[i] == entries[i]);
            assert(front.take(i) =~= entries.take(i));
        }
    }
    if last.spec_id() != start {
        let k = choose|k: int| 0 <= k < entries.len() && (#[trigger] entries[k]).spec_id() == start;
        assert(front[k].spec_id() == start);
        law_walks_follow_the_parents(front, start, stop_at_id, stop_at_type);
    } else if !crate::session::state::is_bound(last, stop_at_id, stop_at_type)
        && last.spec_parent() is Some {
        let parent = last.spec_parent()->0;
        assert(entries[n].spec_parent() == Some(parent));
        law_walks_follow_the_parents(front, parent, stop_at_id, stop_at_type);
        let rest = walk(front, parent, stop_at_id, stop_at_type);
        assert(path =~= seq![last] + rest);
        assert(path.last() == rest.last());
        assert forall|i: int| 0 <= i < path.len() - 1 implies {
            &&& (#[trigger] path[i]).spec_parent() == Some(path[i + 1].spec_id())
            &&& stop_at_id != Some(path[i].spec_id())
            &&& stop_at_type != Some(path[i].spec_type())
        } by {
            if i > 0 {
                assert(path[i] == rest[i - 1]);
                assert(path[i + 1] == rest[i]);
            } else {
                assert(path[1] == rest[0]);
            }
        }
        assert forall|i: int| 0 <= i < path.len() implies entries.contains(#[trigger] path[i]) by {
            if i == 0 {
                assert(entries[n] == path[0]);
            } else {
                assert(path[i] == rest[i - 1]);
                let k = choose|k: int| 0 <= k < front.len() && front[k] == rest[i - 1];
                assert(entries[k] == path[i]);
            }
        }
    } else {
        assert(entries[n] == path[0]);
    }
    if last.spec_id() != start {
        assert forall|i: int| 0 <= i < path.len() implies entries.contains(#[trigger] path[i]) by {
            let k = choose|k: int| 0 <= k < front.len() && front[k] == path[i];
            assert(entries[k] == path[i]);
        }
    }
}

/// A query along a branch is refused where it wants no entries or begins with an
/// entry that is not there. Any other one finds the entries of that part of the
/// branch that it asks for, in the order of the part, as many as it wants.
pub proof fn law_queries_search_a_branch(
    s: SessionView,
    query: EntryQuery,
    stop_at_id: Option<Seq<char>>,
    stop_at_type: Option<EntryType>,
    start: Seq<char>,
)
    ensures
        ({
            let found = s.found_on_branch(query, stop_at_id, stop_at_type, start);
            let part = branch_part(s.entries, query, stop_at_id, stop_at_type, start);
            let wanted = part.filter(|e: Entry| is_asked_for(query, e));
            &&& found is Ok <==> query.limit != Some(0usize) && an_entry_has(s.entries, start)
            &&& query.limit == Some(0usize) ==> (found matches Err(e) && e.code
                == SessionErrorCode::InvalidQuery)
            &&& query.limit != Some(0usize) && found is Err ==> (found matches Err(e) && e.code
                == SessionErrorCode::NotFound && e.message == "Entry not found: "@ + start)
            &&& found matches Ok(entries) ==> {
                &&& query.limit is None ==> entries == wanted
                &&& query.limit matches Some(n) ==> entries == if n <= wanted.len() {
                    wanted.take(n as int)
                } else {
                    wanted
                }
            }
        }),
{
    let part = branch_part(s.entries, query, stop_at_id, stop_at_type, start);
    let p = crate::session::state::entry_matches(query);
    let q = |e: Entry| is_asked_for(query, e);
    assert(p =~= q);
    law_selections_keep_the_order(part, p);
    lemma_entry_there(s.entries, start);
    if let Some(n) = query.limit {
        law_limits_keep_the_first(part.filter(q), n);
    }
}

} // verus!

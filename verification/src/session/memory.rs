//! Sessions that live in memory: the storage of one session, the register of
//! many, and what a session decides before it turns to its storage.

use std::sync::Arc;

use vstd::prelude::*;

use crate::json::Json;
use crate::order::{in_order, sort_stable, Keyed};
use crate::session::fork::{fork_steps, forkable, law_forks_rebuild_their_selection, selection};
use crate::session::plan::{unknown_entry, unknown_lane};
use crate::session::select::{kept, limited};
use crate::session::state::{
    fresh_session, lane_at, lane_views, log_views, logged_after, open_on_lane, refusal, replay,
    MutationView, SessionMutation, SessionState, SessionStats, SessionView,
};
use crate::session::types::{
    entry_by_id, has_entry, BranchBounds, Entry, EntryQuery, ForkOptions, LanePointer, LaneRecord,
    LogItem, LogOptions, RecordQuery, RecordType, SessionError, SessionErrorCode, SessionErrorView,
    SessionMetadata,
};
use crate::text::{concat2, same_text, text_of_option};
use crate::types::{copy_text, AgentMessage};

verus! {

// ---------------------------------------------------------------------------
// Storage
// ---------------------------------------------------------------------------

/// The storage of a session in memory.
pub struct InMemorySessionStorage {
    metadata: SessionMetadata,
    state: SessionState,
}

impl InMemorySessionStorage {
    /// The metadata of the session.
    pub closed spec fn spec_metadata(self) -> SessionMetadata {
        self.metadata
    }

    /// The state of the session.
    pub closed spec fn view(&self) -> SessionView {
        self.state@
    }

    /// The storage of a new session.
    pub fn new(metadata: SessionMetadata) -> (r: Self)
        ensures
            r@ == fresh_session(),
            r@.wf(),
            r.spec_metadata() == metadata,
    {
        InMemorySessionStorage { metadata, state: SessionState::new() }
    }

    /// The number of the last change.
    pub fn sequence(&self) -> (r: u64)
        ensures
            r == self@.sequence,
    {
        self.state.sequence()
    }

    /// The storage of a fork of the session.
    pub fn fork_storage(&self, metadata: SessionMetadata, options: &ForkOptions) -> (r: Result<
        InMemorySessionStorage,
        SessionError,
    >)
        requires
            self@.wf(),
            forkable(self@, *options),
        ensures
            match selection(self@, *options) {
                Ok(chosen) => r matches Ok(storage) && storage.spec_metadata() == metadata
                    && storage@.wf() && replay(
                    fresh_session(),
                    fork_steps(chosen, self@.name, self@.labels),
                ) == Ok::<SessionView, SessionErrorView>(storage@),
                Err(e) => r matches Err(refused) && refused@ == e,
            },
    {
        let steps: Vec<SessionMutation> = match self.state.create_fork_mutations(options) {
            Ok(steps) => steps,
            Err(e) => {
                return Err(e);
            },
        };
        proof {
            law_forks_rebuild_their_selection(self@, *options);
        }
        let mut state: SessionState = SessionState::new();
        match state.replay(steps) {
            Ok(()) => Ok(InMemorySessionStorage { metadata, state }),
            Err(e) => Err(e),
        }
    }

    /// The metadata of the session.
    pub fn get_metadata(&self) -> (r: SessionMetadata)
        ensures
            r == self.spec_metadata(),
    {
        self.metadata.clone()
    }

    /// The lanes, oldest first.
    pub fn get_lanes(&self) -> (r: Vec<LanePointer>)
        ensures
            lane_views(r@) == self@.lanes,
    {
        self.state.get_lanes()
    }

    /// Creates a lane that points at an entry or at nothing.
    pub fn create_lane(&mut self, lane: String, at: Option<String>) -> (r: Result<(), SessionError>)
        requires
            old(self)@.wf(),
            old(self)@.sequence < u64::MAX,
        ensures
            final(self)@.wf(),
            final(self).spec_metadata() == old(self).spec_metadata(),
            refusal(r) == old(self)@.create_lane_problem(lane@, text_of_option(at)),
            r is Ok ==> final(self)@ == old(self)@.lane_set(lane@, text_of_option(at)),
            r is Err ==> final(self)@ == old(self)@,
    {
        match self.state.plan_new_lane(lane, at) {
            Ok(mutation) => self.state.apply_mutation(mutation),
            Err(e) => Err(e),
        }
    }

    /// Points a lane at an entry or at nothing.
    pub fn move_lane(&mut self, lane: String, to: Option<String>) -> (r: Result<(), SessionError>)
        requires
            old(self)@.wf(),
            old(self)@.sequence < u64::MAX,
        ensures
            final(self)@.wf(),
            final(self).spec_metadata() == old(self).spec_metadata(),
            refusal(r) == old(self)@.move_lane_problem(lane@, text_of_option(to)),
            r is Ok ==> final(self)@ == old(self)@.lane_set(lane@, text_of_option(to)),
            r is Err ==> final(self)@ == old(self)@,
    {
        match self.state.plan_lane_move(lane, to) {
            Ok(mutation) => self.state.apply_mutation(mutation),
            Err(e) => Err(e),
        }
    }

    /// Appends an entry at the end of a lane. The storage assigns the parent,
    /// the sequence number and the timestamp.
    pub fn append_entry(&mut self, entry: Entry, lane: String, now: i64) -> (r: Result<
        Entry,
        SessionError,
    >)
        requires
            old(self)@.wf(),
            old(self)@.sequence < u64::MAX,
        ensures
            final(self)@.wf(),
            final(self).spec_metadata() == old(self).spec_metadata(),
            match r {
                Ok(stored) => {
                    &&& old(self)@.append_entry_problem(entry.spec_id(), lane@) is None
                    &&& stored == entry.stored(
                        stored.parent_string(),
                        (old(self)@.sequence + 1) as u64,
                        now,
                    )
                    &&& stored.spec_parent() == old(self)@.lanes[lane_at(
                        old(self)@.lanes,
                        lane@,
                    ).unwrap()].leaf
                    &&& final(self)@ == old(self)@.after(
                        MutationView::Entry { lane: Some(lane@), entry: stored },
                    )
                },
                Err(e) => {
                    &&& old(self)@.append_entry_problem(entry.spec_id(), lane@) == Some(e@)
                    &&& final(self)@ == old(self)@
                },
            },
    {
        let stored: Entry = match self.state.plan_entry(entry, lane.as_str(), now) {
            Ok(stored) => stored,
            Err(e) => {
                return Err(e);
            },
        };
        match self.state.apply_mutation(
            SessionMutation::Entry { lane: Some(lane), entry: stored.clone() },
        ) {
            Ok(()) => Ok(stored),
            Err(e) => Err(e),
        }
    }

    /// Appends a record to a lane's log. The storage assigns the sequence
    /// number and the timestamp.
    pub fn append_record(&mut self, record: LaneRecord, now: i64) -> (r: Result<
        LaneRecord,
        SessionError,
    >)
        requires
            old(self)@.wf(),
            old(self)@.sequence < u64::MAX,
        ensures
            final(self)@.wf(),
            final(self).spec_metadata() == old(self).spec_metadata(),
            match r {
                Ok(stored) => {
                    &&& old(self)@.append_record_problem(record) is None
                    &&& stored == record.stored((old(self)@.sequence + 1) as u64, now)
                    &&& final(self)@ == old(self)@.after(MutationView::Record { record: stored })
                },
                Err(e) => {
                    &&& old(self)@.append_record_problem(record) == Some(e@)
                    &&& final(self)@ == old(self)@
                },
            },
    {
        let stored: LaneRecord = match self.state.plan_record(record, now) {
            Ok(stored) => stored,
            Err(e) => {
                return Err(e);
            },
        };
        match self.state.apply_mutation(SessionMutation::Record { record: stored.clone() }) {
            Ok(()) => Ok(stored),
            Err(e) => Err(e),
        }
    }

    /// The entry with the given id.
    pub fn get_entry(&self, id: &String) -> (r: Option<Entry>)
        ensures
            r == entry_by_id(self@.entries, id@),
    {
        self.state.get_entry(id)
    }

    /// The entries that a query finds; none for a query with a limit of zero.
    pub fn find_entries(&self, query: &EntryQuery) -> (r: Vec<Entry>)
        ensures
            r@ == if query.limit == Some(0usize) {
                Seq::<Entry>::empty()
            } else {
                self@.found_entries(*query)
            },
    {
        match self.state.find_entries(query) {
            Ok(found) => found,
            Err(_) => Vec::new(),
        }
    }

    /// The entries that a query finds along a branch; none for a query with a
    /// limit of zero or an unknown start.
    pub fn find_entries_on_branch(
        &self,
        query: &EntryQuery,
        bounds: &BranchBounds,
        start: &String,
    ) -> (r: Vec<Entry>)
        requires
            self@.wf(),
        ensures
            r@ == match self@.found_on_branch(
                *query,
                text_of_option(bounds.stop_at_id),
                bounds.stop_at_type,
                start@,
            ) {
                Ok(found) => found,
                Err(_) => Seq::<Entry>::empty(),
            },
    {
        match self.state.find_entries_on_branch(
            query,
            &bounds.stop_at_id,
            bounds.stop_at_type,
            start,
        ) {
            Ok(found) => found,
            Err(_) => Vec::new(),
        }
    }

    /// The records that a query finds; none for a query with a limit of zero.
    pub fn find_records(&self, query: &RecordQuery) -> (r: Vec<LaneRecord>)
        ensures
            r@ == if query.limit == Some(0usize) {
                Seq::<LaneRecord>::empty()
            } else {
                self@.found_records(*query)
            },
    {
        match self.state.find_records(query) {
            Ok(found) => found,
            Err(_) => Vec::new(),
        }
    }

    /// The open operations of a lane, newest first; none for a limit of zero.
    pub fn find_open_operations(&self, lane: &str, limit: Option<usize>) -> (r: Vec<LaneRecord>)
        ensures
            r@ == limited(open_on_lane(self@.open, lane@).reverse(), limit),
    {
        match self.state.find_open_operations(lane, limit) {
            Ok(found) => found,
            Err(_) => {
                proof {
                    let all = open_on_lane(self@.open, lane@).reverse();
                    assert(limited(all, Some(0usize)) =~= Seq::<LaneRecord>::empty());
                }
                Vec::new()
            },
        }
    }

    /// The history after a sequence number; none for a limit of zero.
    pub fn get_log(&self, options: &LogOptions) -> (r: Vec<LogItem>)
        ensures
            log_views(r@) == limited(
                kept(self@.log, logged_after(options.after_seq)),
                options.limit,
            ),
    {
        match self.state.get_log(options) {
            Ok(found) => found,
            Err(_) => {
                let none: Vec<LogItem> = Vec::new();
                proof {
                    let all = kept(self@.log, logged_after(options.after_seq));
                    assert(limited(all, Some(0usize)) =~= log_views(none@));
                }
                none
            },
        }
    }

    /// The name of the session.
    pub fn get_name(&self) -> (r: Option<String>)
        ensures
            text_of_option(r) == self@.name,
    {
        self.state.get_name()
    }

    /// Names the session, or takes its name away.
    pub fn set_name(&mut self, name: Option<String>) -> (r: Result<(), SessionError>)
        requires
            old(self)@.wf(),
            old(self)@.sequence < u64::MAX,
        ensures
            final(self)@.wf(),
            final(self).spec_metadata() == old(self).spec_metadata(),
            r is Ok,
            final(self)@ == old(self)@.after(
                MutationView::NameFact {
                    seq: (old(self)@.sequence + 1) as u64,
                    name: text_of_option(name),
                },
            ),
    {
        let mutation: SessionMutation = self.state.plan_name(name);
        self.state.apply_mutation(mutation)
    }

    /// The label of an entry.
    pub fn get_label(&self, id: &String) -> (r: Option<String>)
        ensures
            match r {
                Some(text) => self@.labels.dom().contains(id@) && self@.labels[id@] == text@,
                None => !self@.labels.dom().contains(id@),
            },
    {
        self.state.get_label(id)
    }

    /// Labels an entry, or takes its label away.
    pub fn set_label(&mut self, id: String, label: Option<String>) -> (r: Result<(), SessionError>)
        requires
            old(self)@.wf(),
            old(self)@.sequence < u64::MAX,
        ensures
            final(self)@.wf(),
            final(self).spec_metadata() == old(self).spec_metadata(),
            refusal(r) == if has_entry(old(self)@.entries, id@) {
                None
            } else {
                Some(unknown_entry(id@))
            },
            r is Ok ==> final(self)@ == old(self)@.after(
                MutationView::LabelFact {
                    seq: (old(self)@.sequence + 1) as u64,
                    target: id@,
                    label: text_of_option(label),
                },
            ),
            r is Err ==> final(self)@ == old(self)@,
    {
        match self.state.plan_label(id, label) {
            Ok(mutation) => self.state.apply_mutation(mutation),
            Err(e) => Err(e),
        }
    }

    /// Totals over the session.
    pub fn get_stats(&self) -> (r: SessionStats)
        ensures
            r@ == self@.stats,
    {
        self.state.get_stats()
    }
}

// ---------------------------------------------------------------------------
// Laws
// ---------------------------------------------------------------------------

/// Whether no lane has two open operations.
pub open spec fn one_open_operation(s: SessionView) -> bool {
    forall|lane: Seq<char>| (#[trigger] open_on_lane(s.open, lane)).len() <= 1
}

proof fn lemma_open_pushed(open: Seq<LaneRecord>, record: LaneRecord, lane: Seq<char>)
    ensures
        open_on_lane(open.push(record), lane) == if record.spec_lane() == lane {
            open_on_lane(open, lane).push(record)
        } else {
            open_on_lane(open, lane)
        },
{
    assert(open.push(record).drop_last() =~= open);
}

proof fn lemma_open_kept(open: Seq<LaneRecord>, p: spec_fn(LaneRecord) -> bool, lane: Seq<char>)
    ensures
        open_on_lane(kept(open, p), lane).len() <= open_on_lane(open, lane).len(),
    decreases open.len(),
{
    if open.len() > 0 {
        lemma_open_kept(open.drop_last(), p, lane);
        if p(open.last()) {
            lemma_open_pushed(kept(open.drop_last(), p), open.last(), lane);
        }
        assert(open.drop_last().push(open.last()) =~= open);
        lemma_open_pushed(open.drop_last(), open.last(), lane);
    }
}

/// A lane never has two open operations: accepted records keep it so.
pub proof fn law_one_open_operation_per_lane(s: SessionView, record: LaneRecord)
    requires
        one_open_operation(s),
        s.append_record_problem(record) is None,
    ensures
        one_open_operation(s.after(MutationView::Record { record })),
{
    let t = s.after(MutationView::Record { record });
    assert forall|lane: Seq<char>| (#[trigger] open_on_lane(t.open, lane)).len() <= 1 by {
        assert(open_on_lane(s.open, lane).len() <= 1);
        match record {
            LaneRecord::OperationStarted { .. } => {
                lemma_open_pushed(s.open, record, lane);
            },
            LaneRecord::OperationFinished { lane: on, run_id, .. } => {
                let p = |r: LaneRecord| !(r.spec_lane() == on@ && r.spec_id() == run_id@);
                lemma_open_kept(s.open, p, lane);
            },
            _ => {},
        }
    }
}

/// Finishing an operation closes it: no open operation of the lane has its id.
pub proof fn law_finishing_closes_an_operation(s: SessionView, record: LaneRecord, k: int)
    requires
        record is OperationFinished,
        0 <= k < s.after(MutationView::Record { record }).open.len(),
    ensures
        ({
            let open = s.after(MutationView::Record { record }).open[k];
            open.spec_lane() != record.spec_lane() || Some(open.spec_id()) != record.spec_run_id()
        }),
{
    match record {
        LaneRecord::OperationFinished { lane, run_id, .. } => {
            let p = |r: LaneRecord| !(r.spec_lane() == lane@ && r.spec_id() == run_id@);
            crate::session::select::lemma_kept(s.open, p, k);
        },
        _ => {},
    }
}

/// Appending an entry to one lane moves that lane to the entry and leaves the
/// others where they are.
pub proof fn law_lanes_are_isolated(s: SessionView, lane: Seq<char>, entry: Entry, i: int)
    requires
        s.wf(),
        lane_at(s.lanes, lane) is Some,
        0 <= i < s.lanes.len(),
    ensures
        ({
            let t = s.after(MutationView::Entry { lane: Some(lane), entry });
            &&& t.lanes.len() == s.lanes.len()
            &&& t.lanes[i].lane == s.lanes[i].lane
            &&& s.lanes[i].lane == lane ==> t.lanes[i].leaf == Some(entry.spec_id())
            &&& s.lanes[i].lane != lane ==> t.lanes[i].leaf == s.lanes[i].leaf
        }),
{
    crate::session::state::lemma_lane_at(s.lanes, lane);
}

/// What was appended is found by its id.
pub proof fn law_appended_entries_are_found(s: SessionView, lane: Option<Seq<char>>, entry: Entry)
    ensures
        entry_by_id(
            s.after(MutationView::Entry { lane, entry }).entries,
            entry.spec_id(),
        ) == Some(entry),
{
}

/// Setting a label and reading it give the label; taking it away leaves none.
pub proof fn law_labels_read_back(s: SessionView, seq: u64, id: Seq<char>, label: Option<Seq<char>>)
    ensures
        ({
            let labels = s.after(MutationView::LabelFact { seq, target: id, label }).labels;
            match label {
                Some(text) => labels.dom().contains(id) && labels[id] == text,
                None => !labels.dom().contains(id),
            }
        }),
{
}

// ---------------------------------------------------------------------------
// Register
// ---------------------------------------------------------------------------

impl Keyed for SessionMetadata {
    open spec fn spec_key(&self) -> u64 {
        (self.created_at + 0x8000_0000_0000_0000) as u64
    }

    fn key(&self) -> (r: u64) {
        (self.created_at as i128 + 0x8000_0000_0000_0000) as u64
    }
}

/// A register of sessions with a handle for each.
pub struct InMemorySessionRepo<H> {
    sessions: Vec<(SessionMetadata, H)>,
}

/// The position of the session with the given id.
pub open spec fn session_at<H>(sessions: Seq<(SessionMetadata, H)>, id: Seq<char>) -> Option<int>
    decreases sessions.len(),
{
    if sessions.len() == 0 {
        None
    } else if sessions.last().0.id@ == id {
        Some(sessions.len() - 1)
    } else {
        session_at(sessions.drop_last(), id)
    }
}

/// The refusal of an unknown session.
pub open spec fn unknown_session(id: Seq<char>) -> SessionErrorView {
    SessionErrorView { code: SessionErrorCode::NotFound, message: "Session not found: "@ + id }
}

/// The refusal of an id that another session has.
pub open spec fn taken_session(id: Seq<char>) -> SessionErrorView {
    SessionErrorView {
        code: SessionErrorCode::AlreadyExists,
        message: "Session already exists: "@ + id,
    }
}

/// The metadata of registered sessions.
pub open spec fn metadata_of<H>(sessions: Seq<(SessionMetadata, H)>) -> Seq<SessionMetadata> {
    Seq::new(sessions.len(), |i: int| sessions[i].0)
}

fn find_session<H>(sessions: &Vec<(SessionMetadata, H)>, id: &str) -> (r: Option<usize>)
    ensures
        match r {
            Some(i) => session_at(sessions@, id@) == Some(i as int) && i < sessions@.len()
                && sessions@[i as int].0.id@ == id@,
            None => session_at(sessions@, id@) is None,
        },
{
    let mut i: usize = sessions.len();
    proof {
        assert(sessions@.take(i as int) =~= sessions@);
    }
    while i > 0
        invariant
            i <= sessions@.len(),
            session_at(sessions@, id@) == session_at(sessions@.take(i as int), id@),
        decreases i,
    {
        proof {
            assert(sessions@.take(i as int).drop_last() =~= sessions@.take(i as int - 1));
        }
        if same_text(sessions[i - 1].0.id.as_str(), id) {
            return Some(i - 1);
        }
        i = i - 1;
    }
    None
}

impl<H> InMemorySessionRepo<H> {
    /// The registered sessions, oldest registration first.
    pub closed spec fn view(&self) -> Seq<(SessionMetadata, H)> {
        self.sessions@
    }

    /// An empty register.
    pub fn new() -> (r: Self)
        ensures
            r@.len() == 0,
    {
        InMemorySessionRepo { sessions: Vec::new() }
    }

    /// Registers a session under an id that no other has.
    pub fn create(&mut self, metadata: SessionMetadata, handle: H) -> (r: Result<(), SessionError>)
        ensures
            refusal(r) == if session_at(old(self)@, metadata.id@) is Some {
                Some(taken_session(metadata.id@))
            } else {
                None
            },
            r is Ok ==> final(self)@ == old(self)@.push((metadata, handle)),
            r is Err ==> final(self)@ == old(self)@,
    {
        if find_session(&self.sessions, metadata.id.as_str()).is_some() {
            return Err(
                SessionError::new(
                    SessionErrorCode::AlreadyExists,
                    concat2("Session already exists: ", metadata.id.as_str()),
                ),
            );
        }
        self.sessions.push((metadata, handle));
        Ok(())
    }

    /// The handle of a registered session.
    pub fn open(&self, id: &str) -> (r: Result<&H, SessionError>)
        ensures
            match r {
                Ok(handle) => session_at(self@, id@) matches Some(i) && self@[i].1 == *handle,
                Err(e) => session_at(self@, id@) is None && e@ == unknown_session(id@),
            },
    {
        match find_session(&self.sessions, id) {
            Some(i) => Ok(&self.sessions[i].1),
            None => Err(
                SessionError::new(SessionErrorCode::NotFound, concat2("Session not found: ", id)),
            ),
        }
    }

    /// The metadata of the registered sessions, oldest creation first.
    pub fn list(&self) -> (r: Vec<SessionMetadata>)
        ensures
            r@ == in_order(metadata_of(self@)),
    {
        let mut out: Vec<SessionMetadata> = Vec::new();
        let mut i: usize = 0;
        while i < self.sessions.len()
            invariant
                i <= self.sessions@.len(),
                out@ == metadata_of(self.sessions@).take(i as int),
            decreases self.sessions@.len() - i,
        {
            out.push(self.sessions[i].0.clone());
            proof {
                let all = metadata_of(self.sessions@);
                assert(all.take(i as int + 1) =~= all.take(i as int).push(all[i as int]));
            }
            i = i + 1;
        }
        proof {
            let all = metadata_of(self.sessions@);
            assert(all.take(all.len() as int) =~= all);
        }
        sort_stable(out)
    }

    /// Takes a session out of the register.
    pub fn delete(&mut self, id: &str)
        ensures
            final(self)@ == match session_at(old(self)@, id@) {
                Some(i) => old(self)@.remove(i),
                None => old(self)@,
            },
    {
        if let Some(i) = find_session(&self.sessions, id) {
            let removed: (SessionMetadata, H) = self.sessions.remove(i);
        }
    }

    /// Whether a session can be forked under a new id: the source exists and
    /// the id is free.
    pub fn check_fork(&self, source: &str, id: &str) -> (r: Result<(), SessionError>)
        ensures
            refusal(r) == if session_at(self@, source@) is None {
                Some(unknown_session(source@))
            } else if session_at(self@, id@) is Some {
                Some(taken_session(id@))
            } else {
                None
            },
    {
        if find_session(&self.sessions, source).is_none() {
            return Err(
                SessionError::new(
                    SessionErrorCode::NotFound,
                    concat2("Session not found: ", source),
                ),
            );
        }
        if find_session(&self.sessions, id).is_some() {
            return Err(
                SessionError::new(
                    SessionErrorCode::AlreadyExists,
                    concat2("Session already exists: ", id),
                ),
            );
        }
        Ok(())
    }
}

/// Ids stay distinct: a session is registered only under a free id.
pub proof fn law_session_ids_stay_distinct<H>(
    sessions: Seq<(SessionMetadata, H)>,
    metadata: SessionMetadata,
    handle: H,
)
    requires
        forall|i: int, j: int|
            0 <= i < j < sessions.len() ==> (#[trigger] sessions[i]).0.id@ != (
            #[trigger] sessions[j]).0.id@,
        session_at(sessions, metadata.id@) is None,
    ensures
        forall|i: int, j: int|
            0 <= i < j < sessions.len() + 1 ==> (#[trigger] sessions.push(
                (metadata, handle),
            )[i]).0.id@ != (#[trigger] sessions.push((metadata, handle))[j]).0.id@,
{
    lemma_session_at(sessions, metadata.id@);
    let t = sessions.push((metadata, handle));
    assert forall|i: int, j: int| 0 <= i < j < sessions.len() + 1 implies (
    #[trigger] t[i]).0.id@ != (#[trigger] t[j]).0.id@ by {
        assert(t[i] == sessions[i]);
        if j < sessions.len() {
            assert(t[j] == sessions[j]);
        }
    }
}

proof fn lemma_session_at<H>(sessions: Seq<(SessionMetadata, H)>, id: Seq<char>)
    ensures
        session_at(sessions, id) is None ==> forall|i: int|
            0 <= i < sessions.len() ==> (#[trigger] sessions[i]).0.id@ != id,
    decreases sessions.len(),
{
    if sessions.len() > 0 && sessions.last().0.id@ != id {
        let shorter = sessions.drop_last();
        lemma_session_at(shorter, id);
        if session_at(shorter, id) is None {
            assert forall|i: int| 0 <= i < sessions.len() implies (#[trigger] sessions[i]).0.id@
                != id by {
                if i < shorter.len() {
                    assert(shorter[i] == sessions[i]);
                }
            }
        }
    }
}

/// The metadata of a fork: without a parent of its own it names the source.
pub fn fork_metadata(
    source_id: &String,
    id: String,
    created_at: i64,
    parent_session_id: Option<String>,
) -> (r: SessionMetadata)
    ensures
        r.id == id,
        r.created_at == created_at,
        r.parent_session_id == if parent_session_id is Some {
            parent_session_id
        } else {
            Some(*source_id)
        },
{
    SessionMetadata {
        id,
        created_at,
        parent_session_id: match parent_session_id {
            Some(parent) => Some(parent),
            None => Some(source_id.clone()),
        },
    }
}

// ---------------------------------------------------------------------------
// Session
// ---------------------------------------------------------------------------

/// The entry that a lane points to, from a list of lanes.
pub fn leaf_of_lane(lanes: &Vec<LanePointer>, lane: &str) -> (r: Result<Option<String>, SessionError>)
    ensures
        match r {
            Ok(leaf) => lane_at(lane_views(lanes@), lane@) matches Some(i) && leaf
                == lanes@[i].leaf_id,
            Err(e) => lane_at(lane_views(lanes@), lane@) is None && e@ == unknown_lane(lane@),
        },
{
    match crate::session::state::find_lane(lanes, lane) {
        Some(i) => Ok(copy_text(&lanes[i].leaf_id)),
        None => Err(
            SessionError::new(SessionErrorCode::InvalidLane, concat2("Lane not found: ", lane)),
        ),
    }
}

/// A query with another limit, where one is given.
pub fn with_result_limit(query: EntryQuery, result_limit: Option<usize>) -> (r: EntryQuery)
    ensures
        r == (EntryQuery {
            limit: if result_limit is Some {
                result_limit
            } else {
                query.limit
            },
            ..query
        }),
{
    match result_limit {
        Some(limit) => EntryQuery { limit: Some(limit), ..query },
        None => query,
    }
}

/// Where a walk along a branch starts: at the given entry, or else at the leaf
/// of a lane. Without a start there is nothing to read.
pub fn branch_start(bounds: &BranchBounds, lanes: &Vec<LanePointer>, lane: &str) -> (r: Result<
    Option<String>,
    SessionError,
>)
    ensures
        match r {
            Ok(start) => if bounds.start is Some {
                start == bounds.start
            } else {
                lane_at(lane_views(lanes@), lane@) matches Some(i) && start == lanes@[i].leaf_id
            },
            Err(e) => bounds.start is None && lane_at(lane_views(lanes@), lane@) is None && e@
                == unknown_lane(lane@),
        },
{
    match &bounds.start {
        Some(id) => Ok(Some(id.clone())),
        None => leaf_of_lane(lanes, lane),
    }
}

/// Refuses a query for an operation's kind among records that start none.
pub fn check_record_query(query: &RecordQuery) -> (r: Result<(), SessionError>)
    ensures
        refusal(r) == if query.operation_kind is Some && query.record_type != Some(
            RecordType::OperationStarted,
        ) {
            Some(
                SessionErrorView {
                    code: SessionErrorCode::InvalidQuery,
                    message: "operationKind requires type \"operation_started\""@,
                },
            )
        } else {
            None
        },
{
    let starts: bool = match query.record_type {
        Some(RecordType::OperationStarted) => true,
        _ => false,
    };
    if query.operation_kind.is_some() && !starts {
        return Err(
            SessionError::new(
                SessionErrorCode::InvalidQuery,
                "operationKind requires type \"operation_started\"".to_owned(),
            ),
        );
    }
    Ok(())
}

/// A message entry that a storage has not stored yet.
pub fn message_entry(id: String, message: AgentMessage) -> (r: Entry)
    ensures
        r == (Entry::Message {
            id,
            message,
            terminate: None,
            parent_id: None,
            seq: 0,
            timestamp: 0,
        }),
{
    Entry::Message { id, message, terminate: None, parent_id: None, seq: 0, timestamp: 0 }
}

/// A custom entry that a storage has not stored yet.
pub fn custom_entry(id: String, custom_type: String, data: Option<Json>) -> (r: Entry)
    ensures
        r matches Entry::Custom {
            id: stored_id,
            custom_type: stored_type,
            data: stored_data,
            parent_id,
            seq,
            timestamp,
        } && stored_id == id && stored_type == custom_type && parent_id is None && seq == 0
            && timestamp == 0 && match (stored_data, data) {
            (Some(stored), Some(given)) => *stored == given,
            (None, None) => true,
            _ => false,
        },
{
    Entry::Custom {
        id,
        custom_type,
        data: match data {
            Some(value) => Some(Arc::new(value)),
            None => None,
        },
        parent_id: None,
        seq: 0,
        timestamp: 0,
    }
}

} // verus!

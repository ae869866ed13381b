//! What a session accepts, and the mutation that it makes of it.

use vstd::prelude::*;

use crate::session::state::{
    lane_at, lemma_lane_at, open_on_lane, MutationView, SessionMutation, SessionState, SessionView,
};
use crate::session::types::{
    has_entry, Entry, LaneRecord, RecordType, SessionError, SessionErrorCode, SessionErrorView,
};
use crate::text::{concat4, text_of_option};

verus! {

/// The refusal of an unknown lane.
pub open spec fn unknown_lane(lane: Seq<char>) -> SessionErrorView {
    SessionErrorView {
        code: SessionErrorCode::InvalidLane,
        message: "Lane not found: "@ + lane,
    }
}

/// The refusal of an unknown entry.
pub open spec fn unknown_entry(id: Seq<char>) -> SessionErrorView {
    SessionErrorView { code: SessionErrorCode::NotFound, message: "Entry not found: "@ + id }
}

/// The refusal of an id that is taken.
pub open spec fn taken_id(id: Seq<char>) -> SessionErrorView {
    SessionErrorView {
        code: SessionErrorCode::AlreadyExists,
        message: "Session id already exists: "@ + id,
    }
}

impl SessionView {
    /// Why a lane cannot be created, if it cannot.
    pub open spec fn create_lane_problem(
        self,
        lane: Seq<char>,
        at: Option<Seq<char>>,
    ) -> Option<SessionErrorView> {
        if lane_at(self.lanes, lane) is Some {
            Some(
                SessionErrorView {
                    code: SessionErrorCode::AlreadyExists,
                    message: "Lane already exists: "@ + lane,
                },
            )
        } else if at is Some && !has_entry(self.entries, at.unwrap()) {
            Some(unknown_entry(at.unwrap()))
        } else {
            None
        }
    }

    /// Why a lane cannot be moved, if it cannot.
    pub open spec fn move_lane_problem(
        self,
        lane: Seq<char>,
        to: Option<Seq<char>>,
    ) -> Option<SessionErrorView> {
        if lane_at(self.lanes, lane) is None {
            Some(unknown_lane(lane))
        } else if to is Some && !has_entry(self.entries, to.unwrap()) {
            Some(unknown_entry(to.unwrap()))
        } else {
            None
        }
    }

    /// Why an entry cannot be appended, if it cannot.
    pub open spec fn append_entry_problem(self, id: Seq<char>, lane: Seq<char>) -> Option<
        SessionErrorView,
    > {
        if lane_at(self.lanes, lane) is None {
            Some(unknown_lane(lane))
        } else if self.uses_id(id) {
            Some(taken_id(id))
        } else {
            None
        }
    }

    /// Why a record cannot be appended, if it cannot. A lane has at most one
    /// open operation.
    pub open spec fn append_record_problem(self, record: LaneRecord) -> Option<SessionErrorView> {
        let open = open_on_lane(self.open, record.spec_lane());
        if lane_at(self.lanes, record.spec_lane()) is None {
            Some(unknown_lane(record.spec_lane()))
        } else if self.uses_id(record.spec_id()) {
            Some(taken_id(record.spec_id()))
        } else if record is OperationStarted && open.len() > 0 {
            Some(
                SessionErrorView {
                    code: SessionErrorCode::Storage,
                    message: "Lane "@ + record.spec_lane() + " already has an open operation "@
                        + open.last().spec_id(),
                },
            )
        } else {
            None
        }
    }

    /// The state after an accepted change of a lane.
    pub open spec fn lane_set(self, lane: Seq<char>, leaf: Option<Seq<char>>) -> SessionView {
        self.after(MutationView::Lane { seq: (self.sequence + 1) as u64, lane, leaf })
    }
}

/// A planned mutation in terms of mathematical values.
pub open spec fn planned(r: Result<SessionMutation, SessionError>) -> Result<
    MutationView,
    SessionErrorView,
> {
    match r {
        Ok(mutation) => Ok(mutation@),
        Err(e) => Err(e@),
    }
}

/// A mutation, or why there is none.
pub open spec fn unless(problem: Option<SessionErrorView>, mutation: MutationView) -> Result<
    MutationView,
    SessionErrorView,
> {
    match problem {
        Some(e) => Err(e),
        None => Ok(mutation),
    }
}

impl SessionState {
    /// A new lane that points at an entry or at nothing.
    pub fn plan_new_lane(&self, lane: String, at: Option<String>) -> (r: Result<
        SessionMutation,
        SessionError,
    >)
        requires
            self@.sequence < u64::MAX,
        ensures
            planned(r) == unless(
                self@.create_lane_problem(lane@, text_of_option(at)),
                MutationView::Lane {
                    seq: (self@.sequence + 1) as u64,
                    lane: lane@,
                    leaf: text_of_option(at),
                },
            ),
            r matches Ok(mutation) ==> self@.problem(mutation@) is None,
    {
        if let Err(e) = self.validate_new_lane(lane.as_str()) {
            return Err(e);
        }
        if let Err(e) = self.validate_target(&at) {
            return Err(e);
        }
        let seq: u64 = self.next_sequence();
        Ok(SessionMutation::Lane { seq, lane, leaf_id: at })
    }

    /// A lane pointed at an entry or at nothing.
    pub fn plan_lane_move(&self, lane: String, to: Option<String>) -> (r: Result<
        SessionMutation,
        SessionError,
    >)
        requires
            self@.sequence < u64::MAX,
        ensures
            planned(r) == unless(
                self@.move_lane_problem(lane@, text_of_option(to)),
                MutationView::Lane {
                    seq: (self@.sequence + 1) as u64,
                    lane: lane@,
                    leaf: text_of_option(to),
                },
            ),
            r matches Ok(mutation) ==> self@.problem(mutation@) is None,
    {
        if let Err(e) = self.require_lane(lane.as_str()) {
            return Err(e);
        }
        if let Err(e) = self.validate_target(&to) {
            return Err(e);
        }
        let seq: u64 = self.next_sequence();
        Ok(SessionMutation::Lane { seq, lane, leaf_id: to })
    }

    /// An entry at the end of a lane, with its parent, sequence number and
    /// timestamp assigned.
    pub fn plan_entry(&self, entry: Entry, lane: &str, now: i64) -> (r: Result<Entry, SessionError>)
        requires
            self@.wf(),
            self@.sequence < u64::MAX,
        ensures
            match r {
                Ok(stored) => {
                    &&& self@.append_entry_problem(entry.spec_id(), lane@) is None
                    &&& stored == entry.stored(
                        stored.parent_string(),
                        (self@.sequence + 1) as u64,
                        now,
                    )
                    &&& stored.spec_parent() == self@.lanes[lane_at(
                        self@.lanes,
                        lane@,
                    ).unwrap()].leaf
                    &&& self@.problem(
                        MutationView::Entry { lane: Some(lane@), entry: stored },
                    ) is None
                },
                Err(e) => self@.append_entry_problem(entry.spec_id(), lane@) == Some(e@),
            },
    {
        let parent_id: Option<String> = match self.require_lane(lane) {
            Ok(leaf) => leaf,
            Err(e) => {
                return Err(e);
            },
        };
        if let Err(e) = self.validate_unused_id(entry.id()) {
            return Err(e);
        }
        proof {
            lemma_lane_at(self@.lanes, lane@);
        }
        let seq: u64 = self.next_sequence();
        Ok(entry.with_storage_fields(parent_id, seq, now))
    }

    /// A record in the log of its lane, with its sequence number and timestamp
    /// assigned.
    pub fn plan_record(&self, record: LaneRecord, now: i64) -> (r: Result<LaneRecord, SessionError>)
        requires
            self@.sequence < u64::MAX,
        ensures
            match r {
                Ok(stored) => {
                    &&& self@.append_record_problem(record) is None
                    &&& stored == record.stored((self@.sequence + 1) as u64, now)
                    &&& self@.problem(MutationView::Record { record: stored }) is None
                },
                Err(e) => self@.append_record_problem(record) == Some(e@),
            },
    {
        if let Err(e) = self.require_lane(record.lane().as_str()) {
            return Err(e);
        }
        if let Err(e) = self.validate_unused_id(record.id()) {
            return Err(e);
        }
        if record.record_type() == RecordType::OperationStarted {
            let open: Vec<LaneRecord> = match self.find_open_operations(
                record.lane().as_str(),
                Some(1),
            ) {
                Ok(open) => open,
                Err(_) => Vec::new(),
            };
            if open.len() > 0 {
                return Err(
                    SessionError::new(
                        SessionErrorCode::Storage,
                        concat4(
                            "Lane ",
                            record.lane().as_str(),
                            " already has an open operation ",
                            open[0].id().as_str(),
                        ),
                    ),
                );
            }
        }
        let seq: u64 = self.next_sequence();
        Ok(record.with_storage_fields(seq, now))
    }

    /// A name for the session, or none.
    pub fn plan_name(&self, name: Option<String>) -> (r: SessionMutation)
        requires
            self@.sequence < u64::MAX,
        ensures
            r@ == (MutationView::NameFact {
                seq: (self@.sequence + 1) as u64,
                name: text_of_option(name),
            }),
            self@.problem(r@) is None,
    {
        let seq: u64 = self.next_sequence();
        SessionMutation::NameFact { seq, name }
    }

    /// A label for an entry, or none.
    pub fn plan_label(&self, id: String, label: Option<String>) -> (r: Result<
        SessionMutation,
        SessionError,
    >)
        requires
            self@.sequence < u64::MAX,
        ensures
            planned(r) == unless(
                if has_entry(self@.entries, id@) {
                    None
                } else {
                    Some(unknown_entry(id@))
                },
                MutationView::LabelFact {
                    seq: (self@.sequence + 1) as u64,
                    target: id@,
                    label: text_of_option(label),
                },
            ),
            r matches Ok(mutation) ==> self@.problem(mutation@) is None,
    {
        let target: Option<String> = Some(id.clone());
        if let Err(e) = self.validate_target(&target) {
            return Err(e);
        }
        let seq: u64 = self.next_sequence();
        Ok(SessionMutation::LabelFact { seq, target_id: id, label })
    }
}

} // verus!

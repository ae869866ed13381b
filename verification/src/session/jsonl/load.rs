//! Reading a session file line by line. What an entry or a record holds is
//! decoded elsewhere and handed in.

use vstd::prelude::*;

use crate::json::{parsed_json, Json};
use crate::session::jsonl::codec::{
    decoded_mutation, parse_mutation, JsonlSessionMetadata, WireMutation, WireView,
};
use crate::session::jsonl::errors::{
    bad_file, invalid_file, schema_error, DecodeErrorView, JsonlDecodeError, JsonlDecodeErrorKind,
};
use crate::session::jsonl::storage::{
    entry_mutation, file_lines, line_refusal, loaded_from, record_mutation, repair_of,
    session_lines, JsonlSessionStorage, Repair,
};
use crate::session::state::{fresh_session, MutationView, SessionMutation, SessionView};
use crate::session::types::{
    Entry, LaneRecord, SessionError, SessionErrorCode, SessionErrorView,
};
use crate::text::{concat2, has_suffix, join_texts, text_of_option, texts};

verus! {

// ---------------------------------------------------------------------------
// Steps
// ---------------------------------------------------------------------------

/// What the lines of a file after its header say.
pub open spec fn said_lines(content: Seq<char>) -> Seq<Result<WireView, DecodeErrorView>> {
    let lines = file_lines(content);
    Seq::new(
        if lines.len() == 0 {
            0
        } else {
            (lines.len() - 1) as nat
        },
        |i: int| decoded_mutation(parsed_json(lines[i + 1])),
    )
}

/// The mutation that a line says without a payload, if it needs none.
pub open spec fn own_mutation(wire: WireView) -> Option<MutationView> {
    match wire {
        WireView::Entry { .. } => None,
        WireView::Record { .. } => None,
        WireView::Lane { seq, lane, leaf } => Some(MutationView::Lane { seq, lane, leaf }),
        WireView::NameFact { seq, name } => Some(MutationView::NameFact { seq, name }),
        WireView::LabelFact { seq, target, label } => Some(
            MutationView::LabelFact { seq, target, label },
        ),
    }
}

/// How far reading goes: up to a line whose payload has to be decoded, or to the
/// end. At the end there is the state, and whether the last line was cut off; or
/// the error of the first bad line.
pub enum LoadStep {
    Ask { state: SessionView, at: int },
    Done { result: Result<(SessionView, bool), SessionErrorView> },
}

/// How far reading goes from a line on.
pub open spec fn load_step(
    path: Seq<char>,
    state: SessionView,
    said: Seq<Result<WireView, DecodeErrorView>>,
    i: int,
) -> LoadStep
    decreases said.len() - i, 1nat,
{
    if i < 0 || i >= said.len() {
        LoadStep::Done { result: Ok((state, false)) }
    } else {
        match said[i] {
            Err(e) => step_with(path, state, said, i, Err(e)),
            Ok(wire) => match own_mutation(wire) {
                Some(m) => step_with(path, state, said, i, Ok(m)),
                None => LoadStep::Ask { state, at: i },
            },
        }
    }
}

/// How far reading goes with what a line turned out to say.
pub open spec fn step_with(
    path: Seq<char>,
    state: SessionView,
    said: Seq<Result<WireView, DecodeErrorView>>,
    i: int,
    line: Result<MutationView, DecodeErrorView>,
) -> LoadStep
    decreases said.len() - i, 0nat,
{
    match line {
        Err(e) => if i == said.len() - 1 && e.kind == JsonlDecodeErrorKind::Syntax {
            LoadStep::Done { result: Ok((state, true)) }
        } else {
            LoadStep::Done { result: Err(bad_file(path, (i + 2) as nat, e)) }
        },
        Ok(m) => match state.problem(m) {
            Some(e) => LoadStep::Done { result: Err(line_refusal(path, i, e)) },
            None => if 0 <= i < said.len() {
                load_step(path, state.after(m), said, i + 1)
            } else {
                LoadStep::Done { result: Ok((state.after(m), false)) }
            },
        },
    }
}

// ---------------------------------------------------------------------------
// Reading
// ---------------------------------------------------------------------------

/// A line whose payload has to be decoded.
pub enum Pending {
    Entry { lane: Option<String> },
    Record,
}

/// The mathematical value of a [`Pending`].
pub enum PendingView {
    Entry { lane: Option<Seq<char>> },
    Record,
}

impl View for Pending {
    type V = PendingView;

    open spec fn view(&self) -> PendingView {
        match *self {
            Pending::Entry { lane } => PendingView::Entry { lane: text_of_option(lane) },
            Pending::Record => PendingView::Record,
        }
    }
}

/// A decoded payload, or why it could not be decoded.
pub enum Payload {
    Entry(Result<Entry, String>),
    Record(Result<LaneRecord, String>),
}

impl PendingView {
    /// Whether a payload is one that the line waits for.
    pub open spec fn expects(self, payload: Payload) -> bool {
        match self {
            PendingView::Entry { .. } => payload is Entry,
            PendingView::Record => payload is Record,
        }
    }

    /// The lane that the line names.
    pub open spec fn lane(self) -> Option<Seq<char>> {
        match self {
            PendingView::Entry { lane } => lane,
            PendingView::Record => None,
        }
    }

    /// What the line says with its payload, or what is wrong with it.
    pub open spec fn filled(self, payload: Payload) -> Result<MutationView, DecodeErrorView> {
        match payload {
            Payload::Entry(Ok(entry)) => Ok(MutationView::Entry { lane: self.lane(), entry }),
            Payload::Entry(Err(message)) => Err(schema_error("has invalid entry: "@ + message@)),
            Payload::Record(Ok(record)) => Ok(MutationView::Record { record }),
            Payload::Record(Err(message)) => Err(schema_error("has invalid record: "@ + message@)),
        }
    }
}

/// A file that is being read, up to a line whose payload has to be decoded.
pub struct Loading {
    path: String,
    content: String,
    lines: Vec<String>,
    at: usize,
    pending: Pending,
    storage: JsonlSessionStorage,
}

/// The mathematical value of a [`Loading`].
pub struct LoadingView {
    pub path: Seq<char>,
    pub metadata: JsonlSessionMetadata,
    pub content: Seq<char>,
    pub at: int,
    pub pending: PendingView,
    pub state: SessionView,
}

/// What reading has come to: a payload that has to be decoded, or the end.
pub enum LoadProgress {
    Entry { loading: Loading, payload: Json },
    Record { loading: Loading, payload: Json },
    Finished { result: Result<(JsonlSessionStorage, Repair), SessionError> },
}

impl LoadProgress {
    /// Whether reading has come as far as it goes.
    pub open spec fn follows(
        self,
        path: Seq<char>,
        metadata: JsonlSessionMetadata,
        content: Seq<char>,
        step: LoadStep,
    ) -> bool {
        match step {
            LoadStep::Ask { state, at } => match said_lines(content)[at] {
                Ok(WireView::Entry { lane, payload: held }) => {
                    &&& self matches LoadProgress::Entry { loading, payload } && payload@ == held
                        && loading.wf() && loading@ == (LoadingView {
                        path,
                        metadata,
                        content,
                        at,
                        pending: PendingView::Entry { lane },
                        state,
                    })
                },
                Ok(WireView::Record { payload: held }) => {
                    &&& self matches LoadProgress::Record { loading, payload } && payload@ == held
                        && loading.wf() && loading@ == (LoadingView {
                        path,
                        metadata,
                        content,
                        at,
                        pending: PendingView::Record,
                        state,
                    })
                },
                _ => false,
            },
            LoadStep::Done { result: Ok((state, torn)) } => {
                &&& self matches LoadProgress::Finished { result: Ok((storage, repair)) }
                    && storage@ == state && storage@.wf() && storage.spec_metadata() == metadata
                    && repair@ == repair_of(content, torn)
            },
            LoadStep::Done { result: Err(refused) } => {
                &&& self matches LoadProgress::Finished { result: Err(e) } && e@ == refused
            },
        }
    }
}

fn refused_line(path: &str, i: usize, error: SessionError) -> (r: SessionError)
    requires
        i + 2 <= usize::MAX,
    ensures
        r@ == line_refusal(path@, i as int, error@),
{
    if error.code == SessionErrorCode::InvalidEntry {
        invalid_file(path, i + 2, &JsonlDecodeError::schema(error.message))
    } else {
        error
    }
}

fn finish(content: &str, lines: Vec<String>, storage: JsonlSessionStorage, torn: bool) -> (r:
    LoadProgress)
    requires
        texts(lines@) == file_lines(content@),
        torn ==> lines@.len() > 0,
    ensures
        r matches LoadProgress::Finished { result: Ok((done, repair)) } && done == storage
            && repair@ == repair_of(content@, torn),
{
    let mut lines: Vec<String> = lines;
    let ghost whole = lines@;
    let repair: Repair = if torn {
        lines.pop();
        proof {
            assert(texts(lines@) =~= texts(whole).drop_last());
        }
        let kept: String = join_texts(lines.as_slice(), "\n");
        Repair::Replace { content: concat2(kept.as_str(), "\n") }
    } else if has_suffix(content, "\n") {
        Repair::Nothing
    } else {
        Repair::EndLine
    };
    LoadProgress::Finished { result: Ok((storage, repair)) }
}

fn bare_mutation(wire: WireMutation) -> (r: Option<SessionMutation>)
    ensures
        match r {
            Some(m) => own_mutation(wire@) == Some(m@),
            None => own_mutation(wire@) is None,
        },
{
    match wire {
        WireMutation::Lane { seq, lane, leaf_id } => Some(
            SessionMutation::Lane { seq, lane, leaf_id },
        ),
        WireMutation::NameFact { seq, name } => Some(SessionMutation::NameFact { seq, name }),
        WireMutation::LabelFact { seq, target_id, label } => Some(
            SessionMutation::LabelFact { seq, target_id, label },
        ),
        _ => None,
    }
}

/// Reads from a line on.
fn advance(
    path: String,
    content: String,
    lines: Vec<String>,
    from: usize,
    start: JsonlSessionStorage,
) -> (r: LoadProgress)
    requires
        texts(lines@) == file_lines(content@),
        from == 0 || from < lines@.len(),
        start@.wf(),
    ensures
        r.follows(
            path@,
            start.spec_metadata(),
            content@,
            load_step(path@, start@, said_lines(content@), from as int),
        ),
{
    let ghost said = said_lines(content@);
    let ghost step = load_step(path@, start@, said, from as int);
    let mut storage: JsonlSessionStorage = start;
    let mut i: usize = from;
    proof {
        assert(texts(lines@).len() == lines@.len());
    }
    while i < lines.len() && i + 1 < lines.len()
        invariant
            texts(lines@) == file_lines(content@),
            texts(lines@).len() == lines@.len(),
            said == said_lines(content@),
            i <= said.len(),
            storage@.wf(),
            storage.spec_metadata() == start.spec_metadata(),
            step == load_step(path@, start@, said, from as int),
            step == load_step(path@, storage@, said, i as int),
        decreases lines@.len() - i,
    {
        proof {
            assert(texts(lines@)[i + 1] == lines@[i + 1]@);
            assert(said[i as int] == decoded_mutation(parsed_json(lines@[i + 1]@)));
        }
        match parse_mutation(lines[i + 1].as_str()) {
            Err(error) => {
                if i + 2 == lines.len() && error.kind == JsonlDecodeErrorKind::Syntax {
                    return finish(content.as_str(), lines, storage, true);
                }
                return LoadProgress::Finished {
                    result: Err(invalid_file(path.as_str(), i + 2, &error)),
                };
            },
            Ok(WireMutation::Entry { lane, payload }) => {
                let pending: Pending = Pending::Entry { lane };
                return LoadProgress::Entry {
                    loading: Loading { path, content, lines, at: i, pending, storage },
                    payload,
                };
            },
            Ok(WireMutation::Record { payload }) => {
                let pending: Pending = Pending::Record;
                return LoadProgress::Record {
                    loading: Loading { path, content, lines, at: i, pending, storage },
                    payload,
                };
            },
            Ok(wire) => {
                if let Some(mutation) = bare_mutation(wire) {
                    if let Err(error) = storage.commit(mutation) {
                        return LoadProgress::Finished {
                            result: Err(refused_line(path.as_str(), i, error)),
                        };
                    }
                }
            },
        }
        i = i + 1;
    }
    finish(content.as_str(), lines, storage, false)
}

impl Loading {
    /// What is being read, and how far.
    pub closed spec fn view(&self) -> LoadingView {
        LoadingView {
            path: self.path@,
            metadata: self.storage.spec_metadata(),
            content: self.content@,
            at: self.at as int,
            pending: self.pending@,
            state: self.storage@,
        }
    }

    /// Whether the file is being read at one of its lines.
    pub closed spec fn wf(self) -> bool {
        &&& texts(self.lines@) == file_lines(self.content@)
        &&& self.at + 1 < self.lines@.len()
        &&& self.storage@.wf()
    }

    /// Takes the payload that the line waits for, and reads on.
    pub fn next(self, payload: Payload) -> (r: LoadProgress)
        requires
            self.wf(),
            self@.pending.expects(payload),
        ensures
            r.follows(
                self@.path,
                self@.metadata,
                self@.content,
                step_with(
                    self@.path,
                    self@.state,
                    said_lines(self@.content),
                    self@.at,
                    self@.pending.filled(payload),
                ),
            ),
    {
        let Loading { path, content, lines, at, pending, storage } = self;
        let mut storage: JsonlSessionStorage = storage;
        proof {
            assert(texts(lines@).len() == lines@.len());
            assert(lines.len() <= usize::MAX);
        }
        let line: Result<SessionMutation, JsonlDecodeError> = match (pending, payload) {
            (Pending::Entry { lane }, Payload::Entry(entry)) => entry_mutation(lane, entry),
            (_, Payload::Entry(entry)) => entry_mutation(None, entry),
            (_, Payload::Record(record)) => record_mutation(record),
        };
        match line {
            Err(error) => LoadProgress::Finished {
                result: Err(invalid_file(path.as_str(), at + 2, &error)),
            },
            Ok(mutation) => match storage.commit(mutation) {
                Ok(()) => advance(path, content, lines, at + 1, storage),
                Err(error) => LoadProgress::Finished {
                    result: Err(refused_line(path.as_str(), at, error)),
                },
            },
        }
    }
}

impl JsonlSessionStorage {
    /// Reads what the lines after the header say, up to the first that is bad. A
    /// last line whose writing was cut off is dropped; what is to be done to the
    /// file is given.
    pub fn load(path: &str, metadata: JsonlSessionMetadata, content: &str) -> (r: LoadProgress)
        ensures
            r.follows(
                path@,
                metadata,
                content@,
                load_step(path@, fresh_session(), said_lines(content@), 0),
            ),
    {
        let lines: Vec<String> = session_lines(content);
        let storage: JsonlSessionStorage = JsonlSessionStorage::new(metadata);
        advance(path.to_string(), content.to_string(), lines, 0, storage)
    }
}

// ---------------------------------------------------------------------------
// Laws
// ---------------------------------------------------------------------------

/// Whether some results are what the lines say: they are the errors of the lines
/// that cannot be read, and the mutations of those that need no payload.
pub open spec fn results_of_lines(
    said: Seq<Result<WireView, DecodeErrorView>>,
    results: Seq<Result<MutationView, DecodeErrorView>>,
) -> bool {
    &&& results.len() == said.len()
    &&& forall|i: int|
        0 <= i < said.len() ==> match #[trigger] said[i] {
            Err(e) => results[i] == Err::<MutationView, DecodeErrorView>(e),
            Ok(wire) => own_mutation(wire) matches Some(m) ==> results[i] == Ok::<
                MutationView,
                DecodeErrorView,
            >(m),
        }
}

/// Whether reading step by step comes to what the results of the lines come to.
pub open spec fn comes_to(
    path: Seq<char>,
    step: LoadStep,
    results: Seq<Result<MutationView, DecodeErrorView>>,
    whole: Result<(SessionView, bool), SessionErrorView>,
) -> bool {
    match step {
        LoadStep::Done { result } => whole == result,
        LoadStep::Ask { state, at } => 0 <= at < results.len() && whole == loaded_from(
            path,
            state,
            results,
            at,
        ),
    }
}

/// Reading step by step, with the payloads that results hold, loads the session
/// of those results: each step keeps what the lines from there on come to.
pub proof fn law_steps_load_the_session(
    path: Seq<char>,
    state: SessionView,
    said: Seq<Result<WireView, DecodeErrorView>>,
    results: Seq<Result<MutationView, DecodeErrorView>>,
    i: int,
)
    requires
        results_of_lines(said, results),
        0 <= i <= said.len(),
    ensures
        comes_to(
            path,
            load_step(path, state, said, i),
            results,
            loaded_from(path, state, results, i),
        ),
        i < said.len() ==> comes_to(
            path,
            step_with(path, state, said, i, results[i]),
            results,
            loaded_from(path, state, results, i),
        ),
    decreases said.len() - i,
{
    if i < said.len() {
        assert(said[i] is Err || said[i] is Ok);
        if let Ok(m) = results[i] {
            law_steps_load_the_session(path, state.after(m), said, results, i + 1);
        }
    }
}

} // verus!

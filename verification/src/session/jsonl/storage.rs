//! The storage of a session in a file: how the file is read, what of it is
//! repaired, and what is appended to it.

use vstd::prelude::*;

use crate::harness_types::FileError;
use crate::session::jsonl::codec::{
    decoded_header, header_line, is_one_line, mutation_line, parse_header, reads_header_back,
    HeaderView, JsonlSessionMetadata, JsonlV4Header, WireView,
};
use crate::session::jsonl::errors::{
    bad_file, file_err, file_problem, invalid_file, schema_error, DecodeErrorView,
    JsonlDecodeError, JsonlDecodeErrorKind,
};
use crate::session::state::{
    fresh_session, refusal, replay, MutationView, SessionMutation, SessionState, SessionView,
};
use crate::session::types::{
    Entry, LaneRecord, SessionError, SessionErrorCode, SessionErrorView, SessionMetadata,
};
use crate::json::parsed_json;
use crate::text::{
    concat2, finishes_with, join, split, split_text, text_of_option, texts,
};
use crate::types::copy_text;

verus! {

// ---------------------------------------------------------------------------
// Lines
// ---------------------------------------------------------------------------

/// The lines of a file. What follows the last line end is a line if it holds
/// anything.
pub open spec fn file_lines(content: Seq<char>) -> Seq<Seq<char>> {
    let all = split(content, '\n');
    if all.last().len() == 0 {
        all.drop_last()
    } else {
        all
    }
}

/// The lines of a file.
pub fn session_lines(content: &str) -> (r: Vec<String>)
    ensures
        texts(r@) == file_lines(content@),
{
    let mut lines: Vec<String> = split_text(content, '\n');
    let n: usize = lines.len();
    let ghost all = lines@;
    proof {
        crate::text::lemma_split_nonempty(content@, '\n');
        assert(texts(all).last() == all.last()@);
    }
    if lines[n - 1].as_str().unicode_len() == 0 {
        lines.pop();
        proof {
            assert(texts(lines@) =~= texts(all).drop_last());
        }
    }
    lines
}

/// The error of a file without a header.
pub open spec fn missing_header(path: Seq<char>) -> SessionErrorView {
    bad_file(path, 1, schema_error("is missing a header"@))
}

/// The header of a file, or why it has none.
pub fn read_header(path: &str, lines: &Vec<String>) -> (r: Result<JsonlV4Header, SessionError>)
    ensures
        match r {
            Ok(header) => {
                &&& lines@.len() > 0 && lines@[0]@.len() > 0
                &&& decoded_header(parsed_json(lines@[0]@)) == Ok::<HeaderView, DecodeErrorView>(
                    header@,
                )
                &&& reads_header_back(lines@[0]@, Ok(header))
            },
            Err(e) => if lines@.len() == 0 || lines@[0]@.len() == 0 {
                e@ == missing_header(path@)
            } else {
                decoded_header(parsed_json(lines@[0]@)) matches Err(cause) && e@ == bad_file(
                    path@,
                    1,
                    cause,
                )
            },
        },
{
    if lines.len() == 0 || lines[0].as_str().unicode_len() == 0 {
        return Err(
            invalid_file(path, 1, &JsonlDecodeError::schema("is missing a header".to_string())),
        );
    }
    match parse_header(lines[0].as_str()) {
        Ok(header) => Ok(header),
        Err(error) => Err(invalid_file(path, 1, &error)),
    }
}

/// The mutation of an entry that was read, or what is wrong with it.
pub fn entry_mutation(lane: Option<String>, entry: Result<Entry, String>) -> (r: Result<
    SessionMutation,
    JsonlDecodeError,
>)
    ensures
        match entry {
            Ok(e) => r matches Ok(m) && m@ == (MutationView::Entry {
                lane: text_of_option(lane),
                entry: e,
            }),
            Err(message) => r matches Err(e) && e@ == schema_error(
                "has invalid entry: "@ + message@,
            ),
        },
{
    match entry {
        Ok(entry) => Ok(SessionMutation::Entry { lane, entry }),
        Err(message) => Err(
            JsonlDecodeError::schema(concat2("has invalid entry: ", message.as_str())),
        ),
    }
}

/// The mutation of a record that was read, or what is wrong with it.
pub fn record_mutation(record: Result<LaneRecord, String>) -> (r: Result<
    SessionMutation,
    JsonlDecodeError,
>)
    ensures
        match record {
            Ok(record) => r matches Ok(m) && m@ == (MutationView::Record { record }),
            Err(message) => r matches Err(e) && e@ == schema_error(
                "has invalid record: "@ + message@,
            ),
        },
{
    match record {
        Ok(record) => Ok(SessionMutation::Record { record }),
        Err(message) => Err(
            JsonlDecodeError::schema(concat2("has invalid record: ", message.as_str())),
        ),
    }
}

// ---------------------------------------------------------------------------
// Loading
// ---------------------------------------------------------------------------

/// Whether a line is one whose writing was cut off: the last, and no JSON.
pub open spec fn is_torn(
    mutations: Seq<Result<MutationView, DecodeErrorView>>,
    i: int,
) -> bool {
    i == mutations.len() - 1 && (mutations[i] matches Err(e) && e.kind
        == JsonlDecodeErrorKind::Syntax)
}

/// The error of a refused line.
pub open spec fn line_refusal(path: Seq<char>, i: int, error: SessionErrorView) -> SessionErrorView {
    if error.code == SessionErrorCode::InvalidEntry {
        bad_file(path, (i + 2) as nat, schema_error(error.message))
    } else {
        error
    }
}

/// The state after the lines from one on, and whether the last was cut off; or
/// the error of the first bad line.
pub open spec fn loaded_from(
    path: Seq<char>,
    state: SessionView,
    mutations: Seq<Result<MutationView, DecodeErrorView>>,
    i: int,
) -> Result<(SessionView, bool), SessionErrorView>
    decreases mutations.len() - i,
{
    if i < 0 || i >= mutations.len() {
        Ok((state, false))
    } else {
        match mutations[i] {
            Err(e) => if is_torn(mutations, i) {
                Ok((state, true))
            } else {
                Err(bad_file(path, (i + 2) as nat, e))
            },
            Ok(m) => match state.problem(m) {
                Some(e) => Err(line_refusal(path, i, e)),
                None => loaded_from(path, state.after(m), mutations, i + 1),
            },
        }
    }
}

/// What is done to a file that was read.
pub enum Repair {
    /// Nothing: the file is whole.
    Nothing,
    /// The file is replaced by what stood before the line that was cut off.
    Replace { content: String },
    /// A line end is appended.
    EndLine,
}

/// The mathematical value of a [`Repair`].
pub enum RepairView {
    Nothing,
    Replace { content: Seq<char> },
    EndLine,
}

impl View for Repair {
    type V = RepairView;

    open spec fn view(&self) -> RepairView {
        match *self {
            Repair::Nothing => RepairView::Nothing,
            Repair::Replace { content } => RepairView::Replace { content: content@ },
            Repair::EndLine => RepairView::EndLine,
        }
    }
}

/// What is done to a file that was read.
pub open spec fn repair_of(content: Seq<char>, torn: bool) -> RepairView {
    if torn {
        RepairView::Replace { content: join(file_lines(content).drop_last(), "\n"@) + "\n"@ }
    } else if finishes_with(content, "\n"@) {
        RepairView::Nothing
    } else {
        RepairView::EndLine
    }
}

/// The state of a session in a file.
pub struct JsonlSessionStorage {
    metadata: JsonlSessionMetadata,
    state: SessionState,
}

impl JsonlSessionStorage {
    /// The metadata of the session.
    pub closed spec fn spec_metadata(self) -> JsonlSessionMetadata {
        self.metadata
    }

    /// The state of the session.
    pub closed spec fn view(&self) -> SessionView {
        self.state@
    }

    /// The storage of a new session.
    pub fn new(metadata: JsonlSessionMetadata) -> (r: Self)
        ensures
            r@ == fresh_session(),
            r@.wf(),
            r.spec_metadata() == metadata,
    {
        JsonlSessionStorage { metadata, state: SessionState::new() }
    }

    /// The metadata of the session file.
    pub fn jsonl_metadata(&self) -> (r: &JsonlSessionMetadata)
        ensures
            *r == self.spec_metadata(),
    {
        &self.metadata
    }

    /// The metadata of the session.
    pub fn get_metadata(&self) -> (r: SessionMetadata)
        ensures
            r.id@ == self.spec_metadata().id@,
            r.created_at == self.spec_metadata().created_at,
            text_of_option(r.parent_session_id) == text_of_option(
                self.spec_metadata().parent_session_id,
            ),
    {
        SessionMetadata {
            id: self.metadata.id.clone(),
            created_at: self.metadata.created_at,
            parent_session_id: copy_text(&self.metadata.parent_session_id),
        }
    }

    /// The state of the session, to be asked and to plan with.
    pub fn state(&self) -> (r: &SessionState)
        ensures
            r@ == self@,
    {
        &self.state
    }

    /// Takes over a mutation whose line was appended to the file.
    pub fn commit(&mut self, mutation: SessionMutation) -> (r: Result<(), SessionError>)
        requires
            old(self)@.wf(),
        ensures
            refusal(r) == old(self)@.problem(mutation@),
            r is Ok ==> final(self)@ == old(self)@.after(mutation@),
            r is Err ==> final(self)@ == old(self)@,
            final(self)@.wf(),
            final(self).spec_metadata() == old(self).spec_metadata(),
    {
        self.state.apply_mutation(mutation)
    }
}

/// Where a file is written before it takes its place.
pub fn staging_path(destination: &str) -> (r: String)
    ensures
        r@ == destination@ + ".tmp"@,
{
    concat2(destination, ".tmp")
}

/// How far a file has come that is to take the place of another.
pub enum PublishStage {
    Populating,
    Renaming,
    Removing { error: SessionError },
    Done,
}

/// A file that is written next to another and then takes its place.
pub struct Publication {
    pub destination: String,
    pub stage: PublishStage,
}

/// What a publication asks for next.
pub enum PublishRequest {
    Populate { path: String },
    Rename { from: String, to: String },
    Remove { path: String },
    Finish { result: Result<(), SessionError> },
}

/// What a publication is told.
pub enum PublishReply {
    Populated(Result<(), SessionError>),
    Renamed(Result<(), FileError>),
    Removed,
}

impl Publication {
    /// Whether a reply is the one that the publication waits for.
    pub open spec fn expects(self, reply: PublishReply) -> bool {
        match self.stage {
            PublishStage::Populating => reply is Populated,
            PublishStage::Renaming => reply is Renamed,
            PublishStage::Removing { .. } => reply is Removed,
            PublishStage::Done => false,
        }
    }

    /// Whether a publication takes its staged file away for an error.
    pub open spec fn gives_up(
        self,
        next: Publication,
        request: PublishRequest,
        e: SessionErrorView,
    ) -> bool {
        &&& next.stage matches PublishStage::Removing { error } && error@ == e
        &&& request matches PublishRequest::Remove { path } && path@ == self.destination@ + ".tmp"@
    }

    /// What a reply leads to. The error that stopped a publication is the one that
    /// it reports, whatever became of the staged file.
    pub open spec fn leads_to(
        self,
        reply: PublishReply,
        next: Publication,
        request: PublishRequest,
    ) -> bool {
        &&& next.destination == self.destination
        &&& match (self.stage, reply) {
            (PublishStage::Populating, PublishReply::Populated(Ok(_))) => {
                &&& next.stage is Renaming
                &&& request matches PublishRequest::Rename { from, to } && from@
                    == self.destination@ + ".tmp"@ && to@ == self.destination@
            },
            (PublishStage::Populating, PublishReply::Populated(Err(error))) => self.gives_up(
                next,
                request,
                error@,
            ),
            (PublishStage::Renaming, PublishReply::Renamed(Ok(_))) => {
                &&& next.stage is Done
                &&& request matches PublishRequest::Finish { result: Ok(_) }
            },
            (PublishStage::Renaming, PublishReply::Renamed(Err(error))) => self.gives_up(
                next,
                request,
                file_problem(error, "Failed to publish staged file "@ + self.destination@),
            ),
            (PublishStage::Removing { error }, PublishReply::Removed) => {
                &&& next.stage is Done
                &&& request matches PublishRequest::Finish { result: Err(e) } && e@ == error@
            },
            _ => false,
        }
    }

    /// Starts a publication: the staged file is to be written.
    pub fn start(destination: String) -> (r: (Publication, PublishRequest))
        ensures
            r.0.destination == destination,
            r.0.stage is Populating,
            r.1 matches PublishRequest::Populate { path } && path@ == destination@ + ".tmp"@,
    {
        let path: String = staging_path(destination.as_str());
        (
            Publication { destination, stage: PublishStage::Populating },
            PublishRequest::Populate { path },
        )
    }

    /// Takes the reply that the publication waits for, and says what it asks for
    /// next.
    pub fn next(&mut self, reply: PublishReply) -> (r: PublishRequest)
        requires
            old(self).expects(reply),
        ensures
            old(self).leads_to(reply, *final(self), r),
    {
        let mut stage: PublishStage = PublishStage::Done;
        std::mem::swap(&mut stage, &mut self.stage);
        let staged: String = staging_path(self.destination.as_str());
        match (stage, reply) {
            (PublishStage::Populating, PublishReply::Populated(Ok(_))) => {
                self.stage = PublishStage::Renaming;
                PublishRequest::Rename { from: staged, to: self.destination.clone() }
            },
            (PublishStage::Populating, PublishReply::Populated(Err(error))) => {
                self.stage = PublishStage::Removing { error };
                PublishRequest::Remove { path: staged }
            },
            (PublishStage::Renaming, PublishReply::Renamed(Err(error))) => {
                let message: String = concat2(
                    "Failed to publish staged file ",
                    self.destination.as_str(),
                );
                self.stage = PublishStage::Removing { error: file_err(error, message.as_str()) };
                PublishRequest::Remove { path: staged }
            },
            (PublishStage::Removing { error }, _) => PublishRequest::Finish { result: Err(error) },
            _ => PublishRequest::Finish { result: Ok(()) },
        }
    }
}

// ---------------------------------------------------------------------------
// Laws
// ---------------------------------------------------------------------------

/// A line that was cut off is dropped: the session is that of the lines before
/// it.
pub proof fn law_torn_tails_are_dropped(
    path: Seq<char>,
    state: SessionView,
    mutations: Seq<Result<MutationView, DecodeErrorView>>,
    i: int,
    error: DecodeErrorView,
)
    requires
        0 <= i <= mutations.len(),
        error.kind == JsonlDecodeErrorKind::Syntax,
        forall|k: int| 0 <= k < mutations.len() ==> (#[trigger] mutations[k]) is Ok,
    ensures
        loaded_from(path, state, mutations.push(Err(error)), i) == (match loaded_from(
            path,
            state,
            mutations,
            i,
        ) {
            Ok((after, _)) => Ok((after, true)),
            Err(e) => Err(e),
        }),
    decreases mutations.len() - i,
{
    let more = mutations.push(Err(error));
    if i < mutations.len() {
        assert(more[i] == mutations[i]);
        assert(mutations[i] is Ok);
        if let Ok(m) = mutations[i] {
            if state.problem(m) is None {
                law_torn_tails_are_dropped(path, state.after(m), mutations, i + 1, error);
            }
        }
    } else {
        assert(is_torn(more, i));
    }
}

/// Mutations that were accepted, as lines that were read.
pub open spec fn accepted(mutations: Seq<MutationView>) -> Seq<
    Result<MutationView, DecodeErrorView>,
> {
    Seq::new(mutations.len(), |i: int| Ok::<MutationView, DecodeErrorView>(mutations[i]))
}

/// Reading the lines of mutations that were accepted one after the other gives
/// the session that they made.
pub proof fn law_loading_rebuilds_the_session(path: Seq<char>, mutations: Seq<MutationView>)
    requires
        replay(fresh_session(), mutations) is Ok,
    ensures
        loaded_from(path, fresh_session(), accepted(mutations), 0) == Ok::<
            (SessionView, bool),
            SessionErrorView,
        >((replay(fresh_session(), mutations)->Ok_0, false)),
{
    lemma_accepted(mutations, 0);
    lemma_loaded_suffix(path, mutations, 0);
    assert(mutations.take(0) =~= Seq::<MutationView>::empty());
}

proof fn lemma_accepted(mutations: Seq<MutationView>, n: int)
    requires
        0 <= n <= mutations.len(),
        replay(fresh_session(), mutations) is Ok,
    ensures
        replay(fresh_session(), mutations.take(n)) is Ok,
{
    if replay(fresh_session(), mutations.take(n)) is Err {
        crate::session::state::lemma_replay_prefix(fresh_session(), mutations, n);
    }
}

proof fn lemma_loaded_suffix(path: Seq<char>, mutations: Seq<MutationView>, n: int)
    requires
        0 <= n <= mutations.len(),
        replay(fresh_session(), mutations) is Ok,
        replay(fresh_session(), mutations.take(n)) is Ok,
    ensures
        loaded_from(
            path,
            replay(fresh_session(), mutations.take(n))->Ok_0,
            accepted(mutations),
            n,
        ) == Ok::<(SessionView, bool), SessionErrorView>(
            (replay(fresh_session(), mutations)->Ok_0, false),
        ),
    decreases mutations.len() - n,
{
    let state = replay(fresh_session(), mutations.take(n))->Ok_0;
    if n < mutations.len() {
        lemma_accepted(mutations, n + 1);
        assert(mutations.take(n + 1).drop_last() =~= mutations.take(n));
        assert(mutations.take(n + 1).last() == mutations[n]);
        assert(accepted(mutations)[n] == Ok::<MutationView, DecodeErrorView>(mutations[n]));
        lemma_loaded_suffix(path, mutations, n + 1);
    } else {
        assert(mutations.take(n) =~= mutations);
    }
}

/// What is written for a header and mutations.
pub open spec fn file_text(header: HeaderView, mutations: Seq<WireView>) -> Seq<char>
    decreases mutations.len(),
{
    if mutations.len() == 0 {
        header_line(header)
    } else {
        file_text(header, mutations.drop_last()) + mutation_line(mutations.last())
    }
}

/// The lines of a file are those that were written to it.
pub proof fn law_files_hold_the_lines_that_were_written(
    header: HeaderView,
    mutations: Seq<WireView>,
)
    requires
        is_one_line(header_line(header)),
        forall|i: int|
            0 <= i < mutations.len() ==> is_one_line(mutation_line(#[trigger] mutations[i])),
    ensures
        file_lines(file_text(header, mutations)) == seq![header_line(header).drop_last()]
            + Seq::new(mutations.len(), |i: int| mutation_line(mutations[i]).drop_last()),
        split(file_text(header, mutations), '\n').last().len() == 0,
    decreases mutations.len(),
{
    let all = Seq::new(mutations.len(), |i: int| mutation_line(mutations[i]).drop_last());
    if mutations.len() == 0 {
        lemma_split_line(Seq::empty(), header_line(header));
        assert(Seq::<char>::empty() + header_line(header) =~= header_line(header));
        assert(split(Seq::<char>::empty(), '\n') =~= seq![Seq::<char>::empty()]);
        assert(file_lines(header_line(header)) =~= seq![header_line(header).drop_last()] + all);
    } else {
        let front = mutations.drop_last();
        assert forall|i: int| 0 <= i < front.len() implies is_one_line(
            mutation_line(#[trigger] front[i]),
        ) by {
            assert(front[i] == mutations[i]);
        }
        law_files_hold_the_lines_that_were_written(header, front);
        let before = file_text(header, front);
        let line = mutation_line(mutations.last());
        assert(is_one_line(mutation_line(mutations[mutations.len() - 1])));
        lemma_split_line(before, line);
        let earlier = Seq::new(front.len(), |i: int| mutation_line(front[i]).drop_last());
        assert(all =~= earlier.push(line.drop_last()));
        assert(file_lines(before + line) =~= file_lines(before).push(line.drop_last()));
    }
}

/// A line behind whole lines is split off as it is.
proof fn lemma_split_line(before: Seq<char>, line: Seq<char>)
    requires
        is_one_line(line),
        split(before, '\n').last().len() == 0,
    ensures
        split(before + line, '\n') == split(before, '\n').drop_last().push(line.drop_last()).push(
            Seq::empty(),
        ),
{
    let text = line.drop_last();
    lemma_split_extended(before, text);
    assert((before + line).drop_last() =~= before + text);
    assert((before + line).last() == '\n');
    crate::text::lemma_split_nonempty(before + text, '\n');
}

/// A text without line ends behind whole lines is their last part.
proof fn lemma_split_extended(before: Seq<char>, text: Seq<char>)
    requires
        !text.contains('\n'),
        split(before, '\n').last().len() == 0,
    ensures
        split(before + text, '\n') == split(before, '\n').drop_last().push(text),
    decreases text.len(),
{
    crate::text::lemma_split_nonempty(before, '\n');
    if text.len() == 0 {
        assert(before + text =~= before);
        let all = split(before, '\n');
        assert(all.last() =~= text);
        assert(all.drop_last().push(text) =~= all);
    } else {
        let front = text.drop_last();
        assert(!front.contains('\n')) by {
            if front.contains('\n') {
                let k = choose|k: int| 0 <= k < front.len() && front[k] == '\n';
                assert(text[k] == '\n');
            }
        }
        assert(text.contains(text[text.len() - 1]));
        lemma_split_extended(before, front);
        assert((before + text).drop_last() =~= before + front);
        assert((before + text).last() == text.last());
        assert(front.push(text.last()) =~= text);
        let parts = split(before + front, '\n');
        assert(split(before + text, '\n') =~= split(before, '\n').drop_last().push(text));
    }
}

/// Joining lines and splitting the result gives the lines.
proof fn lemma_split_joined(lines: Seq<Seq<char>>)
    requires
        lines.len() > 0,
        forall|i: int| 0 <= i < lines.len() ==> !(#[trigger] lines[i]).contains('\n'),
    ensures
        split(join(lines, "\n"@), '\n') == lines,
    decreases lines.len(),
{
    reveal_strlit("\n");
    let end = "\n"@;
    assert(end =~= seq!['\n']);
    if lines.len() == 1 {
        assert(split(Seq::<char>::empty(), '\n') =~= seq![Seq::<char>::empty()]);
        lemma_split_extended(Seq::empty(), lines[0]);
        assert(Seq::<char>::empty() + lines[0] =~= lines[0]);
        assert(lines =~= seq![lines[0]]);
    } else {
        let front = lines.drop_last();
        assert forall|i: int| 0 <= i < front.len() implies !(#[trigger] front[i]).contains(
            '\n',
        ) by {
            assert(front[i] == lines[i]);
        }
        lemma_split_joined(front);
        let before = join(front, end) + end;
        assert(before.drop_last() =~= join(front, end));
        assert(split(before, '\n') =~= front.push(Seq::empty()));
        assert(!lines[lines.len() - 1].contains('\n'));
        lemma_split_extended(before, lines.last());
        assert(front.push(Seq::empty()).drop_last() =~= front);
        assert(front.push(lines.last()) =~= lines);
    }
}

/// A file that was replaced holds the lines before the one that was cut off,
/// and is whole.
pub proof fn law_repaired_files_are_whole(content: Seq<char>)
    requires
        file_lines(content).len() > 1,
    ensures
        ({
            let repaired = repair_of(content, true)->content;
            &&& file_lines(repaired) == file_lines(content).drop_last()
            &&& repair_of(repaired, false) == RepairView::Nothing
        }),
{
    reveal_strlit("\n");
    let end = "\n"@;
    let kept = file_lines(content).drop_last();
    crate::text::lemma_split_pieces(content, '\n');
    assert forall|i: int| 0 <= i < kept.len() implies !(#[trigger] kept[i]).contains('\n') by {
        assert(kept[i] == split(content, '\n')[i]);
    }
    lemma_split_joined(kept);
    let repaired = join(kept, end) + end;
    assert(repaired.drop_last() =~= join(kept, end));
    assert(split(repaired, '\n') =~= kept.push(Seq::empty()));
    assert(kept.push(Seq::empty()).drop_last() =~= kept);
    assert(repaired.skip(repaired.len() - end.len()) =~= end);
}

} // verus!

//! Secret-safe, local-only Adapt conversation snapshots.
//!
//! This module decides what is written to and read from the local history, and accepts only
//! redacted transcript data. Each operation that persists a session is a pair: one function gives
//! the snapshot to write, the other takes the outcome of the write and changes the session only if
//! it succeeded.

use vstd::prelude::*;
use vstd::string::*;

use crate::path::{
    join, joined, parent, parent_of, paths_are_joined_by_one_slash,
    single_names_stand_where_their_path_begins, the_parent_of_a_file_is_its_directory,
};
use crate::text::{
    all_digits, decimal, decimal_text, digits_stand_for_their_number, digits_value, ends_with,
    has_suffix, interleaved, is_digit, is_number, lemma_decimal_is_number, lemma_split_covers,
    lemma_split_first, lemma_split_whole, option_view, same_text, split, split_text,
    splitting_is_exact, starts_with, views,
};
use crate::transcript::{copy_option, TranscriptResponse, TranscriptResponseView};

pub mod stored;

use crate::session_history::stored::{readable, StoredSession};

verus! {

/// The text is a session ID: three numbers, joined by hyphens.
pub open spec fn is_session_id(text: Seq<char>) -> bool {
    let parts = split(text, '-');
    parts.len() == 3 && forall|i: int| 0 <= i < parts.len() ==> is_number(#[trigger] parts[i])
}

/// The name of a local session.
#[derive(Debug, PartialEq, Eq, Hash)]
pub struct SessionId(String);

impl View for SessionId {
    type V = Seq<char>;

    closed spec fn view(&self) -> Seq<char> {
        self.0@
    }
}

impl Clone for SessionId {
    fn clone(&self) -> (copy: Self)
        ensures
            copy@ == self@,
    {
        proof {
            use_type_invariant(self);
        }
        SessionId(self.0.clone())
    }
}

/// The ID made of a time, a process ID and a sequence number.
pub open spec fn generated_id(timestamp_ms: u128, process_id: u32, sequence: u64) -> Seq<char> {
    decimal(timestamp_ms as nat).push('-') + (decimal(process_id as nat).push('-') + decimal(
        sequence as nat,
    ))
}

proof fn lemma_generated_id(timestamp_ms: u128, process_id: u32, sequence: u64)
    ensures
        is_session_id(generated_id(timestamp_ms, process_id, sequence)),
{
    let a = decimal(timestamp_ms as nat);
    let b = decimal(process_id as nat);
    let c = decimal(sequence as nat);
    lemma_decimal_is_number(timestamp_ms as nat);
    lemma_decimal_is_number(process_id as nat);
    lemma_decimal_is_number(sequence as nat);
    assert(!a.contains('-') && !b.contains('-') && !c.contains('-')) by {
        assert(!is_digit('-'));
    }
    lemma_split_first(a, b.push('-') + c, '-');
    lemma_split_first(b, c, '-');
    lemma_split_whole(c, '-');
    assert(split(generated_id(timestamp_ms, process_id, sequence), '-') =~= seq![a, b, c]);
}

impl SessionId {
    #[verifier::type_invariant]
    spec fn well_formed(&self) -> bool {
        is_session_id(self.0@)
    }

    /// The ID for a session created at the given time by the given process, as its session with
    /// the given sequence number.
    pub fn generate(timestamp_ms: u128, process_id: u32, sequence: u64) -> (id: Self)
        ensures
            id@ == generated_id(timestamp_ms, process_id, sequence),
    {
        let mut text = decimal_text(timestamp_ms);
        text.push('-');
        text.append(decimal_text(process_id as u128).as_str());
        text.push('-');
        text.append(decimal_text(sequence as u128).as_str());
        proof {
            lemma_generated_id(timestamp_ms, process_id, sequence);
        }
        assert(text@ =~= generated_id(timestamp_ms, process_id, sequence));
        SessionId(text)
    }

    /// The ID with the given text, if it is one.
    pub fn parse(value: &str) -> (id: Result<Self, HistoryError>)
        ensures
            match id {
                Ok(id) => is_session_id(value@) && id@ == value@,
                Err(error) => !is_session_id(value@) && error@ == (HistoryErrorView::InvalidId {
                    id: value@,
                }),
            },
    {
        let parts = split_text(value, '-');
        let mut valid = parts.len() == 3;
        let mut i: usize = 0;
        while i < parts.len()
            invariant
                i <= parts@.len(),
                views(parts@) == split(value@, '-'),
                valid == (parts@.len() == 3 && forall|j: int|
                    0 <= j < i ==> is_number(#[trigger] views(parts@)[j])),
            decreases parts@.len() - i,
        {
            let numeric = all_digits(parts[i].as_str());
            assert(views(parts@)[i as int] == parts@[i as int]@);
            valid = valid && numeric;
            i += 1;
        }
        if valid {
            Ok(SessionId(value.to_owned()))
        } else {
            Err(HistoryError::InvalidId { id: value.to_owned() })
        }
    }

    /// The ID as text.
    pub fn text(&self) -> (text: String)
        ensures
            text@ == self@,
            is_session_id(text@),
    {
        proof {
            use_type_invariant(self);
        }
        self.0.clone()
    }

    /// Whether both are the same ID.
    pub fn same(&self, other: &SessionId) -> (result: bool)
        ensures
            result == (self@ == other@),
    {
        same_text(self.0.as_str(), other.0.as_str())
    }
}

pub open spec fn option_id_view(id: Option<SessionId>) -> Option<Seq<char>> {
    match id {
        Some(id) => Some(id@),
        None => None,
    }
}

/// Whether a session was brought to its end.
#[derive(Debug, Clone, Copy, PartialEq, Eq, Structural)]
pub enum SessionStatus {
    Active,
    Completed,
}

impl SessionStatus {
    /// How the status is shown: a session that is still active was interrupted.
    pub fn display_name(&self) -> (name: &'static str)
        ensures
            name@ == (match self {
                SessionStatus::Active => "interrupted"@,
                SessionStatus::Completed => "completed"@,
            }),
    {
        match self {
            SessionStatus::Active => "interrupted",
            SessionStatus::Completed => "completed",
        }
    }
}

/// Data that has passed through the application redaction boundary.
#[derive(Debug, PartialEq, Eq)]
pub struct RedactedText(String);

impl View for RedactedText {
    type V = Seq<char>;

    closed spec fn view(&self) -> Seq<char> {
        self.0@
    }
}

impl RedactedText {
    pub(crate) fn new(value: String) -> (redacted: Self)
        ensures
            redacted@ == value@,
    {
        RedactedText(value)
    }
}

impl Clone for RedactedText {
    fn clone(&self) -> (copy: Self)
        ensures
            copy@ == self@,
    {
        RedactedText(self.0.clone())
    }
}

/// A display response that has passed through the application redaction boundary.
#[derive(Debug, PartialEq, Eq)]
pub struct RedactedTranscriptResponse(TranscriptResponse);

impl View for RedactedTranscriptResponse {
    type V = TranscriptResponseView;

    closed spec fn view(&self) -> TranscriptResponseView {
        self.0@
    }
}

impl RedactedTranscriptResponse {
    pub(crate) fn new(value: TranscriptResponse) -> (redacted: Self)
        ensures
            redacted@ == value@,
    {
        RedactedTranscriptResponse(value)
    }

    pub fn as_inner(&self) -> (inner: &TranscriptResponse)
        ensures
            inner@ == self@,
    {
        &self.0
    }

    pub fn into_inner(self) -> (inner: TranscriptResponse)
        ensures
            inner@ == self@,
    {
        self.0
    }
}

impl Clone for RedactedTranscriptResponse {
    fn clone(&self) -> (copy: Self)
        ensures
            copy@ == self@,
    {
        RedactedTranscriptResponse(self.0.clone())
    }
}

/// What an entry of a session records.
#[derive(Debug, PartialEq, Eq)]
pub enum SessionEntryKind {
    Prompt { text: String },
    Response(TranscriptResponse),
    Error { message: String },
}

/// The mathematical counterpart of `SessionEntryKind`.
pub enum EntryKindView {
    Prompt { text: Seq<char> },
    Response(TranscriptResponseView),
    Error { message: Seq<char> },
}

impl View for SessionEntryKind {
    type V = EntryKindView;

    open spec fn view(&self) -> EntryKindView {
        match self {
            SessionEntryKind::Prompt { text } => EntryKindView::Prompt { text: text@ },
            SessionEntryKind::Response(response) => EntryKindView::Response(response@),
            SessionEntryKind::Error { message } => EntryKindView::Error { message: message@ },
        }
    }
}

impl Clone for SessionEntryKind {
    fn clone(&self) -> (copy: Self)
        ensures
            copy@ == self@,
    {
        match self {
            SessionEntryKind::Prompt { text } => SessionEntryKind::Prompt { text: text.clone() },
            SessionEntryKind::Response(response) => SessionEntryKind::Response(response.clone()),
            SessionEntryKind::Error { message } => SessionEntryKind::Error {
                message: message.clone(),
            },
        }
    }
}

/// One prompt, response or error of a session.
#[derive(Debug, PartialEq, Eq)]
pub struct SessionEntry {
    timestamp_ms: u128,
    kind: SessionEntryKind,
}

/// The mathematical counterpart of `SessionEntry`.
pub struct EntryView {
    pub timestamp_ms: u128,
    pub kind: EntryKindView,
}

impl View for SessionEntry {
    type V = EntryView;

    closed spec fn view(&self) -> EntryView {
        EntryView { timestamp_ms: self.timestamp_ms, kind: self.kind@ }
    }
}

impl Clone for SessionEntry {
    fn clone(&self) -> (copy: Self)
        ensures
            copy@ == self@,
    {
        SessionEntry { timestamp_ms: self.timestamp_ms, kind: self.kind.clone() }
    }
}

impl SessionEntry {
    pub(crate) fn new(timestamp_ms: u128, kind: SessionEntryKind) -> (entry: Self)
        ensures
            entry@ == (EntryView { timestamp_ms, kind: kind@ }),
    {
        SessionEntry { timestamp_ms, kind }
    }

    pub fn kind(&self) -> (kind: &SessionEntryKind)
        ensures
            kind@ == self@.kind,
    {
        &self.kind
    }

    pub fn timestamp_ms(&self) -> (timestamp: u128)
        ensures
            timestamp == self@.timestamp_ms,
    {
        self.timestamp_ms
    }
}

pub open spec fn entry_views(entries: Seq<SessionEntry>) -> Seq<EntryView> {
    Seq::new(entries.len(), |i: int| entries[i]@)
}

fn copy_entries(entries: &Vec<SessionEntry>) -> (copies: Vec<SessionEntry>)
    ensures
        entry_views(copies@) == entry_views(entries@),
{
    let mut copies: Vec<SessionEntry> = Vec::new();
    let mut i: usize = 0;
    while i < entries.len()
        invariant
            i <= entries@.len(),
            copies@.len() == i,
            forall|j: int| 0 <= j < i ==> (#[trigger] copies@[j])@ == entries@[j]@,
        decreases entries@.len() - i,
    {
        copies.push(entries[i].clone());
        i += 1;
    }
    assert(entry_views(copies@) =~= entry_views(entries@));
    copies
}

/// One local conversation.
#[derive(Debug, PartialEq, Eq)]
pub struct Session {
    id: SessionId,
    started_at_ms: u128,
    updated_at_ms: u128,
    status: SessionStatus,
    resumed_from_session_id: Option<SessionId>,
    entries: Vec<SessionEntry>,
}

/// The mathematical counterpart of `Session`.
#[verifier::ext_equal]
pub struct SessionView {
    pub id: Seq<char>,
    pub started_at_ms: u128,
    pub updated_at_ms: u128,
    pub status: SessionStatus,
    pub resumed_from_session_id: Option<Seq<char>>,
    pub entries: Seq<EntryView>,
}

impl View for Session {
    type V = SessionView;

    closed spec fn view(&self) -> SessionView {
        SessionView {
            id: self.id@,
            started_at_ms: self.started_at_ms,
            updated_at_ms: self.updated_at_ms,
            status: self.status,
            resumed_from_session_id: option_id_view(self.resumed_from_session_id),
            entries: entry_views(self.entries@),
        }
    }
}

impl Clone for Session {
    fn clone(&self) -> (copy: Self)
        ensures
            copy@ == self@,
    {
        Session {
            id: self.id.clone(),
            started_at_ms: self.started_at_ms,
            updated_at_ms: self.updated_at_ms,
            status: self.status,
            resumed_from_session_id: match &self.resumed_from_session_id {
                Some(id) => Some(id.clone()),
                None => None,
            },
            entries: copy_entries(&self.entries),
        }
    }
}

/// What the latest response says of the remote conversation. `Some(None)` means that there is a
/// response, but that it did not provide a chat ID.
pub open spec fn latest_response(entries: Seq<EntryView>) -> Option<Option<Seq<char>>>
    decreases entries.len(),
{
    if entries.len() == 0 {
        None
    } else {
        match entries.last().kind {
            EntryKindView::Response(response) => Some(response.remote_chat_id),
            _ => latest_response(entries.drop_last()),
        }
    }
}

impl Session {
    pub(crate) fn from_parts(
        id: SessionId,
        started_at_ms: u128,
        updated_at_ms: u128,
        status: SessionStatus,
        resumed_from_session_id: Option<SessionId>,
        entries: Vec<SessionEntry>,
    ) -> (session: Self)
        ensures
            session@ == (SessionView {
                id: id@,
                started_at_ms,
                updated_at_ms,
                status,
                resumed_from_session_id: option_id_view(resumed_from_session_id),
                entries: entry_views(entries@),
            }),
    {
        Session { id, started_at_ms, updated_at_ms, status, resumed_from_session_id, entries }
    }

    pub fn id(&self) -> (id: &SessionId)
        ensures
            id@ == self@.id,
    {
        &self.id
    }

    pub fn status(&self) -> (status: &SessionStatus)
        ensures
            *status == self@.status,
    {
        &self.status
    }

    pub fn started_at_ms(&self) -> (timestamp: u128)
        ensures
            timestamp == self@.started_at_ms,
    {
        self.started_at_ms
    }

    pub fn updated_at_ms(&self) -> (timestamp: u128)
        ensures
            timestamp == self@.updated_at_ms,
    {
        self.updated_at_ms
    }

    pub fn resumed_from_session_id(&self) -> (id: Option<&SessionId>)
        ensures
            self@.resumed_from_session_id == (match id {
                Some(id) => Some(id@),
                None => None,
            }),
    {
        match &self.resumed_from_session_id {
            Some(id) => Some(id),
            None => None,
        }
    }

    pub fn entries(&self) -> (entries: &Vec<SessionEntry>)
        ensures
            entry_views(entries@) == self@.entries,
    {
        &self.entries
    }

    fn latest_response_remote_chat_id(&self) -> (found: Option<Option<String>>)
        ensures
            latest_response(self@.entries) == (match found {
                Some(id) => Some(option_view(id)),
                None => None,
            }),
    {
        let mut n: usize = self.entries.len();
        assert(self@.entries.take(n as int) =~= self@.entries);
        while n > 0
            invariant
                n <= self.entries@.len(),
                self@.entries == entry_views(self.entries@),
                latest_response(self@.entries.take(n as int)) == latest_response(self@.entries),
            decreases n,
        {
            let entry = &self.entries[n - 1];
            assert(self@.entries.take(n as int).last() == entry@);
            assert(self@.entries.take(n as int).drop_last() =~= self@.entries.take(n - 1));
            if let SessionEntryKind::Response(response) = &entry.kind {
                return Some(copy_option(&response.remote_chat_id));
            }
            n -= 1;
        }
        None
    }
}

/// Why the local history could not be used.
#[derive(Debug, PartialEq, Eq)]
pub enum HistoryError {
    CreateDirectory { path: String },
    Write { path: String },
    Read { path: String },
    NotFound { id: String },
    InvalidId { id: String },
    Malformed { path: String },
    CyclicLineage { id: String },
}

/// The mathematical counterpart of `HistoryError`.
pub enum HistoryErrorView {
    CreateDirectory { path: Seq<char> },
    Write { path: Seq<char> },
    Read { path: Seq<char> },
    NotFound { id: Seq<char> },
    InvalidId { id: Seq<char> },
    Malformed { path: Seq<char> },
    CyclicLineage { id: Seq<char> },
}

impl View for HistoryError {
    type V = HistoryErrorView;

    open spec fn view(&self) -> HistoryErrorView {
        match self {
            HistoryError::CreateDirectory { path } => HistoryErrorView::CreateDirectory {
                path: path@,
            },
            HistoryError::Write { path } => HistoryErrorView::Write { path: path@ },
            HistoryError::Read { path } => HistoryErrorView::Read { path: path@ },
            HistoryError::NotFound { id } => HistoryErrorView::NotFound { id: id@ },
            HistoryError::InvalidId { id } => HistoryErrorView::InvalidId { id: id@ },
            HistoryError::Malformed { path } => HistoryErrorView::Malformed { path: path@ },
            HistoryError::CyclicLineage { id } => HistoryErrorView::CyclicLineage { id: id@ },
        }
    }
}

/// The message that an error shows.
pub open spec fn history_error_message(error: HistoryErrorView) -> Seq<char> {
    match error {
        HistoryErrorView::CreateDirectory { path } => "could not create local session history at "@
            + path,
        HistoryErrorView::Write { path } => "could not write local session history at "@ + path,
        HistoryErrorView::Read { path } => "could not read local session history at "@ + path,
        HistoryErrorView::NotFound { id } => "local session `"@ + id + "` was not found"@,
        HistoryErrorView::InvalidId { id } => "local session ID `"@ + id + "` is invalid"@,
        HistoryErrorView::Malformed { path } => "local session history at "@ + path
            + " is malformed"@,
        HistoryErrorView::CyclicLineage { id } =>
            "local session history contains a cyclic lineage at session `"@ + id + "`"@,
    }
}

impl HistoryError {
    /// The message shown to the user.
    pub fn message(&self) -> (text: String)
        ensures
            text@ == history_error_message(self@),
    {
        match self {
            HistoryError::CreateDirectory { path } => {
                let mut text = "could not create local session history at ".to_owned();
                text.append(path.as_str());
                text
            },
            HistoryError::Write { path } => {
                let mut text = "could not write local session history at ".to_owned();
                text.append(path.as_str());
                text
            },
            HistoryError::Read { path } => {
                let mut text = "could not read local session history at ".to_owned();
                text.append(path.as_str());
                text
            },
            HistoryError::NotFound { id } => {
                let mut text = "local session `".to_owned();
                text.append(id.as_str());
                text.append("` was not found");
                text
            },
            HistoryError::InvalidId { id } => {
                let mut text = "local session ID `".to_owned();
                text.append(id.as_str());
                text.append("` is invalid");
                text
            },
            HistoryError::Malformed { path } => {
                let mut text = "local session history at ".to_owned();
                text.append(path.as_str());
                text.append(" is malformed");
                text
            },
            HistoryError::CyclicLineage { id } => {
                let mut text =
                    "local session history contains a cyclic lineage at session `".to_owned();
                text.append(id.as_str());
                text.append("`");
                text
            },
        }
    }
}

/// Which step of writing a snapshot failed.
#[derive(Debug, Clone, Copy, PartialEq, Eq, Structural)]
pub enum WriteFailure {
    /// The sessions directory could not be created.
    Directory,
    /// The snapshot could not be written in its place.
    Snapshot,
}

/// What reading a snapshot gave.
#[derive(Debug, PartialEq, Eq)]
pub enum SnapshotRead {
    Missing,
    Unreadable,
    /// The file does not hold a snapshot in the stored form.
    Malformed,
    Stored(StoredSession),
}

/// The mathematical counterpart of `SnapshotRead`.
pub enum SnapshotReadView {
    Missing,
    Unreadable,
    Malformed,
    Stored(SessionView),
}

impl View for SnapshotRead {
    type V = SnapshotReadView;

    open spec fn view(&self) -> SnapshotReadView {
        match self {
            SnapshotRead::Missing => SnapshotReadView::Missing,
            SnapshotRead::Unreadable => SnapshotReadView::Unreadable,
            SnapshotRead::Malformed => SnapshotReadView::Malformed,
            SnapshotRead::Stored(session) => SnapshotReadView::Stored(session@),
        }
    }
}

/// The session with one more entry, saved at the given time.
pub open spec fn with_entry(session: SessionView, kind: EntryKindView, now: u128) -> SessionView {
    SessionView {
        entries: session.entries.push(EntryView { timestamp_ms: now, kind }),
        updated_at_ms: now,
        ..session
    }
}

/// The session as completed, saved at the given time.
pub open spec fn completed(session: SessionView, now: u128) -> SessionView {
    SessionView { status: SessionStatus::Completed, updated_at_ms: now, ..session }
}

/// The session with the time that it was saved at.
pub open spec fn saved_at(session: SessionView, now: u128) -> SessionView {
    SessionView { updated_at_ms: now, ..session }
}

/// The session after a change to it was written, or could not be: what the caller holds, and what
/// its file holds.
pub open spec fn kept(
    session: SessionView,
    candidate: SessionView,
    written: Result<(), WriteFailure>,
) -> SessionView {
    match written {
        Ok(_) => candidate,
        Err(_) => session,
    }
}

/// A new session without entries.
pub open spec fn new_session(
    id: Seq<char>,
    resumed_from_session_id: Option<Seq<char>>,
    now: u128,
) -> SessionView {
    SessionView {
        id,
        started_at_ms: now,
        updated_at_ms: now,
        status: SessionStatus::Active,
        resumed_from_session_id,
        entries: Seq::empty(),
    }
}

/// The file of the session with the given ID.
pub open spec fn session_path(directory: Seq<char>, id: Seq<char>) -> Seq<char> {
    joined(directory, id + ".json"@)
}

/// The name of the file in which a process prepares the snapshot of a session.
pub open spec fn temporary_name(id: Seq<char>, process_id: u32) -> Seq<char> {
    id + "."@ + decimal(process_id as nat) + ".tmp"@
}

/// The error for a snapshot that could not be written.
pub open spec fn write_error(directory: Seq<char>, id: Seq<char>, failure: WriteFailure) ->
    HistoryErrorView {
    match failure {
        WriteFailure::Directory => HistoryErrorView::CreateDirectory { path: directory },
        WriteFailure::Snapshot => HistoryErrorView::Write { path: session_path(directory, id) },
    }
}

/// The session in the file at `path`, given what reading it gave.
pub open spec fn loaded_file(path: Seq<char>, read: SnapshotReadView) -> Result<
    SessionView,
    HistoryErrorView,
> {
    match read {
        SnapshotReadView::Missing | SnapshotReadView::Unreadable => Err(
            HistoryErrorView::Read { path },
        ),
        SnapshotReadView::Malformed => Err(HistoryErrorView::Malformed { path }),
        SnapshotReadView::Stored(session) => if readable(session) {
            Ok(session)
        } else {
            Err(HistoryErrorView::Malformed { path })
        },
    }
}

/// The view of a loaded session.
pub open spec fn session_view(session: Result<Session, HistoryError>) -> Result<
    SessionView,
    HistoryErrorView,
> {
    match session {
        Ok(session) => Ok(session@),
        Err(error) => Err(error@),
    }
}

fn load_file(path: &str, read: SnapshotRead) -> (session: Result<Session, HistoryError>)
    ensures
        session_view(session) == loaded_file(path@, read@),
{
    match read {
        SnapshotRead::Missing => Err(HistoryError::Read { path: path.to_owned() }),
        SnapshotRead::Unreadable => Err(HistoryError::Read { path: path.to_owned() }),
        SnapshotRead::Malformed => Err(HistoryError::Malformed { path: path.to_owned() }),
        SnapshotRead::Stored(stored) => match stored.into_session() {
            Some(session) => Ok(session),
            None => Err(HistoryError::Malformed { path: path.to_owned() }),
        },
    }
}

/// What listing the sessions directory gave.
#[derive(Debug, PartialEq, Eq)]
pub enum DirectoryListing {
    Absent,
    Unreadable,
    /// The names of the directory's entries.
    Names(Vec<String>),
}

/// The name is that of a snapshot: something with the extension `json`.
pub open spec fn is_snapshot_name(name: Seq<char>) -> bool {
    ends_with(name, ".json"@) && name.len() > ".json"@.len()
}

/// The files of the snapshots among the named entries of the directory, in the same order.
pub open spec fn snapshot_files(directory: Seq<char>, names: Seq<Seq<char>>) -> Seq<Seq<char>>
    decreases names.len(),
{
    if names.len() == 0 {
        Seq::empty()
    } else {
        let before = snapshot_files(directory, names.drop_last());
        if is_snapshot_name(names.last()) {
            before.push(joined(directory, names.last()))
        } else {
            before
        }
    }
}

/// The list with one more session, placed behind those that were updated at the same time or
/// later.
pub open spec fn placed(sessions: Seq<SessionView>, session: SessionView) -> Seq<SessionView>
    decreases sessions.len(),
{
    if sessions.len() == 0 || sessions.last().updated_at_ms >= session.updated_at_ms {
        sessions.push(session)
    } else {
        placed(sessions.drop_last(), session).push(sessions.last())
    }
}

/// The sessions with the most recently updated one first; those updated at the same time keep
/// their order.
pub open spec fn newest_first(sessions: Seq<SessionView>) -> Seq<SessionView>
    decreases sessions.len(),
{
    if sessions.len() == 0 {
        Seq::empty()
    } else {
        placed(newest_first(sessions.drop_last()), sessions.last())
    }
}

pub open spec fn file_views(files: Seq<(String, SnapshotRead)>) -> Seq<
    (Seq<char>, SnapshotReadView),
> {
    Seq::new(files.len(), |i: int| (files[i].0@, files[i].1@))
}

pub open spec fn session_views(sessions: Seq<Session>) -> Seq<SessionView> {
    Seq::new(sessions.len(), |i: int| sessions[i]@)
}

/// The sessions in the files, in the same order, or the error of the first file that cannot be
/// loaded.
pub open spec fn loaded_files(files: Seq<(Seq<char>, SnapshotReadView)>) -> Result<
    Seq<SessionView>,
    HistoryErrorView,
>
    decreases files.len(),
{
    if files.len() == 0 {
        Ok(Seq::empty())
    } else {
        match loaded_files(files.drop_last()) {
            Ok(sessions) => match loaded_file(files.last().0, files.last().1) {
                Ok(session) => Ok(sessions.push(session)),
                Err(error) => Err(error),
            },
            Err(error) => Err(error),
        }
    }
}

/// The files after the first one that cannot be loaded change nothing.
proof fn lemma_first_error_stays(files: Seq<(Seq<char>, SnapshotReadView)>, n: int)
    requires
        0 <= n <= files.len(),
        loaded_files(files.take(n)) is Err,
    ensures
        loaded_files(files) == loaded_files(files.take(n)),
    decreases files.len(),
{
    if n == files.len() {
        assert(files.take(n) =~= files);
    } else {
        assert(files.drop_last().take(n) =~= files.take(n));
        lemma_first_error_stays(files.drop_last(), n);
    }
}

/// Place a session in the list, behind those that were updated at the same time or later.
fn place(sessions: &mut Vec<Session>, session: Session)
    ensures
        session_views(final(sessions)@) == placed(session_views(old(sessions)@), session@),
{
    let ghost all = session_views(sessions@);
    let mut at: usize = sessions.len();
    assert(all.take(at as int) =~= all);
    assert(placed(all, session@) + all.skip(at as int) =~= placed(all, session@));
    while at > 0 && sessions[at - 1].updated_at_ms < session.updated_at_ms
        invariant
            at <= sessions@.len(),
            all == session_views(sessions@),
            placed(all.take(at as int), session@) + all.skip(at as int) == placed(all, session@),
        decreases at,
    {
        let ghost rest = all.take(at as int);
        assert(rest.drop_last() =~= all.take(at - 1));
        assert(rest.last() == sessions@[at - 1]@);
        assert(placed(rest.drop_last(), session@).push(rest.last()) + all.skip(at as int)
            =~= placed(rest.drop_last(), session@) + all.skip(at - 1));
        at -= 1;
    }
    let ghost rest = all.take(at as int);
    assert(at > 0 ==> rest.last() == sessions@[at - 1]@);
    assert(placed(rest, session@) == rest.push(session@));
    sessions.insert(at, session);
    assert(session_views(sessions@) =~= rest.push(session@) + all.skip(at as int));
}

/// Where the local history is, and the rules for what is written there.
pub struct SessionHistory {
    directory: String,
}

impl View for SessionHistory {
    type V = Seq<char>;

    /// The sessions directory.
    closed spec fn view(&self) -> Seq<char> {
        self.directory@
    }
}

impl Clone for SessionHistory {
    fn clone(&self) -> (copy: Self)
        ensures
            copy@ == self@,
    {
        SessionHistory { directory: self.directory.clone() }
    }
}

/// The sessions directory beside a credential file.
pub open spec fn sessions_beside(credential_file: Seq<char>) -> Seq<char> {
    joined(
        match parent_of(credential_file) {
            Some(parent) => parent,
            None => seq!['.'],
        },
        "sessions"@,
    )
}

impl SessionHistory {
    /// The history beside the credential file, and apart from it.
    pub fn for_credential_file(credential_file: &str) -> (history: Self)
        ensures
            history@ == sessions_beside(credential_file@),
    {
        let directory = match parent(credential_file) {
            Some(parent) => join(parent.as_str(), "sessions"),
            None => {
                proof {
                    reveal_strlit(".");
                    assert("."@ =~= seq!['.']);
                }
                join(".", "sessions")
            },
        };
        SessionHistory { directory }
    }

    pub fn at(directory: &str) -> (history: Self)
        ensures
            history@ == directory@,
    {
        SessionHistory { directory: directory.to_owned() }
    }

    pub fn directory(&self) -> (directory: &str)
        ensures
            directory@ == self@,
    {
        self.directory.as_str()
    }

    /// The file of the session with the given ID.
    pub fn path_for(&self, id: &SessionId) -> (path: String)
        ensures
            path@ == session_path(self@, id@),
    {
        let mut name = id.0.clone();
        name.append(".json");
        join(self.directory.as_str(), name.as_str())
    }

    /// The file in which a process prepares the snapshot of a session, before it takes the place
    /// of the one at `path_for`.
    pub fn temporary_path_for(&self, id: &SessionId, process_id: u32) -> (path: String)
        ensures
            path@ == joined(self@, temporary_name(id@, process_id)),
    {
        let mut name = id.0.clone();
        name.append(".");
        name.append(decimal_text(process_id as u128).as_str());
        name.append(".tmp");
        join(self.directory.as_str(), name.as_str())
    }

    /// The error for a snapshot that could not be written.
    fn write_failed(&self, id: &SessionId, failure: WriteFailure) -> (error: HistoryError)
        ensures
            error@ == write_error(self@, id@, failure),
    {
        match failure {
            WriteFailure::Directory => HistoryError::CreateDirectory {
                path: self.directory.clone(),
            },
            WriteFailure::Snapshot => HistoryError::Write { path: self.path_for(id) },
        }
    }

    /// The snapshot of a new session, to be written before `create_continuation` is called.
    pub fn creation_snapshot(
        &self,
        id: &SessionId,
        resumed_from_session_id: Option<&SessionId>,
        now: u128,
    ) -> (snapshot: Session)
        ensures
            snapshot@ == new_session(
                id@,
                match resumed_from_session_id {
                    Some(origin) => Some(origin@),
                    None => None,
                },
                now,
            ),
    {
        let session = Session {
            id: id.clone(),
            started_at_ms: now,
            updated_at_ms: now,
            status: SessionStatus::Active,
            resumed_from_session_id: match resumed_from_session_id {
                Some(origin) => Some(origin.clone()),
                None => None,
            },
            entries: Vec::new(),
        };
        assert(session@.entries =~= Seq::<EntryView>::empty());
        session
    }

    /// A new session that continues none, once its snapshot is written.
    pub fn create(&self, id: SessionId, now: u128, written: Result<(), WriteFailure>) -> (session:
        Result<Session, HistoryError>)
        ensures
            session_view(session) == (match written {
                Ok(_) => Ok(new_session(id@, None, now)),
                Err(failure) => Err(write_error(self@, id@, failure)),
            }),
    {
        self.create_continuation(id, None, now, written)
    }

    /// A new session that continues the given one, once its snapshot is written.
    pub fn create_continuation(
        &self,
        id: SessionId,
        resumed_from_session_id: Option<SessionId>,
        now: u128,
        written: Result<(), WriteFailure>,
    ) -> (session: Result<Session, HistoryError>)
        ensures
            session_view(session) == (match written {
                Ok(_) => Ok(new_session(id@, option_id_view(resumed_from_session_id), now)),
                Err(failure) => Err(write_error(self@, id@, failure)),
            }),
    {
        match written {
            Ok(_) => Ok(
                self.creation_snapshot(
                    &id,
                    match &resumed_from_session_id {
                        Some(origin) => Some(origin),
                        None => None,
                    },
                    now,
                ),
            ),
            Err(failure) => Err(self.write_failed(&id, failure)),
        }
    }

    fn entry_snapshot(&self, session: &Session, kind: SessionEntryKind, now: u128) -> (snapshot:
        Session)
        ensures
            snapshot@ == with_entry(session@, kind@, now),
    {
        let mut candidate = session.clone();
        let ghost before = candidate.entries@;
        candidate.entries.push(SessionEntry { timestamp_ms: now, kind });
        candidate.updated_at_ms = now;
        assert(entry_views(candidate.entries@) =~= entry_views(before).push(
            EntryView { timestamp_ms: now, kind: kind@ },
        ));
        candidate
    }

    /// The snapshot of the session with one more prompt.
    pub fn prompt_snapshot(&self, session: &Session, text: &RedactedText, now: u128) -> (snapshot:
        Session)
        ensures
            snapshot@ == with_entry(session@, EntryKindView::Prompt { text: text@ }, now),
    {
        self.entry_snapshot(session, SessionEntryKind::Prompt { text: text.0.clone() }, now)
    }

    /// The snapshot of the session with one more response.
    pub fn response_snapshot(
        &self,
        session: &Session,
        response: &RedactedTranscriptResponse,
        now: u128,
    ) -> (snapshot: Session)
        ensures
            snapshot@ == with_entry(session@, EntryKindView::Response(response@), now),
    {
        self.entry_snapshot(session, SessionEntryKind::Response(response.0.clone()), now)
    }

    /// The snapshot of the session with one more error.
    pub fn error_snapshot(&self, session: &Session, message: &RedactedText, now: u128) -> (snapshot:
        Session)
        ensures
            snapshot@ == with_entry(session@, EntryKindView::Error { message: message@ }, now),
    {
        self.entry_snapshot(session, SessionEntryKind::Error { message: message.0.clone() }, now)
    }

    /// The snapshot of the session as completed.
    pub fn completion_snapshot(&self, session: &Session, now: u128) -> (snapshot: Session)
        ensures
            snapshot@ == completed(session@, now),
    {
        let mut candidate = session.clone();
        candidate.status = SessionStatus::Completed;
        candidate.updated_at_ms = now;
        candidate
    }

    /// Expose a changed session once it is written with the time of the save.
    pub fn update(
        &self,
        session: &mut Session,
        candidate: Session,
        now: u128,
        written: Result<(), WriteFailure>,
    ) -> (outcome: Result<(), HistoryError>)
        ensures
            final(session)@ == kept(old(session)@, saved_at(candidate@, now), written),
            match written {
                Ok(_) => outcome is Ok,
                Err(failure) => {
                    &&& outcome is Err
                    &&& outcome->Err_0@ == write_error(self@, candidate@.id, failure)
                    &&& *final(session) == *old(session)
                },
            },
    {
        match written {
            Ok(_) => {
                *session = Session { updated_at_ms: now, ..candidate };
                Ok(())
            },
            Err(failure) => Err(self.write_failed(&candidate.id, failure)),
        }
    }

    /// Add a prompt to the session, once `prompt_snapshot` is written.
    pub fn append_prompt(
        &self,
        session: &mut Session,
        text: RedactedText,
        now: u128,
        written: Result<(), WriteFailure>,
    ) -> (outcome: Result<(), HistoryError>)
        ensures
            match written {
                Ok(_) => outcome is Ok && final(session)@ == with_entry(
                    old(session)@,
                    EntryKindView::Prompt { text: text@ },
                    now,
                ),
                Err(failure) => {
                    &&& outcome is Err
                    &&& outcome->Err_0@ == write_error(self@, old(session)@.id, failure)
                    &&& *final(session) == *old(session)
                },
            },
    {
        let candidate = self.prompt_snapshot(session, &text, now);
        self.update(session, candidate, now, written)
    }

    /// Add a response to the session, once `response_snapshot` is written.
    pub fn append_response(
        &self,
        session: &mut Session,
        response: RedactedTranscriptResponse,
        now: u128,
        written: Result<(), WriteFailure>,
    ) -> (outcome: Result<(), HistoryError>)
        ensures
            match written {
                Ok(_) => outcome is Ok && final(session)@ == with_entry(
                    old(session)@,
                    EntryKindView::Response(response@),
                    now,
                ),
                Err(failure) => {
                    &&& outcome is Err
                    &&& outcome->Err_0@ == write_error(self@, old(session)@.id, failure)
                    &&& *final(session) == *old(session)
                },
            },
    {
        let candidate = self.response_snapshot(session, &response, now);
        self.update(session, candidate, now, written)
    }

    /// Add an error to the session, once `error_snapshot` is written.
    pub fn append_error(
        &self,
        session: &mut Session,
        message: RedactedText,
        now: u128,
        written: Result<(), WriteFailure>,
    ) -> (outcome: Result<(), HistoryError>)
        ensures
            match written {
                Ok(_) => outcome is Ok && final(session)@ == with_entry(
                    old(session)@,
                    EntryKindView::Error { message: message@ },
                    now,
                ),
                Err(failure) => {
                    &&& outcome is Err
                    &&& outcome->Err_0@ == write_error(self@, old(session)@.id, failure)
                    &&& *final(session) == *old(session)
                },
            },
    {
        let candidate = self.error_snapshot(session, &message, now);
        self.update(session, candidate, now, written)
    }

    /// Mark the session as completed, once `completion_snapshot` is written.
    pub fn complete(&self, session: &mut Session, now: u128, written: Result<(), WriteFailure>) -> (
    outcome: Result<(), HistoryError>)
        ensures
            match written {
                Ok(_) => outcome is Ok && final(session)@ == completed(old(session)@, now),
                Err(failure) => {
                    &&& outcome is Err
                    &&& outcome->Err_0@ == write_error(self@, old(session)@.id, failure)
                    &&& *final(session) == *old(session)
                },
            },
    {
        let candidate = self.completion_snapshot(session, now);
        self.update(session, candidate, now, written)
    }

    /// The file to read for the session with the given ID, which must be valid before anything is
    /// read.
    pub fn locate(&self, id: &str) -> (path: Result<String, HistoryError>)
        ensures
            match path {
                Ok(path) => is_session_id(id@) && path@ == session_path(self@, id@),
                Err(error) => !is_session_id(id@) && error@ == (HistoryErrorView::InvalidId {
                    id: id@,
                }),
            },
    {
        let id = SessionId::parse(id)?;
        Ok(self.path_for(&id))
    }

    /// The session with the given ID, given what reading the file that `locate` names gave.
    pub fn load(&self, id: &str, read: SnapshotRead) -> (session: Result<Session, HistoryError>)
        ensures
            session_view(session) == (if !is_session_id(id@) {
                Err(HistoryErrorView::InvalidId { id: id@ })
            } else if read is Missing {
                Err(HistoryErrorView::NotFound { id: id@ })
            } else {
                loaded_file(session_path(self@, id@), read@)
            }),
    {
        let id = SessionId::parse(id)?;
        let path = self.path_for(&id);
        match read {
            SnapshotRead::Missing => Err(HistoryError::NotFound { id: id.text() }),
            read => load_file(path.as_str(), read),
        }
    }
}

/// How far the search for the remote conversation got.
#[derive(Debug, PartialEq, Eq)]
pub enum LineageStep {
    /// The chat ID to continue with, if any.
    Found(Option<String>),
    /// The session with this ID must be loaded and searched next.
    Origin(SessionId),
}

/// The mathematical counterpart of `LineageStep`.
pub enum LineageStepView {
    Found(Option<Seq<char>>),
    Origin(Seq<char>),
}

impl View for LineageStep {
    type V = LineageStepView;

    open spec fn view(&self) -> LineageStepView {
        match self {
            LineageStep::Found(id) => LineageStepView::Found(option_view(*id)),
            LineageStep::Origin(id) => LineageStepView::Origin(id@),
        }
    }
}

/// The ID of the session at `at` is that of an earlier session of the chain.
pub open spec fn is_revisited(chain: Seq<SessionView>, at: int) -> bool {
    exists|i: int| 0 <= i < at && #[trigger] chain[i].id == chain[at].id
}

/// The search from the session at `at` on, in a chain in which each session was resumed from the
/// next. A session with any response owns its continuation state, including a response whose chat
/// ID is absent. Only a session without one inherits its origin's.
pub open spec fn lineage_from(chain: Seq<SessionView>, at: int) -> Result<
    LineageStepView,
    HistoryErrorView,
>
    decreases chain.len() - at,
{
    if is_revisited(chain, at) {
        Err(HistoryErrorView::CyclicLineage { id: chain[at].id })
    } else {
        match (latest_response(chain[at].entries), chain[at].resumed_from_session_id) {
            (Some(chat_id), _) => Ok(LineageStepView::Found(chat_id)),
            (None, None) => Ok(LineageStepView::Found(None)),
            (None, Some(origin)) => if at + 1 < chain.len() {
                lineage_from(chain, at + 1)
            } else {
                Ok(LineageStepView::Origin(origin))
            },
        }
    }
}

/// The search in the whole chain.
pub open spec fn lineage(chain: Seq<SessionView>) -> Result<LineageStepView, HistoryErrorView> {
    lineage_from(chain, 0)
}

/// The view of a search.
pub open spec fn step_view(step: Result<LineageStep, HistoryError>) -> Result<
    LineageStepView,
    HistoryErrorView,
> {
    match step {
        Ok(step) => Ok(step@),
        Err(error) => Err(error@),
    }
}

impl SessionHistory {
    /// The snapshot files to load, given what listing the sessions directory gave.
    pub fn session_files(&self, listing: DirectoryListing) -> (files: Result<
        Vec<String>,
        HistoryError,
    >)
        ensures
            match listing {
                DirectoryListing::Absent => files is Ok && files->Ok_0@.len() == 0,
                DirectoryListing::Unreadable => files is Err && files->Err_0@ == (
                HistoryErrorView::Read { path: self@ }),
                DirectoryListing::Names(names) => files is Ok && views(files->Ok_0@)
                    == snapshot_files(self@, views(names@)),
            },
    {
        let names = match listing {
            DirectoryListing::Absent => {
                return Ok(Vec::new());
            },
            DirectoryListing::Unreadable => {
                return Err(HistoryError::Read { path: self.directory.clone() });
            },
            DirectoryListing::Names(names) => names,
        };
        let mut files: Vec<String> = Vec::new();
        let mut i: usize = 0;
        assert(views(files@) =~= snapshot_files(self@, views(names@).take(0)));
        proof {
            reveal_strlit(".json");
        }
        while i < names.len()
            invariant
                i <= names@.len(),
                ".json"@.len() == 5,
                views(files@) == snapshot_files(self@, views(names@).take(i as int)),
            decreases names@.len() - i,
        {
            let name = names[i].as_str();
            let ghost before = views(files@);
            let ghost next = views(names@).take(i + 1);
            assert(next.drop_last() =~= views(names@).take(i as int));
            assert(next.last() == name@);
            if has_suffix(name, ".json") && !same_text(name, ".json") {
                assert(name@.len() > 5) by {
                    if name@.len() == 5 {
                        assert(name@.skip(0) =~= name@);
                    }
                }
                files.push(join(self.directory.as_str(), name));
                assert(views(files@) =~= before.push(joined(self@, name@)));
            } else {
                assert(!is_snapshot_name(name@));
            }
            i += 1;
        }
        assert(views(names@).take(i as int) =~= views(names@));
        Ok(files)
    }

    /// The saved sessions, the most recently updated one first, given what reading each of the
    /// snapshot files gave.
    pub fn list(&self, files: Vec<(String, SnapshotRead)>) -> (sessions: Result<
        Vec<Session>,
        HistoryError,
    >)
        ensures
            match loaded_files(file_views(files@)) {
                Ok(loaded) => sessions is Ok && session_views(sessions->Ok_0@) == newest_first(
                    loaded,
                ),
                Err(error) => sessions is Err && sessions->Err_0@ == error,
            },
    {
        let mut sessions: Vec<Session> = Vec::new();
        let ghost all = file_views(files@);
        let ghost mut loaded: Seq<SessionView> = Seq::empty();
        assert(session_views(sessions@) =~= newest_first(loaded));
        for file in it: files
            invariant
                it.seq() == files@,
                all == file_views(files@),
                loaded_files(all.take(it.index())) == Ok::<Seq<SessionView>, HistoryErrorView>(
                    loaded,
                ),
                session_views(sessions@) == newest_first(loaded),
        {
            let ghost next = all.take(it.index() + 1);
            assert(next.drop_last() =~= all.take(it.index()));
            assert(next.last() == (file.0@, file.1@));
            match load_file(file.0.as_str(), file.1) {
                Ok(session) => {
                    proof {
                        assert(loaded.push(session@).drop_last() =~= loaded);
                        loaded = loaded.push(session@);
                    }
                    place(&mut sessions, session);
                },
                Err(error) => {
                    proof {
                        lemma_first_error_stays(all, it.index() + 1);
                    }
                    return Err(error);
                },
            }
        }
        assert(all.take(all.len() as int) =~= all);
        Ok(sessions)
    }

    /// Resolve the remote continuation of a session from its responses, then from its immutable
    /// lineage. `ancestors` are the sessions loaded so far, each being the one that the session
    /// before it was resumed from.
    pub fn latest_remote_chat_id(&self, session: &Session, ancestors: &Vec<Session>) -> (step:
        Result<LineageStep, HistoryError>)
        ensures
            step_view(step) == lineage(seq![session@] + session_views(ancestors@)),
    {
        let ghost chain = seq![session@] + session_views(ancestors@);
        let mut visited: Vec<SessionId> = Vec::new();
        let mut current = session;
        let mut at: usize = 0;
        loop
            invariant
                chain == seq![session@] + session_views(ancestors@),
                at <= ancestors@.len(),
                current@ == chain[at as int],
                visited@.len() == at,
                forall|i: int| 0 <= i < at ==> (#[trigger] visited@[i])@ == chain[i].id,
                lineage_from(chain, at as int) == lineage(chain),
            decreases ancestors@.len() - at,
        {
            let mut i: usize = 0;
            while i < visited.len()
                invariant
                    i <= visited@.len(),
                    at == visited@.len(),
                    at < chain.len(),
                    current@ == chain[at as int],
                    lineage_from(chain, at as int) == lineage(chain),
                    chain == seq![session@] + session_views(ancestors@),
                    forall|j: int| 0 <= j < at ==> (#[trigger] visited@[j])@ == chain[j].id,
                    forall|j: int| 0 <= j < i ==> #[trigger] chain[j].id != current@.id,
                decreases visited@.len() - i,
            {
                if visited[i].same(&current.id) {
                    assert(chain[i as int].id == chain[at as int].id);
                    return Err(HistoryError::CyclicLineage { id: current.id.text() });
                }
                assert(chain[i as int].id == visited@[i as int]@);
                i += 1;
            }
            assert(!is_revisited(chain, at as int));
            visited.push(current.id.clone());
            if let Some(chat_id) = current.latest_response_remote_chat_id() {
                return Ok(LineageStep::Found(chat_id));
            }
            match &current.resumed_from_session_id {
                None => {
                    return Ok(LineageStep::Found(None));
                },
                Some(origin) => {
                    if at >= ancestors.len() {
                        return Ok(LineageStep::Origin(origin.clone()));
                    }
                    current = &ancestors[at];
                    at += 1;
                },
            }
        }
    }
}

/// What is written of a session is what a later load gives back.
pub proof fn snapshots_round_trip(directory: Seq<char>, session: SessionView)
    requires
        readable(session),
    ensures
        loaded_file(session_path(directory, session.id), SnapshotReadView::Stored(session)) == Ok::<
            SessionView,
            HistoryErrorView,
        >(session),
{
}

/// The file of a session is named by its ID, directly in the sessions directory: the name has no
/// slash, so no ID can lead out of it.
pub proof fn session_files_stay_in_the_directory(directory: Seq<char>, id: Seq<char>)
    requires
        is_session_id(id),
    ensures
        !(id + ".json"@).contains('/'),
        starts_with(session_path(directory, id), directory),
        ends_with(session_path(directory, id), id + ".json"@),
        session_path(directory, id).len() <= directory.len() + 1 + (id + ".json"@).len(),
{
    reveal_strlit(".json");
    let name = id + ".json"@;
    assert forall|i: int| 0 <= i < name.len() implies #[trigger] name[i] != '/' by {
        if i < id.len() && id[i] != '-' {
            lemma_split_covers(id, '-', i);
            let (part, at) = choose|part: int, at: int|
                0 <= part < split(id, '-').len() && 0 <= at < split(id, '-')[part].len()
                    && #[trigger] split(id, '-')[part][at] == id[i];
            assert(is_number(split(id, '-')[part]));
            assert(is_digit(id[i]));
        }
    }
    let path = session_path(directory, id);
    assert(path.take(directory.len() as int) =~= directory);
    assert(path.skip(path.len() - name.len()) =~= name);
}

/// A snapshot that is still being prepared is not listed.
pub proof fn temporary_files_are_not_listed(id: Seq<char>, process_id: u32)
    ensures
        !is_snapshot_name(temporary_name(id, process_id)),
{
    reveal_strlit(".json");
    reveal_strlit(".tmp");
    let name = temporary_name(id, process_id);
    assert(name.last() == 'p');
    if ends_with(name, ".json"@) {
        assert(name.skip(name.len() - 5).last() == name.last());
    }
}

/// Saving an entry keeps the session's ID, start and lineage, and every entry before it.
pub proof fn entries_are_only_appended(session: SessionView, kind: EntryKindView, now: u128)
    ensures
        ({
            let next = with_entry(session, kind, now);
            &&& next.id == session.id
            &&& next.started_at_ms == session.started_at_ms
            &&& next.status == session.status
            &&& next.resumed_from_session_id == session.resumed_from_session_id
            &&& next.entries.len() == session.entries.len() + 1
            &&& next.entries.take(session.entries.len() as int) == session.entries
            &&& next.entries.last() == (EntryView { timestamp_ms: now, kind })
        }),
{
    assert(with_entry(session, kind, now).entries.take(session.entries.len() as int)
        =~= session.entries);
}

/// Whatever is written keeps the session readable.
pub proof fn saved_sessions_stay_readable(session: SessionView, kind: EntryKindView, now: u128)
    requires
        readable(session),
    ensures
        readable(with_entry(session, kind, now)),
        readable(completed(session, now)),
{
}

/// The caller never sees a change that is not on disk: a change that was written is seen and loaded
/// with the time it was saved at, one that could not be written is neither seen nor loaded.
pub proof fn callers_see_what_is_on_disk(
    directory: Seq<char>,
    session: SessionView,
    candidate: SessionView,
    now: u128,
    written: Result<(), WriteFailure>,
)
    requires
        readable(session),
        readable(candidate),
        candidate.id == session.id,
    ensures
        ({
            let seen = kept(session, saved_at(candidate, now), written);
            &&& is_session_id(seen.id)
            &&& seen.id == session.id
            &&& loaded_file(
                session_path(directory, seen.id),
                SnapshotReadView::Stored(seen),
            ) == Ok::<SessionView, HistoryErrorView>(seen)
            &&& written is Ok ==> seen == saved_at(candidate, now)
            &&& written is Err ==> seen == session
        }),
{
}

/// An entry that is added, and a completion, carry the time that they are saved at.
pub proof fn changes_carry_the_time_of_the_save(
    session: SessionView,
    kind: EntryKindView,
    now: u128,
)
    ensures
        saved_at(with_entry(session, kind, now), now) == with_entry(session, kind, now),
        saved_at(completed(session, now), now) == completed(session, now),
{
}

/// The sessions are in the order of their last update, the latest first.
pub open spec fn is_newest_first(sessions: Seq<SessionView>) -> bool {
    forall|i: int, j: int|
        0 <= i < j < sessions.len() ==> (#[trigger] sessions[i]).updated_at_ms >= (
        #[trigger] sessions[j]).updated_at_ms
}

proof fn lemma_placed(sessions: Seq<SessionView>, session: SessionView)
    requires
        is_newest_first(sessions),
    ensures
        is_newest_first(placed(sessions, session)),
        placed(sessions, session).to_multiset() == sessions.to_multiset().insert(session),
    decreases sessions.len(),
{
    broadcast use vstd::seq_lib::group_to_multiset_ensures;

    if sessions.len() > 0 && sessions.last().updated_at_ms < session.updated_at_ms {
        let rest = sessions.drop_last();
        lemma_placed(rest, session);
        let placed_rest = placed(rest, session);
        assert(sessions =~= rest.push(sessions.last()));
        assert forall|i: int| 0 <= i < placed_rest.len() implies (
        #[trigger] placed_rest[i]).updated_at_ms >= sessions.last().updated_at_ms by {
            assert(placed_rest.to_multiset().contains(placed_rest[i])) by {
                assert(placed_rest.contains(placed_rest[i]));
            }
            if placed_rest[i] != session {
                assert(rest.to_multiset().contains(placed_rest[i]));
                assert(rest.contains(placed_rest[i]));
                let j = choose|j: int| 0 <= j < rest.len() && rest[j] == placed_rest[i];
                assert(sessions[j] == rest[j]);
            }
        }
        assert(placed_rest.push(sessions.last()).to_multiset() =~= sessions.to_multiset().insert(
            session,
        ));
    }
}

/// A listing holds every session once, in the order of the last update, the latest first.
pub proof fn listing_is_sorted_and_complete(sessions: Seq<SessionView>)
    ensures
        is_newest_first(newest_first(sessions)),
        newest_first(sessions).to_multiset() == sessions.to_multiset(),
    decreases sessions.len(),
{
    broadcast use vstd::seq_lib::group_to_multiset_ensures;

    if sessions.len() > 0 {
        listing_is_sorted_and_complete(sessions.drop_last());
        lemma_placed(newest_first(sessions.drop_last()), sessions.last());
        assert(sessions =~= sessions.drop_last().push(sessions.last()));
    }
}

/// A session with a response continues with what its latest response says, whatever its ancestors
/// say; this holds also where that response has no chat ID.
pub proof fn own_response_decides(chain: Seq<SessionView>)
    requires
        chain.len() > 0,
        latest_response(chain[0].entries) is Some,
    ensures
        lineage(chain) == Ok::<LineageStepView, HistoryErrorView>(
            LineageStepView::Found(latest_response(chain[0].entries)->Some_0),
        ),
{
}

/// A session without a response continues with what its first ancestor with a response says, if no
/// session on the way occurs twice.
pub proof fn first_response_in_the_lineage_decides(chain: Seq<SessionView>, at: int)
    requires
        0 <= at < chain.len(),
        latest_response(chain[at].entries) is Some,
        forall|i: int|
            0 <= i < at ==> latest_response((#[trigger] chain[i]).entries) is None
                && chain[i].resumed_from_session_id is Some,
        forall|i: int, j: int|
            0 <= i < j <= at ==> (#[trigger] chain[i]).id != (#[trigger] chain[j]).id,
    ensures
        lineage(chain) == Ok::<LineageStepView, HistoryErrorView>(
            LineageStepView::Found(latest_response(chain[at].entries)->Some_0),
        ),
{
    lemma_lineage_reaches(chain, 0, at);
}

proof fn lemma_lineage_reaches(chain: Seq<SessionView>, from: int, at: int)
    requires
        0 <= from <= at < chain.len(),
        forall|i: int|
            0 <= i < at ==> latest_response((#[trigger] chain[i]).entries) is None
                && chain[i].resumed_from_session_id is Some,
        forall|i: int, j: int|
            0 <= i < j < at ==> (#[trigger] chain[i]).id != (#[trigger] chain[j]).id,
    ensures
        lineage_from(chain, from) == lineage_from(chain, at),
    decreases at - from,
{
    if from < at {
        lemma_lineage_reaches(chain, from + 1, at);
        assert(!is_revisited(chain, from));
    }
}

/// A lineage that comes back to a session is rejected.
pub proof fn cyclic_lineage_is_rejected(chain: Seq<SessionView>, at: int)
    requires
        0 <= at < chain.len(),
        is_revisited(chain, at),
        forall|i: int|
            0 <= i < at ==> latest_response((#[trigger] chain[i]).entries) is None
                && chain[i].resumed_from_session_id is Some,
        forall|i: int, j: int|
            0 <= i < j < at ==> (#[trigger] chain[i]).id != (#[trigger] chain[j]).id,
    ensures
        lineage(chain) == Err::<LineageStepView, HistoryErrorView>(
            HistoryErrorView::CyclicLineage { id: chain[at].id },
        ),
{
    lemma_lineage_reaches(chain, 0, at);
}

proof fn lemma_open_search_has_no_repetition(chain: Seq<SessionView>, from: int, j: int)
    requires
        0 <= from <= j < chain.len(),
        lineage_from(chain, from) is Ok,
        lineage_from(chain, from)->Ok_0 is Origin,
    ensures
        !is_revisited(chain, j),
    decreases j - from,
{
    if from < j {
        lemma_open_search_has_no_repetition(chain, from + 1, j);
    }
}

/// The search ends: it asks for another ancestor only while all sessions of the chain are
/// different, so with finitely many sessions it asks at most as often as there are sessions.
pub proof fn lineage_search_is_bounded(chain: Seq<SessionView>, ids: Set<Seq<char>>)
    requires
        chain.len() > 0,
        ids.finite(),
        forall|i: int| 0 <= i < chain.len() ==> ids.contains((#[trigger] chain[i]).id),
        lineage(chain) is Ok,
        lineage(chain)->Ok_0 is Origin,
    ensures
        chain.len() <= ids.len(),
{
    let visited = chain.map_values(|session: SessionView| session.id);
    assert(visited.no_duplicates()) by {
        assert forall|i: int, j: int|
            0 <= i < visited.len() && 0 <= j < visited.len() && i != j implies visited[i]
            != visited[j] by {
            if i < j {
                lemma_open_search_has_no_repetition(chain, 0, j);
                assert(chain[i].id == visited[i]);
            } else {
                lemma_open_search_has_no_repetition(chain, 0, i);
                assert(chain[j].id == visited[j]);
            }
        }
    }
    visited.unique_seq_to_set();
    assert forall|id: Seq<char>| visited.to_set().contains(id) implies ids.contains(id) by {
        let i = choose|i: int| 0 <= i < visited.len() && visited[i] == id;
        assert(chain[i].id == id);
    }
    vstd::set_lib::lemma_len_subset(visited.to_set(), ids);
}

/// The most recent response of a session says which remote conversation goes on, whatever prompts
/// and errors follow it.
pub proof fn the_most_recent_response_counts(entries: Seq<EntryView>, i: int)
    requires
        0 <= i < entries.len(),
        entries[i].kind is Response,
        forall|j: int| i < j < entries.len() ==> !((#[trigger] entries[j]).kind is Response),
    ensures
        latest_response(entries) == Some(entries[i].kind->Response_0.remote_chat_id),
    decreases entries.len(),
{
    if i < entries.len() - 1 {
        let start = entries.drop_last();
        assert(!(entries[entries.len() - 1].kind is Response));
        assert(start[i] == entries[i]);
        assert forall|j: int| i < j < start.len() implies !((#[trigger] start[j]).kind
            is Response) by {
            assert(start[j] == entries[j]);
        }
        the_most_recent_response_counts(start, i);
    }
}

/// Without a response no remote conversation goes on.
pub proof fn no_response_names_no_conversation(entries: Seq<EntryView>)
    requires
        forall|j: int| 0 <= j < entries.len() ==> !((#[trigger] entries[j]).kind is Response),
    ensures
        latest_response(entries) is None,
    decreases entries.len(),
{
    if entries.len() > 0 {
        let start = entries.drop_last();
        assert(!(entries[entries.len() - 1].kind is Response));
        assert forall|j: int| 0 <= j < start.len() implies !((#[trigger] start[j]).kind
            is Response) by {
            assert(start[j] == entries[j]);
        }
        no_response_names_no_conversation(start);
    }
}

/// Recording a prompt or an error does not change which remote conversation goes on; recording a
/// response does.
pub proof fn only_responses_change_the_conversation(
    session: SessionView,
    kind: EntryKindView,
    now: u128,
)
    ensures
        !(kind is Response) ==> latest_response(with_entry(session, kind, now).entries)
            == latest_response(session.entries),
        kind matches EntryKindView::Response(response) ==> latest_response(
            with_entry(session, kind, now).entries,
        ) == Some(response.remote_chat_id),
{
    let entries = with_entry(session, kind, now).entries;
    assert(entries.drop_last() =~= session.entries);
    assert(entries.last().kind == kind);
}

/// A lineage in which no session has a response ends without a conversation where a session has no
/// origin, and asks for the origin where it is not loaded yet.
pub proof fn lineages_without_responses_end_at_their_origin(chain: Seq<SessionView>)
    requires
        chain.len() > 0,
        forall|i: int, j: int|
            0 <= i < chain.len() && 0 <= j < (#[trigger] chain[i]).entries.len() ==> !((
            #[trigger] chain[i].entries[j]).kind is Response),
        forall|i: int|
            0 <= i < chain.len() - 1 ==> (#[trigger] chain[i]).resumed_from_session_id is Some,
        forall|i: int, j: int|
            0 <= i < j < chain.len() ==> (#[trigger] chain[i]).id != (#[trigger] chain[j]).id,
    ensures
        lineage(chain) == Ok::<LineageStepView, HistoryErrorView>(
            match chain.last().resumed_from_session_id {
                None => LineageStepView::Found(None),
                Some(origin) => LineageStepView::Origin(origin),
            },
        ),
{
    let at = chain.len() - 1;
    assert forall|i: int| 0 <= i < chain.len() implies latest_response(
        (#[trigger] chain[i]).entries,
    ) is None by {
        no_response_names_no_conversation(chain[i].entries);
    }
    lemma_lineage_reaches(chain, 0, at);
    assert(!is_revisited(chain, at));
}

/// A lineage in which a session comes a second time is rejected, and the error names that session.
pub proof fn a_session_that_comes_again_is_rejected(chain: Seq<SessionView>, i: int, at: int)
    requires
        0 <= i < at < chain.len(),
        chain[i].id == chain[at].id,
        forall|k: int, j: int|
            0 <= k < at && 0 <= j < (#[trigger] chain[k]).entries.len() ==> !((
            #[trigger] chain[k].entries[j]).kind is Response),
        forall|k: int| 0 <= k < at ==> (#[trigger] chain[k]).resumed_from_session_id is Some,
        forall|k: int, j: int|
            0 <= k < j < at ==> (#[trigger] chain[k]).id != (#[trigger] chain[j]).id,
    ensures
        lineage(chain) == Err::<LineageStepView, HistoryErrorView>(
            HistoryErrorView::CyclicLineage { id: chain[at].id },
        ),
{
    assert forall|k: int| 0 <= k < at implies latest_response((#[trigger] chain[k]).entries) is None
        && chain[k].resumed_from_session_id is Some by {
        no_response_names_no_conversation(chain[k].entries);
    }
    assert(is_revisited(chain, at));
    cyclic_lineage_is_rejected(chain, at);
}

/// The prompt that continues a session goes on in the conversation of the most recent response of
/// the first session in the lineage that has one.
pub proof fn the_lineage_follows_its_most_recent_response(
    chain: Seq<SessionView>,
    at: int,
    i: int,
)
    requires
        0 <= at < chain.len(),
        0 <= i < chain[at].entries.len(),
        chain[at].entries[i].kind is Response,
        forall|j: int|
            i < j < chain[at].entries.len() ==> !((#[trigger] chain[at].entries[j]).kind
                is Response),
        forall|k: int, j: int|
            0 <= k < at && 0 <= j < (#[trigger] chain[k]).entries.len() ==> !((
            #[trigger] chain[k].entries[j]).kind is Response),
        forall|k: int| 0 <= k < at ==> (#[trigger] chain[k]).resumed_from_session_id is Some,
        forall|k: int, j: int|
            0 <= k < j <= at ==> (#[trigger] chain[k]).id != (#[trigger] chain[j]).id,
    ensures
        lineage(chain) == Ok::<LineageStepView, HistoryErrorView>(
            LineageStepView::Found(chain[at].entries[i].kind->Response_0.remote_chat_id),
        ),
{
    the_most_recent_response_counts(chain[at].entries, i);
    assert forall|k: int| 0 <= k < at implies latest_response((#[trigger] chain[k]).entries) is None
        && chain[k].resumed_from_session_id is Some by {
        no_response_names_no_conversation(chain[k].entries);
    }
    first_response_in_the_lineage_decides(chain, at);
}

/// The session was last updated at the given time.
pub open spec fn is_updated_at(time: u128) -> spec_fn(SessionView) -> bool {
    |session: SessionView| session.updated_at_ms == time
}

proof fn lemma_placed_keeps_the_order(sessions: Seq<SessionView>, session: SessionView, time: u128)
    ensures
        placed(sessions, session).filter(is_updated_at(time))
            == sessions.push(session).filter(is_updated_at(time)),
    decreases sessions.len(),
{
    reveal_with_fuel(Seq::filter, 3);
    let same = is_updated_at(time);
    let all = sessions.push(session);
    assert(all.drop_last() =~= sessions);
    if !(sessions.len() == 0 || sessions.last().updated_at_ms >= session.updated_at_ms) {
        let start = sessions.drop_last();
        let inner = placed(start, session);
        lemma_placed_keeps_the_order(start, session, time);
        assert(start.push(session).drop_last() =~= start);
        assert(inner.push(sessions.last()).drop_last() =~= inner);
        assert(placed(sessions, session).filter(same) == (if same(sessions.last()) {
            inner.filter(same).push(sessions.last())
        } else {
            inner.filter(same)
        }));
        assert(start.push(session).filter(same) == (if same(session) {
            start.filter(same).push(session)
        } else {
            start.filter(same)
        }));
    }
}

/// Sessions that were updated at the same time are listed in the order in which they were found.
pub proof fn listing_keeps_the_order_of_equals(sessions: Seq<SessionView>, time: u128)
    ensures
        newest_first(sessions).filter(is_updated_at(time))
            == sessions.filter(is_updated_at(time)),
    decreases sessions.len(),
{
    reveal(Seq::filter);
    if sessions.len() > 0 {
        let start = sessions.drop_last();
        let sorted = newest_first(start);
        listing_keeps_the_order_of_equals(start, time);
        lemma_placed_keeps_the_order(sorted, sessions.last(), time);
        assert(sorted.push(sessions.last()).drop_last() =~= sorted);
    } else {
        assert(newest_first(sessions) =~= sessions);
    }
}

/// A file is a snapshot exactly if its name is something followed by `.json`; it lies in the
/// sessions directory, and the files come in the order of the names.
pub proof fn snapshots_are_found_by_their_extension(
    directory: Seq<char>,
    names: Seq<Seq<char>>,
    name: Seq<char>,
)
    ensures
        (exists|stem: Seq<char>| stem.len() > 0 && name == #[trigger] (stem + ".json"@))
            ==> snapshot_files(directory, names.push(name)) == snapshot_files(
            directory,
            names,
        ).push(joined(directory, name)),
        !(exists|stem: Seq<char>| stem.len() > 0 && name == #[trigger] (stem + ".json"@))
            ==> snapshot_files(directory, names.push(name)) == snapshot_files(directory, names),
        snapshot_files(directory, Seq::empty()).len() == 0,
{
    reveal_strlit(".json");
    assert(names.push(name).drop_last() =~= names);
    if exists|stem: Seq<char>| stem.len() > 0 && name == #[trigger] (stem + ".json"@) {
        let stem = choose|stem: Seq<char>| stem.len() > 0 && name == #[trigger] (stem + ".json"@);
        assert(name.skip(name.len() - 5) =~= ".json"@);
    } else if is_snapshot_name(name) {
        let stem = name.take(name.len() - 5);
        assert(name =~= stem + ".json"@);
    }
}

/// The file of a session is the ID with the extension `json`, directly in the sessions directory.
pub proof fn session_files_are_named_by_their_id(
    directory: Seq<char>,
    id: Seq<char>,
    process_id: u32,
)
    requires
        directory.len() > 0,
        directory.last() != '/',
        is_session_id(id),
    ensures
        session_path(directory, id) == directory.push('/') + id + ".json"@,
        joined(directory, temporary_name(id, process_id)) == directory.push('/') + id + "."@
            + decimal(process_id as nat) + ".tmp"@,
{
    let parts = split(id, '-');
    splitting_is_exact(id, '-');
    assert(is_number(parts[0]));
    let first = parts[0];
    assert(id[0] == first[0]);
    assert(is_digit(first[0]));
    reveal_strlit(".json");
    assert(session_path(directory, id) =~= directory.push('/') + id + ".json"@);
    assert(joined(directory, temporary_name(id, process_id)) =~= directory.push('/') + id + "."@
        + decimal(process_id as nat) + ".tmp"@);
}

/// The sessions directory lies beside the credential file.
pub proof fn sessions_lie_beside_the_credential_file(directory: Seq<char>, name: Seq<char>)
    requires
        directory.len() > 0,
        directory.last() != '/',
        !(directory.last() == '.' && (directory.len() == 1 || directory[directory.len() - 2]
            == '/')),
        name.len() > 0,
        !name.contains('/'),
        name != seq!['.'],
    ensures
        sessions_beside(directory.push('/') + name) == directory.push('/') + "sessions"@,
{
    reveal_strlit("sessions");
    the_parent_of_a_file_is_its_directory(directory, name);
    paths_are_joined_by_one_slash(directory, "sessions"@);
}

/// A listing loads every file, in order, and the first file that cannot be loaded decides.
pub proof fn every_file_is_loaded_or_the_first_failure_counts(
    files: Seq<(Seq<char>, SnapshotReadView)>,
    i: int,
)
    requires
        0 <= i <= files.len(),
        forall|j: int|
            0 <= j < i ==> loaded_file((#[trigger] files[j]).0, files[j].1) is Ok,
    ensures
        i == files.len() ==> {
            &&& loaded_files(files) is Ok
            &&& loaded_files(files)->Ok_0.len() == files.len()
            &&& forall|j: int|
                0 <= j < files.len() ==> loaded_file((#[trigger] files[j]).0, files[j].1) == Ok::<
                    SessionView,
                    HistoryErrorView,
                >(loaded_files(files)->Ok_0[j])
        },
        i < files.len() && loaded_file(files[i].0, files[i].1) is Err ==> loaded_files(files)
            == Err::<Seq<SessionView>, HistoryErrorView>(
            loaded_file(files[i].0, files[i].1)->Err_0,
        ),
    decreases files.len(),
{
    if files.len() > 0 {
        let start = files.drop_last();
        assert forall|j: int| 0 <= j < start.len() implies start[j] == #[trigger] files[j] by {}
        if i < files.len() {
            every_file_is_loaded_or_the_first_failure_counts(start, i);
            if i == start.len() {
                assert(loaded_files(start) is Ok);
            } else {
                assert(start[i] == files[i]);
            }
        } else {
            every_file_is_loaded_or_the_first_failure_counts(start, i - 1);
            assert(loaded_file(files[i - 1].0, files[i - 1].1) is Ok);
            let all = loaded_files(files)->Ok_0;
            assert forall|j: int| 0 <= j < files.len() implies loaded_file(
                (#[trigger] files[j]).0,
                files[j].1,
            ) == Ok::<SessionView, HistoryErrorView>(all[j]) by {
                if j < start.len() {
                    assert(start[j] == files[j]);
                }
            }
        }
    }
}

/// A snapshot is given back as it was stored where its IDs are session IDs. Otherwise, and where the
/// file holds no snapshot, it is malformed; where it cannot be read, that is said.
pub proof fn snapshots_are_loaded_as_stored_or_refused(
    path: Seq<char>,
    session: SessionView,
)
    ensures
        is_session_id(session.id) && (session.resumed_from_session_id matches Some(origin)
            ==> is_session_id(origin)) ==> loaded_file(path, SnapshotReadView::Stored(session))
            == Ok::<SessionView, HistoryErrorView>(session),
        !(is_session_id(session.id) && (session.resumed_from_session_id matches Some(origin)
            ==> is_session_id(origin))) ==> loaded_file(path, SnapshotReadView::Stored(session))
            == Err::<SessionView, HistoryErrorView>(HistoryErrorView::Malformed { path }),
        loaded_file(path, SnapshotReadView::Malformed) == Err::<SessionView, HistoryErrorView>(
            HistoryErrorView::Malformed { path },
        ),
        loaded_file(path, SnapshotReadView::Unreadable) == Err::<SessionView, HistoryErrorView>(
            HistoryErrorView::Read { path },
        ),
        loaded_file(path, SnapshotReadView::Missing) == Err::<SessionView, HistoryErrorView>(
            HistoryErrorView::Read { path },
        ),
{
}

/// The text holds nothing but ASCII digits, and at least one.
pub open spec fn is_digits(text: Seq<char>) -> bool {
    text.len() > 0 && forall|i: int|
        0 <= i < text.len() ==> '0' <= #[trigger] text[i] && text[i] <= '9'
}

proof fn lemma_is_digits(text: Seq<char>)
    ensures
        is_digits(text) == is_number(text),
        is_digits(text) ==> !text.contains('-'),
{
    if is_number(text) {
        assert forall|i: int| 0 <= i < text.len() implies '0' <= #[trigger] text[i] && text[i]
            <= '9' by {
            assert(is_digit(text[i]));
        }
    }
}

/// A session ID is three rows of digits with hyphens between them, and nothing else is one.
pub proof fn session_ids_are_three_rows_of_digits(text: Seq<char>)
    ensures
        is_session_id(text) <==> exists|first: Seq<char>, second: Seq<char>, third: Seq<char>|
            is_digits(first) && is_digits(second) && is_digits(third) && text == #[trigger] (
            first.push('-') + (second.push('-') + third)),
{
    let parts = split(text, '-');
    if is_session_id(text) {
        splitting_is_exact(text, '-');
        let (first, second, third) = (parts[0], parts[1], parts[2]);
        lemma_is_digits(first);
        lemma_is_digits(second);
        lemma_is_digits(third);
        assert(is_number(parts[0]) && is_number(parts[1]) && is_number(parts[2]));
        reveal_with_fuel(interleaved, 4);
        assert(parts.skip(1).skip(1)[0] == third);
        assert(text =~= first.push('-') + (second.push('-') + third));
    }
    if exists|first: Seq<char>, second: Seq<char>, third: Seq<char>|
        is_digits(first) && is_digits(second) && is_digits(third) && text == #[trigger] (
        first.push('-') + (second.push('-') + third)) {
        let (first, second, third) = choose|
            first: Seq<char>,
            second: Seq<char>,
            third: Seq<char>,
        |
            is_digits(first) && is_digits(second) && is_digits(third) && text == #[trigger] (
            first.push('-') + (second.push('-') + third));
        lemma_is_digits(first);
        lemma_is_digits(second);
        lemma_is_digits(third);
        lemma_split_first(first, second.push('-') + third, '-');
        lemma_split_first(second, third, '-');
        lemma_split_whole(third, '-');
        assert(parts =~= seq![first, second, third]);
    }
}

/// An ID that is generated is a session ID, and IDs of different times, processes or sequence
/// numbers are different.
pub proof fn generated_ids_are_different(
    time: u128,
    process: u32,
    sequence: u64,
    other_time: u128,
    other_process: u32,
    other_sequence: u64,
)
    ensures
        is_session_id(generated_id(time, process, sequence)),
        generated_id(time, process, sequence) == generated_id(
            other_time,
            other_process,
            other_sequence,
        ) ==> time == other_time && process == other_process && sequence == other_sequence,
{
    lemma_generated_id(time, process, sequence);
    lemma_generated_id_parts(time, process, sequence);
    lemma_generated_id_parts(other_time, other_process, other_sequence);
    digits_stand_for_their_number(time as nat);
    digits_stand_for_their_number(process as nat);
    digits_stand_for_their_number(sequence as nat);
    digits_stand_for_their_number(other_time as nat);
    digits_stand_for_their_number(other_process as nat);
    digits_stand_for_their_number(other_sequence as nat);
    if generated_id(time, process, sequence) == generated_id(
        other_time,
        other_process,
        other_sequence,
    ) {
        let parts = split(generated_id(time, process, sequence), '-');
        assert(parts[0] == decimal(other_time as nat));
        assert(parts[1] == decimal(other_process as nat));
        assert(parts[2] == decimal(other_sequence as nat));
    }
}

proof fn lemma_generated_id_parts(time: u128, process: u32, sequence: u64)
    ensures
        split(generated_id(time, process, sequence), '-') == seq![
            decimal(time as nat),
            decimal(process as nat),
            decimal(sequence as nat),
        ],
{
    let a = decimal(time as nat);
    let b = decimal(process as nat);
    let c = decimal(sequence as nat);
    lemma_decimal_is_number(time as nat);
    lemma_decimal_is_number(process as nat);
    lemma_decimal_is_number(sequence as nat);
    lemma_is_digits(a);
    lemma_is_digits(b);
    lemma_is_digits(c);
    lemma_split_first(a, b.push('-') + c, '-');
    lemma_split_first(b, c, '-');
    lemma_split_whole(c, '-');
    assert(split(generated_id(time, process, sequence), '-') =~= seq![a, b, c]);
}

/// A new session is active and empty; an entry changes only the entries and the time of the last
/// update, and completing changes only the status and that time.
pub proof fn changes_touch_nothing_else(
    session: SessionView,
    kind: EntryKindView,
    id: Seq<char>,
    origin: Option<Seq<char>>,
    now: u128,
)
    ensures
        new_session(id, origin, now) == (SessionView {
            id,
            started_at_ms: now,
            updated_at_ms: now,
            status: SessionStatus::Active,
            resumed_from_session_id: origin,
            entries: Seq::empty(),
        }),
        with_entry(session, kind, now).updated_at_ms == now,
        ({
            let done = completed(session, now);
            &&& done.status == SessionStatus::Completed
            &&& done.updated_at_ms == now
            &&& done.id == session.id
            &&& done.started_at_ms == session.started_at_ms
            &&& done.resumed_from_session_id == session.resumed_from_session_id
            &&& done.entries == session.entries
        }),
{
}

/// A generated ID holds the time, the process and the sequence number, in this order.
pub proof fn generated_ids_begin_with_their_time(time: u128, process: u32, sequence: u64)
    ensures
        ({
            let parts = split(generated_id(time, process, sequence), '-');
            &&& parts.len() == 3
            &&& digits_value(parts[0]) == time
            &&& digits_value(parts[1]) == process
            &&& digits_value(parts[2]) == sequence
        }),
{
    lemma_generated_id_parts(time, process, sequence);
    digits_stand_for_their_number(time as nat);
    digits_stand_for_their_number(process as nat);
    digits_stand_for_their_number(sequence as nat);
}

/// Saving a session sets the time of its last update, also to an earlier one, and nothing else.
pub proof fn saving_sets_the_time_alone(session: SessionView, now: u128)
    ensures
        ({
            let saved = saved_at(session, now);
            &&& saved.updated_at_ms == now
            &&& saved.id == session.id
            &&& saved.started_at_ms == session.started_at_ms
            &&& saved.status == session.status
            &&& saved.resumed_from_session_id == session.resumed_from_session_id
            &&& saved.entries == session.entries
        }),
{
}

/// A failed write names the directory that could not be made, or the file that could not be
/// written.
pub proof fn failed_writes_name_their_place(directory: Seq<char>, id: Seq<char>)
    requires
        directory.len() > 0,
        directory.last() != '/',
        is_session_id(id),
    ensures
        history_error_message(write_error(directory, id, WriteFailure::Directory))
            == "could not create local session history at "@ + directory,
        history_error_message(write_error(directory, id, WriteFailure::Snapshot))
            == "could not write local session history at "@ + (directory.push('/') + id
            + ".json"@),
{
    session_files_are_named_by_their_id(directory, id, 0);
}

/// Every other error of the history names the file or the session that it is about.
pub proof fn history_errors_name_their_subject(path: Seq<char>, id: Seq<char>)
    ensures
        history_error_message(HistoryErrorView::Read { path })
            == "could not read local session history at "@ + path,
        history_error_message(HistoryErrorView::Malformed { path }) == "local session history at "@
            + path + " is malformed"@,
        history_error_message(HistoryErrorView::NotFound { id }) == "local session `"@ + id
            + "` was not found"@,
        history_error_message(HistoryErrorView::InvalidId { id }) == "local session ID `"@ + id
            + "` is invalid"@,
        history_error_message(HistoryErrorView::CyclicLineage { id })
            == "local session history contains a cyclic lineage at session `"@ + id + "`"@,
{
}

/// The search ends without a conversation at the first session that has neither a response nor an
/// origin, whatever follows it.
pub proof fn lineages_end_where_there_is_no_origin(chain: Seq<SessionView>, at: int)
    requires
        0 <= at < chain.len(),
        chain[at].resumed_from_session_id is None,
        forall|k: int, j: int|
            0 <= k <= at && 0 <= j < (#[trigger] chain[k]).entries.len() ==> !((
            #[trigger] chain[k].entries[j]).kind is Response),
        forall|k: int| 0 <= k < at ==> (#[trigger] chain[k]).resumed_from_session_id is Some,
        forall|k: int, j: int|
            0 <= k < j <= at ==> (#[trigger] chain[k]).id != (#[trigger] chain[j]).id,
    ensures
        lineage(chain) == Ok::<LineageStepView, HistoryErrorView>(LineageStepView::Found(None)),
{
    assert forall|k: int| 0 <= k <= at implies latest_response(
        (#[trigger] chain[k]).entries,
    ) is None by {
        no_response_names_no_conversation(chain[k].entries);
    }
    lemma_lineage_reaches(chain, 0, at);
    assert(!is_revisited(chain, at));
}

/// Beside a credential file that is named without a directory the sessions lie in the current
/// directory, and beside one in the root they lie in the root.
pub proof fn sessions_lie_where_the_path_begins(name: Seq<char>)
    requires
        name.len() > 0,
        !name.contains('/'),
        name != seq!['.'],
    ensures
        sessions_beside(name) == "sessions"@,
        sessions_beside(seq!['/'] + name) == "/sessions"@,
        sessions_beside(Seq::empty()) == "./sessions"@,
        sessions_beside(seq!['/']) == "./sessions"@,
{
    reveal_strlit("sessions");
    reveal_strlit("/sessions");
    reveal_strlit("./sessions");
    single_names_stand_where_their_path_begins(name);
    paths_are_joined_by_one_slash(Seq::empty(), "sessions"@);
    paths_are_joined_by_one_slash(seq!['/'], "sessions"@);
    paths_are_joined_by_one_slash(seq!['.'], "sessions"@);
    assert(Seq::<char>::empty() + "sessions"@ =~= "sessions"@);
    assert(seq!['/'] + "sessions"@ =~= "/sessions"@);
    assert(seq!['.'].push('/') + "sessions"@ =~= "./sessions"@);
}

} // verus!

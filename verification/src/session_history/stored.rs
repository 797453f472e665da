//! The stored form of local session snapshots.

use vstd::prelude::*;

use crate::json::{option_json_view, JsonValue};
use crate::session_history::{
    is_session_id, EntryKindView, EntryView, Session, SessionEntry,
    SessionEntryKind, SessionId, SessionStatus, SessionView,
};
use crate::text::option_view;
use crate::transcript::{
    block_views, copy_option, TextBlock, TranscriptResponse, TranscriptResponseView,
};

verus! {

/// A session as it is stored on disk. Its IDs are plain text until they are read back.
#[derive(Debug, PartialEq, Eq)]
pub struct StoredSession {
    pub id: String,
    pub started_at_ms: u128,
    pub updated_at_ms: u128,
    pub status: StoredSessionStatus,
    pub resumed_from_session_id: Option<String>,
    pub entries: Vec<StoredSessionEntry>,
}

#[derive(Debug, Clone, Copy, PartialEq, Eq, Structural)]
pub enum StoredSessionStatus {
    Active,
    Completed,
}

#[derive(Debug, PartialEq, Eq)]
pub struct StoredSessionEntry {
    pub timestamp_ms: u128,
    pub kind: StoredSessionEntryKind,
}

#[derive(Debug, PartialEq, Eq)]
pub enum StoredSessionEntryKind {
    Prompt { text: String },
    Response(StoredTranscriptResponse),
    Error { message: String },
}

#[derive(Debug, PartialEq, Eq)]
pub struct StoredTranscriptResponse {
    pub text_blocks: Vec<StoredTextBlock>,
    pub structured_result: Option<JsonValue>,
    pub remote_chat_id: Option<String>,
}

#[derive(Debug, PartialEq, Eq)]
pub struct StoredTextBlock {
    pub text: String,
}

pub open spec fn stored_block_views(blocks: Seq<StoredTextBlock>) -> Seq<Seq<char>> {
    Seq::new(blocks.len(), |i: int| blocks[i].text@)
}

impl View for StoredTranscriptResponse {
    type V = TranscriptResponseView;

    open spec fn view(&self) -> TranscriptResponseView {
        TranscriptResponseView {
            text_blocks: stored_block_views(self.text_blocks@),
            structured_result: option_json_view(self.structured_result),
            remote_chat_id: option_view(self.remote_chat_id),
        }
    }
}

impl View for StoredSessionEntry {
    type V = EntryView;

    open spec fn view(&self) -> EntryView {
        EntryView {
            timestamp_ms: self.timestamp_ms,
            kind: match self.kind {
                StoredSessionEntryKind::Prompt { text } => EntryKindView::Prompt { text: text@ },
                StoredSessionEntryKind::Response(response) => EntryKindView::Response(response@),
                StoredSessionEntryKind::Error { message } => EntryKindView::Error {
                    message: message@,
                },
            },
        }
    }
}

pub open spec fn stored_entry_views(entries: Seq<StoredSessionEntry>) -> Seq<EntryView> {
    Seq::new(entries.len(), |i: int| entries[i]@)
}

impl View for StoredSession {
    type V = SessionView;

    /// The session that is stored, whether or not its IDs are valid.
    open spec fn view(&self) -> SessionView {
        SessionView {
            id: self.id@,
            started_at_ms: self.started_at_ms,
            updated_at_ms: self.updated_at_ms,
            status: match self.status {
                StoredSessionStatus::Active => SessionStatus::Active,
                StoredSessionStatus::Completed => SessionStatus::Completed,
            },
            resumed_from_session_id: option_view(self.resumed_from_session_id),
            entries: stored_entry_views(self.entries@),
        }
    }
}

/// The stored session can be read back: its IDs are session IDs.
pub open spec fn readable(session: SessionView) -> bool {
    &&& is_session_id(session.id)
    &&& session.resumed_from_session_id matches Some(origin) ==> is_session_id(origin)
}

impl StoredTranscriptResponse {
    fn from_response(response: &TranscriptResponse) -> (stored: Self)
        ensures
            stored@ == response@,
    {
        let mut text_blocks: Vec<StoredTextBlock> = Vec::new();
        let mut i: usize = 0;
        while i < response.text_blocks.len()
            invariant
                i <= response.text_blocks@.len(),
                text_blocks@.len() == i,
                forall|j: int|
                    0 <= j < i ==> (#[trigger] text_blocks@[j]).text@ == response.text_blocks@[j]@,
            decreases response.text_blocks@.len() - i,
        {
            text_blocks.push(StoredTextBlock { text: response.text_blocks[i].text.clone() });
            i += 1;
        }
        assert(stored_block_views(text_blocks@) =~= block_views(response.text_blocks@));
        StoredTranscriptResponse {
            text_blocks,
            structured_result: match &response.structured_result {
                Some(value) => Some(value.clone()),
                None => None,
            },
            remote_chat_id: copy_option(&response.remote_chat_id),
        }
    }

    fn to_response(&self) -> (response: TranscriptResponse)
        ensures
            response@ == self@,
    {
        let mut text_blocks: Vec<TextBlock> = Vec::new();
        let mut i: usize = 0;
        while i < self.text_blocks.len()
            invariant
                i <= self.text_blocks@.len(),
                text_blocks@.len() == i,
                forall|j: int|
                    0 <= j < i ==> (#[trigger] text_blocks@[j])@ == self.text_blocks@[j].text@,
            decreases self.text_blocks@.len() - i,
        {
            text_blocks.push(TextBlock { text: self.text_blocks[i].text.clone() });
            i += 1;
        }
        assert(block_views(text_blocks@) =~= stored_block_views(self.text_blocks@));
        TranscriptResponse {
            text_blocks,
            structured_result: match &self.structured_result {
                Some(value) => Some(value.clone()),
                None => None,
            },
            remote_chat_id: copy_option(&self.remote_chat_id),
        }
    }
}

impl StoredSessionEntry {
    fn from_entry(entry: &SessionEntry) -> (stored: Self)
        ensures
            stored@ == entry@,
    {
        StoredSessionEntry {
            timestamp_ms: entry.timestamp_ms(),
            kind: match entry.kind() {
                SessionEntryKind::Prompt { text } => StoredSessionEntryKind::Prompt {
                    text: text.clone(),
                },
                SessionEntryKind::Response(response) => StoredSessionEntryKind::Response(
                    StoredTranscriptResponse::from_response(response),
                ),
                SessionEntryKind::Error { message } => StoredSessionEntryKind::Error {
                    message: message.clone(),
                },
            },
        }
    }

    fn to_entry(&self) -> (entry: SessionEntry)
        ensures
            entry@ == self@,
    {
        let kind = match &self.kind {
            StoredSessionEntryKind::Prompt { text } => SessionEntryKind::Prompt {
                text: text.clone(),
            },
            StoredSessionEntryKind::Response(response) => SessionEntryKind::Response(
                response.to_response(),
            ),
            StoredSessionEntryKind::Error { message } => SessionEntryKind::Error {
                message: message.clone(),
            },
        };
        SessionEntry::new(self.timestamp_ms, kind)
    }
}

impl StoredSession {
    /// The form in which the session is stored.
    pub fn from_session(session: &Session) -> (stored: Self)
        ensures
            stored@ == session@,
            readable(stored@),
    {
        let sources = session.entries();
        let mut entries: Vec<StoredSessionEntry> = Vec::new();
        let mut i: usize = 0;
        while i < sources.len()
            invariant
                i <= sources@.len(),
                entries@.len() == i,
                forall|j: int| 0 <= j < i ==> (#[trigger] entries@[j])@ == sources@[j]@,
            decreases sources@.len() - i,
        {
            entries.push(StoredSessionEntry::from_entry(&sources[i]));
            i += 1;
        }
        assert(stored_entry_views(entries@) =~= session@.entries);
        let resumed_from_session_id = match session.resumed_from_session_id() {
            Some(id) => Some(id.text()),
            None => None,
        };
        StoredSession {
            id: session.id().text(),
            started_at_ms: session.started_at_ms(),
            updated_at_ms: session.updated_at_ms(),
            status: match session.status() {
                SessionStatus::Active => StoredSessionStatus::Active,
                SessionStatus::Completed => StoredSessionStatus::Completed,
            },
            resumed_from_session_id,
            entries,
        }
    }

    /// The session that is stored, if its IDs are session IDs.
    pub fn into_session(self) -> (session: Option<Session>)
        ensures
            match session {
                Some(session) => readable(self@) && session@ == self@,
                None => !readable(self@),
            },
    {
        let id = match SessionId::parse(self.id.as_str()) {
            Ok(id) => id,
            Err(_) => {
                return None;
            },
        };
        let resumed_from_session_id = match &self.resumed_from_session_id {
            Some(origin) => match SessionId::parse(origin.as_str()) {
                Ok(origin) => Some(origin),
                Err(_) => {
                    return None;
                },
            },
            None => None,
        };
        let mut entries: Vec<SessionEntry> = Vec::new();
        let mut i: usize = 0;
        while i < self.entries.len()
            invariant
                i <= self.entries@.len(),
                entries@.len() == i,
                forall|j: int| 0 <= j < i ==> (#[trigger] entries@[j])@ == self.entries@[j]@,
            decreases self.entries@.len() - i,
        {
            entries.push(self.entries[i].to_entry());
            i += 1;
        }
        assert(crate::session_history::entry_views(entries@) =~= self@.entries);
        let status = match self.status {
            StoredSessionStatus::Active => SessionStatus::Active,
            StoredSessionStatus::Completed => SessionStatus::Completed,
        };
        Some(
            Session::from_parts(
                id,
                self.started_at_ms,
                self.updated_at_ms,
                status,
                resumed_from_session_id,
                entries,
            ),
        )
    }
}

} // verus!

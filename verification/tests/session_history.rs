use adaptalk::json::JsonValue;
use adaptalk::redaction::Redactor;
use adaptalk::session_history::stored::{
    StoredSession, StoredSessionEntry, StoredSessionEntryKind, StoredSessionStatus,
};
use adaptalk::session_history::{
    DirectoryListing, HistoryError, LineageStep, RedactedText, RedactedTranscriptResponse, Session,
    SessionEntryKind, SessionHistory, SessionId, SessionStatus, SnapshotRead, WriteFailure,
};
use adaptalk::transcript::{TextBlock, TranscriptResponse};

/// A history whose snapshots are kept in memory.
struct Store {
    history: SessionHistory,
    saved: Vec<Session>,
    clock: u128,
}

impl Store {
    fn new(name: &str) -> Self {
        Store {
            history: SessionHistory::at(&format!("/tmp/adapt-tui-history-{name}")),
            saved: vec![],
            clock: 1000,
        }
    }

    fn tick(&mut self) -> u128 {
        self.clock += 1;
        self.clock
    }

    fn save(&mut self, session: &Session) -> Result<(), WriteFailure> {
        self.saved.retain(|saved| saved.id() != session.id());
        self.saved.push(session.clone());
        Ok(())
    }

    fn create(&mut self, origin: Option<SessionId>) -> Session {
        let now = self.tick();
        let id = SessionId::generate(now, 7, self.saved.len() as u64);
        let snapshot = self.history.creation_snapshot(&id, origin.as_ref(), now);
        let written = self.save(&snapshot);
        self.history
            .create_continuation(id, origin, now, written)
            .unwrap()
    }

    fn append_prompt(&mut self, session: &mut Session, text: RedactedText) {
        let now = self.tick();
        let snapshot = self.history.prompt_snapshot(session, &text, now);
        let written = self.save(&snapshot);
        self.history
            .append_prompt(session, text, now, written)
            .unwrap();
        assert_eq!(*session, snapshot);
    }

    fn append_response(&mut self, session: &mut Session, response: RedactedTranscriptResponse) {
        let now = self.tick();
        let snapshot = self.history.response_snapshot(session, &response, now);
        let written = self.save(&snapshot);
        self.history
            .append_response(session, response, now, written)
            .unwrap();
        assert_eq!(*session, snapshot);
    }

    fn append_error(&mut self, session: &mut Session, message: RedactedText) {
        let now = self.tick();
        let snapshot = self.history.error_snapshot(session, &message, now);
        let written = self.save(&snapshot);
        self.history
            .append_error(session, message, now, written)
            .unwrap();
        assert_eq!(*session, snapshot);
    }

    fn complete(&mut self, session: &mut Session) {
        let now = self.tick();
        let snapshot = self.history.completion_snapshot(session, now);
        let written = self.save(&snapshot);
        self.history.complete(session, now, written).unwrap();
        assert_eq!(*session, snapshot);
    }

    fn read(&self, path: &str) -> SnapshotRead {
        for session in &self.saved {
            if self.history.path_for(session.id()) == path {
                return SnapshotRead::Stored(StoredSession::from_session(session));
            }
        }
        SnapshotRead::Missing
    }

    fn load(&self, id: &str) -> Result<Session, HistoryError> {
        let path = self.history.locate(id)?;
        self.history.load(id, self.read(&path))
    }

    fn latest_remote_chat_id(&self, session: &Session) -> Result<Option<String>, HistoryError> {
        let mut ancestors = vec![];
        loop {
            match self.history.latest_remote_chat_id(session, &ancestors)? {
                LineageStep::Found(chat_id) => return Ok(chat_id),
                LineageStep::Origin(id) => ancestors.push(self.load(&id.text())?),
            }
        }
    }
}

fn text(text: &str) -> RedactedText {
    Redactor::default().transcript_text(text)
}

fn response(chat_id: Option<&str>) -> RedactedTranscriptResponse {
    Redactor::default().transcript_response(TranscriptResponse {
        text_blocks: vec![],
        structured_result: None,
        remote_chat_id: chat_id.map(str::to_owned),
    })
}

#[test]
fn snapshots_round_trip_and_active_sessions_are_recoverable() {
    let mut store = Store::new("round-trip");
    let mut session = store.create(None);
    store.append_prompt(&mut session, text("prompt"));
    store.append_response(
        &mut session,
        Redactor::default().transcript_response(TranscriptResponse {
            text_blocks: vec![TextBlock { text: "ok".into() }],
            structured_result: Some(JsonValue::Object(vec![(
                "answer".into(),
                JsonValue::Number("1".into()),
            )])),
            remote_chat_id: Some("chat-1".into()),
        }),
    );
    store.append_error(&mut session, text("failed"));
    let loaded = store.load(&session.id().text()).unwrap();
    assert_eq!(*loaded.status(), SessionStatus::Active);
    assert_eq!(loaded.entries().len(), 3);
    assert_eq!(loaded, session);
    assert_eq!(
        store.latest_remote_chat_id(&loaded).unwrap(),
        Some("chat-1".into())
    );
    store.complete(&mut session);
    assert_eq!(
        *store.load(&session.id().text()).unwrap().status(),
        SessionStatus::Completed
    );
}

#[test]
fn invalid_ids_cannot_escape_the_sessions_directory() {
    let store = Store::new("invalid-id");
    for id in ["../secret", "/tmp/other", "valid/other", "not-a-session"] {
        assert!(matches!(
            store.load(id),
            Err(HistoryError::InvalidId { .. })
        ));
        assert!(matches!(
            store.history.load(id, SnapshotRead::Missing),
            Err(HistoryError::InvalidId { .. })
        ));
    }
}

#[test]
fn missing_sessions_are_distinct_from_unreadable_sessions() {
    let store = Store::new("load-errors");
    assert!(matches!(
        store.load("1-2-3"),
        Err(HistoryError::NotFound { .. })
    ));
    assert!(matches!(
        store.history.load("1-2-3", SnapshotRead::Unreadable),
        Err(HistoryError::Read { .. })
    ));
}

#[test]
fn continuation_sessions_retain_their_origin() {
    let mut store = Store::new("continuation");
    let origin = SessionId::parse("1-2-3").unwrap();
    let session = store.create(Some(origin.clone()));
    let loaded = store.load(&session.id().text()).unwrap();
    assert_eq!(loaded.resumed_from_session_id(), Some(&origin));
}

#[test]
fn continuation_uses_the_latest_response_from_its_origin() {
    let mut store = Store::new("continuation-chat-id");
    let mut origin = store.create(None);
    store.append_response(&mut origin, response(Some("chat-1")));
    let continuation = store.create(Some(origin.id().clone()));
    assert_eq!(
        store.latest_remote_chat_id(&continuation).unwrap(),
        Some("chat-1".into())
    );
}

#[test]
fn response_without_a_chat_id_does_not_fall_back_to_the_origin() {
    let mut store = Store::new("continuation-empty-chat-id");
    let mut origin = store.create(None);
    store.append_response(&mut origin, response(Some("chat-1")));
    let mut continuation = store.create(Some(origin.id().clone()));
    store.append_response(&mut continuation, response(None));
    assert_eq!(store.latest_remote_chat_id(&continuation).unwrap(), None);
}

#[test]
fn cyclic_lineage_is_rejected() {
    let mut store = Store::new("cyclic-lineage");
    let first = store.create(None);
    let second = store.create(Some(first.id().clone()));
    let mut stored = StoredSession::from_session(&first);
    stored.resumed_from_session_id = Some(second.id().text());
    let first = stored.into_session().unwrap();
    store.save(&first).unwrap();

    assert!(matches!(
        store.latest_remote_chat_id(&second),
        Err(HistoryError::CyclicLineage { .. })
    ));
}

#[test]
fn the_first_response_in_a_long_lineage_decides() {
    let mut store = Store::new("long-lineage");
    let mut first = store.create(None);
    store.append_response(&mut first, response(Some("chat-1")));
    let mut last = first.id().clone();
    for _ in 0..5 {
        last = store.create(Some(last)).id().clone();
    }
    let session = store.load(&last.text()).unwrap();
    assert_eq!(
        store.latest_remote_chat_id(&session).unwrap(),
        Some("chat-1".into())
    );
    let orphan = store.create(Some(SessionId::parse("9-9-9").unwrap()));
    assert_eq!(
        store.latest_remote_chat_id(&orphan),
        Err(HistoryError::NotFound { id: "9-9-9".into() })
    );
    let fresh = store.create(None);
    assert_eq!(store.latest_remote_chat_id(&fresh), Ok(None));
}

#[test]
fn saving_an_entry_keeps_what_was_there() {
    let mut store = Store::new("append-only");
    let mut session = store.create(None);
    store.append_prompt(&mut session, text("one"));
    let before = session.clone();
    store.append_error(&mut session, text("two"));
    assert_eq!(session.entries()[..1], before.entries()[..]);
    assert_eq!(session.id(), before.id());
    assert_eq!(session.started_at_ms(), before.started_at_ms());
    assert!(session.updated_at_ms() > before.updated_at_ms());
    let base = format!("/tmp/adapt-tui-history-append-only/{}", session.id().text());
    assert_eq!(
        store.history.path_for(session.id()),
        format!("{base}.json")
    );
    assert_eq!(
        store.history.temporary_path_for(session.id(), 42),
        format!("{base}.42.tmp")
    );
}

#[test]
fn uses_a_sessions_sibling_not_the_credential_file() {
    assert_eq!(
        SessionHistory::for_credential_file("/tmp/.adapt/config.toml").directory(),
        "/tmp/.adapt/sessions"
    );
}

#[test]
fn credential_files_without_a_directory_have_a_local_history() {
    assert_eq!(
        SessionHistory::for_credential_file("config.toml").directory(),
        "sessions"
    );
    assert_eq!(
        SessionHistory::for_credential_file("/").directory(),
        "./sessions"
    );
}

#[test]
fn session_ids_are_three_numbers() {
    assert_eq!(SessionId::generate(17, 4, 0).text(), "17-4-0");
    assert_eq!(
        SessionId::generate(u128::MAX, u32::MAX, u64::MAX).text(),
        "340282366920938463463374607431768211455-4294967295-18446744073709551615"
    );
    assert_eq!(SessionId::parse("17-4-0").unwrap().text(), "17-4-0");
    for id in ["", "1-2", "1-2-3-4", "1--3", "1-2-x", "1-2-٣", "-1-2-3", "1-2-3 "] {
        assert_eq!(
            SessionId::parse(id),
            Err(HistoryError::InvalidId { id: id.into() })
        );
    }
}

#[test]
fn failed_writes_leave_the_session_as_it_was() {
    let mut store = Store::new("write-errors");
    let mut session = store.create(None);
    let before = session.clone();
    let path = store.history.path_for(session.id());
    assert_eq!(
        store
            .history
            .append_prompt(&mut session, text("p"), 9, Err(WriteFailure::Snapshot)),
        Err(HistoryError::Write { path: path.clone() })
    );
    assert_eq!(
        store
            .history
            .append_response(&mut session, response(None), 9, Err(WriteFailure::Directory)),
        Err(HistoryError::CreateDirectory {
            path: "/tmp/adapt-tui-history-write-errors".into()
        })
    );
    assert!(store
        .history
        .append_error(&mut session, text("e"), 9, Err(WriteFailure::Snapshot))
        .is_err());
    assert!(store
        .history
        .complete(&mut session, 9, Err(WriteFailure::Snapshot))
        .is_err());
    assert_eq!(session, before);
    assert_eq!(
        store.history.create(
            SessionId::parse("1-2-3").unwrap(),
            9,
            Err(WriteFailure::Snapshot)
        ),
        Err(HistoryError::Write {
            path: "/tmp/adapt-tui-history-write-errors/1-2-3.json".into()
        })
    );
    assert!(store
        .history
        .create(SessionId::parse("1-2-3").unwrap(), 9, Ok(()))
        .is_ok());
}

#[test]
fn stored_sessions_need_valid_ids() {
    let stored = |id: &str, origin: Option<&str>| StoredSession {
        id: id.into(),
        started_at_ms: 1,
        updated_at_ms: 2,
        status: StoredSessionStatus::Completed,
        resumed_from_session_id: origin.map(str::to_owned),
        entries: vec![StoredSessionEntry {
            timestamp_ms: 3,
            kind: StoredSessionEntryKind::Prompt { text: "p".into() },
        }],
    };
    let session = stored("1-2-3", Some("4-5-6")).into_session().unwrap();
    assert_eq!(session.entries()[0].timestamp_ms(), 3);
    assert_eq!(
        *session.entries()[0].kind(),
        SessionEntryKind::Prompt { text: "p".into() }
    );
    assert_eq!(
        StoredSession::from_session(&session),
        stored("1-2-3", Some("4-5-6"))
    );
    assert_eq!(stored("../x", None).into_session(), None);
    assert_eq!(stored("1-2-3", Some("../x")).into_session(), None);
    let history = SessionHistory::at("d");
    assert_eq!(
        history.load("1-2-3", SnapshotRead::Stored(stored("x", None))),
        Err(HistoryError::Malformed {
            path: "d/1-2-3.json".into()
        })
    );
    assert_eq!(
        history.load("1-2-3", SnapshotRead::Malformed),
        Err(HistoryError::Malformed {
            path: "d/1-2-3.json".into()
        })
    );
}

#[test]
fn listings_name_the_snapshots() {
    let history = SessionHistory::at("d");
    assert_eq!(history.session_files(DirectoryListing::Absent), Ok(vec![]));
    assert_eq!(
        history.session_files(DirectoryListing::Unreadable),
        Err(HistoryError::Read { path: "d".into() })
    );
    assert_eq!(
        history.session_files(DirectoryListing::Names(vec![
            "1-2-3.json".into(),
            ".json".into(),
            "1-2-3.7.tmp".into(),
            "json".into(),
            "x.json".into(),
        ])),
        Ok(vec!["d/1-2-3.json".to_owned(), "d/x.json".to_owned()])
    );
}

#[test]
fn listings_are_sorted_by_the_last_update() {
    let history = SessionHistory::at("d");
    let stored = |id: &str, updated_at_ms: u128| {
        (
            format!("d/{id}.json"),
            SnapshotRead::Stored(StoredSession {
                id: id.into(),
                started_at_ms: 0,
                updated_at_ms,
                status: StoredSessionStatus::Active,
                resumed_from_session_id: None,
                entries: vec![],
            }),
        )
    };
    let sessions = history
        .list(vec![
            stored("1-1-1", 5),
            stored("2-2-2", 9),
            stored("3-3-3", 5),
            stored("4-4-4", 7),
        ])
        .unwrap();
    let ids: Vec<String> = sessions.iter().map(|session| session.id().text()).collect();
    assert_eq!(ids, vec!["2-2-2", "4-4-4", "1-1-1", "3-3-3"]);
    assert_eq!(
        history.list(vec![
            stored("1-1-1", 5),
            ("d/gone.json".into(), SnapshotRead::Missing),
            ("d/bad.json".into(), SnapshotRead::Malformed),
        ]),
        Err(HistoryError::Read {
            path: "d/gone.json".into()
        })
    );
}

#[test]
fn history_errors_have_their_messages() {
    let p = || "p".to_owned();
    for (error, message) in [
        (
            HistoryError::CreateDirectory { path: p() },
            "could not create local session history at p",
        ),
        (
            HistoryError::Write { path: p() },
            "could not write local session history at p",
        ),
        (
            HistoryError::Read { path: p() },
            "could not read local session history at p",
        ),
        (
            HistoryError::NotFound { id: p() },
            "local session `p` was not found",
        ),
        (
            HistoryError::InvalidId { id: p() },
            "local session ID `p` is invalid",
        ),
        (
            HistoryError::Malformed { path: p() },
            "local session history at p is malformed",
        ),
        (
            HistoryError::CyclicLineage { id: p() },
            "local session history contains a cyclic lineage at session `p`",
        ),
    ] {
        assert_eq!(error.message(), message);
    }
}

#[test]
fn active_sessions_are_shown_as_interrupted() {
    assert_eq!(SessionStatus::Active.display_name(), "interrupted");
    assert_eq!(SessionStatus::Completed.display_name(), "completed");
}

#[test]
fn callers_see_what_is_on_disk() {
    let mut store = Store::new("staged");
    let mut session = store.create(None);
    store.append_prompt(&mut session, text("kept"));
    assert_eq!(store.load(&session.id().text()), Ok(session.clone()));
    let before = session.clone();
    assert!(store
        .history
        .append_prompt(
            &mut session,
            text("lost"),
            9000,
            Err(WriteFailure::Snapshot)
        )
        .is_err());
    assert_eq!(session, before);
    assert_eq!(store.load(&session.id().text()), Ok(session.clone()));
    store.complete(&mut session);
    assert_eq!(store.load(&session.id().text()), Ok(session));
}

#[test]
fn updates_carry_the_time_of_the_save() {
    let mut store = Store::new("update");
    let mut session = store.create(None);
    let before = session.clone();
    let candidate = store.history.completion_snapshot(&session, 5);
    assert!(store
        .history
        .update(
            &mut session,
            candidate.clone(),
            6000,
            Err(WriteFailure::Directory)
        )
        .is_err());
    assert_eq!(session, before);
    store
        .history
        .update(&mut session, candidate, 6000, Ok(()))
        .unwrap();
    assert_eq!(session.updated_at_ms(), 6000);
    assert_eq!(*session.status(), SessionStatus::Completed);
    store.save(&session).unwrap();
    assert_eq!(store.load(&session.id().text()), Ok(session));
}

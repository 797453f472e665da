use std::cell::RefCell;
use std::rc::Rc;

use adaptalk::conversation_controller::{
    Connection, ConversationController, ConversationError, PromptSubmission, SubmitOutcome,
};
use adaptalk::json::JsonValue;
use adaptalk::redaction::Redactor;
use adaptalk::session_history::stored::StoredSession;
use adaptalk::session_history::{
    HistoryError, LineageStep, Session, SessionEntryKind, SessionHistory, SessionId, SessionStatus,
    SnapshotRead, WriteFailure,
};
use adaptalk::transcript::{TextBlock, TranscriptResponse};

type Answer = Result<TranscriptResponse, String>;

#[derive(Clone)]
struct Query {
    prompts: Rc<RefCell<Vec<String>>>,
    calls: Rc<RefCell<Vec<Option<String>>>>,
    results: Rc<RefCell<Vec<Answer>>>,
}

impl Query {
    fn answering(results: Vec<Answer>) -> Self {
        Query {
            prompts: Rc::new(RefCell::new(vec![])),
            calls: Rc::new(RefCell::new(vec![])),
            results: Rc::new(RefCell::new(results)),
        }
    }

    fn query(&self, prompt: &str, continuation: Option<String>) -> Answer {
        self.prompts.borrow_mut().push(prompt.to_owned());
        self.calls.borrow_mut().push(continuation);
        self.results.borrow_mut().remove(0)
    }
}

/// A history whose snapshots are kept in memory, and whose directory can break.
struct Store {
    saved: Vec<Session>,
    broken: bool,
    breaks_on_answer: bool,
    clock: u128,
}

impl Store {
    fn new() -> Self {
        Store {
            saved: vec![],
            broken: false,
            breaks_on_answer: false,
            clock: 1000,
        }
    }

    fn tick(&mut self) -> u128 {
        self.clock += 1;
        self.clock
    }

    fn next_id(&mut self) -> SessionId {
        let now = self.tick();
        SessionId::generate(now, 7, self.saved.len() as u64)
    }

    fn save(&mut self, session: &Session) -> Result<(), WriteFailure> {
        if self.broken {
            return Err(WriteFailure::Directory);
        }
        self.saved.retain(|saved| saved.id() != session.id());
        self.saved.push(session.clone());
        Ok(())
    }

    fn save_option(&mut self, session: &Option<Session>) -> Result<(), WriteFailure> {
        match session {
            Some(session) => self.save(session),
            None => Ok(()),
        }
    }

    fn load(&self, history: &SessionHistory, id: &str) -> Result<Session, HistoryError> {
        for session in &self.saved {
            if session.id().text() == id {
                return history.load(
                    id,
                    SnapshotRead::Stored(StoredSession::from_session(session)),
                );
            }
        }
        history.load(id, SnapshotRead::Missing)
    }

    fn origin(&mut self, history: &SessionHistory, chat_id: Option<&str>) -> Session {
        let id = self.next_id();
        let now = self.tick();
        let mut session = history.create(id, now, Ok(())).unwrap();
        let answer = Redactor::default().transcript_response(response(chat_id));
        history
            .append_response(&mut session, answer, now, Ok(()))
            .unwrap();
        self.save(&session).unwrap();
        session
    }
}

type Controller = ConversationController<Query>;

fn history(name: &str) -> SessionHistory {
    SessionHistory::at(&format!("/tmp/adaptalk-controller-{name}"))
}

fn response(chat_id: Option<&str>) -> TranscriptResponse {
    TranscriptResponse {
        text_blocks: vec![TextBlock { text: "ok".into() }],
        structured_result: None,
        remote_chat_id: chat_id.map(str::to_owned),
    }
}

fn submission(prompt: &str) -> PromptSubmission {
    PromptSubmission::unchanged(prompt)
}

fn connect(
    controller: &mut Controller,
    store: &mut Store,
    query: Query,
    redactor: Redactor,
) -> Result<(), ConversationError> {
    let id = store.next_id();
    let now = store.tick();
    let snapshot = controller.connection_snapshot(&id, now);
    let written = store.save_option(&snapshot);
    controller.connect(Connection { query, redactor }, id, now, written)
}

fn open(
    controller: &mut Controller,
    store: &mut Store,
    session: Session,
) -> Result<Session, ConversationError> {
    let now = store.tick();
    let snapshot = controller.finish_snapshot(now)?;
    let written = store.save_option(&snapshot);
    controller.open(session, now, written)
}

fn finish(controller: &mut Controller, store: &mut Store) -> Result<(), ConversationError> {
    let now = store.tick();
    let snapshot = controller.finish_snapshot(now)?;
    let written = store.save_option(&snapshot);
    controller.finish(now, written)
}

fn retry(controller: &mut Controller, store: &mut Store) -> Result<bool, ConversationError> {
    let now = store.tick();
    let snapshot = controller.retry_snapshot(now)?;
    let written = store.save_option(&snapshot);
    controller.retry_pending_response(now, written)
}

fn submit(
    controller: &mut Controller,
    store: &mut Store,
    prompt: PromptSubmission,
) -> Result<SubmitOutcome, ConversationError> {
    let now = store.tick();
    let snapshot = controller.submission_snapshot(&prompt, now)?;
    let written = store.save(&snapshot);
    controller.submit(&prompt, now, written)?;
    let mut ancestors = vec![];
    let continuation = loop {
        match controller.continuation(&ancestors)? {
            LineageStep::Found(chat_id) => break chat_id,
            LineageStep::Origin(id) => ancestors.push(
                store
                    .load(controller.history(), &id.text())
                    .map_err(ConversationError::History)?,
            ),
        }
    };
    let answer = controller
        .query()
        .unwrap()
        .query(prompt.outbound(), continuation);
    store.broken = store.broken || store.breaks_on_answer;
    let now = store.tick();
    let snapshot = controller.answer_snapshot(&answer, now)?;
    let written = store.save(&snapshot);
    controller.complete_submission(answer, now, written)
}

#[test]
fn continuation_failure_drops_the_continuation_for_subsequent_prompts() {
    let history = history("continuation-failure");
    let mut store = Store::new();
    let origin = store.origin(&history, Some("chat-1"));
    let mut controller = Controller::new(history);
    open(&mut controller, &mut store, origin).unwrap();
    let query = Query::answering(vec![Err("session expired".into()), Ok(response(None))]);
    let calls = query.calls.clone();
    connect(&mut controller, &mut store, query, Redactor::default()).unwrap();
    assert!(matches!(
        submit(&mut controller, &mut store, submission("first")).unwrap(),
        SubmitOutcome::ContinuationFailed { .. }
    ));
    assert!(matches!(
        submit(&mut controller, &mut store, submission("second")).unwrap(),
        SubmitOutcome::Response(_)
    ));
    assert_eq!(*calls.borrow(), vec![Some("chat-1".into()), None]);
}

#[test]
fn query_failure_without_continuation_is_a_plain_error() {
    let mut store = Store::new();
    let mut controller = Controller::new(history("plain-error"));
    let query = Query::answering(vec![Err("network error".into())]);
    connect(&mut controller, &mut store, query, Redactor::default()).unwrap();
    assert_eq!(
        submit(&mut controller, &mut store, submission("prompt")),
        Err(ConversationError::Query("network error".into()))
    );
}

#[test]
fn opening_history_then_connecting_creates_a_local_continuation() {
    let history = history("open");
    let mut store = Store::new();
    let origin = store.origin(&history, Some("chat-1"));
    let mut controller = Controller::new(history);
    open(&mut controller, &mut store, origin.clone()).unwrap();
    let query = Query::answering(vec![Ok(response(None)), Ok(response(None))]);
    let calls = query.calls.clone();
    connect(&mut controller, &mut store, query, Redactor::default()).unwrap();
    submit(&mut controller, &mut store, submission("next")).unwrap();
    submit(
        &mut controller,
        &mut store,
        submission("after missing chat ID"),
    )
    .unwrap();
    assert!(store
        .saved
        .iter()
        .any(|session| session.resumed_from_session_id() == Some(origin.id())));
    assert_eq!(*calls.borrow(), vec![Some("chat-1".into()), None]);
}

#[test]
fn failed_query_is_persisted_and_the_connection_remains_usable() {
    let mut store = Store::new();
    let mut controller = Controller::new(history("error"));
    let query = Query::answering(vec![Err("offline".into())]);
    connect(&mut controller, &mut store, query, Redactor::default()).unwrap();
    assert!(submit(&mut controller, &mut store, submission("prompt")).is_err());
    assert!(!controller.needs_connection());
    assert!(store.saved.iter().any(|session| session
        .entries()
        .iter()
        .any(|entry| matches!(entry.kind(), SessionEntryKind::Error { .. }))));
}

#[test]
fn opening_history_retains_the_history_view() {
    let history = history("failed-connect");
    let mut store = Store::new();
    let opened = store.origin(&history, None);
    let mut controller = Controller::new(history);
    assert_eq!(
        open(&mut controller, &mut store, opened.clone()).unwrap().id(),
        opened.id()
    );
    assert_eq!(
        controller.viewing_session().map(Session::id),
        Some(opened.id())
    );
}

#[test]
fn persists_original_prompt_while_submitting_outbound_prompt() {
    let mut store = Store::new();
    let mut controller = Controller::new(history("outbound-prompt"));
    let query = Query::answering(vec![Ok(response(None))]);
    let prompts = query.prompts.clone();
    connect(&mut controller, &mut store, query, Redactor::default()).unwrap();

    submit(
        &mut controller,
        &mut store,
        PromptSubmission::expanded(
            "review @notes.md",
            "review <file path=\"@notes.md\">\nnotes\n</file>".into(),
        ),
    )
    .unwrap();

    assert_eq!(
        *prompts.borrow(),
        vec!["review <file path=\"@notes.md\">\nnotes\n</file>"]
    );
    assert!(store.saved.iter().any(|session| {
        session.entries().iter().any(|entry| {
            matches!(
                entry.kind(),
                SessionEntryKind::Prompt { text } if text == "review @notes.md"
            )
        })
    }));
}

#[test]
fn remote_success_with_a_history_write_failure_is_not_an_error() {
    let mut store = Store::new();
    store.breaks_on_answer = true;
    let mut controller = Controller::new(history("response-save-failure"));
    let query = Query::answering(vec![Ok(response(Some("chat-1")))]);
    connect(&mut controller, &mut store, query, Redactor::default()).unwrap();
    assert!(matches!(
        submit(&mut controller, &mut store, submission("prompt")).unwrap(),
        SubmitOutcome::ResponseWithPersistenceWarning { .. }
    ));
    assert!(submit(&mut controller, &mut store, submission("another prompt")).is_err());
    assert!(finish(&mut controller, &mut store).is_err());
    assert!(controller.abandon_pending_response().unwrap());
}

#[test]
fn continuation_is_derived_from_the_latest_transcript_response() {
    let mut store = Store::new();
    let mut controller = Controller::new(history("continuation"));
    let query = Query::answering(vec![
        Ok(response(Some("chat-1"))),
        Ok(response(Some("chat-2"))),
    ]);
    let calls = query.calls.clone();
    connect(&mut controller, &mut store, query, Redactor::default()).unwrap();
    submit(&mut controller, &mut store, submission("first")).unwrap();
    submit(&mut controller, &mut store, submission("second")).unwrap();
    assert_eq!(*calls.borrow(), vec![None, Some("chat-1".into())]);
}

#[test]
fn controller_redacts_query_responses_before_display_and_persistence() {
    let secret = "top-secret";
    let mut store = Store::new();
    let mut controller = Controller::new(history("response-redaction"));
    let query = Query::answering(vec![Ok(TranscriptResponse {
        text_blocks: vec![TextBlock {
            text: format!("Bearer {secret}"),
        }],
        structured_result: Some(JsonValue::Object(vec![(
            "token".into(),
            JsonValue::String(secret.into()),
        )])),
        remote_chat_id: Some(secret.into()),
    })]);
    connect(&mut controller, &mut store, query, Redactor::new(secret)).unwrap();

    let SubmitOutcome::Response(display) =
        submit(&mut controller, &mut store, submission("prompt")).unwrap()
    else {
        panic!("response persistence should succeed");
    };
    assert!(!format!("{display:?}").contains(secret));
    assert!(!format!("{:?}", store.saved).contains(secret));
}

#[test]
fn finishing_disconnects_before_another_prompt_can_be_appended() {
    let mut store = Store::new();
    let mut controller = Controller::new(history("finish-disconnects"));
    let query = Query::answering(vec![Ok(response(Some("chat-1")))]);
    connect(&mut controller, &mut store, query, Redactor::default()).unwrap();
    submit(&mut controller, &mut store, submission("first")).unwrap();
    finish(&mut controller, &mut store).unwrap();

    assert!(controller.needs_connection());
    assert!(submit(&mut controller, &mut store, submission("second")).is_err());
    assert!(store
        .saved
        .iter()
        .all(|session| session.status() == &SessionStatus::Completed));
}

#[test]
fn failed_finish_keeps_the_active_session_submittable() {
    let mut store = Store::new();
    let mut controller = Controller::new(history("failed-finish"));
    let query = Query::answering(vec![
        Ok(response(Some("chat-1"))),
        Ok(response(Some("chat-2"))),
    ]);
    connect(&mut controller, &mut store, query, Redactor::default()).unwrap();
    submit(&mut controller, &mut store, submission("first")).unwrap();

    store.broken = true;
    assert!(finish(&mut controller, &mut store).is_err());
    store.broken = false;

    submit(&mut controller, &mut store, submission("second")).unwrap();
    assert!(store
        .saved
        .iter()
        .all(|session| session.status() == &SessionStatus::Active));
}

#[test]
fn a_failed_connection_leaves_the_view_intact() {
    let history = history("failed-connection");
    let mut store = Store::new();
    let opened = store.origin(&history, Some("chat-1"));
    let mut controller = Controller::new(history);
    open(&mut controller, &mut store, opened.clone()).unwrap();
    store.broken = true;
    assert_eq!(
        connect(
            &mut controller,
            &mut store,
            Query::answering(vec![]),
            Redactor::default()
        ),
        Err(ConversationError::History(HistoryError::CreateDirectory {
            path: "/tmp/adaptalk-controller-failed-connection".into()
        }))
    );
    assert_eq!(controller.viewing_session(), Some(&opened));
    assert_eq!(
        controller.viewing_continuation(&vec![]),
        Ok(LineageStep::Found(Some("chat-1".into())))
    );
}

#[test]
fn an_unsaved_response_can_be_saved_later() {
    let mut store = Store::new();
    store.breaks_on_answer = true;
    let mut controller = Controller::new(history("retry"));
    let query = Query::answering(vec![Ok(response(Some("chat-1")))]);
    connect(&mut controller, &mut store, query, Redactor::default()).unwrap();
    submit(&mut controller, &mut store, submission("prompt")).unwrap();
    assert!(matches!(
        retry(&mut controller, &mut store),
        Err(ConversationError::History(_))
    ));
    store.broken = false;
    assert_eq!(retry(&mut controller, &mut store), Ok(true));
    assert_eq!(retry(&mut controller, &mut store), Ok(false));
    assert_eq!(store.saved[0].entries().len(), 2);
    finish(&mut controller, &mut store).unwrap();
}

#[test]
fn the_token_stays_out_of_the_conversation() {
    let mut store = Store::new();
    store.breaks_on_answer = true;
    let mut controller = Controller::new(history("token"));
    let query = Query::answering(vec![Ok(response(Some("chat-sesame"))), Err("sesame!".into())]);
    let prompts = query.prompts.clone();
    connect(&mut controller, &mut store, query, Redactor::new("sesame")).unwrap();
    submit(&mut controller, &mut store, submission("open sesame")).unwrap();
    store.broken = false;
    store.breaks_on_answer = false;
    assert_eq!(retry(&mut controller, &mut store), Ok(true));
    assert!(submit(&mut controller, &mut store, submission("again")).is_ok());
    assert_eq!(*prompts.borrow(), vec!["open sesame", "again"]);
    let saved = format!("{:?}", store.saved);
    assert!(!saved.contains("sesame"));
    assert!(saved.contains("open [redacted credential]"));
    assert!(saved.contains("chat-[redacted credential]"));
    assert!(saved.contains("[redacted credential]!"));
}

#[test]
fn errors_that_cannot_be_saved_are_warnings() {
    let history = history("error-warnings");
    let mut store = Store::new();
    let origin = store.origin(&history, Some("chat-1"));
    let mut controller = Controller::new(history);
    open(&mut controller, &mut store, origin).unwrap();
    store.breaks_on_answer = true;
    let query = Query::answering(vec![Err("expired".into()), Err("offline".into())]);
    connect(&mut controller, &mut store, query, Redactor::default()).unwrap();
    assert!(matches!(
        submit(&mut controller, &mut store, submission("first")).unwrap(),
        SubmitOutcome::ContinuationFailedWithPersistenceWarning { .. }
    ));
    store.broken = false;
    assert!(matches!(
        submit(&mut controller, &mut store, submission("second")).unwrap(),
        SubmitOutcome::ErrorWithPersistenceWarning { .. }
    ));
}

#[test]
fn a_plain_failure_keeps_the_continuation_state() {
    let mut store = Store::new();
    let mut controller = Controller::new(history("plain-failure"));
    let query = Query::answering(vec![
        Err("offline".into()),
        Ok(response(Some("chat-1"))),
        Ok(response(None)),
    ]);
    let calls = query.calls.clone();
    connect(&mut controller, &mut store, query, Redactor::default()).unwrap();
    assert!(submit(&mut controller, &mut store, submission("first")).is_err());
    submit(&mut controller, &mut store, submission("second")).unwrap();
    submit(&mut controller, &mut store, submission("third")).unwrap();
    assert_eq!(*calls.borrow(), vec![None, None, Some("chat-1".into())]);
}

#[test]
fn transitions_need_their_state() {
    let mut controller = Controller::new(history("states"));
    assert_eq!(
        controller.viewing_continuation(&vec![]),
        Err(ConversationError::NothingOpen)
    );
    assert_eq!(
        controller.retry_pending_response(1, Ok(())),
        Err(ConversationError::RetryWithoutConnection)
    );
    assert_eq!(
        controller.abandon_pending_response(),
        Err(ConversationError::AbandonWithoutConnection)
    );
    assert_eq!(
        controller.submit(&submission("p"), 1, Ok(())),
        Err(ConversationError::SubmitWithoutConnection)
    );
    assert_eq!(controller.finish(1, Ok(())), Ok(()));
    assert!(controller.query().is_none());
}

#[test]
fn connecting_twice_keeps_the_conversation() {
    let mut store = Store::new();
    let mut controller = Controller::new(history("twice"));
    connect(
        &mut controller,
        &mut store,
        Query::answering(vec![]),
        Redactor::new("first"),
    )
    .unwrap();
    connect(
        &mut controller,
        &mut store,
        Query::answering(vec![]),
        Redactor::new("second"),
    )
    .unwrap();
    assert_eq!(store.saved.len(), 1);
    assert_eq!(
        controller.redact("first second"),
        "[redacted credential] second"
    );
}

#[test]
fn conversation_errors_have_their_messages() {
    for (error, message) in [
        (
            ConversationError::NothingOpen,
            "no session is open for viewing",
        ),
        (
            ConversationError::UnsavedOnFinish,
            "the last remote response is not persisted; retry persistence or abandon it before finishing",
        ),
        (
            ConversationError::RetryWithoutConnection,
            "a connection is required before retrying persistence",
        ),
        (
            ConversationError::AbandonWithoutConnection,
            "a connection is required before abandoning persistence",
        ),
        (
            ConversationError::SubmitWithoutConnection,
            "a connection is required before submitting a prompt",
        ),
        (
            ConversationError::UnsavedOnSubmit,
            "the previous remote response could not be saved; retry persistence or abandon this session before submitting again",
        ),
        (
            ConversationError::History(HistoryError::NotFound { id: "1-2-3".into() }),
            "local session `1-2-3` was not found",
        ),
        (ConversationError::Query("offline".into()), "offline"),
    ] {
        assert_eq!(error.message(), message);
    }
}

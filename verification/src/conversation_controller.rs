//! State transitions for local Adapt conversations, independent of connection setup.
//!
//! Saving a session and asking Adapt are left to the caller. A transition that saves comes with a
//! `*_snapshot` function, which gives the session to write; the transition itself takes the
//! outcome of the write. A prompt is submitted in four steps: `submit` records it, `continuation`
//! finds the remote conversation to continue and remembers it, the caller asks Adapt, and
//! `complete_submission` records the answer.

use vstd::prelude::*;
use vstd::string::*;

use crate::redaction::{
    overlaps, redacted_response_hides_the_token, redacted_text_hides_the_token, response_redacted,
    json_is_free_of, text_redacted, Redactor,
};
use crate::session_history::{
    completed, entries_are_only_appended, first_response_in_the_lineage_decides,
    history_error_message, is_revisited, latest_response, lineage, lineage_from, new_session,
    only_responses_change_the_conversation, own_response_decides, session_views,
    the_most_recent_response_counts, with_entry, write_error, EntryKindView, HistoryError,
    HistoryErrorView, LineageStep,
    LineageStepView, RedactedTranscriptResponse, Session, SessionHistory, SessionId, SessionStatus,
    SessionView, WriteFailure,
};
use crate::text::{contains, option_view};
use crate::transcript::{copy_option, TranscriptResponse, TranscriptResponseView};

verus! {

/// One Chat Prompt in its two intentional forms: the user's input for Local Adapt History and the
/// resolved message sent to Adapt.
#[derive(Debug, PartialEq, Eq)]
pub struct PromptSubmission {
    original: String,
    outbound: String,
}

/// The mathematical counterpart of `PromptSubmission`.
pub struct PromptSubmissionView {
    pub original: Seq<char>,
    pub outbound: Seq<char>,
}

impl View for PromptSubmission {
    type V = PromptSubmissionView;

    closed spec fn view(&self) -> PromptSubmissionView {
        PromptSubmissionView { original: self.original@, outbound: self.outbound@ }
    }
}

impl PromptSubmission {
    /// A prompt that is sent as the user typed it.
    pub fn unchanged(prompt: &str) -> (submission: Self)
        ensures
            submission@ == (PromptSubmissionView { original: prompt@, outbound: prompt@ }),
    {
        PromptSubmission { original: prompt.to_owned(), outbound: prompt.to_owned() }
    }

    /// A prompt that is sent in another form than the user typed it.
    pub fn expanded(original: &str, outbound: String) -> (submission: Self)
        ensures
            submission@ == (PromptSubmissionView { original: original@, outbound: outbound@ }),
    {
        PromptSubmission { original: original.to_owned(), outbound }
    }

    pub fn outbound(&self) -> (outbound: &str)
        ensures
            outbound@ == self@.outbound,
    {
        self.outbound.as_str()
    }
}

/// What is needed to talk to an already-connected service.
pub struct Connection<Q> {
    pub query: Q,
    pub redactor: Redactor,
}

/// What became of a submitted prompt.
#[derive(Debug, PartialEq, Eq)]
#[allow(inconsistent_fields)]
pub enum SubmitOutcome {
    Response(TranscriptResponse),
    ResponseWithPersistenceWarning { response: TranscriptResponse, error: HistoryError },
    ErrorWithPersistenceWarning { error: String, persistence_error: HistoryError },
    /// The remote continuation attempt failed; the continuation has been dropped and subsequent
    /// prompts will start a fresh Adapt session.
    ContinuationFailed { error: String },
    ContinuationFailedWithPersistenceWarning { error: String, persistence_error: HistoryError },
}

/// The mathematical counterpart of `SubmitOutcome`.
#[allow(inconsistent_fields)]
pub enum SubmitOutcomeView {
    Response(TranscriptResponseView),
    ResponseWithPersistenceWarning { response: TranscriptResponseView, error: HistoryErrorView },
    ErrorWithPersistenceWarning { error: Seq<char>, persistence_error: HistoryErrorView },
    ContinuationFailed { error: Seq<char> },
    ContinuationFailedWithPersistenceWarning {
        error: Seq<char>,
        persistence_error: HistoryErrorView,
    },
}

impl View for SubmitOutcome {
    type V = SubmitOutcomeView;

    open spec fn view(&self) -> SubmitOutcomeView {
        match self {
            SubmitOutcome::Response(response) => SubmitOutcomeView::Response(response@),
            SubmitOutcome::ResponseWithPersistenceWarning { response, error } =>
                SubmitOutcomeView::ResponseWithPersistenceWarning {
                response: response@,
                error: error@,
            },
            SubmitOutcome::ErrorWithPersistenceWarning { error, persistence_error } =>
                SubmitOutcomeView::ErrorWithPersistenceWarning {
                error: error@,
                persistence_error: persistence_error@,
            },
            SubmitOutcome::ContinuationFailed { error } => SubmitOutcomeView::ContinuationFailed {
                error: error@,
            },
            SubmitOutcome::ContinuationFailedWithPersistenceWarning { error, persistence_error } =>
                SubmitOutcomeView::ContinuationFailedWithPersistenceWarning {
                error: error@,
                persistence_error: persistence_error@,
            },
        }
    }
}

/// Why a transition was refused or failed.
#[derive(Debug, PartialEq, Eq)]
pub enum ConversationError {
    NothingOpen,
    UnsavedOnFinish,
    RetryWithoutConnection,
    AbandonWithoutConnection,
    SubmitWithoutConnection,
    UnsavedOnSubmit,
    History(HistoryError),
    Query(String),
}

/// The mathematical counterpart of `ConversationError`.
pub enum ConversationErrorView {
    NothingOpen,
    UnsavedOnFinish,
    RetryWithoutConnection,
    AbandonWithoutConnection,
    SubmitWithoutConnection,
    UnsavedOnSubmit,
    History(HistoryErrorView),
    Query(Seq<char>),
}

impl View for ConversationError {
    type V = ConversationErrorView;

    open spec fn view(&self) -> ConversationErrorView {
        match self {
            ConversationError::NothingOpen => ConversationErrorView::NothingOpen,
            ConversationError::UnsavedOnFinish => ConversationErrorView::UnsavedOnFinish,
            ConversationError::RetryWithoutConnection =>
                ConversationErrorView::RetryWithoutConnection,
            ConversationError::AbandonWithoutConnection =>
                ConversationErrorView::AbandonWithoutConnection,
            ConversationError::SubmitWithoutConnection =>
                ConversationErrorView::SubmitWithoutConnection,
            ConversationError::UnsavedOnSubmit => ConversationErrorView::UnsavedOnSubmit,
            ConversationError::History(error) => ConversationErrorView::History(error@),
            ConversationError::Query(error) => ConversationErrorView::Query(error@),
        }
    }
}

/// The message that an error shows.
pub open spec fn conversation_error_message(error: ConversationErrorView) -> Seq<char> {
    match error {
        ConversationErrorView::NothingOpen => "no session is open for viewing"@,
        ConversationErrorView::UnsavedOnFinish =>
            "the last remote response is not persisted; retry persistence or abandon it before finishing"@,
        ConversationErrorView::RetryWithoutConnection =>
            "a connection is required before retrying persistence"@,
        ConversationErrorView::AbandonWithoutConnection =>
            "a connection is required before abandoning persistence"@,
        ConversationErrorView::SubmitWithoutConnection =>
            "a connection is required before submitting a prompt"@,
        ConversationErrorView::UnsavedOnSubmit =>
            "the previous remote response could not be saved; retry persistence or abandon this session before submitting again"@,
        ConversationErrorView::History(error) => history_error_message(error),
        ConversationErrorView::Query(error) => error,
    }
}

impl ConversationError {
    /// The message shown to the user.
    pub fn message(&self) -> (text: String)
        ensures
            text@ == conversation_error_message(self@),
    {
        match self {
            ConversationError::NothingOpen => "no session is open for viewing".to_owned(),
            ConversationError::UnsavedOnFinish =>
                "the last remote response is not persisted; retry persistence or abandon it before finishing".to_owned(),
            ConversationError::RetryWithoutConnection =>
                "a connection is required before retrying persistence".to_owned(),
            ConversationError::AbandonWithoutConnection =>
                "a connection is required before abandoning persistence".to_owned(),
            ConversationError::SubmitWithoutConnection =>
                "a connection is required before submitting a prompt".to_owned(),
            ConversationError::UnsavedOnSubmit =>
                "the previous remote response could not be saved; retry persistence or abandon this session before submitting again".to_owned(),
            ConversationError::History(error) => error.message(),
            ConversationError::Query(error) => error.clone(),
        }
    }
}

struct ActiveConversation<Q> {
    query: Q,
    session: Session,
    pending_response: Option<RedactedTranscriptResponse>,
    continuation: Option<String>,
    continuation_exhausted: bool,
}

enum ConversationState<Q> {
    Disconnected,
    ViewingHistory(Session),
    Connected(ActiveConversation<Q>),
}

/// The mathematical counterpart of an active conversation.
pub struct ActiveView<Q> {
    pub query: Q,
    pub session: SessionView,
    /// The one response that was received and not saved.
    pub pending_response: Option<TranscriptResponseView>,
    /// The remote conversation that the submitted prompt continues.
    pub continuation: Option<Seq<char>>,
    /// A continuation was refused, so no prompt attempts one again.
    pub continuation_exhausted: bool,
}

/// The mathematical counterpart of a conversation's state.
pub enum StateView<Q> {
    Disconnected,
    ViewingHistory(SessionView),
    Connected(ActiveView<Q>),
}

/// The mathematical counterpart of `ConversationController`.
pub struct ControllerView<Q> {
    pub state: StateView<Q>,
    /// The sessions directory.
    pub history: Seq<char>,
    /// The token that is redacted.
    pub token: Seq<char>,
}

/// The conversation of one terminal: what is open, what is connected and what is still unsaved.
pub struct ConversationController<Q> {
    state: ConversationState<Q>,
    history: SessionHistory,
    redactor: Redactor,
}

spec fn pending_view(response: Option<RedactedTranscriptResponse>) -> Option<
    TranscriptResponseView,
> {
    match response {
        Some(response) => Some(response@),
        None => None,
    }
}

impl<Q> ConversationController<Q> {
    pub closed spec fn model(self) -> ControllerView<Q> {
        ControllerView {
            state: match self.state {
                ConversationState::Disconnected => StateView::Disconnected,
                ConversationState::ViewingHistory(session) => StateView::ViewingHistory(session@),
                ConversationState::Connected(active) => StateView::Connected(
                    ActiveView {
                        query: active.query,
                        session: active.session@,
                        pending_response: pending_view(active.pending_response),
                        continuation: option_view(active.continuation),
                        continuation_exhausted: active.continuation_exhausted,
                    },
                ),
            },
            history: self.history@,
            token: self.redactor@,
        }
    }
}

impl<Q> View for ConversationController<Q> {
    type V = ControllerView<Q>;

    open spec fn view(&self) -> ControllerView<Q> {
        self.model()
    }
}

/// The conversation after its active part has changed.
pub open spec fn with_active<Q>(
    controller: ControllerView<Q>,
    active: ActiveView<Q>,
) -> ControllerView<Q> {
    ControllerView { state: StateView::Connected(active), ..controller }
}

/// The session that a new connection would continue.
pub open spec fn origin<Q>(state: StateView<Q>) -> Option<Seq<char>> {
    match state {
        StateView::ViewingHistory(session) => Some(session.id),
        _ => None,
    }
}

/// The conversation that starts with a connection.
pub open spec fn connected<Q>(
    controller: ControllerView<Q>,
    query: Q,
    token: Seq<char>,
    id: Seq<char>,
    now: u128,
) -> ControllerView<Q> {
    ControllerView {
        state: StateView::Connected(
            ActiveView {
                query,
                session: new_session(id, origin(controller.state), now),
                pending_response: None,
                continuation: None,
                continuation_exhausted: false,
            },
        ),
        token,
        ..controller
    }
}

/// What an answer of Adapt leaves in the session: the redacted response or the redacted error.
pub open spec fn answer_entry(
    answer: Result<TranscriptResponseView, Seq<char>>,
    token: Seq<char>,
) -> EntryKindView {
    match answer {
        Ok(response) => EntryKindView::Response(response_redacted(response, token)),
        Err(error) => EntryKindView::Error { message: text_redacted(error, token) },
    }
}

pub open spec fn answer_view(answer: Result<TranscriptResponse, String>) -> Result<
    TranscriptResponseView,
    Seq<char>,
> {
    match answer {
        Ok(response) => Ok(response@),
        Err(error) => Err(error@),
    }
}

/// The active conversation once an answer is recorded, or once recording it has failed: a response
/// that could not be saved is kept, and a failed continuation is not tried again.
pub open spec fn answered<Q>(
    active: ActiveView<Q>,
    answer: Result<TranscriptResponseView, Seq<char>>,
    token: Seq<char>,
    now: u128,
    written: Result<(), WriteFailure>,
) -> ActiveView<Q> {
    ActiveView {
        query: active.query,
        session: if written is Ok {
            with_entry(active.session, answer_entry(answer, token), now)
        } else {
            active.session
        },
        pending_response: match answer {
            Ok(response) if written is Err => Some(response_redacted(response, token)),
            _ => active.pending_response,
        },
        continuation: None,
        continuation_exhausted: active.continuation_exhausted || (answer is Err
            && active.continuation is Some),
    }
}

/// What the caller learns of an answer. `used_continuation` says whether the prompt continued a
/// remote conversation.
pub open spec fn answer_outcome(
    answer: Result<TranscriptResponseView, Seq<char>>,
    used_continuation: bool,
    token: Seq<char>,
    written: Result<(), HistoryErrorView>,
) -> Result<SubmitOutcomeView, ConversationErrorView> {
    match (answer, written) {
        (Ok(response), Ok(_)) => Ok(
            SubmitOutcomeView::Response(response_redacted(response, token)),
        ),
        (Ok(response), Err(error)) => Ok(
            SubmitOutcomeView::ResponseWithPersistenceWarning {
                response: response_redacted(response, token),
                error,
            },
        ),
        (Err(error), Ok(_)) => if used_continuation {
            Ok(SubmitOutcomeView::ContinuationFailed { error })
        } else {
            Err(ConversationErrorView::Query(error))
        },
        (Err(error), Err(persistence_error)) => if used_continuation {
            Ok(
                SubmitOutcomeView::ContinuationFailedWithPersistenceWarning {
                    error,
                    persistence_error,
                },
            )
        } else {
            Ok(SubmitOutcomeView::ErrorWithPersistenceWarning { error, persistence_error })
        },
    }
}

pub open spec fn written_view(
    history: Seq<char>,
    id: Seq<char>,
    written: Result<(), WriteFailure>,
) -> Result<(), HistoryErrorView> {
    match written {
        Ok(_) => Ok(()),
        Err(failure) => Err(write_error(history, id, failure)),
    }
}

pub open spec fn outcome_view(outcome: Result<SubmitOutcome, ConversationError>) -> Result<
    SubmitOutcomeView,
    ConversationErrorView,
> {
    match outcome {
        Ok(outcome) => Ok(outcome@),
        Err(error) => Err(error@),
    }
}

/// The active conversation once the search for the remote conversation to continue got this far:
/// what is found is remembered.
pub open spec fn continuing<Q>(
    active: ActiveView<Q>,
    step: Result<LineageStepView, ConversationErrorView>,
) -> ActiveView<Q> {
    match step {
        Ok(LineageStepView::Found(continuation)) => ActiveView { continuation, ..active },
        _ => active,
    }
}

/// The remote conversation that the next prompt continues.
pub open spec fn next_continuation<Q>(
    active: ActiveView<Q>,
    ancestors: Seq<SessionView>,
) -> Result<LineageStepView, ConversationErrorView> {
    if active.continuation_exhausted {
        Ok(LineageStepView::Found(None))
    } else {
        match lineage(seq![active.session] + ancestors) {
            Ok(step) => Ok(step),
            Err(error) => Err(ConversationErrorView::History(error)),
        }
    }
}

pub open spec fn continuation_view(step: Result<LineageStep, ConversationError>) -> Result<
    LineageStepView,
    ConversationErrorView,
> {
    match step {
        Ok(step) => Ok(step@),
        Err(error) => Err(error@),
    }
}

fn wrap_step(step: Result<LineageStep, HistoryError>) -> (wrapped: Result<
    LineageStep,
    ConversationError,
>)
    ensures
        match step {
            Ok(step) => wrapped == Ok::<LineageStep, ConversationError>(step),
            Err(error) => wrapped == Err::<LineageStep, ConversationError>(
                ConversationError::History(error),
            ),
        },
{
    match step {
        Ok(step) => Ok(step),
        Err(error) => Err(ConversationError::History(error)),
    }
}

impl<Q> ConversationController<Q> {
    pub fn new(history: SessionHistory) -> (controller: Self)
        ensures
            controller@ == (ControllerView {
                state: StateView::<Q>::Disconnected,
                history: history@,
                token: Seq::empty(),
            }),
    {
        ConversationController {
            state: ConversationState::Disconnected,
            history,
            redactor: Redactor::default(),
        }
    }

    pub fn history(&self) -> (history: &SessionHistory)
        ensures
            history@ == self@.history,
    {
        &self.history
    }

    /// Redact terminal-only values that arise outside a submitted transcript.
    pub fn redact(&self, value: &str) -> (redacted: String)
        ensures
            redacted@ == text_redacted(value@, self@.token),
    {
        self.redactor.text(value)
    }

    pub fn needs_connection(&self) -> (needed: bool)
        ensures
            needed == !(self@.state is Connected),
    {
        match &self.state {
            ConversationState::Connected(_) => false,
            _ => true,
        }
    }

    /// The connected service.
    pub fn query(&self) -> (query: Option<&Q>)
        ensures
            match self@.state {
                StateView::Connected(active) => query == Some(&active.query),
                _ => query is None,
            },
    {
        match &self.state {
            ConversationState::Connected(active) => Some(&active.query),
            _ => None,
        }
    }

    pub fn viewing_session(&self) -> (session: Option<&Session>)
        ensures
            match self@.state {
                StateView::ViewingHistory(viewed) => session is Some && session->Some_0@ == viewed,
                _ => session is None,
            },
    {
        match &self.state {
            ConversationState::ViewingHistory(session) => Some(session),
            _ => None,
        }
    }

    /// The remote conversation that the viewed session belongs to, given the ancestors loaded so
    /// far.
    pub fn viewing_continuation(&self, ancestors: &Vec<Session>) -> (step: Result<
        LineageStep,
        ConversationError,
    >)
        ensures
            continuation_view(step) == (match self@.state {
                StateView::ViewingHistory(viewed) => match lineage(
                    seq![viewed] + session_views(ancestors@),
                ) {
                    Ok(step) => Ok(step),
                    Err(error) => Err(ConversationErrorView::History(error)),
                },
                _ => Err(ConversationErrorView::NothingOpen),
            }),
    {
        match self.viewing_session() {
            Some(session) => wrap_step(self.history.latest_remote_chat_id(session, ancestors)),
            None => Err(ConversationError::NothingOpen),
        }
    }

    /// The snapshot to write before `connect`, unless there already is a connection.
    pub fn connection_snapshot(&self, id: &SessionId, now: u128) -> (snapshot: Option<Session>)
        ensures
            match self@.state {
                StateView::Connected(_) => snapshot is None,
                state => snapshot is Some && snapshot->Some_0@ == new_session(
                    id@,
                    origin(state),
                    now,
                ),
            },
    {
        match &self.state {
            ConversationState::Connected(_) => None,
            ConversationState::ViewingHistory(session) => Some(
                self.history.creation_snapshot(id, Some(session.id()), now),
            ),
            ConversationState::Disconnected => Some(self.history.creation_snapshot(id, None, now)),
        }
    }

    /// Start a fresh local session, or a continuation of the viewed session, once
    /// `connection_snapshot` is written. If that failed, the view stays intact.
    pub fn connect(
        &mut self,
        connection: Connection<Q>,
        id: SessionId,
        now: u128,
        written: Result<(), WriteFailure>,
    ) -> (outcome: Result<(), ConversationError>)
        ensures
            match (old(self)@.state, written) {
                (StateView::Connected(_), _) => outcome is Ok && final(self)@ == old(self)@,
                (_, Ok(_)) => outcome is Ok && final(self)@ == connected(
                    old(self)@,
                    connection.query,
                    connection.redactor@,
                    id@,
                    now,
                ),
                (_, Err(failure)) => {
                    &&& outcome is Err
                    &&& outcome->Err_0@ == ConversationErrorView::History(
                        write_error(old(self)@.history, id@, failure),
                    )
                    &&& final(self)@ == old(self)@
                },
            },
    {
        let resumed_from = match &self.state {
            ConversationState::Connected(_) => {
                return Ok(());
            },
            ConversationState::ViewingHistory(session) => Some(session.id().clone()),
            ConversationState::Disconnected => None,
        };
        let session = match self.history.create_continuation(id, resumed_from, now, written) {
            Ok(session) => session,
            Err(error) => {
                return Err(ConversationError::History(error));
            },
        };
        self.redactor = connection.redactor;
        self.state = ConversationState::Connected(
            ActiveConversation {
                query: connection.query,
                session,
                pending_response: None,
                continuation: None,
                continuation_exhausted: false,
            },
        );
        Ok(())
    }

    /// The snapshot to write before `finish` or `open`, if there is an active conversation.
    pub fn finish_snapshot(&self, now: u128) -> (snapshot: Result<Option<Session>, ConversationError>)
        ensures
            match self@.state {
                StateView::Connected(active) => if active.pending_response is Some {
                    snapshot is Err && snapshot->Err_0 == ConversationError::UnsavedOnFinish
                } else {
                    &&& snapshot is Ok
                    &&& snapshot->Ok_0 is Some
                    &&& snapshot->Ok_0->Some_0@ == completed(active.session, now)
                },
                _ => snapshot is Ok && snapshot->Ok_0 is None,
            },
    {
        match &self.state {
            ConversationState::Connected(active) => {
                if active.pending_response.is_some() {
                    return Err(ConversationError::UnsavedOnFinish);
                }
                Ok(Some(self.history.completion_snapshot(&active.session, now)))
            },
            _ => Ok(None),
        }
    }

    /// Disconnect, once `finish_snapshot` is written. Without an active conversation nothing
    /// happens.
    pub fn finish(&mut self, now: u128, written: Result<(), WriteFailure>) -> (outcome: Result<
        (),
        ConversationError,
    >)
        ensures
            match old(self)@.state {
                StateView::Connected(active) => if active.pending_response is Some {
                    &&& outcome == Err::<(), ConversationError>(ConversationError::UnsavedOnFinish)
                    &&& final(self)@ == old(self)@
                } else {
                    match written {
                        Ok(_) => {
                            &&& outcome is Ok
                            &&& final(self)@ == (ControllerView {
                                state: StateView::<Q>::Disconnected,
                                ..old(self)@
                            })
                        },
                        Err(failure) => {
                            &&& outcome is Err
                            &&& outcome->Err_0@ == ConversationErrorView::History(
                                write_error(old(self)@.history, active.session.id, failure),
                            )
                            &&& final(self)@ == old(self)@
                        },
                    }
                },
                _ => outcome is Ok && final(self)@ == old(self)@,
            },
    {
        if let ConversationState::Connected(active) = &mut self.state {
            if active.pending_response.is_some() {
                return Err(ConversationError::UnsavedOnFinish);
            }
            match self.history.complete(&mut active.session, now, written) {
                Ok(_) => {},
                Err(error) => {
                    return Err(ConversationError::History(error));
                },
            }
            self.state = ConversationState::Disconnected;
        }
        Ok(())
    }

    /// Finish the active conversation, then view the given session.
    pub fn open(&mut self, session: Session, now: u128, written: Result<(), WriteFailure>) -> (
    opened: Result<Session, ConversationError>)
        ensures
            match old(self)@.state {
                StateView::Connected(active) if active.pending_response is Some => {
                    &&& opened is Err
                    &&& opened->Err_0 == ConversationError::UnsavedOnFinish
                    &&& final(self)@ == old(self)@
                },
                StateView::Connected(active) if written is Err => {
                    &&& opened is Err
                    &&& opened->Err_0@ == ConversationErrorView::History(
                        write_error(old(self)@.history, active.session.id, written->Err_0),
                    )
                    &&& final(self)@ == old(self)@
                },
                _ => {
                    &&& opened is Ok
                    &&& opened->Ok_0@ == session@
                    &&& final(self)@ == (ControllerView {
                        state: StateView::ViewingHistory(session@),
                        ..old(self)@
                    })
                },
            },
    {
        self.finish(now, written)?;
        self.state = ConversationState::ViewingHistory(session.clone());
        Ok(session)
    }

    /// The snapshot to write before `retry_pending_response`, if a response is unsaved.
    pub fn retry_snapshot(&self, now: u128) -> (snapshot: Result<Option<Session>, ConversationError>)
        ensures
            match self@.state {
                StateView::Connected(active) => match active.pending_response {
                    Some(response) => {
                        &&& snapshot is Ok
                        &&& snapshot->Ok_0 is Some
                        &&& snapshot->Ok_0->Some_0@ == with_entry(
                            active.session,
                            EntryKindView::Response(response),
                            now,
                        )
                    },
                    None => snapshot is Ok && snapshot->Ok_0 is None,
                },
                _ => snapshot is Err && snapshot->Err_0
                    == ConversationError::RetryWithoutConnection,
            },
    {
        match &self.state {
            ConversationState::Connected(active) => match &active.pending_response {
                Some(response) => Ok(
                    Some(self.history.response_snapshot(&active.session, response, now)),
                ),
                None => Ok(None),
            },
            _ => Err(ConversationError::RetryWithoutConnection),
        }
    }

    /// Retry the one remote response whose local persistence failed, once `retry_snapshot` is
    /// written.
    pub fn retry_pending_response(&mut self, now: u128, written: Result<(), WriteFailure>) -> (
    saved: Result<bool, ConversationError>)
        ensures
            match old(self)@.state {
                StateView::Connected(active) => match (active.pending_response, written) {
                    (None, _) => {
                        &&& saved == Ok::<bool, ConversationError>(false)
                        &&& final(self)@ == old(self)@
                    },
                    (Some(response), Ok(_)) => {
                        &&& saved == Ok::<bool, ConversationError>(true)
                        &&& final(self)@ == with_active(
                            old(self)@,
                            ActiveView {
                                session: with_entry(
                                    active.session,
                                    EntryKindView::Response(response),
                                    now,
                                ),
                                pending_response: None,
                                ..active
                            },
                        )
                    },
                    (Some(response), Err(failure)) => {
                        &&& saved is Err
                        &&& saved->Err_0@ == ConversationErrorView::History(
                            write_error(old(self)@.history, active.session.id, failure),
                        )
                        &&& final(self)@ == old(self)@
                    },
                },
                _ => {
                    &&& saved == Err::<bool, ConversationError>(
                        ConversationError::RetryWithoutConnection,
                    )
                    &&& final(self)@ == old(self)@
                },
            },
    {
        match &mut self.state {
            ConversationState::Connected(active) => {
                let response = match active.pending_response.take() {
                    Some(response) => response,
                    None => {
                        return Ok(false);
                    },
                };
                match self.history.append_response(
                    &mut active.session,
                    response.clone(),
                    now,
                    written,
                ) {
                    Ok(_) => Ok(true),
                    Err(error) => {
                        active.pending_response = Some(response);
                        Err(ConversationError::History(error))
                    },
                }
            },
            _ => Err(ConversationError::RetryWithoutConnection),
        }
    }

    /// Explicitly discard an unpersisted response before abandoning the local session.
    pub fn abandon_pending_response(&mut self) -> (abandoned: Result<bool, ConversationError>)
        ensures
            match old(self)@.state {
                StateView::Connected(active) => {
                    &&& abandoned == Ok::<bool, ConversationError>(active.pending_response is Some)
                    &&& final(self)@ == with_active(
                        old(self)@,
                        ActiveView { pending_response: None, ..active },
                    )
                },
                _ => {
                    &&& abandoned == Err::<bool, ConversationError>(
                        ConversationError::AbandonWithoutConnection,
                    )
                    &&& final(self)@ == old(self)@
                },
            },
    {
        match &mut self.state {
            ConversationState::Connected(active) => Ok(active.pending_response.take().is_some()),
            _ => Err(ConversationError::AbandonWithoutConnection),
        }
    }

    /// The snapshot to write before `submit`.
    pub fn submission_snapshot(&self, prompt: &PromptSubmission, now: u128) -> (snapshot: Result<
        Session,
        ConversationError,
    >)
        ensures
            match self@.state {
                StateView::Connected(active) => if active.pending_response is Some {
                    snapshot is Err && snapshot->Err_0 == ConversationError::UnsavedOnSubmit
                } else {
                    &&& snapshot is Ok
                    &&& snapshot->Ok_0@ == with_entry(
                        active.session,
                        EntryKindView::Prompt {
                            text: text_redacted(prompt@.original, self@.token),
                        },
                        now,
                    )
                },
                _ => snapshot is Err && snapshot->Err_0
                    == ConversationError::SubmitWithoutConnection,
            },
    {
        match &self.state {
            ConversationState::Connected(active) => {
                if active.pending_response.is_some() {
                    return Err(ConversationError::UnsavedOnSubmit);
                }
                let text = self.redactor.transcript_text(prompt.original.as_str());
                Ok(self.history.prompt_snapshot(&active.session, &text, now))
            },
            _ => Err(ConversationError::SubmitWithoutConnection),
        }
    }

    /// Record the original user input, once `submission_snapshot` is written. What is then sent to
    /// Adapt is the prompt's outbound form.
    pub fn submit(&mut self, prompt: &PromptSubmission, now: u128, written: Result<(), WriteFailure>) -> (
    outcome: Result<(), ConversationError>)
        ensures
            match old(self)@.state {
                StateView::Connected(active) => if active.pending_response is Some {
                    &&& outcome == Err::<(), ConversationError>(ConversationError::UnsavedOnSubmit)
                    &&& final(self)@ == old(self)@
                } else {
                    match written {
                        Ok(_) => {
                            &&& outcome is Ok
                            &&& final(self)@ == with_active(
                                old(self)@,
                                ActiveView {
                                    session: with_entry(
                                        active.session,
                                        EntryKindView::Prompt {
                                            text: text_redacted(prompt@.original, old(self)@.token),
                                        },
                                        now,
                                    ),
                                    continuation: None,
                                    ..active
                                },
                            )
                        },
                        Err(failure) => {
                            &&& outcome is Err
                            &&& outcome->Err_0@ == ConversationErrorView::History(
                                write_error(old(self)@.history, active.session.id, failure),
                            )
                            &&& final(self)@ == old(self)@
                        },
                    }
                },
                _ => {
                    &&& outcome == Err::<(), ConversationError>(
                        ConversationError::SubmitWithoutConnection,
                    )
                    &&& final(self)@ == old(self)@
                },
            },
    {
        match &mut self.state {
            ConversationState::Connected(active) => {
                if active.pending_response.is_some() {
                    return Err(ConversationError::UnsavedOnSubmit);
                }
                let text = self.redactor.transcript_text(prompt.original.as_str());
                match self.history.append_prompt(&mut active.session, text, now, written) {
                    Ok(_) => {
                        active.continuation = None;
                        Ok(())
                    },
                    Err(error) => Err(ConversationError::History(error)),
                }
            },
            _ => Err(ConversationError::SubmitWithoutConnection),
        }
    }

    /// The remote conversation that the recorded prompt continues, given the ancestors loaded so
    /// far. Once it is found, it is remembered until the answer is recorded.
    pub fn continuation(&mut self, ancestors: &Vec<Session>) -> (step: Result<
        LineageStep,
        ConversationError,
    >)
        ensures
            match old(self)@.state {
                StateView::Connected(active) => {
                    let found = next_continuation(active, session_views(ancestors@));
                    &&& continuation_view(step) == found
                    &&& final(self)@ == with_active(old(self)@, continuing(active, found))
                },
                _ => {
                    &&& step is Err
                    &&& step->Err_0 == ConversationError::SubmitWithoutConnection
                    &&& final(self)@ == old(self)@
                },
            },
    {
        match &mut self.state {
            ConversationState::Connected(active) => {
                let step = if active.continuation_exhausted {
                    Ok(LineageStep::Found(None))
                } else {
                    wrap_step(self.history.latest_remote_chat_id(&active.session, ancestors))
                };
                if let Ok(LineageStep::Found(continuation)) = &step {
                    active.continuation = copy_option(continuation);
                }
                step
            },
            _ => Err(ConversationError::SubmitWithoutConnection),
        }
    }

    /// The snapshot to write before `complete_submission`.
    pub fn answer_snapshot(&self, answer: &Result<TranscriptResponse, String>, now: u128) -> (
    snapshot: Result<Session, ConversationError>)
        ensures
            match self@.state {
                StateView::Connected(active) => {
                    &&& snapshot is Ok
                    &&& snapshot->Ok_0@ == with_entry(
                        active.session,
                        answer_entry(answer_view(*answer), self@.token),
                        now,
                    )
                },
                _ => snapshot is Err && snapshot->Err_0
                    == ConversationError::SubmitWithoutConnection,
            },
    {
        match &self.state {
            ConversationState::Connected(active) => match answer {
                Ok(response) => {
                    let response = self.redactor.transcript_response(response.clone());
                    Ok(self.history.response_snapshot(&active.session, &response, now))
                },
                Err(error) => {
                    let message = self.redactor.transcript_text(error.as_str());
                    Ok(self.history.error_snapshot(&active.session, &message, now))
                },
            },
            _ => Err(ConversationError::SubmitWithoutConnection),
        }
    }

    /// Record what Adapt answered, or the text of the error, once `answer_snapshot` is written or
    /// writing it has failed. The remote conversation that `continuation` found is the one that the
    /// prompt continued.
    pub fn complete_submission(
        &mut self,
        answer: Result<TranscriptResponse, String>,
        now: u128,
        written: Result<(), WriteFailure>,
    ) -> (outcome: Result<SubmitOutcome, ConversationError>)
        ensures
            match old(self)@.state {
                StateView::Connected(active) => {
                    &&& outcome_view(outcome) == answer_outcome(
                        answer_view(answer),
                        active.continuation is Some,
                        old(self)@.token,
                        written_view(old(self)@.history, active.session.id, written),
                    )
                    &&& final(self)@ == with_active(
                        old(self)@,
                        answered(
                            active,
                            answer_view(answer),
                            old(self)@.token,
                            now,
                            written,
                        ),
                    )
                },
                _ => {
                    &&& outcome is Err
                    &&& outcome->Err_0 == ConversationError::SubmitWithoutConnection
                    &&& final(self)@ == old(self)@
                },
            },
    {
        let used_continuation = match &mut self.state {
            ConversationState::Connected(active) => active.continuation.take().is_some(),
            _ => false,
        };
        match &mut self.state {
            ConversationState::Connected(active) => match answer {
                Ok(response) => {
                    let response = self.redactor.transcript_response(response);
                    let display = response.as_inner().clone();
                    match self.history.append_response(
                        &mut active.session,
                        response.clone(),
                        now,
                        written,
                    ) {
                        Ok(_) => Ok(SubmitOutcome::Response(display)),
                        Err(error) => {
                            active.pending_response = Some(response);
                            Ok(
                                SubmitOutcome::ResponseWithPersistenceWarning {
                                    response: display,
                                    error,
                                },
                            )
                        },
                    }
                },
                Err(error) => {
                    if used_continuation {
                        active.continuation_exhausted = true;
                    }
                    let message = self.redactor.transcript_text(error.as_str());
                    match self.history.append_error(&mut active.session, message, now, written) {
                        Ok(_) => if used_continuation {
                            Ok(SubmitOutcome::ContinuationFailed { error })
                        } else {
                            Err(ConversationError::Query(error))
                        },
                        Err(persistence_error) => if used_continuation {
                            Ok(
                                SubmitOutcome::ContinuationFailedWithPersistenceWarning {
                                    error,
                                    persistence_error,
                                },
                            )
                        } else {
                            Ok(
                                SubmitOutcome::ErrorWithPersistenceWarning {
                                    error,
                                    persistence_error,
                                },
                            )
                        },
                    }
                },
            },
            _ => Err(ConversationError::SubmitWithoutConnection),
        }
    }
}

/// After a failed continuation no prompt attempts one again: not the next one, and none after any
/// further answer.
pub proof fn failed_continuation_is_dropped<Q>(
    active: ActiveView<Q>,
    error: Seq<char>,
    token: Seq<char>,
    now: u128,
    written: Result<(), WriteFailure>,
    ancestors: Seq<SessionView>,
    later_answer: Result<TranscriptResponseView, Seq<char>>,
    later_written: Result<(), WriteFailure>,
)
    requires
        active.continuation is Some,
    ensures
        ({
            let failed = answered(active, Err(error), token, now, written);
            let later = answered(failed, later_answer, token, now, later_written);
            &&& next_continuation(failed, ancestors) == Ok::<
                LineageStepView,
                ConversationErrorView,
            >(LineageStepView::Found(None))
            &&& next_continuation(later, ancestors) == Ok::<
                LineageStepView,
                ConversationErrorView,
            >(LineageStepView::Found(None))
        }),
{
}

/// A prompt whose continuation was found and whose query fails is answered by a dropped
/// continuation, and by nothing else; without a continuation it is a plain failure.
pub proof fn the_found_continuation_decides<Q>(
    active: ActiveView<Q>,
    ancestors: Seq<SessionView>,
    continuation: Option<Seq<char>>,
    error: Seq<char>,
    token: Seq<char>,
    now: u128,
)
    requires
        next_continuation(active, ancestors) == Ok::<LineageStepView, ConversationErrorView>(
            LineageStepView::Found(continuation),
        ),
    ensures
        ({
            let asking = continuing(active, next_continuation(active, ancestors));
            let outcome = answer_outcome(Err(error), asking.continuation is Some, token, Ok(()));
            let next = answered(asking, Err(error), token, now, Ok(()));
            &&& asking.continuation == continuation
            &&& continuation is Some ==> outcome == Ok::<SubmitOutcomeView, ConversationErrorView>(
                SubmitOutcomeView::ContinuationFailed { error },
            ) && next.continuation_exhausted
            &&& continuation is None ==> outcome == Err::<SubmitOutcomeView, ConversationErrorView>(
                ConversationErrorView::Query(error),
            ) && next.continuation_exhausted == active.continuation_exhausted
            &&& next.continuation is None
        }),
{
}

/// A failure that did not use a continuation leaves the remote conversation as it was.
pub proof fn plain_failure_keeps_the_continuation<Q>(
    active: ActiveView<Q>,
    error: Seq<char>,
    token: Seq<char>,
    now: u128,
    written: Result<(), WriteFailure>,
    ancestors: Seq<SessionView>,
)
    requires
        active.continuation is None,
    ensures
        next_continuation(answered(active, Err(error), token, now, written), ancestors)
            == next_continuation(active, ancestors),
{
    let next = answered(active, Err(error), token, now, written);
    if written is Ok {
        assert(next.session.entries.drop_last() =~= active.session.entries);
        let before = seq![active.session] + ancestors;
        let after = seq![next.session] + ancestors;
        assert(latest_response(next.session.entries) == latest_response(active.session.entries));
        lemma_same_lineage(before, after, 0);
    } else {
        assert(next.session == active.session);
    }
}

/// The search depends on the IDs, the latest responses and the origins alone.
proof fn lemma_same_lineage(before: Seq<SessionView>, after: Seq<SessionView>, at: int)
    requires
        before.len() == after.len(),
        0 <= at < before.len(),
        forall|i: int|
            #![trigger before[i]]
            #![trigger after[i]]
            0 <= i < before.len() ==> before[i].id == after[i].id && latest_response(
                before[i].entries,
            ) == latest_response(after[i].entries) && before[i].resumed_from_session_id
                == after[i].resumed_from_session_id,
    ensures
        lineage_from(before, at) == lineage_from(after, at),
    decreases before.len() - at,
{
    assert(before[at].id == after[at].id);
    assert(is_revisited(before, at) == is_revisited(after, at)) by {
        if is_revisited(before, at) {
            let i = choose|i: int| 0 <= i < at && #[trigger] before[i].id == before[at].id;
            assert(after[i].id == after[at].id);
        }
        if is_revisited(after, at) {
            let i = choose|i: int| 0 <= i < at && #[trigger] after[i].id == after[at].id;
            assert(before[i].id == before[at].id);
        }
    }
    if at + 1 < before.len() {
        lemma_same_lineage(before, after, at + 1);
    }
}

/// The next prompt continues the remote conversation of the latest saved response, unless
/// continuations are exhausted.
pub proof fn continuation_follows_the_latest_response<Q>(
    active: ActiveView<Q>,
    response: TranscriptResponseView,
    token: Seq<char>,
    now: u128,
    ancestors: Seq<SessionView>,
)
    requires
        !active.continuation_exhausted,
    ensures
        next_continuation(answered(active, Ok(response), token, now, Ok(())), ancestors) == Ok::<LineageStepView, ConversationErrorView>(
            LineageStepView::Found(response_redacted(response, token).remote_chat_id),
        ),
{
    let next = answered(active, Ok(response), token, now, Ok(()));
    let chain = seq![next.session] + ancestors;
    assert(chain[0] == next.session);
    own_response_decides(chain);
}

/// A response that could not be saved is kept as it was shown, the session stays as it was saved
/// last, and a later successful retry records exactly that response.
pub proof fn unsaved_response_is_kept<Q>(
    active: ActiveView<Q>,
    response: TranscriptResponseView,
    token: Seq<char>,
    now: u128,
    failure: WriteFailure,
    history: Seq<char>,
)
    ensures
        ({
            let next = answered(active, Ok(response), token, now, Err(failure));
            let shown = response_redacted(response, token);
            &&& next.pending_response == Some(shown)
            &&& next.session == active.session
            &&& answer_outcome(
                Ok(response),
                active.continuation is Some,
                token,
                written_view(history, active.session.id, Err(failure)),
            ) == Ok::<SubmitOutcomeView, ConversationErrorView>(
                SubmitOutcomeView::ResponseWithPersistenceWarning {
                    response: shown,
                    error: write_error(history, active.session.id, failure),
                },
            )
        }),
{
}

/// Connecting while a session is open starts an empty session that records the open one as its
/// origin; its first prompt continues the remote conversation of the open session.
pub proof fn connection_continues_the_open_session<Q>(
    controller: ControllerView<Q>,
    opened: SessionView,
    query: Q,
    token: Seq<char>,
    id: Seq<char>,
    now: u128,
)
    requires
        controller.state == StateView::<Q>::ViewingHistory(opened),
        opened.id != id,
        latest_response(opened.entries) is Some,
    ensures
        ({
            let state = connected(controller, query, token, id, now).state;
            &&& state is Connected
            &&& state->Connected_0.session.resumed_from_session_id == Some(opened.id)
            &&& state->Connected_0.session.entries.len() == 0
            &&& next_continuation(state->Connected_0, seq![opened]) == Ok::<
                LineageStepView,
                ConversationErrorView,
            >(LineageStepView::Found(latest_response(opened.entries)->Some_0))
        }),
{
    let active = connected(controller, query, token, id, now).state->Connected_0;
    let chain = seq![active.session] + seq![opened];
    assert(chain[0] == active.session && chain[1] == opened);
    first_response_in_the_lineage_decides(chain, 1);
}

/// The token can be redacted for good: it does not overlap the markers that replace it.
pub open spec fn is_redactable(token: Seq<char>) -> bool {
    &&& token.len() > 0
    &&& !overlaps(token, "[redacted credential]"@)
    &&& !contains("[redacted]"@, token)
}

/// No text block and no chat ID of the response holds the token, and no string, number or key of
/// its structured result does.
pub open spec fn response_hides(response: TranscriptResponseView, token: Seq<char>) -> bool {
    &&& forall|i: int|
        0 <= i < response.text_blocks.len() ==> !contains(
            #[trigger] response.text_blocks[i],
            token,
        )
    &&& response.remote_chat_id matches Some(id) ==> !contains(id, token)
    &&& response.structured_result matches Some(value) ==> json_is_free_of(value, token)
}

/// What the entry records does not hold the token.
pub open spec fn entry_hides(kind: EntryKindView, token: Seq<char>) -> bool {
    match kind {
        EntryKindView::Prompt { text } => !contains(text, token),
        EntryKindView::Response(response) => response_hides(response, token),
        EntryKindView::Error { message } => !contains(message, token),
    }
}

/// Neither an entry of the session nor the unsaved response holds the token.
pub open spec fn conversation_hides<Q>(active: ActiveView<Q>, token: Seq<char>) -> bool {
    &&& forall|i: int|
        0 <= i < active.session.entries.len() ==> entry_hides(
            (#[trigger] active.session.entries[i]).kind,
            token,
        )
    &&& active.pending_response matches Some(response) ==> response_hides(response, token)
}

/// A conversation that has just been connected holds nothing, so not the token either.
pub proof fn new_conversation_hides_the_token<Q>(
    controller: ControllerView<Q>,
    query: Q,
    token: Seq<char>,
    id: Seq<char>,
    now: u128,
)
    ensures
        conversation_hides(
            connected(controller, query, token, id, now).state->Connected_0,
            token,
        ),
{
}

/// Recording a prompt keeps the token out of the conversation, even if the user typed it.
pub proof fn recorded_prompts_hide_the_token<Q>(
    active: ActiveView<Q>,
    prompt: Seq<char>,
    token: Seq<char>,
    now: u128,
)
    requires
        is_redactable(token),
        conversation_hides(active, token),
    ensures
        conversation_hides(
            ActiveView {
                session: with_entry(
                    active.session,
                    EntryKindView::Prompt { text: text_redacted(prompt, token) },
                    now,
                ),
                ..active
            },
            token,
        ),
{
    redacted_text_hides_the_token(prompt, token);
    let next = with_entry(
        active.session,
        EntryKindView::Prompt { text: text_redacted(prompt, token) },
        now,
    );
    assert forall|i: int| 0 <= i < next.entries.len() implies entry_hides(
        (#[trigger] next.entries[i]).kind,
        token,
    ) by {
        if i < active.session.entries.len() {
            assert(next.entries[i] == active.session.entries[i]);
        }
    }
}

/// Recording an answer or an error keeps the token out of the conversation, whatever Adapt said,
/// and whether or not it could be saved.
pub proof fn recorded_answers_hide_the_token<Q>(
    active: ActiveView<Q>,
    answer: Result<TranscriptResponseView, Seq<char>>,
    token: Seq<char>,
    now: u128,
    written: Result<(), WriteFailure>,
)
    requires
        is_redactable(token),
        conversation_hides(active, token),
    ensures
        conversation_hides(answered(active, answer, token, now, written), token),
{
    match answer {
        Ok(response) => redacted_response_hides_the_token(response, token),
        Err(error) => redacted_text_hides_the_token(error, token),
    }
    let next = answered(active, answer, token, now, written);
    assert(entry_hides(answer_entry(answer, token), token));
    assert forall|i: int| 0 <= i < next.session.entries.len() implies entry_hides(
        (#[trigger] next.session.entries[i]).kind,
        token,
    ) by {
        if i < active.session.entries.len() {
            assert(next.session.entries[i] == active.session.entries[i]);
        }
    }
}

/// Saving the response that was kept back keeps the token out of the conversation.
pub proof fn retried_responses_hide_the_token<Q>(
    active: ActiveView<Q>,
    response: TranscriptResponseView,
    token: Seq<char>,
    now: u128,
)
    requires
        conversation_hides(active, token),
        active.pending_response == Some(response),
    ensures
        conversation_hides(
            ActiveView {
                session: with_entry(active.session, EntryKindView::Response(response), now),
                pending_response: None,
                ..active
            },
            token,
        ),
{
    let next = with_entry(active.session, EntryKindView::Response(response), now);
    assert forall|i: int| 0 <= i < next.entries.len() implies entry_hides(
        (#[trigger] next.entries[i]).kind,
        token,
    ) by {
        if i < active.session.entries.len() {
            assert(next.entries[i] == active.session.entries[i]);
        }
    }
}

/// A prompt that is recorded changes nothing about the conversation that it continues.
pub proof fn recording_a_prompt_keeps_the_continuation<Q>(
    active: ActiveView<Q>,
    text: Seq<char>,
    now: u128,
    ancestors: Seq<SessionView>,
)
    ensures
        next_continuation(
            ActiveView {
                session: with_entry(active.session, EntryKindView::Prompt { text }, now),
                continuation: None,
                ..active
            },
            ancestors,
        ) == next_continuation(active, ancestors),
{
    let session = with_entry(active.session, EntryKindView::Prompt { text }, now);
    only_responses_change_the_conversation(active.session, EntryKindView::Prompt { text }, now);
    lemma_same_lineage(seq![active.session] + ancestors, seq![session] + ancestors, 0);
}

/// The next prompt continues the conversation that the most recent response of the session names,
/// whatever prompts and errors follow that response, unless a continuation has failed before.
pub proof fn the_next_prompt_continues_the_most_recent_response<Q>(
    active: ActiveView<Q>,
    ancestors: Seq<SessionView>,
    i: int,
)
    requires
        0 <= i < active.session.entries.len(),
        active.session.entries[i].kind is Response,
        forall|j: int|
            i < j < active.session.entries.len() ==> !((#[trigger] active.session.entries[j]).kind
                is Response),
    ensures
        next_continuation(active, ancestors) == Ok::<LineageStepView, ConversationErrorView>(
            LineageStepView::Found(
                if active.continuation_exhausted {
                    None
                } else {
                    active.session.entries[i].kind->Response_0.remote_chat_id
                },
            ),
        ),
{
    let chain = seq![active.session] + ancestors;
    assert(chain[0] == active.session);
    the_most_recent_response_counts(active.session.entries, i);
    own_response_decides(chain);
}

/// An answer that is saved is the last entry of the session, at the time it came, without the token:
/// the response, or the error. One that is not saved is not, and a response is then kept for later.
pub proof fn answers_are_recorded_last<Q>(
    active: ActiveView<Q>,
    answer: Result<TranscriptResponseView, Seq<char>>,
    token: Seq<char>,
    now: u128,
    written: Result<(), WriteFailure>,
)
    ensures
        ({
            let next = answered(active, answer, token, now, written);
            &&& written is Ok ==> {
                &&& next.session.entries.len() == active.session.entries.len() + 1
                &&& next.session.entries.take(active.session.entries.len() as int)
                    == active.session.entries
                &&& next.session.entries.last().timestamp_ms == now
                &&& next.session.entries.last().kind == (match answer {
                    Ok(response) => EntryKindView::Response(response_redacted(response, token)),
                    Err(error) => EntryKindView::Error { message: text_redacted(error, token) },
                })
                &&& next.session.id == active.session.id
                &&& next.pending_response == active.pending_response
            }
            &&& written is Err ==> {
                &&& next.session == active.session
                &&& answer matches Ok(response) ==> next.pending_response == Some(
                    response_redacted(response, token),
                )
                &&& answer is Err ==> next.pending_response == active.pending_response
            }
            &&& next.query == active.query
            &&& next.continuation is None
            &&& next.continuation_exhausted == (active.continuation_exhausted || (answer is Err
                && active.continuation is Some))
        }),
{
    let next = answered(active, answer, token, now, written);
    if written is Ok {
        entries_are_only_appended(active.session, answer_entry(answer, token), now);
    }
}

/// What the caller is told of an answer: the response without the token, or the error as it came;
/// that a continuation failed exactly if there was one; and what could not be saved.
pub proof fn answers_are_told_as_they_are(
    response: TranscriptResponseView,
    error: Seq<char>,
    unsaved: HistoryErrorView,
    token: Seq<char>,
    continued: bool,
)
    ensures
        answer_outcome(Ok(response), continued, token, Ok(())) == Ok::<
            SubmitOutcomeView,
            ConversationErrorView,
        >(SubmitOutcomeView::Response(response_redacted(response, token))),
        answer_outcome(Ok(response), continued, token, Err(unsaved)) == Ok::<
            SubmitOutcomeView,
            ConversationErrorView,
        >(
            SubmitOutcomeView::ResponseWithPersistenceWarning {
                response: response_redacted(response, token),
                error: unsaved,
            },
        ),
        answer_outcome(Err(error), true, token, Ok(())) == Ok::<
            SubmitOutcomeView,
            ConversationErrorView,
        >(SubmitOutcomeView::ContinuationFailed { error }),
        answer_outcome(Err(error), false, token, Ok(())) == Err::<
            SubmitOutcomeView,
            ConversationErrorView,
        >(ConversationErrorView::Query(error)),
        answer_outcome(Err(error), true, token, Err(unsaved)) == Ok::<
            SubmitOutcomeView,
            ConversationErrorView,
        >(
            SubmitOutcomeView::ContinuationFailedWithPersistenceWarning {
                error,
                persistence_error: unsaved,
            },
        ),
        answer_outcome(Err(error), false, token, Err(unsaved)) == Ok::<
            SubmitOutcomeView,
            ConversationErrorView,
        >(
            SubmitOutcomeView::ErrorWithPersistenceWarning { error, persistence_error: unsaved },
        ),
{
}

/// A connection starts an empty session of its own, which records the session that was open, if one
/// was, and remembers nothing of what was connected before.
pub proof fn connections_start_afresh<Q>(
    controller: ControllerView<Q>,
    query: Q,
    token: Seq<char>,
    id: Seq<char>,
    now: u128,
)
    ensures
        ({
            let next = connected(controller, query, token, id, now);
            &&& next.history == controller.history
            &&& next.token == token
            &&& next.state is Connected
            &&& next.state->Connected_0.query == query
            &&& next.state->Connected_0.session == (SessionView {
                id,
                started_at_ms: now,
                updated_at_ms: now,
                status: SessionStatus::Active,
                resumed_from_session_id: match controller.state {
                    StateView::ViewingHistory(session) => Some(session.id),
                    _ => None,
                },
                entries: Seq::empty(),
            })
            &&& next.state->Connected_0.pending_response is None
            &&& next.state->Connected_0.continuation is None
            &&& !next.state->Connected_0.continuation_exhausted
        }),
{
}

/// An open conversation is the only thing that changes while it goes on: the history and the token
/// stay.
pub proof fn conversations_go_on_in_place<Q>(controller: ControllerView<Q>, active: ActiveView<Q>)
    ensures
        with_active(controller, active).state == StateView::Connected(active),
        with_active(controller, active).history == controller.history,
        with_active(controller, active).token == controller.token,
{
}

/// The chat ID that was found goes with the next prompt; where none is known yet, nothing changes.
pub proof fn found_conversations_are_remembered<Q>(
    active: ActiveView<Q>,
    id: Option<Seq<char>>,
    origin: Seq<char>,
    error: ConversationErrorView,
)
    ensures
        ({
            let next = continuing(
                active,
                Ok::<LineageStepView, ConversationErrorView>(LineageStepView::Found(id)),
            );
            &&& next.continuation == id
            &&& next.query == active.query
            &&& next.session == active.session
            &&& next.pending_response == active.pending_response
            &&& next.continuation_exhausted == active.continuation_exhausted
        }),
        continuing(
            active,
            Ok::<LineageStepView, ConversationErrorView>(LineageStepView::Origin(origin)),
        ) == active,
        continuing(active, Err::<LineageStepView, ConversationErrorView>(error)) == active,
{
}

/// After a failed continuation the lineage is not asked again.
pub proof fn exhausted_continuations_are_not_tried<Q>(
    active: ActiveView<Q>,
    ancestors: Seq<SessionView>,
)
    ensures
        active.continuation_exhausted ==> next_continuation(active, ancestors) == Ok::<
            LineageStepView,
            ConversationErrorView,
        >(LineageStepView::Found(None)),
        !active.continuation_exhausted ==> next_continuation(active, ancestors) == (match lineage(
            seq![active.session] + ancestors,
        ) {
            Ok(step) => Ok::<LineageStepView, ConversationErrorView>(step),
            Err(error) => Err(ConversationErrorView::History(error)),
        }),
{
}

/// The errors of a conversation say what is missing; those of the history and of the service are
/// passed on.
pub proof fn conversation_errors_say_what_to_do(history: HistoryErrorView, error: Seq<char>)
    ensures
        conversation_error_message(ConversationErrorView::NothingOpen)
            == "no session is open for viewing"@,
        conversation_error_message(ConversationErrorView::UnsavedOnFinish)
            == "the last remote response is not persisted; retry persistence or abandon it before finishing"@,
        conversation_error_message(ConversationErrorView::UnsavedOnSubmit)
            == "the previous remote response could not be saved; retry persistence or abandon this session before submitting again"@,
        conversation_error_message(ConversationErrorView::RetryWithoutConnection)
            == "a connection is required before retrying persistence"@,
        conversation_error_message(ConversationErrorView::AbandonWithoutConnection)
            == "a connection is required before abandoning persistence"@,
        conversation_error_message(ConversationErrorView::SubmitWithoutConnection)
            == "a connection is required before submitting a prompt"@,
        conversation_error_message(ConversationErrorView::History(history))
            == history_error_message(history),
        conversation_error_message(ConversationErrorView::Query(error)) == error,
{
}

/// An answer that could not be written is told with the file or the directory that failed.
pub proof fn unwritten_answers_name_their_place(
    history: Seq<char>,
    id: Seq<char>,
    failure: WriteFailure,
)
    ensures
        written_view(history, id, Ok(())) == Ok::<(), HistoryErrorView>(()),
        written_view(history, id, Err(failure)) == Err::<(), HistoryErrorView>(
            write_error(history, id, failure),
        ),
{
}

} // verus!

//! What the interactive terminal shows of sessions, answers and errors.

use std::time::Duration;

use vstd::prelude::*;
use vstd::slice::slice_subrange;
use vstd::string::*;

use crate::chat_terminal::{
    cleared, header_ops, label_ops, message_ops, messages_are_printed_behind_their_label,
    output_is_printed_in_order, plain_ops, printed, result_shown, streamed_messages_print_the_same,
    streamed_ops, the_typing_indicator_is_removed, with_output, OpView, Repl, ReplView, TextColor,
};
use crate::commands::{
    command_of, commands_are_known_by_their_text, is_trimmed, open_takes_the_id_behind_it,
    parse_command, whitespace_around_a_command_does_not_count, ReplCommand, ReplCommandView,
};
use crate::conversation_controller::{
    conversation_error_message, is_redactable, outcome_view, ConversationController, ConversationError,
    ConversationErrorView, SubmitOutcome, SubmitOutcomeView,
};
use crate::file_references::{reference_error_message, FileReferenceError};
use crate::json::{pretty_json, render_json, JsonValue, JsonView};
use crate::message_writer::message_output;
use crate::redaction::{
    is_plain_token, json_is_free_of, labelled_text_hides_the_token,
    redacted_response_hides_the_token, response_redacted, text_redacted, text_redaction_is_final,
    Redactor,
};
use crate::session_history::{
    entry_views, history_error_message, session_views, EntryKindView, EntryView, HistoryError,
    HistoryErrorView, Session, SessionEntryKind, SessionStatus, SessionView,
};
use crate::text::{
    chars_of, concatenation, contains, interleaved, is_whitespace, joined_parts_are_split_again,
    lemma_concatenation_grows, option_view, split, text_of, views,
};
use crate::transcript::{displayed, TranscriptResponse, TranscriptResponseView};

verus! {

/// Printed before an unverified capability is used.
pub const ASK_ADAPT_WARNING: &'static str = "warning: ask_adapt is not verified as read-only and may perform mutations; use only for development investigations";

/// Shown for a session whose remote conversation cannot be continued in read-only mode.
pub const RESUME_REQUIRES_DEVELOPMENT_MODE: &'static str = "Remote continuation is available only with --allow-unverified-ask-adapt because it uses Adapt's unverified ask_adapt capability.";

/// Shown when a remote conversation could not be continued.
pub const CONTINUATION_FALLBACK_NOTICE: &'static str = "Remote continuation failed; the previous session may have expired. The next prompt starts a fresh Adapt session.";

/// How a response is revealed.
#[derive(Debug, Clone, Copy, PartialEq, Eq)]
pub enum ResponsePresentation {
    Immediate,
    SimulatedStream { delay: Duration },
}

/// The other way to reveal responses.
pub open spec fn toggled(presentation: ResponsePresentation, delay: Duration) ->
    ResponsePresentation {
    match presentation {
        ResponsePresentation::Immediate => ResponsePresentation::SimulatedStream { delay },
        ResponsePresentation::SimulatedStream { .. } => ResponsePresentation::Immediate,
    }
}

/// The same way to reveal responses, at the given pace.
pub open spec fn paced(presentation: ResponsePresentation, delay: Duration) -> ResponsePresentation {
    match presentation {
        ResponsePresentation::Immediate => ResponsePresentation::Immediate,
        ResponsePresentation::SimulatedStream { .. } => ResponsePresentation::SimulatedStream {
            delay,
        },
    }
}

impl ResponsePresentation {
    /// The other way to reveal responses.
    pub fn toggle(self, delay: Duration) -> (result: Self)
        ensures
            result == toggled(self, delay),
    {
        match self {
            ResponsePresentation::Immediate => ResponsePresentation::SimulatedStream { delay },
            ResponsePresentation::SimulatedStream { .. } => ResponsePresentation::Immediate,
        }
    }

    /// The same way to reveal responses, at the given pace.
    pub fn with_delay(self, delay: Duration) -> (result: Self)
        ensures
            result == paced(self, delay),
    {
        match self {
            ResponsePresentation::Immediate => ResponsePresentation::Immediate,
            ResponsePresentation::SimulatedStream { .. } => ResponsePresentation::SimulatedStream {
                delay,
            },
        }
    }

    /// What is said of a presentation that was just chosen.
    pub fn notice(&self) -> (text: &'static str)
        ensures
            text@ == presentation_notice(*self),
    {
        match self {
            ResponsePresentation::Immediate => "Mock response streaming disabled.",
            ResponsePresentation::SimulatedStream { .. } => "Mock response streaming enabled.",
        }
    }
}

/// Toggling twice gives the presentation back, at the pace that was configured last.
pub proof fn toggling_twice_restores_the_presentation(
    presentation: ResponsePresentation,
    delay: Duration,
)
    ensures
        toggled(toggled(presentation, delay), delay) == paced(presentation, delay),
{
}

/// The words, joined by single spaces.
pub open spec fn joined_words(words: Seq<Seq<char>>) -> Seq<char>
    decreases words.len(),
{
    if words.len() == 0 {
        Seq::empty()
    } else if words.len() == 1 {
        words[0]
    } else {
        joined_words(words.drop_last()) + seq![' '] + words.last()
    }
}

/// The prompt that the words of a command line make, or `None` where there are none.
fn one_shot_prompt(words: &Vec<String>) -> (prompt: Option<String>)
    ensures
        option_view(prompt) == (if words@.len() == 0 {
            None
        } else {
            Some(joined_words(views(words@)))
        }),
{
    if words.len() == 0 {
        return None;
    }
    let mut prompt = words[0].clone();
    let mut n: usize = 1;
    assert(views(words@).take(1) =~= seq![words@[0]@]);
    while n < words.len()
        invariant
            1 <= n <= words@.len(),
            prompt@ == joined_words(views(words@).take(n as int)),
        decreases words@.len() - n,
    {
        let ghost before = prompt@;
        assert(views(words@).take(n + 1).drop_last() =~= views(words@).take(n as int));
        prompt.push(' ');
        prompt.append(words[n].as_str());
        assert(prompt@ =~= before + seq![' '] + words@[n as int]@);
        n += 1;
    }
    assert(views(words@).take(n as int) =~= views(words@));
    Some(prompt)
}

/// What the command line asks for.
#[derive(Debug, PartialEq, Eq)]
pub struct Cli {
    /// The development opt-in for the unverified `ask_adapt`.
    pub allow_unverified_ask_adapt: bool,
    /// The words of a prompt to submit.
    pub prompt: Vec<String>,
}

/// How the program runs.
#[derive(Debug, PartialEq, Eq)]
pub enum RunMode {
    /// Submit this prompt and exit.
    OneShot(String),
    Interactive,
}

impl Cli {
    /// A prompt on the command line is submitted at once; without one the terminal is interactive.
    pub fn run_mode(&self) -> (mode: RunMode)
        ensures
            match mode {
                RunMode::OneShot(prompt) => self.prompt@.len() > 0 && prompt@ == joined_words(
                    views(self.prompt@),
                ),
                RunMode::Interactive => self.prompt@.len() == 0,
            },
    {
        match one_shot_prompt(&self.prompt) {
            Some(prompt) => RunMode::OneShot(prompt),
            None => RunMode::Interactive,
        }
    }

    /// What is printed before a prompt on the command line is submitted: a warning, exactly with
    /// the opt-in for the unverified `ask_adapt`.
    pub fn warning(&self) -> (warning: Option<&'static str>)
        ensures
            warning is Some <==> self.allow_unverified_ask_adapt,
            warning matches Some(text) ==> text@ == ASK_ADAPT_WARNING@,
    {
        if self.allow_unverified_ask_adapt {
            Some(ASK_ADAPT_WARNING)
        } else {
            None
        }
    }
}

/// What a prompt on the command line shows of its response: the redacted response, without its chat
/// ID.
pub fn one_shot_value(redactor: &Redactor, response: TranscriptResponse) -> (value: JsonValue)
    ensures
        value@ == displayed(response_redacted(response@, redactor@)),
{
    redactor.transcript_response(response).into_inner().display_value()
}

/// What a prompt on the command line shows holds the token in no string, number or key, where the
/// names of its two members do not.
pub proof fn one_shot_values_hide_the_token(response: TranscriptResponseView, token: Seq<char>)
    requires
        is_redactable(token),
        !contains("text_blocks"@, token),
        !contains("structured_result"@, token),
    ensures
        json_is_free_of(displayed(response_redacted(response, token)), token),
{
    redacted_response_hides_the_token(response, token);
    let shown = response_redacted(response, token);
    let members = displayed(shown)->Object_0;
    let texts = members[0].1->Array_0;
    assert forall|i: int| 0 <= i < texts.len() implies json_is_free_of(
        #[trigger] texts[i],
        token,
    ) by {
        assert(texts[i] == JsonView::String(shown.text_blocks[i]));
    }
    assert forall|i: int| 0 <= i < members.len() implies !contains((#[trigger] members[i]).0, token)
        && json_is_free_of(members[i].1, token) by {
        assert(i == 0 || i == 1);
        assert(members[0].1 == JsonView::Array(texts));
    }
}

/// The line that is printed for a rendered response.
pub open spec fn response_line(rendered: Option<Seq<char>>) -> Option<Seq<char>> {
    match rendered {
        Some(text) => Some("response: "@ + text),
        None => None,
    }
}

/// The line that is printed for a rendered response.
pub fn one_shot_line(rendered: Option<String>) -> (line: Option<String>)
    ensures
        option_view(line) == response_line(option_view(rendered)),
{
    match rendered {
        Some(text) => {
            let mut line = "response: ".to_owned();
            line.append(text.as_str());
            Some(line)
        },
        None => None,
    }
}

/// What a prompt on the command line prints for its response, or `None` where it cannot be
/// rendered.
pub fn one_shot_output(redactor: &Redactor, response: TranscriptResponse) -> (line: Option<String>)
    ensures
        option_view(line) == response_line(
            pretty_json(displayed(response_redacted(response@, redactor@))),
        ),
{
    one_shot_line(render_json(&one_shot_value(redactor, response)))
}

/// The start of a text, short enough for one line.
pub open spec fn compacted(text: Seq<char>) -> Seq<char> {
    if text.len() <= 72 {
        text
    } else {
        text.take(72)
    }
}

/// The start of a text, short enough for one line.
pub fn compact(text: &str) -> (short: String)
    ensures
        short@ == compacted(text@),
{
    let chars = chars_of(text);
    if chars.len() <= 72 {
        text.to_owned()
    } else {
        let short = text_of(slice_subrange(chars.as_slice(), 0, 72));
        assert(short@ =~= text@.take(72));
        short
    }
}

/// The text of the first prompt among the entries from `at` on.
pub open spec fn first_prompt(entries: Seq<EntryView>, at: int) -> Option<Seq<char>>
    decreases entries.len() - at,
{
    if at < 0 || at >= entries.len() {
        None
    } else {
        match entries[at].kind {
            EntryKindView::Prompt { text } => Some(text),
            _ => first_prompt(entries, at + 1),
        }
    }
}

pub open spec fn status_name(status: SessionStatus) -> Seq<char> {
    match status {
        SessionStatus::Active => "interrupted"@,
        SessionStatus::Completed => "completed"@,
    }
}

/// One line of the session list: the ID, the status and the first prompt.
pub open spec fn session_summary(session: SessionView) -> Seq<char> {
    session.id + " · "@ + status_name(session.status) + " · "@ + compacted(
        match first_prompt(session.entries, 0) {
            Some(text) => text,
            None => "(no prompts)"@,
        },
    )
}

fn first_prompt_text(session: &Session) -> (found: Option<String>)
    ensures
        option_view(found) == first_prompt(session@.entries, 0),
{
    let entries = session.entries();
    let mut at: usize = 0;
    while at < entries.len()
        invariant
            at <= entries@.len(),
            entry_views(entries@) == session@.entries,
            first_prompt(session@.entries, at as int) == first_prompt(session@.entries, 0),
        decreases entries@.len() - at,
    {
        assert(session@.entries[at as int] == entries@[at as int]@);
        if let SessionEntryKind::Prompt { text } = entries[at].kind() {
            return Some(text.clone());
        }
        at += 1;
    }
    None
}

fn summarize(session: &Session) -> (line: String)
    ensures
        line@ == session_summary(session@),
{
    let prompt = match first_prompt_text(session) {
        Some(text) => text,
        None => "(no prompts)".to_owned(),
    };
    let mut line = session.id().text();
    line.append(" · ");
    line.append(session.status().display_name());
    line.append(" · ");
    line.append(compact(prompt.as_str()).as_str());
    line
}

/// The REPL after it has shown a notice.
pub open spec fn noticed(repl: ReplView, message: Seq<char>) -> ReplView {
    with_output(repl, message_ops("History"@, TextColor::Green, message))
}

/// What is said of an error.
pub open spec fn failure_text(message: Seq<char>) -> Seq<char> {
    "Could not complete this prompt: "@ + message
}

/// The REPL after it has shown an error.
pub open spec fn failed(repl: ReplView, message: Seq<char>) -> ReplView {
    with_output(
        cleared(repl),
        message_ops("Error"@, TextColor::Red, failure_text(message)),
    )
}

/// What is said of a prompt that is refused.
pub open spec fn prompt_error_text(message: Seq<char>) -> Seq<char> {
    "prompt error: "@ + message
}

/// The REPL after it has listed the first `n` sessions.
pub open spec fn listed(repl: ReplView, sessions: Seq<SessionView>, n: int) -> ReplView
    decreases n,
{
    if n <= 0 {
        repl
    } else {
        noticed(listed(repl, sessions, n - 1), session_summary(sessions[n - 1]))
    }
}

/// List the saved sessions.
pub fn show_history(repl: &mut Repl, sessions: &Vec<Session>)
    ensures
        final(repl)@ == (if sessions@.len() == 0 {
            noticed(old(repl)@, "No local sessions saved yet."@)
        } else {
            listed(old(repl)@, session_views(sessions@), sessions@.len() as int)
        }),
{
    if sessions.len() == 0 {
        repl.show_notice("No local sessions saved yet.");
        return;
    }
    let mut n: usize = 0;
    while n < sessions.len()
        invariant
            n <= sessions@.len(),
            repl@ == listed(old(repl)@, session_views(sessions@), n as int),
        decreases sessions@.len() - n,
    {
        assert(session_views(sessions@)[n as int] == sessions@[n as int]@);
        repl.show_notice(summarize(&sessions[n]).as_str());
        n += 1;
    }
}

/// The REPL after it has shown one text of a response.
pub open spec fn spoken(repl: ReplView, text: Seq<char>, presentation: ResponsePresentation) ->
    ReplView {
    with_output(
        cleared(repl),
        match presentation {
            ResponsePresentation::Immediate => message_ops("Adapt"@, TextColor::Magenta, text),
            ResponsePresentation::SimulatedStream { delay } => streamed_ops(
                "Adapt"@,
                TextColor::Magenta,
                text,
                delay,
            ),
        },
    )
}

/// The REPL after it has shown the first `n` texts of a response.
pub open spec fn texts_spoken(
    repl: ReplView,
    texts: Seq<Seq<char>>,
    presentation: ResponsePresentation,
    n: int,
) -> ReplView
    decreases n,
{
    if n <= 0 {
        repl
    } else {
        spoken(texts_spoken(repl, texts, presentation, n - 1), texts[n - 1], presentation)
    }
}

/// The REPL after it has shown a response: its texts, then its structured result, if it has one.
pub open spec fn response_shown(
    repl: ReplView,
    response: TranscriptResponseView,
    presentation: ResponsePresentation,
) -> ReplView {
    let spoken = texts_spoken(
        repl,
        response.text_blocks,
        presentation,
        response.text_blocks.len() as int,
    );
    cleared(
        match response.structured_result {
            Some(value) => result_shown(spoken, pretty_json(value)),
            None => spoken,
        },
    )
}

/// Show a response: its texts, then its structured result, if it has one.
pub fn render_response(
    repl: &mut Repl,
    response: &TranscriptResponse,
    presentation: ResponsePresentation,
)
    ensures
        final(repl)@ == response_shown(old(repl)@, response@, presentation),
{
    let mut n: usize = 0;
    while n < response.text_blocks.len()
        invariant
            n <= response.text_blocks@.len(),
            repl@ == texts_spoken(old(repl)@, response@.text_blocks, presentation, n as int),
        decreases response.text_blocks@.len() - n,
    {
        let text = response.text_blocks[n].text.as_str();
        assert(response@.text_blocks[n as int] == text@);
        match presentation {
            ResponsePresentation::Immediate => repl.show_adapt(text),
            ResponsePresentation::SimulatedStream { delay } => repl.show_adapt_streaming(
                text,
                delay,
            ),
        }
        n += 1;
    }
    if let Some(value) = &response.structured_result {
        repl.show_structured_result(value);
    }
    repl.finish_response();
}

/// The REPL after it has shown one entry of a session.
pub open spec fn entry_shown(repl: ReplView, kind: EntryKindView) -> ReplView {
    match kind {
        EntryKindView::Prompt { text } => with_output(
            repl,
            message_ops("You"@, TextColor::Cyan, text),
        ),
        EntryKindView::Response(response) => response_shown(
            repl,
            response,
            ResponsePresentation::Immediate,
        ),
        EntryKindView::Error { message } => failed(repl, message),
    }
}

/// The REPL after it has shown the first `n` entries of a session.
pub open spec fn entries_shown(repl: ReplView, entries: Seq<EntryView>, n: int) -> ReplView
    decreases n,
{
    if n <= 0 {
        repl
    } else {
        entry_shown(entries_shown(repl, entries, n - 1), entries[n - 1].kind)
    }
}

/// Show a saved session at once.
pub fn render_history(repl: &mut Repl, session: &Session)
    ensures
        final(repl)@ == entries_shown(
            noticed(
                old(repl)@,
                "Session "@ + session@.id + " · "@ + status_name(session@.status),
            ),
            session@.entries,
            session@.entries.len() as int,
        ),
{
    let mut title = "Session ".to_owned();
    title.append(session.id().text().as_str());
    title.append(" · ");
    title.append(session.status().display_name());
    repl.show_notice(title.as_str());
    let ghost titled = repl@;
    let entries = session.entries();
    let mut n: usize = 0;
    while n < entries.len()
        invariant
            n <= entries@.len(),
            entry_views(entries@) == session@.entries,
            repl@ == entries_shown(titled, session@.entries, n as int),
        decreases entries@.len() - n,
    {
        assert(session@.entries[n as int] == entries@[n as int]@);
        match entries[n].kind() {
            SessionEntryKind::Prompt { text } => repl.show_you(text.as_str()),
            SessionEntryKind::Response(response) => render_response(
                repl,
                response,
                ResponsePresentation::Immediate,
            ),
            SessionEntryKind::Error { message } => repl.show_error(message.as_str()),
        }
        n += 1;
    }
}

/// What is said of the remote conversation of a session that was just opened.
pub open spec fn opened_notice(chat_id: Option<Seq<char>>, allow_unverified_ask_adapt: bool) -> Seq<
    char,
> {
    match chat_id {
        None =>
            "This session has no remote chat ID; the next prompt starts a new remote conversation."@,
        Some(chat_id) => if allow_unverified_ask_adapt {
            "Remote session "@ + chat_id
                + " available; the next prompt will attempt to resume the Adapt session."@
        } else {
            RESUME_REQUIRES_DEVELOPMENT_MODE@
        },
    }
}

/// Say what becomes of the remote conversation of a session that was just opened.
pub fn show_opened(repl: &mut Repl, chat_id: &Option<String>, allow_unverified_ask_adapt: bool)
    ensures
        final(repl)@ == noticed(
            old(repl)@,
            opened_notice(option_view(*chat_id), allow_unverified_ask_adapt),
        ),
{
    match chat_id {
        None => repl.show_notice(
            "This session has no remote chat ID; the next prompt starts a new remote conversation.",
        ),
        Some(chat_id) => if allow_unverified_ask_adapt {
            let mut text = "Remote session ".to_owned();
            text.append(chat_id.as_str());
            text.append(" available; the next prompt will attempt to resume the Adapt session.");
            repl.show_notice(text.as_str());
        } else {
            repl.show_notice(RESUME_REQUIRES_DEVELOPMENT_MODE);
        },
    }
}

/// The warning that an answer or an error could not be saved. The error is redacted.
pub open spec fn unsaved_warning(what: Seq<char>, error: HistoryErrorView, token: Seq<char>) -> Seq<
    char,
> {
    what + text_redacted(history_error_message(error), token)
}

/// The REPL after it has shown what became of a submitted prompt. Errors are redacted.
pub open spec fn outcome_shown(
    repl: ReplView,
    token: Seq<char>,
    outcome: Result<SubmitOutcomeView, ConversationErrorView>,
    presentation: ResponsePresentation,
) -> ReplView {
    match outcome {
        Ok(SubmitOutcomeView::Response(response)) => response_shown(
            repl,
            response,
            presentation,
        ),
        Ok(SubmitOutcomeView::ResponseWithPersistenceWarning { response, error }) => noticed(
            response_shown(repl, response, presentation),
            unsaved_warning(
                "warning: response was received but could not be saved locally: "@,
                error,
                token,
            ),
        ),
        Ok(SubmitOutcomeView::ErrorWithPersistenceWarning { error, persistence_error }) => noticed(
            failed(repl, text_redacted(error, token)),
            unsaved_warning(
                "warning: the error could not be saved locally: "@,
                persistence_error,
                token,
            ),
        ),
        Ok(SubmitOutcomeView::ContinuationFailed { error }) => noticed(
            failed(repl, text_redacted(error, token)),
            CONTINUATION_FALLBACK_NOTICE@,
        ),
        Ok(
            SubmitOutcomeView::ContinuationFailedWithPersistenceWarning { error, persistence_error },
        ) => noticed(
            noticed(
                failed(repl, text_redacted(error, token)),
                CONTINUATION_FALLBACK_NOTICE@,
            ),
            unsaved_warning(
                "warning: the error could not be saved locally: "@,
                persistence_error,
                token,
            ),
        ),
        Err(error) => failed(repl, text_redacted(conversation_error_message(error), token)),
    }
}

fn warn_unsaved<Q>(
    repl: &mut Repl,
    controller: &ConversationController<Q>,
    what: &str,
    error: &HistoryError,
)
    ensures
        final(repl)@ == noticed(
            old(repl)@,
            unsaved_warning(what@, error@, controller@.token),
        ),
{
    let mut text = what.to_owned();
    text.append(controller.redact(error.message().as_str()).as_str());
    repl.show_notice(text.as_str());
}

/// Show what became of a submitted prompt.
pub fn show_outcome<Q>(
    repl: &mut Repl,
    controller: &ConversationController<Q>,
    outcome: &Result<SubmitOutcome, ConversationError>,
    presentation: ResponsePresentation,
)
    ensures
        final(repl)@ == outcome_shown(
            old(repl)@,
            controller@.token,
            outcome_view(*outcome),
            presentation,
        ),
{
    match outcome {
        Ok(SubmitOutcome::Response(response)) => render_response(
            repl,
            response,
            presentation,
        ),
        Ok(SubmitOutcome::ResponseWithPersistenceWarning { response, error }) => {
            render_response(repl, response, presentation);
            warn_unsaved(
                repl,
                controller,
                "warning: response was received but could not be saved locally: ",
                error,
            );
        },
        Ok(SubmitOutcome::ErrorWithPersistenceWarning { error, persistence_error }) => {
            repl.show_error(controller.redact(error.as_str()).as_str());
            warn_unsaved(
                repl,
                controller,
                "warning: the error could not be saved locally: ",
                persistence_error,
            );
        },
        Ok(SubmitOutcome::ContinuationFailed { error }) => {
            repl.show_error(controller.redact(error.as_str()).as_str());
            repl.show_notice(CONTINUATION_FALLBACK_NOTICE);
        },
        Ok(
            SubmitOutcome::ContinuationFailedWithPersistenceWarning { error, persistence_error },
        ) => {
            repl.show_error(controller.redact(error.as_str()).as_str());
            repl.show_notice(CONTINUATION_FALLBACK_NOTICE);
            warn_unsaved(
                repl,
                controller,
                "warning: the error could not be saved locally: ",
                persistence_error,
            );
        },
        Err(error) => {
            repl.show_error(controller.redact(error.message().as_str()).as_str());
        },
    }
}

/// What the caller does next for the interactive terminal.
#[derive(Debug, PartialEq, Eq)]
pub enum TerminalAction {
    /// Let the user type the next prompt.
    ReadPrompt,
    /// Finish the conversation and exit.
    Finish,
    /// List the saved sessions.
    ListSessions,
    /// Load the session with this ID.
    LoadSession(String),
    /// Expand the file references of this prompt.
    ExpandPrompt(String),
    /// Connect to the service.
    Connect,
    /// Submit the prompt.
    Submit,
}

/// The mathematical counterpart of `TerminalAction`.
pub enum TerminalActionView {
    ReadPrompt,
    Finish,
    ListSessions,
    LoadSession(Seq<char>),
    ExpandPrompt(Seq<char>),
    Connect,
    Submit,
}

impl View for TerminalAction {
    type V = TerminalActionView;

    open spec fn view(&self) -> TerminalActionView {
        match self {
            TerminalAction::ReadPrompt => TerminalActionView::ReadPrompt,
            TerminalAction::Finish => TerminalActionView::Finish,
            TerminalAction::ListSessions => TerminalActionView::ListSessions,
            TerminalAction::LoadSession(id) => TerminalActionView::LoadSession(id@),
            TerminalAction::ExpandPrompt(prompt) => TerminalActionView::ExpandPrompt(prompt@),
            TerminalAction::Connect => TerminalActionView::Connect,
            TerminalAction::Submit => TerminalActionView::Submit,
        }
    }
}

/// The mathematical counterpart of `TerminalLoop`.
pub struct LoopView {
    pub allow_unverified_ask_adapt: bool,
    pub presentation: ResponsePresentation,
    pub stream_delay: Duration,
}

/// The decisions of the interactive terminal, from one event to the next.
pub struct TerminalLoop {
    allow_unverified_ask_adapt: bool,
    presentation: ResponsePresentation,
    stream_delay: Duration,
}

impl View for TerminalLoop {
    type V = LoopView;

    closed spec fn view(&self) -> LoopView {
        LoopView {
            allow_unverified_ask_adapt: self.allow_unverified_ask_adapt,
            presentation: self.presentation,
            stream_delay: self.stream_delay,
        }
    }
}

/// What a presentation says of itself when it was just chosen.
pub open spec fn presentation_notice(presentation: ResponsePresentation) -> Seq<char> {
    match presentation {
        ResponsePresentation::Immediate => "Mock response streaming disabled."@,
        ResponsePresentation::SimulatedStream { .. } => "Mock response streaming enabled."@,
    }
}

/// What the user's next prompt, or the end of the input, leads to.
pub open spec fn next_action(prompt: Option<Seq<char>>) -> TerminalActionView {
    match prompt {
        None => TerminalActionView::Finish,
        Some(prompt) => if prompt.len() == 0 {
            TerminalActionView::ReadPrompt
        } else {
            match command_of(prompt) {
                Some(ReplCommandView::History) => TerminalActionView::ListSessions,
                Some(ReplCommandView::Open(id)) => TerminalActionView::LoadSession(id),
                Some(ReplCommandView::ToggleStreaming) => TerminalActionView::ReadPrompt,
                Some(ReplCommandView::Unknown(_)) => TerminalActionView::ReadPrompt,
                None => TerminalActionView::ExpandPrompt(prompt),
            }
        },
    }
}

/// The terminal after the user's next prompt: `/stream` changes the presentation.
pub open spec fn after_prompt(state: LoopView, prompt: Option<Seq<char>>) -> LoopView {
    match prompt {
        Some(prompt) if prompt.len() > 0 && command_of(prompt) == Some(
            ReplCommandView::ToggleStreaming,
        ) => LoopView { presentation: toggled(state.presentation, state.stream_delay), ..state },
        _ => state,
    }
}

/// The REPL after the user's next prompt: `/stream` and unknown commands are answered. What was
/// typed is redacted.
pub open spec fn answered_prompt(
    repl: ReplView,
    state: LoopView,
    token: Seq<char>,
    prompt: Option<Seq<char>>,
) -> ReplView {
    match prompt {
        Some(prompt) if prompt.len() > 0 => match command_of(prompt) {
            Some(ReplCommandView::ToggleStreaming) => noticed(
                repl,
                presentation_notice(toggled(state.presentation, state.stream_delay)),
            ),
            Some(ReplCommandView::Unknown(message)) => failed(
                repl,
                text_redacted(message, token),
            ),
            _ => repl,
        },
        _ => repl,
    }
}

/// The REPL with a saved session on an otherwise empty screen.
pub open spec fn session_shown(repl: ReplView, session: SessionView) -> ReplView {
    let emptied = ReplView { waiting: false, ..with_output(repl, header_ops(repl)) };
    entries_shown(
        noticed(emptied, "Session "@ + session.id + " · "@ + status_name(session.status)),
        session.entries,
        session.entries.len() as int,
    )
}

/// The REPL after it has shown the typing indicator.
pub open spec fn working(repl: ReplView) -> ReplView {
    ReplView {
        waiting: true,
        ..with_output(
            repl,
            label_ops("Adapt"@, TextColor::Yellow) + plain_ops(": is typing…\r\n"@),
        )
    }
}

impl TerminalLoop {
    /// The terminal at its start: responses are revealed at the given pace.
    pub fn new(allow_unverified_ask_adapt: bool, stream_delay: Duration) -> (state: Self)
        ensures
            state@ == (LoopView {
                allow_unverified_ask_adapt,
                presentation: ResponsePresentation::SimulatedStream { delay: stream_delay },
                stream_delay,
            }),
    {
        TerminalLoop {
            allow_unverified_ask_adapt,
            presentation: ResponsePresentation::SimulatedStream { delay: stream_delay },
            stream_delay,
        }
    }

    /// The user has entered a prompt, or the input has ended.
    pub fn prompt_entered<Q>(
        &mut self,
        repl: &mut Repl,
        controller: &ConversationController<Q>,
        prompt: Option<String>,
    ) -> (action: TerminalAction)
        ensures
            action@ == next_action(option_view(prompt)),
            final(self)@ == after_prompt(old(self)@, option_view(prompt)),
            final(repl)@ == answered_prompt(
                old(repl)@,
                old(self)@,
                controller@.token,
                option_view(prompt),
            ),
    {
        let prompt = match prompt {
            Some(prompt) => prompt,
            None => {
                return TerminalAction::Finish;
            },
        };
        if prompt.as_str().is_empty() {
            return TerminalAction::ReadPrompt;
        }
        match parse_command(prompt.as_str()) {
            Some(ReplCommand::History) => TerminalAction::ListSessions,
            Some(ReplCommand::Open(id)) => TerminalAction::LoadSession(id),
            Some(ReplCommand::ToggleStreaming) => {
                self.presentation = self.presentation.toggle(self.stream_delay);
                repl.show_notice(self.presentation.notice());
                TerminalAction::ReadPrompt
            },
            Some(ReplCommand::Unknown(message)) => {
                repl.show_error(controller.redact(message.as_str()).as_str());
                TerminalAction::ReadPrompt
            },
            None => TerminalAction::ExpandPrompt(prompt),
        }
    }

    /// The session that was asked for is loaded, or could not be. Give it back to be opened.
    pub fn session_loaded<Q>(
        &self,
        repl: &mut Repl,
        controller: &ConversationController<Q>,
        loaded: Result<Session, HistoryError>,
    ) -> (session: Option<Session>)
        ensures
            match loaded {
                Ok(loaded) => session == Some(loaded) && final(repl)@ == old(repl)@,
                Err(error) => session is None && final(repl)@ == failed(
                    old(repl)@,
                    text_redacted(history_error_message(error@), controller@.token),
                ),
            },
    {
        match loaded {
            Ok(session) => Some(session),
            Err(error) => {
                repl.show_error(controller.redact(error.message().as_str()).as_str());
                None
            },
        }
    }

    /// The session is opened.
    pub fn session_opened(&self, repl: &mut Repl, session: &Session)
        ensures
            final(repl)@ == session_shown(old(repl)@, session@),
    {
        repl.clear_transcript();
        render_history(repl, session);
    }

    /// The remote conversation of the opened session is known.
    pub fn continuation_found(&self, repl: &mut Repl, chat_id: &Option<String>)
        ensures
            final(repl)@ == noticed(
                old(repl)@,
                opened_notice(option_view(*chat_id), self@.allow_unverified_ask_adapt),
            ),
    {
        show_opened(repl, chat_id, self.allow_unverified_ask_adapt);
    }

    /// The file references of the prompt are expanded, or one of them is refused.
    pub fn prompt_expanded<Q>(
        &self,
        repl: &mut Repl,
        controller: &ConversationController<Q>,
        expanded: &Result<String, FileReferenceError>,
        needs_connection: bool,
    ) -> (action: TerminalAction)
        ensures
            match expanded {
                Ok(_) => {
                    &&& action@ == (if needs_connection {
                        TerminalActionView::Connect
                    } else {
                        TerminalActionView::Submit
                    })
                    &&& final(repl)@ == working(old(repl)@)
                },
                Err(error) => {
                    &&& action@ == TerminalActionView::ReadPrompt
                    &&& final(repl)@ == failed(
                        old(repl)@,
                        prompt_error_text(
                            text_redacted(reference_error_message(error@), controller@.token),
                        ),
                    )
                },
            },
    {
        match expanded {
            Ok(_) => {
                repl.show_working();
                if needs_connection {
                    TerminalAction::Connect
                } else {
                    TerminalAction::Submit
                }
            },
            Err(error) => {
                let mut text = "prompt error: ".to_owned();
                text.append(controller.redact(error.message().as_str()).as_str());
                repl.show_error(text.as_str());
                TerminalAction::ReadPrompt
            },
        }
    }

    /// The service is connected, at the configured pace, or the connection has failed with the
    /// given text. Say whether a local session can be started.
    pub fn service_connected<Q>(
        &mut self,
        repl: &mut Repl,
        controller: &ConversationController<Q>,
        connected: Result<Duration, String>,
    ) -> (ready: bool)
        ensures
            match connected {
                Ok(delay) => {
                    &&& ready
                    &&& final(self)@ == (LoopView {
                        presentation: paced(old(self)@.presentation, delay),
                        stream_delay: delay,
                        ..old(self)@
                    })
                    &&& final(repl)@ == old(repl)@
                },
                Err(error) => {
                    &&& !ready
                    &&& final(self)@ == old(self)@
                    &&& final(repl)@ == failed(
                        old(repl)@,
                        text_redacted(error@, controller@.token),
                    )
                },
            },
    {
        match connected {
            Ok(delay) => {
                self.stream_delay = delay;
                self.presentation = self.presentation.with_delay(delay);
                true
            },
            Err(error) => {
                repl.show_error(controller.redact(error.as_str()).as_str());
                false
            },
        }
    }

    /// The local session of a new connection is started, or could not be.
    pub fn session_started<Q>(
        &self,
        repl: &mut Repl,
        controller: &ConversationController<Q>,
        started: &Result<(), ConversationError>,
    ) -> (action: TerminalAction)
        ensures
            match started {
                Ok(_) => {
                    &&& action@ == TerminalActionView::Submit
                    &&& final(repl)@ == old(repl)@
                },
                Err(error) => {
                    &&& action@ == TerminalActionView::ReadPrompt
                    &&& final(repl)@ == failed(
                        old(repl)@,
                        text_redacted(conversation_error_message(error@), controller@.token),
                    )
                },
            },
    {
        match started {
            Ok(_) => TerminalAction::Submit,
            Err(error) => {
                repl.show_error(controller.redact(error.message().as_str()).as_str());
                TerminalAction::ReadPrompt
            },
        }
    }

    /// The submitted prompt has its outcome.
    pub fn prompt_submitted<Q>(
        &self,
        repl: &mut Repl,
        controller: &ConversationController<Q>,
        outcome: &Result<SubmitOutcome, ConversationError>,
    )
        ensures
            final(repl)@ == outcome_shown(
                old(repl)@,
                controller@.token,
                outcome_view(*outcome),
                self@.presentation,
            ),
    {
        show_outcome(repl, controller, outcome, self.presentation);
    }
}

/// A local command never leads to a connection or to anything being sent, and neither does an
/// empty prompt.
pub proof fn commands_stay_local(prompt: Seq<char>)
    requires
        prompt.len() == 0 || command_of(prompt) is Some,
    ensures
        !(next_action(Some(prompt)) is ExpandPrompt),
        !(next_action(Some(prompt)) is Connect),
        !(next_action(Some(prompt)) is Submit),
{
}

/// No error that is shown holds the configured token, whatever was typed or went wrong, where the
/// token is a word that the program's own texts do not hold.
pub proof fn shown_errors_hide_the_token(message: Seq<char>, token: Seq<char>)
    requires
        is_plain_token(token),
        !contains("Could not complete this prompt: "@, token),
        !contains("prompt error: "@, token),
    ensures
        !contains(failure_text(text_redacted(message, token)), token),
        !contains(failure_text(prompt_error_text(text_redacted(message, token))), token),
{
    reveal_strlit("Could not complete this prompt: ");
    reveal_strlit("prompt error: ");
    text_redaction_is_final(message, token);
    let shown = text_redacted(message, token);
    labelled_text_hides_the_token("prompt error: "@, shown, token);
    labelled_text_hides_the_token("Could not complete this prompt: "@, shown, token);
    labelled_text_hides_the_token(
        "Could not complete this prompt: "@,
        prompt_error_text(shown),
        token,
    );
}

proof fn lemma_first_prompt(entries: Seq<EntryView>, from: int, i: int)
    requires
        0 <= from <= i <= entries.len(),
        forall|j: int| from <= j < i ==> !((#[trigger] entries[j]).kind is Prompt),
        i < entries.len() ==> entries[i].kind is Prompt,
    ensures
        i < entries.len() ==> first_prompt(entries, from) == Some(entries[i].kind->Prompt_text),
        i == entries.len() ==> first_prompt(entries, from) is None,
    decreases i - from,
{
    if from < i {
        assert(!(entries[from].kind is Prompt));
        lemma_first_prompt(entries, from + 1, i);
    }
}

/// A session is listed with its ID, its status and its first prompt, cut to what fits on a line;
/// later prompts do not count.
pub proof fn sessions_are_listed_by_their_first_prompt(session: SessionView, i: int)
    requires
        0 <= i < session.entries.len(),
        session.entries[i].kind is Prompt,
        forall|j: int| 0 <= j < i ==> !((#[trigger] session.entries[j]).kind is Prompt),
    ensures
        ({
            let text = session.entries[i].kind->Prompt_text;
            &&& first_prompt(session.entries, 0) == Some(text)
            &&& session_summary(session) == session.id + " · "@ + (match session.status {
                SessionStatus::Active => "interrupted"@,
                SessionStatus::Completed => "completed"@,
            }) + " · "@ + (if text.len() <= 72 {
                text
            } else {
                text.take(72)
            })
        }),
{
    lemma_first_prompt(session.entries, 0, i);
}

/// A session without prompts is listed as one.
pub proof fn sessions_without_prompts_are_listed_too(session: SessionView)
    requires
        forall|j: int|
            0 <= j < session.entries.len() ==> !((#[trigger] session.entries[j]).kind is Prompt),
    ensures
        first_prompt(session.entries, 0) is None,
        session_summary(session) == session.id + " · "@ + (match session.status {
            SessionStatus::Active => "interrupted"@,
            SessionStatus::Completed => "completed"@,
        }) + " · "@ + "(no prompts)"@,
{
    lemma_first_prompt(session.entries, 0, session.entries.len() as int);
    reveal_strlit("(no prompts)");
}

/// The words of a prompt on the command line are joined by single spaces: words without spaces are
/// found again between them.
pub proof fn joined_words_are_found_again(words: Seq<Seq<char>>)
    requires
        words.len() > 0,
    ensures
        joined_words(words) == interleaved(words, ' '),
        (forall|i: int| 0 <= i < words.len() ==> !(#[trigger] words[i]).contains(' ')) ==> split(
            joined_words(words),
            ' ',
        ) == words,
{
    lemma_joined_words(words);
    if forall|i: int| 0 <= i < words.len() ==> !(#[trigger] words[i]).contains(' ') {
        joined_parts_are_split_again(words, ' ');
    }
}

proof fn lemma_joined_words(words: Seq<Seq<char>>)
    requires
        words.len() > 0,
    ensures
        joined_words(words) == interleaved(words, ' '),
    decreases words.len(),
{
    reveal_with_fuel(interleaved, 3);
    reveal_with_fuel(joined_words, 3);
    if words.len() == 2 {
        assert(words.drop_last() =~= seq![words[0]]);
        assert(words.skip(1) =~= seq![words[1]]);
        assert(joined_words(words) =~= interleaved(words, ' '));
    } else if words.len() > 2 {
        let start = words.drop_last();
        let rest = words.skip(1);
        lemma_joined_words(start);
        lemma_joined_words(rest);
        lemma_joined_words(rest.drop_last());
        assert(start.skip(1) =~= rest.drop_last());
        assert(rest.last() == words.last());
        assert(joined_words(words) =~= interleaved(words, ' '));
    }
}

/// A line that is no command is a prompt, and it is expanded exactly as it was typed; nothing is
/// shown and nothing else changes. The end of the input finishes, and an empty line is read again.
pub proof fn prompts_go_on_as_they_were_typed(
    before: Seq<char>,
    inside: Seq<char>,
    after: Seq<char>,
    repl: ReplView,
    state: LoopView,
    token: Seq<char>,
)
    requires
        forall|i: int| 0 <= i < before.len() ==> is_whitespace(#[trigger] before[i]),
        forall|i: int| 0 <= i < after.len() ==> is_whitespace(#[trigger] after[i]),
        is_trimmed(inside),
        inside[0] != '/',
    ensures
        ({
            let prompt = Some(before + inside + after);
            &&& next_action(prompt) == TerminalActionView::ExpandPrompt(before + inside + after)
            &&& after_prompt(state, prompt) == state
            &&& answered_prompt(repl, state, token, prompt) == repl
        }),
        next_action(None) is Finish,
        next_action(Some(Seq::empty())) is ReadPrompt,
        after_prompt(state, None) == state,
        answered_prompt(repl, state, token, None) == repl,
        answered_prompt(repl, state, token, Some(Seq::empty())) == repl,
{
    whitespace_around_a_command_does_not_count(before, inside, after);
}

/// Each command does what it says: `/history` lists the sessions, `/open` loads the one that is
/// named, and `/stream` changes how responses are revealed and says so.
pub proof fn commands_do_what_they_say(
    gap: Seq<char>,
    id: Seq<char>,
    repl: ReplView,
    state: LoopView,
    token: Seq<char>,
)
    requires
        gap.len() > 0,
        forall|i: int| 0 <= i < gap.len() ==> is_whitespace(#[trigger] gap[i]),
        is_trimmed(id),
    ensures
        next_action(Some("/history"@)) is ListSessions,
        next_action(Some("/open"@ + gap + id)) == TerminalActionView::LoadSession(id),
        next_action(Some("/stream"@)) is ReadPrompt,
        after_prompt(state, Some("/history"@)) == state,
        after_prompt(state, Some("/open"@ + gap + id)) == state,
        ({
            let next = after_prompt(state, Some("/stream"@));
            &&& next.stream_delay == state.stream_delay
            &&& next.allow_unverified_ask_adapt == state.allow_unverified_ask_adapt
            &&& state.presentation is Immediate ==> next.presentation == (
            ResponsePresentation::SimulatedStream { delay: state.stream_delay })
            &&& state.presentation is SimulatedStream ==> next.presentation is Immediate
            &&& printed(answered_prompt(repl, state, token, Some("/stream"@)).output) == printed(
                repl.output,
            ) + "History"@ + message_output(
                if state.presentation is Immediate {
                    "Mock response streaming enabled."@
                } else {
                    "Mock response streaming disabled."@
                },
            )
        }),
{
    reveal_strlit("/history");
    reveal_strlit("/stream");
    reveal_strlit("/open");
    commands_are_known_by_their_text("/history"@);
    commands_are_known_by_their_text("/stream"@);
    open_takes_the_id_behind_it(gap, id);
    let said = presentation_notice(toggled(state.presentation, state.stream_delay));
    lemma_noticed(repl, said);
    assert(printed(repl.output) + ("History"@ + message_output(said)) =~= printed(repl.output)
        + "History"@ + message_output(said));
}

proof fn lemma_noticed(repl: ReplView, message: Seq<char>)
    ensures
        printed(noticed(repl, message).output) == printed(repl.output) + ("History"@
            + message_output(message)),
{
    output_is_printed_in_order(repl, message_ops("History"@, TextColor::Green, message));
    messages_are_printed_behind_their_label("History"@, TextColor::Green, message);
}

proof fn lemma_failed(repl: ReplView, message: Seq<char>)
    ensures
        printed(failed(repl, message).output) == printed(repl.output) + ("Error"@ + message_output(
            "Could not complete this prompt: "@ + message,
        )),
{
    let text = "Could not complete this prompt: "@ + message;
    output_is_printed_in_order(repl, Seq::empty());
    output_is_printed_in_order(cleared(repl), message_ops("Error"@, TextColor::Red, text));
    messages_are_printed_behind_their_label("Error"@, TextColor::Red, text);
}

/// The line of every session, one below the other.
pub open spec fn listing_text(sessions: Seq<SessionView>) -> Seq<char> {
    concatenation(
        sessions.map_values(
            |session: SessionView| "History"@ + message_output(session_summary(session)),
        ),
    )
}

proof fn lemma_listed(repl: ReplView, sessions: Seq<SessionView>, n: int)
    requires
        0 <= n <= sessions.len(),
    ensures
        printed(listed(repl, sessions, n).output) == printed(repl.output) + listing_text(
            sessions.take(n),
        ),
    decreases n,
{
    let line = |session: SessionView| "History"@ + message_output(session_summary(session));
    let lines = sessions.take(n).map_values(line);
    if n == 0 {
        assert(lines =~= Seq::<Seq<char>>::empty());
        assert(printed(repl.output) + Seq::<char>::empty() =~= printed(repl.output));
    } else {
        lemma_listed(repl, sessions, n - 1);
        lemma_noticed(listed(repl, sessions, n - 1), session_summary(sessions[n - 1]));
        assert(lines.drop_last() =~= sessions.take(n - 1).map_values(line));
        lemma_concatenation_grows(lines);
        assert(printed(listed(repl, sessions, n).output) =~= printed(repl.output) + listing_text(
            sessions.take(n),
        ));
    }
}

/// Every session is listed on a line of its own, in the given order.
pub proof fn every_session_is_listed(repl: ReplView, sessions: Seq<SessionView>)
    ensures
        printed(listed(repl, sessions, sessions.len() as int).output) == printed(repl.output)
            + listing_text(sessions),
{
    lemma_listed(repl, sessions, sessions.len() as int);
    assert(sessions.take(sessions.len() as int) =~= sessions);
}

/// What is printed of a response: each of its texts, in order, then its structured result.
pub open spec fn response_text(response: TranscriptResponseView) -> Seq<char> {
    concatenation(
        response.text_blocks.map_values(|text: Seq<char>| "Adapt"@ + message_output(text)),
    ) + (match response.structured_result {
        Some(value) => "Result"@ + message_output(
            match pretty_json(value) {
                Some(text) => text,
                None => "[unrenderable structured result]"@,
            },
        ),
        None => Seq::empty(),
    })
}

proof fn lemma_texts_spoken(
    repl: ReplView,
    texts: Seq<Seq<char>>,
    presentation: ResponsePresentation,
    n: int,
)
    requires
        0 <= n <= texts.len(),
    ensures
        printed(texts_spoken(repl, texts, presentation, n).output) == printed(repl.output)
            + concatenation(
            texts.take(n).map_values(|text: Seq<char>| "Adapt"@ + message_output(text)),
        ),
    decreases n,
{
    let line = |text: Seq<char>| "Adapt"@ + message_output(text);
    let lines = texts.take(n).map_values(line);
    if n == 0 {
        assert(lines =~= Seq::<Seq<char>>::empty());
        assert(printed(repl.output) + Seq::<char>::empty() =~= printed(repl.output));
    } else {
        lemma_texts_spoken(repl, texts, presentation, n - 1);
        let before = texts_spoken(repl, texts, presentation, n - 1);
        let text = texts[n - 1];
        output_is_printed_in_order(before, Seq::empty());
        messages_are_printed_behind_their_label("Adapt"@, TextColor::Magenta, text);
        match presentation {
            ResponsePresentation::Immediate => {
                output_is_printed_in_order(
                    cleared(before),
                    message_ops("Adapt"@, TextColor::Magenta, text),
                );
            },
            ResponsePresentation::SimulatedStream { delay } => {
                streamed_messages_print_the_same("Adapt"@, TextColor::Magenta, text, delay);
                output_is_printed_in_order(
                    cleared(before),
                    streamed_ops("Adapt"@, TextColor::Magenta, text, delay),
                );
            },
        }
        assert(lines.drop_last() =~= texts.take(n - 1).map_values(line));
        lemma_concatenation_grows(lines);
        assert(printed(texts_spoken(repl, texts, presentation, n).output) =~= printed(repl.output)
            + concatenation(lines));
    }
}

/// A response is printed whole: every text of it, then its structured result, however it is
/// revealed.
pub proof fn responses_are_printed_whole(
    repl: ReplView,
    response: TranscriptResponseView,
    presentation: ResponsePresentation,
)
    ensures
        printed(response_shown(repl, response, presentation).output) == printed(repl.output)
            + response_text(response),
        !response_shown(repl, response, presentation).waiting,
{
    let n = response.text_blocks.len() as int;
    let spoken = texts_spoken(repl, response.text_blocks, presentation, n);
    lemma_texts_spoken(repl, response.text_blocks, presentation, n);
    assert(response.text_blocks.take(n) =~= response.text_blocks);
    match response.structured_result {
        Some(value) => {
            let text = match pretty_json(value) {
                Some(text) => text,
                None => "[unrenderable structured result]"@,
            };
            output_is_printed_in_order(spoken, Seq::empty());
            output_is_printed_in_order(
                cleared(spoken),
                message_ops("Result"@, TextColor::Blue, text),
            );
            messages_are_printed_behind_their_label("Result"@, TextColor::Blue, text);
            output_is_printed_in_order(result_shown(spoken, pretty_json(value)), Seq::empty());
        },
        None => {
            output_is_printed_in_order(spoken, Seq::empty());
        },
    }
    assert(printed(response_shown(repl, response, presentation).output) =~= printed(repl.output)
        + response_text(response));
}

/// What is printed of an entry: what the user said, what Adapt answered, or why it failed.
pub open spec fn entry_text(entry: EntryView) -> Seq<char> {
    match entry.kind {
        EntryKindView::Prompt { text } => "You"@ + message_output(text),
        EntryKindView::Response(response) => response_text(response),
        EntryKindView::Error { message } => "Error"@ + message_output(
            "Could not complete this prompt: "@ + message,
        ),
    }
}

proof fn lemma_entries_shown(repl: ReplView, entries: Seq<EntryView>, n: int)
    requires
        0 <= n <= entries.len(),
    ensures
        printed(entries_shown(repl, entries, n).output) == printed(repl.output) + concatenation(
            entries.take(n).map_values(|entry: EntryView| entry_text(entry)),
        ),
    decreases n,
{
    let shown = |entry: EntryView| entry_text(entry);
    let texts = entries.take(n).map_values(shown);
    if n == 0 {
        assert(texts =~= Seq::<Seq<char>>::empty());
        assert(printed(repl.output) + Seq::<char>::empty() =~= printed(repl.output));
    } else {
        lemma_entries_shown(repl, entries, n - 1);
        let before = entries_shown(repl, entries, n - 1);
        match entries[n - 1].kind {
            EntryKindView::Prompt { text } => {
                output_is_printed_in_order(before, message_ops("You"@, TextColor::Cyan, text));
                messages_are_printed_behind_their_label("You"@, TextColor::Cyan, text);
            },
            EntryKindView::Response(response) => {
                responses_are_printed_whole(before, response, ResponsePresentation::Immediate);
            },
            EntryKindView::Error { message } => {
                lemma_failed(before, message);
            },
        }
        assert(texts.drop_last() =~= entries.take(n - 1).map_values(shown));
        lemma_concatenation_grows(texts);
        assert(printed(entries_shown(repl, entries, n).output) =~= printed(repl.output)
            + concatenation(texts));
    }
}

/// A saved session is printed whole, on an empty screen: its title, then every entry of it, in
/// order.
pub proof fn saved_sessions_are_printed_whole(repl: ReplView, session: SessionView)
    ensures
        printed(session_shown(repl, session).output) == printed(repl.output) + printed(
            header_ops(repl),
        ) + ("History"@ + message_output(
            "Session "@ + session.id + " · "@ + (match session.status {
                SessionStatus::Active => "interrupted"@,
                SessionStatus::Completed => "completed"@,
            }),
        )) + concatenation(session.entries.map_values(|entry: EntryView| entry_text(entry))),
{
    let emptied = ReplView { waiting: false, ..with_output(repl, header_ops(repl)) };
    let title = "Session "@ + session.id + " · "@ + status_name(session.status);
    output_is_printed_in_order(repl, header_ops(repl));
    lemma_noticed(emptied, title);
    let n = session.entries.len() as int;
    lemma_entries_shown(noticed(emptied, title), session.entries, n);
    assert(session.entries.take(n) =~= session.entries);
}

/// What the user is told of a submitted prompt: the response, or the error without the token; that
/// a continuation is dropped; and what could not be saved.
pub open spec fn outcome_text(
    outcome: Result<SubmitOutcomeView, ConversationErrorView>,
    token: Seq<char>,
) -> Seq<char> {
    let error_text = |error: Seq<char>|
        "Error"@ + message_output(
            "Could not complete this prompt: "@ + text_redacted(error, token),
        );
    let dropped = "History"@ + message_output(
        "Remote continuation failed; the previous session may have expired. The next prompt starts a fresh Adapt session."@,
    );
    let unsaved = |error: HistoryErrorView|
        "History"@ + message_output(
            "warning: the error could not be saved locally: "@ + text_redacted(
                history_error_message(error),
                token,
            ),
        );
    match outcome {
        Ok(SubmitOutcomeView::Response(response)) => response_text(response),
        Ok(SubmitOutcomeView::ResponseWithPersistenceWarning { response, error }) => response_text(
            response,
        ) + ("History"@ + message_output(
            "warning: response was received but could not be saved locally: "@ + text_redacted(
                history_error_message(error),
                token,
            ),
        )),
        Ok(SubmitOutcomeView::ErrorWithPersistenceWarning { error, persistence_error }) =>
            error_text(error) + unsaved(persistence_error),
        Ok(SubmitOutcomeView::ContinuationFailed { error }) => error_text(error) + dropped,
        Ok(
            SubmitOutcomeView::ContinuationFailedWithPersistenceWarning { error, persistence_error },
        ) => error_text(error) + dropped + unsaved(persistence_error),
        Err(error) => error_text(conversation_error_message(error)),
    }
}

/// Whatever becomes of a submitted prompt, the user is told of it, however responses are revealed.
pub proof fn every_outcome_is_told(
    repl: ReplView,
    token: Seq<char>,
    outcome: Result<SubmitOutcomeView, ConversationErrorView>,
    presentation: ResponsePresentation,
)
    ensures
        printed(outcome_shown(repl, token, outcome, presentation).output) == printed(repl.output)
            + outcome_text(outcome, token),
{
    match outcome {
        Ok(SubmitOutcomeView::Response(response)) => {
            responses_are_printed_whole(repl, response, presentation);
        },
        Ok(SubmitOutcomeView::ResponseWithPersistenceWarning { response, error }) => {
            responses_are_printed_whole(repl, response, presentation);
            lemma_noticed(
                response_shown(repl, response, presentation),
                unsaved_warning(
                    "warning: response was received but could not be saved locally: "@,
                    error,
                    token,
                ),
            );
        },
        Ok(SubmitOutcomeView::ErrorWithPersistenceWarning { error, persistence_error }) => {
            lemma_failed(repl, text_redacted(error, token));
            lemma_noticed(
                failed(repl, text_redacted(error, token)),
                unsaved_warning(
                    "warning: the error could not be saved locally: "@,
                    persistence_error,
                    token,
                ),
            );
        },
        Ok(SubmitOutcomeView::ContinuationFailed { error }) => {
            lemma_failed(repl, text_redacted(error, token));
            lemma_noticed(
                failed(repl, text_redacted(error, token)),
                CONTINUATION_FALLBACK_NOTICE@,
            );
        },
        Ok(
            SubmitOutcomeView::ContinuationFailedWithPersistenceWarning { error, persistence_error },
        ) => {
            let shown = failed(repl, text_redacted(error, token));
            lemma_failed(repl, text_redacted(error, token));
            lemma_noticed(shown, CONTINUATION_FALLBACK_NOTICE@);
            lemma_noticed(
                noticed(shown, CONTINUATION_FALLBACK_NOTICE@),
                unsaved_warning(
                    "warning: the error could not be saved locally: "@,
                    persistence_error,
                    token,
                ),
            );
        },
        Err(error) => {
            lemma_failed(repl, text_redacted(conversation_error_message(error), token));
        },
    }
    assert(printed(outcome_shown(repl, token, outcome, presentation).output) =~= printed(
        repl.output,
    ) + outcome_text(outcome, token));
}

/// A session that is opened says how it goes on: with its remote conversation under the opt-in, only
/// as a transcript without it, and anew where there is no remote conversation.
pub proof fn opened_sessions_say_how_they_go_on(chat_id: Seq<char>, allowed: bool)
    ensures
        opened_notice(None, allowed)
            == "This session has no remote chat ID; the next prompt starts a new remote conversation."@,
        opened_notice(Some(chat_id), true) == "Remote session "@ + chat_id
            + " available; the next prompt will attempt to resume the Adapt session."@,
        opened_notice(Some(chat_id), false)
            == "Remote continuation is available only with --allow-unverified-ask-adapt because it uses Adapt's unverified ask_adapt capability."@,
{
}

/// A rendered response is printed on the command line behind its label; without one nothing is.
pub proof fn one_shot_lines_begin_with_their_label(text: Seq<char>)
    ensures
        response_line(Some(text)) == Some("response: "@ + text),
        response_line(None) is None,
{
}

/// Streaming stays streaming at the new pace, and what is shown at once is still shown at once.
pub proof fn a_new_pace_changes_nothing_else(delay: Duration, other: Duration)
    ensures
        paced(ResponsePresentation::Immediate, delay) is Immediate,
        paced(ResponsePresentation::SimulatedStream { delay: other }, delay) == (
        ResponsePresentation::SimulatedStream { delay }),
        toggled(ResponsePresentation::Immediate, delay) == (ResponsePresentation::SimulatedStream {
            delay,
        }),
        toggled(ResponsePresentation::SimulatedStream { delay: other }, delay) is Immediate,
{
}

/// Each text of a response is shown in the chosen way: at once, or chunk by chunk at the chosen
/// pace.
pub proof fn responses_are_shown_as_chosen(
    repl: ReplView,
    texts: Seq<Seq<char>>,
    text: Seq<char>,
    chat_id: Option<Seq<char>>,
    delay: Duration,
)
    ensures
        ({
            let response = |texts: Seq<Seq<char>>|
                TranscriptResponseView {
                    text_blocks: texts,
                    structured_result: None,
                    remote_chat_id: chat_id,
                };
            let stream = ResponsePresentation::SimulatedStream { delay };
            let whole = ResponsePresentation::Immediate;
            &&& response_shown(repl, response(Seq::empty()), stream) == cleared(repl)
            &&& response_shown(repl, response(Seq::empty()), whole) == cleared(repl)
            &&& response_shown(repl, response(texts.push(text)), stream).output == response_shown(
                repl,
                response(texts),
                stream,
            ).output + streamed_ops("Adapt"@, TextColor::Magenta, text, delay)
            &&& response_shown(repl, response(texts.push(text)), whole).output == response_shown(
                repl,
                response(texts),
                whole,
            ).output + message_ops("Adapt"@, TextColor::Magenta, text)
        }),
{
    let n = texts.len() as int;
    let more = texts.push(text);
    let stream = ResponsePresentation::SimulatedStream { delay };
    lemma_same_texts_spoken(repl, texts, more, stream, n);
    lemma_same_texts_spoken(repl, texts, more, ResponsePresentation::Immediate, n);
    assert(more[n] == text);
    the_typing_indicator_is_removed(spoken(texts_spoken(repl, more, stream, n), text, stream));
    the_typing_indicator_is_removed(
        spoken(
            texts_spoken(repl, more, ResponsePresentation::Immediate, n),
            text,
            ResponsePresentation::Immediate,
        ),
    );
}

proof fn lemma_same_texts_spoken(
    repl: ReplView,
    texts: Seq<Seq<char>>,
    more: Seq<Seq<char>>,
    presentation: ResponsePresentation,
    n: int,
)
    requires
        0 <= n <= texts.len() <= more.len(),
        forall|i: int| 0 <= i < texts.len() ==> #[trigger] texts[i] == more[i],
    ensures
        texts_spoken(repl, texts, presentation, n) == texts_spoken(repl, more, presentation, n),
    decreases n,
{
    if n > 0 {
        assert(texts[n - 1] == more[n - 1]);
        lemma_same_texts_spoken(repl, texts, more, presentation, n - 1);
    }
}

/// An error takes the place of the typing indicator; one about a prompt says so.
pub proof fn errors_are_told_in_full(repl: ReplView, message: Seq<char>)
    ensures
        !failed(repl, message).waiting,
        printed(failed(repl, message).output) == printed(repl.output) + "Error"@ + message_output(
            "Could not complete this prompt: "@ + message,
        ),
        prompt_error_text(message) == "prompt error: "@ + message,
        printed(noticed(repl, message).output) == printed(repl.output) + "History"@
            + message_output(message),
{
    let text = "Could not complete this prompt: "@ + message;
    output_is_printed_in_order(repl, Seq::empty());
    output_is_printed_in_order(cleared(repl), message_ops("Error"@, TextColor::Red, text));
    messages_are_printed_behind_their_label("Error"@, TextColor::Red, text);
    output_is_printed_in_order(repl, message_ops("History"@, TextColor::Green, message));
    messages_are_printed_behind_their_label("History"@, TextColor::Green, message);
    assert(printed(failed(repl, message).output) =~= printed(repl.output) + "Error"@
        + message_output(text));
    assert(printed(noticed(repl, message).output) =~= printed(repl.output) + "History"@
        + message_output(message));
}

/// A command that is not known is answered on the spot, by an error without the token, and changes
/// nothing else; `/history` and `/open` print nothing themselves.
pub proof fn unknown_commands_are_answered(
    prompt: Seq<char>,
    repl: ReplView,
    state: LoopView,
    token: Seq<char>,
)
    requires
        prompt.len() > 0,
        command_of(prompt) is Some,
    ensures
        ({
            let answered = answered_prompt(repl, state, token, Some(prompt));
            let command = command_of(prompt)->Some_0;
            &&& command matches ReplCommandView::Unknown(message) ==> {
                &&& printed(answered.output) == printed(repl.output) + "Error"@ + message_output(
                    "Could not complete this prompt: "@ + text_redacted(message, token),
                )
                &&& next_action(Some(prompt)) is ReadPrompt
            }
            &&& command is History || command is Open ==> answered == repl
            &&& !(command is ToggleStreaming) ==> after_prompt(state, Some(prompt)) == state
        }),
{
    if let Some(ReplCommandView::Unknown(message)) = command_of(prompt) {
        errors_are_told_in_full(repl, text_redacted(message, token));
    }
}

/// While an answer is awaited, the screen says so.
pub proof fn waiting_is_shown(repl: ReplView)
    ensures
        working(repl).waiting,
        working(repl).output == repl.output + seq![
            OpView::Foreground(TextColor::Yellow),
            OpView::Bold,
            OpView::Flush,
            OpView::Print("Adapt"@),
            OpView::ResetAttributes,
            OpView::Flush,
            OpView::Print(": is typing…\r\n"@),
            OpView::Flush,
        ],
{
}

/// A notice and an error are shown behind their label, each in its color, and the structured result
/// of a response below its texts.
pub proof fn notices_errors_and_results_are_colored(
    repl: ReplView,
    message: Seq<char>,
    response: TranscriptResponseView,
    value: JsonView,
    presentation: ResponsePresentation,
)
    ensures
        noticed(repl, message).output == repl.output + message_ops(
            "History"@,
            TextColor::Green,
            message,
        ),
        failed(repl, message).output == cleared(repl).output + message_ops(
            "Error"@,
            TextColor::Red,
            "Could not complete this prompt: "@ + message,
        ),
        response_shown(
            repl,
            TranscriptResponseView { structured_result: Some(value), ..response },
            presentation,
        ).output == response_shown(
            repl,
            TranscriptResponseView { structured_result: None, ..response },
            presentation,
        ).output + message_ops(
            "Result"@,
            TextColor::Blue,
            match pretty_json(value) {
                Some(text) => text,
                None => "[unrenderable structured result]"@,
            },
        ),
{
    let n = response.text_blocks.len() as int;
    let spoken = texts_spoken(repl, response.text_blocks, presentation, n);
    the_typing_indicator_is_removed(result_shown(spoken, pretty_json(value)));
}

/// The entries of a saved session are shown one below the other: a prompt as the user's message, a
/// response at once, and an error as an error.
pub proof fn saved_entries_are_shown_in_order(
    repl: ReplView,
    session: SessionView,
    entry: EntryView,
)
    ensures
        ({
            let before = session_shown(repl, session);
            let more = session_shown(
                repl,
                SessionView { entries: session.entries.push(entry), ..session },
            );
            match entry.kind {
                EntryKindView::Prompt { text } => more == with_output(
                    before,
                    message_ops("You"@, TextColor::Cyan, text),
                ),
                EntryKindView::Response(response) => more == response_shown(
                    before,
                    response,
                    ResponsePresentation::Immediate,
                ),
                EntryKindView::Error { message } => more == failed(before, message),
            }
        }),
{
    let n = session.entries.len() as int;
    let entries = session.entries.push(entry);
    let emptied = ReplView { waiting: false, ..with_output(repl, header_ops(repl)) };
    let named = noticed(
        emptied,
        "Session "@ + session.id + " · "@ + status_name(session.status),
    );
    lemma_same_entries_shown(named, session.entries, entries, n);
    assert(entries[n] == entry);
}

proof fn lemma_same_entries_shown(
    repl: ReplView,
    entries: Seq<EntryView>,
    more: Seq<EntryView>,
    n: int,
)
    requires
        0 <= n <= entries.len() <= more.len(),
        forall|i: int| 0 <= i < entries.len() ==> #[trigger] entries[i] == more[i],
    ensures
        entries_shown(repl, entries, n) == entries_shown(repl, more, n),
    decreases n,
{
    if n > 0 {
        assert(entries[n - 1] == more[n - 1]);
        lemma_same_entries_shown(repl, entries, more, n - 1);
    }
}

/// An answer is shown in the chosen way, also where a warning follows it.
pub proof fn answers_are_shown_as_chosen(
    repl: ReplView,
    token: Seq<char>,
    response: TranscriptResponseView,
    error: HistoryErrorView,
    presentation: ResponsePresentation,
)
    ensures
        outcome_shown(repl, token, Ok(SubmitOutcomeView::Response(response)), presentation)
            == response_shown(repl, response, presentation),
        outcome_shown(
            repl,
            token,
            Ok(SubmitOutcomeView::ResponseWithPersistenceWarning { response, error }),
            presentation,
        ).output == response_shown(repl, response, presentation).output + message_ops(
            "History"@,
            TextColor::Green,
            "warning: response was received but could not be saved locally: "@ + text_redacted(
                history_error_message(error),
                token,
            ),
        ),
{
}

} // verus!

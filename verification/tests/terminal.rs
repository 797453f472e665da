use std::time::Duration;

use adaptalk::adapt_client::{Content, QueryResponse};
use adaptalk::chat_terminal::{Repl, TerminalOp};
use adaptalk::conversation_controller::{
    Connection, ConversationController, ConversationError, SubmitOutcome,
};
use adaptalk::file_references::FileReferenceError;
use adaptalk::json::JsonValue;
use adaptalk::redaction::Redactor;
use adaptalk::session_history::stored::{
    StoredSession, StoredSessionEntry, StoredSessionEntryKind, StoredSessionStatus,
    StoredTextBlock, StoredTranscriptResponse,
};
use adaptalk::session_history::{HistoryError, Session, SessionHistory, SessionId};
use adaptalk::terminal::{
    compact, one_shot_line, one_shot_output, one_shot_value, render_history, render_response, show_history, show_opened, show_outcome, Cli,
    ResponsePresentation, RunMode, TerminalAction, TerminalLoop, ASK_ADAPT_WARNING, CONTINUATION_FALLBACK_NOTICE,
    RESUME_REQUIRES_DEVELOPMENT_MODE,
};
use adaptalk::transcript;
use adaptalk::transcript::{TextBlock, TranscriptResponse};
use clap::{Arg, ArgAction, Command};

/// The command line with the given arguments.
fn cli(arguments: &[&str]) -> Cli {
    let matches = Command::new("adaptalk")
        .arg(
            Arg::new("allow")
                .long("allow-unverified-ask-adapt")
                .action(ArgAction::SetTrue),
        )
        .arg(Arg::new("prompt").action(ArgAction::Append).num_args(0..))
        .try_get_matches_from(arguments)
        .unwrap();
    Cli {
        allow_unverified_ask_adapt: matches.get_flag("allow"),
        prompt: matches
            .get_many::<String>("prompt")
            .unwrap_or_default()
            .cloned()
            .collect(),
    }
}

#[test]
fn empty_arguments_do_not_submit_a_prompt() {
    assert!(cli(&["adaptalk"]).prompt.is_empty());
    assert_eq!(cli(&["adaptalk"]).run_mode(), RunMode::Interactive);
}

#[test]
fn prompt_arguments_are_joined_for_submission() {
    assert_eq!(
        cli(&["adaptalk", "find", "recent", "incidents"]).run_mode(),
        RunMode::OneShot("find recent incidents".into())
    );
}

#[test]
fn opt_in_flag_is_removed_from_prompt() {
    let cli = cli(&["adaptalk", "--allow-unverified-ask-adapt", "find"]);
    assert_eq!(
        cli,
        Cli {
            prompt: vec!["find".into()],
            allow_unverified_ask_adapt: true
        }
    );
    assert_eq!(cli.run_mode(), RunMode::OneShot("find".into()));
}

fn blank() -> Repl {
    let mut repl = Repl::start(false);
    repl.take_output();
    repl
}

fn shown(mut repl: Repl) -> String {
    let mut text = String::new();
    for op in repl.take_output() {
        if let TerminalOp::Print(part) = op {
            text.push_str(&part);
        }
    }
    text
}

#[test]
fn warning_is_explicit_about_mutations() {
    assert!(ASK_ADAPT_WARNING.contains("not verified as read-only"));
    assert!(ASK_ADAPT_WARNING.contains("may perform mutations"));
}

#[test]
fn response_translation_redacts_configured_token_for_one_shot_output() {
    let response = QueryResponse {
        content: vec![Content::Text("Bearer top-secret".into())],
        structured_content: Some(JsonValue::Object(vec![(
            "token".into(),
            JsonValue::String("top-secret".into()),
        )])),
        chat_id: None,
    };
    let transcript = Redactor::new("top-secret")
        .transcript_response(transcript::from_query_response(response))
        .into_inner();
    let stored = format!("{:?}", transcript.display_value());
    assert!(!stored.contains("top-secret"));
}

#[test]
fn stream_toggle_switches_between_immediate_and_simulated_output() {
    let delay = Duration::from_millis(120);
    let simulated = ResponsePresentation::SimulatedStream { delay };
    assert_eq!(simulated.toggle(delay), ResponsePresentation::Immediate);
    assert_eq!(ResponsePresentation::Immediate.toggle(delay), simulated);
}

#[test]
fn configured_delay_updates_only_simulated_output() {
    let configured = Duration::from_millis(80);
    assert_eq!(
        ResponsePresentation::SimulatedStream {
            delay: Duration::from_millis(35),
        }
        .with_delay(configured),
        ResponsePresentation::SimulatedStream { delay: configured }
    );
    assert_eq!(
        ResponsePresentation::Immediate.with_delay(configured),
        ResponsePresentation::Immediate
    );
}

#[test]
fn configured_delay_survives_disabling_and_reenabling_streaming() {
    let configured = Duration::from_millis(120);
    let mut presentation = ResponsePresentation::SimulatedStream { delay: configured };

    presentation = presentation.toggle(configured);
    assert_eq!(presentation, ResponsePresentation::Immediate);

    presentation = presentation.toggle(configured);
    assert_eq!(
        presentation,
        ResponsePresentation::SimulatedStream { delay: configured }
    );
    assert_eq!(presentation.notice(), "Mock response streaming enabled.");
    assert_eq!(
        ResponsePresentation::Immediate.notice(),
        "Mock response streaming disabled."
    );
}

#[test]
fn long_prompts_are_cut_for_the_list() {
    assert_eq!(compact("short"), "short");
    assert_eq!(compact(&"é".repeat(73)), "é".repeat(72));
    assert_eq!(compact(&"x".repeat(72)), "x".repeat(72));
}

fn session() -> Session {
    let entry = |kind: StoredSessionEntryKind| StoredSessionEntry {
        timestamp_ms: 1,
        kind,
    };
    StoredSession {
        id: "1-2-3".into(),
        started_at_ms: 1,
        updated_at_ms: 1,
        status: StoredSessionStatus::Active,
        resumed_from_session_id: None,
        entries: vec![
            entry(StoredSessionEntryKind::Error {
                message: "late".into(),
            }),
            entry(StoredSessionEntryKind::Prompt { text: "ask".into() }),
            entry(StoredSessionEntryKind::Response(StoredTranscriptResponse {
                text_blocks: vec![StoredTextBlock { text: "yes".into() }],
                structured_result: Some(JsonValue::Null),
                remote_chat_id: None,
            })),
        ],
    }
    .into_session()
    .unwrap()
}

#[test]
fn sessions_are_listed_with_their_first_prompt() {
    let mut repl = blank();
    show_history(&mut repl, &vec![]);
    assert_eq!(shown(repl), "History: No local sessions saved yet.\r\n");
    let mut repl = blank();
    let empty = SessionHistory::at("d")
        .create(SessionId::parse("4-5-6").unwrap(), 1, Ok(()))
        .unwrap();
    show_history(&mut repl, &vec![session(), empty]);
    assert_eq!(
        shown(repl),
        "History: 1-2-3 · interrupted · ask\r\nHistory: 4-5-6 · interrupted · (no prompts)\r\n"
    );
}

#[test]
fn saved_sessions_are_shown_entry_by_entry() {
    let mut repl = blank();
    render_history(&mut repl, &session());
    assert_eq!(
        shown(repl),
        "History: Session 1-2-3 · interrupted\r\nError: Could not complete this prompt: late\r\nYou: ask\r\nAdapt: yes\r\nResult: null\r\n"
    );
}

#[test]
fn opened_sessions_say_how_they_continue() {
    let mut repl = blank();
    show_opened(&mut repl, &None, true);
    show_opened(&mut repl, &Some("chat-1".into()), false);
    show_opened(&mut repl, &Some("chat-1".into()), true);
    assert_eq!(
        shown(repl),
        format!("History: This session has no remote chat ID; the next prompt starts a new remote conversation.\r\nHistory: {RESUME_REQUIRES_DEVELOPMENT_MODE}\r\nHistory: Remote session chat-1 available; the next prompt will attempt to resume the Adapt session.\r\n")
    );
}

/// A controller of a connection with the given token.
fn connected(token: &str) -> ConversationController<()> {
    let mut controller = ConversationController::new(SessionHistory::at("d"));
    controller
        .connect(
            Connection {
                query: (),
                redactor: Redactor::new(token),
            },
            SessionId::parse("1-2-3").unwrap(),
            1,
            Ok(()),
        )
        .unwrap();
    controller
}

#[test]
fn the_warning_comes_exactly_with_the_opt_in() {
    assert_eq!(cli(&["adaptalk", "find"]).warning(), None);
    assert_eq!(
        cli(&["adaptalk", "--allow-unverified-ask-adapt", "find"]).warning(),
        Some(ASK_ADAPT_WARNING)
    );
}

#[test]
fn errors_about_what_was_typed_are_redacted() {
    let controller = connected("tk-91");
    let mut state = TerminalLoop::new(false, Duration::ZERO);
    let mut repl = blank();
    assert_eq!(
        state.prompt_entered(&mut repl, &controller, Some("/tk-91".into())),
        TerminalAction::ReadPrompt
    );
    assert_eq!(
        state.session_loaded(
            &mut repl,
            &controller,
            Err(HistoryError::InvalidId { id: "tk-91".into() })
        ),
        None
    );
    assert_eq!(
        state.prompt_expanded(
            &mut repl,
            &controller,
            &Err(FileReferenceError::Protected {
                reference: "@tk-91".into()
            }),
            true
        ),
        TerminalAction::ReadPrompt
    );
    let text = shown(repl);
    assert!(!text.contains("tk-91"));
    assert!(text.starts_with("Error: Could not complete this prompt: unknown command `/[redacted credential]`; use /history, /open <id>, or /stream\r\n"));
    assert!(text.ends_with("Error: Could not complete this prompt: prompt error: file reference \"@[redacted credential]\" is protected\r\n"));
}

#[test]
fn warnings_about_the_history_are_redacted() {
    let mut repl = blank();
    show_outcome(
        &mut repl,
        &connected("tk-91"),
        &Ok(SubmitOutcome::ErrorWithPersistenceWarning {
            error: "bad".into(),
            persistence_error: HistoryError::Write {
                path: "/tk-91/x".into(),
            },
        }),
        ResponsePresentation::Immediate,
    );
    assert!(shown(repl).ends_with("History: warning: the error could not be saved locally: could not write local session history at /[redacted credential]/x\r\n"));
}

#[test]
fn outcomes_are_shown_redacted() {
    let controller = connected("tok");
    let failure = || HistoryError::Write { path: "p".into() };
    let response = || TranscriptResponse {
        text_blocks: vec![TextBlock { text: "a b".into() }],
        structured_result: None,
        remote_chat_id: None,
    };
    let error = "Error: Could not complete this prompt: bad [redacted credential]\r\n";
    let saved = "warning: the error could not be saved locally: could not write local session history at p\r\n";
    for (outcome, expected) in [
        (
            Ok(SubmitOutcome::Response(response())),
            "Adapt: a b\r\n".to_owned(),
        ),
        (
            Ok(SubmitOutcome::ResponseWithPersistenceWarning {
                response: response(),
                error: failure(),
            }),
            "Adapt: a b\r\nHistory: warning: response was received but could not be saved locally: could not write local session history at p\r\n".to_owned(),
        ),
        (
            Ok(SubmitOutcome::ErrorWithPersistenceWarning {
                error: "bad tok".into(),
                persistence_error: failure(),
            }),
            format!("{error}History: {saved}"),
        ),
        (
            Ok(SubmitOutcome::ContinuationFailed {
                error: "bad tok".into(),
            }),
            format!("{error}History: {CONTINUATION_FALLBACK_NOTICE}\r\n"),
        ),
        (
            Ok(SubmitOutcome::ContinuationFailedWithPersistenceWarning {
                error: "bad tok".into(),
                persistence_error: failure(),
            }),
            format!("{error}History: {CONTINUATION_FALLBACK_NOTICE}\r\nHistory: {saved}"),
        ),
        (
            Err(ConversationError::Query("bad tok".into())),
            error.to_owned(),
        ),
    ] {
        for presentation in [
            ResponsePresentation::Immediate,
            ResponsePresentation::SimulatedStream {
                delay: Duration::ZERO,
            },
        ] {
            let mut repl = blank();
            show_outcome(&mut repl, &controller, &outcome, presentation);
            assert_eq!(shown(repl), expected);
        }
    }
}

#[test]
fn responses_show_their_structured_result_last() {
    let mut repl = blank();
    repl.show_working();
    repl.take_output();
    render_response(
        &mut repl,
        &TranscriptResponse {
            text_blocks: vec![TextBlock { text: "a".into() }, TextBlock { text: "b".into() }],
            structured_result: Some(JsonValue::Bool(true)),
            remote_chat_id: None,
        },
        ResponsePresentation::Immediate,
    );
    assert_eq!(shown(repl), "Adapt: a\r\nAdapt: b\r\nResult: true\r\n");
}

#[test]
fn entered_prompts_lead_to_their_action() {
    let delay = Duration::from_millis(35);
    let mut state = TerminalLoop::new(false, delay);
    let mut repl = blank();
    let controller = ConversationController::<()>::new(SessionHistory::at("d"));
    for (prompt, action) in [
        (None, TerminalAction::Finish),
        (Some(""), TerminalAction::ReadPrompt),
        (Some("/history"), TerminalAction::ListSessions),
        (
            Some("/open 1-2-3"),
            TerminalAction::LoadSession("1-2-3".into()),
        ),
        (
            Some("hello @a"),
            TerminalAction::ExpandPrompt("hello @a".into()),
        ),
    ] {
        assert_eq!(
            state.prompt_entered(&mut repl, &controller, prompt.map(str::to_owned)),
            action
        );
    }
    assert_eq!(repl.take_output(), vec![]);
    assert_eq!(
        state.prompt_entered(&mut repl, &controller, Some("/stream".into())),
        TerminalAction::ReadPrompt
    );
    assert_eq!(
        state.prompt_entered(&mut repl, &controller, Some("/stream".into())),
        TerminalAction::ReadPrompt
    );
    assert_eq!(
        state.prompt_entered(&mut repl, &controller, Some("/wat".into())),
        TerminalAction::ReadPrompt
    );
    assert_eq!(
        shown(repl),
        "History: Mock response streaming disabled.\r\nHistory: Mock response streaming enabled.\r\nError: Could not complete this prompt: unknown command `/wat`; use /history, /open <id>, or /stream\r\n"
    );
}

#[test]
fn prompts_are_expanded_before_anything_is_connected() {
    let state = TerminalLoop::new(false, Duration::ZERO);
    let mut repl = blank();
    let controller = ConversationController::<()>::new(SessionHistory::at("d"));
    assert_eq!(
        state.prompt_expanded(&mut repl, &controller, &Ok("p".into()), true),
        TerminalAction::Connect
    );
    assert_eq!(
        state.prompt_expanded(&mut repl, &controller, &Ok("p".into()), false),
        TerminalAction::Submit
    );
    assert_eq!(
        shown(repl),
        "Adapt: is typing…\r\nAdapt: is typing…\r\n"
    );
    let mut repl = blank();
    assert_eq!(
        state.prompt_expanded(
            &mut repl,
            &controller,
            &Err(FileReferenceError::Protected {
                reference: "@x".into()
            }),
            true
        ),
        TerminalAction::ReadPrompt
    );
    assert_eq!(
        shown(repl),
        "Error: Could not complete this prompt: prompt error: file reference \"@x\" is protected\r\n"
    );
}

#[test]
fn connections_set_the_pace_and_failures_are_shown() {
    let mut state = TerminalLoop::new(true, Duration::from_millis(35));
    let mut repl = blank();
    let controller = ConversationController::<()>::new(SessionHistory::at("d"));
    assert!(!state.service_connected(&mut repl, &controller, Err("Bearer x".into())));
    assert!(state.service_connected(&mut repl, &controller, Ok(Duration::from_millis(80))));
    assert_eq!(
        state.session_started(&mut repl, &controller, &Ok(())),
        TerminalAction::Submit
    );
    assert_eq!(
        state.session_started(
            &mut repl,
            &controller,
            &Err(ConversationError::History(HistoryError::Write {
                path: "p".into()
            }))
        ),
        TerminalAction::ReadPrompt
    );
    assert_eq!(
        shown(repl),
        "Error: Could not complete this prompt: Bearer [redacted]\r\nError: Could not complete this prompt: could not write local session history at p\r\n"
    );
    let mut repl = blank();
    state.prompt_submitted(
        &mut repl,
        &controller,
        &Ok(SubmitOutcome::Response(TranscriptResponse {
            text_blocks: vec![TextBlock { text: "a b".into() }],
            structured_result: None,
            remote_chat_id: None,
        })),
    );
    assert!(repl
        .into_output()
        .contains(&TerminalOp::Pause(Duration::from_millis(80))));
}

#[test]
fn loaded_sessions_are_opened_on_an_empty_screen() {
    let state = TerminalLoop::new(true, Duration::ZERO);
    let mut repl = blank();
    let controller = ConversationController::<()>::new(SessionHistory::at("d"));
    assert_eq!(
        state.session_loaded(
            &mut repl,
            &controller,
            Err(HistoryError::NotFound { id: "1-2-3".into() })
        ),
        None
    );
    assert_eq!(
        state.session_loaded(&mut repl, &controller, Ok(session())),
        Some(session())
    );
    repl.take_output();
    state.session_opened(&mut repl, &session());
    state.continuation_found(&mut repl, &Some("chat-1".into()));
    let text = shown(repl);
    assert!(text.starts_with("AdaptTUI · Read-only mode · Ctrl-C to exit\nHistory: Session 1-2-3 · interrupted\r\n"));
    assert!(text.ends_with("History: Remote session chat-1 available; the next prompt will attempt to resume the Adapt session.\r\n"));
}

#[test]
fn one_shot_output_is_redacted_and_rendered() {
    let response = || TranscriptResponse {
        text_blocks: vec![TextBlock {
            text: "tk-91".into(),
        }],
        structured_result: Some(JsonValue::Object(vec![(
            "tk-91".into(),
            JsonValue::Bool(true),
        )])),
        remote_chat_id: Some("chat-1".into()),
    };
    let redactor = Redactor::new("tk-91");
    let hidden = "[redacted credential]";
    assert_eq!(
        one_shot_value(&redactor, response()),
        JsonValue::Object(vec![
            (
                "text_blocks".into(),
                JsonValue::Array(vec![JsonValue::String(hidden.into())])
            ),
            (
                "structured_result".into(),
                JsonValue::Object(vec![(hidden.into(), JsonValue::Bool(true))])
            ),
        ])
    );
    let line = one_shot_output(&redactor, response()).unwrap();
    assert!(line.starts_with("response: {\n"));
    assert!(line.contains("  \"structured_result\": {\n    \"[redacted credential]\": true\n  }"));
    assert!(line.contains("  \"text_blocks\": [\n    \"[redacted credential]\"\n  ]"));
    assert!(!line.contains("tk-91") && !line.contains("chat-1"));
    assert_eq!(one_shot_line(Some("{}".into())), Some("response: {}".into()));
    assert_eq!(one_shot_line(None), None);
}

use std::time::Duration;

use adaptalk::chat_terminal::{
    act_on, parse_command, KeyCode, PromptAction, PromptStep, Repl, ReplCommand, TerminalEvent,
    TerminalOp, TextColor,
};
use adaptalk::commands::{completed_command, fuzzy_matches, matching_commands, scattered_in};
use adaptalk::json::JsonValue;
use adaptalk::update_checker::{UpdateNotice, Version};

fn visible(output: &[TerminalOp]) -> String {
    let mut visible = String::new();
    for op in output {
        if let TerminalOp::Print(text) = op {
            visible.push_str(text);
        }
    }
    visible
}

fn repl() -> Repl {
    Repl::with_output(Vec::new(), false)
}

fn key(code: KeyCode) -> TerminalEvent {
    TerminalEvent::Key {
        code,
        pressed: true,
        shift: false,
        control: false,
    }
}

fn control(character: char) -> TerminalEvent {
    TerminalEvent::Key {
        code: KeyCode::Char(character),
        pressed: true,
        shift: false,
        control: true,
    }
}

fn notice() -> UpdateNotice {
    UpdateNotice {
        installed: Version::new(1, 0, 0),
        available: Version::new(2, 0, 0),
        url: "https://example/release".into(),
    }
}

#[test]
fn recognizes_history_and_open_commands() {
    assert_eq!(parse_command("/history"), Some(ReplCommand::History));
    assert_eq!(parse_command("/stream"), Some(ReplCommand::ToggleStreaming));
    assert_eq!(
        parse_command("/open abc"),
        Some(ReplCommand::Open("abc".into()))
    );
    assert!(matches!(
        parse_command("/wat"),
        Some(ReplCommand::Unknown(_))
    ));
}

#[test]
fn slash_opens_the_command_palette() {
    assert!(!matching_commands("/").is_empty());
    assert!(!matching_commands("/his").is_empty());
    assert!(!matching_commands("/ope").is_empty());
    assert!(!matching_commands("/history").is_empty());
    assert!(!matching_commands("/stream").is_empty());
    assert!(matching_commands("/unknown").is_empty());
    assert!(matching_commands("").is_empty());
    assert!(matching_commands("ask Adapt").is_empty());
    assert!(matching_commands("/history\nmore").is_empty());
}

#[test]
fn palette_fuzzy_filters_to_matching_commands() {
    assert_eq!(
        matching_commands("/his")
            .into_iter()
            .map(|(command, _)| command)
            .collect::<Vec<_>>(),
        vec!["/history"]
    );
    assert_eq!(
        matching_commands("/pn")
            .into_iter()
            .map(|(command, _)| command)
            .collect::<Vec<_>>(),
        vec!["/open <id>"]
    );
}

#[test]
fn fuzzy_match_completes_to_a_canonical_command() {
    assert_eq!(completed_command("/his"), Some("/history".into()));
    assert_eq!(completed_command("/pn"), Some("/open ".into()));
    assert_eq!(completed_command("/history"), None);
}

#[test]
fn renders_typing_indicator_at_the_user_visible_seam() {
    let mut repl = Repl::with_output(Vec::new(), false);
    repl.show_working();
    let output = visible(&repl.into_output());
    assert!(output.contains("Adapt: is typing…\r\n"));
}

#[test]
fn immediate_multiline_output_indents_continuation_lines() {
    let mut repl = Repl::with_output(Vec::new(), false);
    repl.show_adapt("first\nsecond");
    let output = visible(&repl.into_output());
    assert!(output.contains("Adapt: first\r\n  second\r\n"));
}

#[test]
fn immediate_output_preserves_canonical_line_semantics() {
    for (message, expected) in [
        ("", "Adapt:\r\n"),
        ("first\nsecond", "Adapt: first\r\n  second\r\n"),
        ("first\r\nsecond", "Adapt: first\r\n  second\r\n"),
        ("trailing\n", "Adapt: trailing\r\n"),
    ] {
        let mut repl = Repl::with_output(Vec::new(), false);
        repl.show_adapt(message);
        let output = visible(&repl.into_output());
        assert!(
            output.ends_with(expected),
            "message {message:?}: {output:?}"
        );
    }
}

#[test]
fn streamed_multiline_output_uses_the_same_line_formatting() {
    let mut repl = Repl::with_output(Vec::new(), false);
    repl.show_adapt_streaming("first\nsecond", Duration::ZERO);
    let output = visible(&repl.into_output());
    assert!(output.contains("Adapt: first\r\n  second\r\n"));
}

#[test]
fn commands_are_trimmed_and_take_no_stray_arguments() {
    assert_eq!(parse_command("  /history \n"), Some(ReplCommand::History));
    assert_eq!(
        parse_command("/open\t  1-2-3 x "),
        Some(ReplCommand::Open("1-2-3 x".into()))
    );
    assert_eq!(
        parse_command("/open "),
        Some(ReplCommand::Unknown("/open requires a session ID".into()))
    );
    assert_eq!(
        parse_command("/history now"),
        Some(ReplCommand::Unknown(
            "unknown command `/history now`; use /history, /open <id>, or /stream".into()
        ))
    );
    assert_eq!(parse_command("hello /history"), None);
    assert_eq!(parse_command(""), None);
}

#[test]
fn fuzzy_matching_ignores_case() {
    assert!(fuzzy_matches("history", "HTY"));
    assert!(fuzzy_matches("HISTORY", "hty"));
    assert!(!fuzzy_matches("history", "yh"));
    assert!(fuzzy_matches("İ", "İ"));
    assert!(fuzzy_matches("history", ""));
}

#[test]
fn characters_are_found_in_their_order() {
    let chars = |text: &str| text.chars().collect::<Vec<char>>();
    assert!(scattered_in(&chars("ace"), &chars("abcde")));
    assert!(!scattered_in(&chars("aec"), &chars("abcde")));
    assert!(scattered_in(&chars("aa"), &chars("aba")));
    assert!(!scattered_in(&chars("a"), &chars("")));
}

#[test]
fn accepted_suggestions_are_not_completed_again() {
    for input in ["/his", "/pn", "/am", "/HIS"] {
        let completed = completed_command(input).unwrap();
        assert_eq!(completed_command(&completed), None);
    }
    assert_eq!(completed_command("/"), None);
    assert_eq!(completed_command("/his tory"), None);
}

#[test]
fn streaming_prints_what_the_message_prints() {
    for message in ["", "one", "a b\r\nc  d\n", "\r", "a\r\rb\r\n\n", " \n x"] {
        let mut immediate = repl();
        immediate.show_adapt(message);
        let mut streamed = repl();
        streamed.show_adapt_streaming(message, Duration::from_millis(7));
        assert_eq!(
            visible(&immediate.into_output()),
            visible(&streamed.into_output())
        );
    }
}

#[test]
fn lines_are_laid_out_behind_the_label() {
    for (message, expected) in [
        ("\n", "You: \r\n"),
        ("a\n\nb", "You: a\r\n  \r\n  b\r\n"),
        ("a\r", "You: a\r\r\n"),
        ("\r", "You: \r\r\n"),
        ("a\r\r\nb", "You: a\r\r\n  b\r\n"),
    ] {
        let mut repl = repl();
        repl.take_output();
        repl.show_you(message);
        assert_eq!(visible(&repl.into_output()), expected);
    }
}

#[test]
fn streaming_pauses_between_chunks_only() {
    let delay = Duration::from_millis(35);
    let mut repl = repl();
    repl.take_output();
    repl.show_adapt_streaming("a b c", delay);
    let output = repl.into_output();
    assert_eq!(
        output
            .iter()
            .filter(|op| **op == TerminalOp::Pause(delay))
            .count(),
        2
    );
    assert!(!matches!(output.last(), Some(TerminalOp::Pause(_))));
}

#[test]
fn the_header_warns_of_development_mode() {
    assert_eq!(
        visible(&Repl::start(false).into_output()),
        "AdaptTUI · Read-only mode · Ctrl-C to exit\n"
    );
    assert_eq!(
        visible(&Repl::start(true).into_output()),
        "AdaptTUI · Read-only mode · Ctrl-C to exit\n⚠ DEVELOPMENT MODE: ask_adapt is unverified and may perform mutations.\n"
    );
}

#[test]
fn updates_are_announced_until_dismissed() {
    let banner = "Update available: Adaptalk 2.0.0 (installed 1.0.0). See: https://example/release";
    let mut repl = repl();
    repl.take_output();
    repl.show_update(notice());
    assert_eq!(
        visible(&repl.take_output()),
        format!("Update: {banner}\r\n")
    );
    repl.clear_transcript();
    assert!(visible(&repl.take_output()).contains(banner));
    repl.start_prompt();
    assert!(visible(&repl.take_output()).contains("[update available]"));
    let mut input = String::new();
    assert_eq!(
        repl.read_prompt(&mut input, key(KeyCode::Esc)),
        PromptStep::Waiting
    );
    assert!(!visible(&repl.take_output()).contains("[update available]"));
    repl.clear_transcript();
    assert!(!visible(&repl.take_output()).contains(banner));
}

#[test]
fn the_typing_indicator_is_removed_once() {
    let mut repl = repl();
    repl.show_working();
    repl.take_output();
    repl.show_error("offline");
    let output = repl.take_output();
    assert_eq!(output[0], TerminalOp::MoveUp);
    assert_eq!(output[1], TerminalOp::MoveToLineStart);
    assert_eq!(output[2], TerminalOp::ClearLine);
    assert_eq!(
        visible(&output),
        "Error: Could not complete this prompt: offline\r\n"
    );
    repl.finish_response();
    assert_eq!(repl.take_output(), vec![]);
}

#[test]
fn structured_results_are_pretty_printed() {
    let mut repl = repl();
    repl.take_output();
    repl.show_structured_result(&JsonValue::Object(vec![(
        "a".into(),
        JsonValue::Number("1".into()),
    )]));
    assert_eq!(
        visible(&repl.take_output()),
        "Result: {\r\n    \"a\": 1\r\n  }\r\n"
    );
    repl.show_structured_result(&JsonValue::Array(vec![
        JsonValue::Null,
        JsonValue::Bool(true),
        JsonValue::String("q\"".into()),
        JsonValue::Array(vec![]),
    ]));
    assert_eq!(
        visible(&repl.take_output()),
        "Result: [\r\n    null,\r\n    true,\r\n    \"q\\\"\",\r\n    []\r\n  ]\r\n"
    );
    repl.show_structured_result(&JsonValue::Number("one".into()));
    assert_eq!(
        visible(&repl.take_output()),
        "Result: [unrenderable structured result]\r\n"
    );
}

#[test]
fn rendered_results_are_shown_as_they_are() {
    let mut repl = repl();
    repl.take_output();
    repl.show_rendered_result(&Some("x y".into()));
    repl.show_rendered_result(&None);
    assert_eq!(
        visible(&repl.take_output()),
        "Result: x y\r\nResult: [unrenderable structured result]\r\n"
    );
}

#[test]
fn keys_edit_the_input() {
    let typed = |input: &str, event: TerminalEvent| act_on(input, event);
    assert_eq!(
        typed("ab", key(KeyCode::Char('c'))),
        PromptAction::Edit("abc".into())
    );
    assert_eq!(
        typed("ab", key(KeyCode::Backspace)),
        PromptAction::Edit("a".into())
    );
    assert_eq!(
        typed("", key(KeyCode::Backspace)),
        PromptAction::Edit("".into())
    );
    assert_eq!(
        typed(
            "ab",
            TerminalEvent::Key {
                code: KeyCode::Enter,
                pressed: true,
                shift: true,
                control: false
            }
        ),
        PromptAction::Edit("ab\n".into())
    );
    assert_eq!(
        typed("ab", key(KeyCode::Char('\n'))),
        PromptAction::Edit("ab\n".into())
    );
    assert_eq!(
        typed("/his", key(KeyCode::Tab)),
        PromptAction::Edit("/history".into())
    );
    assert_eq!(
        typed("ab", key(KeyCode::Tab)),
        PromptAction::Edit("ab".into())
    );
    assert_eq!(typed("ab", key(KeyCode::Esc)), PromptAction::Edit("".into()));
    assert_eq!(typed("", key(KeyCode::Esc)), PromptAction::DismissUpdate);
    assert_eq!(typed("ab", key(KeyCode::Other)), PromptAction::Ignore);
    assert_eq!(typed("ab", TerminalEvent::Other), PromptAction::Ignore);
    assert_eq!(typed("ab", control('x')), PromptAction::Ignore);
    assert_eq!(
        typed(
            "ab",
            TerminalEvent::Key {
                code: KeyCode::Char('c'),
                pressed: false,
                shift: false,
                control: false
            }
        ),
        PromptAction::Ignore
    );
}

#[test]
fn keys_end_the_prompt() {
    assert_eq!(
        act_on(" hi \n", key(KeyCode::Enter)),
        PromptAction::Submit("hi".into())
    );
    assert_eq!(
        act_on("/pn", key(KeyCode::Enter)),
        PromptAction::Edit("/open ".into())
    );
    assert_eq!(act_on("ab", control('c')), PromptAction::Interrupt);
    assert_eq!(act_on("", control('d')), PromptAction::EndOfInput);
    assert_eq!(act_on("ab", control('d')), PromptAction::Ignore);
}

#[test]
fn the_prompt_enters_and_leaves_raw_mode() {
    let mut repl = repl();
    repl.take_output();
    repl.start_prompt();
    let output = repl.take_output();
    assert_eq!(output[0], TerminalOp::SavePosition);
    assert_eq!(visible(&output), "You › ");
    assert_eq!(
        output[output.len() - 3..],
        [
            TerminalOp::EnterRawMode,
            TerminalOp::PushKeyboardEnhancement,
            TerminalOp::Flush
        ]
    );
    let mut input = String::new();
    for character in "hi".chars() {
        assert_eq!(
            repl.read_prompt(&mut input, key(KeyCode::Char(character))),
            PromptStep::Waiting
        );
    }
    assert_eq!(input, "hi");
    let output = repl.take_output();
    assert_eq!(output[0], TerminalOp::RestorePosition);
    assert_eq!(visible(&output), "You › hYou › hi");
    assert_eq!(
        repl.read_prompt(&mut input, key(KeyCode::Enter)),
        PromptStep::Submitted("hi".into())
    );
    let output = repl.take_output();
    assert_eq!(
        output,
        vec![
            TerminalOp::RestorePosition,
            TerminalOp::ClearFromCursorDown,
            TerminalOp::Flush,
            TerminalOp::PopKeyboardEnhancement,
            TerminalOp::Flush,
            TerminalOp::Print("\r\n".into()),
            TerminalOp::Flush,
            TerminalOp::LeaveRawMode,
        ]
    );
    assert_eq!(
        repl.read_prompt(&mut input, control('c')),
        PromptStep::Interrupted
    );
    let mut empty = String::new();
    assert_eq!(
        repl.read_prompt(&mut empty, control('d')),
        PromptStep::EndOfInput
    );
}

#[test]
fn the_prompt_draws_lines_and_suggestions() {
    let mut repl = repl();
    repl.take_output();
    let mut input = "a".to_owned();
    repl.read_prompt(&mut input, key(KeyCode::Char('\n')));
    repl.read_prompt(&mut input, key(KeyCode::Char('b')));
    assert!(visible(&repl.take_output()).ends_with("You › a\r\n      b"));
    let mut input = "/hi".to_owned();
    repl.read_prompt(&mut input, key(KeyCode::Char('s')));
    let output = repl.take_output();
    assert_eq!(
        visible(&output),
        "You › /his  Commands  /history    Browse saved local sessions"
    );
    assert!(output.contains(&TerminalOp::Foreground(TextColor::DarkGrey)));
}

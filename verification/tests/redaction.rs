use adaptalk::json::JsonValue;
use adaptalk::redaction::Redactor;
use adaptalk::transcript::{TextBlock, TranscriptResponse};

fn string(text: &str) -> JsonValue {
    JsonValue::String(text.into())
}

#[test]
fn redacts_configured_and_structured_secrets() {
    let redactor = Redactor::new("very-secret-token");
    assert_eq!(
        redactor.text("Bearer very-secret-token"),
        "Bearer [redacted]"
    );
    assert_eq!(
        redactor
            .value(JsonValue::Object(vec![("secret".into(), string("nope"))]))
            .get("secret"),
        Some(&string("[redacted]"))
    );
}

#[test]
fn words_after_bearer_are_replaced_and_whitespace_stays() {
    let redactor = Redactor::default();
    assert_eq!(
        redactor.text("a  bEaReR\t\nxyz next"),
        "a  bEaReR\t\n[redacted] next"
    );
    assert_eq!(
        redactor.text("bearer bearer token"),
        "bearer [redacted] [redacted]"
    );
    assert_eq!(redactor.text("bearer"), "bearer");
    assert_eq!(redactor.text("bearers x"), "bearers x");
    assert_eq!(redactor.text(""), "");
}

#[test]
fn bearer_redaction_settles_after_one_pass() {
    let redactor = Redactor::default();
    for text in ["bearer a b", "x Bearer y bearer z", "bearer bearer bearer"] {
        let once = redactor.text(text);
        assert_eq!(redactor.text(&once), once);
    }
}

#[test]
fn the_configured_token_is_replaced_everywhere() {
    let redactor = Redactor::new("tok");
    assert_eq!(
        redactor.text("tok,xtoky tok"),
        "[redacted credential],x[redacted credential]y [redacted credential]"
    );
    let value = redactor.value(JsonValue::Array(vec![
        string("a tok"),
        JsonValue::Object(vec![
            ("note".into(), string("tok")),
            ("API_KEY".into(), JsonValue::Number("7".into())),
            ("passwords".into(), JsonValue::Null),
            ("Authorization".into(), JsonValue::Bool(true)),
            ("credentials".into(), JsonValue::Array(vec![])),
            ("token_count".into(), JsonValue::Number("3".into())),
        ]),
        JsonValue::Null,
        JsonValue::Bool(false),
        JsonValue::Number("12".into()),
    ]));
    assert_eq!(
        value,
        JsonValue::Array(vec![
            string("a [redacted credential]"),
            JsonValue::Object(vec![
                ("note".into(), string("[redacted credential]")),
                ("API_KEY".into(), string("[redacted]")),
                ("passwords".into(), string("[redacted]")),
                ("Authorization".into(), string("[redacted]")),
                ("credentials".into(), string("[redacted]")),
                ("[redacted credential]en_count".into(), string("[redacted]")),
            ]),
            JsonValue::Null,
            JsonValue::Bool(false),
            JsonValue::Number("12".into()),
        ])
    );
}

#[test]
fn responses_are_redacted_in_every_part() {
    let response = Redactor::new("tok")
        .transcript_response(TranscriptResponse {
            text_blocks: vec![TextBlock {
                text: "Bearer abc tok".into(),
            }],
            structured_result: Some(string("tok")),
            remote_chat_id: Some("chat-tok".into()),
        })
        .into_inner();
    assert_eq!(
        response,
        TranscriptResponse {
            text_blocks: vec![TextBlock {
                text: "Bearer [redacted] [redacted credential]".into(),
            }],
            structured_result: Some(string("[redacted credential]")),
            remote_chat_id: Some("chat-[redacted credential]".into()),
        }
    );
}

#[test]
fn a_token_in_a_key_or_a_number_is_replaced_too() {
    let redactor = Redactor::new("tk-91");
    assert_eq!(
        redactor.value(JsonValue::Object(vec![("tk-91".into(), JsonValue::Bool(true))])),
        JsonValue::Object(vec![(
            "[redacted credential]".into(),
            JsonValue::Bool(true)
        )])
    );
    assert_eq!(
        redactor.value(JsonValue::Array(vec![JsonValue::Object(vec![
            ("password of tk-91".into(), string("x")),
            ("Bearer abc".into(), JsonValue::Null),
            ("plain".into(), string("tk-91")),
        ])])),
        JsonValue::Array(vec![JsonValue::Object(vec![
            (
                "password of [redacted credential]".into(),
                string("[redacted]")
            ),
            ("Bearer [redacted]".into(), JsonValue::Null),
            ("plain".into(), string("[redacted credential]")),
        ])])
    );
    let redactor = Redactor::new("9876");
    assert_eq!(
        redactor.value(JsonValue::Array(vec![
            JsonValue::Number("198765".into()),
            JsonValue::Number("987".into()),
        ])),
        JsonValue::Array(vec![
            string("1[redacted credential]5"),
            JsonValue::Number("987".into()),
        ])
    );
    assert_eq!(
        Redactor::default().value(JsonValue::Number("9876".into())),
        JsonValue::Number("9876".into())
    );
}

#[test]
fn redacting_twice_is_redacting_once() {
    for token in ["tok", "ear", "tk-91"] {
        let redactor = Redactor::new(token);
        for text in [
            "Bearer tok next",
            "xtoky bearer tok tok",
            "Bearer Bearer ear",
            "a tk-91tk-91 bearer  tk-91\n",
            "",
        ] {
            let once = redactor.text(text);
            assert!(!once.contains(token));
            assert_eq!(redactor.text(&once), once);
        }
    }
}

use adaptalk::adapt_client::{Content, QueryResponse};
use adaptalk::json::JsonValue;
use adaptalk::transcript::{from_query_response, streaming_chunks, TextBlock, TranscriptResponse};

#[test]
fn keeps_one_opaque_structured_result_without_extracting_protocol_fields() {
    let structured = || {
        JsonValue::Object(vec![(
            "citations".into(),
            JsonValue::Array(vec![JsonValue::String("source".into())]),
        )])
    };
    let response = QueryResponse {
        content: vec![Content::Text("hello".into())],
        structured_content: Some(structured()),
        chat_id: Some("chat-1".into()),
    };
    let transcript = from_query_response(response);
    assert_eq!(
        transcript.text_blocks,
        vec![TextBlock {
            text: "hello".into()
        }]
    );
    assert_eq!(transcript.structured_result, Some(structured()));
    assert_eq!(transcript.remote_chat_id.as_deref(), Some("chat-1"));
    assert!(transcript.display_value().get("remote_chat_id").is_none());
}

#[test]
fn renders_non_text_content_as_a_stable_application_message() {
    let transcript = from_query_response(QueryResponse {
        content: vec![Content::Unsupported],
        structured_content: None,
        chat_id: None,
    });
    assert_eq!(
        transcript.text_blocks,
        vec![TextBlock {
            text: "[unsupported Adapt content]".into()
        }]
    );
}

#[test]
fn the_displayed_value_holds_texts_and_result() {
    let response = TranscriptResponse {
        text_blocks: vec![TextBlock { text: "a".into() }, TextBlock { text: "b".into() }],
        structured_result: None,
        remote_chat_id: Some("chat-1".into()),
    };
    assert_eq!(
        response.display_value(),
        JsonValue::Object(vec![
            (
                "text_blocks".into(),
                JsonValue::Array(vec![
                    JsonValue::String("a".into()),
                    JsonValue::String("b".into())
                ])
            ),
            ("structured_result".into(), JsonValue::Null),
        ])
    );
    assert_eq!(response.clone(), response);
}

#[test]
fn chunks_end_after_each_whitespace_character() {
    assert_eq!(streaming_chunks("a b\n\nc"), vec!["a ", "b\n", "\n", "c"]);
    assert_eq!(streaming_chunks(" "), vec![" "]);
    assert!(streaming_chunks("").is_empty());
    for text in ["one two  three\r\n", "é\u{2003}x", ""] {
        assert_eq!(streaming_chunks(text).concat(), text);
    }
}

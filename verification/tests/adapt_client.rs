use adaptalk::adapt_client::{
    authorize, exposed_under, is_read_only_under, is_verified_read_only, map_transport_error,
    transport_config, AdaptClient, AdaptClientError, Capability, Content, QueryPlan, ToolCall,
    ToolDescription, ToolReply,
};
use adaptalk::config::AdaptConfig;
use adaptalk::json::JsonValue;

fn config() -> AdaptConfig {
    AdaptConfig {
        bearer_token: "session-token".into(),
        endpoint: "https://app.adapt.com/mcp".into(),
        source: "/tmp/config.toml".into(),
        stream_delay_ms: 35,
    }
}

fn client() -> AdaptClient {
    match AdaptClient::connect(&config(), Ok(())) {
        Ok(client) => client,
        Err(_) => panic!("the client connects"),
    }
}

fn tool(name: &str, read_only_hint: Option<bool>) -> ToolDescription {
    ToolDescription {
        name: name.into(),
        description: Some(format!("{name} query")),
        read_only_hint,
    }
}

#[test]
fn adapt_client_transport_errors_redact_the_credential() {
    let error = map_transport_error(
        "request failed for Bearer super-secret-token",
        "super-secret-token",
    );
    let AdaptClientError::Transport(message) = error else {
        panic!("expected transport error");
    };
    assert!(!message.contains("super-secret-token"));
    assert!(message.contains("[redacted credential]"));
}

#[test]
fn adapt_client_authentication_errors_are_classified_consistently() {
    assert!(matches!(
        map_transport_error("server returned status code: 401", "secret"),
        AdaptClientError::AuthenticationRejected
    ));
    assert!(matches!(
        map_transport_error("Auth required", "secret"),
        AdaptClientError::AuthenticationRejected
    ));
    assert!(matches!(
        map_transport_error("server returned status code: 403", ""),
        AdaptClientError::AuthenticationRejected
    ));
}

#[test]
fn transport_config_passes_raw_token_to_rmcp() {
    assert_eq!(
        transport_config(&config()).auth_header.as_deref(),
        Some("session-token")
    );
    assert_eq!(transport_config(&config()).uri, "https://app.adapt.com/mcp");
}

#[test]
fn read_only_policy_requires_an_explicit_true_annotation() {
    let mut tool = tool("safe", None);
    assert!(!is_verified_read_only(&tool));
    tool.read_only_hint = Some(false);
    assert!(!is_verified_read_only(&tool));
    tool.read_only_hint = Some(true);
    assert!(!is_verified_read_only(&tool));
}

#[test]
fn ask_adapt_is_rejected_even_if_the_server_claims_it_is_read_only() {
    assert!(!is_verified_read_only(&tool("ask_adapt", Some(true))));
    assert_eq!(
        client().query("ask_adapt", "hi", Ok(vec![tool("ask_adapt", Some(true))])),
        Err(AdaptClientError::CapabilityNotReadOnly("ask_adapt".into()))
    );
}

#[test]
fn a_verified_name_needs_the_annotation_as_well() {
    let verified = vec!["search".to_owned()];
    assert!(is_read_only_under(&tool("search", Some(true)), &verified));
    assert!(!is_read_only_under(&tool("search", Some(false)), &verified));
    assert!(!is_read_only_under(&tool("search", None), &verified));
    assert!(!is_read_only_under(&tool("other", Some(true)), &verified));
}

#[test]
fn only_verified_capabilities_are_exposed_in_order() {
    let verified = vec!["b".to_owned(), "a".to_owned()];
    let tools = vec![
        tool("a", Some(true)),
        tool("x", Some(true)),
        tool("b", Some(true)),
        tool("a", None),
    ];
    let names: Vec<String> = exposed_under(&tools, &verified)
        .into_iter()
        .map(|capability| capability.name)
        .collect();
    assert_eq!(names, vec!["a", "b"]);
}

#[test]
fn the_first_tool_with_the_name_decides() {
    let verified = vec!["a".to_owned()];
    let tools = vec![tool("a", Some(false)), tool("a", Some(true))];
    assert_eq!(
        authorize("a", "hi", &tools, &verified),
        Err(AdaptClientError::CapabilityNotReadOnly("a".into()))
    );
    let tools = vec![tool("a", Some(true)), tool("a", Some(false))];
    assert_eq!(
        authorize("a", "hi", &tools, &verified),
        Ok(ToolCall {
            name: "a".into(),
            arguments: vec![("prompt".into(), "hi".into())]
        })
    );
}

#[test]
fn discovery_lists_every_capability_and_exposes_none() {
    let tools = || Ok(vec![tool("a", Some(true)), tool("b", None)]);
    assert_eq!(
        client().discover_capabilities(tools()),
        Ok(vec![
            Capability {
                name: "a".into(),
                description: Some("a query".into())
            },
            Capability {
                name: "b".into(),
                description: Some("b query".into())
            },
        ])
    );
    assert_eq!(client().discover_read_only_capabilities(tools()), Ok(vec![]));
    assert_eq!(
        client().query_read_only(tools()),
        Err(AdaptClientError::NoReadOnlyCapability)
    );
}

#[test]
fn listing_failures_are_sanitized_everywhere() {
    let failed = || Err("cannot reach host with session-token".to_owned());
    let expected = AdaptClientError::Transport("cannot reach host with [redacted credential]".into());
    assert_eq!(
        client().discover_capabilities(failed()),
        Err(AdaptClientError::Transport(
            "cannot reach host with [redacted credential]".into()
        ))
    );
    assert!(client().discover_read_only_capabilities(failed()).is_err());
    assert!(client().query_read_only(failed()).is_err());
    assert_eq!(client().query("a", "hi", failed()), Err(expected));
    assert!(matches!(
        AdaptClient::connect(&config(), Err("Auth required".into())),
        Err(AdaptClientError::AuthenticationRejected)
    ));
}

#[test]
fn ask_adapt_needs_the_opt_in_and_carries_the_continuation() {
    assert_eq!(
        client().query_ask_adapt_in_conversation("hi", None, false),
        Err(AdaptClientError::CapabilityNotReadOnly("ask_adapt".into()))
    );
    assert_eq!(
        client().query_ask_adapt_in_conversation("hi", None, true),
        Ok(ToolCall {
            name: "ask_adapt".into(),
            arguments: vec![("prompt".into(), "hi".into())]
        })
    );
    assert_eq!(
        client().query_ask_adapt_in_conversation("hi", Some("chat-1"), true),
        Ok(ToolCall {
            name: "ask_adapt".into(),
            arguments: vec![
                ("prompt".into(), "hi".into()),
                ("chat_id".into(), "chat-1".into())
            ]
        })
    );
}

#[test]
fn prompts_go_to_ask_adapt_only_with_the_opt_in() {
    assert_eq!(
        client().plan_query("hi", Some("chat-1"), false),
        QueryPlan::SelectReadOnly
    );
    assert_eq!(
        client().plan_query("hi", Some("chat-1"), true),
        QueryPlan::Call(
            client()
                .query_ask_adapt_in_conversation("hi", Some("chat-1"), true)
                .unwrap()
        )
    );
}

#[test]
fn replies_become_responses_or_failures() {
    let call = client()
        .query_ask_adapt_in_conversation("hi", None, true)
        .unwrap();
    let structured = || {
        Some(JsonValue::Object(vec![(
            "chat_id".into(),
            JsonValue::String("chat-9".into()),
        )]))
    };
    let response = client()
        .query_result(
            &call,
            Ok(ToolReply {
                is_error: None,
                content: vec![Content::Text("ok".into())],
                structured_content: structured(),
            }),
        )
        .unwrap();
    assert_eq!(response.chat_id.as_deref(), Some("chat-9"));
    assert_eq!(response.content, vec![Content::Text("ok".into())]);
    assert_eq!(response.structured_content, structured());

    let other = ToolCall {
        name: "search".into(),
        arguments: vec![],
    };
    let response = client()
        .query_result(
            &other,
            Ok(ToolReply {
                is_error: Some(false),
                content: vec![],
                structured_content: structured(),
            }),
        )
        .unwrap();
    assert_eq!(response.chat_id, None);

    assert_eq!(
        client().query_result(
            &other,
            Ok(ToolReply {
                is_error: Some(true),
                content: vec![],
                structured_content: None,
            }),
        ),
        Err(AdaptClientError::CapabilityFailed("search".into()))
    );
    assert_eq!(
        client().query_result(&other, Err("status code: 401".into())),
        Err(AdaptClientError::AuthenticationRejected)
    );
}

#[test]
fn client_errors_have_their_messages() {
    assert_eq!(
        AdaptClientError::AuthenticationRejected.message(),
        "Adapt authentication was rejected by the server"
    );
    assert_eq!(
        AdaptClientError::CapabilityNotReadOnly("x".into()).message(),
        "Adapt capability `x` is not verified as read-only"
    );
    assert_eq!(
        AdaptClientError::CapabilityFailed("x".into()).message(),
        "Adapt capability `x` returned an error"
    );
    assert_eq!(
        AdaptClientError::NoReadOnlyCapability.message(),
        "Adapt has no verified read-only capability available"
    );
    assert_eq!(
        AdaptClientError::Transport("x".into()).message(),
        "Adapt endpoint or transport failed: x"
    );
}

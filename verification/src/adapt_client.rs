//! The read-only policy boundary of the Adapt client.

use vstd::prelude::*;
use vstd::string::*;

use crate::auth::{
    is_rejection_text, rejection_stands_at, rejection_text, rejections_are_known_by_their_phrases,
    sanitize_transport_error, sanitized, sanitized_text_hides_the_credential,
};
use crate::config::AdaptConfig;
use crate::json::{
    keys_find_their_first_member, member, option_json_view, unknown_keys_find_nothing, JsonValue,
    JsonView,
};
use crate::redaction::overlaps;
use crate::text::{ascii_lowercase, contains, option_view, same_text, views};
use crate::transcript::copy_option;

verus! {

/// A capability that the server offers.
#[derive(Debug, PartialEq, Eq)]
pub struct Capability {
    pub name: String,
    pub description: Option<String>,
}

/// The mathematical counterpart of `Capability`.
pub struct CapabilityView {
    pub name: Seq<char>,
    pub description: Option<Seq<char>>,
}

impl View for Capability {
    type V = CapabilityView;

    open spec fn view(&self) -> CapabilityView {
        CapabilityView { name: self.name@, description: option_view(self.description) }
    }
}

/// What the server says of one of its tools.
#[derive(Debug, PartialEq, Eq)]
pub struct ToolDescription {
    pub name: String,
    pub description: Option<String>,
    /// The server's own `readOnlyHint` annotation.
    pub read_only_hint: Option<bool>,
}

/// The mathematical counterpart of `ToolDescription`.
pub struct ToolView {
    pub name: Seq<char>,
    pub description: Option<Seq<char>>,
    pub read_only_hint: Option<bool>,
}

impl View for ToolDescription {
    type V = ToolView;

    open spec fn view(&self) -> ToolView {
        ToolView {
            name: self.name@,
            description: option_view(self.description),
            read_only_hint: self.read_only_hint,
        }
    }
}

pub open spec fn tool_views(tools: Seq<ToolDescription>) -> Seq<ToolView> {
    Seq::new(tools.len(), |i: int| tools[i]@)
}

pub open spec fn capability_views(capabilities: Seq<Capability>) -> Seq<CapabilityView> {
    Seq::new(capabilities.len(), |i: int| capabilities[i]@)
}

/// One part of a tool's answer.
#[derive(Debug, PartialEq, Eq)]
pub enum Content {
    Text(String),
    Unsupported,
}

/// The mathematical counterpart of `Content`.
pub enum ContentView {
    Text(Seq<char>),
    Unsupported,
}

impl View for Content {
    type V = ContentView;

    open spec fn view(&self) -> ContentView {
        match self {
            Content::Text(text) => ContentView::Text(text@),
            Content::Unsupported => ContentView::Unsupported,
        }
    }
}

pub open spec fn content_views(content: Seq<Content>) -> Seq<ContentView> {
    Seq::new(content.len(), |i: int| content[i]@)
}

/// A tool's answer to a prompt.
#[derive(Debug, PartialEq, Eq)]
pub struct QueryResponse {
    pub content: Vec<Content>,
    pub structured_content: Option<JsonValue>,
    pub chat_id: Option<String>,
}

/// The mathematical counterpart of `QueryResponse`.
pub struct QueryResponseView {
    pub content: Seq<ContentView>,
    pub structured_content: Option<JsonView>,
    pub chat_id: Option<Seq<char>>,
}

impl View for QueryResponse {
    type V = QueryResponseView;

    open spec fn view(&self) -> QueryResponseView {
        QueryResponseView {
            content: content_views(self.content@),
            structured_content: option_json_view(self.structured_content),
            chat_id: option_view(self.chat_id),
        }
    }
}

/// Why a request to Adapt was refused or failed.
#[derive(Debug, PartialEq, Eq)]
pub enum AdaptClientError {
    AuthenticationRejected,
    CapabilityNotReadOnly(String),
    CapabilityFailed(String),
    NoReadOnlyCapability,
    Transport(String),
}

/// The mathematical counterpart of `AdaptClientError`.
pub enum AdaptClientErrorView {
    AuthenticationRejected,
    CapabilityNotReadOnly(Seq<char>),
    CapabilityFailed(Seq<char>),
    NoReadOnlyCapability,
    Transport(Seq<char>),
}

impl View for AdaptClientError {
    type V = AdaptClientErrorView;

    open spec fn view(&self) -> AdaptClientErrorView {
        match self {
            AdaptClientError::AuthenticationRejected =>
                AdaptClientErrorView::AuthenticationRejected,
            AdaptClientError::CapabilityNotReadOnly(name) =>
                AdaptClientErrorView::CapabilityNotReadOnly(name@),
            AdaptClientError::CapabilityFailed(name) =>
                AdaptClientErrorView::CapabilityFailed(name@),
            AdaptClientError::NoReadOnlyCapability => AdaptClientErrorView::NoReadOnlyCapability,
            AdaptClientError::Transport(text) => AdaptClientErrorView::Transport(text@),
        }
    }
}

/// The message that an error shows.
pub open spec fn error_message(error: AdaptClientErrorView) -> Seq<char> {
    match error {
        AdaptClientErrorView::AuthenticationRejected =>
            "Adapt authentication was rejected by the server"@,
        AdaptClientErrorView::CapabilityNotReadOnly(name) => "Adapt capability `"@ + name
            + "` is not verified as read-only"@,
        AdaptClientErrorView::CapabilityFailed(name) => "Adapt capability `"@ + name
            + "` returned an error"@,
        AdaptClientErrorView::NoReadOnlyCapability =>
            "Adapt has no verified read-only capability available"@,
        AdaptClientErrorView::Transport(detail) => "Adapt endpoint or transport failed: "@ + detail,
    }
}

impl AdaptClientError {
    /// The message shown to the user.
    pub fn message(&self) -> (text: String)
        ensures
            text@ == error_message(self@),
    {
        match self {
            AdaptClientError::AuthenticationRejected =>
                "Adapt authentication was rejected by the server".to_owned(),
            AdaptClientError::CapabilityNotReadOnly(name) => {
                let mut text = "Adapt capability `".to_owned();
                text.append(name.as_str());
                text.append("` is not verified as read-only");
                text
            },
            AdaptClientError::CapabilityFailed(name) => {
                let mut text = "Adapt capability `".to_owned();
                text.append(name.as_str());
                text.append("` returned an error");
                text
            },
            AdaptClientError::NoReadOnlyCapability =>
                "Adapt has no verified read-only capability available".to_owned(),
            AdaptClientError::Transport(detail) => {
                let mut text = "Adapt endpoint or transport failed: ".to_owned();
                text.append(detail.as_str());
                text
            },
        }
    }
}

/// The names of the capabilities that Adapt documents and verifies as non-mutating: none so far.
/// A server's annotations are hints and cannot authorize a call on their own.
pub open spec fn verified_read_only_capabilities() -> Seq<Seq<char>> {
    Seq::empty()
}

fn verified_names() -> (names: Vec<String>)
    ensures
        views(names@) == verified_read_only_capabilities(),
{
    let names: Vec<String> = Vec::new();
    assert(views(names@) =~= Seq::<Seq<char>>::empty());
    names
}

/// The tool's name is on the list, and the server marks the tool as read-only.
pub open spec fn read_only_under(tool: ToolView, verified: Seq<Seq<char>>) -> bool {
    verified.contains(tool.name) && tool.read_only_hint == Some(true)
}

/// How a transport error with the given text is classified.
pub open spec fn transport_error(text: Seq<char>, credential: Seq<char>) -> AdaptClientErrorView {
    if rejection_text(text) {
        AdaptClientErrorView::AuthenticationRejected
    } else {
        AdaptClientErrorView::Transport(sanitized(text, credential))
    }
}

/// Classify a transport error as authentication failure or generic transport issue.
pub fn map_transport_error(error: &str, credential: &str) -> (mapped: AdaptClientError)
    ensures
        mapped@ == transport_error(error@, credential@),
{
    if is_rejection_text(error) {
        AdaptClientError::AuthenticationRejected
    } else {
        AdaptClientError::Transport(sanitize_transport_error(error, credential))
    }
}

/// Whether the tool's name is on the list and the server marks the tool as read-only.
pub fn is_read_only_under(tool: &ToolDescription, verified: &Vec<String>) -> (allowed: bool)
    ensures
        allowed == read_only_under(tool@, views(verified@)),
{
    let mut listed = false;
    let mut i: usize = 0;
    while i < verified.len()
        invariant
            i <= verified@.len(),
            listed == views(verified@).take(i as int).contains(tool.name@),
        decreases verified@.len() - i,
    {
        let ghost seen = views(verified@).take(i as int);
        let ghost all = views(verified@).take(i + 1);
        assert(all =~= seen.push(verified@[i as int]@));
        if same_text(verified[i].as_str(), tool.name.as_str()) {
            assert(all[i as int] == tool.name@);
            listed = true;
        } else if listed {
            let ghost at = choose|j: int| 0 <= j < seen.len() && seen[j] == tool.name@;
            assert(all[at] == tool.name@);
        }
        i += 1;
    }
    assert(views(verified@).take(i as int) =~= views(verified@));
    let hinted = match tool.read_only_hint {
        Some(hint) => hint,
        None => false,
    };
    listed && hinted
}

/// Whether the tool may be called without an opt-in.
pub fn is_verified_read_only(tool: &ToolDescription) -> (allowed: bool)
    ensures
        allowed == read_only_under(tool@, verified_read_only_capabilities()),
{
    is_read_only_under(tool, &verified_names())
}

/// What the application shows of a tool.
pub open spec fn capability_of(tool: ToolView) -> CapabilityView {
    CapabilityView { name: tool.name, description: tool.description }
}

/// The capabilities among the tools that the list verifies, in the order of the tools.
pub open spec fn exposed(tools: Seq<ToolView>, verified: Seq<Seq<char>>) -> Seq<CapabilityView>
    decreases tools.len(),
{
    if tools.len() == 0 {
        Seq::empty()
    } else {
        let before = exposed(tools.drop_last(), verified);
        if read_only_under(tools.last(), verified) {
            before.push(capability_of(tools.last()))
        } else {
            before
        }
    }
}

fn capability_from(tool: &ToolDescription) -> (capability: Capability)
    ensures
        capability@ == capability_of(tool@),
{
    Capability { name: tool.name.clone(), description: copy_option(&tool.description) }
}

/// The capabilities among the tools that the list verifies.
pub fn exposed_under(tools: &Vec<ToolDescription>, verified: &Vec<String>) -> (capabilities: Vec<
    Capability,
>)
    ensures
        capability_views(capabilities@) == exposed(tool_views(tools@), views(verified@)),
{
    let mut capabilities: Vec<Capability> = Vec::new();
    let mut i: usize = 0;
    assert(capability_views(capabilities@) =~= exposed(
        tool_views(tools@).take(0),
        views(verified@),
    ));
    while i < tools.len()
        invariant
            i <= tools@.len(),
            capability_views(capabilities@) == exposed(
                tool_views(tools@).take(i as int),
                views(verified@),
            ),
        decreases tools@.len() - i,
    {
        let ghost before = capability_views(capabilities@);
        let ghost next = tool_views(tools@).take(i + 1);
        assert(next.drop_last() =~= tool_views(tools@).take(i as int));
        assert(next.last() == tools@[i as int]@);
        if is_read_only_under(&tools[i], verified) {
            capabilities.push(capability_from(&tools[i]));
            assert(capability_views(capabilities@) =~= before.push(
                capability_of(tools@[i as int]@),
            ));
        }
        i += 1;
    }
    assert(tool_views(tools@).take(i as int) =~= tool_views(tools@));
    capabilities
}

/// A call of a tool: its name and its text arguments.
#[derive(Debug, PartialEq, Eq)]
pub struct ToolCall {
    pub name: String,
    pub arguments: Vec<(String, String)>,
}

/// The mathematical counterpart of `ToolCall`.
#[verifier::ext_equal]
pub struct ToolCallView {
    pub name: Seq<char>,
    pub arguments: Seq<(Seq<char>, Seq<char>)>,
}

pub open spec fn argument_views(arguments: Seq<(String, String)>) -> Seq<(Seq<char>, Seq<char>)> {
    Seq::new(arguments.len(), |i: int| (arguments[i].0@, arguments[i].1@))
}

impl View for ToolCall {
    type V = ToolCallView;

    open spec fn view(&self) -> ToolCallView {
        ToolCallView { name: self.name@, arguments: argument_views(self.arguments@) }
    }
}

/// How a prompt is submitted.
#[derive(Debug, PartialEq, Eq)]
pub enum QueryPlan {
    /// Make this call.
    Call(ToolCall),
    /// Select a capability with `query_read_only`, then submit the prompt to it with `query`.
    SelectReadOnly,
}

/// What a called tool gives back.
#[derive(Debug, PartialEq, Eq)]
pub struct ToolReply {
    pub is_error: Option<bool>,
    pub content: Vec<Content>,
    pub structured_content: Option<JsonValue>,
}

/// The call that submits a prompt to a capability.
pub open spec fn prompt_call(capability: Seq<char>, prompt: Seq<char>) -> ToolCallView {
    ToolCallView { name: capability, arguments: seq![("prompt"@, prompt)] }
}

/// The first tool with the given name.
pub open spec fn first_named(tools: Seq<ToolView>, name: Seq<char>) -> Option<ToolView>
    decreases tools.len(),
{
    if tools.len() == 0 {
        None
    } else if tools[0].name == name {
        Some(tools[0])
    } else {
        first_named(tools.skip(1), name)
    }
}

/// The call that the list authorizes for a prompt, or the refusal. The first tool with the
/// capability's name decides.
pub open spec fn authorized(
    capability: Seq<char>,
    prompt: Seq<char>,
    tools: Seq<ToolView>,
    verified: Seq<Seq<char>>,
) -> Result<ToolCallView, AdaptClientErrorView> {
    match first_named(tools, capability) {
        Some(tool) if read_only_under(tool, verified) => Ok(prompt_call(capability, prompt)),
        _ => Err(AdaptClientErrorView::CapabilityNotReadOnly(capability)),
    }
}

/// The view of the outcome of a request.
pub open spec fn call_view(call: Result<ToolCall, AdaptClientError>) -> Result<
    ToolCallView,
    AdaptClientErrorView,
> {
    match call {
        Ok(call) => Ok(call@),
        Err(error) => Err(error@),
    }
}

/// The call that the list authorizes for a prompt, or the refusal.
pub fn authorize(
    capability: &str,
    prompt: &str,
    tools: &Vec<ToolDescription>,
    verified: &Vec<String>,
) -> (call: Result<ToolCall, AdaptClientError>)
    ensures
        call_view(call) == authorized(
            capability@,
            prompt@,
            tool_views(tools@),
            views(verified@),
        ),
{
    let mut i: usize = 0;
    assert(tool_views(tools@).skip(0) =~= tool_views(tools@));
    while i < tools.len()
        invariant
            i <= tools@.len(),
            first_named(tool_views(tools@).skip(i as int), capability@) == first_named(
                tool_views(tools@),
                capability@,
            ),
        decreases tools@.len() - i,
    {
        assert(tool_views(tools@).skip(i as int).skip(1) =~= tool_views(tools@).skip(i + 1));
        if same_text(tools[i].name.as_str(), capability) {
            if !is_read_only_under(&tools[i], verified) {
                return Err(AdaptClientError::CapabilityNotReadOnly(capability.to_owned()));
            }
            let mut arguments: Vec<(String, String)> = Vec::new();
            arguments.push(("prompt".to_owned(), prompt.to_owned()));
            let call = ToolCall { name: capability.to_owned(), arguments };
            assert(call@ =~= prompt_call(capability@, prompt@));
            return Ok(call);
        }
        i += 1;
    }
    Err(AdaptClientError::CapabilityNotReadOnly(capability.to_owned()))
}

/// What a listing of the server's tools gave: the tools, or the text of the transport error.
pub open spec fn listing_view(tools: Result<Vec<ToolDescription>, String>) -> Result<
    Seq<ToolView>,
    Seq<char>,
> {
    match tools {
        Ok(tools) => Ok(tool_views(tools@)),
        Err(error) => Err(error@),
    }
}

/// Where and how the client connects.
#[derive(Debug, PartialEq, Eq)]
pub struct TransportConfig {
    pub uri: String,
    /// The raw session token; the transport adds the `Bearer ` prefix.
    pub auth_header: Option<String>,
}

/// The transport settings for a configuration.
pub fn transport_config(config: &AdaptConfig) -> (transport: TransportConfig)
    ensures
        transport.uri@ == config@.endpoint,
        option_view(transport.auth_header) == Some(config@.bearer_token),
{
    TransportConfig {
        uri: config.endpoint.clone(),
        auth_header: Some(config.bearer_token.clone()),
    }
}

/// The policy of one connection to Adapt: which requests may go out, and what their replies mean.
pub struct AdaptClient {
    credential: String,
}

impl View for AdaptClient {
    type V = Seq<char>;

    /// The credential that must not appear in error messages.
    closed spec fn view(&self) -> Seq<char> {
        self.credential@
    }
}

/// The call of `ask_adapt`, with the ID of the conversation that it continues, if any.
pub open spec fn ask_adapt_call(prompt: Seq<char>, continuation: Option<Seq<char>>) -> ToolCallView {
    ToolCallView {
        name: "ask_adapt"@,
        arguments: match continuation {
            Some(chat_id) => seq![("prompt"@, prompt), ("chat_id"@, chat_id)],
            None => seq![("prompt"@, prompt)],
        },
    }
}

/// The `chat_id` text of a structured result.
pub open spec fn reported_chat_id(structured_content: Option<JsonView>) -> Option<Seq<char>> {
    match structured_content {
        Some(value) => match member(value, "chat_id"@) {
            Some(JsonView::String(id)) => Some(id),
            _ => None,
        },
        None => None,
    }
}

fn chat_id_of(structured_content: &Option<JsonValue>) -> (id: Option<String>)
    ensures
        option_view(id) == reported_chat_id(option_json_view(*structured_content)),
{
    match structured_content {
        Some(value) => match value.get("chat_id") {
            Some(JsonValue::String(id)) => Some(id.clone()),
            _ => None,
        },
        None => None,
    }
}

impl AdaptClient {
    /// The client for a configuration, once the protocol initialization has succeeded or failed
    /// with the given error text.
    pub fn connect(config: &AdaptConfig, initialized: Result<(), String>) -> (client: Result<
        Self,
        AdaptClientError,
    >)
        ensures
            match initialized {
                Ok(_) => client is Ok && client->Ok_0@ == config@.bearer_token,
                Err(error) => client is Err && client->Err_0@ == transport_error(
                    error@,
                    config@.bearer_token,
                ),
            },
    {
        match initialized {
            Ok(_) => Ok(AdaptClient { credential: config.bearer_token.clone() }),
            Err(error) => Err(
                map_transport_error(error.as_str(), config.bearer_token.as_str()),
            ),
        }
    }

    /// Every capability that the server lists.
    pub fn discover_capabilities(&self, tools: Result<Vec<ToolDescription>, String>) -> (found:
        Result<Vec<Capability>, AdaptClientError>)
        ensures
            match listing_view(tools) {
                Ok(tools) => found is Ok && capability_views(found->Ok_0@) == tools.map_values(
                    |tool: ToolView| capability_of(tool),
                ),
                Err(error) => found is Err && found->Err_0@ == transport_error(error, self@),
            },
    {
        let tools = match tools {
            Ok(tools) => tools,
            Err(error) => {
                return Err(map_transport_error(error.as_str(), self.credential.as_str()));
            },
        };
        let mut capabilities: Vec<Capability> = Vec::new();
        let mut i: usize = 0;
        while i < tools.len()
            invariant
                i <= tools@.len(),
                capabilities@.len() == i,
                forall|j: int|
                    0 <= j < i ==> (#[trigger] capabilities@[j])@ == capability_of(tools@[j]@),
            decreases tools@.len() - i,
        {
            capabilities.push(capability_from(&tools[i]));
            i += 1;
        }
        assert(capability_views(capabilities@) =~= tool_views(tools@).map_values(
            |tool: ToolView| capability_of(tool),
        ));
        Ok(capabilities)
    }

    /// Only the capabilities explicitly verified as read-only by Adapt.
    ///
    /// A server annotation is required, but it is not sufficient: the name must also be on the
    /// Adapt-specific verification list.
    pub fn discover_read_only_capabilities(&self, tools: Result<Vec<ToolDescription>, String>) -> (
    found: Result<Vec<Capability>, AdaptClientError>)
        ensures
            match listing_view(tools) {
                Ok(tools) => found is Ok && capability_views(found->Ok_0@) == exposed(
                    tools,
                    verified_read_only_capabilities(),
                ),
                Err(error) => found is Err && found->Err_0@ == transport_error(error, self@),
            },
    {
        match tools {
            Ok(tools) => Ok(exposed_under(&tools, &verified_names())),
            Err(error) => Err(map_transport_error(error.as_str(), self.credential.as_str())),
        }
    }

    /// The call that submits the prompt to the selected capability, if the server lists it and it
    /// is verified as read-only.
    pub fn query(
        &self,
        capability: &str,
        prompt: &str,
        tools: Result<Vec<ToolDescription>, String>,
    ) -> (call: Result<ToolCall, AdaptClientError>)
        ensures
            call_view(call) == (match listing_view(tools) {
                Ok(tools) => authorized(
                    capability@,
                    prompt@,
                    tools,
                    verified_read_only_capabilities(),
                ),
                Err(error) => Err(transport_error(error, self@)),
            }),
    {
        match tools {
            Ok(tools) => authorize(capability, prompt, &tools, &verified_names()),
            Err(error) => Err(map_transport_error(error.as_str(), self.credential.as_str())),
        }
    }

    /// The capability through which a prompt goes: the first one verified as read-only. The prompt
    /// is then submitted with `query`.
    ///
    /// Keeping capability selection here prevents the terminal layer from making policy decisions
    /// or accidentally invoking an unverified tool.
    pub fn query_read_only(&self, tools: Result<Vec<ToolDescription>, String>) -> (selected: Result<
        Capability,
        AdaptClientError,
    >)
        ensures
            match listing_view(tools) {
                Ok(tools) => {
                    let capabilities = exposed(tools, verified_read_only_capabilities());
                    if capabilities.len() == 0 {
                        selected is Err && selected->Err_0 == AdaptClientError::NoReadOnlyCapability
                    } else {
                        selected is Ok && selected->Ok_0@ == capabilities[0]
                    }
                },
                Err(error) => selected is Err && selected->Err_0@ == transport_error(error, self@),
            },
    {
        let mut capabilities = self.discover_read_only_capabilities(tools)?;
        if capabilities.len() == 0 {
            Err(AdaptClientError::NoReadOnlyCapability)
        } else {
            Ok(capabilities.remove(0))
        }
    }

    /// The call of the unverified `ask_adapt`, which only the development opt-in allows.
    pub fn query_ask_adapt_in_conversation(
        &self,
        prompt: &str,
        continuation: Option<&str>,
        allow_unverified_ask_adapt: bool,
    ) -> (call: Result<ToolCall, AdaptClientError>)
        ensures
            call_view(call) == (if allow_unverified_ask_adapt {
                Ok(
                    ask_adapt_call(
                        prompt@,
                        match continuation {
                            Some(chat_id) => Some(chat_id@),
                            None => None,
                        },
                    ),
                )
            } else {
                Err(AdaptClientErrorView::CapabilityNotReadOnly("ask_adapt"@))
            }),
    {
        if !allow_unverified_ask_adapt {
            return Err(AdaptClientError::CapabilityNotReadOnly("ask_adapt".to_owned()));
        }
        let mut arguments: Vec<(String, String)> = Vec::new();
        arguments.push(("prompt".to_owned(), prompt.to_owned()));
        if let Some(chat_id) = continuation {
            arguments.push(("chat_id".to_owned(), chat_id.to_owned()));
        }
        let call = ToolCall { name: "ask_adapt".to_owned(), arguments };
        assert(call@ =~= ask_adapt_call(
            prompt@,
            match continuation {
                Some(chat_id) => Some(chat_id@),
                None => None,
            },
        ));
        Ok(call)
    }

    /// How a prompt is submitted: by `ask_adapt` where the development opt-in allows it, and
    /// otherwise by a capability verified as read-only, which never continues a conversation.
    pub fn plan_query(
        &self,
        prompt: &str,
        continuation: Option<&str>,
        allow_unverified_ask_adapt: bool,
    ) -> (plan: QueryPlan)
        ensures
            match plan {
                QueryPlan::Call(call) => {
                    &&& allow_unverified_ask_adapt
                    &&& call@ == ask_adapt_call(
                        prompt@,
                        match continuation {
                            Some(chat_id) => Some(chat_id@),
                            None => None,
                        },
                    )
                },
                QueryPlan::SelectReadOnly => !allow_unverified_ask_adapt,
            },
    {
        match self.query_ask_adapt_in_conversation(
            prompt,
            continuation,
            allow_unverified_ask_adapt,
        ) {
            Ok(call) => QueryPlan::Call(call),
            Err(_) => QueryPlan::SelectReadOnly,
        }
    }

    /// What the reply to a call means: the tool's reply, or the text of the transport error.
    pub fn query_result(&self, call: &ToolCall, reply: Result<ToolReply, String>) -> (response:
        Result<QueryResponse, AdaptClientError>)
        ensures
            match reply {
                Ok(reply) => if reply.is_error == Some(true) {
                    response is Err && response->Err_0@ == AdaptClientErrorView::CapabilityFailed(
                        call@.name,
                    )
                } else {
                    &&& response is Ok
                    &&& response->Ok_0@.content == content_views(reply.content@)
                    &&& response->Ok_0@.structured_content == option_json_view(
                        reply.structured_content,
                    )
                    &&& response->Ok_0@.chat_id == (if call@.name == "ask_adapt"@ {
                        reported_chat_id(option_json_view(reply.structured_content))
                    } else {
                        None
                    })
                },
                Err(error) => response is Err && response->Err_0@ == transport_error(error@, self@),
            },
    {
        let reply = match reply {
            Ok(reply) => reply,
            Err(error) => {
                return Err(map_transport_error(error.as_str(), self.credential.as_str()));
            },
        };
        let failed = match reply.is_error {
            Some(is_error) => is_error,
            None => false,
        };
        if failed {
            return Err(AdaptClientError::CapabilityFailed(call.name.clone()));
        }
        let chat_id = if same_text(call.name.as_str(), "ask_adapt") {
            chat_id_of(&reply.structured_content)
        } else {
            None
        };
        Ok(
            QueryResponse {
                content: reply.content,
                structured_content: reply.structured_content,
                chat_id,
            },
        )
    }
}

/// Every exposed capability is a tool whose name is verified and which the server marks as
/// read-only.
pub proof fn exposed_capabilities_are_verified(
    tools: Seq<ToolView>,
    verified: Seq<Seq<char>>,
    i: int,
)
    requires
        0 <= i < exposed(tools, verified).len(),
    ensures
        exists|j: int|
            0 <= j < tools.len() && read_only_under(#[trigger] tools[j], verified)
                && capability_of(tools[j]) == exposed(tools, verified)[i],
    decreases tools.len(),
{
    let rest = tools.drop_last();
    if i < exposed(rest, verified).len() {
        exposed_capabilities_are_verified(rest, verified, i);
        let j = choose|j: int|
            0 <= j < rest.len() && read_only_under(#[trigger] rest[j], verified) && capability_of(
                rest[j],
            ) == exposed(rest, verified)[i];
        assert(tools[j] == rest[j]);
    } else {
        assert(read_only_under(tools[tools.len() - 1], verified));
    }
}

/// A call goes out only to a listed tool whose name is verified and which the server marks as
/// read-only, and then it carries the prompt unchanged.
pub proof fn authorized_calls_are_verified(
    capability: Seq<char>,
    prompt: Seq<char>,
    tools: Seq<ToolView>,
    verified: Seq<Seq<char>>,
)
    requires
        authorized(capability, prompt, tools, verified) is Ok,
    ensures
        authorized(capability, prompt, tools, verified)->Ok_0 == prompt_call(capability, prompt),
        exists|j: int|
            0 <= j < tools.len() && (#[trigger] tools[j]).name == capability && read_only_under(
                tools[j],
                verified,
            ),
    decreases tools.len(),
{
    if tools[0].name != capability {
        authorized_calls_are_verified(capability, prompt, tools.skip(1), verified);
        let rest = tools.skip(1);
        let j = choose|j: int|
            0 <= j < rest.len() && (#[trigger] rest[j]).name == capability && read_only_under(
                rest[j],
                verified,
            );
        assert(tools[j + 1] == rest[j]);
    } else {
        assert(tools[0].name == capability);
    }
}

/// As long as no capability is verified, none is exposed and no query is authorized, whatever the
/// server claims; this holds of `ask_adapt` as of every other name.
pub proof fn unverified_capabilities_fail_closed(
    capability: Seq<char>,
    prompt: Seq<char>,
    tools: Seq<ToolView>,
)
    ensures
        exposed(tools, verified_read_only_capabilities()).len() == 0,
        authorized(capability, prompt, tools, verified_read_only_capabilities()) == Err::<
            ToolCallView,
            AdaptClientErrorView,
        >(AdaptClientErrorView::CapabilityNotReadOnly(capability)),
    decreases tools.len(),
{
    if tools.len() > 0 {
        unverified_capabilities_fail_closed(capability, prompt, tools.drop_last());
    }
}

/// Unless the credential overlaps the marker that stands in for it, no classified transport error
/// holds it.
pub proof fn transport_errors_hide_the_credential(text: Seq<char>, credential: Seq<char>)
    requires
        credential.len() > 0,
        !overlaps(credential, "[redacted credential]"@),
    ensures
        transport_error(text, credential) matches AdaptClientErrorView::Transport(detail)
            ==> !contains(detail, credential),
{
    sanitized_text_hides_the_credential(text, credential);
}

/// A tool is exposed exactly if its name is verified and the server says that it is read-only; the
/// exposed tools keep their order, their names and their descriptions.
pub proof fn exactly_the_verified_tools_are_exposed(
    tools: Seq<ToolView>,
    tool: ToolView,
    verified: Seq<Seq<char>>,
)
    ensures
        exposed(Seq::empty(), verified).len() == 0,
        (exists|i: int| 0 <= i < verified.len() && #[trigger] verified[i] == tool.name)
            && tool.read_only_hint == Some(true) ==> exposed(tools.push(tool), verified) == exposed(
            tools,
            verified,
        ).push(CapabilityView { name: tool.name, description: tool.description }),
        !((exists|i: int| 0 <= i < verified.len() && #[trigger] verified[i] == tool.name)
            && tool.read_only_hint == Some(true)) ==> exposed(tools.push(tool), verified)
            == exposed(tools, verified),
{
    assert(tools.push(tool).drop_last() =~= tools);
    if exists|i: int| 0 <= i < verified.len() && #[trigger] verified[i] == tool.name {
        let i = choose|i: int| 0 <= i < verified.len() && #[trigger] verified[i] == tool.name;
        assert(verified.contains(tool.name));
    } else {
        assert(!verified.contains(tool.name));
    }
}

proof fn lemma_first_named(tools: Seq<ToolView>, name: Seq<char>, i: int)
    requires
        0 <= i <= tools.len(),
        forall|j: int| 0 <= j < i ==> (#[trigger] tools[j]).name != name,
        i < tools.len() ==> tools[i].name == name,
    ensures
        i < tools.len() ==> first_named(tools, name) == Some(tools[i]),
        i == tools.len() ==> first_named(tools, name) is None,
    decreases i,
{
    if i > 0 {
        assert(tools[0].name != name);
        let rest = tools.skip(1);
        assert forall|j: int| 0 <= j < i - 1 implies (#[trigger] rest[j]).name != name by {
            assert(rest[j] == tools[j + 1]);
        }
        assert(i < tools.len() ==> rest[i - 1] == tools[i]);
        lemma_first_named(rest, name, i - 1);
    }
}

/// The first tool with the name of a capability decides about it: the prompt goes to it, unchanged,
/// exactly if the name is verified and the server says that the tool is read-only.
pub proof fn the_first_tool_with_the_name_decides(
    capability: Seq<char>,
    prompt: Seq<char>,
    tools: Seq<ToolView>,
    verified: Seq<Seq<char>>,
    i: int,
)
    requires
        0 <= i < tools.len(),
        tools[i].name == capability,
        forall|j: int| 0 <= j < i ==> (#[trigger] tools[j]).name != capability,
    ensures
        (exists|k: int| 0 <= k < verified.len() && #[trigger] verified[k] == capability)
            && tools[i].read_only_hint == Some(true) ==> authorized(
            capability,
            prompt,
            tools,
            verified,
        ) == Ok::<ToolCallView, AdaptClientErrorView>(
            ToolCallView { name: capability, arguments: seq![("prompt"@, prompt)] },
        ),
        !((exists|k: int| 0 <= k < verified.len() && #[trigger] verified[k] == capability)
            && tools[i].read_only_hint == Some(true)) ==> authorized(
            capability,
            prompt,
            tools,
            verified,
        ) == Err::<ToolCallView, AdaptClientErrorView>(
            AdaptClientErrorView::CapabilityNotReadOnly(capability),
        ),
{
    lemma_first_named(tools, capability, i);
    if exists|k: int| 0 <= k < verified.len() && #[trigger] verified[k] == capability {
        let k = choose|k: int| 0 <= k < verified.len() && #[trigger] verified[k] == capability;
        assert(verified.contains(capability));
    } else {
        assert(!verified.contains(capability));
    }
}

/// A capability that the server does not list is refused.
pub proof fn unlisted_capabilities_are_refused(
    capability: Seq<char>,
    prompt: Seq<char>,
    tools: Seq<ToolView>,
    verified: Seq<Seq<char>>,
)
    requires
        forall|j: int| 0 <= j < tools.len() ==> (#[trigger] tools[j]).name != capability,
    ensures
        authorized(capability, prompt, tools, verified) == Err::<
            ToolCallView,
            AdaptClientErrorView,
        >(AdaptClientErrorView::CapabilityNotReadOnly(capability)),
{
    lemma_first_named(tools, capability, tools.len() as int);
}

/// `ask_adapt` is called with the prompt as it is, and with the chat ID exactly if a conversation is
/// continued.
pub proof fn ask_adapt_carries_prompt_and_chat_id(prompt: Seq<char>, chat_id: Seq<char>)
    ensures
        ask_adapt_call(prompt, None) == (ToolCallView {
            name: "ask_adapt"@,
            arguments: seq![("prompt"@, prompt)],
        }),
        ask_adapt_call(prompt, Some(chat_id)) == (ToolCallView {
            name: "ask_adapt"@,
            arguments: seq![("prompt"@, prompt), ("chat_id"@, chat_id)],
        }),
{
}

/// The chat ID of a reply is the text of the first `chat_id` member of its structured result;
/// anything else there, and any other result, names none.
pub proof fn chat_ids_are_read_from_the_result(
    members: Seq<(Seq<char>, JsonView)>,
    value: JsonView,
    i: int,
)
    requires
        0 <= i <= members.len(),
        forall|j: int| 0 <= j < i ==> (#[trigger] members[j]).0 != "chat_id"@,
        i < members.len() ==> members[i].0 == "chat_id"@,
    ensures
        i < members.len() ==> reported_chat_id(Some(JsonView::Object(members))) == (
        match members[i].1 {
            JsonView::String(id) => Some(id),
            _ => None,
        }),
        i == members.len() ==> reported_chat_id(Some(JsonView::Object(members))) is None,
        !(value is Object) ==> reported_chat_id(Some(value)) is None,
        reported_chat_id(None) is None,
{
    if i < members.len() {
        keys_find_their_first_member(members, "chat_id"@, i);
    } else {
        unknown_keys_find_nothing(value, members, "chat_id"@);
    }
}

/// A transport error is a rejection exactly if one of the phrases stands anywhere in it, in any
/// ASCII case; any other one is given back as it is, without the credential.
pub proof fn transport_errors_are_known_by_their_phrases(text: Seq<char>, credential: Seq<char>)
    ensures
        (exists|at: int| #[trigger] rejection_stands_at(ascii_lowercase(text), at))
            ==> transport_error(text, credential) is AuthenticationRejected,
        !(exists|at: int| #[trigger] rejection_stands_at(ascii_lowercase(text), at)) ==> {
            &&& transport_error(text, credential) is Transport
            &&& credential.len() == 0 || !contains(text, credential) ==> transport_error(
                text,
                credential,
            )->Transport_0 == text
        },
{
    rejections_are_known_by_their_phrases(text, credential);
}

/// A tool is read-only exactly if its name is verified and the server says so itself.
pub proof fn the_hint_and_the_name_decide(tool: ToolView, verified: Seq<Seq<char>>)
    ensures
        read_only_under(tool, verified) <==> {
            &&& tool.read_only_hint == Some(true)
            &&& exists|i: int| 0 <= i < verified.len() && #[trigger] verified[i] == tool.name
        },
{
    if exists|i: int| 0 <= i < verified.len() && #[trigger] verified[i] == tool.name {
        let i = choose|i: int| 0 <= i < verified.len() && #[trigger] verified[i] == tool.name;
        assert(verified.contains(tool.name));
    } else {
        assert(!verified.contains(tool.name));
    }
}

/// Every error names the capability or the failure that it is about.
pub proof fn client_errors_name_their_subject(name: Seq<char>, detail: Seq<char>)
    ensures
        error_message(AdaptClientErrorView::AuthenticationRejected)
            == "Adapt authentication was rejected by the server"@,
        error_message(AdaptClientErrorView::CapabilityNotReadOnly(name)) == "Adapt capability `"@
            + name + "` is not verified as read-only"@,
        error_message(AdaptClientErrorView::CapabilityFailed(name)) == "Adapt capability `"@ + name
            + "` returned an error"@,
        error_message(AdaptClientErrorView::NoReadOnlyCapability)
            == "Adapt has no verified read-only capability available"@,
        error_message(AdaptClientErrorView::Transport(detail))
            == "Adapt endpoint or transport failed: "@ + detail,
{
}

} // verus!

//! Credential validation and error classification for Adapt authentication.

use vstd::prelude::*;
use vstd::string::*;

use crate::redaction::{lemma_replacement_removes, overlaps};
use crate::text::{
    ascii_lowercase, contains, has_text, nothing_is_replaced_without_an_occurrence, occurs_at,
    replace_all, replaced, the_first_occurrence_is_replaced, to_ascii_lowercase,
};

verus! {

/// Why the credential could not be used.
#[derive(Debug, PartialEq, Eq)]
pub enum AuthError {
    AuthenticationRejected,
    Transport(String),
}

/// The mathematical counterpart of `AuthError`.
pub enum AuthErrorView {
    AuthenticationRejected,
    Transport(Seq<char>),
}

impl View for AuthError {
    type V = AuthErrorView;

    open spec fn view(&self) -> AuthErrorView {
        match self {
            AuthError::AuthenticationRejected => AuthErrorView::AuthenticationRejected,
            AuthError::Transport(text) => AuthErrorView::Transport(text@),
        }
    }
}

impl AuthError {
    /// The message shown to the user.
    pub fn message(&self) -> (text: String)
        ensures
            text@ == (match self@ {
                AuthErrorView::AuthenticationRejected =>
                    "Adapt authentication was rejected by the server; refresh bearer_token in ~/.adapt/config.toml and retry"@,
                AuthErrorView::Transport(detail) => "Adapt endpoint or transport failed: "@ + detail,
            }),
    {
        match self {
            AuthError::AuthenticationRejected =>
                "Adapt authentication was rejected by the server; refresh bearer_token in ~/.adapt/config.toml and retry".to_owned(),
            AuthError::Transport(detail) => {
                let mut text = "Adapt endpoint or transport failed: ".to_owned();
                text.append(detail.as_str());
                text
            },
        }
    }
}

/// The text of a transport error says, in any ASCII case, that the server rejected the credential.
pub open spec fn rejection_text(text: Seq<char>) -> bool {
    let normalized = ascii_lowercase(text);
    ||| contains(normalized, "auth required"@)
    ||| contains(normalized, "insufficient scope"@)
    ||| contains(normalized, "status code: 401"@)
    ||| contains(normalized, "status code: 403"@)
}

/// The text without the credential.
pub open spec fn sanitized(text: Seq<char>, credential: Seq<char>) -> Seq<char> {
    if credential.len() == 0 {
        text
    } else {
        replaced(text, credential, "[redacted credential]"@)
    }
}

/// How a transport error with the given text is classified.
pub open spec fn classified(text: Seq<char>, credential: Seq<char>) -> AuthErrorView {
    if rejection_text(text) {
        AuthErrorView::AuthenticationRejected
    } else {
        AuthErrorView::Transport(sanitized(text, credential))
    }
}

/// Unless the credential overlaps the marker that stands in for it, no sanitized text holds it.
pub proof fn sanitized_text_hides_the_credential(text: Seq<char>, credential: Seq<char>)
    requires
        credential.len() > 0,
        !overlaps(credential, "[redacted credential]"@),
    ensures
        !contains(sanitized(text, credential), credential),
{
    reveal_strlit("[redacted credential]");
    lemma_replacement_removes(text, credential, "[redacted credential]"@);
}

/// Whether an error text says that the server rejected the credential.
pub fn is_rejection_text(text: &str) -> (rejected: bool)
    ensures
        rejected == rejection_text(text@),
{
    let normalized = to_ascii_lowercase(text);
    let normalized = normalized.as_str();
    has_text(normalized, "auth required") || has_text(normalized, "insufficient scope")
        || has_text(normalized, "status code: 401") || has_text(normalized, "status code: 403")
}

/// Classify a transport error as authentication failure or generic transport issue.
pub fn map_transport_error(error: &str, credential: &str) -> (mapped: AuthError)
    ensures
        mapped@ == classified(error@, credential@),
{
    if is_rejection_text(error) {
        AuthError::AuthenticationRejected
    } else {
        AuthError::Transport(sanitize_transport_error(error, credential))
    }
}

/// Remove credential values from error messages to prevent accidental logging.
pub fn sanitize_transport_error(text: &str, credential: &str) -> (clean: String)
    ensures
        clean@ == sanitized(text@, credential@),
{
    if credential.is_empty() {
        text.to_owned()
    } else {
        replace_all(text, credential, "[redacted credential]")
    }
}

/// Whether an HTTP status says that the server rejected the credential.
pub fn is_authentication_rejection(status: u16) -> (rejected: bool)
    ensures
        rejected == (status == 401 || status == 403),
{
    status == 401 || status == 403
}

/// Judge the answer to an authenticated preflight request: its HTTP status, or the text of the
/// error that kept it from completing.
///
/// Adapt answers an invalid session with a JSON error body and no `WWW-Authenticate` header, which
/// would surface later as an unreadable protocol error. The preflight reports it first.
pub fn validate_credentials(credential: &str, response: Result<u16, String>) -> (verdict: Result<
    (),
    AuthError,
>)
    ensures
        match response {
            Ok(status) => {
                &&& status == 401 || status == 403 ==> verdict == Err::<(), AuthError>(
                    AuthError::AuthenticationRejected,
                )
                &&& !(status == 401 || status == 403) ==> verdict == Ok::<(), AuthError>(())
            },
            Err(error) => verdict is Err && verdict->Err_0@ == classified(error@, credential@),
        },
{
    match response {
        Ok(status) => if is_authentication_rejection(status) {
            Err(AuthError::AuthenticationRejected)
        } else {
            Ok(())
        },
        Err(error) => Err(map_transport_error(error.as_str(), credential)),
    }
}

/// One of the phrases by which a server rejects a credential stands in the text at the given
/// position.
pub open spec fn rejection_stands_at(text: Seq<char>, at: int) -> bool {
    ||| occurs_at(text, "auth required"@, at)
    ||| occurs_at(text, "insufficient scope"@, at)
    ||| occurs_at(text, "status code: 401"@, at)
    ||| occurs_at(text, "status code: 403"@, at)
}

/// An error is a rejection exactly if one of the phrases stands anywhere in it, in any ASCII case.
/// Any other error is given back as it is, without the credential.
pub proof fn rejections_are_known_by_their_phrases(text: Seq<char>, credential: Seq<char>)
    ensures
        (exists|at: int| #[trigger] rejection_stands_at(ascii_lowercase(text), at)) ==> classified(
            text,
            credential,
        ) is AuthenticationRejected,
        !(exists|at: int| #[trigger] rejection_stands_at(ascii_lowercase(text), at)) ==> {
            &&& classified(text, credential) is Transport
            &&& credential.len() == 0 || !contains(text, credential) ==> classified(
                text,
                credential,
            )->Transport_0 == text
        },
{
    let normalized = ascii_lowercase(text);
    if exists|at: int| #[trigger] rejection_stands_at(normalized, at) {
        let at = choose|at: int| #[trigger] rejection_stands_at(normalized, at);
        assert(rejection_text(text));
    } else {
        assert forall|at: int|
            !occurs_at(normalized, "auth required"@, at) && !occurs_at(
                normalized,
                "insufficient scope"@,
                at,
            ) && !occurs_at(normalized, "status code: 401"@, at) && !occurs_at(
                normalized,
                "status code: 403"@,
                at,
            ) by {
            assert(!rejection_stands_at(normalized, at));
        }
        assert(!rejection_text(text));
        if credential.len() > 0 && !contains(text, credential) {
            nothing_is_replaced_without_an_occurrence(text, credential, "[redacted credential]"@);
        }
    }
}

/// The credential is replaced wherever it stands in an error, and the text around it stays.
pub proof fn the_credential_is_replaced_where_it_stands(
    text: Seq<char>,
    credential: Seq<char>,
    at: int,
)
    requires
        credential.len() > 0,
        occurs_at(text, credential, at),
        forall|i: int| 0 <= i < at ==> !#[trigger] occurs_at(text, credential, i),
    ensures
        sanitized(text, credential) == text.take(at) + "[redacted credential]"@ + sanitized(
            text.skip(at + credential.len()),
            credential,
        ),
{
    the_first_occurrence_is_replaced(text, credential, "[redacted credential]"@, at);
}

} // verus!

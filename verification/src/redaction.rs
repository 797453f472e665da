//! The single secret-safety boundary for terminal output and local transcripts.

use vstd::prelude::*;
use vstd::slice::slice_subrange;
use vstd::string::*;

use crate::json::{
    item_views, lemma_array_view, lemma_object_view, member_views, JsonValue, JsonView,
};
use crate::session_history::{RedactedText, RedactedTranscriptResponse};
use crate::text::{
    ascii_lower, ascii_lowercase, chars_of, contains, has_text, is_whitespace, lemma_word_len,
    lemma_words_of_word_and_rest, next_whitespace, nothing_is_replaced_without_an_occurrence,
    occurs_at, replace_all, replaced, same_text,
    starts_with, text_of, the_first_occurrence_is_replaced, to_ascii_lowercase, whitespace,
    word_len, words,
};
use crate::transcript::{block_views, TextBlock, TranscriptResponse, TranscriptResponseView};

verus! {

/// Placed at some distance from each other, the two texts share at least one position and agree on
/// every position that they share.
pub open spec fn overlaps(secret: Seq<char>, marker: Seq<char>) -> bool {
    exists|shift: int| #[trigger] overlaps_at(secret, marker, shift)
}

/// The two texts share at least one position and agree on every shared one, when `marker` starts
/// `shift` positions after `secret`.
pub open spec fn overlaps_at(secret: Seq<char>, marker: Seq<char>, shift: int) -> bool {
    &&& -marker.len() < shift < secret.len()
    &&& forall|i: int|
        0 <= i < secret.len() && 0 <= i - shift < marker.len() ==> #[trigger] secret[i]
            == marker[i - shift]
}

/// A replaced text can begin with the rest of the secret only where the text itself did.
proof fn lemma_rest_is_copied(text: Seq<char>, secret: Seq<char>, marker: Seq<char>, from: int)
    requires
        0 <= from <= secret.len(),
        secret.len() > 0,
        marker.len() > 0,
        !overlaps(secret, marker),
        starts_with(replaced(text, secret, marker), secret.skip(from)),
    ensures
        starts_with(text, secret.skip(from)),
    decreases text.len(),
{
    let out = replaced(text, secret, marker);
    let rest = secret.skip(from);
    if rest.len() == 0 {
        assert(text.take(0) =~= rest);
    } else if text.len() == 0 {
    } else if starts_with(text, secret) {
        let tail = replaced(text.skip(secret.len() as int), secret, marker);
        assert(out == marker + tail);
        assert forall|i: int|
            0 <= i < secret.len() && 0 <= i - from < marker.len() implies #[trigger] secret[i]
            == marker[i - from] by {
            assert(out.take(rest.len() as int)[i - from] == rest[i - from]);
        }
        assert(overlaps_at(secret, marker, from));
    } else {
        let tail = replaced(text.skip(1), secret, marker);
        assert(out == seq![text[0]] + tail);
        assert(out.take(rest.len() as int)[0] == rest[0]);
        assert(tail.take(rest.len() - 1) =~= secret.skip(from + 1)) by {
            assert forall|i: int| 0 <= i < rest.len() - 1 implies tail[i] == #[trigger] secret.skip(
                from + 1,
            )[i] by {
                assert(out.take(rest.len() as int)[i + 1] == rest[i + 1]);
            }
        }
        lemma_rest_is_copied(text.skip(1), secret, marker, from + 1);
        assert(text.take(rest.len() as int) =~= rest) by {
            assert forall|i: int| 0 <= i < rest.len() implies text[i] == #[trigger] rest[i] by {
                if i > 0 {
                    assert(text.skip(1).take(rest.len() - 1)[i - 1] == secret.skip(from + 1)[i - 1]);
                }
            }
        }
    }
}

/// Once every occurrence of the secret is replaced by a marker that does not overlap it, the secret
/// occurs nowhere.
pub proof fn lemma_replacement_removes(text: Seq<char>, secret: Seq<char>, marker: Seq<char>)
    requires
        secret.len() > 0,
        marker.len() > 0,
        !overlaps(secret, marker),
    ensures
        !contains(replaced(text, secret, marker), secret),
    decreases text.len(),
{
    let out = replaced(text, secret, marker);
    assert forall|at: int| !occurs_at(out, secret, at) by {
        if occurs_at(out, secret, at) {
            if text.len() == 0 {
            } else if starts_with(text, secret) {
                let tail = replaced(text.skip(secret.len() as int), secret, marker);
                assert(out == marker + tail);
                if at < marker.len() {
                    assert forall|i: int|
                        0 <= i < secret.len() && 0 <= i + at
                            < marker.len() implies #[trigger] secret[i] == marker[i - (-at)] by {
                        assert(out.subrange(at, at + secret.len())[i] == secret[i]);
                    }
                    assert(overlaps_at(secret, marker, -at));
                } else {
                    lemma_replacement_removes(text.skip(secret.len() as int), secret, marker);
                    assert(tail.subrange(
                        at - marker.len(),
                        at - marker.len() + secret.len(),
                    ) =~= out.subrange(at, at + secret.len()));
                    assert(occurs_at(tail, secret, at - marker.len()));
                }
            } else {
                let tail = replaced(text.skip(1), secret, marker);
                assert(out == seq![text[0]] + tail);
                if at == 0 {
                    assert(secret.skip(0) =~= secret);
                    assert(out.take(secret.len() as int) =~= out.subrange(0, secret.len() as int));
                    lemma_rest_is_copied(text, secret, marker, 0);
                } else {
                    lemma_replacement_removes(text.skip(1), secret, marker);
                    assert(tail.subrange(at - 1, at - 1 + secret.len()) =~= out.subrange(
                        at,
                        at + secret.len(),
                    ));
                    assert(occurs_at(tail, secret, at - 1));
                }
            }
        }
    }
}

/// The word announces a bearer credential.
pub open spec fn is_bearer(word: Seq<char>) -> bool {
    ascii_lowercase(word) == "bearer"@
}

/// The text with every word that follows a bearer word replaced, where `after_bearer` says whether
/// the word before the text was one. Whitespace stays as it is.
pub open spec fn bearer_redacted_after(text: Seq<char>, after_bearer: bool) -> Seq<char>
    decreases text.len(),
{
    let n = word_len(text);
    if text.len() == 0 {
        Seq::empty()
    } else if n == 0 {
        seq![text[0]] + bearer_redacted_after(text.skip(1), after_bearer)
    } else {
        proof {
            lemma_word_len(text);
        }
        let word = text.take(n);
        (if after_bearer {
            "[redacted]"@
        } else {
            word
        }) + bearer_redacted_after(text.skip(n), is_bearer(word))
    }
}

/// The text with every word that follows a bearer word replaced.
pub open spec fn bearer_redacted(text: Seq<char>) -> Seq<char> {
    bearer_redacted_after(text, false)
}

/// The text with bearer credentials and the configured token replaced.
pub open spec fn text_redacted(text: Seq<char>, token: Seq<char>) -> Seq<char> {
    if token.len() == 0 {
        bearer_redacted(text)
    } else {
        replaced(bearer_redacted(text), token, "[redacted credential]"@)
    }
}

/// The key names a secret.
pub open spec fn is_sensitive_key(key: Seq<char>) -> bool {
    let normalized = ascii_lowercase(key);
    ||| contains(normalized, "token"@)
    ||| contains(normalized, "authorization"@)
    ||| contains(normalized, "credential"@)
    ||| contains(normalized, "secret"@)
    ||| contains(normalized, "password"@)
    ||| contains(normalized, "api_key"@)
}

/// A number; one whose text holds the token is replaced by that text, redacted.
pub open spec fn number_redacted(text: Seq<char>, token: Seq<char>) -> JsonView {
    if token.len() > 0 && contains(text, token) {
        JsonView::String(text_redacted(text, token))
    } else {
        JsonView::Number(text)
    }
}

/// The value with every string, key and number redacted, and with the value of every sensitive
/// member replaced. A member is sensitive by its key as it came.
pub open spec fn json_redacted(value: JsonView, token: Seq<char>) -> JsonView
    decreases value,
{
    match value {
        JsonView::String(text) => JsonView::String(text_redacted(text, token)),
        JsonView::Number(text) => number_redacted(text, token),
        JsonView::Array(items) => JsonView::Array(
            Seq::new(
                items.len(),
                |i: int|
                    if 0 <= i < items.len() {
                        json_redacted(items[i], token)
                    } else {
                        JsonView::Null
                    },
            ),
        ),
        JsonView::Object(members) => JsonView::Object(
            Seq::new(
                members.len(),
                |i: int|
                    if 0 <= i < members.len() {
                        (
                            text_redacted(members[i].0, token),
                            if is_sensitive_key(members[i].0) {
                                JsonView::String("[redacted]"@)
                            } else {
                                json_redacted(members[i].1, token)
                            },
                        )
                    } else {
                        (Seq::empty(), JsonView::Null)
                    },
            ),
        ),
        other => other,
    }
}

/// The response with its texts, its structured result and its chat ID redacted.
pub open spec fn response_redacted(
    response: TranscriptResponseView,
    token: Seq<char>,
) -> TranscriptResponseView {
    TranscriptResponseView {
        text_blocks: response.text_blocks.map_values(
            |text: Seq<char>| text_redacted(text, token),
        ),
        structured_result: match response.structured_result {
            Some(value) => Some(json_redacted(value, token)),
            None => None,
        },
        remote_chat_id: match response.remote_chat_id {
            Some(id) => Some(text_redacted(id, token)),
            None => None,
        },
    }
}

/// Removes the configured token, bearer credentials and sensitive fields.
pub struct Redactor {
    configured_token: String,
}

impl View for Redactor {
    type V = Seq<char>;

    /// The configured token; empty where there is none.
    closed spec fn view(&self) -> Seq<char> {
        self.configured_token@
    }
}

impl Default for Redactor {
    fn default() -> (redactor: Self)
        ensures
            redactor@ == Seq::<char>::empty(),
    {
        Redactor { configured_token: String::new() }
    }
}

impl Clone for Redactor {
    fn clone(&self) -> (copy: Self)
        ensures
            copy@ == self@,
    {
        Redactor { configured_token: self.configured_token.clone() }
    }
}

impl Redactor {
    pub fn new(configured_token: &str) -> (redactor: Self)
        ensures
            redactor@ == configured_token@,
    {
        Redactor { configured_token: configured_token.to_owned() }
    }

    pub fn text(&self, text: &str) -> (redacted: String)
        ensures
            redacted@ == text_redacted(text@, self@),
    {
        let text = redact_bearer(text);
        if self.configured_token.as_str().is_empty() {
            text
        } else {
            replace_all(
                text.as_str(),
                self.configured_token.as_str(),
                "[redacted credential]",
            )
        }
    }

    pub fn value(&self, value: JsonValue) -> (redacted: JsonValue)
        ensures
            redacted@ == json_redacted(value@, self@),
    {
        self.redact_value(&value)
    }

    fn redact_value(&self, value: &JsonValue) -> (redacted: JsonValue)
        ensures
            redacted@ == json_redacted(value@, self@),
        decreases value,
    {
        match value {
            JsonValue::Object(members) => {
                let mut out: Vec<(String, JsonValue)> = Vec::new();
                let mut i: usize = 0;
                while i < members.len()
                    invariant
                        i <= members@.len(),
                        *value == JsonValue::Object(*members),
                        out@.len() == i,
                        forall|j: int|
                            0 <= j < i ==> (#[trigger] out@[j]).0@ == text_redacted(
                                members@[j].0@,
                                self@,
                            ) && out@[j].1@ == (if is_sensitive_key(members@[j].0@) {
                                JsonView::String("[redacted]"@)
                            } else {
                                json_redacted(members@[j].1@, self@)
                            }),
                    decreases members@.len() - i,
                {
                    let key = members[i].0.as_str();
                    let member = &members[i].1;
                    let redacted = if sensitive_key(key) {
                        JsonValue::String("[redacted]".to_owned())
                    } else {
                        assert(decreases_to!(*value => value->Object_0));
                        assert(decreases_to!(*members => members@));
                        assert(decreases_to!(members@ => members@[i as int]));
                        assert(decreases_to!(members@[i as int] => members@[i as int].1));
                        self.redact_value(member)
                    };
                    out.push((self.text(key), redacted));
                    i += 1;
                }
                proof {
                    lemma_object_view(*members);
                    lemma_object_view(out);
                    assert(member_views(out@) =~= json_redacted(value@, self@)->Object_0);
                }
                JsonValue::Object(out)
            },
            JsonValue::Array(items) => {
                let mut out: Vec<JsonValue> = Vec::new();
                let mut i: usize = 0;
                while i < items.len()
                    invariant
                        i <= items@.len(),
                        *value == JsonValue::Array(*items),
                        out@.len() == i,
                        forall|j: int|
                            0 <= j < i ==> (#[trigger] out@[j])@ == json_redacted(
                                items@[j]@,
                                self@,
                            ),
                    decreases items@.len() - i,
                {
                    let item = &items[i];
                    assert(decreases_to!(*value => value->Array_0));
                    assert(decreases_to!(*items => items@));
                    assert(decreases_to!(items@ => items@[i as int]));
                    out.push(self.redact_value(item));
                    i += 1;
                }
                proof {
                    lemma_array_view(*items);
                    lemma_array_view(out);
                    assert(item_views(out@) =~= json_redacted(value@, self@)->Array_0);
                }
                JsonValue::Array(out)
            },
            JsonValue::String(text) => JsonValue::String(self.text(text.as_str())),
            JsonValue::Number(text) => {
                let token = self.configured_token.as_str();
                if !token.is_empty() && has_text(text.as_str(), token) {
                    JsonValue::String(self.text(text.as_str()))
                } else {
                    JsonValue::Number(text.clone())
                }
            },
            JsonValue::Bool(flag) => JsonValue::Bool(*flag),
            JsonValue::Null => JsonValue::Null,
        }
    }

    pub fn transcript_text(&self, text: &str) -> (redacted: RedactedText)
        ensures
            redacted@ == text_redacted(text@, self@),
    {
        RedactedText::new(self.text(text))
    }

    pub fn transcript_response(&self, response: TranscriptResponse) -> (redacted:
        RedactedTranscriptResponse)
        ensures
            redacted@ == response_redacted(response@, self@),
    {
        let mut text_blocks: Vec<TextBlock> = Vec::new();
        let mut i: usize = 0;
        while i < response.text_blocks.len()
            invariant
                i <= response.text_blocks@.len(),
                text_blocks@.len() == i,
                forall|j: int|
                    0 <= j < i ==> (#[trigger] text_blocks@[j])@ == text_redacted(
                        response.text_blocks@[j]@,
                        self@,
                    ),
            decreases response.text_blocks@.len() - i,
        {
            text_blocks.push(
                TextBlock { text: self.text(response.text_blocks[i].text.as_str()) },
            );
            i += 1;
        }
        assert(block_views(text_blocks@) =~= response_redacted(response@, self@).text_blocks);
        let structured_result = match response.structured_result {
            Some(value) => Some(self.value(value)),
            None => None,
        };
        let remote_chat_id = match response.remote_chat_id {
            Some(id) => Some(self.text(id.as_str())),
            None => None,
        };
        RedactedTranscriptResponse::new(
            TranscriptResponse { text_blocks, structured_result, remote_chat_id },
        )
    }
}

/// Whether the key names a secret.
pub fn sensitive_key(key: &str) -> (sensitive: bool)
    ensures
        sensitive == is_sensitive_key(key@),
{
    let normalized = to_ascii_lowercase(key);
    let normalized = normalized.as_str();
    has_text(normalized, "token") || has_text(normalized, "authorization") || has_text(
        normalized,
        "credential",
    ) || has_text(normalized, "secret") || has_text(normalized, "password") || has_text(
        normalized,
        "api_key",
    )
}

/// The text with every word that follows a bearer word replaced.
pub fn redact_bearer(text: &str) -> (output: String)
    ensures
        output@ == bearer_redacted(text@),
{
    let chars = chars_of(text);
    let mut output = String::new();
    let mut redact_next = false;
    let mut i: usize = 0;
    assert(chars@.skip(0) =~= chars@);
    assert(output@ + bearer_redacted(chars@) =~= bearer_redacted(chars@));
    while i < chars.len()
        invariant
            i <= chars@.len(),
            output@ + bearer_redacted_after(chars@.skip(i as int), redact_next) == bearer_redacted(
                chars@,
            ),
        decreases chars@.len() - i,
    {
        let ghost rest = chars@.skip(i as int);
        let ghost before = output@;
        let ghost after_bearer = redact_next;
        if whitespace(chars[i]) {
            output.push(chars[i]);
            assert(rest.skip(1) =~= chars@.skip(i + 1));
            assert(before + (seq![rest[0]] + bearer_redacted_after(rest.skip(1), after_bearer))
                =~= output@ + bearer_redacted_after(rest.skip(1), after_bearer));
            i += 1;
        } else {
            let end: usize = next_whitespace(&chars, i);
            let word = text_of(slice_subrange(chars.as_slice(), i, end));
            let ghost n = end - i;
            proof {
                lemma_word_len(rest);
                assert(!is_whitespace(rest[0]));
                assert(word_len(rest) > 0);
                assert(rest.take(n) =~= word@);
                assert(rest.skip(n) =~= chars@.skip(end as int));
            }
            if redact_next {
                output.append("[redacted]");
            } else {
                output.append(word.as_str());
            }
            let lower = to_ascii_lowercase(word.as_str());
            redact_next = same_text(lower.as_str(), "bearer");
            proof {
                let shown = if after_bearer {
                    "[redacted]"@
                } else {
                    word@
                };
                assert(before + (shown + bearer_redacted_after(rest.skip(n), redact_next))
                    =~= output@ + bearer_redacted_after(rest.skip(n), redact_next));
            }
            i = end;
        }
    }
    assert(chars@.skip(i as int) =~= Seq::<char>::empty());
    assert(output@ + Seq::<char>::empty() =~= output@);
    output
}

/// One step of the redaction: the first word, in front of the end or of whitespace.
proof fn lemma_first_word_redacted(word: Seq<char>, rest: Seq<char>, after_bearer: bool)
    requires
        word.len() > 0,
        forall|i: int| 0 <= i < word.len() ==> !is_whitespace(#[trigger] word[i]),
        rest.len() == 0 || is_whitespace(rest[0]),
    ensures
        bearer_redacted_after(word + rest, after_bearer) == (if after_bearer {
            "[redacted]"@
        } else {
            word
        }) + bearer_redacted_after(rest, is_bearer(word)),
{
    lemma_words_of_word_and_rest(word, rest);
    assert((word + rest).take(word.len() as int) =~= word);
    assert((word + rest).skip(word.len() as int) =~= rest);
}

/// What is redacted after the end of a word is again empty or begins with whitespace.
proof fn lemma_redaction_keeps_boundary(rest: Seq<char>, after_bearer: bool)
    requires
        rest.len() == 0 || is_whitespace(rest[0]),
    ensures
        ({
            let out = bearer_redacted_after(rest, after_bearer);
            out.len() == 0 || is_whitespace(out[0])
        }),
{
}

proof fn lemma_marker_is_a_plain_word()
    ensures
        "[redacted]"@.len() > 0,
        forall|i: int| 0 <= i < "[redacted]"@.len() ==> !is_whitespace(#[trigger] "[redacted]"@[i]),
        !is_bearer("[redacted]"@),
{
    reveal_strlit("[redacted]");
    reveal_strlit("bearer");
    assert(ascii_lowercase("[redacted]"@).len() == 10);
}

/// The words of a redacted text: each word after a bearer word is replaced, each other one stays.
pub open spec fn bearer_redacted_words(words: Seq<Seq<char>>, after_bearer: bool) -> Seq<Seq<char>> {
    Seq::new(
        words.len(),
        |i: int|
            if (i == 0 && after_bearer) || (i > 0 && is_bearer(words[i - 1])) {
                "[redacted]"@
            } else {
                words[i]
            },
    )
}

proof fn lemma_words_redacted(text: Seq<char>, after_bearer: bool)
    ensures
        words(bearer_redacted_after(text, after_bearer)) == bearer_redacted_words(
            words(text),
            after_bearer,
        ),
    decreases text.len(),
{
    lemma_word_len(text);
    let n = word_len(text);
    if text.len() == 0 {
        assert(words(bearer_redacted_after(text, after_bearer)) =~= bearer_redacted_words(
            words(text),
            after_bearer,
        ));
    } else if n == 0 {
        lemma_words_redacted(text.skip(1), after_bearer);
        let tail = bearer_redacted_after(text.skip(1), after_bearer);
        let out = seq![text[0]] + tail;
        assert(out[0] == text[0]);
        assert(word_len(out) == 0);
        assert(out.skip(1) =~= tail);
    } else {
        let word = text.take(n);
        let rest = text.skip(n);
        let shown = if after_bearer {
            "[redacted]"@
        } else {
            word
        };
        let tail = bearer_redacted_after(rest, is_bearer(word));
        assert(word + rest =~= text);
        assert forall|i: int| 0 <= i < word.len() implies !is_whitespace(#[trigger] word[i]) by {
            assert(word[i] == text[i]);
        }
        assert(rest.len() > 0 ==> rest[0] == text[n]);
        lemma_words_of_word_and_rest(word, rest);
        lemma_redaction_keeps_boundary(rest, is_bearer(word));
        lemma_marker_is_a_plain_word();
        lemma_words_of_word_and_rest(shown, tail);
        lemma_words_redacted(rest, is_bearer(word));
        assert(seq![shown] + words(tail) =~= bearer_redacted_words(words(text), after_bearer)) by {
            let all = seq![word] + words(rest);
            assert forall|i: int| 0 <= i < all.len() implies (seq![shown] + words(tail))[i]
                == #[trigger] bearer_redacted_words(all, after_bearer)[i] by {
                if i > 0 {
                    assert(words(tail)[i - 1] == bearer_redacted_words(
                        words(rest),
                        is_bearer(word),
                    )[i - 1]);
                    if i > 1 {
                        assert(all[i - 1] == words(rest)[i - 2]);
                    }
                }
            }
        }
    }
}

/// A redacted text has as many words as the text, and a word is replaced by the marker exactly
/// where the word before it is `bearer` in any ASCII case.
pub proof fn words_after_bearer_are_redacted(text: Seq<char>)
    ensures
        words(bearer_redacted(text)) == bearer_redacted_words(words(text), false),
{
    lemma_words_redacted(text, false);
}

proof fn lemma_bearer_redaction_settles(text: Seq<char>, first: bool, second: bool)
    requires
        second ==> first,
    ensures
        bearer_redacted_after(bearer_redacted_after(text, first), second) == bearer_redacted_after(
            text,
            first,
        ),
    decreases text.len(),
{
    lemma_word_len(text);
    let n = word_len(text);
    if text.len() == 0 {
    } else if n == 0 {
        lemma_bearer_redaction_settles(text.skip(1), first, second);
        let tail = bearer_redacted_after(text.skip(1), first);
        let out = seq![text[0]] + tail;
        assert(out[0] == text[0]);
        assert(word_len(out) == 0);
        assert(out.skip(1) =~= tail);
    } else {
        let word = text.take(n);
        let rest = text.skip(n);
        let shown = if first {
            "[redacted]"@
        } else {
            word
        };
        let tail = bearer_redacted_after(rest, is_bearer(word));
        assert forall|i: int| 0 <= i < word.len() implies !is_whitespace(#[trigger] word[i]) by {
            assert(word[i] == text[i]);
        }
        assert(rest.len() > 0 ==> rest[0] == text[n]);
        lemma_redaction_keeps_boundary(rest, is_bearer(word));
        lemma_marker_is_a_plain_word();
        lemma_first_word_redacted(shown, tail, second);
        lemma_bearer_redaction_settles(rest, is_bearer(word), is_bearer(shown));
    }
}

/// Redacting bearer credentials a second time changes nothing.
pub proof fn bearer_redaction_is_idempotent(text: Seq<char>)
    ensures
        bearer_redacted(bearer_redacted(text)) == bearer_redacted(text),
{
    lemma_bearer_redaction_settles(text, false, false);
}

/// Unless the token overlaps the marker that stands in for it, no redacted text holds it.
pub proof fn redacted_text_hides_the_token(text: Seq<char>, token: Seq<char>)
    requires
        token.len() > 0,
        !overlaps(token, "[redacted credential]"@),
    ensures
        !contains(text_redacted(text, token), token),
{
    reveal_strlit("[redacted credential]");
    lemma_replacement_removes(bearer_redacted(text), token, "[redacted credential]"@);
}

/// The token is one word without brackets, and no part of the marker that replaces it.
pub open spec fn is_plain_token(token: Seq<char>) -> bool {
    &&& token.len() > 0
    &&& forall|i: int|
        0 <= i < token.len() ==> !is_whitespace(#[trigger] token[i]) && !is_bracket(token[i])
    &&& !contains("redacted credential"@, token)
}

pub open spec fn is_bracket(character: char) -> bool {
    character == '[' || character == ']'
}

proof fn lemma_plain_token_does_not_overlap(token: Seq<char>)
    requires
        is_plain_token(token),
    ensures
        !overlaps(token, "[redacted credential]"@),
        !contains("[redacted]"@, token),
{
    reveal_strlit("[redacted credential]");
    reveal_strlit("redacted credential");
    reveal_strlit("[redacted]");
    let marker = "[redacted credential]"@;
    let inside = "redacted credential"@;
    assert(inside =~= marker.subrange(1, 20));
    assert forall|shift: int| !#[trigger] overlaps_at(token, marker, shift) by {
        if overlaps_at(token, marker, shift) {
            if shift >= 0 {
                assert(token[shift] == marker[0]);
            } else if token.len() - shift > 20 {
                assert(token[20 + shift] == marker[20]);
            } else {
                assert(inside.subrange(-shift - 1, -shift - 1 + token.len()) =~= token);
                assert(occurs_at(inside, token, -shift - 1));
            }
        }
    }
    let word = "[redacted]"@;
    assert forall|at: int| !occurs_at(word, token, at) by {
        if occurs_at(word, token, at) {
            assert forall|i: int| 0 <= i < token.len() implies #[trigger] token[i] == word[at + i] by {
                assert(word.subrange(at, at + token.len())[i] == word[at + i]);
            }
            if at == 0 {
                assert(token[0] == word[0]);
            } else if at + token.len() == 10 {
                assert(token[token.len() - 1] == word[9]);
            } else {
                assert(inside.subrange(at - 1, at - 1 + token.len()) =~= token);
                assert(occurs_at(inside, token, at - 1));
            }
        }
    }
}

/// Without an occurrence there is nothing to replace.
proof fn lemma_nothing_to_replace(text: Seq<char>, secret: Seq<char>, marker: Seq<char>)
    requires
        !contains(text, secret),
    ensures
        replaced(text, secret, marker) == text,
{
    nothing_is_replaced_without_an_occurrence(text, secret, marker);
}

/// No occurrence of a single word reaches over the end of a word, so both sides of it are replaced
/// on their own.
proof fn lemma_replaced_word_by_word(
    word: Seq<char>,
    rest: Seq<char>,
    secret: Seq<char>,
    marker: Seq<char>,
)
    requires
        secret.len() > 0,
        forall|i: int| 0 <= i < secret.len() ==> !is_whitespace(#[trigger] secret[i]),
        rest.len() == 0 || is_whitespace(rest[0]),
    ensures
        replaced(word + rest, secret, marker) == replaced(word, secret, marker) + replaced(
            rest,
            secret,
            marker,
        ),
    decreases word.len(),
{
    let text = word + rest;
    if word.len() == 0 {
        assert(text =~= rest);
        assert(replaced(word, secret, marker) + replaced(rest, secret, marker) =~= replaced(
            rest,
            secret,
            marker,
        ));
    } else if starts_with(text, secret) {
        let n = secret.len() as int;
        if n > word.len() {
            assert(text.take(n)[word.len() as int] == rest[0]);
            assert(!is_whitespace(secret[word.len() as int]));
        }
        assert(text.take(n) =~= word.take(n));
        assert(text.skip(n) =~= word.skip(n) + rest);
        lemma_replaced_word_by_word(word.skip(n), rest, secret, marker);
        assert(replaced(text, secret, marker) =~= replaced(word, secret, marker) + replaced(
            rest,
            secret,
            marker,
        ));
    } else {
        if starts_with(word, secret) {
            assert(text.take(secret.len() as int) =~= word.take(secret.len() as int));
        }
        assert(text.skip(1) =~= word.skip(1) + rest);
        lemma_replaced_word_by_word(word.skip(1), rest, secret, marker);
        assert(replaced(text, secret, marker) =~= replaced(word, secret, marker) + replaced(
            rest,
            secret,
            marker,
        ));
    }
}

/// A word with a bracket in it does not announce a credential.
proof fn lemma_bracketed_word_is_not_bearer(word: Seq<char>, i: int)
    requires
        0 <= i < word.len(),
        is_bracket(word[i]),
    ensures
        !is_bearer(word),
{
    reveal_strlit("bearer");
    if is_bearer(word) {
        assert(ascii_lowercase(word).len() == word.len());
        assert(ascii_lowercase(word)[i] == ascii_lower(word[i]));
    }
}

/// A word that holds the token is replaced by words that announce no credential.
proof fn lemma_replaced_word_is_kept(
    start: Seq<char>,
    word: Seq<char>,
    rest: Seq<char>,
    token: Seq<char>,
)
    requires
        token.len() > 0,
        forall|i: int| 0 <= i < start.len() ==> !is_whitespace(#[trigger] start[i]),
        forall|i: int| 0 <= i < word.len() ==> !is_whitespace(#[trigger] word[i]),
        rest.len() == 0 || is_whitespace(rest[0]),
        contains(word, token) || exists|i: int|
            0 <= i < start.len() && is_bracket(#[trigger] start[i]),
    ensures
        ({
            let out = start + replaced(word, token, "[redacted credential]"@);
            bearer_redacted_after(out + rest, false) == out + bearer_redacted_after(rest, false)
        }),
    decreases word.len(),
{
    let marker = "[redacted credential]"@;
    let out = start + replaced(word, token, marker);
    let tail = bearer_redacted_after(rest, false);
    if word.len() == 0 {
        if contains(word, token) {
            let at = choose|at: int| occurs_at(word, token, at);
            assert(false);
        }
        let i = choose|i: int| 0 <= i < start.len() && is_bracket(#[trigger] start[i]);
        lemma_bracketed_word_is_not_bearer(start, i);
        assert(out =~= start);
        lemma_first_word_redacted(start, rest, false);
    } else if starts_with(word, token) {
        reveal_strlit("[redacted credential]");
        let n = token.len() as int;
        let first = start + marker.take(9);
        let second = marker.skip(10);
        let more = replaced(word.skip(n), token, marker);
        assert(is_bracket(first[start.len() as int]));
        lemma_bracketed_word_is_not_bearer(first, start.len() as int);
        assert(is_bracket(second[10]));
        lemma_replaced_word_is_kept(second, word.skip(n), rest, token);
        let middle = seq![' '] + (second + more + rest);
        assert(out + rest =~= first + middle);
        assert forall|i: int| 0 <= i < first.len() implies !is_whitespace(#[trigger] first[i]) by {
            if i >= start.len() {
                assert(first[i] == marker[i - start.len()]);
            }
        }
        lemma_first_word_redacted(first, middle, false);
        assert(middle[0] == ' ');
        assert(word_len(middle) == 0);
        assert(middle.skip(1) =~= second + more + rest);
        assert(out + tail =~= first + (seq![' '] + (second + more + tail)));
    } else {
        let longer = start.push(word[0]);
        if contains(word, token) {
            let at = choose|at: int| occurs_at(word, token, at);
            if at == 0 {
                assert(word.take(token.len() as int) =~= word.subrange(0, token.len() as int));
            } else {
                assert(word.skip(1).subrange(at - 1, at - 1 + token.len()) =~= word.subrange(
                    at,
                    at + token.len(),
                ));
                assert(occurs_at(word.skip(1), token, at - 1));
            }
        } else {
            let i = choose|i: int| 0 <= i < start.len() && is_bracket(#[trigger] start[i]);
            assert(is_bracket(longer[i]));
        }
        lemma_replaced_word_is_kept(longer, word.skip(1), rest, token);
        assert(longer + replaced(word.skip(1), token, marker) =~= out);
    }
}

/// Replacing the token announces no new credential, and leaves the ones that were redacted as they
/// are.
proof fn lemma_replacement_settles(text: Seq<char>, token: Seq<char>, first: bool, second: bool)
    requires
        is_plain_token(token),
        second ==> first,
    ensures
        ({
            let out = replaced(
                bearer_redacted_after(text, first),
                token,
                "[redacted credential]"@,
            );
            bearer_redacted_after(out, second) == out
        }),
    decreases text.len(),
{
    let marker = "[redacted credential]"@;
    let redacted = bearer_redacted_after(text, first);
    let out = replaced(redacted, token, marker);
    lemma_word_len(text);
    let n = word_len(text);
    assert(!is_whitespace(token[0]));
    if text.len() == 0 {
    } else if n == 0 {
        let inner = bearer_redacted_after(text.skip(1), first);
        let tail = replaced(inner, token, marker);
        lemma_replacement_settles(text.skip(1), token, first, second);
        assert(redacted.skip(1) =~= inner);
        if starts_with(redacted, token) {
            assert(redacted.take(token.len() as int)[0] == text[0]);
        }
        assert(out == seq![text[0]] + tail);
        assert(out[0] == text[0]);
        assert(word_len(out) == 0);
        assert(out.skip(1) =~= tail);
    } else {
        let word = text.take(n);
        let rest = text.skip(n);
        let shown = if first {
            "[redacted]"@
        } else {
            word
        };
        let inner = bearer_redacted_after(rest, is_bearer(word));
        let tail = replaced(inner, token, marker);
        assert forall|i: int| 0 <= i < word.len() implies !is_whitespace(#[trigger] word[i]) by {
            assert(word[i] == text[i]);
        }
        assert(rest.len() > 0 ==> rest[0] == text[n]);
        lemma_redaction_keeps_boundary(rest, is_bearer(word));
        lemma_marker_is_a_plain_word();
        lemma_replaced_word_by_word(shown, inner, token, marker);
        assert(tail.len() == 0 || is_whitespace(tail[0])) by {
            if inner.len() > 0 {
                if starts_with(inner, token) {
                    assert(inner.take(token.len() as int)[0] == inner[0]);
                }
            }
        }
        lemma_plain_token_does_not_overlap(token);
        if contains(shown, token) {
            lemma_replacement_settles(rest, token, is_bearer(word), false);
            assert(Seq::<char>::empty() + replaced(word, token, marker) =~= replaced(
                word,
                token,
                marker,
            ));
            lemma_replaced_word_is_kept(Seq::empty(), word, tail, token);
        } else {
            lemma_nothing_to_replace(shown, token, marker);
            lemma_first_word_redacted(shown, tail, second);
            lemma_replacement_settles(rest, token, is_bearer(word), is_bearer(shown));
        }
    }
}

/// Redacting a text twice gives what redacting it once gives, and a configured token does not
/// survive. The token is one word without brackets, and no part of the marker that replaces it.
pub proof fn text_redaction_is_final(text: Seq<char>, token: Seq<char>)
    requires
        token.len() == 0 || is_plain_token(token),
    ensures
        text_redacted(text_redacted(text, token), token) == text_redacted(text, token),
        token.len() > 0 ==> !contains(text_redacted(text, token), token),
{
    if token.len() == 0 {
        bearer_redaction_is_idempotent(text);
    } else {
        lemma_plain_token_does_not_overlap(token);
        redacted_text_hides_the_token(text, token);
        lemma_replacement_settles(text, token, false, false);
        lemma_nothing_to_replace(text_redacted(text, token), token, "[redacted credential]"@);
    }
}

/// A word that stands neither in a label nor in the text behind it does not stand in both together,
/// where the label ends in whitespace.
pub proof fn labelled_text_hides_the_token(label: Seq<char>, text: Seq<char>, token: Seq<char>)
    requires
        is_plain_token(token),
        label.len() > 0,
        is_whitespace(label.last()),
        !contains(label, token),
        !contains(text, token),
    ensures
        !contains(label + text, token),
{
    let whole = label + text;
    let n = label.len() as int;
    assert forall|at: int| !occurs_at(whole, token, at) by {
        if occurs_at(whole, token, at) {
            if at + token.len() <= n {
                assert(label.subrange(at, at + token.len()) =~= whole.subrange(
                    at,
                    at + token.len(),
                ));
                assert(occurs_at(label, token, at));
            } else if at >= n {
                assert(text.subrange(at - n, at - n + token.len()) =~= whole.subrange(
                    at,
                    at + token.len(),
                ));
                assert(occurs_at(text, token, at - n));
            } else {
                assert(whole.subrange(at, at + token.len())[n - 1 - at] == label.last());
                assert(!is_whitespace(token[n - 1 - at]));
            }
        }
    }
}

/// No string, no number and no key in the JSON value holds the secret.
pub open spec fn json_is_free_of(value: JsonView, secret: Seq<char>) -> bool
    decreases value,
{
    match value {
        JsonView::String(text) => !contains(text, secret),
        JsonView::Number(text) => !contains(text, secret),
        JsonView::Array(items) => forall|i: int|
            0 <= i < items.len() ==> json_is_free_of(#[trigger] items[i], secret),
        JsonView::Object(members) => forall|i: int|
            0 <= i < members.len() ==> !contains((#[trigger] members[i]).0, secret)
                && json_is_free_of(members[i].1, secret),
        _ => true,
    }
}

/// Unless the token overlaps one of the markers, no string, number or key in a redacted JSON value
/// holds it.
pub proof fn redacted_json_hides_the_token(value: JsonView, token: Seq<char>)
    requires
        token.len() > 0,
        !overlaps(token, "[redacted credential]"@),
        !contains("[redacted]"@, token),
    ensures
        json_is_free_of(json_redacted(value, token), token),
    decreases value,
{
    match value {
        JsonView::String(text) => {
            redacted_text_hides_the_token(text, token);
        },
        JsonView::Number(text) => {
            redacted_text_hides_the_token(text, token);
        },
        JsonView::Array(items) => {
            let out = json_redacted(value, token)->Array_0;
            assert forall|i: int| 0 <= i < out.len() implies json_is_free_of(
                #[trigger] out[i],
                token,
            ) by {
                redacted_json_hides_the_token(items[i], token);
            }
        },
        JsonView::Object(members) => {
            let out = json_redacted(value, token)->Object_0;
            assert forall|i: int| 0 <= i < out.len() implies !contains((#[trigger] out[i]).0, token)
                && json_is_free_of(out[i].1, token) by {
                redacted_text_hides_the_token(members[i].0, token);
                if !is_sensitive_key(members[i].0) {
                    redacted_json_hides_the_token(members[i].1, token);
                }
            }
        },
        _ => {},
    }
}

/// A member whose key names a secret loses its value, whatever that was; its key is redacted like
/// any other.
pub proof fn sensitive_members_are_replaced(
    members: Seq<(Seq<char>, JsonView)>,
    token: Seq<char>,
    i: int,
)
    requires
        0 <= i < members.len(),
        is_sensitive_key(members[i].0),
    ensures
        json_redacted(JsonView::Object(members), token)->Object_0[i] == (
            text_redacted(members[i].0, token),
            JsonView::String("[redacted]"@),
        ),
{
}

/// Unless the token overlaps one of the markers, no text block, chat ID, string, number or key of
/// a redacted response holds it.
pub proof fn redacted_response_hides_the_token(response: TranscriptResponseView, token: Seq<char>)
    requires
        token.len() > 0,
        !overlaps(token, "[redacted credential]"@),
        !contains("[redacted]"@, token),
    ensures
        ({
            let out = response_redacted(response, token);
            &&& out.text_blocks.len() == response.text_blocks.len()
            &&& forall|i: int|
                0 <= i < out.text_blocks.len() ==> !contains(#[trigger] out.text_blocks[i], token)
            &&& out.remote_chat_id matches Some(id) ==> !contains(id, token)
            &&& out.structured_result matches Some(value) ==> json_is_free_of(value, token)
        }),
{
    let out = response_redacted(response, token);
    assert forall|i: int| 0 <= i < out.text_blocks.len() implies !contains(
        #[trigger] out.text_blocks[i],
        token,
    ) by {
        redacted_text_hides_the_token(response.text_blocks[i], token);
    }
    if let Some(id) = response.remote_chat_id {
        redacted_text_hides_the_token(id, token);
    }
    if let Some(value) = response.structured_result {
        redacted_json_hides_the_token(value, token);
    }
}

/// None of the words is `bearer`, in any ASCII case.
pub open spec fn announces_no_credential(text: Seq<char>) -> bool {
    forall|i: int|
        0 <= i < words(text).len() ==> ascii_lowercase(#[trigger] words(text)[i]) != "bearer"@
}

proof fn lemma_words_of_rest(text: Seq<char>)
    requires
        announces_no_credential(text),
        text.len() > 0,
    ensures
        word_len(text) == 0 ==> announces_no_credential(text.skip(1)),
        word_len(text) > 0 ==> announces_no_credential(text.skip(word_len(text))) && !is_bearer(
            text.take(word_len(text)),
        ),
{
    lemma_word_len(text);
    let n = word_len(text);
    if n == 0 {
        assert(words(text) == words(text.skip(1)));
    } else {
        let word = text.take(n);
        let rest = text.skip(n);
        assert(word + rest =~= text);
        assert forall|i: int| 0 <= i < word.len() implies !is_whitespace(#[trigger] word[i]) by {
            assert(word[i] == text[i]);
        }
        assert(rest.len() > 0 ==> rest[0] == text[n]);
        lemma_words_of_word_and_rest(word, rest);
        assert(words(text)[0] == word);
        assert forall|i: int| 0 <= i < words(rest).len() implies ascii_lowercase(
            #[trigger] words(rest)[i],
        ) != "bearer"@ by {
            assert(words(text)[i + 1] == words(rest)[i]);
        }
    }
}

/// What stands in front of a text, up to whitespace, is copied where it announces no credential.
proof fn lemma_front_is_copied(front: Seq<char>, tail: Seq<char>)
    requires
        announces_no_credential(front),
        front.len() == 0 || is_whitespace(front.last()) || tail.len() == 0,
    ensures
        bearer_redacted_after(front + tail, false) == front + bearer_redacted_after(tail, false),
    decreases front.len(),
{
    let text = front + tail;
    if front.len() == 0 {
        assert(text =~= tail);
        assert(front + bearer_redacted_after(tail, false) =~= bearer_redacted_after(tail, false));
    } else {
        lemma_words_of_rest(front);
        lemma_word_len(front);
        let n = word_len(front);
        if n == 0 {
            let rest = front.skip(1);
            assert(text[0] == front[0]);
            assert(word_len(text) == 0);
            assert(text.skip(1) =~= rest + tail);
            if rest.len() > 0 {
                assert(rest.last() == front.last());
            }
            lemma_front_is_copied(rest, tail);
            assert(bearer_redacted_after(text, false) =~= front + bearer_redacted_after(
                tail,
                false,
            ));
        } else {
            let word = front.take(n);
            let rest = front.skip(n);
            assert forall|i: int| 0 <= i < word.len() implies !is_whitespace(#[trigger] word[i]) by {
                assert(word[i] == front[i]);
            }
            if n == front.len() {
                assert(!is_whitespace(front[n - 1]));
                assert(rest + tail =~= tail);
            } else {
                assert(rest.last() == front.last());
                assert((rest + tail)[0] == front[n]);
            }
            assert(text =~= word + (rest + tail));
            lemma_first_word_redacted(word, rest + tail, false);
            lemma_front_is_copied(rest, tail);
            assert(bearer_redacted_after(text, false) =~= front + bearer_redacted_after(
                tail,
                false,
            ));
        }
    }
}

proof fn lemma_gap_is_copied(gap: Seq<char>, tail: Seq<char>, after_bearer: bool)
    requires
        forall|i: int| 0 <= i < gap.len() ==> is_whitespace(#[trigger] gap[i]),
    ensures
        bearer_redacted_after(gap + tail, after_bearer) == gap + bearer_redacted_after(
            tail,
            after_bearer,
        ),
    decreases gap.len(),
{
    let text = gap + tail;
    if gap.len() == 0 {
        assert(text =~= tail);
        assert(gap + bearer_redacted_after(tail, after_bearer) =~= bearer_redacted_after(
            tail,
            after_bearer,
        ));
    } else {
        assert(text[0] == gap[0]);
        assert(word_len(text) == 0);
        assert(text.skip(1) =~= gap.skip(1) + tail);
        lemma_gap_is_copied(gap.skip(1), tail, after_bearer);
        assert(bearer_redacted_after(text, after_bearer) =~= gap + bearer_redacted_after(
            tail,
            after_bearer,
        ));
    }
}

/// The word behind the first `bearer`, in whatever case that is written, is replaced by the marker.
/// What stands before it and the whitespace in between stay, and what comes behind it becomes what
/// it would have become anyway.
pub proof fn the_word_behind_bearer_is_replaced(
    front: Seq<char>,
    bearer: Seq<char>,
    gap: Seq<char>,
    secret: Seq<char>,
    rest: Seq<char>,
)
    requires
        announces_no_credential(front),
        front.len() == 0 || is_whitespace(front.last()),
        ascii_lowercase(bearer) == "bearer"@,
        gap.len() > 0,
        forall|i: int| 0 <= i < gap.len() ==> is_whitespace(#[trigger] gap[i]),
        secret.len() > 0,
        forall|i: int| 0 <= i < secret.len() ==> !is_whitespace(#[trigger] secret[i]),
        rest.len() == 0 || is_whitespace(rest[0]),
    ensures
        ({
            let alone = bearer_redacted(secret + rest);
            &&& alone == secret + alone.skip(secret.len() as int)
            &&& bearer_redacted(front + bearer + gap + secret + rest) == front + bearer + gap
                + "[redacted]"@ + alone.skip(secret.len() as int)
        }),
{
    reveal_strlit("bearer");
    assert(ascii_lowercase(bearer).len() == bearer.len());
    assert forall|i: int| 0 <= i < bearer.len() implies !is_whitespace(#[trigger] bearer[i]) by {
        assert(ascii_lowercase(bearer)[i] == ascii_lower(bearer[i]));
        assert(i == 0 || i == 1 || i == 2 || i == 3 || i == 4 || i == 5);
    }
    let behind = secret + rest;
    let tail = bearer + (gap + behind);
    let ending = bearer_redacted_after(rest, is_bearer(secret));
    assert(front + bearer + gap + secret + rest =~= front + tail);
    lemma_front_is_copied(front, tail);
    assert((gap + behind)[0] == gap[0]);
    lemma_first_word_redacted(bearer, gap + behind, false);
    lemma_gap_is_copied(gap, behind, true);
    lemma_first_word_redacted(secret, rest, true);
    lemma_first_word_redacted(secret, rest, false);
    assert((secret + ending).skip(secret.len() as int) =~= ending);
    assert(front + (bearer + (gap + ("[redacted]"@ + ending))) =~= front + bearer + gap
        + "[redacted]"@ + ending);
}

/// A text that announces no credential and does not hold the token stays as it is, to the last
/// character.
pub proof fn text_without_secrets_is_unchanged(text: Seq<char>, token: Seq<char>)
    requires
        announces_no_credential(text),
        token.len() > 0 ==> !contains(text, token),
    ensures
        text_redacted(text, token) == text,
{
    lemma_front_is_copied(text, Seq::empty());
    assert(text + Seq::<char>::empty() =~= text);
    assert(text + bearer_redacted_after(Seq::empty(), false) =~= text);
    if token.len() > 0 {
        lemma_nothing_to_replace(text, token, "[redacted credential]"@);
    }
}

/// The token is replaced wherever it stands, and the text around it stays.
pub proof fn the_token_is_replaced_where_it_stands(text: Seq<char>, token: Seq<char>, at: int)
    requires
        announces_no_credential(text),
        token.len() > 0,
        occurs_at(text, token, at),
        forall|i: int| 0 <= i < at ==> !#[trigger] occurs_at(text, token, i),
    ensures
        text_redacted(text, token) == text.take(at) + "[redacted credential]"@ + replaced(
            text.skip(at + token.len()),
            token,
            "[redacted credential]"@,
        ),
{
    lemma_front_is_copied(text, Seq::empty());
    assert(text + Seq::<char>::empty() =~= text);
    assert(text + bearer_redacted_after(Seq::empty(), false) =~= text);
    the_first_occurrence_is_replaced(text, token, "[redacted credential]"@, at);
}

/// One of the words that name a secret stands in the text at the given position.
pub open spec fn secret_is_named_at(text: Seq<char>, at: int) -> bool {
    ||| occurs_at(text, "token"@, at)
    ||| occurs_at(text, "authorization"@, at)
    ||| occurs_at(text, "credential"@, at)
    ||| occurs_at(text, "secret"@, at)
    ||| occurs_at(text, "password"@, at)
    ||| occurs_at(text, "api_key"@, at)
}

/// A member loses its value if its key, in ASCII lower case, has one of the words that name a secret
/// at any position, and no other member does: its value is redacted on its own.
pub proof fn members_that_name_a_secret_lose_their_value(
    members: Seq<(Seq<char>, JsonView)>,
    token: Seq<char>,
    i: int,
)
    requires
        0 <= i < members.len(),
    ensures
        ({
            let out = json_redacted(JsonView::Object(members), token);
            &&& out is Object
            &&& out->Object_0.len() == members.len()
            &&& out->Object_0[i].0 == text_redacted(members[i].0, token)
            &&& (forall|at: int|
                #[trigger] secret_is_named_at(ascii_lowercase(members[i].0), at)
                    ==> out->Object_0[i].1 == JsonView::String("[redacted]"@))
            &&& (forall|at: int|
                !#[trigger] secret_is_named_at(ascii_lowercase(members[i].0), at))
                ==> out->Object_0[i].1 == json_redacted(members[i].1, token)
        }),
{
    let key = ascii_lowercase(members[i].0);
    if exists|at: int| #[trigger] secret_is_named_at(key, at) {
        let at = choose|at: int| #[trigger] secret_is_named_at(key, at);
        assert(is_sensitive_key(members[i].0));
    } else {
        assert forall|at: int|
            !occurs_at(key, "token"@, at) && !occurs_at(key, "authorization"@, at) && !occurs_at(
                key,
                "credential"@,
                at,
            ) && !occurs_at(key, "secret"@, at) && !occurs_at(key, "password"@, at) && !occurs_at(
                key,
                "api_key"@,
                at,
            ) by {
            assert(!secret_is_named_at(key, at));
        }
        assert(!is_sensitive_key(members[i].0));
    }
}

/// Arrays are redacted item by item, strings are redacted, a number stays unless its text holds the
/// token, and everything else stays.
pub proof fn items_are_redacted_one_by_one(
    items: Seq<JsonView>,
    text: Seq<char>,
    flag: bool,
    token: Seq<char>,
)
    ensures
        ({
            let out = json_redacted(JsonView::Array(items), token);
            &&& out is Array
            &&& out->Array_0.len() == items.len()
            &&& forall|i: int|
                0 <= i < items.len() ==> #[trigger] out->Array_0[i] == json_redacted(
                    items[i],
                    token,
                )
        }),
        json_redacted(JsonView::Bool(flag), token) == JsonView::Bool(flag),
        json_redacted(JsonView::Null, token) == JsonView::Null,
        json_redacted(JsonView::String(text), token) == JsonView::String(
            text_redacted(text, token),
        ),
        token.len() > 0 && contains(text, token) ==> json_redacted(JsonView::Number(text), token)
            == JsonView::String(text_redacted(text, token)),
        !(token.len() > 0 && contains(text, token)) ==> json_redacted(
            JsonView::Number(text),
            token,
        ) == JsonView::Number(text),
{
}

/// The value holds no secret: no text that announces a credential, the token nowhere, and no key
/// that names a secret.
pub open spec fn holds_no_secret(value: JsonView, token: Seq<char>) -> bool
    decreases value,
{
    match value {
        JsonView::String(text) => announces_no_credential(text) && (token.len() > 0 ==> !contains(
            text,
            token,
        )),
        JsonView::Number(text) => token.len() > 0 ==> !contains(text, token),
        JsonView::Array(items) => forall|i: int|
            0 <= i < items.len() ==> holds_no_secret(#[trigger] items[i], token),
        JsonView::Object(members) => forall|i: int|
            0 <= i < members.len() ==> {
                let (key, member) = #[trigger] members[i];
                &&& announces_no_credential(key)
                &&& token.len() > 0 ==> !contains(key, token)
                &&& forall|at: int| !#[trigger] secret_is_named_at(ascii_lowercase(key), at)
                &&& holds_no_secret(member, token)
            },
        _ => true,
    }
}

/// A value without secrets stays as it is: no member, item, text or number is lost or changed.
pub proof fn json_without_secrets_is_unchanged(value: JsonView, token: Seq<char>)
    requires
        holds_no_secret(value, token),
    ensures
        json_redacted(value, token) == value,
    decreases value,
{
    match value {
        JsonView::String(text) => {
            text_without_secrets_is_unchanged(text, token);
        },
        JsonView::Array(items) => {
            let out = json_redacted(value, token)->Array_0;
            assert forall|i: int| 0 <= i < items.len() implies out[i] == #[trigger] items[i] by {
                json_without_secrets_is_unchanged(items[i], token);
            }
            assert(out =~= items);
        },
        JsonView::Object(members) => {
            let out = json_redacted(value, token)->Object_0;
            assert forall|i: int| 0 <= i < members.len() implies out[i]
                == #[trigger] members[i] by {
                let (key, member) = members[i];
                members_that_name_a_secret_lose_their_value(members, token, i);
                text_without_secrets_is_unchanged(key, token);
                json_without_secrets_is_unchanged(member, token);
            }
            assert(out =~= members);
        },
        _ => {},
    }
}

/// A response is redacted in each of its parts, and none of them is lost.
pub proof fn responses_are_redacted_part_by_part(
    response: TranscriptResponseView,
    token: Seq<char>,
)
    ensures
        ({
            let out = response_redacted(response, token);
            &&& out.text_blocks.len() == response.text_blocks.len()
            &&& forall|i: int|
                0 <= i < response.text_blocks.len() ==> #[trigger] out.text_blocks[i]
                    == text_redacted(response.text_blocks[i], token)
            &&& response.structured_result matches Some(value) ==> out.structured_result == Some(
                json_redacted(value, token),
            )
            &&& response.structured_result is None ==> out.structured_result is None
            &&& response.remote_chat_id matches Some(id) ==> out.remote_chat_id == Some(
                text_redacted(id, token),
            )
            &&& response.remote_chat_id is None ==> out.remote_chat_id is None
        }),
{
}

/// The words behind `Bearer` go first; the token is then replaced in what they leave, and only
/// there.
pub proof fn the_token_is_replaced_behind_the_bearer(text: Seq<char>, token: Seq<char>, at: int)
    ensures
        token.len() == 0 || !contains(bearer_redacted(text), token) ==> text_redacted(text, token)
            == bearer_redacted(text),
        token.len() > 0 && occurs_at(bearer_redacted(text), token, at) && (forall|i: int|
            0 <= i < at ==> !#[trigger] occurs_at(bearer_redacted(text), token, i))
            ==> text_redacted(text, token) == bearer_redacted(text).take(at)
            + "[redacted credential]"@ + replaced(
            bearer_redacted(text).skip(at + token.len()),
            token,
            "[redacted credential]"@,
        ),
{
    let left = bearer_redacted(text);
    if token.len() > 0 && !contains(left, token) {
        nothing_is_replaced_without_an_occurrence(left, token, "[redacted credential]"@);
    }
    if token.len() > 0 && occurs_at(left, token, at) && (forall|i: int|
        0 <= i < at ==> !#[trigger] occurs_at(left, token, i)) {
        the_first_occurrence_is_replaced(left, token, "[redacted credential]"@, at);
    }
}

} // verus!

//! The display contract of an Adapt response, independent of the protocol.

use vstd::prelude::*;

use crate::adapt_client::{Content, ContentView, QueryResponse, QueryResponseView};
use crate::json::{
    item_views, keys_find_their_first_member, lemma_array_view, lemma_object_view, member,
    member_views, option_json_view, JsonValue, JsonView,
};
use crate::text::{option_view, split_after_whitespace, split_keeping_whitespace, views};

verus! {

/// One textual part of an Adapt response, ready for terminal display.
#[derive(Debug, PartialEq, Eq)]
pub struct TextBlock {
    pub text: String,
}

impl View for TextBlock {
    type V = Seq<char>;

    open spec fn view(&self) -> Seq<char> {
        self.text@
    }
}

impl Clone for TextBlock {
    fn clone(&self) -> (copy: Self)
        ensures
            copy@ == self@,
    {
        TextBlock { text: self.text.clone() }
    }
}

/// The texts of a sequence of blocks.
pub open spec fn block_views(blocks: Seq<TextBlock>) -> Seq<Seq<char>> {
    Seq::new(blocks.len(), |i: int| blocks[i]@)
}

/// The application-owned representation of a remote response.
#[derive(Debug, PartialEq, Eq)]
pub struct TranscriptResponse {
    pub text_blocks: Vec<TextBlock>,
    /// One opaque result for inline display.
    pub structured_result: Option<JsonValue>,
    pub remote_chat_id: Option<String>,
}

/// The mathematical counterpart of `TranscriptResponse`.
#[verifier::ext_equal]
pub struct TranscriptResponseView {
    pub text_blocks: Seq<Seq<char>>,
    pub structured_result: Option<JsonView>,
    pub remote_chat_id: Option<Seq<char>>,
}

impl View for TranscriptResponse {
    type V = TranscriptResponseView;

    open spec fn view(&self) -> TranscriptResponseView {
        TranscriptResponseView {
            text_blocks: block_views(self.text_blocks@),
            structured_result: option_json_view(self.structured_result),
            remote_chat_id: option_view(self.remote_chat_id),
        }
    }
}

/// A copy of every block.
fn copy_blocks(blocks: &Vec<TextBlock>) -> (copies: Vec<TextBlock>)
    ensures
        block_views(copies@) == block_views(blocks@),
{
    let mut copies: Vec<TextBlock> = Vec::new();
    let mut i: usize = 0;
    while i < blocks.len()
        invariant
            i <= blocks@.len(),
            block_views(copies@) == block_views(blocks@).take(i as int),
        decreases blocks@.len() - i,
    {
        let ghost before = block_views(copies@);
        copies.push(blocks[i].clone());
        assert(block_views(copies@) =~= before.push(blocks@[i as int]@));
        i += 1;
    }
    assert(block_views(copies@) =~= block_views(blocks@));
    copies
}

/// A copy of an optional text.
pub fn copy_option(text: &Option<String>) -> (copy: Option<String>)
    ensures
        copy == *text,
{
    match text {
        Some(text) => Some(text.clone()),
        None => None,
    }
}

impl Clone for TranscriptResponse {
    fn clone(&self) -> (copy: Self)
        ensures
            copy@ == self@,
    {
        TranscriptResponse {
            text_blocks: copy_blocks(&self.text_blocks),
            structured_result: match &self.structured_result {
                Some(value) => Some(value.clone()),
                None => None,
            },
            remote_chat_id: copy_option(&self.remote_chat_id),
        }
    }
}

/// What is shown of a response: its texts and its structured result, never its chat ID.
pub open spec fn displayed(response: TranscriptResponseView) -> JsonView {
    JsonView::Object(
        seq![
            (
                "text_blocks"@,
                JsonView::Array(response.text_blocks.map_values(|text: Seq<char>| JsonView::String(text))),
            ),
            (
                "structured_result"@,
                match response.structured_result {
                    Some(value) => value,
                    None => JsonView::Null,
                },
            ),
        ],
    )
}

impl TranscriptResponse {
    /// The response as one JSON object for one-shot output.
    pub fn display_value(&self) -> (value: JsonValue)
        ensures
            value@ == displayed(self@),
    {
        let mut texts: Vec<JsonValue> = Vec::new();
        let mut i: usize = 0;
        while i < self.text_blocks.len()
            invariant
                i <= self.text_blocks@.len(),
                texts@.len() == i,
                forall|j: int|
                    0 <= j < i ==> #[trigger] texts@[j]@ == JsonView::String(
                        self.text_blocks@[j]@,
                    ),
            decreases self.text_blocks@.len() - i,
        {
            texts.push(JsonValue::String(self.text_blocks[i].text.clone()));
            i += 1;
        }
        let structured_result = match &self.structured_result {
            Some(value) => value.clone(),
            None => JsonValue::Null,
        };
        let mut members: Vec<(String, JsonValue)> = Vec::new();
        let ghost array = JsonValue::Array(texts)@;
        proof {
            lemma_array_view(texts);
            assert(item_views(texts@) =~= self@.text_blocks.map_values(
                |text: Seq<char>| JsonView::String(text),
            ));
        }
        members.push(("text_blocks".to_owned(), JsonValue::Array(texts)));
        members.push(("structured_result".to_owned(), structured_result));
        proof {
            lemma_object_view(members);
            assert(member_views(members@) =~= displayed(self@)->Object_0);
        }
        JsonValue::Object(members)
    }
}

/// The text that stands for a part of a response.
pub open spec fn block_text(content: ContentView) -> Seq<char> {
    match content {
        ContentView::Text(text) => text,
        ContentView::Unsupported => "[unsupported Adapt content]"@,
    }
}

/// The transcript of a query response.
pub open spec fn transcribed(response: QueryResponseView) -> TranscriptResponseView {
    TranscriptResponseView {
        text_blocks: response.content.map_values(|content: ContentView| block_text(content)),
        structured_result: response.structured_content,
        remote_chat_id: response.chat_id,
    }
}

/// Preserve text for the terminal and, when present, one opaque structured result.
/// A part that is not text becomes a stable application message.
pub fn from_query_response(response: QueryResponse) -> (transcript: TranscriptResponse)
    ensures
        transcript@ == transcribed(response@),
{
    let mut text_blocks: Vec<TextBlock> = Vec::new();
    let mut i: usize = 0;
    while i < response.content.len()
        invariant
            i <= response.content@.len(),
            text_blocks@.len() == i,
            forall|j: int|
                0 <= j < i ==> #[trigger] text_blocks@[j]@ == block_text(response.content@[j]@),
        decreases response.content@.len() - i,
    {
        let text = match &response.content[i] {
            Content::Text(text) => text.clone(),
            Content::Unsupported => "[unsupported Adapt content]".to_owned(),
        };
        text_blocks.push(TextBlock { text });
        i += 1;
    }
    assert(block_views(text_blocks@) =~= transcribed(response@).text_blocks);
    TranscriptResponse {
        text_blocks,
        structured_result: response.structured_content,
        remote_chat_id: response.chat_id,
    }
}

/// The word-sized chunks in which a response is revealed.
pub fn streaming_chunks(message: &str) -> (chunks: Vec<String>)
    ensures
        views(chunks@) == split_after_whitespace(message@),
{
    split_keeping_whitespace(message)
}

/// Every part of a response becomes one text, in order: a text itself, anything else a message that
/// says so. The structured result and the chat ID stay as they are.
pub proof fn transcripts_keep_every_part(response: QueryResponseView)
    ensures
        ({
            let transcript = transcribed(response);
            &&& transcript.text_blocks.len() == response.content.len()
            &&& forall|i: int|
                0 <= i < response.content.len() ==> #[trigger] transcript.text_blocks[i] == (
                match response.content[i] {
                    ContentView::Text(text) => text,
                    ContentView::Unsupported => "[unsupported Adapt content]"@,
                })
            &&& transcript.structured_result == response.structured_content
            &&& transcript.remote_chat_id == response.chat_id
        }),
{
}

/// What is shown of a response holds every text of it, in order, and its structured result, and does
/// not depend on its chat ID.
pub proof fn displays_hold_texts_and_result(
    response: TranscriptResponseView,
    other_id: Option<Seq<char>>,
)
    ensures
        ({
            let shown = displayed(response);
            let texts = member(shown, "text_blocks"@);
            &&& texts is Some
            &&& texts->Some_0 is Array
            &&& texts->Some_0->Array_0.len() == response.text_blocks.len()
            &&& forall|i: int|
                0 <= i < response.text_blocks.len() ==> #[trigger] texts->Some_0->Array_0[i]
                    == JsonView::String(response.text_blocks[i])
            &&& member(shown, "structured_result"@) == Some(
                match response.structured_result {
                    Some(value) => value,
                    None => JsonView::Null,
                },
            )
            &&& shown->Object_0.len() == 2
        }),
        displayed(TranscriptResponseView { remote_chat_id: other_id, ..response }) == displayed(
            response,
        ),
{
    reveal_strlit("text_blocks");
    reveal_strlit("structured_result");
    let members = displayed(response)->Object_0;
    assert("text_blocks"@.len() != "structured_result"@.len());
    keys_find_their_first_member(members, "text_blocks"@, 0);
    keys_find_their_first_member(members, "structured_result"@, 1);
}

} // verus!

//! The local commands of the prompt, and their suggestion palette.

use vstd::prelude::*;
use vstd::slice::slice_subrange;
use vstd::string::*;

use crate::text::{
    ascii_lower, ascii_lowercase, chars_of, is_whitespace, lemma_word_len, lemma_word_len_is,
    next_whitespace, same_text, text_of, trim, trimmed, trimming_takes_off_the_whitespace_around,
    whitespace, word_len,
};

verus! {

/// A command that works locally, before anything is sent.
#[derive(Debug, PartialEq, Eq)]
pub enum ReplCommand {
    History,
    Open(String),
    ToggleStreaming,
    Unknown(String),
}

/// The mathematical counterpart of `ReplCommand`.
pub enum ReplCommandView {
    History,
    Open(Seq<char>),
    ToggleStreaming,
    Unknown(Seq<char>),
}

impl View for ReplCommand {
    type V = ReplCommandView;

    open spec fn view(&self) -> ReplCommandView {
        match self {
            ReplCommand::History => ReplCommandView::History,
            ReplCommand::Open(id) => ReplCommandView::Open(id@),
            ReplCommand::ToggleStreaming => ReplCommandView::ToggleStreaming,
            ReplCommand::Unknown(message) => ReplCommandView::Unknown(message@),
        }
    }
}

/// The command that a submitted line gives, or `None` where the line is a prompt.
pub open spec fn command_of(line: Seq<char>) -> Option<ReplCommandView> {
    let input = trim(line);
    let n = word_len(input);
    if input.len() == 0 || input[0] != '/' {
        None
    } else if input == "/history"@ {
        Some(ReplCommandView::History)
    } else if input == "/stream"@ {
        Some(ReplCommandView::ToggleStreaming)
    } else if input == "/open"@ {
        Some(ReplCommandView::Unknown("/open requires a session ID"@))
    } else if n < input.len() && input.take(n) == "/open"@ && trim(input.skip(n + 1)).len() > 0 {
        Some(ReplCommandView::Open(trim(input.skip(n + 1))))
    } else {
        Some(
            ReplCommandView::Unknown(
                "unknown command `"@ + input + "`; use /history, /open <id>, or /stream"@,
            ),
        )
    }
}

/// The command that a submitted line gives, or `None` where the line is a prompt.
pub fn parse_command(input: &str) -> (command: Option<ReplCommand>)
    ensures
        command_of(input@) == (match command {
            Some(command) => Some(command@),
            None => None,
        }),
{
    let line = trimmed(input);
    let chars = chars_of(line.as_str());
    if chars.len() == 0 || chars[0] != '/' {
        return None;
    }
    if same_text(line.as_str(), "/history") {
        return Some(ReplCommand::History);
    }
    if same_text(line.as_str(), "/stream") {
        return Some(ReplCommand::ToggleStreaming);
    }
    if same_text(line.as_str(), "/open") {
        return Some(ReplCommand::Unknown("/open requires a session ID".to_owned()));
    }
    let at: usize = next_whitespace(&chars, 0);
    assert(chars@.skip(0) =~= chars@);
    if at < chars.len() {
        let word = text_of(slice_subrange(chars.as_slice(), 0, at));
        assert(word@ =~= chars@.take(at as int));
        if same_text(word.as_str(), "/open") {
            let rest = text_of(slice_subrange(chars.as_slice(), at + 1, chars.len()));
            assert(rest@ =~= chars@.skip(at + 1));
            let id = trimmed(rest.as_str());
            if !id.as_str().is_empty() {
                return Some(ReplCommand::Open(id));
            }
        }
    }
    let mut message = "unknown command `".to_owned();
    message.append(line.as_str());
    message.append("`; use /history, /open <id>, or /stream");
    Some(ReplCommand::Unknown(message))
}

/// The commands that the palette suggests, with their descriptions.
pub open spec fn palette() -> Seq<(Seq<char>, Seq<char>)> {
    seq![
        ("/history"@, "Browse saved local sessions"@),
        ("/open <id>"@, "Reopen a saved transcript"@),
        ("/stream"@, "Toggle mock response streaming"@),
    ]
}

pub open spec fn suggestion_views(suggestions: Seq<(&'static str, &'static str)>) -> Seq<
    (Seq<char>, Seq<char>),
> {
    Seq::new(suggestions.len(), |i: int| (suggestions[i].0@, suggestions[i].1@))
}

fn command_palette() -> (commands: Vec<(&'static str, &'static str)>)
    ensures
        suggestion_views(commands@) == palette(),
{
    let mut commands: Vec<(&'static str, &'static str)> = Vec::new();
    commands.push(("/history", "Browse saved local sessions"));
    commands.push(("/open <id>", "Reopen a saved transcript"));
    commands.push(("/stream", "Toggle mock response streaming"));
    assert(suggestion_views(commands@) =~= palette());
    commands
}

/// The characters that stand for a character in lower case.
pub uninterp spec fn lower_form(character: char) -> Seq<char>;

/// `char::to_lowercase` gives the characters that stand for a character in lower case, by Unicode's
/// tables. An ASCII character gives itself, or the lower-case letter for a capital one.
#[verifier::external_body]
fn lowercase(character: char) -> (lower: Vec<char>)
    ensures
        lower@ == lower_form(character),
        (character as u32) < 128 ==> lower@ == seq![ascii_lower(character)],
{
    character.to_lowercase().collect()
}

/// The ASCII characters of the text have the lower-case forms that ASCII gives them.
pub open spec fn ascii_is_lowered(text: Seq<char>) -> bool {
    forall|i: int|
        0 <= i < text.len() && (text[i] as u32) < 128 ==> lower_form(#[trigger] text[i]) == seq![
            ascii_lower(text[i]),
        ]
}

/// The text in lower case.
pub open spec fn lowered(text: Seq<char>) -> Seq<char>
    decreases text.len(),
{
    if text.len() == 0 {
        Seq::empty()
    } else {
        lowered(text.drop_last()) + lower_form(text.last())
    }
}

/// A text that holds nothing but ASCII is lowered character by character.
pub proof fn ascii_text_is_lowered_by_character(text: Seq<char>)
    requires
        ascii_is_lowered(text),
        forall|i: int| 0 <= i < text.len() ==> (#[trigger] text[i] as u32) < 128,
    ensures
        lowered(text) == ascii_lowercase(text),
    decreases text.len(),
{
    if text.len() > 0 {
        let start = text.drop_last();
        assert forall|i: int| 0 <= i < start.len() implies (#[trigger] start[i] as u32) < 128
            && lower_form(start[i]) == seq![ascii_lower(start[i])] by {
            assert(start[i] == text[i]);
        }
        ascii_text_is_lowered_by_character(start);
        assert(lower_form(text[text.len() - 1]) == seq![ascii_lower(text.last())]);
        assert(lowered(text) =~= ascii_lowercase(text));
    }
}

fn lowercase_text(text: &str) -> (lower: Vec<char>)
    ensures
        lower@ == lowered(text@),
        ascii_is_lowered(text@),
{
    let mut lower: Vec<char> = Vec::new();
    assert(lower@ =~= Seq::<char>::empty());
    for character in it: text.chars()
        invariant
            it.seq() == text@,
            lower@ == lowered(text@.take(it.index())),
            ascii_is_lowered(text@.take(it.index())),
    {
        assert(text@.take(it.index() + 1).drop_last() =~= text@.take(it.index()));
        let mut form = lowercase(character);
        lower.append(&mut form);
    }
    assert(text@.take(text@.len() as int) =~= text@);
    lower
}

/// The characters of `query` stand in `text` in their order, with anything between them.
pub open spec fn is_scattered_in(query: Seq<char>, text: Seq<char>) -> bool
    decreases text.len(),
{
    if query.len() == 0 {
        true
    } else if text.len() == 0 {
        false
    } else if query[0] == text[0] {
        is_scattered_in(query.skip(1), text.skip(1))
    } else {
        is_scattered_in(query, text.skip(1))
    }
}

/// Whether the characters of `query` stand in `text` in their order.
pub fn scattered_in(query: &Vec<char>, text: &Vec<char>) -> (found: bool)
    ensures
        found == is_scattered_in(query@, text@),
{
    let mut matched: usize = 0;
    let mut at: usize = 0;
    assert(query@.skip(0) =~= query@);
    assert(text@.skip(0) =~= text@);
    while at < text.len() && matched < query.len()
        invariant
            matched <= query@.len(),
            at <= text@.len(),
            is_scattered_in(query@.skip(matched as int), text@.skip(at as int)) == is_scattered_in(
                query@,
                text@,
            ),
        decreases text@.len() - at,
    {
        assert(text@.skip(at as int).skip(1) =~= text@.skip(at + 1));
        if query[matched] == text[at] {
            assert(query@.skip(matched as int).skip(1) =~= query@.skip(matched + 1));
            matched += 1;
        }
        at += 1;
    }
    matched == query.len()
}

/// The command is suggested for the query, whatever the case of either.
pub open spec fn is_fuzzy_match(command: Seq<char>, query: Seq<char>) -> bool {
    is_scattered_in(lowered(query), lowered(command))
}

pub fn fuzzy_matches(command: &str, query: &str) -> (found: bool)
    ensures
        found == is_fuzzy_match(command@, query@),
        ascii_is_lowered(command@),
        ascii_is_lowered(query@),
{
    scattered_in(&lowercase_text(query), &lowercase_text(command))
}

/// The first `n` commands of the palette, as far as the query fits their names.
pub open spec fn fitting(query: Seq<char>, n: int) -> Seq<(Seq<char>, Seq<char>)>
    decreases n,
{
    if n <= 0 {
        Seq::empty()
    } else if is_fuzzy_match(palette()[n - 1].0.skip(1), query) {
        fitting(query, n - 1).push(palette()[n - 1])
    } else {
        fitting(query, n - 1)
    }
}

/// The commands that the palette suggests for an input: a slash, and what fits behind it on one
/// line.
pub open spec fn suggested(input: Seq<char>) -> Seq<(Seq<char>, Seq<char>)> {
    if input.contains('\n') || input.len() == 0 || input[0] != '/' {
        Seq::empty()
    } else {
        fitting(input.skip(1), palette().len() as int)
    }
}

/// The names in the palette and the query that they are held against are lowered as ASCII asks.
pub open spec fn palette_is_lowered(input: Seq<char>) -> bool {
    &&& ascii_is_lowered(input.skip(1))
    &&& forall|n: int|
        0 <= n < palette().len() ==> ascii_is_lowered((#[trigger] palette()[n]).0.skip(1))
}

/// The text without its first character.
fn without_first(text: &str) -> (rest: String)
    requires
        text@.len() > 0,
    ensures
        rest@ == text@.skip(1),
{
    let chars = chars_of(text);
    let rest = text_of(slice_subrange(chars.as_slice(), 1, chars.len()));
    assert(rest@ =~= text@.skip(1));
    rest
}

/// The commands that the palette suggests for an input.
pub fn matching_commands(input: &str) -> (commands: Vec<(&'static str, &'static str)>)
    ensures
        suggestion_views(commands@) == suggested(input@),
        input@.len() > 0 && input@[0] == '/' && !input@.contains('\n') ==> palette_is_lowered(
            input@,
        ),
{
    let chars = chars_of(input);
    let mut commands: Vec<(&'static str, &'static str)> = Vec::new();
    assert(suggestion_views(commands@) =~= Seq::<(Seq<char>, Seq<char>)>::empty());
    if chars.len() == 0 || chars[0] != '/' {
        return commands;
    }
    let mut i: usize = 0;
    while i < chars.len()
        invariant
            i <= chars@.len(),
            chars@ == input@,
            suggestion_views(commands@) == Seq::<(Seq<char>, Seq<char>)>::empty(),
            forall|j: int| 0 <= j < i ==> #[trigger] chars@[j] != '\n',
        decreases chars@.len() - i,
    {
        if chars[i] == '\n' {
            assert(input@.contains('\n'));
            return commands;
        }
        i += 1;
    }
    let query = without_first(input);
    let all = command_palette();
    assert(suggestion_views(all@).len() == 3);
    let mut n: usize = 0;
    proof {
        reveal_strlit("/history");
        reveal_strlit("/open <id>");
        reveal_strlit("/stream");
    }
    while n < all.len()
        invariant
            n <= all@.len(),
            all@.len() == 3,
            suggestion_views(all@) == palette(),
            "/history"@.len() > 0,
            "/open <id>"@.len() > 0,
            "/stream"@.len() > 0,
            query@ == input@.skip(1),
            suggestion_views(commands@) == fitting(query@, n as int),
            n > 0 ==> ascii_is_lowered(query@),
            forall|j: int|
                0 <= j < n ==> ascii_is_lowered((#[trigger] palette()[j]).0.skip(1)),
        decreases all@.len() - n,
    {
        let (command, description) = all[n];
        let ghost before = suggestion_views(commands@);
        assert(suggestion_views(all@)[n as int] == (command@, description@));
        let name = without_first(command);
        if fuzzy_matches(name.as_str(), query.as_str()) {
            commands.push((command, description));
            assert(suggestion_views(commands@) =~= before.push((command@, description@)));
        }
        n += 1;
    }
    commands
}

/// What accepting the only suggestion makes of an input.
pub open spec fn completion(input: Seq<char>) -> Option<Seq<char>> {
    let commands = suggested(input);
    if (exists|i: int| 0 <= i < input.len() && is_whitespace(#[trigger] input[i])) || commands.len()
        != 1 || commands[0].0 == input {
        None
    } else if commands[0].0 == "/open <id>"@ {
        Some("/open "@)
    } else {
        Some(commands[0].0)
    }
}

/// What accepting the only suggestion makes of an input.
pub fn completed_command(input: &str) -> (completed: Option<String>)
    ensures
        completion(input@) == (match completed {
            Some(completed) => Some(completed@),
            None => None,
        }),
        input@.len() > 0 && input@[0] == '/' && (forall|i: int|
            0 <= i < input@.len() ==> !is_whitespace(#[trigger] input@[i])) ==> palette_is_lowered(
            input@,
        ),
{
    let chars = chars_of(input);
    let mut i: usize = 0;
    while i < chars.len()
        invariant
            i <= chars@.len(),
            chars@ == input@,
            forall|j: int| 0 <= j < i ==> !is_whitespace(#[trigger] chars@[j]),
        decreases chars@.len() - i,
    {
        if whitespace(chars[i]) {
            assert(is_whitespace(input@[i as int]));
            return None;
        }
        i += 1;
    }
    let commands = matching_commands(input);
    if commands.len() != 1 {
        return None;
    }
    let command = commands[0].0;
    assert(suggestion_views(commands@)[0].0 == command@);
    if same_text(command, input) {
        return None;
    }
    if same_text(command, "/open <id>") {
        Some("/open ".to_owned())
    } else {
        Some(command.to_owned())
    }
}

/// `places` gives each character of the query its own place in the text, in order.
pub open spec fn is_embedding(query: Seq<char>, text: Seq<char>, places: Seq<int>) -> bool {
    &&& places.len() == query.len()
    &&& forall|i: int|
        0 <= i < places.len() ==> 0 <= #[trigger] places[i] < text.len() && text[places[i]]
            == query[i]
    &&& forall|i: int, j: int|
        0 <= i < j < places.len() ==> #[trigger] places[i] < #[trigger] places[j]
}

/// A query that is found has a place in the text for each of its characters, in order.
pub proof fn found_query_has_places(query: Seq<char>, text: Seq<char>) -> (places: Seq<int>)
    requires
        is_scattered_in(query, text),
    ensures
        is_embedding(query, text, places),
    decreases text.len(),
{
    if query.len() == 0 {
        Seq::empty()
    } else if query[0] == text[0] {
        let rest = found_query_has_places(query.skip(1), text.skip(1));
        let places = seq![0int] + rest.map_values(|place: int| place + 1);
        assert forall|i: int| 0 <= i < places.len() implies 0 <= #[trigger] places[i] < text.len()
            && text[places[i]] == query[i] by {
            if i > 0 {
                assert(places[i] == rest[i - 1] + 1);
                assert(text.skip(1)[rest[i - 1]] == query.skip(1)[i - 1]);
            }
        }
        assert forall|i: int, j: int| 0 <= i < j < places.len() implies #[trigger] places[i]
            < #[trigger] places[j] by {
            assert(places[j] == rest[j - 1] + 1);
            if i > 0 {
                assert(places[i] == rest[i - 1] + 1);
            }
        }
        places
    } else {
        let rest = found_query_has_places(query, text.skip(1));
        let places = rest.map_values(|place: int| place + 1);
        assert forall|i: int| 0 <= i < places.len() implies 0 <= #[trigger] places[i] < text.len()
            && text[places[i]] == query[i] by {
            assert(places[i] == rest[i] + 1);
            assert(text.skip(1)[rest[i]] == query[i]);
        }
        assert forall|i: int, j: int| 0 <= i < j < places.len() implies #[trigger] places[i]
            < #[trigger] places[j] by {
            assert(places[i] == rest[i] + 1 && places[j] == rest[j] + 1);
        }
        places
    }
}

/// A query whose characters have places in the text, in order, is found: looking for the first
/// place of each character misses none.
pub proof fn query_with_places_is_found(query: Seq<char>, text: Seq<char>, places: Seq<int>)
    requires
        is_embedding(query, text, places),
    ensures
        is_scattered_in(query, text),
    decreases text.len(),
{
    if query.len() > 0 {
        assert(text[places[0]] == query[0]);
        if query[0] == text[0] {
            let rest = places.skip(1).map_values(|place: int| place - 1);
            assert forall|i: int| 0 <= i < rest.len() implies 0 <= #[trigger] rest[i]
                < text.skip(1).len() && text.skip(1)[rest[i]] == query.skip(1)[i] by {
                assert(rest[i] == places[i + 1] - 1);
                assert(places[0] < places[i + 1]);
            }
            assert forall|i: int, j: int| 0 <= i < j < rest.len() implies #[trigger] rest[i]
                < #[trigger] rest[j] by {
                assert(rest[i] == places[i + 1] - 1 && rest[j] == places[j + 1] - 1);
            }
            query_with_places_is_found(query.skip(1), text.skip(1), rest);
        } else {
            let rest = places.map_values(|place: int| place - 1);
            assert forall|i: int| 0 <= i < rest.len() implies 0 <= #[trigger] rest[i]
                < text.skip(1).len() && text.skip(1)[rest[i]] == query[i] by {
                assert(rest[i] == places[i] - 1);
                assert(places[0] <= places[i]);
                assert(places[0] != 0);
            }
            assert forall|i: int, j: int| 0 <= i < j < rest.len() implies #[trigger] rest[i]
                < #[trigger] rest[j] by {
                assert(rest[i] == places[i] - 1 && rest[j] == places[j] - 1);
            }
            query_with_places_is_found(query, text.skip(1), rest);
        }
    }
}

proof fn lemma_scattered_in_itself(text: Seq<char>)
    ensures
        is_scattered_in(text, text),
    decreases text.len(),
{
    if text.len() > 0 {
        lemma_scattered_in_itself(text.skip(1));
    }
}

proof fn lemma_fitting_holds(query: Seq<char>, n: int, i: int)
    requires
        0 <= i < n <= palette().len(),
        is_fuzzy_match(palette()[i].0.skip(1), query),
    ensures
        fitting(query, n).contains(palette()[i]),
    decreases n,
{
    let all = fitting(query, n);
    if i == n - 1 {
        assert(all.last() == palette()[i]);
    } else {
        lemma_fitting_holds(query, n - 1, i);
        let before = fitting(query, n - 1);
        let at = choose|at: int| 0 <= at < before.len() && before[at] == palette()[i];
        assert(all[at] == palette()[i]);
    }
}

proof fn lemma_fitting_is_from_palette(query: Seq<char>, n: int, at: int)
    requires
        0 <= n <= palette().len(),
        0 <= at < fitting(query, n).len(),
    ensures
        palette().contains(fitting(query, n)[at]),
    decreases n,
{
    if at < fitting(query, n - 1).len() {
        lemma_fitting_is_from_palette(query, n - 1, at);
    } else {
        assert(fitting(query, n)[at] == palette()[n - 1]);
    }
}

/// A lone slash suggests every command, and a command that is typed in full is still suggested.
pub proof fn palette_suggests_its_commands(i: int)
    requires
        0 <= i < palette().len(),
    ensures
        suggested(seq!['/']).contains(palette()[i]),
        suggested(palette()[i].0).contains(palette()[i]),
{
    reveal_strlit("/history");
    reveal_strlit("/open <id>");
    reveal_strlit("/stream");
    let slash = seq!['/'];
    assert(slash.skip(1) =~= Seq::<char>::empty());
    assert(is_fuzzy_match(palette()[i].0.skip(1), slash.skip(1)));
    lemma_fitting_holds(slash.skip(1), palette().len() as int, i);
    let typed = palette()[i].0;
    lemma_scattered_in_itself(lowered(typed.skip(1)));
    lemma_fitting_holds(typed.skip(1), palette().len() as int, i);
    assert(!typed.contains('\n'));
}

/// An accepted suggestion is complete: nothing further is offered in its place.
pub proof fn completions_are_final(input: Seq<char>)
    requires
        completion(input) is Some,
    ensures
        completion(completion(input)->Some_0) is None,
{
    reveal_strlit("/history");
    reveal_strlit("/open <id>");
    reveal_strlit("/stream");
    reveal_strlit("/open ");
    let done = completion(input)->Some_0;
    lemma_fitting_is_from_palette(input.skip(1), palette().len() as int, 0);
    let i = choose|i: int| 0 <= i < palette().len() && palette()[i] == suggested(input)[0];
    if suggested(input)[0].0 == "/open <id>"@ {
        assert(is_whitespace(done[5]));
    } else {
        palette_suggests_its_commands(i);
        let at = choose|at: int|
            0 <= at < suggested(done).len() && suggested(done)[at] == palette()[i];
        assert(suggested(done)[at].0 == done);
    }
}

/// The text has something to it, and no whitespace around it.
pub open spec fn is_trimmed(text: Seq<char>) -> bool {
    text.len() > 0 && !is_whitespace(text[0]) && !is_whitespace(text.last())
}

/// The command of a line is that of its text without the whitespace around it. A line that does not
/// begin with a slash is a prompt, and so is an empty one.
pub proof fn whitespace_around_a_command_does_not_count(
    before: Seq<char>,
    inside: Seq<char>,
    after: Seq<char>,
)
    requires
        forall|i: int| 0 <= i < before.len() ==> is_whitespace(#[trigger] before[i]),
        forall|i: int| 0 <= i < after.len() ==> is_whitespace(#[trigger] after[i]),
        inside.len() == 0 || is_trimmed(inside),
    ensures
        command_of(before + inside + after) == command_of(inside),
        inside.len() == 0 || inside[0] != '/' ==> command_of(before + inside + after) is None,
        inside.len() > 0 && inside[0] == '/' ==> command_of(before + inside + after) is Some,
{
    let none = Seq::<char>::empty();
    trimming_takes_off_the_whitespace_around(before, inside, after);
    trimming_takes_off_the_whitespace_around(none, inside, none);
    assert(none + inside + none =~= inside);
}

/// `/open`, whitespace and an ID open the session with that ID, whatever whitespace stands between
/// them.
pub proof fn open_takes_the_id_behind_it(gap: Seq<char>, id: Seq<char>)
    requires
        gap.len() > 0,
        forall|i: int| 0 <= i < gap.len() ==> is_whitespace(#[trigger] gap[i]),
        is_trimmed(id),
    ensures
        command_of("/open"@ + gap + id) == Some(ReplCommandView::Open(id)),
{
    reveal_strlit("/open");
    reveal_strlit("/history");
    reveal_strlit("/stream");
    let line = "/open"@ + gap + id;
    let none = Seq::<char>::empty();
    assert(line.last() == id.last());
    assert(line[0] == '/');
    trimming_takes_off_the_whitespace_around(none, line, none);
    assert(none + line + none =~= line);
    assert(line[5] == gap[0]);
    assert forall|i: int| 0 <= i < 5 implies !is_whitespace(#[trigger] line[i]) by {
        assert(line[i] == "/open"@[i]);
        assert(i == 0 || i == 1 || i == 2 || i == 3 || i == 4);
    }
    lemma_word_len_is(line, 5);
    assert(line.take(5) =~= "/open"@);
    assert(line.skip(6) =~= gap.skip(1) + id + none);
    trimming_takes_off_the_whitespace_around(gap.skip(1), id, none);
    assert("/history"@[5] == 'o');
    assert("/stream"@[5] == 'a');
}

/// The other commands are known by their whole text, and everything else that begins with a slash
/// is answered as an unknown command that names it.
pub proof fn commands_are_known_by_their_text(line: Seq<char>)
    requires
        is_trimmed(line),
        line[0] == '/',
    ensures
        line == "/history"@ ==> command_of(line) == Some(ReplCommandView::History),
        line == "/stream"@ ==> command_of(line) == Some(ReplCommandView::ToggleStreaming),
        line == "/open"@ ==> command_of(line) == Some(
            ReplCommandView::Unknown("/open requires a session ID"@),
        ),
        line != "/history"@ && line != "/stream"@ && line != "/open"@ && !(line.len() > 5
            && line.take(5) == "/open"@ && is_whitespace(line[5])) ==> command_of(line) == Some(
            ReplCommandView::Unknown(
                "unknown command `"@ + line + "`; use /history, /open <id>, or /stream"@,
            ),
        ),
{
    reveal_strlit("/open");
    reveal_strlit("/history");
    reveal_strlit("/stream");
    let none = Seq::<char>::empty();
    trimming_takes_off_the_whitespace_around(none, line, none);
    assert(none + line + none =~= line);
    lemma_word_len(line);
    let n = word_len(line);
    if n < line.len() && line.take(n) == "/open"@ {
        assert(line.take(n).len() == n);
        assert(n == 5);
    }
    if line == "/stream"@ {
        assert(line[1] != "/history"@[1]);
    }
    if line == "/open"@ {
        assert(line.len() == 5);
    }
}

proof fn lemma_lowered_in_turn(first: Seq<char>, second: Seq<char>)
    ensures
        lowered(first + second) == lowered(first) + lowered(second),
    decreases second.len(),
{
    if second.len() == 0 {
        assert(first + second =~= first);
        assert(lowered(first) + Seq::<char>::empty() =~= lowered(first));
    } else {
        lemma_lowered_in_turn(first, second.drop_last());
        assert((first + second).drop_last() =~= first + second.drop_last());
        assert(lowered(first + second) =~= lowered(first) + lowered(second));
    }
}

/// A text is lowered character by character, each by its own lower-case form.
pub proof fn texts_are_lowered_by_character(before: Seq<char>, character: char, after: Seq<char>)
    ensures
        lowered(before.push(character) + after) == lowered(before) + lower_form(character)
            + lowered(after),
        lowered(Seq::empty()).len() == 0,
{
    lemma_lowered_in_turn(before.push(character), after);
    assert(before.push(character).drop_last() =~= before);
}

/// The name fits what was typed: its characters stand in the name in their order, in any case.
pub open spec fn fits(query: Seq<char>) -> spec_fn((Seq<char>, Seq<char>)) -> bool {
    |command: (Seq<char>, Seq<char>)|
        exists|places: Seq<int>|
            #[trigger] is_embedding(lowered(query), lowered(command.0.skip(1)), places)
}

proof fn lemma_fits(command: (Seq<char>, Seq<char>), query: Seq<char>)
    ensures
        fits(query)(command) == is_fuzzy_match(command.0.skip(1), query),
{
    let (typed, name) = (lowered(query), lowered(command.0.skip(1)));
    if is_scattered_in(typed, name) {
        let places = found_query_has_places(typed, name);
        assert(is_embedding(typed, name, places));
    }
    if exists|places: Seq<int>| #[trigger] is_embedding(typed, name, places) {
        let places = choose|places: Seq<int>| #[trigger] is_embedding(typed, name, places);
        query_with_places_is_found(typed, name, places);
    }
}

proof fn lemma_fitting_is_a_filter(query: Seq<char>, n: int)
    requires
        0 <= n <= palette().len(),
    ensures
        fitting(query, n) == palette().take(n).filter(fits(query)),
    decreases n,
{
    reveal(Seq::filter);
    if n == 0 {
        assert(fitting(query, n) =~= palette().take(n).filter(fits(query)));
    } else {
        lemma_fitting_is_a_filter(query, n - 1);
        lemma_fits(palette()[n - 1], query);
        assert(palette().take(n).drop_last() =~= palette().take(n - 1));
        assert(palette().take(n).last() == palette()[n - 1]);
    }
}

/// A slash on a single line suggests exactly the commands of the palette that fit what stands behind
/// it, in the order of the palette; anything else suggests nothing.
pub proof fn suggestions_fit_what_was_typed(input: Seq<char>)
    ensures
        input.len() > 0 && input[0] == '/' && !input.contains('\n') ==> suggested(input)
            == palette().filter(fits(input.skip(1))),
        !(input.len() > 0 && input[0] == '/' && !input.contains('\n')) ==> suggested(input).len()
            == 0,
{
    lemma_fitting_is_a_filter(input.skip(1), palette().len() as int);
    assert(palette().take(palette().len() as int) =~= palette());
}

/// The only suggestion is what an input is completed to, unless it is already there or the input has
/// whitespace; an ID is still to be typed behind `/open`.
pub proof fn the_only_suggestion_completes(input: Seq<char>)
    ensures
        (forall|i: int| 0 <= i < input.len() ==> !is_whitespace(#[trigger] input[i])) && suggested(
            input,
        ).len() == 1 && suggested(input)[0].0 != input ==> completion(input) == Some(
            if suggested(input)[0].0 == "/open <id>"@ {
                "/open "@
            } else {
                suggested(input)[0].0
            },
        ),
        (exists|i: int| 0 <= i < input.len() && is_whitespace(#[trigger] input[i])) || suggested(
            input,
        ).len() != 1 || suggested(input)[0].0 == input ==> completion(input) is None,
{
}

/// The palette offers the three commands, each with what it does.
pub proof fn the_palette_offers_every_command()
    ensures
        palette().len() == 3,
        palette()[0] == ("/history"@, "Browse saved local sessions"@),
        palette()[1] == ("/open <id>"@, "Reopen a saved transcript"@),
        palette()[2] == ("/stream"@, "Toggle mock response streaming"@),
{
}

} // verus!

//! Character-level text operations and their mathematical counterparts.
//!
//! A text is modelled as the sequence of its characters.

use vstd::prelude::*;
use vstd::slice::slice_subrange;
use vstd::string::*;

verus! {

/// `String::push` appends one character.
pub assume_specification[ std::string::String::push ](
    text: &mut std::string::String,
    character: char,
)
    ensures
        final(text)@ == old(text)@.push(character),
;

/// The views of a sequence of texts.
pub open spec fn views(texts: Seq<String>) -> Seq<Seq<char>> {
    Seq::new(texts.len(), |i: int| texts[i]@)
}

/// The view of an optional text.
pub open spec fn option_view(text: Option<String>) -> Option<Seq<char>> {
    match text {
        Some(text) => Some(text@),
        None => None,
    }
}

/// All parts, one after the other.
pub open spec fn concatenation(parts: Seq<Seq<char>>) -> Seq<char>
    decreases parts.len(),
{
    if parts.len() == 0 {
        Seq::empty()
    } else {
        parts[0] + concatenation(parts.skip(1))
    }
}

/// The Unicode `White_Space` property.
pub open spec fn is_whitespace(character: char) -> bool {
    let code = character as u32;
    ||| 0x09 <= code <= 0x0d
    ||| code == 0x20
    ||| code == 0x85
    ||| code == 0xa0
    ||| code == 0x1680
    ||| 0x2000 <= code <= 0x200a
    ||| code == 0x2028
    ||| code == 0x2029
    ||| code == 0x202f
    ||| code == 0x205f
    ||| code == 0x3000
}

/// The ASCII letters `A` to `Z` become `a` to `z`; every other character stays.
pub open spec fn ascii_lower(character: char) -> char {
    if 'A' <= character && character <= 'Z' {
        (character as u8 + 32) as u8 as char
    } else {
        character
    }
}

/// `ascii_lower` of every character.
pub open spec fn ascii_lowercase(text: Seq<char>) -> Seq<char> {
    text.map_values(|character: char| ascii_lower(character))
}

pub open spec fn starts_with(text: Seq<char>, prefix: Seq<char>) -> bool {
    prefix.len() <= text.len() && text.take(prefix.len() as int) == prefix
}

pub open spec fn ends_with(text: Seq<char>, suffix: Seq<char>) -> bool {
    suffix.len() <= text.len() && text.skip(text.len() - suffix.len()) == suffix
}

/// `needle` stands in `text` at position `at`.
pub open spec fn occurs_at(text: Seq<char>, needle: Seq<char>, at: int) -> bool {
    0 <= at && at + needle.len() <= text.len() && text.subrange(at, at + needle.len()) == needle
}

/// `needle` stands somewhere in `text`.
pub open spec fn contains(text: Seq<char>, needle: Seq<char>) -> bool {
    exists|at: int| occurs_at(text, needle, at)
}

/// Every occurrence of `from`, taken from the left without overlap, becomes `to`.
pub open spec fn replaced(text: Seq<char>, from: Seq<char>, to: Seq<char>) -> Seq<char>
    decreases text.len(),
{
    if text.len() == 0 || from.len() == 0 {
        text
    } else if starts_with(text, from) {
        to + replaced(text.skip(from.len() as int), from, to)
    } else {
        seq![text[0]] + replaced(text.skip(1), from, to)
    }
}

/// How many characters stand before the first whitespace character.
pub open spec fn word_len(text: Seq<char>) -> int
    decreases text.len(),
{
    if text.len() == 0 || is_whitespace(text[0]) {
        0
    } else {
        1 + word_len(text.skip(1))
    }
}

/// How many characters stand before the first `separator`.
pub open spec fn len_before(text: Seq<char>, separator: char) -> int
    decreases text.len(),
{
    if text.len() == 0 || text[0] == separator {
        0
    } else {
        1 + len_before(text.skip(1), separator)
    }
}

/// The text without its leading whitespace.
pub open spec fn trim_start(text: Seq<char>) -> Seq<char>
    decreases text.len(),
{
    if text.len() > 0 && is_whitespace(text[0]) {
        trim_start(text.skip(1))
    } else {
        text
    }
}

/// The text without its trailing whitespace.
pub open spec fn trim_end(text: Seq<char>) -> Seq<char>
    decreases text.len(),
{
    if text.len() > 0 && is_whitespace(text.last()) {
        trim_end(text.drop_last())
    } else {
        text
    }
}

/// The text without its leading and trailing whitespace.
pub open spec fn trim(text: Seq<char>) -> Seq<char> {
    trim_end(trim_start(text))
}

/// The parts of `text` between the separators; there is always at least one part.
pub open spec fn split(text: Seq<char>, separator: char) -> Seq<Seq<char>>
    decreases text.len(),
{
    let n = len_before(text, separator);
    if n >= text.len() {
        seq![text]
    } else {
        proof {
            lemma_len_before(text, separator);
        }
        seq![text.take(n)] + split(text.skip(n + 1), separator)
    }
}

/// The parts of `text`, each reaching up to and including the next whitespace character.
pub open spec fn split_after_whitespace(text: Seq<char>) -> Seq<Seq<char>>
    decreases text.len(),
{
    let n = word_len(text);
    if text.len() == 0 {
        Seq::empty()
    } else if n >= text.len() {
        seq![text]
    } else {
        proof {
            lemma_word_len(text);
        }
        seq![text.take(n + 1)] + split_after_whitespace(text.skip(n + 1))
    }
}

/// The words of `text`: its maximal runs of characters that are not whitespace.
pub open spec fn words(text: Seq<char>) -> Seq<Seq<char>>
    decreases text.len(),
{
    let n = word_len(text);
    if text.len() == 0 {
        Seq::empty()
    } else if n == 0 {
        words(text.skip(1))
    } else if n >= text.len() {
        seq![text]
    } else {
        proof {
            lemma_word_len(text);
        }
        seq![text.take(n)] + words(text.skip(n))
    }
}

pub proof fn lemma_word_len(text: Seq<char>)
    ensures
        0 <= word_len(text) <= text.len(),
        forall|i: int| 0 <= i < word_len(text) ==> !is_whitespace(#[trigger] text[i]),
        word_len(text) < text.len() ==> is_whitespace(text[word_len(text)]),
    decreases text.len(),
{
    if text.len() != 0 && !is_whitespace(text[0]) {
        lemma_word_len(text.skip(1));
        assert forall|i: int| 0 <= i < word_len(text) implies !is_whitespace(#[trigger] text[i]) by {
            if i > 0 {
                assert(text[i] == text.skip(1)[i - 1]);
            }
        }
    }
}

/// `word_len` is the only length with these three properties.
pub proof fn lemma_word_len_is(text: Seq<char>, n: int)
    requires
        0 <= n <= text.len(),
        forall|i: int| 0 <= i < n ==> !is_whitespace(#[trigger] text[i]),
        n < text.len() ==> is_whitespace(text[n]),
    ensures
        word_len(text) == n,
{
    lemma_word_len(text);
    let m = word_len(text);
    if m < n {
        assert(!is_whitespace(text[m]));
    } else if n < m {
        assert(!is_whitespace(text[n]));
    }
}

/// A word in front of the end or of whitespace is the first word of the text.
pub proof fn lemma_words_of_word_and_rest(word: Seq<char>, rest: Seq<char>)
    requires
        word.len() > 0,
        forall|i: int| 0 <= i < word.len() ==> !is_whitespace(#[trigger] word[i]),
        rest.len() == 0 || is_whitespace(rest[0]),
    ensures
        word_len(word + rest) == word.len(),
        words(word + rest) == seq![word] + words(rest),
{
    let text = word + rest;
    lemma_word_len_is(text, word.len() as int);
    assert(text.take(word.len() as int) =~= word);
    assert(text.skip(word.len() as int) =~= rest);
    if rest.len() == 0 {
        assert(text =~= word);
        assert(seq![word] + words(rest) =~= seq![word]);
    }
}

pub proof fn lemma_len_before(text: Seq<char>, separator: char)
    ensures
        0 <= len_before(text, separator) <= text.len(),
        forall|i: int| 0 <= i < len_before(text, separator) ==> #[trigger] text[i] != separator,
        len_before(text, separator) < text.len() ==> text[len_before(text, separator)]
            == separator,
    decreases text.len(),
{
    if text.len() != 0 && text[0] != separator {
        lemma_len_before(text.skip(1), separator);
        assert forall|i: int| 0 <= i < len_before(text, separator) implies #[trigger] text[i]
            != separator by {
            if i > 0 {
                assert(text[i] == text.skip(1)[i - 1]);
            }
        }
    }
}

/// A part without separators in front of a separator is the first part.
pub proof fn lemma_split_first(first: Seq<char>, rest: Seq<char>, separator: char)
    requires
        !first.contains(separator),
    ensures
        split(first.push(separator) + rest, separator) == seq![first] + split(rest, separator),
{
    let text = first.push(separator) + rest;
    let n = len_before(text, separator);
    lemma_len_before(text, separator);
    assert(text[first.len() as int] == separator);
    if n < first.len() {
        assert(first[n] == text[n]);
        assert(first.contains(separator));
    }
    assert(n == first.len());
    assert(text.take(n) =~= first);
    assert(text.skip(n + 1) =~= rest);
}

/// Every character of the text is a separator or stands in one of the parts.
pub proof fn lemma_split_covers(text: Seq<char>, separator: char, i: int)
    requires
        0 <= i < text.len(),
        text[i] != separator,
    ensures
        exists|part: int, at: int|
            0 <= part < split(text, separator).len() && 0 <= at < split(text, separator)[part].len()
                && #[trigger] split(text, separator)[part][at] == text[i],
    decreases text.len(),
{
    lemma_len_before(text, separator);
    let n = len_before(text, separator);
    let parts = split(text, separator);
    if n >= text.len() {
        assert(parts[0][i] == text[i]);
    } else if i < n {
        assert(parts[0][i] == text[i]);
    } else {
        let rest = text.skip(n + 1);
        assert(i > n);
        assert(rest[i - n - 1] == text[i]);
        lemma_split_covers(rest, separator, i - n - 1);
        let (part, at) = choose|part: int, at: int|
            0 <= part < split(rest, separator).len() && 0 <= at < split(rest, separator)[part].len()
                && #[trigger] split(rest, separator)[part][at] == rest[i - n - 1];
        assert(parts[part + 1] == split(rest, separator)[part]);
        assert(parts[part + 1][at] == text[i]);
    }
}

/// A text without separators is its own only part.
pub proof fn lemma_split_whole(text: Seq<char>, separator: char)
    requires
        !text.contains(separator),
    ensures
        split(text, separator) == seq![text],
{
    lemma_len_before(text, separator);
    let n = len_before(text, separator);
    if n < text.len() {
        assert(text[n] == separator);
    }
}

/// The last part stands at the end.
pub proof fn lemma_concatenation_grows(parts: Seq<Seq<char>>)
    requires
        parts.len() > 0,
    ensures
        concatenation(parts) == concatenation(parts.drop_last()) + parts.last(),
    decreases parts.len(),
{
    reveal_with_fuel(concatenation, 2);
    if parts.len() == 1 {
        assert(parts.skip(1) =~= Seq::<Seq<char>>::empty());
        assert(parts.drop_last() =~= Seq::<Seq<char>>::empty());
        assert(concatenation(parts) =~= parts.last());
        assert(concatenation(parts.drop_last()) + parts.last() =~= parts.last());
    } else {
        lemma_concatenation_grows(parts.skip(1));
        assert(parts.skip(1).drop_last() =~= parts.drop_last().skip(1));
        assert(concatenation(parts) =~= concatenation(parts.drop_last()) + parts.last());
    }
}

/// The parts that `split_after_whitespace` gives are the whole text.
pub proof fn lemma_split_after_whitespace_is_lossless(text: Seq<char>)
    ensures
        concatenation(split_after_whitespace(text)) == text,
    decreases text.len(),
{
    reveal_with_fuel(concatenation, 2);
    lemma_word_len(text);
    let n = word_len(text);
    if text.len() == 0 {
    } else if n >= text.len() {
        assert(seq![text].skip(1) =~= Seq::<Seq<char>>::empty());
        assert(concatenation(seq![text]) =~= text);
    } else {
        let rest = split_after_whitespace(text.skip(n + 1));
        lemma_split_after_whitespace_is_lossless(text.skip(n + 1));
        assert((seq![text.take(n + 1)] + rest).skip(1) =~= rest);
        assert(text.take(n + 1) + text.skip(n + 1) =~= text);
    }
}

/// The characters of `text`, in order.
pub fn chars_of(text: &str) -> (chars: Vec<char>)
    ensures
        chars@ == text@,
{
    let mut chars: Vec<char> = Vec::new();
    for character in it: text.chars()
        invariant
            chars@ == text@.take(it.index()),
            it.seq() == text@,
    {
        chars.push(character);
    }
    chars
}

/// The text made of the given characters, in order.
pub fn text_of(chars: &[char]) -> (text: String)
    ensures
        text@ == chars@,
{
    let mut text = String::new();
    let mut i: usize = 0;
    while i < chars.len()
        invariant
            i <= chars@.len(),
            text@ == chars@.take(i as int),
        decreases chars@.len() - i,
    {
        text.push(chars[i]);
        i += 1;
    }
    text
}

/// Whether `character` is whitespace in the sense of Unicode.
pub fn whitespace(character: char) -> (result: bool)
    ensures
        result == is_whitespace(character),
{
    let code: u32 = character as u32;
    (0x09 <= code && code <= 0x0d) || code == 0x20 || code == 0x85 || code == 0xa0 || code
        == 0x1680 || (0x2000 <= code && code <= 0x200a) || code == 0x2028 || code == 0x2029
        || code == 0x202f || code == 0x205f || code == 0x3000
}

/// The lower-case form of an ASCII letter, any other character unchanged.
pub fn to_ascii_lower(character: char) -> (lower: char)
    ensures
        lower == ascii_lower(character),
{
    if 'A' <= character && character <= 'Z' {
        (character as u8 + 32) as char
    } else {
        character
    }
}

/// The text with its ASCII letters in lower case.
pub fn to_ascii_lowercase(text: &str) -> (lower: String)
    ensures
        lower@ == ascii_lowercase(text@),
{
    let mut lower = String::new();
    for character in it: text.chars()
        invariant
            lower@ == ascii_lowercase(text@.take(it.index())),
            it.seq() == text@,
    {
        lower.push(to_ascii_lower(character));
        assert(lower@ =~= ascii_lowercase(text@.take(it.index() + 1)));
    }
    assert(text@.take(text@.len() as int) =~= text@);
    lower
}

/// Whether two texts have the same characters.
pub fn same_text(left: &str, right: &str) -> (same: bool)
    ensures
        same == (left@ == right@),
{
    left.to_owned() == right.to_owned()
}

/// Whether `needle` stands in `text` at position `at`.
pub fn matches_at(text: &[char], needle: &[char], at: usize) -> (found: bool)
    ensures
        found == occurs_at(text@, needle@, at as int),
{
    if at > text.len() || needle.len() > text.len() - at {
        return false;
    }
    let len: usize = text.len();
    let mut i: usize = 0;
    while i < needle.len()
        invariant
            len == text@.len(),
            at <= text@.len(),
            needle@.len() <= text@.len() - at,
            i <= needle@.len(),
            forall|j: int| 0 <= j < i ==> text@[at + j] == #[trigger] needle@[j],
        decreases needle@.len() - i,
    {
        if text[at + i] != needle[i] {
            assert(text@.subrange(at as int, at + needle@.len())[i as int] != needle@[i as int]);
            return false;
        }
        i += 1;
    }
    assert(text@.subrange(at as int, at + needle@.len()) =~= needle@);
    true
}

/// Whether `needle` stands somewhere in `text`.
pub fn has_text(text: &str, needle: &str) -> (found: bool)
    ensures
        found == contains(text@, needle@),
{
    let chars = chars_of(text);
    let pattern = chars_of(needle);
    let mut at: usize = 0;
    while at < chars.len()
        invariant
            at <= chars@.len(),
            chars@ == text@,
            pattern@ == needle@,
            forall|i: int| 0 <= i < at ==> !#[trigger] occurs_at(text@, needle@, i),
        decreases chars@.len() - at,
    {
        if matches_at(&chars, &pattern, at) {
            return true;
        }
        at += 1;
    }
    matches_at(&chars, &pattern, at)
}

/// Whether `text` begins with `prefix`.
pub fn has_prefix(text: &str, prefix: &str) -> (found: bool)
    ensures
        found == starts_with(text@, prefix@),
{
    let text = chars_of(text);
    let prefix = chars_of(prefix);
    assert(prefix@.len() <= text@.len() ==> text@.take(prefix@.len() as int) =~= text@.subrange(
        0,
        prefix@.len() as int,
    ));
    matches_at(&text, &prefix, 0)
}

/// Whether `text` ends with `suffix`.
pub fn has_suffix(text: &str, suffix: &str) -> (found: bool)
    ensures
        found == ends_with(text@, suffix@),
{
    let text = chars_of(text);
    let suffix = chars_of(suffix);
    if suffix.len() > text.len() {
        return false;
    }
    let at: usize = text.len() - suffix.len();
    assert(text@.skip(at as int) =~= text@.subrange(at as int, at + suffix@.len()));
    matches_at(&text, &suffix, at)
}

/// The text with every occurrence of `from` replaced by `to`.
pub fn replace_all(text: &str, from: &str, to: &str) -> (out: String)
    requires
        from@.len() > 0,
    ensures
        out@ == replaced(text@, from@, to@),
{
    let chars = chars_of(text);
    let pattern = chars_of(from);
    let mut out = String::new();
    let mut i: usize = 0;
    assert(chars@.skip(0) =~= chars@);
    while i < chars.len()
        invariant
            i <= chars@.len(),
            pattern@ == from@,
            pattern@.len() > 0,
            out@ + replaced(chars@.skip(i as int), from@, to@) == replaced(chars@, from@, to@),
        decreases chars@.len() - i,
    {
        let ghost rest = chars@.skip(i as int);
        if matches_at(&chars, &pattern, i) {
            assert(rest.take(pattern@.len() as int) =~= chars@.subrange(
                i as int,
                i + pattern@.len(),
            ));
            assert(rest.skip(pattern@.len() as int) =~= chars@.skip(i + pattern@.len()));
            let ghost before = out@;
            out.append(to);
            assert(before + (to@ + replaced(chars@.skip(i + pattern@.len()), from@, to@)) =~= out@
                + replaced(chars@.skip(i + pattern@.len()), from@, to@));
            i += pattern.len();
        } else {
            assert(!starts_with(rest, from@)) by {
                if starts_with(rest, from@) {
                    assert(chars@.subrange(i as int, i + pattern@.len()) =~= rest.take(
                        pattern@.len() as int,
                    ));
                }
            }
            assert(rest.skip(1) =~= chars@.skip(i + 1));
            let ghost before = out@;
            out.push(chars[i]);
            assert(before + (seq![rest[0]] + replaced(rest.skip(1), from@, to@)) =~= out@
                + replaced(chars@.skip(i + 1), from@, to@));
            i += 1;
        }
    }
    assert(chars@.skip(i as int) =~= Seq::<char>::empty());
    assert(out@ =~= out@ + Seq::<char>::empty());
    out
}

/// The position of the first whitespace character at or after `from`, or the length.
pub fn next_whitespace(chars: &[char], from: usize) -> (at: usize)
    requires
        from <= chars@.len(),
    ensures
        from <= at <= chars@.len(),
        at == from + word_len(chars@.skip(from as int)),
{
    let mut at: usize = from;
    while at < chars.len() && !whitespace(chars[at])
        invariant
            from <= at <= chars@.len(),
            forall|i: int| from <= i < at ==> !is_whitespace(#[trigger] chars@[i]),
        decreases chars@.len() - at,
    {
        at += 1;
    }
    proof {
        lemma_word_len_is(chars@.skip(from as int), at - from);
    }
    at
}

/// The text without its leading and trailing whitespace.
pub fn trimmed(text: &str) -> (out: String)
    ensures
        out@ == trim(text@),
{
    let chars = chars_of(text);
    let mut start: usize = 0;
    assert(chars@.skip(0) =~= chars@);
    while start < chars.len() && whitespace(chars[start])
        invariant
            start <= chars@.len(),
            trim_start(chars@.skip(start as int)) == trim_start(chars@),
        decreases chars@.len() - start,
    {
        assert(chars@.skip(start as int).skip(1) =~= chars@.skip(start + 1));
        start += 1;
    }
    let ghost rest = chars@.skip(start as int);
    let mut end: usize = chars.len();
    assert(chars@.subrange(start as int, end as int) =~= rest);
    while start < end && whitespace(chars[end - 1])
        invariant
            start <= end <= chars@.len(),
            trim_end(chars@.subrange(start as int, end as int)) == trim_end(rest),
        decreases end,
    {
        assert(chars@.subrange(start as int, end as int).drop_last() =~= chars@.subrange(
            start as int,
            end - 1,
        ));
        end -= 1;
    }
    text_of(slice_subrange(chars.as_slice(), start, end))
}

/// The parts of `text` between the separators.
pub fn split_text(text: &str, separator: char) -> (parts: Vec<String>)
    ensures
        views(parts@) == split(text@, separator),
{
    let chars = chars_of(text);
    let mut parts: Vec<String> = Vec::new();
    let mut start: usize = 0;
    let mut at: usize = 0;
    assert(chars@.skip(0) =~= chars@);
    assert(views(parts@) + split(chars@, separator) =~= split(chars@, separator));
    while at < chars.len()
        invariant
            start <= at <= chars@.len(),
            forall|i: int| start <= i < at ==> #[trigger] chars@[i] != separator,
            views(parts@) + split(chars@.skip(start as int), separator) == split(chars@, separator),
        decreases chars@.len() - at,
    {
        if chars[at] == separator {
            let ghost rest = chars@.skip(start as int);
            let ghost before = views(parts@);
            proof {
                lemma_len_before(rest, separator);
                let n = len_before(rest, separator);
                if n < at - start {
                    assert(chars@[start + n] == rest[n]);
                } else if n > at - start {
                    assert(rest[at - start] == chars@[at as int]);
                }
                assert(rest.take(n) =~= chars@.subrange(start as int, at as int));
                assert(rest.skip(n + 1) =~= chars@.skip(at + 1));
            }
            parts.push(text_of(slice_subrange(chars.as_slice(), start, at)));
            assert(views(parts@) =~= before.push(chars@.subrange(start as int, at as int)));
            assert(before + (seq![chars@.subrange(start as int, at as int)] + split(
                chars@.skip(at + 1),
                separator,
            )) =~= views(parts@) + split(chars@.skip(at + 1), separator));
            start = at + 1;
        }
        at += 1;
    }
    let ghost rest = chars@.skip(start as int);
    let ghost before = views(parts@);
    proof {
        lemma_len_before(rest, separator);
        let n = len_before(rest, separator);
        if n < rest.len() {
            assert(chars@[start + n] == rest[n]);
        }
    }
    parts.push(text_of(slice_subrange(chars.as_slice(), start, chars.len())));
    assert(chars@.subrange(start as int, chars@.len() as int) =~= rest);
    assert(views(parts@) =~= before + seq![rest]);
    parts
}

/// The parts of `text`, each reaching up to and including the next whitespace character.
pub fn split_keeping_whitespace(text: &str) -> (parts: Vec<String>)
    ensures
        views(parts@) == split_after_whitespace(text@),
{
    let chars = chars_of(text);
    let mut parts: Vec<String> = Vec::new();
    let mut start: usize = 0;
    assert(chars@.skip(0) =~= chars@);
    assert(views(parts@) + split_after_whitespace(chars@) =~= split_after_whitespace(chars@));
    while start < chars.len()
        invariant
            start <= chars@.len(),
            views(parts@) + split_after_whitespace(chars@.skip(start as int))
                == split_after_whitespace(chars@),
        decreases chars@.len() - start,
    {
        let at: usize = next_whitespace(&chars, start);
        let end: usize = if at < chars.len() {
            at + 1
        } else {
            at
        };
        let ghost rest = chars@.skip(start as int);
        let ghost before = views(parts@);
        let ghost part = chars@.subrange(start as int, end as int);
        parts.push(text_of(slice_subrange(chars.as_slice(), start, end)));
        assert(views(parts@) =~= before.push(part));
        proof {
            assert(rest.skip(end - start) =~= chars@.skip(end as int));
            assert(part =~= rest.take(end - start));
            if at >= chars.len() {
                assert(part =~= rest);
                assert(chars@.skip(end as int) =~= Seq::<char>::empty());
            }
            assert(before + (seq![part] + split_after_whitespace(chars@.skip(end as int)))
                =~= views(parts@) + split_after_whitespace(chars@.skip(end as int)));
            assert(seq![rest] + Seq::<Seq<char>>::empty() =~= seq![rest]);
        }
        start = end;
    }
    assert(chars@.skip(start as int) =~= Seq::<char>::empty());
    assert(views(parts@) + Seq::<Seq<char>>::empty() =~= views(parts@));
    parts
}

/// The character of a decimal digit.
pub open spec fn digit(value: nat) -> char {
    (48 + value) as u8 as char
}

/// The character is an ASCII digit.
pub open spec fn is_digit(character: char) -> bool {
    '0' <= character && character <= '9'
}

/// The text is not empty and holds nothing but ASCII digits.
pub open spec fn is_number(text: Seq<char>) -> bool {
    text.len() > 0 && forall|i: int| 0 <= i < text.len() ==> is_digit(#[trigger] text[i])
}

/// The decimal digits of a number.
pub open spec fn decimal(value: nat) -> Seq<char>
    decreases value,
{
    if value < 10 {
        seq![digit(value)]
    } else {
        decimal(value / 10).push(digit(value % 10))
    }
}

pub proof fn lemma_decimal_is_number(value: nat)
    ensures
        is_number(decimal(value)),
    decreases value,
{
    if value >= 10 {
        lemma_decimal_is_number(value / 10);
    }
}

/// The decimal digits of a number.
pub fn decimal_text(value: u128) -> (text: String)
    ensures
        text@ == decimal(value as nat),
    decreases value,
{
    let last: u8 = (value % 10) as u8;
    if value < 10 {
        let mut text = String::new();
        text.push((48 + last) as char);
        assert(text@ =~= seq![digit(value as nat)]);
        text
    } else {
        let mut text = decimal_text(value / 10);
        text.push((48 + last) as char);
        text
    }
}

/// Whether the text is not empty and holds nothing but ASCII digits.
pub fn all_digits(text: &str) -> (result: bool)
    ensures
        result == is_number(text@),
{
    let chars = chars_of(text);
    let mut i: usize = 0;
    while i < chars.len()
        invariant
            i <= chars@.len(),
            chars@ == text@,
            forall|j: int| 0 <= j < i ==> is_digit(#[trigger] chars@[j]),
        decreases chars@.len() - i,
    {
        if !('0' <= chars[i] && chars[i] <= '9') {
            assert(!is_digit(text@[i as int]));
            return false;
        }
        i += 1;
    }
    chars.len() > 0
}

/// How std's `Debug` shows a text: in double quotes, with escapes.
pub uninterp spec fn debug_quoted(text: Seq<char>) -> Seq<char>;

/// `format!` with `{:?}` writes the text as std's `Debug` for `str` shows it, which depends on the
/// text alone.
#[verifier::external_body]
pub(crate) fn quoted(text: &str) -> (out: String)
    ensures
        out@ == debug_quoted(text@),
{
    format!("{:?}", text)
}

/// A text stands wherever it was put: in front, inside and at the end. And where it stands, the
/// rest of the text stands around it.
pub proof fn texts_are_found_where_they_stand(
    before: Seq<char>,
    needle: Seq<char>,
    after: Seq<char>,
)
    ensures
        contains(before + needle + after, needle),
        starts_with(needle + after, needle),
        ends_with(before + needle, needle),
{
    let text = before + needle + after;
    let at = before.len() as int;
    assert(text.subrange(at, at + needle.len()) =~= needle);
    assert(occurs_at(text, needle, at));
    assert((needle + after).take(needle.len() as int) =~= needle);
    assert((before + needle).skip((before + needle).len() - needle.len()) =~= needle);
}

/// A text that is found stands there with the rest of the text around it.
pub proof fn found_texts_stand_there(text: Seq<char>, needle: Seq<char>)
    ensures
        contains(text, needle) ==> exists|before: Seq<char>, after: Seq<char>|
            text == #[trigger] (before + needle + after),
        starts_with(text, needle) ==> exists|after: Seq<char>| text == #[trigger] (needle + after),
        ends_with(text, needle) ==> exists|before: Seq<char>| text == #[trigger] (before + needle),
{
    if contains(text, needle) {
        let at = choose|at: int| occurs_at(text, needle, at);
        let before = text.take(at);
        let after = text.skip(at + needle.len());
        assert(text.subrange(at, at + needle.len()) == needle);
        assert(text =~= before + needle + after);
    }
    if starts_with(text, needle) {
        assert(text =~= needle + text.skip(needle.len() as int));
    }
    if ends_with(text, needle) {
        assert(text =~= text.take(text.len() - needle.len()) + needle);
    }
}

/// Lower case changes the ASCII capitals, each into the letter that is 32 places further, and
/// nothing else; the text keeps its length.
pub proof fn lower_case_changes_capitals_alone(text: Seq<char>, i: int)
    requires
        0 <= i < text.len(),
    ensures
        ascii_lowercase(text).len() == text.len(),
        65 <= text[i] as u32 <= 90 ==> ascii_lowercase(text)[i] as u32 == text[i] as u32 + 32,
        !(65 <= text[i] as u32 <= 90) ==> ascii_lowercase(text)[i] == text[i],
{
}

/// Without an occurrence there is nothing to replace.
pub proof fn nothing_is_replaced_without_an_occurrence(
    text: Seq<char>,
    from: Seq<char>,
    to: Seq<char>,
)
    requires
        !contains(text, from),
    ensures
        replaced(text, from, to) == text,
    decreases text.len(),
{
    if text.len() > 0 && from.len() > 0 {
        if starts_with(text, from) {
            assert(text.subrange(0, from.len() as int) =~= text.take(from.len() as int));
            assert(occurs_at(text, from, 0));
        }
        assert forall|at: int| !occurs_at(text.skip(1), from, at) by {
            if occurs_at(text.skip(1), from, at) {
                assert(text.subrange(at + 1, at + 1 + from.len()) =~= text.skip(1).subrange(
                    at,
                    at + from.len(),
                ));
                assert(occurs_at(text, from, at + 1));
            }
        }
        nothing_is_replaced_without_an_occurrence(text.skip(1), from, to);
        assert(seq![text[0]] + text.skip(1) =~= text);
    }
}

/// Replacing keeps what stands before the first occurrence, puts the other text in place of the
/// occurrence, and goes on behind it.
pub proof fn the_first_occurrence_is_replaced(
    text: Seq<char>,
    from: Seq<char>,
    to: Seq<char>,
    at: int,
)
    requires
        from.len() > 0,
        occurs_at(text, from, at),
        forall|i: int| 0 <= i < at ==> !#[trigger] occurs_at(text, from, i),
    ensures
        replaced(text, from, to) == text.take(at) + to + replaced(
            text.skip(at + from.len()),
            from,
            to,
        ),
    decreases at,
{
    let n = from.len() as int;
    if at == 0 {
        assert(text.take(n) =~= text.subrange(0, n));
        assert(text.take(0) + to =~= to);
    } else {
        if starts_with(text, from) {
            assert(text.subrange(0, n) =~= text.take(n));
            assert(occurs_at(text, from, 0));
        }
        let rest = text.skip(1);
        assert(rest.subrange(at - 1, at - 1 + n) =~= text.subrange(at, at + n));
        assert forall|i: int| 0 <= i < at - 1 implies !#[trigger] occurs_at(rest, from, i) by {
            assert(!occurs_at(text, from, i + 1));
            if occurs_at(rest, from, i) {
                assert(text.subrange(i + 1, i + 1 + n) =~= rest.subrange(i, i + n));
            }
        }
        the_first_occurrence_is_replaced(rest, from, to, at - 1);
        assert(rest.skip(at - 1 + n) =~= text.skip(at + n));
        assert(seq![text[0]] + rest.take(at - 1) =~= text.take(at));
        assert(replaced(text, from, to) =~= text.take(at) + to + replaced(
            text.skip(at + n),
            from,
            to,
        ));
    }
}

proof fn lemma_trim_start(before: Seq<char>, rest: Seq<char>)
    requires
        forall|i: int| 0 <= i < before.len() ==> is_whitespace(#[trigger] before[i]),
        rest.len() == 0 || !is_whitespace(rest[0]),
    ensures
        trim_start(before + rest) == rest,
    decreases before.len(),
{
    if before.len() == 0 {
        assert(before + rest =~= rest);
    } else {
        assert((before + rest)[0] == before[0]);
        assert((before + rest).skip(1) =~= before.skip(1) + rest);
        lemma_trim_start(before.skip(1), rest);
    }
}

proof fn lemma_trim_end(rest: Seq<char>, after: Seq<char>)
    requires
        forall|i: int| 0 <= i < after.len() ==> is_whitespace(#[trigger] after[i]),
        rest.len() == 0 || !is_whitespace(rest.last()),
    ensures
        trim_end(rest + after) == rest,
    decreases after.len(),
{
    if after.len() == 0 {
        assert(rest + after =~= rest);
    } else {
        assert((rest + after).last() == after.last());
        assert((rest + after).drop_last() =~= rest + after.drop_last());
        lemma_trim_end(rest, after.drop_last());
    }
}

/// Trimming takes off the whitespace around a text, all of it, and leaves what is inside alone.
pub proof fn trimming_takes_off_the_whitespace_around(
    before: Seq<char>,
    inside: Seq<char>,
    after: Seq<char>,
)
    requires
        forall|i: int| 0 <= i < before.len() ==> is_whitespace(#[trigger] before[i]),
        forall|i: int| 0 <= i < after.len() ==> is_whitespace(#[trigger] after[i]),
        inside.len() > 0 ==> !is_whitespace(inside[0]) && !is_whitespace(inside.last()),
    ensures
        trim(before + inside + after) == inside,
        trim_end(inside + after) == inside,
{
    lemma_trim_end(inside, after);
    if inside.len() == 0 {
        let text = before + inside + after;
        assert(text =~= text + inside);
        lemma_trim_start(text, inside);
        assert(trim_end(inside) == inside);
    } else {
        assert(before + inside + after =~= before + (inside + after));
        assert((inside + after)[0] == inside[0]);
        lemma_trim_start(before, inside + after);
    }
}

/// The parts, with the separator between each two of them.
pub open spec fn interleaved(parts: Seq<Seq<char>>, separator: char) -> Seq<char>
    decreases parts.len(),
{
    if parts.len() == 0 {
        Seq::empty()
    } else if parts.len() == 1 {
        parts[0]
    } else {
        parts[0].push(separator) + interleaved(parts.skip(1), separator)
    }
}

/// Splitting a text loses nothing and misses no separator: the parts hold none, and with the
/// separators between them they are the text again.
pub proof fn splitting_is_exact(text: Seq<char>, separator: char)
    ensures
        split(text, separator).len() > 0,
        interleaved(split(text, separator), separator) == text,
        forall|i: int|
            0 <= i < split(text, separator).len() ==> !(#[trigger] split(
                text,
                separator,
            )[i]).contains(separator),
    decreases text.len(),
{
    lemma_len_before(text, separator);
    let n = len_before(text, separator);
    let parts = split(text, separator);
    if n >= text.len() {
        assert(!text.contains(separator));
    } else {
        let rest = text.skip(n + 1);
        let others = split(rest, separator);
        splitting_is_exact(rest, separator);
        assert(parts.skip(1) =~= others);
        assert(text =~= text.take(n).push(separator) + rest);
        assert(!text.take(n).contains(separator));
        assert forall|i: int| 0 <= i < parts.len() implies !(#[trigger] parts[i]).contains(
            separator,
        ) by {
            if i > 0 {
                assert(parts[i] == others[i - 1]);
            }
        }
    }
}

/// Parts without separators are what splitting them, joined, gives.
pub proof fn joined_parts_are_split_again(parts: Seq<Seq<char>>, separator: char)
    requires
        parts.len() > 0,
        forall|i: int| 0 <= i < parts.len() ==> !(#[trigger] parts[i]).contains(separator),
    ensures
        split(interleaved(parts, separator), separator) == parts,
    decreases parts.len(),
{
    assert(!parts[0].contains(separator));
    if parts.len() == 1 {
        lemma_split_whole(parts[0], separator);
        assert(parts =~= seq![parts[0]]);
    } else {
        joined_parts_are_split_again(parts.skip(1), separator);
        lemma_split_first(parts[0], interleaved(parts.skip(1), separator), separator);
        assert(parts =~= seq![parts[0]] + parts.skip(1));
    }
}

/// A text is cut behind its whitespace and nowhere else: the parts are the whole text, none is
/// empty, whitespace stands at the end of a part only, and every part but the last ends with it.
pub proof fn texts_are_cut_behind_whitespace(text: Seq<char>, part: int)
    requires
        0 <= part < split_after_whitespace(text).len(),
    ensures
        concatenation(split_after_whitespace(text)) == text,
        split_after_whitespace(text)[part].len() > 0,
        forall|i: int|
            0 <= i < split_after_whitespace(text)[part].len() - 1 ==> !is_whitespace(
                #[trigger] split_after_whitespace(text)[part][i],
            ),
        part < split_after_whitespace(text).len() - 1 ==> is_whitespace(
            split_after_whitespace(text)[part].last(),
        ),
    decreases text.len(),
{
    lemma_split_after_whitespace_is_lossless(text);
    lemma_word_len(text);
    let n = word_len(text);
    if n < text.len() {
        if part > 0 {
            texts_are_cut_behind_whitespace(text.skip(n + 1), part - 1);
            assert(split_after_whitespace(text)[part] == split_after_whitespace(
                text.skip(n + 1),
            )[part - 1]);
        } else {
            assert(split_after_whitespace(text)[0] == text.take(n + 1));
        }
    }
}

/// A single word is its own only word, and the words on both sides of a whitespace character are
/// the words of the text.
pub proof fn words_stand_between_whitespace(before: Seq<char>, space: char, after: Seq<char>)
    requires
        is_whitespace(space),
    ensures
        words(before.push(space) + after) == words(before) + words(after),
        before.len() > 0 && (forall|i: int|
            0 <= i < before.len() ==> !is_whitespace(#[trigger] before[i])) ==> words(before)
            == seq![before],
    decreases before.len(),
{
    let text = before.push(space) + after;
    lemma_word_len(before);
    let n = word_len(before);
    if before.len() == 0 {
        assert(text[0] == space);
        assert(text.skip(1) =~= after);
        assert(words(before) + words(after) =~= words(after));
    } else if n == 0 {
        assert(text[0] == before[0]);
        assert(text.skip(1) =~= before.skip(1).push(space) + after);
        words_stand_between_whitespace(before.skip(1), space, after);
    } else {
        let word = before.take(n);
        let rest = before.skip(n);
        let others = rest.push(space) + after;
        assert forall|i: int| 0 <= i < word.len() implies !is_whitespace(#[trigger] word[i]) by {
            assert(word[i] == before[i]);
        }
        assert(rest.len() > 0 ==> rest[0] == before[n]);
        words_stand_between_whitespace(rest, space, after);
        assert(word + rest =~= before);
        assert(word + others =~= text);
        lemma_words_of_word_and_rest(word, rest);
        lemma_words_of_word_and_rest(word, others);
        assert(words(text) =~= words(before) + words(after));
        if forall|i: int| 0 <= i < before.len() ==> !is_whitespace(#[trigger] before[i]) {
            if n < before.len() {
                assert(is_whitespace(before[n]));
            }
            assert(words(before) =~= seq![before]);
        }
    }
}

/// The number that a row of decimal digits stands for.
pub open spec fn digits_value(text: Seq<char>) -> int
    decreases text.len(),
{
    if text.len() == 0 {
        0
    } else {
        10 * digits_value(text.drop_last()) + (text.last() as u32 - 48)
    }
}

/// The decimal digits of a number stand for that number, and only zero begins with a zero. So
/// different numbers have different digits.
pub proof fn digits_stand_for_their_number(value: nat)
    ensures
        digits_value(decimal(value)) == value,
        decimal(value).len() > 0,
        value > 0 ==> decimal(value)[0] != '0',
        is_number(decimal(value)),
    decreases value,
{
    lemma_decimal_is_number(value);
    if value < 10 {
        assert(decimal(value).drop_last() =~= Seq::<char>::empty());
        assert(digits_value(decimal(value).drop_last()) == 0);
        assert(digit(value) as u32 == 48 + value);
    } else {
        digits_stand_for_their_number(value / 10);
        assert(decimal(value).drop_last() =~= decimal(value / 10));
        assert(digit(value % 10) as u32 == 48 + value % 10);
    }
}

} // verus!

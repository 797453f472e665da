//! Laying out a labelled message over several terminal lines.
//!
//! The first line follows the label and a colon; every further line is indented. A message may
//! arrive in pieces: what is written is the same.

use vstd::prelude::*;
use vstd::string::*;

use crate::text::{
    concatenation, len_before, lemma_len_before, lemma_split_whole,
    nothing_is_replaced_without_an_occurrence, occurs_at, replaced, split, starts_with,
};

verus! {

/// Where the writer stands in a message.
pub struct WriterView {
    pub first_line: bool,
    pub at_line_start: bool,
    pub ended_with_newline: bool,
    pub pending_carriage_return: bool,
    pub saw_input: bool,
}

/// Right behind the label.
pub open spec fn writer_start() -> WriterView {
    WriterView {
        first_line: true,
        at_line_start: true,
        ended_with_newline: false,
        pending_carriage_return: false,
        saw_input: false,
    }
}

/// What comes before the text of a line.
pub open spec fn line_prefix(first_line: bool) -> Seq<char> {
    if first_line {
        ": "@
    } else {
        "  "@
    }
}

/// What is written before a character that stands at the given place.
pub open spec fn prefix_at(writer: WriterView) -> Seq<char> {
    if writer.at_line_start {
        line_prefix(writer.first_line)
    } else {
        Seq::empty()
    }
}

/// The place after a character of a line.
pub open spec fn after_content(writer: WriterView) -> WriterView {
    WriterView {
        at_line_start: false,
        ended_with_newline: false,
        pending_carriage_return: false,
        saw_input: true,
        ..writer
    }
}

/// The place after the end of a line.
pub open spec fn after_newline(writer: WriterView) -> WriterView {
    WriterView {
        first_line: false,
        at_line_start: true,
        ended_with_newline: true,
        pending_carriage_return: false,
        saw_input: true,
    }
}

/// The place after one more character, no carriage return being held back.
pub open spec fn after_plain(writer: WriterView, character: char) -> WriterView {
    if character == '\r' {
        WriterView { pending_carriage_return: true, ..writer }
    } else if character == '\n' {
        after_newline(writer)
    } else {
        after_content(writer)
    }
}

/// What one more character writes, no carriage return being held back.
pub open spec fn plain_output(writer: WriterView, character: char) -> Seq<char> {
    if character == '\r' {
        Seq::empty()
    } else if character == '\n' {
        prefix_at(writer) + "\r\n"@
    } else {
        prefix_at(writer) + seq![character]
    }
}

/// The place after one more character. A carriage return is held back until it is known whether a
/// newline follows.
pub open spec fn after_character(writer: WriterView, character: char) -> WriterView {
    if !writer.pending_carriage_return {
        after_plain(writer, character)
    } else if character == '\n' {
        after_newline(writer)
    } else {
        after_plain(after_content(writer), character)
    }
}

/// What one more character writes.
pub open spec fn character_output(writer: WriterView, character: char) -> Seq<char> {
    if !writer.pending_carriage_return {
        plain_output(writer, character)
    } else if character == '\n' {
        prefix_at(writer) + "\r\n"@
    } else {
        prefix_at(writer) + seq!['\r'] + plain_output(after_content(writer), character)
    }
}

/// The place after a piece of text.
pub open spec fn after_text(writer: WriterView, text: Seq<char>) -> WriterView
    decreases text.len(),
{
    if text.len() == 0 {
        writer
    } else {
        after_character(after_text(writer, text.drop_last()), text.last())
    }
}

/// What a piece of text writes.
pub open spec fn text_output(writer: WriterView, text: Seq<char>) -> Seq<char>
    decreases text.len(),
{
    if text.len() == 0 {
        Seq::empty()
    } else {
        text_output(writer, text.drop_last()) + character_output(
            after_text(writer, text.drop_last()),
            text.last(),
        )
    }
}

/// What the end of the message writes: the end of the last line, unless the message ended it.
pub open spec fn end_output(writer: WriterView) -> Seq<char> {
    if writer.pending_carriage_return {
        prefix_at(writer) + seq!['\r'] + "\r\n"@
    } else if writer.ended_with_newline {
        Seq::empty()
    } else if writer.saw_input {
        "\r\n"@
    } else {
        ":"@ + "\r\n"@
    }
}

/// Writes a message piece by piece.
pub struct LineAwareMessageWriter {
    first_line: bool,
    at_line_start: bool,
    ended_with_newline: bool,
    pending_carriage_return: bool,
    saw_input: bool,
}

impl View for LineAwareMessageWriter {
    type V = WriterView;

    closed spec fn view(&self) -> WriterView {
        WriterView {
            first_line: self.first_line,
            at_line_start: self.at_line_start,
            ended_with_newline: self.ended_with_newline,
            pending_carriage_return: self.pending_carriage_return,
            saw_input: self.saw_input,
        }
    }
}

impl LineAwareMessageWriter {
    /// The writer right behind the label.
    pub fn start() -> (writer: Self)
        ensures
            writer@ == writer_start(),
    {
        LineAwareMessageWriter {
            first_line: true,
            at_line_start: true,
            ended_with_newline: false,
            pending_carriage_return: false,
            saw_input: false,
        }
    }

    fn write_prefix(&self, output: &mut String)
        ensures
            final(output)@ == old(output)@ + prefix_at(self@),
    {
        if self.at_line_start {
            if self.first_line {
                output.append(": ");
            } else {
                output.append("  ");
            }
        } else {
            assert(output@ =~= output@ + Seq::<char>::empty());
        }
    }

    fn write_content(&mut self, character: char, output: &mut String)
        ensures
            final(self)@ == after_content(old(self)@),
            final(output)@ == old(output)@ + (prefix_at(old(self)@) + seq![character]),
    {
        let ghost before = output@;
        self.write_prefix(output);
        output.push(character);
        self.at_line_start = false;
        self.ended_with_newline = false;
        self.pending_carriage_return = false;
        self.saw_input = true;
        assert(output@ =~= before + (prefix_at(old(self)@) + seq![character]));
    }

    fn write_newline(&mut self, output: &mut String)
        ensures
            final(self)@ == after_newline(old(self)@),
            final(output)@ == old(output)@ + (prefix_at(old(self)@) + "\r\n"@),
    {
        let ghost before = output@;
        self.write_prefix(output);
        output.append("\r\n");
        self.first_line = false;
        self.at_line_start = true;
        self.ended_with_newline = true;
        self.pending_carriage_return = false;
        self.saw_input = true;
        assert(output@ =~= before + (prefix_at(old(self)@) + "\r\n"@));
    }

    fn write_plain(&mut self, character: char, output: &mut String)
        requires
            !old(self)@.pending_carriage_return,
        ensures
            final(self)@ == after_plain(old(self)@, character),
            final(output)@ == old(output)@ + plain_output(old(self)@, character),
    {
        if character == '\r' {
            self.pending_carriage_return = true;
            assert(output@ =~= output@ + Seq::<char>::empty());
        } else if character == '\n' {
            self.write_newline(output);
        } else {
            self.write_content(character, output);
        }
    }

    fn write_character(&mut self, character: char, output: &mut String)
        ensures
            final(self)@ == after_character(old(self)@, character),
            final(output)@ == old(output)@ + character_output(old(self)@, character),
    {
        let ghost before = output@;
        if self.pending_carriage_return {
            if character == '\n' {
                self.write_newline(output);
            } else {
                self.write_content('\r', output);
                self.write_plain(character, output);
                assert(output@ =~= before + character_output(old(self)@, character));
            }
        } else {
            self.write_plain(character, output);
        }
    }

    /// Write one more piece of the message.
    pub fn write_text(&mut self, text: &str) -> (output: String)
        ensures
            final(self)@ == after_text(old(self)@, text@),
            output@ == text_output(old(self)@, text@),
    {
        let mut output = String::new();
        assert(output@ =~= Seq::<char>::empty());
        for character in it: text.chars()
            invariant
                it.seq() == text@,
                self@ == after_text(old(self)@, text@.take(it.index())),
                output@ == text_output(old(self)@, text@.take(it.index())),
        {
            assert(text@.take(it.index() + 1).drop_last() =~= text@.take(it.index()));
            self.write_character(character, &mut output);
        }
        assert(text@.take(text@.len() as int) =~= text@);
        output
    }

    /// Write the end of the message.
    pub fn finish(self) -> (output: String)
        ensures
            output@ == end_output(self@),
    {
        let mut writer = self;
        let mut output = String::new();
        assert(output@ =~= Seq::<char>::empty());
        if writer.pending_carriage_return {
            writer.write_content('\r', &mut output);
            output.append("\r\n");
            assert(output@ =~= end_output(self@));
        } else if !writer.ended_with_newline {
            if !writer.saw_input {
                output.append(":");
            }
            output.append("\r\n");
            assert(output@ =~= end_output(self@));
        }
        output
    }
}

/// Two pieces, one after the other, write what both together write.
pub proof fn pieces_write_the_same(writer: WriterView, first: Seq<char>, second: Seq<char>)
    ensures
        after_text(after_text(writer, first), second) == after_text(writer, first + second),
        text_output(writer, first) + text_output(after_text(writer, first), second) == text_output(
            writer,
            first + second,
        ),
    decreases second.len(),
{
    let whole = first + second;
    if second.len() == 0 {
        assert(whole =~= first);
        assert(text_output(writer, first) + Seq::<char>::empty() =~= text_output(writer, first));
    } else {
        pieces_write_the_same(writer, first, second.drop_last());
        assert(whole.drop_last() =~= first + second.drop_last());
        assert(text_output(writer, first) + (text_output(
            after_text(writer, first),
            second.drop_last(),
        ) + character_output(
            after_text(after_text(writer, first), second.drop_last()),
            second.last(),
        )) =~= (text_output(writer, first) + text_output(
            after_text(writer, first),
            second.drop_last(),
        )) + character_output(
            after_text(after_text(writer, first), second.drop_last()),
            second.last(),
        ));
    }
}

/// What the pieces of a message write, one after the other.
pub open spec fn pieces_output(writer: WriterView, pieces: Seq<Seq<char>>) -> Seq<char>
    decreases pieces.len(),
{
    if pieces.len() == 0 {
        end_output(writer)
    } else {
        text_output(writer, pieces[0]) + pieces_output(
            after_text(writer, pieces[0]),
            pieces.skip(1),
        )
    }
}

/// What a whole message writes behind its label.
pub open spec fn message_output(message: Seq<char>) -> Seq<char> {
    text_output(writer_start(), message) + end_output(after_text(writer_start(), message))
}

proof fn lemma_pieces(writer: WriterView, pieces: Seq<Seq<char>>)
    ensures
        pieces_output(writer, pieces) == text_output(writer, concatenation(pieces)) + end_output(
            after_text(writer, concatenation(pieces)),
        ),
    decreases pieces.len(),
{
    if pieces.len() == 0 {
        assert(Seq::<char>::empty() + end_output(writer) =~= end_output(writer));
    } else {
        let rest = concatenation(pieces.skip(1));
        lemma_pieces(after_text(writer, pieces[0]), pieces.skip(1));
        pieces_write_the_same(writer, pieces[0], rest);
        assert(text_output(writer, pieces[0]) + (text_output(
            after_text(writer, pieces[0]),
            rest,
        ) + end_output(after_text(writer, concatenation(pieces)))) =~= (text_output(
            writer,
            pieces[0],
        ) + text_output(after_text(writer, pieces[0]), rest)) + end_output(
            after_text(writer, concatenation(pieces)),
        ));
    }
}

/// A message that is revealed in pieces is laid out as the whole message is.
pub proof fn pieces_are_laid_out_as_the_message(pieces: Seq<Seq<char>>)
    ensures
        pieces_output(writer_start(), pieces) == message_output(concatenation(pieces)),
{
    lemma_pieces(writer_start(), pieces);
}

/// The lines, each with its prefix and its end; a last line that is empty is left out.
pub open spec fn laid_out(lines: Seq<Seq<char>>, first_line: bool) -> Seq<char>
    decreases lines.len(),
{
    if lines.len() == 0 || (lines.len() == 1 && lines[0].len() == 0) {
        Seq::empty()
    } else {
        line_prefix(first_line) + lines[0] + "\r\n"@ + laid_out(lines.skip(1), false)
    }
}

/// The lines of a text; a line ends with a newline, or with a carriage return and a newline.
pub open spec fn lines_of(text: Seq<char>) -> Seq<Seq<char>> {
    split(replaced(text, seq!['\r', '\n'], seq!['\n']), '\n')
}

/// What the text writes from a place where no carriage return is held back, with the end of the
/// message.
spec fn rest_output(writer: WriterView, text: Seq<char>) -> Seq<char> {
    text_output(writer, text) + end_output(after_text(writer, text))
}

/// What the lines write where the first of them has already begun.
spec fn continued(lines: Seq<Seq<char>>) -> Seq<char> {
    lines[0] + "\r\n"@ + laid_out(lines.skip(1), false)
}

/// One character at a time.
proof fn lemma_rest_output_step(writer: WriterView, text: Seq<char>)
    requires
        text.len() > 0,
    ensures
        rest_output(writer, text) == character_output(writer, text[0]) + rest_output(
            after_character(writer, text[0]),
            text.skip(1),
        ),
{
    let head = text.take(1);
    assert(head.drop_last() =~= Seq::<char>::empty());
    assert(head.last() == text[0]);
    assert(after_text(writer, head.drop_last()) == writer);
    assert(after_text(writer, head) == after_character(writer, text[0]));
    assert(text_output(writer, head.drop_last()) =~= Seq::<char>::empty());
    assert(text_output(writer, head) =~= character_output(writer, text[0]));
    pieces_write_the_same(writer, head, text.skip(1));
    assert(head + text.skip(1) =~= text);
    assert(rest_output(writer, text) =~= character_output(writer, text[0]) + rest_output(
        after_character(writer, text[0]),
        text.skip(1),
    ));
}

/// A character in front of a text stands in front of its first part.
proof fn lemma_split_step(character: char, rest: Seq<char>)
    ensures
        split(rest, '\n').len() > 0,
        character == '\n' ==> split(seq![character] + rest, '\n') == seq![Seq::<char>::empty()]
            + split(rest, '\n'),
        character != '\n' ==> split(seq![character] + rest, '\n') == seq![seq![character] + split(
            rest,
            '\n',
        )[0]] + split(rest, '\n').skip(1),
{
    let text = seq![character] + rest;
    let n = len_before(rest, '\n');
    lemma_len_before(rest, '\n');
    assert(text.skip(1) =~= rest);
    if character == '\n' {
        assert(len_before(text, '\n') == 0);
        assert(text.take(0) =~= Seq::<char>::empty());
    } else {
        assert(len_before(text, '\n') == n + 1);
        if n >= rest.len() {
            assert(split(rest, '\n').skip(1) =~= Seq::<Seq<char>>::empty());
            assert(split(text, '\n') =~= seq![seq![character] + rest] + split(rest, '\n').skip(1));
        } else {
            assert(text.take(n + 1) =~= seq![character] + rest.take(n));
            assert(text.skip(n + 2) =~= rest.skip(n + 1));
            assert(split(rest, '\n').skip(1) =~= split(rest.skip(n + 1), '\n'));
        }
    }
}

/// How the lines of a text grow from its first character.
proof fn lemma_lines_step(text: Seq<char>)
    requires
        text.len() > 0,
    ensures
        lines_of(text).len() > 0,
        text[0] == '\r' && text.len() > 1 && text[1] == '\n' ==> lines_of(text) == seq![
            Seq::<char>::empty(),
        ] + lines_of(text.skip(2)),
        text[0] == '\n' ==> lines_of(text) == seq![Seq::<char>::empty()] + lines_of(text.skip(1)),
        text[0] != '\n' && !(text[0] == '\r' && text.len() > 1 && text[1] == '\n') ==> {
            &&& lines_of(text.skip(1)).len() > 0
            &&& lines_of(text) == seq![seq![text[0]] + lines_of(text.skip(1))[0]] + lines_of(
                text.skip(1),
            ).skip(1)
        },
{
    let from = seq!['\r', '\n'];
    let to = seq!['\n'];
    if text[0] == '\r' && text.len() > 1 && text[1] == '\n' {
        assert(text.take(2) =~= from);
        assert(starts_with(text, from));
        lemma_split_step('\n', replaced(text.skip(2), from, to));
    } else {
        assert(!starts_with(text, from)) by {
            if starts_with(text, from) {
                assert(text.take(2)[0] == '\r');
                assert(text.take(2)[1] == '\n');
            }
        }
        lemma_split_step(text[0], replaced(text.skip(1), from, to));
    }
}

/// What lines write from the given place on.
spec fn lines_output(writer: WriterView, lines: Seq<Seq<char>>) -> Seq<char> {
    if writer.at_line_start {
        laid_out(lines, writer.first_line)
    } else {
        continued(lines)
    }
}

/// The end of a line, with the lines that follow.
proof fn lemma_line_ends(writer: WriterView, rest: Seq<Seq<char>>)
    requires
        rest.len() > 0,
    ensures
        prefix_at(writer) + "\r\n"@ + laid_out(rest, false) == lines_output(
            writer,
            seq![Seq::<char>::empty()] + rest,
        ),
{
    let lines = seq![Seq::<char>::empty()] + rest;
    assert(lines.skip(1) =~= rest);
    assert(prefix_at(writer) + "\r\n"@ + laid_out(rest, false) =~= prefix_at(writer) + lines[0]
        + "\r\n"@ + laid_out(rest, false));
    assert(continued(lines) =~= Seq::<char>::empty() + "\r\n"@ + laid_out(rest, false));
}

/// One more character of a line, with the lines that follow.
proof fn lemma_line_grows(writer: WriterView, character: char, rest: Seq<Seq<char>>)
    requires
        rest.len() > 0,
    ensures
        prefix_at(writer) + seq![character] + continued(rest) == lines_output(
            writer,
            seq![seq![character] + rest[0]] + rest.skip(1),
        ),
{
    let lines = seq![seq![character] + rest[0]] + rest.skip(1);
    assert(lines.skip(1) =~= rest.skip(1));
    assert(lines[0].len() > 0);
    assert(prefix_at(writer) + seq![character] + continued(rest) =~= prefix_at(writer) + lines[0]
        + "\r\n"@ + laid_out(rest.skip(1), false));
    assert(continued(lines) =~= Seq::<char>::empty() + lines[0] + "\r\n"@ + laid_out(
        rest.skip(1),
        false,
    ));
}

/// What a text writes whose first character ends a line.
proof fn lemma_newline_output(writer: WriterView, text: Seq<char>, n: int)
    requires
        !writer.pending_carriage_return,
        (n == 1 && text.len() >= 1 && text[0] == '\n') || (n == 2 && text.len() >= 2 && text[0]
            == '\r' && text[1] == '\n'),
    ensures
        rest_output(writer, text) == prefix_at(writer) + "\r\n"@ + rest_output(
            after_newline(writer),
            text.skip(n),
        ),
{
    lemma_rest_output_step(writer, text);
    if n == 2 {
        let held = after_character(writer, text[0]);
        lemma_rest_output_step(held, text.skip(1));
        assert(text.skip(1)[0] == '\n');
        assert(text.skip(1).skip(1) =~= text.skip(2));
        assert(prefix_at(held) == prefix_at(writer));
        assert(after_newline(held) == after_newline(writer));
        assert(rest_output(writer, text) =~= Seq::<char>::empty() + rest_output(
            held,
            text.skip(1),
        ));
    }
}

/// What a text writes whose first character belongs to a line.
proof fn lemma_content_output(writer: WriterView, text: Seq<char>)
    requires
        !writer.pending_carriage_return,
        text.len() > 0,
        text[0] != '\n',
        !(text[0] == '\r' && text.len() > 1 && text[1] == '\n'),
    ensures
        rest_output(writer, text) == prefix_at(writer) + seq![text[0]] + rest_output(
            after_content(writer),
            text.skip(1),
        ),
{
    lemma_rest_output_step(writer, text);
    if text[0] == '\r' {
        let held = after_character(writer, text[0]);
        lemma_held_back(held, writer, text.skip(1));
        assert(rest_output(writer, text) =~= Seq::<char>::empty() + rest_output(
            held,
            text.skip(1),
        ));
    }
}

/// From a place inside a line, or from the start of a line, a text writes its lines.
proof fn lemma_rest_is_laid_out(writer: WriterView, text: Seq<char>)
    requires
        !writer.pending_carriage_return,
        writer.saw_input || (writer.at_line_start && text.len() > 0),
        writer.saw_input ==> writer.ended_with_newline == writer.at_line_start,
    ensures
        lines_of(text).len() > 0,
        rest_output(writer, text) == lines_output(writer, lines_of(text)),
    decreases text.len(),
{
    let lines = lines_of(text);
    if text.len() == 0 {
        assert(text =~= Seq::<char>::empty());
        assert(lines =~= seq![Seq::<char>::empty()]);
        assert(lines.skip(1) =~= Seq::<Seq<char>>::empty());
        assert(rest_output(writer, text) =~= end_output(writer));
        assert(continued(lines) =~= "\r\n"@);
    } else {
        lemma_lines_step(text);
        if text[0] == '\n' {
            lemma_newline_output(writer, text, 1);
            lemma_rest_is_laid_out(after_newline(writer), text.skip(1));
            lemma_line_ends(writer, lines_of(text.skip(1)));
        } else if text[0] == '\r' && text.len() > 1 && text[1] == '\n' {
            lemma_newline_output(writer, text, 2);
            lemma_rest_is_laid_out(after_newline(writer), text.skip(2));
            lemma_line_ends(writer, lines_of(text.skip(2)));
        } else {
            lemma_content_output(writer, text);
            lemma_rest_is_laid_out(after_content(writer), text.skip(1));
            lemma_line_grows(writer, text[0], lines_of(text.skip(1)));
        }
    }
}

/// A carriage return that is held back is written as soon as something else than a newline follows.
proof fn lemma_held_back(held: WriterView, writer: WriterView, rest: Seq<char>)
    requires
        !writer.pending_carriage_return,
        held == (WriterView { pending_carriage_return: true, ..writer }),
        rest.len() == 0 || rest[0] != '\n',
    ensures
        rest_output(held, rest) == prefix_at(writer) + seq!['\r'] + rest_output(
            after_content(writer),
            rest,
        ),
{
    let content = after_content(writer);
    assert(after_content(held) == content);
    assert(prefix_at(held) == prefix_at(writer));
    if rest.len() == 0 {
        assert(rest_output(held, rest) =~= end_output(held));
        assert(rest_output(content, rest) =~= end_output(content));
        assert(rest_output(held, rest) =~= prefix_at(writer) + seq!['\r'] + rest_output(
            content,
            rest,
        ));
    } else {
        lemma_rest_output_step(held, rest);
        lemma_rest_output_step(content, rest);
        assert(after_character(held, rest[0]) == after_character(content, rest[0]));
        assert(rest_output(held, rest) =~= prefix_at(writer) + seq!['\r'] + rest_output(
            content,
            rest,
        ));
    }
}

/// Behind its label, a message is its lines, each with its prefix and its end; an empty message is
/// a lone colon.
pub proof fn messages_keep_their_lines(message: Seq<char>)
    ensures
        message_output(message) == (if message.len() == 0 {
            ":"@ + "\r\n"@
        } else {
            laid_out(lines_of(message), true)
        }),
{
    if message.len() == 0 {
        assert(message_output(message) =~= ":"@ + "\r\n"@);
    } else {
        lemma_rest_is_laid_out(writer_start(), message);
    }
}

/// The text belongs to one line: it holds neither a newline nor a carriage return.
pub open spec fn is_one_line(text: Seq<char>) -> bool {
    forall|i: int| 0 <= i < text.len() ==> #[trigger] text[i] != '\n' && text[i] != '\r'
}

/// The text of one line is written as it is, behind the prefix of the line.
proof fn lemma_one_line_output(writer: WriterView, line: Seq<char>)
    requires
        !writer.pending_carriage_return,
        line.len() > 0,
        is_one_line(line),
    ensures
        text_output(writer, line) == prefix_at(writer) + line,
        after_text(writer, line) == after_content(writer),
    decreases line.len(),
{
    let start = line.drop_last();
    let last = line.last();
    assert(last == line[line.len() - 1]);
    if start.len() == 0 {
        assert(text_output(writer, start) =~= Seq::<char>::empty());
        assert(after_text(writer, start) == writer);
        assert(line =~= seq![last]);
        assert(text_output(writer, line) =~= prefix_at(writer) + line);
    } else {
        assert forall|i: int| 0 <= i < start.len() implies #[trigger] start[i] != '\n' && start[i]
            != '\r' by {
            assert(start[i] == line[i]);
        }
        lemma_one_line_output(writer, start);
        assert(text_output(writer, line) =~= prefix_at(writer) + line);
    }
}

/// A message of one line stands behind a colon and a space, and its line is ended.
pub proof fn a_line_stands_behind_its_colon(line: Seq<char>)
    requires
        line.len() > 0,
        is_one_line(line),
    ensures
        message_output(line) == ": "@ + line + "\r\n"@,
{
    lemma_one_line_output(writer_start(), line);
}

/// Every further line of a message is written below, behind two spaces, and is ended too.
pub proof fn further_lines_are_indented(message: Seq<char>, line: Seq<char>)
    requires
        line.len() > 0,
        is_one_line(line),
    ensures
        message_output(message.push('\n') + line) == message_output(message.push('\n')) + "  "@ + line
            + "\r\n"@,
{
    let begun = message.push('\n');
    assert(begun.drop_last() =~= message);
    let writer = after_text(writer_start(), begun);
    pieces_write_the_same(writer_start(), begun, line);
    lemma_one_line_output(writer, line);
    assert(message_output(begun) =~= text_output(writer_start(), begun));
    assert(message_output(begun + line) =~= message_output(begun) + "  "@ + line + "\r\n"@);
}

/// A newline at the end of a message ends its last line and adds no other, an empty line is written
/// as its indentation, and a carriage return in front of a newline changes nothing.
pub proof fn newlines_end_lines(message: Seq<char>)
    ensures
        message.len() > 0 && message.last() != '\n' && message.last() != '\r' ==> message_output(
            message.push('\n'),
        ) == message_output(message),
        message_output(message.push('\n').push('\n')) == message_output(message.push('\n')) + "  "@
            + "\r\n"@,
        message.len() == 0 || message.last() != '\r' ==> message_output(
            message.push('\r').push('\n'),
        ) == message_output(message.push('\n')),
        message_output(Seq::empty()) == ":"@ + "\r\n"@,
{
    let writer = after_text(writer_start(), message);
    let ended = message.push('\n');
    assert(ended.drop_last() =~= message);
    assert(ended.push('\n').drop_last() =~= ended);
    assert(message_output(ended) =~= text_output(writer_start(), ended));
    assert(message_output(ended.push('\n')) =~= message_output(ended) + "  "@ + "\r\n"@);
    if message.len() > 0 && message.last() != '\n' && message.last() != '\r' {
        assert(!writer.pending_carriage_return && !writer.at_line_start && writer.saw_input
            && !writer.ended_with_newline);
        assert(message_output(ended) =~= message_output(message));
    }
    if message.len() == 0 || message.last() != '\r' {
        let held = message.push('\r');
        assert(held.drop_last() =~= message);
        assert(held.push('\n').drop_last() =~= held);
        assert(!writer.pending_carriage_return);
        assert(prefix_at(after_text(writer_start(), held)) == prefix_at(writer));
        assert(text_output(writer_start(), held) =~= text_output(writer_start(), message));
        assert(after_text(writer_start(), held.push('\n')) == after_text(writer_start(), ended));
        assert(message_output(held.push('\n')) =~= message_output(ended));
    }
    assert(message_output(Seq::empty()) =~= ":"@ + "\r\n"@);
}

/// A carriage return that no newline follows is part of its line.
pub proof fn lone_carriage_returns_are_kept(line: Seq<char>)
    requires
        line.len() > 0,
        !line.contains('\n'),
    ensures
        message_output(line) == ": "@ + line + "\r\n"@,
{
    let pair = seq!['\r', '\n'];
    assert forall|at: int| !occurs_at(line, pair, at) by {
        if occurs_at(line, pair, at) {
            assert(line.subrange(at, at + 2)[1] == pair[1]);
            assert(line[at + 1] == '\n');
        }
    }
    nothing_is_replaced_without_an_occurrence(line, pair, seq!['\n']);
    lemma_split_whole(line, '\n');
    messages_keep_their_lines(line);
    let lines = seq![line];
    assert(lines.skip(1) =~= Seq::<Seq<char>>::empty());
    assert(laid_out(lines.skip(1), false) =~= Seq::<char>::empty());
    assert(message_output(line) =~= ": "@ + line + "\r\n"@);
}

} // verus!

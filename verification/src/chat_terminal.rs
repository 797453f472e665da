//! The terminal surface of a conversation.
//!
//! Nothing here touches the terminal. The REPL appends the operations to perform to its output, in
//! order, and reacts to the events that the caller reports.

use std::time::Duration;

use vstd::prelude::*;
use vstd::slice::slice_subrange;
use vstd::string::*;

use crate::commands::{
    completed_command, completion, matching_commands, suggested, suggestion_views,
    suggestions_fit_what_was_typed, the_only_suggestion_completes,
};
use crate::json::{pretty_json, render_json, JsonValue};
use crate::message_writer::{
    after_text, end_output, message_output, pieces_write_the_same, text_output, writer_start,
    LineAwareMessageWriter,
};
use crate::text::{
    chars_of, concatenation, contains, interleaved, is_whitespace, lemma_concatenation_grows,
    lemma_split_after_whitespace_is_lossless, lemma_split_whole, nothing_is_replaced_without_an_occurrence, occurs_at,
    option_view, replaced, split, split_after_whitespace, split_text, splitting_is_exact, text_of,
    trim, trimmed, trimming_takes_off_the_whitespace_around, views,
};
use crate::transcript::streaming_chunks;
use crate::update_checker::{version_text, UpdateNotice, UpdateNoticeView};

pub use crate::commands::{parse_command, ReplCommand};

verus! {

/// The colors that tell the speakers apart.
#[derive(Debug, Clone, Copy, PartialEq, Eq, Structural)]
pub enum TextColor {
    Blue,
    Cyan,
    DarkGrey,
    Green,
    Magenta,
    Red,
    Yellow,
}

/// One operation on the terminal.
#[derive(Debug, PartialEq, Eq)]
pub enum TerminalOp {
    Print(String),
    Foreground(TextColor),
    Bold,
    ResetAttributes,
    ResetColor,
    ClearAll,
    ClearLine,
    ClearFromCursorDown,
    MoveToOrigin,
    MoveUp,
    MoveDown,
    MoveToLineStart,
    SavePosition,
    RestorePosition,
    EnterRawMode,
    LeaveRawMode,
    /// Ask the terminal to tell Shift+Enter from Enter.
    PushKeyboardEnhancement,
    PopKeyboardEnhancement,
    Flush,
    Pause(Duration),
}

/// The mathematical counterpart of `TerminalOp`.
pub enum OpView {
    Print(Seq<char>),
    Foreground(TextColor),
    Bold,
    ResetAttributes,
    ResetColor,
    ClearAll,
    ClearLine,
    ClearFromCursorDown,
    MoveToOrigin,
    MoveUp,
    MoveDown,
    MoveToLineStart,
    SavePosition,
    RestorePosition,
    EnterRawMode,
    LeaveRawMode,
    PushKeyboardEnhancement,
    PopKeyboardEnhancement,
    Flush,
    Pause(Duration),
}

impl View for TerminalOp {
    type V = OpView;

    open spec fn view(&self) -> OpView {
        match self {
            TerminalOp::Print(text) => OpView::Print(text@),
            TerminalOp::Foreground(color) => OpView::Foreground(*color),
            TerminalOp::Bold => OpView::Bold,
            TerminalOp::ResetAttributes => OpView::ResetAttributes,
            TerminalOp::ResetColor => OpView::ResetColor,
            TerminalOp::ClearAll => OpView::ClearAll,
            TerminalOp::ClearLine => OpView::ClearLine,
            TerminalOp::ClearFromCursorDown => OpView::ClearFromCursorDown,
            TerminalOp::MoveToOrigin => OpView::MoveToOrigin,
            TerminalOp::MoveUp => OpView::MoveUp,
            TerminalOp::MoveDown => OpView::MoveDown,
            TerminalOp::MoveToLineStart => OpView::MoveToLineStart,
            TerminalOp::SavePosition => OpView::SavePosition,
            TerminalOp::RestorePosition => OpView::RestorePosition,
            TerminalOp::EnterRawMode => OpView::EnterRawMode,
            TerminalOp::LeaveRawMode => OpView::LeaveRawMode,
            TerminalOp::PushKeyboardEnhancement => OpView::PushKeyboardEnhancement,
            TerminalOp::PopKeyboardEnhancement => OpView::PopKeyboardEnhancement,
            TerminalOp::Flush => OpView::Flush,
            TerminalOp::Pause(delay) => OpView::Pause(*delay),
        }
    }
}

pub open spec fn op_views(ops: Seq<TerminalOp>) -> Seq<OpView> {
    Seq::new(ops.len(), |i: int| ops[i]@)
}

/// The text that the operations print, all of it.
pub open spec fn printed(ops: Seq<OpView>) -> Seq<char>
    decreases ops.len(),
{
    if ops.len() == 0 {
        Seq::empty()
    } else {
        printed(ops.drop_last()) + (match ops.last() {
            OpView::Print(text) => text,
            _ => Seq::empty(),
        })
    }
}

/// A bold label in the speaker's color.
pub open spec fn label_ops(label: Seq<char>, color: TextColor) -> Seq<OpView> {
    seq![
        OpView::Foreground(color),
        OpView::Bold,
        OpView::Flush,
        OpView::Print(label),
        OpView::ResetAttributes,
        OpView::Flush,
    ]
}

/// A text in one color.
pub open spec fn colored_ops(text: Seq<char>, color: TextColor) -> Seq<OpView> {
    seq![
        OpView::Foreground(color),
        OpView::Flush,
        OpView::Print(text),
        OpView::ResetColor,
        OpView::Flush,
        OpView::Flush,
    ]
}

/// A text as it is.
pub open spec fn plain_ops(text: Seq<char>) -> Seq<OpView> {
    seq![OpView::Print(text), OpView::Flush]
}

/// A message behind its label.
pub open spec fn message_ops(label: Seq<char>, color: TextColor, message: Seq<char>) -> Seq<OpView> {
    label_ops(label, color) + seq![
        OpView::Print(text_output(writer_start(), message)),
        OpView::Print(end_output(after_text(writer_start(), message))),
        OpView::Flush,
    ]
}

/// The first `n` chunks of a message, with a pause between each two of them.
pub open spec fn chunk_ops(chunks: Seq<Seq<char>>, delay: Duration, n: int) -> Seq<OpView>
    decreases n,
{
    if n <= 0 {
        Seq::empty()
    } else {
        let writer = after_text(writer_start(), concatenation(chunks.take(n - 1)));
        chunk_ops(chunks, delay, n - 1) + seq![
            OpView::Print(text_output(writer, chunks[n - 1])),
            OpView::Flush,
        ] + (if n < chunks.len() {
            seq![OpView::Pause(delay)]
        } else {
            Seq::empty()
        })
    }
}

/// The REPL after it has shown a structured result, rendered as text if it could be.
pub open spec fn result_shown(repl: ReplView, rendered: Option<Seq<char>>) -> ReplView {
    with_output(
        cleared(repl),
        message_ops(
            "Result"@,
            TextColor::Blue,
            match rendered {
                Some(text) => text,
                None => "[unrenderable structured result]"@,
            },
        ),
    )
}

/// A message that is revealed chunk by chunk behind its label.
pub open spec fn streamed_ops(
    label: Seq<char>,
    color: TextColor,
    message: Seq<char>,
    delay: Duration,
) -> Seq<OpView> {
    let chunks = split_after_whitespace(message);
    label_ops(label, color) + chunk_ops(chunks, delay, chunks.len() as int) + seq![
        OpView::Print(end_output(after_text(writer_start(), message))),
        OpView::Flush,
    ]
}

/// The removal of the typing indicator, if it is shown.
pub open spec fn clear_working_ops(waiting: bool) -> Seq<OpView> {
    if waiting {
        seq![OpView::MoveUp, OpView::MoveToLineStart, OpView::ClearLine, OpView::Flush]
    } else {
        Seq::empty()
    }
}

/// The announcement of a newer release.
pub open spec fn banner_text(notice: UpdateNoticeView) -> Seq<char> {
    "Update available: Adaptalk "@ + version_text(notice.available) + " (installed "@
        + version_text(notice.installed) + "). See: "@ + notice.url
}

/// The text, filled up with spaces to the given width.
pub open spec fn padded(text: Seq<char>, width: nat) -> Seq<char>
    decreases width,
{
    if text.len() >= width {
        text
    } else {
        padded(text, (width - 1) as nat).push(' ')
    }
}

/// A fresh line below the current one.
pub open spec fn next_line_ops() -> Seq<OpView> {
    seq![OpView::MoveDown, OpView::MoveToLineStart, OpView::ClearLine, OpView::Flush]
}

/// The first `n` lines of the input, each on a line of its own.
pub open spec fn input_ops(lines: Seq<Seq<char>>, n: int) -> Seq<OpView>
    decreases n,
{
    if n <= 0 {
        Seq::empty()
    } else {
        input_ops(lines, n - 1) + (if n > 1 {
            plain_ops("\r\n      "@)
        } else {
            Seq::empty()
        }) + plain_ops(lines[n - 1])
    }
}

/// The first `n` suggestions, each on a line of its own.
pub open spec fn suggestion_ops(commands: Seq<(Seq<char>, Seq<char>)>, n: int) -> Seq<OpView>
    decreases n,
{
    if n <= 0 {
        Seq::empty()
    } else {
        suggestion_ops(commands, n - 1) + next_line_ops() + colored_ops(
            "  "@ + padded(commands[n - 1].0, 12),
            TextColor::Cyan,
        ) + colored_ops(commands[n - 1].1, TextColor::DarkGrey)
    }
}

/// The suggestions below the input, if there are any.
pub open spec fn palette_ops(commands: Seq<(Seq<char>, Seq<char>)>) -> Seq<OpView> {
    if commands.len() == 0 {
        Seq::empty()
    } else {
        next_line_ops() + colored_ops("  Commands"@, TextColor::DarkGrey) + suggestion_ops(
            commands,
            commands.len() as int,
        )
    }
}

/// The mathematical counterpart of `Repl`.
#[verifier::ext_equal]
pub struct ReplView {
    pub output: Seq<OpView>,
    /// The typing indicator is shown.
    pub waiting: bool,
    pub unverified_development_mode: bool,
    /// The place of the prompt is saved, so that it can be drawn again.
    pub prompt_anchor_saved: bool,
    pub update_notice: Option<UpdateNoticeView>,
    pub update_dismissed: bool,
}

/// The REPL after it has put out the given operations.
pub open spec fn with_output(repl: ReplView, ops: Seq<OpView>) -> ReplView {
    ReplView { output: repl.output + ops, ..repl }
}

/// The REPL after it has removed the typing indicator.
pub open spec fn cleared(repl: ReplView) -> ReplView {
    ReplView { waiting: false, ..with_output(repl, clear_working_ops(repl.waiting)) }
}

/// The announcement of a newer release is shown.
pub open spec fn announces_update(repl: ReplView) -> bool {
    repl.update_notice is Some && !repl.update_dismissed
}

/// The start of an empty screen.
pub open spec fn header_ops(repl: ReplView) -> Seq<OpView> {
    seq![OpView::ClearAll, OpView::MoveToOrigin, OpView::Flush] + plain_ops(
        "AdaptTUI · Read-only mode · Ctrl-C to exit\n"@,
    ) + (if repl.unverified_development_mode {
        colored_ops(
            "⚠ DEVELOPMENT MODE: ask_adapt is unverified and may perform mutations.\n"@,
            TextColor::Yellow,
        )
    } else {
        Seq::empty()
    }) + (if announces_update(repl) {
        colored_ops(banner_text(repl.update_notice->Some_0) + "\n"@, TextColor::Green)
    } else {
        Seq::empty()
    })
}

/// The prompt with its input and its suggestions, drawn in the saved place or where the cursor is.
pub open spec fn prompt_ops(repl: ReplView, input: Seq<char>) -> Seq<OpView> {
    let lines = split(input, '\n');
    (if repl.prompt_anchor_saved {
        seq![OpView::RestorePosition, OpView::ClearFromCursorDown, OpView::Flush]
    } else {
        seq![OpView::SavePosition, OpView::Flush]
    }) + label_ops("You"@, TextColor::Cyan) + plain_ops(" › "@) + (if announces_update(repl) {
        colored_ops("[update available] "@, TextColor::Green)
    } else {
        Seq::empty()
    }) + input_ops(lines, lines.len() as int) + palette_ops(suggested(input)) + seq![OpView::Flush]
}

/// The REPL after it has drawn the prompt.
pub open spec fn with_prompt(repl: ReplView, input: Seq<char>) -> ReplView {
    ReplView { prompt_anchor_saved: true, ..with_output(repl, prompt_ops(repl, input)) }
}

/// The removal of the prompt, if it is drawn, and the end of its keyboard protocol.
pub open spec fn leave_prompt_ops(repl: ReplView) -> Seq<OpView> {
    (if repl.prompt_anchor_saved {
        seq![OpView::RestorePosition, OpView::ClearFromCursorDown, OpView::Flush]
    } else {
        Seq::empty()
    }) + seq![OpView::PopKeyboardEnhancement, OpView::Flush]
}

/// The REPL after it has left the prompt and put out the given operations.
pub open spec fn without_prompt(repl: ReplView, ops: Seq<OpView>) -> ReplView {
    ReplView {
        prompt_anchor_saved: false,
        ..with_output(repl, leave_prompt_ops(repl) + ops + seq![OpView::LeaveRawMode])
    }
}

/// A key.
#[derive(Debug, Clone, Copy, PartialEq, Eq, Structural)]
pub enum KeyCode {
    Enter,
    Backspace,
    Tab,
    Esc,
    Char(char),
    Other,
}

/// What the terminal reports.
#[derive(Debug, Clone, Copy, PartialEq, Eq, Structural)]
pub enum TerminalEvent {
    Key { code: KeyCode, pressed: bool, shift: bool, control: bool },
    Other,
}

/// What an event does to the prompt.
#[derive(Debug, PartialEq, Eq)]
pub enum PromptAction {
    Ignore,
    /// The input is now this text.
    Edit(String),
    DismissUpdate,
    /// The prompt is this text.
    Submit(String),
    Interrupt,
    EndOfInput,
}

/// The mathematical counterpart of `PromptAction`.
pub enum PromptActionView {
    Ignore,
    Edit(Seq<char>),
    DismissUpdate,
    Submit(Seq<char>),
    Interrupt,
    EndOfInput,
}

impl View for PromptAction {
    type V = PromptActionView;

    open spec fn view(&self) -> PromptActionView {
        match self {
            PromptAction::Ignore => PromptActionView::Ignore,
            PromptAction::Edit(input) => PromptActionView::Edit(input@),
            PromptAction::DismissUpdate => PromptActionView::DismissUpdate,
            PromptAction::Submit(prompt) => PromptActionView::Submit(prompt@),
            PromptAction::Interrupt => PromptActionView::Interrupt,
            PromptAction::EndOfInput => PromptActionView::EndOfInput,
        }
    }
}

/// What an event does to the prompt with the given input.
pub open spec fn prompt_action(input: Seq<char>, event: TerminalEvent) -> PromptActionView {
    match event {
        TerminalEvent::Key { code, pressed: true, shift, control } => match code {
            KeyCode::Enter if shift => PromptActionView::Edit(input.push('\n')),
            KeyCode::Enter => match completion(input) {
                Some(completed) => PromptActionView::Edit(completed),
                None => PromptActionView::Submit(trim(input)),
            },
            KeyCode::Backspace => PromptActionView::Edit(
                if input.len() == 0 {
                    input
                } else {
                    input.drop_last()
                },
            ),
            KeyCode::Tab => PromptActionView::Edit(
                match completion(input) {
                    Some(completed) => completed,
                    None => input,
                },
            ),
            KeyCode::Esc => if input.len() == 0 {
                PromptActionView::DismissUpdate
            } else {
                PromptActionView::Edit(Seq::empty())
            },
            // Some terminals send a newline character for Shift+Enter.
            KeyCode::Char(character) => if character == '\n' {
                PromptActionView::Edit(input.push('\n'))
            } else if !control {
                PromptActionView::Edit(input.push(character))
            } else if character == 'c' {
                PromptActionView::Interrupt
            } else if character == 'd' && input.len() == 0 {
                PromptActionView::EndOfInput
            } else {
                PromptActionView::Ignore
            },
            KeyCode::Other => PromptActionView::Ignore,
        },
        _ => PromptActionView::Ignore,
    }
}

/// Whether the prompt goes on after an event.
#[derive(Debug, PartialEq, Eq)]
pub enum PromptStep {
    Waiting,
    Submitted(String),
    Interrupted,
    EndOfInput,
}

fn with_character(input: &str, character: char) -> (text: String)
    ensures
        text@ == input@.push(character),
{
    let mut text = input.to_owned();
    text.push(character);
    text
}

fn without_last_character(input: &str) -> (text: String)
    ensures
        text@ == (if input@.len() == 0 {
            input@
        } else {
            input@.drop_last()
        }),
{
    let chars = chars_of(input);
    if chars.len() == 0 {
        input.to_owned()
    } else {
        let text = text_of(slice_subrange(chars.as_slice(), 0, chars.len() - 1));
        assert(text@ =~= input@.drop_last());
        text
    }
}

/// What an event does to the prompt with the given input.
pub fn act_on(input: &str, event: TerminalEvent) -> (action: PromptAction)
    ensures
        action@ == prompt_action(input@, event),
{
    match event {
        TerminalEvent::Key { code, pressed, shift, control } => {
            if !pressed {
                return PromptAction::Ignore;
            }
            match code {
                KeyCode::Enter => if shift {
                    PromptAction::Edit(with_character(input, '\n'))
                } else {
                    match completed_command(input) {
                        Some(completed) => PromptAction::Edit(completed),
                        None => PromptAction::Submit(trimmed(input)),
                    }
                },
                KeyCode::Backspace => PromptAction::Edit(without_last_character(input)),
                KeyCode::Tab => match completed_command(input) {
                    Some(completed) => PromptAction::Edit(completed),
                    None => PromptAction::Edit(input.to_owned()),
                },
                KeyCode::Esc => if input.is_empty() {
                    PromptAction::DismissUpdate
                } else {
                    let cleared = String::new();
                    assert(cleared@ =~= Seq::<char>::empty());
                    PromptAction::Edit(cleared)
                },
                KeyCode::Char(character) => if character == '\n' || !control {
                    PromptAction::Edit(with_character(input, character))
                } else if character == 'c' {
                    PromptAction::Interrupt
                } else if character == 'd' && input.is_empty() {
                    PromptAction::EndOfInput
                } else {
                    PromptAction::Ignore
                },
                KeyCode::Other => PromptAction::Ignore,
            }
        },
        TerminalEvent::Other => PromptAction::Ignore,
    }
}

/// The terminal surface of one conversation.
pub struct Repl {
    output: Vec<TerminalOp>,
    waiting: bool,
    unverified_development_mode: bool,
    prompt_anchor_saved: bool,
    update_notice: Option<UpdateNotice>,
    update_dismissed: bool,
}

spec fn notice_view(notice: Option<UpdateNotice>) -> Option<UpdateNoticeView> {
    match notice {
        Some(notice) => Some(notice@),
        None => None,
    }
}

impl View for Repl {
    type V = ReplView;

    closed spec fn view(&self) -> ReplView {
        ReplView {
            output: op_views(self.output@),
            waiting: self.waiting,
            unverified_development_mode: self.unverified_development_mode,
            prompt_anchor_saved: self.prompt_anchor_saved,
            update_notice: notice_view(self.update_notice),
            update_dismissed: self.update_dismissed,
        }
    }
}

/// A REPL that has shown nothing.
pub open spec fn blank(output: Seq<OpView>, unverified_development_mode: bool) -> ReplView {
    ReplView {
        output,
        waiting: false,
        unverified_development_mode,
        prompt_anchor_saved: false,
        update_notice: None,
        update_dismissed: false,
    }
}

fn banner(notice: &UpdateNotice) -> (text: String)
    ensures
        text@ == banner_text(notice@),
{
    let mut text = "Update available: Adaptalk ".to_owned();
    text.append(notice.available.text().as_str());
    text.append(" (installed ");
    text.append(notice.installed.text().as_str());
    text.append("). See: ");
    text.append(notice.url.as_str());
    text
}

fn pad(text: &str, width: usize) -> (out: String)
    ensures
        out@ == padded(text@, width as nat),
{
    let len: usize = chars_of(text).len();
    let mut out = text.to_owned();
    let mut at: usize = len;
    while at < width
        invariant
            len == text@.len(),
            len <= at,
            at <= width || at == len,
            out@ == padded(text@, at as nat),
        decreases width - at,
    {
        out.push(' ');
        at += 1;
    }
    out
}

impl Repl {
    /// A REPL on an empty screen.
    pub fn start(unverified_development_mode: bool) -> (repl: Self)
        ensures
            ({
                let empty = blank(Seq::empty(), unverified_development_mode);
                repl@ == with_output(empty, header_ops(empty))
            }),
    {
        let output: Vec<TerminalOp> = Vec::new();
        assert(op_views(output@) =~= Seq::<OpView>::empty());
        Repl::with_output(output, unverified_development_mode)
    }

    /// A REPL on an empty screen that appends to the given operations.
    pub fn with_output(output: Vec<TerminalOp>, unverified_development_mode: bool) -> (repl: Self)
        ensures
            ({
                let empty = blank(op_views(output@), unverified_development_mode);
                repl@ == with_output(empty, header_ops(empty))
            }),
    {
        let mut repl = Repl {
            output,
            waiting: false,
            unverified_development_mode,
            prompt_anchor_saved: false,
            update_notice: None,
            update_dismissed: false,
        };
        repl.clear_transcript();
        repl
    }

    /// All operations so far.
    pub fn into_output(self) -> (output: Vec<TerminalOp>)
        ensures
            op_views(output@) == self@.output,
    {
        self.output
    }

    /// The operations to perform next; they are then no longer part of the output.
    pub fn take_output(&mut self) -> (output: Vec<TerminalOp>)
        ensures
            op_views(output@) == old(self)@.output,
            final(self)@ == (ReplView { output: Seq::empty(), ..old(self)@ }),
    {
        let mut output: Vec<TerminalOp> = Vec::new();
        std::mem::swap(&mut output, &mut self.output);
        assert(op_views(self.output@) =~= Seq::<OpView>::empty());
        output
    }

    fn put(&mut self, op: TerminalOp)
        ensures
            final(self)@ == (ReplView { output: old(self)@.output.push(op@), ..old(self)@ }),
    {
        self.output.push(op);
        assert(op_views(self.output@) =~= old(self)@.output.push(op@));
    }

    fn write_label(&mut self, label: &str, color: TextColor)
        ensures
            final(self)@ == with_output(old(self)@, label_ops(label@, color)),
    {
        self.put(TerminalOp::Foreground(color));
        self.put(TerminalOp::Bold);
        self.put(TerminalOp::Flush);
        self.put(TerminalOp::Print(label.to_owned()));
        self.put(TerminalOp::ResetAttributes);
        self.put(TerminalOp::Flush);
        assert(self@ =~= with_output(old(self)@, label_ops(label@, color)));
    }

    fn write_colored(&mut self, text: &str, color: TextColor)
        ensures
            final(self)@ == with_output(old(self)@, colored_ops(text@, color)),
    {
        self.put(TerminalOp::Foreground(color));
        self.put(TerminalOp::Flush);
        self.put(TerminalOp::Print(text.to_owned()));
        self.put(TerminalOp::ResetColor);
        self.put(TerminalOp::Flush);
        self.put(TerminalOp::Flush);
        assert(self@ =~= with_output(old(self)@, colored_ops(text@, color)));
    }

    fn write_plain(&mut self, text: &str)
        ensures
            final(self)@ == with_output(old(self)@, plain_ops(text@)),
    {
        self.put(TerminalOp::Print(text.to_owned()));
        self.put(TerminalOp::Flush);
        assert(self@ =~= with_output(old(self)@, plain_ops(text@)));
    }

    fn write_message(&mut self, label: &str, color: TextColor, message: &str)
        ensures
            final(self)@ == with_output(old(self)@, message_ops(label@, color, message@)),
    {
        self.write_label(label, color);
        let mut writer = LineAwareMessageWriter::start();
        let text = writer.write_text(message);
        self.put(TerminalOp::Print(text));
        self.put(TerminalOp::Print(writer.finish()));
        self.put(TerminalOp::Flush);
        assert(self@ =~= with_output(old(self)@, message_ops(label@, color, message@)));
    }

    /// Show that a newer release is available.
    pub fn show_update(&mut self, notice: UpdateNotice)
        ensures
            final(self)@ == (ReplView {
                update_notice: Some(notice@),
                ..with_output(
                    old(self)@,
                    message_ops("Update"@, TextColor::Green, banner_text(notice@)),
                )
            }),
    {
        let text = banner(&notice);
        self.update_notice = Some(notice);
        self.write_message("Update", TextColor::Green, text.as_str());
    }

    /// Start over with an empty screen.
    pub fn clear_transcript(&mut self)
        ensures
            final(self)@ == (ReplView {
                waiting: false,
                ..with_output(old(self)@, header_ops(old(self)@))
            }),
    {
        self.put(TerminalOp::ClearAll);
        self.put(TerminalOp::MoveToOrigin);
        self.put(TerminalOp::Flush);
        self.write_plain("AdaptTUI · Read-only mode · Ctrl-C to exit\n");
        if self.unverified_development_mode {
            self.write_colored(
                "⚠ DEVELOPMENT MODE: ask_adapt is unverified and may perform mutations.\n",
                TextColor::Yellow,
            );
        }
        if !self.update_dismissed {
            let text = match &self.update_notice {
                Some(notice) => {
                    let mut text = banner(notice);
                    text.append("\n");
                    Some(text)
                },
                None => None,
            };
            if let Some(text) = text {
                self.write_colored(text.as_str(), TextColor::Green);
            }
        }
        self.waiting = false;
        assert(self@ =~= (ReplView {
            waiting: false,
            ..with_output(old(self)@, header_ops(old(self)@))
        }));
    }

    /// Show that an answer is on its way.
    pub fn show_working(&mut self)
        ensures
            final(self)@ == (ReplView {
                waiting: true,
                ..with_output(
                    old(self)@,
                    label_ops("Adapt"@, TextColor::Yellow) + plain_ops(": is typing…\r\n"@),
                )
            }),
    {
        self.write_label("Adapt", TextColor::Yellow);
        self.write_plain(": is typing…\r\n");
        self.waiting = true;
        assert(self@ =~= (ReplView {
            waiting: true,
            ..with_output(
                old(self)@,
                label_ops("Adapt"@, TextColor::Yellow) + plain_ops(": is typing…\r\n"@),
            )
        }));
    }

    fn clear_working(&mut self)
        ensures
            final(self)@ == cleared(old(self)@),
    {
        if self.waiting {
            self.put(TerminalOp::MoveUp);
            self.put(TerminalOp::MoveToLineStart);
            self.put(TerminalOp::ClearLine);
            self.put(TerminalOp::Flush);
            self.waiting = false;
        }
        assert(self@ =~= cleared(old(self)@));
    }

    /// Show what the user said.
    pub fn show_you(&mut self, message: &str)
        ensures
            final(self)@ == with_output(
                old(self)@,
                message_ops("You"@, TextColor::Cyan, message@),
            ),
    {
        self.write_message("You", TextColor::Cyan, message);
    }

    /// Show a notice of the local history.
    pub fn show_notice(&mut self, message: &str)
        ensures
            final(self)@ == with_output(
                old(self)@,
                message_ops("History"@, TextColor::Green, message@),
            ),
    {
        self.write_message("History", TextColor::Green, message);
    }

    /// Show what Adapt said, at once.
    pub fn show_adapt(&mut self, message: &str)
        ensures
            final(self)@ == with_output(
                cleared(old(self)@),
                message_ops("Adapt"@, TextColor::Magenta, message@),
            ),
    {
        self.clear_working();
        self.write_message("Adapt", TextColor::Magenta, message);
    }

    /// Show what Adapt said, chunk by chunk.
    pub fn show_adapt_streaming(&mut self, message: &str, delay: Duration)
        ensures
            final(self)@ == with_output(
                cleared(old(self)@),
                streamed_ops("Adapt"@, TextColor::Magenta, message@, delay),
            ),
    {
        self.clear_working();
        self.write_label("Adapt", TextColor::Magenta);
        let ghost labelled = self@;
        let mut writer = LineAwareMessageWriter::start();
        let chunks = streaming_chunks(message);
        let ghost all = views(chunks@);
        let mut n: usize = 0;
        assert(self@ =~= with_output(labelled, chunk_ops(all, delay, 0)));
        assert(all.take(0) =~= Seq::<Seq<char>>::empty());
        while n < chunks.len()
            invariant
                n <= chunks@.len(),
                all == views(chunks@),
                writer@ == after_text(writer_start(), concatenation(all.take(n as int))),
                self@ == with_output(labelled, chunk_ops(all, delay, n as int)),
            decreases chunks@.len() - n,
        {
            let ghost before = self@;
            let ghost seen = writer@;
            let text = writer.write_text(chunks[n].as_str());
            proof {
                assert(all.take(n + 1).drop_last() =~= all.take(n as int));
                lemma_concatenation_grows(all.take(n + 1));
                pieces_write_the_same(
                    writer_start(),
                    concatenation(all.take(n as int)),
                    all[n as int],
                );
            }
            self.put(TerminalOp::Print(text));
            self.put(TerminalOp::Flush);
            n += 1;
            if n < chunks.len() {
                self.put(TerminalOp::Pause(delay));
            }
            assert(self@ =~= with_output(labelled, chunk_ops(all, delay, n as int)));
        }
        proof {
            assert(all.take(n as int) =~= all);
            lemma_split_after_whitespace_is_lossless(message@);
        }
        self.put(TerminalOp::Print(writer.finish()));
        self.put(TerminalOp::Flush);
        assert(self@ =~= with_output(
            cleared(old(self)@),
            streamed_ops("Adapt"@, TextColor::Magenta, message@, delay),
        ));
    }

    /// Show a structured result, pretty-printed.
    pub fn show_structured_result(&mut self, value: &JsonValue)
        ensures
            final(self)@ == result_shown(old(self)@, pretty_json(value@)),
    {
        self.show_rendered_result(&render_json(value));
    }

    /// Show a structured result that was rendered as text, or could not be.
    pub fn show_rendered_result(&mut self, rendered: &Option<String>)
        ensures
            final(self)@ == result_shown(old(self)@, option_view(*rendered)),
    {
        self.clear_working();
        let text = match rendered {
            Some(text) => text.as_str(),
            None => "[unrenderable structured result]",
        };
        self.write_message("Result", TextColor::Blue, text);
    }

    /// Show that the answer is complete.
    pub fn finish_response(&mut self)
        ensures
            final(self)@ == cleared(old(self)@),
    {
        self.clear_working();
    }

    /// Show why a prompt could not be completed.
    pub fn show_error(&mut self, message: &str)
        ensures
            final(self)@ == with_output(
                cleared(old(self)@),
                message_ops(
                    "Error"@,
                    TextColor::Red,
                    "Could not complete this prompt: "@ + message@,
                ),
            ),
    {
        self.clear_working();
        let mut text = "Could not complete this prompt: ".to_owned();
        text.append(message);
        self.write_message("Error", TextColor::Red, text.as_str());
    }

    fn start_line(&mut self)
        ensures
            final(self)@ == with_output(old(self)@, next_line_ops()),
    {
        self.put(TerminalOp::MoveDown);
        self.put(TerminalOp::MoveToLineStart);
        self.put(TerminalOp::ClearLine);
        self.put(TerminalOp::Flush);
        assert(self@ =~= with_output(old(self)@, next_line_ops()));
    }

    fn write_input(&mut self, input: &str)
        ensures
            ({
                let lines = split(input@, '\n');
                final(self)@ == with_output(old(self)@, input_ops(lines, lines.len() as int))
            }),
    {
        let lines = split_text(input, '\n');
        let mut n: usize = 0;
        assert(self@ =~= with_output(old(self)@, input_ops(views(lines@), 0)));
        while n < lines.len()
            invariant
                n <= lines@.len(),
                self@ == with_output(old(self)@, input_ops(views(lines@), n as int)),
            decreases lines@.len() - n,
        {
            if n > 0 {
                self.write_plain("\r\n      ");
            }
            self.write_plain(lines[n].as_str());
            n += 1;
            assert(self@ =~= with_output(old(self)@, input_ops(views(lines@), n as int)));
        }
    }

    fn write_palette(&mut self, input: &str)
        ensures
            final(self)@ == with_output(old(self)@, palette_ops(suggested(input@))),
    {
        let commands = matching_commands(input);
        let ghost all = suggested(input@);
        if commands.len() == 0 {
            assert(all.len() == 0);
            assert(self@ =~= with_output(old(self)@, palette_ops(all)));
            return;
        }
        self.start_line();
        self.write_colored("  Commands", TextColor::DarkGrey);
        let ghost headed = self@;
        let mut n: usize = 0;
        assert(self@ =~= with_output(headed, suggestion_ops(all, 0)));
        while n < commands.len()
            invariant
                n <= commands@.len(),
                all == suggestion_views(commands@),
                self@ == with_output(headed, suggestion_ops(all, n as int)),
            decreases commands@.len() - n,
        {
            let (command, description) = commands[n];
            assert(all[n as int] == (command@, description@));
            self.start_line();
            let mut text = "  ".to_owned();
            text.append(pad(command, 12).as_str());
            self.write_colored(text.as_str(), TextColor::Cyan);
            self.write_colored(description, TextColor::DarkGrey);
            n += 1;
            assert(self@ =~= with_output(headed, suggestion_ops(all, n as int)));
        }
        assert(self@ =~= with_output(old(self)@, palette_ops(all)));
    }

    fn render_input(&mut self, input: &str)
        ensures
            final(self)@ == with_prompt(old(self)@, input@),
    {
        if self.prompt_anchor_saved {
            self.put(TerminalOp::RestorePosition);
            self.put(TerminalOp::ClearFromCursorDown);
            self.put(TerminalOp::Flush);
        } else {
            self.put(TerminalOp::SavePosition);
            self.put(TerminalOp::Flush);
            self.prompt_anchor_saved = true;
        }
        self.write_label("You", TextColor::Cyan);
        self.write_plain(" › ");
        if self.update_notice.is_some() && !self.update_dismissed {
            self.write_colored("[update available] ", TextColor::Green);
        }
        self.write_input(input);
        self.write_palette(input);
        self.put(TerminalOp::Flush);
        assert(self@ =~= with_prompt(old(self)@, input@));
    }

    fn leave_prompt(&mut self)
        ensures
            final(self)@ == (ReplView {
                prompt_anchor_saved: false,
                ..with_output(old(self)@, leave_prompt_ops(old(self)@))
            }),
    {
        if self.prompt_anchor_saved {
            self.put(TerminalOp::RestorePosition);
            self.put(TerminalOp::ClearFromCursorDown);
            self.put(TerminalOp::Flush);
            self.prompt_anchor_saved = false;
        }
        self.put(TerminalOp::PopKeyboardEnhancement);
        self.put(TerminalOp::Flush);
        assert(self@ =~= (ReplView {
            prompt_anchor_saved: false,
            ..with_output(old(self)@, leave_prompt_ops(old(self)@))
        }));
    }

    /// Draw an empty prompt and start to listen for keys.
    pub fn start_prompt(&mut self)
        ensures
            final(self)@ == with_output(
                with_prompt(old(self)@, Seq::empty()),
                seq![OpView::EnterRawMode, OpView::PushKeyboardEnhancement, OpView::Flush],
            ),
    {
        proof {
            reveal_strlit("");
            assert(""@ =~= Seq::<char>::empty());
        }
        self.render_input("");
        let ghost drawn = self@;
        self.put(TerminalOp::EnterRawMode);
        self.put(TerminalOp::PushKeyboardEnhancement);
        self.put(TerminalOp::Flush);
        assert(self@ =~= with_output(
            drawn,
            seq![OpView::EnterRawMode, OpView::PushKeyboardEnhancement, OpView::Flush],
        ));
    }

    /// Take one event into the prompt with the given input.
    pub fn read_prompt(&mut self, input: &mut String, event: TerminalEvent) -> (step: PromptStep)
        ensures
            match prompt_action(old(input)@, event) {
                PromptActionView::Ignore => {
                    &&& step is Waiting
                    &&& final(input)@ == old(input)@
                    &&& final(self)@ == old(self)@
                },
                PromptActionView::Edit(edited) => {
                    &&& step is Waiting
                    &&& final(input)@ == edited
                    &&& final(self)@ == with_prompt(old(self)@, edited)
                },
                PromptActionView::DismissUpdate => {
                    &&& step is Waiting
                    &&& final(input)@ == old(input)@
                    &&& final(self)@ == with_prompt(
                        ReplView { update_dismissed: true, ..old(self)@ },
                        old(input)@,
                    )
                },
                PromptActionView::Submit(prompt) => {
                    &&& step is Submitted
                    &&& step->Submitted_0@ == prompt
                    &&& final(input)@ == old(input)@
                    &&& final(self)@ == without_prompt(old(self)@, plain_ops("\r\n"@))
                },
                PromptActionView::Interrupt => {
                    &&& step is Interrupted
                    &&& final(input)@ == old(input)@
                    &&& final(self)@ == without_prompt(old(self)@, Seq::empty())
                },
                PromptActionView::EndOfInput => {
                    &&& step is EndOfInput
                    &&& final(input)@ == old(input)@
                    &&& final(self)@ == without_prompt(old(self)@, plain_ops("\r\n"@))
                },
            },
    {
        match act_on(input.as_str(), event) {
            PromptAction::Ignore => PromptStep::Waiting,
            PromptAction::Edit(edited) => {
                *input = edited;
                self.render_input(input.as_str());
                PromptStep::Waiting
            },
            PromptAction::DismissUpdate => {
                self.update_dismissed = true;
                self.render_input(input.as_str());
                PromptStep::Waiting
            },
            PromptAction::Submit(prompt) => {
                self.leave_prompt();
                self.write_plain("\r\n");
                self.put(TerminalOp::LeaveRawMode);
                assert(self@ =~= without_prompt(old(self)@, plain_ops("\r\n"@)));
                PromptStep::Submitted(prompt)
            },
            PromptAction::Interrupt => {
                self.leave_prompt();
                self.put(TerminalOp::LeaveRawMode);
                assert(self@ =~= without_prompt(old(self)@, Seq::empty()));
                PromptStep::Interrupted
            },
            PromptAction::EndOfInput => {
                self.leave_prompt();
                self.write_plain("\r\n");
                self.put(TerminalOp::LeaveRawMode);
                assert(self@ =~= without_prompt(old(self)@, plain_ops("\r\n"@)));
                PromptStep::EndOfInput
            },
        }
    }
}

proof fn lemma_printed_in_turn(first: Seq<OpView>, second: Seq<OpView>)
    ensures
        printed(first + second) == printed(first) + printed(second),
    decreases second.len(),
{
    if second.len() == 0 {
        assert(first + second =~= first);
        assert(printed(first) + Seq::<char>::empty() =~= printed(first));
    } else {
        lemma_printed_in_turn(first, second.drop_last());
        assert((first + second).drop_last() =~= first + second.drop_last());
        assert(printed(first + second) =~= printed(first) + printed(second));
    }
}

proof fn lemma_printed_label(label: Seq<char>, color: TextColor)
    ensures
        printed(label_ops(label, color)) == label,
{
    reveal_with_fuel(printed, 7);
    assert(printed(label_ops(label, color)) =~= label);
}

proof fn lemma_printed_chunks(chunks: Seq<Seq<char>>, delay: Duration, n: int)
    requires
        0 <= n <= chunks.len(),
    ensures
        printed(chunk_ops(chunks, delay, n)) == text_output(
            writer_start(),
            concatenation(chunks.take(n)),
        ),
    decreases n,
{
    if n == 0 {
        assert(chunks.take(0) =~= Seq::<Seq<char>>::empty());
    } else {
        lemma_printed_chunks(chunks, delay, n - 1);
        let seen = concatenation(chunks.take(n - 1));
        let writer = after_text(writer_start(), seen);
        let text = text_output(writer, chunks[n - 1]);
        let chunk = seq![OpView::Print(text), OpView::Flush];
        let pause = if n < chunks.len() {
            seq![OpView::Pause(delay)]
        } else {
            Seq::empty()
        };
        reveal_with_fuel(printed, 3);
        assert(printed(chunk) =~= text) by {
            assert(chunk.drop_last() =~= seq![OpView::Print(text)]);
            assert(chunk.drop_last().drop_last() =~= Seq::<OpView>::empty());
        }
        assert(printed(pause) =~= Seq::<char>::empty()) by {
            if pause.len() > 0 {
                assert(pause.drop_last() =~= Seq::<OpView>::empty());
            }
        }
        let before = chunk_ops(chunks, delay, n - 1);
        lemma_printed_in_turn(before, chunk);
        lemma_printed_in_turn(before + chunk, pause);
        assert(printed(chunk_ops(chunks, delay, n)) =~= printed(before) + text);
        assert(chunks.take(n).drop_last() =~= chunks.take(n - 1));
        lemma_concatenation_grows(chunks.take(n));
        pieces_write_the_same(writer_start(), seen, chunks[n - 1]);
    }
}

/// A message is printed as its label and its laid-out lines.
pub proof fn messages_are_printed_behind_their_label(
    label: Seq<char>,
    color: TextColor,
    message: Seq<char>,
)
    ensures
        printed(message_ops(label, color, message)) == label + message_output(message),
{
    let text = text_output(writer_start(), message);
    let end = end_output(after_text(writer_start(), message));
    let body = seq![OpView::Print(text), OpView::Print(end), OpView::Flush];
    reveal_with_fuel(printed, 4);
    assert(printed(body) =~= text + end) by {
        assert(body.drop_last() =~= seq![OpView::Print(text), OpView::Print(end)]);
        assert(body.drop_last().drop_last() =~= seq![OpView::Print(text)]);
        assert(body.drop_last().drop_last().drop_last() =~= Seq::<OpView>::empty());
    }
    lemma_printed_label(label, color);
    lemma_printed_in_turn(label_ops(label, color), body);
}

/// A message that is revealed chunk by chunk prints what the whole message prints, whatever the
/// pause between the chunks.
pub proof fn streamed_messages_print_the_same(
    label: Seq<char>,
    color: TextColor,
    message: Seq<char>,
    delay: Duration,
)
    ensures
        printed(streamed_ops(label, color, message, delay)) == printed(
            message_ops(label, color, message),
        ),
{
    let chunks = split_after_whitespace(message);
    let n = chunks.len() as int;
    let revealed = chunk_ops(chunks, delay, n);
    let end = end_output(after_text(writer_start(), message));
    let body = seq![OpView::Print(end), OpView::Flush];
    messages_are_printed_behind_their_label(label, color, message);
    lemma_split_after_whitespace_is_lossless(message);
    lemma_printed_chunks(chunks, delay, n);
    assert(chunks.take(n) =~= chunks);
    reveal_with_fuel(printed, 3);
    assert(printed(body) =~= end) by {
        assert(body.drop_last() =~= seq![OpView::Print(end)]);
        assert(body.drop_last().drop_last() =~= Seq::<OpView>::empty());
    }
    lemma_printed_label(label, color);
    lemma_printed_in_turn(label_ops(label, color), revealed);
    lemma_printed_in_turn(label_ops(label, color) + revealed, body);
    assert(label + text_output(writer_start(), message) + end =~= label + message_output(message));
}

/// A key that types a character puts it at the end of the input; the backspace key takes it away
/// again.
pub proof fn backspace_undoes_typing(input: Seq<char>, character: char, shift: bool)
    ensures
        ({
            let typed = prompt_action(
                input,
                TerminalEvent::Key {
                    code: KeyCode::Char(character),
                    pressed: true,
                    shift,
                    control: false,
                },
            );
            &&& typed == PromptActionView::Edit(input.push(character))
            &&& prompt_action(
                input.push(character),
                TerminalEvent::Key {
                    code: KeyCode::Backspace,
                    pressed: true,
                    shift: false,
                    control: false,
                },
            ) == PromptActionView::Edit(input)
        }),
{
    assert(input.push(character).drop_last() =~= input);
}

/// A pressed key without modifiers.
pub open spec fn pressed(code: KeyCode) -> TerminalEvent {
    TerminalEvent::Key { code, pressed: true, shift: false, control: false }
}

/// Enter submits the whole input, with all its lines, without the whitespace around it, unless the
/// input is completed first.
pub proof fn enter_submits_the_whole_input(
    before: Seq<char>,
    inside: Seq<char>,
    after: Seq<char>,
    control: bool,
)
    requires
        forall|i: int| 0 <= i < before.len() ==> is_whitespace(#[trigger] before[i]),
        forall|i: int| 0 <= i < after.len() ==> is_whitespace(#[trigger] after[i]),
        inside.len() > 0 ==> !is_whitespace(inside[0]) && !is_whitespace(inside.last()),
    ensures
        ({
            let input = before + inside + after;
            let enter = TerminalEvent::Key {
                code: KeyCode::Enter,
                pressed: true,
                shift: false,
                control,
            };
            &&& completion(input) is None ==> prompt_action(input, enter)
                == PromptActionView::Submit(inside)
            &&& completion(input) matches Some(completed) ==> prompt_action(input, enter)
                == PromptActionView::Edit(completed)
        }),
{
    trimming_takes_off_the_whitespace_around(before, inside, after);
}

/// Several lines are never completed: Enter submits them as they were typed.
pub proof fn several_lines_are_submitted_as_typed(first: Seq<char>, rest: Seq<char>)
    requires
        first.len() > 0,
        !is_whitespace(first[0]),
        rest.len() > 0,
        !is_whitespace(rest.last()),
    ensures
        prompt_action(first.push('\n') + rest, pressed(KeyCode::Enter))
            == PromptActionView::Submit(first.push('\n') + rest),
{
    let input = first.push('\n') + rest;
    let none = Seq::<char>::empty();
    assert(is_whitespace(input[first.len() as int]));
    the_only_suggestion_completes(input);
    assert(input.last() == rest.last());
    enter_submits_the_whole_input(none, input, none, false);
    assert(none + input + none =~= input);
}

/// Shift and Enter start a new line at the end of the input, and so does a newline that the terminal
/// sends in their place, with whatever modifiers.
pub proof fn shift_and_enter_start_a_line(input: Seq<char>, shift: bool, control: bool)
    ensures
        prompt_action(
            input,
            TerminalEvent::Key { code: KeyCode::Enter, pressed: true, shift: true, control },
        ) == PromptActionView::Edit(input.push('\n')),
        prompt_action(
            input,
            TerminalEvent::Key { code: KeyCode::Char('\n'), pressed: true, shift, control },
        ) == PromptActionView::Edit(input.push('\n')),
{
}

/// Only pressed keys count. Control and C interrupt whatever the input, control and D end the input
/// where it is empty, and no other control character does anything.
pub proof fn control_keys_leave_the_prompt(
    input: Seq<char>,
    code: KeyCode,
    character: char,
    shift: bool,
    control: bool,
)
    requires
        character != '\n',
    ensures
        ({
            let action = prompt_action(
                input,
                TerminalEvent::Key {
                    code: KeyCode::Char(character),
                    pressed: true,
                    shift,
                    control: true,
                },
            );
            &&& character == 'c' ==> action is Interrupt
            &&& character == 'd' && input.len() == 0 ==> action is EndOfInput
            &&& character == 'd' && input.len() > 0 ==> action is Ignore
            &&& character != 'c' && character != 'd' ==> action is Ignore
        }),
        prompt_action(
            input,
            TerminalEvent::Key { code, pressed: false, shift, control },
        ) is Ignore,
        prompt_action(
            input,
            TerminalEvent::Key { code: KeyCode::Other, pressed: true, shift, control },
        ) is Ignore,
        prompt_action(input, TerminalEvent::Other) is Ignore,
{
}

/// Escape empties the input, and dismisses the announcement of a release where there is none. Tab
/// completes the input, and Backspace takes its last character.
pub proof fn other_keys_edit_the_input(input: Seq<char>, shift: bool, control: bool)
    ensures
        ({
            let key = |code: KeyCode|
                prompt_action(
                    input,
                    TerminalEvent::Key { code, pressed: true, shift, control },
                );
            &&& input.len() > 0 ==> key(KeyCode::Esc) == PromptActionView::Edit(Seq::empty())
            &&& input.len() == 0 ==> key(KeyCode::Esc) is DismissUpdate
            &&& completion(input) is None ==> key(KeyCode::Tab) == PromptActionView::Edit(input)
            &&& completion(input) matches Some(completed) ==> key(KeyCode::Tab)
                == PromptActionView::Edit(completed)
            &&& input.len() > 0 ==> key(KeyCode::Backspace) == PromptActionView::Edit(
                input.take(input.len() - 1),
            )
            &&& input.len() == 0 ==> key(KeyCode::Backspace) == PromptActionView::Edit(input)
        }),
{
    if input.len() > 0 {
        assert(input.drop_last() =~= input.take(input.len() - 1));
    }
}

proof fn lemma_printed_plain(text: Seq<char>)
    ensures
        printed(plain_ops(text)) == text,
{
    reveal_with_fuel(printed, 3);
    assert(plain_ops(text).drop_last() =~= seq![OpView::Print(text)]);
    assert(plain_ops(text).drop_last().drop_last() =~= Seq::<OpView>::empty());
    assert(printed(plain_ops(text)) =~= text);
}

proof fn lemma_printed_colored(text: Seq<char>, color: TextColor)
    ensures
        printed(colored_ops(text, color)) == text,
{
    reveal_with_fuel(printed, 7);
    assert(printed(colored_ops(text, color)) =~= text);
}

proof fn lemma_nothing_printed(ops: Seq<OpView>)
    requires
        forall|i: int| 0 <= i < ops.len() ==> !(#[trigger] ops[i] is Print),
    ensures
        printed(ops).len() == 0,
    decreases ops.len(),
{
    if ops.len() > 0 {
        assert(!(ops[ops.len() - 1] is Print));
        assert forall|i: int| 0 <= i < ops.drop_last().len() implies !(
        #[trigger] ops.drop_last()[i] is Print) by {
            assert(ops.drop_last()[i] == ops[i]);
        }
        lemma_nothing_printed(ops.drop_last());
    }
}

/// The lines, each below the other and indented to where the first one starts.
proof fn lemma_printed_lines(lines: Seq<Seq<char>>, n: int)
    requires
        1 <= n <= lines.len(),
        forall|i: int| 0 <= i < lines.len() ==> !(#[trigger] lines[i]).contains('\n'),
    ensures
        printed(input_ops(lines, n)) == replaced(
            interleaved(lines.take(n), '\n'),
            seq!['\n'],
            "\r\n      "@,
        ),
    decreases n,
{
    let line = lines[n - 1];
    let before = lines.take(n - 1);
    let gap = "\r\n      "@;
    assert(!lines[n - 1].contains('\n'));
    lemma_printed_plain(line);
    assert(!contains(line, seq!['\n'])) by {
        if contains(line, seq!['\n']) {
            let at = choose|at: int| occurs_at(line, seq!['\n'], at);
            assert(line.subrange(at, at + 1)[0] == line[at]);
        }
    }
    nothing_is_replaced_without_an_occurrence(line, seq!['\n'], gap);
    if n == 1 {
        assert(input_ops(lines, 0) =~= Seq::<OpView>::empty());
        assert(input_ops(lines, 1) =~= plain_ops(line));
        assert(lines.take(1) =~= seq![line]);
    } else {
        lemma_printed_lines(lines, n - 1);
        lemma_printed_plain(gap);
        lemma_printed_in_turn(input_ops(lines, n - 1), plain_ops(gap));
        lemma_printed_in_turn(input_ops(lines, n - 1) + plain_ops(gap), plain_ops(line));
        let seen = interleaved(before, '\n');
        assert(lines.take(n).drop_last() =~= before);
        lemma_interleaved_grows(lines.take(n), '\n');
        lemma_newline_replaced(seen, line, gap);
    }
}

proof fn lemma_interleaved_grows(parts: Seq<Seq<char>>, separator: char)
    requires
        parts.len() > 1,
    ensures
        interleaved(parts, separator) == interleaved(parts.drop_last(), separator).push(separator)
            + parts.last(),
    decreases parts.len(),
{
    reveal_with_fuel(interleaved, 2);
    if parts.len() == 2 {
        assert(parts.skip(1) =~= seq![parts.last()]);
        assert(parts.drop_last() =~= seq![parts[0]]);
    } else {
        lemma_interleaved_grows(parts.skip(1), separator);
        assert(parts.skip(1).drop_last() =~= parts.drop_last().skip(1));
        assert(interleaved(parts, separator) =~= interleaved(parts.drop_last(), separator).push(
            separator,
        ) + parts.last());
    }
}

/// A single character is replaced on both sides of it alike.
proof fn lemma_newline_replaced(before: Seq<char>, after: Seq<char>, to: Seq<char>)
    ensures
        replaced(before.push('\n') + after, seq!['\n'], to) == replaced(before, seq!['\n'], to) + to
            + replaced(after, seq!['\n'], to),
    decreases before.len(),
{
    let from = seq!['\n'];
    let text = before.push('\n') + after;
    if before.len() == 0 {
        assert(text.take(1) =~= from);
        assert(text.skip(1) =~= after);
        assert(replaced(before, from, to) + to =~= to);
    } else {
        lemma_newline_replaced(before.skip(1), after, to);
        assert(text.skip(1) =~= before.skip(1).push('\n') + after);
        assert(text.take(1) =~= before.take(1));
        assert(replaced(text, from, to) =~= replaced(before, from, to) + to + replaced(
            after,
            from,
            to,
        ));
    }
}

/// The prompt shows the whole input behind its label: every line of it, each further line below the
/// other and indented, and the suggestions behind it. A newer release is announced in front of the
/// input until it is dismissed.
pub proof fn the_prompt_shows_the_whole_input(repl: ReplView, input: Seq<char>)
    ensures
        printed(prompt_ops(repl, input)) == "You"@ + " › "@ + (if repl.update_notice is Some
            && !repl.update_dismissed {
            "[update available] "@
        } else {
            Seq::empty()
        }) + replaced(input, seq!['\n'], "\r\n      "@) + printed(palette_ops(suggested(input))),
{
    let lines = split(input, '\n');
    let anchor = if repl.prompt_anchor_saved {
        seq![OpView::RestorePosition, OpView::ClearFromCursorDown, OpView::Flush]
    } else {
        seq![OpView::SavePosition, OpView::Flush]
    };
    let label = label_ops("You"@, TextColor::Cyan);
    let mark = plain_ops(" › "@);
    let news = if announces_update(repl) {
        colored_ops("[update available] "@, TextColor::Green)
    } else {
        Seq::empty()
    };
    let typed = input_ops(lines, lines.len() as int);
    let offers = palette_ops(suggested(input));
    let end = seq![OpView::Flush];
    splitting_is_exact(input, '\n');
    lemma_printed_lines(lines, lines.len() as int);
    assert(lines.take(lines.len() as int) =~= lines);
    lemma_nothing_printed(anchor);
    lemma_nothing_printed(end);
    lemma_printed_label("You"@, TextColor::Cyan);
    lemma_printed_plain(" › "@);
    lemma_printed_colored("[update available] "@, TextColor::Green);
    lemma_printed_in_turn(anchor, label);
    lemma_printed_in_turn(anchor + label, mark);
    lemma_printed_in_turn(anchor + label + mark, news);
    lemma_printed_in_turn(anchor + label + mark + news, typed);
    lemma_printed_in_turn(anchor + label + mark + news + typed, offers);
    lemma_printed_in_turn(anchor + label + mark + news + typed + offers, end);
    assert(printed(prompt_ops(repl, input)) =~= "You"@ + " › "@ + printed(news) + printed(typed)
        + printed(offers));
}

/// A text that is filled up keeps its characters, gets nothing but spaces behind them, and is as
/// wide as asked for, unless it is wider already.
pub proof fn filling_up_adds_spaces(text: Seq<char>, width: nat)
    ensures
        padded(text, width).len() == (if text.len() > width {
            text.len()
        } else {
            width
        }),
        padded(text, width).take(text.len() as int) == text,
        forall|i: int|
            text.len() <= i < padded(text, width).len() ==> #[trigger] padded(text, width)[i]
                == ' ',
    decreases width,
{
    if text.len() < width {
        filling_up_adds_spaces(text, (width - 1) as nat);
        let before = padded(text, (width - 1) as nat);
        assert(before.push(' ').take(text.len() as int) =~= before.take(text.len() as int));
    } else {
        assert(text.take(text.len() as int) =~= text);
    }
}

/// Every suggestion is listed below the input with its name, filled up, and its description; without
/// suggestions nothing is.
pub proof fn every_suggestion_is_listed(
    commands: Seq<(Seq<char>, Seq<char>)>,
    name: Seq<char>,
    description: Seq<char>,
)
    ensures
        printed(palette_ops(Seq::empty())).len() == 0,
        ({
            let more = commands.push((name, description));
            printed(palette_ops(more)) == (if commands.len() == 0 {
                "  Commands"@
            } else {
                printed(palette_ops(commands))
            }) + "  "@ + padded(name, 12) + description
        }),
{
    let n = commands.len() as int;
    let start = palette_start(commands, n);
    lemma_palette_grows(commands, name, description);
    lemma_printed_suggestion(start, name, description);
    if n == 0 {
        lemma_printed_title(commands);
    }
}

/// What the palette puts out up to the given number of suggestions.
spec fn palette_start(commands: Seq<(Seq<char>, Seq<char>)>, n: int) -> Seq<OpView> {
    next_line_ops() + colored_ops("  Commands"@, TextColor::DarkGrey) + suggestion_ops(commands, n)
}

proof fn lemma_palette_grows(
    commands: Seq<(Seq<char>, Seq<char>)>,
    name: Seq<char>,
    description: Seq<char>,
)
    ensures
        commands.len() > 0 ==> palette_ops(commands) == palette_start(
            commands,
            commands.len() as int,
        ),
        palette_ops(commands.push((name, description))) == palette_start(
            commands,
            commands.len() as int,
        ) + (next_line_ops() + (colored_ops("  "@ + padded(name, 12), TextColor::Cyan)
            + colored_ops(description, TextColor::DarkGrey))),
{
    let more = commands.push((name, description));
    let n = commands.len() as int;
    lemma_suggestions_agree(commands, more, n);
    assert(more[n] == (name, description));
    let first = colored_ops("  "@ + padded(name, 12), TextColor::Cyan);
    let second = colored_ops(description, TextColor::DarkGrey);
    let before = suggestion_ops(commands, n);
    assert(suggestion_ops(more, n + 1) == before + next_line_ops() + first + second);
    let top = next_line_ops() + colored_ops("  Commands"@, TextColor::DarkGrey);
    assert(top + (before + next_line_ops() + first + second) =~= top + before + (next_line_ops()
        + (first + second)));
}

proof fn lemma_printed_suggestion(start: Seq<OpView>, name: Seq<char>, description: Seq<char>)
    ensures
        printed(
            start + (next_line_ops() + (colored_ops("  "@ + padded(name, 12), TextColor::Cyan)
                + colored_ops(description, TextColor::DarkGrey))),
        ) == printed(start) + "  "@ + padded(name, 12) + description,
{
    let line = next_line_ops();
    let first = colored_ops("  "@ + padded(name, 12), TextColor::Cyan);
    let second = colored_ops(description, TextColor::DarkGrey);
    lemma_nothing_printed(line);
    lemma_printed_colored("  "@ + padded(name, 12), TextColor::Cyan);
    lemma_printed_colored(description, TextColor::DarkGrey);
    lemma_printed_in_turn(first, second);
    lemma_printed_in_turn(line, first + second);
    lemma_printed_in_turn(start, line + (first + second));
    assert(printed(line) + printed(first + second) =~= "  "@ + padded(name, 12) + description);
}

proof fn lemma_printed_title(commands: Seq<(Seq<char>, Seq<char>)>)
    ensures
        printed(palette_start(commands, 0)) == "  Commands"@,
{
    let title = colored_ops("  Commands"@, TextColor::DarkGrey);
    lemma_nothing_printed(next_line_ops());
    lemma_printed_colored("  Commands"@, TextColor::DarkGrey);
    lemma_printed_in_turn(next_line_ops(), title);
    assert(palette_start(commands, 0) =~= next_line_ops() + title);
}

proof fn lemma_suggestions_agree(
    commands: Seq<(Seq<char>, Seq<char>)>,
    more: Seq<(Seq<char>, Seq<char>)>,
    n: int,
)
    requires
        n <= commands.len() <= more.len(),
        forall|i: int| 0 <= i < commands.len() ==> more[i] == #[trigger] commands[i],
    ensures
        suggestion_ops(commands, n) == suggestion_ops(more, n),
    decreases n,
{
    if n > 0 {
        lemma_suggestions_agree(commands, more, n - 1);
        assert(more[n - 1] == commands[n - 1]);
    }
}

/// An empty screen begins with the mode and how to leave, warns exactly in development mode, and
/// announces a newer release exactly until it is dismissed.
pub proof fn an_empty_screen_says_what_to_expect(repl: ReplView)
    ensures
        printed(header_ops(repl)) == "AdaptTUI · Read-only mode · Ctrl-C to exit\n"@ + (
        if repl.unverified_development_mode {
            "⚠ DEVELOPMENT MODE: ask_adapt is unverified and may perform mutations.\n"@
        } else {
            Seq::empty()
        }) + (match repl.update_notice {
            Some(notice) if !repl.update_dismissed => "Update available: Adaptalk "@
                + version_text(notice.available) + " (installed "@ + version_text(notice.installed)
                + "). See: "@ + notice.url + "\n"@,
            _ => Seq::empty(),
        }),
{
    let screen = seq![OpView::ClearAll, OpView::MoveToOrigin, OpView::Flush];
    let title = plain_ops("AdaptTUI · Read-only mode · Ctrl-C to exit\n"@);
    let warning = "⚠ DEVELOPMENT MODE: ask_adapt is unverified and may perform mutations.\n"@;
    let mode = if repl.unverified_development_mode {
        colored_ops(warning, TextColor::Yellow)
    } else {
        Seq::empty()
    };
    let news = if announces_update(repl) {
        colored_ops(banner_text(repl.update_notice->Some_0) + "\n"@, TextColor::Green)
    } else {
        Seq::empty()
    };
    lemma_nothing_printed(screen);
    lemma_printed_plain("AdaptTUI · Read-only mode · Ctrl-C to exit\n"@);
    lemma_printed_colored(warning, TextColor::Yellow);
    if announces_update(repl) {
        lemma_printed_colored(
            banner_text(repl.update_notice->Some_0) + "\n"@,
            TextColor::Green,
        );
    }
    lemma_printed_in_turn(screen, title);
    lemma_printed_in_turn(screen + title, mode);
    lemma_printed_in_turn(screen + title + mode, news);
    assert(printed(header_ops(repl)) =~= "AdaptTUI · Read-only mode · Ctrl-C to exit\n"@ + printed(
        mode,
    ) + printed(news));
}

/// What is put out is printed behind what was printed before, and removing the typing indicator
/// prints nothing.
pub proof fn output_is_printed_in_order(repl: ReplView, ops: Seq<OpView>)
    ensures
        printed(with_output(repl, ops).output) == printed(repl.output) + printed(ops),
        printed(cleared(repl).output) == printed(repl.output),
{
    lemma_printed_in_turn(repl.output, ops);
    lemma_printed_in_turn(repl.output, clear_working_ops(repl.waiting));
    lemma_nothing_printed(clear_working_ops(repl.waiting));
    assert(printed(repl.output) + printed(clear_working_ops(repl.waiting)) =~= printed(
        repl.output,
    ));
}

/// The typing indicator is removed by clearing the line above, and only where it is shown; after
/// that it is no longer shown.
pub proof fn the_typing_indicator_is_removed(repl: ReplView)
    ensures
        !cleared(repl).waiting,
        repl.waiting ==> cleared(repl).output == repl.output + seq![
            OpView::MoveUp,
            OpView::MoveToLineStart,
            OpView::ClearLine,
            OpView::Flush,
        ],
        !repl.waiting ==> cleared(repl) == repl,
{
    assert(repl.output + Seq::<OpView>::empty() =~= repl.output);
}

/// A prompt that is left is removed from where it was drawn, the keyboard and the terminal's mode are
/// given back, and a later prompt finds its own place.
pub proof fn a_left_prompt_is_removed(repl: ReplView, ops: Seq<OpView>, input: Seq<char>)
    ensures
        with_prompt(repl, input).prompt_anchor_saved,
        !without_prompt(repl, ops).prompt_anchor_saved,
        repl.prompt_anchor_saved ==> without_prompt(repl, ops).output == repl.output + seq![
            OpView::RestorePosition,
            OpView::ClearFromCursorDown,
            OpView::Flush,
            OpView::PopKeyboardEnhancement,
            OpView::Flush,
        ] + ops + seq![OpView::LeaveRawMode],
        !repl.prompt_anchor_saved ==> without_prompt(repl, ops).output == repl.output + seq![
            OpView::PopKeyboardEnhancement,
            OpView::Flush,
        ] + ops + seq![OpView::LeaveRawMode],
{
    let end = seq![OpView::PopKeyboardEnhancement, OpView::Flush];
    assert(without_prompt(repl, ops).output =~= repl.output + leave_prompt_ops(repl) + ops + seq![
        OpView::LeaveRawMode,
    ]);
    assert(!repl.prompt_anchor_saved ==> leave_prompt_ops(repl) =~= end);
    assert(repl.prompt_anchor_saved ==> leave_prompt_ops(repl) =~= seq![
        OpView::RestorePosition,
        OpView::ClearFromCursorDown,
        OpView::Flush,
        OpView::PopKeyboardEnhancement,
        OpView::Flush,
    ]);
}

/// A label is printed bold and in its speaker's color, and only the label is.
pub proof fn labels_are_bold_and_colored(label: Seq<char>, color: TextColor, message: Seq<char>)
    ensures
        message_ops(label, color, message).len() > 6,
        message_ops(label, color, message).take(6) == seq![
            OpView::Foreground(color),
            OpView::Bold,
            OpView::Flush,
            OpView::Print(label),
            OpView::ResetAttributes,
            OpView::Flush,
        ],
{
    assert(message_ops(label, color, message).take(6) =~= label_ops(label, color));
}

/// Output is added behind what was put out before, and changes nothing else.
pub proof fn output_is_only_appended(repl: ReplView, ops: Seq<OpView>)
    ensures
        ({
            let next = with_output(repl, ops);
            &&& next.output == repl.output + ops
            &&& next.waiting == repl.waiting
            &&& next.unverified_development_mode == repl.unverified_development_mode
            &&& next.prompt_anchor_saved == repl.prompt_anchor_saved
            &&& next.update_notice == repl.update_notice
            &&& next.update_dismissed == repl.update_dismissed
        }),
{
}

/// Removing the typing indicator, drawing the prompt and leaving it change only what they are about,
/// besides the output.
pub proof fn drawing_changes_nothing_else(repl: ReplView, ops: Seq<OpView>, input: Seq<char>)
    ensures
        cleared(repl) == (ReplView { output: cleared(repl).output, waiting: false, ..repl }),
        with_prompt(repl, input) == (ReplView {
            output: repl.output + prompt_ops(repl, input),
            prompt_anchor_saved: true,
            ..repl
        }),
        without_prompt(repl, ops) == (ReplView {
            output: without_prompt(repl, ops).output,
            prompt_anchor_saved: false,
            ..repl
        }),
{
}

/// A screen starts without prompt, typing indicator and update.
pub proof fn screens_start_empty(output: Seq<OpView>, mode: bool)
    ensures
        ({
            let repl = blank(output, mode);
            &&& repl.output == output
            &&& repl.unverified_development_mode == mode
            &&& !repl.waiting
            &&& !repl.prompt_anchor_saved
            &&& repl.update_notice is None
            &&& !repl.update_dismissed
        }),
{
}

/// The prompt is drawn where it was drawn first: there its place is saved, after that it is found
/// again and what stood there is removed. The header is drawn on an empty screen.
pub proof fn the_prompt_keeps_its_place(repl: ReplView, input: Seq<char>)
    ensures
        prompt_ops(repl, input).len() > 3,
        !repl.prompt_anchor_saved ==> prompt_ops(repl, input)[0] == OpView::SavePosition,
        repl.prompt_anchor_saved ==> prompt_ops(repl, input)[0] == OpView::RestorePosition
            && prompt_ops(repl, input)[1] == OpView::ClearFromCursorDown,
        prompt_ops(repl, input).last() == OpView::Flush,
        header_ops(repl).len() > 3,
        header_ops(repl)[0] == OpView::ClearAll,
        header_ops(repl)[1] == OpView::MoveToOrigin,
{
}

/// Each suggestion stands on a line of its own, the command in one color and what it does in
/// another.
pub proof fn suggestions_stand_on_their_own_lines(
    commands: Seq<(Seq<char>, Seq<char>)>,
    name: Seq<char>,
    description: Seq<char>,
)
    requires
        commands.len() > 0,
    ensures
        palette_ops(commands.push((name, description))) == palette_ops(commands) + seq![
            OpView::MoveDown,
            OpView::MoveToLineStart,
            OpView::ClearLine,
            OpView::Flush,
            OpView::Foreground(TextColor::Cyan),
            OpView::Flush,
            OpView::Print("  "@ + padded(name, 12)),
            OpView::ResetColor,
            OpView::Flush,
            OpView::Flush,
            OpView::Foreground(TextColor::DarkGrey),
            OpView::Flush,
            OpView::Print(description),
            OpView::ResetColor,
            OpView::Flush,
            OpView::Flush,
        ],
{
    lemma_palette_grows(commands, name, description);
}

proof fn lemma_chunk_ops(chunks: Seq<Seq<char>>, delay: Duration, n: int)
    requires
        0 <= n <= chunks.len(),
    ensures
        ({
            let ops = chunk_ops(chunks, delay, n);
            &&& ops.len() == (if n > 0 && n == chunks.len() {
                3 * n - 1
            } else {
                3 * n
            })
            &&& forall|k: int|
                #![trigger ops[3 * k]]
                #![trigger chunks[k]]
                0 <= k < n ==> {
                    &&& ops[3 * k] == OpView::Print(
                        text_output(
                            after_text(writer_start(), concatenation(chunks.take(k))),
                            chunks[k],
                        ),
                    )
                    &&& ops[3 * k + 1] == OpView::Flush
                    &&& k + 1 < chunks.len() ==> ops[3 * k + 2] == OpView::Pause(delay)
                }
        }),
    decreases n,
{
    if n > 0 {
        lemma_chunk_ops(chunks, delay, n - 1);
        let before = chunk_ops(chunks, delay, n - 1);
        let ops = chunk_ops(chunks, delay, n);
        assert(before.len() == 3 * (n - 1));
        assert forall|k: int|
            #![trigger ops[3 * k]]
            #![trigger chunks[k]]
            0 <= k < n implies {
            &&& ops[3 * k] == OpView::Print(
                text_output(
                    after_text(writer_start(), concatenation(chunks.take(k))),
                    chunks[k],
                ),
            )
            &&& ops[3 * k + 1] == OpView::Flush
            &&& k + 1 < chunks.len() ==> ops[3 * k + 2] == OpView::Pause(delay)
        } by {
            if k < n - 1 {
                assert(ops[3 * k] == before[3 * k]);
                assert(ops[3 * k + 1] == before[3 * k + 1]);
                assert(ops[3 * k + 2] == before[3 * k + 2]);
            }
        }
    }
}

/// A streamed message is revealed chunk by chunk behind its label, each chunk at once, with a pause
/// of the given length between any two of them and none behind the last.
pub proof fn streamed_chunks_come_one_by_one(
    label: Seq<char>,
    color: TextColor,
    message: Seq<char>,
    delay: Duration,
    k: int,
)
    requires
        0 <= k < split_after_whitespace(message).len(),
    ensures
        ({
            let ops = streamed_ops(label, color, message, delay);
            let chunks = split_after_whitespace(message);
            &&& ops.len() == 6 + 3 * chunks.len() - 1 + 2
            &&& ops.take(6) == message_ops(label, color, message).take(6)
            &&& ops[6 + 3 * k] == OpView::Print(
                text_output(after_text(writer_start(), concatenation(chunks.take(k))), chunks[k]),
            )
            &&& ops[6 + 3 * k + 1] == OpView::Flush
            &&& k + 1 < chunks.len() ==> ops[6 + 3 * k + 2] == OpView::Pause(delay)
            &&& ops[ops.len() - 2] is Print
            &&& ops[ops.len() - 1] == OpView::Flush
        }),
{
    let chunks = split_after_whitespace(message);
    let n = chunks.len() as int;
    lemma_chunk_ops(chunks, delay, n);
    let revealed = chunk_ops(chunks, delay, n);
    let ops = streamed_ops(label, color, message, delay);
    assert(chunks[k] == chunks[k]);
    assert(ops[6 + 3 * k] == revealed[3 * k]);
    assert(ops[6 + 3 * k + 1] == revealed[3 * k + 1]);
    if k + 1 < n {
        assert(ops[6 + 3 * k + 2] == revealed[3 * k + 2]);
    }
    assert(ops.take(6) =~= message_ops(label, color, message).take(6));
}

/// A message that is shown at once is shown without a pause.
pub proof fn whole_messages_do_not_pause(
    label: Seq<char>,
    color: TextColor,
    message: Seq<char>,
    i: int,
)
    requires
        0 <= i < message_ops(label, color, message).len(),
    ensures
        !(message_ops(label, color, message)[i] is Pause),
{
}

/// The header stands on an empty screen, the warning of the development mode below it in yellow and
/// an update below that in green.
pub proof fn warnings_and_updates_are_colored(repl: ReplView)
    ensures
        header_ops(repl) == seq![
            OpView::ClearAll,
            OpView::MoveToOrigin,
            OpView::Flush,
            OpView::Print("AdaptTUI · Read-only mode · Ctrl-C to exit\n"@),
            OpView::Flush,
        ] + (if repl.unverified_development_mode {
            seq![
                OpView::Foreground(TextColor::Yellow),
                OpView::Flush,
                OpView::Print(
                    "⚠ DEVELOPMENT MODE: ask_adapt is unverified and may perform mutations.\n"@,
                ),
                OpView::ResetColor,
                OpView::Flush,
                OpView::Flush,
            ]
        } else {
            Seq::empty()
        }) + (match repl.update_notice {
            Some(notice) if !repl.update_dismissed => seq![
                OpView::Foreground(TextColor::Green),
                OpView::Flush,
                OpView::Print(
                    "Update available: Adaptalk "@ + version_text(notice.available)
                        + " (installed "@ + version_text(notice.installed) + "). See: "@
                        + notice.url + "\n"@,
                ),
                OpView::ResetColor,
                OpView::Flush,
                OpView::Flush,
            ],
            _ => Seq::empty(),
        }),
{
    assert(seq![OpView::ClearAll, OpView::MoveToOrigin, OpView::Flush] + plain_ops(
        "AdaptTUI · Read-only mode · Ctrl-C to exit\n"@,
    ) =~= seq![
        OpView::ClearAll,
        OpView::MoveToOrigin,
        OpView::Flush,
        OpView::Print("AdaptTUI · Read-only mode · Ctrl-C to exit\n"@),
        OpView::Flush,
    ]);
}

/// A line that is no command is drawn behind the label and the sign of the prompt, with a note in
/// green while there is an update, and nothing below it.
pub proof fn a_typed_line_is_drawn_behind_its_label(repl: ReplView, input: Seq<char>)
    requires
        !input.contains('\n'),
        input.len() == 0 || input[0] != '/',
    ensures
        prompt_ops(repl, input) == (if repl.prompt_anchor_saved {
            seq![OpView::RestorePosition, OpView::ClearFromCursorDown, OpView::Flush]
        } else {
            seq![OpView::SavePosition, OpView::Flush]
        }) + seq![
            OpView::Foreground(TextColor::Cyan),
            OpView::Bold,
            OpView::Flush,
            OpView::Print("You"@),
            OpView::ResetAttributes,
            OpView::Flush,
            OpView::Print(" › "@),
            OpView::Flush,
        ] + (if repl.update_notice is Some && !repl.update_dismissed {
            seq![
                OpView::Foreground(TextColor::Green),
                OpView::Flush,
                OpView::Print("[update available] "@),
                OpView::ResetColor,
                OpView::Flush,
                OpView::Flush,
            ]
        } else {
            Seq::empty()
        }) + seq![OpView::Print(input), OpView::Flush, OpView::Flush],
{
    lemma_split_whole(input, '\n');
    let lines = split(input, '\n');
    assert(lines.len() == 1 && lines[0] == input);
    reveal_with_fuel(input_ops, 2);
    assert(input_ops(lines, 1) =~= plain_ops(input));
    suggestions_fit_what_was_typed(input);
    assert(palette_ops(suggested(input)) =~= Seq::<OpView>::empty());
}

} // verus!

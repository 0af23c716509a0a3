//! The decisions of the interactive session: what a key press does to the
//! input line, what a submitted line asks for, how the boxes are sized and
//! titled, and what each event of a streamed answer shows. The terminal
//! itself is driven by the caller.
use vstd::prelude::*;

use crate::agent::AgentEvent;
use crate::commands::{
    Command, SessionInfo, config_message, config_text, help_message, help_text, status_message,
    status_text, tools_message, tools_text, unknown_message, unknown_text,
};
use crate::input::{InputState, word_left, word_right};
use crate::markdown::{
    MarkdownStreamProcessor, MdView, flush_final_spec, write_chunk_spec, write_reasoning_spec,
};
use crate::render::{Span, Tone, emit_newline, make_style, newline, piece, pieces, plain};
use crate::text::{chars_of, owned, push_str, string_of, trim, trim_chars};
use crate::tools::{line_count, text_lines};
use crate::usage::{Usage, usage_line};

verus! {

/// The modifier keys held with a key.
#[derive(Debug, Clone, Copy, PartialEq, Eq, Structural)]
pub struct Modifiers {
    pub ctrl: bool,
    pub alt: bool,
    pub shift: bool,
    /// Any other modifier (super, hyper, meta).
    pub other: bool,
}

/// A key, as the input line tells them apart.
#[derive(Debug, Clone, Copy, PartialEq, Eq, Structural)]
pub enum Key {
    Char(char),
    Enter,
    Left,
    Right,
    Home,
    End,
    Backspace,
    Delete,
    Esc,
    Other,
}

/// A key press with its modifiers.
#[derive(Debug, Clone, Copy, PartialEq, Eq, Structural)]
pub struct KeyPress {
    pub key: Key,
    pub mods: Modifiers,
}

/// What a key press asks of the input line.
#[derive(Debug, Clone, Copy, PartialEq, Eq, Structural)]
pub enum EditAction {
    Quit,
    NewLine,
    Submit,
    WordLeft,
    WordRight,
    Left,
    Right,
    Home,
    End,
    Backspace,
    Delete,
    Insert(char),
    Ignore,
}

/// No modifier at all.
pub open spec fn no_mods(m: Modifiers) -> bool {
    !m.ctrl && !m.alt && !m.shift && !m.other
}

/// Control and nothing else.
pub open spec fn only_ctrl(m: Modifiers) -> bool {
    m.ctrl && !m.alt && !m.shift && !m.other
}

/// Alt and nothing else.
pub open spec fn only_alt(m: Modifiers) -> bool {
    !m.ctrl && m.alt && !m.shift && !m.other
}

/// Shift and nothing else.
pub open spec fn only_shift(m: Modifiers) -> bool {
    !m.ctrl && !m.alt && m.shift && !m.other
}

/// The meaning of a key press: Ctrl+C and Esc quit; Alt+Enter and
/// Shift+Enter break the line, any other Enter submits it; Alt or Ctrl with
/// an arrow moves by words, a bare arrow by characters; Home and Ctrl+A go to
/// the start, End and Ctrl+E to the end; Backspace and Delete erase; a
/// character typed alone or with Shift is inserted; anything else is ignored.
pub open spec fn key_action(k: KeyPress) -> EditAction {
    match k.key {
        Key::Char(c) => if c == 'c' && only_ctrl(k.mods) {
            EditAction::Quit
        } else if c == 'a' && only_ctrl(k.mods) {
            EditAction::Home
        } else if c == 'e' && only_ctrl(k.mods) {
            EditAction::End
        } else if no_mods(k.mods) || only_shift(k.mods) {
            EditAction::Insert(c)
        } else {
            EditAction::Ignore
        },
        Key::Esc => EditAction::Quit,
        Key::Enter => if only_alt(k.mods) || only_shift(k.mods) {
            EditAction::NewLine
        } else {
            EditAction::Submit
        },
        Key::Left => if only_alt(k.mods) || only_ctrl(k.mods) {
            EditAction::WordLeft
        } else {
            EditAction::Left
        },
        Key::Right => if only_alt(k.mods) || only_ctrl(k.mods) {
            EditAction::WordRight
        } else {
            EditAction::Right
        },
        Key::Home => EditAction::Home,
        Key::End => EditAction::End,
        Key::Backspace => EditAction::Backspace,
        Key::Delete => EditAction::Delete,
        Key::Other => EditAction::Ignore,
    }
}

/// The meaning of a key press.
pub fn classify_key(k: KeyPress) -> (r: EditAction)
    ensures
        r == key_action(k),
{
    let m = k.mods;
    let ctrl_only = m.ctrl && !m.alt && !m.shift && !m.other;
    let alt_only = !m.ctrl && m.alt && !m.shift && !m.other;
    let shift_only = !m.ctrl && !m.alt && m.shift && !m.other;
    let none = !m.ctrl && !m.alt && !m.shift && !m.other;
    match k.key {
        Key::Char(c) => if c == 'c' && ctrl_only {
            EditAction::Quit
        } else if c == 'a' && ctrl_only {
            EditAction::Home
        } else if c == 'e' && ctrl_only {
            EditAction::End
        } else if none || shift_only {
            EditAction::Insert(c)
        } else {
            EditAction::Ignore
        },
        Key::Esc => EditAction::Quit,
        Key::Enter => if alt_only || shift_only {
            EditAction::NewLine
        } else {
            EditAction::Submit
        },
        Key::Left => if alt_only || ctrl_only {
            EditAction::WordLeft
        } else {
            EditAction::Left
        },
        Key::Right => if alt_only || ctrl_only {
            EditAction::WordRight
        } else {
            EditAction::Right
        },
        Key::Home => EditAction::Home,
        Key::End => EditAction::End,
        Key::Backspace => EditAction::Backspace,
        Key::Delete => EditAction::Delete,
        Key::Other => EditAction::Ignore,
    }
}

/// What the input line becomes under an action: text and cursor.
pub open spec fn edit_step(v: (Seq<char>, nat), a: EditAction) -> (Seq<char>, nat) {
    let (s, c) = v;
    match a {
        EditAction::NewLine => (s.insert(c as int, '\n'), c + 1),
        EditAction::Insert(ch) => (s.insert(c as int, ch), c + 1),
        EditAction::Submit => (Seq::empty(), 0),
        EditAction::WordLeft => (s, word_left(s, c as int) as nat),
        EditAction::WordRight => (s, word_right(s, c as int) as nat),
        EditAction::Left => (s, if c > 0 {
            (c - 1) as nat
        } else {
            0
        }),
        EditAction::Right => (s, if c < s.len() {
            c + 1
        } else {
            c
        }),
        EditAction::Home => (s, 0),
        EditAction::End => (s, s.len()),
        EditAction::Backspace => if c > 0 {
            (s.remove(c - 1), (c - 1) as nat)
        } else {
            v
        },
        EditAction::Delete => if c < s.len() {
            (s.remove(c as int), c)
        } else {
            v
        },
        EditAction::Quit | EditAction::Ignore => v,
    }
}

/// What a key press leads to: the session goes on, a line is submitted, or
/// the user quits.
pub enum KeyOutcome {
    Continue,
    Submit(String),
    Quit,
}

/// The outcome of an action on a line holding `s`: quitting quits; submitting
/// hands over the trimmed line when something is left of it.
pub open spec fn outcome_of(s: Seq<char>, a: EditAction, o: KeyOutcome) -> bool {
    match a {
        EditAction::Quit => o is Quit,
        EditAction::Submit => if trim(s).len() > 0 {
            o matches KeyOutcome::Submit(t) && t@ == trim(s)
        } else {
            o is Continue
        },
        _ => o is Continue,
    }
}

/// Applies a key press to the input line.
pub fn handle_key(state: &mut InputState, k: KeyPress) -> (r: KeyOutcome)
    ensures
        final(state)@ == edit_step(old(state)@, key_action(k)),
        outcome_of(old(state)@.0, key_action(k), r),
{
    let a = classify_key(k);
    match a {
        EditAction::Quit | EditAction::Ignore => {
            if a == EditAction::Quit {
                KeyOutcome::Quit
            } else {
                KeyOutcome::Continue
            }
        },
        EditAction::NewLine => {
            state.insert_char('\n');
            KeyOutcome::Continue
        },
        EditAction::Insert(c) => {
            state.insert_char(c);
            KeyOutcome::Continue
        },
        EditAction::Submit => {
            let text = state.text();
            let trimmed = trim_chars(&chars_of(text.as_str()));
            state.clear();
            if trimmed.len() > 0 {
                KeyOutcome::Submit(string_of(&trimmed))
            } else {
                KeyOutcome::Continue
            }
        },
        EditAction::WordLeft => {
            state.move_word_left();
            KeyOutcome::Continue
        },
        EditAction::WordRight => {
            state.move_word_right();
            KeyOutcome::Continue
        },
        EditAction::Left => {
            state.move_left();
            KeyOutcome::Continue
        },
        EditAction::Right => {
            state.move_right();
            KeyOutcome::Continue
        },
        EditAction::Home => {
            state.move_home();
            KeyOutcome::Continue
        },
        EditAction::End => {
            state.move_end();
            KeyOutcome::Continue
        },
        EditAction::Backspace => {
            state.delete_prev_char();
            KeyOutcome::Continue
        },
        EditAction::Delete => {
            state.delete_next_char();
            KeyOutcome::Continue
        },
    }
}

/// `v` held between `lo` and `hi`.
pub open spec fn clamp_nat(v: nat, lo: nat, hi: nat) -> nat {
    if v < lo {
        lo
    } else if v > hi {
        hi
    } else {
        v
    }
}

/// The height of the input box for a text of `total_lines` lines: three
/// rows more, between 4 and 13.
pub fn input_box_height(total_lines: u16) -> (r: u16)
    requires
        total_lines <= 0xfffc,
    ensures
        r == clamp_nat((total_lines + 3) as nat, 4, 13),
{
    let h = total_lines + 3;
    if h < 4 {
        4
    } else if h > 13 {
        13
    } else {
        h
    }
}

/// The height of an information box for `content`: its number of lines, cut
/// to 16 bits, plus four rows, between 6 and 20.
pub open spec fn info_box_height(content: Seq<char>) -> nat {
    clamp_nat(text_lines(content).len() % 0x10000 + 4, 6, 20)
}

/// The height of an information box showing `content`.
pub fn info_view_height(content: &str) -> (r: u16)
    requires
        text_lines(content@).len() % 0x10000 + 4 <= 0xffff,
    ensures
        r == info_box_height(content@),
{
    let n = line_count(content);
    let low: u16 = (n % 0x10000) as u16;
    let h = low + 4;
    if h < 6 {
        6
    } else if h > 20 {
        20
    } else {
        h
    }
}

/// The text of an information box: the content and how to leave.
pub fn info_view_body(content: &str) -> (r: String)
    ensures
        r@ == content@ + "\n\nPresiona Esc para volver"@,
{
    let mut s = owned(content);
    push_str(&mut s, "\n\nPresiona Esc para volver");
    s
}

/// The title of an information box, padded by a space on each side.
pub fn info_view_title(title: &str) -> (r: String)
    ensures
        r@ == " "@ + title@ + " "@,
{
    let mut s = owned(" ");
    push_str(&mut s, title);
    push_str(&mut s, " ");
    s
}

/// The status line under the input box.
pub open spec fn metrics_text(u: Usage, info: SessionInfo) -> Seq<char> {
    "  "@ + usage_line(u) + "  |  Modelo: "@ + info.model@ + " ("@ + info.provider@ + ")"@
}

/// The status line under the input box: usage so far, model and provider.
pub fn metrics_line(usage: &Usage, info: &SessionInfo) -> (r: String)
    ensures
        r@ == metrics_text(*usage, *info),
{
    let mut s = owned("  ");
    let u = crate::usage::session_usage_text(usage);
    push_str(&mut s, u.as_str());
    push_str(&mut s, "  |  Modelo: ");
    push_str(&mut s, info.model.as_str());
    push_str(&mut s, " (");
    push_str(&mut s, info.provider.as_str());
    push_str(&mut s, ")");
    s
}

/// How a sent prompt is echoed above the answer.
pub fn prompt_echo(prompt: &str) -> (r: String)
    ensures
        r@ == "❯ "@ + prompt@,
{
    let mut s = owned("❯ ");
    push_str(&mut s, prompt);
    s
}

/// The rule drawn before an echoed prompt.
pub fn prompt_rule() -> (r: &'static str)
    ensures
        r@ == "────────────────────────────────────────"@,
{
    "────────────────────────────────────────"
}

/// What the session does with a submitted line.
pub enum TuiAction {
    /// Send a message to the agent and show its answer.
    Send(String),
    /// Show an information box.
    Show { title: String, body: String },
    /// Open the configuration editor.
    EditConfig,
    /// Clear the screen.
    ClearScreen,
    /// Start a new conversation.
    NewConversation,
    /// End the session.
    Exit,
}

/// Whether `a` shows a box with the given title and body.
pub open spec fn shows(a: TuiAction, title: Seq<char>, body: Seq<char>) -> bool {
    a matches TuiAction::Show { title: t, body: b } && t@ == title && b@ == body
}

/// What each command asks of the session.
pub open spec fn planned(c: Command, info: SessionInfo, u: Usage, a: TuiAction) -> bool {
    match c {
        Command::Message(m) => a matches TuiAction::Send(s) && s@ == m@,
        Command::Help => shows(a, "Ayuda"@, help_message()),
        Command::Status => shows(a, "Estado de la sesión"@, status_message(info, u)),
        Command::Tools => shows(a, "Herramientas"@, tools_message()),
        Command::Config => a is EditConfig,
        Command::ConfigShow => shows(a, "Configuración"@, config_message(info)),
        Command::Clear => a is ClearScreen,
        Command::New => a is NewConversation,
        Command::Exit => a is Exit,
        Command::Unknown(x) => shows(a, "Comando no reconocido"@, unknown_message(x@)),
    }
}

/// What the session does with a parsed command.
pub fn plan_command(cmd: Command, info: &SessionInfo, usage: &Usage) -> (r: TuiAction)
    ensures
        planned(cmd, *info, *usage, r),
{
    match cmd {
        Command::Message(m) => TuiAction::Send(m),
        Command::Help => TuiAction::Show { title: owned("Ayuda"), body: owned(help_text()) },
        Command::Status => TuiAction::Show {
            title: owned("Estado de la sesión"),
            body: status_text(info, usage),
        },
        Command::Tools => TuiAction::Show { title: owned("Herramientas"), body: owned(tools_text()) },
        Command::Config => TuiAction::EditConfig,
        Command::ConfigShow => TuiAction::Show {
            title: owned("Configuración"),
            body: config_text(info),
        },
        Command::Clear => TuiAction::ClearScreen,
        Command::New => TuiAction::NewConversation,
        Command::Exit => TuiAction::Exit,
        Command::Unknown(x) => TuiAction::Show {
            title: owned("Comando no reconocido"),
            body: unknown_text(x.as_str()),
        },
    }
}

/// The note shown after asking for a new conversation, from the agent's
/// reply: its own message, or why the reset could not be confirmed (`shown`
/// is how an unexpected reply prints).
pub open spec fn reset_note(reply: Option<AgentEvent>, shown: Seq<char>) -> Seq<char> {
    match reply {
        Some(AgentEvent::SystemMessage(m)) => m@,
        Some(_) => "No se pudo reiniciar la conversación: "@ + shown,
        None => "No se pudo reiniciar la conversación: el agente terminó."@,
    }
}

/// The note shown after asking for a new conversation.
pub fn reset_reply_text(reply: Option<AgentEvent>, shown: &str) -> (r: String)
    ensures
        r@ == reset_note(reply, shown@),
{
    match reply {
        Some(AgentEvent::SystemMessage(m)) => m,
        Some(_) => {
            let mut s = owned("No se pudo reiniciar la conversación: ");
            push_str(&mut s, shown);
            s
        },
        None => owned("No se pudo reiniciar la conversación: el agente terminó."),
    }
}

/// What an event of a streamed answer does to the renderer state, the
/// session usage, and the screen; and whether the answer is over. Text and
/// reasoning are rendered; the session usage is taken over; an error ends
/// the answer with `Error: <message>` on a line of its own; the end of the
/// stream ends it and takes over the usage; anything else changes nothing.
pub open spec fn stream_display(st: MdView, u: Usage, ev: AgentEvent) -> (
    MdView,
    Usage,
    Seq<crate::render::Piece>,
    bool,
) {
    match ev {
        AgentEvent::Text(t) => {
            let (s1, o1) = write_chunk_spec(st, t@);
            (s1, u, o1, false)
        },
        AgentEvent::Reasoning(t) => {
            let (s1, o1) = write_reasoning_spec(st, t@);
            (s1, u, o1, false)
        },
        AgentEvent::SessionUsage(v) => (st, v, Seq::empty(), false),
        AgentEvent::Error(e) => {
            let (s1, o1) = flush_final_spec(st);
            (s1, u, o1 + newline() + piece("Error: "@ + e@, plain()) + newline(), true)
        },
        AgentEvent::StreamEnd { usage: v, .. } => {
            let (s1, o1) = flush_final_spec(st);
            (s1, v, o1 + newline(), true)
        },
        _ => (st, u, Seq::empty(), false),
    }
}

/// Shows one event of a streamed answer; returns what to print and whether
/// the answer is over.
pub fn show_stream_event(
    renderer: &mut MarkdownStreamProcessor,
    session_usage: &mut Usage,
    event: AgentEvent,
) -> (r: (Vec<Span>, bool))
    requires
        old(renderer).wf(),
    ensures
        final(renderer).wf(),
        ({
            let (s, u, o, done) = stream_display(old(renderer)@, *old(session_usage), event);
            final(renderer)@ == s && *final(session_usage) == u && pieces(r.0@) == o && r.1
                == done
        }),
{
    match event {
        AgentEvent::Text(t) => {
            let out = renderer.write_chunk(t.as_str());
            (out, false)
        },
        AgentEvent::Reasoning(t) => {
            let out = renderer.write_reasoning_chunk(t.as_str());
            (out, false)
        },
        AgentEvent::SessionUsage(v) => {
            *session_usage = v;
            (Vec::new(), false)
        },
        AgentEvent::Error(e) => {
            let mut out = renderer.flush_final();
            emit_newline(&mut out);
            let mut line = owned("Error: ");
            push_str(&mut line, e.as_str());
            crate::render::emit(&mut out, line, make_style(Tone::Plain, false, false, false, false));
            emit_newline(&mut out);
            (out, true)
        },
        AgentEvent::StreamEnd { usage: v, .. } => {
            let mut out = renderer.flush_final();
            emit_newline(&mut out);
            *session_usage = v;
            (out, true)
        },
        _ => (Vec::new(), false),
    }
}

/// A submitted line goes to the agent exactly when it is a message: it does
/// not start with `/`, or it starts with `//`. What is sent is the trimmed
/// line, without the first `/` of a `//`.
pub proof fn law_only_messages_are_sent(
    line: Seq<char>,
    c: Command,
    info: SessionInfo,
    u: Usage,
    a: TuiAction,
)
    requires
        crate::commands::parse_result(line, c),
        planned(c, info, u, a),
    ensures
        ({
            let t = trim(line);
            let slash = t.len() > 0 && t[0] == '/';
            let escaped = t.len() >= 2 && t[1] == '/';
            &&& (a is Send <==> (!slash || escaped))
            &&& (a matches TuiAction::Send(m) ==> m@ == (if slash {
                t.skip(1)
            } else {
                t
            }))
        }),
{
}

/// Arrows move by words with Alt alone or Ctrl alone, and by characters
/// otherwise, alike to the left and to the right.
pub proof fn law_arrow_keys(m: Modifiers)
    ensures
        ({
            let word = (m.ctrl && !m.alt && !m.shift && !m.other) || (!m.ctrl && m.alt && !m.shift
                && !m.other);
            &&& key_action(KeyPress { key: Key::Left, mods: m }) == (if word {
                EditAction::WordLeft
            } else {
                EditAction::Left
            })
            &&& key_action(KeyPress { key: Key::Right, mods: m }) == (if word {
                EditAction::WordRight
            } else {
                EditAction::Right
            })
        }),
{
}

/// What the other keys do: Esc quits with any modifiers, and so does Ctrl+C
/// alone; Enter breaks the line with Alt alone or Shift alone and submits it
/// otherwise; Home and Ctrl+A alone go to the start, End and Ctrl+E alone to
/// the end; Backspace and Delete erase; a character typed alone or with Shift
/// alone is inserted as it is (Ctrl+C, Ctrl+A and Ctrl+E aside, a character
/// with any other modifiers is ignored).
pub proof fn law_other_keys(m: Modifiers, c: char)
    ensures
        ({
            let ctrl = m.ctrl && !m.alt && !m.shift && !m.other;
            let alt = !m.ctrl && m.alt && !m.shift && !m.other;
            let shift = !m.ctrl && !m.alt && m.shift && !m.other;
            let none = !m.ctrl && !m.alt && !m.shift && !m.other;
            &&& key_action(KeyPress { key: Key::Esc, mods: m }) == EditAction::Quit
            &&& key_action(KeyPress { key: Key::Enter, mods: m }) == (if alt || shift {
                EditAction::NewLine
            } else {
                EditAction::Submit
            })
            &&& key_action(KeyPress { key: Key::Home, mods: m }) == EditAction::Home
            &&& key_action(KeyPress { key: Key::End, mods: m }) == EditAction::End
            &&& key_action(KeyPress { key: Key::Backspace, mods: m }) == EditAction::Backspace
            &&& key_action(KeyPress { key: Key::Delete, mods: m }) == EditAction::Delete
            &&& key_action(KeyPress { key: Key::Other, mods: m }) == EditAction::Ignore
            &&& key_action(KeyPress { key: Key::Char(c), mods: m }) == (if ctrl && c == 'c' {
                EditAction::Quit
            } else if ctrl && c == 'a' {
                EditAction::Home
            } else if ctrl && c == 'e' {
                EditAction::End
            } else if none || shift {
                EditAction::Insert(c)
            } else {
                EditAction::Ignore
            })
        }),
{
}

} // verus!

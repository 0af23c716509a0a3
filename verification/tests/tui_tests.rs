use typhon::agent::AgentEvent;
use typhon::commands::{parse, SessionInfo};
use typhon::input::InputState;
use typhon::markdown::MarkdownStreamProcessor;
use typhon::tui::{
    classify_key, handle_key, info_view_body, info_view_height, info_view_title,
    input_box_height, metrics_line, plan_command, prompt_echo, reset_reply_text,
    show_stream_event, EditAction, Key, KeyOutcome, KeyPress, Modifiers, TuiAction,
};
use typhon::usage::Usage;

fn mods(ctrl: bool, alt: bool, shift: bool) -> Modifiers {
    Modifiers {
        ctrl,
        alt,
        shift,
        other: false,
    }
}

fn press(key: Key, m: Modifiers) -> KeyPress {
    KeyPress { key, mods: m }
}

fn plain(key: Key) -> KeyPress {
    press(key, mods(false, false, false))
}

fn info() -> SessionInfo {
    SessionInfo::from_paths(
        "Gemini".to_string(),
        "gemini-2.0-flash".to_string(),
        "0.70".to_string(),
        None,
        10,
        "/home".to_string(),
        "/cfg/config.toml".to_string(),
        "/cfg/system_prompt.md".to_string(),
        true,
    )
}

#[test]
fn key_meanings() {
    assert_eq!(classify_key(press(Key::Char('c'), mods(true, false, false))), EditAction::Quit);
    assert_eq!(classify_key(plain(Key::Esc)), EditAction::Quit);
    assert_eq!(classify_key(press(Key::Enter, mods(false, true, false))), EditAction::NewLine);
    assert_eq!(classify_key(press(Key::Enter, mods(false, false, true))), EditAction::NewLine);
    assert_eq!(classify_key(plain(Key::Enter)), EditAction::Submit);
    assert_eq!(classify_key(press(Key::Enter, mods(true, false, false))), EditAction::Submit);
    assert_eq!(classify_key(press(Key::Left, mods(true, false, false))), EditAction::WordLeft);
    assert_eq!(classify_key(press(Key::Right, mods(false, true, false))), EditAction::WordRight);
    assert_eq!(classify_key(press(Key::Left, mods(false, false, true))), EditAction::Left);
    assert_eq!(classify_key(press(Key::Char('a'), mods(true, false, false))), EditAction::Home);
    assert_eq!(classify_key(press(Key::Char('e'), mods(true, false, false))), EditAction::End);
    assert_eq!(classify_key(press(Key::Char('X'), mods(false, false, true))), EditAction::Insert('X'));
    assert_eq!(classify_key(press(Key::Char('x'), mods(true, false, false))), EditAction::Ignore);
    assert_eq!(classify_key(plain(Key::Other)), EditAction::Ignore);
}

#[test]
fn typing_and_submitting_a_line() {
    let mut st = InputState::new();
    for c in "  hola mundo ".chars() {
        assert!(matches!(handle_key(&mut st, plain(Key::Char(c))), KeyOutcome::Continue));
    }
    match handle_key(&mut st, plain(Key::Enter)) {
        KeyOutcome::Submit(t) => assert_eq!(t, "hola mundo"),
        _ => panic!("expected a submitted line"),
    }
    assert_eq!(st.text(), "");
    assert_eq!(st.cursor(), 0);
}

#[test]
fn blank_lines_are_not_submitted() {
    let mut st = InputState::new();
    handle_key(&mut st, plain(Key::Char(' ')));
    assert!(matches!(handle_key(&mut st, plain(Key::Enter)), KeyOutcome::Continue));
    assert_eq!(st.text(), "");
}

#[test]
fn editing_keys_move_and_erase() {
    let mut st = InputState::new();
    for c in "abc def".chars() {
        handle_key(&mut st, plain(Key::Char(c)));
    }
    handle_key(&mut st, press(Key::Left, mods(true, false, false)));
    assert_eq!(st.cursor(), 4);
    handle_key(&mut st, plain(Key::Backspace));
    assert_eq!(st.text(), "abcdef");
    handle_key(&mut st, plain(Key::Home));
    handle_key(&mut st, plain(Key::Delete));
    assert_eq!(st.text(), "bcdef");
    handle_key(&mut st, plain(Key::End));
    assert_eq!(st.cursor(), 5);
    handle_key(&mut st, press(Key::Enter, mods(false, true, false)));
    assert_eq!(st.text(), "bcdef\n");
    assert!(matches!(handle_key(&mut st, plain(Key::Esc)), KeyOutcome::Quit));
    assert_eq!(st.text(), "bcdef\n");
}

#[test]
fn box_heights() {
    assert_eq!(input_box_height(1), 4);
    assert_eq!(input_box_height(5), 8);
    assert_eq!(input_box_height(40), 13);
    assert_eq!(info_view_height("una"), 6);
    assert_eq!(info_view_height("1\n2\n3\n4\n5\n6\n7\n8\n9\n10"), 14);
    let long = "x\n".repeat(50);
    assert_eq!(info_view_height(&long), 20);
}

#[test]
fn info_box_texts() {
    assert_eq!(info_view_body("hola"), "hola\n\nPresiona Esc para volver");
    assert_eq!(info_view_title("Ayuda"), " Ayuda ");
}

#[test]
fn status_line_and_echo() {
    assert_eq!(
        metrics_line(&Usage::default(), &info()),
        "  Sin tokens reportados todavía  |  Modelo: gemini-2.0-flash (Gemini)"
    );
    assert_eq!(prompt_echo("hola"), "❯ hola");
}

#[test]
fn commands_become_actions() {
    let i = info();
    let u = Usage::default();
    assert!(matches!(plan_command(parse("hola"), &i, &u), TuiAction::Send(m) if m == "hola"));
    match plan_command(parse("/help"), &i, &u) {
        TuiAction::Show { title, body } => {
            assert_eq!(title, "Ayuda");
            assert!(body.starts_with("Comandos de Typhon:"));
        }
        _ => panic!("expected the help box"),
    }
    match plan_command(parse("/wat"), &i, &u) {
        TuiAction::Show { title, body } => {
            assert_eq!(title, "Comando no reconocido");
            assert!(body.contains("'/wat'"));
        }
        _ => panic!("expected the unknown-command box"),
    }
    match plan_command(parse("/config show"), &i, &u) {
        TuiAction::Show { title, body } => {
            assert_eq!(title, "Configuración");
            assert!(body.contains("/cfg/config.toml"));
        }
        _ => panic!("expected the configuration box"),
    }
    assert!(matches!(plan_command(parse("/config"), &i, &u), TuiAction::EditConfig));
    assert!(matches!(plan_command(parse("/clear"), &i, &u), TuiAction::ClearScreen));
    assert!(matches!(plan_command(parse("/new"), &i, &u), TuiAction::NewConversation));
    assert!(matches!(plan_command(parse("/exit"), &i, &u), TuiAction::Exit));
}

#[test]
fn reset_replies() {
    assert_eq!(
        reset_reply_text(Some(AgentEvent::SystemMessage("listo".to_string())), "x"),
        "listo"
    );
    assert_eq!(
        reset_reply_text(Some(AgentEvent::Cancelled), "Cancelled"),
        "No se pudo reiniciar la conversación: Cancelled"
    );
    assert_eq!(
        reset_reply_text(None, ""),
        "No se pudo reiniciar la conversación: el agente terminó."
    );
}

#[test]
fn stream_events_are_shown_until_the_end() {
    let mut r = MarkdownStreamProcessor::new(80);
    let mut usage = Usage::default();
    let (out, done) = show_stream_event(&mut r, &mut usage, AgentEvent::Text("Hola\n".to_string()));
    assert!(!done);
    assert_eq!(out.iter().map(|s| s.text.as_str()).collect::<String>(), "Hola\n");
    let total = Usage {
        input_tokens: 1,
        output_tokens: 2,
        total_tokens: 3,
        ..Usage::default()
    };
    let (out, done) = show_stream_event(&mut r, &mut usage, AgentEvent::SessionUsage(total));
    assert!(out.is_empty());
    assert!(!done);
    assert_eq!(usage, total);
    let (out, done) = show_stream_event(&mut r, &mut usage, AgentEvent::Error("boom".to_string()));
    assert!(done);
    assert_eq!(
        out.iter().map(|s| s.text.as_str()).collect::<String>(),
        "\n\nError: boom\n"
    );
}

#[test]
fn stream_end_takes_over_the_session_usage() {
    let mut r = MarkdownStreamProcessor::new(80);
    let mut usage = Usage::default();
    let final_usage = Usage {
        total_tokens: 9,
        ..Usage::default()
    };
    let (_, done) = show_stream_event(
        &mut r,
        &mut usage,
        AgentEvent::StreamEnd {
            duration: std::time::Duration::from_millis(5),
            response_len: 3,
            usage: final_usage,
        },
    );
    assert!(done);
    assert_eq!(usage, final_usage);
}

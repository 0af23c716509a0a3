use typhon::commands::{parse, Command};
use typhon::input::InputState;
use typhon::markdown::{format_cell_text, get_visible_len, MarkdownStreamProcessor};

#[test]
fn commands_match_in_any_ascii_case() {
    for line in ["/config show", "/CONFIG SHOW", "/Config sHoW"] {
        assert_eq!(parse(line), Command::ConfigShow);
    }
    for line in ["/exit", "/EXIT", "/Quit"] {
        assert_eq!(parse(line), Command::Exit);
    }
}

#[test]
fn word_moves_stop_at_each_word() {
    let mut st = InputState::new();
    for c in "hola mundo".chars() {
        st.insert_char(c);
    }
    st.move_home();
    st.move_word_right();
    assert_eq!(st.cursor(), 5);
    st.move_word_right();
    assert_eq!(st.cursor(), 10);
    st.move_word_left();
    assert_eq!(st.cursor(), 5);
    st.move_word_left();
    assert_eq!(st.cursor(), 0);
}

#[test]
fn display_lines_fit_and_keep_the_text() {
    let mut st = InputState::new();
    let text = "una línea bastante larga\ncon otra más";
    for c in text.chars() {
        st.insert_char(c);
    }
    let (shown, _, _, lines) = st.format_display_lines(12);
    assert!(shown.starts_with("❯ "));
    assert_eq!(shown.split('\n').count(), lines as usize);
    for line in shown.split('\n') {
        assert!(line.chars().count() <= 10);
    }
    let strip = |s: &str| s.chars().filter(|c| *c != '\n').collect::<String>();
    assert_eq!(strip(&shown), format!("❯ {}", strip(text)));
}

#[test]
fn visible_length_counts() {
    assert_eq!(get_visible_len("a*b_c`d", false), 4);
    assert_eq!(get_visible_len("a*b_c`d", true), 7);
    assert!(get_visible_len("~~x~~", false) <= 5);
}

#[test]
fn cut_cells_keep_a_prefix() {
    let (t, w) = format_cell_text("**abcdef**", 4);
    assert!(t.ends_with('…'));
    let body: String = t.chars().take(t.chars().count() - 1).collect();
    assert!("**abcdef**".starts_with(&body));
    assert_eq!(w, get_visible_len(&t, false));
    assert!(w <= 4);
}

#[test]
fn a_chunk_ending_in_newline_leaves_a_fresh_line() {
    let mut p = MarkdownStreamProcessor::new(80);
    let _ = p.write_reasoning_chunk("pienso");
    let _ = p.write_chunk("# Título\n");
    // A fresh line: the next word starts at column zero, with no header style.
    let out = p.write_chunk("uno\n");
    let text: String = out.iter().map(|s| s.text.as_str()).collect();
    assert_eq!(text, "uno\n");
    assert!(!out[0].style.bold);
}

#[test]
fn code_fences_toggle_only_outside_tables() {
    let mut p = MarkdownStreamProcessor::new(40);
    let open: String = p.write_chunk("```\n").iter().map(|s| s.text.as_str()).collect();
    assert!(open.starts_with('╭'));
    let close: String = p.write_chunk("```\n").iter().map(|s| s.text.as_str()).collect();
    assert!(close.starts_with('╰'));
}

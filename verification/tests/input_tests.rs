use typhon::input::InputState;
use typhon::reasoning::{
    format_reasoning_effort, reasoning_from_menu, reasoning_menu_default, reasoning_menu_items,
    ReasoningEffort,
};

fn typed(s: &str) -> InputState {
    let mut st = InputState::new();
    for c in s.chars() {
        st.insert_char(c);
    }
    st
}

#[test]
fn insert_then_backspace_restores() {
    let mut st = typed("hola");
    st.move_left();
    st.insert_char('X');
    assert_eq!(st.text(), "holXa");
    st.delete_prev_char();
    assert_eq!(st.text(), "hola");
    assert_eq!(st.cursor(), 3);
}

#[test]
fn cursor_stays_in_the_text() {
    let mut st = InputState::new();
    st.move_left();
    st.delete_prev_char();
    st.delete_next_char();
    st.move_right();
    assert_eq!(st.cursor(), 0);
    assert_eq!(st.char_count(), 0);
}

#[test]
fn word_moves() {
    let mut st = typed("uno  dos tres");
    st.move_word_left();
    assert_eq!(st.cursor(), 9);
    st.move_word_left();
    assert_eq!(st.cursor(), 5);
    st.move_home();
    st.move_word_right();
    assert_eq!(st.cursor(), 5);
    st.move_end();
    st.move_word_right();
    assert_eq!(st.cursor(), 13);
}

#[test]
fn display_lines_wrap_and_break() {
    let st = typed("ab\ncd");
    let (text, x, y, lines) = st.format_display_lines(80);
    assert_eq!(text, "❯ ab\ncd");
    assert_eq!((x, y, lines), (2, 1, 2));
    let narrow = typed("abcdefghijk");
    let (_, _, _, lines) = narrow.format_display_lines(5);
    assert!(lines >= 2);
}

#[test]
fn clearing_empties_the_line() {
    let mut st = typed("algo");
    st.clear();
    assert_eq!(st.text(), "");
    assert_eq!(st.cursor(), 0);
}

#[test]
fn reasoning_menu() {
    let items = reasoning_menu_items();
    assert_eq!(items[0], "Automático (predeterminado)");
    assert_eq!(items.len(), 7);
    assert_eq!(reasoning_menu_default(None), 0);
    let d = reasoning_menu_default(Some(ReasoningEffort::High));
    assert_eq!(reasoning_from_menu(d), Some(ReasoningEffort::High));
    assert_eq!(reasoning_from_menu(0), None);
    assert_eq!(format_reasoning_effort(None), "automático");
    assert_eq!(format_reasoning_effort(Some(ReasoningEffort::Off)), "none");
    assert_eq!(ReasoningEffort::Medium.as_str(), "medium");
}

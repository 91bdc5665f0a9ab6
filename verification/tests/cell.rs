use simple_csv_reader::matcell::cursor::CursorState;
use simple_csv_reader::matcell::value::{
    control, first_word_exec, graphemes_of, last_word_exec, next_end_of_word_exec,
    previous_start_of_word_exec, white_space,
};
use simple_csv_reader::matcell::{
    cell_step, CellAction, CellConfig, CellEvent, CellKey, CellState, Click,
};

fn cfg() -> CellConfig {
    CellConfig { pos: 7, is_secure: false, editable: true, has_on_paste: false, has_on_submit: false }
}

fn focused(cursor: CursorState) -> CellState {
    CellState {
        focused: true,
        dragging: false,
        pasting: None,
        cursor,
        shift: false,
        command: false,
        jump: false,
    }
}

fn value(s: &str) -> Vec<String> {
    graphemes_of(s)
}

fn text(v: &Vec<String>) -> String {
    v.concat()
}

fn publish(a: &CellAction) -> Option<(usize, String)> {
    match a {
        CellAction::Publish(p, s) => Some((*p, s.clone())),
        _ => None,
    }
}

fn clipboard_write(actions: &[CellAction]) -> Option<String> {
    actions.iter().find_map(|a| match a {
        CellAction::WriteClipboard(s) => Some(s.clone()),
        _ => None,
    })
}

#[test]
fn typed_character_goes_in_at_the_cursor() {
    let mut v = value("ab");
    let mut st = focused(CursorState::Index(1));
    let (actions, captured) = cell_step(&cfg(), &mut v, &mut st, CellEvent::Char('x'), None);
    assert!(captured);
    assert_eq!(text(&v), "axb");
    assert_eq!(st.cursor, CursorState::Index(2));
    assert_eq!(publish(&actions[0]), Some((7, "axb".to_string())));
    assert!(matches!(actions[1], CellAction::RestartBlink));
}

#[test]
fn typed_character_replaces_the_selection() {
    let mut v = value("hello");
    let mut st = focused(CursorState::Selection { start: 1, end: 4 });
    cell_step(&cfg(), &mut v, &mut st, CellEvent::Char('_'), None);
    assert_eq!(text(&v), "h_o");
    assert_eq!(st.cursor, CursorState::Index(2));
}

#[test]
fn combining_mark_joins_the_cluster_before_it() {
    let mut v = value("e");
    let mut st = focused(CursorState::Index(1));
    cell_step(&cfg(), &mut v, &mut st, CellEvent::Char('\u{301}'), None);
    assert_eq!(v.len(), 1);
    assert_eq!(text(&v), "e\u{301}");
}

#[test]
fn unfocused_cell_ignores_typing() {
    let mut v = value("ab");
    let mut st = focused(CursorState::Index(1));
    st.focused = false;
    let (actions, captured) = cell_step(&cfg(), &mut v, &mut st, CellEvent::Char('x'), None);
    assert!(!captured);
    assert!(actions.is_empty());
    assert_eq!(text(&v), "ab");
}

#[test]
fn copy_writes_the_selection_to_the_clipboard() {
    let mut v = value("hello world");
    let mut st = focused(CursorState::Selection { start: 6, end: 11 });
    st.command = true;
    let (actions, captured) =
        cell_step(&cfg(), &mut v, &mut st, CellEvent::KeyPressed(CellKey::C), None);
    assert!(captured);
    assert_eq!(clipboard_write(&actions), Some("world".to_string()));
    assert_eq!(text(&v), "hello world");
    assert_eq!(st.cursor, CursorState::Selection { start: 6, end: 11 });
}

#[test]
fn copy_without_selection_writes_nothing() {
    let mut v = value("abc");
    let mut st = focused(CursorState::Index(2));
    st.command = true;
    let (actions, _) = cell_step(&cfg(), &mut v, &mut st, CellEvent::KeyPressed(CellKey::C), None);
    assert_eq!(clipboard_write(&actions), None);
}

#[test]
fn cut_moves_the_selection_to_the_clipboard() {
    let mut v = value("hello world");
    let mut st = focused(CursorState::Selection { start: 11, end: 5 });
    st.command = true;
    let (actions, _) = cell_step(&cfg(), &mut v, &mut st, CellEvent::KeyPressed(CellKey::X), None);
    assert_eq!(clipboard_write(&actions), Some(" world".to_string()));
    assert_eq!(text(&v), "hello");
    assert_eq!(st.cursor, CursorState::Index(5));
    assert_eq!(publish(actions.last().unwrap()), Some((7, "hello".to_string())));
}

#[test]
fn select_all_then_copy_copies_everything() {
    let mut v = value("a,b");
    let mut st = focused(CursorState::Index(0));
    st.command = true;
    cell_step(&cfg(), &mut v, &mut st, CellEvent::KeyPressed(CellKey::A), None);
    let (actions, _) = cell_step(&cfg(), &mut v, &mut st, CellEvent::KeyPressed(CellKey::C), None);
    assert_eq!(clipboard_write(&actions), Some("a,b".to_string()));
}

#[test]
fn paste_puts_the_clipboard_in_without_control_characters() {
    let mut v = value("ad");
    let mut st = focused(CursorState::Index(1));
    st.command = true;
    let (actions, _) = cell_step(
        &cfg(),
        &mut v,
        &mut st,
        CellEvent::KeyPressed(CellKey::V),
        Some("b\nc".to_string()),
    );
    assert_eq!(text(&v), "abcd");
    assert_eq!(st.cursor, CursorState::Index(3));
    assert_eq!(publish(actions.last().unwrap()), Some((7, "abcd".to_string())));
    // Held down, the key pastes the same text again.
    cell_step(&cfg(), &mut v, &mut st, CellEvent::KeyPressed(CellKey::V), Some("zz".to_string()));
    assert_eq!(text(&v), "abcbcd");
    cell_step(&cfg(), &mut v, &mut st, CellEvent::KeyReleased(CellKey::V), None);
    assert!(st.pasting.is_none());
}

#[test]
fn paste_reported_apart_when_the_cell_asks() {
    let mut v = value("");
    let mut st = focused(CursorState::Index(0));
    st.command = true;
    let mut c = cfg();
    c.has_on_paste = true;
    let (actions, _) =
        cell_step(&c, &mut v, &mut st, CellEvent::KeyPressed(CellKey::V), Some("q".to_string()));
    assert!(matches!(actions.last(), Some(CellAction::Paste(7, s)) if s == "q"));
}

#[test]
fn backspace_and_delete_erase_one_cluster() {
    let mut v = value("abc");
    let mut st = focused(CursorState::Index(2));
    cell_step(&cfg(), &mut v, &mut st, CellEvent::KeyPressed(CellKey::Backspace), None);
    assert_eq!(text(&v), "ac");
    assert_eq!(st.cursor, CursorState::Index(1));
    cell_step(&cfg(), &mut v, &mut st, CellEvent::KeyPressed(CellKey::Delete), None);
    assert_eq!(text(&v), "a");
    assert_eq!(st.cursor, CursorState::Index(1));
    cell_step(&cfg(), &mut v, &mut st, CellEvent::KeyPressed(CellKey::Delete), None);
    assert_eq!(text(&v), "a");
}

#[test]
fn backspace_with_the_jump_key_erases_a_word() {
    let mut v = value("hello world");
    let mut st = focused(CursorState::Index(11));
    st.jump = true;
    cell_step(&cfg(), &mut v, &mut st, CellEvent::KeyPressed(CellKey::Backspace), None);
    assert_eq!(text(&v), "hello ");
}

#[test]
fn arrows_home_and_end_move_and_select() {
    let mut v = value("abcd");
    let mut st = focused(CursorState::Index(2));
    cell_step(&cfg(), &mut v, &mut st, CellEvent::KeyPressed(CellKey::Left), None);
    assert_eq!(st.cursor, CursorState::Index(1));
    cell_step(&cfg(), &mut v, &mut st, CellEvent::KeyPressed(CellKey::End), None);
    assert_eq!(st.cursor, CursorState::Index(4));
    cell_step(&cfg(), &mut v, &mut st, CellEvent::KeyPressed(CellKey::Right), None);
    assert_eq!(st.cursor, CursorState::Index(4));
    cell_step(
        &cfg(),
        &mut v,
        &mut st,
        CellEvent::Modifiers { shift: true, command: false, jump: false },
        None,
    );
    cell_step(&cfg(), &mut v, &mut st, CellEvent::KeyPressed(CellKey::Left), None);
    assert_eq!(st.cursor, CursorState::Selection { start: 4, end: 3 });
    cell_step(&cfg(), &mut v, &mut st, CellEvent::KeyPressed(CellKey::Home), None);
    assert_eq!(st.cursor, CursorState::Selection { start: 4, end: 0 });
}

#[test]
fn word_jumps() {
    let v = value("hello world");
    assert_eq!(previous_start_of_word_exec(&v, 11), 6);
    assert_eq!(previous_start_of_word_exec(&v, 6), 0);
    assert_eq!(next_end_of_word_exec(&v, 0), 5);
    assert_eq!(next_end_of_word_exec(&v, 5), 11);
    assert_eq!(next_end_of_word_exec(&v, 11), 11);
}

#[test]
fn clicks_place_the_cursor_select_a_word_or_everything() {
    let mut v = value("hello world");
    let mut st = focused(CursorState::Index(0));
    st.focused = false;
    let (_, captured) = cell_step(
        &cfg(),
        &mut v,
        &mut st,
        CellEvent::Pressed { over: true, click: Click::Single, at: 3 },
        None,
    );
    assert!(captured);
    assert!(st.focused && st.dragging);
    assert_eq!(st.cursor, CursorState::Index(3));
    cell_step(&cfg(), &mut v, &mut st, CellEvent::Dragged(7), None);
    assert_eq!(st.cursor, CursorState::Selection { start: 3, end: 7 });
    cell_step(&cfg(), &mut v, &mut st, CellEvent::Released, None);
    assert!(!st.dragging);
    cell_step(
        &cfg(),
        &mut v,
        &mut st,
        CellEvent::Pressed { over: true, click: Click::Double, at: 2 },
        None,
    );
    assert_eq!(st.cursor, CursorState::Selection { start: 0, end: 5 });
    cell_step(
        &cfg(),
        &mut v,
        &mut st,
        CellEvent::Pressed { over: true, click: Click::Triple, at: 2 },
        None,
    );
    assert_eq!(st.cursor, CursorState::Selection { start: 0, end: 11 });
}

#[test]
fn click_elsewhere_takes_the_focus_away() {
    let mut v = value("ab");
    let mut st = focused(CursorState::Index(1));
    let (_, captured) = cell_step(
        &cfg(),
        &mut v,
        &mut st,
        CellEvent::Pressed { over: false, click: Click::Single, at: 0 },
        None,
    );
    assert!(!captured);
    assert!(!st.focused);
    assert_eq!(st.cursor, CursorState::Index(1));
}

#[test]
fn escape_gives_up_the_focus_and_enter_submits() {
    let mut v = value("ab");
    let mut st = focused(CursorState::Index(1));
    let mut c = cfg();
    c.has_on_submit = true;
    let (actions, _) = cell_step(&c, &mut v, &mut st, CellEvent::KeyPressed(CellKey::Enter), None);
    assert!(matches!(actions.last(), Some(CellAction::Submit)));
    st.shift = true;
    cell_step(&c, &mut v, &mut st, CellEvent::KeyPressed(CellKey::Escape), None);
    assert!(!st.focused && !st.shift);
}

#[test]
fn tab_is_left_to_the_window() {
    let mut v = value("ab");
    let mut st = focused(CursorState::Index(1));
    let (_, captured) = cell_step(&cfg(), &mut v, &mut st, CellEvent::KeyPressed(CellKey::Tab), None);
    assert!(!captured);
}

#[test]
fn white_space_and_control_match_std() {
    for u in 0u32..0x3100 {
        if let Some(c) = char::from_u32(u) {
            assert_eq!(white_space(c), c.is_whitespace(), "{:x}", u);
            assert_eq!(control(c), c.is_control(), "{:x}", u);
        }
    }
}

#[test]
fn graphemes_join_back_to_the_text() {
    let s = "a\r\nb🇷🇺e\u{301}";
    let g = graphemes_of(s);
    assert_eq!(g, vec!["a", "\r\n", "b", "🇷🇺", "e\u{301}"]);
    assert_eq!(g.concat(), s);
}

#[test]
fn words_are_the_pieces_not_all_white_space() {
    let ws: Vec<String> = vec!["  ", "ab", " ", "cd", "\t\u{3000}"].into_iter().map(String::from).collect();
    assert_eq!(first_word_exec(&ws), Some(1));
    assert_eq!(last_word_exec(&ws), Some(3));
    let blank: Vec<String> = vec![" ", "\n"].into_iter().map(String::from).collect();
    assert_eq!(first_word_exec(&blank), None);
    assert_eq!(last_word_exec(&blank), None);
}

fn message_count(actions: &[CellAction]) -> usize {
    actions
        .iter()
        .filter(|a| matches!(a, CellAction::Publish(..) | CellAction::Paste(..) | CellAction::Submit))
        .count()
}

#[test]
fn typing_before_the_text_publishes_the_whole_new_text() {
    let mut v = value("ab");
    let mut st = focused(CursorState::Index(0));
    let (actions, _) = cell_step(&cfg(), &mut v, &mut st, CellEvent::Char('c'), None);
    assert_eq!(publish(&actions[0]), Some((7, "cab".to_string())));
}

#[test]
fn cell_that_cannot_be_edited_neither_changes_nor_sends() {
    let mut c = cfg();
    c.editable = false;
    let events = [
        CellEvent::Char('z'),
        CellEvent::KeyPressed(CellKey::Backspace),
        CellEvent::KeyPressed(CellKey::Delete),
        CellEvent::KeyPressed(CellKey::Enter),
        CellEvent::Pressed { over: true, click: Click::Single, at: 1 },
    ];
    for ev in events {
        let mut v = value("ab");
        let mut st = focused(CursorState::Index(1));
        let (actions, _) = cell_step(&c, &mut v, &mut st, ev, Some("q".to_string()));
        assert_eq!(text(&v), "ab");
        assert!(actions.is_empty());
    }
}

#[test]
fn each_event_sends_at_most_one_message_and_one_for_each_change() {
    let mut c = cfg();
    c.has_on_submit = true;
    let keys = [
        CellKey::Enter,
        CellKey::Backspace,
        CellKey::Delete,
        CellKey::Left,
        CellKey::C,
        CellKey::X,
        CellKey::V,
        CellKey::A,
        CellKey::Escape,
    ];
    for command in [false, true] {
        for k in keys {
            let mut v = value("abc");
            let mut st = focused(CursorState::Selection { start: 0, end: 2 });
            st.command = command;
            let before = text(&v);
            let (actions, _) =
                cell_step(&c, &mut v, &mut st, CellEvent::KeyPressed(k), Some("zz".to_string()));
            assert!(message_count(&actions) <= 1);
            if text(&v) != before {
                assert_eq!(message_count(&actions), 1);
            }
        }
    }
}

#[test]
fn paste_publishes_the_text_around_the_pasted_part() {
    let mut v = value("abcd");
    let mut st = focused(CursorState::Selection { start: 1, end: 3 });
    st.command = true;
    let (actions, _) =
        cell_step(&cfg(), &mut v, &mut st, CellEvent::KeyPressed(CellKey::V), Some("X\tY".to_string()));
    assert_eq!(text(&v), "aXYd");
    assert_eq!(publish(&actions[1]), Some((7, "aXYd".to_string())));
}

#[test]
fn state_methods_focus_and_place_the_cursor() {
    let mut st = CellState::new();
    assert!(!st.is_focused());
    assert_eq!(st.cursor(), CursorState::Index(0));
    assert!(CellState::focused().is_focused());
    st.focus();
    assert!(st.is_focused());
    assert_eq!(st.cursor(), CursorState::Index(usize::MAX));
    st.move_cursor_to_front();
    assert_eq!(st.cursor(), CursorState::Index(0));
    st.move_cursor_to(3);
    assert_eq!(st.cursor(), CursorState::Index(3));
    st.select_all();
    assert_eq!(st.cursor(), CursorState::Selection { start: 0, end: usize::MAX });
    st.move_cursor_to_end();
    assert_eq!(st.cursor(), CursorState::Index(usize::MAX));
    st.unfocus();
    assert!(!st.is_focused());
}

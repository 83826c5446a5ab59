use psi_cli::clock::Timestamp;
use psi_cli::events::{
    InputAction, KeyCode, KeyEvent, MouseEventKind, PendingInput, Request, Step, Surroundings,
    TerminalEvent,
};
use psi_cli::models::MessageRole;
use psi_cli::state::{App, AppMode};

fn env() -> Surroundings {
    Surroundings {
        now: Timestamp::new(1_700_000_000, 123_000_000, 0).unwrap(),
        home: Some("/home/me".to_string()),
    }
}

fn plain(code: KeyCode) -> KeyEvent {
    KeyEvent { code, ctrl: false, alt: false }
}

fn ctrl(code: KeyCode) -> KeyEvent {
    KeyEvent { code, ctrl: true, alt: false }
}

fn alt(code: KeyCode) -> KeyEvent {
    KeyEvent { code, ctrl: false, alt: true }
}

fn press(app: &mut App, key: KeyEvent) -> Step {
    assert!(app.accepts(key), "{:?}", key);
    app.handle_key(key, &env())
}

fn type_text(app: &mut App, text: &str) {
    for c in text.chars() {
        assert_eq!(press(app, plain(KeyCode::Char(c))), Step::Done(InputAction::Nothing));
    }
}

#[test]
fn a_fresh_interface_is_empty() {
    let app = App::new();
    assert!(app.messages.is_empty());
    assert_eq!(app.input_text, "");
    assert_eq!(app.history_index, -1);
    assert_eq!(app.input_inner_width, 80);
    assert_eq!(app.mode, AppMode::Normal);
    assert!(!app.should_quit);
    assert!(!app.scroll_to_bottom);
}

#[test]
fn typing_and_erasing() {
    let mut app = App::new();
    app.status_message = Some("x".to_string());
    type_text(&mut app, "abd");
    assert_eq!(app.status_message, None);
    assert_eq!((app.input_text.as_str(), app.input_cursor), ("abd", 3));
    press(&mut app, plain(KeyCode::Left));
    type_text(&mut app, "c");
    assert_eq!((app.input_text.as_str(), app.input_cursor), ("abcd", 3));
    press(&mut app, plain(KeyCode::Delete));
    assert_eq!(app.input_text, "abc");
    press(&mut app, plain(KeyCode::Delete));
    assert_eq!(app.input_text, "abc");
    press(&mut app, plain(KeyCode::Backspace));
    assert_eq!((app.input_text.as_str(), app.input_cursor), ("ab", 2));
    press(&mut app, plain(KeyCode::Right));
    assert_eq!(app.input_cursor, 2);
    press(&mut app, ctrl(KeyCode::Char('j')));
    assert_eq!((app.input_text.as_str(), app.input_cursor), ("ab\n", 3));
}

#[test]
fn backspace_takes_back_what_was_typed() {
    let mut app = App::new();
    type_text(&mut app, "ab");
    press(&mut app, plain(KeyCode::Left));
    for c in ['x', 'é', '漢', '🦀'] {
        type_text(&mut app, &c.to_string());
        press(&mut app, plain(KeyCode::Backspace));
        assert_eq!((app.input_text.as_str(), app.input_cursor), ("ab", 1), "{}", c);
    }
}

#[test]
fn left_takes_back_right() {
    let mut app = App::new();
    type_text(&mut app, "ab");
    press(&mut app, plain(KeyCode::Left));
    press(&mut app, plain(KeyCode::Right));
    assert_eq!(app.input_cursor, 2);
    press(&mut app, plain(KeyCode::Left));
    assert_eq!(app.input_cursor, 1);
}

#[test]
fn a_cursor_within_a_character_takes_no_text() {
    let mut app = App::new();
    type_text(&mut app, "é");
    assert_eq!(app.input_cursor, 1);
    assert!(!app.accepts(plain(KeyCode::Char('x'))));
    assert!(app.accepts(plain(KeyCode::Up)));
    assert!(!app.accepts(plain(KeyCode::Delete)));
    assert!(app.accepts(plain(KeyCode::Backspace)));
    assert!(app.accepts(plain(KeyCode::Right)));
    press(&mut app, plain(KeyCode::Right));
    assert!(app.accepts(plain(KeyCode::Char('x'))));
    assert!(!app.accepts(plain(KeyCode::Backspace)));
}

#[test]
fn submitting_hands_the_message_over() {
    let mut app = App::new();
    app.active_input_dir = Some("/in".to_string());
    type_text(&mut app, " hi ");
    let step = press(&mut app, plain(KeyCode::Enter));
    let pending = PendingInput {
        message: " hi ".to_string(),
        filename: "input-1700000000123.txt".to_string(),
        path: Some("/in/input-1700000000123.txt".to_string()),
    };
    assert_eq!(step, Step::Ask(Request::StoreInput(pending.clone())));
    assert_eq!(app.history, vec![" hi ".to_string()]);
    let at = Timestamp::new(1_700_000_001, 0, 0).unwrap();
    let action = app.finish_submit(pending, Some("/real/in/f.txt".to_string()), at);
    assert_eq!(
        action,
        InputAction::Submit {
            message: " hi ".to_string(),
            input_file: Some("/real/in/f.txt".to_string()),
        }
    );
    assert_eq!(app.input_text, "");
    assert_eq!(app.input_cursor, 0);
    assert_eq!(app.messages.len(), 1);
    let m = &app.messages[0];
    assert_eq!(m.role, MessageRole::Input);
    assert_eq!(m.content, " hi ");
    assert_eq!(m.filepath, "/real/in/f.txt");
    assert_eq!(m.filename, "input-1700000000123.txt");
    assert_eq!(m.created_at.as_millis(), 1_700_000_001_000);
    assert_eq!(app.message_line_offsets, vec![4]);
}

#[test]
fn a_message_without_a_directory_is_kept_inline() {
    let mut app = App::new();
    type_text(&mut app, "hi");
    let step = press(&mut app, ctrl(KeyCode::Enter));
    let pending = match step {
        Step::Ask(Request::StoreInput(p)) => p,
        other => panic!("{:?}", other),
    };
    assert_eq!(pending.path, None);
    let action = app.finish_submit(pending, None, env().now);
    assert_eq!(
        action,
        InputAction::Submit { message: "hi".to_string(), input_file: None }
    );
    assert_eq!(app.messages[0].filepath, "user-input");
}

#[test]
fn blank_input_is_not_submitted() {
    let mut app = App::new();
    assert_eq!(press(&mut app, plain(KeyCode::Enter)), Step::Done(InputAction::Nothing));
    type_text(&mut app, "  ");
    assert_eq!(press(&mut app, plain(KeyCode::Enter)), Step::Done(InputAction::Nothing));
    assert_eq!(app.input_text, "  ");
    assert!(app.history.is_empty());
}

#[test]
fn enter_waits_for_ctrl_in_multiline() {
    let mut app = App::new();
    type_text(&mut app, "x");
    app.multiline = true;
    assert_eq!(press(&mut app, plain(KeyCode::Enter)), Step::Done(InputAction::Nothing));
    assert!(matches!(
        press(&mut app, ctrl(KeyCode::Enter)),
        Step::Ask(Request::StoreInput(_))
    ));
}

fn submit(app: &mut App, text: &str) {
    type_text(app, text);
    match press(app, plain(KeyCode::Enter)) {
        Step::Ask(Request::StoreInput(p)) => {
            app.finish_submit(p, None, env().now);
        }
        other => panic!("{:?}", other),
    }
}

#[test]
fn the_history_goes_back_and_forward() {
    let mut app = App::new();
    for text in ["one", "two", "three"] {
        submit(&mut app, text);
    }
    let mut seen = Vec::new();
    for _ in 0..4 {
        press(&mut app, ctrl(KeyCode::Up));
        seen.push((app.input_text.clone(), app.input_cursor, app.history_index));
    }
    assert_eq!(
        seen,
        vec![
            ("three".to_string(), 5, 0),
            ("two".to_string(), 3, 1),
            ("one".to_string(), 3, 2),
            ("one".to_string(), 3, 2),
        ]
    );
    press(&mut app, ctrl(KeyCode::Down));
    assert_eq!(app.input_text, "two");
    press(&mut app, ctrl(KeyCode::Down));
    press(&mut app, ctrl(KeyCode::Down));
    assert_eq!((app.input_text.as_str(), app.history_index), ("", -1));
    press(&mut app, ctrl(KeyCode::Down));
    assert_eq!((app.input_text.as_str(), app.history_index), ("", -1));
}

#[test]
fn the_timeline_keeps_to_its_limit() {
    let mut app = App::new();
    app.history_limit = 2;
    for text in ["one", "two", "three"] {
        submit(&mut app, text);
    }
    let shown: Vec<&str> = app.messages.iter().map(|m| m.content.as_str()).collect();
    assert_eq!(shown, vec!["two", "three"]);
    assert_eq!(app.message_line_offsets, vec![4, 4]);
}

#[test]
fn rotation_goes_through_the_directories() {
    let mut app = App::new();
    press(&mut app, ctrl(KeyCode::Char('r')));
    assert_eq!(app.active_input_dir, None);
    app.input_dirs = vec!["/a/x".to_string(), "/b/y".to_string(), "/c\"d".to_string()];
    app.active_input_dir = Some("/a/x/".to_string());
    let mut seen = Vec::new();
    for _ in 0..3 {
        press(&mut app, ctrl(KeyCode::Char('r')));
        seen.push((app.active_input_dir.clone().unwrap(), app.status_message.clone().unwrap()));
    }
    assert_eq!(
        seen,
        vec![
            ("/b/y".to_string(), "Active input: \"y\"".to_string()),
            ("/c\"d".to_string(), "Active input: \"c\\\"d\"".to_string()),
            ("/a/x".to_string(), "Active input: \"x\"".to_string()),
        ]
    );
    app.output_dirs = vec!["o".to_string(), "p".to_string()];
    press(&mut app, ctrl(KeyCode::Char('o')));
    assert_eq!(app.active_output_dir, Some("p".to_string()));
    assert_eq!(app.status_message, Some("Active output: \"p\"".to_string()));
    press(&mut app, ctrl(KeyCode::Char('o')));
    assert_eq!(app.active_output_dir, Some("o".to_string()));
}

#[test]
fn letters_scroll_while_nothing_is_typed() {
    let mut app = App::new();
    app.scroll_offset = 5;
    app.scroll_to_bottom = true;
    press(&mut app, plain(KeyCode::Char('j')));
    assert_eq!((app.scroll_offset, app.scroll_to_bottom), (6, false));
    press(&mut app, plain(KeyCode::Char('k')));
    press(&mut app, plain(KeyCode::Char('k')));
    assert_eq!((app.scroll_offset, app.input_text.as_str()), (4, ""));
    type_text(&mut app, "ajk");
    assert_eq!((app.scroll_offset, app.input_text.as_str()), (4, "ajk"));
}

#[test]
fn letters_and_arrows_scroll_in_normal_mode() {
    for (code, expected) in [
        (KeyCode::Up, 4usize),
        (KeyCode::Down, 6),
        (KeyCode::Char('j'), 6),
        (KeyCode::Char('k'), 4),
    ] {
        let mut app = App::new();
        app.scroll_offset = 5;
        app.handle_key_normal(plain(code), env().now);
        assert_eq!((app.scroll_offset, app.input_text.as_str(), app.input_cursor), (expected, "", 0));
    }
}

#[test]
fn only_scrolling_down_needs_room() {
    let mut app = App::new();
    app.scroll_offset = usize::MAX;
    assert!(app.accepts(plain(KeyCode::Char('k'))));
    assert!(!app.accepts(plain(KeyCode::Char('j'))));
    assert!(app.accepts(plain(KeyCode::Up)));
    assert!(!app.accepts(plain(KeyCode::Down)));
    press(&mut app, plain(KeyCode::Char('k')));
    assert_eq!(app.scroll_offset, usize::MAX - 1);
}

#[test]
fn arrows_scroll_whatever_is_typed() {
    let mut app = App::new();
    press(&mut app, plain(KeyCode::Up));
    assert_eq!(app.scroll_offset, 0);
    press(&mut app, plain(KeyCode::Down));
    assert_eq!(app.scroll_offset, 1);
    app.input_inner_width = 3;
    type_text(&mut app, "abcdef");
    press(&mut app, plain(KeyCode::Down));
    press(&mut app, plain(KeyCode::Down));
    assert_eq!((app.scroll_offset, app.input_cursor), (3, 6));
    press(&mut app, plain(KeyCode::Up));
    assert_eq!((app.scroll_offset, app.input_cursor), (2, 6));
    assert_eq!(app.input_text, "abcdef");
}

#[test]
fn pages_scroll_ten_lines() {
    let mut app = App::new();
    press(&mut app, plain(KeyCode::PageDown));
    press(&mut app, plain(KeyCode::PageDown));
    assert_eq!(app.scroll_offset, 20);
    press(&mut app, plain(KeyCode::PageUp));
    assert_eq!(app.scroll_offset, 10);
    app.scroll_offset = 3;
    press(&mut app, plain(KeyCode::PageUp));
    assert_eq!(app.scroll_offset, 0);
    press(&mut app, plain(KeyCode::End));
    assert!(app.scroll_to_bottom);
    app.scroll_offset = usize::MAX;
    assert!(!app.accepts(plain(KeyCode::PageDown)));
    assert!(!app.accepts_event(TerminalEvent::Mouse(MouseEventKind::ScrollDown)));
}

#[test]
fn the_wheel_scrolls_three_lines() {
    let mut app = App::new();
    app.handle_mouse(MouseEventKind::ScrollDown);
    app.handle_mouse(MouseEventKind::ScrollDown);
    assert_eq!(app.scroll_offset, 6);
    app.handle_mouse(MouseEventKind::ScrollUp);
    assert_eq!(app.scroll_offset, 3);
    app.handle_mouse(MouseEventKind::Other);
    assert_eq!(app.scroll_offset, 3);
    app.scroll_offset = 1;
    app.handle_mouse(MouseEventKind::ScrollUp);
    assert_eq!(app.scroll_offset, 0);
}

#[test]
fn only_ctrl_c_ends_the_session() {
    let mut app = App::new();
    press(&mut app, plain(KeyCode::Char('c')));
    press(&mut app, alt(KeyCode::Char('c')));
    assert!(!app.should_quit);
    let release = TerminalEvent::Key { pressed: false, key: ctrl(KeyCode::Char('c')) };
    app.handle_event(release, &env());
    assert!(!app.should_quit);
    let press_it = TerminalEvent::Key { pressed: true, key: ctrl(KeyCode::Char('c')) };
    assert!(app.accepts_event(press_it));
    app.handle_event(press_it, &env());
    assert!(app.should_quit);
    let mut choosing = App::new();
    press(&mut choosing, plain(KeyCode::Tab));
    press(&mut choosing, ctrl(KeyCode::Char('c')));
    assert!(!choosing.should_quit);
}

#[test]
fn other_events_do_nothing() {
    let mut app = App::new();
    assert_eq!(
        app.handle_event(TerminalEvent::Other, &env()),
        Step::Done(InputAction::Nothing)
    );
    press(&mut app, plain(KeyCode::Other));
    press(&mut app, plain(KeyCode::Esc));
    assert_eq!(app.mode, AppMode::Normal);
}

#[test]
fn keys_open_the_other_modes() {
    let mut app = App::new();
    press(&mut app, ctrl(KeyCode::Char('f')));
    assert!(matches!(app.mode, AppMode::Import { .. }));
    assert_eq!(app.status_message, None);
    press(&mut app, plain(KeyCode::Esc));
    press(&mut app, alt(KeyCode::Char('i')));
    assert!(matches!(app.mode, AppMode::AddInputDir { .. }));
    assert_eq!(
        app.status_message.as_deref(),
        Some("Add input directory (Enter: add | Tab: cycle | Esc cancel)")
    );
    press(&mut app, plain(KeyCode::Esc));
    assert_eq!(app.status_message, None);
    press(&mut app, alt(KeyCode::Char('o')));
    assert!(matches!(app.mode, AppMode::AddOutputDir { .. }));
    assert_eq!(
        app.status_message.as_deref(),
        Some("Add output directory (Enter: add | Tab: cycle | Esc cancel)")
    );
    press(&mut app, plain(KeyCode::Esc));
    press(&mut app, plain(KeyCode::Tab));
    assert_eq!(app.mode, AppMode::Select { cursor_index: 0 });
    assert_eq!(
        app.status_message.as_deref(),
        Some("Select mode: ↑/↓ navigate | Enter edit | Esc cancel")
    );
}

fn every_key() -> Vec<KeyEvent> {
    let mut codes = vec![
        KeyCode::Enter,
        KeyCode::Up,
        KeyCode::Down,
        KeyCode::Tab,
        KeyCode::Backspace,
        KeyCode::Delete,
        KeyCode::Left,
        KeyCode::Right,
        KeyCode::PageUp,
        KeyCode::PageDown,
        KeyCode::End,
        KeyCode::Esc,
        KeyCode::Other,
    ];
    for b in 0..128u8 {
        codes.push(KeyCode::Char(b as char));
    }
    let mut keys = Vec::new();
    for code in codes {
        keys.push(plain(code));
        keys.push(ctrl(code));
        keys.push(alt(code));
    }
    keys
}

#[test]
fn only_four_keys_lead_out_of_normal_mode() {
    for key in every_key() {
        let mut app = App::new();
        submit(&mut app, "one");
        submit(&mut app, "two");
        type_text(&mut app, "text");
        press(&mut app, key);
        let leads_out = key.code == KeyCode::Tab
            || key == ctrl(KeyCode::Char('f'))
            || key == alt(KeyCode::Char('i'))
            || key == alt(KeyCode::Char('o'));
        assert_eq!(app.mode != AppMode::Normal, leads_out, "{:?}", key);
        if leads_out {
            assert_eq!((app.input_text.as_str(), app.input_cursor), ("text", 4));
            assert_eq!(app.messages.len(), 2);
        }
        if key.code == KeyCode::Tab {
            assert_eq!(app.mode, AppMode::Select { cursor_index: 1 });
        }
    }
}

#[test]
fn ascii_input_takes_every_key() {
    for first in every_key() {
        let mut app = App::new();
        submit(&mut app, "one");
        type_text(&mut app, "text");
        press(&mut app, plain(KeyCode::Left));
        for key in [first, plain(KeyCode::Backspace), ctrl(KeyCode::Up), plain(KeyCode::Delete)] {
            if app.mode == AppMode::Normal {
                press(&mut app, key);
            }
            assert!(app.input_text.is_ascii() && app.input_cursor <= app.input_text.len());
            assert!(app.history.iter().all(|entry| entry.is_ascii()));
            assert!(-1 <= app.history_index && app.history_index < app.history.len() as isize);
        }
    }
}

#[test]
fn the_selection_stays_on_the_messages() {
    for key in every_key() {
        for count in 0..3 {
            let mut app = App::new();
            for _ in 0..count {
                submit(&mut app, "message");
            }
            for message in app.messages.iter_mut() {
                message.filepath = "/file".to_string();
            }
            press(&mut app, plain(KeyCode::Tab));
            match press(&mut app, key) {
                Step::Done(action) => assert_eq!(action, InputAction::Nothing),
                Step::Ask(Request::ProbeDelete { path }) => {
                    app.delete_probed(path, true);
                    app.file_deleted("/file".to_string(), None);
                    assert_eq!(app.messages.len(), count - 1);
                }
                Step::Ask(request) => assert!(matches!(request, Request::ProbeEdit { .. })),
            }
            if let AppMode::Select { cursor_index } = app.mode {
                assert!(cursor_index <= app.messages.len().saturating_sub(1));
            }
        }
    }
}

#[test]
fn a_selection_far_behind_the_end_comes_back() {
    let mut app = App::new();
    submit(&mut app, "message");
    app.mode = AppMode::Select { cursor_index: usize::MAX };
    press(&mut app, plain(KeyCode::PageDown));
    assert_eq!(app.mode, AppMode::Select { cursor_index: 0 });
}

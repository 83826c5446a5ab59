use psi_cli::area::Area;
use psi_cli::clock::Timestamp;
use psi_cli::events::{KeyCode, KeyEvent, Step, Surroundings};
use psi_cli::models::FileEntry;
use psi_cli::state::{App, AppMode};
use psi_cli::timeline::{ResolvedDirs, ResolvedEntry};
use psi_cli::wrap::{move_cursor_vertical, wrapped_cursor, wrapped_line_count, wrapped_line_starts};

fn env() -> Surroundings {
    Surroundings { now: Timestamp::new(0, 0, 0).unwrap(), home: None }
}

fn with_files(contents: &[&str]) -> App {
    let mut app = App::new();
    let dirs = ResolvedDirs { input_dirs: Vec::new(), system_dirs: Vec::new() };
    let entries = contents
        .iter()
        .enumerate()
        .map(|(i, text)| {
            let path = format!("/f{}.txt", i);
            let at = Timestamp::new(i as i64, 0, 0).unwrap();
            let entry =
                FileEntry::new(path.clone(), at, true, Some(text.to_string()), 1, true);
            ResolvedEntry { entry, real_path: path }
        })
        .collect();
    app.update_messages(entries, &dirs);
    app
}

fn all_keys() -> Vec<KeyEvent> {
    let mut keys = Vec::new();
    for code in [
        KeyCode::Char('j'),
        KeyCode::Char('d'),
        KeyCode::Char('f'),
        KeyCode::Char('o'),
        KeyCode::Char('s'),
        KeyCode::Enter,
        KeyCode::Tab,
        KeyCode::Backspace,
        KeyCode::Delete,
        KeyCode::Left,
        KeyCode::Right,
        KeyCode::Up,
        KeyCode::Down,
        KeyCode::PageUp,
        KeyCode::PageDown,
        KeyCode::End,
        KeyCode::Esc,
        KeyCode::Other,
    ] {
        for ctrl in [false, true] {
            for alt in [false, true] {
                keys.push(KeyEvent { code, ctrl, alt });
            }
        }
    }
    keys
}

fn modes() -> Vec<AppMode> {
    let buffer = "x".to_string();
    let completions = vec!["x1".to_string(), "x2".to_string()];
    vec![
        AppMode::Normal,
        AppMode::Select { cursor_index: 1 },
        AppMode::EditFile { target_path: "/f".to_string(), dirty: false },
        AppMode::Import {
            buffer: buffer.clone(),
            cursor: 1,
            completions: completions.clone(),
            completion_index: 1,
        },
        AppMode::AddInputDir {
            buffer: buffer.clone(),
            cursor: 1,
            completions: completions.clone(),
            completion_index: 0,
        },
        AppMode::AddOutputDir { buffer, cursor: 1, completions, completion_index: 0 },
    ]
}

#[test]
fn keys_leave_the_timeline_to_the_file_system() {
    for mode in modes() {
        for key in all_keys() {
            let mut app = with_files(&["a", "b", "c"]);
            app.input_dirs = vec!["/i".to_string()];
            app.mode = mode.clone();
            app.input_text = "ab".to_string();
            app.input_cursor = 1;
            assert!(app.accepts(key));
            app.handle_key(key, &env());
            let shown: Vec<&str> = app.messages.iter().map(|m| m.content.as_str()).collect();
            assert_eq!(shown, vec!["a", "b", "c"]);
            assert_eq!(app.input_dirs, vec!["/i".to_string()]);
        }
    }
}

#[test]
fn only_some_keys_ask_for_work() {
    for mode in modes() {
        for key in all_keys() {
            let mut app = with_files(&["a", "b", "c"]);
            app.mode = mode.clone();
            app.input_text = "ab".to_string();
            let typing = matches!(
                mode,
                AppMode::Import { .. } | AppMode::AddInputDir { .. } | AppMode::AddOutputDir { .. }
            );
            if let Step::Ask(request) = app.handle_key(key, &env()) {
                let commanded = key.code == KeyCode::Enter
                    || (key.ctrl && matches!(key.code, KeyCode::Char('s') | KeyCode::Char('d')));
                let completing =
                    typing && matches!(request, psi_cli::events::Request::Complete { .. });
                assert!(commanded || completing, "{:?} {:?}", mode, key);
            }
        }
    }
}

#[test]
fn escape_leads_back_from_everywhere() {
    for mode in modes() {
        let mut app = with_files(&["a"]);
        app.mode = mode;
        app.handle_key(KeyEvent { code: KeyCode::Esc, ctrl: false, alt: false }, &env());
        assert_eq!(app.mode, AppMode::Normal);
    }
}

#[test]
fn the_log_has_the_lines_on_record() {
    let app = with_files(&["a", "b\nc", "d\r\n\r\ne\n"]);
    assert_eq!(app.message_line_offsets, vec![4, 5, 6]);
    assert_eq!(app.chat_lines().len(), 2 + 4 + 5 + 6);
    // An empty message has a line on record that the log does not show.
    let empty = with_files(&[""]);
    assert_eq!(empty.message_line_offsets, vec![4]);
    assert_eq!(empty.chat_lines().len(), 2 + 3);
}

#[test]
fn drawing_changes_no_more_than_the_scroll() {
    let mut app = with_files(&["a", "b"]);
    app.input_text = "text".to_string();
    app.input_cursor = 2;
    app.status_message = Some("s".to_string());
    app.ui(Area { x: 0, y: 0, width: 40, height: 20 }).unwrap();
    assert_eq!((app.input_text.as_str(), app.input_cursor), ("text", 2));
    assert_eq!(app.status_message.as_deref(), Some("s"));
    assert_eq!(app.messages.len(), 2);
    assert_eq!(app.mode, AppMode::Normal);
}

#[test]
fn display_lines_partition_the_text() {
    let text = "one two three\n\nfour 漢字 five";
    for width in 1..30u16 {
        let starts = wrapped_line_starts(text, width);
        assert_eq!(starts.len(), wrapped_line_count(text, width));
        assert_eq!(starts[0], 0);
        for pair in starts.windows(2) {
            assert!(pair[0] < pair[1] && pair[1] <= text.len());
        }
        for (offset, _) in text.char_indices() {
            let (line, col) = wrapped_cursor(text, offset, width);
            assert!(line < starts.len());
            assert!(col <= (width as usize).max(2));
        }
    }
}

#[test]
fn vertical_moves_end_on_the_next_line() {
    let text = "one two three\n\nfour 漢字 five";
    for width in 2..30u16 {
        let starts = wrapped_line_starts(text, width);
        for (offset, _) in text.char_indices() {
            let down = move_cursor_vertical(text, offset, width, 1);
            let up = move_cursor_vertical(text, offset, width, -1);
            assert!(text.is_char_boundary(down) && text.is_char_boundary(up));
            let line = wrapped_cursor(text, offset, width).0;
            if line + 1 < starts.len() {
                assert!(
                    wrapped_cursor(text, down, width).0 == line + 1 || down == starts[line + 1]
                );
            } else {
                assert_eq!(down, offset);
            }
            if line > 0 {
                assert!(wrapped_cursor(text, up, width).0 == line - 1 || up == starts[line - 1]);
            } else {
                assert_eq!(up, offset);
            }
        }
    }
}

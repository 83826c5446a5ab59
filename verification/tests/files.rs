use psi_cli::clock::Timestamp;
use psi_cli::events::{InputAction, KeyCode, KeyEvent, Request, Step, Surroundings};
use psi_cli::models::{ChatMessage, MessageRole};
use psi_cli::state::{App, AppMode};

fn env() -> Surroundings {
    Surroundings {
        now: Timestamp::new(0, 0, 0).unwrap(),
        home: Some("/home/me".to_string()),
    }
}

fn key(code: KeyCode) -> KeyEvent {
    KeyEvent { code, ctrl: false, alt: false }
}

fn ctrl(code: KeyCode) -> KeyEvent {
    KeyEvent { code, ctrl: true, alt: false }
}

fn press(app: &mut App, k: KeyEvent) -> Step {
    assert!(app.accepts(k), "{:?}", k);
    app.handle_key(k, &env())
}

fn done() -> Step {
    Step::Done(InputAction::Nothing)
}

fn message(path: &str) -> ChatMessage {
    ChatMessage {
        role: MessageRole::Output,
        content: "x".to_string(),
        filepath: path.to_string(),
        created_at: Timestamp::new(0, 0, 0).unwrap(),
        filename: "x".to_string(),
    }
}

fn choosing(paths: &[&str], at: usize) -> App {
    let mut app = App::new();
    app.messages = paths.iter().map(|p| message(p)).collect();
    app.message_line_offsets = vec![4; paths.len()];
    app.mode = AppMode::Select { cursor_index: at };
    app
}

fn cursor(app: &App) -> usize {
    match app.mode {
        AppMode::Select { cursor_index } => cursor_index,
        _ => panic!("{:?}", app.mode),
    }
}

#[test]
fn the_cursor_moves_among_messages() {
    let paths: Vec<String> = (0..25).map(|i| format!("/f{}", i)).collect();
    let paths: Vec<&str> = paths.iter().map(|s| s.as_str()).collect();
    let mut app = choosing(&paths, 24);
    press(&mut app, key(KeyCode::Down));
    assert_eq!(cursor(&app), 24);
    press(&mut app, key(KeyCode::Char('k')));
    press(&mut app, key(KeyCode::Up));
    press(&mut app, key(KeyCode::Char('K')));
    assert_eq!(cursor(&app), 21);
    press(&mut app, key(KeyCode::PageUp));
    assert_eq!(cursor(&app), 11);
    press(&mut app, key(KeyCode::PageUp));
    press(&mut app, key(KeyCode::PageUp));
    assert_eq!(cursor(&app), 0);
    press(&mut app, key(KeyCode::Up));
    assert_eq!(cursor(&app), 0);
    press(&mut app, key(KeyCode::Char('j')));
    press(&mut app, key(KeyCode::Char('J')));
    assert_eq!(cursor(&app), 2);
    press(&mut app, key(KeyCode::PageDown));
    assert_eq!(cursor(&app), 12);
    press(&mut app, key(KeyCode::PageDown));
    press(&mut app, key(KeyCode::PageDown));
    assert_eq!(cursor(&app), 24);
    press(&mut app, key(KeyCode::Esc));
    assert_eq!(app.mode, AppMode::Normal);
}

#[test]
fn nothing_to_choose_from() {
    let mut app = choosing(&[], 0);
    for code in [KeyCode::Down, KeyCode::Up, KeyCode::PageDown, KeyCode::PageUp, KeyCode::Enter] {
        assert_eq!(press(&mut app, key(code)), done());
        assert_eq!(cursor(&app), 0);
    }
    assert_eq!(press(&mut app, ctrl(KeyCode::Char('d'))), done());
}

#[test]
fn deleting_a_file_takes_its_message_away() {
    let mut app = choosing(&["/a", "/b"], 1);
    assert_eq!(
        press(&mut app, ctrl(KeyCode::Char('d'))),
        Step::Ask(Request::ProbeDelete { path: "/b".to_string() })
    );
    assert_eq!(app.messages.len(), 2);
    assert_eq!(
        app.delete_probed("/b".to_string(), true),
        Step::Ask(Request::Delete { path: "/b".to_string() })
    );
    assert_eq!(app.messages.len(), 1);
    assert_eq!(app.message_line_offsets, vec![4]);
    app.file_deleted("/b".to_string(), None);
    assert_eq!(app.status_message.as_deref(), Some("Deleted: \"/b\""));
    assert_eq!(cursor(&app), 0);
    assert_eq!(app.messages[0].filepath, "/a");
}

#[test]
fn deleting_can_fail() {
    let mut app = choosing(&["/a", "user-input"], 0);
    assert_eq!(app.delete_probed("/a".to_string(), false), done());
    assert_eq!(
        app.status_message.as_deref(),
        Some("Cannot delete: file does not exist on disk")
    );
    assert_eq!(app.messages.len(), 2);
    app.delete_probed("/a".to_string(), true);
    app.file_deleted("/a".to_string(), Some("denied".to_string()));
    assert_eq!(app.status_message.as_deref(), Some("Delete failed: denied"));
    assert_eq!(press(&mut app, ctrl(KeyCode::Char('d'))), done());
    assert_eq!(
        app.status_message.as_deref(),
        Some("Cannot delete: message was typed inline (no file)")
    );
    assert_eq!(press(&mut app, key(KeyCode::Char('d'))), done());
}

#[test]
fn a_file_is_opened_edited_and_saved() {
    let mut app = choosing(&["/a b"], 0);
    assert_eq!(
        press(&mut app, key(KeyCode::Enter)),
        Step::Ask(Request::ProbeEdit { path: "/a b".to_string() })
    );
    assert_eq!(
        app.edit_probed("/a b".to_string(), true),
        Step::Ask(Request::ReadEdit { path: "/a b".to_string() })
    );
    app.edit_opened("/a b".to_string(), Some("text".to_string()));
    assert_eq!((app.input_text.as_str(), app.input_cursor), ("text", 4));
    assert_eq!(
        app.status_message.as_deref(),
        Some("Editing: \"/a b\" | Ctrl+S save | Ctrl+Enter save+exit | Esc cancel")
    );
    assert_eq!(press(&mut app, key(KeyCode::Char('j'))), done());
    assert_eq!(app.input_text, "textj");
    assert_eq!(
        app.mode,
        AppMode::EditFile { target_path: "/a b".to_string(), dirty: true }
    );
    assert_eq!(
        app.status_message.as_deref(),
        Some("Editing: \"/a b\" [*] | Ctrl+S save | Enter:save+exit | Esc cancel")
    );
    assert_eq!(
        press(&mut app, ctrl(KeyCode::Char('s'))),
        Step::Ask(Request::ProbeSave { path: "/a b".to_string() })
    );
    assert_eq!(
        app.save_probed(true),
        Step::Ask(Request::Save { path: "/a b".to_string(), text: "textj".to_string() })
    );
    app.save_finished(false);
    assert!(matches!(app.mode, AppMode::EditFile { dirty: true, .. }));
    app.save_finished(true);
    assert!(matches!(app.mode, AppMode::EditFile { dirty: false, .. }));
    assert_eq!(
        app.status_message.as_deref(),
        Some("Editing: \"/a b\" | Ctrl+S save | Enter:save+exit | Esc cancel")
    );
    assert_eq!(
        press(&mut app, key(KeyCode::Enter)),
        Step::Ask(Request::ProbeSaveExit { path: "/a b".to_string() })
    );
    assert_eq!(
        app.save_and_exit_probed(true),
        Step::Ask(Request::SaveExit { path: "/a b".to_string(), text: "textj".to_string() })
    );
    assert_eq!(
        app.save_and_exit_finished(Some("full".to_string())),
        InputAction::Nothing
    );
    assert_eq!(app.status_message.as_deref(), Some("Save failed: full"));
    assert_eq!(
        app.save_and_exit_finished(None),
        InputAction::Saved { path: "/a b".to_string() }
    );
    assert_eq!(app.mode, AppMode::Normal);
    assert_eq!(app.status_message, None);
    // Only what was submitted goes into the history.
    assert!(app.history.is_empty());
}

#[test]
fn a_file_that_is_gone_is_not_written() {
    let mut app = App::new();
    app.mode = AppMode::EditFile { target_path: "/a".to_string(), dirty: true };
    assert_eq!(app.save_probed(false), done());
    assert_eq!(
        app.status_message.as_deref(),
        Some("Editing: \"/a\" [*] | Ctrl+S save | Enter:save+exit | Esc cancel")
    );
    assert_eq!(app.save_and_exit_probed(false), done());
    assert_eq!(app.mode, AppMode::EditFile { target_path: "/a".to_string(), dirty: true });
    assert_eq!(
        app.status_message.as_deref(),
        Some("Original file no longer exists on disk")
    );
}

#[test]
fn arrows_scroll_in_the_editor() {
    for (code, expected) in [
        (KeyCode::Up, 4usize),
        (KeyCode::PageUp, 0),
        (KeyCode::Down, 6),
        (KeyCode::PageDown, 15),
    ] {
        let mut app = App::new();
        app.edit_opened("/a".to_string(), Some("abc\nabc".to_string()));
        app.input_cursor = 1;
        app.scroll_offset = 5;
        assert_eq!(press(&mut app, key(code)), done());
        assert_eq!(app.scroll_offset, expected);
        assert_eq!((app.input_text.as_str(), app.input_cursor), ("abc\nabc", 1));
        assert!(matches!(app.mode, AppMode::EditFile { dirty: false, .. }));
    }
}

#[test]
fn handlers_leave_other_modes_alone() {
    let mut app = App::new();
    app.input_text = "é".to_string();
    app.input_cursor = 1;
    assert_eq!(app.handle_key_select(key(KeyCode::Down)), done());
    assert_eq!(app.handle_key_edit(key(KeyCode::Char('x')), env().now), done());
    assert_eq!(app.handle_key_import(key(KeyCode::Char('x')), &None), done());
    assert_eq!(app.handle_key_add_dir(key(KeyCode::Char('x')), true, &None), done());
    assert_eq!((app.input_text.as_str(), app.mode.clone()), ("é", AppMode::Normal));
    app.mode = AppMode::AddOutputDir {
        buffer: "é".to_string(),
        cursor: 1,
        completions: Vec::new(),
        completion_index: 0,
    };
    let before = app.mode.clone();
    assert_eq!(app.handle_key_add_dir(key(KeyCode::Char('x')), true, &None), done());
    assert_eq!(app.mode, before);
}

#[test]
fn opening_can_fail() {
    let mut app = choosing(&["user-input", "/b"], 0);
    assert_eq!(press(&mut app, key(KeyCode::Enter)), done());
    assert_eq!(
        app.status_message.as_deref(),
        Some("Cannot edit: message was typed inline (no file)")
    );
    assert_eq!(app.edit_probed("/b".to_string(), false), done());
    assert_eq!(
        app.status_message.as_deref(),
        Some("Cannot edit: file does not exist on disk")
    );
    app.edit_opened("/b".to_string(), None);
    assert_eq!(
        app.status_message.as_deref(),
        Some("Cannot edit: file is not a text file or cannot be read")
    );
    assert!(matches!(app.mode, AppMode::Select { .. }));
}

#[test]
fn escape_leaves_the_editor_without_saving() {
    let mut app = App::new();
    app.edit_opened("/a".to_string(), Some("x".to_string()));
    press(&mut app, key(KeyCode::Backspace));
    assert!(matches!(app.mode, AppMode::EditFile { dirty: true, .. }));
    assert_eq!(press(&mut app, key(KeyCode::Esc)), done());
    assert_eq!(app.mode, AppMode::Normal);
}

#[test]
fn an_empty_file_takes_every_letter() {
    let mut app = App::new();
    app.edit_opened("/a".to_string(), Some(String::new()));
    press(&mut app, key(KeyCode::Char('j')));
    press(&mut app, key(KeyCode::Char('k')));
    press(&mut app, key(KeyCode::Char('s')));
    assert_eq!(app.input_text, "jks");
}

fn import(app: &App) -> (String, usize, Vec<String>, usize) {
    match &app.mode {
        AppMode::Import { buffer, cursor, completions, completion_index } => {
            (buffer.clone(), *cursor, completions.clone(), *completion_index)
        }
        _ => panic!("{:?}", app.mode),
    }
}

fn strings(items: &[&str]) -> Vec<String> {
    items.iter().map(|s| s.to_string()).collect()
}

#[test]
fn typing_a_path_asks_for_its_completions() {
    let mut app = App::new();
    press(&mut app, ctrl(KeyCode::Char('f')));
    assert_eq!(
        press(&mut app, key(KeyCode::Char('~'))),
        Step::Ask(Request::Complete { pattern: "~*".to_string() })
    );
    assert_eq!(
        press(&mut app, key(KeyCode::Char('/'))),
        Step::Ask(Request::Complete { pattern: "/home/me/*".to_string() })
    );
    assert_eq!(
        press(&mut app, key(KeyCode::Char('d'))),
        Step::Ask(Request::Complete { pattern: "/home/me/d*".to_string() })
    );
    app.completions_found(strings(&["/home/me/dz", "/home/me/da"]));
    assert_eq!(
        import(&app),
        ("~/d".to_string(), 3, strings(&["/home/me/da", "/home/me/dz"]), 0)
    );
    for expected in ["/home/me/dz", "/home/me/da", "/home/me/dz"] {
        assert_eq!(press(&mut app, key(KeyCode::Tab)), done());
        let (buffer, cursor, _, _) = import(&app);
        assert_eq!((buffer.as_str(), cursor), (expected, expected.len()));
    }
    assert_eq!(
        press(&mut app, key(KeyCode::Backspace)),
        Step::Ask(Request::Complete { pattern: "/home/me/d*".to_string() })
    );
    assert_eq!(import(&app), ("/home/me/d".to_string(), 10, Vec::new(), 0));
}

#[test]
fn nothing_typed_has_no_completions() {
    let mut app = App::new();
    press(&mut app, ctrl(KeyCode::Char('f')));
    assert_eq!(press(&mut app, key(KeyCode::Backspace)), done());
    assert_eq!(press(&mut app, key(KeyCode::Tab)), done());
    press(&mut app, key(KeyCode::Char('é')));
    assert_eq!(import(&app).1, 1);
    assert!(!app.accepts(key(KeyCode::Char('x'))));
    assert_eq!(press(&mut app, key(KeyCode::Backspace)), done());
    assert_eq!(import(&app), (String::new(), 0, Vec::new(), 0));
}

#[test]
fn completions_are_ordered_and_limited() {
    let mut app = App::new();
    press(&mut app, ctrl(KeyCode::Char('f')));
    let found: Vec<String> = (0..60).rev().map(|i| format!("/p/{:02}", i)).collect();
    app.completions_found(found);
    let expected: Vec<String> = (0..50).map(|i| format!("/p/{:02}", i)).collect();
    assert_eq!(import(&app).2, expected);
}

#[test]
fn a_file_is_imported() {
    let mut app = App::new();
    app.active_input_dir = Some("/in".to_string());
    press(&mut app, ctrl(KeyCode::Char('f')));
    for c in "~/f.txt".chars() {
        press(&mut app, key(KeyCode::Char(c)));
    }
    // Without a completion, what was typed counts, with the home directory put in.
    assert_eq!(
        press(&mut app, key(KeyCode::Enter)),
        Step::Ask(Request::ProbeImport { path: "/home/me/f.txt".to_string() })
    );
    assert_eq!(
        app.import_probed("/home/me/f.txt".to_string(), true),
        Step::Ask(Request::Copy {
            from: "/home/me/f.txt".to_string(),
            to: "/in/f.txt".to_string(),
        })
    );
    app.file_copied("/home/me/f.txt".to_string(), "/in/f.txt".to_string(), None);
    assert_eq!(
        app.status_message.as_deref(),
        Some("Copied \"/home/me/f.txt\" → \"/in/f.txt\"")
    );
    assert_eq!(app.mode, AppMode::Normal);
}

#[test]
fn the_chosen_completion_is_imported() {
    let mut app = App::new();
    press(&mut app, ctrl(KeyCode::Char('f')));
    press(&mut app, key(KeyCode::Char('a')));
    app.completions_found(strings(&["a1", "a2"]));
    assert_eq!(
        press(&mut app, key(KeyCode::Enter)),
        Step::Ask(Request::ProbeImport { path: "a1".to_string() })
    );
    press(&mut app, key(KeyCode::Tab));
    assert_eq!(
        press(&mut app, key(KeyCode::Enter)),
        Step::Ask(Request::ProbeImport { path: "a2".to_string() })
    );
}

#[test]
fn importing_can_fail() {
    let mut app = App::new();
    press(&mut app, ctrl(KeyCode::Char('f')));
    assert_eq!(app.import_probed("/x".to_string(), true), done());
    assert_eq!(app.status_message.as_deref(), Some("No active input directory set"));
    assert_eq!(app.mode, AppMode::Normal);
    press(&mut app, ctrl(KeyCode::Char('f')));
    assert_eq!(app.import_probed("/x".to_string(), false), done());
    assert_eq!(app.status_message.as_deref(), Some("File does not exist"));
    app.file_copied("/x".to_string(), "/y".to_string(), Some("denied".to_string()));
    assert_eq!(app.status_message.as_deref(), Some("Copy failed: denied"));
}

#[test]
fn directories_are_added_once() {
    let mut app = App::new();
    press(&mut app, KeyEvent { code: KeyCode::Char('i'), ctrl: false, alt: true });
    for c in "~/d".chars() {
        press(&mut app, key(KeyCode::Char(c)));
    }
    assert_eq!(
        press(&mut app, key(KeyCode::Enter)),
        Step::Ask(Request::ProbeDir { path: "~/d".to_string(), is_input: true })
    );
    app.directory_probed("/d".to_string(), true, true);
    assert_eq!(app.input_dirs, strings(&["/d"]));
    assert_eq!(app.active_input_dir.as_deref(), Some("/d"));
    assert_eq!(app.status_message.as_deref(), Some("Added input: \"/d\""));
    assert_eq!(app.mode, AppMode::Normal);
    app.active_input_dir = None;
    app.directory_probed("/d/".to_string(), true, true);
    assert_eq!(app.input_dirs, strings(&["/d"]));
    assert_eq!(app.active_input_dir, None);
    assert_eq!(app.status_message.as_deref(), Some("Already in input dirs"));
    app.directory_probed("/o".to_string(), false, true);
    assert_eq!(app.output_dirs, strings(&["/o"]));
    assert_eq!(app.active_output_dir.as_deref(), Some("/o"));
    assert_eq!(app.status_message.as_deref(), Some("Added output: \"/o\""));
    app.directory_probed("/o".to_string(), false, true);
    assert_eq!(app.status_message.as_deref(), Some("Already in output dirs"));
    app.directory_probed("/f".to_string(), false, false);
    assert_eq!(app.output_dirs, strings(&["/o"]));
    assert_eq!(app.status_message.as_deref(), Some("Not a directory"));
}

#[test]
fn an_output_directory_is_asked_for() {
    let mut app = App::new();
    press(&mut app, KeyEvent { code: KeyCode::Char('o'), ctrl: false, alt: true });
    press(&mut app, key(KeyCode::Char('d')));
    app.completions_found(strings(&["dir"]));
    assert_eq!(
        press(&mut app, key(KeyCode::Enter)),
        Step::Ask(Request::ProbeDir { path: "dir".to_string(), is_input: false })
    );
}

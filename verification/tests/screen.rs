use psi_cli::area::{cut_into_rows, Area, Cell, RowHeight};
use psi_cli::clock::Timestamp;
use psi_cli::models::{ChatMessage, MessageRole};
use psi_cli::screen::LowerPart;
use psi_cli::state::{App, AppMode};
use psi_cli::style::{Color, Line, Span, Style};

fn area(x: u16, y: u16, width: u16, height: u16) -> Area {
    Area { x, y, width, height }
}

fn message(role: MessageRole, content: &str) -> ChatMessage {
    ChatMessage {
        role,
        content: content.to_string(),
        filepath: "/f".to_string(),
        created_at: Timestamp::new(3661, 0, 0).unwrap(),
        filename: "f".to_string(),
    }
}

fn with_messages(contents: &[&str]) -> App {
    let mut app = App::new();
    app.messages = contents.iter().map(|c| message(MessageRole::Output, c)).collect();
    app.message_line_offsets =
        contents.iter().map(|c| c.lines().count().max(1) + 3).collect();
    app
}

fn texts(line: &Line) -> Vec<&str> {
    line.spans.iter().map(|s| s.text.as_str()).collect()
}

const FOOTER: &str = "╚══════════════════════════════════════════════════════════";

#[test]
fn rows_have_the_heights_asked_for() {
    for height in 0..120u16 {
        for lower in [3u16, 9, 10, 15, 20] {
            for margin in [false, true] {
                let asked = vec![RowHeight::Min(1), RowHeight::Length(lower)];
                let whole = area(3, 5, 60, height);
                let rows = cut_into_rows(whole, margin, &asked);
                let cells = if margin { 1 } else { 0 };
                assert_eq!(rows.len(), 2);
                if height < 2 * cells {
                    assert!(rows.iter().all(|r| r.x == 0 && r.width == 0));
                    continue;
                }
                assert!(rows.iter().all(|r| r.x == 3 + cells && r.width == 60 - 2 * cells));
                let inner = height - 2 * cells;
                if inner >= lower + 1 {
                    assert_eq!(rows[0], area(3 + cells, 5 + cells, 60 - 2 * cells, inner - lower));
                    assert_eq!(rows[1].height, lower);
                    assert_eq!(rows[1].y, 5 + cells + inner - lower);
                }
            }
        }
    }
}

#[test]
fn three_rows_have_the_heights_asked_for() {
    for height in 7..200u16 {
        for help in [3u16, 6] {
            if height < help + 4 {
                continue;
            }
            let asked =
                vec![RowHeight::Length(help), RowHeight::Length(1), RowHeight::Min(3)];
            let rows = cut_into_rows(area(0, 30, 10, height), false, &asked);
            assert_eq!(
                rows,
                vec![
                    area(0, 30, 10, help),
                    area(0, 30 + help, 10, 1),
                    area(0, 31 + help, 10, height - help - 1),
                ]
            );
        }
    }
}

#[test]
fn rows_reach_to_the_last_height_that_is_promised() {
    let asked = vec![RowHeight::Min(1), RowHeight::Length(9)];
    let rows = cut_into_rows(area(0, 0, 10, 32767), false, &asked);
    assert_eq!(rows, vec![area(0, 0, 10, 32758), area(0, 32758, 10, 9)]);
    let rows = cut_into_rows(area(0, 32768, 10, 32767), false, &asked);
    assert_eq!(rows, vec![area(0, 32768, 10, 32758), area(0, 65526, 10, 9)]);
    let full = vec![RowHeight::Length(6), RowHeight::Length(1), RowHeight::Min(32760)];
    let rows = cut_into_rows(area(0, 0, 10, 32767), false, &full);
    assert_eq!(rows, vec![area(0, 0, 10, 6), area(0, 6, 10, 1), area(0, 7, 10, 32760)]);
    let two = vec![RowHeight::Min(4), RowHeight::Min(30), RowHeight::Length(6)];
    let rows = cut_into_rows(area(0, 0, 10, 40), false, &two);
    assert_eq!(rows, vec![area(0, 0, 10, 4), area(0, 4, 10, 30), area(0, 34, 10, 6)]);
}

#[test]
fn the_screen_is_cut_in_two() {
    let mut app = App::new();
    let whole = area(0, 0, 80, 40);
    assert!(app.drawable(whole));
    let screen = app.ui(whole).unwrap();
    assert_eq!(screen.chat_area, area(1, 1, 78, 29));
    assert_eq!(screen.lower_area, area(1, 30, 78, 9));
    assert_eq!(app.chat_area_height, 27);
    assert_eq!(app.input_inner_width, 76);
    let lower = match screen.lower {
        LowerPart::Input(s) => s,
        other => panic!("{:?}", other),
    };
    assert_eq!(lower.help_area, area(1, 30, 78, 6));
    assert_eq!(lower.status, None);
    assert_eq!(lower.box_area, area(1, 36, 78, 3));
    assert_eq!(lower.cursor, Some(Cell { x: 2, y: 37 }));
    assert_eq!((lower.text.as_str(), lower.is_placeholder), ("...", true));
    let help: Vec<Vec<&str>> = lower.help.iter().map(texts).collect();
    assert_eq!(
        help,
        vec![
            vec!["Input"],
            vec!["Tab:select  ", "Ctrl+F:import  ", "Ctrl+J:nl"],
            vec!["Enter:submit  ", "PgUp/PgDn:scroll"],
            vec!["Ctrl+↑/↓:history  ", "End:scroll bottom"],
            vec!["Ctrl+R:rotate in  ", "Ctrl+O:rotate out"],
            vec!["Alt+I:add input  ", "Alt+O:add output"],
        ]
    );
    assert_eq!(
        lower.help[0].spans[0].style,
        Style { fg: Color::Cyan, bg: Color::Unset, bold: true }
    );
}

#[test]
fn the_lower_part_grows_with_the_text() {
    let mut app = App::new();
    let whole = area(0, 0, 80, 60);
    for (lines, height) in [(1usize, 9u16), (2, 9), (3, 10), (8, 15), (13, 20), (40, 20)] {
        app.input_text = vec!["x"; lines].join("\n");
        app.input_cursor = app.input_text.len();
        let screen = app.ui(whole).unwrap();
        assert_eq!(screen.lower_area.height, height, "{}", lines);
        assert_eq!(screen.chat_area.height, 58 - height);
    }
    app.input_text = "x".to_string();
    app.input_cursor = 1;
    app.status_message = Some("hello".to_string());
    let screen = app.ui(whole).unwrap();
    assert_eq!(screen.lower_area.height, 10);
    let lower = match screen.lower {
        LowerPart::Input(s) => s,
        other => panic!("{:?}", other),
    };
    let status = lower.status.unwrap();
    assert_eq!(texts(&status.line), vec![" hello"]);
    assert_eq!(status.line.spans[0].style.fg, Color::Yellow);
    assert_eq!(status.area, area(1, 55, 78, 1));
    assert_eq!(lower.box_area, area(1, 56, 78, 3));
    assert_eq!((lower.text.as_str(), lower.is_placeholder), ("x", false));
    assert_eq!(lower.cursor, Some(Cell { x: 3, y: 57 }));
}

#[test]
fn the_cursor_is_kept_in_the_box() {
    let mut app = App::new();
    app.input_text = vec!["x"; 40].join("\n");
    app.input_cursor = app.input_text.len();
    let screen = app.ui(area(0, 0, 80, 60)).unwrap();
    let lower = match screen.lower {
        LowerPart::Input(s) => s,
        other => panic!("{:?}", other),
    };
    assert_eq!(lower.box_area, area(1, 45, 78, 14));
    assert_eq!(lower.cursor, Some(Cell { x: 3, y: 58 }));
    app.mode = AppMode::Select { cursor_index: 0 };
    let screen = app.ui(area(0, 0, 80, 60)).unwrap();
    match screen.lower {
        LowerPart::Input(s) => {
            assert_eq!(s.cursor, None);
            assert_eq!(texts(&s.help[0]), vec!["SELECT Input"]);
        }
        other => panic!("{:?}", other),
    }
}

#[test]
fn a_cursor_within_a_character_cannot_be_drawn() {
    let mut app = App::new();
    app.input_text = "é".to_string();
    app.input_cursor = 1;
    assert!(!app.drawable(area(0, 0, 80, 40)));
    // Without a column in the box there is no place to look for.
    assert!(app.drawable(area(0, 0, 4, 40)));
    assert!(app.ui(area(0, 0, 4, 40)).is_some());
    app.mode = AppMode::Select { cursor_index: 0 };
    assert!(app.drawable(area(0, 0, 80, 40)));
}

#[test]
fn text_with_more_lines_than_can_be_counted_is_not_drawn() {
    let mut app = App::new();
    app.input_text = "\n".repeat(65_530);
    assert!(!app.drawable(area(0, 0, 80, 40)));
    app.input_text = "\n".repeat(65_527);
    assert!(app.drawable(area(0, 0, 80, 40)));
    app.input_text = "\n".repeat(65_536);
    assert!(app.drawable(area(0, 0, 80, 40)));
}

#[test]
fn a_cursor_beyond_the_last_cell_is_kept_in_the_box() {
    let mut app = App::new();
    app.input_text = "\n".repeat(65_527);
    app.input_cursor = app.input_text.len();
    let screen = app.ui(area(0, 0, 80, 40)).unwrap();
    match screen.lower {
        LowerPart::Input(s) => assert_eq!(s.cursor, Some(Cell { x: 2, y: 38 })),
        other => panic!("{:?}", other),
    }
}

#[test]
fn low_screens_are_drawn_within_their_bounds() {
    for height in 0..14u16 {
        for status in [None, Some("s".to_string())] {
            let mut app = App::new();
            app.status_message = status;
            let screen = app.ui(area(0, 0, 40, height)).unwrap();
            for part in [screen.chat_area, screen.lower_area] {
                assert!(part.y + part.height <= height.saturating_sub(1), "{}", height);
            }
            for y in [0u16, 9, 65_530] {
                let low = area(3, y, 40, height);
                let input = app.render_input(low);
                let end = y.saturating_add(height);
                let mut rows = vec![input.help_area, input.box_area];
                rows.extend(input.status.map(|s| s.area));
                for row in rows {
                    assert!(row.x == 3 && row.width == 40);
                    assert!(y <= row.y && row.y + row.height <= end);
                }
                assert!(input.cursor.is_some());
            }
        }
    }
}

#[test]
fn the_editor_has_its_own_help() {
    let mut app = App::new();
    app.mode = AppMode::EditFile { target_path: "/a".to_string(), dirty: true };
    app.input_text = "x".to_string();
    let lower = app.render_input(area(0, 0, 30, 12));
    let help: Vec<Vec<&str>> = lower.help.iter().map(texts).collect();
    assert_eq!(
        help,
        vec![
            vec!["Edit", " — Editing: \"/a\" [*]"],
            vec!["Enter:save+exit  ", "Ctrl+S:save  ", "Ctrl+J:nl"],
            vec!["Esc:cancel  ", "PgUp/PgDn:scroll"],
        ]
    );
    assert_eq!(lower.help_area, area(0, 0, 30, 3));
    assert_eq!(lower.box_area, area(0, 3, 30, 9));
    assert_eq!(lower.cursor, Some(Cell { x: 1, y: 4 }));
}

#[test]
fn messages_are_framed() {
    let mut app = App::new();
    app.messages = vec![
        message(MessageRole::Input, "a\nb"),
        message(MessageRole::Output, ""),
        message(MessageRole::System, "c"),
    ];
    app.mode = AppMode::Select { cursor_index: 2 };
    let lines = app.chat_lines();
    let shown: Vec<Vec<&str>> = lines.iter().map(texts).collect();
    let none: Vec<&str> = Vec::new();
    assert_eq!(
        shown,
        vec![
            vec!["═══ Chat Log ═══"],
            none.clone(),
            vec!["╔══ [USER INPUT] ", "01:01:01", " ══"],
            vec!["║  ", "a"],
            vec!["║  ", "b"],
            vec![FOOTER],
            none.clone(),
            vec!["╔══ [AGENT OUTPUT] ", "01:01:01", " ══"],
            vec![FOOTER],
            none.clone(),
            vec!["╔══ ▶ [SYSTEM] ", "01:01:01", " ══"],
            vec!["║  ", "c"],
            vec![FOOTER],
            none,
        ]
    );
    let bold = |fg| Style { fg, bg: Color::Unset, bold: true };
    let gray = Style { fg: Color::DarkGray, bg: Color::Unset, bold: false };
    let plain = Style { fg: Color::Unset, bg: Color::Unset, bold: false };
    let chosen = Style { fg: Color::White, bg: Color::DarkGray, bold: true };
    assert_eq!(lines[0].spans[0].style, bold(Color::White));
    assert_eq!(lines[2].spans[0].style, bold(Color::Cyan));
    assert_eq!(lines[2].spans[1].style, gray);
    assert_eq!(lines[3].spans[0].style, bold(Color::Cyan));
    assert_eq!(lines[3].spans[1].style, plain);
    assert_eq!(lines[5].spans[0].style, gray);
    assert_eq!(lines[7].spans[0].style, bold(Color::Green));
    assert_eq!(lines[10].spans[0].style, chosen);
    assert_eq!(lines[11].spans[0].style, chosen);
}

#[test]
fn the_log_goes_to_its_end_once() {
    // Two lines of title and twenty messages of four lines: 82 lines.
    let mut app = with_messages(&["x"; 20]);
    app.scroll_to_bottom = true;
    let chat = app.render_chat_log(area(0, 0, 50, 12));
    assert_eq!(chat.lines.len(), 82);
    assert_eq!(chat.scroll, 72);
    assert_eq!((app.scroll_offset, app.scroll_to_bottom), (72, false));
    app.scroll_offset = 60;
    assert_eq!(app.render_chat_log(area(0, 0, 50, 12)).scroll, 60);
    app.scroll_offset = 500;
    assert_eq!(app.render_chat_log(area(0, 0, 50, 12)).scroll, 72);
    assert_eq!(app.scroll_offset, 500);
    let mut short = with_messages(&["x"]);
    short.scroll_offset = 3;
    assert_eq!(short.render_chat_log(area(0, 0, 50, 12)).scroll, 0);
}

#[test]
fn the_chosen_message_is_brought_into_view() {
    let mut app = with_messages(&["x"; 20]);
    for (index, from) in [(19usize, 0usize), (0, 72), (10, 0), (10, 72), (5, 20)] {
        app.mode = AppMode::Select { cursor_index: index };
        app.scroll_offset = from;
        let chat = app.render_chat_log(area(0, 0, 50, 12));
        let top = chat.scroll as usize;
        let start = 2 + 4 * index;
        assert!(top <= start && start + 4 <= top + 10, "{} {} {}", index, from, top);
        assert_eq!(app.scroll_offset, top);
    }
    app.mode = AppMode::Select { cursor_index: 10 };
    app.scroll_offset = 0;
    assert_eq!(app.render_chat_log(area(0, 0, 50, 12)).scroll, 36);
    app.scroll_offset = 72;
    assert_eq!(app.render_chat_log(area(0, 0, 50, 12)).scroll, 42);
    // Choosing does not use up a request for the end.
    app.scroll_to_bottom = true;
    app.render_chat_log(area(0, 0, 50, 12));
    assert!(app.scroll_to_bottom);
}

#[test]
fn a_cursor_behind_the_messages_shows_the_end() {
    let mut app = with_messages(&["x"; 3]);
    app.mode = AppMode::Select { cursor_index: 9 };
    let chat = app.render_chat_log(area(0, 0, 50, 8));
    // Twelve lines on record and the title; three more are taken for a message without record.
    assert_eq!(chat.lines.len(), 14);
    assert_eq!(app.scroll_offset, 8);
    assert_eq!(chat.scroll, 8);
}

fn importing(buffer: &str, cursor: usize, completions: &[&str], chosen: usize) -> App {
    let mut app = App::new();
    app.mode = AppMode::Import {
        buffer: buffer.to_string(),
        cursor,
        completions: completions.iter().map(|s| s.to_string()).collect(),
        completion_index: chosen,
    };
    app
}

#[test]
fn a_path_is_drawn_with_its_completions() {
    let paths = ["/aa", "/bb", "/a/very/long/path", "/dd", "/ee", "/ff"];
    let mut app = importing("/a", 2, &paths, 1);
    let place = area(1, 20, 10, 9);
    assert!(app.prompt_drawable(place));
    let prompt = app.render_import(place).unwrap();
    assert_eq!(prompt.title, "Import file (Enter: copy | Tab: cycle | Esc: cancel)");
    assert_eq!(prompt.color, Color::Cyan);
    assert_eq!(prompt.text, "/a");
    assert_eq!(prompt.cursor, Cell { x: 4, y: 21 });
    let shown: Vec<Vec<&str>> = prompt.completions.iter().map(texts).collect();
    assert_eq!(
        shown,
        vec![vec!["/aa"], vec!["▶ /bb"], vec!["...ng/path"], vec!["/dd"], vec!["/ee"]]
    );
    assert_eq!(
        prompt.completions[1].spans[0],
        Span {
            text: "▶ /bb".to_string(),
            style: Style { fg: Color::White, bg: Color::DarkGray, bold: true },
        }
    );
    assert_eq!(app.render_add_dir(place, true), None);
    let screen = app.ui(area(0, 0, 60, 30)).unwrap();
    assert!(matches!(screen.lower, LowerPart::Prompt(_)));
}

#[test]
fn the_cursor_of_a_path_stops_at_the_border() {
    let app = importing("/a/very/long/path", 17, &[], 0);
    let prompt = app.render_import(area(1, 20, 10, 9)).unwrap();
    assert_eq!(prompt.cursor, Cell { x: 9, y: 21 });
    assert!(prompt.completions.is_empty());
}

#[test]
fn what_cannot_be_shortened_is_not_drawn() {
    // Ten bytes are left of seventeen: the cut would fall into a character.
    let mut app = importing("x", 1, &["/aaaaaéaaaaaaaaa"], 0);
    assert!(app.prompt_drawable(area(0, 0, 17, 9)));
    assert!(!app.prompt_drawable(area(0, 0, 13, 9)));
    assert!(app.prompt_drawable(area(0, 0, 12, 9)));
    assert!(!app.prompt_drawable(area(0, 0, 2, 9)));
    assert!(app.ui(area(0, 0, 15, 30)).is_none());
    let none = importing("x", 1, &[], 0);
    assert!(!none.prompt_drawable(area(0, 0, 1, 9)));
    assert!(!none.prompt_drawable(area(0, 65535, 10, 0)));
    assert!(!none.prompt_drawable(area(65534, 0, 1, 9)));
}

#[test]
fn directories_have_their_own_titles() {
    let mut app = App::new();
    app.mode = AppMode::AddInputDir {
        buffer: "d".to_string(),
        cursor: 1,
        completions: Vec::new(),
        completion_index: 0,
    };
    let prompt = app.render_add_dir(area(0, 0, 30, 9), true).unwrap();
    assert_eq!(prompt.title, "Add input directory (Enter: add | Tab: cycle | Esc: cancel)");
    assert_eq!(prompt.color, Color::Yellow);
    assert_eq!(app.render_add_dir(area(0, 0, 30, 9), false), None);
    assert_eq!(app.render_import(area(0, 0, 30, 9)), None);
    app.mode = AppMode::AddOutputDir {
        buffer: "d".to_string(),
        cursor: 1,
        completions: Vec::new(),
        completion_index: 0,
    };
    let prompt = app.render_add_dir(area(0, 0, 30, 9), false).unwrap();
    assert_eq!(prompt.title, "Add output directory (Enter: add | Tab: cycle | Esc: cancel)");
}

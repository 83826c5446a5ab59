use psi_cli::wrap::{char_display_width, move_cursor_vertical, wrapped_cursor, wrapped_line_count, wrapped_line_starts};

#[test]
fn lines_wrap_at_the_width() {
    assert_eq!(wrapped_line_starts("abcdef", 3), vec![0, 3]);
    assert_eq!(wrapped_line_starts("abc", 3), vec![0]);
    assert_eq!(wrapped_line_starts("ab\ncdef", 3), vec![0, 3, 6]);
    assert_eq!(wrapped_line_starts("", 3), vec![0]);
    assert_eq!(wrapped_line_starts("abc", 0), vec![0]);
    assert_eq!(wrapped_line_count("abcdef", 3), 2);
    assert_eq!(wrapped_line_count("abcdefg", 3), 3);
    assert_eq!(wrapped_line_count("", 3), 1);
    assert_eq!(wrapped_line_count("a\n", 3), 2);
    assert_eq!(wrapped_line_count("abc", 0), 1);
}

#[test]
fn wide_characters_take_two_columns() {
    assert_eq!(wrapped_line_starts("漢漢漢", 4), vec![0, 6]);
    assert_eq!(wrapped_line_starts("a漢漢", 4), vec![0, 4]);
    assert_eq!(wrapped_line_count("漢漢漢", 5), 2);
    assert_eq!(wrapped_cursor("漢漢漢", 6, 10), (0, 4));
    // A character wider than the box has a line of its own.
    assert_eq!(wrapped_line_starts("漢漢", 1), vec![0, 3]);
    // Control characters and combining marks take no column.
    assert_eq!(wrapped_cursor("a\tb", 3, 10), (0, 2));
    assert_eq!(wrapped_cursor("e\u{301}x", 4, 10), (0, 2));
}

#[test]
fn the_cursor_has_a_line_and_a_column() {
    assert_eq!(wrapped_cursor("abcdef", 0, 3), (0, 0));
    assert_eq!(wrapped_cursor("abcdef", 3, 3), (0, 3));
    assert_eq!(wrapped_cursor("abcdef", 4, 3), (1, 1));
    assert_eq!(wrapped_cursor("ab\nc", 3, 3), (1, 0));
    assert_eq!(wrapped_cursor("ab\nc", 99, 3), (1, 1));
    assert_eq!(wrapped_cursor("abc", 2, 0), (0, 0));
}

#[test]
fn the_cursor_moves_by_display_lines() {
    let text = "abcdef\nxy";
    // Lines: "abc" at 0, "def\n" at 3, "xy" at 7.
    assert_eq!(wrapped_line_starts(text, 3), vec![0, 3, 7]);
    assert_eq!(move_cursor_vertical(text, 8, 3, -1), 4);
    assert_eq!(move_cursor_vertical(text, 4, 3, -1), 1);
    assert_eq!(move_cursor_vertical(text, 1, 3, -1), 1);
    assert_eq!(move_cursor_vertical(text, 1, 3, 1), 4);
    assert_eq!(move_cursor_vertical(text, 4, 3, 1), 8);
    assert_eq!(move_cursor_vertical(text, 8, 3, 1), 8);
    assert_eq!(move_cursor_vertical("", 0, 3, 1), 0);
}

#[test]
fn a_boundary_between_lines_belongs_to_the_upper_one() {
    // The offset where a line starts is also where the one above it ends.
    assert_eq!(move_cursor_vertical("abcdef", 3, 3, -1), 3);
    assert_eq!(move_cursor_vertical("abcdef", 3, 3, 1), 6);
}

#[test]
fn the_cursor_stops_short_of_wide_characters() {
    let text = "abc\n漢漢";
    assert_eq!(move_cursor_vertical(text, 1, 10, 1), 4);
    assert_eq!(move_cursor_vertical(text, 2, 10, 1), 7);
    assert_eq!(move_cursor_vertical(text, 7, 10, -1), 2);
}

#[test]
fn words_stay_whole() {
    assert_eq!(wrapped_cursor("ab cde", 6, 4), (1, 3));
    assert_eq!(wrapped_line_starts("ab cde", 4), vec![0, 3]);
    assert_eq!(wrapped_cursor("ab cde", 2, 4), (0, 2));
    // Behind the space the cursor still stands on the first line.
    assert_eq!(wrapped_cursor("ab cde", 3, 4), (0, 3));
    assert_eq!(wrapped_line_starts("one two three", 8), vec![0, 8]);
    // A word longer than a line is broken where the line is full.
    assert_eq!(wrapped_line_starts("a abcdefgh b", 4), vec![0, 2, 6, 10]);
    assert_eq!(wrapped_line_count("a abcdefgh b", 4), 4);
}

#[test]
fn white_space_that_does_not_fit_starts_the_next_line() {
    assert_eq!(wrapped_line_starts("abcd ef", 4), vec![0, 4]);
    assert_eq!(wrapped_cursor("abcd ef", 7, 4), (1, 3));
    assert_eq!(wrapped_line_starts("abcd   ", 4), vec![0, 4]);
    assert_eq!(wrapped_cursor("abcd   ", 7, 4), (1, 3));
    assert_eq!(wrapped_line_starts("abcd  \nef", 4), vec![0, 4, 7]);
    assert_eq!(wrapped_line_count("      ", 4), 2);
    assert_eq!(wrapped_line_starts("      ", 4), vec![0, 4]);
    assert_eq!(wrapped_cursor("      ", 6, 4), (1, 2));
}

#[test]
fn lines_of_white_space_are_filled_evenly() {
    let text = "           a";
    assert_eq!(wrapped_line_starts(text, 4), vec![0, 4, 8]);
    assert_eq!(wrapped_line_count(text, 4), 3);
    assert_eq!(move_cursor_vertical(text, 1, 4, 1), 5);
    assert_eq!(move_cursor_vertical(text, 5, 4, -1), 1);
    assert_eq!(move_cursor_vertical(text, 4, 4, 1), 8);
    assert_eq!(move_cursor_vertical(text, 8, 4, 1), 12);
    assert_eq!(move_cursor_vertical(text, 12, 4, -1), 8);
}

#[test]
fn one_white_space_at_the_edge_is_left_out_to_keep_a_word_whole() {
    assert_eq!(wrapped_line_starts("hello world", 5), vec![0, 6]);
    assert_eq!(wrapped_cursor("hello world", 5, 5), (0, 5));
    assert_eq!(wrapped_cursor("hello world", 6, 5), (1, 0));
    assert_eq!(wrapped_cursor("hello world", 11, 5), (1, 5));
    assert_eq!(wrapped_line_starts("abcd   ef", 4), vec![0, 5]);
    assert_eq!(wrapped_cursor("abcd   ef", 9, 4), (1, 4));
    assert_eq!(wrapped_line_starts("abcd efgh ij", 4), vec![0, 5, 9]);
    // With more white space the word has a line of its own anyway.
    assert_eq!(wrapped_line_starts("abcd    ef", 4), vec![0, 4, 8]);
}

#[test]
fn lines_keep_to_the_width_and_take_what_fits() {
    let text = "some  words of a text   that has  to be wrapped somewhere, word by word ";
    for width in 1..30usize {
        let starts = wrapped_line_starts(text, width as u16);
        for pair in starts.windows(2) {
            let line = &text[pair[0]..pair[1]];
            assert!(line.len() - 1 <= width);
            if line.len() <= width {
                // The next word, or the next space, would have been too much.
                let rest = &text[pair[1]..];
                let more = if rest.starts_with(' ') { 1 } else { rest.find(' ').unwrap_or(rest.len()) };
                assert!(line.len() + more > width);
            }
            let inside = !text[..pair[1]].ends_with(' ') && !text[pair[1]..].starts_with(' ');
            assert!(!inside || !line.contains(' '));
        }
        assert!(text.len() - starts[starts.len() - 1] <= width);
    }
}

#[test]
fn up_stops_before_the_line_break() {
    assert_eq!(move_cursor_vertical("ab\ncd", 5, 80, -1), 2);
    assert_eq!(wrapped_cursor("ab\ncd", 2, 80), (0, 2));
    assert_eq!(move_cursor_vertical("ab\ncd", 3, 80, -1), 0);
    assert_eq!(move_cursor_vertical("ab\ncd", 2, 80, 1), 5);
    assert_eq!(move_cursor_vertical("\n\n", 1, 80, -1), 0);
    assert_eq!(move_cursor_vertical("\n\n", 1, 80, 1), 2);
}

#[test]
fn down_and_up_comes_back_in_one_word() {
    let text: String = (0..50).map(|i| (b'!' + (i % 90) as u8) as char).collect();
    for width in 1..20u16 {
        let w = width as usize;
        for offset in 1..=text.len() - w {
            let down = move_cursor_vertical(&text, offset, width, 1);
            assert_eq!(down, offset + w);
            assert_eq!(move_cursor_vertical(&text, down, width, -1), offset);
        }
    }
}

#[test]
fn down_and_up_comes_back_among_words() {
    let text = "some words that wrap to lines of some length";
    for width in 6..20u16 {
        let starts = wrapped_line_starts(text, width);
        for offset in 0..text.len() {
            let (line, col) = wrapped_cursor(text, offset, width);
            let below = if line + 2 < starts.len() { starts[line + 2] - 1 } else { text.len() };
            if col > 0 && line + 1 < starts.len() && starts[line + 1] + col <= below {
                let down = move_cursor_vertical(text, offset, width, 1);
                assert_eq!(down, starts[line + 1] + col);
                assert_eq!(move_cursor_vertical(text, down, width, -1), offset);
            }
        }
    }
}

#[test]
fn the_next_line_is_entered_at_the_same_column() {
    assert_eq!(move_cursor_vertical("abcdef", 0, 3, 1), 3);
    assert_eq!(move_cursor_vertical("abcdef", 1, 3, 1), 4);
    // The start of the second line is where the first one ends.
    assert_eq!(wrapped_cursor("abcdef", 3, 3), (0, 3));
    assert_eq!(wrapped_cursor("abcdef", 4, 3), (1, 1));
}

#[test]
fn widths_are_those_of_a_terminal() {
    assert_eq!(char_display_width('a'), 1);
    assert_eq!(char_display_width(' '), 1);
    assert_eq!(char_display_width('~'), 1);
    assert_eq!(char_display_width('\t'), 0);
    assert_eq!(char_display_width('\u{7f}'), 0);
    assert_eq!(char_display_width('\u{301}'), 0);
    assert_eq!(char_display_width('漢'), 2);
}

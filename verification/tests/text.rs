use psi_cli::clock::{Timestamp, FIRST_SECOND, LAST_SECOND};
use psi_cli::order::{stable_sort, Ranked};
use psi_cli::paths::{find_dir, is_inside, is_same_path, name_or_empty, RankedPath};
use psi_cli::size::kilobytes;
use psi_cli::text::{
    characters, chain, count_lines, decimal_text, is_blank, join_texts, on_boundary, same_text,
    signed_decimal_text, split_lines, starts_with, string_of, text_len, utf8_width,
};

fn strings(items: &[&str]) -> Vec<String> {
    items.iter().map(|s| s.to_string()).collect()
}

#[test]
fn lengths_count_bytes() {
    assert_eq!(text_len("aé漢🦀"), 10);
    assert_eq!(utf8_width('a'), 1);
    assert_eq!(utf8_width('é'), 2);
    assert_eq!(utf8_width('漢'), 3);
    assert_eq!(utf8_width('🦀'), 4);
    let offsets: Vec<usize> = (0..=11).filter(|at| on_boundary("aé漢🦀", *at)).collect();
    assert_eq!(offsets, vec![0, 1, 3, 6, 10]);
}

#[test]
fn characters_and_back() {
    let chars = characters("aé漢");
    assert_eq!(chars, vec!['a', 'é', '漢']);
    assert_eq!(string_of(&chars), "aé漢");
    assert_eq!(chain("ab", "é"), "abé");
    assert!(same_text("é", "é"));
    assert!(!same_text("é", "e"));
    assert!(starts_with("~/x", "~/"));
    assert!(!starts_with("~", "~/"));
}

#[test]
fn lines_end_at_line_feeds() {
    for text in ["", "a", "a\n", "a\nb", "a\r\nb\r\n", "\n", "\n\n", "a\r", "a\rb\n\r\n", "é\n漢"] {
        let expected: Vec<String> = text.lines().map(|l| l.to_string()).collect();
        assert_eq!(split_lines(text), expected, "{:?}", text);
        assert_eq!(count_lines(text), expected.len());
    }
}

#[test]
fn blank_text_is_white_space() {
    for text in ["", " ", "\t\n\r ", "\u{a0}\u{2003}\u{3000}", "\u{85}"] {
        assert!(is_blank(text), "{:?}", text);
    }
    for text in ["a", " a ", "\u{200b}", "0", "~", "!"] {
        assert!(!is_blank(text), "{:?}", text);
    }
}

#[test]
fn numbers_in_decimal() {
    assert_eq!(decimal_text(0), "0");
    assert_eq!(decimal_text(10), "10");
    assert_eq!(decimal_text(u64::MAX), "18446744073709551615");
    assert_eq!(signed_decimal_text(-7), "-7");
    assert_eq!(signed_decimal_text(i64::MIN), "-9223372036854775808");
    assert_eq!(signed_decimal_text(i64::MAX), "9223372036854775807");
}

#[test]
fn texts_are_joined() {
    assert_eq!(join_texts(&strings(&[]), ":"), "");
    assert_eq!(join_texts(&strings(&["a"]), ":"), "a");
    assert_eq!(join_texts(&strings(&["a", "", "c"]), ":"), "a::c");
}

#[test]
fn sizes_are_rounded_as_doubles_are_shown() {
    let mut sizes: Vec<u64> = (0..70_000).collect();
    for power in 0..64u32 {
        let p = 1u64 << power;
        for d in 0..200u64 {
            sizes.push(p.wrapping_add(d * 7));
            sizes.push(p.wrapping_sub(d * 3 + 1));
        }
    }
    sizes.push(u64::MAX);
    sizes.push(9_007_199_254_740_993);
    sizes.push(9_007_199_254_740_995);
    for size in sizes {
        assert_eq!(kilobytes(size), format!("{:.2}", size as f64 / 1024.0), "{}", size);
    }
    assert_eq!(kilobytes(1536), "1.50");
    assert_eq!(kilobytes(128), "0.12");
    assert_eq!(kilobytes(384), "0.38");
}

#[test]
fn paths_say_the_same_however_written() {
    assert!(is_same_path("a//b/", "a/b"));
    assert!(is_same_path("a/./b", "a/b"));
    assert!(!is_same_path("a/b", "a/c"));
    assert!(!is_same_path("./a", "a"));
    let dirs = strings(&["x", "a/b", "a//b"]);
    assert_eq!(find_dir(&dirs, "a/b/"), Some(1));
    assert_eq!(find_dir(&dirs, "y"), None);
}

#[test]
fn file_names_are_last_components() {
    assert_eq!(name_or_empty("/a/b.txt"), "b.txt");
    assert_eq!(name_or_empty("/a/b/"), "b");
    assert_eq!(name_or_empty("/"), "");
    assert_eq!(name_or_empty("a/.."), "");
}

#[test]
fn files_reside_in_whole_directories() {
    assert!(is_inside("/a/in/x", "/a/in"));
    assert!(is_inside("/a/in", "/a/in"));
    assert!(is_inside("/a/in/x", "/a/in/"));
    assert!(is_inside("/x", "/"));
    assert!(!is_inside("/a/input/x", "/a/in"));
    assert!(!is_inside("/a", "/a/in"));
}

#[test]
fn sorting_goes_by_path_and_keeps_equals() {
    let paths = ["b", "a/z", "a", "a//b", "a/b", "a-b"];
    let ranked: Vec<RankedPath> =
        paths.iter().map(|p| RankedPath { text: p.to_string() }).collect();
    let sorted: Vec<String> = stable_sort(ranked).into_iter().map(|p| p.text).collect();
    let mut expected: Vec<std::path::PathBuf> = paths.iter().map(std::path::PathBuf::from).collect();
    expected.sort();
    let expected: Vec<String> =
        expected.into_iter().map(|p| p.to_string_lossy().to_string()).collect();
    assert_eq!(sorted, expected);
    assert_eq!(sorted, strings(&["a", "a//b", "a/b", "a/z", "a-b", "b"]));
}

#[test]
fn sorting_keeps_items_of_one_rank_in_their_order() {
    for order in [["a/b", "a//b", "a/./b"], ["a/./b", "a/b", "a//b"], ["a//b", "a/./b", "a/b"]] {
        let mut paths: Vec<RankedPath> = vec![RankedPath { text: "b".to_string() }];
        paths.extend(order.iter().map(|p| RankedPath { text: p.to_string() }));
        paths.push(RankedPath { text: "a".to_string() });
        let sorted: Vec<String> = stable_sort(paths).into_iter().map(|p| p.text).collect();
        assert_eq!(sorted, strings(&["a", order[0], order[1], order[2], "b"]));
    }
}

#[test]
fn what_is_sorted_stays_sorted() {
    let once: Vec<RankedPath> = stable_sort(
        ["c", "a", "b"].iter().map(|p| RankedPath { text: p.to_string() }).collect(),
    );
    let twice: Vec<String> = stable_sort(once).into_iter().map(|p| p.text).collect();
    assert_eq!(twice, strings(&["a", "b", "c"]));
}

#[test]
fn the_calendar_has_ends() {
    assert!(chrono::DateTime::from_timestamp(FIRST_SECOND, 0).is_some());
    assert!(chrono::DateTime::from_timestamp(FIRST_SECOND - 1, 0).is_none());
    assert!(chrono::DateTime::from_timestamp(LAST_SECOND, 999_999_999).is_some());
    assert!(chrono::DateTime::from_timestamp(LAST_SECOND + 1, 0).is_none());
    for secs in [FIRST_SECOND, LAST_SECOND] {
        for offset in [-86_399, 0, 86_399] {
            let t = Timestamp::new(secs, 0, offset).unwrap();
            assert_eq!(t.clock_text().len(), 8);
            assert_eq!(t.as_millis(), secs * 1000);
            assert!(!t.rfc3339_text().is_empty());
        }
    }
    assert!(Timestamp::new(FIRST_SECOND - 1, 0, 0).is_none());
    assert!(Timestamp::new(LAST_SECOND + 1, 0, 0).is_none());
    assert!(Timestamp::new(0, 0, 86_400).is_none());
    assert!(Timestamp::new(0, 0, -86_400).is_none());
    assert!(Timestamp::new(0, 1_000_000_000, 0).is_none());
    assert!(Timestamp::new(59, 2_000_000_000, 0).is_none());
}

#[test]
fn moments_are_written_as_the_calendar_has_them() {
    let t = Timestamp::new(1_700_000_000, 123_456_789, 3600).unwrap();
    assert_eq!(t.clock_text(), "23:13:20");
    assert_eq!(t.as_millis(), 1_700_000_000_123);
    assert_eq!(t.rfc3339_text(), "2023-11-14T23:13:20.123456789+01:00");
    let west = Timestamp::new(0, 0, -3600).unwrap();
    assert_eq!(west.clock_text(), "23:00:00");
    assert_eq!(west.rfc3339_text(), "1969-12-31T23:00:00-01:00");
    let before = Timestamp::new(-1, 500_000_000, 0).unwrap();
    assert_eq!(before.clock_text(), "23:59:59");
    assert_eq!(before.as_millis(), -500);
    let leap = Timestamp::new(59, 1_500_000_000, 0).unwrap();
    assert_eq!(leap.clock_text(), "00:00:60");
    assert_eq!(leap.as_millis(), 60_500);
}

#[test]
fn moments_are_ordered_without_regard_to_the_zone() {
    let a = Timestamp::new(10, 5, 3600).unwrap();
    let b = Timestamp::new(10, 6, -3600).unwrap();
    let c = Timestamp::new(11, 0, 0).unwrap();
    assert!(a.comes_before(&b));
    assert!(b.comes_before(&c));
    assert!(!c.comes_before(&a));
    assert!(!a.comes_before(&a));
}

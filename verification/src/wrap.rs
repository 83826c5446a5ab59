//! Where text lands when it is wrapped, word by word, to the width of the input box.
use vstd::prelude::*;

use crate::text::{
    ascii, boundary, byte_len, characters, chars_before, lemma_ascii_offsets, lemma_byte_len_take,
    lemma_chars_before, text_len, utf8_width, white_space,
};

verus! {

/// The columns that `unicode_width` gives a character; a control character has none to give.
pub uninterp spec fn unicode_columns(c: char) -> Option<u8>;

/// `UnicodeWidthChar::width` looks a character up in fixed tables: nothing for the control
/// characters, one column for each printable ASCII character, and never more than a few.
#[verifier::external_body]
fn unicode_width_of(c: char) -> (w: Option<usize>)
    ensures
        match (w, unicode_columns(c)) {
            (Some(n), Some(m)) => n == m,
            (None, None) => true,
            _ => false,
        },
        (c as u32) < 0x20 ==> w is None,
        0x20 <= (c as u32) < 0x7f ==> w == Some(1usize),
{
    unicode_width::UnicodeWidthChar::width(c)
}

/// The columns that a character takes on a terminal; a control character takes none.
pub open spec fn display_columns(c: char) -> u8 {
    match unicode_columns(c) {
        Some(n) => n,
        None => 0,
    }
}

/// The columns that a character takes on a terminal: none for a control character, one for each
/// printable ASCII character.
pub fn char_display_width(c: char) -> (w: usize)
    ensures
        w == display_columns(c),
        (c as u32) < 0x20 ==> w == 0,
        0x20 <= (c as u32) < 0x7f ==> w == 1,
{
    match unicode_width_of(c) {
        Some(n) => n,
        None => 0,
    }
}

/// The columns that a text takes on one line.
pub open spec fn columns(text: Seq<char>) -> nat
    decreases text.len(),
{
    if text.len() == 0 {
        0
    } else {
        columns(text.drop_last()) + display_columns(text.last()) as nat
    }
}

/// The columns that the characters from `i` to `j` take on one line.
pub open spec fn run(text: Seq<char>, i: int, j: int) -> nat {
    columns(text.subrange(i, j))
}

/// White space between words.
pub open spec fn gap(c: char) -> bool {
    white_space(c) && c != '\n'
}

/// How far the characters from `k` on, of which those up to `e` are taken already, fit into
/// `width` columns. The first that takes a column always does.
pub open spec fn fit_end(text: Seq<char>, k: int, e: int, width: nat) -> int
    decreases text.len() - e,
{
    if e < text.len() && text[e] != '\n' && (run(text, k, e) == 0 || run(text, k, e + 1) <= width) {
        fit_end(text, k, e + 1, width)
    } else {
        e
    }
}

/// The end of the white space at `e`.
pub open spec fn gap_end(text: Seq<char>, e: int) -> int
    decreases text.len() - e,
{
    if e < text.len() && gap(text[e]) {
        gap_end(text, e + 1)
    } else {
        e
    }
}

/// A character of a word.
pub open spec fn in_word(c: char) -> bool {
    !gap(c) && c != '\n'
}

/// The end of the word at `e`.
pub open spec fn word_end(text: Seq<char>, e: int) -> int
    decreases text.len() - e,
{
    if e < text.len() && in_word(text[e]) {
        word_end(text, e + 1)
    } else {
        e
    }
}

/// The start of the word that reaches up to `e`, as far as it lies behind `k`.
pub open spec fn word_start(text: Seq<char>, k: int, e: int) -> int
    decreases e - k,
{
    if e <= k {
        k
    } else if gap(text[e - 1]) {
        e
    } else {
        word_start(text, k, e - 1)
    }
}

/// The start of a display line: the character that it starts with, and whether the text goes on
/// there without a character that ends the line above.
pub struct Break {
    pub at: int,
    pub soft: bool,
}

/// The white space at `e`, right behind a word at the edge, is left out: with it at the start of
/// the next line, the word behind it would be one column too long for that line, and be split.
pub open spec fn left_out(text: Seq<char>, e: int, width: nat) -> bool {
    let g = gap_end(text, e);
    let h = word_end(text, g);
    &&& 0 < e && in_word(text[e - 1])
    &&& g < fit_end(text, e, e, width) < h
    &&& run(text, e + 1, h) <= width
}

/// The display line behind the one that starts at `k`, if there is one, when characters are put
/// down one after the other: a line break ends a line, and a character that does not fit starts
/// the next one.
pub open spec fn next_by_character(text: Seq<char>, k: int, width: nat) -> Option<Break> {
    let e = fit_end(text, k, k, width);
    if e >= text.len() {
        None
    } else if text[e] == '\n' {
        Some(Break { at: e + 1, soft: false })
    } else {
        Some(Break { at: e, soft: true })
    }
}

/// The display line behind the one that starts at `k`, if there is one. Characters are put down
/// one after the other, white space with its columns like any other: what does not fit starts the
/// next line, also in a line of white space alone and at the end of the text. Only words are
/// treated apart, as in a paragraph drawn with word wrapping: a word that does not fit starts the
/// next line, unless it began its own, and one white space at the edge between two words is left
/// out where the second would be split otherwise.
pub open spec fn next_break(text: Seq<char>, k: int, width: nat) -> Option<Break> {
    let e = fit_end(text, k, k, width);
    if e < text.len() && gap(text[e]) && left_out(text, e, width) {
        Some(Break { at: e + 1, soft: false })
    } else if e < text.len() && in_word(text[e]) && word_start(text, k, e) > k {
        Some(Break { at: word_start(text, k, e), soft: true })
    } else {
        next_by_character(text, k, width)
    }
}

/// The display lines from `b` on when characters are put down one after the other.
pub open spec fn characters_from(text: Seq<char>, b: Break, width: nat) -> Seq<Break>
    decreases text.len() - b.at,
{
    match next_by_character(text, b.at, width) {
        Some(n) => if b.at < n.at <= text.len() {
            seq![b] + characters_from(text, n, width)
        } else {
            seq![b]
        },
        None => seq![b],
    }
}

/// Putting down the characters from `k` on one after the other splits no word that did not begin
/// its line.
pub open spec fn whole_words_from(text: Seq<char>, k: int, width: nat) -> bool
    decreases text.len() - k,
{
    match next_by_character(text, k, width) {
        Some(n) => k < n.at <= text.len() ==> {
            &&& n.soft && in_word(text[n.at]) ==> {
                let b = word_start(text, k, n.at);
                b == k || b == n.at
            }
            &&& whole_words_from(text, n.at, width)
        },
        None => true,
    }
}

/// The display lines from `b` on.
pub open spec fn breaks_from(text: Seq<char>, b: Break, width: nat) -> Seq<Break>
    decreases text.len() - b.at,
{
    match next_break(text, b.at, width) {
        Some(n) => if b.at < n.at <= text.len() {
            seq![b] + breaks_from(text, n, width)
        } else {
            seq![b]
        },
        None => seq![b],
    }
}

/// The display lines of a text in a box `width` columns wide; a box without columns holds one.
pub open spec fn layout(text: Seq<char>, width: u16) -> Seq<Break> {
    if width == 0 {
        seq![Break { at: 0, soft: false }]
    } else {
        breaks_from(text, Break { at: 0, soft: false }, width as nat)
    }
}

/// The byte offsets at which the display lines of a text start.
pub open spec fn box_line_starts(text: Seq<char>, width: u16) -> Seq<int> {
    layout(text, width).map_values(|b: Break| byte_len(text.take(b.at)) as int)
}

/// The display lines that a text takes.
pub open spec fn box_line_count(text: Seq<char>, width: u16) -> int {
    layout(text, width).len() as int
}

/// The first place of the cursor on a line. Where the text goes on without a character that ends
/// the line above, the cursor still stands at the end of that line.
pub open spec fn first_stop(b: Break) -> int {
    if b.soft {
        b.at + 1
    } else {
        b.at
    }
}

/// The last place of the cursor on line `i`: before the line break or the white space that ends
/// it, at the end of what it holds, or at the end of the text.
pub open spec fn last_stop(text: Seq<char>, lines: Seq<Break>, i: int) -> int {
    if i + 1 < lines.len() {
        first_stop(lines[i + 1]) - 1
    } else {
        text.len() as int
    }
}

/// The line of the cursor before the character `k`, among the lines up to `i`.
pub open spec fn line_at(lines: Seq<Break>, k: int, i: int) -> int
    decreases i,
{
    if i <= 0 {
        0
    } else if first_stop(lines[i]) <= k {
        i
    } else {
        line_at(lines, k, i - 1)
    }
}

/// The line of the cursor before the character `k`.
pub open spec fn line_of(lines: Seq<Break>, k: int) -> int {
    line_at(lines, k, lines.len() - 1)
}

/// A display line, counted from the top, and a column on it.
pub struct Place {
    pub line: nat,
    pub col: nat,
}

/// The place of the cursor before the character `k`.
pub open spec fn place_of(text: Seq<char>, k: int, width: u16) -> Place {
    let lines = layout(text, width);
    let line = line_of(lines, k);
    Place { line: line as nat, col: run(text, lines[line].at, k) }
}

/// The place of the byte offset `at` in a box `width` columns wide; an offset past the end stands
/// at the end, and a box without columns has the one place.
pub open spec fn box_place(text: Seq<char>, at: int, width: u16) -> Place {
    if width == 0 {
        Place { line: 0, col: 0 }
    } else if at < byte_len(text) {
        place_of(text, chars_before(text, at), width)
    } else {
        place_of(text, text.len() as int, width)
    }
}

/// How far the cursor gets from `j` on, on a line that starts at `start`, within `col` columns.
pub open spec fn seek(text: Seq<char>, start: int, j: int, last: int, col: int) -> int
    decreases last - j,
{
    if j < last && run(text, start, j + 1) <= col {
        seek(text, start, j + 1, last, col)
    } else {
        j
    }
}

/// The line above or below, as far as there is one.
pub open spec fn neighbour(line: int, count: int, direction: i32) -> int {
    if direction < 0 {
        if line > 0 {
            line - 1
        } else {
            0
        }
    } else if line + 1 < count {
        line + 1
    } else {
        count - 1
    }
}

/// Where the cursor before the character `k` goes when it moves one display line up
/// (`direction < 0`) or down: to the column it had, or the last one before it.
pub open spec fn vertical_stop(text: Seq<char>, k: int, width: u16, direction: i32) -> int {
    let lines = layout(text, width);
    let line = line_of(lines, k);
    let target = neighbour(line, lines.len() as int, direction);
    if target == line {
        k
    } else {
        seek(
            text,
            lines[target].at,
            lines[target].at,
            last_stop(text, lines, target),
            run(text, lines[line].at, k) as int,
        )
    }
}

/// Where the cursor at a byte offset goes when it moves one display line up or down. An offset
/// past the end counts as the start of the text, and stays as it is where there is no line.
pub open spec fn vertical_target(text: Seq<char>, offset: int, width: u16, direction: i32) -> int {
    let known = offset <= byte_len(text);
    let k = if known {
        chars_before(text, offset)
    } else {
        0
    };
    let count = box_line_count(text, width);
    if text.len() == 0 {
        0
    } else if neighbour(line_of(layout(text, width), k), count, direction) == line_of(
        layout(text, width),
        k,
    ) {
        offset
    } else {
        byte_len(text.take(vertical_stop(text, k, width, direction))) as int
    }
}

proof fn lemma_run_step(text: Seq<char>, i: int, j: int)
    requires
        0 <= i <= j < text.len(),
    ensures
        run(text, i, j + 1) == run(text, i, j) + display_columns(text[j]),
{
    assert(text.subrange(i, j + 1).drop_last() =~= text.subrange(i, j));
}

proof fn lemma_fit_end(text: Seq<char>, k: int, e: int, width: nat)
    requires
        0 <= k <= e <= text.len(),
    ensures
        ({
            let f = fit_end(text, k, e, width);
            &&& e <= f <= text.len()
            &&& k == e && k < text.len() && text[k] != '\n' ==> f > k
            &&& forall|j: int| e <= j < f ==> #[trigger] text[j] != '\n'
            &&& f < text.len() && text[f] != '\n' ==> run(text, k, f + 1) > width
            &&& run(text, k, f) == run(text, k, e) || run(text, k, f) <= width || exists|j: int|
                e <= j < f && run(text, k, f) == display_columns(#[trigger] text[j])
        }),
    decreases text.len() - e,
{
    if e < text.len() && text[e] != '\n' && (run(text, k, e) == 0 || run(text, k, e + 1) <= width) {
        lemma_run_step(text, k, e);
        lemma_fit_end(text, k, e + 1, width);
        let f = fit_end(text, k, e + 1, width);
        if run(text, k, f) == run(text, k, e + 1) && run(text, k, e) == 0 {
            assert(run(text, k, f) == display_columns(text[e]));
        }
    }
    assert(text.subrange(k, k) =~= Seq::<char>::empty());
}

proof fn lemma_gap_end(text: Seq<char>, e: int)
    requires
        0 <= e <= text.len(),
    ensures
        e <= gap_end(text, e) <= text.len(),
        forall|j: int| e <= j < gap_end(text, e) ==> gap(#[trigger] text[j]),
        gap_end(text, e) < text.len() ==> !gap(text[gap_end(text, e)]),
    decreases text.len() - e,
{
    if e < text.len() && gap(text[e]) {
        lemma_gap_end(text, e + 1);
    }
}

proof fn lemma_word_end(text: Seq<char>, e: int)
    requires
        0 <= e <= text.len(),
    ensures
        e <= word_end(text, e) <= text.len(),
        forall|j: int| e <= j < word_end(text, e) ==> in_word(#[trigger] text[j]),
        word_end(text, e) < text.len() ==> !in_word(text[word_end(text, e)]),
    decreases text.len() - e,
{
    if e < text.len() && in_word(text[e]) {
        lemma_word_end(text, e + 1);
    }
}

proof fn lemma_word_start(text: Seq<char>, k: int, e: int)
    requires
        0 <= k <= e <= text.len(),
    ensures
        k <= word_start(text, k, e) <= e,
        word_start(text, k, e) > k ==> gap(text[word_start(text, k, e) - 1]),
        forall|j: int| word_start(text, k, e) <= j < e ==> !gap(#[trigger] text[j]),
    decreases e - k,
{
    if e > k && !gap(text[e - 1]) {
        lemma_word_start(text, k, e - 1);
    }
}

/// What a line leads on to: the next one starts behind the characters that fit, or behind one
/// more that ends the line.
proof fn lemma_next_break(text: Seq<char>, k: int, width: nat)
    requires
        0 <= k <= text.len(),
    ensures
        ({
            let e = fit_end(text, k, k, width);
            &&& k <= e <= text.len()
            &&& k < text.len() && text[k] != '\n' ==> k < e
            &&& match next_break(text, k, width) {
                Some(n) => {
                    &&& k < n.at <= text.len()
                    &&& first_stop(n) - 1 <= e < text.len()
                    &&& n.soft ==> n.at < text.len() && text[n.at] != '\n'
                    &&& !n.soft ==> n.at == e + 1 && !in_word(text[e])
                },
                None => e == text.len(),
            }
        }),
{
    lemma_fit_end(text, k, k, width);
    let e = fit_end(text, k, k, width);
    lemma_word_start(text, k, e);
    if e < text.len() && e > k && in_word(text[e]) && word_start(text, k, e) > k {
        assert(forall|j: int| k <= j < e ==> #[trigger] text[j] != '\n');
        let b = word_start(text, k, e);
        if b < e {
            assert(text[b] != '\n');
        }
    }
}

/// The lines follow one from the other, from the first to the last.
proof fn lemma_breaks(text: Seq<char>, b: Break, width: nat)
    requires
        0 <= b.at <= text.len(),
    ensures
        ({
            let lines = breaks_from(text, b, width);
            &&& lines.len() > 0
            &&& lines[0] == b
            &&& forall|i: int|
                0 <= i < lines.len() ==> b.at <= (#[trigger] lines[i]).at <= text.len()
            &&& forall|i: int, j: int|
                0 <= i && j == i + 1 && j < lines.len() ==> next_break(
                    text,
                    (#[trigger] lines[i]).at,
                    width,
                ) == Some(#[trigger] lines[j])
            &&& next_break(text, lines.last().at, width) is None
        }),
    decreases text.len() - b.at,
{
    lemma_next_break(text, b.at, width);
    match next_break(text, b.at, width) {
        Some(n) => {
            lemma_breaks(text, n, width);
            let rest = breaks_from(text, n, width);
            let lines = breaks_from(text, b, width);
            assert(lines =~= seq![b] + rest);
            assert forall|i: int| 0 <= i < lines.len() implies b.at <= (#[trigger] lines[i]).at
                <= text.len() by {
                if i > 0 {
                    assert(lines[i] == rest[i - 1]);
                }
            }
            assert forall|i: int, j: int| 0 <= i && j == i + 1 && j < lines.len() implies next_break(
                text,
                (#[trigger] lines[i]).at,
                width,
            ) == Some(#[trigger] lines[j]) by {
                assert(lines[j] == rest[j - 1]);
                if i > 0 {
                    assert(lines[i] == rest[i - 1]);
                }
            }
            assert(lines.last() == rest.last());
        },
        None => {},
    }
}

/// The lines are in a row: each has a place for the cursor, and the next one starts behind it.
spec fn rows(text: Seq<char>, lines: Seq<Break>) -> bool {
    &&& lines.len() > 0
    &&& lines[0] == (Break { at: 0, soft: false })
    &&& forall|i: int| 0 <= i < lines.len() ==> 0 <= (#[trigger] lines[i]).at <= text.len()
    &&& forall|i: int|
        0 <= i < lines.len() ==> first_stop(#[trigger] lines[i]) <= last_stop(text, lines, i)
    &&& forall|i: int, j: int|
        0 <= i < j < lines.len() ==> first_stop(#[trigger] lines[i]) < first_stop(
            #[trigger] lines[j],
        ) && lines[i].at < lines[j].at
}

proof fn lemma_layout(text: Seq<char>, width: u16)
    ensures
        rows(text, layout(text, width)),
        width > 0 ==> forall|i: int, j: int|
            0 <= i && j == i + 1 && j < layout(text, width).len() ==> next_break(
                text,
                (#[trigger] layout(text, width)[i]).at,
                width as nat,
            ) == Some(#[trigger] layout(text, width)[j]),
        width > 0 ==> next_break(text, layout(text, width).last().at, width as nat) is None,
{
    let lines = layout(text, width);
    if width > 0 {
        let w = width as nat;
        lemma_breaks(text, Break { at: 0, soft: false }, w);
        assert forall|i: int| 0 <= i < lines.len() implies first_stop(#[trigger] lines[i])
            <= last_stop(text, lines, i) by {
            lemma_line_has_room(text, lines, i, w);
        }
        lemma_rows_grow(text, lines, w);
    }
}

proof fn lemma_line_has_room(text: Seq<char>, lines: Seq<Break>, i: int, width: nat)
    requires
        0 <= i < lines.len(),
        lines[0] == (Break { at: 0, soft: false }),
        forall|i: int| 0 <= i < lines.len() ==> 0 <= (#[trigger] lines[i]).at <= text.len(),
        forall|i: int, j: int|
            0 <= i && j == i + 1 && j < lines.len() ==> next_break(
                text,
                (#[trigger] lines[i]).at,
                width,
            ) == Some(#[trigger] lines[j]),
    ensures
        first_stop(lines[i]) <= last_stop(text, lines, i),
        i + 1 < lines.len() ==> lines[i].at < lines[i + 1].at,
{
    let b = lines[i];
    if i > 0 {
        assert(next_break(text, lines[i - 1].at, width) == Some(lines[i]));
        lemma_next_break(text, lines[i - 1].at, width);
    }
    if i + 1 < lines.len() {
        let n = lines[i + 1];
        assert(next_break(text, b.at, width) == Some(n));
        lemma_next_break(text, b.at, width);
    }
}

proof fn lemma_rows_grow(text: Seq<char>, lines: Seq<Break>, width: nat)
    requires
        lines.len() > 0,
        lines[0] == (Break { at: 0, soft: false }),
        forall|i: int| 0 <= i < lines.len() ==> 0 <= (#[trigger] lines[i]).at <= text.len(),
        forall|i: int, j: int|
            0 <= i && j == i + 1 && j < lines.len() ==> next_break(
                text,
                (#[trigger] lines[i]).at,
                width,
            ) == Some(#[trigger] lines[j]),
    ensures
        forall|i: int, j: int|
            0 <= i < j < lines.len() ==> first_stop(#[trigger] lines[i]) < first_stop(
                #[trigger] lines[j],
            ) && lines[i].at < lines[j].at,
{
    assert forall|i: int, j: int| 0 <= i < j < lines.len() implies first_stop(#[trigger] lines[i])
        < first_stop(#[trigger] lines[j]) && lines[i].at < lines[j].at by {
        lemma_rows_grow_to(text, lines, width, i, j);
    }
}

proof fn lemma_rows_grow_to(text: Seq<char>, lines: Seq<Break>, width: nat, i: int, j: int)
    requires
        0 <= i < j < lines.len(),
        lines[0] == (Break { at: 0, soft: false }),
        forall|i: int| 0 <= i < lines.len() ==> 0 <= (#[trigger] lines[i]).at <= text.len(),
        forall|i: int, j: int|
            0 <= i && j == i + 1 && j < lines.len() ==> next_break(
                text,
                (#[trigger] lines[i]).at,
                width,
            ) == Some(#[trigger] lines[j]),
    ensures
        first_stop(lines[i]) < first_stop(lines[j]),
        lines[i].at < lines[j].at,
    decreases j - i,
{
    lemma_line_has_room(text, lines, j - 1, width);
    if i < j - 1 {
        lemma_rows_grow_to(text, lines, width, i, j - 1);
    }
}

/// The cursor stands on the line among whose places it is.
proof fn lemma_line_at(text: Seq<char>, lines: Seq<Break>, k: int, i: int, from: int)
    requires
        rows(text, lines),
        0 <= i <= from < lines.len(),
        first_stop(lines[i]) <= k <= last_stop(text, lines, i),
    ensures
        line_at(lines, k, from) == i,
    decreases from,
{
    if i < from {
        assert(first_stop(lines[from]) >= first_stop(lines[i + 1])) by {
            if i + 1 < from {
                assert(first_stop(lines[i + 1]) < first_stop(lines[from]));
            }
        }
        lemma_line_at(text, lines, k, i, from - 1);
    }
}

proof fn lemma_line_of(text: Seq<char>, lines: Seq<Break>, k: int, from: int)
    requires
        rows(text, lines),
        0 <= k <= text.len(),
        0 <= from < lines.len(),
        k <= last_stop(text, lines, from),
    ensures
        0 <= line_at(lines, k, from) <= from,
        first_stop(lines[line_at(lines, k, from)]) <= k <= last_stop(
            text,
            lines,
            line_at(lines, k, from),
        ),
    decreases from,
{
    if from > 0 && first_stop(lines[from]) > k {
        lemma_line_of(text, lines, k, from - 1);
    }
}

proof fn lemma_seek(text: Seq<char>, start: int, j: int, last: int, col: int)
    requires
        j <= last,
    ensures
        j <= seek(text, start, j, last, col) <= last,
    decreases last - j,
{
    if j < last && run(text, start, j + 1) <= col {
        lemma_seek(text, start, j + 1, last, col);
    }
}

/// The move leads to a place of the cursor on the line above or below.
proof fn lemma_vertical_stop(text: Seq<char>, k: int, width: u16, direction: i32)
    requires
        0 <= k <= text.len(),
    ensures
        ({
            let lines = layout(text, width);
            let line = line_of(lines, k);
            let target = neighbour(line, lines.len() as int, direction);
            let r = vertical_stop(text, k, width, direction);
            &&& 0 <= line < lines.len()
            &&& 0 <= target < lines.len()
            &&& 0 <= r <= text.len()
            &&& target == line ==> r == k
            &&& lines[target].at <= r <= last_stop(text, lines, target)
            &&& first_stop(lines[target]) <= r ==> line_of(lines, r) == target
            &&& 0 <= lines[line].at <= k
            &&& 0 <= lines[target].at <= last_stop(text, lines, target) <= text.len()
        }),
{
    let lines = layout(text, width);
    lemma_layout(text, width);
    lemma_line_of(text, lines, k, lines.len() - 1);
    let line = line_of(lines, k);
    let target = neighbour(line, lines.len() as int, direction);
    assert(first_stop(lines[target]) <= last_stop(text, lines, target));
    if target + 1 < lines.len() {
        lemma_line_ends(text, width, target);
    }
    if target != line {
        lemma_seek(
            text,
            lines[target].at,
            lines[target].at,
            last_stop(text, lines, target),
            run(text, lines[line].at, k) as int,
        );
        let r = vertical_stop(text, k, width, direction);
        if first_stop(lines[target]) <= r {
            lemma_line_at(text, lines, r, target, lines.len() - 1);
        }
    }
}

/// Each line follows from the one above.
proof fn lemma_follows(text: Seq<char>, width: u16, i: int)
    requires
        0 <= i,
        i + 1 < layout(text, width).len(),
    ensures
        width > 0,
        0 <= layout(text, width)[i].at < layout(text, width)[i + 1].at <= text.len(),
        next_break(text, layout(text, width)[i].at, width as nat) == Some(
            layout(text, width)[i + 1],
        ),
{
    lemma_layout(text, width);
}

proof fn lemma_line_ends(text: Seq<char>, width: u16, i: int)
    requires
        0 <= i,
        i + 1 < layout(text, width).len(),
    ensures
        last_stop(text, layout(text, width), i) <= fit_end(
            text,
            layout(text, width)[i].at,
            layout(text, width)[i].at,
            width as nat,
        ) < text.len(),
{
    lemma_follows(text, width, i);
    lemma_next_break(text, layout(text, width)[i].at, width as nat);
}

/// The display lines start at the start of the text, and each one behind the one above it, within
/// the text; there is at least one.
pub proof fn line_starts_partition_the_text(text: Seq<char>, width: u16)
    ensures
        layout(text, width).len() > 0,
        layout(text, width)[0].at == 0,
        forall|i: int, j: int|
            0 <= i < j < layout(text, width).len() ==> (#[trigger] layout(text, width)[i]).at < (
            #[trigger] layout(text, width)[j]).at,
        forall|i: int|
            0 <= i < layout(text, width).len() ==> 0 <= (#[trigger] layout(text, width)[i]).at
                <= text.len(),
{
    lemma_layout(text, width);
}

/// A word is broken only where it has the line above to itself: before a line that starts inside
/// a word, there is neither white space nor a line break on the line above.
pub proof fn words_stay_whole(text: Seq<char>, width: u16, i: int, j: int)
    requires
        0 <= i,
        i + 1 < layout(text, width).len(),
        layout(text, width)[i + 1].at < text.len(),
        in_word(text[layout(text, width)[i + 1].at - 1]),
        in_word(text[layout(text, width)[i + 1].at]),
        layout(text, width)[i].at <= j <= layout(text, width)[i + 1].at,
    ensures
        in_word(text[j]),
{
    lemma_follows(text, width, i);
    lemma_split_word(
        text,
        layout(text, width)[i].at,
        width as nat,
        layout(text, width)[i + 1],
        j,
    );
}

proof fn lemma_split_word(text: Seq<char>, k: int, width: nat, n: Break, j: int)
    requires
        0 <= k < n.at < text.len(),
        next_break(text, k, width) == Some(n),
        in_word(text[n.at - 1]),
        in_word(text[n.at]),
        k <= j <= n.at,
    ensures
        in_word(text[j]),
{
    let e = fit_end(text, k, k, width);
    lemma_fit_end(text, k, k, width);
    lemma_word_start(text, k, e);
}

/// The end of what would have had to fit for the line before `n` to be longer: the word or the
/// white space that starts the next line, or the white space that was left out.
pub open spec fn next_piece_end(text: Seq<char>, n: Break) -> int {
    if !n.soft {
        n.at
    } else if in_word(text[n.at]) {
        word_end(text, n.at)
    } else {
        n.at + 1
    }
}

/// A display line takes as much as fits: where no line break ends it, the word or the white space
/// that comes next would have made it wider than the box.
pub proof fn lines_take_what_fits(text: Seq<char>, width: u16, i: int)
    requires
        0 <= i,
        i + 1 < layout(text, width).len(),
        layout(text, width)[i + 1].soft || text[layout(text, width)[i + 1].at - 1] != '\n',
    ensures
        run(
            text,
            layout(text, width)[i].at,
            next_piece_end(text, layout(text, width)[i + 1]),
        ) > width,
{
    lemma_follows(text, width, i);
    lemma_next_piece(text, layout(text, width)[i].at, width as nat, layout(text, width)[i + 1]);
}

proof fn lemma_next_piece(text: Seq<char>, k: int, width: nat, n: Break)
    requires
        0 <= k <= text.len(),
        next_break(text, k, width) == Some(n),
        n.soft || text[n.at - 1] != '\n',
    ensures
        run(text, k, next_piece_end(text, n)) > width,
{
    lemma_next_break(text, k, width);
    let e = fit_end(text, k, k, width);
    lemma_fit_end(text, k, k, width);
    lemma_word_start(text, k, e);
    if n.soft && in_word(text[n.at]) {
        lemma_word_end(text, n.at);
        let h = word_end(text, n.at);
        if h <= e {
            assert(in_word(text[h]));
        }
        lemma_run_grows(text, k, e + 1, h);
    }
}

/// What fits is not wider than the box, but for one character that alone overfills it.
proof fn lemma_fit_width(text: Seq<char>, k: int, last: int, width: nat)
    requires
        0 <= k <= last <= fit_end(text, k, k, width),
        k <= text.len(),
    ensures
        run(text, k, last) <= width || exists|j: int|
            0 <= j < text.len() && run(text, k, last) <= display_columns(#[trigger] text[j]),
{
    let e = fit_end(text, k, k, width);
    lemma_fit_end(text, k, k, width);
    lemma_run_grows(text, k, last, e);
    assert(text.subrange(k, k) =~= Seq::<char>::empty());
    if run(text, k, e) > width {
        let j = choose|j: int|
            k <= j < e && run(text, k, e) == display_columns(#[trigger] text[j]);
        assert(run(text, k, last) <= display_columns(text[j]));
    }
}

/// What the cursor can pass on a line is what fits there.
proof fn lemma_line_fits(text: Seq<char>, width: u16, i: int)
    requires
        width > 0,
        0 <= i < layout(text, width).len(),
    ensures
        ({
            let lines = layout(text, width);
            let k = lines[i].at;
            0 <= k <= last_stop(text, lines, i) <= fit_end(text, k, k, width as nat) <= text.len()
        }),
{
    lemma_row(text, width, i);
    if i + 1 < layout(text, width).len() {
        lemma_line_ends(text, width, i);
    } else {
        lemma_next_break(text, layout(text, width)[i].at, width as nat);
    }
}

/// A line has a place for the cursor, and there is none behind the last.
proof fn lemma_row(text: Seq<char>, width: u16, i: int)
    requires
        width > 0,
        0 <= i < layout(text, width).len(),
    ensures
        ({
            let lines = layout(text, width);
            &&& 0 <= lines[i].at <= first_stop(lines[i]) <= last_stop(text, lines, i)
            &&& lines[i].at <= text.len()
            &&& i + 1 == lines.len() ==> next_break(text, lines[i].at, width as nat) is None
        }),
{
    lemma_layout(text, width);
    assert(layout(text, width).last() == layout(text, width)[layout(text, width).len() - 1]);
}

/// No character is wider than the box.
pub open spec fn characters_fit(text: Seq<char>, width: u16) -> bool {
    forall|i: int| 0 <= i < text.len() ==> display_columns(#[trigger] text[i]) <= width
}

/// No display line is wider than the box, where no character is: what a line holds fits, up to
/// the line break or the one white space that ends it, and the cursor stays within the width.
pub proof fn lines_keep_to_the_width(text: Seq<char>, width: u16)
    requires
        width > 0,
        characters_fit(text, width),
    ensures
        forall|i: int|
            0 <= i && i + 1 < layout(text, width).len() ==> run(
                text,
                (#[trigger] layout(text, width)[i]).at,
                layout(text, width)[i + 1].at - 1,
            ) <= width,
        forall|i: int|
            0 <= i && i + 1 < layout(text, width).len() && layout(text, width)[i + 1].soft ==> run(
                text,
                (#[trigger] layout(text, width)[i]).at,
                layout(text, width)[i + 1].at,
            ) <= width,
        run(text, layout(text, width).last().at, text.len() as int) <= width,
        forall|k: int| 0 <= k <= text.len() ==> (#[trigger] place_of(text, k, width)).col <= width,
{
    let lines = layout(text, width);
    lemma_layout(text, width);
    assert forall|i: int| 0 <= i < lines.len() implies run(
        text,
        (#[trigger] lines[i]).at,
        last_stop(text, lines, i),
    ) <= width by {
        lemma_line_fits(text, width, i);
        lemma_fit_width(text, lines[i].at, last_stop(text, lines, i), width as nat);
    }
    assert forall|i: int| 0 <= i && i + 1 < lines.len() implies run(
        text,
        (#[trigger] lines[i]).at,
        lines[i + 1].at - 1,
    ) <= width by {
        lemma_line_fits(text, width, i);
        lemma_fit_width(text, lines[i].at, last_stop(text, lines, i), width as nat);
        assert(lines[i].at < lines[i + 1].at);
        lemma_run_grows(text, lines[i].at, lines[i + 1].at - 1, last_stop(text, lines, i));
    }
    assert(lines.last() == lines[lines.len() - 1]);
    assert forall|k: int| 0 <= k <= text.len() implies (#[trigger] place_of(text, k, width)).col
        <= width by {
        lemma_line_of(text, lines, k, lines.len() - 1);
        let i = line_of(lines, k);
        lemma_line_fits(text, width, i);
        lemma_fit_width(text, lines[i].at, last_stop(text, lines, i), width as nat);
        lemma_run_grows(text, lines[i].at, k, last_stop(text, lines, i));
    }
}

/// Where no word would be split by it, the lines are those of characters put down one after the
/// other.
proof fn lemma_next_by_character(text: Seq<char>, k: int, width: nat)
    requires
        0 <= k <= text.len(),
        whole_words_from(text, k, width),
    ensures
        next_break(text, k, width) == next_by_character(text, k, width),
        match next_break(text, k, width) {
            Some(n) => k < n.at <= text.len() && whole_words_from(text, n.at, width),
            None => true,
        },
{
    let e = fit_end(text, k, k, width);
    lemma_fit_end(text, k, k, width);
    lemma_word_start(text, k, e);
    if e < text.len() && gap(text[e]) && left_out(text, e, width) {
        let f = fit_end(text, e, e, width);
        let g = gap_end(text, e);
        lemma_fit_end(text, e, e, width);
        lemma_gap_end(text, e);
        lemma_word_end(text, g);
        lemma_word_start(text, e, f);
        assert(in_word(text[f]));
        assert(next_by_character(text, k, width) == Some(Break { at: e, soft: true }));
        assert(whole_words_from(text, e, width));
        assert(next_by_character(text, e, width) == Some(Break { at: f, soft: true }));
        let b = word_start(text, e, f);
        assert(b == e || b == f);
        assert(gap(text[e]));
        assert(in_word(text[f - 1]));
        assert(false);
    }
}

proof fn lemma_characters_from(text: Seq<char>, b: Break, width: nat)
    requires
        0 <= b.at <= text.len(),
        whole_words_from(text, b.at, width),
    ensures
        breaks_from(text, b, width) == characters_from(text, b, width),
    decreases text.len() - b.at,
{
    lemma_next_by_character(text, b.at, width);
    match next_break(text, b.at, width) {
        Some(n) => {
            lemma_characters_from(text, n, width);
        },
        None => {},
    }
}

/// Word wrapping moves only words: where putting the characters down one after the other splits
/// no word that did not begin its line, the display lines are just those.
pub proof fn only_words_are_moved(text: Seq<char>, width: u16)
    requires
        width > 0,
        whole_words_from(text, 0, width as nat),
    ensures
        layout(text, width) == characters_from(
            text,
            (Break { at: 0, soft: false }),
            width as nat,
        ),
{
    lemma_characters_from(text, Break { at: 0, soft: false }, width as nat);
}

proof fn lemma_run_grows(text: Seq<char>, start: int, i: int, j: int)
    requires
        0 <= start <= i <= j <= text.len(),
    ensures
        run(text, start, i) <= run(text, start, j),
    decreases j - i,
{
    if i < j {
        lemma_run_grows(text, start, i, j - 1);
        lemma_run_step(text, start, j - 1);
    }
}

/// The cursor stands on one of the display lines, further down the further it stands in the text.
pub proof fn cursor_stays_within_the_lines(text: Seq<char>, k: int, m: int, width: u16)
    requires
        0 <= k <= m <= text.len(),
    ensures
        place_of(text, k, width).line <= place_of(text, m, width).line < box_line_count(text, width),
{
    let lines = layout(text, width);
    lemma_layout(text, width);
    lemma_line_of(text, lines, k, lines.len() - 1);
    lemma_line_of(text, lines, m, lines.len() - 1);
    let i = line_of(lines, k);
    let j = line_of(lines, m);
    if j < i {
        assert(first_stop(lines[j + 1]) <= first_stop(lines[i])) by {
            if j + 1 < i {
                assert(first_stop(lines[j + 1]) < first_stop(lines[i]));
            }
        }
    }
}

/// Words are parted by white space and line breaks, and by nothing else.
pub proof fn words_are_parted_by_white_space(c: char)
    ensures
        in_word(c) <==> !white_space(c) && c != '\n',
        gap(c) <==> white_space(c) && c != '\n',
        !in_word(c) <==> gap(c) || c == '\n',
{
}

/// The cursor starts at the first column of the first line.
pub proof fn cursor_starts_at_the_top(text: Seq<char>, width: u16)
    ensures
        place_of(text, 0, width).line == 0,
        place_of(text, 0, width).col == 0,
{
    let lines = layout(text, width);
    lemma_layout(text, width);
    lemma_line_of(text, lines, 0, lines.len() - 1);
    let i = line_of(lines, 0);
    if i > 0 {
        assert(first_stop(lines[0]) < first_stop(lines[i]));
    }
    assert(text.subrange(0, 0) =~= Seq::<char>::empty());
}

/// The cursor stands on the line that holds the characters around it, as many columns in as the
/// characters before it on that line take. Behind the last character of a line at whose end the
/// text just goes on, it still stands on that line.
pub proof fn cursor_stands_on_its_line(text: Seq<char>, k: int, width: u16)
    requires
        0 <= k <= text.len(),
    ensures
        ({
            let lines = layout(text, width);
            let place = place_of(text, k, width);
            let i = place.line as int;
            &&& 0 <= i < lines.len()
            &&& lines[i].at <= k
            &&& lines[i].soft ==> lines[i].at < k
            &&& i + 1 < lines.len() ==> k <= lines[i + 1].at
            &&& i + 1 < lines.len() && !lines[i + 1].soft ==> k < lines[i + 1].at
            &&& place.col == run(text, lines[i].at, k)
        }),
{
    let lines = layout(text, width);
    lemma_layout(text, width);
    lemma_line_of(text, lines, k, lines.len() - 1);
}

/// The cursor steps over a character by as many columns as it takes, or goes on to the next line:
/// behind a line break to its start, and otherwise behind the character that starts it or to its
/// start, where a white space was left out.
pub proof fn cursor_steps_over_characters(text: Seq<char>, k: int, width: u16)
    requires
        0 <= k < text.len(),
        width > 0,
    ensures
        ({
            let here = place_of(text, k, width);
            let next = place_of(text, k + 1, width);
            &&& next.line == here.line || next.line == here.line + 1
            &&& next.line == here.line ==> next.col == here.col + display_columns(text[k])
            &&& next.line != here.line ==> next.col == 0 || next.col == display_columns(text[k])
            &&& text[k] == '\n' ==> next.line == here.line + 1 && next.col == 0
            &&& in_word(text[k]) && next.line != here.line ==> next.col == display_columns(text[k])
        }),
{
    let lines = layout(text, width);
    lemma_layout(text, width);
    lemma_line_of(text, lines, k, lines.len() - 1);
    lemma_line_of(text, lines, k + 1, lines.len() - 1);
    cursor_stays_within_the_lines(text, k, k + 1, width);
    let i = line_of(lines, k);
    let j = line_of(lines, k + 1);
    let at = lines[i].at;
    lemma_run_step(text, at, k);
    if i < j {
        if i + 1 < j {
            assert(first_stop(lines[i + 1]) < first_stop(lines[j]));
        }
        assert(j == i + 1);
        lemma_follows(text, width, i);
        lemma_next_break(text, at, width as nat);
        let n = lines[j];
        assert(first_stop(n) == k + 1);
        assert(text.subrange(k, k) =~= Seq::<char>::empty());
        assert(text.subrange(k + 1, k + 1) =~= Seq::<char>::empty());
        lemma_run_step(text, k, k);
    }
    if text[k] == '\n' {
        lemma_line_fits(text, width, i);
        lemma_fit_end(text, at, at, width as nat);
        if fit_end(text, at, at, width as nat) > k {
            assert(text[k] != '\n');
        }
    }
}

/// Behind every line break a line starts.
pub proof fn line_breaks_start_lines(text: Seq<char>, width: u16, j: int)
    requires
        width > 0,
        0 <= j < text.len(),
        text[j] == '\n',
    ensures
        ({
            let i = place_of(text, j + 1, width).line as int;
            0 < i < layout(text, width).len() && layout(text, width)[i].at == j + 1
        }),
{
    cursor_steps_over_characters(text, j, width);
    cursor_stands_on_its_line(text, j + 1, width);
    cursor_stands_on_its_line(text, j, width);
    let i = place_of(text, j + 1, width).line as int;
    if layout(text, width)[i].at <= j {
        lines_start_where_they_may(text, width, i);
    }
}

/// Behind the first, lines start only behind a line break, where the text just goes on, or behind
/// one white space that follows a word.
pub proof fn lines_start_where_they_may(text: Seq<char>, width: u16, i: int)
    requires
        0 < i < layout(text, width).len(),
    ensures
        ({
            let line = layout(text, width)[i];
            let before = line.at - 1;
            &&& line.soft ==> line.at < text.len() && text[line.at] != '\n'
            &&& !line.soft ==> text[before] == '\n' || white_space(text[before]) && before > 0
                && in_word(text[before - 1])
        }),
{
    lemma_follows(text, width, i - 1);
    lemma_next_break(text, layout(text, width)[i - 1].at, width as nat);
}

/// The end of the word that follows the white space at `e`.
pub open spec fn next_word_end(text: Seq<char>, e: int) -> int {
    word_end(text, gap_end(text, e))
}

/// A white space between two lines is left out only where that makes the word behind it fit: with
/// the white space it would have been too long for its line, and without it it is not.
pub proof fn white_space_is_left_out_to_make_a_word_fit(text: Seq<char>, width: u16, i: int)
    requires
        0 < i < layout(text, width).len(),
        !layout(text, width)[i].soft,
        text[layout(text, width)[i].at - 1] != '\n',
    ensures
        ({
            let at = layout(text, width)[i].at;
            let h = next_word_end(text, at - 1);
            &&& at < h <= text.len()
            &&& run(text, at - 1, h) > width
            &&& run(text, at, h) <= width
        }),
{
    lemma_follows(text, width, i - 1);
    let k = layout(text, width)[i - 1].at;
    let w = width as nat;
    let e = fit_end(text, k, k, w);
    lemma_next_break(text, k, w);
    assert(layout(text, width)[i].at == e + 1);
    assert(left_out(text, e, w));
    let g = gap_end(text, e);
    let h = word_end(text, g);
    let f = fit_end(text, e, e, w);
    lemma_gap_end(text, e);
    lemma_word_end(text, g);
    lemma_fit_end(text, e, e, w);
    assert(in_word(text[f]));
    lemma_run_grows(text, e, f + 1, h);
}

/// And it is left out wherever it does: a white space that follows a word starts a line only where
/// the word behind it fits there too, where that is too long for any line, or where the white space
/// reaches to the edge by itself.
pub proof fn white_space_starts_a_line_where_the_word_has_room(
    text: Seq<char>,
    width: u16,
    i: int,
)
    requires
        0 < i < layout(text, width).len(),
        layout(text, width)[i].soft,
        gap(text[layout(text, width)[i].at]),
        in_word(text[layout(text, width)[i].at - 1]),
        characters_fit(text, width),
    ensures
        ({
            let at = layout(text, width)[i].at;
            let g = gap_end(text, at);
            let h = next_word_end(text, at);
            ||| run(text, at, h) <= width
            ||| run(text, at + 1, h) > width
            ||| run(text, at, g) > width
            ||| g < text.len() && run(text, at, g + 1) > width
        }),
{
    lemma_follows(text, width, i - 1);
    let k = layout(text, width)[i - 1].at;
    let w = width as nat;
    let at = layout(text, width)[i].at;
    let e = fit_end(text, k, k, w);
    lemma_next_break(text, k, w);
    lemma_word_start(text, k, e);
    assert(at == e) by {
        if in_word(text[e]) && word_start(text, k, e) > k {
            assert(gap(text[at - 1]));
        }
    }
    let g = gap_end(text, e);
    let h = word_end(text, g);
    let f = fit_end(text, e, e, w);
    lemma_gap_end(text, e);
    lemma_word_end(text, g);
    lemma_fit_end(text, e, e, w);
    lemma_fit_width(text, e, f, w);
    assert(!left_out(text, e, w));
    if f >= h {
        lemma_run_grows(text, e, h, f);
    } else if f < g {
        assert(gap(text[f]));
        lemma_run_grows(text, e, f + 1, g);
    } else if f == g {
        assert(in_word(text[g]));
    }
}

/// A byte offset between two characters has the place of the cursor there, and one past the end
/// that of the end; a box without columns has the one place.
pub proof fn byte_offsets_have_their_places(text: Seq<char>, k: int, width: u16)
    requires
        0 <= k <= text.len(),
    ensures
        width > 0 ==> box_place(text, byte_len(text.take(k)) as int, width) == place_of(
            text,
            k,
            width,
        ),
        forall|at: int|
            width > 0 && at > byte_len(text) ==> #[trigger] box_place(text, at, width) == place_of(
                text,
                text.len() as int,
                width,
            ),
        forall|at: int|
            (#[trigger] box_place(text, at, 0)).line == 0 && box_place(text, at, 0).col == 0,
{
    if width > 0 {
        lemma_box_place(text, k, width);
    }
}

/// The starts of the lines are given in bytes, one for each line, in their order.
pub proof fn line_starts_are_byte_offsets(text: Seq<char>, width: u16, i: int)
    requires
        0 <= i < box_line_count(text, width),
    ensures
        box_line_starts(text, width).len() == box_line_count(text, width),
        boundary(text, box_line_starts(text, width)[i]),
        chars_before(text, box_line_starts(text, width)[i]) == layout(text, width)[i].at,
        box_line_starts(text, width)[0] == 0,
{
    lemma_layout(text, width);
    lemma_chars_before(text, layout(text, width)[i].at);
    lemma_ends(text);
}

proof fn lemma_ends(text: Seq<char>)
    ensures
        byte_len(text.take(0)) == 0,
        byte_len(text.take(text.len() as int)) == byte_len(text),
        boundary(text, 0),
        boundary(text, byte_len(text) as int),
        chars_before(text, 0) == 0,
        chars_before(text, byte_len(text) as int) == text.len(),
{
    assert(text.take(0) =~= Seq::<char>::empty());
    assert(text.take(text.len() as int) =~= text);
    lemma_chars_before(text, 0);
    lemma_chars_before(text, text.len() as int);
}

/// Moving the cursor up or down leaves it between two characters of the text, or at an end.
pub proof fn vertical_moves_stay_in_the_text(
    text: Seq<char>,
    offset: int,
    width: u16,
    direction: i32,
)
    requires
        boundary(text, offset),
    ensures
        boundary(text, vertical_target(text, offset, width, direction)),
        0 <= vertical_target(text, offset, width, direction) <= byte_len(text),
{
    let n = text.len() as int;
    let k = chars_before(text, offset);
    assert(0 <= k <= n && byte_len(text.take(k)) == offset);
    lemma_ends(text);
    lemma_byte_len_take(text, k, n);
    lemma_vertical_stop(text, k, width, direction);
    let r = vertical_stop(text, k, width, direction);
    lemma_chars_before(text, r);
    lemma_byte_len_take(text, r, n);
}

/// The byte offset of a place stands for the place.
proof fn lemma_box_place(text: Seq<char>, k: int, width: u16)
    requires
        0 <= k <= text.len(),
        width > 0,
    ensures
        box_place(text, byte_len(text.take(k)) as int, width) == place_of(text, k, width),
{
    lemma_chars_before(text, k);
    lemma_ends(text);
    if k < text.len() {
        lemma_byte_len_take(text, k, text.len() as int);
    }
}

/// Moving the cursor takes it to the display line above or below, or leaves it where it was when
/// there is none. The screen shows it on that line, but for the very start of a line at which the
/// text just goes on, which is the end of the line above.
pub proof fn vertical_moves_reach_the_next_line(
    text: Seq<char>,
    offset: int,
    width: u16,
    direction: i32,
)
    requires
        width > 0,
        boundary(text, offset),
    ensures
        ({
            let line = box_place(text, offset, width).line as int;
            let target = neighbour(line, box_line_count(text, width), direction);
            let at = vertical_target(text, offset, width, direction);
            &&& 0 <= line < box_line_count(text, width)
            &&& box_place(text, at, width).line == target || layout(text, width)[target].soft && at
                == box_line_starts(text, width)[target]
            &&& target == line ==> at == offset
        }),
{
    let n = text.len() as int;
    let k = chars_before(text, offset);
    assert(0 <= k <= n && byte_len(text.take(k)) == offset);
    lemma_ends(text);
    lemma_byte_len_take(text, k, n);
    lemma_vertical_stop(text, k, width, direction);
    lemma_box_place(text, k, width);
    let r = vertical_stop(text, k, width, direction);
    lemma_box_place(text, r, width);
    if n == 0 {
        assert(text =~= Seq::<char>::empty());
        lemma_layout(text, width);
        lemma_one_line(text, width);
    }
}

proof fn lemma_seek_is_furthest(text: Seq<char>, start: int, j: int, last: int, col: int)
    requires
        0 <= start <= j <= last <= text.len(),
        run(text, start, j) <= col,
    ensures
        ({
            let r = seek(text, start, j, last, col);
            &&& run(text, start, r) <= col
            &&& r < last ==> run(text, start, r + 1) > col
        }),
    decreases last - j,
{
    if j < last && run(text, start, j + 1) <= col {
        lemma_seek_is_furthest(text, start, j + 1, last, col);
    }
}

/// A move up or down keeps the column as nearly as the line there allows: it goes no further than
/// the column that the cursor had, and stops before it only at the end of the line or before a
/// character that would lead past it.
pub proof fn vertical_moves_keep_the_column(text: Seq<char>, k: int, width: u16, direction: i32)
    requires
        0 <= k <= text.len(),
        width > 0,
        direction < 0 && place_of(text, k, width).line > 0 || direction >= 0 && place_of(
            text,
            k,
            width,
        ).line + 1 < box_line_count(text, width),
    ensures
        ({
            let lines = layout(text, width);
            let here = place_of(text, k, width);
            let to = here.line as int + if direction < 0 {
                -1int
            } else {
                1int
            };
            let r = vertical_stop(text, k, width, direction);
            &&& vertical_target(text, byte_len(text.take(k)) as int, width, direction) == byte_len(
                text.take(r),
            )
            &&& lines[to].at <= r <= text.len()
            &&& to + 1 < lines.len() ==> r <= lines[to + 1].at
            &&& run(text, lines[to].at, r) <= here.col
            &&& r == text.len() || run(text, lines[to].at, r + 1) > here.col || (to + 1
                < lines.len() && r + 1 >= lines[to + 1].at)
        }),
{
    let lines = layout(text, width);
    let here = place_of(text, k, width);
    let n = text.len() as int;
    lemma_vertical_stop(text, k, width, direction);
    lemma_layout(text, width);
    lemma_ends(text);
    lemma_chars_before(text, k);
    lemma_byte_len_take(text, k, n);
    let line = line_of(lines, k);
    let target = neighbour(line, lines.len() as int, direction);
    let start = lines[target].at;
    assert(target != line);
    assert(text.subrange(start, start) =~= Seq::<char>::empty());
    lemma_seek_is_furthest(text, start, start, last_stop(text, lines, target), here.col as int);
    if n == 0 {
        assert(text =~= Seq::<char>::empty());
        lemma_one_line(text, width);
    }
}

/// An offset past the end of the text moves as the start of the text does, and stays where it is
/// when that has no line to go to; in an empty text every offset leads to the start.
pub proof fn offsets_past_the_end_move_from_the_start(
    text: Seq<char>,
    offset: int,
    width: u16,
    direction: i32,
)
    requires
        offset > byte_len(text),
    ensures
        text.len() == 0 ==> vertical_target(text, offset, width, direction) == 0,
        text.len() > 0 && (direction < 0 || box_line_count(text, width) == 1) ==> vertical_target(
            text,
            offset,
            width,
            direction,
        ) == offset,
        text.len() > 0 && direction >= 0 && box_line_count(text, width) > 1 ==> vertical_target(
            text,
            offset,
            width,
            direction,
        ) == vertical_target(text, 0, width, direction),
{
    cursor_starts_at_the_top(text, width);
    lemma_layout(text, width);
    lemma_line_of(text, layout(text, width), 0, layout(text, width).len() - 1);
    lemma_ends(text);
}

/// In a box without columns there is one line, and so there is wherever nothing is typed.
pub proof fn no_columns_make_one_line(text: Seq<char>, width: u16)
    ensures
        width == 0 || text.len() == 0 ==> box_line_count(text, width) == 1,
{
    if text.len() == 0 {
        lemma_one_line(text, width);
    }
}

/// A character takes the columns that its table gives, and none where it gives none.
pub proof fn characters_take_their_columns(c: char)
    ensures
        unicode_columns(c) matches Some(n) ==> display_columns(c) == n,
        unicode_columns(c) is None ==> display_columns(c) == 0,
{
}

/// The columns of a text are those of its parts.
pub proof fn columns_add_up(a: Seq<char>, b: Seq<char>, c: char)
    ensures
        columns(a + b) == columns(a) + columns(b),
        columns(seq![c]) == display_columns(c),
        columns(Seq::empty()) == 0,
    decreases b.len(),
{
    assert(seq![c].drop_last() =~= Seq::<char>::empty());
    reveal_with_fuel(columns, 2);
    if b.len() == 0 {
        assert(a + b =~= a);
    } else {
        columns_add_up(a, b.drop_last(), c);
        assert((a + b).drop_last() =~= a + b.drop_last());
        assert((a + b).last() == b.last());
    }
}

proof fn lemma_one_line(text: Seq<char>, width: u16)
    requires
        text.len() == 0,
    ensures
        layout(text, width).len() == 1,
{
    if width > 0 {
        lemma_fit_end(text, 0, 0, width as nat);
    }
}

/// Every character takes one column.
pub open spec fn one_column_each(text: Seq<char>) -> bool {
    forall|i: int| 0 <= i < text.len() ==> display_columns(#[trigger] text[i]) == 1
}

proof fn lemma_run_of_ones(text: Seq<char>, i: int, j: int)
    requires
        one_column_each(text),
        0 <= i <= j <= text.len(),
    ensures
        run(text, i, j) == j - i,
    decreases j - i,
{
    if i < j {
        lemma_run_of_ones(text, i, j - 1);
        lemma_run_step(text, i, j - 1);
    } else {
        assert(text.subrange(i, j) =~= Seq::<char>::empty());
    }
}

proof fn lemma_seek_of_ones(text: Seq<char>, start: int, j: int, last: int, col: int)
    requires
        one_column_each(text),
        0 <= start <= j <= last <= text.len(),
        j <= start + col <= last,
    ensures
        seek(text, start, j, last, col) == start + col,
    decreases last - j,
{
    if j < last {
        lemma_run_of_ones(text, start, j + 1);
        if j < start + col {
            lemma_seek_of_ones(text, start, j + 1, last, col);
        }
    }
}

/// Down and up again comes back, where every character takes one column: if the line below has
/// a place for the cursor at the column that it had, the cursor is at the end where it began.
/// Printable ASCII characters without line breaks take one column each.
pub proof fn down_and_up_comes_back(text: Seq<char>, k: int, width: u16)
    requires
        one_column_each(text),
        0 <= k <= text.len(),
        line_of(layout(text, width), k) + 1 < layout(text, width).len(),
        ({
            let lines = layout(text, width);
            let line = line_of(lines, k);
            let below = lines[line + 1].at + (k - lines[line].at);
            first_stop(lines[line + 1]) <= below <= last_stop(text, lines, line + 1)
        }),
    ensures
        ({
            let offset = byte_len(text.take(k)) as int;
            let down = vertical_target(text, offset, width, 1);
            vertical_target(text, down, width, (-1) as i32) == offset
        }),
{
    let lines = layout(text, width);
    lemma_layout(text, width);
    lemma_line_of(text, lines, k, lines.len() - 1);
    let line = line_of(lines, k);
    let col = k - lines[line].at;
    lemma_run_of_ones(text, lines[line].at, k);
    let next = lines[line + 1].at;
    lemma_vertical_stop(text, k, width, 1);
    assert(last_stop(text, lines, line + 1) <= text.len()) by {
        if line + 2 < lines.len() {
            lemma_line_ends(text, width, line + 1);
        }
    }
    lemma_seek_of_ones(text, next, next, last_stop(text, lines, line + 1), col);
    let m = next + col;
    assert(vertical_stop(text, k, width, 1) == m);
    lemma_run_of_ones(text, next, m);
    lemma_line_ends(text, width, line);
    lemma_line_at(text, lines, m, line + 1, lines.len() - 1);
    lemma_seek_of_ones(text, lines[line].at, lines[line].at, last_stop(text, lines, line), col);
    assert(vertical_stop(text, m, width, (-1) as i32) == k);
    lemma_ends(text);
    lemma_chars_before(text, k);
    lemma_chars_before(text, m);
    lemma_byte_len_take(text, k, text.len() as int);
    lemma_byte_len_take(text, m, text.len() as int);
}

/// One line of text on which every character takes one column, and that splits no word when its
/// characters are put down one after the other.
pub open spec fn evenly_filled(text: Seq<char>, width: nat) -> bool {
    &&& one_column_each(text)
    &&& forall|i: int| 0 <= i < text.len() ==> #[trigger] text[i] != '\n'
    &&& whole_words_from(text, 0, width)
}

proof fn lemma_fit_of_ones(text: Seq<char>, k: int, e: int, width: nat)
    requires
        one_column_each(text),
        forall|i: int| 0 <= i < text.len() ==> #[trigger] text[i] != '\n',
        width > 0,
        0 <= k <= e <= text.len(),
        e <= k + width,
    ensures
        fit_end(text, k, e, width) == (if k + width <= text.len() {
            k + width
        } else {
            text.len() as int
        }),
    decreases text.len() - e,
{
    if e < text.len() {
        lemma_run_of_ones(text, k, e);
        lemma_run_of_ones(text, k, e + 1);
        if e < k + width {
            lemma_fit_of_ones(text, k, e + 1, width);
        }
    }
}

/// The lines are all full but the last.
proof fn lemma_even_lines(text: Seq<char>, width: u16, i: int)
    requires
        evenly_filled(text, width as nat),
        width > 0,
        0 <= i < layout(text, width).len(),
    ensures
        layout(text, width)[i].at == i * width,
        layout(text, width)[i].soft == (i > 0),
        i + 1 < layout(text, width).len() <==> i * width + width < text.len(),
        whole_words_from(text, layout(text, width)[i].at, width as nat),
    decreases i,
{
    let lines = layout(text, width);
    let w = width as nat;
    lemma_layout(text, width);
    if i > 0 {
        let k = lines[i - 1].at;
        lemma_even_lines(text, width, i - 1);
        lemma_next_by_character(text, k, w);
        lemma_fit_of_ones(text, k, k, w);
        assert(next_break(text, k, w) == Some(lines[i]));
        assert((i - 1) * width + width == i * width) by (nonlinear_arith);
    } else {
        assert(0 * width == 0);
    }
    let k = lines[i].at;
    lemma_next_by_character(text, k, w);
    lemma_fit_of_ones(text, k, k, w);
    if i + 1 < lines.len() {
        assert(next_break(text, k, w) == Some(lines[i + 1]));
    } else {
        assert(lines.last() == lines[i]);
    }
}

/// Where the lines are evenly filled, down goes on by the width of the box, and up goes back by it.
pub proof fn moves_by_the_width(text: Seq<char>, k: int, width: u16)
    requires
        evenly_filled(text, width as nat),
        width > 0,
        1 <= k <= text.len(),
    ensures
        k + width <= text.len() ==> vertical_stop(text, k, width, 1) == k + width && neighbour(
            line_of(layout(text, width), k),
            box_line_count(text, width),
            1,
        ) != line_of(layout(text, width), k),
        k > width ==> vertical_stop(text, k, width, (-1) as i32) == k - width && neighbour(
            line_of(layout(text, width), k),
            box_line_count(text, width),
            (-1) as i32,
        ) != line_of(layout(text, width), k),
{
    let lines = layout(text, width);
    let w = width as int;
    let n = lines.len() as int;
    lemma_layout(text, width);
    let i = (k - 1) / w;
    assert(i * w + 1 <= k <= i * w + w && i >= 0) by (nonlinear_arith)
        requires
            i == (k - 1) / w,
            k >= 1,
            w > 0,
    ;
    lemma_even_lines(text, width, n - 1);
    assert(i < n) by {
        if i >= n {
            assert(i * w >= (n - 1) * w + w) by (nonlinear_arith)
                requires
                    i >= n,
                    w > 0,
            ;
        }
    }
    lemma_even_lines(text, width, i);
    assert((i + 1) * w == i * w + w) by (nonlinear_arith);
    if i + 1 < n {
        lemma_even_lines(text, width, i + 1);
    }
    lemma_line_at(text, lines, k, i, n - 1);
    let col = k - i * w;
    lemma_run_of_ones(text, i * w, k);
    if k + w <= text.len() {
        assert(i + 1 < n);
        assert((i + 2) * w == i * w + w + w) by (nonlinear_arith);
        if i + 2 < n {
            lemma_even_lines(text, width, i + 2);
            lemma_line_ends(text, width, i + 1);
        }
        lemma_seek_of_ones(
            text,
            lines[i + 1].at,
            lines[i + 1].at,
            last_stop(text, lines, i + 1),
            col,
        );
    }
    if k > w {
        assert(i > 0) by {
            if i == 0 {
                assert(0 * w == 0);
            }
        }
        lemma_even_lines(text, width, i - 1);
        assert((i - 1) * w == i * w - w) by (nonlinear_arith);
        lemma_line_ends(text, width, i - 1);
        lemma_seek_of_ones(
            text,
            lines[i - 1].at,
            lines[i - 1].at,
            last_stop(text, lines, i - 1),
            col,
        );
    }
}

/// Text of printable ASCII characters alone.
pub open spec fn printable_ascii(text: Seq<char>) -> bool {
    forall|i: int| 0 <= i < text.len() ==> ' ' <= #[trigger] text[i] <= '~'
}

/// Cut into pieces of `width` characters, the text is cut next to a space or inside a word that
/// fills the piece before.
pub open spec fn cuts_no_word(text: Seq<char>, width: int) -> bool {
    forall|i: int|
        0 < i < text.len() && i % width == 0 ==> #[trigger] text[i] == ' ' || text[i - 1] == ' '
            || !text.subrange(i - width, i).contains(' ')
}

/// Every character of printable ASCII text takes one column, and only the space is white space.
spec fn measured_ascii(text: Seq<char>) -> bool {
    &&& one_column_each(text)
    &&& forall|i: int| 0 <= i < text.len() ==> gap(#[trigger] text[i]) == (text[i] == ' ')
}

proof fn lemma_cuts_no_word(text: Seq<char>, k: int, width: int)
    requires
        printable_ascii(text),
        measured_ascii(text),
        cuts_no_word(text, width),
        width > 0,
        0 <= k <= text.len(),
        k % width == 0,
    ensures
        whole_words_from(text, k, width as nat),
    decreases text.len() - k,
{
    let n = k + width;
    assert forall|i: int| 0 <= i < text.len() implies #[trigger] text[i] != '\n' by {
        assert(' ' <= text[i]);
    }
    lemma_fit_of_ones(text, k, k, width as nat);
    if n < text.len() {
        assert(n % width == 0) by (nonlinear_arith)
            requires
                n == k + width,
                k % width == 0,
                width > 0,
        ;
        lemma_cuts_no_word(text, n, width);
        lemma_word_start(text, k, n);
        let b = word_start(text, k, n);
        assert(text[n] == ' ' || text[n - 1] == ' ' || !text.subrange(k, n).contains(' '));
        if in_word(text[n]) && text[n - 1] != ' ' && b > k {
            assert(text.subrange(k, n)[b - 1 - k] == ' ');
            assert(false);
        }
    }
}

/// What a character needs on the screen.
struct Glyph {
    columns: usize,
    is_gap: bool,
}

/// The glyphs are those of the text.
spec fn glyphs_of(glyphs: Seq<Glyph>, text: Seq<char>) -> bool {
    &&& glyphs.len() == text.len()
    &&& forall|i: int|
        0 <= i < text.len() ==> (#[trigger] glyphs[i]).columns == display_columns(text[i])
            && glyphs[i].is_gap == gap(text[i])
}

/// Measures the characters of a text.
fn measure(chars: &Vec<char>) -> (glyphs: Vec<Glyph>)
    ensures
        glyphs_of(glyphs@, chars@),
        printable_ascii(chars@) ==> measured_ascii(chars@),
{
    let mut glyphs: Vec<Glyph> = Vec::new();
    for i in 0..chars.len()
        invariant
            glyphs@.len() == i,
            forall|j: int|
                0 <= j < i ==> (#[trigger] glyphs@[j]).columns == display_columns(chars@[j])
                    && glyphs@[j].is_gap == gap(chars@[j]),
            printable_ascii(chars@) ==> forall|j: int|
                0 <= j < i ==> display_columns(#[trigger] chars@[j]) == 1 && gap(chars@[j]) == (
                chars@[j] == ' '),
    {
        let c = chars[i];
        glyphs.push(
            Glyph { columns: char_display_width(c), is_gap: c.is_whitespace() && c != '\n' },
        );
    }
    glyphs
}

/// The start of a display line.
struct LineStart {
    at: usize,
    soft: bool,
}

impl View for LineStart {
    type V = Break;

    closed spec fn view(&self) -> Break {
        Break { at: self.at as int, soft: self.soft }
    }
}

spec fn break_views(v: Seq<LineStart>) -> Seq<Break> {
    v.map_values(|l: LineStart| l@)
}

/// How far the characters from `k` on fit into the width.
fn fit(chars: &Vec<char>, glyphs: &Vec<Glyph>, k: usize, width: usize) -> (e: usize)
    requires
        glyphs_of(glyphs@, chars@),
        k <= chars@.len(),
        0 < width <= u16::MAX,
    ensures
        e == fit_end(chars@, k as int, k as int, width as nat),
        k <= e <= chars@.len(),
{
    let count = chars.len();
    let mut e: usize = k;
    let mut taken: usize = 0;
    assert(chars@.subrange(k as int, k as int) =~= Seq::<char>::empty());
    while e < count && chars[e] != '\n'
        invariant
            glyphs_of(glyphs@, chars@),
            count == chars@.len(),
            k <= e <= count,
            0 < width <= u16::MAX,
            taken == run(chars@, k as int, e as int),
            taken <= 0x1_0000,
            fit_end(chars@, k as int, k as int, width as nat) == fit_end(
                chars@,
                k as int,
                e as int,
                width as nat,
            ),
        decreases count - e,
    {
        proof {
            lemma_run_step(chars@, k as int, e as int);
        }
        assert(glyphs@[e as int].columns == display_columns(chars@[e as int]));
        let more = taken + glyphs[e].columns;
        if taken != 0 && more > width {
            return e;
        }
        taken = more;
        e += 1;
    }
    e
}

/// The display line behind the one that starts at `k`.
fn next_line(chars: &Vec<char>, glyphs: &Vec<Glyph>, k: usize, width: usize) -> (r: Option<
    LineStart,
>)
    requires
        glyphs_of(glyphs@, chars@),
        k <= chars@.len(),
        0 < width <= u16::MAX,
    ensures
        match (r, next_break(chars@, k as int, width as nat)) {
            (Some(l), Some(b)) => l@ == b,
            (None, None) => true,
            _ => false,
        },
{
    let count = chars.len();
    let e: usize = fit(chars, glyphs, k, width);
    if e >= count {
        return None;
    }
    if chars[e] == '\n' {
        return Some(LineStart { at: e + 1, soft: false });
    }
    assert(glyphs@[e as int].is_gap == gap(chars@[e as int]));
    if glyphs[e].is_gap {
        return if leaves_out(chars, glyphs, e, width) {
            Some(LineStart { at: e + 1, soft: false })
        } else {
            Some(LineStart { at: e, soft: true })
        };
    }
    let mut b: usize = e;
    while b > k && !glyphs[b - 1].is_gap
        invariant
            glyphs_of(glyphs@, chars@),
            count == chars@.len(),
            k <= b <= e < count,
            word_start(chars@, k as int, e as int) == word_start(chars@, k as int, b as int),
        decreases b,
    {
        assert(glyphs@[b - 1].is_gap == gap(chars@[b - 1]));
        b -= 1;
    }
    proof {
        if b > k {
            assert(glyphs@[b - 1].is_gap == gap(chars@[b - 1]));
        }
    }
    Some(
        LineStart {
            at: if b > k {
                b
            } else {
                e
            },
            soft: true,
        },
    )
}

/// Whether the white space at `e` is left out at the edge.
fn leaves_out(chars: &Vec<char>, glyphs: &Vec<Glyph>, e: usize, width: usize) -> (b: bool)
    requires
        glyphs_of(glyphs@, chars@),
        e < chars@.len(),
        gap(chars@[e as int]),
        0 < width <= u16::MAX,
    ensures
        b == left_out(chars@, e as int, width as nat),
{
    let count = chars.len();
    if e == 0 || glyphs[e - 1].is_gap || chars[e - 1] == '\n' {
        proof {
            if e > 0 {
                assert(glyphs@[e - 1].is_gap == gap(chars@[e - 1]));
            }
        }
        return false;
    }
    assert(glyphs@[e - 1].is_gap == gap(chars@[e - 1]));
    let mut g: usize = e;
    while g < count && glyphs[g].is_gap
        invariant
            glyphs_of(glyphs@, chars@),
            count == chars@.len(),
            e <= g <= count,
            gap_end(chars@, e as int) == gap_end(chars@, g as int),
        decreases count - g,
    {
        assert(glyphs@[g as int].is_gap == gap(chars@[g as int]));
        g += 1;
    }
    proof {
        lemma_gap_end(chars@, e as int);
        if g < count {
            assert(glyphs@[g as int].is_gap == gap(chars@[g as int]));
        }
        assert(g == gap_end(chars@, e as int));
    }
    let mut h: usize = g;
    while h < count && !glyphs[h].is_gap && chars[h] != '\n'
        invariant
            glyphs_of(glyphs@, chars@),
            count == chars@.len(),
            g <= h <= count,
            word_end(chars@, g as int) == word_end(chars@, h as int),
        decreases count - h,
    {
        assert(glyphs@[h as int].is_gap == gap(chars@[h as int]));
        h += 1;
    }
    proof {
        if h < count {
            assert(glyphs@[h as int].is_gap == gap(chars@[h as int]));
        }
        assert(h == word_end(chars@, g as int));
    }
    let f = fit(chars, glyphs, e, width);
    g < f && f < h && run_columns(glyphs, e + 1, h, Ghost(chars@)) <= width as u128
}

/// The display lines of a text.
fn lay_out(chars: &Vec<char>, glyphs: &Vec<Glyph>, width: u16) -> (lines: Vec<LineStart>)
    requires
        glyphs_of(glyphs@, chars@),
    ensures
        break_views(lines@) == layout(chars@, width),
{
    let mut lines: Vec<LineStart> = Vec::new();
    let mut k: usize = 0;
    let first = LineStart { at: 0, soft: false };
    let ghost mut last = first@;
    lines.push(first);
    assert(break_views(lines@) =~= seq![last]);
    if width == 0 {
        return lines;
    }
    let ghost w = width as nat;
    let ghost mut done = Seq::<Break>::empty();
    assert(done + breaks_from(chars@, last, w) =~= layout(chars@, width));
    assert(done.push(last) =~= break_views(lines@));
    loop
        invariant
            glyphs_of(glyphs@, chars@),
            0 < width,
            w == width,
            k == last.at,
            k <= chars@.len(),
            done.push(last) == break_views(lines@),
            done + breaks_from(chars@, last, w) == layout(chars@, width),
        decreases chars@.len() - k,
    {
        let n = match next_line(chars, glyphs, k, width as usize) {
            Some(n) => n,
            None => {
                proof {
                    assert(breaks_from(chars@, last, w) =~= seq![last]);
                    assert(done + seq![last] =~= done.push(last));
                }
                return lines;
            },
        };
        proof {
            lemma_next_break(chars@, k as int, w);
            let b = n@;
            assert(breaks_from(chars@, last, w) =~= seq![last] + breaks_from(chars@, b, w));
            assert(done + (seq![last] + breaks_from(chars@, b, w)) =~= done.push(last)
                + breaks_from(chars@, b, w));
            assert(break_views(lines@.push(n)) =~= break_views(lines@).push(b));
            done = done.push(last);
            last = b;
        }
        k = n.at;
        lines.push(n);
    }
}

/// The line of the cursor before the character `k`.
fn find_line(lines: &Vec<LineStart>, k: usize) -> (i: usize)
    requires
        lines@.len() > 0,
    ensures
        i == line_of(break_views(lines@), k as int),
        i < lines@.len(),
{
    let mut i: usize = lines.len() - 1;
    while i > 0 && starts_behind(&lines[i], k)
        invariant
            i < lines@.len(),
            line_of(break_views(lines@), k as int) == line_at(
                break_views(lines@),
                k as int,
                i as int,
            ),
        decreases i,
    {
        assert(break_views(lines@)[i as int] == lines@[i as int]@);
        i -= 1;
    }
    proof {
        if i > 0 {
            assert(break_views(lines@)[i as int] == lines@[i as int]@);
        }
    }
    i
}

/// Whether the first place of a line comes behind `k`.
fn starts_behind(l: &LineStart, k: usize) -> (b: bool)
    ensures
        b == (first_stop(l@) > k),
{
    if l.soft {
        l.at >= k
    } else {
        l.at > k
    }
}

/// The columns that a run of characters takes on one line.
fn run_columns(glyphs: &Vec<Glyph>, from: usize, to: usize, Ghost(text): Ghost<Seq<char>>) -> (w:
    u128)
    requires
        glyphs_of(glyphs@, text),
        from <= to <= text.len(),
    ensures
        w == run(text, from as int, to as int),
{
    let mut w: u128 = 0;
    let mut i: usize = from;
    assert(text.subrange(from as int, from as int) =~= Seq::<char>::empty());
    while i < to
        invariant
            glyphs_of(glyphs@, text),
            from <= i <= to <= text.len(),
            w == run(text, from as int, i as int),
            w <= 255 * (i - from),
        decreases to - i,
    {
        proof {
            lemma_run_step(text, from as int, i as int);
        }
        assert(glyphs@[i as int].columns == display_columns(text[i as int]));
        w += glyphs[i].columns as u128;
        i += 1;
    }
    w
}

/// The number of characters before a byte offset.
fn chars_up_to(chars: &Vec<char>, at: usize) -> (k: usize)
    requires
        boundary(chars@, at as int),
    ensures
        k == chars_before(chars@, at as int),
        k <= chars@.len(),
{
    let mut k: usize = 0;
    let mut offset: usize = 0;
    let count = chars.len();
    let ghost goal = chars_before(chars@, at as int);
    while offset < at
        invariant
            0 <= goal <= chars@.len(),
            count == chars@.len(),
            byte_len(chars@.take(goal)) == at,
            k <= goal,
            offset == byte_len(chars@.take(k as int)),
        decreases goal - k,
    {
        proof {
            if k == goal {
                assert(false);
            }
            assert(chars@.take(k + 1).drop_last() =~= chars@.take(k as int));
            lemma_byte_len_take(chars@, k + 1, goal);
        }
        offset += utf8_width(chars[k]);
        k += 1;
    }
    proof {
        lemma_byte_len_take(chars@, k as int, goal);
        lemma_chars_before(chars@, goal);
    }
    k
}

/// The byte offset of each character, and of the end.
fn byte_offsets(chars: &Vec<char>) -> (offsets: Vec<usize>)
    requires
        byte_len(chars@) <= usize::MAX,
    ensures
        offsets@.len() == chars@.len() + 1,
        forall|i: int|
            0 <= i <= chars@.len() ==> #[trigger] offsets@[i] == byte_len(chars@.take(i)),
{
    let mut offsets: Vec<usize> = Vec::new();
    let mut at: usize = 0;
    assert(chars@.take(0) =~= Seq::<char>::empty());
    offsets.push(0);
    for k in 0..chars.len()
        invariant
            byte_len(chars@) <= usize::MAX,
            at == byte_len(chars@.take(k as int)),
            offsets@.len() == k + 1,
            forall|i: int| 0 <= i <= k ==> #[trigger] offsets@[i] == byte_len(chars@.take(i)),
    {
        proof {
            assert(chars@.take(k + 1).drop_last() =~= chars@.take(k as int));
            lemma_byte_len_take(chars@, k + 1, chars@.len() as int);
            assert(chars@.take(chars@.len() as int) =~= chars@);
        }
        at += utf8_width(chars[k]);
        offsets.push(at);
    }
    offsets
}

/// Compute the display line (row offset from top) and column for a byte offset
/// in text with word wrapping at the given max inner width.
pub fn wrapped_cursor(text: &str, byte_offset: usize, max_inner_width: u16) -> (r: (usize, usize))
    requires
        max_inner_width != 0 && byte_offset <= byte_len(text@) ==> boundary(
            text@,
            byte_offset as int,
        ),
    ensures
        r.0 == box_place(text@, byte_offset as int, max_inner_width).line,
        r.1 == box_place(text@, byte_offset as int, max_inner_width).col,
{
    if max_inner_width == 0 {
        return (0, 0);
    }
    let chars = characters(text);
    let glyphs = measure(&chars);
    let lines = lay_out(&chars, &glyphs, max_inner_width);
    let k: usize = if byte_offset < text_len(text) {
        chars_up_to(&chars, byte_offset)
    } else {
        chars.len()
    };
    proof {
        lemma_layout(text@, max_inner_width);
        assert(break_views(lines@).len() == lines@.len());
        lemma_line_of(text@, break_views(lines@), k as int, lines@.len() - 1);
    }
    let line = find_line(&lines, k);
    assert(break_views(lines@)[line as int] == lines@[line as int]@);
    let start = lines[line].at;
    let col = run_columns(&glyphs, start, k, Ghost(text@));
    proof {
        let i = line as int;
        lemma_line_fits(text@, max_inner_width, i);
        lemma_fit_width(text@, start as int, k as int, max_inner_width as nat);
    }
    (line, col as usize)
}

/// Compute how many display lines the text will occupy when wrapped. Printable ASCII text of
/// which no word has to be moved takes as few lines as can hold its characters.
pub fn wrapped_line_count(text: &str, max_inner_width: u16) -> (n: usize)
    ensures
        n == box_line_count(text@, max_inner_width),
        n >= 1,
        printable_ascii(text@) && max_inner_width > 0 && cuts_no_word(text@, max_inner_width as int)
            ==> text@.len() <= n * max_inner_width && (n == 1 || (n - 1) * max_inner_width
            < text@.len()),
{
    let chars = characters(text);
    let glyphs = measure(&chars);
    let lines = lay_out(&chars, &glyphs, max_inner_width);
    proof {
        lemma_layout(text@, max_inner_width);
        if printable_ascii(text@) && max_inner_width > 0 && cuts_no_word(
            text@,
            max_inner_width as int,
        ) {
            lemma_ascii_lines(text@, max_inner_width);
        }
    }
    assert(break_views(lines@).len() == lines@.len());
    lines.len()
}

/// Build a list of byte offsets where each display line starts.
/// Returns [0, line2_start_byte, line3_start_byte, ...]
/// In printable ASCII text of which no word has to be moved, each line but the last is full.
pub fn wrapped_line_starts(text: &str, max_inner_width: u16) -> (starts: Vec<usize>)
    ensures
        starts@.len() == box_line_starts(text@, max_inner_width).len(),
        forall|i: int|
            0 <= i < starts@.len() ==> #[trigger] starts@[i] == box_line_starts(
                text@,
                max_inner_width,
            )[i],
        printable_ascii(text@) && max_inner_width > 0 && cuts_no_word(text@, max_inner_width as int)
            ==> forall|i: int|
            0 <= i < starts@.len() ==> #[trigger] starts@[i] == i * max_inner_width,
{
    let chars = characters(text);
    let glyphs = measure(&chars);
    let lines = lay_out(&chars, &glyphs, max_inner_width);
    let _size = text_len(text);
    let offsets = byte_offsets(&chars);
    let ghost goal = box_line_starts(text@, max_inner_width);
    proof {
        if printable_ascii(text@) && max_inner_width > 0 && cuts_no_word(
            text@,
            max_inner_width as int,
        ) {
            lemma_ascii_lines(text@, max_inner_width);
        }
        lemma_layout(text@, max_inner_width);
        assert(break_views(lines@).len() == lines@.len());
    }
    let mut starts: Vec<usize> = Vec::new();
    for i in 0..lines.len()
        invariant
            chars@ == text@,
            goal == box_line_starts(text@, max_inner_width),
            break_views(lines@) == layout(text@, max_inner_width),
            rows(text@, layout(text@, max_inner_width)),
            break_views(lines@).len() == lines@.len(),
            offsets@.len() == chars@.len() + 1,
            forall|i: int|
                0 <= i <= chars@.len() ==> #[trigger] offsets@[i] == byte_len(chars@.take(i)),
            starts@.len() == i,
            forall|j: int| 0 <= j < i ==> #[trigger] starts@[j] == goal[j],
    {
        assert(break_views(lines@)[i as int] == lines@[i as int]@);
        assert(goal[i as int] == byte_len(text@.take(layout(text@, max_inner_width)[i as int].at)));
        starts.push(offsets[lines[i].at]);
    }
    starts
}

/// The furthest place on a line within some columns.
fn seek_column(
    glyphs: &Vec<Glyph>,
    start: usize,
    last: usize,
    col: u128,
    Ghost(text): Ghost<Seq<char>>,
) -> (j: usize)
    requires
        glyphs_of(glyphs@, text),
        start <= last <= text.len(),
    ensures
        j == seek(text, start as int, start as int, last as int, col as int),
        start <= j <= last,
{
    let mut taken: u128 = 0;
    let mut j: usize = start;
    assert(text.subrange(start as int, start as int) =~= Seq::<char>::empty());
    while j < last
        invariant
            glyphs_of(glyphs@, text),
            start <= j <= last <= text.len(),
            taken == run(text, start as int, j as int),
            taken <= 255 * (j - start),
            seek(text, start as int, start as int, last as int, col as int) == seek(
                text,
                start as int,
                j as int,
                last as int,
                col as int,
            ),
        decreases last - j,
    {
        proof {
            lemma_run_step(text, start as int, j as int);
        }
        assert(glyphs@[j as int].columns == display_columns(text[j as int]));
        let more = taken + glyphs[j].columns as u128;
        if more > col {
            return j;
        }
        taken = more;
        j += 1;
    }
    j
}

/// Move the cursor up or down by one display line in wrapped text.
/// Returns the new byte offset. In printable ASCII text of which no word has to be moved to the
/// next line, that is as many bytes further down or up as the box has columns.
pub fn move_cursor_vertical(
    text: &str,
    current_offset: usize,
    max_inner_width: u16,
    direction: i32,
) -> (at: usize)
    requires
        current_offset <= byte_len(text@) ==> boundary(text@, current_offset as int),
    ensures
        at == vertical_target(text@, current_offset as int, max_inner_width, direction),
        printable_ascii(text@) && max_inner_width > 0 && cuts_no_word(text@, max_inner_width as int)
            && direction == 1 && 1 <= current_offset && current_offset + max_inner_width
            <= text@.len() ==> at == current_offset + max_inner_width,
        printable_ascii(text@) && max_inner_width > 0 && cuts_no_word(text@, max_inner_width as int)
            && direction == -1 && max_inner_width < current_offset <= text@.len() ==> at
            == current_offset - max_inner_width,
{
    let size = text_len(text);
    let chars = characters(text);
    let glyphs = measure(&chars);
    proof {
        lemma_ends(text@);
        if printable_ascii(text@) && max_inner_width > 0 && cuts_no_word(
            text@,
            max_inner_width as int,
        ) {
            lemma_ascii_moves(text@, current_offset as int, max_inner_width);
        }
    }
    if text.is_empty() {
        return 0;
    }
    let k: usize = if current_offset <= size {
        chars_up_to(&chars, current_offset)
    } else {
        0
    };
    match vertical_move(&chars, &glyphs, k, max_inner_width, direction) {
        Some(j) => byte_offsets(&chars)[j],
        None => current_offset,
    }
}

/// Where the cursor before the character `k` goes, if there is a line to go to.
fn vertical_move(
    chars: &Vec<char>,
    glyphs: &Vec<Glyph>,
    k: usize,
    width: u16,
    direction: i32,
) -> (r: Option<usize>)
    requires
        glyphs_of(glyphs@, chars@),
        k <= chars@.len(),
    ensures
        ({
            let line = line_of(layout(chars@, width), k as int);
            let target = neighbour(line, box_line_count(chars@, width), direction);
            match r {
                Some(j) => target != line && j == vertical_stop(chars@, k as int, width, direction)
                    && j <= chars@.len(),
                None => target == line,
            }
        }),
{
    let lines = lay_out(chars, glyphs, width);
    proof {
        assert(break_views(lines@).len() == lines@.len());
        lemma_vertical_stop(chars@, k as int, width, direction);
    }
    let count = lines.len();
    let line = find_line(&lines, k);
    let target: usize = if direction < 0 {
        if line > 0 {
            line - 1
        } else {
            0
        }
    } else if line + 1 < count {
        line + 1
    } else {
        count - 1
    };
    if target == line {
        return None;
    }
    assert(break_views(lines@)[line as int] == lines@[line as int]@);
    assert(break_views(lines@)[target as int] == lines@[target as int]@);
    let col = run_columns(glyphs, lines[line].at, k, Ghost(chars@));
    let last: usize = if target + 1 < count {
        assert(break_views(lines@)[target + 1] == lines@[target + 1]@);
        place_before(&lines[target + 1])
    } else {
        chars.len()
    };
    let start = lines[target].at;
    Some(seek_column(glyphs, start, last, col, Ghost(chars@)))
}

/// The place before the first one of a line.
fn place_before(l: &LineStart) -> (k: usize)
    requires
        first_stop(l@) > 0,
    ensures
        k == first_stop(l@) - 1,
{
    if l.soft {
        l.at
    } else {
        l.at - 1
    }
}

/// The lines of evenly filled ASCII text, by bytes.
proof fn lemma_ascii_lines(text: Seq<char>, width: u16)
    requires
        printable_ascii(text),
        measured_ascii(text),
        width > 0,
        cuts_no_word(text, width as int),
    ensures
        evenly_filled(text, width as nat),
        ascii(text),
        text.len() <= box_line_count(text, width) * width,
        box_line_count(text, width) == 1 || (box_line_count(text, width) - 1) * width < text.len(),
        forall|i: int|
            0 <= i < box_line_count(text, width) ==> #[trigger] box_line_starts(text, width)[i] == i
                * width,
{
    assert forall|i: int| 0 <= i < text.len() implies (#[trigger] text[i] as u32) < 0x80 && text[i]
        != '\n' by {
        assert(' ' <= text[i] <= '~');
    }
    assert(0int % (width as int) == 0) by (nonlinear_arith)
        requires
            width > 0,
    ;
    lemma_cuts_no_word(text, 0, width as int);
    let n = box_line_count(text, width);
    lemma_layout(text, width);
    lemma_even_lines(text, width, n - 1);
    assert((n - 1) * width + width == n * width) by (nonlinear_arith);
    if n > 1 {
        lemma_even_lines(text, width, n - 2);
        assert((n - 2) * width + width == (n - 1) * width) by (nonlinear_arith);
    }
    assert forall|i: int| 0 <= i < n implies #[trigger] box_line_starts(text, width)[i] == i
        * width by {
        lemma_even_lines(text, width, i);
        lemma_ascii_offsets(text, layout(text, width)[i].at);
    }
}

/// Moves in evenly filled ASCII text, by bytes.
proof fn lemma_ascii_moves(text: Seq<char>, offset: int, width: u16)
    requires
        printable_ascii(text),
        measured_ascii(text),
        width > 0,
        cuts_no_word(text, width as int),
    ensures
        1 <= offset && offset + width <= text.len() ==> vertical_target(
            text,
            offset,
            width,
            1,
        ) == offset + width,
        width < offset <= text.len() ==> vertical_target(
            text,
            offset,
            width,
            (-1) as i32,
        ) == offset - width,
{
    lemma_ascii_lines(text, width);
    if 1 <= offset <= text.len() {
        lemma_ascii_offsets(text, offset);
        moves_by_the_width(text, offset, width);
        if offset + width <= text.len() {
            lemma_ascii_offsets(text, offset + width);
        }
        if offset > width {
            lemma_ascii_offsets(text, offset - width);
        }
    }
}

} // verus!

//! A path being typed, on the screen, with its completions.
use vstd::prelude::*;

use crate::area::{right_of, Area, Cell};
use crate::prompt::{prompt_of, PromptKind};
use crate::state::{App, AppMode, ModeView, PromptView};
use crate::style::{
    highlight, highlighted, lemma_line_views_push, line_of, line_views, piece, plain, plain_style,
    span, Color, Line, SpanView,
};
use crate::text::{
    ascii, boundary, byte_len, characters, chars_before, chain, lemma_byte_len_take, on_boundary,
    string_of, text_len, texts,
};

verus! {

/// How many completions are shown.
pub const SHOWN_COMPLETIONS: usize = 5;

/// The title of a prompt.
pub open spec fn prompt_title(kind: PromptKind) -> Seq<char> {
    match kind {
        PromptKind::Import => "Import file (Enter: copy | Tab: cycle | Esc: cancel)"@,
        PromptKind::AddInput => "Add input directory (Enter: add | Tab: cycle | Esc: cancel)"@,
        PromptKind::AddOutput => "Add output directory (Enter: add | Tab: cycle | Esc: cancel)"@,
    }
}

/// The colour of a prompt.
pub open spec fn prompt_color(kind: PromptKind) -> Color {
    match kind {
        PromptKind::Import => Color::Cyan,
        _ => Color::Yellow,
    }
}

/// The byte offset from which a path that is too long for `width` is shown.
pub open spec fn shown_from(path: Seq<char>, width: int) -> int {
    byte_len(path) - (width - 3)
}

/// The path can be shortened to `width` bytes, if it has to be.
pub open spec fn can_shorten(path: Seq<char>, width: int) -> bool {
    byte_len(path) > width ==> width >= 3 && boundary(path, shown_from(path, width))
}

/// A path, or its end behind dots when it is longer than `width` bytes.
pub open spec fn shortened(path: Seq<char>, width: int) -> Seq<char> {
    if byte_len(path) > width {
        "..."@ + path.skip(chars_before(path, shown_from(path, width)))
    } else {
        path
    }
}

/// A completion on the screen; the chosen one is marked.
pub open spec fn completion_line(path: Seq<char>, width: int, chosen: bool) -> Seq<SpanView> {
    if chosen {
        seq![piece("▶ "@ + shortened(path, width), highlighted())]
    } else {
        seq![piece(shortened(path, width), plain_style())]
    }
}

/// The number of completions that are shown.
pub open spec fn shown_count(p: PromptView) -> int {
    if p.completions.len() < SHOWN_COMPLETIONS {
        p.completions.len() as int
    } else {
        SHOWN_COMPLETIONS as int
    }
}

/// The completions on the screen: the first of them.
pub open spec fn completion_lines(p: PromptView, width: int) -> Seq<Seq<SpanView>> {
    Seq::new(
        shown_count(p) as nat,
        |i: int| completion_line(p.completions[i], width, i == p.completion_index),
    )
}

/// The prompt has its cells on the screen, and the completions can be shortened to it.
pub open spec fn prompt_fits(p: PromptView, area: Area) -> bool {
    &&& area.x + 1 + p.cursor % 65536 <= u16::MAX
    &&& area.y + 1 <= u16::MAX
    &&& right_of(area) >= 2
    &&& forall|i: int|
        0 <= i < shown_count(p) ==> can_shorten(#[trigger] p.completions[i], area.width as int)
}

/// The lower part of the screen while a path is typed.
#[derive(Debug, Clone, PartialEq)]
pub struct PromptScreen {
    pub title: String,
    pub color: Color,
    pub text: String,
    pub cursor: Cell,
    /// The completions; without any, nothing is drawn for them.
    pub completions: Vec<Line>,
}

#[verifier::ext_equal]
pub struct PromptScreenView {
    pub title: Seq<char>,
    pub color: Color,
    pub text: Seq<char>,
    pub cursor: Cell,
    pub completions: Seq<Seq<SpanView>>,
}

impl View for PromptScreen {
    type V = PromptScreenView;

    open spec fn view(&self) -> PromptScreenView {
        PromptScreenView {
            title: self.title@,
            color: self.color,
            text: self.text@,
            cursor: self.cursor,
            completions: line_views(self.completions@),
        }
    }
}

/// The prompt in its area.
pub open spec fn prompt_screen(kind: PromptKind, p: PromptView, area: Area) -> PromptScreenView {
    let column = area.x + 1 + p.cursor % 65536;
    let last = right_of(area) - 2;
    PromptScreenView {
        title: prompt_title(kind),
        color: prompt_color(kind),
        text: p.buffer,
        cursor: Cell {
            x: if column < last {
                column as u16
            } else {
                last as u16
            },
            y: (area.y + 1) as u16,
        },
        completions: completion_lines(p, area.width as int),
    }
}

/// The view of a prompt on the screen that may be missing.
pub open spec fn opt_prompt(s: Option<PromptScreen>) -> Option<PromptScreenView> {
    match s {
        Some(s) => Some(s@),
        None => None,
    }
}

fn is_shortenable(path: &str, width: usize) -> (b: bool)
    ensures
        b == can_shorten(path@, width as int),
{
    let size = text_len(path);
    if size <= width {
        true
    } else {
        width >= 3 && on_boundary(path, size - (width - 3))
    }
}

/// A path, or its end behind dots when it is longer than `width` bytes.
fn shorten(path: &str, width: usize) -> (r: String)
    requires
        can_shorten(path@, width as int),
    ensures
        r@ == shortened(path@, width as int),
{
    let size = text_len(path);
    if size <= width {
        return path.to_owned();
    }
    let from = size - (width - 3);
    let chars = characters(path);
    let mut offset: usize = 0;
    let mut k: usize = 0;
    let ghost target = chars_before(path@, from as int);
    assert(0 <= target <= path@.len() && byte_len(path@.take(target)) == from);
    assert(path@.take(path@.len() as int) =~= path@);
    while offset < from
        invariant
            chars@ == path@,
            k <= chars@.len(),
            offset == byte_len(path@.take(k as int)),
            byte_len(path@) <= usize::MAX,
            0 <= target <= path@.len(),
            byte_len(path@.take(target)) == from,
            k <= target,
        decreases target - k,
    {
        proof {
            if k == target {
                assert(false);
            }
            assert(path@.take(k + 1).drop_last() =~= path@.take(k as int));
            lemma_byte_len_take(path@, k + 1, path@.len() as int);
            assert(path@.take(path@.len() as int) =~= path@);
        }
        offset += crate::text::utf8_width(chars[k]);
        k += 1;
    }
    proof {
        if k < target {
            lemma_byte_len_take(path@, k as int, target);
        }
    }
    let mut tail: Vec<char> = Vec::new();
    for i in k..chars.len()
        invariant
            chars@ == path@,
            k <= chars@.len(),
            tail@ == path@.subrange(k as int, i as int),
    {
        tail.push(chars[i]);
        assert(tail@ =~= path@.subrange(k as int, i + 1));
    }
    assert(tail@ =~= path@.skip(k as int));
    chain("...", string_of(&tail).as_str())
}

fn shown_completions(completions: &Vec<String>, chosen: usize, width: u16) -> (r: Vec<Line>)
    requires
        ({
            let n = if completions@.len() < SHOWN_COMPLETIONS {
                completions@.len() as int
            } else {
                SHOWN_COMPLETIONS as int
            };
            forall|i: int|
                0 <= i < n ==> can_shorten(#[trigger] texts(completions@)[i], width as int)
        }),
    ensures
        forall|p: PromptView|
            p.completions == texts(completions@) && p.completion_index == chosen
                ==> #[trigger] completion_lines(p, width as int) == line_views(r@),
{
    let all = completions.len();
    let count = if all < SHOWN_COMPLETIONS {
        all
    } else {
        SHOWN_COMPLETIONS
    };
    let mut r: Vec<Line> = Vec::new();
    let ghost goal = Seq::new(
        count as nat,
        |i: int| completion_line(texts(completions@)[i], width as int, i == chosen),
    );
    assert(line_views(r@) =~= goal.take(0));
    for i in 0..count
        invariant
            count <= completions@.len(),
            goal == Seq::new(
                count as nat,
                |i: int| completion_line(texts(completions@)[i], width as int, i == chosen),
            ),
            forall|i: int|
                0 <= i < count ==> can_shorten(#[trigger] texts(completions@)[i], width as int),
            line_views(r@) == goal.take(i as int),
    {
        assert(texts(completions@)[i as int] == completions@[i as int]@);
        let path = shorten(completions[i].as_str(), width as usize);
        let line = if i == chosen {
            line_of(span(chain("▶ ", path.as_str()), highlight()))
        } else {
            line_of(span(path, plain()))
        };
        proof {
            lemma_line_views_push(r@, line);
            assert(goal[i as int] == line@);
            assert(goal.take(i + 1) =~= goal.take(i as int).push(line@));
        }
        r.push(line);
    }
    assert(goal.take(count as int) =~= goal);
    assert forall|p: PromptView|
        p.completions == texts(completions@) && p.completion_index == chosen implies #[trigger]
    completion_lines(p, width as int) == line_views(r@) by {
        assert(completion_lines(p, width as int) =~= goal);
    }
    r
}

fn draw_prompt(
    kind: PromptKind,
    buffer: &String,
    cursor: usize,
    completions: &Vec<String>,
    completion_index: usize,
    area: Area,
) -> (r: PromptScreen)
    requires
        prompt_fits(
            crate::state::prompt_view(*buffer, cursor, *completions, completion_index),
            area,
        ),
    ensures
        r@ == prompt_screen(
            kind,
            crate::state::prompt_view(*buffer, cursor, *completions, completion_index),
            area,
        ),
{
    let ghost p = crate::state::prompt_view(*buffer, cursor, *completions, completion_index);
    let column: u16 = area.x + 1 + (cursor % 65536) as u16;
    let last: u16 = area.right() - 2;
    let title = match kind {
        PromptKind::Import => "Import file (Enter: copy | Tab: cycle | Esc: cancel)",
        PromptKind::AddInput => "Add input directory (Enter: add | Tab: cycle | Esc: cancel)",
        PromptKind::AddOutput => "Add output directory (Enter: add | Tab: cycle | Esc: cancel)",
    };
    let color = match kind {
        PromptKind::Import => Color::Cyan,
        _ => Color::Yellow,
    };
    let lines = shown_completions(completions, completion_index, area.width);
    let r = PromptScreen {
        title: title.to_owned(),
        color,
        text: buffer.clone(),
        cursor: Cell {
            x: if column < last {
                column
            } else {
                last
            },
            y: area.y + 1,
        },
        completions: lines,
    };
    assert(completion_lines(p, area.width as int) == line_views(lines@));
    assert(r@ =~= prompt_screen(kind, p, area));
    r
}

fn fits_on_screen(cursor: usize, completions: &Vec<String>, area: Area) -> (b: bool)
    ensures
        forall|p: PromptView|
            p.completions == texts(completions@) && p.cursor == cursor ==> #[trigger] prompt_fits(
                p,
                area,
            ) == b,
{
    let column: u32 = area.x as u32 + 1 + (cursor % 65536) as u32;
    if column > 65535 || area.y == 65535 || area.right() < 2 {
        return false;
    }
    let all = completions.len();
    let count = if all < SHOWN_COMPLETIONS {
        all
    } else {
        SHOWN_COMPLETIONS
    };
    for i in 0..count
        invariant
            count == if completions@.len() < SHOWN_COMPLETIONS {
                completions@.len() as int
            } else {
                SHOWN_COMPLETIONS as int
            },
            forall|j: int|
                0 <= j < i ==> can_shorten(#[trigger] texts(completions@)[j], area.width as int),
    {
        assert(texts(completions@)[i as int] == completions@[i as int]@);
        if !is_shortenable(completions[i].as_str(), area.width as usize) {
            assert forall|p: PromptView|
                p.completions == texts(completions@) && p.cursor == cursor implies #[trigger]
            prompt_fits(p, area) == false by {
                assert(!can_shorten(p.completions[i as int], area.width as int));
            }
            return false;
        }
    }
    true
}

impl App {
    /// Whether the path that is typed can be drawn into an area.
    pub fn prompt_drawable(&self, area: Area) -> (b: bool)
        ensures
            b == (match prompt_of(self@.mode) {
                Some((_, p)) => prompt_fits(p, area),
                None => true,
            }),
    {
        match &self.mode {
            AppMode::Import { cursor, completions, .. } => fits_on_screen(
                *cursor,
                completions,
                area,
            ),
            AppMode::AddInputDir { cursor, completions, .. } => fits_on_screen(
                *cursor,
                completions,
                area,
            ),
            AppMode::AddOutputDir { cursor, completions, .. } => fits_on_screen(
                *cursor,
                completions,
                area,
            ),
            _ => true,
        }
    }

    /// Draws the path of a file to import.
    pub fn render_import(&self, area: Area) -> (r: Option<PromptScreen>)
        requires
            self@.mode matches ModeView::Import(p) ==> prompt_fits(p, area),
        ensures
            opt_prompt(r) == (match self@.mode {
                ModeView::Import(p) => Some(prompt_screen(PromptKind::Import, p, area)),
                _ => None,
            }),
    {
        match &self.mode {
            AppMode::Import { buffer, cursor, completions, completion_index } => Some(
                draw_prompt(
                    PromptKind::Import,
                    buffer,
                    *cursor,
                    completions,
                    *completion_index,
                    area,
                ),
            ),
            _ => None,
        }
    }

    /// Draws the path of a directory to add.
    pub fn render_add_dir(&self, area: Area, is_input: bool) -> (r: Option<PromptScreen>)
        requires
            match (self@.mode, is_input) {
                (ModeView::AddInputDir(p), true) => prompt_fits(p, area),
                (ModeView::AddOutputDir(p), false) => prompt_fits(p, area),
                _ => true,
            },
        ensures
            opt_prompt(r) == (match (self@.mode, is_input) {
                (ModeView::AddInputDir(p), true) => Some(
                    prompt_screen(PromptKind::AddInput, p, area),
                ),
                (ModeView::AddOutputDir(p), false) => Some(
                    prompt_screen(PromptKind::AddOutput, p, area),
                ),
                _ => None,
            }),
    {
        match &self.mode {
            AppMode::AddInputDir { buffer, cursor, completions, completion_index } => if is_input {
                Some(
                    draw_prompt(
                        PromptKind::AddInput,
                        buffer,
                        *cursor,
                        completions,
                        *completion_index,
                        area,
                    ),
                )
            } else {
                None
            },
            AppMode::AddOutputDir { buffer, cursor, completions, completion_index } => if is_input {
                None
            } else {
                Some(
                    draw_prompt(
                        PromptKind::AddOutput,
                        buffer,
                        *cursor,
                        completions,
                        *completion_index,
                        area,
                    ),
                )
            },
            _ => None,
        }
    }
}

/// A completion takes no more bytes than the area has cells, dots included, and ends as the path
/// does.
pub proof fn shortened_paths_fit(path: Seq<char>, width: int)
    requires
        can_shorten(path, width),
    ensures
        byte_len(shortened(path, width)) <= width,
        byte_len(path) > width ==> shortened(path, width).skip(3).is_suffix_of(path),
{
    if byte_len(path) > width {
        let k = chars_before(path, shown_from(path, width));
        assert(0 <= k <= path.len() && byte_len(path.take(k)) == shown_from(path, width));
        let tail = path.skip(k);
        assert(path =~= path.take(k) + tail);
        crate::text::lemma_byte_len_concat(path.take(k), tail);
        crate::text::lemma_byte_len_concat("..."@, tail);
        reveal_strlit("...");
        assert(byte_len("..."@) == 3) by {
            let s = "..."@;
            assert(s.drop_last().drop_last().drop_last() =~= Seq::<char>::empty());
            reveal_with_fuel(byte_len, 4);
        }
        assert(shortened(path, width).skip(3) =~= tail);
        assert(tail =~= path.subrange(path.len() - tail.len(), path.len() as int));
    }
}

/// A path that fits is shown whole; a longer one ends as it does, behind three dots, and takes
/// exactly the width.
pub proof fn long_paths_show_their_end(path: Seq<char>, width: int)
    requires
        can_shorten(path, width),
    ensures
        byte_len(path) <= width ==> shortened(path, width) == path,
        byte_len(path) > width ==> {
            let s = shortened(path, width);
            &&& s.len() >= 3
            &&& s.take(3) == "..."@
            &&& s.skip(3).is_suffix_of(path)
            &&& byte_len(s) == width
        },
{
    if byte_len(path) > width {
        shortened_paths_fit(path, width);
        reveal_strlit("...");
        let k = chars_before(path, shown_from(path, width));
        assert(0 <= k <= path.len() && byte_len(path.take(k)) == shown_from(path, width));
        let tail = path.skip(k);
        assert(path =~= path.take(k) + tail);
        crate::text::lemma_byte_len_concat(path.take(k), tail);
        crate::text::lemma_byte_len_concat("..."@, tail);
        assert(byte_len("..."@) == 3) by {
            let s = "..."@;
            assert(s.drop_last().drop_last().drop_last() =~= Seq::<char>::empty());
            reveal_with_fuel(byte_len, 4);
        }
        assert(shortened(path, width).take(3) =~= "..."@);
    }
}

/// The first five completions are shown, in their order, or all where there are fewer; the chosen
/// one, and no other, is marked and stands out.
pub proof fn the_first_completions_are_shown(p: PromptView, width: int, i: int)
    requires
        0 <= i < completion_lines(p, width).len(),
    ensures
        ({
            let shown = completion_lines(p, width);
            &&& p.completions.len() <= 5 ==> shown.len() == p.completions.len()
            &&& p.completions.len() > 5 ==> shown.len() == 5
            &&& shown[i].len() == 1
            &&& i == p.completion_index ==> shown[i][0].text == "▶ "@ + shortened(
                p.completions[i],
                width,
            ) && shown[i][0].style.fg == Color::White && shown[i][0].style.bg == Color::DarkGray
            &&& i != p.completion_index ==> shown[i][0].text == shortened(p.completions[i], width)
                && shown[i][0].style == plain_style()
        }),
{
}

/// The path stands below its title with the cursor as many cells in as it stands in the path, as
/// far as the border; each kind of path has its own title.
pub proof fn prompts_show_the_path(kind: PromptKind, p: PromptView, area: Area)
    requires
        prompt_fits(p, area),
        0 <= p.cursor < 65536,
        area.x + area.width <= u16::MAX,
    ensures
        ({
            let s = prompt_screen(kind, p, area);
            &&& s.text == p.buffer
            &&& s.cursor.y == area.y + 1
            &&& p.cursor + 3 <= area.width ==> s.cursor.x == area.x + 1 + p.cursor
            &&& p.cursor + 3 > area.width ==> s.cursor.x == area.x + area.width - 2
            &&& s.completions == completion_lines(p, area.width as int)
            &&& kind == PromptKind::Import ==> s.title
                == "Import file (Enter: copy | Tab: cycle | Esc: cancel)"@ && s.color == Color::Cyan
            &&& kind == PromptKind::AddInput ==> s.title
                == "Add input directory (Enter: add | Tab: cycle | Esc: cancel)"@ && s.color
                == Color::Yellow
            &&& kind == PromptKind::AddOutput ==> s.title
                == "Add output directory (Enter: add | Tab: cycle | Esc: cancel)"@ && s.color
                == Color::Yellow
        }),
{
}

/// A path has room wherever the area is at least two cells wide and lies on the screen, and the
/// completions that are shown are no longer than it is wide.
pub proof fn short_prompts_have_room(p: PromptView, area: Area)
    requires
        0 <= p.cursor < 65536,
        area.x + 1 + p.cursor <= u16::MAX,
        area.y < u16::MAX,
        area.width >= 2,
        forall|i: int|
            0 <= i < p.completions.len() && i < 5 ==> byte_len(#[trigger] p.completions[i])
                <= area.width,
    ensures
        prompt_fits(p, area),
{
}

/// An ASCII path can always be shortened, as long as the dots have room.
pub proof fn ascii_paths_can_be_shortened(path: Seq<char>, width: int)
    requires
        ascii(path),
        width >= 3,
    ensures
        can_shorten(path, width),
{
    crate::text::lemma_ascii_offsets(path, 0);
    if byte_len(path) > width {
        crate::text::lemma_ascii_offsets(path, shown_from(path, width));
    }
}

} // verus!

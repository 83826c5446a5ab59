//! The input box on the screen, with the lines of help above it.
use vstd::prelude::*;

use crate::area::{
    below, cut_into_rows, reduced, right_of, rows_of, Area, Cell, RowHeight,
};
use crate::paths::{quote, quoted};
use crate::state::{wf, App, AppMode, AppView, ModeView};
use crate::style::{
    bold, line_of, line_of_three, line_of_two, line_views, piece, span, strong, tint, tinted, Color,
    Line, SpanView,
};
use crate::text::{boundary, byte_len, chain, chain3};
use crate::wrap::{
    box_place, byte_offsets_have_their_places, cursor_starts_at_the_top,
    cursor_stays_within_the_lines, place_of, wrapped_cursor,
};

verus! {

/// A piece of help.
pub open spec fn hint(text: Seq<char>) -> SpanView {
    piece(text, tinted(Color::DarkGray))
}

/// The lines of help while the file `path` is edited.
pub open spec fn edit_help(path: Seq<char>, dirty: bool) -> Seq<Seq<SpanView>> {
    let marker = if dirty {
        " [*]"@
    } else {
        ""@
    };
    seq![
        seq![
            piece("Edit"@, strong(Color::Yellow)),
            piece(" — Editing: "@ + quoted(path) + marker, tinted(Color::Yellow)),
        ],
        seq![hint("Enter:save+exit  "@), hint("Ctrl+S:save  "@), hint("Ctrl+J:nl"@)],
        seq![hint("Esc:cancel  "@), hint("PgUp/PgDn:scroll"@)],
    ]
}

/// The lines of help while a message is typed, or one is chosen.
pub open spec fn typing_help(selecting: bool) -> Seq<Seq<SpanView>> {
    let label = if selecting {
        "SELECT Input"@
    } else {
        "Input"@
    };
    seq![
        seq![piece(label, strong(Color::Cyan))],
        seq![hint("Tab:select  "@), hint("Ctrl+F:import  "@), hint("Ctrl+J:nl"@)],
        seq![hint("Enter:submit  "@), hint("PgUp/PgDn:scroll"@)],
        seq![hint("Ctrl+↑/↓:history  "@), hint("End:scroll bottom"@)],
        seq![hint("Ctrl+R:rotate in  "@), hint("Ctrl+O:rotate out"@)],
        seq![hint("Alt+I:add input  "@), hint("Alt+O:add output"@)],
    ]
}

/// The lines of help above the input box.
pub open spec fn help_lines(mode: ModeView) -> Seq<Seq<SpanView>> {
    match mode {
        ModeView::EditFile { target_path, dirty } => edit_help(target_path, dirty),
        _ => typing_help(mode is Select),
    }
}

/// The line of status.
pub open spec fn status_line(status: Seq<char>) -> Seq<SpanView> {
    seq![piece(" "@ + status, tinted(Color::Yellow))]
}

/// The rows of the lower part of the screen: the help, the status where there is one, and the
/// box.
pub open spec fn input_rows(a: AppView) -> Seq<RowHeight> {
    let help = RowHeight::Length(help_lines(a.mode).len() as u16);
    if a.status_message is Some {
        seq![help, RowHeight::Length(1), RowHeight::Min(3)]
    } else {
        seq![help, RowHeight::Min(3)]
    }
}

/// The cursor shows where text is typed.
pub open spec fn shows_cursor(mode: ModeView) -> bool {
    mode is Normal || mode is EditFile
}

/// The column of the cursor, before it is kept within the box.
pub open spec fn cursor_column(a: AppView, width: u16, shown: Area) -> int {
    shown.x + 1 + box_place(a.input_text, a.input_cursor, reduced(width, 2)).col as int % 65536
}

/// The row of the cursor, before it is kept within the box.
pub open spec fn cursor_row(a: AppView, width: u16, shown: Area) -> int {
    shown.y + 1 + box_place(a.input_text, a.input_cursor, reduced(width, 2)).line as int % 65536
}

/// The smaller of two cell numbers.
pub open spec fn nearer(a: int, b: u16) -> u16 {
    if a < b {
        a as u16
    } else {
        b
    }
}

/// The cell of the cursor in a box: where the wrapped text puts it, and no further than the last
/// column and the last row.
pub open spec fn cursor_cell(a: AppView, width: u16, shown: Area) -> Cell {
    Cell {
        x: nearer(cursor_column(a, width, shown), reduced(right_of(shown), 1)),
        y: nearer(cursor_row(a, width, shown), reduced(below(shown), 1)),
    }
}

/// The text can be cut at the cursor, where that shows.
pub open spec fn cursor_ready(a: AppView, width: u16) -> bool {
    shows_cursor(a.mode) && reduced(width, 2) > 0 ==> boundary(a.input_text, a.input_cursor)
}

/// A line, and where it stands.
#[derive(Debug, Clone, PartialEq)]
pub struct PlacedLine {
    pub line: Line,
    pub area: Area,
}

/// The lower part of the screen while text is typed, or a message chosen.
#[derive(Debug, Clone, PartialEq)]
pub struct InputScreen {
    pub help: Vec<Line>,
    pub help_area: Area,
    pub status: Option<PlacedLine>,
    /// What stands in the box.
    pub text: String,
    /// Nothing is typed: what stands in the box only holds its place.
    pub is_placeholder: bool,
    pub box_area: Area,
    pub cursor: Option<Cell>,
}

#[verifier::ext_equal]
pub struct InputScreenView {
    pub help: Seq<Seq<SpanView>>,
    pub help_area: Area,
    pub status: Option<(Seq<SpanView>, Area)>,
    pub text: Seq<char>,
    pub is_placeholder: bool,
    pub box_area: Area,
    pub cursor: Option<Cell>,
}

impl View for InputScreen {
    type V = InputScreenView;

    open spec fn view(&self) -> InputScreenView {
        InputScreenView {
            help: line_views(self.help@),
            help_area: self.help_area,
            status: match self.status {
                Some(placed) => Some((placed.line@, placed.area)),
                None => None,
            },
            text: self.text@,
            is_placeholder: self.is_placeholder,
            box_area: self.box_area,
            cursor: self.cursor,
        }
    }
}

/// The lower part of the screen, in rows of its area, which is `width` cells wide.
pub open spec fn input_screen(a: AppView, width: u16, rows: Seq<Area>) -> InputScreenView {
    InputScreenView {
        help: help_lines(a.mode),
        help_area: rows[0],
        status: match a.status_message {
            Some(status) => Some((status_line(status), rows[1])),
            None => None,
        },
        text: if a.input_text.len() == 0 {
            "..."@
        } else {
            a.input_text
        },
        is_placeholder: a.input_text.len() == 0,
        box_area: rows.last(),
        cursor: if shows_cursor(a.mode) {
            Some(cursor_cell(a, width, rows.last()))
        } else {
            None
        },
    }
}

fn gray(text: &str) -> (s: crate::style::Span)
    ensures
        s@ == hint(text@),
{
    span(text.to_owned(), tint(Color::DarkGray))
}

fn edit_help_lines(path: &str, dirty: bool) -> (r: Vec<Line>)
    ensures
        line_views(r@) == edit_help(path@, dirty),
{
    let marker = if dirty {
        " [*]"
    } else {
        ""
    };
    let shown = quote(path);
    let title = chain3(" — Editing: ", shown.as_str(), marker);
    let r = vec![
        line_of_two(
            span("Edit".to_owned(), bold(Color::Yellow)),
            span(title, tint(Color::Yellow)),
        ),
        line_of_three(gray("Enter:save+exit  "), gray("Ctrl+S:save  "), gray("Ctrl+J:nl")),
        line_of_two(gray("Esc:cancel  "), gray("PgUp/PgDn:scroll")),
    ];
    assert(line_views(r@) =~= edit_help(path@, dirty));
    r
}

fn typing_help_lines(selecting: bool) -> (r: Vec<Line>)
    ensures
        line_views(r@) == typing_help(selecting),
{
    let label = if selecting {
        "SELECT Input"
    } else {
        "Input"
    };
    let r = vec![
        line_of(span(label.to_owned(), bold(Color::Cyan))),
        line_of_three(gray("Tab:select  "), gray("Ctrl+F:import  "), gray("Ctrl+J:nl")),
        line_of_two(gray("Enter:submit  "), gray("PgUp/PgDn:scroll")),
        line_of_two(gray("Ctrl+↑/↓:history  "), gray("End:scroll bottom")),
        line_of_two(gray("Ctrl+R:rotate in  "), gray("Ctrl+O:rotate out")),
        line_of_two(gray("Alt+I:add input  "), gray("Alt+O:add output")),
    ];
    assert(line_views(r@) =~= typing_help(selecting));
    r
}

impl App {
    fn help(&self) -> (r: Vec<Line>)
        ensures
            line_views(r@) == help_lines(self@.mode),
    {
        match &self.mode {
            AppMode::EditFile { target_path, dirty } => edit_help_lines(
                target_path.as_str(),
                *dirty,
            ),
            AppMode::Select { .. } => typing_help_lines(true),
            _ => typing_help_lines(false),
        }
    }

    fn input_row_heights(&self) -> (r: Vec<RowHeight>)
        ensures
            r@ == input_rows(self@),
    {
        let help: u16 = match &self.mode {
            AppMode::EditFile { .. } => 3,
            _ => 6,
        };
        let r = if self.status_message.is_some() {
            vec![RowHeight::Length(help), RowHeight::Length(1), RowHeight::Min(3)]
        } else {
            vec![RowHeight::Length(help), RowHeight::Min(3)]
        };
        assert(r@ =~= input_rows(self@));
        r
    }

    /// The cell of the cursor in the input box.
    fn place_cursor(&self, width: u16, shown: Area) -> (r: Cell)
        requires
            wf(self@),
            reduced(width, 2) > 0 ==> boundary(self@.input_text, self@.input_cursor),
        ensures
            r == cursor_cell(self@, width, shown),
    {
        let (line, col) = wrapped_cursor(
            self.input_text.as_str(),
            self.input_cursor,
            width.saturating_sub(2),
        );
        let x: u32 = shown.x as u32 + 1 + (col % 65536) as u32;
        let y: u32 = shown.y as u32 + 1 + (line % 65536) as u32;
        let last_column = shown.right().saturating_sub(1);
        let last_row = shown.bottom().saturating_sub(1);
        let cx = if x < last_column as u32 {
            x as u16
        } else {
            last_column
        };
        let cy = if y < last_row as u32 {
            y as u16
        } else {
            last_row
        };
        Cell { x: cx, y: cy }
    }

    /// Puts the lower part of the screen together in the rows that it was given.
    pub fn draw_input(&self, width: u16, rows: &Vec<Area>) -> (r: InputScreen)
        requires
            wf(self@),
            cursor_ready(self@, width),
            rows@.len() == input_rows(self@).len(),
        ensures
            r@ == input_screen(self@, width, rows@),
    {
        let box_area = rows[rows.len() - 1];
        let typing = match &self.mode {
            AppMode::Normal => true,
            AppMode::EditFile { .. } => true,
            _ => false,
        };
        let cursor = if typing {
            Some(self.place_cursor(width, box_area))
        } else {
            None
        };
        let status = match &self.status_message {
            Some(status) => Some(
                PlacedLine {
                    line: line_of(span(chain(" ", status.as_str()), tint(Color::Yellow))),
                    area: rows[1],
                },
            ),
            None => None,
        };
        let is_placeholder = self.input_text.as_str().is_empty();
        let text = if is_placeholder {
            "...".to_owned()
        } else {
            self.input_text.clone()
        };
        let screen = InputScreen {
            help: self.help(),
            help_area: rows[0],
            status,
            text,
            is_placeholder,
            box_area,
            cursor,
        };
        assert(screen@ =~= input_screen(self@, width, rows@));
        screen
    }

    /// Draws the lower part of the screen into an area.
    pub fn render_input(&self, area: Area) -> (r: InputScreen)
        requires
            wf(self@),
            cursor_ready(self@, area.width),
        ensures
            exists|rows: Seq<Area>| #[trigger]
                rows_of(area, false, input_rows(self@), rows) && r@ == input_screen(
                    self@,
                    area.width,
                    rows,
                ),
    {
        let heights = self.input_row_heights();
        let rows = cut_into_rows(area, false, &heights);
        self.draw_input(area.width, &rows)
    }
}

/// The cursor never leaves the box: its cell is one of the cells of the box, as long as that has
/// any and lies on the screen.
pub proof fn cursor_stays_in_the_box(a: AppView, width: u16, shown: Area)
    requires
        shown.width > 0,
        shown.height > 0,
        shown.x + shown.width <= u16::MAX,
        shown.y + shown.height <= u16::MAX,
    ensures
        shown.x <= cursor_cell(a, width, shown).x < shown.x + shown.width,
        shown.y <= cursor_cell(a, width, shown).y < shown.y + shown.height,
{
}

/// The cursor shows where text is typed, and only there: its cell is as many columns and lines
/// into the box as the cursor itself stands in the wrapped text, as far as the box reaches.
pub proof fn cursor_shows_where_it_stands(a: AppView, width: u16, rows: Seq<Area>, k: int)
    requires
        rows.len() > 0,
        rows.last().x + rows.last().width <= u16::MAX,
        rows.last().y + rows.last().height <= u16::MAX,
        rows.last().width > 0,
        rows.last().height > 0,
        width > 2,
        0 <= k <= a.input_text.len(),
        a.input_cursor == byte_len(a.input_text.take(k)),
        place_of(a.input_text, k, (width - 2) as u16).line < 65536,
        place_of(a.input_text, k, (width - 2) as u16).col < 65536,
    ensures
        ({
            let shown = rows.last();
            let place = place_of(a.input_text, k, (width - 2) as u16);
            let cursor = input_screen(a, width, rows).cursor;
            &&& cursor is Some <==> a.mode is Normal || a.mode is EditFile
            &&& cursor is Some && place.line + 1 < shown.height ==> cursor->0.y == shown.y + 1
                + place.line
            &&& cursor is Some && place.line + 1 >= shown.height ==> cursor->0.y == shown.y
                + shown.height - 1
            &&& cursor is Some && place.col + 1 < shown.width ==> cursor->0.x == shown.x + 1
                + place.col
            &&& cursor is Some && place.col + 1 >= shown.width ==> cursor->0.x == shown.x
                + shown.width - 1
        }),
{
    byte_offsets_have_their_places(a.input_text, k, (width - 2) as u16);
}

/// Two cursors in one text show as many rows apart as their lines are, and on one line as many
/// columns apart as the text between them takes; at the start of the text the cursor shows in the
/// first cell within the border.
pub proof fn cursors_show_as_far_apart_as_they_stand(
    a: AppView,
    b: AppView,
    width: u16,
    shown: Area,
    k: int,
    m: int,
)
    requires
        shown.x + shown.width <= u16::MAX,
        shown.y + shown.height <= u16::MAX,
        width > 2,
        b == (AppView { input_cursor: b.input_cursor, ..a }),
        0 <= k <= m <= a.input_text.len(),
        a.input_cursor == byte_len(a.input_text.take(k)),
        b.input_cursor == byte_len(a.input_text.take(m)),
        place_of(a.input_text, k, (width - 2) as u16).col < 65536,
        place_of(a.input_text, m, (width - 2) as u16).col < 65536,
        place_of(a.input_text, m, (width - 2) as u16).line < 65536,
        cursor_cell(a, width, shown).y < shown.y + shown.height - 1,
        cursor_cell(b, width, shown).y < shown.y + shown.height - 1,
        cursor_cell(a, width, shown).x < shown.x + shown.width - 1,
        cursor_cell(b, width, shown).x < shown.x + shown.width - 1,
    ensures
        ({
            let w = (width - 2) as u16;
            let c = cursor_cell(a, width, shown);
            let d = cursor_cell(b, width, shown);
            &&& d.y - c.y == place_of(a.input_text, m, w).line - place_of(a.input_text, k, w).line
            &&& d.x - c.x == place_of(a.input_text, m, w).col - place_of(a.input_text, k, w).col
            &&& c.y <= d.y
            &&& k == 0 ==> c.x == shown.x + 1 && c.y == shown.y + 1
            &&& c.y == shown.y + 1 <==> place_of(a.input_text, k, w).line == 0
        }),
{
    let w = (width - 2) as u16;
    let text = a.input_text;
    byte_offsets_have_their_places(text, k, w);
    byte_offsets_have_their_places(text, m, w);
    cursor_stays_within_the_lines(text, k, m, w);
    cursor_starts_at_the_top(text, w);
}

/// The box shows what is typed, or dots where nothing is, below the help and the status; the
/// status has its row exactly when there is one to show.
pub proof fn box_shows_what_is_typed(a: AppView, width: u16, rows: Seq<Area>)
    requires
        rows.len() == input_rows(a).len(),
    ensures
        ({
            let s = input_screen(a, width, rows);
            &&& a.input_text.len() > 0 ==> s.text == a.input_text && !s.is_placeholder
            &&& a.input_text.len() == 0 ==> s.text == "..."@ && s.is_placeholder
            &&& s.help_area == rows[0]
            &&& s.box_area == rows[rows.len() - 1]
            &&& a.status_message is Some ==> rows.len() == 3 && s.status == Some(
                (seq![piece(" "@ + a.status_message->0, tinted(Color::Yellow))], rows[1]),
            )
            &&& a.status_message is None ==> rows.len() == 2 && s.status is None
        }),
{
}

/// The rows of the lower part are as many as its help has lines, one for a status where there is
/// one, and what is left, three at least, for the box.
pub proof fn rows_of_the_lower_part(a: AppView)
    ensures
        input_rows(a)[0] == RowHeight::Length(
            if a.mode is EditFile {
                3
            } else {
                6
            },
        ),
        help_lines(a.mode).len() == if a.mode is EditFile {
            3int
        } else {
            6
        },
        input_rows(a).last() == RowHeight::Min(3),
        a.status_message is Some ==> input_rows(a).len() == 3 && input_rows(a)[1]
            == RowHeight::Length(1),
        a.status_message is None ==> input_rows(a).len() == 2,
{
}

/// The help names the file that is edited, with a mark exactly when it has unsaved changes, and
/// tells typing and choosing apart.
pub proof fn help_tells_what_is_done(mode: ModeView)
    ensures
        mode matches ModeView::EditFile { target_path, dirty } ==> {
            &&& help_lines(mode)[0][0] == piece("Edit"@, strong(Color::Yellow))
            &&& help_lines(mode)[0][1].style == tinted(Color::Yellow)
            &&& forall|i: int, j: int|
                1 <= i < 3 && 0 <= j < help_lines(mode)[i].len() ==> (
                #[trigger] help_lines(mode)[i][j]).style == tinted(Color::DarkGray)
            &&& help_lines(mode)[1].len() == 3
            &&& help_lines(mode)[1][0].text == "Enter:save+exit  "@
            &&& help_lines(mode)[1][1].text == "Ctrl+S:save  "@
            &&& help_lines(mode)[1][2].text == "Ctrl+J:nl"@
            &&& help_lines(mode)[2].len() == 2
            &&& help_lines(mode)[2][0].text == "Esc:cancel  "@
            &&& help_lines(mode)[2][1].text == "PgUp/PgDn:scroll"@
            &&& dirty ==> help_lines(mode)[0][1].text == " — Editing: "@ + quoted(target_path)
                + " [*]"@
            &&& !dirty ==> help_lines(mode)[0][1].text == " — Editing: "@ + quoted(target_path)
                + ""@
        },
        mode is Select ==> help_lines(mode)[0][0].text == "SELECT Input"@,
        !(mode is Select) && !(mode is EditFile) ==> help_lines(mode)[0][0].text == "Input"@,
        !(mode is EditFile) ==> {
            &&& help_lines(mode)[0][0].style == strong(Color::Cyan)
            &&& forall|i: int, j: int|
                1 <= i < 6 && 0 <= j < help_lines(mode)[i].len() ==> (
                #[trigger] help_lines(mode)[i][j]).style == tinted(Color::DarkGray)
            &&& help_lines(mode)[0].len() == 1 && help_lines(mode)[1].len() == 3
            &&& forall|i: int| 2 <= i < 6 ==> (#[trigger] help_lines(mode)[i]).len() == 2
            &&& help_lines(mode)[1][0].text == "Tab:select  "@
            &&& help_lines(mode)[1][1].text == "Ctrl+F:import  "@
            &&& help_lines(mode)[1][2].text == "Ctrl+J:nl"@
            &&& help_lines(mode)[2][0].text == "Enter:submit  "@
            &&& help_lines(mode)[2][1].text == "PgUp/PgDn:scroll"@
            &&& help_lines(mode)[3][0].text == "Ctrl+↑/↓:history  "@
            &&& help_lines(mode)[3][1].text == "End:scroll bottom"@
            &&& help_lines(mode)[4][0].text == "Ctrl+R:rotate in  "@
            &&& help_lines(mode)[4][1].text == "Ctrl+O:rotate out"@
            &&& help_lines(mode)[5][0].text == "Alt+I:add input  "@
            &&& help_lines(mode)[5][1].text == "Alt+O:add output"@
        },
{
}

/// Where no cursor shows, and where the box has no columns, the lower part can be drawn wherever
/// the cursor stands; elsewhere it has to stand between two characters, or at an end.
pub proof fn only_a_cursor_that_shows_has_to_stand_well(a: AppView, width: u16)
    ensures
        !(a.mode is Normal) && !(a.mode is EditFile) ==> cursor_ready(a, width),
        width <= 2 ==> cursor_ready(a, width),
        (a.mode is Normal || a.mode is EditFile) && width > 2 ==> (cursor_ready(a, width)
            <==> boundary(a.input_text, a.input_cursor)),
{
}

} // verus!

//! The whole screen: the chat log above, and below it the input box or a path being typed.
use vstd::prelude::*;

use crate::area::{cut_into_rows, framed, reduced, rows_fit, rows_of, stretches, Area, RowHeight};
use crate::chat::{chosen_of, log_drawn, log_lines, top_line, visible_rows, ChatScreen};
use crate::inputbox::{cursor_ready, input_rows, input_screen, InputScreen, InputScreenView};
use crate::prompt::{prompt_of, PromptKind};
use crate::promptbox::{prompt_fits, prompt_screen, PromptScreen, PromptScreenView};
use crate::state::{wf, App, AppMode, AppView, ModeView};
use crate::style::line_views;
use crate::submit::{height, heights};
use crate::text::{boundary, lines, on_boundary};
use crate::wrap::{box_line_count, wrapped_line_count};

verus! {

/// The rows that the lower part of the screen would take if it could: help, status, the text and
/// the borders around it.
pub open spec fn needed_rows(a: AppView, width: u16) -> int {
    let status: int = if a.status_message is Some {
        1
    } else {
        0
    };
    5 + status + box_line_count(a.input_text, reduced(width, 4)) % 65536 + 2
}

/// The rows that the lower part of the screen asks for: as many as it needs, up to twenty, and
/// nine at least, with one more for the status.
pub open spec fn input_height(a: AppView, width: u16) -> u16 {
    let least: int = if a.status_message is Some {
        10
    } else {
        9
    };
    let wanted = if needed_rows(a, width) < 20 {
        needed_rows(a, width)
    } else {
        20
    };
    if wanted > least {
        wanted as u16
    } else {
        least as u16
    }
}

/// The two parts of the screen.
pub open spec fn screen_rows(a: AppView, width: u16) -> Seq<RowHeight> {
    seq![RowHeight::Min(1), RowHeight::Length(input_height(a, width))]
}

/// The lines of the text can be counted, and the text can be cut at the cursor where that shows.
pub open spec fn screen_ready(a: AppView, area: Area) -> bool {
    &&& needed_rows(a, area.width) <= u16::MAX
    &&& cursor_ready(a, framed(area, true).width)
}

/// The state that remembers the measures of the two parts.
pub open spec fn measured(a: AppView, rows: Seq<Area>) -> AppView {
    let inner = reduced(rows[1].width, 2);
    AppView {
        chat_area_height: reduced(rows[0].height, 2),
        input_inner_width: if inner > 1 {
            inner
        } else {
            1
        },
        ..a
    }
}

/// The state after the screen is drawn in its two parts.
pub open spec fn screen_drawn(a: AppView, rows: Seq<Area>) -> AppView {
    log_drawn(measured(a, rows), visible_rows(rows[0].height))
}

/// The lower part of the screen.
#[derive(Debug, Clone, PartialEq)]
pub enum LowerPart {
    Input(InputScreen),
    Prompt(PromptScreen),
}

#[verifier::ext_equal]
pub enum LowerView {
    Input(InputScreenView),
    Prompt(PromptScreenView),
}

impl View for LowerPart {
    type V = LowerView;

    open spec fn view(&self) -> LowerView {
        match self {
            LowerPart::Input(s) => LowerView::Input(s@),
            LowerPart::Prompt(s) => LowerView::Prompt(s@),
        }
    }
}

/// The screen.
#[derive(Debug, Clone, PartialEq)]
pub struct Screen {
    pub chat: ChatScreen,
    pub chat_area: Area,
    pub lower: LowerPart,
    pub lower_area: Area,
}

/// What the lower part of the screen can be: `None` only where a path that is typed has no room.
pub open spec fn lower_drawn(a: AppView, area: Area, r: Option<LowerView>) -> bool {
    match prompt_of(a.mode) {
        Some((kind, p)) => r == if prompt_fits(p, area) {
            Some(LowerView::Prompt(prompt_screen(kind, p, area)))
        } else {
            None
        },
        None => exists|rows: Seq<Area>| #[trigger]
            rows_of(area, false, input_rows(a), rows) && r == Some(
                LowerView::Input(input_screen(a, area.width, rows)),
            ),
    }
}

/// The screen shows the state `a` in the two parts: the chat log as scrolled to, and the lower
/// part.
pub open spec fn shows(a: AppView, rows: Seq<Area>, r: Option<Screen>) -> bool {
    match r {
        Some(s) => {
            &&& s.chat_area == rows[0]
            &&& s.lower_area == rows[1]
            &&& line_views(s.chat.lines@) == log_lines(a.messages, chosen_of(a.mode))
            &&& s.chat.scroll == top_line(measured(a, rows), visible_rows(rows[0].height)) % 65536
            &&& lower_drawn(screen_drawn(a, rows), rows[1], Some(s.lower@))
        },
        None => lower_drawn(screen_drawn(a, rows), rows[1], None),
    }
}

impl App {
    /// Whether the screen can be drawn into an area.
    pub fn drawable(&self, area: Area) -> (b: bool)
        requires
            wf(self@),
        ensures
            b == screen_ready(self@, area),
    {
        let text = self.input_text.as_str();
        let count = wrapped_line_count(text, area.width.saturating_sub(4)) % 65536;
        let status: usize = if self.status_message.is_some() {
            1
        } else {
            0
        };
        let typing = match &self.mode {
            AppMode::Normal => true,
            AppMode::EditFile { .. } => true,
            _ => false,
        };
        // A margin and a border on either side: the box has columns from a width of five on.
        let has_columns = area.width > 4 && area.height >= 2;
        count + status + 7 <= 65535 && (!typing || !has_columns || on_boundary(
            text,
            self.input_cursor,
        ))
    }

    /// The height that the lower part of the screen asks for at a width.
    fn lower_height(&self, width: u16) -> (h: u16)
        requires
            needed_rows(self@, width) <= u16::MAX,
        ensures
            h == input_height(self@, width),
    {
        let count = wrapped_line_count(self.input_text.as_str(), width.saturating_sub(4));
        let status: u16 = if self.status_message.is_some() {
            1
        } else {
            0
        };
        let needed: u16 = 5 + status + (count % 65536) as u16 + 2;
        let wanted: u16 = if needed < 20 {
            needed
        } else {
            20
        };
        let least: u16 = 9 + status;
        if wanted > least {
            wanted
        } else {
            least
        }
    }

    /// Cuts the screen into the chat log and the lower part.
    pub fn screen_parts(&self, area: Area) -> (rows: Vec<Area>)
        requires
            needed_rows(self@, area.width) <= u16::MAX,
        ensures
            rows@.len() == 2,
            rows_of(area, true, screen_rows(self@, area.width), rows@),
    {
        let heights = vec![RowHeight::Min(1), RowHeight::Length(self.lower_height(area.width))];
        assert(heights@ =~= screen_rows(self@, area.width));
        cut_into_rows(area, true, &heights)
    }

    fn draw_lower(&self, area: Area) -> (r: Option<LowerPart>)
        requires
            wf(self@),
            cursor_ready(self@, area.width),
        ensures
            lower_drawn(
                self@,
                area,
                match r {
                    Some(s) => Some(s@),
                    None => None,
                },
            ),
    {
        match &self.mode {
            AppMode::Import { .. } => {
                if !self.prompt_drawable(area) {
                    return None;
                }
                match self.render_import(area) {
                    Some(s) => Some(LowerPart::Prompt(s)),
                    None => None,
                }
            },
            AppMode::AddInputDir { .. } => {
                if !self.prompt_drawable(area) {
                    return None;
                }
                match self.render_add_dir(area, true) {
                    Some(s) => Some(LowerPart::Prompt(s)),
                    None => None,
                }
            },
            AppMode::AddOutputDir { .. } => {
                if !self.prompt_drawable(area) {
                    return None;
                }
                match self.render_add_dir(area, false) {
                    Some(s) => Some(LowerPart::Prompt(s)),
                    None => None,
                }
            },
            _ => Some(LowerPart::Input(self.render_input(area))),
        }
    }

    /// Draws the screen in its two parts; `None` where a path that is typed has no room.
    pub fn draw(&mut self, chat_area: Area, lower_area: Area) -> (r: Option<Screen>)
        requires
            wf(old(self)@),
            cursor_ready(old(self)@, lower_area.width),
        ensures
            final(self)@ == screen_drawn(old(self)@, seq![chat_area, lower_area]),
            wf(final(self)@),
            shows(old(self)@, seq![chat_area, lower_area], r),
            prompt_of(old(self)@.mode) is None ==> r is Some,
    {
        self.chat_area_height = chat_area.height.saturating_sub(2);
        let inner = lower_area.width.saturating_sub(2);
        self.input_inner_width = if inner > 1 {
            inner
        } else {
            1
        };
        let ghost rows = seq![chat_area, lower_area];
        assert(self@ =~= measured(old(self)@, rows));
        let chat = self.render_chat_log(chat_area);
        match self.draw_lower(lower_area) {
            Some(lower) => Some(Screen { chat, chat_area, lower, lower_area }),
            None => None,
        }
    }

    /// Draws the screen; `None` where a path that is typed has no room.
    pub fn ui(&mut self, area: Area) -> (r: Option<Screen>)
        requires
            wf(old(self)@),
            screen_ready(old(self)@, area),
        ensures
            wf(final(self)@),
            exists|rows: Seq<Area>| #[trigger]
                rows_of(area, true, screen_rows(old(self)@, area.width), rows) && final(self)@
                    == screen_drawn(old(self)@, rows) && shows(old(self)@, rows, r),
            prompt_of(old(self)@.mode) is None ==> r is Some,
    {
        let rows = self.screen_parts(area);
        assert(rows@ =~= seq![rows@[0], rows@[1]]);
        self.draw(rows[0], rows[1])
    }
}

/// The lower part asks for nine to twenty rows, and for no more than it needs beyond the least.
pub proof fn lower_part_keeps_its_measure(a: AppView, width: u16)
    ensures
        9 <= input_height(a, width) <= 20,
        input_height(a, width) > 10 ==> input_height(a, width) <= needed_rows(a, width),
{
}

/// On a screen that is high enough, the lower part has the height that it asks for, and the chat
/// log all the rest within the margin.
pub proof fn parts_share_the_screen(a: AppView, area: Area, rows: Seq<Area>)
    requires
        rows_of(area, true, screen_rows(a, area.width), rows),
        area.width >= 2,
        input_height(a, area.width) + 3 <= area.height <= i16::MAX,
        area.y + area.height <= u16::MAX,
    ensures
        rows[1].height == input_height(a, area.width),
        rows[0].height == area.height - 2 - input_height(a, area.width),
        rows[0].y == area.y + 1,
        rows[1].y == rows[0].y + rows[0].height,
{
    let hs = screen_rows(a, area.width);
    let whole = framed(area, true);
    assert(hs[0] is Min);
    assert(stretches(hs));
    assert(hs.drop_last() =~= seq![hs[0]]);
    assert(hs.drop_last().drop_last() =~= Seq::<RowHeight>::empty());
    reveal_with_fuel(crate::area::asked_in_all, 3);
    assert(rows_fit(whole, hs));
    assert(hs[1] == RowHeight::Length(input_height(a, area.width)));
    assert(rows.last() == rows[1]);
    assert(rows[1].y == rows[0].y + rows[0].height);
}

/// Drawing changes where the log is scrolled to and the measures on record, and nothing else.
pub proof fn drawing_leaves_the_rest_alone(a: AppView, rows: Seq<Area>)
    ensures
        screen_drawn(a, rows) == (AppView {
            scroll_offset: screen_drawn(a, rows).scroll_offset,
            scroll_to_bottom: screen_drawn(a, rows).scroll_to_bottom,
            chat_area_height: screen_drawn(a, rows).chat_area_height,
            input_inner_width: screen_drawn(a, rows).input_inner_width,
            ..a
        }),
{
}

/// The lower part asks for the lines of the wrapped text and seven rows for what stands around it,
/// and one more for a status: nine at least without a status and ten with one, and twenty at most.
pub proof fn the_box_grows_with_the_text(a: AppView, width: u16)
    requires
        width >= 4,
        box_line_count(a.input_text, (width - 4) as u16) < 60000,
    ensures
        ({
            let n = box_line_count(a.input_text, (width - 4) as u16);
            let status: int = if a.status_message is Some {
                1
            } else {
                0
            };
            &&& needed_rows(a, width) == n + 7 + status
            &&& n <= 2 ==> input_height(a, width) == 9 + status
            &&& n > 2 && n + 7 + status <= 20 ==> input_height(a, width) == n + 7 + status
            &&& n + 7 + status > 20 ==> input_height(a, width) == 20
        }),
{
    crate::wrap::line_starts_partition_the_text(a.input_text, (width - 4) as u16);
    let n = box_line_count(a.input_text, (width - 4) as u16);
    vstd::arithmetic::div_mod::lemma_small_mod(n as nat, 65536);
}

/// The parts of the screen are the log, which takes what is left, and below it the lower part with
/// the height that it asks for.
pub proof fn the_log_takes_what_is_left(a: AppView, width: u16)
    ensures
        screen_rows(a, width).len() == 2,
        screen_rows(a, width)[0] == RowHeight::Min(1),
        screen_rows(a, width)[1] == RowHeight::Length(input_height(a, width)),
{
}

/// The measures on record are those within the borders: the rows of the log, and the columns of
/// the box, one at least.
pub proof fn measures_are_those_within_the_borders(a: AppView, rows: Seq<Area>)
    ensures
        ({
            let b = screen_drawn(a, rows);
            &&& rows[0].height >= 2 ==> b.chat_area_height == rows[0].height - 2
            &&& rows[0].height < 2 ==> b.chat_area_height == 0
            &&& rows[1].width >= 3 ==> b.input_inner_width == rows[1].width - 2
            &&& rows[1].width < 3 ==> b.input_inner_width == 1
        }),
{
}

/// The screen shows the log as it stands, scrolled as drawing leaves it: to its end when that was
/// asked for, and from the line it is scrolled to otherwise.
pub proof fn the_screen_shows_the_log(a: AppView, rows: Seq<Area>, s: Screen)
    requires
        shows(a, rows, Some(s)),
        a.scroll_offset >= 0,
        log_lines(a.messages, chosen_of(a.mode)).len() < 65536,
    ensures
        ({
            let log = log_lines(a.messages, chosen_of(a.mode));
            let visible: int = if rows[0].height >= 2 {
                rows[0].height - 2
            } else {
                0
            };
            &&& line_views(s.chat.lines@) == log
            &&& s.chat_area == rows[0]
            &&& s.lower_area == rows[1]
            &&& !(a.mode is Select) && a.scroll_to_bottom && log.len() >= visible ==> s.chat.scroll
                + visible == log.len()
            &&& !(a.mode is Select) && !a.scroll_to_bottom && a.scroll_offset + visible
                <= log.len() ==> s.chat.scroll == a.scroll_offset
            &&& !(a.mode is Select) && log.len() < visible ==> s.chat.scroll == 0
        }),
{
    let visible = visible_rows(rows[0].height);
    let b = measured(a, rows);
    crate::chat::log_is_not_scrolled_past_its_end(b, visible);
    if !(a.mode is Select) {
        crate::chat::the_log_stays_where_it_is(b, visible);
    }
    let top = top_line(b, visible);
    if 0 <= top < 65536 {
        vstd::arithmetic::div_mod::lemma_small_mod(top as nat, 65536);
    }
}

/// The message that is chosen is marked in the log, and none where none is chosen.
pub proof fn the_chosen_message_is_marked(mode: ModeView)
    ensures
        mode matches ModeView::Select { cursor_index } ==> chosen_of(mode) == Some(cursor_index),
        !(mode is Select) ==> chosen_of(mode) is None,
{
}

/// While a path is typed, the lower part shows that path, as long as it has room; otherwise it
/// shows the input.
pub proof fn the_lower_part_shows_what_is_typed(a: AppView, area: Area, r: Option<LowerView>)
    requires
        lower_drawn(a, area, r),
    ensures
        a.mode matches ModeView::Import(p) ==> (r is Some <==> prompt_fits(p, area)) && (r is Some
            ==> r == Some(LowerView::Prompt(prompt_screen(PromptKind::Import, p, area)))),
        a.mode matches ModeView::AddInputDir(p) ==> (r is Some <==> prompt_fits(p, area)) && (
        r is Some ==> r == Some(LowerView::Prompt(prompt_screen(PromptKind::AddInput, p, area)))),
        a.mode matches ModeView::AddOutputDir(p) ==> (r is Some <==> prompt_fits(p, area)) && (
        r is Some ==> r == Some(LowerView::Prompt(prompt_screen(PromptKind::AddOutput, p, area)))),
        a.mode is Normal || a.mode is Select || a.mode is EditFile ==> r is Some
            && r->0 is Input && (a.input_text.len() > 0 ==> r->0->Input_0.text == a.input_text) && (
        r->0->Input_0.cursor is Some <==> a.mode is Normal || a.mode is EditFile),
{
}

/// The screen can be drawn wherever the lines of the text can be counted and the cursor stands
/// between two characters, or at an end.
pub proof fn screens_can_be_drawn(a: AppView, area: Area)
    requires
        box_line_count(a.input_text, reduced(area.width, 4)) < 60000,
        boundary(a.input_text, a.input_cursor),
    ensures
        screen_ready(a, area),
{
    crate::wrap::line_starts_partition_the_text(a.input_text, reduced(area.width, 4));
    vstd::arithmetic::div_mod::lemma_small_mod(
        box_line_count(a.input_text, reduced(area.width, 4)) as nat,
        65536,
    );
}

/// Drawing leaves the log scrolled as it shows: to its end when that was asked for, which is then
/// done with, to the chosen message, and otherwise where it was.
pub proof fn drawing_scrolls_by_the_rows_of_the_log(a: AppView, rows: Seq<Area>)
    requires
        rows[0].height >= 2,
    ensures
        ({
            let b = screen_drawn(a, rows);
            let visible = rows[0].height - 2;
            let count = log_lines(a.messages, chosen_of(a.mode)).len();
            &&& !(a.mode is Select) && !a.scroll_to_bottom ==> b.scroll_offset == a.scroll_offset
                && !b.scroll_to_bottom
            &&& !(a.mode is Select) && a.scroll_to_bottom ==> !b.scroll_to_bottom
            &&& !(a.mode is Select) && a.scroll_to_bottom && count >= visible ==> b.scroll_offset
                == count - visible
            &&& !(a.mode is Select) && a.scroll_to_bottom && count < visible ==> b.scroll_offset
                == 0
            &&& a.mode is Select ==> b.scroll_to_bottom == a.scroll_to_bottom && b.scroll_offset
                == log_drawn(a, visible).scroll_offset
        }),
{
}

/// A chosen message that fits is on the screen as a whole, as long as no message is empty and the
/// log is not beyond counting.
pub proof fn the_screen_shows_the_chosen_message(a: AppView, rows: Seq<Area>, s: Screen, i: int)
    requires
        shows(a, rows, Some(s)),
        0 <= i < a.messages.len(),
        a.mode == (ModeView::Select { cursor_index: i }),
        a.scroll_offset >= 0,
        a.message_line_offsets == heights(a.messages),
        forall|k: int| 0 <= k < a.messages.len() ==> (#[trigger] a.messages[k]).content.len() > 0,
        forall|k: int|
            0 <= k < a.messages.len() ==> lines((#[trigger] a.messages[k]).content).len() + 3
                <= usize::MAX,
        rows[0].height >= 2,
        height(a.messages[i]) <= rows[0].height - 2,
        log_lines(a.messages, Some(i)).len() < 65536,
    ensures
        ({
            let start = log_lines(a.messages.take(i), Some(i)).len();
            let end = log_lines(a.messages.take(i + 1), Some(i)).len();
            &&& s.chat.scroll <= start
            &&& end <= s.chat.scroll + (rows[0].height - 2)
        }),
{
    let b = measured(a, rows);
    let visible = rows[0].height - 2;
    crate::chat::chosen_message_is_in_view(b, i, visible);
    crate::chat::log_is_not_scrolled_past_its_end(b, visible);
    crate::chat::choosing_scrolls_as_little_as_it_can(b, i, visible);
    crate::chat::the_log_is_shown_from_where_it_is_scrolled_to(b, visible);
    crate::chat::the_log_shows_every_message(a.messages, Some(i), i);
    let top = top_line(b, visible);
    assert(0 <= top < 65536);
    vstd::arithmetic::div_mod::lemma_small_mod(top as nat, 65536);
}

} // verus!

//! The chat log on the screen.
use vstd::prelude::*;

use crate::area::{reduced, Area};
use crate::clock::wall_clock;
use crate::models::{ChatMessage, MessageRole, MessageView};
use crate::state::{message_views, wf, App, AppMode, AppView, ModeView};
use crate::style::{
    bold, empty_line, highlight, highlighted, lemma_line_views_push, line_of, line_of_three,
    line_of_two, line_views, piece, plain, plain_style, span, strong, tint, tinted, Color, Line,
    SpanView, Style,
};
use crate::submit::{height, heights};
use crate::text::{chain3, lines, split_lines, texts};

verus! {

/// The name of a role.
pub open spec fn role_label(role: MessageRole) -> Seq<char> {
    match role {
        MessageRole::Input => "USER INPUT"@,
        MessageRole::Output => "AGENT OUTPUT"@,
        MessageRole::System => "SYSTEM"@,
    }
}

/// The colour of a role.
pub open spec fn role_color(role: MessageRole) -> Color {
    match role {
        MessageRole::Input => Color::Cyan,
        MessageRole::Output => Color::Green,
        MessageRole::System => Color::Yellow,
    }
}

/// The style of the header of a message; the chosen one stands out.
pub open spec fn header_style(role: MessageRole, chosen: bool) -> Style {
    if chosen {
        highlighted()
    } else {
        strong(role_color(role))
    }
}

/// The header of a message: its role, and the time of its creation.
pub open spec fn header_line(m: MessageView, chosen: bool) -> Seq<SpanView> {
    let style = header_style(m.role, chosen);
    let mark = if chosen {
        "▶ "@
    } else {
        ""@
    };
    seq![
        piece("╔══ "@ + mark + "["@ + role_label(m.role) + "] "@, style),
        piece(wall_clock(m.created_at), tinted(Color::DarkGray)),
        piece(" ══"@, style),
    ]
}

/// A line of the content of a message.
pub open spec fn content_line(line: Seq<char>, style: Style) -> Seq<SpanView> {
    seq![piece("║  "@, style), piece(line, plain_style())]
}

/// The footer of a message.
pub open spec fn footer_line() -> Seq<SpanView> {
    seq![
        piece(
            "╚══════════════════════════════════════════════════════════"@,
            tinted(Color::DarkGray),
        ),
    ]
}

/// The lines of a message: its header, its content, its footer and a blank line.
pub open spec fn message_lines(m: MessageView, chosen: bool) -> Seq<Seq<SpanView>> {
    seq![header_line(m, chosen)] + lines(m.content).map_values(
        |l: Seq<char>| content_line(l, header_style(m.role, chosen)),
    ) + seq![footer_line(), Seq::empty()]
}

/// The lines of the chat log: its title, a blank line, and the messages one below the other.
pub open spec fn log_lines(ms: Seq<MessageView>, chosen: Option<int>) -> Seq<Seq<SpanView>>
    decreases ms.len(),
{
    if ms.len() == 0 {
        seq![seq![piece("═══ Chat Log ═══"@, strong(Color::White))], Seq::empty()]
    } else {
        log_lines(ms.drop_last(), chosen) + message_lines(
            ms.last(),
            chosen == Some(ms.len() - 1),
        )
    }
}

/// The message that is chosen.
pub open spec fn chosen_of(mode: ModeView) -> Option<int> {
    match mode {
        ModeView::Select { cursor_index } => Some(cursor_index),
        _ => None,
    }
}

/// The sum of some heights.
pub open spec fn sum(hs: Seq<usize>) -> int
    decreases hs.len(),
{
    if hs.len() == 0 {
        0
    } else {
        sum(hs.drop_last()) + hs.last()
    }
}

/// The line of the chat log where the message at `i` starts, by the heights on record.
pub open spec fn first_line_of(a: AppView, i: int) -> int {
    let n = a.message_line_offsets.len() as int;
    sum(
        a.message_line_offsets.take(
            if i < n {
                i
            } else {
                n
            },
        ),
    ) + 2
}

/// The line behind the message at `i`, by the heights on record.
pub open spec fn end_line_of(a: AppView, i: int) -> int {
    first_line_of(a, i) + if i < a.message_line_offsets.len() {
        a.message_line_offsets[i] as int
    } else {
        3
    }
}

/// The rows within the borders of the chat log.
pub open spec fn visible_rows(area_height: u16) -> int {
    reduced(area_height, 2) as int
}

/// The last offset that still fills the chat log.
pub open spec fn max_offset(line_count: int, visible: int) -> int {
    if line_count >= visible {
        line_count - visible
    } else {
        0
    }
}

/// The smaller of two numbers.
pub open spec fn smaller(a: int, b: int) -> int {
    if a < b {
        a
    } else {
        b
    }
}

/// The scroll offset that brings the message at `i` into view: first down until its end shows,
/// then up until its start does.
pub open spec fn offset_showing(a: AppView, i: int, visible: int, max: int) -> int {
    let end = end_line_of(a, i);
    let down = if end > visible + a.scroll_offset {
        smaller(
            if end > visible {
                end - visible
            } else {
                0
            },
            max,
        )
    } else {
        a.scroll_offset
    };
    smaller(first_line_of(a, i), down)
}

/// The state after the chat log is drawn with `visible` rows: a chosen message is brought into
/// view; otherwise the log goes to its end when that was asked for, once.
pub open spec fn log_drawn(a: AppView, visible: int) -> AppView {
    let max = max_offset(log_lines(a.messages, chosen_of(a.mode)).len() as int, visible);
    match a.mode {
        ModeView::Select { cursor_index } => AppView {
            scroll_offset: offset_showing(a, cursor_index, visible, max),
            ..a
        },
        _ => if a.scroll_to_bottom {
            AppView { scroll_to_bottom: false, scroll_offset: max, ..a }
        } else {
            a
        },
    }
}

/// The first line of the chat log that is shown.
pub open spec fn top_line(a: AppView, visible: int) -> int {
    let max = max_offset(log_lines(a.messages, chosen_of(a.mode)).len() as int, visible);
    smaller(log_drawn(a, visible).scroll_offset, max)
}

/// The chat log as it is drawn: its lines, and how many of them are scrolled out at the top.
#[derive(Debug, Clone, PartialEq)]
pub struct ChatScreen {
    pub lines: Vec<Line>,
    pub scroll: u16,
}

fn label_of(role: MessageRole) -> (r: &'static str)
    ensures
        r@ == role_label(role),
{
    match role {
        MessageRole::Input => "USER INPUT",
        MessageRole::Output => "AGENT OUTPUT",
        MessageRole::System => "SYSTEM",
    }
}

fn style_of(role: MessageRole, chosen: bool) -> (s: Style)
    ensures
        s == header_style(role, chosen),
{
    if chosen {
        return highlight();
    }
    match role {
        MessageRole::Input => bold(Color::Cyan),
        MessageRole::Output => bold(Color::Green),
        MessageRole::System => bold(Color::Yellow),
    }
}

fn header_of(m: &ChatMessage, chosen: bool) -> (l: Line)
    ensures
        l@ == header_line(m@, chosen),
{
    let style = style_of(m.role, chosen);
    let mark = if chosen {
        "▶ "
    } else {
        ""
    };
    let mut head = chain3("╔══ ", mark, "[");
    head.append(label_of(m.role));
    head.append("] ");
    line_of_three(
        span(head, style),
        span(m.created_at.clock_text(), tint(Color::DarkGray)),
        span(" ══".to_owned(), style),
    )
}

fn push_message(log: &mut Vec<Line>, m: &ChatMessage, chosen: bool)
    ensures
        line_views(final(log)@) == line_views(old(log)@) + message_lines(m@, chosen),
{
    let style = style_of(m.role, chosen);
    let content = split_lines(m.content.as_str());
    let ghost start = line_views(log@);
    let ghost shown = lines(m@.content).map_values(|l: Seq<char>| content_line(l, style));
    let header = header_of(m, chosen);
    proof {
        lemma_line_views_push(log@, header);
    }
    log.push(header);
    let ghost head = seq![header_line(m@, chosen)];
    assert(line_views(log@) =~= start + head + shown.take(0));
    for i in 0..content.len()
        invariant
            texts(content@) == lines(m@.content),
            shown == lines(m@.content).map_values(|l: Seq<char>| content_line(l, style)),
            line_views(log@) == start + head + shown.take(i as int),
    {
        let line = line_of_two(span("║  ".to_owned(), style), span(content[i].clone(), plain()));
        proof {
            assert(texts(content@)[i as int] == content@[i as int]@);
            assert(shown[i as int] == line@);
            lemma_line_views_push(log@, line);
            assert((start + head + shown.take(i as int)).push(line@) =~= start + head + shown.take(
                i + 1,
            ));
        }
        log.push(line);
    }
    let footer = line_of(
        span(
            "╚══════════════════════════════════════════════════════════".to_owned(),
            tint(Color::DarkGray),
        ),
    );
    let blank = empty_line();
    proof {
        lemma_line_views_push(log@, footer);
        lemma_line_views_push(log@.push(footer), blank);
        assert(shown.take(shown.len() as int) =~= shown);
        assert((start + head + shown).push(footer@).push(blank@) =~= start + message_lines(
            m@,
            chosen,
        ));
    }
    log.push(footer);
    log.push(blank);
}

impl App {
    fn chosen(&self) -> (r: Option<usize>)
        ensures
            match (r, chosen_of(self@.mode)) {
                (Some(i), Some(j)) => i == j,
                (None, None) => true,
                _ => false,
            },
    {
        match &self.mode {
            AppMode::Select { cursor_index } => Some(*cursor_index),
            _ => None,
        }
    }

    /// The lines of the chat log.
    pub fn chat_lines(&self) -> (log: Vec<Line>)
        ensures
            line_views(log@) == log_lines(self@.messages, chosen_of(self@.mode)),
    {
        let chosen = self.chosen();
        let ghost sel = chosen_of(self@.mode);
        let ghost ms = message_views(self.messages@);
        let mut log: Vec<Line> = Vec::new();
        let title = line_of(span("═══ Chat Log ═══".to_owned(), bold(Color::White)));
        let blank = empty_line();
        proof {
            lemma_line_views_push(log@, title);
            lemma_line_views_push(log@.push(title), blank);
        }
        log.push(title);
        log.push(blank);
        assert(line_views(log@) =~= log_lines(ms.take(0), sel));
        for i in 0..self.messages.len()
            invariant
                ms == message_views(self.messages@),
                match (chosen, sel) {
                    (Some(i), Some(j)) => i == j,
                    (None, None) => true,
                    _ => false,
                },
                line_views(log@) == log_lines(ms.take(i as int), sel),
        {
            let is_chosen = match chosen {
                Some(c) => c == i,
                None => false,
            };
            proof {
                assert(ms.take(i + 1).drop_last() =~= ms.take(i as int));
                assert(ms.take(i + 1).last() == self.messages@[i as int]@);
            }
            push_message(&mut log, &self.messages[i], is_chosen);
        }
        assert(ms.take(ms.len() as int) =~= ms);
        log
    }

    /// Where the message at `i` starts and ends in the chat log, by the heights on record.
    fn span_of(&self, i: usize) -> (r: (u128, u128))
        ensures
            r.0 == first_line_of(self@, i as int),
            r.1 == end_line_of(self@, i as int),
    {
        let hs = &self.message_line_offsets;
        let count = hs.len();
        let upto = if i < count {
            i
        } else {
            count
        };
        let mut total: u128 = 0;
        assert(hs@.take(0) =~= Seq::<usize>::empty());
        for k in 0..upto
            invariant
                hs@ == self.message_line_offsets@,
                count == hs@.len(),
                upto <= count,
                total == sum(hs@.take(k as int)),
                total <= k * 0xffff_ffff_ffff_ffff,
        {
            assert(hs@.take(k + 1).drop_last() =~= hs@.take(k as int));
            assert(k * 0xffff_ffff_ffff_ffff + 0xffff_ffff_ffff_ffff == (k + 1)
                * 0xffff_ffff_ffff_ffff) by (nonlinear_arith);
            assert((k + 1) * 0xffff_ffff_ffff_ffff <= 0xffff_ffff_ffff_ffff * 0xffff_ffff_ffff_ffff)
                by (nonlinear_arith)
                requires
                    k + 1 <= 0xffff_ffff_ffff_ffff,
            ;
            total = total + hs[k] as u128;
        }
        assert(upto * 0xffff_ffff_ffff_ffff <= 0xffff_ffff_ffff_ffff * 0xffff_ffff_ffff_ffff)
            by (nonlinear_arith)
            requires
                upto <= 0xffff_ffff_ffff_ffff,
        ;
        let first = total + 2;
        let size: u128 = if i < count {
            hs[i] as u128
        } else {
            3
        };
        (first, first + size)
    }

    /// Brings the message at `i` into view.
    fn scroll_to_message(&mut self, i: usize, visible: usize, max: usize)
        requires
            wf(old(self)@),
        ensures
            final(self)@ == (AppView {
                scroll_offset: offset_showing(old(self)@, i as int, visible as int, max as int),
                ..old(self)@
            }),
            wf(final(self)@),
    {
        let (first, end) = self.span_of(i);
        let visible = visible as u128;
        let max = max as u128;
        let mut offset = self.scroll_offset as u128;
        if end > visible + offset {
            let down = if end > visible {
                end - visible
            } else {
                0
            };
            offset = if down < max {
                down
            } else {
                max
            };
        }
        if first < offset {
            offset = first;
        }
        self.scroll_offset = offset as usize;
    }

    /// Draws the chat log into an area.
    pub fn render_chat_log(&mut self, area: Area) -> (screen: ChatScreen)
        requires
            wf(old(self)@),
        ensures
            final(self)@ == log_drawn(old(self)@, visible_rows(area.height)),
            wf(final(self)@),
            line_views(screen.lines@) == log_lines(
                old(self)@.messages,
                chosen_of(old(self)@.mode),
            ),
            screen.scroll == top_line(old(self)@, visible_rows(area.height)) % 65536,
    {
        let lines = self.chat_lines();
        let visible: usize = area.height.saturating_sub(2) as usize;
        let max = lines.len().saturating_sub(visible);
        match self.chosen() {
            Some(i) => self.scroll_to_message(i, visible, max),
            None => {
                if self.scroll_to_bottom {
                    self.scroll_to_bottom = false;
                    self.scroll_offset = max;
                }
            },
        }
        let top = if self.scroll_offset < max {
            self.scroll_offset
        } else {
            max
        };
        ChatScreen { lines, scroll: (top % 65536) as u16 }
    }
}

/// The rows that a message takes in the log are as many as the heights on record say, as long as
/// it has any content and they can be counted.
pub proof fn heights_match_the_log(ms: Seq<MessageView>, chosen: Option<int>)
    requires
        forall|i: int| 0 <= i < ms.len() ==> (#[trigger] ms[i]).content.len() > 0,
        forall|i: int|
            0 <= i < ms.len() ==> lines((#[trigger] ms[i]).content).len() + 3 <= usize::MAX,
    ensures
        log_lines(ms, chosen).len() == sum(heights(ms)) + 2,
    decreases ms.len(),
{
    if ms.len() > 0 {
        let before = ms.drop_last();
        assert forall|i: int| 0 <= i < before.len() implies (#[trigger] before[i]).content.len() > 0
            && lines(before[i].content).len() + 3 <= usize::MAX by {
            assert(before[i] == ms[i]);
        }
        heights_match_the_log(before, chosen);
        assert(heights(ms).drop_last() =~= heights(before));
        assert(heights(ms).last() == height(ms.last()));
        assert(ms.last() == ms[ms.len() - 1]);
        lemma_content_has_lines(ms.last().content);
    }
}

proof fn lemma_content_has_lines(s: Seq<char>)
    requires
        s.len() > 0,
    ensures
        lines(s).len() > 0,
{
    reveal_with_fuel(crate::text::cut, 2);
}

/// A chosen message that fits into the chat log is shown as a whole, wherever the log was
/// scrolled to, as long as no message is empty and the log is not beyond counting.
pub proof fn chosen_message_is_in_view(a: AppView, i: int, visible: int)
    requires
        0 <= i < a.messages.len(),
        a.mode == (ModeView::Select { cursor_index: i }),
        a.scroll_offset >= 0,
        a.message_line_offsets == heights(a.messages),
        forall|k: int| 0 <= k < a.messages.len() ==> (#[trigger] a.messages[k]).content.len() > 0,
        forall|k: int|
            0 <= k < a.messages.len() ==> lines((#[trigger] a.messages[k]).content).len() + 3
                <= usize::MAX,
        height(a.messages[i]) <= visible,
    ensures
        ({
            let start = log_lines(a.messages.take(i), Some(i)).len();
            let end = log_lines(a.messages.take(i + 1), Some(i)).len();
            &&& end == start + height(a.messages[i])
            &&& top_line(a, visible) <= start
            &&& end <= top_line(a, visible) + visible
        }),
{
    let ms = a.messages;
    let hs = a.message_line_offsets;
    lemma_prefix_heights(ms, i, Some(i));
    lemma_prefix_heights(ms, i + 1, Some(i));
    lemma_prefix_heights(ms, ms.len() as int, Some(i));
    assert(ms.take(ms.len() as int) =~= ms);
    assert(hs.take(i + 1).drop_last() =~= hs.take(i));
    assert(hs.take(hs.len() as int) =~= hs);
    assert(hs[i] == height(ms[i]));
    lemma_sum_grows(hs, i + 1, hs.len() as int);
}

proof fn lemma_prefix_heights(ms: Seq<MessageView>, n: int, chosen: Option<int>)
    requires
        0 <= n <= ms.len(),
        forall|k: int| 0 <= k < ms.len() ==> (#[trigger] ms[k]).content.len() > 0,
        forall|k: int|
            0 <= k < ms.len() ==> lines((#[trigger] ms[k]).content).len() + 3 <= usize::MAX,
    ensures
        log_lines(ms.take(n), chosen).len() == sum(heights(ms).take(n)) + 2,
{
    let t = ms.take(n);
    assert forall|k: int| 0 <= k < t.len() implies (#[trigger] t[k]).content.len() > 0 && lines(
        t[k].content,
    ).len() + 3 <= usize::MAX by {
        assert(t[k] == ms[k]);
    }
    heights_match_the_log(t, chosen);
    assert(heights(t) =~= heights(ms).take(n));
}

proof fn lemma_sum_grows(hs: Seq<usize>, i: int, j: int)
    requires
        0 <= i <= j <= hs.len(),
    ensures
        sum(hs.take(i)) <= sum(hs.take(j)),
    decreases j - i,
{
    if i < j {
        lemma_sum_grows(hs, i, j - 1);
        assert(hs.take(j).drop_last() =~= hs.take(j - 1));
    }
}

/// The log is never scrolled past its end: below the first line shown there are lines enough to
/// fill the rows, or the whole log is shown.
pub proof fn log_is_not_scrolled_past_its_end(a: AppView, visible: int)
    requires
        a.scroll_offset >= 0,
        visible >= 0,
    ensures
        ({
            let count = log_lines(a.messages, chosen_of(a.mode)).len();
            let top = top_line(a, visible);
            &&& count >= visible ==> top + visible <= count
            &&& count < visible ==> top <= 0
        }),
{
}

/// When the end of the log was asked for, its last lines are shown, and only that once: the next
/// time the log stays where it is scrolled to.
pub proof fn going_to_the_end_happens_once(a: AppView, visible: int)
    requires
        a.scroll_to_bottom,
        !(a.mode is Select),
        visible >= 0,
    ensures
        ({
            let count = log_lines(a.messages, chosen_of(a.mode)).len();
            &&& count >= visible ==> top_line(a, visible) + visible == count
            &&& !log_drawn(a, visible).scroll_to_bottom
            &&& log_drawn(log_drawn(a, visible), visible) == log_drawn(a, visible)
        }),
{
}

/// A message is headed by its role and the time of its creation. The chosen one is marked, and
/// stands out; the others have the colour of their role.
pub proof fn headers_tell_role_and_time(m: MessageView, chosen: bool)
    ensures
        ({
            let h = header_line(m, chosen);
            let label = match m.role {
                MessageRole::Input => "USER INPUT"@,
                MessageRole::Output => "AGENT OUTPUT"@,
                MessageRole::System => "SYSTEM"@,
            };
            let color = match m.role {
                MessageRole::Input => Color::Cyan,
                MessageRole::Output => Color::Green,
                MessageRole::System => Color::Yellow,
            };
            &&& h.len() == 3
            &&& chosen ==> h[0].text == "╔══ "@ + "▶ "@ + "["@ + label + "] "@
            &&& !chosen ==> h[0].text == "╔══ "@ + ""@ + "["@ + label + "] "@
            &&& h[1].text == wall_clock(m.created_at)
            &&& h[2].text == " ══"@
            &&& chosen ==> h[0].style.fg == Color::White && h[0].style.bg == Color::DarkGray
            &&& !chosen ==> h[0].style.fg == color && h[0].style.bg == Color::Unset
            &&& h[0].style.bold
            &&& h[2].style == h[0].style
            &&& h[1].style.fg == Color::DarkGray && !h[1].style.bold
        }),
{
}

/// A message shows each line of its content, in order and unchanged, between its header and its
/// footer, with a blank line behind.
pub proof fn messages_show_every_line(m: MessageView, chosen: bool, j: int)
    requires
        0 <= j < lines(m.content).len(),
    ensures
        ({
            let shown = message_lines(m, chosen);
            let n = lines(m.content).len();
            &&& shown.len() == n + 3
            &&& shown[0] == header_line(m, chosen)
            &&& shown[j + 1].len() == 2
            &&& shown[j + 1][0].text == "║  "@
            &&& shown[j + 1][0].style == shown[0][0].style
            &&& shown[j + 1][1].text == lines(m.content)[j]
            &&& shown[j + 1][1].style == plain_style()
            &&& shown[n as int + 1].len() == 1
            &&& shown[n as int + 1][0].text
                == "╚══════════════════════════════════════════════════════════"@
            &&& shown[n as int + 1][0].style == tinted(Color::DarkGray)
            &&& shown[n as int + 2].len() == 0
        }),
{
}

/// A message without content shows its header, its footer and the blank line alone.
pub proof fn empty_messages_show_their_frame(m: MessageView, chosen: bool)
    requires
        lines(m.content).len() == 0,
    ensures
        message_lines(m, chosen).len() == 3,
        message_lines(m, chosen)[0] == header_line(m, chosen),
        message_lines(m, chosen)[1].len() == 1,
        message_lines(m, chosen)[1][0].text
            == "╚══════════════════════════════════════════════════════════"@,
        message_lines(m, chosen)[2].len() == 0,
{
}

/// The log has a title and a blank line, and below them every message, in the order of the
/// timeline; only the chosen one is shown as such.
pub proof fn the_log_shows_every_message(ms: Seq<MessageView>, chosen: Option<int>, i: int)
    requires
        0 <= i < ms.len(),
    ensures
        ({
            let log = log_lines(ms, chosen);
            let from = log_lines(ms.take(i), chosen).len() as int;
            let to = log_lines(ms.take(i + 1), chosen).len() as int;
            &&& log_lines(Seq::empty(), chosen).len() == 2
            &&& log.len() >= to
            &&& log[0].len() == 1 && log[0][0].text == "═══ Chat Log ═══"@
            &&& log[0][0].style == strong(Color::White)
            &&& log[1].len() == 0
            &&& 2 <= from
            &&& to == from + message_lines(ms[i], chosen == Some(i)).len()
            &&& log.subrange(from, to) == message_lines(ms[i], chosen == Some(i))
            &&& i + 1 == ms.len() ==> to == log.len()
        }),
    decreases ms.len(),
{
    let head = ms.drop_last();
    let n = ms.len() - 1;
    let log = log_lines(ms, chosen);
    assert(ms.take(i + 1).drop_last() =~= ms.take(i));
    assert(ms.take(i + 1).last() == ms[i]);
    lemma_log_starts(head, chosen);
    assert(log =~= log_lines(head, chosen) + message_lines(ms[n], chosen == Some(n)));
    lemma_log_starts(ms.take(i), chosen);
    let from = log_lines(ms.take(i), chosen).len() as int;
    let to = log_lines(ms.take(i + 1), chosen).len() as int;
    if i == n {
        assert(ms.take(i) =~= head);
        assert(log.subrange(from, to) =~= message_lines(ms[i], chosen == Some(i)));
    } else {
        the_log_shows_every_message(head, chosen, i);
        assert(head.take(i) =~= ms.take(i));
        assert(head.take(i + 1) =~= ms.take(i + 1));
        assert(log.subrange(from, to) =~= log_lines(head, chosen).subrange(from, to));
    }
}

proof fn lemma_log_starts(ms: Seq<MessageView>, chosen: Option<int>)
    ensures
        log_lines(ms, chosen).len() >= 2,
        log_lines(ms, chosen)[0].len() == 1,
        log_lines(ms, chosen)[0][0].text == "═══ Chat Log ═══"@,
        log_lines(ms, chosen)[0][0].style == strong(Color::White),
        log_lines(ms, chosen)[1].len() == 0,
    decreases ms.len(),
{
    if ms.len() > 0 {
        lemma_log_starts(ms.drop_last(), chosen);
    }
}

/// Choosing a message scrolls the log no further than it has to: not at all while the message is
/// in view, down until its last line is the last shown, up until its first is the first. A message
/// that is higher than the log shows from its first line on.
pub proof fn choosing_scrolls_as_little_as_it_can(a: AppView, i: int, visible: int)
    requires
        0 <= i < a.messages.len(),
        a.mode == (ModeView::Select { cursor_index: i }),
        a.scroll_offset >= 0,
        visible >= 0,
        a.message_line_offsets == heights(a.messages),
        forall|k: int| 0 <= k < a.messages.len() ==> (#[trigger] a.messages[k]).content.len() > 0,
        forall|k: int|
            0 <= k < a.messages.len() ==> lines((#[trigger] a.messages[k]).content).len() + 3
                <= usize::MAX,
    ensures
        ({
            let start = log_lines(a.messages.take(i), Some(i)).len();
            let end = log_lines(a.messages.take(i + 1), Some(i)).len();
            let to = log_drawn(a, visible).scroll_offset;
            &&& end - start <= visible && a.scroll_offset <= start && end <= a.scroll_offset
                + visible ==> to == a.scroll_offset
            &&& end - start <= visible && end > a.scroll_offset + visible ==> to == end - visible
            &&& end - start <= visible && start < a.scroll_offset ==> to == start
            &&& end - start > visible ==> to == start
            &&& log_drawn(a, visible) == AppView { scroll_offset: to, ..a }
        }),
{
    let ms = a.messages;
    let hs = a.message_line_offsets;
    lemma_prefix_heights(ms, i, Some(i));
    lemma_prefix_heights(ms, i + 1, Some(i));
    lemma_prefix_heights(ms, ms.len() as int, Some(i));
    assert(ms.take(ms.len() as int) =~= ms);
    assert(hs.take(i + 1).drop_last() =~= hs.take(i));
    assert(hs.take(hs.len() as int) =~= hs);
    assert(hs[i] == height(ms[i]));
    lemma_sum_grows(hs, i + 1, hs.len() as int);
}

/// Where no message is chosen, the log stays where it is scrolled to, unless its end was asked
/// for; it is shown from there on, as long as that fills the rows.
pub proof fn the_log_stays_where_it_is(a: AppView, visible: int)
    requires
        !(a.mode is Select),
        a.scroll_offset >= 0,
        visible >= 0,
    ensures
        !a.scroll_to_bottom ==> log_drawn(a, visible) == a,
        a.scroll_to_bottom ==> log_drawn(a, visible) == (AppView {
            scroll_to_bottom: false,
            scroll_offset: log_drawn(a, visible).scroll_offset,
            ..a
        }),
        ({
            let count = log_lines(a.messages, None).len();
            &&& !a.scroll_to_bottom && a.scroll_offset + visible <= count ==> top_line(a, visible)
                == a.scroll_offset
            &&& !a.scroll_to_bottom && a.scroll_offset + visible > count && count >= visible
                ==> top_line(a, visible) == count - visible
            &&& a.scroll_to_bottom && count >= visible ==> log_drawn(a, visible).scroll_offset
                == count - visible
            &&& count < visible ==> top_line(a, visible) == 0
        }),
{
}

/// The rows of the log are those within its border.
pub proof fn the_border_takes_two_rows(height: u16)
    ensures
        height >= 2 ==> visible_rows(height) == height - 2,
        height < 2 ==> visible_rows(height) == 0,
{
}

/// The log is shown from the line that it is scrolled to, as long as the lines from there on fill
/// the rows, and from further up otherwise, whether a message is chosen or not.
pub proof fn the_log_is_shown_from_where_it_is_scrolled_to(a: AppView, visible: int)
    requires
        visible >= 0,
    ensures
        ({
            let count = log_lines(a.messages, chosen_of(a.mode)).len();
            let to = log_drawn(a, visible).scroll_offset;
            &&& 0 <= to && to + visible <= count ==> top_line(a, visible) == to
            &&& to + visible > count && count >= visible ==> top_line(a, visible) == count
                - visible
            &&& count < visible && to >= 0 ==> top_line(a, visible) == 0
        }),
{
}

} // verus!

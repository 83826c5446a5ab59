//! Styled text, as the screen shows it.
use vstd::prelude::*;

verus! {

/// The colours in use; `Unset` leaves the colour of the terminal.
#[derive(Debug, Clone, Copy, PartialEq, Eq, Structural)]
pub enum Color {
    Unset,
    White,
    DarkGray,
    Cyan,
    Green,
    Yellow,
}

/// How a piece of text looks.
#[derive(Debug, Clone, Copy, PartialEq, Eq, Structural)]
pub struct Style {
    pub fg: Color,
    pub bg: Color,
    pub bold: bool,
}

/// The look of the terminal itself.
pub open spec fn plain_style() -> Style {
    Style { fg: Color::Unset, bg: Color::Unset, bold: false }
}

/// Text in a colour.
pub open spec fn tinted(c: Color) -> Style {
    Style { fg: c, bg: Color::Unset, bold: false }
}

/// Bold text in a colour.
pub open spec fn strong(c: Color) -> Style {
    Style { fg: c, bg: Color::Unset, bold: true }
}

/// What is chosen.
pub open spec fn highlighted() -> Style {
    Style { fg: Color::White, bg: Color::DarkGray, bold: true }
}

/// The look of the terminal itself.
pub fn plain() -> (s: Style)
    ensures
        s == plain_style(),
{
    Style { fg: Color::Unset, bg: Color::Unset, bold: false }
}

/// Text in a colour.
pub fn tint(c: Color) -> (s: Style)
    ensures
        s == tinted(c),
{
    Style { fg: c, bg: Color::Unset, bold: false }
}

/// Bold text in a colour.
pub fn bold(c: Color) -> (s: Style)
    ensures
        s == strong(c),
{
    Style { fg: c, bg: Color::Unset, bold: true }
}

/// The look of what is chosen.
pub fn highlight() -> (s: Style)
    ensures
        s == highlighted(),
{
    Style { fg: Color::White, bg: Color::DarkGray, bold: true }
}

/// A piece of a line in one style.
#[derive(Debug, Clone, PartialEq)]
pub struct Span {
    pub text: String,
    pub style: Style,
}

/// A line of the screen.
#[derive(Debug, Clone, PartialEq)]
pub struct Line {
    pub spans: Vec<Span>,
}

#[verifier::ext_equal]
pub struct SpanView {
    pub text: Seq<char>,
    pub style: Style,
}

impl View for Span {
    type V = SpanView;

    open spec fn view(&self) -> SpanView {
        SpanView { text: self.text@, style: self.style }
    }
}

impl View for Line {
    type V = Seq<SpanView>;

    open spec fn view(&self) -> Seq<SpanView> {
        self.spans@.map_values(|s: Span| s@)
    }
}

/// The views of some lines.
pub open spec fn line_views(v: Seq<Line>) -> Seq<Seq<SpanView>> {
    v.map_values(|l: Line| l@)
}

/// A piece of text in a style.
pub open spec fn piece(text: Seq<char>, style: Style) -> SpanView {
    SpanView { text, style }
}

/// A piece of text in a style.
pub fn span(text: String, style: Style) -> (s: Span)
    ensures
        s@ == piece(text@, style),
{
    Span { text, style }
}

/// A line with nothing on it.
pub fn empty_line() -> (l: Line)
    ensures
        l@ == Seq::<SpanView>::empty(),
{
    let l = Line { spans: Vec::new() };
    assert(l@ =~= Seq::<SpanView>::empty());
    l
}

/// A line of one piece.
pub fn line_of(a: Span) -> (l: Line)
    ensures
        l@ == seq![a@],
{
    let l = Line { spans: vec![a] };
    assert(l@ =~= seq![a@]);
    l
}

/// A line of two pieces.
pub fn line_of_two(a: Span, b: Span) -> (l: Line)
    ensures
        l@ == seq![a@, b@],
{
    let l = Line { spans: vec![a, b] };
    assert(l@ =~= seq![a@, b@]);
    l
}

/// A line of three pieces.
pub fn line_of_three(a: Span, b: Span, c: Span) -> (l: Line)
    ensures
        l@ == seq![a@, b@, c@],
{
    let l = Line { spans: vec![a, b, c] };
    assert(l@ =~= seq![a@, b@, c@]);
    l
}

/// One more line behind the others.
pub proof fn lemma_line_views_push(v: Seq<Line>, l: Line)
    ensures
        line_views(v.push(l)) == line_views(v).push(l@),
{
    assert(line_views(v.push(l)) =~= line_views(v).push(l@));
}

/// A colour is that of the text; only bold text is bold, only what is chosen has a colour behind
/// it, and plain text leaves all to the terminal.
pub proof fn styles_look_as_they_say(c: Color, text: Seq<char>, style: Style)
    ensures
        tinted(c).fg == c && tinted(c).bg == Color::Unset && !tinted(c).bold,
        strong(c).fg == c && strong(c).bg == Color::Unset && strong(c).bold,
        highlighted().fg == Color::White && highlighted().bg == Color::DarkGray
            && highlighted().bold,
        plain_style().fg == Color::Unset && plain_style().bg == Color::Unset && !plain_style().bold,
        piece(text, style).text == text,
        piece(text, style).style == style,
{
}

} // verus!

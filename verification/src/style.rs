//! Colors, styles and styled text.
use vstd::prelude::*;

verus! {

/// A terminal color.
#[derive(Clone, Copy, Debug, PartialEq, Eq, Structural)]
pub enum Color {
    Black,
    Red,
    Yellow,
    Blue,
    DarkGray,
    White,
    Rgb(u8, u8, u8),
    Indexed(u8),
}

/// How a piece of text is drawn: colors and text attributes.
#[derive(Clone, Copy, Debug)]
pub struct Style {
    pub fg: Option<Color>,
    pub bg: Option<Color>,
    pub bold: bool,
    pub italic: bool,
    pub crossed_out: bool,
    pub underlined: bool,
}

/// The style with no color and no attribute.
pub open spec fn plain_style() -> Style {
    Style { fg: None, bg: None, bold: false, italic: false, crossed_out: false, underlined: false }
}

impl Style {
    /// The style with no color and no attribute.
    pub fn plain() -> (s: Style)
        ensures
            s == plain_style(),
    {
        Style { fg: None, bg: None, bold: false, italic: false, crossed_out: false, underlined: false }
    }

    /// This style with foreground `c`.
    pub fn fg(self, c: Color) -> (s: Style)
        ensures
            s == (Style { fg: Some(c), ..self }),
    {
        Style { fg: Some(c), ..self }
    }

    /// This style with background `c`.
    pub fn bg(self, c: Color) -> (s: Style)
        ensures
            s == (Style { bg: Some(c), ..self }),
    {
        Style { bg: Some(c), ..self }
    }

    /// This style, bold.
    pub fn add_bold(self) -> (s: Style)
        ensures
            s == (Style { bold: true, ..self }),
    {
        Style { bold: true, ..self }
    }

    /// This style, underlined.
    pub fn add_underlined(self) -> (s: Style)
        ensures
            s == (Style { underlined: true, ..self }),
    {
        Style { underlined: true, ..self }
    }
}

/// A piece of text drawn in one style.
#[derive(Clone, Debug)]
pub struct Span {
    pub content: String,
    pub style: Style,
}

/// The mathematical value of a [`Span`].
pub struct SpanView {
    pub text: Seq<char>,
    pub style: Style,
}

impl View for Span {
    type V = SpanView;

    open spec fn view(&self) -> SpanView {
        SpanView { text: self.content@, style: self.style }
    }
}

/// A span in style `st`.
pub open spec fn sv(text: Seq<char>, st: Style) -> SpanView {
    SpanView { text, style: st }
}

impl Span {
    /// A span in the plain style.
    pub fn raw(content: String) -> (s: Span)
        ensures
            s@ == sv(content@, plain_style()),
    {
        Span { content, style: Style::plain() }
    }

    /// A span in style `style`.
    pub fn styled(content: String, style: Style) -> (s: Span)
        ensures
            s@ == sv(content@, style),
    {
        Span { content, style }
    }
}

/// One line of styled text.
#[derive(Clone, Debug)]
pub struct Line {
    pub spans: Vec<Span>,
}

/// The spans of a line as values.
pub open spec fn spans_view(v: Seq<Span>) -> Seq<SpanView> {
    v.map_values(|s: Span| s@)
}

impl View for Line {
    type V = Seq<SpanView>;

    open spec fn view(&self) -> Seq<SpanView> {
        spans_view(self.spans@)
    }
}

/// The lines as values.
pub open spec fn lines_view(v: Seq<Line>) -> Seq<Seq<SpanView>> {
    v.map_values(|l: Line| l@)
}

/// The text of a line: the texts of its spans, in order.
pub open spec fn line_text(l: Seq<SpanView>) -> Seq<char>
    decreases l.len(),
{
    if l.len() == 0 {
        Seq::empty()
    } else {
        line_text(l.drop_last()) + l.last().text
    }
}

impl Line {
    /// A line without spans (a blank line).
    pub fn empty() -> (l: Line)
        ensures
            l@ == Seq::<SpanView>::empty(),
    {
        let l = Line { spans: Vec::new() };
        assert(l@ =~= Seq::<SpanView>::empty());
        l
    }

    /// A line holding the given spans.
    pub fn from_spans(spans: Vec<Span>) -> (l: Line)
        ensures
            l@ == spans_view(spans@),
    {
        Line { spans }
    }

    /// A copy of this line.
    pub fn copy(&self) -> (l: Line)
        ensures
            l@ == self@,
    {
        let mut spans: Vec<Span> = Vec::new();
        let mut i: usize = 0;
        while i < self.spans.len()
            invariant
                i <= self.spans.len(),
                spans_view(spans@) =~= spans_view(self.spans@.take(i as int)),
            decreases self.spans.len() - i,
        {
            let sp = &self.spans[i];
            spans.push(Span::styled(sp.content.clone(), sp.style));
            proof {
                assert(self.spans@.take(i + 1) =~= self.spans@.take(i as int).push(self.spans@[i as int]));
                lemma_spans_push(spans@.drop_last(), spans@.last());
                lemma_spans_push(self.spans@.take(i as int), self.spans@[i as int]);
                assert(spans@.drop_last().push(spans@.last()) =~= spans@);
            }
            i = i + 1;
        }
        assert(self.spans@.take(i as int) =~= self.spans@);
        Line { spans }
    }

    /// A line holding one span.
    pub fn from_span(s: Span) -> (l: Line)
        ensures
            l@ == seq![s@],
    {
        let mut spans = Vec::new();
        spans.push(s);
        let l = Line { spans };
        assert(l@ =~= seq![s@]);
        l
    }
}

/// Pushing a span pushes its value.
pub broadcast proof fn lemma_spans_push_auto(v: Seq<Span>, s: Span)
    ensures
        #[trigger] spans_view(v.push(s)) == spans_view(v).push(s@),
{
    assert(spans_view(v.push(s)) =~= spans_view(v).push(s@));
}

/// Pushing a line pushes its value.
pub broadcast proof fn lemma_lines_push_auto(v: Seq<Line>, l: Line)
    ensures
        #[trigger] lines_view(v.push(l)) == lines_view(v).push(l@),
{
    assert(lines_view(v.push(l)) =~= lines_view(v).push(l@));
}

/// The value of joined lines is the join of their values.
pub broadcast proof fn lemma_lines_add_auto(a: Seq<Line>, b: Seq<Line>)
    ensures
        #[trigger] lines_view(a + b) == lines_view(a) + lines_view(b),
{
    assert(lines_view(a + b) =~= lines_view(a) + lines_view(b));
}

/// Appends lines.
pub fn append_lines(dst: &mut Vec<Line>, src: Vec<Line>)
    ensures
        lines_view(final(dst)@) == lines_view(old(dst)@) + lines_view(src@),
{
    let mut src = src;
    let ghost s = src@;
    dst.append(&mut src);
    proof { lemma_lines_add_auto(old(dst)@, s); }
}

/// Pushing a span pushes its value.
pub proof fn lemma_spans_push(v: Seq<Span>, s: Span)
    ensures
        spans_view(v.push(s)) == spans_view(v).push(s@),
{
    assert(spans_view(v.push(s)) =~= spans_view(v).push(s@));
}

/// Pushing a line pushes its value.
pub proof fn lemma_lines_push(v: Seq<Line>, l: Line)
    ensures
        lines_view(v.push(l)) == lines_view(v).push(l@),
{
    assert(lines_view(v.push(l)) =~= lines_view(v).push(l@));
}

/// The text of spans joined after more spans.
pub proof fn lemma_line_text_add(a: Seq<SpanView>, b: Seq<SpanView>)
    ensures
        line_text(a + b) == line_text(a) + line_text(b),
    decreases b.len(),
{
    if b.len() == 0 {
        assert(a + b =~= a);
        assert(line_text(a) + line_text(b) =~= line_text(a));
    } else {
        lemma_line_text_add(a, b.drop_last());
        assert((a + b).drop_last() =~= a + b.drop_last());
        assert(line_text(a + b) =~= line_text(a) + line_text(b));
    }
}

/// The text of spans after one more span.
pub proof fn lemma_line_text_push(a: Seq<SpanView>, b: SpanView)
    ensures
        line_text(a.push(b)) == line_text(a) + b.text,
{
    assert(a.push(b).drop_last() =~= a);
}

} // verus!

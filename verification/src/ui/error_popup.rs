//! The error box drawn over the screen.
use vstd::prelude::*;
use crate::style::{Color, Line, Span, SpanView, Style, plain_style, sv, lines_view};
use crate::text::to_owned_string;

verus! {

/// An error message to show.
pub struct ErrorPopup<'a> {
    pub message: &'a str,
}

/// The color of the box: red.
pub open spec fn popup_border_style() -> Style {
    Style { fg: Some(Color::Red), ..plain_style() }
}

/// The title of the box: ` Error `, bold red.
pub open spec fn popup_title() -> SpanView {
    sv(" Error "@, Style { fg: Some(Color::Red), bold: true, ..plain_style() })
}

/// The body of the box: a blank line, the message in white, a blank line,
/// and the dismissal hint in gray.
pub open spec fn popup_lines(message: Seq<char>) -> Seq<Seq<SpanView>> {
    seq![
        seq![sv(Seq::empty(), plain_style())],
        seq![sv(message, Style { fg: Some(Color::White), ..plain_style() })],
        seq![sv(Seq::empty(), plain_style())],
        seq![sv("Press any key to dismiss"@, Style { fg: Some(Color::DarkGray), ..plain_style() })],
    ]
}

impl<'a> ErrorPopup<'a> {
    /// The title of the box.
    pub fn title(&self) -> (s: Span)
        ensures
            s@ == popup_title(),
    {
        Span::styled(to_owned_string(" Error "), Style::plain().fg(Color::Red).add_bold())
    }

    /// The style of the box's border.
    pub fn border_style(&self) -> (s: Style)
        ensures
            s == popup_border_style(),
    {
        Style::plain().fg(Color::Red)
    }

    /// The lines inside the box.
    pub fn lines(&self) -> (v: Vec<Line>)
        ensures
            lines_view(v@) == popup_lines(self.message@),
    {
        let mut v: Vec<Line> = Vec::new();
        v.push(Line::from_span(Span::raw(String::new())));
        v.push(Line::from_span(Span::styled(to_owned_string(self.message), Style::plain().fg(Color::White))));
        v.push(Line::from_span(Span::raw(String::new())));
        v.push(Line::from_span(Span::styled(to_owned_string("Press any key to dismiss"), Style::plain().fg(Color::DarkGray))));
        assert(lines_view(v@) =~= popup_lines(self.message@));
        v
    }
}

} // verus!

//! The search line: the query being typed.
use vstd::prelude::*;
use crate::style::{Color, Line, Span, SpanView, Style, plain_style, sv};
use crate::text::to_owned_string;

verus! {

/// The query being typed.
pub struct SearchBar<'a> {
    pub query: &'a str,
}

/// The style the search line is cleared with: white on black.
pub open spec fn search_bar_style() -> Style {
    Style { fg: Some(Color::White), bg: Some(Color::Black), ..plain_style() }
}

/// The spans of the search line: a bold yellow `/`, the query, a block cursor.
pub open spec fn search_bar_spans(query: Seq<char>) -> Seq<SpanView> {
    seq![
        sv("/"@, Style { fg: Some(Color::Yellow), bold: true, ..plain_style() }),
        sv(query, search_bar_style()),
        sv("█"@, Style { fg: Some(Color::White), ..plain_style() }),
    ]
}

impl<'a> SearchBar<'a> {
    /// The style the search line is cleared with.
    pub fn fill_style(&self) -> (s: Style)
        ensures
            s == search_bar_style(),
    {
        Style::plain().bg(Color::Black).fg(Color::White)
    }

    /// The search line.
    pub fn line(&self) -> (l: Line)
        ensures
            l@ == search_bar_spans(self.query@),
    {
        let mut spans: Vec<Span> = Vec::new();
        spans.push(Span::styled(to_owned_string("/"), Style::plain().fg(Color::Yellow).add_bold()));
        spans.push(Span::styled(to_owned_string(self.query), self.fill_style()));
        spans.push(Span::styled(to_owned_string("█"), Style::plain().fg(Color::White)));
        let l = Line::from_spans(spans);
        assert(l@ =~= search_bar_spans(self.query@));
        l
    }
}

} // verus!

//! The status line under the document.
use vstd::prelude::*;
use crate::app::Mode;
use crate::style::{Color, Line, Span, Style, plain_style, sv};
use crate::text::{decimal, decimal_string, join_strings, join_with, push_str, strings_view, to_owned_string};

verus! {

/// The facts the status line shows.
pub struct StatusBar<'a> {
    pub filename: &'a str,
    pub line_count: usize,
    pub word_count: usize,
    pub scroll_percent: u16,
    pub mode: &'a Mode,
    pub table_wrap: bool,
    pub search_info: Option<String>,
}

/// The name of a mode.
pub open spec fn mode_name(m: Mode) -> Seq<char> {
    match m {
        Mode::FilePicker => "PICKER"@,
        Mode::Viewer => "VIEWER"@,
        Mode::Search => "SEARCH"@,
    }
}

/// The key hints of a mode.
pub open spec fn mode_hints(m: Mode) -> Seq<char> {
    match m {
        Mode::FilePicker => "q:quit ↑↓:nav ↵:open"@,
        Mode::Viewer => "q:back /:search w:wrap"@,
        Mode::Search => "↵:confirm esc:cancel"@,
    }
}

/// The parts of the status line: file, lines, words, position, mode, the table
/// layout (in the viewer), the search state (when given), and the key hints.
pub open spec fn status_parts(bar: &StatusBar) -> Seq<Seq<char>> {
    let base = seq![
        seq![' '] + bar.filename@,
        decimal(bar.line_count as nat) + " lines"@,
        decimal(bar.word_count as nat) + " words"@,
        decimal(bar.scroll_percent as nat) + "%"@,
        mode_name(*bar.mode),
    ];
    let with_wrap = if *bar.mode == Mode::Viewer {
        base.push(if bar.table_wrap { "[wrap]"@ } else { "[hscroll]"@ })
    } else {
        base
    };
    let with_search = match bar.search_info {
        Some(s) => with_wrap.push(s@),
        None => with_wrap,
    };
    with_search.push(mode_hints(*bar.mode))
}

/// The style of the status line: bold white on dark gray.
pub open spec fn status_style() -> Style {
    Style { fg: Some(Color::White), bg: Some(Color::DarkGray), bold: true, ..plain_style() }
}

impl<'a> StatusBar<'a> {
    /// The text of the status line: its parts joined by ` │ `.
    pub fn text(&self) -> (s: String)
        ensures
            s@ == join_with(status_parts(self), " │ "@),
    {
        let mut parts: Vec<String> = Vec::new();
        let mut first = to_owned_string(" ");
        push_str(&mut first, self.filename);
        proof { reveal_strlit(" "); assert(" "@ =~= seq![' ']); }
        parts.push(first);
        let mut lines = decimal_string(self.line_count as u64);
        push_str(&mut lines, " lines");
        parts.push(lines);
        let mut words = decimal_string(self.word_count as u64);
        push_str(&mut words, " words");
        parts.push(words);
        let mut pct = decimal_string(self.scroll_percent as u64);
        push_str(&mut pct, "%");
        parts.push(pct);
        let mode_str = match self.mode {
            Mode::FilePicker => "PICKER",
            Mode::Viewer => "VIEWER",
            Mode::Search => "SEARCH",
        };
        let hints = match self.mode {
            Mode::FilePicker => "q:quit ↑↓:nav ↵:open",
            Mode::Viewer => "q:back /:search w:wrap",
            Mode::Search => "↵:confirm esc:cancel",
        };
        parts.push(to_owned_string(mode_str));
        let ghost base = strings_view(parts@);
        if *self.mode == Mode::Viewer {
            if self.table_wrap {
                parts.push(to_owned_string("[wrap]"));
            } else {
                parts.push(to_owned_string("[hscroll]"));
            }
        }
        match &self.search_info {
            Some(info) => {
                parts.push(info.clone());
            },
            None => {},
        }
        parts.push(to_owned_string(hints));
        assert(strings_view(parts@) =~= status_parts(self));
        join_strings(&parts, " │ ")
    }

    /// The status line: its text in the status style.
    pub fn line(&self) -> (l: Line)
        ensures
            l@ == seq![sv(join_with(status_parts(self), " │ "@), status_style())],
    {
        let st = Style::plain().bg(Color::DarkGray).fg(Color::White).add_bold();
        Line::from_span(Span::styled(self.text(), st))
    }
}

} // verus!

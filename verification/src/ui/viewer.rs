//! The document view: search and link highlighting over the rendered lines.
use vstd::prelude::*;
use crate::style::{Color, Line, Span, SpanView, Style, plain_style, sv, spans_view, lines_view, line_text, lemma_line_text_add, lemma_line_text_push};
use crate::search::SearchState;
use crate::text::{byte_len, byte_slice, slice_str, utf8_len, is_cut, cut_index, lemma_cut_unique, lemma_take_mono};

verus! {

broadcast use crate::style::lemma_spans_push_auto;

/// `x - y`, or 0 when `y > x`.
pub open spec fn sat_sub(x: int, y: int) -> int {
    if x >= y { x - y } else { 0 }
}

/// The larger of two integers.
pub open spec fn imax(x: int, y: int) -> int {
    if x >= y { x } else { y }
}

/// The smaller of two integers.
pub open spec fn imin(x: int, y: int) -> int {
    if x <= y { x } else { y }
}

/// The last line the view can scroll to: lines beyond one screen, kept to 16 bits.
pub open spec fn max_scroll_spec(total_lines: usize, viewport_height: u16) -> u16 {
    (sat_sub(total_lines as int, viewport_height as int) % 0x10000) as u16
}

/// How far the view can scroll: the lines that do not fit on the screen.
pub fn max_scroll(total_lines: usize, viewport_height: u16) -> (r: u16)
    ensures
        r == max_scroll_spec(total_lines, viewport_height),
{
    let d: usize = total_lines.saturating_sub(viewport_height as usize);
    assert(d as u16 == d % 0x10000) by (bit_vector);
    d as u16
}

/// The style of a search hit: black on yellow, bold for the current one.
pub open spec fn hit_style(current: bool) -> Style {
    Style { fg: Some(Color::Black), bg: Some(Color::Yellow), bold: current, ..plain_style() }
}

/// The style of a focused link: black on blue, bold.
pub open spec fn focus_style() -> Style {
    Style { fg: Some(Color::Black), bg: Some(Color::Blue), bold: true, ..plain_style() }
}

/// A span is part of a link when it is underlined or drawn in a link color.
pub open spec fn is_link_span(s: SpanView) -> bool {
    s.style.underlined || s.style.fg == Some(Color::Blue) || s.style.fg == Some(Color::DarkGray)
}

/// A span of the focused link line: link parts in the focus style, the rest unchanged.
pub open spec fn focus_span(s: SpanView) -> SpanView {
    if is_link_span(s) { sv(s.text, focus_style()) } else { s }
}

/// The pieces cut from one span (its text `text`, its style `st`, starting at
/// byte `start` of the line) by the hit ranges, taken in order: the pieces so far
/// and the byte of the span reached; `None` where a cut falls inside a character.
/// A range marks only what lies past the byte reached, so overlapping ranges
/// never repeat text.
pub open spec fn span_pieces(text: Seq<char>, st: Style, start: int, ranges: Seq<(usize, usize, bool)>) -> Option<(Seq<SpanView>, int)>
    decreases ranges.len(),
{
    if ranges.len() == 0 {
        Some((Seq::empty(), 0))
    } else {
        match span_pieces(text, st, start, ranges.drop_last()) {
            None => None,
            Some((out, pos)) => {
                let r = ranges.last();
                let len = byte_len(text) as int;
                let os = sat_sub(imax(r.0 as int, start), start);
                let oe = sat_sub(imin(r.1 as int, start + len), start);
                let end = imin(oe, len);
                let from = imax(os, pos);
                if os < oe && os < len && from < end {
                    let before = if pos < from {
                        match byte_slice(text, pos as nat, from as nat) {
                            Some(t) => Some(out.push(sv(t, st))),
                            None => None,
                        }
                    } else {
                        Some(out)
                    };
                    match before {
                        None => None,
                        Some(o) => match byte_slice(text, from as nat, end as nat) {
                            Some(t) => Some((o.push(sv(t, hit_style(r.2))), end)),
                            None => None,
                        },
                    }
                } else {
                    Some((out, pos))
                }
            },
        }
    }
}

/// The pieces of one span: those the ranges cut, then what follows the last cut.
pub open spec fn span_highlight(text: Seq<char>, st: Style, start: int, ranges: Seq<(usize, usize, bool)>) -> Option<Seq<SpanView>> {
    match span_pieces(text, st, start, ranges) {
        None => None,
        Some((out, pos)) => {
            let len = byte_len(text) as int;
            if pos < len {
                match byte_slice(text, pos as nat, len as nat) {
                    Some(t) => Some(out.push(sv(t, st))),
                    None => None,
                }
            } else {
                Some(out)
            }
        },
    }
}

/// The highlighted spans of a line's first spans, and the byte where the next
/// span starts; `None` where a cut falls inside a character or the byte count
/// passes the machine's word.
pub open spec fn line_highlight(spans: Seq<SpanView>, ranges: Seq<(usize, usize, bool)>) -> Option<(Seq<SpanView>, int)>
    decreases spans.len(),
{
    if spans.len() == 0 {
        Some((Seq::empty(), 0))
    } else {
        match line_highlight(spans.drop_last(), ranges) {
            None => None,
            Some((out, start)) => {
                let s = spans.last();
                let end = start + byte_len(s.text);
                if end > usize::MAX {
                    None
                } else {
                    match span_highlight(s.text, s.style, start, ranges) {
                        None => None,
                        Some(p) => Some((out + p, end)),
                    }
                }
            },
        }
    }
}

/// The spans of a line with the hit ranges `(start, end, current)` drawn as hits.
pub open spec fn highlighted(spans: Seq<SpanView>, ranges: Seq<(usize, usize, bool)>) -> Option<Seq<SpanView>> {
    match line_highlight(spans, ranges) {
        Some((out, _)) => Some(out),
        None => None,
    }
}

/// Once a cut fails, every longer list of ranges fails too.
proof fn lemma_pieces_none(text: Seq<char>, st: Style, start: int, ranges: Seq<(usize, usize, bool)>, j: int)
    requires
        0 <= j <= ranges.len(),
        span_pieces(text, st, start, ranges.take(j)) is None,
    ensures
        span_pieces(text, st, start, ranges) is None,
    decreases ranges.len() - j,
{
    if j < ranges.len() {
        assert(ranges.take(j + 1).drop_last() =~= ranges.take(j));
        lemma_pieces_none(text, st, start, ranges, j + 1);
    } else {
        assert(ranges.take(j) =~= ranges);
    }
}

/// Cuts one span by the ranges and pushes the pieces; false where a cut
/// falls inside a character.
fn push_span_pieces(s: &Span, start: usize, ranges: &Vec<(usize, usize, bool)>, out: &mut Vec<Span>) -> (ok: bool)
    ensures
        ok <==> span_highlight(s@.text, s@.style, start as int, ranges@) is Some,
        ok ==> spans_view(final(out)@) == spans_view(old(out)@) + span_highlight(s@.text, s@.style, start as int, ranges@)->0,
{
    let text = s.content.as_str();
    let len = utf8_len(text);
    let ghost base = spans_view(out@);
    let mut pos: usize = 0;
    let mut k: usize = 0;
    assert(ranges@.take(0) =~= Seq::<(usize, usize, bool)>::empty());
    while k < ranges.len()
        invariant
            k <= ranges.len(),
            len as nat == byte_len(s@.text),
            text@ == s@.text,
            span_pieces(s@.text, s@.style, start as int, ranges@.take(k as int)) matches Some(p)
                && p.1 == pos as int && spans_view(out@) == base + p.0,
            pos <= len,
        decreases ranges.len() - k,
    {
        proof {
            assert(ranges@.take(k + 1).drop_last() =~= ranges@.take(k as int));
        }
        let (ms, me, cur) = ranges[k];
        let lo: usize = if ms >= start { ms } else { start };
        let os: usize = lo - start;
        let span_end: u128 = start as u128 + len as u128;
        let hi: u128 = if (me as u128) <= span_end { me as u128 } else { span_end };
        let oe: usize = if hi >= start as u128 { (hi - start as u128) as usize } else { 0 };
        let end: usize = if oe <= len { oe } else { len };
        let from: usize = if os >= pos { os } else { pos };
        if os < oe && os < len && from < end {
            if pos < from {
                match slice_str(text, pos, from) {
                    Some(t) => {
                        out.push(Span::styled(t, s.style));
                    },
                    None => {
                        proof { lemma_pieces_none(s@.text, s@.style, start as int, ranges@, k + 1); }
                        return false;
                    },
                }
            }
            match slice_str(text, from, end) {
                Some(t) => {
                    let hs = Style::plain().bg(Color::Yellow).fg(Color::Black);
                    let hs = if cur { hs.add_bold() } else { hs };
                    out.push(Span::styled(t, hs));
                    assert(hs == hit_style(cur));
                },
                None => {
                    proof { lemma_pieces_none(s@.text, s@.style, start as int, ranges@, k + 1); }
                    return false;
                },
            }
            pos = end;
        }
        k = k + 1;
    }
    assert(ranges@.take(k as int) =~= ranges@);
    if pos < len {
        match slice_str(text, pos, len) {
            Some(t) => {
                out.push(Span::styled(t, s.style));
            },
            None => {
                return false;
            },
        }
    }
    true
}


/// Once a span fails, every longer line fails too.
proof fn lemma_line_none(spans: Seq<SpanView>, ranges: Seq<(usize, usize, bool)>, j: int)
    requires
        0 <= j <= spans.len(),
        line_highlight(spans.take(j), ranges) is None,
    ensures
        line_highlight(spans, ranges) is None,
    decreases spans.len() - j,
{
    if j < spans.len() {
        assert(spans.take(j + 1).drop_last() =~= spans.take(j));
        lemma_line_none(spans, ranges, j + 1);
    } else {
        assert(spans.take(j) =~= spans);
    }
}

/// The spans of `line` with the hit ranges `(start, end, current)` (bytes of the
/// line's text) drawn as hits; `None` where a range boundary falls inside a
/// character.
pub fn apply_search_highlights(line: &Line, ranges: &Vec<(usize, usize, bool)>) -> (r: Option<Vec<Span>>)
    ensures
        r is None <==> highlighted(line@, ranges@) is None,
        r matches Some(v) ==> highlighted(line@, ranges@) == Some(spans_view(v@)),
{
    let mut out: Vec<Span> = Vec::new();
    let mut offset: usize = 0;
    let mut i: usize = 0;
    assert(line@.take(0) =~= Seq::<SpanView>::empty());
    assert(spans_view(out@) =~= Seq::<SpanView>::empty());
    while i < line.spans.len()
        invariant
            i <= line.spans.len(),
            line@.len() == line.spans@.len(),
            line_highlight(line@.take(i as int), ranges@) matches Some(p)
                && p.1 == offset as int && spans_view(out@) == p.0,
        decreases line.spans.len() - i,
    {
        proof {
            assert(line@.take(i + 1).drop_last() =~= line@.take(i as int));
            assert(line@[i as int] == line.spans@[i as int]@);
        }
        let span = &line.spans[i];
        let len = utf8_len(span.content.as_str());
        if len > usize::MAX - offset {
            proof { lemma_line_none(line@, ranges@, i + 1); }
            return None;
        }
        if !push_span_pieces(span, offset, ranges, &mut out) {
            proof { lemma_line_none(line@, ranges@, i + 1); }
            return None;
        }
        offset = offset + len;
        i = i + 1;
    }
    assert(line@.take(i as int) =~= line@);
    Some(out)
}

/// The spans of the focused link's line: link parts in the focus style.
pub fn apply_link_focus(line: &Line) -> (r: Vec<Span>)
    ensures
        spans_view(r@) == line@.map_values(|s: SpanView| focus_span(s)),
{
    let mut out: Vec<Span> = Vec::new();
    let mut i: usize = 0;
    while i < line.spans.len()
        invariant
            i <= line.spans.len(),
            spans_view(out@) =~= line@.take(i as int).map_values(|s: SpanView| focus_span(s)),
        decreases line.spans.len() - i,
    {
        let span = &line.spans[i];
        let link = span.style.underlined || span.style.fg == Some(Color::Blue) || span.style.fg == Some(Color::DarkGray);
        if link {
            let st = Style::plain().fg(Color::Black).bg(Color::Blue).add_bold();
            out.push(Span::styled(span.content.clone(), st));
        } else {
            out.push(Span::styled(span.content.clone(), span.style));
        }
        proof {
            assert(line@.take(i + 1) =~= line@.take(i as int).push(line.spans@[i as int]@));
        }
        i = i + 1;
    }
    assert(line@.take(i as int) =~= line@);
    out
}


/// The hit ranges of line `li`: the matches on it, in order, with the
/// current match (index `current`) marked.
pub open spec fn ranges_for(matches: Seq<crate::search::SearchMatch>, li: int, current: int) -> Seq<(usize, usize, bool)>
    decreases matches.len(),
{
    if matches.len() == 0 {
        Seq::empty()
    } else {
        let rest = ranges_for(matches.drop_last(), li, current);
        let m = matches.last();
        if m.line_index == li {
            rest.push((m.byte_start, m.byte_end, matches.len() - 1 == current))
        } else {
            rest
        }
    }
}

/// The hit ranges of line `li` when the search shows, else none.
pub open spec fn shown_ranges(search: &SearchState, li: int) -> Seq<(usize, usize, bool)> {
    if search.active && search.query@.len() > 0 {
        ranges_for(search.matches@, li, search.current_match as int)
    } else {
        Seq::empty()
    }
}

/// Line `li` holds the focused link.
pub open spec fn is_focus_line(focused_link: Option<usize>, link_lines: Seq<usize>, li: int) -> bool {
    focused_link matches Some(k) && k < link_lines.len() && link_lines[k as int] == li
}

/// How line `li` is shown: with its search hits if it has any, else with the
/// focused link marked if it holds it, else as it is.
pub open spec fn shown_line(line: Seq<SpanView>, li: int, search: &SearchState, focused_link: Option<usize>, link_lines: Seq<usize>) -> Option<Seq<SpanView>> {
    let ranges = shown_ranges(search, li);
    if ranges.len() > 0 {
        highlighted(line, ranges)
    } else if is_focus_line(focused_link, link_lines, li) {
        Some(line.map_values(|s: SpanView| focus_span(s)))
    } else {
        Some(line)
    }
}

/// All lines as shown; `None` where a hit boundary falls inside a character.
pub open spec fn shown_lines(lines: Seq<Seq<SpanView>>, search: &SearchState, focused_link: Option<usize>, link_lines: Seq<usize>) -> Option<Seq<Seq<SpanView>>>
    decreases lines.len(),
{
    if lines.len() == 0 {
        Some(Seq::empty())
    } else {
        match shown_lines(lines.drop_last(), search, focused_link, link_lines) {
            None => None,
            Some(prev) => match shown_line(lines.last(), lines.len() - 1, search, focused_link, link_lines) {
                None => None,
                Some(l) => Some(prev.push(l)),
            },
        }
    }
}

/// The hit ranges of line `li`.
fn line_ranges(search: &SearchState, li: usize) -> (r: Vec<(usize, usize, bool)>)
    ensures
        r@ == shown_ranges(search, li as int),
{
    let mut r: Vec<(usize, usize, bool)> = Vec::new();
    let qlen = utf8_len(search.query.as_str());
    proof {
        crate::text::lemma_take_mono(search.query@, 0, search.query@.len() as int);
        assert(search.query@.take(0) =~= Seq::<char>::empty());
        assert(search.query@.take(search.query@.len() as int) =~= search.query@);
        assert(byte_len(Seq::<char>::empty()) == 0) by {
            assert(vstd::utf8::encode_utf8(Seq::<char>::empty()) =~= Seq::<u8>::empty());
        }
    }
    if !(search.active && qlen > 0) {
        return r;
    }
    let mut i: usize = 0;
    assert(search.matches@.take(0) =~= Seq::<crate::search::SearchMatch>::empty());
    while i < search.matches.len()
        invariant
            i <= search.matches.len(),
            search.active && search.query@.len() > 0,
            r@ == ranges_for(search.matches@.take(i as int), li as int, search.current_match as int),
        decreases search.matches.len() - i,
    {
        proof {
            assert(search.matches@.take(i + 1).drop_last() =~= search.matches@.take(i as int));
        }
        let m = search.matches[i];
        if m.line_index == li {
            r.push((m.byte_start, m.byte_end, i == search.current_match));
        }
        i = i + 1;
    }
    assert(search.matches@.take(i as int) =~= search.matches@);
    r
}

/// Once a line fails, every longer document fails too.
proof fn lemma_shown_none(lines: Seq<Seq<SpanView>>, search: &SearchState, focused_link: Option<usize>, link_lines: Seq<usize>, j: int)
    requires
        0 <= j <= lines.len(),
        shown_lines(lines.take(j), search, focused_link, link_lines) is None,
    ensures
        shown_lines(lines, search, focused_link, link_lines) is None,
    decreases lines.len() - j,
{
    if j < lines.len() {
        assert(lines.take(j + 1).drop_last() =~= lines.take(j));
        lemma_shown_none(lines, search, focused_link, link_lines, j + 1);
    } else {
        assert(lines.take(j) =~= lines);
    }
}

/// The document view: the lines, where it is scrolled to, the search, and the
/// focused link with the line of each link.
pub struct ViewerWidget<'a> {
    pub lines: &'a [Line],
    pub scroll_offset: u16,
    pub search: &'a SearchState,
    pub focused_link: Option<usize>,
    pub link_line_indices: &'a [usize],
}

impl<'a> ViewerWidget<'a> {
    /// A view of `lines` scrolled to `scroll_offset`.
    pub fn new(
        lines: &'a [Line],
        scroll_offset: u16,
        search: &'a SearchState,
        focused_link: Option<usize>,
        link_line_indices: &'a [usize],
    ) -> (w: Self)
        ensures
            w.lines@ == lines@,
            w.scroll_offset == scroll_offset,
            w.search == search,
            w.focused_link == focused_link,
            w.link_line_indices@ == link_line_indices@,
    {
        ViewerWidget { lines, scroll_offset, search, focused_link, link_line_indices }
    }

    /// The lines as drawn: search hits marked on the lines that have them, the
    /// focused link marked on its line; `None` where a hit boundary falls
    /// inside a character.
    pub fn display_lines(&self) -> (r: Option<Vec<Line>>)
        ensures
            r is None <==> shown_lines(lines_view(self.lines@), self.search, self.focused_link, self.link_line_indices@) is None,
            r matches Some(v) ==> shown_lines(lines_view(self.lines@), self.search, self.focused_link, self.link_line_indices@) == Some(lines_view(v@)),
    {
        let ghost all = lines_view(self.lines@);
        let mut out: Vec<Line> = Vec::new();
        let mut i: usize = 0;
        assert(all.take(0) =~= Seq::<Seq<SpanView>>::empty());
        assert(lines_view(out@) =~= Seq::<Seq<SpanView>>::empty());
        while i < self.lines.len()
            invariant
                i <= self.lines.len(),
                all == lines_view(self.lines@),
                all.len() == self.lines@.len(),
                shown_lines(all.take(i as int), self.search, self.focused_link, self.link_line_indices@) == Some(lines_view(out@)),
            decreases self.lines.len() - i,
        {
            proof {
                assert(all.take(i + 1).drop_last() =~= all.take(i as int));
                assert(all[i as int] == self.lines@[i as int]@);
            }
            let line = &self.lines[i];
            let ranges = line_ranges(self.search, i);
            let focused = match self.focused_link {
                Some(k) => k < self.link_line_indices.len() && self.link_line_indices[k] == i,
                None => false,
            };
            if ranges.len() > 0 {
                match apply_search_highlights(line, &ranges) {
                    Some(spans) => {
                        out.push(Line::from_spans(spans));
                    },
                    None => {
                        proof { lemma_shown_none(all, self.search, self.focused_link, self.link_line_indices@, i + 1); }
                        return None;
                    },
                }
            } else if focused {
                out.push(Line::from_spans(apply_link_focus(line)));
            } else {
                out.push(line.copy());
            }
            proof { crate::style::lemma_lines_push(out@.drop_last(), out@.last()); assert(out@.drop_last().push(out@.last()) =~= out@); }
            i = i + 1;
        }
        assert(all.take(i as int) =~= all);
        Some(out)
    }
}


// ---------------------------------------------------------------- laws

/// The character index that a byte position found as a cut stands for.
proof fn lemma_cut_index(s: Seq<char>, a: nat)
    ensures
        cut_index(s, a) matches Some(i) ==> is_cut(s, a, i),
        (exists|i: int| is_cut(s, a, i)) ==> cut_index(s, a) is Some,
{
}

/// Cuts at later byte positions stand for later characters.
proof fn lemma_cut_order(s: Seq<char>, a: nat, b: nat, i: int, j: int)
    requires
        is_cut(s, a, i),
        is_cut(s, b, j),
        a < b,
    ensures
        i < j,
{
    if j <= i {
        lemma_take_mono(s, j, i);
    }
}

/// The pieces cut so far hold the text up to the byte reached.
proof fn lemma_pieces_text(text: Seq<char>, st: Style, start: int, ranges: Seq<(usize, usize, bool)>)
    ensures
        span_pieces(text, st, start, ranges) matches Some((out, pos)) ==> ({
            &&& 0 <= pos <= byte_len(text)
            &&& cut_index(text, pos as nat) matches Some(i)
            &&& 0 <= i <= text.len()
            &&& line_text(out) == text.subrange(0, i)
        }),
    decreases ranges.len(),
{
    if ranges.len() == 0 {
        assert(text.take(0) =~= Seq::<char>::empty());
        assert(vstd::utf8::encode_utf8(Seq::<char>::empty()) =~= Seq::<u8>::empty());
        assert(is_cut(text, 0, 0));
        lemma_cut_index(text, 0);
        lemma_cut_unique(text, 0, cut_index(text, 0)->0, 0);
        assert(line_text(Seq::<SpanView>::empty()) =~= text.subrange(0, 0));
    } else {
        lemma_pieces_text(text, st, start, ranges.drop_last());
        if let Some((out, pos)) = span_pieces(text, st, start, ranges.drop_last()) {
            let r = ranges.last();
            let len = byte_len(text) as int;
            let os = sat_sub(imax(r.0 as int, start), start);
            let oe = sat_sub(imin(r.1 as int, start + len), start);
            let end = imin(oe, len);
            let from = imax(os, pos);
            let i = cut_index(text, pos as nat)->0;
            lemma_cut_index(text, pos as nat);
            if os < oe && os < len && from < end {
                lemma_cut_index(text, from as nat);
                lemma_cut_index(text, end as nat);
                let o = if pos < from { out.push(sv(text.subrange(i, cut_index(text, from as nat)->0), st)) } else { out };
                if let Some(_) = span_pieces(text, st, start, ranges) {
                    let j = cut_index(text, from as nat)->0;
                    let k = cut_index(text, end as nat)->0;
                    if pos < from {
                        lemma_cut_order(text, pos as nat, from as nat, i, j);
                        lemma_line_text_push(out, sv(text.subrange(i, j), st));
                        assert(line_text(out.push(sv(text.subrange(i, j), st))) =~= text.subrange(0, j));
                    } else {
                        lemma_cut_unique(text, pos as nat, i, j);
                    }
                    lemma_cut_order(text, from as nat, end as nat, j, k);
                    lemma_line_text_push(o, sv(text.subrange(j, k), hit_style(r.2)));
                    assert(line_text(o.push(sv(text.subrange(j, k), hit_style(r.2)))) =~= text.subrange(0, k));
                }
            }
        }
    }
}

/// The pieces of a span hold exactly its text.
proof fn lemma_span_text_kept(text: Seq<char>, st: Style, start: int, ranges: Seq<(usize, usize, bool)>)
    ensures
        span_highlight(text, st, start, ranges) matches Some(out) ==> line_text(out) == text,
{
    lemma_pieces_text(text, st, start, ranges);
    if let Some((out, pos)) = span_pieces(text, st, start, ranges) {
        let len = byte_len(text);
        let i = cut_index(text, pos as nat)->0;
        lemma_cut_index(text, pos as nat);
        assert(text.take(text.len() as int) =~= text);
        assert(is_cut(text, len, text.len() as int));
        if pos < len {
            lemma_cut_index(text, len);
            let n = cut_index(text, len)->0;
            lemma_cut_unique(text, len, n, text.len() as int);
            lemma_cut_order(text, pos as nat, len, i, n);
            lemma_line_text_push(out, sv(text.subrange(i, n), st));
            assert(line_text(out.push(sv(text.subrange(i, n), st))) =~= text);
        } else {
            lemma_cut_unique(text, len, i, text.len() as int);
            assert(text.subrange(0, i) =~= text);
        }
    }
}

/// Drawing search hits keeps a line's text: the pieces, joined, are the
/// line's text, with nothing repeated or dropped, however the ranges overlap.
pub proof fn lemma_highlight_keeps_text(spans: Seq<SpanView>, ranges: Seq<(usize, usize, bool)>)
    ensures
        highlighted(spans, ranges) matches Some(out) ==> line_text(out) == line_text(spans),
    decreases spans.len(),
{
    if spans.len() > 0 {
        lemma_highlight_keeps_text(spans.drop_last(), ranges);
        if let Some((out0, start)) = line_highlight(spans.drop_last(), ranges) {
            let sp = spans.last();
            lemma_span_text_kept(sp.text, sp.style, start, ranges);
            if let Some(p) = span_highlight(sp.text, sp.style, start, ranges) {
                lemma_line_text_add(out0, p);
            }
        }
    }
}

} // verus!

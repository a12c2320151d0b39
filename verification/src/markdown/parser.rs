//! Rendering Markdown into styled lines, proved against the model of `model.rs`.
use vstd::prelude::*;
use crate::style::{Color, Style, Span, SpanView, Line, plain_style, sv, spans_view, lines_view, append_lines, lemma_spans_push_auto, lemma_lines_push_auto, lemma_lines_add_auto};
use crate::text::{strings_view, word_count, lines_of, decimal_string, repeat_str, push_str, to_owned_string, utf8_len, count_words, split_lines};
use crate::theme::Theme;
use crate::markdown::types::{LinkInfo, LinkView, CodeBlockRange, HighlightRequest, RequestView, StyleStack};
use crate::markdown::table::{TableState, TableModel, CellAlignment, render_table, cells_view, rows_view};
use crate::markdown::events::{MdEvent, MdTag, MdTagEnd, markdown_events, parsed_events, VIEWER_OPTIONS};
use crate::markdown::model::{RenderModel, ResultView, initial_model, bg_style, bq_prefix, find_first, labels_with, footnote_number, item_bullet, start_step, spans_len, heading_body, heading_prefix, heading_lines, max_len, code_max_len, code_width, code_rows, code_line, frame_edge, code_block_lines, flush, end_step, count_in, text_step, code_step, math_lines, step, run, render_spec};

verus! {

broadcast use lemma_spans_push_auto, lemma_lines_push_auto, lemma_lines_add_auto;

/// The rendering state while reading events.
pub struct Renderer {
    pub lines: Vec<Line>,
    pub links: Vec<LinkInfo>,
    pub code_blocks: Vec<CodeBlockRange>,
    pub requests: Vec<HighlightRequest>,
    pub word_count: usize,
    pub style: StyleStack,
    pub spans: Vec<Span>,
    pub heading: Option<u8>,
    pub list_depth: usize,
    pub list_indices: Vec<Option<u64>>,
    pub bq_depth: usize,
    pub in_code: bool,
    pub code_lang: String,
    pub code_content: String,
    pub code_id: usize,
    pub link_url: Option<String>,
    pub table: Option<TableState>,
    pub footnotes: Vec<String>,
    pub in_meta: bool,
}

/// The links as values.
pub open spec fn links_view(v: Seq<LinkInfo>) -> Seq<LinkView> {
    v.map_values(|l: LinkInfo| l@)
}

/// The highlight requests as values.
pub open spec fn requests_view(v: Seq<HighlightRequest>) -> Seq<RequestView> {
    v.map_values(|r: HighlightRequest| r@)
}

/// An optional string's text.
pub open spec fn opt_string_view(o: Option<String>) -> Option<Seq<char>> {
    match o {
        Some(s) => Some(s@),
        None => None,
    }
}

/// An optional table as a value.
pub open spec fn opt_table_view(o: Option<TableState>) -> Option<TableModel> {
    match o {
        Some(t) => Some(t@),
        None => None,
    }
}

impl View for Renderer {
    type V = RenderModel;

    open spec fn view(&self) -> RenderModel {
        RenderModel {
            lines: lines_view(self.lines@),
            links: links_view(self.links@),
            code_blocks: self.code_blocks@,
            requests: requests_view(self.requests@),
            word_count: self.word_count as nat,
            style: self.style,
            spans: spans_view(self.spans@),
            heading: self.heading,
            list_depth: self.list_depth as nat,
            list_indices: self.list_indices@,
            bq_depth: self.bq_depth as nat,
            in_code: self.in_code,
            code_lang: self.code_lang@,
            code_content: self.code_content@,
            code_id: self.code_id as nat,
            link_url: opt_string_view(self.link_url),
            table: opt_table_view(self.table),
            footnotes: strings_view(self.footnotes@),
            in_meta: self.in_meta,
        }
    }
}

proof fn lemma_find_first_prefix(s: Seq<Seq<char>>, x: Seq<char>, k: int)
    requires
        0 <= k <= s.len(),
        find_first(s.take(k), x) is Some,
    ensures
        find_first(s, x) == find_first(s.take(k), x),
    decreases s.len() - k,
{
    if k < s.len() {
        assert(s.take(k + 1).drop_last() =~= s.take(k));
        lemma_find_first_prefix(s, x, k + 1);
    } else {
        assert(s.take(k) =~= s);
    }
}

/// A copy of the column alignments.
fn copy_alignments(v: &Vec<CellAlignment>) -> (r: Vec<CellAlignment>)
    ensures
        r@ == v@,
{
    let mut r: Vec<CellAlignment> = Vec::new();
    let mut i: usize = 0;
    while i < v.len()
        invariant
            i <= v@.len(),
            r@ == v@.take(i as int),
        decreases v@.len() - i,
    {
        r.push(v[i]);
        i = i + 1;
        assert(r@ =~= v@.take(i as int));
    }
    assert(v@.take(i as int) =~= v@);
    r
}

/// The block quote marks for `depth` open quotes.
fn bq_prefix_spans(depth: usize, theme: &Theme) -> (v: Vec<Span>)
    ensures
        spans_view(v@) == bq_prefix(depth as nat, *theme),
{
    let mut v: Vec<Span> = Vec::new();
    let mut i: usize = 0;
    while i < depth
        invariant
            i <= depth,
            spans_view(v@) == bq_prefix(i as nat, *theme),
        decreases depth - i,
    {
        proof { reveal_strlit("│ "); assert("│ "@ =~= seq!['│', ' ']); }
        v.push(Span::styled(to_owned_string("│ "), Style::plain().fg(theme.palette.blockquote_border)));
        i = i + 1;
        assert(spans_view(v@) =~= bq_prefix(i as nat, *theme));
    }
    v
}

/// A string made of `a` then `b`.
fn concat2(a: &str, b: &str) -> (s: String)
    ensures
        s@ == a@ + b@,
{
    let mut s = to_owned_string(a);
    push_str(&mut s, b);
    s
}

/// A string made of `a`, `b`, then `c`.
fn concat3(a: &str, b: &str, c: &str) -> (s: String)
    ensures
        s@ == a@ + b@ + c@,
{
    let mut s = to_owned_string(a);
    push_str(&mut s, b);
    push_str(&mut s, c);
    s
}

impl Renderer {
    /// Counters that must stay below their limit for one more event.
    pub open spec fn room(&self) -> bool {
        &&& self.list_depth < usize::MAX
        &&& self.bq_depth < usize::MAX
        &&& self.code_id < usize::MAX
        &&& self.footnotes@.len() < usize::MAX
    }

    /// The state before any event.
    pub fn new() -> (r: Renderer)
        ensures
            r@ == initial_model(),
    {
        let r = Renderer {
            lines: Vec::new(),
            links: Vec::new(),
            code_blocks: Vec::new(),
            requests: Vec::new(),
            word_count: 0,
            style: StyleStack::new(),
            spans: Vec::new(),
            heading: None,
            list_depth: 0,
            list_indices: Vec::new(),
            bq_depth: 0,
            in_code: false,
            code_lang: String::new(),
            code_content: String::new(),
            code_id: 0,
            link_url: None,
            table: None,
            footnotes: Vec::new(),
            in_meta: false,
        };
        assert(r@ =~= initial_model());
        r
    }

    /// The number of footnote `label`, recording the label when it is new.
    fn footnote_index(&mut self, label: &String) -> (n: usize)
        requires
            old(self).footnotes@.len() < usize::MAX,
        ensures
            n as nat == footnote_number(strings_view(old(self).footnotes@), label@),
            strings_view(final(self).footnotes@) == labels_with(strings_view(old(self).footnotes@), label@),
            *final(self) == (Renderer { footnotes: final(self).footnotes, ..*old(self) }),
    {
        let ghost fs = strings_view(self.footnotes@);
        let n = self.footnotes.len();
        let mut i: usize = 0;
        while i < n
            invariant
                n == self.footnotes@.len(),
                fs == strings_view(self.footnotes@),
                i <= n,
                find_first(fs.take(i as int), label@) is None,
            decreases n - i,
        {
            assert(fs.take(i + 1).drop_last() =~= fs.take(i as int));
            if self.footnotes[i] == *label {
                assert(find_first(fs.take(i + 1), label@) == Some(i as nat));
                proof { lemma_find_first_prefix(fs, label@, i + 1); }
                return i + 1;
            }
            i = i + 1;
        }
        assert(fs.take(n as int) =~= fs);
        self.footnotes.push(label.clone());
        assert(strings_view(self.footnotes@) =~= fs.push(label@));
        n + 1
    }

    /// Applies the start of an element.
    fn start(&mut self, tag: &MdTag, theme: &Theme) -> (ok: bool)
        requires
            old(self).room(),
        ensures
            ok == (start_step(old(self)@, *tag, *theme) is Some),
            ok ==> final(self)@ == start_step(old(self)@, *tag, *theme)->0,
    {
        let ghost m = self@;
        match tag {
            MdTag::Heading(lvl) => {
                self.heading = Some(*lvl);
                self.spans = Vec::new();
                let mut st = StyleStack::new();
                st.push_bold();
                st.fg = Some(theme.heading_fg(*lvl));
                self.style = st;
                assert(self@ =~= start_step(m, *tag, *theme)->0);
            },
            MdTag::Emphasis => {
                if self.style.italic == u32::MAX {
                    return false;
                }
                self.style.push_italic();
                assert(self@ =~= start_step(m, *tag, *theme)->0);
            },
            MdTag::Strong => {
                if self.style.bold == u32::MAX {
                    return false;
                }
                self.style.push_bold();
                assert(self@ =~= start_step(m, *tag, *theme)->0);
            },
            MdTag::Strikethrough => {
                if self.style.strikethrough == u32::MAX {
                    return false;
                }
                self.style.push_strikethrough();
                assert(self@ =~= start_step(m, *tag, *theme)->0);
            },
            MdTag::List(start) => {
                self.list_depth = self.list_depth + 1;
                self.list_indices.push(*start);
                assert(self@ =~= start_step(m, *tag, *theme)->0);
            },
            MdTag::Item => {
                let mut spans = bq_prefix_spans(self.bq_depth, theme);
                proof { reveal_strlit("  "); assert("  "@ =~= seq![' ', ' ']); }
                let indent = repeat_str("  ", self.list_depth.saturating_sub(1));
                let n = self.list_indices.len();
                let mut bullet = String::new();
                let mut numbered = false;
                if n > 0 {
                    match self.list_indices[n - 1] {
                        Some(k) => {
                            if k == u64::MAX {
                                return false;
                            }
                            proof { reveal_strlit(". "); assert(". "@ =~= seq!['.', ' ']); }
                            bullet = concat2(decimal_string(k).as_str(), ". ");
                            self.list_indices.set(n - 1, Some(k + 1));
                            numbered = true;
                        },
                        None => {},
                    }
                }
                if !numbered {
                    proof { reveal_strlit("• "); assert("• "@ =~= seq!['•', ' ']); }
                    bullet = to_owned_string("• ");
                }
                assert(bullet@ == item_bullet(m.list_indices));
                let text = concat2(indent.as_str(), bullet.as_str());
                spans.push(Span::raw(text));
                self.flush_line();
                self.spans = spans;
                assert(self@ =~= start_step(m, *tag, *theme)->0);
            },
            MdTag::BlockQuote => {
                self.bq_depth = self.bq_depth + 1;
                assert(self@ =~= start_step(m, *tag, *theme)->0);
            },
            MdTag::CodeBlock(lang) => {
                self.in_code = true;
                self.code_content = String::new();
                self.code_lang = lang.clone();
                assert(self@ =~= start_step(m, *tag, *theme)->0);
            },
            MdTag::Link(url) => {
                self.link_url = Some(url.clone());
                self.style.fg = Some(theme.palette.link_fg);
                assert(self@ =~= start_step(m, *tag, *theme)->0);
            },
            MdTag::Image(url) => {
                self.link_url = Some(url.clone());
                assert(self@ =~= start_step(m, *tag, *theme)->0);
            },
            MdTag::Paragraph => {
                if self.bq_depth > 0 {
                    self.spans = bq_prefix_spans(self.bq_depth, theme);
                } else {
                    self.spans = Vec::new();
                }
                assert(self@ =~= start_step(m, *tag, *theme)->0);
            },
            MdTag::Table(aligns) => {
                self.table = Some(TableState {
                    headers: Vec::new(),
                    rows: Vec::new(),
                    alignments: copy_alignments(aligns),
                    current_row: Vec::new(),
                    current_cell: Vec::new(),
                    in_header: false,
                });
                assert(opt_table_view(self.table)->0 =~= start_step(m, *tag, *theme)->0.table->0);
                assert(self@ =~= start_step(m, *tag, *theme)->0);
            },
            MdTag::TableHead => {
                match self.table.take() {
                    Some(mut ts) => {
                        ts.in_header = true;
                        ts.current_row = Vec::new();
                        self.table = Some(ts);
                    },
                    None => {},
                }
                assert(self@ =~= start_step(m, *tag, *theme)->0);
            },
            MdTag::TableRow => {
                match self.table.take() {
                    Some(mut ts) => {
                        let ghost t0 = ts@;
                        ts.current_row = Vec::new();
                        assert(ts@ =~= TableModel { current_row: Seq::empty(), ..t0 });
                        self.table = Some(ts);
                    },
                    None => {},
                }
                assert(self@ =~= start_step(m, *tag, *theme)->0);
            },
            MdTag::TableCell => {
                match self.table.take() {
                    Some(mut ts) => {
                        ts.current_cell = Vec::new();
                        self.table = Some(ts);
                    },
                    None => {},
                }
                assert(self@ =~= start_step(m, *tag, *theme)->0);
            },
            MdTag::FootnoteDefinition(label) => {
                let idx = self.footnote_index(label);
                proof {
                    reveal_strlit("["); assert("["@ =~= seq!['[']);
                    reveal_strlit("]: "); assert("]: "@ =~= seq![']', ':', ' ']);
                }
                let text = concat3("[", decimal_string(idx as u64).as_str(), "]: ");
                let mut spans = Vec::new();
                spans.push(Span::styled(text, Style::plain().fg(Color::DarkGray).add_bold()));
                self.spans = spans;
                assert(self@ =~= start_step(m, *tag, *theme)->0);
            },
            MdTag::MetadataBlock => {
                self.in_meta = true;
                assert(self@ =~= start_step(m, *tag, *theme)->0);
            },
            MdTag::Other => {},
        }
        assert(self@ =~= start_step(m, *tag, *theme)->0);
        true
    }
}


proof fn lemma_spans_len_prefix(s: Seq<SpanView>, k: int)
    requires
        0 <= k <= s.len(),
    ensures
        spans_len(s.take(k)) <= spans_len(s),
    decreases s.len() - k,
{
    if k < s.len() {
        assert(s.take(k + 1).drop_last() =~= s.take(k));
        lemma_spans_len_prefix(s, k + 1);
    } else {
        assert(s.take(k) =~= s);
    }
}

/// One framed line of a code block.
fn code_line_exec(l: &String, inner: usize, theme: &Theme) -> (line: Line)
    ensures
        line@ == code_line(l@, inner as nat, *theme),
{
    proof {
        reveal_strlit("│ "); assert("│ "@ =~= seq!['│', ' ']);
        reveal_strlit(" │"); assert(" │"@ =~= seq![' ', '│']);
        reveal_strlit(" "); assert(" "@ =~= seq![' ']);
    }
    let frame = Style::plain().fg(theme.palette.blockquote_border).bg(theme.palette.code_block_bg);
    let bg = Style::plain().bg(theme.palette.code_block_bg);
    let len = utf8_len(l.as_str());
    let pad = if len < inner { repeat_str(" ", inner - len) } else { String::new() };
    let mut spans: Vec<Span> = Vec::new();
    spans.push(Span::styled(to_owned_string("│ "), frame));
    spans.push(Span::styled(l.clone(), bg));
    spans.push(Span::styled(pad, bg));
    spans.push(Span::styled(to_owned_string(" │"), frame));
    let line = Line::from_spans(spans);
    assert(line@ =~= code_line(l@, inner as nat, *theme));
    line
}

/// The top or bottom of a code block's frame.
fn frame_edge_exec(left: &str, bw: usize, right: &str, theme: &Theme) -> (line: Line)
    ensures
        left@.len() == 1 && right@.len() == 1 ==> line@ == frame_edge(left@[0], bw as nat, right@[0], *theme),
{
    proof { reveal_strlit("─"); assert("─"@ =~= seq!['─']); }
    let bars = repeat_str("─", bw);
    let text = concat3(left, bars.as_str(), right);
    let frame = Style::plain().fg(theme.palette.blockquote_border).bg(theme.palette.code_block_bg);
    let line = Line::from_span(Span::styled(text, frame));
    proof {
        if left@.len() == 1 && right@.len() == 1 {
            assert(left@ =~= seq![left@[0]]);
            assert(right@ =~= seq![right@[0]]);
        }
    }
    line
}

/// The framed lines of a code block.
pub fn code_block_lines_exec(code: &str, bw: usize, theme: &Theme) -> (v: Vec<Line>)
    ensures
        lines_view(v@) == code_block_lines(code@, bw as nat, *theme),
{
    let rows: Vec<String> = if code.is_empty() {
        let mut r = Vec::new();
        r.push(String::new());
        r
    } else {
        split_lines(code)
    };
    let ghost rv = code_rows(code@);
    assert(rows@.len() == rv.len());
    assert(forall|k: int| 0 <= k < rows@.len() ==> #[trigger] rows@[k]@ == rv[k]);
    let inner = bw.saturating_sub(2);
    let mut v: Vec<Line> = Vec::new();
    proof { reveal_strlit("┌"); reveal_strlit("┐"); reveal_strlit("└"); reveal_strlit("┘"); }
    v.push(frame_edge_exec("┌", bw, "┐", theme));
    let mut i: usize = 0;
    while i < rows.len()
        invariant
            rows@.len() == rv.len(),
            forall|k: int| 0 <= k < rows@.len() ==> #[trigger] rows@[k]@ == rv[k],
            inner as nat == (if bw >= 2 { (bw - 2) as nat } else { 0 }),
            i <= rows@.len(),
            lines_view(v@) == seq![frame_edge('┌', bw as nat, '┐', *theme)]
                + Seq::new(i as nat, |k: int| code_line(rv[k], inner as nat, *theme)),
        decreases rows@.len() - i,
    {
        let line = code_line_exec(&rows[i], inner, theme);
        v.push(line);
        i = i + 1;
        assert(lines_view(v@) =~= seq![frame_edge('┌', bw as nat, '┐', *theme)]
            + Seq::new(i as nat, |k: int| code_line(rv[k], inner as nat, *theme)));
    }
    v.push(frame_edge_exec("└", bw, "┘", theme));
    assert(lines_view(v@) =~= code_block_lines(code@, bw as nat, *theme));
    v
}

impl Renderer {
    /// Ends the line being built, if it has spans.
    fn flush_line(&mut self)
        ensures
            final(self)@ == flush(old(self)@),
    {
        if self.spans.len() > 0 {
            let mut sp: Vec<Span> = Vec::new();
            std::mem::swap(&mut sp, &mut self.spans);
            self.lines.push(Line::from_spans(sp));
        }
        assert(self@ =~= flush(old(self)@));
    }

    /// Ends a heading.
    fn end_heading(&mut self, theme: &Theme, width: u16) -> (ok: bool)
        ensures
            ok == (end_step(old(self)@, MdTagEnd::Heading, *theme, width) is Some),
            ok ==> final(self)@ == end_step(old(self)@, MdTagEnd::Heading, *theme, width)->0,
    {
        let ghost m = self@;
        match self.heading {
            None => {
                self.style = StyleStack::new();
                assert(self@ =~= end_step(m, MdTagEnd::Heading, *theme, width)->0);
                true
            },
            Some(lvl) => {
                let fg = theme.heading_fg(lvl);
                let hs = Style::plain().fg(fg).add_bold();
                proof {
                    reveal_strlit("#"); assert("#"@ =~= seq!['#']);
                    reveal_strlit(" "); assert(" "@ =~= seq![' ']);
                }
                let mut prefix = repeat_str("#", lvl as usize);
                push_str(&mut prefix, " ");
                assert(prefix@ == heading_prefix(lvl));
                let prefix_len = utf8_len(prefix.as_str());
                let mut line_spans: Vec<Span> = Vec::new();
                line_spans.push(Span::styled(prefix, hs));
                let mut content_len: usize = 0;
                let n = self.spans.len();
                let mut i: usize = 0;
                while i < n
                    invariant
                        m == old(self)@,
                        m.heading == Some(lvl),
                        m.spans == spans_view(self.spans@),
                        n == self.spans@.len(),
                        i <= n,
                        hs == (Style { fg: Some(fg), bold: true, ..plain_style() }),
                        spans_view(line_spans@) == seq![sv(heading_prefix(lvl), hs)]
                            + heading_body(m.spans.take(i as int), fg),
                        content_len as nat == spans_len(m.spans.take(i as int)),
                    decreases n - i,
                {
                    let sp = &self.spans[i];
                    assert(m.spans[i as int] == sp@);
                    assert(m.spans.take(i + 1).drop_last() =~= m.spans.take(i as int));
                    let l = utf8_len(sp.content.as_str());
                    match content_len.checked_add(l) {
                        Some(x) => { content_len = x; },
                        None => {
                            proof {
                                assert(m.spans.take(i + 1).last() == m.spans[i as int]);
                                assert(spans_len(m.spans.take(i + 1)) == content_len + l);
                                lemma_spans_len_prefix(m.spans, i + 1);
                                assert(heading_lines(m.spans, lvl, *theme) is None);
                            }
                            return false;
                        },
                    }
                    line_spans.push(Span::styled(sp.content.clone(), sp.style.fg(fg).add_bold()));
                    i = i + 1;
                    assert(heading_body(m.spans.take(i as int), fg)
                        =~= heading_body(m.spans.take(i - 1), fg).push(
                            sv(m.spans[i - 1].text, Style { fg: Some(fg), bold: true, ..m.spans[i - 1].style })));
                    assert(spans_view(line_spans@) =~= seq![sv(heading_prefix(lvl), hs)]
                        + heading_body(m.spans.take(i as int), fg));
                }
                assert(m.spans.take(n as int) =~= m.spans);
                let line = Line::from_spans(line_spans);
                self.lines.push(line);
                match Theme::heading_underline_char(lvl) {
                    Some(ch) => {
                        let total = match prefix_len.checked_add(content_len) {
                            Some(t) => t,
                            None => { return false; },
                        };
                        let count = if utf8_len(ch) > 1 { total / 2 } else { total };
                        let ul = repeat_str(ch, count);
                        self.lines.push(Line::from_span(Span::styled(ul,
                            Style::plain().fg(theme.heading_underline_color()))));
                    },
                    None => {},
                }
                self.lines.push(Line::empty());
                self.heading = None;
                self.spans = Vec::new();
                self.style = StyleStack::new();
                assert(lines_view(self.lines@) =~= m.lines + heading_lines(m.spans, lvl, *theme)->0);
                assert(self@ =~= end_step(m, MdTagEnd::Heading, *theme, width)->0);
                true
            },
        }
    }

    /// Ends a code block: frames it and records it.
    fn end_code(&mut self, theme: &Theme, width: u16) -> (ok: bool)
        requires
            old(self).room(),
        ensures
            ok == (end_step(old(self)@, MdTagEnd::CodeBlock, *theme, width) is Some),
            ok ==> final(self)@ == end_step(old(self)@, MdTagEnd::CodeBlock, *theme, width)->0,
    {
        let ghost m = self@;
        let code = self.code_content.clone();
        let mut maxl: usize = 0;
        if !code.as_str().is_empty() {
            let ls = split_lines(code.as_str());
            let ghost lv = lines_of(code@);
            let mut i: usize = 0;
            while i < ls.len()
                invariant
                    ls@.len() == lv.len(),
                    forall|k: int| 0 <= k < ls@.len() ==> #[trigger] ls@[k]@ == lv[k],
                    i <= ls@.len(),
                    maxl as nat == max_len(lv.take(i as int)),
                decreases ls@.len() - i,
            {
                assert(lv.take(i + 1).drop_last() =~= lv.take(i as int));
                let l = utf8_len(ls[i].as_str());
                if l > maxl {
                    maxl = l;
                }
                i = i + 1;
            }
            assert(lv.take(i as int) =~= lv);
        }
        assert(maxl as nat == code_max_len(code@));
        let w = match maxl.checked_add(2) {
            Some(w) => w,
            None => { return false; },
        };
        let cap = (width as usize).saturating_sub(2);
        let bw = if w < cap { w } else { cap };
        assert(bw as nat == code_width(code@, width));
        let start = self.lines.len();
        let block = code_block_lines_exec(code.as_str(), bw, theme);
        append_lines(&mut self.lines, block);
        let end = self.lines.len();
        let id = self.code_id;
        self.code_id = self.code_id + 1;
        self.code_blocks.push(CodeBlockRange { block_id: id, start_line: start, end_line: end, width: bw });
        let mut lang = String::new();
        std::mem::swap(&mut lang, &mut self.code_lang);
        let ghost rq = requests_view(self.requests@);
        self.requests.push(HighlightRequest { block_id: id, code, language: lang, width: bw });
        assert(requests_view(self.requests@) =~= rq.push(self.requests@.last()@));
        self.code_content = String::new();
        self.in_code = false;
        self.lines.push(Line::empty());
        assert(self@ =~= end_step(m, MdTagEnd::CodeBlock, *theme, width)->0);
        true
    }

    /// Ends a table: draws it.
    fn end_table(&mut self, theme: &Theme, width: u16) -> (ok: bool)
        ensures
            ok == (end_step(old(self)@, MdTagEnd::Table, *theme, width) is Some),
            ok ==> final(self)@ == end_step(old(self)@, MdTagEnd::Table, *theme, width)->0,
    {
        let ghost m = self@;
        match self.table.take() {
            Some(ts) => {
                match render_table(&ts, width) {
                    Some(tl) => {
                        append_lines(&mut self.lines, tl);
                        self.lines.push(Line::empty());
                    },
                    None => { return false; },
                }
            },
            None => {},
        }
        assert(self@ =~= end_step(m, MdTagEnd::Table, *theme, width)->0);
        true
    }
}

impl Renderer {
    /// Applies the end of an element.
    fn end(&mut self, tag: MdTagEnd, theme: &Theme, width: u16) -> (ok: bool)
        requires
            old(self).room(),
        ensures
            ok == (end_step(old(self)@, tag, *theme, width) is Some),
            ok ==> final(self)@ == end_step(old(self)@, tag, *theme, width)->0,
    {
        let ghost m = self@;
        match tag {
            MdTagEnd::Heading => { return self.end_heading(theme, width); },
            MdTagEnd::CodeBlock => { return self.end_code(theme, width); },
            MdTagEnd::Table => { return self.end_table(theme, width); },
            MdTagEnd::Emphasis => { self.style.pop_italic(); },
            MdTagEnd::Strong => { self.style.pop_bold(); },
            MdTagEnd::Strikethrough => { self.style.pop_strikethrough(); },
            MdTagEnd::List => {
                self.list_depth = self.list_depth.saturating_sub(1);
                let _ = self.list_indices.pop();
                assert(self.list_indices@ =~= (if m.list_indices.len() > 0 { m.list_indices.drop_last() } else { m.list_indices }));
                if self.list_depth == 0 {
                    self.lines.push(Line::empty());
                }
            },
            MdTagEnd::Item => { self.flush_line(); },
            MdTagEnd::FootnoteDefinition => { self.flush_line(); },
            MdTagEnd::BlockQuote => {
                self.bq_depth = self.bq_depth.saturating_sub(1);
                if self.bq_depth == 0 {
                    self.lines.push(Line::empty());
                }
            },
            MdTagEnd::Link => {
                match self.link_url.take() {
                    Some(url) => {
                        let ghost lk = links_view(self.links@);
                        self.links.push(LinkInfo {
                            line_index: self.lines.len(),
                            span_start: self.spans.len().saturating_sub(1),
                            url: url.clone(),
                        });
                        assert(links_view(self.links@) =~= lk.push(self.links@.last()@));
                        proof {
                            reveal_strlit(" ("); assert(" ("@ =~= seq![' ', '(']);
                            reveal_strlit(")"); assert(")"@ =~= seq![')']);
                        }
                        let text = concat3(" (", url.as_str(), ")");
                        self.spans.push(Span::styled(text, Style::plain().fg(Color::DarkGray)));
                    },
                    None => {},
                }
                self.style.fg = None;
            },
            MdTagEnd::Image => { self.link_url = None; },
            MdTagEnd::Paragraph => {
                self.flush_line();
                self.lines.push(Line::empty());
            },
            MdTagEnd::TableHead => {
                match self.table.take() {
                    Some(mut ts) => {
                        let ghost t0 = ts@;
                        let mut row: Vec<Vec<Span>> = Vec::new();
                        std::mem::swap(&mut row, &mut ts.current_row);
                        ts.headers = row;
                        ts.in_header = false;
                        assert(ts@ =~= TableModel { headers: t0.current_row, current_row: Seq::empty(), in_header: false, ..t0 });
                        self.table = Some(ts);
                    },
                    None => {},
                }
            },
            MdTagEnd::TableRow => {
                match self.table.take() {
                    Some(mut ts) => {
                        let ghost t0 = ts@;
                        let mut row: Vec<Vec<Span>> = Vec::new();
                        std::mem::swap(&mut row, &mut ts.current_row);
                        ts.rows.push(row);
                        assert(rows_view(ts.rows@) =~= t0.rows.push(t0.current_row));
                        assert(ts@ =~= TableModel { rows: t0.rows.push(t0.current_row), current_row: Seq::empty(), ..t0 });
                        self.table = Some(ts);
                    },
                    None => {},
                }
            },
            MdTagEnd::TableCell => {
                match self.table.take() {
                    Some(mut ts) => {
                        let ghost t0 = ts@;
                        let mut cell: Vec<Span> = Vec::new();
                        std::mem::swap(&mut cell, &mut ts.current_cell);
                        ts.current_row.push(cell);
                        assert(cells_view(ts.current_row@) =~= t0.current_row.push(t0.current_cell));
                        assert(ts@ =~= TableModel { current_row: t0.current_row.push(t0.current_cell), current_cell: Seq::empty(), ..t0 });
                        self.table = Some(ts);
                    },
                    None => {},
                }
            },
            MdTagEnd::MetadataBlock => { self.in_meta = false; },
            MdTagEnd::Other => {},
        }
        assert(self@ =~= end_step(m, tag, *theme, width)->0);
        true
    }

    /// Adds the words of `t` to the count.
    fn count(&mut self, t: &String) -> (ok: bool)
        ensures
            ok == (count_in(old(self)@, t@) is Some),
            ok ==> final(self)@ == count_in(old(self)@, t@)->0,
    {
        let ghost m = self@;
        let n = count_words(t.as_str());
        match self.word_count.checked_add(n) {
            Some(x) => {
                self.word_count = x;
                assert(self@ =~= count_in(m, t@)->0);
                true
            },
            None => false,
        }
    }

    /// Adds a span to the table cell being read, or to the line being built.
    fn push_inline(&mut self, sp: Span)
        ensures
            final(self)@ == (match old(self)@.table {
                Some(ts) => RenderModel { table: Some(TableModel { current_cell: ts.current_cell.push(sp@), ..ts }), ..old(self)@ },
                None => RenderModel { spans: old(self)@.spans.push(sp@), ..old(self)@ },
            }),
    {
        let ghost m = self@;
        match self.table.take() {
            Some(mut ts) => {
                let ghost t0 = ts@;
                ts.current_cell.push(sp);
                assert(ts@ =~= TableModel { current_cell: t0.current_cell.push(sp@), ..t0 });
                self.table = Some(ts);
            },
            None => {
                self.spans.push(sp);
            },
        }
        assert(self@ =~= (match m.table {
            Some(ts) => RenderModel { table: Some(TableModel { current_cell: ts.current_cell.push(sp@), ..ts }), ..m },
            None => RenderModel { spans: m.spans.push(sp@), ..m },
        }));
    }

    /// Applies a text event.
    fn text(&mut self, t: &String, theme: &Theme) -> (ok: bool)
        ensures
            ok == (text_step(old(self)@, t@, *theme) is Some),
            ok ==> final(self)@ == text_step(old(self)@, t@, *theme)->0,
    {
        let ghost m = self@;
        if self.in_meta {
            return true;
        }
        if !self.count(t) {
            return false;
        }
        if self.in_code {
            push_str(&mut self.code_content, t.as_str());
        } else if self.table.is_some() {
            let st = self.style.to_style();
            self.push_inline(Span::styled(t.clone(), st));
        } else if self.link_url.is_some() {
            let st = Style::plain().fg(theme.palette.link_fg).add_underlined();
            self.spans.push(Span::styled(t.clone(), st));
        } else {
            let st = self.style.to_style();
            self.spans.push(Span::styled(t.clone(), st));
        }
        assert(self@ =~= text_step(m, t@, *theme)->0);
        true
    }

    /// Applies an inline code event.
    fn code(&mut self, t: &String, theme: &Theme) -> (ok: bool)
        ensures
            ok == (code_step(old(self)@, t@, *theme) is Some),
            ok ==> final(self)@ == code_step(old(self)@, t@, *theme)->0,
    {
        let ghost m = self@;
        if !self.count(t) {
            return false;
        }
        let st = Style::plain().bg(theme.palette.inline_code_bg);
        self.push_inline(Span::styled(t.clone(), st));
        assert(self@ =~= code_step(m, t@, *theme)->0);
        true
    }

    /// Applies a display math event.
    fn display_math(&mut self, t: &String, theme: &Theme)
        ensures
            final(self)@ == (RenderModel { lines: (old(self)@.lines + math_lines(t@, *theme)).push(Seq::empty()), ..old(self)@ }),
    {
        let ghost m = self@;
        let ls = split_lines(t.as_str());
        let ghost lv = lines_of(t@);
        let bg = Style::plain().bg(theme.palette.code_block_bg);
        proof { reveal_strlit("  "); assert("  "@ =~= seq![' ', ' ']); }
        let mut i: usize = 0;
        while i < ls.len()
            invariant
                lv == lines_of(t@),
                m == old(self)@,
                *self == (Renderer { lines: self.lines, ..*old(self) }),
                ls@.len() == lv.len(),
                forall|k: int| 0 <= k < ls@.len() ==> #[trigger] ls@[k]@ == lv[k],
                bg == bg_style(theme.palette.code_block_bg),
                i <= ls@.len(),
                lines_view(self.lines@) == m.lines + math_lines(t@, *theme).take(i as int),
            decreases ls@.len() - i,
        {
            proof { reveal_strlit("  "); assert("  "@ =~= seq![' ', ' ']); }
            let text = concat2("  ", ls[i].as_str());
            self.lines.push(Line::from_span(Span::styled(text, bg)));
            i = i + 1;
            assert(math_lines(t@, *theme).take(i as int) =~= math_lines(t@, *theme).take(i - 1).push(
                seq![sv(seq![' ', ' '] + lv[i - 1], bg_style(theme.palette.code_block_bg))]));
        }
        assert(math_lines(t@, *theme).take(i as int) =~= math_lines(t@, *theme));
        self.lines.push(Line::empty());
        assert(self@ =~= (RenderModel { lines: (m.lines + math_lines(t@, *theme)).push(Seq::empty()), ..m }));
    }

    /// Applies one event.
    pub fn step(&mut self, e: &MdEvent, theme: &Theme, width: u16) -> (ok: bool)
        requires
            old(self).room(),
        ensures
            ok == (step(old(self)@, *e, *theme, width) is Some),
            ok ==> final(self)@ == step(old(self)@, *e, *theme, width)->0,
    {
        let ghost m = self@;
        match e {
            MdEvent::Start(tag) => self.start(tag, theme),
            MdEvent::End(tag) => self.end(*tag, theme, width),
            MdEvent::Text(t) => self.text(t, theme),
            MdEvent::Code(t) => self.code(t, theme),
            MdEvent::SoftBreak | MdEvent::HardBreak => {
                self.flush_line();
                if self.bq_depth > 0 {
                    self.spans = bq_prefix_spans(self.bq_depth, theme);
                }
                assert(self@ =~= step(m, *e, *theme, width)->0);
                true
            },
            MdEvent::Rule => {
                proof { reveal_strlit("─"); assert("─"@ =~= seq!['─']); }
                let rule = repeat_str("─", width as usize);
                self.lines.push(Line::from_span(Span::styled(rule, Style::plain().fg(Color::DarkGray))));
                self.lines.push(Line::empty());
                assert(self@ =~= step(m, *e, *theme, width)->0);
                true
            },
            MdEvent::TaskListMarker(checked) => {
                proof {
                    reveal_strlit("☑ "); assert("☑ "@ =~= seq!['☑', ' ']);
                    reveal_strlit("☐ "); assert("☐ "@ =~= seq!['☐', ' ']);
                }
                let marker = if *checked { to_owned_string("☑ ") } else { to_owned_string("☐ ") };
                self.spans.push(Span::raw(marker));
                assert(self@ =~= step(m, *e, *theme, width)->0);
                true
            },
            MdEvent::FootnoteReference(label) => {
                let idx = self.footnote_index(label);
                proof {
                    reveal_strlit("["); assert("["@ =~= seq!['[']);
                    reveal_strlit("]"); assert("]"@ =~= seq![']']);
                }
                let text = concat3("[", decimal_string(idx as u64).as_str(), "]");
                self.spans.push(Span::styled(text, Style::plain().fg(Color::DarkGray).add_bold()));
                assert(self@ =~= step(m, *e, *theme, width)->0);
                true
            },
            MdEvent::InlineMath(t) => {
                self.spans.push(Span::styled(t.clone(), Style::plain().bg(theme.palette.inline_code_bg)));
                assert(self@ =~= step(m, *e, *theme, width)->0);
                true
            },
            MdEvent::DisplayMath(t) => { self.display_math(t, theme); true },
            MdEvent::Other => true,
        }
    }
}

/// The rendered form of a Markdown document.
pub struct ParseResult {
    pub lines: Vec<Line>,
    pub links: Vec<LinkInfo>,
    pub code_blocks: Vec<CodeBlockRange>,
    pub highlight_requests: Vec<HighlightRequest>,
    pub word_count: usize,
}

impl View for ParseResult {
    type V = ResultView;

    open spec fn view(&self) -> ResultView {
        ResultView {
            lines: lines_view(self.lines@),
            links: links_view(self.links@),
            code_blocks: self.code_blocks@,
            requests: requests_view(self.highlight_requests@),
            word_count: self.word_count as nat,
        }
    }
}

/// A step raises each counter by at most one.
proof fn lemma_step_bounds(m: RenderModel, e: MdEvent, theme: Theme, width: u16)
    requires
        step(m, e, theme, width) is Some,
    ensures
        ({
            let n = step(m, e, theme, width)->0;
            &&& n.list_depth <= m.list_depth + 1
            &&& n.bq_depth <= m.bq_depth + 1
            &&& n.code_id <= m.code_id + 1
            &&& n.footnotes.len() <= m.footnotes.len() + 1
        }),
{
}

/// Renders Markdown events into lines; `None` where rendering cannot go on
/// (an integer would overflow, or a table cell would be cut inside a character).
pub fn render_events(events: &Vec<MdEvent>, theme: &Theme, terminal_width: u16) -> (r: Option<ParseResult>)
    ensures
        r is None <==> render_spec(events@, *theme, terminal_width) is None,
        r matches Some(p) ==> p@ == render_spec(events@, *theme, terminal_width)->0,
{
    let mut st = Renderer::new();
    assert(st.footnotes@.len() == strings_view(st.footnotes@).len());
    let n = events.len();
    let mut i: usize = 0;
    assert(events@.take(0) =~= Seq::<MdEvent>::empty());
    while i < n
        invariant
            n == events@.len(),
            i <= n,
            run(events@.take(i as int), *theme, terminal_width) == Some(st@),
            st.list_depth <= i,
            st.bq_depth <= i,
            st.code_id <= i,
            st.footnotes@.len() <= i,
        decreases n - i,
    {
        assert(events@.take(i + 1).drop_last() =~= events@.take(i as int));
        assert(events@.take(i + 1).last() == events@[i as int]);
        let ghost before = st@;
        assert(st.footnotes@.len() == strings_view(st.footnotes@).len());
        if !st.step(&events[i], theme, terminal_width) {
            proof { lemma_run_stays_none(events@, *theme, terminal_width, i + 1); }
            return None;
        }
        proof {
            lemma_step_bounds(before, events@[i as int], *theme, terminal_width);
            assert(st.footnotes@.len() == strings_view(st.footnotes@).len());
        }
        i = i + 1;
    }
    assert(events@.take(n as int) =~= events@);
    st.flush_line();
    let r = ParseResult {
        lines: st.lines,
        links: st.links,
        code_blocks: st.code_blocks,
        highlight_requests: st.requests,
        word_count: st.word_count,
    };
    assert(r@ =~= render_spec(events@, *theme, terminal_width)->0);
    Some(r)
}

/// Once a step fails, the whole run fails.
proof fn lemma_run_stays_none(events: Seq<MdEvent>, theme: Theme, width: u16, k: int)
    requires
        0 <= k <= events.len(),
        run(events.take(k), theme, width) is None,
    ensures
        run(events, theme, width) is None,
    decreases events.len() - k,
{
    if k < events.len() {
        assert(events.take(k + 1).drop_last() =~= events.take(k));
        lemma_run_stays_none(events, theme, width, k + 1);
    } else {
        assert(events.take(k) =~= events);
    }
}

/// Renders a Markdown document for a terminal `terminal_width` columns wide.
/// `None` where rendering cannot go on: an integer would overflow, or a
/// table would have to cut a cell inside a character.
pub fn parse_markdown(source: &str, theme: &Theme, terminal_width: u16) -> (r: Option<ParseResult>)
    ensures
        r is None <==> render_spec(parsed_events(source@, VIEWER_OPTIONS), *theme, terminal_width) is None,
        r matches Some(p) ==> p@ == render_spec(parsed_events(source@, VIEWER_OPTIONS), *theme, terminal_width)->0,
{
    let events = markdown_events(source, VIEWER_OPTIONS);
    render_events(&events, theme, terminal_width)
}
} // verus!

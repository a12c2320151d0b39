//! The meaning of rendering: a state machine over Markdown events.
//!
//! `step` says what each event does to the rendering state; `render_spec`
//! runs it over a whole document. A `None` stands for an input on which
//! rendering cannot go on: an integer would overflow, or a table cell would
//! be cut inside a character.
use vstd::prelude::*;
use crate::style::{Color, Style, SpanView, plain_style, sv};
use crate::text::{byte_len, repeat_seq, decimal, word_count, lines_of};
use crate::theme::{Theme, heading_color, underline_color, underline_text};
use crate::markdown::types::{LinkView, CodeBlockRange, RequestView, StyleStack, empty_stack, stack_style};
use crate::markdown::table::{TableModel, spaces, table_fails, table_lines};
use crate::markdown::events::{MdEvent, MdTag, MdTagEnd};

verus! {

/// The state of rendering after some events.
#[verifier::ext_equal]
pub struct RenderModel {
    /// Finished lines.
    pub lines: Seq<Seq<SpanView>>,
    pub links: Seq<LinkView>,
    pub code_blocks: Seq<CodeBlockRange>,
    pub requests: Seq<RequestView>,
    pub word_count: nat,
    /// Open emphasis and the current inline colors.
    pub style: StyleStack,
    /// The spans of the line being built.
    pub spans: Seq<SpanView>,
    /// The level of the heading being read.
    pub heading: Option<u8>,
    pub list_depth: nat,
    /// For each open list, the next number of an ordered list.
    pub list_indices: Seq<Option<u64>>,
    pub bq_depth: nat,
    pub in_code: bool,
    pub code_lang: Seq<char>,
    pub code_content: Seq<char>,
    /// The number of code blocks finished so far.
    pub code_id: nat,
    /// The destination of the open link or image.
    pub link_url: Option<Seq<char>>,
    pub table: Option<TableModel>,
    /// Footnote labels, numbered from 1 in order of first appearance.
    pub footnotes: Seq<Seq<char>>,
    pub in_meta: bool,
}

/// The state before any event.
pub open spec fn initial_model() -> RenderModel {
    RenderModel {
        lines: Seq::empty(),
        links: Seq::empty(),
        code_blocks: Seq::empty(),
        requests: Seq::empty(),
        word_count: 0,
        style: empty_stack(),
        spans: Seq::empty(),
        heading: None,
        list_depth: 0,
        list_indices: Seq::empty(),
        bq_depth: 0,
        in_code: false,
        code_lang: Seq::empty(),
        code_content: Seq::empty(),
        code_id: 0,
        link_url: None,
        table: None,
        footnotes: Seq::empty(),
        in_meta: false,
    }
}

/// A style with only a foreground color.
pub open spec fn fg_style(c: Color) -> Style {
    Style { fg: Some(c), ..plain_style() }
}

/// A style with only a background color.
pub open spec fn bg_style(c: Color) -> Style {
    Style { bg: Some(c), ..plain_style() }
}

/// Dark gray and bold: footnote marks.
pub open spec fn note_style() -> Style {
    Style { fg: Some(Color::DarkGray), bold: true, ..plain_style() }
}

/// The frame of code blocks.
pub open spec fn frame_style(theme: Theme) -> Style {
    Style { fg: Some(theme.palette.blockquote_border), bg: Some(theme.palette.code_block_bg), ..plain_style() }
}

/// One `│ ` mark per open block quote.
pub open spec fn bq_prefix(depth: nat, theme: Theme) -> Seq<SpanView> {
    Seq::new(depth, |_i: int| sv(seq!['│', ' '], fg_style(theme.palette.blockquote_border)))
}

/// `n - 1`, but 0 for 0.
pub open spec fn dec(n: nat) -> nat {
    if n > 0 { (n - 1) as nat } else { 0 }
}

/// The position of the first `x` in `s`.
pub open spec fn find_first(s: Seq<Seq<char>>, x: Seq<char>) -> Option<nat>
    decreases s.len(),
{
    if s.len() == 0 {
        None
    } else {
        match find_first(s.drop_last(), x) {
            Some(i) => Some(i),
            None => if s.last() == x { Some((s.len() - 1) as nat) } else { None },
        }
    }
}

/// The labels once `label` is known.
pub open spec fn labels_with(labels: Seq<Seq<char>>, label: Seq<char>) -> Seq<Seq<char>> {
    match find_first(labels, label) {
        Some(_) => labels,
        None => labels.push(label),
    }
}

/// The number of footnote `label`: its place among the labels, counting from 1.
pub open spec fn footnote_number(labels: Seq<Seq<char>>, label: Seq<char>) -> nat {
    match find_first(labels, label) {
        Some(i) => i + 1,
        None => labels.len() + 1,
    }
}

/// The bullet of a list item: the next number of an ordered list, else a dot.
pub open spec fn item_bullet(idx: Seq<Option<u64>>) -> Seq<char> {
    if idx.len() > 0 && idx.last() is Some {
        decimal(idx.last()->0 as nat) + seq!['.', ' ']
    } else {
        seq!['•', ' ']
    }
}

/// The list counters after an item: the innermost ordered list counts on;
/// `None` where the counter would overflow.
pub open spec fn item_indices(idx: Seq<Option<u64>>) -> Option<Seq<Option<u64>>> {
    if idx.len() > 0 && idx.last() is Some {
        let n = idx.last()->0;
        if n == u64::MAX {
            None
        } else {
            Some(idx.update(idx.len() - 1, Some((n + 1) as u64)))
        }
    } else {
        Some(idx)
    }
}

/// The prefix of a list item: block quote marks, then indentation and bullet.
pub open spec fn item_spans(m: RenderModel, theme: Theme) -> Seq<SpanView> {
    bq_prefix(m.bq_depth, theme).push(sv(
        repeat_seq(seq![' ', ' '], dec(m.list_depth)) + item_bullet(m.list_indices),
        plain_style(),
    ))
}

/// What the start of an element does. A list item first finishes the line
/// being built (the text of an enclosing item), then starts its own.
pub open spec fn start_step(m: RenderModel, tag: MdTag, theme: Theme) -> Option<RenderModel> {
    match tag {
        MdTag::Heading(lvl) => Some(RenderModel {
            heading: Some(lvl),
            spans: Seq::empty(),
            style: StyleStack { bold: 1, fg: Some(heading_color(theme.mode, lvl)), ..empty_stack() },
            ..m
        }),
        MdTag::Emphasis => if m.style.italic == u32::MAX { None } else {
            Some(RenderModel { style: StyleStack { italic: (m.style.italic + 1) as u32, ..m.style }, ..m })
        },
        MdTag::Strong => if m.style.bold == u32::MAX { None } else {
            Some(RenderModel { style: StyleStack { bold: (m.style.bold + 1) as u32, ..m.style }, ..m })
        },
        MdTag::Strikethrough => if m.style.strikethrough == u32::MAX { None } else {
            Some(RenderModel {
                style: StyleStack { strikethrough: (m.style.strikethrough + 1) as u32, ..m.style },
                ..m
            })
        },
        MdTag::List(start) => Some(RenderModel {
            list_depth: m.list_depth + 1,
            list_indices: m.list_indices.push(start),
            ..m
        }),
        MdTag::Item => match item_indices(m.list_indices) {
            None => None,
            Some(idx) => Some(RenderModel { spans: item_spans(m, theme), list_indices: idx, ..flush(m) }),
        },
        MdTag::BlockQuote => Some(RenderModel { bq_depth: m.bq_depth + 1, ..m }),
        MdTag::CodeBlock(lang) => Some(RenderModel {
            in_code: true,
            code_content: Seq::empty(),
            code_lang: lang@,
            ..m
        }),
        MdTag::Link(url) => Some(RenderModel {
            link_url: Some(url@),
            style: StyleStack { fg: Some(theme.palette.link_fg), ..m.style },
            ..m
        }),
        MdTag::Image(url) => Some(RenderModel { link_url: Some(url@), ..m }),
        MdTag::Paragraph => Some(RenderModel {
            spans: if m.bq_depth > 0 { bq_prefix(m.bq_depth, theme) } else { Seq::empty() },
            ..m
        }),
        MdTag::Table(aligns) => Some(RenderModel {
            table: Some(TableModel {
                headers: Seq::empty(),
                rows: Seq::empty(),
                alignments: aligns@,
                current_row: Seq::empty(),
                current_cell: Seq::empty(),
                in_header: false,
            }),
            ..m
        }),
        MdTag::TableHead => Some(match m.table {
            Some(ts) => RenderModel {
                table: Some(TableModel { in_header: true, current_row: Seq::empty(), ..ts }),
                ..m
            },
            None => m,
        }),
        MdTag::TableRow => Some(match m.table {
            Some(ts) => RenderModel { table: Some(TableModel { current_row: Seq::empty(), ..ts }), ..m },
            None => m,
        }),
        MdTag::TableCell => Some(match m.table {
            Some(ts) => RenderModel { table: Some(TableModel { current_cell: Seq::empty(), ..ts }), ..m },
            None => m,
        }),
        MdTag::FootnoteDefinition(label) => Some(RenderModel {
            footnotes: labels_with(m.footnotes, label@),
            spans: seq![sv(
                seq!['['] + decimal(footnote_number(m.footnotes, label@)) + seq![']', ':', ' '],
                note_style(),
            )],
            ..m
        }),
        MdTag::MetadataBlock => Some(RenderModel { in_meta: true, ..m }),
        MdTag::Other => Some(m),
    }
}

/// The sum of the byte lengths of the spans' texts.
pub open spec fn spans_len(s: Seq<SpanView>) -> nat
    decreases s.len(),
{
    if s.len() == 0 { 0 } else { spans_len(s.drop_last()) + byte_len(s.last().text) }
}

/// The content of a heading line: each span turned to the heading color, bold.
pub open spec fn heading_body(s: Seq<SpanView>, fg: Color) -> Seq<SpanView> {
    s.map_values(|x: SpanView| sv(x.text, Style { fg: Some(fg), bold: true, ..x.style }))
}

/// `#` once per level, then a space.
pub open spec fn heading_prefix(lvl: u8) -> Seq<char> {
    repeat_seq(seq!['#'], lvl as nat) + seq![' ']
}

/// The lines that end a heading: the heading line, its underline (levels 1
/// to 4: the underline text repeated half the heading's byte width), and a
/// blank line. `None` where the width overflows.
pub open spec fn heading_lines(spans: Seq<SpanView>, lvl: u8, theme: Theme) -> Option<Seq<Seq<SpanView>>> {
    let fg = heading_color(theme.mode, lvl);
    let prefix = heading_prefix(lvl);
    let line = seq![sv(prefix, Style { fg: Some(fg), bold: true, ..plain_style() })] + heading_body(spans, fg);
    let content_len = spans_len(spans);
    let total = byte_len(prefix) + content_len;
    if content_len > usize::MAX {
        None
    } else {
        match underline_text(lvl) {
            Some(ch) => if total > usize::MAX {
                None
            } else {
                let count = if byte_len(ch) > 1 { total / 2 } else { total };
                Some(seq![line, seq![sv(repeat_seq(ch, count), fg_style(underline_color(theme.mode)))], Seq::empty()])
            },
            None => Some(seq![line, Seq::empty()]),
        }
    }
}

/// The longest byte length among the lines.
pub open spec fn max_len(ls: Seq<Seq<char>>) -> nat
    decreases ls.len(),
{
    if ls.len() == 0 {
        0
    } else {
        let a = max_len(ls.drop_last());
        let b = byte_len(ls.last());
        if b > a { b } else { a }
    }
}

/// The longest line of a code block, in bytes.
pub open spec fn code_max_len(code: Seq<char>) -> nat {
    if code.len() == 0 { 0 } else { max_len(lines_of(code)) }
}

/// The inner width of a code block's frame: its longest line plus 2, at
/// most the terminal width minus the 2 border columns.
pub open spec fn code_width(code: Seq<char>, width: u16) -> nat {
    let w = code_max_len(code) + 2;
    let cap = if width >= 2 { (width - 2) as nat } else { 0 };
    if w < cap { w } else { cap }
}

/// The lines shown inside a code block (one empty line for empty code).
pub open spec fn code_rows(code: Seq<char>) -> Seq<Seq<char>> {
    if code.len() == 0 { seq![Seq::empty()] } else { lines_of(code) }
}

/// One framed line of a code block, padded to the frame's inner width.
pub open spec fn code_line(l: Seq<char>, inner: nat, theme: Theme) -> Seq<SpanView> {
    let bg = bg_style(theme.palette.code_block_bg);
    let pad = if byte_len(l) < inner { spaces((inner - byte_len(l)) as nat) } else { Seq::empty() };
    seq![
        sv(seq!['│', ' '], frame_style(theme)),
        sv(l, bg),
        sv(pad, bg),
        sv(seq![' ', '│'], frame_style(theme)),
    ]
}

/// The top or bottom of a code block's frame.
pub open spec fn frame_edge(left: char, bw: nat, right: char, theme: Theme) -> Seq<SpanView> {
    seq![sv(seq![left] + repeat_seq(seq!['─'], bw) + seq![right], frame_style(theme))]
}

/// The framed lines of a code block.
pub open spec fn code_block_lines(code: Seq<char>, bw: nat, theme: Theme) -> Seq<Seq<SpanView>> {
    let rows = code_rows(code);
    let inner = if bw >= 2 { (bw - 2) as nat } else { 0 };
    seq![frame_edge('┌', bw, '┐', theme)]
        + Seq::new(rows.len(), |i: int| code_line(rows[i], inner, theme))
        + seq![frame_edge('└', bw, '┘', theme)]
}

/// What the end of a code block does: frame its lines, record the block and
/// a request to highlight it.
pub open spec fn end_code_block(m: RenderModel, theme: Theme, width: u16) -> Option<RenderModel> {
    let code = m.code_content;
    if code_max_len(code) + 2 > usize::MAX {
        None
    } else {
        let bw = code_width(code, width);
        let start = m.lines.len();
        let lines = m.lines + code_block_lines(code, bw, theme);
        Some(RenderModel {
            in_code: false,
            code_content: Seq::empty(),
            code_lang: Seq::empty(),
            lines: lines.push(Seq::empty()),
            code_blocks: m.code_blocks.push(CodeBlockRange {
                block_id: m.code_id as usize,
                start_line: start as usize,
                end_line: lines.len() as usize,
                width: bw as usize,
            }),
            requests: m.requests.push(RequestView {
                block_id: m.code_id as usize,
                code,
                language: m.code_lang,
                width: bw as usize,
            }),
            code_id: m.code_id + 1,
            ..m
        })
    }
}

/// The finished lines plus the line being built, when it has spans.
pub open spec fn flush(m: RenderModel) -> RenderModel {
    if m.spans.len() > 0 {
        RenderModel { lines: m.lines.push(m.spans), spans: Seq::empty(), ..m }
    } else {
        m
    }
}

/// What the end of an element does.
pub open spec fn end_step(m: RenderModel, tag: MdTagEnd, theme: Theme, width: u16) -> Option<RenderModel> {
    match tag {
        MdTagEnd::Heading => match m.heading {
            Some(lvl) => match heading_lines(m.spans, lvl, theme) {
                Some(hl) => Some(RenderModel {
                    lines: m.lines + hl,
                    spans: Seq::empty(),
                    heading: None,
                    style: empty_stack(),
                    ..m
                }),
                None => None,
            },
            None => Some(RenderModel { style: empty_stack(), ..m }),
        },
        MdTagEnd::Emphasis => Some(RenderModel {
            style: StyleStack { italic: if m.style.italic > 0 { (m.style.italic - 1) as u32 } else { 0 }, ..m.style },
            ..m
        }),
        MdTagEnd::Strong => Some(RenderModel {
            style: StyleStack { bold: if m.style.bold > 0 { (m.style.bold - 1) as u32 } else { 0 }, ..m.style },
            ..m
        }),
        MdTagEnd::Strikethrough => Some(RenderModel {
            style: StyleStack {
                strikethrough: if m.style.strikethrough > 0 { (m.style.strikethrough - 1) as u32 } else { 0 },
                ..m.style
            },
            ..m
        }),
        MdTagEnd::List => Some(RenderModel {
            list_depth: dec(m.list_depth),
            list_indices: if m.list_indices.len() > 0 { m.list_indices.drop_last() } else { m.list_indices },
            lines: if dec(m.list_depth) == 0 { m.lines.push(Seq::empty()) } else { m.lines },
            ..m
        }),
        MdTagEnd::Item => Some(flush(m)),
        MdTagEnd::BlockQuote => Some(RenderModel {
            bq_depth: dec(m.bq_depth),
            lines: if dec(m.bq_depth) == 0 { m.lines.push(Seq::empty()) } else { m.lines },
            ..m
        }),
        MdTagEnd::CodeBlock => end_code_block(m, theme, width),
        MdTagEnd::Link => Some(match m.link_url {
            Some(url) => RenderModel {
                links: m.links.push(LinkView {
                    line_index: m.lines.len() as usize,
                    span_start: dec(m.spans.len()) as usize,
                    url,
                }),
                spans: m.spans.push(sv(seq![' ', '('] + url + seq![')'], fg_style(Color::DarkGray))),
                link_url: None,
                style: StyleStack { fg: None, ..m.style },
                ..m
            },
            None => RenderModel { style: StyleStack { fg: None, ..m.style }, ..m },
        }),
        MdTagEnd::Image => Some(RenderModel { link_url: None, ..m }),
        MdTagEnd::Paragraph => {
            let f = flush(m);
            Some(RenderModel { lines: f.lines.push(Seq::empty()), ..f })
        },
        MdTagEnd::Table => match m.table {
            Some(ts) => if table_fails(ts, width) {
                None
            } else {
                Some(RenderModel {
                    lines: (m.lines + table_lines(ts, width)).push(Seq::empty()),
                    table: None,
                    ..m
                })
            },
            None => Some(m),
        },
        MdTagEnd::TableHead => Some(match m.table {
            Some(ts) => RenderModel {
                table: Some(TableModel { headers: ts.current_row, current_row: Seq::empty(), in_header: false, ..ts }),
                ..m
            },
            None => m,
        }),
        MdTagEnd::TableRow => Some(match m.table {
            Some(ts) => RenderModel {
                table: Some(TableModel { rows: ts.rows.push(ts.current_row), current_row: Seq::empty(), ..ts }),
                ..m
            },
            None => m,
        }),
        MdTagEnd::TableCell => Some(match m.table {
            Some(ts) => RenderModel {
                table: Some(TableModel {
                    current_row: ts.current_row.push(ts.current_cell),
                    current_cell: Seq::empty(),
                    ..ts
                }),
                ..m
            },
            None => m,
        }),
        MdTagEnd::FootnoteDefinition => Some(flush(m)),
        MdTagEnd::MetadataBlock => Some(RenderModel { in_meta: false, ..m }),
        MdTagEnd::Other => Some(m),
    }
}

/// The style of link and image text.
pub open spec fn link_text_style(theme: Theme) -> Style {
    Style { fg: Some(theme.palette.link_fg), underlined: true, ..plain_style() }
}

/// Adds the words of `t` to the count; `None` where the count overflows.
pub open spec fn count_in(m: RenderModel, t: Seq<char>) -> Option<RenderModel> {
    if m.word_count + word_count(t) > usize::MAX {
        None
    } else {
        Some(RenderModel { word_count: m.word_count + word_count(t), ..m })
    }
}

/// What a text event does: counted, then added to the code block, the table
/// cell, the link, or the line, in that order of precedence. Ignored inside
/// front matter.
pub open spec fn text_step(m: RenderModel, t: Seq<char>, theme: Theme) -> Option<RenderModel> {
    if m.in_meta {
        Some(m)
    } else {
        match count_in(m, t) {
            None => None,
            Some(c) => Some(if m.in_code {
                RenderModel { code_content: m.code_content + t, ..c }
            } else if m.table is Some {
                let ts = m.table->0;
                RenderModel {
                    table: Some(TableModel { current_cell: ts.current_cell.push(sv(t, stack_style(m.style))), ..ts }),
                    ..c
                }
            } else if m.link_url is Some {
                RenderModel { spans: m.spans.push(sv(t, link_text_style(theme))), ..c }
            } else {
                RenderModel { spans: m.spans.push(sv(t, stack_style(m.style))), ..c }
            }),
        }
    }
}

/// What an inline code event does: counted, then added to the table cell or the line.
pub open spec fn code_step(m: RenderModel, t: Seq<char>, theme: Theme) -> Option<RenderModel> {
    let st = bg_style(theme.palette.inline_code_bg);
    match count_in(m, t) {
        None => None,
        Some(c) => Some(if m.table is Some {
            let ts = m.table->0;
            RenderModel { table: Some(TableModel { current_cell: ts.current_cell.push(sv(t, st)), ..ts }), ..c }
        } else {
            RenderModel { spans: m.spans.push(sv(t, st)), ..c }
        }),
    }
}

/// What a line break does: the line ends, and the next starts with the block quote marks.
pub open spec fn break_step(m: RenderModel, theme: Theme) -> RenderModel {
    let f = flush(m);
    RenderModel { spans: if m.bq_depth > 0 { bq_prefix(m.bq_depth, theme) } else { Seq::empty() }, ..f }
}

/// The lines of display math: each line indented by two spaces on the code background.
pub open spec fn math_lines(t: Seq<char>, theme: Theme) -> Seq<Seq<SpanView>> {
    let ls = lines_of(t);
    Seq::new(ls.len(), |i: int| seq![sv(seq![' ', ' '] + ls[i], bg_style(theme.palette.code_block_bg))])
}

/// What one event does to the rendering state.
pub open spec fn step(m: RenderModel, e: MdEvent, theme: Theme, width: u16) -> Option<RenderModel> {
    match e {
        MdEvent::Start(tag) => start_step(m, tag, theme),
        MdEvent::End(tag) => end_step(m, tag, theme, width),
        MdEvent::Text(t) => text_step(m, t@, theme),
        MdEvent::Code(t) => code_step(m, t@, theme),
        MdEvent::SoftBreak => Some(break_step(m, theme)),
        MdEvent::HardBreak => Some(break_step(m, theme)),
        MdEvent::Rule => Some(RenderModel {
            lines: m.lines.push(seq![sv(repeat_seq(seq!['─'], width as nat), fg_style(Color::DarkGray))])
                .push(Seq::empty()),
            ..m
        }),
        MdEvent::TaskListMarker(checked) => Some(RenderModel {
            spans: m.spans.push(sv(if checked { seq!['☑', ' '] } else { seq!['☐', ' '] }, plain_style())),
            ..m
        }),
        MdEvent::FootnoteReference(label) => Some(RenderModel {
            footnotes: labels_with(m.footnotes, label@),
            spans: m.spans.push(sv(
                seq!['['] + decimal(footnote_number(m.footnotes, label@)) + seq![']'],
                note_style(),
            )),
            ..m
        }),
        MdEvent::InlineMath(t) => Some(RenderModel {
            spans: m.spans.push(sv(t@, bg_style(theme.palette.inline_code_bg))),
            ..m
        }),
        MdEvent::DisplayMath(t) => Some(RenderModel {
            lines: (m.lines + math_lines(t@, theme)).push(Seq::empty()),
            ..m
        }),
        MdEvent::Other => Some(m),
    }
}

/// The rendering state after the events, in order; `None` once a step fails.
pub open spec fn run(events: Seq<MdEvent>, theme: Theme, width: u16) -> Option<RenderModel>
    decreases events.len(),
{
    if events.len() == 0 {
        Some(initial_model())
    } else {
        match run(events.drop_last(), theme, width) {
            None => None,
            Some(m) => step(m, events.last(), theme, width),
        }
    }
}

/// The layout facts of a rendering state: each code block lies within the
/// finished lines, the blocks come in order without overlapping, each block's
/// id is its position, and every link stands on a finished line or the line
/// being built.
pub open spec fn layout_ok(m: RenderModel) -> bool {
    &&& m.code_blocks.len() == m.code_id
    &&& m.code_id <= m.lines.len()
    &&& forall|k: int| 0 <= k < m.code_blocks.len() ==>
        (#[trigger] m.code_blocks[k]).start_line <= m.code_blocks[k].end_line <= m.lines.len()
            && m.code_blocks[k].block_id == k
    &&& forall|j: int, k: int| 0 <= j < k < m.code_blocks.len() ==>
        (#[trigger] m.code_blocks[j]).end_line <= (#[trigger] m.code_blocks[k]).start_line
    &&& forall|k: int| 0 <= k < m.links.len() ==> (#[trigger] m.links[k]).line_index <= m.lines.len()
    &&& m.requests.len() == m.code_blocks.len()
    &&& forall|k: int| 0 <= k < m.requests.len() ==> block_matches_request(m.code_blocks[k], #[trigger] m.requests[k])
}

/// A code block and its highlight request share id and width, and the block
/// spans one line per code line between two frame edges.
pub open spec fn block_matches_request(b: CodeBlockRange, r: RequestView) -> bool {
    &&& b.block_id == r.block_id
    &&& b.width == r.width
    &&& b.end_line - b.start_line == code_rows(r.code).len() + 2
}

/// Rendering only adds lines, blocks and links: what was there stays.
proof fn lemma_step_appends(m: RenderModel, e: MdEvent, theme: Theme, width: u16)
    requires
        step(m, e, theme, width) is Some,
    ensures
        ({
            let n = step(m, e, theme, width)->0;
            &&& m.lines.len() <= n.lines.len()
            &&& (n.code_blocks == m.code_blocks && n.code_id == m.code_id && n.requests == m.requests) || ({
                &&& n.code_blocks == m.code_blocks.push(n.code_blocks.last())
                &&& n.requests == m.requests.push(n.requests.last())
                &&& n.requests.last().block_id == m.code_id as usize
                &&& n.requests.last().width == n.code_blocks.last().width
                &&& n.code_blocks.last().end_line == (m.lines.len() + code_rows(n.requests.last().code).len() + 2) as usize
                &&& n.code_id == m.code_id + 1
                &&& n.code_blocks.last().start_line == m.lines.len() as usize
                &&& n.code_blocks.last().block_id == m.code_id as usize
                &&& m.lines.len() + 3 <= n.lines.len()
                &&& n.code_blocks.last().end_line == (n.lines.len() - 1) as usize
            })
            &&& n.links == m.links || n.links == m.links.push(LinkView {
                line_index: m.lines.len() as usize,
                span_start: n.links.last().span_start,
                url: n.links.last().url,
            })
        }),
{
    if let MdEvent::End(MdTagEnd::CodeBlock) = e {
        let code = m.code_content;
        let bw = code_width(code, width);
        assert(code_block_lines(code, bw, theme).len() == code_rows(code).len() + 2);
    }
}

/// One step keeps the layout facts, while the lines fit the machine's word.
proof fn lemma_step_layout(m: RenderModel, e: MdEvent, theme: Theme, width: u16)
    requires
        layout_ok(m),
        step(m, e, theme, width) is Some,
        step(m, e, theme, width)->0.lines.len() <= usize::MAX,
    ensures
        layout_ok(step(m, e, theme, width)->0),
{
    lemma_step_appends(m, e, theme, width);
    let n = step(m, e, theme, width)->0;
    if n.code_blocks != m.code_blocks {
        assert forall|k: int| 0 <= k < n.requests.len() implies block_matches_request(n.code_blocks[k], #[trigger] n.requests[k]) by {
            if k < m.requests.len() {
                assert(n.code_blocks[k] == m.code_blocks[k] && n.requests[k] == m.requests[k]);
            }
        }
        assert forall|k: int| 0 <= k < n.code_blocks.len() implies
            (#[trigger] n.code_blocks[k]).start_line <= n.code_blocks[k].end_line <= n.lines.len()
                && n.code_blocks[k].block_id == k by {
            if k < m.code_blocks.len() {
                assert(n.code_blocks[k] == m.code_blocks[k]);
            }
        }
        assert forall|j: int, k: int| 0 <= j < k < n.code_blocks.len() implies
            (#[trigger] n.code_blocks[j]).end_line <= (#[trigger] n.code_blocks[k]).start_line by {
            assert(n.code_blocks[j] == m.code_blocks[j]);
            if k < m.code_blocks.len() {
                assert(n.code_blocks[k] == m.code_blocks[k]);
            }
        }
    }
    if n.links != m.links {
        assert forall|k: int| 0 <= k < n.links.len() implies (#[trigger] n.links[k]).line_index <= n.lines.len() by {
            if k < m.links.len() {
                assert(n.links[k] == m.links[k]);
            }
        }
    }
}

/// Rendering never changes a finished line, and a code block's lines are
/// its framed placeholder.
#[verifier::rlimit(40)]
proof fn lemma_step_keeps_lines(m: RenderModel, e: MdEvent, theme: Theme, width: u16)
    requires
        step(m, e, theme, width) is Some,
    ensures
        ({
            let n = step(m, e, theme, width)->0;
            &&& m.lines.len() <= n.lines.len()
            &&& n.lines.take(m.lines.len() as int) == m.lines
            &&& n.code_blocks.len() > m.code_blocks.len() ==> ({
                let r = n.requests.last();
                &&& n.lines.subrange(m.lines.len() as int, (m.lines.len() + code_rows(r.code).len() + 2) as int)
                    == code_block_lines(r.code, code_width(r.code, width), theme)
                &&& r.width == code_width(r.code, width) as usize
            })
        }),
{
    let n = step(m, e, theme, width)->0;
    lemma_step_appends(m, e, theme, width);
    match e {
        MdEvent::End(MdTagEnd::CodeBlock) => {
            let code = m.code_content;
            let bw = code_width(code, width);
            let lines = m.lines + code_block_lines(code, bw, theme);
            assert(n.lines == lines.push(Seq::empty()));
            assert(n.lines.take(m.lines.len() as int) =~= m.lines);
            assert(n.lines.subrange(m.lines.len() as int, (m.lines.len() + code_rows(code).len() + 2) as int)
                =~= code_block_lines(code, bw, theme));
        },
        _ => {
            assert(n.lines.take(m.lines.len() as int) =~= m.lines);
        },
    }
}

/// Each code block's lines in the document are its framed placeholder.
pub open spec fn placeholders_ok(m: RenderModel, theme: Theme, width: u16) -> bool {
    forall|k: int| 0 <= k < m.requests.len() ==> ({
        let r = #[trigger] m.requests[k];
        let b = m.code_blocks[k];
        &&& r.width == code_width(r.code, width) as usize
        &&& m.lines.subrange(b.start_line as int, b.end_line as int)
            == code_block_lines(r.code, code_width(r.code, width), theme)
    })
}

/// One step keeps the placeholders in place.
proof fn lemma_step_placeholders(m: RenderModel, e: MdEvent, theme: Theme, width: u16)
    requires
        layout_ok(m),
        placeholders_ok(m, theme, width),
        step(m, e, theme, width) is Some,
        step(m, e, theme, width)->0.lines.len() <= usize::MAX,
    ensures
        placeholders_ok(step(m, e, theme, width)->0, theme, width),
{
    let n = step(m, e, theme, width)->0;
    lemma_step_appends(m, e, theme, width);
    lemma_step_keeps_lines(m, e, theme, width);
    assert forall|k: int| 0 <= k < n.requests.len() implies ({
        let r = #[trigger] n.requests[k];
        let b = n.code_blocks[k];
        &&& r.width == code_width(r.code, width) as usize
        &&& n.lines.subrange(b.start_line as int, b.end_line as int)
            == code_block_lines(r.code, code_width(r.code, width), theme)
    }) by {
        let r = n.requests[k];
        let b = n.code_blocks[k];
        if k < m.requests.len() {
            assert(r == m.requests[k] && b == m.code_blocks[k]);
            assert(b.start_line <= b.end_line <= m.lines.len());
            assert(n.lines.subrange(b.start_line as int, b.end_line as int)
                =~= n.lines.take(m.lines.len() as int).subrange(b.start_line as int, b.end_line as int));
        } else {
            assert(k == m.requests.len());
        }
    }
}

/// Lines only grow along a run.
proof fn lemma_run_lines_grow(events: Seq<MdEvent>, theme: Theme, width: u16, k: int)
    requires
        0 <= k <= events.len(),
        run(events, theme, width) is Some,
    ensures
        run(events.take(k), theme, width) is Some,
        run(events.take(k), theme, width)->0.lines.len() <= run(events, theme, width)->0.lines.len(),
    decreases events.len() - k,
{
    if k < events.len() {
        lemma_run_lines_grow(events, theme, width, k + 1);
        let t = events.take(k + 1);
        assert(t.drop_last() =~= events.take(k));
        lemma_step_appends(run(events.take(k), theme, width)->0, t.last(), theme, width);
    } else {
        assert(events.take(k) =~= events);
    }
}

/// Every prefix of a run keeps the layout facts.
proof fn lemma_run_layout(events: Seq<MdEvent>, theme: Theme, width: u16)
    requires
        run(events, theme, width) is Some,
        run(events, theme, width)->0.lines.len() <= usize::MAX,
    ensures
        layout_ok(run(events, theme, width)->0),
        placeholders_ok(run(events, theme, width)->0, theme, width),
    decreases events.len(),
{
    if events.len() > 0 {
        let p = events.drop_last();
        lemma_run_lines_grow(events, theme, width, events.len() - 1);
        assert(events.take(events.len() - 1) =~= p);
        lemma_run_layout(p, theme, width);
        lemma_step_layout(run(p, theme, width)->0, events.last(), theme, width);
        lemma_step_placeholders(run(p, theme, width)->0, events.last(), theme, width);
    }
}

/// In a rendered document each code block lies within the lines, the blocks
/// come in order without overlapping, block `k` has id `k`, and every link
/// stands on a line of the document or just past its end.
pub proof fn lemma_rendered_layout(events: Seq<MdEvent>, theme: Theme, width: u16)
    requires
        render_spec(events, theme, width) is Some,
        render_spec(events, theme, width)->0.lines.len() <= usize::MAX,
    ensures
        ({
            let r = render_spec(events, theme, width)->0;
            &&& forall|k: int| 0 <= k < r.code_blocks.len() ==>
                (#[trigger] r.code_blocks[k]).start_line <= r.code_blocks[k].end_line <= r.lines.len()
                    && r.code_blocks[k].block_id == k
            &&& forall|j: int, k: int| 0 <= j < k < r.code_blocks.len() ==>
                (#[trigger] r.code_blocks[j]).end_line <= (#[trigger] r.code_blocks[k]).start_line
            &&& forall|k: int| 0 <= k < r.links.len() ==> (#[trigger] r.links[k]).line_index <= r.lines.len()
            &&& r.requests.len() == r.code_blocks.len()
            &&& forall|k: int| 0 <= k < r.requests.len() ==> block_matches_request(r.code_blocks[k], #[trigger] r.requests[k])
            &&& forall|k: int| 0 <= k < r.requests.len() ==> ({
                let q = #[trigger] r.requests[k];
                let b = r.code_blocks[k];
                &&& q.width == code_width(q.code, width) as usize
                &&& r.lines.subrange(b.start_line as int, b.end_line as int)
                    == code_block_lines(q.code, code_width(q.code, width), theme)
            })
        }),
{
    let m = run(events, theme, width)->0;
    let f = flush(m);
    assert(f.lines.len() <= usize::MAX);
    lemma_run_layout(events, theme, width);
    assert(f.lines.take(m.lines.len() as int) =~= m.lines);
    assert forall|k: int| 0 <= k < m.requests.len() implies ({
        let q = #[trigger] m.requests[k];
        let b = m.code_blocks[k];
        f.lines.subrange(b.start_line as int, b.end_line as int)
            == code_block_lines(q.code, code_width(q.code, width), theme)
    }) by {
        let b = m.code_blocks[k];
        assert(f.lines.subrange(b.start_line as int, b.end_line as int)
            =~= m.lines.subrange(b.start_line as int, b.end_line as int));
    }
}

/// The line starts `d` quote marks: exactly `d` spans, each with the text `│ `.
proof fn lemma_quote_marks(spans: Seq<SpanView>, d: nat, theme: Theme)
    requires
        spans == (if d > 0 { bq_prefix(d, theme) } else { Seq::<SpanView>::empty() }),
    ensures
        spans.len() == d,
        forall|i: int| 0 <= i < d ==> #[trigger] spans[i].text == seq!['│', ' '],
{
}

/// Block quote marks follow the nesting: a block quote opens one level
/// deeper, and a paragraph, or a line after a break, inside `d` nested block
/// quotes starts with exactly `d` spans whose text is `│ ` (none outside any
/// quote); so a paragraph in a quote in a quote starts with two marks more
/// than one outside both.
pub proof fn lemma_quote_marks_follow_depth(m: RenderModel, theme: Theme, width: u16)
    ensures
        step(m, MdEvent::Start(MdTag::BlockQuote), theme, width) matches Some(n) && n.bq_depth == m.bq_depth + 1,
        step(m, MdEvent::Start(MdTag::Paragraph), theme, width) matches Some(n)
            && n.spans.len() == m.bq_depth
            && forall|i: int| 0 <= i < m.bq_depth ==> #[trigger] n.spans[i].text == seq!['│', ' '],
        step(m, MdEvent::SoftBreak, theme, width) matches Some(n)
            && n.spans.len() == m.bq_depth
            && forall|i: int| 0 <= i < m.bq_depth ==> #[trigger] n.spans[i].text == seq!['│', ' '],
        step(m, MdEvent::HardBreak, theme, width) matches Some(n)
            && n.spans.len() == m.bq_depth
            && forall|i: int| 0 <= i < m.bq_depth ==> #[trigger] n.spans[i].text == seq!['│', ' '],
        step(m, MdEvent::Start(MdTag::BlockQuote), theme, width) matches Some(n1)
            && step(n1, MdEvent::Start(MdTag::BlockQuote), theme, width) matches Some(n2)
            && step(n2, MdEvent::Start(MdTag::Paragraph), theme, width) matches Some(n3)
            && n3.spans.len() == m.bq_depth + 2
            && forall|i: int| 0 <= i < m.bq_depth + 2 ==> #[trigger] n3.spans[i].text == seq!['│', ' '],
{
    let d = m.bq_depth;
    lemma_quote_marks(start_step(m, MdTag::Paragraph, theme)->0.spans, d, theme);
    lemma_quote_marks(break_step(m, theme).spans, d, theme);
    let n2 = RenderModel { bq_depth: d + 2, ..m };
    assert(step(m, MdEvent::Start(MdTag::BlockQuote), theme, width)->0 == RenderModel { bq_depth: d + 1, ..m });
    assert(step(RenderModel { bq_depth: d + 1, ..m }, MdEvent::Start(MdTag::BlockQuote), theme, width)->0 == n2);
    lemma_quote_marks(start_step(n2, MdTag::Paragraph, theme)->0.spans, (d + 2) as nat, theme);
}

/// The mathematical value of a rendered document.
pub struct ResultView {
    pub lines: Seq<Seq<SpanView>>,
    pub links: Seq<LinkView>,
    pub code_blocks: Seq<CodeBlockRange>,
    pub requests: Seq<RequestView>,
    pub word_count: nat,
}

/// The rendered document: the state after all events, with the last line flushed.
pub open spec fn render_spec(events: Seq<MdEvent>, theme: Theme, width: u16) -> Option<ResultView> {
    match run(events, theme, width) {
        None => None,
        Some(m) => Some(ResultView {
            lines: flush(m).lines,
            links: m.links,
            code_blocks: m.code_blocks,
            requests: m.requests,
            word_count: m.word_count,
        }),
    }
}

} // verus!

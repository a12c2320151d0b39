//! Rendering of Markdown tables as box-drawn text.
use vstd::prelude::*;
use vstd::utf8::*;
use vstd::string::StringSliceAdditionalSpecFns;
use crate::style::{Line, Span, SpanView, Style, plain_style, sv, spans_view, line_text, lemma_spans_push, lines_view, lemma_lines_push};
use crate::text::{byte_len, repeat_seq, utf8_len, to_owned_string, repeat_str, push_str, push_char};

verus! {

broadcast use vstd::utf8::encode_utf8_valid_utf8, vstd::utf8::encode_utf8_decode_utf8;

/// Horizontal alignment of a table column.
#[derive(Clone, Copy, Debug, PartialEq, Eq, Structural)]
pub enum CellAlignment {
    Unspecified,
    Left,
    Center,
    Right,
}

/// `n` spaces.
pub open spec fn spaces(n: nat) -> Seq<char> {
    repeat_seq(seq![' '], n)
}

/// The characters whose UTF-8 encoding is the first `w` bytes of that of `s`.
pub open spec fn byte_prefix(s: Seq<char>, w: nat) -> Seq<char> {
    decode_utf8(encode_utf8(s).take(w as int))
}

/// Cutting `s` to `w` bytes keeps whole characters (or leaves `s` whole).
pub open spec fn cut_ok(s: Seq<char>, w: nat) -> bool {
    byte_len(s) >= w ==> is_char_boundary(encode_utf8(s), w as int)
}

/// A cell's text fitted to `width` bytes: cut when too long, else padded
/// on the side that the alignment leaves free.
pub open spec fn padded(text: Seq<char>, width: nat, align: CellAlignment) -> Seq<char> {
    let len = byte_len(text);
    if len >= width {
        byte_prefix(text, width)
    } else {
        let p = (width - len) as nat;
        match align {
            CellAlignment::Right => spaces(p) + text,
            CellAlignment::Center => spaces(p / 2) + text + spaces((p - p / 2) as nat),
            _ => text + spaces(p),
        }
    }
}

/// Fits a cell's text to `width` bytes.
pub fn pad_cell(text: &str, width: usize, alignment: CellAlignment) -> (r: String)
    requires
        cut_ok(text@, width as nat),
    ensures
        r@ == padded(text@, width as nat, alignment),
{
    let len = utf8_len(text);
    if len >= width {
        let (a, _b) = text.split_at(width);
        proof {
            assert(a.spec_bytes() == encode_utf8(a@));
            assert(decode_utf8(encode_utf8(a@)) == a@);
        }
        return to_owned_string(a);
    }
    let p = width - len;
    proof { reveal_strlit(" "); assert(" "@ =~= seq![' ']); }
    match alignment {
        CellAlignment::Right => {
            let mut r = repeat_str(" ", p);
            push_str(&mut r, text);
            r
        },
        CellAlignment::Center => {
            let left = p / 2;
            let right = p - left;
            let mut r = repeat_str(" ", left);
            push_str(&mut r, text);
            let pad = repeat_str(" ", right);
            push_str(&mut r, pad.as_str());
            r
        },
        _ => {
            let mut r = to_owned_string(text);
            let pad = repeat_str(" ", p);
            push_str(&mut r, pad.as_str());
            r
        },
    }
}

/// The inside of a border line for the first `k` columns: `w + 2`
/// horizontal bars per column, joined by `mid`.
pub open spec fn border_body(ws: Seq<usize>, k: nat, mid: char) -> Seq<char>
    decreases k,
{
    if k == 0 {
        Seq::empty()
    } else {
        let i = (k - 1) as int;
        border_body(ws, (k - 1) as nat, mid) + repeat_seq(seq!['─'], (ws[i] + 2) as nat)
            + if i < ws.len() - 1 { seq![mid] } else { Seq::empty() }
    }
}

/// A border line of a table with the given column widths.
pub open spec fn border_line(ws: Seq<usize>, left: char, mid: char, right: char) -> Seq<char> {
    seq![left] + border_body(ws, ws.len(), mid) + seq![right]
}

/// No column is so wide that its border would overflow.
pub open spec fn widths_bounded(ws: Seq<usize>) -> bool {
    forall|i: int| 0 <= i < ws.len() ==> #[trigger] ws[i] + 2 <= usize::MAX
}

/// A border line of a table: `left`, the bars of each column joined by `mid`, `right`.
pub fn build_table_border(col_widths: &[usize], left: char, mid: char, right: char) -> (s: String)
    requires
        widths_bounded(col_widths@),
    ensures
        s@ == border_line(col_widths@, left, mid, right),
{
    let mut s = String::new();
    push_char(&mut s, left);
    let n = col_widths.len();
    let mut i: usize = 0;
    proof { reveal_strlit("─"); }
    while i < n
        invariant
            n == col_widths@.len(),
            i <= n,
            widths_bounded(col_widths@),
            s@ == seq![left] + border_body(col_widths@, i as nat, mid),
        decreases n - i,
    {
        proof { reveal_strlit("─"); assert("─"@ =~= seq!['─']); }
        let w = col_widths[i];
        let bars = repeat_str("─", w + 2);
        push_str(&mut s, bars.as_str());
        if i < n - 1 {
            push_char(&mut s, mid);
        }
        i = i + 1;
        assert(s@ =~= seq![left] + border_body(col_widths@, i as nat, mid));
    }
    push_char(&mut s, right);
    s
}

/// The text of the `i`-th cell, empty when the row has fewer cells.
pub open spec fn cell_text(cells: Seq<Seq<SpanView>>, i: int) -> Seq<char> {
    if i < cells.len() { line_text(cells[i]) } else { Seq::empty() }
}

/// The alignment of column `i`, `Unspecified` when none is given.
pub open spec fn align_of(aligns: Seq<CellAlignment>, i: int) -> CellAlignment {
    if i < aligns.len() { aligns[i] } else { CellAlignment::Unspecified }
}

/// The style of a row's cells.
pub open spec fn row_style(is_header: bool) -> Style {
    if is_header { Style { bold: true, ..plain_style() } } else { plain_style() }
}

/// The spans of a table row for its first `k` columns, after the leading bar.
pub open spec fn row_body(cells: Seq<Seq<SpanView>>, ws: Seq<usize>, aligns: Seq<CellAlignment>,
    is_header: bool, k: nat) -> Seq<SpanView>
    decreases k,
{
    if k == 0 {
        Seq::empty()
    } else {
        let i = (k - 1) as int;
        row_body(cells, ws, aligns, is_header, (k - 1) as nat)
            .push(sv(seq![' '] + padded(cell_text(cells, i), ws[i] as nat, align_of(aligns, i)) + seq![' '],
                row_style(is_header)))
            .push(sv(seq!['│'], plain_style()))
    }
}

/// A table row: a bar, then each padded cell followed by a bar.
pub open spec fn row_line(cells: Seq<Seq<SpanView>>, ws: Seq<usize>, aligns: Seq<CellAlignment>,
    is_header: bool) -> Seq<SpanView> {
    seq![sv(seq!['│'], plain_style())] + row_body(cells, ws, aligns, is_header, ws.len())
}

/// Every cell of the row can be cut to its column's width.
pub open spec fn row_cuts_ok(cells: Seq<Seq<SpanView>>, ws: Seq<usize>) -> bool {
    forall|i: int| 0 <= i < ws.len() ==> #[trigger] cut_ok(cell_text(cells, i), ws[i] as nat)
}

/// The concatenated text of some spans.
pub fn concat_text(spans: &Vec<Span>) -> (s: String)
    ensures
        s@ == line_text(spans_view(spans@)),
{
    let mut s = String::new();
    let mut i: usize = 0;
    while i < spans.len()
        invariant
            i <= spans@.len(),
            s@ == line_text(spans_view(spans@.take(i as int))),
        decreases spans@.len() - i,
    {
        assert(spans_view(spans@.take(i + 1)).drop_last() =~= spans_view(spans@.take(i as int)));
        push_str(&mut s, spans[i].content.as_str());
        i = i + 1;
    }
    assert(spans@.take(i as int) =~= spans@);
    s
}

/// The values of some cells.
pub open spec fn cells_view(v: Seq<Vec<Span>>) -> Seq<Seq<SpanView>> {
    v.map_values(|c: Vec<Span>| spans_view(c@))
}

/// The values of some rows.
pub open spec fn rows_view(v: Seq<Vec<Vec<Span>>>) -> Seq<Seq<Seq<SpanView>>> {
    v.map_values(|r: Vec<Vec<Span>>| cells_view(r@))
}

/// A table row drawn with the given column widths and alignments.
pub fn build_table_row(cells: &[Vec<Span>], col_widths: &[usize], alignments: &[CellAlignment],
    is_header: bool) -> (l: Line)
    requires
        row_cuts_ok(cells_view(cells@), col_widths@),
    ensures
        l@ == row_line(cells_view(cells@), col_widths@,
            alignments@, is_header),
{
    let ghost cv = cells_view(cells@);
    let mut spans: Vec<Span> = Vec::new();
    proof { reveal_strlit("│"); assert("│"@ =~= seq!['│']); }
    spans.push(Span::raw(to_owned_string("│")));
    assert(spans_view(spans@) =~= seq![sv(seq!['│'], plain_style())]);
    let n = col_widths.len();
    let mut i: usize = 0;
    while i < n
        invariant
            n == col_widths@.len(),
            i <= n,
            cv == cells_view(cells@),
            row_cuts_ok(cv, col_widths@),
            spans_view(spans@) == seq![sv(seq!['│'], plain_style())]
                + row_body(cv, col_widths@, alignments@, is_header, i as nat),
        decreases n - i,
    {
        proof {
            reveal_strlit("│"); assert("│"@ =~= seq!['│']);
            reveal_strlit(" "); assert(" "@ =~= seq![' ']);
        }
        let text = if i < cells.len() {
            concat_text(&cells[i])
        } else {
            String::new()
        };
        assert(text@ == cell_text(cv, i as int));
        let alignment = if i < alignments.len() { alignments[i] } else { CellAlignment::Unspecified };
        assert(cut_ok(cell_text(cv, i as int), col_widths@[i as int] as nat));
        let padded_text = pad_cell(text.as_str(), col_widths[i], alignment);
        let style = if is_header { Style::plain().add_bold() } else { Style::plain() };
        let mut content = to_owned_string(" ");
        push_str(&mut content, padded_text.as_str());
        push_str(&mut content, " ");
        let ghost before = spans@;
        spans.push(Span::styled(content, style));
        spans.push(Span::raw(to_owned_string("│")));
        i = i + 1;
        proof {
            lemma_spans_push(before, spans@[before.len() as int]);
            lemma_spans_push(before.push(spans@[before.len() as int]), spans@[before.len() + 1int]);
            assert(spans@ =~= before.push(spans@[before.len() as int]).push(spans@[before.len() + 1int]));
            assert(spans_view(spans@) =~= seq![sv(seq!['│'], plain_style())]
                + row_body(cv, col_widths@, alignments@, is_header, i as nat));
        }
    }
    Line::from_spans(spans)
}

} // verus!

verus! {

/// A table while it is being read: finished header and rows, the row and
/// cell being read, and the column alignments.
pub struct TableState {
    pub headers: Vec<Vec<Span>>,
    pub rows: Vec<Vec<Vec<Span>>>,
    pub alignments: Vec<CellAlignment>,
    pub current_row: Vec<Vec<Span>>,
    pub current_cell: Vec<Span>,
    pub in_header: bool,
}

/// The mathematical value of a [`TableState`].
#[verifier::ext_equal]
pub struct TableModel {
    pub headers: Seq<Seq<SpanView>>,
    pub rows: Seq<Seq<Seq<SpanView>>>,
    pub alignments: Seq<CellAlignment>,
    pub current_row: Seq<Seq<SpanView>>,
    pub current_cell: Seq<SpanView>,
    pub in_header: bool,
}

impl View for TableState {
    type V = TableModel;

    open spec fn view(&self) -> TableModel {
        TableModel {
            headers: cells_view(self.headers@),
            rows: rows_view(self.rows@),
            alignments: self.alignments@,
            current_row: cells_view(self.current_row@),
            current_cell: spans_view(self.current_cell@),
            in_header: self.in_header,
        }
    }
}

/// Width of a cell: the byte length of its text.
pub open spec fn cell_w(c: Seq<SpanView>) -> nat {
    byte_len(line_text(c))
}

/// Width of column `i` over the header and the first `k` rows: the widest of those cells.
pub open spec fn col_width(t: TableModel, i: int, k: nat) -> nat
    decreases k,
{
    if k == 0 {
        cell_w(t.headers[i])
    } else {
        let r = t.rows[k - 1];
        let prev = col_width(t, i, (k - 1) as nat);
        let w = if i < r.len() { cell_w(r[i]) } else { 0 };
        if w > prev { w } else { prev }
    }
}

/// The natural width of each column.
pub open spec fn raw_widths(t: TableModel) -> Seq<nat> {
    Seq::new(t.headers.len(), |i: int| col_width(t, i, t.rows.len()))
}

/// The sum of the numbers.
pub open spec fn sum_nat(s: Seq<nat>) -> nat
    decreases s.len(),
{
    if s.len() == 0 { 0 } else { sum_nat(s.drop_last()) + s.last() }
}

/// The table, borders included, is wider than a terminal of `width` columns
/// (a width of 0 means unknown), and has some content to shrink.
pub open spec fn scaling(t: TableModel, width: u16) -> bool {
    let n = t.headers.len();
    let sum = sum_nat(raw_widths(t));
    sum + n + 1 > width && width > 0 && sum > 0
}

/// The room left for cell contents once the borders are drawn.
pub open spec fn avail(t: TableModel, width: u16) -> nat {
    let n = t.headers.len();
    if width >= n + 1 { (width - (n + 1)) as nat } else { 0 }
}

/// Column widths after shrinking: proportional to the natural widths, at least 1.
pub open spec fn final_widths(t: TableModel, width: u16) -> Seq<nat> {
    let raw = raw_widths(t);
    if scaling(t, width) {
        Seq::new(raw.len(), |i: int| {
            let w = raw[i] * avail(t, width) / sum_nat(raw);
            if w == 0 { 1 } else { w }
        })
    } else {
        raw
    }
}

/// The final widths as machine integers.
pub open spec fn widths_usize(t: TableModel, width: u16) -> Seq<usize> {
    final_widths(t, width).map_values(|w: nat| w as usize)
}

/// Rendering the table overflows an integer or cuts a cell inside a character.
pub open spec fn table_fails(t: TableModel, width: u16) -> bool {
    let n = t.headers.len();
    let raw = raw_widths(t);
    let ws = widths_usize(t, width);
    n > 0 && (
        sum_nat(raw) + n + 1 > usize::MAX
        || (scaling(t, width) && exists|i: int| 0 <= i < n && #[trigger] raw[i] * avail(t, width) > usize::MAX)
        || (exists|i: int| 0 <= i < n && #[trigger] final_widths(t, width)[i] + 2 > usize::MAX)
        || !row_cuts_ok(t.headers, ws)
        || (exists|r: int| 0 <= r < t.rows.len() && !row_cuts_ok(#[trigger] t.rows[r], ws))
    )
}

/// A line holding one plain span.
pub open spec fn plain_line(text: Seq<char>) -> Seq<SpanView> {
    seq![sv(text, plain_style())]
}

/// The lines of the data rows.
pub open spec fn body_lines(t: TableModel, ws: Seq<usize>) -> Seq<Seq<SpanView>> {
    Seq::new(t.rows.len(), |r: int| row_line(t.rows[r], ws, t.alignments, false))
}

/// The lines that draw the table: top border, header, separator, rows, bottom border.
pub open spec fn table_lines(t: TableModel, width: u16) -> Seq<Seq<SpanView>> {
    let ws = widths_usize(t, width);
    if t.headers.len() == 0 {
        Seq::empty()
    } else {
        seq![
            plain_line(border_line(ws, '┌', '┬', '┐')),
            row_line(t.headers, ws, t.alignments, true),
            plain_line(border_line(ws, '├', '┼', '┤')),
        ] + body_lines(t, ws) + seq![plain_line(border_line(ws, '└', '┴', '┘'))]
    }
}

proof fn lemma_sum_prefix(s: Seq<nat>, k: int)
    requires
        0 <= k <= s.len(),
    ensures
        sum_nat(s.take(k)) <= sum_nat(s),
    decreases s.len() - k,
{
    if k < s.len() {
        assert(s.take(k + 1).drop_last() =~= s.take(k));
        lemma_sum_prefix(s, k + 1);
    } else {
        assert(s.take(k) =~= s);
    }
}

/// The width of a cell.
pub fn cell_width(c: &Vec<Span>) -> (w: usize)
    ensures
        w as nat == cell_w(spans_view(c@)),
{
    let t = concat_text(c);
    utf8_len(t.as_str())
}

/// The natural width of each column.
fn compute_raw_widths(ts: &TableState) -> (ws: Vec<usize>)
    ensures
        ws@.len() == ts@.headers.len(),
        forall|i: int| 0 <= i < ws@.len() ==> ws@[i] as nat == #[trigger] raw_widths(ts@)[i],
{
    let ghost t = ts@;
    let n = ts.headers.len();
    let mut ws: Vec<usize> = Vec::new();
    let mut i: usize = 0;
    while i < n
        invariant
            t == ts@,
            n == t.headers.len(),
            i <= n,
            ws@.len() == i,
            forall|j: int| 0 <= j < i ==> ws@[j] as nat == #[trigger] col_width(t, j, 0),
        decreases n - i,
    {
        let w = cell_width(&ts.headers[i]);
        ws.push(w);
        i = i + 1;
    }
    let nrows = ts.rows.len();
    let mut r: usize = 0;
    while r < nrows
        invariant
            t == ts@,
            n == t.headers.len(),
            nrows == t.rows.len(),
            r <= nrows,
            ws@.len() == n,
            forall|j: int| 0 <= j < n ==> ws@[j] as nat == #[trigger] col_width(t, j, r as nat),
        decreases nrows - r,
    {
        let row = &ts.rows[r];
        assert(t.rows[r as int] == cells_view(row@));
        let m = if row.len() < n { row.len() } else { n };
        let mut j: usize = 0;
        while j < m
            invariant
                t == ts@,
                n == t.headers.len(),
                nrows == t.rows.len(),
                r < nrows,
                t.rows[r as int] == cells_view(row@),
                m <= n,
                m <= row@.len(),
                j <= m,
                ws@.len() == n,
                forall|k: int| 0 <= k < j ==> ws@[k] as nat == #[trigger] col_width(t, k, (r + 1) as nat),
                forall|k: int| j <= k < n ==> ws@[k] as nat == #[trigger] col_width(t, k, r as nat),
            decreases m - j,
        {
            let w = cell_width(&row[j]);
            assert(cells_view(row@)[j as int] == spans_view(row@[j as int]@));
            let ghost old_ws = ws@;
            assert(old_ws[j as int] as nat == col_width(t, j as int, r as nat));
            assert(t.rows[r as int].len() == row@.len());
            assert(t.rows[r as int][j as int] == spans_view(row@[j as int]@));
            assert(col_width(t, j as int, (r + 1) as nat) == (if w > old_ws[j as int] { w as nat } else { old_ws[j as int] as nat }));
            if w > ws[j] {
                ws.set(j, w);
            }
            assert(ws@[j as int] as nat == col_width(t, j as int, (r + 1) as nat));
            j = j + 1;
        }
        assert forall|k: int| m <= k < n implies ws@[k] as nat == #[trigger] col_width(t, k, (r + 1) as nat) by {
            assert(col_width(t, k, (r + 1) as nat) == col_width(t, k, r as nat));
        }
        r = r + 1;
    }
    ws
}

/// The lines that draw a table; `None` where drawing it would overflow an
/// integer or cut a cell inside a character.
pub fn render_table(ts: &TableState, terminal_width: u16) -> (r: Option<Vec<Line>>)
    ensures
        r is None <==> table_fails(ts@, terminal_width),
        r matches Some(v) ==> lines_view(v@) == table_lines(ts@, terminal_width),
{
    let ghost t = ts@;
    let n = ts.headers.len();
    if n == 0 {
        let v: Vec<Line> = Vec::new();
        assert(lines_view(v@) =~= table_lines(t, terminal_width));
        return Some(v);
    }
    let raw = compute_raw_widths(ts);
    let ghost rawv = raw_widths(t);
    // Sum of the natural widths.
    let mut sum: usize = 0;
    let mut i: usize = 0;
    while i < n
        invariant
            t == ts@,
            n == t.headers.len(),
            rawv == raw_widths(t),
            n == raw@.len() == rawv.len(),
            i <= n,
            forall|j: int| 0 <= j < n ==> raw@[j] as nat == #[trigger] rawv[j],
            sum as nat == sum_nat(rawv.take(i as int)),
        decreases n - i,
    {
        assert(rawv.take(i + 1).drop_last() =~= rawv.take(i as int));
        match sum.checked_add(raw[i]) {
            Some(x) => { sum = x; },
            None => {
                proof { lemma_sum_prefix(rawv, i + 1); }
                return None;
            },
        }
        i = i + 1;
    }
    assert(rawv.take(n as int) =~= rawv);
    let total = match sum.checked_add(n) {
        Some(x) => match x.checked_add(1) {
            Some(y) => y,
            None => { return None; },
        },
        None => { return None; },
    };
    let width = terminal_width as usize;
    let mut ws: Vec<usize> = Vec::new();
    if total > width && terminal_width > 0 && sum > 0 {
        let available = width.saturating_sub(n + 1);
        assert(available as nat == avail(t, terminal_width));
        let mut k: usize = 0;
        while k < n
            invariant
                t == ts@,
                n == t.headers.len(),
                n == raw@.len() == rawv.len(),
                k <= n,
                forall|j: int| 0 <= j < n ==> raw@[j] as nat == #[trigger] rawv[j],
                sum as nat == sum_nat(rawv),
                sum > 0,
                scaling(t, terminal_width),
                rawv == raw_widths(t),
                available as nat == avail(t, terminal_width),
                ws@.len() == k,
                forall|j: int| 0 <= j < k ==> ws@[j] as nat == #[trigger] final_widths(t, terminal_width)[j],
                forall|j: int| 0 <= j < k ==> rawv[j] * avail(t, terminal_width) <= usize::MAX,
            decreases n - k,
        {
            match raw[k].checked_mul(available) {
                Some(p) => {
                    let w = p / sum;
                    ws.push(if w == 0 { 1 } else { w });
                },
                None => {
                    assert(rawv[k as int] * avail(t, terminal_width) > usize::MAX);
                    return None;
                },
            }
            k = k + 1;
        }
    } else {
        assert(!scaling(t, terminal_width));
        ws = raw;
    }
    let ghost fw = final_widths(t, terminal_width);
    assert(fw.len() == n);
    assert(forall|j: int| 0 <= j < n ==> ws@[j] as nat == #[trigger] fw[j]);
    assert(!(scaling(t, terminal_width) && exists|i: int| 0 <= i < n
        && #[trigger] rawv[i] * avail(t, terminal_width) > usize::MAX));
    assert(ws@ =~= widths_usize(t, terminal_width));
    // Every border must fit.
    let mut k: usize = 0;
    while k < n
        invariant
            t == ts@,
            n == t.headers.len(),
            fw == final_widths(t, terminal_width),
            fw.len() == n,
            forall|j: int| 0 <= j < n ==> ws@[j] as nat == #[trigger] fw[j],
            n == ws@.len(),
            k <= n,
            forall|j: int| 0 <= j < k ==> #[trigger] ws@[j] + 2 <= usize::MAX,
        decreases n - k,
    {
        if ws[k] > usize::MAX - 2 {
            assert(fw[k as int] + 2 > usize::MAX);
            return None;
        }
        k = k + 1;
    }
    assert(widths_bounded(ws@));
    // Every cell must be cut on a character boundary.
    if !row_cuts_fine(&ts.headers, &ws) {
        return None;
    }
    let nrows = ts.rows.len();
    let mut r: usize = 0;
    while r < nrows
        invariant
            t == ts@,
            nrows == t.rows.len(),
            ws@ == widths_usize(t, terminal_width),
            r <= nrows,
            forall|q: int| 0 <= q < r ==> row_cuts_ok(#[trigger] t.rows[q], ws@),
        decreases nrows - r,
    {
        assert(t.rows[r as int] == cells_view(ts.rows@[r as int]@));
        if !row_cuts_fine(&ts.rows[r], &ws) {
            return None;
        }
        r = r + 1;
    }
    assert(!table_fails(t, terminal_width));
    let mut lines: Vec<Line> = Vec::new();
    let top = build_table_border(ws.as_slice(), '┌', '┬', '┐');
    lines.push(Line::from_span(Span::raw(top)));
    lines.push(build_table_row(ts.headers.as_slice(), ws.as_slice(), ts.alignments.as_slice(), true));
    let sep = build_table_border(ws.as_slice(), '├', '┼', '┤');
    lines.push(Line::from_span(Span::raw(sep)));
    let ghost head = lines@;
    let mut r: usize = 0;
    while r < nrows
        invariant
            t == ts@,
            nrows == t.rows.len(),
            ws@ == widths_usize(t, terminal_width),
            widths_bounded(ws@),
            forall|q: int| 0 <= q < nrows ==> row_cuts_ok(#[trigger] t.rows[q], ws@),
            r <= nrows,
            lines_view(lines@) == lines_view(head) + body_lines(t, ws@).take(r as int),
        decreases nrows - r,
    {
        assert(t.rows[r as int] == cells_view(ts.rows@[r as int]@));
        let row_line_v = build_table_row(ts.rows[r].as_slice(), ws.as_slice(), ts.alignments.as_slice(), false);
        let ghost before = lines@;
        lines.push(row_line_v);
        proof {
            lemma_lines_push(before, row_line_v);
            assert(body_lines(t, ws@).take(r + 1) =~= body_lines(t, ws@).take(r as int).push(row_line_v@));
        }
        r = r + 1;
    }
    let bottom = build_table_border(ws.as_slice(), '└', '┴', '┘');
    let ghost before = lines@;
    let last = Line::from_span(Span::raw(bottom));
    lines.push(last);
    proof {
        lemma_lines_push(before, last);
        assert(body_lines(t, ws@).take(nrows as int) =~= body_lines(t, ws@));
        assert(lines_view(head) =~= seq![
            plain_line(border_line(ws@, '┌', '┬', '┐')),
            row_line(t.headers, ws@, t.alignments, true),
            plain_line(border_line(ws@, '├', '┼', '┤')),
        ]);
        assert(lines_view(lines@) =~= table_lines(t, terminal_width));
    }
    Some(lines)
}

/// Whether every cell of a row can be cut to its column's width.
fn row_cuts_fine(cells: &Vec<Vec<Span>>, ws: &Vec<usize>) -> (b: bool)
    ensures
        b == row_cuts_ok(cells_view(cells@), ws@),
{
    let ghost cv = cells_view(cells@);
    let n = ws.len();
    let mut i: usize = 0;
    while i < n
        invariant
            n == ws@.len(),
            i <= n,
            cv == cells_view(cells@),
            forall|j: int| 0 <= j < i ==> #[trigger] cut_ok(cell_text(cv, j), ws@[j] as nat),
        decreases n - i,
    {
        let text = if i < cells.len() { concat_text(&cells[i]) } else { String::new() };
        assert(text@ == cell_text(cv, i as int));
        let len = utf8_len(text.as_str());
        if len >= ws[i] && !text.as_str().is_char_boundary(ws[i]) {
            assert(!cut_ok(cell_text(cv, i as int), ws@[i as int] as nat));
            return false;
        }
        i = i + 1;
    }
    true
}


/// A table with columns is drawn on four lines more than it has data rows:
/// the top border, the header, the separator and the bottom border.
pub proof fn lemma_table_line_count(t: TableModel, width: u16)
    requires
        t.headers.len() > 0,
    ensures
        table_lines(t, width).len() == t.rows.len() + 4,
{
}

/// The spans of a row hold, for each column, the cell's span and then a bar.
proof fn lemma_row_body_cell(cells: Seq<Seq<SpanView>>, ws: Seq<usize>, aligns: Seq<CellAlignment>,
    is_header: bool, k: nat, j: int)
    requires
        0 <= j < k,
    ensures
        row_body(cells, ws, aligns, is_header, k).len() == 2 * k,
        row_body(cells, ws, aligns, is_header, k)[2 * j] == sv(
            seq![' '] + padded(cell_text(cells, j), ws[j] as nat, align_of(aligns, j)) + seq![' '],
            row_style(is_header)),
    decreases k,
{
    lemma_row_body_len(cells, ws, aligns, is_header, (k - 1) as nat);
    if j < k - 1 {
        lemma_row_body_cell(cells, ws, aligns, is_header, (k - 1) as nat, j);
    }
}

proof fn lemma_row_body_len(cells: Seq<Seq<SpanView>>, ws: Seq<usize>, aligns: Seq<CellAlignment>,
    is_header: bool, k: nat)
    ensures
        row_body(cells, ws, aligns, is_header, k).len() == 2 * k,
    decreases k,
{
    if k > 0 {
        lemma_row_body_len(cells, ws, aligns, is_header, (k - 1) as nat);
    }
}

/// Every cell of a drawn table, in the header row and in every data row alike,
/// is padded as its column's alignment asks: a cell whose text is narrower than
/// the column's width `w` shows, between one space on each side, the text after
/// `w - len` spaces in a right-aligned column, with the spaces split (the
/// smaller half first) in a centered one, and before them otherwise.
/// Row `r` is the header (line 1) for `r == -1`, and data row `r` (line
/// `3 + r`, after the top border, the header and the separator) from 0 on.
pub proof fn lemma_table_cells_aligned(t: TableModel, width: u16, r: int, i: int)
    requires
        t.headers.len() > 0,
        -1 <= r < t.rows.len(),
        0 <= i < t.headers.len(),
    ensures
        ({
            let ws = widths_usize(t, width);
            let cells = if r < 0 { t.headers } else { t.rows[r] };
            let text = if i < cells.len() { line_text(cells[i]) } else { Seq::<char>::empty() };
            let w = ws[i] as nat;
            let len = byte_len(text);
            let p = (w - len) as nat;
            let shown = table_lines(t, width)[if r < 0 { 1 } else { 3 + r }][1 + 2 * i].text;
            len < w ==> {
                &&& (i < t.alignments.len() && t.alignments[i] == CellAlignment::Right
                    ==> shown == seq![' '] + spaces(p) + text + seq![' '])
                &&& (i < t.alignments.len() && t.alignments[i] == CellAlignment::Center
                    ==> shown == seq![' '] + spaces(p / 2) + text + spaces((p - p / 2) as nat) + seq![' '])
                &&& (!(i < t.alignments.len() && (t.alignments[i] == CellAlignment::Right
                        || t.alignments[i] == CellAlignment::Center))
                    ==> shown == seq![' '] + text + spaces(p) + seq![' '])
            }
        }),
{
    let ws = widths_usize(t, width);
    assert(ws.len() == t.headers.len());
    let cells = if r < 0 { t.headers } else { t.rows[r] };
    let lines = table_lines(t, width);
    if r >= 0 {
        assert(body_lines(t, ws)[r] == row_line(t.rows[r], ws, t.alignments, false));
        let pre = seq![
            plain_line(border_line(ws, '┌', '┬', '┐')),
            row_line(t.headers, ws, t.alignments, true),
            plain_line(border_line(ws, '├', '┼', '┤')),
        ];
        let body = body_lines(t, ws);
        assert(lines == pre + body + seq![plain_line(border_line(ws, '└', '┴', '┘'))]);
        assert((pre + body)[3 + r] == body[r]);
    }
    assert(lines[if r < 0 { 1 } else { 3 + r }] == row_line(cells, ws, t.alignments, r < 0));
    lemma_row_body_cell(cells, ws, t.alignments, r < 0, ws.len(), i);
    let text = cell_text(cells, i);
    let w = ws[i] as nat;
    let p = (w - byte_len(text)) as nat;
    assert(seq![' '] + (spaces(p) + text) + seq![' '] =~= seq![' '] + spaces(p) + text + seq![' ']);
    assert(seq![' '] + (spaces(p / 2) + text + spaces((p - p / 2) as nat)) + seq![' ']
        =~= seq![' '] + spaces(p / 2) + text + spaces((p - p / 2) as nat) + seq![' ']);
    assert(seq![' '] + (text + spaces(p)) + seq![' '] =~= seq![' '] + text + spaces(p) + seq![' ']);
}

} // verus!

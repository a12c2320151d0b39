//! Syntax highlighting of code blocks, framed like their placeholders.
use vstd::prelude::*;
use crate::style::{Color, Style, Span, SpanView, Line, plain_style, sv, spans_view, lines_view, lemma_spans_push_auto, lemma_lines_push_auto, line_text, lemma_line_text_add, lemma_line_text_push};
use crate::text::{byte_len, repeat_seq, push_str, to_owned_string, repeat_str, utf8_len, split_lines, lemma_byte_len_add};
use crate::markdown::table::spaces;
use crate::markdown::model::{code_rows, code_line, code_block_lines, frame_edge};
use crate::theme::Theme;

verus! {

broadcast use lemma_spans_push_auto, lemma_lines_push_auto;

/// A highlighted piece of a code line and its foreground color.
#[derive(Clone, Debug)]
pub struct Region {
    pub r: u8,
    pub g: u8,
    pub b: u8,
    pub text: String,
}

/// The mathematical value of a [`Region`].
pub struct RegionView {
    pub r: u8,
    pub g: u8,
    pub b: u8,
    pub text: Seq<char>,
}

impl View for Region {
    type V = RegionView;

    open spec fn view(&self) -> RegionView {
        RegionView { r: self.r, g: self.g, b: self.b, text: self.text@ }
    }
}

/// The regions as values.
pub open spec fn regions_view(v: Seq<Region>) -> Seq<RegionView> {
    v.map_values(|x: Region| x@)
}

/// The joined text of some regions.
pub open spec fn regions_text(rs: Seq<RegionView>) -> Seq<char>
    decreases rs.len(),
{
    if rs.len() == 0 { Seq::empty() } else { regions_text(rs.drop_last()) + rs.last().text }
}

/// The sum of the byte lengths of the regions' texts.
pub open spec fn regions_len(rs: Seq<RegionView>) -> nat
    decreases rs.len(),
{
    if rs.len() == 0 { 0 } else { regions_len(rs.drop_last()) + byte_len(rs.last().text) }
}

/// A highlighted code block to put in place of its placeholder.
pub struct HighlightResult {
    pub block_id: usize,
    pub lines: Vec<Line>,
}

/// The style of a code block's frame.
pub open spec fn edge_style(bg: Color, border: Color) -> Style {
    Style { fg: Some(border), bg: Some(bg), ..plain_style() }
}

/// The spans of the regions, in their colors on the code background.
pub open spec fn region_spans(rs: Seq<RegionView>, bg: Color) -> Seq<SpanView> {
    rs.map_values(|x: RegionView| sv(x.text, Style { fg: Some(Color::Rgb(x.r, x.g, x.b)), bg: Some(bg), ..plain_style() }))
}

/// A highlighted line in its frame, padded to the inner width when shorter.
pub open spec fn highlighted_row(rs: Seq<RegionView>, inner: nat, bg: Color, border: Color) -> Seq<SpanView> {
    let len = regions_len(rs);
    seq![sv(seq!['│', ' '], edge_style(bg, border))]
        + region_spans(rs, bg)
        + (if len < inner { seq![sv(spaces((inner - len) as nat), Style { bg: Some(bg), ..plain_style() })] } else { Seq::empty() })
        + seq![sv(seq![' ', '│'], edge_style(bg, border))]
}

/// A frame edge: `left`, `bw` bars, `right`.
pub open spec fn edge_line(left: char, bw: nat, right: char, bg: Color, border: Color) -> Seq<SpanView> {
    seq![sv(seq![left] + repeat_seq(seq!['─'], bw) + seq![right], edge_style(bg, border))]
}

/// The highlighted lines of a code block in their frame.
pub open spec fn highlighted_block(rows: Seq<Seq<RegionView>>, bw: nat, bg: Color, border: Color) -> Seq<Seq<SpanView>> {
    let inner = if bw >= 2 { (bw - 2) as nat } else { 0 };
    seq![edge_line('┌', bw, '┐', bg, border)]
        + Seq::new(rows.len(), |i: int| highlighted_row(rows[i], inner, bg, border))
        + seq![edge_line('└', bw, '┘', bg, border)]
}

/// The regions of each row fit in memory together.
pub open spec fn rows_bounded(rows: Seq<Seq<RegionView>>) -> bool {
    forall|i: int| 0 <= i < rows.len() ==> #[trigger] regions_len(rows[i]) <= usize::MAX
}

/// The highlighted rows as values.
pub open spec fn rows_view(v: Seq<Vec<Region>>) -> Seq<Seq<RegionView>> {
    v.map_values(|r: Vec<Region>| regions_view(r@))
}

/// One highlighted line in its frame.
fn highlighted_row_exec(rs: &Vec<Region>, inner: usize, bg: Color, border: Color) -> (line: Line)
    requires
        regions_len(regions_view(rs@)) <= usize::MAX,
    ensures
        line@ == highlighted_row(regions_view(rs@), inner as nat, bg, border),
{
    let ghost rv = regions_view(rs@);
    proof {
        reveal_strlit("│ "); assert("│ "@ =~= seq!['│', ' ']);
        reveal_strlit(" │"); assert(" │"@ =~= seq![' ', '│']);
    }
    let edge = Style::plain().fg(border).bg(bg);
    let mut spans: Vec<Span> = Vec::new();
    spans.push(Span::styled(to_owned_string("│ "), edge));
    let mut width: usize = 0;
    let mut i: usize = 0;
    while i < rs.len()
        invariant
            rv == regions_view(rs@),
            regions_len(rv) <= usize::MAX,
            edge == edge_style(bg, border),
            i <= rs@.len(),
            width as nat == regions_len(rv.take(i as int)),
            spans_view(spans@) == seq![sv(seq!['│', ' '], edge_style(bg, border))] + region_spans(rv.take(i as int), bg),
        decreases rs@.len() - i,
    {
        assert(rv.take(i + 1).drop_last() =~= rv.take(i as int));
        assert(rv[i as int] == rs@[i as int]@);
        proof { lemma_regions_len_prefix(rv, i + 1); }
        let reg = &rs[i];
        width = width + utf8_len(reg.text.as_str());
        let st = Style::plain().fg(Color::Rgb(reg.r, reg.g, reg.b)).bg(bg);
        spans.push(Span::styled(reg.text.clone(), st));
        i = i + 1;
        assert(spans_view(spans@) =~= seq![sv(seq!['│', ' '], edge_style(bg, border))] + region_spans(rv.take(i as int), bg));
    }
    assert(rv.take(i as int) =~= rv);
    if width < inner {
        proof { reveal_strlit(" "); assert(" "@ =~= seq![' ']); }
        spans.push(Span::styled(repeat_str(" ", inner - width), Style::plain().bg(bg)));
    }
    spans.push(Span::styled(to_owned_string(" │"), edge));
    let line = Line::from_spans(spans);
    assert(line@ =~= highlighted_row(rv, inner as nat, bg, border));
    line
}

proof fn lemma_regions_len_prefix(s: Seq<RegionView>, k: int)
    requires
        0 <= k <= s.len(),
    ensures
        regions_len(s.take(k)) <= regions_len(s),
    decreases s.len() - k,
{
    if k < s.len() {
        assert(s.take(k + 1).drop_last() =~= s.take(k));
        lemma_regions_len_prefix(s, k + 1);
    } else {
        assert(s.take(k) =~= s);
    }
}

/// The byte length of the joined text is the sum of the regions' lengths.
proof fn lemma_regions_len_text(rs: Seq<RegionView>)
    ensures
        regions_len(rs) == byte_len(regions_text(rs)),
    decreases rs.len(),
{
    if rs.len() > 0 {
        lemma_regions_len_text(rs.drop_last());
        lemma_byte_len_add(regions_text(rs.drop_last()), rs.last().text);
    } else {
        assert(encode_len_empty());
    }
}

spec fn encode_len_empty() -> bool {
    byte_len(Seq::<char>::empty()) == 0
}

/// A frame edge line.
fn edge_line_exec(left: &str, bw: usize, right: &str, bg: Color, border: Color) -> (line: Line)
    ensures
        left@.len() == 1 && right@.len() == 1 ==> line@ == edge_line(left@[0], bw as nat, right@[0], bg, border),
{
    proof { reveal_strlit("─"); assert("─"@ =~= seq!['─']); }
    let bars = repeat_str("─", bw);
    let mut text = to_owned_string(left);
    push_str(&mut text, bars.as_str());
    push_str(&mut text, right);
    let line = Line::from_span(Span::styled(text, Style::plain().fg(border).bg(bg)));
    proof {
        if left@.len() == 1 && right@.len() == 1 {
            assert(left@ =~= seq![left@[0]]);
            assert(right@ =~= seq![right@[0]]);
        }
    }
    line
}

/// Frames the highlighted rows of a code block: a top edge, each row between
/// side bars and padded to the inner width, a bottom edge.
pub fn frame_highlighted(rows: &Vec<Vec<Region>>, block_width: usize, bg: Color, border: Color) -> (v: Vec<Line>)
    requires
        rows_bounded(rows_view(rows@)),
    ensures
        lines_view(v@) == highlighted_block(rows_view(rows@), block_width as nat, bg, border),
{
    let ghost rv = rows_view(rows@);
    let inner = block_width.saturating_sub(2);
    let mut v: Vec<Line> = Vec::new();
    proof { reveal_strlit("┌"); reveal_strlit("┐"); reveal_strlit("└"); reveal_strlit("┘"); }
    v.push(edge_line_exec("┌", block_width, "┐", bg, border));
    let mut i: usize = 0;
    while i < rows.len()
        invariant
            rv == rows_view(rows@),
            rows_bounded(rv),
            inner as nat == (if block_width >= 2 { (block_width - 2) as nat } else { 0 }),
            i <= rows@.len(),
            lines_view(v@) == seq![edge_line('┌', block_width as nat, '┐', bg, border)]
                + Seq::new(i as nat, |k: int| highlighted_row(rv[k], inner as nat, bg, border)),
        decreases rows@.len() - i,
    {
        assert(rv[i as int] == regions_view(rows@[i as int]@));
        assert(regions_len(rv[i as int]) <= usize::MAX);
        let line = highlighted_row_exec(&rows[i], inner, bg, border);
        v.push(line);
        i = i + 1;
        assert(lines_view(v@) =~= seq![edge_line('┌', block_width as nat, '┐', bg, border)]
            + Seq::new(i as nat, |k: int| highlighted_row(rv[k], inner as nat, bg, border)));
    }
    v.push(edge_line_exec("└", block_width, "┘", bg, border));
    assert(lines_view(v@) =~= highlighted_block(rv, block_width as nat, bg, border));
    v
}

/// syntect's set of syntax definitions.
#[verifier::external_type_specification]
#[verifier::external_body]
pub struct ExSyntaxSet(syntect::parsing::SyntaxSet);

/// syntect's bundled themes.
#[verifier::external_type_specification]
#[verifier::external_body]
pub struct ExThemeSet(syntect::highlighting::ThemeSet);

/// syntect's line-by-line highlighting state.
#[verifier::external_type_specification]
#[verifier::external_body]
pub struct ExHighlightLines<'a>(syntect::easy::HighlightLines<'a>);

/// syntect's error.
#[verifier::external_type_specification]
#[verifier::external_body]
pub struct ExSyntectError(syntect::Error);

/// The names of the syntaxes a syntax set holds (the `name` of each of its syntaxes).
pub uninterp spec fn syntax_names(set: syntect::parsing::SyntaxSet) -> Set<Seq<char>>;

/// The bundled syntax definitions (`SyntaxSet::load_defaults_newlines`).
/// Trusted: the bundled set holds the plain text syntax, named `Plain Text`
/// (syntect's `find_syntax_plain_text` looks it up by that name and documents
/// that every set of its own holds it); which other syntaxes it holds is not
/// stated.
#[verifier::external_body]
fn load_syntax_set() -> (r: syntect::parsing::SyntaxSet)
    ensures
        syntax_names(r).contains("Plain Text"@),
{
    syntect::parsing::SyntaxSet::load_defaults_newlines()
}

/// The names of the themes a theme set holds (the keys of its `themes` map).
pub uninterp spec fn theme_names(set: syntect::highlighting::ThemeSet) -> Set<Seq<char>>;

/// The bundled themes (`ThemeSet::load_defaults`).
/// Trusted: syntect documents that the bundled set holds the themes
/// `base16-ocean.dark`, `base16-eighties.dark`, `base16-mocha.dark`,
/// `base16-ocean.light`, `InspiredGitHub`, `Solarized (dark)` and
/// `Solarized (light)`; which other themes it holds is not stated.
#[verifier::external_body]
fn load_theme_set() -> (r: syntect::highlighting::ThemeSet)
    ensures
        theme_names(r).contains("base16-ocean.dark"@),
        theme_names(r).contains("base16-eighties.dark"@),
        theme_names(r).contains("base16-mocha.dark"@),
        theme_names(r).contains("base16-ocean.light"@),
        theme_names(r).contains("InspiredGitHub"@),
        theme_names(r).contains("Solarized (dark)"@),
        theme_names(r).contains("Solarized (light)"@),
{
    syntect::highlighting::ThemeSet::load_defaults()
}

/// Whether the set has a theme of the given name (`themes.contains_key(name)`).
/// Trusted: the result is whether the name is a key of the set's map.
#[verifier::external_body]
fn has_theme(set: &syntect::highlighting::ThemeSet, name: &str) -> (r: bool)
    ensures
        r == theme_names(*set).contains(name@),
{
    set.themes.contains_key(name)
}

/// syntect's highlighting state for one code block, with what it was made
/// from: the language token whose syntax it uses (`None` for plain text),
/// the theme's name, and the lines given to it so far. Only `start_for_token`
/// and `start_plain` make one, from a `Highlighter`'s bundled sets, and
/// `next_row` records each line it gives to syntect.
struct SyntectLines<'a> {
    h: syntect::easy::HighlightLines<'a>,
    set: &'a syntect::parsing::SyntaxSet,
    syntax: Option<String>,
    theme: String,
    fed: Vec<String>,
}

/// What syntect's line-by-line highlighting (`HighlightLines::highlight_line`)
/// gives for `line`, after it was given the lines `before`, with the bundled
/// syntax set's syntax for the language token `syntax` (the plain text syntax
/// for `None`) and the bundled theme named `theme`: each token's foreground
/// color and text; `None` where syntect reports an error.
pub uninterp spec fn syntect_line(syntax: Option<Seq<char>>, theme: Seq<char>, before: Seq<Seq<char>>, line: Seq<char>) -> Option<Seq<RegionView>>;

/// The bundled syntax set has a syntax for the language token (by file
/// extension, else by name ignoring case), as `find_syntax_by_token` finds it.
pub uninterp spec fn token_has_syntax(token: Seq<char>) -> bool;

/// Starts highlighting with the syntax that `find_syntax_by_token` finds for
/// `token` in the highlighter's syntax set and its theme (`HighlightLines::new`);
/// `None` when no syntax is found or the theme is missing.
/// Trusted: the highlighter's syntax set is the bundled one (its fields are
/// private and only `Highlighter::new` sets them, from `load_syntax_set`), so
/// whether a syntax is found is `token_has_syntax`; a started state records
/// the token and the theme name, and has been given no line.
#[verifier::external_body]
fn start_for_token<'a>(hl: &'a Highlighter, token: &str) -> (r: Option<SyntectLines<'a>>)
    ensures
        r is Some <==> (token_has_syntax(token@) && theme_names(hl.theme_set).contains(hl.theme_name@)),
        r matches Some(l) ==> l.syntax matches Some(t) && t@ == token@,
        r matches Some(l) ==> l.theme@ == hl.theme_name@ && l.fed@.len() == 0,
{
    match (hl.syntax_set.find_syntax_by_token(token), hl.theme_set.themes.get(&hl.theme_name)) {
        (Some(syntax), Some(theme)) => Some(SyntectLines {
            h: syntect::easy::HighlightLines::new(syntax, theme),
            set: &hl.syntax_set,
            syntax: Some(token.to_string()),
            theme: hl.theme_name.clone(),
            fed: Vec::new(),
        }),
        _ => None,
    }
}

/// Starts highlighting with the plain text syntax (`find_syntax_plain_text`)
/// and the highlighter's theme (`HighlightLines::new`); `None` exactly when
/// the theme set has no theme of the highlighter's theme name.
/// Trusted: `find_syntax_plain_text` panics on a set without `Plain Text`,
/// which the `requires` leaves out.
#[verifier::external_body]
fn start_plain<'a>(hl: &'a Highlighter) -> (r: Option<SyntectLines<'a>>)
    requires
        syntax_names(hl.syntax_set).contains("Plain Text"@),
    ensures
        r is Some <==> theme_names(hl.theme_set).contains(hl.theme_name@),
        r matches Some(l) ==> l.syntax is None && l.theme@ == hl.theme_name@ && l.fed@.len() == 0,
{
    match hl.theme_set.themes.get(&hl.theme_name) {
        Some(theme) => Some(SyntectLines {
            h: syntect::easy::HighlightLines::new(hl.syntax_set.find_syntax_plain_text(), theme),
            set: &hl.syntax_set,
            syntax: None,
            theme: hl.theme_name.clone(),
            fed: Vec::new(),
        }),
        None => None,
    }
}

/// The token's text, when there is one.
pub open spec fn opt_text_of(o: Option<String>) -> Option<Seq<char>> {
    match o {
        Some(s) => Some(s@),
        None => None,
    }
}

/// Highlights the next line (`HighlightLines::highlight_line`), converting
/// each `(Style, &str)` token to its foreground color and text.
/// Trusted: the result is syntect's for this state (the name
/// `syntect_line`), and syntect documents that the tokens' texts, joined,
/// make the line; the recorded syntax, theme and lines are left as they were.
#[verifier::external_body]
fn highlight_next(l: &mut SyntectLines<'_>, line: &str) -> (r: Result<Vec<Region>, syntect::Error>)
    ensures
        final(l).syntax == old(l).syntax,
        final(l).theme == old(l).theme,
        final(l).fed == old(l).fed,
        match r {
            Ok(v) => syntect_line(opt_text_of(old(l).syntax), old(l).theme@, crate::text::strings_view(old(l).fed@), line@)
                == Some(regions_view(v@)),
            Err(_) => syntect_line(opt_text_of(old(l).syntax), old(l).theme@, crate::text::strings_view(old(l).fed@), line@)
                is None,
        },
        r matches Ok(v) ==> regions_text(regions_view(v@)) == line@,
{
    match l.h.highlight_line(line, l.set) {
        Ok(tokens) => Ok(tokens.iter().map(|(st, t)| Region {
            r: st.foreground.r, g: st.foreground.g, b: st.foreground.b, text: t.to_string(),
        }).collect()),
        Err(e) => Err(e),
    }
}

/// The syntax a code block is highlighted with: its language's when the
/// bundle has one, else plain text.
pub open spec fn block_syntax(language: Seq<char>) -> Option<Seq<char>> {
    if token_has_syntax(language) { Some(language) } else { None }
}

/// Row `i` of a code block as syntect highlights it: its regions, or none
/// where syntect reports an error.
pub open spec fn syntect_row(syntax: Option<Seq<char>>, theme: Seq<char>, lines: Seq<Seq<char>>, i: int) -> Seq<RegionView> {
    match syntect_line(syntax, theme, lines.take(i), lines[i]) {
        Some(rv) => rv,
        None => Seq::empty(),
    }
}

/// The rows of a code block as syntect highlights them, line after line.
pub open spec fn syntect_rows(syntax: Option<Seq<char>>, theme: Seq<char>, lines: Seq<Seq<char>>) -> Seq<Seq<RegionView>> {
    Seq::new(lines.len(), |i: int| syntect_row(syntax, theme, lines, i))
}

/// Highlights the next line and records it as given.
fn next_row(l: &mut SyntectLines<'_>, line: &String) -> (rv: Vec<Region>)
    ensures
        final(l).syntax == old(l).syntax,
        final(l).theme == old(l).theme,
        crate::text::strings_view(final(l).fed@) == crate::text::strings_view(old(l).fed@).push(line@),
        regions_view(rv@) == (match syntect_line(opt_text_of(old(l).syntax), old(l).theme@, crate::text::strings_view(old(l).fed@), line@) {
            Some(x) => x,
            None => Seq::empty(),
        }),
        syntect_line(opt_text_of(old(l).syntax), old(l).theme@, crate::text::strings_view(old(l).fed@), line@) matches Some(x)
            ==> regions_text(x) == line@,
        regions_len(regions_view(rv@)) <= usize::MAX,
{
    let r = match highlight_next(l, line.as_str()) {
        Ok(v) => v,
        Err(_) => Vec::new(),
    };
    let _line_len = utf8_len(line.as_str());
    proof {
        let rvv = regions_view(r@);
        lemma_regions_len_text(rvv);
        if rvv.len() == 0 {
            assert(regions_len(rvv) == 0);
        }
    }
    let ghost before = l.fed@;
    l.fed.push(line.clone());
    assert(crate::text::strings_view(l.fed@) =~= crate::text::strings_view(before).push(line@));
    r
}

/// A syntax highlighter: syntect's bundled syntaxes and themes, the name of
/// the theme it uses, and the code background.
pub struct Highlighter {
    syntax_set: syntect::parsing::SyntaxSet,
    theme_set: syntect::highlighting::ThemeSet,
    theme_name: String,
    code_bg: Color,
}

impl Highlighter {
    /// The theme is one of the set's, and the syntax set holds plain text.
    #[verifier::type_invariant]
    spec fn inv(self) -> bool {
        &&& theme_names(self.theme_set).contains(self.theme_name@)
        &&& syntax_names(self.syntax_set).contains("Plain Text"@)
    }

    /// The name of the theme used.
    pub closed spec fn theme(self) -> Seq<char> {
        self.theme_name@
    }

    /// The code background.
    pub closed spec fn background(self) -> Color {
        self.code_bg
    }

    /// The names of the themes it has.
    pub closed spec fn themes(self) -> Set<Seq<char>> {
        theme_names(self.theme_set)
    }

    /// A highlighter with the bundled syntaxes and themes, using the named
    /// theme, or `base16-ocean.dark` when the bundle has none of that name.
    /// It is always made (`None` would mean the bundle lacks
    /// `base16-ocean.dark` too).
    pub fn new(theme_name: &str, code_bg: Color) -> (r: Option<Highlighter>)
        ensures
            r is Some,
            r matches Some(h) ==> h.background() == code_bg,
            r matches Some(h) ==> h.theme() == (if h.themes().contains(theme_name@) {
                theme_name@
            } else {
                "base16-ocean.dark"@
            }),
            r matches Some(h) ==> h.themes().contains(h.theme()),
    {
        let syntax_set = load_syntax_set();
        let theme_set = load_theme_set();
        let name = if has_theme(&theme_set, theme_name) {
            to_owned_string(theme_name)
        } else if has_theme(&theme_set, "base16-ocean.dark") {
            to_owned_string("base16-ocean.dark")
        } else {
            return None;
        };
        Some(Highlighter { syntax_set, theme_set, theme_name: name, code_bg })
    }

    /// The name of the theme used.
    pub fn theme_name(&self) -> (s: &str)
        ensures
            s@ == self.theme(),
    {
        self.theme_name.as_str()
    }

    /// Highlights a code block in the language `language` and frames it like
    /// its placeholder: one line per code line (one for empty code) between a
    /// top and a bottom edge. The rows are syntect's, line after line, with
    /// the syntax of `language`, or plain text when the bundle has none for
    /// it; a row whose highlighting syntect reports as failed is left empty,
    /// and every other row's text is its code line.
    pub fn highlight(&self, code: &str, language: &str, block_width: usize, border_color: Color) -> (v: Vec<Line>)
        ensures
            lines_view(v@) == highlighted_block(syntect_rows(block_syntax(language@), self.theme(), code_rows(code@)),
                block_width as nat, self.background(), border_color),
            forall|i: int| #![trigger syntect_line(block_syntax(language@), self.theme(), code_rows(code@).take(i), code_rows(code@)[i])]
                0 <= i < code_rows(code@).len() ==>
                (syntect_line(block_syntax(language@), self.theme(), code_rows(code@).take(i), code_rows(code@)[i]) matches Some(x)
                    ==> regions_text(x) == code_rows(code@)[i]),
            v@.len() == code_rows(code@).len() + 2,
    {
        proof { use_type_invariant(self); }
        let mut started = match start_for_token(self, language) {
            Some(l) => Some(l),
            None => start_plain(self),
        };
        let ghost syn: Option<Seq<char>> = if started is Some { opt_text_of(started->0.syntax) } else { None };
        let code_lines: Vec<String> = if code.is_empty() {
            let mut r = Vec::new();
            r.push(String::new());
            r
        } else {
            split_lines(code)
        };
        let ghost cr = code_rows(code@);
        let ghost th = self.theme();
        assert(code_lines@.len() == cr.len());
        assert(forall|k: int| 0 <= k < code_lines@.len() ==> #[trigger] code_lines@[k]@ == cr[k]);
        let mut rows: Vec<Vec<Region>> = Vec::new();
        let mut i: usize = 0;
        assert(crate::text::strings_view(Seq::<String>::empty()) =~= cr.take(0));
        while i < code_lines.len()
            invariant
                cr == code_rows(code@),
                th == self.theme(),
                code_lines@.len() == cr.len(),
                forall|k: int| 0 <= k < code_lines@.len() ==> #[trigger] code_lines@[k]@ == cr[k],
                i <= code_lines@.len(),
                started matches Some(l) && opt_text_of(l.syntax) == syn && l.theme@ == th
                    && crate::text::strings_view(l.fed@) == cr.take(i as int),
                syn == block_syntax(language@),
                rows@.len() == i,
                rows_bounded(rows_view(rows@)),
                forall|k: int| 0 <= k < i ==> #[trigger] rows_view(rows@)[k] == syntect_row(syn, th, cr, k),
                forall|k: int| #![trigger syntect_line(syn, th, cr.take(k), cr[k])] 0 <= k < i ==>
                    (syntect_line(syn, th, cr.take(k), cr[k]) matches Some(x) ==> regions_text(x) == cr[k]),
            decreases code_lines@.len() - i,
        {
            let regions = match &mut started {
                Some(l) => next_row(l, &code_lines[i]),
                None => Vec::new(),
            };
            proof {
                assert(cr.take(i + 1) =~= cr.take(i as int).push(cr[i as int]));
            }
            let ghost before = rows@;
            rows.push(regions);
            assert(rows_view(rows@) =~= rows_view(before).push(regions_view(rows@[i as int]@)));
            i = i + 1;
        }
        let v = frame_highlighted(&rows, block_width, self.code_bg, border_color);
        let ghost rows_s = syntect_rows(syn, th, cr);
        assert(rows_view(rows@) =~= rows_s);
        assert(lines_view(v@).len() == v@.len());
        assert(highlighted_block(rows_view(rows@), block_width as nat, self.code_bg, border_color).len()
            == rows_view(rows@).len() + 2);
        v
    }
}



/// The text of a row's region spans is the regions' joined text.
proof fn lemma_region_spans_text(rs: Seq<RegionView>, bg: Color)
    ensures
        line_text(region_spans(rs, bg)) == regions_text(rs),
    decreases rs.len(),
{
    if rs.len() > 0 {
        lemma_region_spans_text(rs.drop_last(), bg);
        assert(region_spans(rs, bg).drop_last() =~= region_spans(rs.drop_last(), bg));
    } else {
        assert(line_text(region_spans(rs, bg)) =~= Seq::<char>::empty());
    }
}

/// The text of a one-span line.
proof fn lemma_one_span_text(x: SpanView)
    ensures
        line_text(seq![x]) == x.text,
{
    lemma_line_text_push(Seq::empty(), x);
    assert(Seq::<SpanView>::empty().push(x) =~= seq![x]);
    assert(line_text(Seq::<SpanView>::empty()) + x.text =~= x.text);
}

/// A highlighted row whose regions join to the code line reads like the
/// placeholder's row.
proof fn lemma_row_text(rs: Seq<RegionView>, l: Seq<char>, inner: nat, bg: Color, border: Color, theme: Theme)
    requires
        regions_text(rs) == l,
    ensures
        line_text(highlighted_row(rs, inner, bg, border)) == line_text(code_line(l, inner, theme)),
{
    lemma_regions_len_text(rs);
    let e1 = seq![sv(seq!['│', ' '], edge_style(bg, border))];
    let mid = region_spans(rs, bg);
    let len = regions_len(rs);
    let pad: Seq<SpanView> = if len < inner { seq![sv(spaces((inner - len) as nat), Style { bg: Some(bg), ..plain_style() })] } else { Seq::empty() };
    let e2 = seq![sv(seq![' ', '│'], edge_style(bg, border))];
    assert(highlighted_row(rs, inner, bg, border) == e1 + mid + pad + e2);
    lemma_line_text_add(e1 + mid + pad, e2);
    lemma_line_text_add(e1 + mid, pad);
    lemma_line_text_add(e1, mid);
    lemma_one_span_text(e1[0]);
    assert(e1 =~= seq![e1[0]]);
    lemma_one_span_text(e2[0]);
    assert(e2 =~= seq![e2[0]]);
    lemma_region_spans_text(rs, bg);
    if len < inner {
        lemma_one_span_text(pad[0]);
        assert(pad =~= seq![pad[0]]);
    } else {
        assert(line_text(pad) =~= Seq::<char>::empty());
    }
    let c = code_line(l, inner, theme);
    reveal_with_fuel(line_text, 5);
    assert(c.drop_last().drop_last().drop_last().drop_last() =~= Seq::<SpanView>::empty());
    assert(line_text(highlighted_row(rs, inner, bg, border)) =~= line_text(c));
}

/// A code block highlighted on every line reads like its placeholder: same
/// number of lines, and each line has the placeholder line's text; only the
/// styles differ.
pub proof fn lemma_highlight_keeps_row_text(rows: Seq<Seq<RegionView>>, code: Seq<char>, bw: nat, bg: Color, border: Color, theme: Theme)
    requires
        rows.len() == code_rows(code).len(),
        forall|i: int| 0 <= i < rows.len() ==> #[trigger] regions_text(rows[i]) == code_rows(code)[i],
    ensures
        highlighted_block(rows, bw, bg, border).len() == code_block_lines(code, bw, theme).len(),
        forall|j: int| 0 <= j < highlighted_block(rows, bw, bg, border).len() ==>
            line_text(#[trigger] highlighted_block(rows, bw, bg, border)[j]) == line_text(code_block_lines(code, bw, theme)[j]),
{
    let hb = highlighted_block(rows, bw, bg, border);
    let cb = code_block_lines(code, bw, theme);
    let inner = if bw >= 2 { (bw - 2) as nat } else { 0 };
    let n = rows.len();
    assert forall|j: int| 0 <= j < hb.len() implies line_text(#[trigger] hb[j]) == line_text(cb[j]) by {
        if j == 0 {
            assert(hb[0] == edge_line('┌', bw, '┐', bg, border));
            assert(cb[0] == frame_edge('┌', bw, '┐', theme));
            lemma_one_span_text(hb[0][0]);
            lemma_one_span_text(cb[0][0]);
            assert(hb[0] =~= seq![hb[0][0]]);
            assert(cb[0] =~= seq![cb[0][0]]);
        } else if j == n + 1 {
            assert(hb[j] == edge_line('└', bw, '┘', bg, border));
            assert(cb[j] == frame_edge('└', bw, '┘', theme));
            lemma_one_span_text(hb[j][0]);
            lemma_one_span_text(cb[j][0]);
            assert(hb[j] =~= seq![hb[j][0]]);
            assert(cb[j] =~= seq![cb[j][0]]);
        } else {
            assert(hb[j] == highlighted_row(rows[j - 1], inner, bg, border));
            assert(cb[j] == code_line(code_rows(code)[j - 1], inner, theme));
            lemma_row_text(rows[j - 1], code_rows(code)[j - 1], inner, bg, border, theme);
        }
    }
}

} // verus!

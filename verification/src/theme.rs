//! Dark and light color themes, and their detection from `COLORFGBG`.
use vstd::prelude::*;
use crate::style::Color;
use crate::text::{is_white, is_white_char, chars_of};

verus! {

/// Whether the terminal background is dark or light.
#[derive(Clone, Copy, Debug, PartialEq, Eq, Structural)]
pub enum ThemeMode {
    Dark,
    Light,
}

/// The colors used for the parts of a rendered document.
#[derive(Clone, Copy, Debug)]
pub struct ColorPalette {
    pub link_fg: Color,
    pub inline_code_bg: Color,
    pub code_block_bg: Color,
    pub blockquote_border: Color,
    pub search_highlight: Color,
    pub search_current: Color,
}

/// A theme: its mode and its palette.
#[derive(Clone, Copy, Debug)]
pub struct Theme {
    pub mode: ThemeMode,
    pub palette: ColorPalette,
}

/// The palette of each mode.
pub open spec fn palette_of(mode: ThemeMode) -> ColorPalette {
    match mode {
        ThemeMode::Dark => ColorPalette {
            link_fg: Color::Blue,
            inline_code_bg: Color::Rgb(68, 68, 68),
            code_block_bg: Color::Rgb(38, 38, 38),
            blockquote_border: Color::Rgb(100, 100, 100),
            search_highlight: Color::Yellow,
            search_current: Color::Rgb(255, 255, 0),
        },
        ThemeMode::Light => ColorPalette {
            link_fg: Color::DarkGray,
            inline_code_bg: Color::Rgb(252, 252, 252),
            code_block_bg: Color::Rgb(254, 254, 254),
            blockquote_border: Color::Rgb(140, 140, 140),
            search_highlight: Color::Yellow,
            search_current: Color::Rgb(255, 255, 0),
        },
    }
}

/// The part of `s` after its last `;` (all of `s` when it has none).
pub open spec fn last_segment(s: Seq<char>) -> Seq<char>
    decreases s.len(),
{
    if s.len() == 0 {
        s
    } else if s.last() == ';' {
        Seq::empty()
    } else {
        last_segment(s.drop_last()).push(s.last())
    }
}

/// `s` without leading white space.
pub open spec fn trim_start(s: Seq<char>) -> Seq<char>
    decreases s.len(),
{
    if s.len() > 0 && is_white(s[0]) {
        trim_start(s.drop_first())
    } else {
        s
    }
}

/// `s` without trailing white space.
pub open spec fn trim_end(s: Seq<char>) -> Seq<char>
    decreases s.len(),
{
    if s.len() > 0 && is_white(s.last()) {
        trim_end(s.drop_last())
    } else {
        s
    }
}

/// `s` without leading and trailing white space (what `str::trim` returns).
pub open spec fn trim(s: Seq<char>) -> Seq<char> {
    trim_end(trim_start(s))
}

/// `c` is an ASCII digit.
pub open spec fn is_digit(c: char) -> bool {
    '0' <= c && c <= '9'
}

/// Whether every character of `d` is an ASCII digit.
pub open spec fn all_digits(d: Seq<char>) -> bool {
    forall|i: int| 0 <= i < d.len() ==> #[trigger] is_digit(d[i])
}

/// `t` without one leading `+`.
pub open spec fn without_plus(t: Seq<char>) -> Seq<char> {
    if t.len() > 0 && t[0] == '+' { t.drop_first() } else { t }
}

/// The number written by the ASCII digits `d`.
pub open spec fn digits_value(d: Seq<char>) -> nat
    decreases d.len(),
{
    if d.len() == 0 {
        0
    } else {
        digits_value(d.drop_last()) * 10 + ((d.last() as u32) - ('0' as u32)) as nat
    }
}

/// What `u8::from_str` returns: an optional `+`, then one or more ASCII
/// digits whose value is below 256.
pub open spec fn parse_u8(t: Seq<char>) -> Option<u8> {
    let d = without_plus(t);
    if d.len() > 0 && all_digits(d) && digits_value(d) < 256 {
        Some(digits_value(d) as u8)
    } else {
        None
    }
}

/// The theme mode that a `COLORFGBG` value selects: its last `;`-separated
/// field, trimmed, read as a color number; below 8 is dark, else light.
/// Without a value, or when the field is no number, dark.
pub open spec fn mode_from_colorfgbg(val: Option<Seq<char>>) -> ThemeMode {
    match val {
        None => ThemeMode::Dark,
        Some(s) => match parse_u8(trim(last_segment(s))) {
            Some(bg) => if bg < 8 { ThemeMode::Dark } else { ThemeMode::Light },
            None => ThemeMode::Dark,
        },
    }
}

/// The heading color of each level, per mode.
pub open spec fn heading_color(mode: ThemeMode, level: u8) -> Color {
    match mode {
        ThemeMode::Dark => if level == 1 { Color::Indexed(39) }
            else if level == 2 { Color::Indexed(76) }
            else if level == 3 { Color::Indexed(178) }
            else if level == 4 { Color::Indexed(168) }
            else if level == 5 { Color::Indexed(31) }
            else { Color::Indexed(66) },
        ThemeMode::Light => if level == 1 { Color::Indexed(30) }
            else if level == 2 { Color::Indexed(28) }
            else if level == 3 { Color::Indexed(136) }
            else if level == 4 { Color::Indexed(125) }
            else if level == 5 { Color::Indexed(25) }
            else { Color::Indexed(59) },
    }
}

/// The color of heading underlines, per mode.
pub open spec fn underline_color(mode: ThemeMode) -> Color {
    match mode {
        ThemeMode::Dark => Color::Indexed(240),
        ThemeMode::Light => Color::Indexed(248),
    }
}

/// The character drawn under a heading of each level (none below level 4).
pub open spec fn underline_text(level: u8) -> Option<Seq<char>> {
    if level == 1 { Some(seq!['═']) }
    else if level == 2 { Some(seq!['─']) }
    else if level == 3 { Some(seq!['┄']) }
    else if level == 4 { Some(seq!['·', ' ']) }
    else { None }
}

/// The syntax highlighting theme of each mode.
pub open spec fn syntect_theme_of(mode: ThemeMode) -> Seq<char> {
    match mode {
        ThemeMode::Dark => seq!['b', 'a', 's', 'e', '1', '6', '-', 'o', 'c', 'e', 'a', 'n', '.', 'd', 'a', 'r', 'k'],
        ThemeMode::Light => seq!['b', 'a', 's', 'e', '1', '6', '-', 'o', 'c', 'e', 'a', 'n', '.', 'l', 'i', 'g', 'h', 't'],
    }
}

/// The index just past the last `;` of `v[..end]`, or 0.
fn last_segment_start(v: &Vec<char>) -> (start: usize)
    ensures
        start <= v@.len(),
        last_segment(v@) == v@.subrange(start as int, v@.len() as int),
{
    let mut i = v.len();
    assert(v@.take(v@.len() as int) =~= v@);
    assert(v@.subrange(v@.len() as int, v@.len() as int) =~= Seq::<char>::empty());
    while i > 0
        invariant
            i <= v@.len(),
            forall|k: int| i <= k < v@.len() ==> v@[k] != ';',
            last_segment(v@) == last_segment(v@.take(i as int)) + v@.subrange(i as int, v@.len() as int),
        decreases i,
    {
        assert(v@.take(i as int).drop_last() =~= v@.take(i - 1));
        if v[i - 1] == ';' {
            assert(v@.subrange(i - 1, v@.len() as int) =~= seq![';'] + v@.subrange(i as int, v@.len() as int));
            return i;
        }
        assert(v@.subrange(i - 1, v@.len() as int) =~= seq![v@[i - 1]] + v@.subrange(i as int, v@.len() as int));
        assert(last_segment(v@.take(i as int)) =~= last_segment(v@.take(i - 1)).push(v@[i - 1]));
        i = i - 1;
    }
    assert(last_segment(v@.take(0)) =~= Seq::<char>::empty());
    assert(v@.subrange(0, v@.len() as int) =~= v@);
    0
}

proof fn lemma_trim_start(s: Seq<char>, i: int)
    requires
        0 <= i <= s.len(),
        forall|k: int| 0 <= k < i ==> is_white(#[trigger] s[k]),
    ensures
        trim_start(s) == trim_start(s.subrange(i, s.len() as int)),
    decreases i,
{
    if i > 0 {
        assert(s.drop_first().subrange(i - 1, s.drop_first().len() as int) =~= s.subrange(i, s.len() as int));
        lemma_trim_start(s.drop_first(), i - 1);
    } else {
        assert(s.subrange(0, s.len() as int) =~= s);
    }
}

proof fn lemma_trim_end(s: Seq<char>, j: int)
    requires
        0 <= j <= s.len(),
        forall|k: int| j <= k < s.len() ==> is_white(#[trigger] s[k]),
    ensures
        trim_end(s) == trim_end(s.take(j)),
    decreases s.len() - j,
{
    if j < s.len() {
        assert(s.drop_last().take(j) =~= s.take(j));
        lemma_trim_end(s.drop_last(), j);
    } else {
        assert(s.take(j) =~= s);
    }
}

/// Reads the digits `v[from..to]`, with an optional leading `+`, as a `u8`.
fn parse_u8_range(v: &Vec<char>, from: usize, to: usize) -> (r: Option<u8>)
    requires
        from <= to <= v@.len(),
    ensures
        r == parse_u8(v@.subrange(from as int, to as int)),
{
    let ghost t = v@.subrange(from as int, to as int);
    let mut i = from;
    if i < to && v[i] == '+' {
        i = i + 1;
    }
    let ghost d = without_plus(t);
    assert(d =~= v@.subrange(i as int, to as int));
    if i == to {
        return None;
    }
    let start = i;
    let mut value: u32 = 0;
    while i < to
        invariant
            start <= i <= to <= v@.len(),
            t == v@.subrange(from as int, to as int),
            d == without_plus(t),
            d =~= v@.subrange(start as int, to as int),
            forall|k: int| start <= k < i ==> is_digit(#[trigger] v@[k]),
            value as nat == if digits_value(v@.subrange(start as int, i as int)) < 256 {
                digits_value(v@.subrange(start as int, i as int))
            } else {
                256
            },
        decreases to - i,
    {
        let c = v[i];
        if !('0' <= c && c <= '9') {
            assert(d[i - start] == c);
            assert(!is_digit(d[i - start]));
            assert(!all_digits(d));
            return None;
        }
        let ghost pre = v@.subrange(start as int, i as int);
        assert(v@.subrange(start as int, i + 1).drop_last() =~= pre);
        let dv = (c as u32) - ('0' as u32);
        let next = value * 10 + dv;
        value = if next < 256 { next } else { 256 };
        proof {
            let x = digits_value(pre);
            let y = digits_value(v@.subrange(start as int, i + 1));
            assert(y == x * 10 + dv);
            if x >= 256 {
                assert(x * 10 >= 2560) by (nonlinear_arith) requires x >= 256;
            }
        }
        i = i + 1;
    }
    assert(v@.subrange(start as int, i as int) =~= d);
    if value < 256 {
        Some(value as u8)
    } else {
        None
    }
}

/// The theme mode that a `COLORFGBG` value selects.
pub fn detect_theme_mode(colorfgbg: Option<&str>) -> (m: ThemeMode)
    ensures
        m == mode_from_colorfgbg(match colorfgbg { Some(s) => Some(s@), None => None }),
{
    match colorfgbg {
        None => ThemeMode::Dark,
        Some(s) => {
            let v = chars_of(s);
            let seg = last_segment_start(&v);
            let mut a = seg;
            let len = v.len();
            while a < len && is_white_char(v[a])
                invariant
                    seg <= a <= len == v@.len(),
                    forall|k: int| seg <= k < a ==> is_white(#[trigger] v@[k]),
                decreases len - a,
            {
                a = a + 1;
            }
            let mut b = len;
            while b > a && is_white_char(v[b - 1])
                invariant
                    a <= b <= len == v@.len(),
                    forall|k: int| b <= k < len ==> is_white(#[trigger] v@[k]),
                decreases b,
            {
                b = b - 1;
            }
            proof {
                let segs = v@.subrange(seg as int, len as int);
                lemma_trim_start(segs, a - seg);
                assert(segs.subrange(a - seg, segs.len() as int) =~= v@.subrange(a as int, len as int));
                let rest = v@.subrange(a as int, len as int);
                if a < len && b == a {
                    assert(!is_white(v@[a as int]) || true);
                }
                assert(trim_start(rest) == rest) by {
                    if rest.len() > 0 {
                        assert(rest[0] == v@[a as int]);
                    }
                }
                lemma_trim_end(rest, b - a);
                assert(rest.take(b - a) =~= v@.subrange(a as int, b as int));
                let mid = v@.subrange(a as int, b as int);
                assert(trim_end(mid) == mid) by {
                    if mid.len() > 0 {
                        assert(mid.last() == v@[b - 1]);
                    }
                }
            }
            match parse_u8_range(&v, a, b) {
                Some(bg) => if bg < 8 { ThemeMode::Dark } else { ThemeMode::Light },
                None => ThemeMode::Dark,
            }
        },
    }
}

impl Theme {
    /// The theme of the given mode.
    pub fn for_mode(mode: ThemeMode) -> (t: Theme)
        ensures
            t.mode == mode,
            t.palette == palette_of(mode),
    {
        let palette = match mode {
            ThemeMode::Dark => ColorPalette {
                link_fg: Color::Blue,
                inline_code_bg: Color::Rgb(68, 68, 68),
                code_block_bg: Color::Rgb(38, 38, 38),
                blockquote_border: Color::Rgb(100, 100, 100),
                search_highlight: Color::Yellow,
                search_current: Color::Rgb(255, 255, 0),
            },
            ThemeMode::Light => ColorPalette {
                link_fg: Color::DarkGray,
                inline_code_bg: Color::Rgb(252, 252, 252),
                code_block_bg: Color::Rgb(254, 254, 254),
                blockquote_border: Color::Rgb(140, 140, 140),
                search_highlight: Color::Yellow,
                search_current: Color::Rgb(255, 255, 0),
            },
        };
        Theme { mode, palette }
    }

    /// The theme that the value of `COLORFGBG` selects (dark when unset).
    pub fn detect(colorfgbg: Option<&str>) -> (t: Theme)
        ensures
            t.mode == mode_from_colorfgbg(match colorfgbg { Some(s) => Some(s@), None => None }),
            t.palette == palette_of(t.mode),
    {
        Theme::for_mode(detect_theme_mode(colorfgbg))
    }

    /// The color of headings of the given level.
    pub fn heading_fg(&self, level: u8) -> (c: Color)
        ensures
            c == heading_color(self.mode, level),
    {
        match self.mode {
            ThemeMode::Dark => if level == 1 { Color::Indexed(39) }
                else if level == 2 { Color::Indexed(76) }
                else if level == 3 { Color::Indexed(178) }
                else if level == 4 { Color::Indexed(168) }
                else if level == 5 { Color::Indexed(31) }
                else { Color::Indexed(66) },
            ThemeMode::Light => if level == 1 { Color::Indexed(30) }
                else if level == 2 { Color::Indexed(28) }
                else if level == 3 { Color::Indexed(136) }
                else if level == 4 { Color::Indexed(125) }
                else if level == 5 { Color::Indexed(25) }
                else { Color::Indexed(59) },
        }
    }

    /// The color of heading underlines.
    pub fn heading_underline_color(&self) -> (c: Color)
        ensures
            c == underline_color(self.mode),
    {
        match self.mode {
            ThemeMode::Dark => Color::Indexed(240),
            ThemeMode::Light => Color::Indexed(248),
        }
    }

    /// The text repeated under a heading of the given level, if any.
    pub fn heading_underline_char(level: u8) -> (r: Option<&'static str>)
        ensures
            match r {
                Some(s) => underline_text(level) == Some(s@),
                None => underline_text(level) is None,
            },
    {
        if level == 1 {
            proof { reveal_strlit("═"); }
            Some("═")
        } else if level == 2 {
            proof { reveal_strlit("─"); }
            Some("─")
        } else if level == 3 {
            proof { reveal_strlit("┄"); }
            Some("┄")
        } else if level == 4 {
            proof { reveal_strlit("· "); }
            Some("· ")
        } else {
            None
        }
    }

    /// The name of the syntax highlighting theme that fits this theme.
    pub fn syntect_theme_name(&self) -> (s: &'static str)
        ensures
            s@ == syntect_theme_of(self.mode),
    {
        match self.mode {
            ThemeMode::Dark => {
                proof { reveal_strlit("base16-ocean.dark"); }
                "base16-ocean.dark"
            },
            ThemeMode::Light => {
                proof { reveal_strlit("base16-ocean.light"); }
                "base16-ocean.light"
            },
        }
    }
}


/// When `COLORFGBG` is unset, or its last field is not a color number, the
/// theme is dark.
pub proof fn lemma_theme_defaults_to_dark(val: Option<Seq<char>>)
    requires
        val matches Some(s) ==> parse_u8(trim(last_segment(s))) is None,
    ensures
        mode_from_colorfgbg(val) == ThemeMode::Dark,
{
}

} // verus!

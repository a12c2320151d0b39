//! Values that rendering produces besides the lines, and the style stack.
use vstd::prelude::*;
use crate::style::{Color, Style};

verus! {

/// A link found while rendering: the line it stands on and its target.
#[derive(Clone, Debug)]
pub struct LinkInfo {
    pub line_index: usize,
    pub span_start: usize,
    pub url: String,
}

/// The mathematical value of a [`LinkInfo`].
pub struct LinkView {
    pub line_index: usize,
    pub span_start: usize,
    pub url: Seq<char>,
}

impl View for LinkInfo {
    type V = LinkView;

    open spec fn view(&self) -> LinkView {
        LinkView { line_index: self.line_index, span_start: self.span_start, url: self.url@ }
    }
}

/// The lines `start_line..end_line` that hold code block `block_id`.
#[derive(Clone, Copy, Debug, PartialEq, Eq, Structural)]
pub struct CodeBlockRange {
    pub block_id: usize,
    pub start_line: usize,
    pub end_line: usize,
    pub width: usize,
}

/// A code block to be syntax highlighted later.
#[derive(Clone, Debug)]
pub struct HighlightRequest {
    pub block_id: usize,
    pub code: String,
    pub language: String,
    pub width: usize,
}

/// The mathematical value of a [`HighlightRequest`].
pub struct RequestView {
    pub block_id: usize,
    pub code: Seq<char>,
    pub language: Seq<char>,
    pub width: usize,
}

impl View for HighlightRequest {
    type V = RequestView;

    open spec fn view(&self) -> RequestView {
        RequestView { block_id: self.block_id, code: self.code@, language: self.language@, width: self.width }
    }
}

/// Open emphasis counts and the current colors of inline text.
#[derive(Clone, Copy, Debug)]
pub struct StyleStack {
    pub bold: u32,
    pub italic: u32,
    pub strikethrough: u32,
    pub fg: Option<Color>,
    pub bg: Option<Color>,
}

/// The empty style stack.
pub open spec fn empty_stack() -> StyleStack {
    StyleStack { bold: 0, italic: 0, strikethrough: 0, fg: None, bg: None }
}

/// The style that a stack stands for: an attribute is on while it is open at least once.
pub open spec fn stack_style(s: StyleStack) -> Style {
    Style {
        fg: s.fg,
        bg: s.bg,
        bold: s.bold > 0,
        italic: s.italic > 0,
        crossed_out: s.strikethrough > 0,
        underlined: false,
    }
}

/// One more level of bold.
pub open spec fn pushed_bold(s: StyleStack) -> StyleStack {
    StyleStack { bold: (s.bold + 1) as u32, ..s }
}

/// One level of bold less, none below zero.
pub open spec fn popped_bold(s: StyleStack) -> StyleStack {
    StyleStack { bold: if s.bold > 0 { (s.bold - 1) as u32 } else { 0 }, ..s }
}

/// One more level of italics.
pub open spec fn pushed_italic(s: StyleStack) -> StyleStack {
    StyleStack { italic: (s.italic + 1) as u32, ..s }
}

/// One level of italics less, none below zero.
pub open spec fn popped_italic(s: StyleStack) -> StyleStack {
    StyleStack { italic: if s.italic > 0 { (s.italic - 1) as u32 } else { 0 }, ..s }
}

/// One more level of strikethrough.
pub open spec fn pushed_strike(s: StyleStack) -> StyleStack {
    StyleStack { strikethrough: (s.strikethrough + 1) as u32, ..s }
}

/// One level of strikethrough less, none below zero.
pub open spec fn popped_strike(s: StyleStack) -> StyleStack {
    StyleStack { strikethrough: if s.strikethrough > 0 { (s.strikethrough - 1) as u32 } else { 0 }, ..s }
}

impl StyleStack {
    /// The empty style stack.
    pub fn new() -> (s: StyleStack)
        ensures
            s == empty_stack(),
    {
        StyleStack { bold: 0, italic: 0, strikethrough: 0, fg: None, bg: None }
    }

    /// Opens bold text.
    pub fn push_bold(&mut self)
        requires
            old(self).bold < u32::MAX,
        ensures
            *final(self) == pushed_bold(*old(self)),
    {
        self.bold = self.bold + 1;
    }

    /// Closes bold text.
    pub fn pop_bold(&mut self)
        ensures
            *final(self) == popped_bold(*old(self)),
    {
        self.bold = self.bold.saturating_sub(1);
    }

    /// Opens italic text.
    pub fn push_italic(&mut self)
        requires
            old(self).italic < u32::MAX,
        ensures
            *final(self) == pushed_italic(*old(self)),
    {
        self.italic = self.italic + 1;
    }

    /// Closes italic text.
    pub fn pop_italic(&mut self)
        ensures
            *final(self) == popped_italic(*old(self)),
    {
        self.italic = self.italic.saturating_sub(1);
    }

    /// Opens struck-through text.
    pub fn push_strikethrough(&mut self)
        requires
            old(self).strikethrough < u32::MAX,
        ensures
            *final(self) == pushed_strike(*old(self)),
    {
        self.strikethrough = self.strikethrough + 1;
    }

    /// Closes struck-through text.
    pub fn pop_strikethrough(&mut self)
        ensures
            *final(self) == popped_strike(*old(self)),
    {
        self.strikethrough = self.strikethrough.saturating_sub(1);
    }

    /// The style that this stack stands for.
    pub fn to_style(&self) -> (st: Style)
        ensures
            st == stack_style(*self),
    {
        Style {
            fg: self.fg,
            bg: self.bg,
            bold: self.bold > 0,
            italic: self.italic > 0,
            crossed_out: self.strikethrough > 0,
            underlined: false,
        }
    }
}

/// Closing what was just opened gives back the same stack, and text between
/// them carries the attribute.
pub proof fn lemma_push_pop_restores(s: StyleStack)
    requires
        s.bold < u32::MAX,
        s.italic < u32::MAX,
        s.strikethrough < u32::MAX,
    ensures
        popped_bold(pushed_bold(s)) == s,
        popped_italic(pushed_italic(s)) == s,
        popped_strike(pushed_strike(s)) == s,
        stack_style(pushed_bold(s)).bold,
        stack_style(pushed_italic(s)).italic,
        stack_style(pushed_strike(s)).crossed_out,
{
}

/// Nested emphasis: after two opens and one close the attribute is still on.
pub proof fn lemma_nested_bold_stays(s: StyleStack)
    requires
        s.bold + 2 <= u32::MAX,
    ensures
        stack_style(popped_bold(pushed_bold(pushed_bold(s)))).bold,
{
}

} // verus!

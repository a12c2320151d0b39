//! The Markdown events that rendering consumes, and the parser that yields them.
use vstd::prelude::*;
use crate::markdown::table::CellAlignment;

verus! {

/// The start of a Markdown element.
#[derive(Clone, Debug)]
pub enum MdTag {
    Paragraph,
    /// A heading of level 1 to 6.
    Heading(u8),
    BlockQuote,
    /// A code block and its language (empty when none is given).
    CodeBlock(String),
    /// A list: `Some(first number)` when ordered.
    List(Option<u64>),
    Item,
    /// A footnote definition and its label.
    FootnoteDefinition(String),
    /// A table and the alignment of each column.
    Table(Vec<CellAlignment>),
    TableHead,
    TableRow,
    TableCell,
    Emphasis,
    Strong,
    Strikethrough,
    /// A link and its destination.
    Link(String),
    /// An image and its source.
    Image(String),
    MetadataBlock,
    /// An element that rendering does not treat specially.
    Other,
}

/// The end of a Markdown element.
#[derive(Clone, Copy, Debug, PartialEq, Eq, Structural)]
pub enum MdTagEnd {
    Paragraph,
    Heading,
    BlockQuote,
    CodeBlock,
    List,
    Item,
    FootnoteDefinition,
    Table,
    TableHead,
    TableRow,
    TableCell,
    Emphasis,
    Strong,
    Strikethrough,
    Link,
    Image,
    MetadataBlock,
    Other,
}

/// One event of a Markdown document, in reading order.
#[derive(Clone, Debug)]
pub enum MdEvent {
    Start(MdTag),
    End(MdTagEnd),
    Text(String),
    Code(String),
    InlineMath(String),
    DisplayMath(String),
    FootnoteReference(String),
    SoftBreak,
    HardBreak,
    Rule,
    TaskListMarker(bool),
    /// An event that rendering ignores (raw HTML).
    Other,
}

/// A pulldown-cmark event, carried opaque through the conversion.
#[verifier::external_type_specification]
#[verifier::external_body]
pub struct ExEvent<'a>(pulldown_cmark::Event<'a>);

/// A pulldown-cmark start tag, carried opaque through the conversion.
#[verifier::external_type_specification]
#[verifier::external_body]
pub struct ExTag<'a>(pulldown_cmark::Tag<'a>);

/// A pulldown-cmark end tag, carried opaque through the conversion.
#[verifier::external_type_specification]
#[verifier::external_body]
pub struct ExTagEnd(pulldown_cmark::TagEnd);

/// A pulldown-cmark code block kind, carried opaque through the conversion.
#[verifier::external_type_specification]
#[verifier::external_body]
pub struct ExCodeBlockKind<'a>(pulldown_cmark::CodeBlockKind<'a>);

/// A pulldown-cmark column alignment, carried opaque through the conversion.
#[verifier::external_type_specification]
#[verifier::external_body]
pub struct ExAlignment(pulldown_cmark::Alignment);

/// Tables (`|a|b|`).
pub const ENABLE_TABLES: u32 = 2;
/// Footnotes (`[^1]`).
pub const ENABLE_FOOTNOTES: u32 = 4;
/// Strikethrough (`~~x~~`).
pub const ENABLE_STRIKETHROUGH: u32 = 8;
/// Task lists (`- [x]`).
pub const ENABLE_TASKLISTS: u32 = 16;
/// Curly quotes, dashes and ellipses.
pub const ENABLE_SMART_PUNCTUATION: u32 = 32;
/// Heading attributes (`# x {#id}`).
pub const ENABLE_HEADING_ATTRIBUTES: u32 = 64;
/// YAML front matter (`---` blocks).
pub const ENABLE_YAML_STYLE_METADATA_BLOCKS: u32 = 128;
/// Math (`$x$`, `$$x$$`).
pub const ENABLE_MATH: u32 = 1024;

/// The Markdown extensions that the viewer reads.
pub const VIEWER_OPTIONS: u32 = ENABLE_TABLES | ENABLE_STRIKETHROUGH | ENABLE_TASKLISTS
    | ENABLE_FOOTNOTES | ENABLE_HEADING_ATTRIBUTES | ENABLE_SMART_PUNCTUATION
    | ENABLE_YAML_STYLE_METADATA_BLOCKS | ENABLE_MATH;

/// The events that pulldown-cmark yields for `source` with the extension bits `options`.
pub uninterp spec fn parsed_events(source: Seq<char>, options: u32) -> Seq<MdEvent>;

/// Parses `source` into Markdown events.
/// Trusted: calls `pulldown_cmark::Parser::new_ext(source, Options::from_bits_truncate(options))`
/// and converts each event one for one; the contract only names the result,
/// which depends on the source text and the options alone.
#[verifier::external_body]
pub(crate) fn markdown_events(source: &str, options: u32) -> (v: Vec<MdEvent>)
    ensures
        v@ == parsed_events(source@, options),
{
    let opts = pulldown_cmark::Options::from_bits_truncate(options);
    pulldown_cmark::Parser::new_ext(source, opts).map(event_value).collect()
}

/// Converts a pulldown-cmark event, variant for variant.
#[verifier::external_body]
fn event_value(e: pulldown_cmark::Event<'_>) -> MdEvent {
    match e {
        pulldown_cmark::Event::Start(t) => MdEvent::Start(tag_value(t)),
        pulldown_cmark::Event::End(t) => MdEvent::End(block_end_value(t)),
        pulldown_cmark::Event::Text(s) => MdEvent::Text(s.to_string()),
        pulldown_cmark::Event::Code(s) => MdEvent::Code(s.to_string()),
        pulldown_cmark::Event::InlineMath(s) => MdEvent::InlineMath(s.to_string()),
        pulldown_cmark::Event::DisplayMath(s) => MdEvent::DisplayMath(s.to_string()),
        pulldown_cmark::Event::FootnoteReference(s) => MdEvent::FootnoteReference(s.to_string()),
        pulldown_cmark::Event::SoftBreak => MdEvent::SoftBreak,
        pulldown_cmark::Event::HardBreak => MdEvent::HardBreak,
        pulldown_cmark::Event::Rule => MdEvent::Rule,
        pulldown_cmark::Event::TaskListMarker(b) => MdEvent::TaskListMarker(b),
        _ => MdEvent::Other,
    }
}

/// Converts a pulldown-cmark start tag that carries data, variant for variant.
#[verifier::external_body]
fn tag_value(t: pulldown_cmark::Tag<'_>) -> MdTag {
    match t {
        pulldown_cmark::Tag::Heading { level, .. } => MdTag::Heading(level as u8),
        pulldown_cmark::Tag::CodeBlock(k) => MdTag::CodeBlock(code_language(k)),
        pulldown_cmark::Tag::List(start) => MdTag::List(start),
        pulldown_cmark::Tag::FootnoteDefinition(l) => MdTag::FootnoteDefinition(l.to_string()),
        pulldown_cmark::Tag::Table(a) => MdTag::Table(a.into_iter().map(alignment_value).collect()),
        pulldown_cmark::Tag::Link { dest_url, .. } => MdTag::Link(dest_url.to_string()),
        pulldown_cmark::Tag::Image { dest_url, .. } => MdTag::Image(dest_url.to_string()),
        other => unit_tag_value(other),
    }
}

/// Converts a pulldown-cmark start tag without data, variant for variant.
#[verifier::external_body]
fn unit_tag_value(t: pulldown_cmark::Tag<'_>) -> MdTag {
    match t {
        pulldown_cmark::Tag::Paragraph => MdTag::Paragraph,
        pulldown_cmark::Tag::BlockQuote(_) => MdTag::BlockQuote,
        pulldown_cmark::Tag::Item => MdTag::Item,
        pulldown_cmark::Tag::TableHead => MdTag::TableHead,
        pulldown_cmark::Tag::TableRow => MdTag::TableRow,
        pulldown_cmark::Tag::TableCell => MdTag::TableCell,
        pulldown_cmark::Tag::Emphasis => MdTag::Emphasis,
        pulldown_cmark::Tag::Strong => MdTag::Strong,
        pulldown_cmark::Tag::Strikethrough => MdTag::Strikethrough,
        pulldown_cmark::Tag::MetadataBlock(_) => MdTag::MetadataBlock,
        _ => MdTag::Other,
    }
}

/// Converts the language of a code block: empty for an indented block.
#[verifier::external_body]
fn code_language(k: pulldown_cmark::CodeBlockKind<'_>) -> String {
    match k {
        pulldown_cmark::CodeBlockKind::Fenced(lang) => lang.to_string(),
        pulldown_cmark::CodeBlockKind::Indented => String::new(),
    }
}

/// Converts a column alignment, variant for variant.
#[verifier::external_body]
fn alignment_value(a: pulldown_cmark::Alignment) -> CellAlignment {
    match a {
        pulldown_cmark::Alignment::None => CellAlignment::Unspecified,
        pulldown_cmark::Alignment::Left => CellAlignment::Left,
        pulldown_cmark::Alignment::Center => CellAlignment::Center,
        pulldown_cmark::Alignment::Right => CellAlignment::Right,
    }
}

/// Converts a pulldown-cmark end tag of a block element, variant for variant.
#[verifier::external_body]
fn block_end_value(t: pulldown_cmark::TagEnd) -> MdTagEnd {
    match t {
        pulldown_cmark::TagEnd::Paragraph => MdTagEnd::Paragraph,
        pulldown_cmark::TagEnd::Heading(_) => MdTagEnd::Heading,
        pulldown_cmark::TagEnd::BlockQuote(_) => MdTagEnd::BlockQuote,
        pulldown_cmark::TagEnd::CodeBlock => MdTagEnd::CodeBlock,
        pulldown_cmark::TagEnd::List(_) => MdTagEnd::List,
        pulldown_cmark::TagEnd::Item => MdTagEnd::Item,
        pulldown_cmark::TagEnd::FootnoteDefinition => MdTagEnd::FootnoteDefinition,
        pulldown_cmark::TagEnd::MetadataBlock(_) => MdTagEnd::MetadataBlock,
        other => table_end_value(other),
    }
}

/// Converts a pulldown-cmark end tag of a table or inline element, variant for variant.
#[verifier::external_body]
fn table_end_value(t: pulldown_cmark::TagEnd) -> MdTagEnd {
    match t {
        pulldown_cmark::TagEnd::Table => MdTagEnd::Table,
        pulldown_cmark::TagEnd::TableHead => MdTagEnd::TableHead,
        pulldown_cmark::TagEnd::TableRow => MdTagEnd::TableRow,
        pulldown_cmark::TagEnd::TableCell => MdTagEnd::TableCell,
        pulldown_cmark::TagEnd::Emphasis => MdTagEnd::Emphasis,
        pulldown_cmark::TagEnd::Strong => MdTagEnd::Strong,
        pulldown_cmark::TagEnd::Strikethrough => MdTagEnd::Strikethrough,
        pulldown_cmark::TagEnd::Link => MdTagEnd::Link,
        pulldown_cmark::TagEnd::Image => MdTagEnd::Image,
        _ => MdTagEnd::Other,
    }
}

} // verus!

//! Markdown rendering: events, style tracking, tables, code blocks.
pub mod types;
pub mod table;
pub mod events;
pub mod model;
pub mod parser;
pub mod highlight;

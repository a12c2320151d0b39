//! The viewer's widgets: what each one shows, as lines of styled text.
pub mod viewer;
pub mod status_bar;
pub mod search_bar;
pub mod error_popup;
pub mod file_picker;

//! Model, validator and text codec for desktop entries: the small INI-like
//! files that describe launchers, links and directory shortcuts.
pub mod text;
pub mod desktop_entry;
pub mod desktop_reader;
pub mod entry_form;
pub mod round_trip;

//! Directory listings as pure functions: what a scan of a directory found goes
//! in, and the names, the table rows and the text to print come out.

pub mod args;
pub mod dir_utils;
pub mod entry;
pub mod host;
pub mod render;
pub mod sorter;
pub mod text;
pub mod walker;

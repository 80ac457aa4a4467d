//! A rectangular data set of text fields, kept in memory: reading it from
//! delimited text and writing it back, editing single fields, rows and
//! columns by 1-based index, and cutting it into pages for display.

pub mod csv;
pub mod editor;
pub mod error;
pub mod grid;
pub mod pager;
pub mod table;
pub mod text;

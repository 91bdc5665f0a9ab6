//! A small CSV reader: it turns the text of a CSV file into a table of
//! cells, and keeps the state of the table view that shows them.

pub mod text;
pub mod csv;
pub mod gui;
pub mod matcell;

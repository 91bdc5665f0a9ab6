//! Reading CSV text into a table of cells.

pub mod reader;

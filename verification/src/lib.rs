//! Inventory of media files.
//!
//! Each file's metadata document is normalised into a record of typed
//! tracks, the records are put in a total order, and a table is rendered
//! from them whose cells are padded to the width of their columns.
//!
//! - [`text`] and [`numeral`] hold helpers over strings and decimal numerals.
//! - [`bitrate`] gives a bitrate its display form.
//! - [`document`] reaches into a JSON document through the `json` crate.
//! - [`track`] normalises one raw track record into a typed track.
//! - [`record`] groups the tracks of a file and lays out its table row.
//! - [`order`] ranks records and sorts them.
//! - [`table`] renders the rows into aligned lines.
//! - [`inventory`] ties these together for the outcomes of a scan.

pub mod text;
pub mod numeral;
pub mod bitrate;
pub mod document;
pub mod track;
pub mod record;
pub mod order;
pub mod table;
pub mod inventory;

//! Renders JSON log lines as indented outlines.
//!
//! A line of a log is handed to [`prettifier::Prettifier::parse_string`] at
//! indent 0. Where the line is JSON, or holds JSON behind some text, it comes
//! back as an outline: an object as one line for each field, an array as one
//! line for each item, strings wrapped to the width of the terminal. Where
//! the line is a record of a test, its output is gathered and written with
//! the record that ends the test. Any other line comes back as it is.
//!
//! [`render`] says what an outline is, [`prettifier`] what records do to it,
//! and [`laws`] what holds of both.

pub mod buffer;
pub mod event;
pub mod json;
pub mod laws;
pub mod options;
pub mod order;
pub mod prettifier;
pub mod render;
pub mod text;

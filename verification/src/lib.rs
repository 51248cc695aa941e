//! Reading the electronic financial disclosures of the United States Senate.
//!
//! The library turns the pages and answers of the disclosure site into [`trade::Trade`] values
//! and decides which request comes next. It does no input or output of its own.
//!
//! - [`text`] and [`number`]: characters, words, pieces, decimal numbers.
//! - [`html`]: a tag scan for table rows, cells and attributes.
//! - [`trade`], [`fields`] and [`report`]: the fields of a report, the report list, the
//!   transactions of a report.
//! - [`ingest`]: the steps of collecting a year.
//! - [`laws`]: what holds of all of these together.

pub mod fields;
pub mod html;
pub mod ingest;
pub mod laws;
pub mod number;
pub mod report;
pub mod text;
pub mod trade;

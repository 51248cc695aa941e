//! What holds of the library as a whole.

pub mod text;
pub mod number;
pub mod html;
pub mod fields;
pub mod report;
pub mod ingest;
pub mod views;

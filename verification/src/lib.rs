//! Extraction of credit-card transactions from statement text.
//!
//! A scanned statement arrives as ordered pages of plain text lines. This
//! library classifies each line as a card-header line, a transaction line, or
//! neither; parses signed amounts into cents; carries the active card context
//! forward across lines; and builds the resulting sequence of transaction
//! records. A small tagging and totalling model sits on top of the records.
//!
//! Obtaining the text lines from a document, and presenting the records, are
//! left to the surrounding application.

pub mod amount;
pub mod chars;
pub mod classify;
pub mod extract;
pub mod totals;
pub mod transaction;

//! Integrity checking of file trees: content digests, a line-oriented
//! manifest of those digests, and a tally of agreeing and disagreeing bytes.

pub mod compare;
pub mod digest;
pub mod error;
pub mod footer;
pub mod generate;
pub mod manifest;
pub mod report;
pub mod tally;
pub mod text;
pub mod verification;

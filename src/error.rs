//! Failures that abort a run. Content mismatches are not failures: they
//! are recorded in a tally.

use vstd::prelude::*;

verus! {

/// Why a manifest cannot be trusted.
#[derive(Debug, Clone, Copy, PartialEq, Eq, Structural)]
pub enum Corruption {
    /// The last line is not `<integer> bytes hashed`.
    BadFooter,
    /// A byte count is not an integer that fits in `usize`.
    BadNumber,
    /// A body line does not have four fields.
    WrongFieldCount,
    /// A path field is not base64.
    BadBase64,
    /// A decoded path is not UTF-8.
    BadUtf8,
}

#[derive(Debug, Clone, PartialEq, Eq)]
pub enum ConfidenceError {
    /// A regular file was required.
    NotARegularFile(String),
    /// A walked path does not lie under the root it was walked from.
    PathMismatch { root: String, path: String },
    /// The manifest does not follow its grammar.
    CorruptManifest(Corruption),
}

} // verus!

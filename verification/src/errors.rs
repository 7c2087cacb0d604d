//! Error taxonomy of the extraction and alignment pipeline.
//!
//! Every failure is reported as a typed value; the caller decides to
//! abort the whole job. Configuration and data failures are fatal for the
//! run, a bin-count mismatch signals an internal consistency defect
//! rather than bad input.

use vstd::prelude::*;

verus! {

/// A fatal condition met while extracting columns, deriving a bin range
/// or aligning a sequence with its histogram.
#[derive(Debug, Clone, Copy, PartialEq, Eq, Structural)]
pub enum JobError {
    /// A requested column index does not exist on some retained line.
    ColumnMissing { index: usize },
    /// A token in a histogram column is not a decimal integer in range.
    TokenParse { index: usize },
    /// A histogram column does not increase strictly line over line.
    NotMonotonic,
    /// A histogram column was configured but no line carries data.
    EmptyHistData,
    /// The same column index was configured for both histogram bounds.
    HistColumnsEqual,
    /// A probability column holds no finite entry at all.
    AllInvalid { col_index: usize },
    /// A trim count pushed an index outside the representable range.
    TrimOverflow { col_index: usize },
    /// Trimming inverted the retained interval.
    InvertedInterval { col_index: usize },
    /// The histogram has fewer bins than the trimmed sequence needs.
    BinCountMismatch { col_index: usize },
    /// A bin range with a lower bound above its upper bound.
    InvalidRange,
    /// A bin range with more bins than are addressable.
    RangeTooLarge,
    /// The configured shift pushed a bin coordinate outside its type.
    ShiftOverflow,
    /// The rightmost probability column is not right of the leftmost.
    ColRangeInverted,
}

impl JobError {
    /// A short human-readable description of the failure.
    pub fn message(&self) -> &'static str {
        match self {
            JobError::ColumnMissing { .. } => "a requested column does not exist on a data line",
            JobError::TokenParse { .. } => "a histogram token is not a decimal integer",
            JobError::NotMonotonic => "histogram column values must increase strictly",
            JobError::EmptyHistData => "no data lines to derive a histogram from",
            JobError::HistColumnsEqual => "left and right histogram columns must differ",
            JobError::AllInvalid { .. } => "a probability column holds only invalid entries",
            JobError::TrimOverflow { .. } => "a trim count leaves no valid index range",
            JobError::InvertedInterval { .. } => "trimming inverted the retained interval",
            JobError::BinCountMismatch { .. } => "histogram bin count does not cover the sequence",
            JobError::InvalidRange => "bin range lower bound must lie below its upper bound",
            JobError::RangeTooLarge => "bin range holds more bins than are addressable",
            JobError::ShiftOverflow => "shift pushes a bin coordinate out of range",
            JobError::ColRangeInverted => "the column range upper bound must exceed the lower",
        }
    }
}

} // verus!

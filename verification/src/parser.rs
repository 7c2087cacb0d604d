//! Job-level configuration selectors and their resolution.
//!
//! A merge job arrives as a structured document; its recognized options
//! are resolved here into a fully determined [`crate::worker::Job`]:
//! missing selectors fall back to documented defaults, a global comment
//! prefix is copied into every file that set none, and each file's
//! probability columns are sorted and deduplicated before any extraction
//! begins.

use vstd::prelude::*;

verus! {

/// The supported histogram representations.
#[derive(Debug, Clone, Copy, PartialEq, Eq, Structural)]
pub enum HistType {
    /// Contiguous unsigned integer bins.
    HistUsizeFast,
    /// Contiguous signed integer bins.
    HistIsizeFast,
}

/// The supported merge policies.
#[derive(Debug, Clone, Copy, PartialEq, Eq, Structural)]
pub enum MergeType {
    /// Align the windows and average in logarithmic space.
    Average,
    /// Align the windows using derivative information.
    Derivative,
}

impl Default for HistType {
    /// Signed contiguous bins are the default histogram type.
    fn default() -> (r: Self)
        ensures
            r == HistType::HistIsizeFast,
    {
        HistType::HistIsizeFast
    }
}

} // verus!

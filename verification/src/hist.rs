//! Integer bin ranges.
//!
//! A histogram's support is an inclusive integer interval `[left, right]`
//! with one bin per integer. The constructors mirror the two ways a range
//! arrives: from an exclusive upper bound (one past the last bin) or from
//! an inclusive one.

use vstd::prelude::*;
use crate::errors::JobError;

verus! {

/// An inclusive integer interval of histogram bins.
#[derive(Debug, Clone, Copy, PartialEq, Eq, Structural)]
pub struct BinRange {
    /// Lower bound, inclusive.
    pub left: i64,
    /// Upper bound, inclusive.
    pub right: i64,
}

impl BinRange {
    /// A well-formed range: non-empty, with an addressable bin count.
    pub open spec fn wf(self) -> bool {
        self.left <= self.right && self.right - self.left + 1 <= usize::MAX
    }

    /// Number of bins.
    pub open spec fn count(self) -> int {
        self.right - self.left + 1
    }

    /// Coordinate of the bin at position `k`.
    pub open spec fn bin(self, k: int) -> int {
        self.left + k
    }

    /// Builds the range `[left, right - 1]`: `right` is an exclusive
    /// upper bound. Fails when the interval is empty or not addressable.
    pub fn new(left: i64, right: i64) -> (r: Result<BinRange, JobError>)
        ensures
            r is Ok <==> left < right && right - 1 - left + 1 <= usize::MAX,
            r matches Ok(b) ==> b.left == left && b.right == right - 1 && b.wf(),
            r matches Err(e) ==> (e == JobError::InvalidRange || e == JobError::RangeTooLarge),
    {
        if right == i64::MIN {
            return Err(JobError::InvalidRange);
        }
        Self::new_inclusive(left, right - 1)
    }

    /// Builds the inclusive range `[left, right]`. Fails when `left`
    /// exceeds `right` or the bin count is not addressable.
    pub fn new_inclusive(left: i64, right: i64) -> (r: Result<BinRange, JobError>)
        ensures
            r is Ok <==> left <= right && right - left + 1 <= usize::MAX,
            r matches Ok(b) ==> b.left == left && b.right == right && b.wf(),
            r matches Err(e) ==> (e == JobError::InvalidRange || e == JobError::RangeTooLarge),
    {
        if left > right {
            return Err(JobError::InvalidRange);
        }
        let span: i128 = (right as i128) - (left as i128) + 1;
        if span > usize::MAX as i128 {
            return Err(JobError::RangeTooLarge);
        }
        Ok(BinRange { left, right })
    }

    /// Number of bins of a well-formed range.
    pub fn bin_count(&self) -> (r: usize)
        requires
            self.wf(),
        ensures
            r == self.count(),
    {
        ((self.right as i128) - (self.left as i128) + 1) as usize
    }

    /// The sub-range covering the bins at positions
    /// `index_left ..= index_right` of this range.
    pub fn sub_range(&self, index_left: usize, index_right: usize) -> (r: BinRange)
        requires
            self.wf(),
            index_left <= index_right,
            index_right < self.count(),
        ensures
            r.left == self.bin(index_left as int),
            r.right == self.bin(index_right as int),
            r.wf(),
    {
        let l = ((self.left as i128) + (index_left as i128)) as i64;
        let r = ((self.left as i128) + (index_right as i128)) as i64;
        BinRange { left: l, right: r }
    }
}

} // verus!

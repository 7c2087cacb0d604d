//! Sequence trimming and histogram alignment.
//!
//! A raw probability column is trimmed of its leading and trailing
//! invalid entries, then of the extra counts its descriptor asks for,
//! and the file's bin range is narrowed to the bins of the retained
//! positions. The resulting pair always satisfies
//! `bin count == sequence length`; here that invariant is proved rather
//! than asserted at run time.

use vstd::prelude::*;
use crate::errors::JobError;
use crate::file_parser::{FileInfo, LogCol};
use crate::hist::BinRange;
use crate::text::str_views;
use crate::values::{NAN_BITS, finite_bits, is_finite_bits, normalize_values, normalized};

verus! {

/// Some entry of `s` is finite.
pub open spec fn has_finite(s: Seq<u64>) -> bool {
    exists|i: int| 0 <= i < s.len() && finite_bits(#[trigger] s[i])
}

/// Position of the first finite entry.
pub open spec fn first_finite(s: Seq<u64>) -> int
    decreases s.len(),
{
    if s.len() == 0 {
        0
    } else if finite_bits(s[0]) {
        0
    } else {
        1 + first_finite(s.drop_first())
    }
}

/// Position of the last finite entry.
pub open spec fn last_finite(s: Seq<u64>) -> int
    decreases s.len(),
{
    if s.len() == 0 {
        -1
    } else if finite_bits(s.last()) {
        s.len() - 1
    } else {
        last_finite(s.drop_last())
    }
}

/// Normalized copy of `s`: finite entries kept, all others replaced by
/// the canonical invalid marker.
pub open spec fn norm_seq(s: Seq<u64>) -> Seq<u64> {
    s.map_values(|b: u64| if finite_bits(b) {
        b
    } else {
        NAN_BITS
    })
}

pub proof fn lemma_first_finite_at(s: Seq<u64>, i: int)
    requires
        0 <= i < s.len(),
        finite_bits(s[i]),
        forall|j: int| 0 <= j < i ==> !finite_bits(#[trigger] s[j]),
    ensures
        first_finite(s) == i,
    decreases i,
{
    if i > 0 {
        let d = s.drop_first();
        assert(d[i - 1] == s[i]);
        assert forall|j: int| 0 <= j < i - 1 implies !finite_bits(#[trigger] d[j]) by {
            assert(d[j] == s[j + 1]);
        }
        lemma_first_finite_at(d, i - 1);
    }
}

pub proof fn lemma_last_finite_at(s: Seq<u64>, i: int)
    requires
        0 <= i < s.len(),
        finite_bits(s[i]),
        forall|j: int| i < j < s.len() ==> !finite_bits(#[trigger] s[j]),
    ensures
        last_finite(s) == i,
    decreases s.len(),
{
    if i < s.len() - 1 {
        assert(!finite_bits(s.last()));
        let d = s.drop_last();
        assert(d[i] == s[i]);
        assert forall|j: int| i < j < d.len() implies !finite_bits(#[trigger] d[j]) by {
            assert(d[j] == s[j]);
        }
        lemma_last_finite_at(d, i);
    }
}

/// Extra left trim of a column descriptor, zero when absent.
pub open spec fn trim_left_of(col: LogCol) -> int {
    match col.trim_left {
        Option::Some(t) => t as int,
        Option::None => 0,
    }
}

/// Extra right trim of a column descriptor, zero when absent.
pub open spec fn trim_right_of(col: LogCol) -> int {
    match col.trim_right {
        Option::Some(t) => t as int,
        Option::None => 0,
    }
}

/// Final left index retained after invalid-entry and extra trimming.
pub open spec fn align_il(values: Seq<u64>, col: LogCol) -> int {
    first_finite(values) + trim_left_of(col)
}

/// Final right index retained after invalid-entry and extra trimming.
pub open spec fn align_ir(values: Seq<u64>, col: LogCol) -> int {
    last_finite(values) - trim_right_of(col)
}

/// A column can be aligned with its bin range: it has a finite entry,
/// trimming leaves a non-inverted interval, and the range has a bin for
/// every retained position.
pub open spec fn align_ok(values: Seq<u64>, col: LogCol, range: BinRange) -> bool {
    has_finite(values) && align_il(values, col) <= align_ir(values, col) && align_ir(values, col)
        < range.count()
}

/// The retained slice of the normalized sequence.
pub open spec fn align_values(values: Seq<u64>, col: LogCol) -> Seq<u64> {
    norm_seq(values).subrange(align_il(values, col), align_ir(values, col) + 1)
}

/// The bin sub-range matching the retained slice.
pub open spec fn align_range(values: Seq<u64>, col: LogCol, range: BinRange) -> BinRange {
    BinRange {
        left: range.bin(align_il(values, col)) as i64,
        right: range.bin(align_ir(values, col)) as i64,
    }
}

/// Whether the extra trims provoke an over-trimming warning.
pub open spec fn align_warn(values: Seq<u64>, col: LogCol) -> bool {
    (col.trim_left is Some && align_il(values, col) >= last_finite(values)) || (col.trim_right
        is Some && align_il(values, col) >= align_ir(values, col))
}

/// The first finite position is never negative, and the last finite
/// position lies inside the sequence.
pub proof fn lemma_finite_positions(s: Seq<u64>)
    ensures
        first_finite(s) >= 0,
        last_finite(s) < s.len(),
    decreases s.len(),
{
    if s.len() > 0 {
        lemma_finite_positions(s.drop_first());
        lemma_finite_positions(s.drop_last());
    }
}

/// Alignment keeps bin count and sequence length equal: whenever a
/// column can be aligned with a bin range, the narrowed range has
/// exactly one bin per retained value.
pub proof fn lemma_align_preserves_count(values: Seq<u64>, col: LogCol, range: BinRange)
    requires
        range.wf(),
        align_ok(values, col, range),
    ensures
        align_range(values, col, range).wf(),
        align_range(values, col, range).count() == align_values(values, col).len(),
{
    lemma_finite_positions(values);
    let il = align_il(values, col);
    let ir = align_ir(values, col);
    assert(0 <= il <= ir < range.count());
    assert(align_values(values, col).len() == ir + 1 - il);
    assert(align_range(values, col, range).left == range.left + il);
    assert(align_range(values, col, range).right == range.left + ir);
}

/// One histogram sub-range together with the probability sequence it
/// bins, with matching lengths.
#[derive(Debug, Clone)]
pub struct AlignedPair {
    /// The bins of this sampling window.
    pub range: BinRange,
    /// One normalized value per bin.
    pub values: Vec<u64>,
}

impl AlignedPair {
    /// A well-formed pair: a well-formed range whose bin count equals
    /// the sequence length, over a normalized sequence.
    pub open spec fn wf(self) -> bool {
        self.range.wf() && self.range.count() == self.values@.len() && normalized(self.values@)
    }
}

/// Trims one raw column and narrows the bin range to match.
///
/// The invalid leading and trailing entries are dropped, then the extra
/// trims of the descriptor; the returned pair keeps the bins at the
/// retained positions and its bin count equals its sequence length. The
/// flag reports the over-trimming warning.
pub fn align_column(values: Vec<u64>, col: &LogCol, range: &BinRange) -> (r: Result<
    (AlignedPair, bool),
    JobError,
>)
    requires
        range.wf(),
    ensures
        r is Ok <==> align_ok(values@, *col, *range),
        r matches Ok(p) ==> p.0.range == align_range(values@, *col, *range) && p.0.values@
            == align_values(values@, *col) && p.0.wf() && p.1 == align_warn(values@, *col),
        r matches Err(e) ==> matches!(
            e,
            JobError::AllInvalid { .. } | JobError::TrimOverflow { .. }
                | JobError::InvertedInterval { .. } | JobError::BinCountMismatch { .. }
        ),
        r == Err::<(AlignedPair, bool), JobError>(
            JobError::AllInvalid { col_index: col.index },
        ) <==> !has_finite(values@),
        r == Err::<(AlignedPair, bool), JobError>(
            JobError::TrimOverflow { col_index: col.index },
        ) <==> has_finite(values@) && (align_il(values@, *col) > usize::MAX || align_ir(
            values@,
            *col,
        ) < 0),
        r == Err::<(AlignedPair, bool), JobError>(
            JobError::InvertedInterval { col_index: col.index },
        ) <==> has_finite(values@) && align_il(values@, *col) <= usize::MAX && align_ir(
            values@,
            *col,
        ) >= 0 && align_il(values@, *col) > align_ir(values@, *col),
        r == Err::<(AlignedPair, bool), JobError>(
            JobError::BinCountMismatch { col_index: col.index },
        ) <==> has_finite(values@) && align_il(values@, *col) <= align_ir(values@, *col)
            && align_ir(values@, *col) >= range.count(),
{
    let n = values.len();
    let mut i: usize = 0;
    while i < n && !is_finite_bits(values[i])
        invariant
            n == values@.len(),
            i <= n,
            forall|j: int| 0 <= j < i ==> !finite_bits(#[trigger] values@[j]),
        decreases n - i,
    {
        i += 1;
    }
    if i == n {
        return Result::Err(JobError::AllInvalid { col_index: col.index });
    }
    proof {
        lemma_first_finite_at(values@, i as int);
    }
    let mut e: usize = n;
    while e > i + 1 && !is_finite_bits(values[e - 1])
        invariant
            n == values@.len(),
            i < e <= n,
            finite_bits(values@[i as int]),
            forall|j: int| e <= j < n ==> !finite_bits(#[trigger] values@[j]),
        decreases e,
    {
        e -= 1;
    }
    let ir0 = e - 1;
    proof {
        lemma_last_finite_at(values@, ir0 as int);
    }
    let il0 = i;
    let tl = match col.trim_left {
        Option::Some(t) => t,
        Option::None => 0,
    };
    let tr = match col.trim_right {
        Option::Some(t) => t,
        Option::None => 0,
    };
    if tl > usize::MAX - il0 {
        return Result::Err(JobError::TrimOverflow { col_index: col.index });
    }
    let il = il0 + tl;
    if tr > ir0 {
        return Result::Err(JobError::TrimOverflow { col_index: col.index });
    }
    let ir = ir0 - tr;
    let warn = (col.trim_left.is_some() && il >= ir0) || (col.trim_right.is_some() && il >= ir);
    if il > ir {
        return Result::Err(JobError::InvertedInterval { col_index: col.index });
    }
    let count = range.bin_count();
    if ir >= count {
        return Result::Err(JobError::BinCountMismatch { col_index: col.index });
    }
    let mut vals = values;
    normalize_values(&mut vals);
    proof {
        assert(vals@ =~= norm_seq(values@));
    }
    let mut out: Vec<u64> = Vec::new();
    let mut k: usize = il;
    proof {
        assert(out@ =~= norm_seq(values@).subrange(il as int, il as int));
    }
    while k <= ir
        invariant
            vals@ == norm_seq(values@),
            il <= k <= ir + 1,
            ir < count,
            ir < vals@.len(),
            out@ == norm_seq(values@).subrange(il as int, k as int),
        decreases ir + 1 - k,
    {
        out.push(vals[k]);
        proof {
            assert(out@ =~= norm_seq(values@).subrange(il as int, k + 1));
        }
        k += 1;
    }
    let sub = range.sub_range(il, ir);
    let pair = AlignedPair { range: sub, values: out };
    proof {
        assert(normalized(norm_seq(values@)));
        assert(normalized(pair.values@));
        assert(pair.wf());
    }
    Result::Ok((pair, warn))
}

impl FileInfo {
    /// Whether this file's bin range can be derived.
    pub open spec fn hist_ok(self, lines: Seq<Seq<char>>) -> bool {
        match self.index_hist_left {
            Option::None => self.count_range_ok(lines),
            Option::Some(il) => match self.index_hist_right {
                Option::None => self.left_col_range_ok(lines, il as int),
                Option::Some(ir) => self.two_col_range_ok(lines, il as int, ir as int),
            },
        }
    }

    /// The derived bin range, when it can be derived.
    pub open spec fn hist_range(self, lines: Seq<Seq<char>>) -> BinRange {
        match self.index_hist_left {
            Option::None => BinRange {
                left: self.shift_val() as i64,
                right: (self.shift_val() + self.retained_lines(lines).len() - 1) as i64,
            },
            Option::Some(il) => match self.index_hist_right {
                Option::None => BinRange {
                    left: (self.shift_val() + self.int_col(lines, il as int)[0]) as i64,
                    right: (self.shift_val() + self.int_col(lines, il as int).last()) as i64,
                },
                Option::Some(ir) => BinRange {
                    left: (self.shift_val() + self.int_col(lines, il as int)[0]) as i64,
                    right: (self.shift_val() + self.int_col(lines, ir as int).last() - 1) as i64,
                },
            },
        }
    }

    /// Derives the file's bin range and aligns every probability column
    /// with it.
    ///
    /// Takes one raw bit-pattern sequence per configured column and
    /// returns, per column, the aligned pair and its over-trimming
    /// warning flag.
    pub fn get_logs_and_hists(&self, lines: &Vec<String>, log_values: Vec<Vec<u64>>) -> (r: Result<
        (Vec<AlignedPair>, Vec<bool>),
        JobError,
    >)
        requires
            log_values@.len() == self.log_cols@.len(),
        ensures
            r is Ok <==> self.hist_ok(str_views(lines@)) && (forall|k: int|
                0 <= k < self.log_cols@.len() ==> align_ok(
                    #[trigger] log_values@[k]@,
                    self.log_cols@[k],
                    self.hist_range(str_views(lines@)),
                )),
            r matches Ok(p) ==> p.0@.len() == self.log_cols@.len() && p.1@.len()
                == self.log_cols@.len() && (forall|k: int|
                0 <= k < self.log_cols@.len() ==> {
                    let rng = self.hist_range(str_views(lines@));
                    (#[trigger] p.0@[k]).range == align_range(log_values@[k]@, self.log_cols@[k], rng)
                        && p.0@[k].values@ == align_values(log_values@[k]@, self.log_cols@[k])
                        && p.0@[k].wf() && p.1@[k] == align_warn(log_values@[k]@, self.log_cols@[k])
                }),
    {
        let ghost lvs = str_views(lines@);
        let hist = match self.get_hist_fast(lines) {
            Result::Ok(h) => h,
            Result::Err(e) => {
                proof {
                    assert(!self.hist_ok(lvs));
                }
                return Result::Err(e);
            },
        };
        proof {
            assert(self.hist_ok(lvs));
            assert(hist == self.hist_range(lvs));
        }
        let ncols = self.log_cols.len();
        let mut vals = log_values;
        let mut pairs: Vec<AlignedPair> = Vec::new();
        let mut warns: Vec<bool> = Vec::new();
        let mut k: usize = 0;
        while k < ncols
            invariant
                ncols == self.log_cols@.len(),
                log_values@.len() == ncols,
                k <= ncols,
                hist == self.hist_range(lvs),
                hist.wf(),
                lvs == str_views(lines@),
                vals@ =~= log_values@.subrange(k as int, ncols as int),
                pairs@.len() == k,
                warns@.len() == k,
                forall|j: int|
                    0 <= j < k ==> align_ok(
                        #[trigger] log_values@[j]@,
                        self.log_cols@[j],
                        self.hist_range(lvs),
                    ),
                forall|j: int|
                    0 <= j < k ==> (#[trigger] pairs@[j]).range == align_range(
                        log_values@[j]@,
                        self.log_cols@[j],
                        self.hist_range(lvs),
                    ) && pairs@[j].values@ == align_values(log_values@[j]@, self.log_cols@[j])
                        && pairs@[j].wf() && warns@[j] == align_warn(
                        log_values@[j]@,
                        self.log_cols@[j],
                    ),
            decreases ncols - k,
        {
            let v = vals.remove(0);
            proof {
                assert(v@ == log_values@[k as int]@);
                assert(vals@ =~= log_values@.subrange(k + 1, ncols as int));
            }
            let col = self.log_cols[k];
            match align_column(v, &col, &hist) {
                Result::Ok((pair, w)) => {
                    let ghost old_pairs = pairs@;
                    let ghost old_warns = warns@;
                    pairs.push(pair);
                    warns.push(w);
                    proof {
                        assert forall|j: int| 0 <= j < k + 1 implies (#[trigger] pairs@[j]).range
                            == align_range(
                            log_values@[j]@,
                            self.log_cols@[j],
                            self.hist_range(lvs),
                        ) && pairs@[j].values@ == align_values(log_values@[j]@, self.log_cols@[j])
                            && pairs@[j].wf() && warns@[j] == align_warn(
                            log_values@[j]@,
                            self.log_cols@[j],
                        ) by {
                            if j < k {
                                assert(pairs@[j] == old_pairs[j]);
                                assert(warns@[j] == old_warns[j]);
                            } else {
                                assert(pairs@[j] == pair);
                                assert(warns@[j] == w);
                                assert(v@ == log_values@[j]@);
                                assert(col == self.log_cols@[j]);
                            }
                        }
                    }
                },
                Result::Err(e) => {
                    return Result::Err(e);
                },
            }
            k += 1;
        }
        Result::Ok((pairs, warns))
    }
}

} // verus!

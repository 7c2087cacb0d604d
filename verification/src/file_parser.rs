//! File descriptors and the column extraction engine.
//!
//! A [`FileInfo`] describes one input source: which columns hold
//! logarithmic probabilities, which columns (if any) define the histogram
//! binning, an optional comment prefix whose lines are skipped, an
//! optional separator and an optional shift of the bin coordinates. The
//! functions here work on the file's lines handed over as strings: they
//! count retained lines, pull out the configured columns in one pass per
//! line and derive the file's bin range.

use vstd::prelude::*;
use crate::errors::JobError;
use crate::hist::BinRange;
use crate::numbers::{int_literal_val, is_int_literal, parse_i64};
use crate::text::{has_prefix, line_tokens, starts_with, str_views, tokenize};

verus! {

/// One probability column: its zero-based index and optional extra trim
/// counts applied after invalid entries are removed.
#[derive(Debug, Clone, Copy)]
pub struct LogCol {
    /// Zero-based absolute column index.
    pub index: usize,
    /// Extra samples to drop at the right end after invalid-entry trimming.
    pub trim_right: Option<usize>,
    /// Extra samples to drop at the left end after invalid-entry trimming.
    pub trim_left: Option<usize>,
}

impl LogCol {
    /// A column without extra trimming.
    pub fn new(index: usize) -> (r: Self)
        ensures
            r.index == index,
            r.trim_left is None,
            r.trim_right is None,
    {
        Self { index, trim_left: None, trim_right: None }
    }
}

/// Which histogram bound a column defines.
pub enum LeftRight {
    Left,
    Right,
}

/// A histogram-defining column together with the bound it defines.
pub struct HistIndex {
    /// Which bound the column defines.
    pub which: LeftRight,
    /// Zero-based absolute column index.
    pub index: usize,
}

/// One input source and its column configuration.
#[derive(Debug, Clone)]
pub struct FileInfo {
    /// Path of the input file; carried for diagnostics only.
    pub path: String,
    /// Column holding the lower histogram bound, if any.
    pub index_hist_left: Option<usize>,
    /// Column holding the upper histogram bound, if any.
    pub index_hist_right: Option<usize>,
    /// The probability columns to extract.
    pub log_cols: Vec<LogCol>,
    /// Lines starting with this prefix are skipped entirely.
    pub comment: Option<String>,
    /// Field separator; a run of whitespace when absent.
    pub sep: Option<String>,
    /// Shift added to every derived bin coordinate.
    pub shift: Option<i64>,
}

/// A line is retained unless it starts with the comment prefix.
pub open spec fn keep_line(comment: Option<Seq<char>>, line: Seq<char>) -> bool {
    match comment {
        Option::Some(c) => !has_prefix(line, c),
        Option::None => true,
    }
}

/// The retained lines, in order.
pub open spec fn retained(comment: Option<Seq<char>>, lines: Seq<Seq<char>>) -> Seq<Seq<char>>
    decreases lines.len(),
{
    if lines.len() == 0 {
        Seq::empty()
    } else {
        let prefix = retained(comment, lines.drop_last());
        if keep_line(comment, lines.last()) {
            prefix.push(lines.last())
        } else {
            prefix
        }
    }
}

/// `c` is one of the columns of `orig`.
pub open spec fn col_in(c: LogCol, orig: Seq<LogCol>) -> bool {
    exists|j: int| 0 <= j < orig.len() && #[trigger] orig[j] == c
}

/// Some column in `cols` has the index `idx`.
pub open spec fn contains_index(cols: Seq<LogCol>, idx: usize) -> bool {
    exists|k: int| 0 <= k < cols.len() && #[trigger] cols[k].index == idx
}

/// A sequence of indices that increases strictly.
pub open spec fn strict_sorted(s: Seq<usize>) -> bool {
    forall|i: int| 0 <= i < s.len() - 1 ==> #[trigger] s[i] < s[i + 1]
}

/// A strictly increasing integer sequence.
pub open spec fn strictly_inc(s: Seq<int>) -> bool {
    forall|t: int| 0 <= t < s.len() - 1 ==> #[trigger] s[t] < s[t + 1]
}

/// In a strictly increasing sequence, earlier entries are no larger.
pub proof fn lemma_inc_le(s: Seq<int>, a: int, b: int)
    requires
        strictly_inc(s),
        0 <= a <= b < s.len(),
    ensures
        s[a] <= s[b],
    decreases b - a,
{
    if a < b {
        lemma_inc_le(s, a, b - 1);
        assert(s[b - 1] < s[b]);
    }
}

/// Checks that the values increase strictly.
fn check_strictly_inc(v: &Vec<i64>) -> (r: bool)
    ensures
        r == strictly_inc(v@.map_values(|x: i64| x as int)),
{
    let ghost m = v@.map_values(|x: i64| x as int);
    let n = v.len();
    if n == 0 {
        return true;
    }
    let mut i: usize = 0;
    while i + 1 < n
        invariant
            n == v@.len(),
            n >= 1,
            m == v@.map_values(|x: i64| x as int),
            i <= n - 1,
            forall|t: int| 0 <= t < i ==> #[trigger] m[t] < m[t + 1],
        decreases n - i,
    {
        if v[i] >= v[i + 1] {
            proof {
                assert(m[i as int] >= m[i + 1]);
            }
            return false;
        }
        i += 1;
    }
    true
}

impl FileInfo {
    /// View of the comment prefix.
    pub open spec fn comment_view(self) -> Option<Seq<char>> {
        match self.comment {
            Option::Some(c) => Option::Some(c@),
            Option::None => Option::None,
        }
    }

    /// View of the separator.
    pub open spec fn sep_view(self) -> Option<Seq<char>> {
        match self.sep {
            Option::Some(s) => Option::Some(s@),
            Option::None => Option::None,
        }
    }

    /// The configured shift, zero when absent.
    pub open spec fn shift_val(self) -> int {
        match self.shift {
            Option::Some(s) => s as int,
            Option::None => 0,
        }
    }

    /// The indices of the probability columns.
    pub open spec fn col_indices(self) -> Seq<usize> {
        self.log_cols@.map_values(|c: LogCol| c.index)
    }

    /// The probability column indices increase strictly.
    pub open spec fn cols_sorted(self) -> bool {
        strict_sorted(self.col_indices())
    }

    /// The retained lines of this file.
    pub open spec fn retained_lines(self, lines: Seq<Seq<char>>) -> Seq<Seq<char>> {
        retained(self.comment_view(), lines)
    }

    /// Counts the lines that are not skipped as comments.
    pub fn count_lines(&self, lines: &Vec<String>) -> (r: usize)
        ensures
            r == self.retained_lines(str_views(lines@)).len(),
    {
        let ghost lvs = str_views(lines@);
        let n = lines.len();
        let mut counter: usize = 0;
        let mut i: usize = 0;
        proof {
            assert(lvs.subrange(0, 0) =~= Seq::<Seq<char>>::empty());
        }
        while i < n
            invariant
                n == lines@.len(),
                lvs == str_views(lines@),
                i <= n,
                counter == retained(self.comment_view(), lvs.subrange(0, i as int)).len(),
                counter <= i,
            decreases n - i,
        {
            let keep = match &self.comment {
                Option::Some(c) => !starts_with(lines[i].as_str(), c.as_str()),
                Option::None => true,
            };
            proof {
                assert(lvs.subrange(0, i + 1).drop_last() =~= lvs.subrange(0, i as int));
                assert(lvs.subrange(0, i + 1).last() == lvs[i as int]);
                assert(lvs[i as int] == lines@[i as int]@);
            }
            if keep {
                counter += 1;
            }
            i += 1;
        }
        proof {
            assert(lvs.subrange(0, n as int) =~= lvs);
        }
        counter
    }

    /// Pulls the tokens at the given strictly ascending column indices
    /// out of one line's token list, appending one token to each
    /// accumulator, in a single forward pass.
    ///
    /// Succeeds exactly when every requested index exists; the values
    /// appended are those a naive per-index lookup would find.
    pub fn collect_vals(
        &self,
        tokens: &Vec<String>,
        indices: &Vec<usize>,
        target: &mut Vec<Vec<String>>,
    ) -> (r: Result<(), JobError>)
        requires
            strict_sorted(indices@),
            old(target)@.len() == indices@.len(),
        ensures
            r is Ok <==> (forall|k: int|
                0 <= k < indices@.len() ==> indices@[k] < tokens@.len()),
            r is Ok ==> final(target)@.len() == old(target)@.len() && (forall|k: int|
                0 <= k < indices@.len() ==> str_views(#[trigger] final(target)@[k]@)
                    == str_views(old(target)@[k]@).push(tokens@[indices@[k] as int]@)),
            r matches Err(e) ==> final(target)@ == old(target)@ && (exists|k: int|
                0 <= k < indices@.len() && indices@[k] >= tokens@.len() && e
                    == (JobError::ColumnMissing { index: indices@[k] })),
    {
        let m = indices.len();
        let mut k: usize = 0;
        while k < m
            invariant
                m == indices@.len(),
                k <= m,
                forall|j: int| 0 <= j < k ==> indices@[j] < tokens@.len(),
            decreases m - k,
        {
            if indices[k] >= tokens.len() {
                return Err(JobError::ColumnMissing { index: indices[k] });
            }
            k += 1;
        }
        let mut k: usize = 0;
        while k < m
            invariant
                m == indices@.len(),
                m == old(target)@.len(),
                k <= m,
                target@.len() == m,
                forall|j: int| 0 <= j < m ==> indices@[j] < tokens@.len(),
                forall|j: int|
                    k <= j < m ==> #[trigger] target@[j]@ == old(target)@[j]@,
                forall|j: int|
                    0 <= j < k ==> str_views(#[trigger] target@[j]@) == str_views(
                        old(target)@[j]@,
                    ).push(tokens@[indices@[j] as int]@),
            decreases m - k,
        {
            let tok = tokens[indices[k]].clone();
            let ghost pre = target@;
            let mut col = target.remove(k);
            col.push(tok);
            proof {
                assert(str_views(col@) =~~= str_views(pre[k as int]@).push(
                    tokens@[indices@[k as int] as int]@,
                ));
            }
            target.insert(k, col);
            proof {
                assert(target@ =~= pre.update(k as int, col));
            }
            k += 1;
        }
        Ok(())
    }


    /// Every retained line has a token at column `idx`.
    pub open spec fn col_exists(self, lines: Seq<Seq<char>>, idx: int) -> bool {
        forall|i: int|
            0 <= i < lines.len() && keep_line(self.comment_view(), #[trigger] lines[i]) ==> idx
                < line_tokens(lines[i], self.sep_view()).len()
    }

    /// Every configured probability column exists on every retained line.
    pub open spec fn cols_exist(self, lines: Seq<Seq<char>>) -> bool {
        forall|k: int|
            0 <= k < self.log_cols@.len() ==> self.col_exists(
                lines,
                #[trigger] self.log_cols@[k].index as int,
            )
    }

    /// The tokens of column `idx`, one per retained line, in line order.
    pub open spec fn col_toks(self, lines: Seq<Seq<char>>, idx: int) -> Seq<Seq<char>> {
        self.retained_lines(lines).map_values(|l: Seq<char>| line_tokens(l, self.sep_view())[idx])
    }

    /// Every retained line has an integer token at column `idx` whose
    /// value fits an `i64`.
    pub open spec fn int_col_ok(self, lines: Seq<Seq<char>>, idx: int) -> bool {
        forall|i: int|
            0 <= i < lines.len() && keep_line(self.comment_view(), #[trigger] lines[i])
                ==> idx < line_tokens(lines[i], self.sep_view()).len() && is_int_literal(
                line_tokens(lines[i], self.sep_view())[idx],
            ) && i64::MIN <= int_literal_val(line_tokens(lines[i], self.sep_view())[idx])
                <= i64::MAX
    }

    /// The integer values of column `idx`, one per retained line.
    pub open spec fn int_col(self, lines: Seq<Seq<char>>, idx: int) -> Seq<int> {
        self.col_toks(lines, idx).map_values(|t: Seq<char>| int_literal_val(t))
    }

    /// The indices of the probability columns, as a vector.
    fn col_index_vec(&self) -> (r: Vec<usize>)
        ensures
            r@ == self.col_indices(),
    {
        let n = self.log_cols.len();
        let mut v: Vec<usize> = Vec::new();
        let mut j: usize = 0;
        while j < n
            invariant
                n == self.log_cols@.len(),
                j <= n,
                v@ =~= self.col_indices().subrange(0, j as int),
            decreases n - j,
        {
            v.push(self.log_cols[j].index);
            proof {
                assert(v@ =~= self.col_indices().subrange(0, j + 1));
            }
            j += 1;
        }
        proof {
            assert(self.col_indices().subrange(0, n as int) =~= self.col_indices());
        }
        v
    }

    /// Extracts, per probability column, the token of every retained
    /// line, in one forward pass per line.
    ///
    /// Succeeds exactly when every configured column exists on every
    /// retained line; the result holds one token vector per column, in
    /// column order, each in line order.
    pub fn log_prob_tokens(&self, lines: &Vec<String>) -> (r: Result<Vec<Vec<String>>, JobError>)
        requires
            self.cols_sorted(),
        ensures
            r is Ok <==> self.cols_exist(str_views(lines@)),
            r matches Ok(cols) ==> cols@.len() == self.log_cols@.len() && (forall|k: int|
                0 <= k < cols@.len() ==> str_views(#[trigger] cols@[k]@) == self.col_toks(
                    str_views(lines@),
                    self.log_cols@[k].index as int,
                )),
            r matches Err(e) ==> matches!(e, JobError::ColumnMissing { .. }),
    {
        let ghost lvs = str_views(lines@);
        let ncols = self.log_cols.len();
        let indices = self.col_index_vec();
        let mut target: Vec<Vec<String>> = Vec::new();
        let mut t: usize = 0;
        while t < ncols
            invariant
                t <= ncols,
                target@.len() == t,
                forall|k: int| 0 <= k < t ==> (#[trigger] target@[k]@).len() == 0,
            decreases ncols - t,
        {
            target.push(Vec::new());
            t += 1;
        }
        let n = lines.len();
        let mut i: usize = 0;
        proof {
            assert(lvs.subrange(0, 0) =~= Seq::<Seq<char>>::empty());
            assert forall|k: int| 0 <= k < ncols implies str_views(#[trigger] target@[k]@)
                == self.col_toks(lvs.subrange(0, 0), self.log_cols@[k].index as int) by {
                assert(str_views(target@[k]@) =~~= self.col_toks(
                    lvs.subrange(0, 0),
                    self.log_cols@[k].index as int,
                ));
            }
        }
        while i < n
            invariant
                n == lines@.len(),
                lvs == str_views(lines@),
                ncols == self.log_cols@.len(),
                indices@ == self.col_indices(),
                self.cols_sorted(),
                i <= n,
                target@.len() == ncols,
                forall|k: int|
                    0 <= k < ncols ==> str_views(#[trigger] target@[k]@) == self.col_toks(
                        lvs.subrange(0, i as int),
                        self.log_cols@[k].index as int,
                    ),
                forall|j: int, k: int|
                    0 <= j < i && keep_line(self.comment_view(), #[trigger] lvs[j]) && 0 <= k
                        < ncols ==> #[trigger] self.log_cols@[k].index < line_tokens(
                        lvs[j],
                        self.sep_view(),
                    ).len(),
            decreases n - i,
        {
            let keep = match &self.comment {
                Option::Some(c) => !starts_with(lines[i].as_str(), c.as_str()),
                Option::None => true,
            };
            let ghost pre = lvs.subrange(0, i as int);
            let ghost cur = lvs.subrange(0, i + 1);
            proof {
                assert(cur.drop_last() =~= pre);
                assert(cur.last() == lvs[i as int]);
                assert(lvs[i as int] == lines@[i as int]@);
            }
            if keep {
                let toks = tokenize(lines[i].as_str(), &self.sep);
                proof {
                    assert(str_views(toks@) == line_tokens(lvs[i as int], self.sep_view()));
                }
                match self.collect_vals(&toks, &indices, &mut target) {
                    Result::Ok(()) => {},
                    Result::Err(e) => {
                        proof {
                            let k = choose|k: int|
                                0 <= k < indices@.len() && indices@[k] >= toks@.len() && e
                                    == (JobError::ColumnMissing { index: indices@[k] });
                            assert(self.log_cols@[k].index == indices@[k]);
                            assert(!self.col_exists(lvs, self.log_cols@[k].index as int));
                        }
                        return Result::Err(e);
                    },
                }
                proof {
                    assert(str_views(toks@).len() == toks@.len());
                    assert forall|k: int| 0 <= k < ncols implies #[trigger] self.log_cols@[k].index
                        < line_tokens(lvs[i as int], self.sep_view()).len() by {
                        assert(indices@[k] < toks@.len());
                    }
                    assert(self.retained_lines(cur) =~= self.retained_lines(pre).push(
                        lvs[i as int],
                    ));
                    assert forall|k: int| 0 <= k < ncols implies str_views(#[trigger] target@[k]@)
                        == self.col_toks(cur, self.log_cols@[k].index as int) by {
                        let idx = self.log_cols@[k].index as int;
                        assert(self.col_toks(cur, idx) =~= self.col_toks(pre, idx).push(
                            line_tokens(lvs[i as int], self.sep_view())[idx],
                        ));
                        assert(toks@[indices@[k] as int]@ == str_views(toks@)[idx]);
                    }
                }
            } else {
                proof {
                    assert(self.retained_lines(cur) =~= self.retained_lines(pre));
                    assert forall|k: int| 0 <= k < ncols implies str_views(#[trigger] target@[k]@)
                        == self.col_toks(cur, self.log_cols@[k].index as int) by {
                        let idx = self.log_cols@[k].index as int;
                        assert(self.col_toks(cur, idx) =~= self.col_toks(pre, idx));
                    }
                }
            }
            i += 1;
        }
        proof {
            assert(lvs.subrange(0, n as int) =~= lvs);
        }
        Result::Ok(target)
    }

    /// Extracts and parses the integer histogram column `idx` of every
    /// retained line.
    ///
    /// Succeeds exactly when the column exists on every retained line
    /// and every one of its tokens is an integer that fits an `i64`.
    pub fn hist_column_values(&self, lines: &Vec<String>, idx: usize) -> (r: Result<
        Vec<i64>,
        JobError,
    >)
        ensures
            r is Ok <==> self.int_col_ok(str_views(lines@), idx as int),
            r matches Ok(v) ==> v@.len() == self.retained_lines(str_views(lines@)).len() && (
            forall|t: int|
                0 <= t < v@.len() ==> #[trigger] v@[t] as int == self.int_col(
                    str_views(lines@),
                    idx as int,
                )[t]),
            r matches Err(e) ==> (e == (JobError::ColumnMissing { index: idx }) || e
                == (JobError::TokenParse { index: idx })),
    {
        let ghost lvs = str_views(lines@);
        let n = lines.len();
        let mut vals: Vec<i64> = Vec::new();
        let mut i: usize = 0;
        proof {
            assert(lvs.subrange(0, 0) =~= Seq::<Seq<char>>::empty());
            assert(vals@.map_values(|x: i64| x as int) =~= self.int_col(
                lvs.subrange(0, 0),
                idx as int,
            ));
        }
        while i < n
            invariant
                n == lines@.len(),
                lvs == str_views(lines@),
                i <= n,
                vals@.len() == self.retained_lines(lvs.subrange(0, i as int)).len(),
                vals@.map_values(|x: i64| x as int) == self.int_col(
                    lvs.subrange(0, i as int),
                    idx as int,
                ),
                forall|j: int|
                    0 <= j < i && keep_line(self.comment_view(), #[trigger] lvs[j]) ==> idx
                        < line_tokens(lvs[j], self.sep_view()).len() && is_int_literal(
                        line_tokens(lvs[j], self.sep_view())[idx as int],
                    ) && i64::MIN <= int_literal_val(
                        line_tokens(lvs[j], self.sep_view())[idx as int],
                    ) <= i64::MAX,
            decreases n - i,
        {
            let keep = match &self.comment {
                Option::Some(c) => !starts_with(lines[i].as_str(), c.as_str()),
                Option::None => true,
            };
            let ghost pre = lvs.subrange(0, i as int);
            let ghost cur = lvs.subrange(0, i + 1);
            proof {
                assert(cur.drop_last() =~= pre);
                assert(cur.last() == lvs[i as int]);
                assert(lvs[i as int] == lines@[i as int]@);
            }
            if keep {
                let toks = tokenize(lines[i].as_str(), &self.sep);
                proof {
                    assert(str_views(toks@) == line_tokens(lvs[i as int], self.sep_view()));
                    assert(str_views(toks@).len() == toks@.len());
                }
                if idx >= toks.len() {
                    return Result::Err(JobError::ColumnMissing { index: idx });
                }
                proof {
                    assert(toks@[idx as int]@ == line_tokens(lvs[i as int], self.sep_view())[
                        idx as int]);
                }
                let v = match parse_i64(toks[idx].as_str()) {
                    Option::Some(v) => v,
                    Option::None => {
                        return Result::Err(JobError::TokenParse { index: idx });
                    },
                };
                vals.push(v);
                proof {
                    assert(self.retained_lines(cur) =~= self.retained_lines(pre).push(
                        lvs[i as int],
                    ));
                    assert(self.col_toks(cur, idx as int) =~= self.col_toks(pre, idx as int).push(
                        line_tokens(lvs[i as int], self.sep_view())[idx as int],
                    ));
                    assert(self.int_col(cur, idx as int) =~= self.int_col(pre, idx as int).push(
                        int_literal_val(line_tokens(lvs[i as int], self.sep_view())[idx as int]),
                    ));
                    assert(vals@.map_values(|x: i64| x as int) =~= self.int_col(cur, idx as int));
                }
            } else {
                proof {
                    assert(self.retained_lines(cur) =~= self.retained_lines(pre));
                    assert(self.col_toks(cur, idx as int) =~= self.col_toks(pre, idx as int));
                    assert(self.int_col(cur, idx as int) =~= self.int_col(pre, idx as int));
                }
            }
            i += 1;
        }
        proof {
            assert(lvs.subrange(0, n as int) =~= lvs);
        }
        Result::Ok(vals)
    }

    /// Conditions for deriving a bin range from the retained line count:
    /// at least one retained line, and the shifted exclusive upper bound
    /// in range.
    pub open spec fn count_range_ok(self, lines: Seq<Seq<char>>) -> bool {
        1 <= self.retained_lines(lines).len() && self.shift_val() + self.retained_lines(
            lines,
        ).len() <= i64::MAX
    }

    /// Conditions for deriving an inclusive bin range from one histogram
    /// column: the column parses on every retained line, increases
    /// strictly, has at least one value, and the shifted bounds fit.
    pub open spec fn left_col_range_ok(self, lines: Seq<Seq<char>>, il: int) -> bool {
        let vs = self.int_col(lines, il);
        self.int_col_ok(lines, il) && strictly_inc(vs) && vs.len() >= 1 && i64::MIN
            <= self.shift_val() + vs[0] && self.shift_val() + vs.last() <= i64::MAX && vs.last()
            - vs[0] + 1 <= usize::MAX
    }

    /// Conditions for deriving a bin range from a left and a right
    /// histogram column: distinct columns, both parse and increase
    /// strictly, and the range from the left column's first value to the
    /// right column's last value (exclusive) is non-empty and fits.
    pub open spec fn two_col_range_ok(self, lines: Seq<Seq<char>>, il: int, ir: int) -> bool {
        let lv = self.int_col(lines, il);
        let rv = self.int_col(lines, ir);
        il != ir && self.int_col_ok(lines, il) && strictly_inc(lv) && lv.len() >= 1
            && self.int_col_ok(lines, ir) && strictly_inc(rv) && i64::MIN <= self.shift_val()
            + lv[0] && self.shift_val() + rv.last() <= i64::MAX && lv[0] < rv.last() && rv.last()
            - lv[0] <= usize::MAX
    }

    /// Derives the file's bin range.
    ///
    /// With no histogram column the range is the retained line count,
    /// shifted. With one column the range runs from its first to its
    /// last value, both inclusive and shifted. With two columns it runs
    /// from the left column's first value to the right column's last
    /// value, the latter exclusive, both shifted. Histogram columns must
    /// increase strictly line over line.
    pub fn get_hist_fast(&self, lines: &Vec<String>) -> (r: Result<BinRange, JobError>)
        ensures
            self.index_hist_left is None ==> ((r is Ok <==> self.count_range_ok(str_views(lines@)))
                && (r matches Ok(b) ==> b.left == self.shift_val() && b.right == self.shift_val()
                + self.retained_lines(str_views(lines@)).len() - 1)),
            (self.index_hist_left is Some && self.index_hist_right is None) ==> ((r is Ok
                <==> self.left_col_range_ok(str_views(lines@), self.index_hist_left->0 as int))
                && (r matches Ok(b) ==> b.left == self.shift_val() + self.int_col(
                str_views(lines@),
                self.index_hist_left->0 as int,
            )[0] && b.right == self.shift_val() + self.int_col(
                str_views(lines@),
                self.index_hist_left->0 as int,
            ).last())),
            (self.index_hist_left is Some && self.index_hist_right is Some) ==> ((r is Ok
                <==> self.two_col_range_ok(
                str_views(lines@),
                self.index_hist_left->0 as int,
                self.index_hist_right->0 as int,
            )) && (r matches Ok(b) ==> b.left == self.shift_val() + self.int_col(
                str_views(lines@),
                self.index_hist_left->0 as int,
            )[0] && b.right == self.shift_val() + self.int_col(
                str_views(lines@),
                self.index_hist_right->0 as int,
            ).last() - 1)),
            r matches Ok(b) ==> b.wf(),
    {
        let ghost lvs = str_views(lines@);
        let shift: i64 = match self.shift {
            Option::Some(s) => s,
            Option::None => 0,
        };
        let il = match self.index_hist_left {
            Option::Some(il) => il,
            Option::None => {
                let count = self.count_lines(lines);
                let rex: i128 = shift as i128 + count as i128;
                if rex > i64::MAX as i128 {
                    return Result::Err(JobError::ShiftOverflow);
                }
                return BinRange::new(shift, rex as i64);
            },
        };
        let lvals = match self.hist_column_values(lines, il) {
            Result::Ok(v) => v,
            Result::Err(e) => {
                return Result::Err(e);
            },
        };
        let ghost lv = self.int_col(lvs, il as int);
        proof {
            assert(lvals@.map_values(|x: i64| x as int) =~= lv);
        }
        if !check_strictly_inc(&lvals) {
            return Result::Err(JobError::NotMonotonic);
        }
        if lvals.len() == 0 {
            return Result::Err(JobError::EmptyHistData);
        }
        let first = lvals[0];
        let last = lvals[lvals.len() - 1];
        match self.index_hist_right {
            Option::None => {
                let lo: i128 = shift as i128 + first as i128;
                let hi: i128 = shift as i128 + last as i128;
                if lo < i64::MIN as i128 || hi > i64::MAX as i128 {
                    return Result::Err(JobError::ShiftOverflow);
                }
                proof {
                    lemma_inc_le(lv, 0, lv.len() - 1);
                }
                BinRange::new_inclusive(lo as i64, hi as i64)
            },
            Option::Some(ir) => {
                if ir == il {
                    return Result::Err(JobError::HistColumnsEqual);
                }
                let rvals = match self.hist_column_values(lines, ir) {
                    Result::Ok(v) => v,
                    Result::Err(e) => {
                        return Result::Err(e);
                    },
                };
                let ghost rv = self.int_col(lvs, ir as int);
                proof {
                    assert(rvals@.map_values(|x: i64| x as int) =~= rv);
                }
                if !check_strictly_inc(&rvals) {
                    return Result::Err(JobError::NotMonotonic);
                }
                let rlast = rvals[rvals.len() - 1];
                let lo: i128 = shift as i128 + first as i128;
                let hi: i128 = shift as i128 + rlast as i128;
                if lo < i64::MIN as i128 || hi > i64::MAX as i128 {
                    return Result::Err(JobError::ShiftOverflow);
                }
                if lo >= hi {
                    return Result::Err(JobError::InvalidRange);
                }
                BinRange::new(lo as i64, hi as i64)
            },
        }
    }

    /// Sorts the probability columns by ascending index and removes
    /// duplicate indices, keeping the first column given for each index.
    /// Returns how many duplicates were dropped.
    pub fn sort_cols(&mut self) -> (r: usize)
        ensures
            final(self).cols_sorted(),
            final(self).log_cols@.len() + r == old(self).log_cols@.len(),
            forall|k: int|
                0 <= k < final(self).log_cols@.len() ==> col_in(
                    #[trigger] final(self).log_cols@[k],
                    old(self).log_cols@,
                ),
            forall|j: int|
                0 <= j < old(self).log_cols@.len() ==> contains_index(
                    final(self).log_cols@,
                    #[trigger] old(self).log_cols@[j].index,
                ),
            final(self).path == old(self).path,
            final(self).index_hist_left == old(self).index_hist_left,
            final(self).index_hist_right == old(self).index_hist_right,
            final(self).comment == old(self).comment,
            final(self).sep == old(self).sep,
            final(self).shift == old(self).shift,
    {
        let n = self.log_cols.len();
        let mut sorted: Vec<LogCol> = Vec::new();
        let mut dropped: usize = 0;
        let mut i: usize = 0;
        while i < n
            invariant
                n == self.log_cols@.len(),
                i <= n,
                sorted@.len() + dropped == i,
                strict_sorted(sorted@.map_values(|c: LogCol| c.index)),
                forall|k: int|
                    0 <= k < sorted@.len() ==> col_in(#[trigger] sorted@[k], self.log_cols@),
                forall|j: int|
                    0 <= j < i ==> contains_index(sorted@, #[trigger] self.log_cols@[j].index),
            decreases n - i,
        {
            let c = self.log_cols[i];
            let len = sorted.len();
            let mut p: usize = 0;
            while p < len && sorted[p].index < c.index
                invariant
                    len == sorted@.len(),
                    p <= len,
                    forall|q: int| 0 <= q < p ==> sorted@[q].index < c.index,
                decreases len - p,
            {
                p += 1;
            }
            if p < len && sorted[p].index == c.index {
                dropped += 1;
                proof {
                    assert(sorted@[p as int].index == self.log_cols@[i as int].index);
                    assert(contains_index(sorted@, self.log_cols@[i as int].index));
                }
            } else {
                let ghost pre = sorted@;
                proof {
                    let svs = pre.map_values(|cc: LogCol| cc.index);
                    let nvs = pre.insert(p as int, c).map_values(|cc: LogCol| cc.index);
                    assert(nvs =~= svs.insert(p as int, c.index));
                    assert forall|q: int| 0 <= q < nvs.len() - 1 implies #[trigger] nvs[q] < nvs[q
                        + 1] by {
                        if q < p {
                            assert(nvs[q] == svs[q]);
                        }
                        if q + 1 < p {
                            assert(nvs[q + 1] == svs[q + 1]);
                        }
                        if q + 1 == p {
                            assert(nvs[q + 1] == c.index);
                        }
                        if q == p {
                            assert(nvs[q] == c.index);
                            assert(nvs[q + 1] == svs[q]);
                            assert(c.index < pre[p as int].index);
                        }
                        if q > p {
                            assert(nvs[q] == svs[q - 1]);
                            assert(nvs[q + 1] == svs[q]);
                        }
                    }
                }
                sorted.insert(p, c);
                proof {
                    assert forall|k: int| 0 <= k < sorted@.len() implies col_in(
                        #[trigger] sorted@[k],
                        self.log_cols@,
                    ) by {
                        if k < p {
                            assert(sorted@[k] == pre[k]);
                        } else if k == p {
                            assert(sorted@[k] == self.log_cols@[i as int]);
                        } else {
                            assert(sorted@[k] == pre[k - 1]);
                        }
                    }
                    assert forall|j: int| 0 <= j < i + 1 implies contains_index(
                        sorted@,
                        #[trigger] self.log_cols@[j].index,
                    ) by {
                        if j < i {
                            let k = choose|k: int|
                                0 <= k < pre.len() && #[trigger] pre[k].index
                                    == self.log_cols@[j].index;
                            if k < p {
                                assert(sorted@[k].index == self.log_cols@[j].index);
                            } else {
                                assert(sorted@[k + 1].index == self.log_cols@[j].index);
                            }
                        } else {
                            assert(sorted@[p as int].index == self.log_cols@[j].index);
                        }
                    }
                }
            }
            i += 1;
        }
        self.log_cols = sorted;
        dropped
    }
}

} // verus!

//! Job assembly and the ordering of aligned windows.
//!
//! A [`Job`] gathers the files to process with the job-level settings.
//! Aligned pairs from all files are sorted by their range's lower bound
//! before they are handed to the merge step, which expects its windows in
//! left-to-right order.

use vstd::prelude::*;
use crate::align::AlignedPair;
use crate::errors::JobError;
use crate::file_parser::{FileInfo, LogCol, col_in, contains_index, strict_sorted};
use crate::parser::{HistType, MergeType};

verus! {

/// The command selecting a merge run: the path of its job document.
#[derive(Debug, Clone)]
pub struct Merge {
    /// Path to the document that specifies the merge job.
    pub json: String,
}

/// A half-open range of probability columns sharing one trim setting.
#[derive(Debug, Clone)]
pub struct LogColRange {
    /// Leftmost column, inclusive.
    pub left: usize,
    /// Rightmost column, exclusive.
    pub right: usize,
    /// Extra left trim applied to every column of the range.
    pub trim_left: Option<usize>,
    /// Extra right trim applied to every column of the range.
    pub trim_right: Option<usize>,
}

/// Options for assembling a job from a list of discovered files.
#[derive(Debug, Clone)]
pub struct CreateJob {
    /// Pattern the file paths were discovered with.
    pub globbing: String,
    /// Column defining the lower histogram bound, if any.
    pub hist_col_left: Option<usize>,
    /// Column defining the upper histogram bound, if any.
    pub hist_col_right: Option<usize>,
    /// Leftmost probability column.
    pub log_col_left: usize,
    /// Rightmost probability column, exclusive; one column when absent.
    pub log_col_right: Option<usize>,
    /// Name of the output file.
    pub out: String,
    /// Merge policy.
    pub merge: MergeType,
    /// Comment prefix applied to every file.
    pub global_comment: Option<String>,
    /// Output bin size, as a double's bit pattern.
    pub bin_size: Option<u64>,
    /// Output bin starting point, as a double's bit pattern.
    pub bin_starting_point: Option<u64>,
    /// Where to write the assembled job document instead of printing it.
    pub job_file: Option<String>,
    /// Shift applied to the histograms.
    pub shift: Option<i64>,
}

/// One merge job: the files to read and the job-level settings.
#[derive(Debug, Clone)]
pub struct Job {
    /// Path of the output file.
    pub out: String,
    /// The input files.
    pub files: Vec<FileInfo>,
    /// Histogram representation.
    pub hist: HistType,
    /// Merge policy.
    pub merge: MergeType,
    /// Comment prefix for files that set none of their own.
    pub global_comment: Option<String>,
    /// Output bin size, as a double's bit pattern.
    pub bin_size: Option<u64>,
    /// Output bin starting point, as a double's bit pattern.
    pub bin_starting_point: Option<u64>,
}

/// View of an optional owned string.
pub open spec fn opt_str_view(o: Option<String>) -> Option<Seq<char>> {
    match o {
        Option::Some(s) => Option::Some(s@),
        Option::None => Option::None,
    }
}

/// The comment a file ends up with: its own, else the global one.
pub open spec fn resolved_comment(orig: Option<Seq<char>>, global: Option<Seq<char>>) -> Option<
    Seq<char>,
> {
    match orig {
        Option::Some(c) => Option::Some(c),
        Option::None => global,
    }
}

/// The columns `res` are the columns `orig` sorted strictly by index
/// with duplicate indices dropped: sorted, drawn from `orig`, and
/// covering every index of `orig`.
pub open spec fn cols_resolved(orig: Seq<LogCol>, res: Seq<LogCol>) -> bool {
    strict_sorted(res.map_values(|c: LogCol| c.index)) && (forall|k: int|
        0 <= k < res.len() ==> col_in(#[trigger] res[k], orig)) && (forall|j: int|
        0 <= j < orig.len() ==> contains_index(res, (#[trigger] orig[j]).index))
}

/// One file after configuration resolution: comment filled in from the
/// global one when absent, columns sorted, everything else kept.
pub open spec fn file_resolved(orig: FileInfo, res: FileInfo, global: Option<Seq<char>>) -> bool {
    res.path == orig.path && res.index_hist_left == orig.index_hist_left && res.index_hist_right
        == orig.index_hist_right && res.sep == orig.sep && res.shift == orig.shift
        && res.comment_view() == resolved_comment(orig.comment_view(), global) && cols_resolved(
        orig.log_cols@,
        res.log_cols@,
    )
}

/// Resolves a loaded configuration into a fully determined job.
///
/// Missing settings take their documented defaults: the output path
/// `merged.glued`, the default histogram type and the averaging merge.
/// Every file without a comment prefix receives the global one, and each
/// file's columns are sorted by index and deduplicated. The second
/// result reports, per file, how many duplicate columns were dropped,
/// so that the caller can warn about them.
pub fn resolve_job(
    out: Option<String>,
    files: Vec<FileInfo>,
    hist: Option<HistType>,
    merge: Option<MergeType>,
    global_comment: Option<String>,
    bin_size: Option<u64>,
    bin_starting_point: Option<u64>,
) -> (r: (Job, Vec<usize>))
    ensures
        match out {
            Option::Some(o) => r.0.out == o,
            Option::None => r.0.out@ == "merged.glued"@,
        },
        r.0.hist == (match hist {
            Option::Some(h) => h,
            Option::None => HistType::HistIsizeFast,
        }),
        r.0.merge == (match merge {
            Option::Some(m) => m,
            Option::None => MergeType::Average,
        }),
        opt_str_view(r.0.global_comment) == opt_str_view(global_comment),
        r.0.bin_size == bin_size,
        r.0.bin_starting_point == bin_starting_point,
        r.0.files@.len() == files@.len(),
        forall|k: int|
            0 <= k < files@.len() ==> file_resolved(
                #[trigger] files@[k],
                r.0.files@[k],
                opt_str_view(global_comment),
            ),
        r.1@.len() == files@.len(),
        forall|k: int|
            0 <= k < files@.len() ==> r.0.files@[k].log_cols@.len() + #[trigger] r.1@[k]
                == files@[k].log_cols@.len(),
{
    let n = files.len();
    let mut rest = files;
    let mut resolved: Vec<FileInfo> = Vec::new();
    let mut dup_counts: Vec<usize> = Vec::new();
    let mut k: usize = 0;
    while k < n
        invariant
            n == files@.len(),
            k <= n,
            rest@ =~= files@.subrange(k as int, n as int),
            resolved@.len() == k,
            dup_counts@.len() == k,
            forall|j: int|
                0 <= j < k ==> file_resolved(
                    #[trigger] files@[j],
                    resolved@[j],
                    opt_str_view(global_comment),
                ),
            forall|j: int|
                0 <= j < k ==> resolved@[j].log_cols@.len() + #[trigger] dup_counts@[j]
                    == files@[j].log_cols@.len(),
        decreases n - k,
    {
        let mut f = rest.remove(0);
        proof {
            assert(f == files@[k as int]);
            assert(rest@ =~= files@.subrange(k + 1, n as int));
        }
        if f.comment.is_none() {
            f.comment = match &global_comment {
                Option::Some(c) => Option::Some(c.clone()),
                Option::None => Option::None,
            };
        }
        let dropped = f.sort_cols();
        resolved.push(f);
        dup_counts.push(dropped);
        k += 1;
    }
    let out_name = match out {
        Option::Some(o) => o,
        Option::None => "merged.glued".to_owned(),
    };
    let hist_type = match hist {
        Option::Some(h) => h,
        Option::None => HistType::HistIsizeFast,
    };
    let merge_type = match merge {
        Option::Some(m) => m,
        Option::None => MergeType::Average,
    };
    (
        Job {
            out: out_name,
            files: resolved,
            hist: hist_type,
            merge: merge_type,
            global_comment,
            bin_size,
            bin_starting_point,
        },
        dup_counts,
    )
}

/// The probability columns of a column range: consecutive indices, all
/// with the range's trim settings.
pub fn log_col_range_vec(opt: &LogColRange) -> (r: Vec<LogCol>)
    ensures
        r@.len() == (if opt.left <= opt.right {
            opt.right - opt.left
        } else {
            0int
        }),
        forall|t: int|
            0 <= t < r@.len() ==> (#[trigger] r@[t]).index == opt.left + t && r@[t].trim_left
                == opt.trim_left && r@[t].trim_right == opt.trim_right,
{
    let mut r: Vec<LogCol> = Vec::new();
    if opt.right <= opt.left {
        return r;
    }
    let count = opt.right - opt.left;
    let mut t: usize = 0;
    while t < count
        invariant
            count == opt.right - opt.left,
            opt.left + count <= usize::MAX,
            t <= count,
            r@.len() == t,
            forall|q: int|
                0 <= q < t ==> (#[trigger] r@[q]).index == opt.left + q && r@[q].trim_left
                    == opt.trim_left && r@[q].trim_right == opt.trim_right,
        decreases count - t,
    {
        r.push(
            LogCol { index: opt.left + t, trim_left: opt.trim_left, trim_right: opt.trim_right },
        );
        t += 1;
    }
    r
}

/// Assembles a job from discovered file paths and creation options.
///
/// The probability columns run from the left column to the exclusive
/// right one, or cover the left column alone when no right bound is
/// given; an explicit right bound at or below the left one is rejected.
/// Every file takes the histogram columns and shift of the options.
pub fn create_job(paths: Vec<String>, options: &CreateJob) -> (r: Result<Job, JobError>)
    ensures
        r is Ok <==> (match options.log_col_right {
            Option::Some(v) => v > options.log_col_left,
            Option::None => true,
        }),
        r matches Err(e) ==> e == JobError::ColRangeInverted,
        r matches Ok(job) ==> {
            let ncols = (match options.log_col_right {
                Option::Some(v) => v - options.log_col_left,
                Option::None => 1int,
            });
            job.out == options.out && job.merge == options.merge && job.hist
                == HistType::HistIsizeFast && opt_str_view(job.global_comment) == opt_str_view(
                options.global_comment,
            ) && job.bin_size == options.bin_size && job.bin_starting_point
                == options.bin_starting_point && job.files@.len() == paths@.len() && (forall|f: int|
                0 <= f < paths@.len() ==> {
                    let fi = #[trigger] job.files@[f];
                    fi.path == paths@[f] && fi.index_hist_left == options.hist_col_left
                        && fi.index_hist_right == options.hist_col_right && fi.comment is None
                        && fi.sep is None && fi.shift == options.shift && fi.log_cols@.len()
                        == ncols && (forall|t: int|
                        0 <= t < ncols ==> (#[trigger] fi.log_cols@[t]).index
                            == options.log_col_left + t && fi.log_cols@[t].trim_left is None
                            && fi.log_cols@[t].trim_right is None)
                })
        },
{
    let ncols: usize = match options.log_col_right {
        Option::Some(v) => {
            if v <= options.log_col_left {
                return Result::Err(JobError::ColRangeInverted);
            }
            v - options.log_col_left
        },
        Option::None => 1,
    };
    let n = paths.len();
    let mut rest = paths;
    let mut files: Vec<FileInfo> = Vec::new();
    let mut f: usize = 0;
    while f < n
        invariant
            n == paths@.len(),
            f <= n,
            rest@ =~= paths@.subrange(f as int, n as int),
            files@.len() == f,
            options.log_col_left + ncols <= usize::MAX + 1,
            ncols == (match options.log_col_right {
                Option::Some(v) => v - options.log_col_left,
                Option::None => 1int,
            }),
            forall|j: int|
                0 <= j < f ==> {
                    let fi = #[trigger] files@[j];
                    fi.path == paths@[j] && fi.index_hist_left == options.hist_col_left
                        && fi.index_hist_right == options.hist_col_right && fi.comment is None
                        && fi.sep is None && fi.shift == options.shift && fi.log_cols@.len()
                        == ncols && (forall|t: int|
                        0 <= t < ncols ==> (#[trigger] fi.log_cols@[t]).index
                            == options.log_col_left + t && fi.log_cols@[t].trim_left is None
                            && fi.log_cols@[t].trim_right is None)
                },
        decreases n - f,
    {
        let path = rest.remove(0);
        proof {
            assert(path == paths@[f as int]);
            assert(rest@ =~= paths@.subrange(f + 1, n as int));
        }
        let mut log_cols: Vec<LogCol> = Vec::new();
        let mut t: usize = 0;
        while t < ncols
            invariant
                options.log_col_left + ncols <= usize::MAX + 1,
                t <= ncols,
                log_cols@.len() == t,
                forall|q: int|
                    0 <= q < t ==> (#[trigger] log_cols@[q]).index == options.log_col_left + q
                        && log_cols@[q].trim_left is None && log_cols@[q].trim_right is None,
            decreases ncols - t,
        {
            log_cols.push(LogCol::new(options.log_col_left + t));
            t += 1;
        }
        let fi = FileInfo {
            path,
            index_hist_left: options.hist_col_left,
            index_hist_right: options.hist_col_right,
            comment: Option::None,
            sep: Option::None,
            log_cols,
            shift: options.shift,
        };
        files.push(fi);
        f += 1;
    }
    let global_comment = match &options.global_comment {
        Option::Some(c) => Option::Some(c.clone()),
        Option::None => Option::None,
    };
    Result::Ok(
        Job {
            files,
            bin_size: options.bin_size,
            bin_starting_point: options.bin_starting_point,
            merge: options.merge,
            out: options.out.clone(),
            global_comment,
            hist: HistType::HistIsizeFast,
        },
    )
}

/// A sample job of two files, showing the configuration surface: the
/// first file uses histogram column 0 with a shift, the second derives
/// its bins from the line count, with its own comment prefix, separator
/// and an extra right trim on its second column.
pub fn example_job() -> (r: Job)
    ensures
        r.out@ == "output.dat"@,
        r.merge == MergeType::Average,
        r.hist == HistType::HistIsizeFast,
        (opt_str_view(r.global_comment) matches Some(g) && g == "#"@),
        r.bin_size is None,
        r.bin_starting_point is None,
        r.files@.len() == 2,
        r.files@[0].path@ == "RELATIVE_PATH_FROM_WHERE_YOU_ARE/file1.dat"@,
        r.files@[0].index_hist_left == Some(0usize),
        r.files@[0].index_hist_right is None,
        r.files@[0].comment is None,
        r.files@[0].sep is None,
        r.files@[0].shift == Some(23i64),
        r.files@[0].log_cols@.len() == 2,
        r.files@[0].log_cols@[0] == (LogCol { index: 3usize, trim_left: None, trim_right: None }),
        r.files@[0].log_cols@[1] == (LogCol { index: 4usize, trim_left: None, trim_right: None }),
        r.files@[1].path@ == "ABSOLUTE_PATH/file2.dat"@,
        r.files@[1].index_hist_left is None,
        r.files@[1].index_hist_right == Some(1usize),
        (r.files@[1].comment matches Some(c) && c@ == "%"@),
        (r.files@[1].sep matches Some(p) && p@ == ","@),
        r.files@[1].shift is None,
        r.files@[1].log_cols@.len() == 2,
        r.files@[1].log_cols@[0] == (LogCol { index: 3usize, trim_left: None, trim_right: None }),
        r.files@[1].log_cols@[1] == (LogCol {
            index: 4usize,
            trim_left: None,
            trim_right: Some(14usize),
        }),
{
    let mut log_cols1: Vec<LogCol> = Vec::new();
    log_cols1.push(LogCol::new(3));
    log_cols1.push(LogCol::new(4));
    let file_info1 = FileInfo {
        path: "RELATIVE_PATH_FROM_WHERE_YOU_ARE/file1.dat".to_owned(),
        index_hist_left: Some(0),
        comment: None,
        sep: None,
        log_cols: log_cols1,
        index_hist_right: None,
        shift: Some(23),
    };
    let mut log_cols2: Vec<LogCol> = Vec::new();
    log_cols2.push(LogCol::new(3));
    let mut trimmed = LogCol::new(4);
    trimmed.trim_right = Some(14);
    log_cols2.push(trimmed);
    let file_info2 = FileInfo {
        path: "ABSOLUTE_PATH/file2.dat".to_owned(),
        index_hist_left: None,
        comment: Some("%".to_owned()),
        sep: Some(",".to_owned()),
        log_cols: log_cols2,
        index_hist_right: Some(1),
        shift: None,
    };
    let mut file_vec: Vec<FileInfo> = Vec::new();
    file_vec.push(file_info1);
    file_vec.push(file_info2);
    Job {
        out: "output.dat".to_owned(),
        files: file_vec,
        merge: MergeType::Average,
        hist: HistType::HistIsizeFast,
        global_comment: Some("#".to_owned()),
        bin_size: None,
        bin_starting_point: None,
    }
}

/// The aligned pairs are ordered by their range's lower bound.
pub open spec fn sorted_by_left(s: Seq<AlignedPair>) -> bool {
    forall|t: int| 0 <= t < s.len() - 1 ==> (#[trigger] s[t]).range.left <= s[t + 1].range.left
}

/// Sorts the aligned pairs of a job by their range's lower bound, so
/// that the merge step sees its windows in left-to-right order. The
/// result is a permutation of the input.
pub fn sort_pairs(pairs: &mut Vec<AlignedPair>)
    ensures
        sorted_by_left(final(pairs)@),
        final(pairs)@.to_multiset() == old(pairs)@.to_multiset(),
{
    broadcast use vstd::seq_lib::group_to_multiset_ensures;

    let mut out: Vec<AlignedPair> = Vec::new();
    proof {
        assert(out@.to_multiset().add(pairs@.to_multiset()) =~= old(pairs)@.to_multiset());
    }
    while pairs.len() > 0
        invariant
            out@.to_multiset().add(pairs@.to_multiset()) == old(pairs)@.to_multiset(),
            sorted_by_left(out@),
            forall|a: int, b: int|
                0 <= a < out@.len() && 0 <= b < pairs@.len() ==> (#[trigger] out@[a]).range.left
                    <= (#[trigger] pairs@[b]).range.left,
        decreases pairs@.len(),
    {
        let n = pairs.len();
        let mut m: usize = 0;
        let mut j: usize = 1;
        while j < n
            invariant
                n == pairs@.len(),
                m < j <= n,
                forall|q: int|
                    0 <= q < j ==> pairs@[m as int].range.left <= (#[trigger] pairs@[q]).range.left,
            decreases n - j,
        {
            if pairs[j].range.left < pairs[m].range.left {
                m = j;
            }
            j += 1;
        }
        let ghost pre = pairs@;
        let x = pairs.remove(m);
        proof {
            pre.to_multiset_ensures();
            out@.to_multiset_ensures();
            assert(pre.remove(m as int).to_multiset() =~= pre.to_multiset().remove(
                pre[m as int],
            ));
            assert(pairs@.to_multiset() == pre.to_multiset().remove(x));
            assert(out@.push(x).to_multiset() =~= out@.to_multiset().insert(x));
            assert(pre.contains(x));
            assert(pre.to_multiset().count(x) > 0);
            assert(out@.push(x).to_multiset().add(pairs@.to_multiset()) =~= old(
                pairs,
            )@.to_multiset());
            assert forall|b: int| 0 <= b < pairs@.len() implies x.range.left
                <= (#[trigger] pairs@[b]).range.left by {
                if b < m {
                    assert(pairs@[b] == pre[b]);
                } else {
                    assert(pairs@[b] == pre[b + 1]);
                }
            }
        }
        out.push(x);
    }
    *pairs = out;
}

} // verus!

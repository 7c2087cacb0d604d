use wl_glue::align::{AlignedPair, align_column};
use wl_glue::errors::JobError;
use wl_glue::file_parser::{FileInfo, LogCol};
use wl_glue::hist::BinRange;
use wl_glue::parser::{HistType, MergeType};
use wl_glue::values::NAN_BITS;
use wl_glue::worker::{CreateJob, LogColRange, create_job, example_job, log_col_range_vec, resolve_job, sort_pairs};

fn bits(vs: &[f64]) -> Vec<u64> {
    vs.iter().map(|v| v.to_bits()).collect()
}

fn floats(p: &AlignedPair) -> Vec<f64> {
    p.values.iter().map(|&b| f64::from_bits(b)).collect()
}

fn col(index: usize, trim_left: Option<usize>, trim_right: Option<usize>) -> LogCol {
    LogCol { index, trim_left, trim_right }
}

#[test]
fn round_trip_nan_trimming() {
    let raw = bits(&[f64::NAN, f64::NAN, 1.0, 2.0, 3.0, f64::NAN]);
    let range = BinRange::new_inclusive(0, 5).unwrap();
    let (pair, warn) = align_column(raw, &col(0, None, None), &range).unwrap();
    assert!(!warn);
    assert_eq!(floats(&pair), vec![1.0, 2.0, 3.0]);
    assert_eq!(pair.values.len(), 3);
    assert_eq!(pair.range.bin_count(), 3);
    assert_eq!((pair.range.left, pair.range.right), (2, 4));
}

#[test]
fn extra_trim_is_additive() {
    let raw = bits(&[f64::NAN, f64::NAN, 1.0, 2.0, 3.0, f64::NAN]);
    let range = BinRange::new_inclusive(0, 5).unwrap();
    let (pair, warn) = align_column(raw, &col(0, Some(1), None), &range).unwrap();
    assert_eq!(floats(&pair), vec![2.0, 3.0]);
    assert_eq!(pair.range.bin_count(), 2);
    // the trim does not push the left index past the right one
    assert!(!warn);
}

#[test]
fn over_trim_warns_but_proceeds() {
    let raw = bits(&[f64::NAN, f64::NAN, 1.0, 2.0, 3.0, f64::NAN]);
    let range = BinRange::new_inclusive(0, 5).unwrap();
    let (pair, warn) = align_column(raw, &col(0, Some(2), None), &range).unwrap();
    assert!(warn);
    assert_eq!(floats(&pair), vec![3.0]);
    assert_eq!(pair.range.bin_count(), 1);
}

#[test]
fn non_finite_values_normalized_to_canonical_marker() {
    let raw = bits(&[1.0, f64::INFINITY, 1.0 / 0.0, f64::NEG_INFINITY, 2.0]);
    let range = BinRange::new_inclusive(0, 4).unwrap();
    let (pair, _) = align_column(raw, &col(0, None, None), &range).unwrap();
    assert_eq!(pair.values.len(), 5);
    assert_eq!(pair.values[1], NAN_BITS);
    assert_eq!(pair.values[2], NAN_BITS);
    assert_eq!(pair.values[3], NAN_BITS);
    assert!(f64::from_bits(pair.values[1]).is_nan());
    assert_eq!(f64::from_bits(pair.values[0]), 1.0);
}

#[test]
fn infinities_trimmed_like_missing_data() {
    let raw = bits(&[f64::INFINITY, 1.0, 2.0, f64::NEG_INFINITY]);
    let range = BinRange::new_inclusive(0, 3).unwrap();
    let (pair, _) = align_column(raw, &col(0, None, None), &range).unwrap();
    assert_eq!(floats(&pair), vec![1.0, 2.0]);
    assert_eq!((pair.range.left, pair.range.right), (1, 2));
}

#[test]
fn all_invalid_column_fails() {
    let raw = bits(&[f64::NAN, f64::INFINITY]);
    let range = BinRange::new_inclusive(0, 1).unwrap();
    assert_eq!(
        align_column(raw, &col(0, None, None), &range).unwrap_err(),
        JobError::AllInvalid { col_index: 0 }
    );
}

#[test]
fn trim_past_first_finite_fails() {
    let raw = bits(&[1.0, 2.0]);
    let range = BinRange::new_inclusive(0, 1).unwrap();
    assert_eq!(
        align_column(raw, &col(0, None, Some(3)), &range).unwrap_err(),
        JobError::TrimOverflow { col_index: 0 }
    );
}

#[test]
fn inverted_interval_fails() {
    let raw = bits(&[1.0, 2.0, 3.0]);
    let range = BinRange::new_inclusive(0, 2).unwrap();
    assert_eq!(
        align_column(raw, &col(0, Some(2), Some(1)), &range).unwrap_err(),
        JobError::InvertedInterval { col_index: 0 }
    );
}

#[test]
fn short_histogram_fails() {
    let raw = bits(&[1.0, 2.0, 3.0]);
    let range = BinRange::new_inclusive(0, 1).unwrap();
    assert_eq!(
        align_column(raw, &col(0, None, None), &range).unwrap_err(),
        JobError::BinCountMismatch { col_index: 0 }
    );
}

#[test]
fn logs_and_hists_bin_count_matches_length() {
    let f = FileInfo {
        path: "w.dat".to_owned(),
        index_hist_left: Some(0),
        index_hist_right: None,
        log_cols: vec![col(1, None, None), col(2, Some(1), None)],
        comment: Some("#".to_owned()),
        sep: None,
        shift: None,
    };
    let lines: Vec<String> = vec!["# b l1 l2", "4 nan 1.0", "5 1.5 2.0", "6 2.5 3.0"]
        .into_iter()
        .map(|l| l.to_string())
        .collect();
    let token_cols = f.log_prob_tokens(&lines).unwrap();
    let values: Vec<Vec<u64>> = token_cols
        .iter()
        .map(|c| c.iter().map(|t| t.parse::<f64>().unwrap().to_bits()).collect())
        .collect();
    let (pairs, warns) = f.get_logs_and_hists(&lines, values).unwrap();
    assert_eq!(pairs.len(), 2);
    assert_eq!(warns, vec![false, false]);
    for p in &pairs {
        assert_eq!(p.range.bin_count(), p.values.len());
    }
    assert_eq!(floats(&pairs[0]), vec![1.5, 2.5]);
    assert_eq!((pairs[0].range.left, pairs[0].range.right), (5, 6));
    assert_eq!(floats(&pairs[1]), vec![2.0, 3.0]);
    assert_eq!((pairs[1].range.left, pairs[1].range.right), (5, 6));
}

#[test]
fn pairs_sorted_by_left_bound() {
    let mk = |left: i64, right: i64| AlignedPair {
        range: BinRange::new_inclusive(left, right).unwrap(),
        values: Vec::new(),
    };
    let mut pairs = vec![mk(8, 20), mk(0, 10)];
    sort_pairs(&mut pairs);
    assert_eq!(pairs[0].range.left, 0);
    assert_eq!(pairs[1].range.left, 8);
    assert_eq!(pairs.len(), 2);
}

#[test]
fn disjoint_files_presented_left_to_right() {
    let mk_file = |path: &str| FileInfo {
        path: path.to_owned(),
        index_hist_left: Some(0),
        index_hist_right: None,
        log_cols: vec![col(1, None, None)],
        comment: None,
        sep: None,
        shift: None,
    };
    // the configuration lists the right-hand window first
    let files = [
        (mk_file("high.dat"), vec!["8 1.0", "20 2.0"]),
        (mk_file("low.dat"), vec!["0 3.0", "10 4.0"]),
    ];
    let mut all = Vec::new();
    for (f, raw) in files {
        let lines: Vec<String> = raw.into_iter().map(|l| l.to_string()).collect();
        let cols = f.log_prob_tokens(&lines).unwrap();
        let values: Vec<Vec<u64>> = cols
            .iter()
            .map(|c| c.iter().map(|t| t.parse::<f64>().unwrap().to_bits()).collect())
            .collect();
        let (pairs, _) = f.get_logs_and_hists(&lines, values).unwrap();
        all.extend(pairs);
    }
    sort_pairs(&mut all);
    assert_eq!(all[0].range.left, 0);
    assert_eq!(all[1].range.left, 8);
}

#[test]
fn resolve_job_applies_defaults_and_global_comment() {
    let f1 = FileInfo {
        path: "a.dat".to_owned(),
        index_hist_left: None,
        index_hist_right: None,
        log_cols: vec![col(2, None, None), col(1, None, None), col(2, None, None)],
        comment: None,
        sep: None,
        shift: None,
    };
    let f2 = FileInfo {
        path: "b.dat".to_owned(),
        index_hist_left: None,
        index_hist_right: None,
        log_cols: vec![col(0, None, None)],
        comment: Some("%".to_owned()),
        sep: None,
        shift: None,
    };
    let (job, dup_counts) = resolve_job(
        None,
        vec![f1, f2],
        None,
        None,
        Some("#".to_owned()),
        None,
        None,
    );
    assert_eq!(dup_counts, vec![1, 0]);
    assert_eq!(job.out, "merged.glued");
    assert!(matches!(job.hist, HistType::HistIsizeFast));
    assert!(matches!(job.merge, MergeType::Average));
    assert_eq!(job.files[0].comment.as_deref(), Some("#"));
    assert_eq!(job.files[1].comment.as_deref(), Some("%"));
    let idxs: Vec<usize> = job.files[0].log_cols.iter().map(|c| c.index).collect();
    assert_eq!(idxs, vec![1, 2]);
}

#[test]
fn create_job_builds_column_ranges() {
    let options = CreateJob {
        globbing: "data/*.dat".to_owned(),
        hist_col_left: Some(0),
        hist_col_right: None,
        log_col_left: 3,
        log_col_right: Some(5),
        out: "merged.out".to_owned(),
        merge: MergeType::Derivative,
        global_comment: Some("#".to_owned()),
        bin_size: None,
        bin_starting_point: None,
        job_file: None,
        shift: Some(2),
    };
    let job = create_job(vec!["x.dat".to_owned(), "y.dat".to_owned()], &options).unwrap();
    assert_eq!(job.files.len(), 2);
    assert_eq!(job.files[1].path, "y.dat");
    assert_eq!(job.files[0].index_hist_left, Some(0));
    assert_eq!(job.files[0].shift, Some(2));
    let idxs: Vec<usize> = job.files[0].log_cols.iter().map(|c| c.index).collect();
    assert_eq!(idxs, vec![3, 4]);
    assert!(matches!(job.merge, MergeType::Derivative));
}

#[test]
fn create_job_rejects_inverted_column_range() {
    let options = CreateJob {
        globbing: "*".to_owned(),
        hist_col_left: None,
        hist_col_right: None,
        log_col_left: 5,
        log_col_right: Some(5),
        out: "o".to_owned(),
        merge: MergeType::Average,
        global_comment: None,
        bin_size: None,
        bin_starting_point: None,
        job_file: None,
        shift: None,
    };
    assert_eq!(
        create_job(vec![], &options).unwrap_err(),
        JobError::ColRangeInverted
    );
}

#[test]
fn log_col_range_expands_to_columns() {
    let opt = LogColRange { left: 2, right: 5, trim_left: Some(1), trim_right: None };
    let cols = log_col_range_vec(&opt);
    assert_eq!(cols.len(), 3);
    assert_eq!(cols[0].index, 2);
    assert_eq!(cols[2].index, 4);
    assert_eq!(cols[1].trim_left, Some(1));
    assert_eq!(cols[1].trim_right, None);
    let empty = LogColRange { left: 5, right: 5, trim_left: None, trim_right: None };
    assert!(log_col_range_vec(&empty).is_empty());
}

#[test]
fn example_job_shape() {
    let job = example_job();
    assert_eq!(job.out, "output.dat");
    assert_eq!(job.files.len(), 2);
    assert_eq!(job.files[0].shift, Some(23));
    assert_eq!(job.files[1].sep.as_deref(), Some(","));
    assert_eq!(job.files[1].log_cols[1].trim_right, Some(14));
    assert_eq!(job.global_comment.as_deref(), Some("#"));
}

#[test]
fn default_hist_type() {
    assert!(matches!(HistType::default(), HistType::HistIsizeFast));
}

use wl_glue::errors::JobError;
use wl_glue::file_parser::{FileInfo, LogCol};
use wl_glue::hist::BinRange;

fn hist_file(left: Option<usize>, right: Option<usize>, shift: Option<i64>) -> FileInfo {
    FileInfo {
        path: "window.dat".to_owned(),
        index_hist_left: left,
        index_hist_right: right,
        log_cols: vec![LogCol::new(1)],
        comment: Some("#".to_owned()),
        sep: None,
        shift,
    }
}

fn lines(ls: &[&str]) -> Vec<String> {
    ls.iter().map(|l| l.to_string()).collect()
}

#[test]
fn bin_range_exclusive_constructor() {
    let b = BinRange::new(2, 6).unwrap();
    assert_eq!(b.left, 2);
    assert_eq!(b.right, 5);
    assert_eq!(b.bin_count(), 4);
    assert_eq!(BinRange::new(3, 3), Err(JobError::InvalidRange));
}

#[test]
fn bin_range_inclusive_constructor() {
    let b = BinRange::new_inclusive(-2, 2).unwrap();
    assert_eq!(b.bin_count(), 5);
    assert_eq!(BinRange::new_inclusive(1, 0), Err(JobError::InvalidRange));
    assert_eq!(
        BinRange::new_inclusive(i64::MIN, i64::MAX),
        Err(JobError::RangeTooLarge)
    );
}

#[test]
fn bin_range_sub_range() {
    let b = BinRange::new_inclusive(10, 20).unwrap();
    let s = b.sub_range(2, 4);
    assert_eq!(s.left, 12);
    assert_eq!(s.right, 14);
    assert_eq!(s.bin_count(), 3);
}

#[test]
fn monotonic_column_rejected_and_accepted() {
    let f = hist_file(Some(0), None, None);
    let bad = lines(&["5", "5", "7"]);
    assert_eq!(f.get_hist_fast(&bad), Err(JobError::NotMonotonic));
    let good = lines(&["5", "6", "7"]);
    let b = f.get_hist_fast(&good).unwrap();
    assert_eq!(b.left, 5);
    assert_eq!(b.right, 7);
    assert_eq!(b.bin_count(), 3);
}

#[test]
fn decreasing_column_rejected() {
    let f = hist_file(Some(0), None, None);
    assert_eq!(
        f.get_hist_fast(&lines(&["7", "6", "5"])),
        Err(JobError::NotMonotonic)
    );
}

#[test]
fn line_count_fallback_with_shift() {
    let f = hist_file(None, None, Some(23));
    let ls = lines(&["# c", "a", "b", "c"]);
    let b = f.get_hist_fast(&ls).unwrap();
    // three retained lines: bins 23, 24, 25 (right bound exclusive)
    assert_eq!(b.left, 23);
    assert_eq!(b.right, 25);
    assert_eq!(b.bin_count(), 3);
}

#[test]
fn line_count_fallback_empty_file_fails() {
    let f = hist_file(None, None, None);
    assert_eq!(
        f.get_hist_fast(&lines(&["# only", "# comments"])),
        Err(JobError::InvalidRange)
    );
}

#[test]
fn comment_lines_do_not_reach_histogram() {
    let f = hist_file(Some(0), None, None);
    // the comment line would break monotonicity if it were read
    let ls = lines(&["1", "# 0", "2", "3"]);
    let b = f.get_hist_fast(&ls).unwrap();
    assert_eq!((b.left, b.right), (1, 3));
}

#[test]
fn left_column_with_shift() {
    let f = hist_file(Some(1), None, Some(-10));
    let ls = lines(&["x 5", "y 6", "z 7"]);
    let b = f.get_hist_fast(&ls).unwrap();
    assert_eq!((b.left, b.right), (-5, -3));
}

#[test]
fn two_columns_use_first_left_and_last_right() {
    let f = hist_file(Some(0), Some(1), None);
    let ls = lines(&["0 2", "2 4", "4 6"]);
    let b = f.get_hist_fast(&ls).unwrap();
    // lower bound 0 inclusive, upper bound 6 exclusive
    assert_eq!((b.left, b.right), (0, 5));
    assert_eq!(b.bin_count(), 6);
}

#[test]
fn two_equal_columns_rejected() {
    let f = hist_file(Some(1), Some(1), None);
    assert_eq!(
        f.get_hist_fast(&lines(&["a 1", "b 2"])),
        Err(JobError::HistColumnsEqual)
    );
}

#[test]
fn unparsable_histogram_token_fails() {
    let f = hist_file(Some(0), None, None);
    assert_eq!(
        f.get_hist_fast(&lines(&["1", "two", "3"])),
        Err(JobError::TokenParse { index: 0 })
    );
}

#[test]
fn missing_histogram_column_fails() {
    let f = hist_file(Some(2), None, None);
    assert_eq!(
        f.get_hist_fast(&lines(&["1 2 3", "4 5"])),
        Err(JobError::ColumnMissing { index: 2 })
    );
}

#[test]
fn empty_histogram_column_fails() {
    let f = hist_file(Some(0), None, None);
    assert_eq!(
        f.get_hist_fast(&lines(&["# nothing"])),
        Err(JobError::EmptyHistData)
    );
}

#[test]
fn shift_overflow_is_reported() {
    let f = hist_file(None, None, Some(i64::MAX));
    assert_eq!(
        f.get_hist_fast(&lines(&["a", "b"])),
        Err(JobError::ShiftOverflow)
    );
}

#[test]
fn error_messages_are_nonempty() {
    let errs = [
        JobError::ColumnMissing { index: 1 },
        JobError::TokenParse { index: 1 },
        JobError::NotMonotonic,
        JobError::EmptyHistData,
        JobError::HistColumnsEqual,
        JobError::AllInvalid { col_index: 0 },
        JobError::TrimOverflow { col_index: 0 },
        JobError::InvertedInterval { col_index: 0 },
        JobError::BinCountMismatch { col_index: 0 },
        JobError::InvalidRange,
        JobError::RangeTooLarge,
        JobError::ShiftOverflow,
        JobError::ColRangeInverted,
    ];
    for e in errs {
        assert!(!e.message().is_empty());
    }
}

#[test]
fn right_column_left_of_left_column() {
    // the column holding the right bound may sit left of the other one
    let f = hist_file(Some(1), Some(0), None);
    let ls = lines(&["2 0", "4 2", "6 4"]);
    let b = f.get_hist_fast(&ls).unwrap();
    // lower bound: first value of column 1; upper: last of column 0, exclusive
    assert_eq!((b.left, b.right), (0, 5));
}

#[test]
fn histogram_with_separator() {
    let f = FileInfo {
        path: "sep.dat".to_owned(),
        index_hist_left: Some(0),
        index_hist_right: None,
        log_cols: vec![LogCol::new(1)],
        comment: Some("%".to_owned()),
        sep: Some(";".to_owned()),
        shift: None,
    };
    let ls = lines(&["% header", "1;0.5", "2;0.7"]);
    let b = f.get_hist_fast(&ls).unwrap();
    assert_eq!((b.left, b.right), (1, 2));
}

#[test]
fn multichar_comment_prefix() {
    let f = hist_file(None, None, None);
    let g = FileInfo { comment: Some("//".to_owned()), ..f };
    let ls = lines(&["// note", "/ kept", "data"]);
    let b = g.get_hist_fast(&ls).unwrap();
    assert_eq!(b.bin_count(), 2);
}

use wl_glue::errors::JobError;
use wl_glue::file_parser::{FileInfo, LogCol};
use wl_glue::numbers::parse_i64;
use wl_glue::text::{starts_with, tokenize};

fn file(comment: Option<&str>, sep: Option<&str>, cols: Vec<LogCol>) -> FileInfo {
    FileInfo {
        path: "input.dat".to_owned(),
        index_hist_left: None,
        index_hist_right: None,
        log_cols: cols,
        comment: comment.map(|c| c.to_owned()),
        sep: sep.map(|s| s.to_owned()),
        shift: None,
    }
}

fn lines(ls: &[&str]) -> Vec<String> {
    ls.iter().map(|l| l.to_string()).collect()
}

#[test]
fn tokenize_whitespace_runs() {
    let toks = tokenize("  a \t bb   c ", &None);
    assert_eq!(toks, vec!["a".to_string(), "bb".to_string(), "c".to_string()]);
}

#[test]
fn tokenize_whitespace_empty_line() {
    let toks = tokenize("   ", &None);
    assert!(toks.is_empty());
    assert!(tokenize("", &None).is_empty());
}

#[test]
fn tokenize_separator_keeps_empty_fields() {
    let toks = tokenize("1,,2,", &Some(",".to_owned()));
    assert_eq!(
        toks,
        vec!["1".to_string(), "".to_string(), "2".to_string(), "".to_string()]
    );
}

#[test]
fn tokenize_multichar_separator() {
    let toks = tokenize("a::b::c", &Some("::".to_owned()));
    assert_eq!(toks, vec!["a".to_string(), "b".to_string(), "c".to_string()]);
}

#[test]
fn tokenize_empty_separator_matches_std_split() {
    let toks = tokenize("ab", &Some(String::new()));
    let std_toks: Vec<String> = "ab".split("").map(|t| t.to_string()).collect();
    assert_eq!(toks, std_toks);
}

#[test]
fn starts_with_prefixes() {
    assert!(starts_with("# comment", "#"));
    assert!(starts_with("abc", ""));
    assert!(!starts_with("abc", "abcd"));
    assert!(!starts_with("abc", "b"));
}

#[test]
fn parse_i64_plain_values() {
    assert_eq!(parse_i64("123"), Some(123));
    assert_eq!(parse_i64("+42"), Some(42));
    assert_eq!(parse_i64("-7"), Some(-7));
    assert_eq!(parse_i64("0"), Some(0));
    assert_eq!(parse_i64("007"), Some(7));
}

#[test]
fn parse_i64_limits() {
    assert_eq!(parse_i64("9223372036854775807"), Some(i64::MAX));
    assert_eq!(parse_i64("-9223372036854775808"), Some(i64::MIN));
    assert_eq!(parse_i64("9223372036854775808"), None);
    assert_eq!(parse_i64("-9223372036854775809"), None);
}

#[test]
fn parse_i64_rejects_malformed() {
    assert_eq!(parse_i64(""), None);
    assert_eq!(parse_i64("+"), None);
    assert_eq!(parse_i64("-"), None);
    assert_eq!(parse_i64("1.5"), None);
    assert_eq!(parse_i64("12a"), None);
    assert_eq!(parse_i64(" 1"), None);
}

#[test]
fn collect_vals_matches_naive_indexing() {
    let f = file(None, None, vec![]);
    let tokens: Vec<String> = vec!["a", "b", "c", "d", "e"]
        .into_iter()
        .map(|t| t.to_string())
        .collect();
    let indices: Vec<usize> = vec![0, 2, 4];
    let mut target: Vec<Vec<String>> = vec![Vec::new(), Vec::new(), Vec::new()];
    let r = f.collect_vals(&tokens, &indices, &mut target);
    assert!(r.is_ok());
    // one forward pass returns exactly what per-index lookup finds
    for (k, &idx) in indices.iter().enumerate() {
        assert_eq!(target[k], vec![tokens[idx].clone()]);
    }
}

#[test]
fn collect_vals_reports_missing_column() {
    let f = file(None, None, vec![]);
    let tokens: Vec<String> = vec!["a".to_string(), "b".to_string()];
    let indices: Vec<usize> = vec![1, 5];
    let mut target: Vec<Vec<String>> = vec![Vec::new(), Vec::new()];
    let r = f.collect_vals(&tokens, &indices, &mut target);
    assert_eq!(r, Err(JobError::ColumnMissing { index: 5 }));
}

#[test]
fn count_lines_skips_comment_lines() {
    let f = file(Some("#"), None, vec![]);
    let ls = lines(&["# header", "1 2", "# note", "3 4", ""]);
    assert_eq!(f.count_lines(&ls), 3);
    let g = file(None, None, vec![]);
    assert_eq!(g.count_lines(&ls), 5);
}

#[test]
fn log_prob_tokens_ignores_comment_lines() {
    let f = file(
        Some("#"),
        None,
        vec![LogCol::new(0), LogCol::new(2)],
    );
    let ls = lines(&["# 9 9 9", "1 2 3", "4 5 6", "# 0 0 0"]);
    let cols = f.log_prob_tokens(&ls).unwrap();
    assert_eq!(cols.len(), 2);
    assert_eq!(cols[0], vec!["1".to_string(), "4".to_string()]);
    assert_eq!(cols[1], vec!["3".to_string(), "6".to_string()]);
}

#[test]
fn log_prob_tokens_with_separator() {
    let f = file(Some("%"), Some(","), vec![LogCol::new(1)]);
    let ls = lines(&["% skip", "a,b,c", "d,e,f"]);
    let cols = f.log_prob_tokens(&ls).unwrap();
    assert_eq!(cols[0], vec!["b".to_string(), "e".to_string()]);
}

#[test]
fn log_prob_tokens_missing_column_fails() {
    let f = file(None, None, vec![LogCol::new(3)]);
    let ls = lines(&["1 2 3 4", "1 2"]);
    assert_eq!(
        f.log_prob_tokens(&ls),
        Err(JobError::ColumnMissing { index: 3 })
    );
}

#[test]
fn sort_cols_sorts_and_deduplicates() {
    let mut f = file(
        None,
        None,
        vec![
            LogCol::new(3),
            LogCol::new(1),
            LogCol::new(3),
            LogCol::new(2),
        ],
    );
    let dropped = f.sort_cols();
    assert_eq!(dropped, 1);
    let idxs: Vec<usize> = f.log_cols.iter().map(|c| c.index).collect();
    assert_eq!(idxs, vec![1, 2, 3]);
}

//! Verified line tokenization.
//!
//! A data line is broken into tokens either at runs of whitespace (the
//! default) or at each occurrence of a configured separator string, with
//! the same token boundaries the standard library's `split_whitespace`
//! and `split` produce. Only the Unicode whitespace classification of a
//! single character is taken on trust; the splitting itself is verified
//! against the recursive specifications below.

use vstd::prelude::*;

verus! {

/// Whether a character counts as whitespace; what `char::is_whitespace`
/// returns for it.
pub uninterp spec fn white_space(c: char) -> bool;

/// Relies on char::is_whitespace: whether `c` has the Unicode
/// White_Space property; a pure function of the character.
#[verifier::external_body]
fn is_ws(c: char) -> (r: bool)
    ensures
        r == white_space(c),
{
    c.is_whitespace()
}

/// Tokens of `s` split at runs of whitespace: the maximal runs of
/// non-whitespace characters, in order.
pub open spec fn split_ws(s: Seq<char>) -> Seq<Seq<char>>
    decreases s.len(),
{
    if s.len() == 0 {
        Seq::empty()
    } else if white_space(s[0]) {
        split_ws(s.drop_first())
    } else {
        let rest = split_ws(s.drop_first());
        if s.len() > 1 && !white_space(s[1]) {
            seq![seq![s[0]] + rest[0]] + rest.drop_first()
        } else {
            seq![seq![s[0]]] + rest
        }
    }
}

/// The separator matches `s` at position `m`.
pub open spec fn match_at(s: Seq<char>, sep: Seq<char>, m: int) -> bool {
    0 <= m && m + sep.len() <= s.len() && s.subrange(m, m + sep.len()) == sep
}

/// Tokens of `s` split at every occurrence of the non-empty separator
/// `sep`; adjacent occurrences yield empty tokens, as `str::split` does.
pub open spec fn split_sep(s: Seq<char>, sep: Seq<char>) -> Seq<Seq<char>>
    decreases s.len(),
        when sep.len() >= 1
{
    if s.len() == 0 {
        seq![Seq::<char>::empty()]
    } else if match_at(s, sep, 0) {
        seq![Seq::<char>::empty()] + split_sep(s.subrange(sep.len() as int, s.len() as int), sep)
    } else {
        let rest = split_sep(s.drop_first(), sep);
        seq![seq![s[0]] + rest[0]] + rest.drop_first()
    }
}

/// Tokens of `s` split at the empty separator: an empty token, then each
/// character on its own, then an empty token, as `str::split` does.
pub open spec fn split_empty(s: Seq<char>) -> Seq<Seq<char>> {
    seq![Seq::<char>::empty()] + Seq::new(s.len(), |i: int| seq![s[i]]) + seq![
        Seq::<char>::empty(),
    ]
}

/// Tokens of one line under an optional separator.
pub open spec fn line_tokens(s: Seq<char>, sep: Option<Seq<char>>) -> Seq<Seq<char>> {
    match sep {
        Option::None => split_ws(s),
        Option::Some(p) => if p.len() == 0 {
            split_empty(s)
        } else {
            split_sep(s, p)
        },
    }
}

/// The views of a vector of owned strings.
pub open spec fn str_views(v: Seq<String>) -> Seq<Seq<char>> {
    v.map_values(|t: String| t@)
}

/// `p` is a prefix of `s`.
pub open spec fn has_prefix(s: Seq<char>, p: Seq<char>) -> bool {
    p.len() <= s.len() && s.subrange(0, p.len() as int) == p
}

proof fn lemma_str_views_push(v: Seq<String>, t: String)
    ensures
        str_views(v.push(t)) == str_views(v).push(t@),
{
    assert(str_views(v.push(t)) =~~= str_views(v).push(t@));
}

/// Splitting off one maximal non-whitespace run: if the first `k`
/// characters are non-whitespace and the run ends at `k`, the first token
/// is exactly those characters.
proof fn lemma_split_ws_run(s: Seq<char>, k: int)
    requires
        0 < k <= s.len(),
        forall|m: int| 0 <= m < k ==> !white_space(s[m]),
        k == s.len() || white_space(s[k]),
    ensures
        split_ws(s) == seq![s.subrange(0, k)] + split_ws(s.subrange(k, s.len() as int)),
    decreases k,
{
    let rest = split_ws(s.drop_first());
    if k == 1 {
        if s.len() == 1 {
            assert(s.subrange(1, 1) =~= Seq::<char>::empty());
            assert(s.subrange(0, 1) =~= seq![s[0]]);
            assert(split_ws(s) =~= seq![s.subrange(0, 1)] + split_ws(s.subrange(1, 1)));
        } else {
            assert(white_space(s[1]));
            assert(s.drop_first() =~= s.subrange(1, s.len() as int));
            assert(s.subrange(0, 1) =~= seq![s[0]]);
            assert(split_ws(s) =~= seq![s.subrange(0, 1)] + split_ws(s.subrange(1, s.len() as int)));
        }
    } else {
        let d = s.drop_first();
        assert(forall|m: int| 0 <= m < k - 1 ==> !white_space(#[trigger] d[m]));
        lemma_split_ws_run(d, k - 1);
        assert(!white_space(s[1]));
        assert(rest[0] == d.subrange(0, k - 1));
        assert(seq![s[0]] + d.subrange(0, k - 1) =~= s.subrange(0, k));
        assert(d.subrange(k - 1, d.len() as int) =~= s.subrange(k, s.len() as int));
        assert(rest.drop_first() =~= split_ws(s.subrange(k, s.len() as int)));
        assert(split_ws(s) =~= seq![s.subrange(0, k)] + split_ws(s.subrange(k, s.len() as int)));
    }
}

/// Splitting at the first separator occurrence: with no match before `k`
/// and a match at `k`, the first token is everything before `k`.
proof fn lemma_split_sep_match(s: Seq<char>, sep: Seq<char>, k: int)
    requires
        sep.len() >= 1,
        0 <= k,
        k + sep.len() <= s.len(),
        forall|m: int| 0 <= m < k ==> !match_at(s, sep, m),
        match_at(s, sep, k),
    ensures
        split_sep(s, sep) == seq![s.subrange(0, k)] + split_sep(
            s.subrange(k + sep.len(), s.len() as int),
            sep,
        ),
    decreases k,
{
    if k == 0 {
        assert(s.subrange(0, 0) =~= Seq::<char>::empty());
        assert(split_sep(s, sep) =~= seq![s.subrange(0, 0)] + split_sep(
            s.subrange(sep.len() as int, s.len() as int),
            sep,
        ));
    } else {
        assert(!match_at(s, sep, 0));
        let d = s.drop_first();
        assert forall|m: int| 0 <= m < k - 1 implies !match_at(d, sep, m) by {
            assert(d.subrange(m, m + sep.len()) =~= s.subrange(m + 1, m + 1 + sep.len()));
            assert(!match_at(s, sep, m + 1));
        }
        assert(d.subrange(k - 1, k - 1 + sep.len()) =~= s.subrange(k, k + sep.len()));
        lemma_split_sep_match(d, sep, k - 1);
        let rest = split_sep(d, sep);
        assert(rest[0] == d.subrange(0, k - 1));
        assert(seq![s[0]] + d.subrange(0, k - 1) =~= s.subrange(0, k));
        assert(d.subrange(k - 1 + sep.len(), d.len() as int) =~= s.subrange(
            k + sep.len(),
            s.len() as int,
        ));
        assert(rest.drop_first() =~= split_sep(s.subrange(k + sep.len(), s.len() as int), sep));
        assert(split_sep(s, sep) =~= seq![s.subrange(0, k)] + split_sep(
            s.subrange(k + sep.len(), s.len() as int),
            sep,
        ));
    }
}

/// With no separator occurrence anywhere, the whole of `s` is one token.
proof fn lemma_split_sep_nomatch(s: Seq<char>, sep: Seq<char>)
    requires
        sep.len() >= 1,
        forall|m: int| 0 <= m ==> !match_at(s, sep, m),
    ensures
        split_sep(s, sep) == seq![s],
    decreases s.len(),
{
    if s.len() == 0 {
        assert(split_sep(s, sep) =~~= seq![s]);
    } else {
        assert(!match_at(s, sep, 0));
        let d = s.drop_first();
        assert forall|m: int| 0 <= m implies !match_at(d, sep, m) by {
            if m + sep.len() <= d.len() {
                assert(d.subrange(m, m + sep.len()) =~= s.subrange(m + 1, m + 1 + sep.len()));
                assert(!match_at(s, sep, m + 1));
            }
        }
        lemma_split_sep_nomatch(d, sep);
        assert(seq![s[0]] + d =~= s);
        assert(split_sep(s, sep) =~~= seq![s]);
    }
}

/// Whether `s` starts with the prefix `p`.
pub fn starts_with(s: &str, p: &str) -> (r: bool)
    ensures
        r == has_prefix(s@, p@),
{
    let n = s.unicode_len();
    let plen = p.unicode_len();
    if plen > n {
        return false;
    }
    let mut i: usize = 0;
    while i < plen
        invariant
            n == s@.len(),
            plen == p@.len(),
            plen <= n,
            i <= plen,
            forall|m: int| 0 <= m < i ==> s@[m] == p@[m],
        decreases plen - i,
    {
        if s.get_char(i) != p.get_char(i) {
            proof {
                assert(s@.subrange(0, plen as int)[i as int] == s@[i as int]);
            }
            return false;
        }
        i += 1;
    }
    proof {
        assert(s@.subrange(0, plen as int) =~= p@);
    }
    true
}

/// Splits one line into owned tokens, at whitespace runs when no
/// separator is configured, else at each separator occurrence.
pub fn tokenize(line: &str, sep: &Option<String>) -> (r: Vec<String>)
    ensures
        str_views(r@) == line_tokens(
            line@,
            match sep {
                Option::Some(p) => Option::Some(p@),
                Option::None => Option::None,
            },
        ),
{
    match sep {
        Option::Some(p) => {
            if p.as_str().unicode_len() == 0 {
                tokenize_empty_sep(line)
            } else {
                tokenize_sep(line, p.as_str())
            }
        },
        Option::None => tokenize_ws(line),
    }
}

fn tokenize_ws(line: &str) -> (r: Vec<String>)
    ensures
        str_views(r@) == split_ws(line@),
{
    let n = line.unicode_len();
    let mut toks: Vec<String> = Vec::new();
    proof {
        assert(line@.subrange(0, n as int) =~= line@);
        assert(str_views(toks@) =~= Seq::<Seq<char>>::empty());
    }
    let mut i: usize = 0;
    while i < n
        invariant
            n == line@.len(),
            i <= n,
            split_ws(line@) == str_views(toks@) + split_ws(line@.subrange(i as int, n as int)),
        decreases n - i,
    {
        let ghost pre = line@.subrange(i as int, n as int);
        if is_ws(line.get_char(i)) {
            proof {
                assert(pre.drop_first() =~= line@.subrange(i + 1, n as int));
            }
            i += 1;
        } else {
            let mut j: usize = i + 1;
            while j < n && !is_ws(line.get_char(j))
                invariant
                    n == line@.len(),
                    i < j <= n,
                    forall|m: int| i <= m < j ==> !white_space(line@[m]),
                decreases n - j,
            {
                j += 1;
            }
            let tok = line.substring_char(i, j).to_owned();
            proof {
                assert(forall|m: int|
                    0 <= m < j - i ==> #[trigger] pre[m] == line@[m + i]
                        && !white_space(pre[m]));
                if j < n {
                    assert(pre[j - i] == line@[j as int]);
                }
                lemma_split_ws_run(pre, j - i);
                assert(pre.subrange(0, j - i) =~= line@.subrange(i as int, j as int));
                assert(pre.subrange(j - i, pre.len() as int) =~= line@.subrange(
                    j as int,
                    n as int,
                ));
                lemma_str_views_push(toks@, tok);
            }
            toks.push(tok);
            proof {
                assert(split_ws(line@) =~= str_views(toks@) + split_ws(
                    line@.subrange(j as int, n as int),
                ));
            }
            i = j;
        }
    }
    proof {
        assert(line@.subrange(n as int, n as int) =~= Seq::<char>::empty());
        assert(split_ws(line@) =~= str_views(toks@));
    }
    toks
}

fn tokenize_empty_sep(line: &str) -> (r: Vec<String>)
    ensures
        str_views(r@) == split_empty(line@),
{
    let n = line.unicode_len();
    let mut toks: Vec<String> = Vec::new();
    toks.push(String::new());
    let mut i: usize = 0;
    while i < n
        invariant
            n == line@.len(),
            i <= n,
            toks@.len() == i + 1,
            str_views(toks@)[0] == Seq::<char>::empty(),
            forall|m: int| 0 <= m < i ==> str_views(toks@)[m + 1] == seq![line@[m]],
        decreases n - i,
    {
        let c = line.substring_char(i, i + 1).to_owned();
        proof {
            assert(line@.subrange(i as int, i + 1) =~= seq![line@[i as int]]);
            lemma_str_views_push(toks@, c);
        }
        toks.push(c);
        i += 1;
    }
    let tail = String::new();
    proof {
        lemma_str_views_push(toks@, tail);
    }
    toks.push(tail);
    proof {
        assert(str_views(toks@) =~~= split_empty(line@));
    }
    toks
}

/// Reports whether `sep` matches `line` at position `at`.
fn match_here(line: &str, sep: &str, at: usize) -> (r: bool)
    requires
        at + sep@.len() <= line@.len(),
        line@.len() <= usize::MAX,
    ensures
        r == match_at(line@, sep@, at as int),
{
    let plen = sep.unicode_len();
    let mut t: usize = 0;
    while t < plen
        invariant
            plen == sep@.len(),
            at + plen <= line@.len(),
            line@.len() <= usize::MAX,
            t <= plen,
            forall|m: int| 0 <= m < t ==> line@[at + m] == sep@[m],
        decreases plen - t,
    {
        if line.get_char(at + t) != sep.get_char(t) {
            proof {
                assert(line@.subrange(at as int, at + plen)[t as int] == line@[at + t]);
            }
            return false;
        }
        t += 1;
    }
    proof {
        assert(line@.subrange(at as int, at + plen) =~= sep@);
    }
    true
}

fn tokenize_sep(line: &str, sep: &str) -> (r: Vec<String>)
    requires
        sep@.len() >= 1,
    ensures
        str_views(r@) == split_sep(line@, sep@),
{
    let n = line.unicode_len();
    let plen = sep.unicode_len();
    let mut toks: Vec<String> = Vec::new();
    proof {
        assert(line@.subrange(0, n as int) =~= line@);
        assert(str_views(toks@) =~= Seq::<Seq<char>>::empty());
    }
    let mut i: usize = 0;
    let mut done = false;
    while !done
        invariant
            n == line@.len(),
            plen == sep@.len(),
            plen >= 1,
            i <= n,
            !done ==> split_sep(line@, sep@) == str_views(toks@) + split_sep(
                line@.subrange(i as int, n as int),
                sep@,
            ),
            done ==> str_views(toks@) == split_sep(line@, sep@),
        decreases (if done {
            0int
        } else {
            n - i + 1
        }),
    {
        let ghost pre = line@.subrange(i as int, n as int);
        let mut j: usize = i;
        let mut found = false;
        while !found && plen <= n - j
            invariant
                n == line@.len(),
                plen == sep@.len(),
                plen >= 1,
                i <= j,
                j <= n,
                !found ==> forall|m: int| i <= m < j ==> !match_at(line@, sep@, m),
                found ==> j + plen <= n && match_at(line@, sep@, j as int) && forall|m: int|
                    i <= m < j ==> !match_at(line@, sep@, m),
            decreases (if found {
                0int
            } else {
                n - j + 1
            }),
        {
            if match_here(line, sep, j) {
                found = true;
            } else {
                j += 1;
            }
        }
        proof {
            assert forall|m: int| 0 <= m < j - i implies !match_at(pre, sep@, m) by {
                if m + plen <= pre.len() {
                    assert(pre.subrange(m, m + plen) =~= line@.subrange(i + m, i + m + plen));
                    assert(!match_at(line@, sep@, i + m));
                }
            }
        }
        if found {
            let tok = line.substring_char(i, j).to_owned();
            proof {
                assert(pre.subrange(j - i, j - i + plen) =~= line@.subrange(
                    j as int,
                    j + plen,
                ));
                lemma_split_sep_match(pre, sep@, j - i);
                assert(pre.subrange(0, j - i) =~= line@.subrange(i as int, j as int));
                assert(pre.subrange(j - i + plen, pre.len() as int) =~= line@.subrange(
                    j + plen,
                    n as int,
                ));
                lemma_str_views_push(toks@, tok);
            }
            toks.push(tok);
            proof {
                assert(split_sep(line@, sep@) =~= str_views(toks@) + split_sep(
                    line@.subrange(i + plen + (j - i), n as int),
                    sep@,
                ));
            }
            i = j + plen;
        } else {
            let tok = line.substring_char(i, n).to_owned();
            proof {
                assert forall|m: int| 0 <= m implies !match_at(pre, sep@, m) by {
                    if m + plen <= pre.len() {
                        assert(pre.subrange(m, m + plen) =~= line@.subrange(
                            i + m,
                            i + m + plen,
                        ));
                        assert(!match_at(line@, sep@, i + m));
                    }
                }
                lemma_split_sep_nomatch(pre, sep@);
                lemma_str_views_push(toks@, tok);
            }
            toks.push(tok);
            proof {
                assert(str_views(toks@) =~= split_sep(line@, sep@));
            }
            done = true;
        }
    }
    toks
}

} // verus!

//! A verified parser for decimal integer tokens.
//!
//! Histogram columns hold integer bin coordinates. A token is accepted
//! exactly when it is an optional `+` or `-` sign followed by one or more
//! ASCII digits and its value fits the target type; this is the grammar
//! that the standard library's integer parsing accepts for plain decimal
//! input.

use vstd::prelude::*;

verus! {

/// ASCII decimal digit.
pub open spec fn is_digit(c: char) -> bool {
    48 <= c as int && c as int <= 57
}

/// Numeric value of an ASCII digit.
pub open spec fn digit_val(c: char) -> int {
    c as int - 48
}

/// Every character of `s` is an ASCII digit.
pub open spec fn all_digits(s: Seq<char>) -> bool {
    forall|i: int| 0 <= i < s.len() ==> is_digit(s[i])
}

/// Value of a digit string read in base 10.
pub open spec fn digits_val(s: Seq<char>) -> int
    decreases s.len(),
{
    if s.len() == 0 {
        0
    } else {
        10 * digits_val(s.drop_last()) + digit_val(s.last())
    }
}

/// `s` is an optional sign followed by at least one digit.
pub open spec fn is_int_literal(s: Seq<char>) -> bool {
    if s.len() == 0 {
        false
    } else if s[0] == '+' || s[0] == '-' {
        s.len() > 1 && all_digits(s.skip(1))
    } else {
        all_digits(s)
    }
}

/// The signed value of an integer literal.
pub open spec fn int_literal_val(s: Seq<char>) -> int {
    if s.len() > 0 && s[0] == '-' {
        -digits_val(s.skip(1))
    } else if s.len() > 0 && s[0] == '+' {
        digits_val(s.skip(1))
    } else {
        digits_val(s)
    }
}

pub proof fn lemma_digits_val_nonneg(s: Seq<char>)
    requires
        all_digits(s),
    ensures
        digits_val(s) >= 0,
    decreases s.len(),
{
    if s.len() > 0 {
        assert(all_digits(s.drop_last()));
        lemma_digits_val_nonneg(s.drop_last());
    }
}

/// Digit value of one character, or `None` if it is not a digit.
fn digit_of(c: char) -> (r: Option<u64>)
    ensures
        r is Some <==> is_digit(c),
        r is Some ==> r->0 == digit_val(c),
{
    let u = c as u32;
    if 48 <= u && u <= 57 {
        Some((u - 48) as u64)
    } else {
        None
    }
}

/// Parses a decimal integer token into an `i64`.
///
/// Succeeds exactly on well-formed literals whose value fits in `i64`,
/// and then returns that value.
pub fn parse_i64(s: &str) -> (r: Option<i64>)
    ensures
        r is Some <==> is_int_literal(s@) && i64::MIN <= int_literal_val(s@) <= i64::MAX,
        r is Some ==> r->0 == int_literal_val(s@),
{
    let n = s.unicode_len();
    if n == 0 {
        return None;
    }
    let first = s.get_char(0);
    let neg = first == '-';
    let start: usize = if first == '-' || first == '+' {
        1
    } else {
        0
    };
    if start == n {
        return None;
    }
    let limit: u64 = if neg {
        9223372036854775808
    } else {
        9223372036854775807
    };
    let mut acc: u64 = 0;
    let mut over: bool = false;
    let mut i: usize = start;
    while i < n
        invariant
            n == s@.len(),
            start <= i <= n,
            start <= 1,
            start < n,
            n > 0,
            start == 1 <==> (s@[0] == '+' || s@[0] == '-'),
            neg <==> s@[0] == '-',
            limit == if neg {
                9223372036854775808u64
            } else {
                9223372036854775807u64
            },
            all_digits(s@.subrange(start as int, i as int)),
            !over ==> acc == digits_val(s@.subrange(start as int, i as int)) && acc <= limit,
            over ==> digits_val(s@.subrange(start as int, i as int)) > limit,
        decreases n - i,
    {
        let c = s.get_char(i);
        let d = match digit_of(c) {
            Some(d) => d,
            None => {
                proof {
                    if start == 1 {
                        assert(s@.skip(1)[i - 1] == s@[i as int]);
                        assert(!is_digit(s@.skip(1)[i - 1]));
                    } else {
                        assert(!is_digit(s@[i as int]));
                    }
                }
                return None;
            },
        };
        proof {
            assert(s@.subrange(start as int, i + 1).drop_last() =~= s@.subrange(
                start as int,
                i as int,
            ));
            assert(s@.subrange(start as int, i + 1).last() == s@[i as int]);
        }
        if over {
            proof {
                lemma_digits_val_nonneg(s@.subrange(start as int, i as int));
            }
        } else {
            let wide: u128 = (acc as u128) * 10 + (d as u128);
            if wide > limit as u128 {
                over = true;
            } else {
                acc = wide as u64;
            }
        }
        i += 1;
    }
    proof {
        assert(s@.subrange(start as int, n as int) =~= s@.skip(start as int));
    }
    if over {
        proof {
            if start == 0 {
                assert(s@.skip(0) =~= s@);
            }
        }
        return None;
    }
    proof {
        if start == 0 {
            assert(s@.skip(0) =~= s@);
        }
    }
    if neg {
        if acc == 9223372036854775808 {
            Some(i64::MIN)
        } else {
            Some(-(acc as i64))
        }
    } else {
        Some(acc as i64)
    }
}

} // verus!

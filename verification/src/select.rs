use vstd::prelude::*;

use crate::numeral::{
    all_digits, char_to_digit, digits_value, lemma_digits_value_take_mono,
    lemma_digits_value_take_step,
};

verus! {

/// The digit part of an unsigned numeral: everything after an optional
/// leading plus sign.
pub open spec fn unsigned_body(s: Seq<char>) -> Seq<char> {
    if s.len() > 0 && s[0] == '+' {
        s.drop_first()
    } else {
        s
    }
}

/// What parsing a string as an unsigned machine integer yields: an optional
/// plus sign, then at least one digit, and a value that fits.
pub open spec fn parse_usize_spec(s: Seq<char>) -> Option<usize> {
    let ds = unsigned_body(s);
    if ds.len() > 0 && all_digits(ds) && digits_value(ds) <= usize::MAX {
        Some(digits_value(ds) as usize)
    } else {
        None
    }
}

/// Parse a string as an unsigned decimal integer.
pub fn parse_usize(s: &str) -> (r: Option<usize>)
    ensures
        r == parse_usize_spec(s@),
{
    let len = s.unicode_len();
    let ghost ds = unsigned_body(s@);
    let start: usize = if len > 0 && s.get_char(0) == '+' {
        1
    } else {
        0
    };
    proof {
        assert(ds =~= s@.skip(start as int));
    }
    if start >= len {
        return None;
    }
    let mut acc: usize = 0;
    let mut j: usize = start;
    while j < len
        invariant
            len == s@.len(),
            start <= j <= len,
            start < len,
            ds == s@.skip(start as int),
            ds == unsigned_body(s@),
            all_digits(ds.take(j - start)),
            acc == digits_value(ds.take(j - start)),
        decreases len - j,
    {
        let c = s.get_char(j);
        proof {
            assert(ds[j - start] == s@[j as int]);
        }
        match char_to_digit(c) {
            None => {
                return None;
            },
            Some(d) => {
                let overflowed: bool = match acc.checked_mul(10) {
                    Some(m) => match m.checked_add(d) {
                        Some(v) => {
                            acc = v;
                            false
                        },
                        None => true,
                    },
                    None => true,
                };
                if overflowed {
                    proof {
                        lemma_digits_value_take_step(ds, j - start);
                        if all_digits(ds) {
                            lemma_digits_value_take_mono(ds, j - start + 1, ds.len() as int);
                            assert(ds.take(ds.len() as int) =~= ds);
                        }
                    }
                    return None;
                }
                proof {
                    lemma_digits_value_take_step(ds, j - start);
                }
            },
        }
        j = j + 1;
    }
    proof {
        assert(ds.take(len - start) =~= ds);
    }
    Some(acc)
}

/// Selection: accept a 1-based choice against a list of `n` options and
/// return it 0-based; reject anything that is not an integer in `[1, n]`.
pub fn select_option(input: &str, n: usize) -> (r: Option<usize>)
    ensures
        ({
            match parse_usize_spec(input@) {
                Some(k) => if 1 <= k && k <= n {
                    r == Some((k - 1) as usize)
                } else {
                    r is None
                },
                None => r is None,
            }
        }),
{
    match parse_usize(input) {
        Some(k) => if 1 <= k && k <= n {
            Some(k - 1)
        } else {
            None
        },
        None => None,
    }
}

} // verus!

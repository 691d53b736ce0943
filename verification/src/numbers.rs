//! Base-10 decoding of digit runs, with overflow detected exactly.
use vstd::prelude::*;
use crate::chars::{is_digit, digit_of, digit_char};

verus! {

/// Every character of `s` is a decimal digit.
pub open spec fn all_digits(s: Seq<char>) -> bool {
    forall|i: int| 0 <= i < s.len() ==> is_digit(s[i])
}

/// The base-10 value of a digit sequence (leading zeros allowed).
pub open spec fn dec_val(s: Seq<char>) -> int
    decreases s.len(),
{
    if s.len() == 0 {
        0
    } else {
        dec_val(s.drop_last()) * 10 + digit_of(s.last())
    }
}

/// A digit sequence decodes to a non-negative value.
pub proof fn lemma_dec_val_nonneg(s: Seq<char>)
    requires
        all_digits(s),
    ensures
        dec_val(s) >= 0,
    decreases s.len(),
{
    if s.len() > 0 {
        assert(all_digits(s.drop_last()));
        lemma_dec_val_nonneg(s.drop_last());
    }
}

/// Decode the digits of `s` between `from` and `to` as a base-10 number,
/// or report that the value does not fit in a `u64`.
pub fn parse_digits(s: &str, from: usize, to: usize) -> (r: Option<u64>)
    requires
        from <= to <= s@.len(),
        all_digits(s@.subrange(from as int, to as int)),
    ensures
        match r {
            Some(v) => v == dec_val(s@.subrange(from as int, to as int)),
            None => dec_val(s@.subrange(from as int, to as int)) > u64::MAX,
        },
{
    let ghost whole = s@.subrange(from as int, to as int);
    let mut acc: Option<u64> = Some(0);
    let mut i: usize = from;
    while i < to
        invariant
            from <= i <= to <= s@.len(),
            whole == s@.subrange(from as int, to as int),
            all_digits(whole),
            match acc {
                Some(v) => v == dec_val(s@.subrange(from as int, i as int)),
                None => dec_val(s@.subrange(from as int, i as int)) > u64::MAX,
            },
        decreases to - i,
    {
        let c = s.get_char(i);
        proof {
            assert(s@[i as int] == whole[i - from]);
            assert(is_digit(c));
        }
        let d: u64 = (c as u32 - 48) as u64;
        let ghost prefix = s@.subrange(from as int, i as int);
        let ghost next = s@.subrange(from as int, i + 1 as int);
        proof {
            assert(next.drop_last() =~= prefix);
            assert(next.last() == s@[i as int]);
            assert(dec_val(next) == dec_val(prefix) * 10 + digit_of(s@[i as int]));
            assert(all_digits(prefix)) by {
                assert(forall|j: int| 0 <= j < prefix.len() ==> prefix[j] == whole[j]);
            }
            lemma_dec_val_nonneg(prefix);
        }
        acc = match acc {
            Some(v) => {
                let limit: u64 = (u64::MAX - d) / 10;
                if v <= limit {
                    proof {
                        assert(v * 10 + d <= u64::MAX) by (nonlinear_arith)
                            requires
                                v <= (u64::MAX - d) / 10,
                                d <= 9,
                        {
                        }
                    }
                    Some(v * 10 + d)
                } else {
                    proof {
                        assert(v * 10 + d > u64::MAX) by (nonlinear_arith)
                            requires
                                v > (u64::MAX - d) / 10,
                                d <= 9,
                        {
                        }
                    }
                    None
                }
            },
            None => {
                proof {
                    assert(dec_val(prefix) * 10 + digit_of(s@[i as int]) > u64::MAX)
                        by (nonlinear_arith)
                        requires
                            dec_val(prefix) > u64::MAX,
                            digit_of(s@[i as int]) >= 0,
                    {
                    }
                }
                None
            },
        };
        i += 1;
    }
    proof {
        assert(s@.subrange(from as int, i as int) == whole);
    }
    acc
}

/// Count how many decimal digits stand at and after position `i`.
///
/// Returns the first position at or after `i` that does not hold a digit.
pub open spec fn digit_run_end(s: Seq<char>, i: int) -> int
    decreases s.len() - i,
{
    if 0 <= i < s.len() && is_digit(s[i]) {
        digit_run_end(s, i + 1)
    } else {
        i
    }
}

pub proof fn lemma_digit_run_end(s: Seq<char>, i: int)
    requires
        0 <= i <= s.len(),
    ensures
        i <= digit_run_end(s, i) <= s.len(),
        forall|j: int| i <= j < digit_run_end(s, i) ==> is_digit(s[j]),
        digit_run_end(s, i) < s.len() ==> !is_digit(s[digit_run_end(s, i)]),
    decreases s.len() - i,
{
    if i < s.len() && is_digit(s[i]) {
        lemma_digit_run_end(s, i + 1);
    }
}

/// Executable twin of [`digit_run_end`].
pub fn digit_run_end_at(s: &str, i: usize) -> (e: usize)
    requires
        i <= s@.len(),
    ensures
        e == digit_run_end(s@, i as int),
        i <= e <= s@.len(),
{
    let n = s.unicode_len();
    let mut e = i;
    while e < n && digit_char(s.get_char(e))
        invariant
            i <= e <= n,
            n == s@.len(),
            digit_run_end(s@, i as int) == digit_run_end(s@, e as int),
        decreases n - e,
    {
        e += 1;
    }
    proof {
        lemma_digit_run_end(s@, i as int);
    }
    e
}

} // verus!

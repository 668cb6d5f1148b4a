//! Decimal integer text: what it denotes, and a checked parser for `i32`.
use vstd::prelude::*;
use crate::text::is_digit;

verus! {

pub open spec fn all_digits(s: Seq<char>) -> bool {
    forall|i: int| 0 <= i < s.len() ==> is_digit(#[trigger] s[i])
}

/// The value of a string of decimal digits.
pub open spec fn digits_value(s: Seq<char>) -> int
    decreases s.len(),
{
    if s.len() == 0 {
        0
    } else {
        digits_value(s.drop_last()) * 10 + (s.last() as int - '0' as int)
    }
}

/// The integer that a token denotes: an optional `+` or `-` followed by
/// one or more decimal digits.
pub open spec fn int_text_value(s: Seq<char>) -> Option<int> {
    if s.len() > 1 && s[0] == '-' && all_digits(s.skip(1)) {
        Some(-digits_value(s.skip(1)))
    } else if s.len() > 1 && s[0] == '+' && all_digits(s.skip(1)) {
        Some(digits_value(s.skip(1)))
    } else if s.len() > 0 && all_digits(s) {
        Some(digits_value(s))
    } else {
        None
    }
}

pub open spec fn fits_i32(v: int) -> bool {
    i32::MIN <= v <= i32::MAX
}

/// The `i32` that a token denotes, when it denotes one in range.
pub open spec fn spec_parse_i32(s: Seq<char>) -> Option<i32> {
    match int_text_value(s) {
        Some(v) => if fits_i32(v) { Some(v as i32) } else { None },
        None => None,
    }
}

proof fn lemma_digits_value_nonneg(s: Seq<char>)
    requires
        all_digits(s),
    ensures
        digits_value(s) >= 0,
    decreases s.len(),
{
    if s.len() > 0 {
        lemma_digits_value_nonneg(s.drop_last());
    }
}

/// The value of digits only grows as more digits follow.
proof fn lemma_digits_value_grows(s: Seq<char>, k: int)
    requires
        all_digits(s),
        0 <= k <= s.len(),
    ensures
        digits_value(s.take(k)) <= digits_value(s),
    decreases s.len() - k,
{
    if k < s.len() {
        lemma_digits_value_grows(s, k + 1);
        assert(s.take(k + 1).drop_last() =~= s.take(k));
        lemma_digits_value_nonneg(s.take(k));
    } else {
        assert(s.take(k) =~= s);
    }
}

/// Reads the digits of `s` from `start` on, up to a bound: `Some` with the
/// value when all are digits and the value is at most `limit`.
fn digits_upto(s: &Vec<char>, start: usize, limit: i64) -> (r: Option<i64>)
    requires
        start < s@.len(),
        0 <= limit <= 0x8000_0000,
    ensures
        r is Some <==> all_digits(s@.skip(start as int)) && digits_value(s@.skip(start as int)) <= limit,
        r matches Some(v) ==> v == digits_value(s@.skip(start as int)) && 0 <= v <= limit,
{
    let ghost t = s@.skip(start as int);
    let mut acc: i64 = 0;
    let mut i: usize = start;
    while i < s.len()
        invariant
            t == s@.skip(start as int),
            start <= i <= s@.len(),
            all_digits(t.take(i - start)),
            acc == digits_value(t.take(i - start)),
            0 <= acc <= limit,
            limit <= 0x8000_0000,
        decreases s.len() - i,
    {
        let c = s[i];
        if !('0' <= c && c <= '9') {
            proof {
                assert(t[i - start] == c);
            }
            return None;
        }
        let d = (c as u32 - '0' as u32) as i64;
        let next = acc * 10 + d;
        proof {
            assert(t.take(i - start + 1).drop_last() =~= t.take(i - start));
            assert(t.take(i - start + 1).last() == c);
        }
        if next > limit {
            proof {
                if all_digits(t) {
                    lemma_digits_value_grows(t, i - start + 1);
                }
            }
            return None;
        }
        acc = next;
        i += 1;
    }
    proof {
        assert(t.take(i - start) =~= t);
    }
    Some(acc)
}

/// Parses a decimal `i32`: an optional sign and at least one digit, in range.
pub fn parse_i32(s: &Vec<char>) -> (r: Option<i32>)
    ensures
        r == spec_parse_i32(s@),
{
    if s.len() == 0 {
        return None;
    }
    let first = s[0];
    if (first == '-' || first == '+') && s.len() == 1 {
        proof {
            assert(!all_digits(s@));
        }
        return None;
    }
    if first == '-' {
        proof {
            assert(!all_digits(s@));
        }
        match digits_upto(s, 1, 0x8000_0000) {
            Some(v) => Some((-v) as i32),
            None => {
                proof {
                    let t = s@.skip(1);
                    if all_digits(t) {
                        lemma_digits_value_nonneg(t);
                    }
                }
                None
            },
        }
    } else if first == '+' {
        proof {
            assert(!all_digits(s@));
        }
        match digits_upto(s, 1, 0x7fff_ffff) {
            Some(v) => Some(v as i32),
            None => {
                proof {
                    let t = s@.skip(1);
                    if all_digits(t) {
                        lemma_digits_value_nonneg(t);
                    }
                }
                None
            },
        }
    } else {
        proof {
            assert(s@.skip(0) =~= s@);
        }
        match digits_upto(s, 0, 0x7fff_ffff) {
            Some(v) => Some(v as i32),
            None => {
                proof {
                    if all_digits(s@) {
                        lemma_digits_value_nonneg(s@);
                    }
                }
                None
            },
        }
    }
}

} // verus!

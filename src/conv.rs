//! Conversions between text and numbers.
use vstd::prelude::*;
use crate::number::{spec_parse_i32, parse_i32};
use crate::text::{chars_of, string_of};

verus! {

/// The `i32` that `s` denotes; `s` must denote one.
pub fn str_to_i(s: &str) -> (r: i32)
    requires
        spec_parse_i32(s@) is Some,
    ensures
        spec_parse_i32(s@) == Some(r),
{
    match parse_i32(&chars_of(s)) {
        Some(x) => x,
        None => 0,
    }
}

pub open spec fn all_bits(s: Seq<char>) -> bool {
    forall|i: int| 0 <= i < s.len() ==> #[trigger] s[i] == '0' || s[i] == '1'
}

/// The value of a string of binary digits.
pub open spec fn bits_value(s: Seq<char>) -> int
    decreases s.len(),
{
    if s.len() == 0 {
        0
    } else {
        bits_value(s.drop_last()) * 2 + if s.last() == '1' { 1int } else { 0int }
    }
}

/// The byte that binary text denotes: an optional `+`, then one or more
/// binary digits, with a value below 256.
pub open spec fn spec_parse_bin_u8(s: Seq<char>) -> Option<u8> {
    let d = if s.len() > 0 && s[0] == '+' { s.skip(1) } else { s };
    if d.len() > 0 && all_bits(d) && bits_value(d) < 256 {
        Some(bits_value(d) as u8)
    } else {
        None
    }
}

proof fn lemma_bits_grow(s: Seq<char>, k: int)
    requires
        all_bits(s),
        0 <= k <= s.len(),
    ensures
        0 <= bits_value(s.take(k)) <= bits_value(s),
    decreases s.len() - k,
{
    if k < s.len() {
        lemma_bits_grow(s, k + 1);
        assert(s.take(k + 1).drop_last() =~= s.take(k));
    } else {
        assert(s.take(k) =~= s);
    }
    lemma_bits_nonneg(s.take(k));
}

proof fn lemma_bits_nonneg(s: Seq<char>)
    ensures
        bits_value(s) >= 0,
    decreases s.len(),
{
    if s.len() > 0 {
        lemma_bits_nonneg(s.drop_last());
    }
}

/// The byte that binary text denotes; the text must denote one.
pub fn bin_to_u(b: &str) -> (r: u8)
    requires
        spec_parse_bin_u8(b@) is Some,
    ensures
        spec_parse_bin_u8(b@) == Some(r),
{
    let cs = chars_of(b);
    let start: usize = if cs.len() > 0 && cs[0] == '+' { 1 } else { 0 };
    let ghost d = cs@.skip(start as int);
    proof {
        assert(cs@.skip(0) =~= cs@);
    }
    let mut acc: u32 = 0;
    let mut i: usize = start;
    proof {
        lemma_bits_grow(d, 0);
        assert(d.take(0) =~= Seq::<char>::empty());
    }
    while i < cs.len()
        invariant
            cs@ == b@,
            d == cs@.skip(start as int),
            start <= i <= cs@.len(),
            all_bits(d),
            bits_value(d) < 256,
            acc == bits_value(d.take(i - start)),
            acc <= bits_value(d),
        decreases cs.len() - i,
    {
        proof {
            assert(d.take(i - start + 1).drop_last() =~= d.take(i - start));
            assert(d.take(i - start + 1).last() == cs@[i as int]);
            lemma_bits_grow(d, i - start + 1);
        }
        acc = acc * 2 + if cs[i] == '1' { 1 } else { 0 };
        i += 1;
    }
    proof {
        assert(d.take(i - start) =~= d);
    }
    acc as u8
}

/// The string of the given characters.
pub fn chars_to_str(v: Vec<char>) -> (r: String)
    ensures
        r@ == v@,
{
    string_of(&v)
}

/// Whether the low byte of each character is an ASCII digit.
pub open spec fn low_byte_digit(c: char) -> bool {
    48 <= (c as u32) % 256 <= 57
}

/// Whether every character is a digit, judged by its low byte.
pub fn is_numeric(val: &str) -> (r: bool)
    ensures
        r == forall|i: int| 0 <= i < val@.len() ==> low_byte_digit(#[trigger] val@[i]),
{
    let cs = chars_of(val);
    let mut i: usize = 0;
    while i < cs.len()
        invariant
            cs@ == val@,
            i <= cs@.len(),
            forall|q: int| 0 <= q < i ==> low_byte_digit(#[trigger] val@[q]),
        decreases cs.len() - i,
    {
        let b = (cs[i] as u32) % 256;
        if b < 48 || b > 57 {
            proof {
                assert(!low_byte_digit(val@[i as int]));
            }
            return false;
        }
        i += 1;
    }
    true
}

/// The binary digits of `v`, without leading zeros.
pub open spec fn bin_digits(v: nat) -> Seq<char>
    decreases v,
{
    let d = if v % 2 == 1 { '1' } else { '0' };
    if v < 2 { seq![d] } else { bin_digits(v / 2) + seq![d] }
}

/// The binary digits of each character's low byte, one after another.
pub open spec fn bin_text(s: Seq<char>) -> Seq<char>
    decreases s.len(),
{
    if s.len() == 0 {
        Seq::empty()
    } else {
        bin_text(s.drop_last()) + bin_digits(((s.last() as u32) % 256) as nat)
    }
}

fn push_bin(out: &mut Vec<char>, v: u32)
    ensures
        final(out)@ == old(out)@ + bin_digits(v as nat),
    decreases v,
{
    let d = if v % 2 == 1 { '1' } else { '0' };
    if v >= 2 {
        push_bin(out, v / 2);
    }
    out.push(d);
    proof {
        assert(final(out)@ =~= old(out)@ + bin_digits(v as nat));
    }
}

/// A line of text.
#[derive(Debug, Clone)]
pub struct Line(pub String);

impl Line {
    /// The binary digits of each character's low byte, one after another.
    pub fn to_bin(self) -> (r: String)
        ensures
            r@ == bin_text(self.0@),
    {
        let cs = chars_of(self.0.as_str());
        let mut out: Vec<char> = Vec::new();
        let mut i: usize = 0;
        while i < cs.len()
            invariant
                cs@ == self.0@,
                i <= cs@.len(),
                out@ == bin_text(cs@.take(i as int)),
            decreases cs.len() - i,
        {
            proof {
                assert(cs@.take(i + 1).drop_last() =~= cs@.take(i as int));
            }
            push_bin(&mut out, (cs[i] as u32) % 256);
            i += 1;
        }
        proof {
            assert(cs@.take(i as int) =~= cs@);
        }
        string_of(&out)
    }
}

} // verus!

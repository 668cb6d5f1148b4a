//! Small puzzles over sequences and strings.
use vstd::prelude::*;
use crate::text::{chars_of, is_ascii_char, same_chars};

verus! {

/// Whether `p` is the first position of a least value of `v`.
pub open spec fn first_min(v: Seq<i32>, p: int) -> bool {
    &&& 0 <= p < v.len()
    &&& forall|j: int| 0 <= j < v.len() ==> v[p] <= #[trigger] v[j]
    &&& forall|j: int| 0 <= j < p ==> v[p] < #[trigger] v[j]
}

/// Whether `v` does not descend from position `p` on.
pub open spec fn ascends_from(v: Seq<i32>, p: int) -> bool {
    forall|i: int| p <= i && i + 1 < v.len() ==> #[trigger] v[i] <= v[i + 1]
}

/// The first position of the least value, when the values from there on
/// never descend; `None` otherwise.
pub fn queue_sort(v: Vec<i32>) -> (r: Option<usize>)
    requires
        v@.len() > 0,
    ensures
        exists|p: int| first_min(v@, p) && r == if ascends_from(v@, p) { Some(p as usize) } else { None::<usize> },
{
    let mut min: i32 = v[0];
    let mut pos: usize = 0;
    let mut i: usize = 1;
    while i < v.len()
        invariant
            v@.len() > 0,
            1 <= i <= v@.len(),
            pos < i,
            min == v@[pos as int],
            forall|j: int| 0 <= j < i ==> min <= #[trigger] v@[j],
            forall|j: int| 0 <= j < pos ==> min < #[trigger] v@[j],
        decreases v.len() - i,
    {
        if v[i] < min {
            min = v[i];
            pos = i;
        }
        i += 1;
    }
    proof {
        assert(first_min(v@, pos as int));
    }
    let mut k: usize = pos;
    while k + 1 < v.len()
        invariant
            first_min(v@, pos as int),
            pos <= k < v@.len(),
            forall|q: int| pos <= q < k ==> #[trigger] v@[q] <= v@[q + 1],
        decreases v.len() - k,
    {
        if v[k] > v[k + 1] {
            proof {
                assert(first_min(v@, pos as int));
                assert(!ascends_from(v@, pos as int));
            }
            return None;
        }
        k += 1;
    }
    proof {
        assert(first_min(v@, pos as int));
    }
    Some(pos)
}

/// The character before position `i`, a space before the first.
pub open spec fn before(s: Seq<char>, i: int) -> char {
    if i == 0 { ' ' } else { s[i - 1] }
}

/// Whether a position of `s` repeats the character before it.
pub open spec fn repeats_at(s: Seq<char>, i: int) -> bool {
    0 <= i < s.len() && before(s, i) == s[i]
}

/// The answer for `s` (of `s_bytes` bytes) and `t`.
pub open spec fn spec_quingshan(s: Seq<char>, s_bytes: int, t: Seq<char>) -> bool {
    if s_bytes == 1 && s != t {
        true
    } else if exists|i: int| #[trigger] repeats_at(t, i) {
        false
    } else {
        !exists|i: int| #[trigger] repeats_at(s, i) && (t[0] == s[i] || s[i] == t[t.len() - 1])
    }
}

/// Whether `t` can be put between the equal neighbours of `s` so that no
/// two neighbours are equal.
#[verifier::loop_isolation(false)]
pub fn quingshan(s: &str, t: &str) -> (r: bool)
    requires
        t@.len() > 0,
        is_ascii_char(t@[0]),
        is_ascii_char(t@[t@.len() - 1]),
    ensures
        r == spec_quingshan(s@, s.len() as int, t@),
{
    let sc = chars_of(s);
    let tc = chars_of(t);
    if s.len() == 1 && !same_chars(&sc, &tc) {
        return true;
    }
    let mut prevt: char = ' ';
    let mut i: usize = 0;
    while i < tc.len()
        invariant
            tc@ == t@,
            i <= tc@.len(),
            prevt == before(t@, i as int),
            forall|q: int| 0 <= q < i ==> !#[trigger] repeats_at(t@, q),
        decreases tc.len() - i,
    {
        if prevt == tc[i] {
            proof {
                assert(repeats_at(t@, i as int));
            }
            return false;
        }
        prevt = tc[i];
        i += 1;
    }
    proof {
        assert forall|q: int| !#[trigger] repeats_at(t@, q) by {
            if 0 <= q < t@.len() {
                assert(q < i);
            }
        }
    }
    let first = tc[0];
    let last = tc[tc.len() - 1];
    let mut prevs: char = ' ';
    let mut j: usize = 0;
    while j < sc.len()
        invariant
            sc@ == s@,
            tc@ == t@,
            first == t@[0],
            last == t@[t@.len() - 1],
            j <= sc@.len(),
            prevs == before(s@, j as int),
            forall|q: int| 0 <= q < j ==> !(#[trigger] repeats_at(s@, q) && (t@[0] == s@[q] || s@[q] == t@[t@.len() - 1])),
        decreases sc.len() - j,
    {
        let c = sc[j];
        if prevs == c {
            if first == prevs || c == last {
                proof {
                    assert(repeats_at(s@, j as int));
                }
                return false;
            }
        }
        prevs = c;
        j += 1;
    }
    proof {
        assert forall|q: int| !(#[trigger] repeats_at(s@, q) && (t@[0] == s@[q] || s@[q] == t@[t@.len() - 1])) by {
            if 0 <= q < s@.len() {
                assert(q < j);
            }
        }
    }
    true
}

/// How many strokes of width `e` erase every `B` of `c` from position `i`
/// on, each stroke starting at the first `B` left; a stroke that would reach
/// past `limit` is the last.
pub open spec fn strokes(c: Seq<char>, e: int, i: int, limit: int) -> int
    decreases c.len() - i,
{
    if i < 0 || i >= c.len() || e < 1 {
        0
    } else if c[i] == 'B' {
        if i + e > limit || i + e >= c.len() { 1 } else { 1 + strokes(c, e, i + e, limit) }
    } else {
        strokes(c, e, i + 1, limit)
    }
}

/// The fewest strokes of width `e` that erase every `B` of `s`, strokes
/// stopping at the text's length in bytes.
pub fn eraser_1d(s: &str, e: usize) -> (r: usize)
    requires
        e >= 1,
    ensures
        r == strokes(s@, e as int, 0, s.len() as int),
{
    let c = chars_of(s);
    let limit = s.len();
    let ghost lim = limit as int;
    let mut count: usize = 0;
    let mut i: usize = 0;
    while i < c.len()
        invariant
            c@ == s@,
            e >= 1,
            lim == limit,
            lim == s.len() as int,
            count <= i,
            count + strokes(s@, e as int, i as int, lim) == strokes(s@, e as int, 0, lim),
        decreases c.len() - i,
    {
        if c[i] == 'B' {
            count += 1;
            if e > limit || i > limit - e {
                return count;
            }
            if e >= c.len() - i {
                return count;
            }
            i += e;
        } else {
            i += 1;
        }
    }
    count
}

} // verus!

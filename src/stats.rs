//! Descriptive statistics of a column. The library computes the exact
//! integer parts (count, sums, order statistics); mean and standard
//! deviation follow from them in floating point.
use vstd::prelude::*;
use vstd::relations::{sorted_by, total_ordering};
use crate::column::{Column, ColumnType};
use crate::date::Date;
use crate::frame::Frame;

verus! {

/// The present values of integer cells, in row order.
pub open spec fn present_ints(c: Seq<Option<i32>>) -> Seq<i32>
    decreases c.len(),
{
    if c.len() == 0 {
        Seq::empty()
    } else {
        let p = present_ints(c.drop_last());
        match c.last() {
            Some(x) => p.push(x),
            None => p,
        }
    }
}

/// The day numbers of the present date cells, in row order.
pub open spec fn present_days(c: Seq<Option<Date>>) -> Seq<i32>
    decreases c.len(),
{
    if c.len() == 0 {
        Seq::empty()
    } else {
        let p = present_days(c.drop_last());
        match c.last() {
            Some(d) => p.push(d.0),
            None => p,
        }
    }
}

pub open spec fn seq_sum(s: Seq<i32>) -> int
    decreases s.len(),
{
    if s.len() == 0 { 0 } else { seq_sum(s.drop_last()) + s.last() }
}

pub open spec fn seq_sum_sq(s: Seq<i32>) -> int
    decreases s.len(),
{
    if s.len() == 0 { 0 } else { seq_sum_sq(s.drop_last()) + s.last() * s.last() }
}

pub open spec fn le_i32() -> spec_fn(i32, i32) -> bool {
    |a: i32, b: i32| a <= b
}

/// The values in ascending order.
pub open spec fn ascending(s: Seq<i32>) -> Seq<i32> {
    s.sort_by(le_i32())
}

/// The nearest-rank index of quartile `k` among `n` sorted values:
/// `round(k * n / 4)`, held below `n`.
pub open spec fn quart_index(k: int, n: int) -> int {
    let i = (k * n + 2) / 4;
    if i < n { i } else { n - 1 }
}

/// Summary of the present values of an integer or date column.
#[derive(Debug, Clone, Copy, PartialEq, Eq)]
pub struct NumSummary {
    /// How many values are present.
    pub count: usize,
    pub sum: i128,
    /// The sum of the squares.
    pub sum_sq: i128,
    pub min: i32,
    pub p25: i32,
    pub p50: i32,
    pub p75: i32,
    pub max: i32,
}

/// Whether `r` summarizes the values `s`.
pub open spec fn summarizes(r: NumSummary, s: Seq<i32>) -> bool {
    let a = ascending(s);
    let n = s.len() as int;
    &&& r.count == n
    &&& r.sum == seq_sum(s)
    &&& r.sum_sq == seq_sum_sq(s)
    &&& r.min == a[0]
    &&& r.p25 == a[quart_index(1, n)]
    &&& r.p50 == a[quart_index(2, n)]
    &&& r.p75 == a[quart_index(3, n)]
    &&& r.max == a[n - 1]
}

proof fn lemma_le_total()
    ensures
        total_ordering(le_i32()),
{
}

fn present_of_ints(c: &Vec<Option<i32>>) -> (r: Vec<i32>)
    ensures
        r@ == present_ints(c@),
{
    let mut r: Vec<i32> = Vec::new();
    let mut i: usize = 0;
    while i < c.len()
        invariant
            i <= c@.len(),
            r@ == present_ints(c@.take(i as int)),
        decreases c.len() - i,
    {
        proof {
            assert(c@.take(i + 1).drop_last() =~= c@.take(i as int));
        }
        if let Some(x) = c[i] {
            r.push(x);
        }
        i += 1;
    }
    proof {
        assert(c@.take(i as int) =~= c@);
    }
    r
}

fn present_of_days(c: &Vec<Option<Date>>) -> (r: Vec<i32>)
    ensures
        r@ == present_days(c@),
{
    let mut r: Vec<i32> = Vec::new();
    let mut i: usize = 0;
    while i < c.len()
        invariant
            i <= c@.len(),
            r@ == present_days(c@.take(i as int)),
        decreases c.len() - i,
    {
        proof {
            assert(c@.take(i + 1).drop_last() =~= c@.take(i as int));
        }
        if let Some(d) = c[i] {
            r.push(d.0);
        }
        i += 1;
    }
    proof {
        assert(c@.take(i as int) =~= c@);
    }
    r
}

/// Sorts the values ascending, by insertion.
pub fn sort_values(v: &mut Vec<i32>)
    ensures
        final(v)@ == ascending(old(v)@),
{
    let ghost orig = v@;
    let n = v.len();
    let mut i: usize = 1;
    if n == 0 {
        proof {
            lemma_le_total();
            orig.lemma_sort_by_ensures(le_i32());
            vstd::seq_lib::to_multiset_len(orig);
            vstd::seq_lib::to_multiset_len(ascending(orig));
            assert(ascending(orig) =~= orig);
        }
        return;
    }
    while i < n
        invariant
            n == v@.len(),
            1 <= i <= n,
            v@.to_multiset() == orig.to_multiset(),
            sorted_by(v@.take(i as int), le_i32()),
        decreases n - i,
    {
        let mut j: usize = i;
        proof {
            assert forall|a: int, b: int| 0 <= a < b < i implies #[trigger] v@[a] <= #[trigger] v@[b] by {
                assert(le_i32()(v@.take(i as int)[a], v@.take(i as int)[b]));
            }
        }
        while j > 0 && v[j - 1] > v[j]
            invariant
                n == v@.len(),
                0 <= j <= i < n,
                v@.to_multiset() == orig.to_multiset(),
                forall|a: int, b: int| 0 <= a < b <= i && b != j ==> #[trigger] v@[a] <= #[trigger] v@[b],
                forall|a: int, b: int| 0 <= a < j && j < b <= i ==> #[trigger] v@[a] <= #[trigger] v@[b],
            decreases j,
        {
            let x = v[j - 1];
            let y = v[j];
            let ghost before = v@;
            v.set(j - 1, y);
            v.set(j, x);
            proof {
                assert(v@ == before.update(j - 1, y).update(j as int, x));
                lemma_swap_multiset(before, j - 1, j as int);
            }
            j -= 1;
        }
        i += 1;
        proof {
            assert forall|a: int, b: int| 0 <= a < b < v@.take(i as int).len() implies le_i32()(#[trigger] v@.take(i as int)[a], #[trigger] v@.take(i as int)[b]) by {
                assert(v@[a] <= v@[b]);
            }
        }
    }
    proof {
        assert(v@.take(n as int) =~= v@);
        lemma_le_total();
        orig.lemma_sort_by_ensures(le_i32());
        vstd::seq_lib::lemma_sorted_unique(v@, ascending(orig), le_i32());
    }
}

proof fn lemma_swap_multiset(s: Seq<i32>, a: int, b: int)
    requires
        0 <= a < b < s.len(),
    ensures
        s.update(a, s[b]).update(b, s[a]).to_multiset() == s.to_multiset(),
{
    broadcast use vstd::seq_lib::group_to_multiset_ensures;
    let t = s.update(a, s[b]);
    assert(t.to_multiset() == s.to_multiset().remove(s[a]).insert(s[b]));
    let u = t.update(b, s[a]);
    assert(u.to_multiset() == t.to_multiset().remove(t[b]).insert(s[a]));
    assert(u.to_multiset() =~= s.to_multiset());
}

/// Summary of values, when there is at least one.
pub fn summarize(v: Vec<i32>) -> (r: Option<NumSummary>)
    requires
        v@.len() < 0x1_0000_0000,
    ensures
        v@.len() == 0 ==> r is None,
        v@.len() > 0 ==> (r matches Some(s) && summarizes(s, v@)),
{
    let n = v.len();
    if n == 0 {
        return None;
    }
    let mut sum: i128 = 0;
    let mut sum_sq: i128 = 0;
    let mut i: usize = 0;
    while i < n
        invariant
            n == v@.len(),
            n < 0x1_0000_0000,
            i <= n,
            sum == seq_sum(v@.take(i as int)),
            sum_sq == seq_sum_sq(v@.take(i as int)),
            -0x8000_0000 * i <= sum <= 0x8000_0000 * i,
            0 <= sum_sq <= 0x4000_0000_0000_0000 * i,
        decreases n - i,
    {
        let x = v[i];
        proof {
            assert(v@.take(i + 1).drop_last() =~= v@.take(i as int));
            assert(0 <= x * x <= 0x4000_0000_0000_0000) by (nonlinear_arith)
                requires
                    -0x8000_0000 <= x <= 0x7fff_ffff,
            ;
        }
        sum = sum + x as i128;
        sum_sq = sum_sq + (x as i128) * (x as i128);
        i += 1;
    }
    proof {
        assert(v@.take(n as int) =~= v@);
    }
    let ghost orig = v@;
    let mut s = v;
    sort_values(&mut s);
    let m = n as u64;
    let q1 = ((m + 2) / 4) as usize;
    let q2 = ((2 * m + 2) / 4) as usize;
    let q3 = ((3 * m + 2) / 4) as usize;
    let i1 = if q1 < n { q1 } else { n - 1 };
    let i2 = if q2 < n { q2 } else { n - 1 };
    let i3 = if q3 < n { q3 } else { n - 1 };
    proof {
        lemma_le_total();
        orig.lemma_sort_by_ensures(le_i32());
        vstd::seq_lib::to_multiset_len(orig);
        vstd::seq_lib::to_multiset_len(ascending(orig));
    }
    Some(NumSummary {
        count: n,
        sum,
        sum_sq,
        min: s[0],
        p25: s[i1],
        p50: s[i2],
        p75: s[i3],
        max: s[n - 1],
    })
}

/// The present texts of text cells, in row order.
pub open spec fn present_texts(c: Seq<Option<String>>) -> Seq<Seq<char>>
    decreases c.len(),
{
    if c.len() == 0 {
        Seq::empty()
    } else {
        let p = present_texts(c.drop_last());
        match c.last() {
            Some(s) => p.push(s@),
            None => p,
        }
    }
}

/// How often `x` occurs in `s`.
pub open spec fn occurrences(s: Seq<Seq<char>>, x: Seq<char>) -> int
    decreases s.len(),
{
    if s.len() == 0 {
        0
    } else {
        occurrences(s.drop_last(), x) + if s.last() == x { 1int } else { 0int }
    }
}

/// Whether `r` lists each distinct value of `s` once, with how often it occurs.
pub open spec fn tallies(r: Seq<(String, usize)>, s: Seq<Seq<char>>) -> bool {
    &&& forall|a: int, b: int| 0 <= a < b < r.len() ==> (#[trigger] r[a]).0@ != (#[trigger] r[b]).0@
    &&& forall|k: int| 0 <= k < r.len() ==> (#[trigger] r[k]).1 == occurrences(s, r[k].0@) && r[k].1 > 0
    &&& forall|i: int| 0 <= i < s.len() ==> #[trigger] tallied(r, s[i])
}

/// Whether `x` occurs in `s` before `y` first does.
pub open spec fn seen_first(s: Seq<Seq<char>>, x: Seq<char>, y: Seq<char>) -> bool {
    exists|i: int| 0 <= i < s.len() && #[trigger] s[i] == x && forall|j: int| 0 <= j <= i ==> s[j] != y
}

/// Whether the entries of `r` come in the order their values are first seen in `s`.
pub open spec fn in_seen_order(r: Seq<(String, usize)>, s: Seq<Seq<char>>) -> bool {
    forall|a: int, b: int| 0 <= a < b < r.len() ==> seen_first(s, (#[trigger] r[a]).0@, (#[trigger] r[b]).0@)
}

/// Whether `x` has an entry in `r`.
pub open spec fn tallied(r: Seq<(String, usize)>, x: Seq<char>) -> bool {
    exists|k: int| 0 <= k < r.len() && (#[trigger] r[k]).0@ == x
}

/// Summary of a text column.
#[derive(Debug, Clone, PartialEq)]
pub struct TextSummary {
    /// How many distinct values are present.
    pub unique: usize,
    /// The most frequent value, the first seen among equally frequent ones.
    pub top: Option<String>,
    /// How often `top` occurs.
    pub freq: usize,
}

/// Summary of a column, by its type.
#[derive(Debug, Clone, PartialEq)]
pub enum Summary {
    Numeric(NumSummary),
    Dates(NumSummary),
    Text(TextSummary),
    /// Nothing to summarize: no value is present, or the type has no summary.
    Nothing,
}

/// Each distinct present text of the cells, with how often it occurs, in
/// the order first seen.
#[verifier::loop_isolation(false)]
pub fn count_values(c: &Vec<Option<String>>) -> (r: Vec<(String, usize)>)
    ensures
        tallies(r@, present_texts(c@)),
        in_seen_order(r@, present_texts(c@)),
{
    let mut r: Vec<(String, usize)> = Vec::new();
    let mut i: usize = 0;
    while i < c.len()
        invariant
            i <= c@.len(),
            tallies(r@, present_texts(c@.take(i as int))),
            in_seen_order(r@, present_texts(c@.take(i as int))),
            r@.len() <= i,
        decreases c.len() - i,
    {
        let ghost p0 = present_texts(c@.take(i as int));
        proof {
            assert(c@.take(i + 1).drop_last() =~= c@.take(i as int));
        }
        if let Some(x) = &c[i] {
            let ghost p1 = p0.push(x@);
            assert(present_texts(c@.take(i + 1)) == p1);
            assert(p1.drop_last() =~= p0);
            let mut k: usize = 0;
            let mut found = false;
            while k < r.len()
                invariant
                    k <= r@.len(),
                    found ==> k < r@.len() && r@[k as int].0@ == x@,
                    !found ==> forall|q: int| 0 <= q < k ==> (#[trigger] r@[q]).0@ != x@,
                decreases r.len() - k,
            {
                if r[k].0 == *x {
                    found = true;
                    break;
                }
                k += 1;
            }
            let ghost before = r@;
            if found {
                let cnt = r[k].1;
                proof {
                    assert(occurrences(p1, x@) == occurrences(p0, x@) + 1);
                    lemma_occurrences_le(p0, x@);
                    lemma_present_texts_len(c@.take(i as int));
                }
                let name = r[k].0.clone();
                r.set(k, (name, cnt + 1));
                proof {
                    assert forall|q: int| 0 <= q < r@.len() implies (#[trigger] r@[q]).1 == occurrences(p1, r@[q].0@) && r@[q].1 > 0 by {
                        assert(occurrences(p1, r@[q].0@) == occurrences(p0, r@[q].0@) + if x@ == r@[q].0@ { 1int } else { 0int });
                        if q != k {
                            assert(r@[q] == before[q]);
                            assert(before[q].0@ != before[k as int].0@);
                        }
                    }
                    assert forall|t: int| 0 <= t < p1.len() implies #[trigger] tallied(r@, p1[t]) by {
                        if t < p0.len() {
                            assert(tallied(before, p0[t]));
                            let q = choose|q: int| 0 <= q < before.len() && (#[trigger] before[q]).0@ == p0[t];
                            assert(r@[q].0@ == p1[t]);
                        } else {
                            assert(r@[k as int].0@ == p1[t]);
                        }
                    }
                    assert forall|a: int, b: int| 0 <= a < b < r@.len() implies (#[trigger] r@[a]).0@ != (#[trigger] r@[b]).0@ by {
                        assert(before[a].0@ != before[b].0@);
                    }
                    assert forall|a: int, b: int| 0 <= a < b < r@.len() implies seen_first(p1, (#[trigger] r@[a]).0@, (#[trigger] r@[b]).0@) by {
                        assert(r@[a].0@ == before[a].0@);
                        assert(r@[b].0@ == before[b].0@);
                        lemma_seen_first_extend(p0, x@, before[a].0@, before[b].0@);
                    }
                }
            } else {
                r.push((x.clone(), 1));
                proof {
                    lemma_occurrences_absent(p0, x@, before);
                    assert forall|q: int| 0 <= q < r@.len() implies (#[trigger] r@[q]).1 == occurrences(p1, r@[q].0@) && r@[q].1 > 0 by {
                        assert(occurrences(p1, r@[q].0@) == occurrences(p0, r@[q].0@) + if x@ == r@[q].0@ { 1int } else { 0int });
                        if q < before.len() {
                            assert(r@[q] == before[q]);
                        }
                    }
                    assert forall|t: int| 0 <= t < p1.len() implies #[trigger] tallied(r@, p1[t]) by {
                        if t < p0.len() {
                            assert(tallied(before, p0[t]));
                            let q = choose|q: int| 0 <= q < before.len() && (#[trigger] before[q]).0@ == p0[t];
                            assert(r@[q].0@ == p1[t]);
                        } else {
                            assert(r@[before.len() as int].0@ == p1[t]);
                        }
                    }
                    assert forall|a: int, b: int| 0 <= a < b < r@.len() implies (#[trigger] r@[a]).0@ != (#[trigger] r@[b]).0@ by {
                        if b == before.len() {
                            assert(r@[a] == before[a]);
                        } else {
                            assert(before[a].0@ != before[b].0@);
                        }
                    }
                    assert forall|a: int, b: int| 0 <= a < b < r@.len() implies seen_first(p1, (#[trigger] r@[a]).0@, (#[trigger] r@[b]).0@) by {
                        assert(r@[a] == before[a]);
                        if b == before.len() {
                            assert(r@[b].0@ == x@);
                            lemma_tallied_seen(p0, before, a, x@);
                            let w = choose|w: int| 0 <= w < p0.len() && #[trigger] p0[w] == before[a].0@ && forall|j: int| 0 <= j <= w ==> p0[j] != x@;
                            assert(p1[w] == r@[a].0@);
                        } else {
                            assert(r@[b] == before[b]);
                            lemma_seen_first_extend(p0, x@, before[a].0@, before[b].0@);
                        }
                    }
                }
            }
        }
        i += 1;
    }
    proof {
        assert(c@.take(i as int) =~= c@);
    }
    r
}

proof fn lemma_seen_first_extend(s: Seq<Seq<char>>, z: Seq<char>, x: Seq<char>, y: Seq<char>)
    requires
        seen_first(s, x, y),
    ensures
        seen_first(s.push(z), x, y),
{
    let i = choose|i: int| 0 <= i < s.len() && #[trigger] s[i] == x && forall|j: int| 0 <= j <= i ==> s[j] != y;
    assert(s.push(z)[i] == x);
    assert forall|j: int| 0 <= j <= i implies s.push(z)[j] != y by {
        assert(s.push(z)[j] == s[j]);
    }
}

/// A tallied value is seen before a value that does not occur.
proof fn lemma_tallied_seen(s: Seq<Seq<char>>, r: Seq<(String, usize)>, a: int, y: Seq<char>)
    requires
        0 <= a < r.len(),
        r[a].1 > 0,
        r[a].1 == occurrences(s, r[a].0@),
        occurrences(s, y) == 0,
    ensures
        exists|w: int| 0 <= w < s.len() && #[trigger] s[w] == r[a].0@ && forall|j: int| 0 <= j <= w ==> s[j] != y,
{
    lemma_occurs_contains(s, r[a].0@);
    let w = choose|w: int| 0 <= w < s.len() && s[w] == r[a].0@;
    lemma_absent_nowhere(s, y);
    assert forall|j: int| 0 <= j <= w implies s[j] != y by {
        assert(!s.contains(y));
    }
}

proof fn lemma_absent_nowhere(s: Seq<Seq<char>>, y: Seq<char>)
    requires
        occurrences(s, y) == 0,
    ensures
        !s.contains(y),
    decreases s.len(),
{
    if s.len() > 0 {
        lemma_occurrences_le(s.drop_last(), y);
        lemma_absent_nowhere(s.drop_last(), y);
        if s.contains(y) {
            let i = choose|i: int| 0 <= i < s.len() && s[i] == y;
            if i < s.len() - 1 {
                assert(s.drop_last()[i] == y);
            }
        }
    }
}

/// A value absent from every tally does not occur.
proof fn lemma_occurrences_absent(s: Seq<Seq<char>>, x: Seq<char>, r: Seq<(String, usize)>)
    requires
        forall|i: int| 0 <= i < s.len() ==> #[trigger] tallied(r, s[i]),
        forall|q: int| 0 <= q < r.len() ==> (#[trigger] r[q]).0@ != x,
    ensures
        occurrences(s, x) == 0,
    decreases s.len(),
{
    if s.len() > 0 {
        let t = s.drop_last();
        assert forall|i: int| 0 <= i < t.len() implies #[trigger] tallied(r, t[i]) by {
            assert(t[i] == s[i]);
            assert(tallied(r, s[i]));
        }
        lemma_occurrences_absent(t, x, r);
        assert(tallied(r, s[s.len() - 1]));
    }
}

proof fn lemma_occurrences_le(s: Seq<Seq<char>>, x: Seq<char>)
    ensures
        0 <= occurrences(s, x) <= s.len(),
    decreases s.len(),
{
    if s.len() > 0 {
        lemma_occurrences_le(s.drop_last(), x);
    }
}

proof fn lemma_present_texts_len(c: Seq<Option<String>>)
    ensures
        present_texts(c).len() <= c.len(),
    decreases c.len(),
{
    if c.len() > 0 {
        lemma_present_texts_len(c.drop_last());
    }
}

/// The number of distinct values, the first most frequent one, and its frequency.
fn summarize_text(c: &Vec<Option<String>>) -> (r: TextSummary)
    ensures
        ({
            let s = present_texts(c@);
            &&& s.len() == 0 ==> r.top is None && r.freq == 0
            &&& s.len() > 0 ==> (r.top matches Some(t) && r.freq == occurrences(s, t@) && s.contains(t@)
                && (forall|i: int| 0 <= i < s.len() ==> occurrences(s, #[trigger] s[i]) <= r.freq)
                && forall|i: int| 0 <= i < s.len() && occurrences(s, #[trigger] s[i]) == r.freq && s[i] != t@
                    ==> seen_first(s, t@, s[i]))
            &&& exists|tally: Seq<(String, usize)>| #[trigger] tallies(tally, s) && r.unique == tally.len()
        }),
{
    let counts = count_values(c);
    let ghost s = present_texts(c@);
    let mut best: usize = 0;
    let mut freq: usize = 0;
    let mut k: usize = 0;
    while k < counts.len()
        invariant
            tallies(counts@, s),
            k <= counts@.len(),
            k > 0 ==> best < k && freq == counts@[best as int].1,
            k == 0 ==> freq == 0,
            forall|q: int| 0 <= q < best ==> (#[trigger] counts@[q]).1 < freq,
            forall|q: int| 0 <= q < k ==> (#[trigger] counts@[q]).1 <= freq,
        decreases counts.len() - k,
    {
        if counts[k].1 > freq {
            best = k;
            freq = counts[k].1;
        }
        k += 1;
    }
    let top = if counts.len() == 0 {
        None
    } else {
        Some(counts[best].0.clone())
    };
    proof {
        if s.len() > 0 {
            assert(tallied(counts@, s[0]));
            assert(counts@.len() > 0);
            lemma_occurs_contains(s, counts@[best as int].0@);
            assert forall|i: int| 0 <= i < s.len() implies occurrences(s, #[trigger] s[i]) <= freq by {
                assert(tallied(counts@, s[i]));
                let q = choose|q: int| 0 <= q < counts@.len() && (#[trigger] counts@[q]).0@ == s[i];
                assert(counts@[q].1 <= freq);
            }
            assert forall|i: int| 0 <= i < s.len() && occurrences(s, #[trigger] s[i]) == freq && s[i] != counts@[best as int].0@
                implies seen_first(s, counts@[best as int].0@, s[i]) by {
                assert(tallied(counts@, s[i]));
                let q = choose|q: int| 0 <= q < counts@.len() && (#[trigger] counts@[q]).0@ == s[i];
                assert(counts@[q].1 == freq);
                assert(q != best);
                if q < best {
                    assert(counts@[q].1 < freq);
                } else {
                    assert(seen_first(s, counts@[best as int].0@, counts@[q].0@));
                }
            }
        } else {
            if counts@.len() > 0 {
                assert(counts@[0].1 > 0);
                assert(occurrences(s, counts@[0].0@) == 0);
            }
        }
    }
    TextSummary { unique: counts.len(), top, freq }
}

proof fn lemma_occurs_contains(s: Seq<Seq<char>>, x: Seq<char>)
    requires
        occurrences(s, x) > 0,
    ensures
        s.contains(x),
    decreases s.len(),
{
    if s.len() > 0 {
        if s.last() == x {
            assert(s[s.len() - 1] == x);
        } else {
            lemma_occurs_contains(s.drop_last(), x);
            let i = choose|i: int| 0 <= i < s.len() - 1 && s.drop_last()[i] == x;
            assert(s[i] == x);
        }
    }
}

impl Column {
    /// Summary of the column: order statistics and sums of integers and of
    /// dates' day numbers, distinct count and most frequent value of text.
    pub fn describe(&self) -> (r: Summary)
        requires
            match self.values {
                ColumnType::IntVec(c) => c@.len() < 0x1_0000_0000,
                ColumnType::DateVec(c) => c@.len() < 0x1_0000_0000,
                _ => true,
            },
        ensures
            describes(*self, r),
    {
        match &self.values {
            ColumnType::IntVec(c) => {
                let v = present_of_ints(c);
                proof {
                    lemma_present_len_ints(c@);
                }
                match summarize(v) {
                    Some(s) => Summary::Numeric(s),
                    None => Summary::Nothing,
                }
            },
            ColumnType::DateVec(c) => {
                let v = present_of_days(c);
                proof {
                    lemma_present_len_days(c@);
                }
                match summarize(v) {
                    Some(s) => Summary::Dates(s),
                    None => Summary::Nothing,
                }
            },
            ColumnType::StringVec(c) => Summary::Text(summarize_text(c)),
            _ => Summary::Nothing,
        }
    }
}

proof fn lemma_present_len_ints(c: Seq<Option<i32>>)
    ensures
        present_ints(c).len() <= c.len(),
    decreases c.len(),
{
    if c.len() > 0 {
        lemma_present_len_ints(c.drop_last());
    }
}

proof fn lemma_present_len_days(c: Seq<Option<Date>>)
    ensures
        present_days(c).len() <= c.len(),
    decreases c.len(),
{
    if c.len() > 0 {
        lemma_present_len_days(c.drop_last());
    }
}

/// What `Column::describe` gives for a column (see there).
pub open spec fn describes(c: Column, r: Summary) -> bool {
    match c.values {
        ColumnType::IntVec(v) => if present_ints(v@).len() == 0 {
            r is Nothing
        } else {
            r matches Summary::Numeric(s) && summarizes(s, present_ints(v@))
        },
        ColumnType::DateVec(v) => if present_days(v@).len() == 0 {
            r is Nothing
        } else {
            r matches Summary::Dates(s) && summarizes(s, present_days(v@))
        },
        ColumnType::StringVec(v) => r matches Summary::Text(t) && {
            let s = present_texts(v@);
            &&& s.len() == 0 ==> t.top is None && t.freq == 0
            &&& s.len() > 0 ==> (t.top matches Some(x) && t.freq == occurrences(s, x@) && s.contains(x@)
                && (forall|i: int| 0 <= i < s.len() ==> occurrences(s, #[trigger] s[i]) <= t.freq)
                && forall|i: int| 0 <= i < s.len() && occurrences(s, #[trigger] s[i]) == t.freq && s[i] != x@
                    ==> seen_first(s, x@, s[i]))
            &&& exists|tally: Seq<(String, usize)>| #[trigger] tallies(tally, s) && t.unique == tally.len()
        },
        _ => r is Nothing,
    }
}

impl Frame {
    /// The summary of each column, and whether all columns share one type.
    pub fn describe(&self) -> (r: (Vec<Summary>, bool))
        requires
            self.wf(),
            self.size.1 < 0x1_0000_0000,
        ensures
            r.0@.len() == self.data@.len(),
            forall|j: int| 0 <= j < r.0@.len() ==> describes(self.data@[j], #[trigger] r.0@[j]),
            r.1 == forall|j: int| 0 <= j < self.data@.len() ==> #[trigger] self.data@[j].datatype == self.data@[0].datatype,
    {
        let mut out: Vec<Summary> = Vec::with_capacity(self.data.len());
        let mut same = true;
        let mut j: usize = 0;
        while j < self.data.len()
            invariant
                self.wf(),
                self.size.1 < 0x1_0000_0000,
                j <= self.data@.len(),
                out@.len() == j,
                forall|q: int| 0 <= q < j ==> describes(self.data@[q], #[trigger] out@[q]),
                same == forall|q: int| 0 <= q < j ==> #[trigger] self.data@[q].datatype == self.data@[0].datatype,
            decreases self.data.len() - j,
        {
            let c = &self.data[j];
            proof {
                assert(c.wf(self.size.1 as int));
            }
            if c.datatype != self.data[0].datatype {
                same = false;
            }
            out.push(c.describe());
            j += 1;
        }
        (out, same)
    }

    /// For each text column, its distinct present values with how often each
    /// occurs; other columns give an empty list.
    pub fn count_values(&self) -> (r: Vec<Vec<(String, usize)>>)
        ensures
            r@.len() == self.data@.len(),
            forall|j: int| 0 <= j < r@.len() ==> match self.data@[j].values {
                ColumnType::StringVec(v) => tallies((#[trigger] r@[j])@, present_texts(v@)),
                _ => r@[j]@.len() == 0,
            },
    {
        let mut out: Vec<Vec<(String, usize)>> = Vec::with_capacity(self.data.len());
        let mut j: usize = 0;
        while j < self.data.len()
            invariant
                j <= self.data@.len(),
                out@.len() == j,
                forall|q: int| 0 <= q < j ==> match self.data@[q].values {
                    ColumnType::StringVec(v) => tallies((#[trigger] out@[q])@, present_texts(v@)),
                    _ => out@[q]@.len() == 0,
                },
            decreases self.data.len() - j,
        {
            let t = match &self.data[j].values {
                ColumnType::StringVec(v) => count_values(v),
                _ => Vec::new(),
            };
            out.push(t);
            j += 1;
        }
        out
    }
}

} // verus!

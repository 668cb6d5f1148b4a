//! Small recursive computations.
use vstd::prelude::*;

verus! {

/// 1 for `n <= 1`, and twice the value at `n - 1` above.
pub open spec fn spec_fib(n: nat) -> nat
    decreases n,
{
    if n <= 1 { 1 } else { spec_fib((n - 1) as nat) + spec_fib((n - 1) as nat) }
}

proof fn lemma_fib_pow(n: nat)
    ensures
        n >= 1 ==> spec_fib(n) == vstd::arithmetic::power2::pow2((n - 1) as nat),
        n == 0 ==> spec_fib(n) == 1,
    decreases n,
{
    if n > 1 {
        lemma_fib_pow((n - 1) as nat);
        vstd::arithmetic::power2::lemma_pow2_unfold((n - 1) as nat);
    } else if n == 1 {
        vstd::arithmetic::power2::lemma2_to64();
    }
}

proof fn lemma_fib_bound(n: nat)
    requires
        n <= 32,
    ensures
        spec_fib(n) <= 0x8000_0000,
        n < 32 ==> spec_fib(n) <= 0x4000_0000,
{
    lemma_fib_pow(n);
    if n >= 1 {
        if n - 1 < 31 { vstd::arithmetic::power2::lemma_pow2_strictly_increases((n - 1) as nat, 31); }
        vstd::arithmetic::power2::lemma2_to64();
        if n < 32 {
            if n - 1 < 30 { vstd::arithmetic::power2::lemma_pow2_strictly_increases((n - 1) as nat, 30); }
        }
    }
}

/// The value at `n` of the doubling recursion; defined up to `n = 32`.
pub fn fib(n: u32) -> (r: u32)
    requires
        n <= 32,
    ensures
        r == spec_fib(n as nat),
    decreases n,
{
    if n <= 1 {
        return 1;
    }
    proof {
        lemma_fib_bound((n - 1) as nat);
    }
    let res = fib(n - 1) + fib(n - 1);
    res
}

fn zero_from(v: &mut Vec<i32>, i: usize, n: i32)
    requires
        i < old(v)@.len(),
    ensures
        final(v)@.len() == old(v)@.len(),
        forall|q: int| 0 <= q < final(v)@.len() ==> #[trigger] final(v)@[q] == if 1 <= q <= i && old(v)@[q] == n {
            0
        } else {
            old(v)@[q]
        },
    decreases i,
{
    if i == 0 {
        return;
    }
    if v[i] == n {
        v.set(i, 0);
    }
    zero_from(v, i - 1, n);
}

/// Sets to 0 every cell equal to `n` but the first, and returns a copy.
pub fn filter(v: &mut Vec<i32>, n: i32) -> (r: Vec<i32>)
    requires
        old(v)@.len() > 0,
    ensures
        final(v)@.len() == old(v)@.len(),
        forall|q: int| 0 <= q < final(v)@.len() ==> #[trigger] final(v)@[q] == if q >= 1 && old(v)@[q] == n {
            0
        } else {
            old(v)@[q]
        },
        r@ == final(v)@,
{
    let len = v.len();
    zero_from(v, len - 1, n);
    let mut r: Vec<i32> = Vec::with_capacity(v.len());
    let mut k: usize = 0;
    while k < v.len()
        invariant
            k <= v@.len(),
            r@ == v@.take(k as int),
        decreases v.len() - k,
    {
        r.push(v[k]);
        k += 1;
        proof {
            assert(r@ =~= v@.take(k as int));
        }
    }
    proof {
        assert(v@.take(k as int) =~= v@);
    }
    r
}

fn increase(n: u32, c: u32, v: &mut Vec<u32>)
    requires
        1 <= c,
        old(v)@.len() == c - 1,
        forall|q: int| 0 <= q < old(v)@.len() ==> #[trigger] old(v)@[q] == q + 1,
    ensures
        final(v)@.len() == if n > c { n - 1 } else { c - 1 },
        forall|q: int| 0 <= q < final(v)@.len() ==> #[trigger] final(v)@[q] == q + 1,
    decreases n - c,
{
    if c >= n {
        return;
    }
    v.push(c);
    increase(n, c + 1, v);
}

/// The numbers from 1 up to, not including, `n`.
pub fn create_list(n: u32) -> (r: Vec<u32>)
    ensures
        r@.len() == if n > 1 { n - 1 } else { 0 },
        forall|q: int| 0 <= q < r@.len() ==> #[trigger] r@[q] == q + 1,
{
    let mut v: Vec<u32> = Vec::new();
    increase(n, 1, &mut v);
    v
}

pub open spec fn factorial(n: nat) -> nat
    decreases n,
{
    if n == 0 { 1 } else { n * factorial((n - 1) as nat) }
}

proof fn lemma_factorial_pos(n: nat)
    ensures
        factorial(n) >= 1,
    decreases n,
{
    if n > 0 {
        lemma_factorial_pos((n - 1) as nat);
        assert(n * factorial((n - 1) as nat) >= 1) by (nonlinear_arith)
            requires
                n >= 1,
                factorial((n - 1) as nat) >= 1,
        ;
    }
}

proof fn lemma_factorial_up_to(n: nat, m: nat)
    requires
        n <= m,
    ensures
        factorial(n) <= factorial(m),
    decreases m - n,
{
    if n < m {
        lemma_factorial_up_to(n, (m - 1) as nat);
        lemma_factorial_pos((m - 1) as nat);
        assert(m * factorial((m - 1) as nat) >= factorial((m - 1) as nat)) by (nonlinear_arith)
            requires
                m >= 1,
                factorial((m - 1) as nat) >= 1,
        ;
    }
}

proof fn lemma_factorial_bound(n: nat)
    requires
        n <= 12,
    ensures
        factorial(n) <= 479001600,
{
    reveal_with_fuel(factorial, 13);
    assert(factorial(12) == 479001600);
    lemma_factorial_up_to(n, 12);
}

/// `n!`; defined up to `n = 12`.
pub fn fact(n: u32) -> (r: u32)
    requires
        n <= 12,
    ensures
        r == factorial(n as nat),
    decreases n,
{
    if n == 0 {
        return 1;
    }
    proof {
        lemma_factorial_bound((n - 1) as nat);
        assert(n * factorial((n - 1) as nat) <= 12 * 479001600) by (nonlinear_arith)
            requires
                n <= 12,
                factorial((n - 1) as nat) <= 479001600,
        ;
        lemma_factorial_bound(n as nat);
    }
    n * fact(n - 1)
}

} // verus!

//! A bounded max-heap of `usize` values kept in an array.
use vstd::prelude::*;
use vstd::multiset::Multiset;

verus! {

pub open spec fn parent(i: int) -> int {
    (i - 1) / 2
}

/// Every value is at most its parent's.
pub open spec fn heap_ordered(v: Seq<usize>) -> bool {
    forall|i: int| 0 < i < v.len() ==> #[trigger] v[parent(i)] >= v[i]
}

#[derive(Debug)]
pub struct MaxHeap {
    pub max_size: usize,
    vals: Vec<usize>,
    min: Option<usize>,
}

proof fn lemma_root_max(v: Seq<usize>, i: int)
    requires
        heap_ordered(v),
        0 <= i < v.len(),
    ensures
        v[0] >= v[i],
    decreases i,
{
    if i > 0 {
        lemma_root_max(v, parent(i));
    }
}

proof fn lemma_swap_multiset(s: Seq<usize>, a: int, b: int)
    requires
        0 <= a < s.len(),
        0 <= b < s.len(),
    ensures
        s.update(a, s[b]).update(b, s[a]).to_multiset() == s.to_multiset(),
{
    broadcast use vstd::seq_lib::group_to_multiset_ensures;
    if a != b {
        let t = s.update(a, s[b]);
        assert(t.to_multiset() == s.to_multiset().remove(s[a]).insert(s[b]));
        let u = t.update(b, s[a]);
        assert(u.to_multiset() == t.to_multiset().remove(t[b]).insert(s[a]));
        assert(u.to_multiset() =~= s.to_multiset());
    } else {
        assert(s.update(a, s[b]).update(b, s[a]) =~= s);
    }
}

impl MaxHeap {
    /// The values, in array order.
    pub closed spec fn view(&self) -> Seq<usize> {
        self.vals@
    }

    /// The least value pushed last, as `push` records it.
    pub closed spec fn spec_min(&self) -> Option<usize> {
        self.min
    }

    /// The bound the heap was made with.
    pub closed spec fn bound(&self) -> usize {
        self.max_size
    }

    pub closed spec fn wf(&self) -> bool {
        &&& heap_ordered(self.vals@)
        &&& (self.vals@.len() > 0 ==> self.min is Some)
    }

    /// An empty heap without a bound.
    pub fn new() -> (r: Self)
        ensures
            r.wf(),
            r.view() == Seq::<usize>::empty(),
            r.bound() == usize::MAX,
            r.spec_min() is None,
    {
        MaxHeap { vals: Vec::new(), min: None, max_size: usize::MAX }
    }

    /// An empty heap that holds at most `cap` values.
    pub fn with_capacity(cap: usize) -> (r: Self)
        ensures
            r.wf(),
            r.view() == Seq::<usize>::empty(),
            r.bound() == cap,
            r.spec_min() is None,
    {
        MaxHeap { max_size: cap, vals: Vec::with_capacity(cap), min: None }
    }

    /// The values in array order.
    pub fn to_vec(self) -> (r: Vec<usize>)
        ensures
            r@ == self.view(),
    {
        self.vals
    }

    pub fn size(&self) -> (r: usize)
        ensures
            r == self.view().len(),
    {
        self.vals.len()
    }

    /// The root: the largest value.
    pub fn get_max(&self) -> (r: Option<&usize>)
        requires
            self.wf(),
        ensures
            self.view().len() == 0 ==> r is None,
            self.view().len() > 0 ==> (r matches Some(x) && *x == self.view()[0]
                && forall|i: int| 0 <= i < self.view().len() ==> *x >= #[trigger] self.view()[i]),
    {
        if self.vals.len() == 0 {
            return None;
        }
        proof {
            assert forall|i: int| 0 <= i < self.vals@.len() implies self.vals@[0] >= #[trigger] self.vals@[i] by {
                lemma_root_max(self.vals@, i);
            }
        }
        Some(&self.vals[0])
    }

    pub fn get_min(&self) -> (r: Option<&usize>)
        ensures
            r matches Some(x) ==> self.spec_min() == Some(*x),
            r is None ==> self.spec_min() is None,
    {
        match &self.min {
            Some(x) => Some(x),
            None => None,
        }
    }

    fn set_min(&mut self, val: &usize)
        ensures
            final(self).vals == old(self).vals,
            final(self).bound() == old(self).bound(),
            final(self).min == Some(*val),
    {
        self.min = Some(*val);
    }

    fn swap(&mut self, i1: usize, i2: usize)
        requires
            i1 < old(self).vals@.len(),
            i2 < old(self).vals@.len(),
        ensures
            final(self).vals@ == old(self).vals@.update(i1 as int, old(self).vals@[i2 as int]).update(i2 as int, old(self).vals@[i1 as int]),
            final(self).vals@.to_multiset() == old(self).vals@.to_multiset(),
            final(self).min == old(self).min,
            final(self).bound() == old(self).bound(),
    {
        let a = self.vals[i1];
        let b = self.vals[i2];
        self.vals.set(i1, b);
        self.vals.set(i2, a);
        proof {
            lemma_swap_multiset(old(self).vals@, i1 as int, i2 as int);
        }
    }

    /// Moves the value at `idx` up until its parent is no smaller.
    fn bubble_up(&mut self, idx: usize)
        requires
            idx < old(self).vals@.len(),
            forall|i: int| 0 < i < old(self).vals@.len() && i != idx ==> #[trigger] old(self).vals@[parent(i)] >= old(self).vals@[i],
            forall|c: int| 0 < idx && 0 <= c < old(self).vals@.len() && parent(c) == idx
                ==> old(self).vals@[parent(idx as int)] >= #[trigger] old(self).vals@[c],
        ensures
            heap_ordered(final(self).vals@),
            final(self).vals@.to_multiset() == old(self).vals@.to_multiset(),
            final(self).vals@.len() == old(self).vals@.len(),
            final(self).min == old(self).min,
            final(self).bound() == old(self).bound(),
    {
        let mut idx = idx;
        let mut done = false;
        while idx > 0 && !done
            invariant
                idx < self.vals@.len(),
                self.vals@.len() == old(self).vals@.len(),
                self.vals@.to_multiset() == old(self).vals@.to_multiset(),
                self.min == old(self).min,
                self.bound() == old(self).bound(),
                forall|i: int| 0 < i < self.vals@.len() && i != idx ==> #[trigger] self.vals@[parent(i)] >= self.vals@[i],
                forall|c: int| 0 < idx && 0 <= c < self.vals@.len() && parent(c) == idx
                    ==> self.vals@[parent(idx as int)] >= #[trigger] self.vals@[c],
                done ==> idx > 0 && self.vals@[parent(idx as int)] >= self.vals@[idx as int],
            decreases idx + if done { 0int } else { 1int },
        {
            let p = if idx % 2 == 0 { (idx / 2) - 1 } else { idx / 2 };
            assert(p == parent(idx as int));
            if self.vals[idx] <= self.vals[p] {
                done = true;
            } else {
                let ghost before = self.vals@;
                self.swap(idx, p);
                proof {
                    let v = self.vals@;
                    assert forall|i: int| 0 < i < v.len() && i != p implies #[trigger] v[parent(i)] >= v[i] by {
                        if i == idx {
                        } else if parent(i) == idx {
                            assert(before[parent(i)] >= before[i] || parent(i) == idx);
                        } else if parent(i) == p {
                            assert(before[p as int] >= before[i]);
                        } else {
                            assert(i != p && parent(i) != p && parent(i) != idx);
                        }
                    }
                }
                idx = p;
            }
        }
        proof {
            assert forall|i: int| 0 < i < self.vals@.len() implies #[trigger] self.vals@[parent(i)] >= self.vals@[i] by {
                if i == idx {
                    assert(done);
                }
            }
        }
    }

    /// Moves the value at `idx` down until no child is larger.
    #[verifier::rlimit(40)]
    fn bubble_down(&mut self, idx: usize)
        requires
            idx < old(self).vals@.len(),
            forall|i: int| 0 < i < old(self).vals@.len() && parent(i) != idx ==> #[trigger] old(self).vals@[parent(i)] >= old(self).vals@[i],
            forall|c: int| 0 < idx && 0 <= c < old(self).vals@.len() && parent(c) == idx
                ==> old(self).vals@[parent(idx as int)] >= #[trigger] old(self).vals@[c],
        ensures
            heap_ordered(final(self).vals@),
            final(self).vals@.to_multiset() == old(self).vals@.to_multiset(),
            final(self).vals@.len() == old(self).vals@.len(),
            final(self).min == old(self).min,
            final(self).bound() == old(self).bound(),
    {
        let hlen = self.vals.len();
        let mut idx = idx;
        while idx < hlen - 1
            invariant
                hlen == self.vals@.len(),
                hlen == old(self).vals@.len(),
                idx < hlen,
                self.vals@.to_multiset() == old(self).vals@.to_multiset(),
                self.min == old(self).min,
                self.bound() == old(self).bound(),
                forall|i: int| 0 < i < hlen && parent(i) != idx ==> #[trigger] self.vals@[parent(i)] >= self.vals@[i],
                forall|c: int| 0 < idx && 0 <= c < hlen && parent(c) == idx
                    ==> self.vals@[parent(idx as int)] >= #[trigger] self.vals@[c],
            decreases hlen - idx,
        {
            let ghost before = self.vals@;
            if hlen == 2 {
                if self.vals[0] < self.vals[1] {
                    self.swap(0, 1);
                }
                proof {
                    assert(parent(1) == 0);
                }
                return;
            }
            if idx >= hlen / 2 {
                proof {
                    assert forall|i: int| 0 < i < hlen implies #[trigger] self.vals@[parent(i)] >= self.vals@[i] by {
                        if parent(i) == idx {
                            assert(i >= 2 * idx + 1);
                        }
                    }
                }
                return;
            }
            let lc = idx * 2 + 1;
            let rc = idx * 2 + 2;
            proof {
                assert(parent(lc as int) == idx);
                assert(parent(rc as int) == idx);
                assert forall|c: int| 0 <= c < hlen && parent(c) == idx implies c == lc || c == rc by {}
            }
            if rc >= hlen && lc >= hlen {
                return;
            }
            if rc >= hlen && lc < hlen {
                if self.vals[idx] < self.vals[lc] {
                    self.swap(idx, lc);
                    proof {
                        let v = self.vals@;
                        assert forall|i: int| 0 < i < hlen implies #[trigger] v[parent(i)] >= v[i] by {
                            if i == lc {
                            } else if parent(i) == lc {
                                assert(i >= 2 * lc + 1);
                            } else if i == idx {
                            } else if parent(i) == idx {
                            }
                        }
                    }
                }
                return;
            }
            let l = self.vals[lc];
            let r = self.vals[rc];
            let cur = self.vals[idx];
            let next = if r == l && cur < l {
                lc
            } else if l > r && cur < l {
                lc
            } else if r > l && cur < r {
                rc
            } else {
                return;
            };
            let other = if next == lc { rc } else { lc };
            proof {
                assert(self.vals@[next as int] >= self.vals@[other as int]);
            }
            self.swap(idx, next);
            proof {
                let v = self.vals@;
                assert forall|i: int| 0 < i < hlen && parent(i) != next implies #[trigger] v[parent(i)] >= v[i] by {
                    if i == next {
                    } else if i == other {
                    } else if i == idx {
                    } else if parent(i) == idx {
                        assert(i == lc || i == rc);
                    }
                }
            }
            idx = next;
        }
    }

    /// Takes the root out: the largest value.
    pub fn extract(&mut self) -> (r: Option<usize>)
        requires
            old(self).wf(),
        ensures
            final(self).wf(),
            final(self).bound() == old(self).bound(),
            final(self).spec_min() == old(self).spec_min(),
            old(self).view().len() == 0 ==> r is None && final(self).view() == old(self).view(),
            old(self).view().len() > 0 ==> (r matches Some(x) && x == old(self).view()[0]
                && (forall|i: int| 0 <= i < old(self).view().len() ==> x >= #[trigger] old(self).view()[i])
                && final(self).view().to_multiset() == old(self).view().to_multiset().remove(x)
                && final(self).view().len() == old(self).view().len() - 1),
    {
        if self.vals.len() == 0 {
            return None;
        }
        proof {
            assert forall|i: int| 0 <= i < self.vals@.len() implies self.vals@[0] >= #[trigger] self.vals@[i] by {
                lemma_root_max(self.vals@, i);
            }
        }
        let first = self.vals[0];
        let ghost orig = self.vals@;
        let last = match self.vals.pop() {
            Some(x) => x,
            None => 0,
        };
        proof {
            broadcast use vstd::seq_lib::group_to_multiset_ensures;
            assert(orig =~= self.vals@.push(last));
        }
        if self.vals.len() == 0 {
            proof {
                broadcast use vstd::seq_lib::group_to_multiset_ensures;
                assert(self.vals@.to_multiset() =~= orig.to_multiset().remove(first));
            }
            return Some(last);
        }
        let ghost popped = self.vals@;
        self.vals.set(0, last);
        proof {
            broadcast use vstd::seq_lib::group_to_multiset_ensures;
            assert(self.vals@ == popped.update(0, last));
            assert(self.vals@.to_multiset() == popped.to_multiset().remove(first).insert(last));
            assert(orig.to_multiset() == popped.to_multiset().insert(last));
            assert(self.vals@.to_multiset() =~= orig.to_multiset().remove(first));
        }
        self.bubble_down(0);
        Some(first)
    }

    /// Appends a value and restores the order.
    fn push_back(&mut self, val: usize)
        requires
            old(self).wf(),
            old(self).vals@.len() > 0,
        ensures
            final(self).wf(),
            final(self).vals@.to_multiset() == old(self).vals@.to_multiset().insert(val),
            final(self).vals@.len() == old(self).vals@.len() + 1,
            final(self).min == old(self).min,
            final(self).bound() == old(self).bound(),
    {
        let ghost before = self.vals@;
        self.vals.push(val);
        proof {
            broadcast use vstd::seq_lib::group_to_multiset_ensures;
            assert(self.vals@ == before.push(val));
        }
        let n = self.vals.len() - 1;
        proof {
            assert forall|c: int| 0 <= c < self.vals@.len() implies parent(c) != n by {}
        }
        self.bubble_up(n);
    }

    /// Puts in a value: the root when the heap is full, else at the end.
    pub fn set_max(&mut self, val: &usize)
        requires
            old(self).wf(),
        ensures
            final(self).wf(),
            final(self).bound() == old(self).bound(),
            old(self).view().len() == 0 ==> final(self).view() == seq![*val] && final(self).spec_min() == Some(*val),
            old(self).view().len() > 0 && old(self).view().len() < old(self).bound() ==>
                final(self).view().to_multiset() == old(self).view().to_multiset().insert(*val)
                && final(self).spec_min() == old(self).spec_min(),
            old(self).view().len() > 0 && old(self).view().len() >= old(self).bound() ==>
                final(self).view().to_multiset() == old(self).view().to_multiset().remove(old(self).view()[0]).insert(*val)
                && final(self).spec_min() == old(self).spec_min(),
    {
        if self.vals.len() == 0 {
            self.vals.push(*val);
            self.set_min(val);
            proof {
                assert(self.vals@ =~= seq![*val]);
            }
            return;
        }
        if self.vals.len() < self.max_size {
            self.push_back(*val);
        } else {
            let ghost before = self.vals@;
            self.vals.set(0, *val);
            proof {
                broadcast use vstd::seq_lib::group_to_multiset_ensures;
                assert(self.vals@ == before.update(0, *val));
                assert(forall|i: int| 0 < i < self.vals@.len() && parent(i) != 0 ==> #[trigger] self.vals@[parent(i)] >= self.vals@[i]);
            }
            self.bubble_down(0);
        }
    }

    /// Puts in a value: while there is room, at the end (recording it as the
    /// least); when full, in place of the root if it is below the recorded
    /// least value, and not at all if it is no smaller than the root.
    pub fn push(&mut self, val: usize)
        requires
            old(self).wf(),
        ensures
            final(self).wf(),
            final(self).bound() == old(self).bound(),
            old(self).view().len() == 0 ==> final(self).view() == seq![val] && final(self).spec_min() == Some(val),
            old(self).view().len() > 0 && old(self).view().len() < old(self).bound() ==>
                final(self).view().to_multiset() == old(self).view().to_multiset().insert(val)
                && final(self).spec_min() == Some(val),
            old(self).view().len() > 0 && old(self).view().len() >= old(self).bound() ==> ({
                let replaced = val < old(self).view()[0] && val < old(self).spec_min()->Some_0;
                &&& replaced ==> final(self).view().to_multiset()
                    == old(self).view().to_multiset().remove(old(self).view()[0]).insert(val)
                &&& !replaced ==> final(self).view() == old(self).view()
                &&& final(self).spec_min() == old(self).spec_min()
            }),
    {
        if self.vals.len() == 0 {
            self.vals.push(val);
            self.set_min(&val);
            proof {
                assert(self.vals@ =~= seq![val]);
            }
            return;
        }
        if self.vals.len() < self.max_size {
            self.push_back(val);
            self.set_min(&val);
        } else {
            let top = self.vals[0];
            if val >= top {
                return;
            }
            let least = match self.min {
                Some(m) => m,
                None => 0,
            };
            if val < least {
                self.set_max(&val);
            }
        }
    }

    /// Replaces the values by the same values, largest first.
    pub fn sort(&mut self)
        requires
            old(self).wf(),
        ensures
            final(self).wf(),
            final(self).bound() == old(self).bound(),
            final(self).view().to_multiset() == old(self).view().to_multiset(),
            forall|a: int, b: int| 0 <= a < b < final(self).view().len() ==> #[trigger] final(self).view()[a] >= #[trigger] final(self).view()[b],
    {
        let n = self.vals.len();
        let mut out: Vec<usize> = Vec::with_capacity(n);
        let ghost all = self.vals@.to_multiset();
        let mut k: usize = 0;
        let mut gone = false;
        proof {
            broadcast use vstd::seq_lib::group_to_multiset_ensures;
            assert(out@.to_multiset() =~= Multiset::empty());
            assert(out@.to_multiset().add(self.vals@.to_multiset()) =~= all);
        }
        while k < n && !gone
            invariant
                self.wf(),
                self.bound() == old(self).bound(),
                self.spec_min() == old(self).spec_min(),
                old(self).wf(),
                gone ==> self.vals@.len() == 0,
                k <= n,
                n == old(self).vals@.len(),
                self.vals@.len() + k == n,
                out@.len() == k,
                all == old(self).vals@.to_multiset(),
                out@.to_multiset().add(self.vals@.to_multiset()) == all,
                forall|a: int, b: int| 0 <= a < b < out@.len() ==> #[trigger] out@[a] >= #[trigger] out@[b],
                forall|a: int, i: int| 0 <= a < out@.len() && 0 <= i < self.vals@.len() ==> #[trigger] out@[a] >= #[trigger] self.vals@[i],
            decreases n - k + if gone { 0int } else { 1int },
        {
            let ghost rest = self.vals@;
            let ghost o = out@;
            match self.extract() {
                Some(x) => {
                    proof {
                        broadcast use vstd::seq_lib::group_to_multiset_ensures;
                        assert(rest.to_multiset().contains(x)) by {
                            assert(rest[0] == x);
                        }
                    }
                    out.push(x);
                    proof {
                        broadcast use vstd::seq_lib::group_to_multiset_ensures;
                        assert(out@ == o.push(x));
                        assert(out@.to_multiset() == o.to_multiset().insert(x));
                        assert(out@.to_multiset().add(self.vals@.to_multiset()) =~= all);
                        assert forall|a: int, i: int| 0 <= a < out@.len() && 0 <= i < self.vals@.len() implies #[trigger] out@[a] >= #[trigger] self.vals@[i] by {
                            assert(self.vals@.to_multiset().contains(self.vals@[i]));
                            assert(rest.to_multiset().contains(self.vals@[i]));
                            let w = choose|w: int| 0 <= w < rest.len() && rest[w] == self.vals@[i];
                            if a < o.len() {
                                assert(o[a] >= rest[w]);
                            }
                        }
                        assert forall|a: int, b: int| 0 <= a < b < out@.len() implies #[trigger] out@[a] >= #[trigger] out@[b] by {
                            if b == o.len() {
                                assert(o[a] >= rest[0]);
                            }
                        }
                    }
                    k += 1;
                },
                None => {
                    proof {
                        assert(rest.len() == 0);
                        assert(self.vals@.len() == 0);
                    }
                    gone = true;
                },
            }
        }
        proof {
            broadcast use vstd::seq_lib::group_to_multiset_ensures;
            if !gone {
                assert(k == n);
            }
            assert(self.vals@.len() == 0);
            assert(self.vals@.to_multiset() =~= Multiset::empty());
            assert(out@.to_multiset() =~= all);
            assert forall|i: int| 0 < i < out@.len() implies #[trigger] out@[parent(i)] >= out@[i] by {
                assert(parent(i) < i);
            }
        }
        self.vals = out;
    }
}

/// Whether `r` holds, as a multiset, the smallest of the values `v`: none
/// more often than `v` does, and every value of `v` left out is no smaller
/// than every value kept.
pub open spec fn smallest_of(r: Multiset<usize>, v: Multiset<usize>) -> bool {
    &&& forall|x: usize| #[trigger] r.count(x) <= v.count(x)
    &&& forall|x: usize, y: usize| #[trigger] v.count(x) > r.count(x) && #[trigger] r.count(y) > 0 ==> y <= x
}

/// The heap of the values `v`, bounded by their number.
pub fn heapify(v: Vec<usize>) -> (r: MaxHeap)
    ensures
        r.wf(),
        r.bound() == v@.len(),
        r.view().to_multiset() == v@.to_multiset(),
{
    let n = v.len();
    let mut heap = MaxHeap::with_capacity(n);
    let mut i: usize = 0;
    proof {
        broadcast use vstd::seq_lib::group_to_multiset_ensures;
        assert(v@.take(0) =~= Seq::<usize>::empty());
    }
    while i < n
        invariant
            n == v@.len(),
            i <= n,
            heap.wf(),
            heap.bound() == n,
            heap.view().len() == i,
            heap.view().to_multiset() == v@.take(i as int).to_multiset(),
        decreases n - i,
    {
        let x = v[i];
        let ghost before = heap.view();
        heap.set_min(&x);
        proof {
            assert(heap.wf());
        }
        heap.push(x);
        proof {
            broadcast use vstd::seq_lib::group_to_multiset_ensures;
            vstd::seq_lib::to_multiset_len(heap.view());
            vstd::seq_lib::to_multiset_len(before);
            assert(v@.take(i + 1) =~= v@.take(i as int).push(x));
            if before.len() == 0 {
                assert(heap.view().to_multiset() =~= v@.take(i + 1).to_multiset());
            }
        }
        i += 1;
    }
    proof {
        assert(v@.take(n as int) =~= v@);
    }
    heap
}

/// The `k` smallest values, largest first; nothing when `k` is 0 or not
/// below the number of values.
pub fn find_smallest(v: &Vec<usize>, k: usize) -> (r: Vec<usize>)
    ensures
        k == 0 || k >= v@.len() ==> r@.len() == 0,
        0 < k < v@.len() ==> r@.len() == k && smallest_of(r@.to_multiset(), v@.to_multiset())
            && forall|a: int, b: int| 0 <= a < b < r@.len() ==> #[trigger] r@[a] >= #[trigger] r@[b],
{
    if k == 0 || k >= v.len() {
        return Vec::new();
    }
    let mut heap = MaxHeap::with_capacity(k);
    let mut i: usize = 0;
    proof {
        broadcast use vstd::seq_lib::group_to_multiset_ensures;
        assert(v@.take(0) =~= Seq::<usize>::empty());
    }
    while i < k
        invariant
            0 < k < v@.len(),
            i <= k,
            heap.wf(),
            heap.bound() == k,
            heap.view().len() == i,
            heap.view().to_multiset() == v@.take(i as int).to_multiset(),
        decreases k - i,
    {
        let x = v[i];
        let ghost before = heap.view();
        heap.push(x);
        proof {
            broadcast use vstd::seq_lib::group_to_multiset_ensures;
            vstd::seq_lib::to_multiset_len(heap.view());
            vstd::seq_lib::to_multiset_len(before);
            assert(v@.take(i + 1) =~= v@.take(i as int).push(x));
            if before.len() == 0 {
                assert(heap.view().to_multiset() =~= v@.take(i + 1).to_multiset());
            }
        }
        i += 1;
    }
    while i < v.len()
        invariant
            0 < k < v@.len(),
            k <= i <= v@.len(),
            heap.wf(),
            heap.bound() == k,
            heap.view().len() == k,
            smallest_of(heap.view().to_multiset(), v@.take(i as int).to_multiset()),
        decreases v.len() - i,
    {
        let x = v[i];
        let ghost before = heap.view();
        let ghost hm = before.to_multiset();
        let ghost pm = v@.take(i as int).to_multiset();
        let top = match heap.get_max() {
            Some(m) => *m,
            None => 0,
        };
        proof {
            broadcast use vstd::seq_lib::group_to_multiset_ensures;
            assert(v@.take(i + 1) =~= v@.take(i as int).push(x));
            assert(v@.take(i + 1).to_multiset() == pm.insert(x));
            assert forall|y: usize| #[trigger] hm.count(y) > 0 implies y <= top by {
                assert(before.contains(y));
                let w = choose|w: int| 0 <= w < before.len() && before[w] == y;
                assert(top >= before[w]);
            }
        }
        if x < top {
            heap.set_max(&x);
            proof {
                broadcast use vstd::seq_lib::group_to_multiset_ensures;
                vstd::seq_lib::to_multiset_len(heap.view());
                vstd::seq_lib::to_multiset_len(before);
                assert(before[0] == top);
                assert(hm.count(top) > 0);
                let h2 = heap.view().to_multiset();
                assert(h2 == hm.remove(top).insert(x));
                let p2 = pm.insert(x);
                assert forall|z: usize| #[trigger] h2.count(z) <= p2.count(z) by {
                    assert(hm.count(z) <= pm.count(z));
                }
                assert forall|a: usize, b: usize| #[trigger] p2.count(a) > h2.count(a) && #[trigger] h2.count(b) > 0 implies b <= a by {
                    assert(b <= top) by {
                        if b != x {
                            assert(hm.count(b) > 0);
                        }
                    }
                    if a != top && a != x {
                        assert(pm.count(a) > hm.count(a));
                        assert(top <= a);
                    } else if a == x && a != top {
                        assert(pm.count(a) > hm.count(a));
                        assert(top <= a);
                    }
                }
            }
        } else {
            proof {
                broadcast use vstd::seq_lib::group_to_multiset_ensures;
                let p2 = pm.insert(x);
                assert forall|z: usize| #[trigger] hm.count(z) <= p2.count(z) by {
                    assert(hm.count(z) <= pm.count(z));
                }
                assert forall|a: usize, b: usize| #[trigger] p2.count(a) > hm.count(a) && #[trigger] hm.count(b) > 0 implies b <= a by {
                    if a != x {
                        assert(pm.count(a) > hm.count(a));
                    }
                }
            }
        }
        i += 1;
    }
    proof {
        assert(v@.take(i as int) =~= v@);
    }
    heap.sort();
    proof {
        vstd::seq_lib::to_multiset_len(heap.view());
    }
    heap.to_vec()
}

} // verus!

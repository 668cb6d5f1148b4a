//! Columns: a name, an origin position, a type tag, typed nullable cells,
//! and the rows that a predicate last marked.
use vstd::prelude::*;
use crate::date::Date;
use crate::infer::DataType;

verus! {

/// The cells of one column. Decimal cells are kept as their text: arithmetic
/// on them is floating point, which the caller does.
#[derive(Debug, Clone, PartialEq)]
pub enum ColumnType {
    StringVec(Vec<Option<String>>),
    IntVec(Vec<Option<i32>>),
    FloatVec(Vec<Option<String>>),
    BoolVec(Vec<Option<bool>>),
    DateVec(Vec<Option<Date>>),
    /// A column with no informative value: every cell is missing.
    Empty,
}

#[derive(Debug, Clone)]
pub struct Column {
    pub pos: usize,
    pub name: String,
    pub datatype: DataType,
    /// Rows that the last predicate marked, consumed by the next mutation.
    pub op_pos: Option<Vec<usize>>,
    pub values: ColumnType,
}

/// The type tag that goes with each kind of cells.
pub open spec fn tag_of(v: ColumnType) -> DataType {
    match v {
        ColumnType::StringVec(_) => DataType::String,
        ColumnType::IntVec(_) => DataType::Int,
        ColumnType::FloatVec(_) => DataType::Float,
        ColumnType::BoolVec(_) => DataType::Bool,
        ColumnType::DateVec(_) => DataType::NaiveDate,
        ColumnType::Empty => DataType::Unknown,
    }
}

/// Whether the cells fill `rows` rows.
pub open spec fn fills(v: ColumnType, rows: int) -> bool {
    match v {
        ColumnType::StringVec(c) => c@.len() == rows,
        ColumnType::IntVec(c) => c@.len() == rows,
        ColumnType::FloatVec(c) => c@.len() == rows,
        ColumnType::BoolVec(c) => c@.len() == rows,
        ColumnType::DateVec(c) => c@.len() == rows,
        ColumnType::Empty => true,
    }
}

/// Whether the cell in row `i` is missing.
pub open spec fn null_at(v: ColumnType, i: int) -> bool {
    match v {
        ColumnType::StringVec(c) => c@[i] is None,
        ColumnType::IntVec(c) => c@[i] is None,
        ColumnType::FloatVec(c) => c@[i] is None,
        ColumnType::BoolVec(c) => c@[i] is None,
        ColumnType::DateVec(c) => c@[i] is None,
        ColumnType::Empty => true,
    }
}

/// The number of missing cells among the first `n` rows.
pub open spec fn count_nulls(v: ColumnType, n: int) -> int
    decreases n,
{
    if n <= 0 {
        0
    } else {
        count_nulls(v, n - 1) + if null_at(v, n - 1) { 1int } else { 0int }
    }
}

/// The number of present cells among the first `n` rows.
pub open spec fn count_present(v: ColumnType, n: int) -> int
    decreases n,
{
    if n <= 0 {
        0
    } else {
        count_present(v, n - 1) + if null_at(v, n - 1) { 0int } else { 1int }
    }
}

/// The indices `0..n`, in order.
pub open spec fn every(n: nat) -> Seq<usize> {
    Seq::new(n, |i: int| i as usize)
}

/// The rows `idx` of `v`, in that order.
pub open spec fn pick<T>(v: Seq<T>, idx: Seq<usize>) -> Seq<T> {
    Seq::new(idx.len(), |k: int| v[idx[k] as int])
}

pub open spec fn all_below(idx: Seq<usize>, n: int) -> bool {
    forall|k: int| 0 <= k < idx.len() ==> (#[trigger] idx[k]) < n
}

/// Whether `new` holds the rows `idx` of `old`, of the same kind.
pub open spec fn picked(new: ColumnType, old: ColumnType, idx: Seq<usize>) -> bool {
    match (new, old) {
        (ColumnType::StringVec(a), ColumnType::StringVec(b)) => a@ == pick(b@, idx),
        (ColumnType::IntVec(a), ColumnType::IntVec(b)) => a@ == pick(b@, idx),
        (ColumnType::FloatVec(a), ColumnType::FloatVec(b)) => a@ == pick(b@, idx),
        (ColumnType::BoolVec(a), ColumnType::BoolVec(b)) => a@ == pick(b@, idx),
        (ColumnType::DateVec(a), ColumnType::DateVec(b)) => a@ == pick(b@, idx),
        (ColumnType::Empty, ColumnType::Empty) => true,
        _ => false,
    }
}

impl Column {
    /// A column with `rows` rows: its tag matches its cells.
    pub open spec fn wf(&self, rows: int) -> bool {
        &&& self.datatype == tag_of(self.values)
        &&& fills(self.values, rows)
    }
}

fn pick_copy<T: Copy>(v: &Vec<Option<T>>, idx: &Vec<usize>) -> (r: Vec<Option<T>>)
    requires
        all_below(idx@, v@.len() as int),
    ensures
        r@ == pick(v@, idx@),
{
    let mut r: Vec<Option<T>> = Vec::with_capacity(idx.len());
    let mut k: usize = 0;
    while k < idx.len()
        invariant
            k <= idx@.len(),
            all_below(idx@, v@.len() as int),
            r@ == pick(v@, idx@.take(k as int)),
        decreases idx.len() - k,
    {
        let i = idx[k];
        r.push(v[i]);
        k += 1;
        proof {
            assert(r@ =~= pick(v@, idx@.take(k as int)));
        }
    }
    proof {
        assert(idx@.take(k as int) =~= idx@);
    }
    r
}

fn pick_text(v: &Vec<Option<String>>, idx: &Vec<usize>) -> (r: Vec<Option<String>>)
    requires
        all_below(idx@, v@.len() as int),
    ensures
        r@ == pick(v@, idx@),
{
    let mut r: Vec<Option<String>> = Vec::with_capacity(idx.len());
    let mut k: usize = 0;
    while k < idx.len()
        invariant
            k <= idx@.len(),
            all_below(idx@, v@.len() as int),
            r@ == pick(v@, idx@.take(k as int)),
        decreases idx.len() - k,
    {
        let i = idx[k];
        let cell = match &v[i] {
            Some(s) => Some(s.clone()),
            None => None,
        };
        r.push(cell);
        k += 1;
        proof {
            assert(r@ =~= pick(v@, idx@.take(k as int)));
        }
    }
    proof {
        assert(idx@.take(k as int) =~= idx@);
    }
    r
}

/// The rows `idx` of a column's cells, in that order.
pub fn pick_values(v: &ColumnType, idx: &Vec<usize>, rows: usize) -> (r: ColumnType)
    requires
        fills(*v, rows as int),
        all_below(idx@, rows as int),
    ensures
        picked(r, *v, idx@),
        fills(r, idx@.len() as int),
        tag_of(r) == tag_of(*v),
{
    match v {
        ColumnType::StringVec(c) => ColumnType::StringVec(pick_text(c, idx)),
        ColumnType::IntVec(c) => ColumnType::IntVec(pick_copy(c, idx)),
        ColumnType::FloatVec(c) => ColumnType::FloatVec(pick_text(c, idx)),
        ColumnType::BoolVec(c) => ColumnType::BoolVec(pick_copy(c, idx)),
        ColumnType::DateVec(c) => ColumnType::DateVec(pick_copy(c, idx)),
        ColumnType::Empty => ColumnType::Empty,
    }
}

/// The row numbers `0..n`.
pub fn all_rows(n: usize) -> (r: Vec<usize>)
    ensures
        r@.len() == n,
        forall|k: int| 0 <= k < n ==> #[trigger] r@[k] == k,
{
    let mut r: Vec<usize> = Vec::with_capacity(n);
    let mut k: usize = 0;
    while k < n
        invariant
            k <= n,
            r@.len() == k,
            forall|j: int| 0 <= j < k ==> #[trigger] r@[j] == j,
        decreases n - k,
    {
        r.push(k);
        k += 1;
    }
    r
}

/// A copy of a list of row numbers.
pub fn copy_positions(v: &Vec<usize>) -> (r: Vec<usize>)
    ensures
        r@ == v@,
{
    let mut r: Vec<usize> = Vec::with_capacity(v.len());
    let mut k: usize = 0;
    while k < v.len()
        invariant
            k <= v@.len(),
            r@ == v@.take(k as int),
        decreases v.len() - k,
    {
        r.push(v[k]);
        k += 1;
        proof {
            assert(r@ =~= v@.take(k as int));
        }
    }
    proof {
        assert(v@.take(k as int) =~= v@);
    }
    r
}

/// A copy of a column with `rows` rows.
pub fn copy_column(c: &Column, rows: usize) -> (r: Column)
    requires
        c.wf(rows as int),
    ensures
        r.pos == c.pos,
        r.name@ == c.name@,
        r.datatype == c.datatype,
        r.op_pos matches Some(p) ==> c.op_pos matches Some(q) && p@ == q@,
        r.op_pos is None ==> c.op_pos is None,
        fills(r.values, rows as int),
        picked(r.values, c.values, every(rows as nat)),
        r.wf(rows as int),
{
    let idx = all_rows(rows);
    proof {
        assert(idx@ =~= every(rows as nat));
    }
    let op_pos = match &c.op_pos {
        Some(p) => Some(copy_positions(p)),
        None => None,
    };
    Column {
        pos: c.pos,
        name: c.name.clone(),
        datatype: c.datatype,
        op_pos,
        values: pick_values(&c.values, &idx, rows),
    }
}

/// Picking every row in order leaves the cells as they are.
pub proof fn lemma_pick_all<T>(v: Seq<T>)
    requires
        v.len() <= usize::MAX,
    ensures
        pick(v, every(v.len())) =~= v,
{
    let idx = every(v.len());
    assert forall|i: int| 0 <= i < v.len() implies #[trigger] pick(v, idx)[i] == v[i] by {
        assert(idx[i] as int == i);
    }
}

/// A list of row positions.
#[derive(Debug, Clone)]
pub struct Positions(Vec<usize>);

impl Positions {
    pub closed spec fn view(&self) -> Seq<usize> {
        self.0@
    }

    pub fn new(pos: Vec<usize>) -> (r: Self)
        ensures
            r.view() == pos@,
    {
        Positions(pos)
    }
}

} // verus!

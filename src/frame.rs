//! Frames: same-length columns, their shape, and the columns that the next
//! mutation targets.
use vstd::prelude::*;
use crate::scalar::{Scalar, spec_to_int, spec_to_date_scalar, spec_to_text, spec_to_bool};
use crate::number::fits_i32;
use crate::date::{spec_to_date, trunc_div};
use crate::date::Date;
use crate::text::string_of;
use crate::column::{copy_column, every, Column, ColumnType, all_below, picked, pick_values, all_rows, fills, count_nulls, copy_positions};

verus! {

/// Why a query gave no frame.
#[derive(Debug, Clone, Copy, PartialEq, Eq, Structural)]
pub enum FrameError {
    /// A selector matched no column.
    SelectorMismatch,
    /// The operation does not apply to the column's type.
    UnsupportedOperation,
    /// More rows were asked for than the frame has, or a row does not exist.
    OutOfRangeRequest,
}

#[derive(Debug)]
pub struct Frame {
    /// (columns, rows)
    pub size: (usize, usize),
    pub data: Vec<Column>,
    /// Positions of the columns that the next mutation targets.
    pub col_indexed: Vec<usize>,
}

/// A choice of rows or columns.
#[derive(Debug, Clone)]
pub enum ColIndex {
    /// Every index from the first to the second, both included.
    Range(usize, usize),
    /// Every index from this one on.
    From(usize),
    /// Every index up to this one, included.
    To(usize),
    /// The columns with any of these names.
    Names(Vec<String>),
    /// The first column with this name.
    Name(String),
    /// These indices.
    Positions(Vec<usize>),
}

pub open spec fn col_names(cols: Seq<Column>) -> Seq<Seq<char>> {
    cols.map_values(|c: Column| c.name@)
}

pub open spec fn strictly_increasing(s: Seq<usize>) -> bool {
    forall|a: int, b: int| 0 <= a < b < s.len() ==> #[trigger] s[a] < #[trigger] s[b]
}

impl ColIndex {
    /// Whether index `i` is chosen, where `names` are the names of the
    /// indices that have one (none, for rows).
    pub open spec fn selects(&self, names: Seq<Seq<char>>, i: int) -> bool {
        match self {
            ColIndex::Range(a, b) => *a <= i <= *b,
            ColIndex::From(a) => *a <= i,
            ColIndex::To(b) => i <= *b,
            ColIndex::Names(ns) => 0 <= i < names.len() && exists|k: int|
                0 <= k < ns@.len() && (#[trigger] ns@[k])@ == names[i],
            ColIndex::Name(n) => 0 <= i < names.len() && names[i] == n@ && forall|j: int|
                0 <= j < i ==> names[j] != n@,
            ColIndex::Positions(ps) => ps@.contains(i as usize),
        }
    }

    /// The chosen indices below `bound`, ascending.
    pub open spec fn resolves_to(&self, names: Seq<Seq<char>>, bound: int, r: Seq<usize>) -> bool {
        &&& strictly_increasing(r)
        &&& all_below(r, bound)
        &&& forall|k: int| 0 <= k < r.len() ==> self.selects(names, #[trigger] r[k] as int)
        &&& forall|i: int| 0 <= i < bound && self.selects(names, i) ==> r.contains(i as usize)
    }

    #[verifier::loop_isolation(false)]
    fn selects_exec(&self, cols: &Vec<Column>, by_name: bool, i: usize) -> (r: bool)
        requires
            by_name ==> i < cols@.len(),
        ensures
            r == self.selects(if by_name { col_names(cols@) } else { Seq::empty() }, i as int),
    {
        let ghost names = if by_name { col_names(cols@) } else { Seq::<Seq<char>>::empty() };
        match self {
            ColIndex::Range(a, b) => *a <= i && i <= *b,
            ColIndex::From(a) => *a <= i,
            ColIndex::To(b) => i <= *b,
            ColIndex::Names(ns) => {
                if !by_name {
                    return false;
                }
                let mut k: usize = 0;
                while k < ns.len()
                    invariant
                        by_name,
                        i < cols@.len(),
                        names == col_names(cols@),
                        k <= ns@.len(),
                        forall|j: int| 0 <= j < k ==> (#[trigger] ns@[j])@ != names[i as int],
                    decreases ns.len() - k,
                {
                    if cols[i].name == ns[k] {
                        proof {
                            assert(names[i as int] == cols@[i as int].name@);
                            assert((ns@[k as int])@ == names[i as int]);
                        }
                        return true;
                    }
                    k += 1;
                }
                false
            },
            ColIndex::Name(n) => {
                if !by_name {
                    return false;
                }
                if cols[i].name != *n {
                    return false;
                }
                proof {
                    assert(names[i as int] == cols@[i as int].name@);
                }
                let mut j: usize = 0;
                while j < i
                    invariant
                        by_name,
                        i < cols@.len(),
                        names == col_names(cols@),
                        j <= i,
                        forall|q: int| 0 <= q < j ==> names[q] != n@,
                    decreases i - j,
                {
                    if cols[j].name == *n {
                        proof {
                            assert(names[j as int] == cols@[j as int].name@);
                        }
                        return false;
                    }
                    j += 1;
                }
                true
            },
            ColIndex::Positions(ps) => {
                let mut k: usize = 0;
                while k < ps.len()
                    invariant
                        k <= ps@.len(),
                        forall|j: int| 0 <= j < k ==> ps@[j] != i,
                    decreases ps.len() - k,
                {
                    if ps[k] == i {
                        proof {
                            assert(ps@[k as int] == i);
                            assert(ps@.contains(i));
                        }
                        return true;
                    }
                    k += 1;
                }
                false
            },
        }
    }

    /// The chosen column indices of `fr`, ascending, or with `rows` its chosen
    /// row indices (names choose no row).
    pub fn positions(&self, fr: &Frame, rows: bool) -> (r: Vec<usize>)
        requires
            fr.wf(),
        ensures
            self.resolves_to(
                if rows { Seq::empty() } else { col_names(fr.data@) },
                if rows { fr.size.1 as int } else { fr.size.0 as int },
                r@,
            ),
    {
        let bound = if rows { fr.size.1 } else { fr.size.0 };
        let ghost names = if rows { Seq::<Seq<char>>::empty() } else { col_names(fr.data@) };
        let mut r: Vec<usize> = Vec::new();
        let mut i: usize = 0;
        while i < bound
            invariant
                fr.wf(),
                bound == if rows { fr.size.1 } else { fr.size.0 },
                names == if rows { Seq::<Seq<char>>::empty() } else { col_names(fr.data@) },
                i <= bound,
                strictly_increasing(r@),
                all_below(r@, i as int),
                forall|k: int| 0 <= k < r@.len() ==> self.selects(names, #[trigger] r@[k] as int),
                forall|j: int| 0 <= j < i && self.selects(names, j) ==> r@.contains(j as usize),
            decreases bound - i,
        {
            if self.selects_exec(&fr.data, !rows, i) {
                let ghost old_r = r@;
                r.push(i);
                proof {
                    assert(r@ == old_r.push(i));
                    assert forall|j: int| 0 <= j < i + 1 && self.selects(names, j) implies r@.contains(j as usize) by {
                        if j < i {
                            assert(old_r.contains(j as usize));
                            let k = choose|k: int| 0 <= k < old_r.len() && old_r[k] == j as usize;
                            assert(r@[k] == j as usize);
                        } else {
                            assert(r@[r@.len() - 1] == j as usize);
                        }
                    }
                }
            }
            i += 1;
        }
        r
    }
}

impl Frame {
    /// Columns fill the shape, positions are distinct, and each column
    /// fills the row count.
    pub open spec fn wf(&self) -> bool {
        &&& self.data@.len() == self.size.0
        &&& forall|j: int| 0 <= j < self.data@.len() ==> (#[trigger] self.data@[j]).wf(self.size.1 as int)
        &&& forall|a: int, b: int| 0 <= a < b < self.data@.len() ==> #[trigger] self.data@[a].pos != #[trigger] self.data@[b].pos
    }

    /// Whether `r` holds the columns `cols` of this frame (in that order),
    /// each cut to the rows `rows`, with nothing marked or targeted.
    pub open spec fn projects_to(&self, rows: Seq<usize>, cols: Seq<usize>, r: Frame) -> bool {
        &&& r.size == (cols.len() as usize, rows.len() as usize)
        &&& r.data@.len() == cols.len()
        &&& r.col_indexed@.len() == 0
        &&& forall|k: int| 0 <= k < cols.len() ==> {
            let c = #[trigger] r.data@[k];
            let o = self.data@[cols[k] as int];
            &&& c.pos == o.pos
            &&& c.name@ == o.name@
            &&& c.datatype == o.datatype
            &&& c.op_pos is None
            &&& picked(c.values, o.values, rows)
        }
    }

    /// The frame with no columns and no rows.
    pub fn empty() -> (r: Frame)
        ensures
            r.wf(),
            r.size == (0usize, 0usize),
            r.col_indexed@.len() == 0,
    {
        Frame { size: (0, 0), data: Vec::new(), col_indexed: Vec::new() }
    }

    /// The columns `col_idx` cut to the rows `idx`.
    pub fn collect_values(&self, idx: &Vec<usize>, col_idx: &Vec<usize>) -> (r: Frame)
        requires
            self.wf(),
            all_below(idx@, self.size.1 as int),
            all_below(col_idx@, self.size.0 as int),
            strictly_increasing(col_idx@),
        ensures
            r.wf(),
            self.projects_to(idx@, col_idx@, r),
    {
        let mut cols: Vec<Column> = Vec::with_capacity(col_idx.len());
        let mut k: usize = 0;
        while k < col_idx.len()
            invariant
                self.wf(),
                all_below(idx@, self.size.1 as int),
                all_below(col_idx@, self.size.0 as int),
                strictly_increasing(col_idx@),
                k <= col_idx@.len(),
                cols@.len() == k,
                forall|q: int| 0 <= q < k ==> {
                    let c = #[trigger] cols@[q];
                    let o = self.data@[col_idx@[q] as int];
                    &&& c.pos == o.pos
                    &&& c.name@ == o.name@
                    &&& c.datatype == o.datatype
                    &&& c.op_pos is None
                    &&& picked(c.values, o.values, idx@)
                    &&& c.wf(idx@.len() as int)
                },
            decreases col_idx.len() - k,
        {
            let o = &self.data[col_idx[k]];
            proof {
                assert(o.wf(self.size.1 as int));
            }
            let c = Column {
                pos: o.pos,
                name: o.name.clone(),
                datatype: o.datatype,
                op_pos: None,
                values: pick_values(&o.values, idx, self.size.1),
            };
            cols.push(c);
            k += 1;
        }
        let r = Frame { size: (col_idx.len(), idx.len()), data: cols, col_indexed: Vec::new() };
        proof {
            assert forall|a: int, b: int| 0 <= a < b < r.data@.len() implies #[trigger] r.data@[a].pos != #[trigger] r.data@[b].pos by {
                assert(col_idx@[a] < col_idx@[b]);
            }
            assert forall|j: int| 0 <= j < r.data@.len() implies (#[trigger] r.data@[j]).wf(r.size.1 as int) by {
                assert(cols@[j].wf(idx@.len() as int));
            }
        }
        r
    }

    /// The first `n` rows (ten when `n` is `None`).
    pub fn head(&self, lines: Option<usize>) -> (r: Result<Frame, FrameError>)
        requires
            self.wf(),
        ensures
            ({
                let n = match lines { Some(l) => l, None => 10usize };
                &&& n > self.size.1 ==> r == Err::<Frame, FrameError>(FrameError::OutOfRangeRequest)
                &&& n <= self.size.1 ==> (r matches Ok(f) && f.wf() && self.projects_to(
                    every(n as nat),
                    every(self.size.0 as nat),
                    f,
                ))
            }),
    {
        let n = match lines {
            Some(l) => l,
            None => 10,
        };
        if n > self.size.1 {
            return Err(FrameError::OutOfRangeRequest);
        }
        let idx = all_rows(n);
        let cols = all_rows(self.size.0);
        proof {
            assert(idx@ =~= every(n as nat));
            assert(cols@ =~= every(self.size.0 as nat));
        }
        Ok(self.collect_values(&idx, &cols))
    }

    /// The last `n` rows (ten when `n` is `None`).
    pub fn tail(&self, lines: Option<usize>) -> (r: Result<Frame, FrameError>)
        requires
            self.wf(),
        ensures
            ({
                let n = match lines { Some(l) => l, None => 10usize };
                &&& n > self.size.1 ==> r == Err::<Frame, FrameError>(FrameError::OutOfRangeRequest)
                &&& n <= self.size.1 ==> (r matches Ok(f) && f.wf() && self.projects_to(
                    Seq::new(n as nat, |i: int| (self.size.1 - n + i) as usize),
                    every(self.size.0 as nat),
                    f,
                ))
            }),
    {
        let n = match lines {
            Some(l) => l,
            None => 10,
        };
        if n > self.size.1 {
            return Err(FrameError::OutOfRangeRequest);
        }
        let start = self.size.1 - n;
        let mut idx: Vec<usize> = Vec::with_capacity(n);
        let mut k: usize = 0;
        while k < n
            invariant
                n <= self.size.1,
                start == self.size.1 - n,
                k <= n,
                idx@.len() == k,
                forall|j: int| 0 <= j < k ==> #[trigger] idx@[j] == start + j,
            decreases n - k,
        {
            idx.push(start + k);
            k += 1;
        }
        let cols = all_rows(self.size.0);
        proof {
            assert(idx@ =~= Seq::new(n as nat, |i: int| (self.size.1 - n + i) as usize));
            assert(cols@ =~= every(self.size.0 as nat));
        }
        Ok(self.collect_values(&idx, &cols))
    }

    /// Every column, cut to the chosen rows.
    pub fn range(&self, p: ColIndex) -> (r: Frame)
        requires
            self.wf(),
        ensures
            r.wf(),
            exists|rows: Seq<usize>| p.resolves_to(Seq::empty(), self.size.1 as int, rows)
                && #[trigger] self.projects_to(rows, every(self.size.0 as nat), r),
    {
        let idx = p.positions(self, true);
        let cols = all_rows(self.size.0);
        proof {
            assert(cols@ =~= every(self.size.0 as nat));
        }
        let r = self.collect_values(&idx, &cols);
        proof {
            assert(self.projects_to(idx@, every(self.size.0 as nat), r));
        }
        r
    }

    /// The chosen columns, with every row.
    pub fn span(&self, p: ColIndex) -> (r: Frame)
        requires
            self.wf(),
        ensures
            r.wf(),
            exists|cols: Seq<usize>| p.resolves_to(col_names(self.data@), self.size.0 as int, cols)
                && #[trigger] self.projects_to(every(self.size.1 as nat), cols, r),
    {
        let cols = p.positions(self, false);
        let idx = all_rows(self.size.1);
        proof {
            assert(idx@ =~= every(self.size.1 as nat));
        }
        let r = self.collect_values(&idx, &cols);
        proof {
            assert(self.projects_to(every(self.size.1 as nat), cols@, r));
        }
        r
    }
}

} // verus!

verus! {

/// A comparison of a cell against a scalar.
#[derive(Debug, Clone, Copy, PartialEq, Eq, Structural)]
pub enum CmpOp {
    Eq,
    Lt,
    Mt,
    Lte,
    Mte,
}

pub open spec fn cmp_holds(op: CmpOp, a: int, b: int) -> bool {
    match op {
        CmpOp::Eq => a == b,
        CmpOp::Lt => a < b,
        CmpOp::Mt => a > b,
        CmpOp::Lte => a <= b,
        CmpOp::Mte => a >= b,
    }
}

fn cmp_exec(op: CmpOp, a: i32, b: i32) -> (r: bool)
    ensures
        r == cmp_holds(op, a as int, b as int),
{
    match op {
        CmpOp::Eq => a == b,
        CmpOp::Lt => a < b,
        CmpOp::Mt => a > b,
        CmpOp::Lte => a <= b,
        CmpOp::Mte => a >= b,
    }
}

/// The scalar as an integer, 0 when it is none.
pub open spec fn int_or_zero(val: Scalar) -> int {
    match spec_to_int(val) {
        Some(x) => x as int,
        None => 0,
    }
}

/// The scalar as a day number, day 1 when it is no date.
pub open spec fn day_or_epoch(val: Scalar) -> int {
    match spec_to_date_scalar(val) {
        Some(d) => d.0 as int,
        None => 1,
    }
}

/// The scalar as text, empty when it is none.
pub open spec fn text_or_empty(val: Scalar) -> Seq<char> {
    match spec_to_text(val) {
        Some(t) => t,
        None => Seq::empty(),
    }
}

/// Whether the comparison applies to cells of this kind: every one to
/// integers and dates, equality alone to text.
pub open spec fn supports(values: ColumnType, op: CmpOp) -> bool {
    match values {
        ColumnType::IntVec(_) => true,
        ColumnType::DateVec(_) => true,
        ColumnType::StringVec(_) => op == CmpOp::Eq,
        _ => false,
    }
}

/// Whether the cell in row `i` is present and compares as `op` says with the scalar.
pub open spec fn row_matches(values: ColumnType, op: CmpOp, val: Scalar, i: int) -> bool {
    match values {
        ColumnType::IntVec(v) => v@[i] matches Some(x) && cmp_holds(op, x as int, int_or_zero(val)),
        ColumnType::DateVec(v) => v@[i] matches Some(d) && cmp_holds(op, d.0 as int, day_or_epoch(val)),
        ColumnType::StringVec(v) => v@[i] matches Some(s) && s@ == text_or_empty(val),
        _ => false,
    }
}

/// Whether `p` lists, ascending, exactly the rows below `n` where `pred` holds.
pub open spec fn exact_rows(p: Seq<usize>, n: int, pred: spec_fn(int) -> bool) -> bool {
    &&& strictly_increasing(p)
    &&& all_below(p, n)
    &&& forall|k: int| 0 <= k < p.len() ==> pred(#[trigger] p[k] as int)
    &&& forall|i: int| 0 <= i < n && #[trigger] pred(i) ==> p.contains(i as usize)
}

fn scan_int(v: &Vec<Option<i32>>, op: CmpOp, k: i32) -> (r: Vec<usize>)
    ensures
        exact_rows(r@, v@.len() as int, |i: int| v@[i] matches Some(x) && cmp_holds(op, x as int, k as int)),
{
    let ghost pred = |i: int| v@[i] matches Some(x) && cmp_holds(op, x as int, k as int);
    let mut r: Vec<usize> = Vec::new();
    let mut i: usize = 0;
    while i < v.len()
        invariant
            i <= v@.len(),
            pred == (|i: int| v@[i] matches Some(x) && cmp_holds(op, x as int, k as int)),
            exact_rows(r@, i as int, pred),
        decreases v.len() - i,
    {
        let hit = match v[i] {
            Some(x) => cmp_exec(op, x, k),
            None => false,
        };
        if hit {
            let ghost old_r = r@;
            r.push(i);
            proof {
                lemma_push_row(old_r, i as int, pred);
            }
        } else {
            proof {
                lemma_skip_row(r@, i as int, pred);
            }
        }
        i += 1;
    }
    r
}

fn scan_date(v: &Vec<Option<Date>>, op: CmpOp, k: i32) -> (r: Vec<usize>)
    ensures
        exact_rows(r@, v@.len() as int, |i: int| v@[i] matches Some(d) && cmp_holds(op, d.0 as int, k as int)),
{
    let ghost pred = |i: int| v@[i] matches Some(d) && cmp_holds(op, d.0 as int, k as int);
    let mut r: Vec<usize> = Vec::new();
    let mut i: usize = 0;
    while i < v.len()
        invariant
            i <= v@.len(),
            pred == (|i: int| v@[i] matches Some(d) && cmp_holds(op, d.0 as int, k as int)),
            exact_rows(r@, i as int, pred),
        decreases v.len() - i,
    {
        let hit = match v[i] {
            Some(d) => cmp_exec(op, d.0, k),
            None => false,
        };
        if hit {
            let ghost old_r = r@;
            r.push(i);
            proof {
                lemma_push_row(old_r, i as int, pred);
            }
        } else {
            proof {
                lemma_skip_row(r@, i as int, pred);
            }
        }
        i += 1;
    }
    r
}

fn scan_text(v: &Vec<Option<String>>, t: &String) -> (r: Vec<usize>)
    ensures
        exact_rows(r@, v@.len() as int, |i: int| v@[i] matches Some(s) && s@ == t@),
{
    let ghost pred = |i: int| v@[i] matches Some(s) && s@ == t@;
    let mut r: Vec<usize> = Vec::new();
    let mut i: usize = 0;
    while i < v.len()
        invariant
            i <= v@.len(),
            pred == (|i: int| v@[i] matches Some(s) && s@ == t@),
            exact_rows(r@, i as int, pred),
        decreases v.len() - i,
    {
        let hit = match &v[i] {
            Some(s) => *s == *t,
            None => false,
        };
        if hit {
            let ghost old_r = r@;
            r.push(i);
            proof {
                lemma_push_row(old_r, i as int, pred);
            }
        } else {
            proof {
                lemma_skip_row(r@, i as int, pred);
            }
        }
        i += 1;
    }
    r
}

/// How many of the first `rows` cells are missing.
pub fn null_count(v: &ColumnType, rows: usize) -> (r: usize)
    requires
        fills(*v, rows as int),
    ensures
        r == count_nulls(*v, rows as int),
{
    let mut n: usize = 0;
    let mut i: usize = 0;
    while i < rows
        invariant
            fills(*v, rows as int),
            i <= rows,
            n == count_nulls(*v, i as int),
            n <= i,
        decreases rows - i,
    {
        let missing = match v {
            ColumnType::StringVec(c) => c[i].is_none(),
            ColumnType::IntVec(c) => c[i].is_none(),
            ColumnType::FloatVec(c) => c[i].is_none(),
            ColumnType::BoolVec(c) => c[i].is_none(),
            ColumnType::DateVec(c) => c[i].is_none(),
            ColumnType::Empty => true,
        };
        if missing {
            n += 1;
        }
        i += 1;
    }
    n
}

proof fn lemma_push_row(p: Seq<usize>, i: int, pred: spec_fn(int) -> bool)
    requires
        0 <= i <= usize::MAX,
        exact_rows(p, i, pred),
        pred(i),
    ensures
        exact_rows(p.push(i as usize), i + 1, pred),
{
    let q = p.push(i as usize);
    assert forall|j: int| 0 <= j < i + 1 && #[trigger] pred(j) implies q.contains(j as usize) by {
        if j < i {
            assert(p.contains(j as usize));
            let k = choose|k: int| 0 <= k < p.len() && p[k] == j as usize;
            assert(q[k] == j as usize);
        } else {
            assert(q[q.len() - 1] == j as usize);
        }
    }
    assert forall|k: int| 0 <= k < q.len() implies pred(#[trigger] q[k] as int) by {
        if k < p.len() {
            assert(q[k] == p[k]);
        }
    }
}

proof fn lemma_same_rows(p: Seq<usize>, n: int, a: spec_fn(int) -> bool, b: spec_fn(int) -> bool)
    requires
        exact_rows(p, n, a),
        forall|i: int| 0 <= i < n ==> #[trigger] a(i) == b(i),
    ensures
        exact_rows(p, n, b),
{
    assert forall|k: int| 0 <= k < p.len() implies b(#[trigger] p[k] as int) by {
        assert(a(p[k] as int));
    }
    assert forall|i: int| 0 <= i < n && #[trigger] b(i) implies p.contains(i as usize) by {
        assert(a(i));
    }
}

proof fn lemma_skip_row(p: Seq<usize>, i: int, pred: spec_fn(int) -> bool)
    requires
        0 <= i,
        exact_rows(p, i, pred),
        !pred(i),
    ensures
        exact_rows(p, i + 1, pred),
{
    assert forall|j: int| 0 <= j < i + 1 && #[trigger] pred(j) implies p.contains(j as usize) by {
        assert(j != i);
    }
}

impl Frame {
    /// What a comparison gives: an error when the frame has no column or the
    /// comparison does not apply to its first one; else a one-column frame
    /// with that column, whose marked rows are exactly those that match, and
    /// which targets that column.
    pub open spec fn compared(self, op: CmpOp, val: Scalar, r: Result<Frame, FrameError>) -> bool {
        &&& self.data@.len() == 0 || !supports(self.data@[0].values, op)
                ==> r == Err::<Frame, FrameError>(FrameError::UnsupportedOperation)
        &&& self.data@.len() > 0 && supports(self.data@[0].values, op) ==> (r matches Ok(f) && {
                let c = self.data@[0];
                let d = f.data@[0];
                &&& f.wf()
                &&& f.size == (1usize, self.size.1)
                &&& f.data@.len() == 1
                &&& d.pos == c.pos
                &&& d.name@ == c.name@
                &&& d.datatype == c.datatype
                &&& picked(d.values, c.values, every(self.size.1 as nat))
                &&& d.op_pos matches Some(p) && exact_rows(p@, self.size.1 as int, |i: int| row_matches(c.values, op, val, i))
                &&& f.col_indexed@ == seq![c.pos]
            })
    }

    /// Marks the rows of the first column whose cell compares as `op` says
    /// with `val`, converted to the column's element type (0, empty text or
    /// day 1 when it does not convert).
    pub fn compare(self, op: CmpOp, val: &Scalar) -> (r: Result<Frame, FrameError>)
        requires
            self.wf(),
        ensures
            self.compared(op, *val, r),
    {
        if self.data.len() == 0 {
            return Err(FrameError::UnsupportedOperation);
        }
        let rows = self.size.1;
        let c = &self.data[0];
        proof {
            assert(c.wf(rows as int));
        }
        let pos_list = match &c.values {
            ColumnType::IntVec(v) => {
                let k = match val.to_int() {
                    Some(x) => x,
                    None => 0,
                };
                let p = scan_int(v, op, k);
                proof {
                    lemma_same_rows(p@, rows as int, |i: int| v@[i] matches Some(x) && cmp_holds(op, x as int, k as int), |i: int| row_matches(c.values, op, *val, i));
                    assert(exact_rows(p@, rows as int, |i: int| row_matches(c.values, op, *val, i)));
                }
                p
            },
            ColumnType::DateVec(v) => {
                let k = match val.to_date() {
                    Some(d) => d.0,
                    None => 1,
                };
                let p = scan_date(v, op, k);
                proof {
                    lemma_same_rows(p@, rows as int, |i: int| v@[i] matches Some(d) && cmp_holds(op, d.0 as int, k as int), |i: int| row_matches(c.values, op, *val, i));
                    assert(exact_rows(p@, rows as int, |i: int| row_matches(c.values, op, *val, i)));
                }
                p
            },
            ColumnType::StringVec(v) => {
                if op != CmpOp::Eq {
                    return Err(FrameError::UnsupportedOperation);
                }
                let t = match val.to_text() {
                    Some(t) => string_of(&t),
                    None => String::new(),
                };
                let p = scan_text(v, &t);
                proof {
                    lemma_same_rows(p@, rows as int, |i: int| v@[i] matches Some(s) && s@ == t@, |i: int| row_matches(c.values, op, *val, i));
                    assert(exact_rows(p@, rows as int, |i: int| row_matches(c.values, op, *val, i)));
                }
                p
            },
            _ => {
                return Err(FrameError::UnsupportedOperation);
            },
        };
        let cc = copy_column(c, rows);
        let d = Column {
            pos: cc.pos,
            name: cc.name,
            datatype: cc.datatype,
            op_pos: Some(pos_list),
            values: cc.values,
        };
        let pos = d.pos;
        let mut data: Vec<Column> = Vec::new();
        data.push(d);
        let mut col_indexed: Vec<usize> = Vec::new();
        col_indexed.push(pos);
        let f = Frame { size: (1, rows), data, col_indexed };
        proof {
            assert(f.col_indexed@ =~= seq![c.pos]);
            assert(f.data@[0].wf(rows as int));
        }
        Ok(f)
    }

    /// Marks the rows whose cell equals `val`.
    pub fn eq(self, val: &Scalar) -> (r: Result<Frame, FrameError>)
        requires
            self.wf(),
        ensures
            self.compared(CmpOp::Eq, *val, r),
    {
        self.compare(CmpOp::Eq, val)
    }

    /// Marks the rows whose cell is less than `val`.
    pub fn lt(self, val: &Scalar) -> (r: Result<Frame, FrameError>)
        requires
            self.wf(),
        ensures
            self.compared(CmpOp::Lt, *val, r),
    {
        self.compare(CmpOp::Lt, val)
    }

    /// Marks the rows whose cell is more than `val`.
    pub fn mt(self, val: &Scalar) -> (r: Result<Frame, FrameError>)
        requires
            self.wf(),
        ensures
            self.compared(CmpOp::Mt, *val, r),
    {
        self.compare(CmpOp::Mt, val)
    }

    /// Marks the rows whose cell is at most `val`.
    pub fn lte(self, val: &Scalar) -> (r: Result<Frame, FrameError>)
        requires
            self.wf(),
        ensures
            self.compared(CmpOp::Lte, *val, r),
    {
        self.compare(CmpOp::Lte, val)
    }

    /// Marks the rows whose cell is at least `val`.
    pub fn mte(self, val: &Scalar) -> (r: Result<Frame, FrameError>)
        requires
            self.wf(),
        ensures
            self.compared(CmpOp::Mte, *val, r),
    {
        self.compare(CmpOp::Mte, val)
    }

    /// What `col` gives (see there).
    pub open spec fn selected(&self, p: ColIndex, r: Result<Frame, FrameError>) -> bool {
        exists|cols: Seq<usize>| #[trigger] p.resolves_to(col_names(self.data@), self.size.0 as int, cols)
            && self.selected_as(cols, r)
    }

    /// What `col` gives when the selector resolves to `cols`.
    pub open spec fn selected_as(&self, cols: Seq<usize>, r: Result<Frame, FrameError>) -> bool {
        &&& cols.len() == 0 ==> r == Err::<Frame, FrameError>(FrameError::SelectorMismatch)
        &&& cols.len() > 0 ==> (r matches Ok(f) && {
            &&& f.wf()
            &&& f.size == (cols.len() as usize, self.size.1)
            &&& f.data@.len() == cols.len()
            &&& f.col_indexed@ == Seq::new(cols.len(), |k: int| self.data@[cols[k] as int].pos)
            &&& forall|k: int| 0 <= k < cols.len() ==> {
                let d = #[trigger] f.data@[k];
                let c = self.data@[cols[k] as int];
                &&& d.pos == c.pos
                &&& d.name@ == c.name@
                &&& d.datatype == c.datatype
                &&& picked(d.values, c.values, every(self.size.1 as nat))
                &&& cols.len() == 1 ==> (d.op_pos matches Some(q) && q@ == seq![c.pos])
                &&& cols.len() > 1 ==> (d.op_pos matches Some(q) ==> c.op_pos matches Some(o) && q@ == o@)
                &&& cols.len() > 1 ==> (d.op_pos is None ==> c.op_pos is None)
            }
        })
    }

    /// The chosen columns with every row. One column comes back marking its
    /// own position and targeted; several come back as they are, all
    /// targeted. No column is an error.
    pub fn col(&self, p: ColIndex) -> (r: Result<Frame, FrameError>)
        requires
            self.wf(),
        ensures
            self.selected(p, r),
    {
        let cols = p.positions(self, false);
        if cols.len() == 0 {
            return Err(FrameError::SelectorMismatch);
        }
        let rows = self.size.1;
        let single = cols.len() == 1;
        let mut data: Vec<Column> = Vec::with_capacity(cols.len());
        let mut targets: Vec<usize> = Vec::with_capacity(cols.len());
        let mut k: usize = 0;
        while k < cols.len()
            invariant
                self.wf(),
                rows == self.size.1,
                p.resolves_to(col_names(self.data@), self.size.0 as int, cols@),
                single == (cols@.len() == 1),
                k <= cols@.len(),
                data@.len() == k,
                targets@ == Seq::new(k as nat, |q: int| self.data@[cols@[q] as int].pos),
                forall|q: int| 0 <= q < k ==> {
                    let d = #[trigger] data@[q];
                    let c = self.data@[cols@[q] as int];
                    &&& d.pos == c.pos
                    &&& d.name@ == c.name@
                    &&& d.datatype == c.datatype
                    &&& picked(d.values, c.values, every(rows as nat))
                    &&& d.wf(rows as int)
                    &&& single ==> (d.op_pos matches Some(o) && o@ == seq![c.pos])
                    &&& !single ==> (d.op_pos matches Some(o) ==> c.op_pos matches Some(e) && o@ == e@)
                    &&& !single ==> (d.op_pos is None ==> c.op_pos is None)
                },
            decreases cols.len() - k,
        {
            let c = &self.data[cols[k]];
            proof {
                assert(c.wf(rows as int));
            }
            let cc = copy_column(c, rows);
            let d = if single {
                let mut own: Vec<usize> = Vec::new();
                own.push(cc.pos);
                proof {
                    assert(own@ =~= seq![c.pos]);
                }
                Column { pos: cc.pos, name: cc.name, datatype: cc.datatype, op_pos: Some(own), values: cc.values }
            } else {
                cc
            };
            targets.push(d.pos);
            data.push(d);
            k += 1;
            proof {
                assert(targets@ =~= Seq::new(k as nat, |q: int| self.data@[cols@[q] as int].pos));
            }
        }
        let f = Frame { size: (cols.len(), rows), data, col_indexed: targets };
        proof {
            assert forall|a: int, b: int| 0 <= a < b < f.data@.len() implies #[trigger] f.data@[a].pos != #[trigger] f.data@[b].pos by {
                assert(cols@[a] < cols@[b]);
            }
            assert forall|j: int| 0 <= j < f.data@.len() implies (#[trigger] f.data@[j]).wf(f.size.1 as int) by {
                assert(data@[j].wf(rows as int));
            }
        }
        Ok(f)
    }

    /// What `loc` gives (see there).
    pub open spec fn located(&self, fr: Frame, r: Result<Frame, FrameError>) -> bool {
        &&& fr.col_indexed@.len() == 0 || fr.data@.len() == 0
            ==> r == Err::<Frame, FrameError>(FrameError::SelectorMismatch)
        &&& fr.col_indexed@.len() > 0 && fr.data@.len() > 0 ==> ({
            let p = match fr.data@[0].op_pos { Some(q) => q@, None => Seq::<usize>::empty() };
            &&& !all_below(p, self.size.1 as int) ==> r == Err::<Frame, FrameError>(FrameError::OutOfRangeRequest)
            &&& all_below(p, self.size.1 as int) ==> (r matches Ok(f) && f.wf()
                && self.projects_to(p, every(self.size.0 as nat), f))
        })
    }

    /// Every column cut to the rows that the mask marks. A mask that targets
    /// nothing is an error, and so is a marked row that does not exist.
    #[verifier::loop_isolation(false)]
    pub fn loc(&self, fr: &Frame) -> (r: Result<Frame, FrameError>)
        requires
            self.wf(),
        ensures
            self.located(*fr, r),
    {
        if fr.col_indexed.len() == 0 || fr.data.len() == 0 {
            return Err(FrameError::SelectorMismatch);
        }
        let positions = match &fr.data[0].op_pos {
            Some(q) => copy_positions(q),
            None => Vec::new(),
        };
        let mut k: usize = 0;
        while k < positions.len()
            invariant
                k <= positions@.len(),
                all_below(positions@.take(k as int), self.size.1 as int),
            decreases positions.len() - k,
        {
            if positions[k] >= self.size.1 {
                proof {
                    assert(positions@[k as int] >= self.size.1);
                }
                return Err(FrameError::OutOfRangeRequest);
            }
            k += 1;
            proof {
                assert forall|q: int| 0 <= q < k implies (#[trigger] positions@.take(k as int)[q]) < self.size.1 by {
                    if q < k - 1 {
                        assert(positions@.take(k as int)[q] == positions@.take(k - 1)[q]);
                    }
                }
            }
        }
        proof {
            assert(positions@.take(k as int) =~= positions@);
        }
        let cols = all_rows(self.size.0);
        proof {
            assert(cols@ =~= every(self.size.0 as nat));
        }
        Ok(self.collect_values(&positions, &cols))
    }

    /// Targets the columns of the mask for the next mutation.
    pub fn find(&mut self, df: &Frame)
        ensures
            final(self).size == old(self).size,
            final(self).data == old(self).data,
            final(self).col_indexed@ == df.data@.map_values(|c: Column| c.pos),
    {
        let mut t: Vec<usize> = Vec::with_capacity(df.data.len());
        let mut i: usize = 0;
        while i < df.data.len()
            invariant
                i <= df.data@.len(),
                t@ == df.data@.take(i as int).map_values(|c: Column| c.pos),
            decreases df.data.len() - i,
        {
            t.push(df.data[i].pos);
            i += 1;
            proof {
                assert(t@ =~= df.data@.take(i as int).map_values(|c: Column| c.pos));
            }
        }
        proof {
            assert(df.data@.take(i as int) =~= df.data@);
        }
        self.col_indexed = t;
    }

    /// Takes the first chosen column out of the frame.
    pub fn pop(&mut self, col: ColIndex) -> (r: Option<Column>)
        requires
            old(self).wf(),
        ensures
            exists|cols: Seq<usize>| #[trigger] col.resolves_to(col_names(old(self).data@), old(self).size.0 as int, cols) && {
                &&& cols.len() == 0 ==> r is None && *final(self) == *old(self)
                &&& cols.len() > 0 ==> (r == Some(old(self).data@[cols[0] as int])
                    && final(self).data@ == old(self).data@.remove(cols[0] as int)
                    && final(self).size == ((old(self).size.0 - 1) as usize, old(self).size.1)
                    && final(self).col_indexed == old(self).col_indexed
                    && final(self).wf())
            },
    {
        let cols = col.positions(self, false);
        if cols.len() == 0 {
            return None;
        }
        let j = cols[0];
        let ghost before = self.data@;
        let c = self.data.remove(j);
        self.size.0 = self.size.0 - 1;
        proof {
            assert forall|a: int, b: int| 0 <= a < b < self.data@.len() implies #[trigger] self.data@[a].pos != #[trigger] self.data@[b].pos by {
                let a0 = if a < j { a } else { a + 1 };
                let b0 = if b < j { b } else { b + 1 };
                assert(self.data@[a] == before[a0]);
                assert(self.data@[b] == before[b0]);
            }
            assert forall|q: int| 0 <= q < self.data@.len() implies (#[trigger] self.data@[q]).wf(self.size.1 as int) by {
                let q0 = if q < j { q } else { q + 1 };
                assert(self.data@[q] == before[q0]);
            }
        }
        Some(c)
    }

    /// For each column, its name and how many of its cells are missing.
    pub fn is_na(&self) -> (r: Vec<(String, usize)>)
        requires
            self.wf(),
        ensures
            r@.len() == self.data@.len(),
            forall|j: int| 0 <= j < r@.len() ==> {
                &&& (#[trigger] r@[j]).0@ == self.data@[j].name@
                &&& r@[j].1 == count_nulls(self.data@[j].values, self.size.1 as int)
            },
    {
        let mut r: Vec<(String, usize)> = Vec::with_capacity(self.data.len());
        let mut j: usize = 0;
        while j < self.data.len()
            invariant
                self.wf(),
                j <= self.data@.len(),
                r@.len() == j,
                forall|q: int| 0 <= q < j ==> {
                    &&& (#[trigger] r@[q]).0@ == self.data@[q].name@
                    &&& r@[q].1 == count_nulls(self.data@[q].values, self.size.1 as int)
                },
            decreases self.data.len() - j,
        {
            let c = &self.data[j];
            proof {
                assert(c.wf(self.size.1 as int));
            }
            let n = null_count(&c.values, self.size.1);
            r.push((c.name.clone(), n));
            j += 1;
        }
        r
    }
}

} // verus!

verus! {

/// An arithmetic mutation.
#[derive(Debug, Clone, Copy, PartialEq, Eq, Structural)]
pub enum ArithOp {
    Add,
    Sub,
    Mul,
    Div,
}

/// Whether a mutation through column `c` reaches row `i`: the marked rows,
/// or every row when none are marked.
pub open spec fn affected(c: Column, i: int) -> bool {
    match c.op_pos {
        Some(p) => p@.contains(i as usize),
        None => true,
    }
}

/// An integer result, missing when it leaves the range of `i32`.
pub open spec fn int_result(op: ArithOp, x: int, k: int) -> Option<i32> {
    let v = match op {
        ArithOp::Add => x + k,
        ArithOp::Sub => x - k,
        ArithOp::Mul => x * k,
        ArithOp::Div => 0,
    };
    if fits_i32(v) { Some(v as i32) } else { None }
}

/// A date result, missing when no date has that day number.
pub open spec fn date_result(op: ArithOp, d: int, k: int) -> Option<Date> {
    match op {
        ArithOp::Add => spec_to_date(d + k),
        ArithOp::Sub => spec_to_date(d - k),
        ArithOp::Mul => spec_to_date(d * k),
        ArithOp::Div => spec_to_date(trunc_div(d, k)),
    }
}

/// Whether the mutation applies to cells of this kind with this scalar:
/// integers take `+ - *` (their division is floating point), dates take all
/// four with a nonzero divisor, and the scalar must convert to an integer.
pub open spec fn arith_applies(values: ColumnType, op: ArithOp, val: Scalar) -> bool {
    match values {
        ColumnType::IntVec(_) => op != ArithOp::Div && spec_to_int(val) is Some,
        ColumnType::DateVec(_) => spec_to_int(val) matches Some(k) && (op == ArithOp::Div ==> k != 0),
        _ => false,
    }
}

/// Whether `new` is `old` with the reached rows mutated.
pub open spec fn arith_cells(c: Column, new: ColumnType, op: ArithOp, k: int) -> bool {
    match (new, c.values) {
        (ColumnType::IntVec(a), ColumnType::IntVec(b)) => a@.len() == b@.len() && forall|i: int|
            0 <= i < b@.len() ==> #[trigger] a@[i] == if affected(c, i) {
                match b@[i] {
                    Some(x) => int_result(op, x as int, k),
                    None => None,
                }
            } else {
                b@[i]
            },
        (ColumnType::DateVec(a), ColumnType::DateVec(b)) => a@.len() == b@.len() && forall|i: int|
            0 <= i < b@.len() ==> #[trigger] a@[i] == if affected(c, i) {
                match b@[i] {
                    Some(d) => date_result(op, d.0 as int, k),
                    None => None,
                }
            } else {
                b@[i]
            },
        _ => false,
    }
}

/// Whether the reached rows of `new` hold the scalar converted to the
/// column's element type, and the others are as in `c`.
pub open spec fn replaced_cells(c: Column, new: ColumnType, val: Scalar) -> bool {
    match (new, c.values) {
        (ColumnType::StringVec(a), ColumnType::StringVec(b)) => a@.len() == b@.len() && forall|i: int|
            0 <= i < b@.len() ==> if affected(c, i) {
                (#[trigger] a@[i]) matches Some(s) && spec_to_text(val) == Some(s@)
            } else {
                a@[i] == b@[i]
            },
        (ColumnType::IntVec(a), ColumnType::IntVec(b)) => a@.len() == b@.len() && forall|i: int|
            0 <= i < b@.len() ==> #[trigger] a@[i] == if affected(c, i) { spec_to_int(val) } else { b@[i] },
        (ColumnType::BoolVec(a), ColumnType::BoolVec(b)) => a@.len() == b@.len() && forall|i: int|
            0 <= i < b@.len() ==> #[trigger] a@[i] == if affected(c, i) { spec_to_bool(val) } else { b@[i] },
        (ColumnType::DateVec(a), ColumnType::DateVec(b)) => a@.len() == b@.len() && forall|i: int|
            0 <= i < b@.len() ==> #[trigger] a@[i] == if affected(c, i) { spec_to_date_scalar(val) } else { b@[i] },
        _ => false,
    }
}

/// Whether the scalar converts to the element type of cells of this kind.
pub open spec fn replace_applies(values: ColumnType, val: Scalar) -> bool {
    match values {
        ColumnType::StringVec(_) => spec_to_text(val) is Some,
        ColumnType::IntVec(_) => spec_to_int(val) is Some,
        ColumnType::BoolVec(_) => spec_to_bool(val) is Some,
        ColumnType::DateVec(_) => spec_to_date_scalar(val) is Some,
        _ => false,
    }
}

/// For each of `rows` rows, whether a mutation through `c` reaches it.
fn reach_mask(c: &Column, rows: usize) -> (r: Vec<bool>)
    ensures
        r@.len() == rows,
        forall|i: int| 0 <= i < rows ==> #[trigger] r@[i] == affected(*c, i),
{
    match &c.op_pos {
        None => {
            let mut r: Vec<bool> = Vec::with_capacity(rows);
            let mut i: usize = 0;
            while i < rows
                invariant
                    c.op_pos is None,
                    i <= rows,
                    r@.len() == i,
                    forall|q: int| 0 <= q < i ==> #[trigger] r@[q],
                decreases rows - i,
            {
                r.push(true);
                i += 1;
            }
            r
        },
        Some(p) => {
            let mut r: Vec<bool> = Vec::with_capacity(rows);
            let mut i: usize = 0;
            while i < rows
                invariant
                    i <= rows,
                    r@.len() == i,
                    forall|q: int| 0 <= q < i ==> !#[trigger] r@[q],
                decreases rows - i,
            {
                r.push(false);
                i += 1;
            }
            let mut k: usize = 0;
            while k < p.len()
                invariant
                    c.op_pos == Some(*p),
                    k <= p@.len(),
                    r@.len() == rows,
                    forall|q: int| 0 <= q < rows ==> #[trigger] r@[q] == p@.take(k as int).contains(q as usize),
                decreases p.len() - k,
            {
                let i = p[k];
                let ghost before = r@;
                if i < rows {
                    r.set(i, true);
                }
                k += 1;
                proof {
                    assert forall|q: int| 0 <= q < rows implies #[trigger] r@[q] == p@.take(k as int).contains(q as usize) by {
                        let t = p@.take(k as int);
                        let t0 = p@.take(k - 1);
                        assert(t == t0.push(i));
                        if t0.contains(q as usize) {
                            let w = choose|w: int| 0 <= w < t0.len() && t0[w] == q as usize;
                            assert(t[w] == q as usize);
                        }
                        if t.contains(q as usize) && !t0.contains(q as usize) {
                            let w = choose|w: int| 0 <= w < t.len() && t[w] == q as usize;
                            if w < t0.len() {
                                assert(t0[w] == q as usize);
                            }
                        }
                        if q as usize == i {
                            assert(t[t.len() - 1] == q as usize);
                        }
                    }
                }
            }
            proof {
                assert(p@.take(k as int) =~= p@);
            }
            r
        },
    }
}

fn int_exec(op: ArithOp, x: i32, k: i32) -> (r: Option<i32>)
    requires
        op != ArithOp::Div,
    ensures
        r == int_result(op, x as int, k as int),
{
    let v: i64 = match op {
        ArithOp::Add => x as i64 + k as i64,
        ArithOp::Sub => x as i64 - k as i64,
        ArithOp::Mul => {
            proof {
                assert(-0x8000_0000 * 0x8000_0000 <= x * k <= 0x8000_0000 * 0x8000_0000) by (nonlinear_arith)
                    requires
                        -0x8000_0000 <= x <= 0x7fff_ffff,
                        -0x8000_0000 <= k <= 0x7fff_ffff,
                ;
            }
            x as i64 * k as i64
        },
        ArithOp::Div => 0,
    };
    if v < i32::MIN as i64 || v > i32::MAX as i64 {
        None
    } else {
        Some(v as i32)
    }
}

fn date_exec(op: ArithOp, d: Date, k: i32) -> (r: Option<Date>)
    requires
        op == ArithOp::Div ==> k != 0,
    ensures
        r == date_result(op, d.0 as int, k as int),
{
    match op {
        ArithOp::Add => d.add(k),
        ArithOp::Sub => d.sub(k),
        ArithOp::Mul => d.mul(k),
        ArithOp::Div => d.div(k),
    }
}

/// The column with the reached rows mutated; its marks are consumed.
fn arith_column(c: &Column, op: ArithOp, k: i32, rows: usize) -> (r: Column)
    requires
        c.wf(rows as int),
        c.values is IntVec ==> op != ArithOp::Div,
        c.values is DateVec && op == ArithOp::Div ==> k != 0,
        c.values is IntVec || c.values is DateVec,
    ensures
        r.pos == c.pos,
        r.name == c.name,
        r.datatype == c.datatype,
        r.op_pos is None,
        arith_cells(*c, r.values, op, k as int),
        r.wf(rows as int),
{
    let mask = reach_mask(c, rows);
    let values = match &c.values {
        ColumnType::IntVec(v) => {
            let mut a: Vec<Option<i32>> = Vec::with_capacity(rows);
            let mut i: usize = 0;
            while i < rows
                invariant
                    c.values == ColumnType::IntVec(*v),
                    op != ArithOp::Div,
                    v@.len() == rows,
                    mask@.len() == rows,
                    forall|q: int| 0 <= q < rows ==> #[trigger] mask@[q] == affected(*c, q),
                    i <= rows,
                    a@.len() == i,
                    forall|q: int| 0 <= q < i ==> #[trigger] a@[q] == if affected(*c, q) {
                        match v@[q] {
                            Some(x) => int_result(op, x as int, k as int),
                            None => None,
                        }
                    } else {
                        v@[q]
                    },
                decreases rows - i,
            {
                let cell = if mask[i] {
                    match v[i] {
                        Some(x) => int_exec(op, x, k),
                        None => None,
                    }
                } else {
                    v[i]
                };
                a.push(cell);
                i += 1;
            }
            ColumnType::IntVec(a)
        },
        ColumnType::DateVec(v) => {
            let mut a: Vec<Option<Date>> = Vec::with_capacity(rows);
            let mut i: usize = 0;
            while i < rows
                invariant
                    c.values == ColumnType::DateVec(*v),
                    op == ArithOp::Div ==> k != 0,
                    v@.len() == rows,
                    mask@.len() == rows,
                    forall|q: int| 0 <= q < rows ==> #[trigger] mask@[q] == affected(*c, q),
                    i <= rows,
                    a@.len() == i,
                    forall|q: int| 0 <= q < i ==> #[trigger] a@[q] == if affected(*c, q) {
                        match v@[q] {
                            Some(d) => date_result(op, d.0 as int, k as int),
                            None => None,
                        }
                    } else {
                        v@[q]
                    },
                decreases rows - i,
            {
                let cell = if mask[i] {
                    match v[i] {
                        Some(d) => date_exec(op, d, k),
                        None => None,
                    }
                } else {
                    v[i]
                };
                a.push(cell);
                i += 1;
            }
            ColumnType::DateVec(a)
        },
        _ => ColumnType::Empty,
    };
    Column { pos: c.pos, name: c.name.clone(), datatype: c.datatype, op_pos: None, values }
}

impl Frame {
    /// Whether `r` is this frame after the mutation: each targeted column
    /// to which it applies is mutated on its reached rows and loses its
    /// marks; every other column is left as it was.
    pub open spec fn arith_done(self, op: ArithOp, val: Scalar, r: Frame) -> bool {
        &&& r.wf()
        &&& r.size == self.size
        &&& r.col_indexed == self.col_indexed
        &&& r.data@.len() == self.data@.len()
        &&& forall|j: int| 0 <= j < self.data@.len() ==> {
            let c = self.data@[j];
            let d = #[trigger] r.data@[j];
            if self.col_indexed@.contains(c.pos) && arith_applies(c.values, op, val) {
                &&& d.pos == c.pos
                &&& d.name == c.name
                &&& d.datatype == c.datatype
                &&& d.op_pos is None
                &&& arith_cells(c, d.values, op, spec_to_int(val)->Some_0 as int)
            } else {
                d == c
            }
        }
    }

    /// Applies `op` with `val` to the targeted columns (see `arith_done`).
    pub fn arith(self, op: ArithOp, val: &Scalar) -> (r: Frame)
        requires
            self.wf(),
        ensures
            self.arith_done(op, *val, r),
    {
        let ghost old_self = self;
        let mut fr = self;
        let rows = fr.size.1;
        let k = val.to_int();
        let mut j: usize = 0;
        while j < fr.data.len()
            invariant
                old_self.wf(),
                rows == old_self.size.1,
                k == spec_to_int(*val),
                fr.size == old_self.size,
                fr.col_indexed == old_self.col_indexed,
                fr.data@.len() == old_self.data@.len(),
                j <= fr.data@.len(),
                forall|q: int| j <= q < fr.data@.len() ==> #[trigger] fr.data@[q] == old_self.data@[q],
                forall|q: int| 0 <= q < j ==> {
                    let c = old_self.data@[q];
                    let d = #[trigger] fr.data@[q];
                    &&& d.pos == c.pos
                    &&& d.wf(rows as int)
                    &&& if old_self.col_indexed@.contains(c.pos) && arith_applies(c.values, op, *val) {
                        &&& d.name == c.name
                        &&& d.datatype == c.datatype
                        &&& d.op_pos is None
                        &&& arith_cells(c, d.values, op, spec_to_int(*val)->Some_0 as int)
                    } else {
                        d == c
                    }
                },
            decreases old_self.data@.len() - j,
        {
            let targeted = contains_usize(&fr.col_indexed, fr.data[j].pos);
            proof {
                assert(fr.data@[j as int] == old_self.data@[j as int]);
                assert(old_self.data@[j as int].wf(rows as int));
            }
            if targeted {
                let applies = match (&fr.data[j].values, k) {
                    (ColumnType::IntVec(_), Some(_)) => op != ArithOp::Div,
                    (ColumnType::DateVec(_), Some(kk)) => op != ArithOp::Div || kk != 0,
                    _ => false,
                };
                if applies {
                    let kk = match k {
                        Some(x) => x,
                        None => 0,
                    };
                    let d = arith_column(&fr.data[j], op, kk, rows);
                    fr.data.set(j, d);
                }
            }
            j += 1;
        }
        proof {
            assert forall|a: int, b: int| 0 <= a < b < fr.data@.len() implies #[trigger] fr.data@[a].pos != #[trigger] fr.data@[b].pos by {
                assert(old_self.data@[a].pos != old_self.data@[b].pos);
            }
            assert forall|q: int| 0 <= q < fr.data@.len() implies (#[trigger] fr.data@[q]).wf(fr.size.1 as int) by {
                assert(fr.data@[q].wf(rows as int));
            }
        }
        fr
    }

    /// Adds `val` to the reached cells of the targeted columns.
    pub fn add(self, val: &Scalar) -> (r: Frame)
        requires
            self.wf(),
        ensures
            self.arith_done(ArithOp::Add, *val, r),
    {
        self.arith(ArithOp::Add, val)
    }

    /// Subtracts `val` from the reached cells of the targeted columns.
    pub fn sub(self, val: &Scalar) -> (r: Frame)
        requires
            self.wf(),
        ensures
            self.arith_done(ArithOp::Sub, *val, r),
    {
        self.arith(ArithOp::Sub, val)
    }

    /// Multiplies the reached cells of the targeted columns by `val`.
    pub fn mul(self, val: &Scalar) -> (r: Frame)
        requires
            self.wf(),
        ensures
            self.arith_done(ArithOp::Mul, *val, r),
    {
        self.arith(ArithOp::Mul, val)
    }

    /// Divides the reached date cells of the targeted columns by `val`.
    pub fn div(self, val: &Scalar) -> (r: Frame)
        requires
            self.wf(),
        ensures
            self.arith_done(ArithOp::Div, *val, r),
    {
        self.arith(ArithOp::Div, val)
    }
}

/// The column with the reached rows set to `val`; its marks are consumed.
fn replace_column(c: &Column, val: &Scalar, rows: usize) -> (r: Column)
    requires
        c.wf(rows as int),
        replace_applies(c.values, *val),
    ensures
        r.pos == c.pos,
        r.name == c.name,
        r.datatype == c.datatype,
        r.op_pos is None,
        replaced_cells(*c, r.values, *val),
        r.wf(rows as int),
{
    let mask = reach_mask(c, rows);
    let values = match &c.values {
        ColumnType::StringVec(v) => {
            let t = match val.to_text() {
                Some(t) => t,
                None => Vec::new(),
            };
            let mut a: Vec<Option<String>> = Vec::with_capacity(rows);
            let mut i: usize = 0;
            while i < rows
                invariant
                    c.values == ColumnType::StringVec(*v),
                    spec_to_text(*val) == Some(t@),
                    v@.len() == rows,
                    mask@.len() == rows,
                    forall|q: int| 0 <= q < rows ==> #[trigger] mask@[q] == affected(*c, q),
                    i <= rows,
                    a@.len() == i,
                    forall|q: int| 0 <= q < i ==> if affected(*c, q) {
                        (#[trigger] a@[q]) matches Some(s) && spec_to_text(*val) == Some(s@)
                    } else {
                        a@[q] == v@[q]
                    },
                decreases rows - i,
            {
                let cell = if mask[i] {
                    Some(string_of(&t))
                } else {
                    match &v[i] {
                        Some(s) => Some(s.clone()),
                        None => None,
                    }
                };
                a.push(cell);
                i += 1;
            }
            ColumnType::StringVec(a)
        },
        ColumnType::IntVec(v) => {
            let x = val.to_int();
            let mut a: Vec<Option<i32>> = Vec::with_capacity(rows);
            let mut i: usize = 0;
            while i < rows
                invariant
                    x == spec_to_int(*val),
                    v@.len() == rows,
                    mask@.len() == rows,
                    forall|q: int| 0 <= q < rows ==> #[trigger] mask@[q] == affected(*c, q),
                    i <= rows,
                    a@.len() == i,
                    forall|q: int| 0 <= q < i ==> #[trigger] a@[q] == if affected(*c, q) { x } else { v@[q] },
                decreases rows - i,
            {
                a.push(if mask[i] { x } else { v[i] });
                i += 1;
            }
            ColumnType::IntVec(a)
        },
        ColumnType::BoolVec(v) => {
            let x = val.to_bool();
            let mut a: Vec<Option<bool>> = Vec::with_capacity(rows);
            let mut i: usize = 0;
            while i < rows
                invariant
                    x == spec_to_bool(*val),
                    v@.len() == rows,
                    mask@.len() == rows,
                    forall|q: int| 0 <= q < rows ==> #[trigger] mask@[q] == affected(*c, q),
                    i <= rows,
                    a@.len() == i,
                    forall|q: int| 0 <= q < i ==> #[trigger] a@[q] == if affected(*c, q) { x } else { v@[q] },
                decreases rows - i,
            {
                a.push(if mask[i] { x } else { v[i] });
                i += 1;
            }
            ColumnType::BoolVec(a)
        },
        ColumnType::DateVec(v) => {
            let x = val.to_date();
            let mut a: Vec<Option<Date>> = Vec::with_capacity(rows);
            let mut i: usize = 0;
            while i < rows
                invariant
                    x == spec_to_date_scalar(*val),
                    v@.len() == rows,
                    mask@.len() == rows,
                    forall|q: int| 0 <= q < rows ==> #[trigger] mask@[q] == affected(*c, q),
                    i <= rows,
                    a@.len() == i,
                    forall|q: int| 0 <= q < i ==> #[trigger] a@[q] == if affected(*c, q) { x } else { v@[q] },
                decreases rows - i,
            {
                a.push(if mask[i] { x } else { v[i] });
                i += 1;
            }
            ColumnType::DateVec(a)
        },
        _ => ColumnType::Empty,
    };
    Column { pos: c.pos, name: c.name.clone(), datatype: c.datatype, op_pos: None, values }
}

impl Frame {
    /// Whether `r` is this frame after a replace: each targeted column to
    /// whose type `val` converts has its reached rows set and loses its
    /// marks; every other column is left as it was.
    pub open spec fn replace_done(self, val: Scalar, r: Frame) -> bool {
        &&& r.wf()
        &&& r.size == self.size
        &&& r.col_indexed == self.col_indexed
        &&& r.data@.len() == self.data@.len()
        &&& forall|j: int| 0 <= j < self.data@.len() ==> {
            let c = self.data@[j];
            let d = #[trigger] r.data@[j];
            if self.col_indexed@.contains(c.pos) && replace_applies(c.values, val) {
                &&& d.pos == c.pos
                &&& d.name == c.name
                &&& d.datatype == c.datatype
                &&& d.op_pos is None
                &&& replaced_cells(c, d.values, val)
            } else {
                d == c
            }
        }
    }

    /// Sets the reached cells of the targeted columns to `val`.
    pub fn replace(self, val: &Scalar) -> (r: Frame)
        requires
            self.wf(),
        ensures
            self.replace_done(*val, r),
    {
        let ghost old_self = self;
        let mut fr = self;
        let rows = fr.size.1;
        let mut j: usize = 0;
        while j < fr.data.len()
            invariant
                old_self.wf(),
                rows == old_self.size.1,
                fr.size == old_self.size,
                fr.col_indexed == old_self.col_indexed,
                fr.data@.len() == old_self.data@.len(),
                j <= fr.data@.len(),
                forall|q: int| j <= q < fr.data@.len() ==> #[trigger] fr.data@[q] == old_self.data@[q],
                forall|q: int| 0 <= q < j ==> {
                    let c = old_self.data@[q];
                    let d = #[trigger] fr.data@[q];
                    &&& d.pos == c.pos
                    &&& d.wf(rows as int)
                    &&& if old_self.col_indexed@.contains(c.pos) && replace_applies(c.values, *val) {
                        &&& d.name == c.name
                        &&& d.datatype == c.datatype
                        &&& d.op_pos is None
                        &&& replaced_cells(c, d.values, *val)
                    } else {
                        d == c
                    }
                },
            decreases old_self.data@.len() - j,
        {
            let targeted = contains_usize(&fr.col_indexed, fr.data[j].pos);
            proof {
                assert(fr.data@[j as int] == old_self.data@[j as int]);
                assert(old_self.data@[j as int].wf(rows as int));
            }
            if targeted {
                let applies = match &fr.data[j].values {
                    ColumnType::StringVec(_) => val.to_text().is_some(),
                    ColumnType::IntVec(_) => val.to_int().is_some(),
                    ColumnType::BoolVec(_) => val.to_bool().is_some(),
                    ColumnType::DateVec(_) => val.to_date().is_some(),
                    _ => false,
                };
                if applies {
                    let d = replace_column(&fr.data[j], val, rows);
                    fr.data.set(j, d);
                }
            }
            j += 1;
        }
        proof {
            assert forall|a: int, b: int| 0 <= a < b < fr.data@.len() implies #[trigger] fr.data@[a].pos != #[trigger] fr.data@[b].pos by {
                assert(old_self.data@[a].pos != old_self.data@[b].pos);
            }
            assert forall|q: int| 0 <= q < fr.data@.len() implies (#[trigger] fr.data@[q]).wf(fr.size.1 as int) by {
                assert(fr.data@[q].wf(rows as int));
            }
        }
        fr
    }
}

impl Frame {
    /// For each column, whether it is targeted but the mutation does not
    /// apply to it: the columns that `arith` skips and reports.
    pub fn arith_skips(&self, op: ArithOp, val: &Scalar) -> (r: Vec<bool>)
        ensures
            r@.len() == self.data@.len(),
            forall|j: int| 0 <= j < r@.len() ==> #[trigger] r@[j] == (self.col_indexed@.contains(self.data@[j].pos)
                && !arith_applies(self.data@[j].values, op, *val)),
    {
        let k = val.to_int();
        let mut r: Vec<bool> = Vec::with_capacity(self.data.len());
        let mut j: usize = 0;
        while j < self.data.len()
            invariant
                k == spec_to_int(*val),
                j <= self.data@.len(),
                r@.len() == j,
                forall|q: int| 0 <= q < j ==> #[trigger] r@[q] == (self.col_indexed@.contains(self.data@[q].pos)
                    && !arith_applies(self.data@[q].values, op, *val)),
            decreases self.data.len() - j,
        {
            let targeted = contains_usize(&self.col_indexed, self.data[j].pos);
            let applies = match (&self.data[j].values, k) {
                (ColumnType::IntVec(_), Some(_)) => op != ArithOp::Div,
                (ColumnType::DateVec(_), Some(kk)) => op != ArithOp::Div || kk != 0,
                _ => false,
            };
            r.push(targeted && !applies);
            j += 1;
        }
        r
    }
}

/// Whether `x` occurs in `v`.
pub fn contains_usize(v: &Vec<usize>, x: usize) -> (r: bool)
    ensures
        r == v@.contains(x),
{
    let mut i: usize = 0;
    while i < v.len()
        invariant
            i <= v@.len(),
            forall|q: int| 0 <= q < i ==> v@[q] != x,
        decreases v.len() - i,
    {
        if v[i] == x {
            proof {
                assert(v@[i as int] == x);
            }
            return true;
        }
        i += 1;
    }
    false
}

} // verus!

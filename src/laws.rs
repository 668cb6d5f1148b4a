//! Properties that relate several operations of the frame.
use vstd::prelude::*;
use crate::column::{ColumnType, picked, every, null_at, count_nulls, count_present, all_below, lemma_pick_all, fills};
use crate::frame::{Frame, ColIndex, CmpOp, ArithOp, row_matches, supports, exact_rows, strictly_increasing, col_names, affected, arith_applies};
use crate::number::fits_i32;
use crate::scalar::{Scalar, spec_to_int};

verus! {

/// A list that ascends strictly, stays below `n` and holds every index
/// below `n` is the list `0..n`.
pub proof fn lemma_all_rows(p: Seq<usize>, n: int)
    requires
        0 <= n <= usize::MAX,
        strictly_increasing(p),
        all_below(p, n),
        forall|i: int| 0 <= i < n ==> #[trigger] p.contains(i as usize),
    ensures
        p == every(n as nat),
{
    assert forall|k: int| 0 <= k < p.len() implies #[trigger] p[k] == k by {
        lemma_rows_identity(p, n, k);
    }
    if n > 0 {
        assert(p.contains((n - 1) as usize));
        let m = choose|m: int| 0 <= m < p.len() && p[m] == (n - 1) as usize;
        lemma_rows_identity(p, n, m);
    }
    if p.len() > n {
        lemma_rows_identity(p, n, n);
    }
    assert(p =~= every(n as nat));
}

proof fn lemma_rows_identity(p: Seq<usize>, n: int, k: int)
    requires
        0 <= n <= usize::MAX,
        strictly_increasing(p),
        all_below(p, n),
        forall|i: int| 0 <= i < n ==> #[trigger] p.contains(i as usize),
        0 <= k < p.len(),
    ensures
        p[k] == k,
    decreases k,
{
    if k > 0 {
        lemma_rows_identity(p, n, k - 1);
        assert(p[k - 1] < p[k]);
    }
    if p[k] > k {
        assert(p[k] < n);
        assert(p.contains(k as usize));
        let m = choose|m: int| 0 <= m < p.len() && p[m] == k as usize;
        if m < k {
            lemma_rows_identity(p, n, m);
        } else if m > k {
            assert(p[k] < p[m]);
        }
    } else if p[k] < k {
        if k > 0 {
            assert(p[k - 1] < p[k]);
        }
    }
}

/// Whether two columns of cells are of one kind and hold the same cells.
pub open spec fn same_cells(a: ColumnType, b: ColumnType) -> bool {
    match (a, b) {
        (ColumnType::StringVec(x), ColumnType::StringVec(y)) => x@ == y@,
        (ColumnType::IntVec(x), ColumnType::IntVec(y)) => x@ == y@,
        (ColumnType::FloatVec(x), ColumnType::FloatVec(y)) => x@ == y@,
        (ColumnType::BoolVec(x), ColumnType::BoolVec(y)) => x@ == y@,
        (ColumnType::DateVec(x), ColumnType::DateVec(y)) => x@ == y@,
        (ColumnType::Empty, ColumnType::Empty) => true,
        _ => false,
    }
}

proof fn lemma_picked_all(new: ColumnType, old: ColumnType, n: int)
    requires
        0 <= n <= usize::MAX,
        fills(old, n),
        picked(new, old, every(n as nat)),
    ensures
        same_cells(new, old),
{
    match (new, old) {
        (ColumnType::StringVec(x), ColumnType::StringVec(y)) => lemma_pick_all(y@),
        (ColumnType::IntVec(x), ColumnType::IntVec(y)) => lemma_pick_all(y@),
        (ColumnType::FloatVec(x), ColumnType::FloatVec(y)) => lemma_pick_all(y@),
        (ColumnType::BoolVec(x), ColumnType::BoolVec(y)) => lemma_pick_all(y@),
        (ColumnType::DateVec(x), ColumnType::DateVec(y)) => lemma_pick_all(y@),
        _ => {},
    }
}

/// Choosing every row from the first on gives back the frame: the same
/// shape, and each column with the same name, position, type and cells.
pub proof fn law_full_range_round_trip(f: Frame, r: Frame)
    requires
        f.wf(),
        exists|rows: Seq<usize>| ColIndex::From(0).resolves_to(Seq::empty(), f.size.1 as int, rows)
            && #[trigger] f.projects_to(rows, every(f.size.0 as nat), r),
    ensures
        r.size == f.size,
        forall|j: int| 0 <= j < f.size.0 ==> {
            let c = #[trigger] r.data@[j];
            let o = f.data@[j];
            &&& c.name@ == o.name@
            &&& c.pos == o.pos
            &&& c.datatype == o.datatype
            &&& same_cells(c.values, o.values)
        },
{
    let rows = choose|rows: Seq<usize>| ColIndex::From(0).resolves_to(Seq::empty(), f.size.1 as int, rows)
        && #[trigger] f.projects_to(rows, every(f.size.0 as nat), r);
    assert forall|i: int| 0 <= i < f.size.1 implies #[trigger] rows.contains(i as usize) by {
        assert(ColIndex::From(0).selects(Seq::empty(), i));
    }
    lemma_all_rows(rows, f.size.1 as int);
    assert forall|j: int| 0 <= j < f.size.0 implies same_cells((#[trigger] r.data@[j]).values, f.data@[j].values) by {
        assert(every(f.size.0 as nat)[j] == j);
        assert(f.data@[j].wf(f.size.1 as int));
        lemma_picked_all(r.data@[j].values, f.data@[j].values, f.size.1 as int);
    }
}

/// On integer and date cells, `lt(t)` and `mte(t)` split the present rows:
/// no row is marked by both, and a row is marked by one exactly when its
/// cell is present.
pub proof fn law_lt_mte_partition(f: Frame, val: Scalar, a: Frame, b: Frame)
    requires
        f.wf(),
        f.data@.len() > 0,
        f.data@[0].values is IntVec || f.data@[0].values is DateVec,
        f.compared(CmpOp::Lt, val, Ok(a)),
        f.compared(CmpOp::Mte, val, Ok(b)),
    ensures
        a.data@[0].op_pos matches Some(p) && b.data@[0].op_pos matches Some(q) && forall|i: int|
            0 <= i < f.size.1 ==> {
                &&& !(p@.contains(i as usize) && q@.contains(i as usize))
                &&& (p@.contains(i as usize) || q@.contains(i as usize)) <==> !null_at(f.data@[0].values, i)
            },
{
    let v = f.data@[0].values;
    assert(supports(v, CmpOp::Lt) && supports(v, CmpOp::Mte));
    let p = a.data@[0].op_pos->Some_0;
    let q = b.data@[0].op_pos->Some_0;
    assert(exact_rows(p@, f.size.1 as int, |i: int| row_matches(v, CmpOp::Lt, val, i)));
    assert(exact_rows(q@, f.size.1 as int, |i: int| row_matches(v, CmpOp::Mte, val, i)));
    assert forall|i: int| 0 <= i < f.size.1 implies {
        &&& !(p@.contains(i as usize) && q@.contains(i as usize))
        &&& (p@.contains(i as usize) || q@.contains(i as usize)) <==> !null_at(v, i)
    } by {
        if p@.contains(i as usize) {
            let k = choose|k: int| 0 <= k < p@.len() && p@[k] == i as usize;
            assert(row_matches(v, CmpOp::Lt, val, p@[k] as int));
        }
        if q@.contains(i as usize) {
            let k = choose|k: int| 0 <= k < q@.len() && q@[k] == i as usize;
            assert(row_matches(v, CmpOp::Mte, val, q@[k] as int));
        }
        if !null_at(v, i) {
            if row_matches(v, CmpOp::Lt, val, i) {
                assert((|i: int| row_matches(v, CmpOp::Lt, val, i))(i));
            } else {
                assert((|i: int| row_matches(v, CmpOp::Mte, val, i))(i));
            }
        }
    }
}

/// The missing and the present cells of a column together make up its rows.
pub proof fn law_null_accounting(v: ColumnType, n: int)
    requires
        n >= 0,
    ensures
        count_nulls(v, n) + count_present(v, n) == n,
    decreases n,
{
    if n > 0 {
        law_null_accounting(v, n - 1);
    }
}

/// Adding `k` to an integer column that no mark narrows, and then
/// subtracting `k`, gives back its cells, when no sum leaves `i32`.
pub proof fn law_add_sub_inverse(f: Frame, val: Scalar, a: Frame, b: Frame, j: int)
    requires
        f.wf(),
        0 <= j < f.data@.len(),
        f.arith_done(ArithOp::Add, val, a),
        a.arith_done(ArithOp::Sub, val, b),
        f.data@[j].values is IntVec,
        f.data@[j].op_pos is None,
        spec_to_int(val) is Some,
        forall|i: int| 0 <= i < f.size.1 ==> ((#[trigger] f.data@[j].values->IntVec_0@[i]) matches Some(x)
            ==> fits_i32(x + spec_to_int(val)->Some_0)),
    ensures
        same_cells(b.data@[j].values, f.data@[j].values),
{
    let c = f.data@[j];
    let c1 = a.data@[j];
    let c2 = b.data@[j];
    let k = spec_to_int(val)->Some_0 as int;
    assert(c.wf(f.size.1 as int));
    if f.col_indexed@.contains(c.pos) {
        assert(arith_applies(c.values, ArithOp::Add, val));
        assert(c1.pos == c.pos);
        assert(arith_applies(c1.values, ArithOp::Sub, val));
        let x0 = c.values->IntVec_0@;
        let x1 = c1.values->IntVec_0@;
        let x2 = c2.values->IntVec_0@;
        assert forall|i: int| 0 <= i < x0.len() implies x2[i] == x0[i] by {
            assert(affected(c, i));
            assert(affected(c1, i));
            assert(x1[i] == match x0[i] { Some(x) => crate::frame::int_result(ArithOp::Add, x as int, k), None => None });
            assert(x2[i] == match x1[i] { Some(x) => crate::frame::int_result(ArithOp::Sub, x as int, k), None => None });
        }
        assert(x2 =~= x0);
    } else {
        assert(c1 == c);
        assert(a.col_indexed == f.col_indexed);
    }
}

/// A name chooses at most one column: the first that bears it.
proof fn lemma_name_unique(n: String, names: Seq<Seq<char>>, bound: int, cols: Seq<usize>)
    requires
        ColIndex::Name(n).resolves_to(names, bound, cols),
    ensures
        cols.len() <= 1,
        cols.len() == 1 ==> names[cols[0] as int] == n@ && forall|q: int| 0 <= q < cols[0] ==> names[q] != n@,
{
    if cols.len() > 1 {
        assert(ColIndex::Name(n).selects(names, cols[0] as int));
        assert(ColIndex::Name(n).selects(names, cols[1] as int));
        assert(cols[0] < cols[1]);
    }
    if cols.len() == 1 {
        assert(ColIndex::Name(n).selects(names, cols[0] as int));
    }
}

/// The cells that a row of picked cells holds are those of the row it was picked from.
proof fn lemma_row_matches_picked(new: ColumnType, old: ColumnType, idx: Seq<usize>, op: CmpOp, val: Scalar, i: int)
    requires
        picked(new, old, idx),
        0 <= i < idx.len(),
    ensures
        row_matches(new, op, val, i) == row_matches(old, op, val, idx[i] as int),
        supports(new, op) == supports(old, op),
{
}

/// Locating the rows where a named column equals `v`, and then doing so
/// again on the result, keeps every row of the first result.
pub proof fn law_locate_idempotent(
    f: Frame,
    name: String,
    val: Scalar,
    c1: Frame,
    k1: Frame,
    r1: Frame,
    c2: Frame,
    k2: Frame,
    r2: Frame,
)
    requires
        f.wf(),
        f.selected(ColIndex::Name(name), Ok(c1)),
        c1.compared(CmpOp::Eq, val, Ok(k1)),
        f.located(k1, Ok(r1)),
        r1.selected(ColIndex::Name(name), Ok(c2)),
        c2.compared(CmpOp::Eq, val, Ok(k2)),
        r1.located(k2, Ok(r2)),
    ensures
        r2.size.1 == r1.size.1,
{
    let sel = ColIndex::Name(name);
    let rows = f.size.1 as int;
    // the first selection: the one column `j` named `name`
    let cols1 = choose|cols: Seq<usize>| #[trigger] sel.resolves_to(col_names(f.data@), f.size.0 as int, cols)
        && f.selected_as(cols, Ok(c1));
    lemma_name_unique(name, col_names(f.data@), f.size.0 as int, cols1);
    assert(cols1.len() == 1);
    let j = cols1[0] as int;
    let d1 = c1.data@[0];
    assert(d1.pos == f.data@[j].pos);
    assert(picked(d1.values, f.data@[j].values, every(rows as nat)));
    assert(f.data@[j].wf(rows));
    // the first mask: rows of column `j` equal to `val`
    assert(supports(d1.values, CmpOp::Eq));
    let p1 = k1.data@[0].op_pos->Some_0@;
    assert(exact_rows(p1, rows, |i: int| row_matches(d1.values, CmpOp::Eq, val, i)));
    assert(k1.col_indexed@ == seq![d1.pos]);
    assert(k1.col_indexed@.len() > 0);
    assert(all_below(p1, rows));
    assert(f.projects_to(p1, every(f.size.0 as nat), r1));
    let m = p1.len() as int;
    assert(r1.size.1 == m);
    // the second selection finds the same column
    assert(col_names(r1.data@) =~= col_names(f.data@)) by {
        assert forall|q: int| 0 <= q < r1.data@.len() implies #[trigger] col_names(r1.data@)[q] == col_names(f.data@)[q] by {
            assert(every(f.size.0 as nat)[q] == q);
        }
    }
    let cols2 = choose|cols: Seq<usize>| #[trigger] sel.resolves_to(col_names(r1.data@), r1.size.0 as int, cols)
        && r1.selected_as(cols, Ok(c2));
    lemma_name_unique(name, col_names(r1.data@), r1.size.0 as int, cols2);
    assert(cols2.len() == 1);
    let j2 = cols2[0] as int;
    assert(j2 == j) by {
        if j2 < j {
            assert(col_names(f.data@)[j2] != name@);
        }
        if j < j2 {
            assert(col_names(r1.data@)[j] != name@);
        }
    }
    let d2 = c2.data@[0];
    assert(every(f.size.0 as nat)[j] == j);
    assert(picked(r1.data@[j].values, f.data@[j].values, p1));
    assert(picked(d2.values, r1.data@[j].values, every(m as nat)));
    // every row of the first result matches again
    let p2 = k2.data@[0].op_pos->Some_0@;
    assert(exact_rows(p2, m, |i: int| row_matches(d2.values, CmpOp::Eq, val, i)));
    assert forall|i: int| 0 <= i < m implies #[trigger] p2.contains(i as usize) by {
        assert(every(m as nat)[i] == i);
        lemma_row_matches_picked(d2.values, r1.data@[j].values, every(m as nat), CmpOp::Eq, val, i);
        lemma_row_matches_picked(r1.data@[j].values, f.data@[j].values, p1, CmpOp::Eq, val, i);
        assert(p1[i] < rows);
        assert(every(rows as nat)[p1[i] as int] == p1[i]);
        lemma_row_matches_picked(d1.values, f.data@[j].values, every(rows as nat), CmpOp::Eq, val, p1[i] as int);
        assert(row_matches(d1.values, CmpOp::Eq, val, p1[i] as int));
        assert((|i: int| row_matches(d2.values, CmpOp::Eq, val, i))(i));
    }
    lemma_all_rows(p2, m);
    assert(k2.col_indexed@.len() > 0);
    assert(r1.projects_to(p2, every(r1.size.0 as nat), r2));
}

} // verus!

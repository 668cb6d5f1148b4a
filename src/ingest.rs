//! Reading delimited text into a frame: a header line of names, then one
//! line per row, fields split at commas. Each column's type is that of its
//! first informative token; every token is then read under that type.
use vstd::prelude::*;
use crate::column::{Column, ColumnType, tag_of};
use crate::date::{Date, dmy_days, parse_dmy};
use crate::frame::Frame;
use crate::infer::{DataType, classify, spec_is_na, is_na, classify_token};
use crate::number::{spec_parse_i32, parse_i32};
use crate::text::{chars_of, string_of};

verus! {

/// The fields of a line, split at each comma.
pub open spec fn split_commas(s: Seq<char>) -> Seq<Seq<char>>
    decreases s.len(),
{
    if s.len() == 0 {
        seq![Seq::empty()]
    } else {
        let p = split_commas(s.drop_last());
        if s.last() == ',' {
            p.push(Seq::empty())
        } else {
            p.update(p.len() - 1, p.last().push(s.last()))
        }
    }
}

proof fn lemma_split_nonempty(s: Seq<char>)
    ensures
        split_commas(s).len() >= 1,
    decreases s.len(),
{
    if s.len() > 0 {
        lemma_split_nonempty(s.drop_last());
    }
}

/// The fields of a line, split at each comma.
pub fn split_line(line: &str) -> (r: Vec<String>)
    ensures
        r@.len() == split_commas(line@).len(),
        forall|k: int| 0 <= k < r@.len() ==> (#[trigger] r@[k])@ == split_commas(line@)[k],
{
    let cs = chars_of(line);
    let mut fields: Vec<String> = Vec::new();
    let mut cur: Vec<char> = Vec::new();
    let mut i: usize = 0;
    while i < cs.len()
        invariant
            cs@ == line@,
            i <= cs@.len(),
            fields@.len() + 1 == split_commas(cs@.take(i as int)).len(),
            forall|k: int| 0 <= k < fields@.len() ==> (#[trigger] fields@[k])@ == split_commas(cs@.take(i as int))[k],
            cur@ == split_commas(cs@.take(i as int)).last(),
        decreases cs.len() - i,
    {
        let c = cs[i];
        proof {
            assert(cs@.take(i + 1).drop_last() =~= cs@.take(i as int));
            assert(cs@.take(i + 1).last() == c);
            lemma_split_nonempty(cs@.take(i as int));
        }
        if c == ',' {
            fields.push(string_of(&cur));
            cur = Vec::new();
        } else {
            cur.push(c);
        }
        i += 1;
    }
    fields.push(string_of(&cur));
    proof {
        assert(cs@.take(i as int) =~= cs@);
        lemma_split_nonempty(cs@);
    }
    fields
}

pub open spec fn is_space(c: char) -> bool {
    c == ' ' || c == '\t' || c == '\r' || c == '\n'
}

/// The text with its double quotes taken out.
pub open spec fn unquote(s: Seq<char>) -> Seq<char>
    decreases s.len(),
{
    if s.len() == 0 {
        s
    } else if s.last() == '"' {
        unquote(s.drop_last())
    } else {
        unquote(s.drop_last()).push(s.last())
    }
}

pub open spec fn trim_start(s: Seq<char>) -> Seq<char>
    decreases s.len(),
{
    if s.len() > 0 && is_space(s[0]) {
        trim_start(s.skip(1))
    } else {
        s
    }
}

pub open spec fn trim_end(s: Seq<char>) -> Seq<char>
    decreases s.len(),
{
    if s.len() > 0 && is_space(s.last()) {
        trim_end(s.drop_last())
    } else {
        s
    }
}

/// A column name as the header gives it: quotes out, spaces trimmed.
pub open spec fn clean_name(s: Seq<char>) -> Seq<char> {
    trim_end(trim_start(unquote(s)))
}

/// The column name that a header field gives.
pub fn name_of(field: &str) -> (r: String)
    ensures
        r@ == clean_name(field@),
{
    let cs = chars_of(field);
    let mut u: Vec<char> = Vec::new();
    let mut i: usize = 0;
    while i < cs.len()
        invariant
            cs@ == field@,
            i <= cs@.len(),
            u@ == unquote(cs@.take(i as int)),
        decreases cs.len() - i,
    {
        proof {
            assert(cs@.take(i + 1).drop_last() =~= cs@.take(i as int));
        }
        if cs[i] != '"' {
            u.push(cs[i]);
        }
        i += 1;
    }
    proof {
        assert(cs@.take(i as int) =~= cs@);
    }
    let ghost un = u@;
    let mut a: usize = 0;
    proof {
        assert(un.skip(0) =~= un);
    }
    while a < u.len() && (u[a] == ' ' || u[a] == '\t' || u[a] == '\r' || u[a] == '\n')
        invariant
            un == u@,
            a <= u@.len(),
            trim_start(un) == trim_start(un.skip(a as int)),
        decreases u.len() - a,
    {
        proof {
            assert(un.skip(a as int).skip(1) =~= un.skip(a + 1));
        }
        a += 1;
    }
    let mut b: usize = u.len();
    proof {
        assert(trim_start(un.skip(a as int)) == un.skip(a as int));
        assert(un.skip(a as int).take((b - a) as int) =~= un.skip(a as int));
    }
    while b > a && (u[b - 1] == ' ' || u[b - 1] == '\t' || u[b - 1] == '\r' || u[b - 1] == '\n')
        invariant
            un == u@,
            a <= b <= u@.len(),
            trim_start(un) == un.skip(a as int),
            trim_end(un.skip(a as int)) == trim_end(un.subrange(a as int, b as int)),
        decreases b - a,
    {
        proof {
            assert(un.subrange(a as int, b as int).drop_last() =~= un.subrange(a as int, b - 1));
        }
        b -= 1;
    }
    proof {
        assert(trim_end(un.subrange(a as int, b as int)) == un.subrange(a as int, b as int));
    }
    let mut out: Vec<char> = Vec::new();
    let mut k: usize = a;
    while k < b
        invariant
            un == u@,
            a <= k <= b <= u@.len(),
            out@ == un.subrange(a as int, k as int),
        decreases b - k,
    {
        out.push(u[k]);
        k += 1;
        proof {
            assert(out@ =~= un.subrange(a as int, k as int));
        }
    }
    string_of(&out)
}

/// The token in row `i`, field `j` (data lines follow the header), or
/// `None` when that row has fewer fields.
pub open spec fn raw(lines: Seq<Seq<char>>, i: int, j: int) -> Option<Seq<char>> {
    let f = split_commas(lines[i + 1]);
    if 0 <= j < f.len() { Some(f[j]) } else { None }
}

/// Whether row `i` holds a present, non-missing token in field `j`.
pub open spec fn informative(lines: Seq<Seq<char>>, i: int, j: int) -> bool {
    raw(lines, i, j) matches Some(t) && !spec_is_na(t)
}

/// The type of field `j` from row `i` on: that of its first informative token.
pub open spec fn scan_type(lines: Seq<Seq<char>>, j: int, i: int) -> DataType
    decreases lines.len() - 1 - i,
{
    if i >= lines.len() - 1 || i < 0 {
        DataType::Unknown
    } else if informative(lines, i, j) {
        classify(raw(lines, i, j)->Some_0)
    } else {
        scan_type(lines, j, i + 1)
    }
}

/// Whether `v` holds field `j` of every row, read under type `dt`: missing
/// and absent tokens, and tokens that do not read under `dt`, are missing cells.
pub open spec fn read_as(lines: Seq<Seq<char>>, j: int, dt: DataType, v: ColumnType) -> bool {
    let n = lines.len() - 1;
    match v {
        ColumnType::IntVec(c) => dt == DataType::Int && c@.len() == n && forall|i: int| 0 <= i < n ==>
            #[trigger] c@[i] == match raw(lines, i, j) {
                Some(t) => if spec_is_na(t) { None } else { spec_parse_i32(t) },
                None => None,
            },
        ColumnType::DateVec(c) => dt == DataType::NaiveDate && c@.len() == n && forall|i: int| 0 <= i < n ==>
            #[trigger] c@[i] == match raw(lines, i, j) {
                Some(t) => if spec_is_na(t) {
                    None
                } else {
                    match dmy_days(t) {
                        Some(d) => Some(Date(d as i32)),
                        None => None,
                    }
                },
                None => None,
            },
        ColumnType::StringVec(c) => dt == DataType::String && c@.len() == n && forall|i: int| 0 <= i < n ==>
            match #[trigger] c@[i] {
                Some(s) => raw(lines, i, j) == Some(s@) && !spec_is_na(s@),
                None => !informative(lines, i, j),
            },
        ColumnType::FloatVec(c) => dt == DataType::Float && c@.len() == n && forall|i: int| 0 <= i < n ==>
            match #[trigger] c@[i] {
                Some(s) => raw(lines, i, j) == Some(s@) && !spec_is_na(s@),
                None => !informative(lines, i, j),
            },
        ColumnType::Empty => dt == DataType::Unknown,
        ColumnType::BoolVec(_) => false,
    }
}

/// The type of field `j`.
fn infer_type(rows: &Vec<Vec<String>>, j: usize, ghost_lines: Ghost<Seq<Seq<char>>>) -> (r: DataType)
    requires
        rows@.len() + 1 == ghost_lines@.len(),
        forall|i: int| 0 <= i < rows@.len() ==> {
            &&& (#[trigger] rows@[i])@.len() == split_commas(ghost_lines@[i + 1]).len()
            &&& forall|k: int| 0 <= k < rows@[i]@.len() ==> (#[trigger] rows@[i]@[k])@ == split_commas(ghost_lines@[i + 1])[k]
        },
    ensures
        r == scan_type(ghost_lines@, j as int, 0),
{
    let ghost lines = ghost_lines@;
    let mut i: usize = 0;
    while i < rows.len()
        invariant
            lines == ghost_lines@,
            rows@.len() + 1 == lines.len(),
            forall|i: int| 0 <= i < rows@.len() ==> {
                &&& (#[trigger] rows@[i])@.len() == split_commas(lines[i + 1]).len()
                &&& forall|k: int| 0 <= k < rows@[i]@.len() ==> (#[trigger] rows@[i]@[k])@ == split_commas(lines[i + 1])[k]
            },
            i <= rows@.len(),
            scan_type(lines, j as int, 0) == scan_type(lines, j as int, i as int),
        decreases rows.len() - i,
    {
        let row = &rows[i];
        proof {
            assert(rows@[i as int]@.len() == split_commas(lines[i + 1]).len());
        }
        if j < row.len() && !is_na(row[j].as_str()) {
            proof {
                assert(row@[j as int]@ == split_commas(lines[i + 1])[j as int]);
                assert(informative(lines, i as int, j as int));
            }
            return classify_token(row[j].as_str());
        }
        proof {
            if j < row@.len() {
                assert(row@[j as int]@ == split_commas(lines[i + 1])[j as int]);
            }
            assert(!informative(lines, i as int, j as int));
        }
        i += 1;
    }
    DataType::Unknown
}

/// Field `j` of every row, read under type `dt`.
fn read_column(rows: &Vec<Vec<String>>, j: usize, dt: DataType, ghost_lines: Ghost<Seq<Seq<char>>>) -> (r: ColumnType)
    requires
        rows@.len() + 1 == ghost_lines@.len(),
        forall|i: int| 0 <= i < rows@.len() ==> {
            &&& (#[trigger] rows@[i])@.len() == split_commas(ghost_lines@[i + 1]).len()
            &&& forall|k: int| 0 <= k < rows@[i]@.len() ==> (#[trigger] rows@[i]@[k])@ == split_commas(ghost_lines@[i + 1])[k]
        },
        dt != DataType::Bool,
    ensures
        read_as(ghost_lines@, j as int, dt, r),
        tag_of(r) == dt,
{
    let ghost lines = ghost_lines@;
    let n = rows.len();
    match dt {
        DataType::Int => {
            let mut c: Vec<Option<i32>> = Vec::with_capacity(n);
            let mut i: usize = 0;
            while i < n
                invariant
                    lines == ghost_lines@,
                    n == rows@.len(),
                    rows@.len() + 1 == lines.len(),
                    forall|i: int| 0 <= i < rows@.len() ==> {
                        &&& (#[trigger] rows@[i])@.len() == split_commas(lines[i + 1]).len()
                        &&& forall|k: int| 0 <= k < rows@[i]@.len() ==> (#[trigger] rows@[i]@[k])@ == split_commas(lines[i + 1])[k]
                    },
                    i <= n,
                    c@.len() == i,
                    forall|q: int| 0 <= q < i ==> #[trigger] c@[q] == match raw(lines, q, j as int) {
                        Some(t) => if spec_is_na(t) { None } else { spec_parse_i32(t) },
                        None => None,
                    },
                decreases n - i,
            {
                let row = &rows[i];
                proof {
                    assert(rows@[i as int]@.len() == split_commas(lines[i + 1]).len());
                }
                let cell = if j < row.len() {
                    proof {
                        assert(row@[j as int]@ == split_commas(lines[i + 1])[j as int]);
                    }
                    let t = row[j].as_str();
                    if is_na(t) { None } else { parse_i32(&chars_of(t)) }
                } else {
                    None
                };
                c.push(cell);
                i += 1;
            }
            ColumnType::IntVec(c)
        },
        DataType::NaiveDate => {
            let mut c: Vec<Option<Date>> = Vec::with_capacity(n);
            let mut i: usize = 0;
            while i < n
                invariant
                    lines == ghost_lines@,
                    n == rows@.len(),
                    rows@.len() + 1 == lines.len(),
                    forall|i: int| 0 <= i < rows@.len() ==> {
                        &&& (#[trigger] rows@[i])@.len() == split_commas(lines[i + 1]).len()
                        &&& forall|k: int| 0 <= k < rows@[i]@.len() ==> (#[trigger] rows@[i]@[k])@ == split_commas(lines[i + 1])[k]
                    },
                    i <= n,
                    c@.len() == i,
                    forall|q: int| 0 <= q < i ==> #[trigger] c@[q] == match raw(lines, q, j as int) {
                        Some(t) => if spec_is_na(t) {
                            None
                        } else {
                            match dmy_days(t) {
                                Some(d) => Some(Date(d as i32)),
                                None => None,
                            }
                        },
                        None => None,
                    },
                decreases n - i,
            {
                let row = &rows[i];
                proof {
                    assert(rows@[i as int]@.len() == split_commas(lines[i + 1]).len());
                }
                let cell = if j < row.len() {
                    proof {
                        assert(row@[j as int]@ == split_commas(lines[i + 1])[j as int]);
                    }
                    let t = row[j].as_str();
                    if is_na(t) {
                        None
                    } else {
                        match parse_dmy(t) {
                            Some(d) => Some(Date(d)),
                            None => None,
                        }
                    }
                } else {
                    None
                };
                c.push(cell);
                i += 1;
            }
            ColumnType::DateVec(c)
        },
        DataType::String | DataType::Float => {
            let mut c: Vec<Option<String>> = Vec::with_capacity(n);
            let mut i: usize = 0;
            while i < n
                invariant
                    lines == ghost_lines@,
                    n == rows@.len(),
                    rows@.len() + 1 == lines.len(),
                    forall|i: int| 0 <= i < rows@.len() ==> {
                        &&& (#[trigger] rows@[i])@.len() == split_commas(lines[i + 1]).len()
                        &&& forall|k: int| 0 <= k < rows@[i]@.len() ==> (#[trigger] rows@[i]@[k])@ == split_commas(lines[i + 1])[k]
                    },
                    i <= n,
                    c@.len() == i,
                    forall|q: int| 0 <= q < i ==> match #[trigger] c@[q] {
                        Some(s) => raw(lines, q, j as int) == Some(s@) && !spec_is_na(s@),
                        None => !informative(lines, q, j as int),
                    },
                decreases n - i,
            {
                let row = &rows[i];
                proof {
                    assert(rows@[i as int]@.len() == split_commas(lines[i + 1]).len());
                }
                let cell = if j < row.len() {
                    proof {
                        assert(row@[j as int]@ == split_commas(lines[i + 1])[j as int]);
                    }
                    if is_na(row[j].as_str()) { None } else { Some(row[j].clone()) }
                } else {
                    None
                };
                c.push(cell);
                i += 1;
            }
            if dt == DataType::String {
                ColumnType::StringVec(c)
            } else {
                ColumnType::FloatVec(c)
            }
        },
        _ => ColumnType::Empty,
    }
}

/// Reads a frame from its lines: the first names the columns, each other is
/// a row. Column `j` is named by header field `j`, keeps position `j`, has
/// the type of its first informative token (or none), and holds field `j`
/// of every row read under that type. No lines give the empty frame.
pub fn from_lines(lines: &Vec<String>) -> (r: Frame)
    ensures
        r.wf(),
        r.col_indexed@.len() == 0,
        lines@.len() == 0 ==> r.size == (0usize, 0usize),
        lines@.len() > 0 ==> ({
            let ls = lines@.map_values(|l: String| l@);
            let header = split_commas(ls[0]);
            &&& r.size == (header.len() as usize, (ls.len() - 1) as usize)
            &&& forall|j: int| 0 <= j < header.len() ==> {
                let c = #[trigger] r.data@[j];
                &&& c.pos == j
                &&& c.name@ == clean_name(header[j])
                &&& c.datatype == scan_type(ls, j, 0)
                &&& c.op_pos is None
                &&& read_as(ls, j, c.datatype, c.values)
            }
        }),
{
    if lines.len() == 0 {
        return Frame::empty();
    }
    let ghost ls = lines@.map_values(|l: String| l@);
    let header = split_line(lines[0].as_str());
    let mut rows: Vec<Vec<String>> = Vec::with_capacity(lines.len() - 1);
    let mut i: usize = 1;
    while i < lines.len()
        invariant
            ls == lines@.map_values(|l: String| l@),
            1 <= i <= lines@.len(),
            rows@.len() + 1 == i,
            forall|q: int| 0 <= q < rows@.len() ==> {
                &&& (#[trigger] rows@[q])@.len() == split_commas(ls[q + 1]).len()
                &&& forall|k: int| 0 <= k < rows@[q]@.len() ==> (#[trigger] rows@[q]@[k])@ == split_commas(ls[q + 1])[k]
            },
        decreases lines.len() - i,
    {
        let f = split_line(lines[i].as_str());
        rows.push(f);
        i += 1;
    }
    let nrows = rows.len();
    let mut data: Vec<Column> = Vec::with_capacity(header.len());
    let mut j: usize = 0;
    while j < header.len()
        invariant
            ls == lines@.map_values(|l: String| l@),
            ls.len() == lines@.len(),
            lines@.len() > 0,
            rows@.len() + 1 == ls.len(),
            nrows == rows@.len(),
            forall|q: int| 0 <= q < rows@.len() ==> {
                &&& (#[trigger] rows@[q])@.len() == split_commas(ls[q + 1]).len()
                &&& forall|k: int| 0 <= k < rows@[q]@.len() ==> (#[trigger] rows@[q]@[k])@ == split_commas(ls[q + 1])[k]
            },
            header@.len() == split_commas(ls[0]).len(),
            forall|k: int| 0 <= k < header@.len() ==> (#[trigger] header@[k])@ == split_commas(ls[0])[k],
            j <= header@.len(),
            data@.len() == j,
            forall|q: int| 0 <= q < j ==> {
                let c = #[trigger] data@[q];
                &&& c.pos == q
                &&& c.name@ == clean_name(split_commas(ls[0])[q])
                &&& c.datatype == scan_type(ls, q, 0)
                &&& c.op_pos is None
                &&& read_as(ls, q, c.datatype, c.values)
                &&& c.wf(nrows as int)
            },
        decreases header.len() - j,
    {
        let dt = infer_type(&rows, j, Ghost(ls));
        proof {
            lemma_scan_not_bool(ls, j as int, 0);
        }
        let values = read_column(&rows, j, dt, Ghost(ls));
        let name = name_of(header[j].as_str());
        data.push(Column { pos: j, name, datatype: dt, op_pos: None, values });
        j += 1;
    }
    let r = Frame { size: (header.len(), nrows), data, col_indexed: Vec::new() };
    proof {
        assert forall|a: int, b: int| 0 <= a < b < r.data@.len() implies #[trigger] r.data@[a].pos != #[trigger] r.data@[b].pos by {
            assert(r.data@[a].pos == a);
            assert(r.data@[b].pos == b);
        }
    }
    r
}

proof fn lemma_scan_not_bool(lines: Seq<Seq<char>>, j: int, i: int)
    ensures
        scan_type(lines, j, i) != DataType::Bool,
    decreases lines.len() - 1 - i,
{
    if i >= lines.len() - 1 || i < 0 {
    } else if informative(lines, i, j) {
    } else {
        lemma_scan_not_bool(lines, j, i + 1);
    }
}

} // verus!

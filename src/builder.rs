//! Builders for columns and frames. Building checks that the required
//! parts were given, and a frame that its columns fit together.
use vstd::prelude::*;
use crate::column::{Column, ColumnType, tag_of, fills};
use crate::frame::Frame;
use crate::infer::DataType;

verus! {

pub struct ColumnBuilder {
    pub pos: Option<usize>,
    pub name: Option<String>,
    pub datatype: DataType,
    pub op_pos: Option<Vec<usize>>,
    pub values: Option<ColumnType>,
}

/// The type tag of a column's cells.
pub fn tag_of_values(v: &ColumnType) -> (r: DataType)
    ensures
        r == tag_of(*v),
{
    match v {
        ColumnType::StringVec(_) => DataType::String,
        ColumnType::IntVec(_) => DataType::Int,
        ColumnType::FloatVec(_) => DataType::Float,
        ColumnType::BoolVec(_) => DataType::Bool,
        ColumnType::DateVec(_) => DataType::NaiveDate,
        ColumnType::Empty => DataType::Unknown,
    }
}

/// How many cells the column holds; none for a column without values.
pub fn cells_len(v: &ColumnType) -> (r: Option<usize>)
    ensures
        r matches Some(n) ==> fills(*v, n as int),
        r is None <==> *v is Empty,
{
    match v {
        ColumnType::StringVec(c) => Some(c.len()),
        ColumnType::IntVec(c) => Some(c.len()),
        ColumnType::FloatVec(c) => Some(c.len()),
        ColumnType::BoolVec(c) => Some(c.len()),
        ColumnType::DateVec(c) => Some(c.len()),
        ColumnType::Empty => None,
    }
}

impl ColumnBuilder {
    /// The column with no values, named by the empty text, at position 0.
    pub fn empty() -> (r: Column)
        ensures
            r.pos == 0,
            r.name@ == Seq::<char>::empty(),
            r.datatype == DataType::Unknown,
            r.op_pos is None,
            r.values is Empty,
    {
        Column { pos: 0, name: String::new(), datatype: DataType::Unknown, op_pos: None, values: ColumnType::Empty }
    }

    pub fn new() -> (r: Self)
        ensures
            r.pos is None,
            r.name is None,
            r.datatype == DataType::Unknown,
            r.op_pos is None,
            r.values is None,
    {
        ColumnBuilder { pos: None, name: None, datatype: DataType::Unknown, op_pos: None, values: None }
    }

    pub fn pos(self, pos: usize) -> (r: Self)
        ensures
            r.pos == Some(pos),
            r.name == self.name,
            r.datatype == self.datatype,
            r.op_pos == self.op_pos,
            r.values == self.values,
    {
        ColumnBuilder { pos: Some(pos), ..self }
    }

    pub fn name(self, name: &str) -> (r: Self)
        ensures
            r.name matches Some(n) && n@ == name@,
            r.pos == self.pos,
            r.datatype == self.datatype,
            r.op_pos == self.op_pos,
            r.values == self.values,
    {
        ColumnBuilder { name: Some(name.to_owned()), ..self }
    }

    pub fn datatype(self, data_type: DataType) -> (r: Self)
        ensures
            r.datatype == data_type,
            r.pos == self.pos,
            r.name == self.name,
            r.op_pos == self.op_pos,
            r.values == self.values,
    {
        ColumnBuilder { datatype: data_type, ..self }
    }

    pub fn op_pos(self, pos: Option<Vec<usize>>) -> (r: Self)
        ensures
            r.op_pos == pos,
            r.pos == self.pos,
            r.name == self.name,
            r.datatype == self.datatype,
            r.values == self.values,
    {
        ColumnBuilder { op_pos: pos, ..self }
    }

    pub fn values(self, values: ColumnType) -> (r: Self)
        ensures
            r.values == Some(values),
            r.pos == self.pos,
            r.name == self.name,
            r.datatype == self.datatype,
            r.op_pos == self.op_pos,
    {
        ColumnBuilder { values: Some(values), ..self }
    }

    /// The column, when its position, name and values were given and the
    /// type tag matches the values.
    pub fn build(self) -> (r: Option<Column>)
        ensures
            r is Some <==> self.pos is Some && self.name is Some && self.values is Some
                && self.datatype == tag_of(self.values->Some_0),
            r matches Some(c) ==> c.pos == self.pos->Some_0 && c.name == self.name->Some_0
                && c.datatype == self.datatype && c.op_pos == self.op_pos && c.values == self.values->Some_0,
    {
        match (self.pos, self.name, self.values) {
            (Some(pos), Some(name), Some(values)) => {
                if tag_of_values(&values) != self.datatype {
                    return None;
                }
                Some(Column { pos, name, datatype: self.datatype, op_pos: self.op_pos, values })
            },
            _ => None,
        }
    }
}

pub struct FrameBuilder {
    pub size: Option<(usize, usize)>,
    pub data: Option<Vec<Column>>,
    pub col_indexed: Option<Vec<usize>>,
}

impl FrameBuilder {
    pub fn empty() -> (r: Frame)
        ensures
            r.wf(),
            r.size == (0usize, 0usize),
            r.col_indexed@.len() == 0,
    {
        Frame::empty()
    }

    pub fn new() -> (r: Self)
        ensures
            r.size is None,
            r.data is None,
            r.col_indexed is None,
    {
        FrameBuilder { size: None, data: None, col_indexed: None }
    }

    pub fn size(self, c: usize, r: usize) -> (b: Self)
        ensures
            b.size == Some((c, r)),
            b.data == self.data,
            b.col_indexed == self.col_indexed,
    {
        FrameBuilder { size: Some((c, r)), ..self }
    }

    pub fn data(self, data: Vec<Column>) -> (b: Self)
        ensures
            b.data == Some(data),
            b.size == self.size,
            b.col_indexed == self.col_indexed,
    {
        FrameBuilder { data: Some(data), ..self }
    }

    pub fn col_indexed(self, cols: Vec<usize>) -> (b: Self)
        ensures
            b.col_indexed == Some(cols),
            b.size == self.size,
            b.data == self.data,
    {
        FrameBuilder { col_indexed: Some(cols), ..self }
    }

    /// The frame, when all three parts were given and they fit together.
    pub fn build(self) -> (r: Option<Frame>)
        ensures
            r is Some <==> self.size is Some && self.data is Some && self.col_indexed is Some && (Frame {
                size: self.size->Some_0,
                data: self.data->Some_0,
                col_indexed: self.col_indexed->Some_0,
            }).wf(),
            r matches Some(f) ==> f.size == self.size->Some_0 && f.data == self.data->Some_0
                && f.col_indexed == self.col_indexed->Some_0,
    {
        match (self.size, self.data, self.col_indexed) {
            (Some(size), Some(data), Some(col_indexed)) => {
                let f = Frame { size, data, col_indexed };
                if fits(&f) {
                    Some(f)
                } else {
                    None
                }
            },
            _ => None,
        }
    }
}

/// Whether the frame's columns fit its shape and one another.
#[verifier::loop_isolation(false)]
pub fn fits(f: &Frame) -> (r: bool)
    ensures
        r == f.wf(),
{
    if f.data.len() != f.size.0 {
        return false;
    }
    let mut j: usize = 0;
    while j < f.data.len()
        invariant
            f.data@.len() == f.size.0,
            j <= f.data@.len(),
            forall|q: int| 0 <= q < j ==> (#[trigger] f.data@[q]).wf(f.size.1 as int),
            forall|a: int, b: int| 0 <= a < b < j ==> #[trigger] f.data@[a].pos != #[trigger] f.data@[b].pos,
        decreases f.data.len() - j,
    {
        let c = &f.data[j];
        if tag_of_values(&c.values) != c.datatype {
            proof {
                assert(!f.data@[j as int].wf(f.size.1 as int));
            }
            return false;
        }
        match cells_len(&c.values) {
            Some(n) => {
                if n != f.size.1 {
                    proof {
                        assert(!f.data@[j as int].wf(f.size.1 as int));
                    }
                    return false;
                }
            },
            None => {},
        }
        let mut a: usize = 0;
        while a < j
            invariant
                j < f.data@.len(),
                a <= j,
                forall|q: int| 0 <= q < a ==> f.data@[q].pos != f.data@[j as int].pos,
            decreases j - a,
        {
            if f.data[a].pos == c.pos {
                proof {
                    assert(f.data@[a as int].pos == f.data@[j as int].pos);
                }
                return false;
            }
            a += 1;
        }
        j += 1;
    }
    true
}

} // verus!

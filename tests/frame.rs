use dataframe::builder::{ColumnBuilder, FrameBuilder};
use dataframe::column::{Column, ColumnType};
use dataframe::date::Date;
use dataframe::frame::{ArithOp, ColIndex, Frame, FrameError};
use dataframe::infer::{check_string, classify_token, find_some_val, is_na, DataType};
use dataframe::ingest::{from_lines, name_of, split_line};
use dataframe::scalar::Scalar;
use dataframe::stats::Summary;

fn lines(v: &[&str]) -> Vec<String> {
    v.iter().map(|s| s.to_string()).collect()
}

fn scores() -> Frame {
    from_lines(&lines(&["id,score", "1,10", "2,NA", "3,30"]))
}

fn ints(c: &Column) -> Vec<Option<i32>> {
    match &c.values {
        ColumnType::IntVec(v) => v.clone(),
        other => panic!("not integers: {:?}", other),
    }
}

fn marks(f: &Frame) -> Vec<usize> {
    f.data[0].op_pos.clone().expect("marked rows")
}

#[test]
fn concrete_scenario_csv() {
    let f = scores();
    assert_eq!(f.size, (2, 3));
    assert_eq!(f.data[0].name, "id");
    assert_eq!(f.data[1].name, "score");
    assert_eq!(f.data[0].datatype, DataType::Int);
    assert_eq!(f.data[1].datatype, DataType::Int);
    assert_eq!(ints(&f.data[0]), vec![Some(1), Some(2), Some(3)]);
    assert_eq!(ints(&f.data[1]), vec![Some(10), None, Some(30)]);

    let mask = f.col(ColIndex::Name("score".to_string())).unwrap().mt(&Scalar::Int(15)).unwrap();
    assert_eq!(marks(&mask), vec![2]);

    let r = f.loc(&mask).unwrap();
    assert_eq!(r.size, (2, 1));
    assert_eq!(ints(&r.data[0]), vec![Some(3)]);
    assert_eq!(ints(&r.data[1]), vec![Some(30)]);

    match f.data[1].describe() {
        Summary::Numeric(s) => {
            assert_eq!(s.count, 2);
            assert_eq!(s.sum, 40);
            assert_eq!(s.sum as f64 / s.count as f64, 20.0);
            assert_eq!(s.min, 10);
            assert_eq!(s.max, 30);
        }
        other => panic!("unexpected summary {:?}", other),
    }
}

#[test]
fn full_range_round_trip() {
    let f = from_lines(&lines(&["a,b,c", "1,x,01/02/2020", "NA,y,na", "3,,05/06/2021"]));
    let r = f.range(ColIndex::From(0));
    assert_eq!(r.size, f.size);
    for j in 0..f.size.0 {
        assert_eq!(r.data[j].name, f.data[j].name);
        assert_eq!(r.data[j].pos, f.data[j].pos);
        assert_eq!(r.data[j].datatype, f.data[j].datatype);
        assert_eq!(r.data[j].values, f.data[j].values);
    }
    let s = f.span(ColIndex::From(0));
    assert_eq!(s.size, f.size);
    assert_eq!(s.data[2].values, f.data[2].values);
}

#[test]
fn lt_and_mte_split_present_rows() {
    let f = from_lines(&lines(&["v", "5", "NA", "15", "10", "x9"]));
    let lt = marks(&f.col(ColIndex::Positions(vec![0])).unwrap().lt(&Scalar::Int(10)).unwrap());
    let mte = marks(&f.col(ColIndex::Positions(vec![0])).unwrap().mte(&Scalar::Int(10)).unwrap());
    assert_eq!(lt, vec![0]);
    assert_eq!(mte, vec![2, 3]);
    for i in 0..f.size.1 {
        let present = ints(&f.data[0])[i].is_some();
        assert!(!(lt.contains(&i) && mte.contains(&i)));
        assert_eq!(lt.contains(&i) || mte.contains(&i), present);
    }
}

#[test]
fn locate_twice_keeps_rows() {
    let f = from_lines(&lines(&["k,v", "a,1", "b,2", "a,3", "c,4", "a,5"]));
    let m1 = f.col(ColIndex::Name("k".to_string())).unwrap().eq(&Scalar::Text("a".to_string())).unwrap();
    let r1 = f.loc(&m1).unwrap();
    assert_eq!(r1.size.1, 3);
    let m2 = r1.col(ColIndex::Name("k".to_string())).unwrap().eq(&Scalar::Text("a".to_string())).unwrap();
    let r2 = r1.loc(&m2).unwrap();
    assert_eq!(r2.size.1, r1.size.1);
    assert_eq!(ints(&r2.data[1]), vec![Some(1), Some(3), Some(5)]);
}

#[test]
fn add_then_sub_restores_integers() {
    let mut f = from_lines(&lines(&["n,m", "1,7", "NA,8", "-4,9"]));
    let target = f.col(ColIndex::Name("n".to_string())).unwrap();
    f.find(&target);
    let added = f.add(&Scalar::Int(5));
    assert_eq!(ints(&added.data[0]), vec![Some(6), None, Some(1)]);
    assert_eq!(ints(&added.data[1]), vec![Some(7), Some(8), Some(9)]);
    let back = added.sub(&Scalar::Int(5));
    assert_eq!(ints(&back.data[0]), vec![Some(1), None, Some(-4)]);
}

#[test]
fn null_counts_complement_present() {
    let f = from_lines(&lines(&["a,b,c", "1,NA,na", "NA,y,na", "3,z,nan"]));
    let counts = f.is_na();
    assert_eq!(counts, vec![("a".to_string(), 1), ("b".to_string(), 1), ("c".to_string(), 3)]);
    assert!(matches!(f.data[2].values, ColumnType::Empty));
    assert_eq!(f.data[2].datatype, DataType::Unknown);
}

#[test]
fn head_beyond_rows_is_error() {
    let f = scores();
    assert_eq!(f.head(Some(4)).unwrap_err(), FrameError::OutOfRangeRequest);
    assert_eq!(f.head(None).unwrap_err(), FrameError::OutOfRangeRequest);
    let h = f.head(Some(2)).unwrap();
    assert_eq!(h.size, (2, 2));
    assert_eq!(ints(&h.data[1]), vec![Some(10), None]);
    let t = f.tail(Some(1)).unwrap();
    assert_eq!(ints(&t.data[0]), vec![Some(3)]);
}

#[test]
fn unknown_column_is_selector_mismatch() {
    let f = scores();
    assert_eq!(f.col(ColIndex::Name("nope".to_string())).unwrap_err(), FrameError::SelectorMismatch);
    let empty_mask = Frame::empty();
    assert_eq!(f.loc(&empty_mask).unwrap_err(), FrameError::SelectorMismatch);
}

#[test]
fn ordering_on_text_is_unsupported() {
    let f = from_lines(&lines(&["name", "ann", "bob"]));
    let c = f.col(ColIndex::To(0)).unwrap();
    assert_eq!(c.lt(&Scalar::Text("b".to_string())).unwrap_err(), FrameError::UnsupportedOperation);
    let m = f.col(ColIndex::To(0)).unwrap().eq(&Scalar::Text("bob".to_string())).unwrap();
    assert_eq!(marks(&m), vec![1]);
}

#[test]
fn single_column_marks_its_position() {
    let f = scores();
    let c = f.col(ColIndex::Names(vec!["score".to_string()])).unwrap();
    assert_eq!(c.data[0].op_pos, Some(vec![1]));
    assert_eq!(c.col_indexed, vec![1]);
    let both = f.col(ColIndex::Range(0, 5)).unwrap();
    assert_eq!(both.size, (2, 3));
    assert_eq!(both.col_indexed, vec![0, 1]);
}

#[test]
fn dates_parse_and_shift() {
    let mut f = from_lines(&lines(&["when", "25/12/2020", "NA", "31/02/2020"]));
    assert_eq!(f.data[0].datatype, DataType::NaiveDate);
    assert_eq!(f.data[0].values, ColumnType::DateVec(vec![Some(Date(737784)), None, None]));
    let t = f.col(ColIndex::From(0)).unwrap();
    f.find(&t);
    let g = f.add(&Scalar::Int(10));
    assert_eq!(g.data[0].values, ColumnType::DateVec(vec![Some(Date(737794)), None, None]));
    let later = g.col(ColIndex::From(0)).unwrap().mt(&Scalar::Text("01/01/2021".to_string())).unwrap();
    assert_eq!(marks(&later), vec![0]);
}

#[test]
fn replace_through_marks() {
    let mut f = scores();
    let mask = f.col(ColIndex::Name("score".to_string())).unwrap().lt(&Scalar::Int(20)).unwrap();
    f.find(&mask);
    f.data[1].op_pos = mask.data[0].op_pos.clone();
    let g = f.replace(&Scalar::Text("99".to_string()));
    assert_eq!(ints(&g.data[1]), vec![Some(99), None, Some(30)]);
    assert_eq!(g.data[1].op_pos, None);
}

#[test]
fn quartiles_use_nearest_rank_with_clamp() {
    let f = from_lines(&lines(&["v", "4", "1"]));
    match f.data[0].describe() {
        Summary::Numeric(s) => {
            assert_eq!((s.min, s.p25, s.p50, s.p75, s.max), (1, 4, 4, 4, 4));
            assert_eq!(s.sum_sq, 17);
        }
        other => panic!("unexpected summary {:?}", other),
    }
    let g = from_lines(&lines(&["v", "8", "2", "6", "4"]));
    match g.data[0].describe() {
        Summary::Numeric(s) => assert_eq!((s.min, s.p25, s.p50, s.p75, s.max), (2, 4, 6, 8, 8)),
        other => panic!("unexpected summary {:?}", other),
    }
}

#[test]
fn text_summary_counts_distinct() {
    let f = from_lines(&lines(&["c", "b", "a", "NA", "b", "a", "c"]));
    match f.data[0].describe() {
        Summary::Text(t) => {
            assert_eq!(t.unique, 3);
            assert_eq!(t.top, Some("b".to_string()));
            assert_eq!(t.freq, 2);
        }
        other => panic!("unexpected summary {:?}", other),
    }
}

#[test]
fn tokens_classify() {
    assert_eq!(check_string("12"), (true, false));
    assert_eq!(check_string("1.5"), (true, true));
    assert_eq!(check_string("01/02/2003"), (false, true));
    assert_eq!(check_string("a1"), (false, false));
    assert_eq!(classify_token("é"), DataType::String);
    assert!(is_na("NA"));
    assert!(is_na("NaN"));
    assert!(!is_na("N/A"));
}

#[test]
fn header_and_fields_split() {
    assert_eq!(split_line("a,,b"), vec!["a".to_string(), String::new(), "b".to_string()]);
    assert_eq!(name_of(" \"score\" "), "score");
    let f = from_lines(&lines(&["\"x\", y", "1.5,2"]));
    assert_eq!(f.data[0].name, "x");
    assert_eq!(f.data[1].name, "y");
    assert_eq!(f.data[0].values, ColumnType::FloatVec(vec![Some("1.5".to_string())]));
    assert_eq!(from_lines(&Vec::new()).size, (0, 0));
}

#[test]
fn pop_removes_first_match() {
    let mut f = scores();
    let c = f.pop(ColIndex::Name("id".to_string())).unwrap();
    assert_eq!(c.name, "id");
    assert_eq!(f.size, (1, 3));
    assert_eq!(f.data[0].name, "score");
    assert!(f.pop(ColIndex::Name("id".to_string())).is_none());
}

#[test]
fn builders_check_their_parts() {
    assert!(ColumnBuilder::new().pos(0).name("a").build().is_none());
    let mismatched = ColumnBuilder::new().pos(0).name("a").values(ColumnType::IntVec(vec![Some(1)])).build();
    assert!(mismatched.is_none());
    let a = ColumnBuilder::new()
        .pos(0)
        .name("a")
        .datatype(DataType::Int)
        .values(ColumnType::IntVec(vec![Some(1), None]))
        .build()
        .unwrap();
    let b = ColumnBuilder::new()
        .pos(0)
        .name("b")
        .datatype(DataType::Bool)
        .values(ColumnType::BoolVec(vec![Some(true), Some(false)]))
        .build()
        .unwrap();
    let same_pos = FrameBuilder::new().size(2, 2).data(vec![a.clone(), b.clone()]).col_indexed(vec![]).build();
    assert!(same_pos.is_none());
    let mut b1 = b.clone();
    b1.pos = 1;
    let f = FrameBuilder::new().size(2, 2).data(vec![a.clone(), b1]).col_indexed(vec![]).build().unwrap();
    assert_eq!(f.size, (2, 2));
    assert!(FrameBuilder::new().size(1, 3).data(vec![a]).col_indexed(vec![]).build().is_none());
    let (summaries, same) = f.describe();
    assert_eq!(summaries.len(), 2);
    assert!(!same);
    assert_eq!(summaries[1], Summary::Nothing);
    assert_eq!(ColumnBuilder::empty().datatype, DataType::Unknown);
}

#[test]
fn lte_and_first_present() {
    let f = from_lines(&lines(&["v", "NA", "3", "7", "5"]));
    let m = f.col(ColIndex::From(0)).unwrap().lte(&Scalar::Bool(true)).unwrap();
    assert!(marks(&m).is_empty());
    let m = f.col(ColIndex::From(0)).unwrap().lte(&Scalar::Int(5)).unwrap();
    assert_eq!(marks(&m), vec![1, 3]);
    assert_eq!(find_some_val(&ints(&f.data[0])), Some(&3));
    assert_eq!(find_some_val::<i32>(&vec![None, None]), None);
}

#[test]
fn top_ties_go_to_first_seen() {
    let f = from_lines(&lines(&["c", "a", "b", "b", "NA", "a"]));
    match f.data[0].describe() {
        Summary::Text(t) => {
            assert_eq!(t.top, Some("a".to_string()));
            assert_eq!(t.freq, 2);
            assert_eq!(t.unique, 2);
        }
        other => panic!("unexpected summary {:?}", other),
    }
    let counts = f.count_values();
    assert_eq!(counts[0], vec![("a".to_string(), 2), ("b".to_string(), 2)]);
}

#[test]
fn skipped_targets_are_reported() {
    let mut f = from_lines(&lines(&["n,t,d", "1,a,01/01/2020", "2,b,02/01/2020"]));
    let all = f.col(ColIndex::From(0)).unwrap();
    f.find(&all);
    assert_eq!(f.arith_skips(ArithOp::Add, &Scalar::Int(1)), vec![false, true, false]);
    assert_eq!(f.arith_skips(ArithOp::Div, &Scalar::Int(2)), vec![true, true, false]);
    assert_eq!(f.arith_skips(ArithOp::Div, &Scalar::Int(0)), vec![true, true, true]);
    let g = f.mul(&Scalar::Int(3));
    assert_eq!(ints(&g.data[0]), vec![Some(3), Some(6)]);
    assert_eq!(g.data[1].values, ColumnType::StringVec(vec![Some("a".to_string()), Some("b".to_string())]));
}

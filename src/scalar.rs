//! Scalars that callers hand to predicates and mutations, and their
//! conversion to each column's element type.
use vstd::prelude::*;
use crate::date::{Date, spec_to_date, to_date, dmy_days, parse_dmy};
use crate::number::{spec_parse_i32, parse_i32};
use crate::text::{lower_of, lowercase, chars_of, same_chars};

verus! {

/// A value given by a caller.
#[derive(Debug, Clone, PartialEq)]
pub enum Scalar {
    Int(i32),
    Text(String),
    Bool(bool),
    Date(Date),
}

pub open spec fn spec_to_int(s: Scalar) -> Option<i32> {
    match s {
        Scalar::Int(x) => Some(x),
        Scalar::Text(t) => spec_parse_i32(t@),
        Scalar::Bool(b) => Some(if b { 1i32 } else { 0i32 }),
        Scalar::Date(d) => Some(d.0),
    }
}

pub open spec fn spec_to_text(s: Scalar) -> Option<Seq<char>> {
    match s {
        Scalar::Text(t) => Some(t@),
        Scalar::Bool(b) => Some(if b { seq!['t', 'r', 'u', 'e'] } else { seq!['f', 'a', 'l', 's', 'e'] }),
        _ => None,
    }
}

pub open spec fn spec_to_bool(s: Scalar) -> Option<bool> {
    match s {
        Scalar::Int(x) => if x == 1 { Some(true) } else if x == 0 { Some(false) } else { None },
        Scalar::Text(t) => if lower_of(t@) == seq!['t', 'r', 'u', 'e'] {
            Some(true)
        } else if lower_of(t@) == seq!['f', 'a', 'l', 's', 'e'] {
            Some(false)
        } else {
            None
        },
        Scalar::Bool(b) => Some(b),
        Scalar::Date(_) => None,
    }
}

pub open spec fn spec_to_date_scalar(s: Scalar) -> Option<Date> {
    match s {
        Scalar::Int(x) => spec_to_date(x as int),
        Scalar::Text(t) => match dmy_days(t@) {
            Some(d) => Some(Date(d as i32)),
            None => None,
        },
        Scalar::Bool(_) => None,
        Scalar::Date(d) => Some(d),
    }
}

fn word_true() -> (r: Vec<char>)
    ensures
        r@ == seq!['t', 'r', 'u', 'e'],
{
    let mut r: Vec<char> = Vec::new();
    r.push('t');
    r.push('r');
    r.push('u');
    r.push('e');
    r
}

fn word_false() -> (r: Vec<char>)
    ensures
        r@ == seq!['f', 'a', 'l', 's', 'e'],
{
    let mut r: Vec<char> = Vec::new();
    r.push('f');
    r.push('a');
    r.push('l');
    r.push('s');
    r.push('e');
    r
}

impl Scalar {
    /// The value as an integer: text is parsed, `true` is 1, a date is its day number.
    pub fn to_int(&self) -> (r: Option<i32>)
        ensures
            r == spec_to_int(*self),
    {
        match self {
            Scalar::Int(x) => Some(*x),
            Scalar::Text(t) => parse_i32(&chars_of(t.as_str())),
            Scalar::Bool(b) => Some(if *b { 1i32 } else { 0i32 }),
            Scalar::Date(d) => Some(d.0),
        }
    }

    /// The value as text: text itself, or `true` / `false`.
    pub fn to_text(&self) -> (r: Option<Vec<char>>)
        ensures
            r matches Some(t) ==> spec_to_text(*self) == Some(t@),
            r is None ==> spec_to_text(*self) is None,
    {
        match self {
            Scalar::Text(t) => Some(chars_of(t.as_str())),
            Scalar::Bool(b) => Some(if *b { word_true() } else { word_false() }),
            _ => None,
        }
    }

    /// The value as a boolean: 1 and 0, and `true` / `false` in any case.
    pub fn to_bool(&self) -> (r: Option<bool>)
        ensures
            r == spec_to_bool(*self),
    {
        match self {
            Scalar::Int(x) => if *x == 1 {
                Some(true)
            } else if *x == 0 {
                Some(false)
            } else {
                None
            },
            Scalar::Text(t) => {
                let low = chars_of(lowercase(t.as_str()).as_str());
                if same_chars(&low, &word_true()) {
                    Some(true)
                } else if same_chars(&low, &word_false()) {
                    Some(false)
                } else {
                    None
                }
            },
            Scalar::Bool(b) => Some(*b),
            Scalar::Date(_) => None,
        }
    }

    /// The value as a date: a day number, or `dd/mm/yyyy` text.
    pub fn to_date(&self) -> (r: Option<Date>)
        ensures
            r == spec_to_date_scalar(*self),
    {
        match self {
            Scalar::Int(x) => to_date(*x as i64),
            Scalar::Text(t) => match parse_dmy(t.as_str()) {
                Some(d) => Some(Date(d)),
                None => None,
            },
            Scalar::Bool(_) => None,
            Scalar::Date(d) => Some(*d),
        }
    }
}

} // verus!

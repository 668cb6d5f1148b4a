//! Classification of raw text tokens: missing-value detection and the
//! scalar type a token suggests.
use vstd::prelude::*;
use crate::text::{alphabetic, lower_of, has_pair, lowercase, is_alphabetic, chars_of, find_pair};

verus! {

/// The scalar type of a column.
#[derive(Debug, Clone, Copy, PartialEq, Eq, Structural, Hash)]
pub enum DataType {
    Int,
    Float,
    String,
    Bool,
    NaiveDate,
    /// No informative value was seen.
    Unknown,
}

/// A token is missing when its lower-case form contains `na`.
pub open spec fn spec_is_na(s: Seq<char>) -> bool {
    has_pair(lower_of(s), 'n', 'a')
}

/// Whether `val` is a missing-value token: its lower-case form contains `na`.
pub fn is_na(val: &str) -> (r: bool)
    ensures
        r == spec_is_na(val@),
{
    let low = lowercase(val);
    let cs = chars_of(low.as_str());
    find_pair(&cs, 'n', 'a')
}

pub open spec fn has_alpha(s: Seq<char>) -> bool {
    exists|i: int| 0 <= i < s.len() && alphabetic(#[trigger] s[i])
}

pub open spec fn has_char(s: Seq<char>, c: char) -> bool {
    exists|i: int| 0 <= i < s.len() && #[trigger] s[i] == c
}

/// The pair of flags that classifies a token: `(true, true)` a decimal
/// number, `(true, false)` an integer, `(false, true)` a date, `(false, false)` text.
pub open spec fn spec_check_string(s: Seq<char>) -> (bool, bool) {
    if has_alpha(s) {
        (false, false)
    } else if has_char(s, '.') {
        (true, true)
    } else if has_char(s, '/') {
        (false, true)
    } else {
        (true, false)
    }
}

/// Classifies a token: any alphabetic character makes it text; otherwise a
/// decimal point makes it a decimal number, a slash a date, and anything
/// else an integer.
pub fn check_string(val: &str) -> (r: (bool, bool))
    ensures
        r == spec_check_string(val@),
{
    let cs = chars_of(val);
    let mut has_point = false;
    let mut has_slash = false;
    let mut i: usize = 0;
    while i < cs.len()
        invariant
            cs@ == val@,
            i <= cs@.len(),
            forall|j: int| 0 <= j < i ==> !alphabetic(#[trigger] cs@[j]),
            has_point <==> exists|j: int| 0 <= j < i && #[trigger] cs@[j] == '.',
            has_slash <==> exists|j: int| 0 <= j < i && #[trigger] cs@[j] == '/',
        decreases cs.len() - i,
    {
        let c = cs[i];
        if is_alphabetic(c) {
            return (false, false);
        }
        if c == '.' {
            has_point = true;
        } else if c == '/' {
            has_slash = true;
        }
        i += 1;
    }
    if has_point {
        (true, true)
    } else if has_slash {
        (false, true)
    } else {
        (true, false)
    }
}

pub open spec fn classify(s: Seq<char>) -> DataType {
    match spec_check_string(s) {
        (true, true) => DataType::Float,
        (true, false) => DataType::Int,
        (false, true) => DataType::NaiveDate,
        (false, false) => DataType::String,
    }
}

/// The column type that a token suggests.
pub fn classify_token(val: &str) -> (r: DataType)
    ensures
        r == classify(val@),
{
    match check_string(val) {
        (true, true) => DataType::Float,
        (true, false) => DataType::Int,
        (false, true) => DataType::NaiveDate,
        (false, false) => DataType::String,
    }
}

/// The first present value of a sequence of optional values, if any.
pub fn find_some_val<T>(v: &Vec<Option<T>>) -> (r: Option<&T>)
    ensures
        r is None <==> forall|i: int| 0 <= i < v@.len() ==> v@[i] is None,
        r matches Some(x) ==> exists|i: int| 0 <= i < v@.len() && v@[i] == Some(*x)
            && forall|j: int| 0 <= j < i ==> v@[j] is None,
{
    let mut i: usize = 0;
    while i < v.len()
        invariant
            i <= v@.len(),
            forall|j: int| 0 <= j < i ==> v@[j] is None,
        decreases v.len() - i,
    {
        if let Some(x) = &v[i] {
            return Some(x);
        }
        i += 1;
    }
    None
}

} // verus!

//! Values of columns.

use std::sync::Arc;
use vstd::prelude::*;

use crate::common::text::{signed_decimal, signed_decimal_text};

verus! {

/// What kind of floating-point number a number is.
#[derive(Clone, Copy, Debug, PartialEq, Eq, Structural)]
pub enum FloatClass {
    Finite,
    PositiveInfinity,
    NegativeInfinity,
    NotANumber,
}

/// A floating-point number, by its kind and, if it is finite, its texts.
#[derive(Debug)]
pub struct FloatValue {
    pub class: FloatClass,
    /// The shortest digits that give the number in its own width, such as `1` or `6.01`.
    pub digits: String,
    /// The number in double width as a JSON number with a fraction or an exponent, such
    /// as `1.0`, or `6.010000228881836` for a number of single width.
    pub json: String,
}

/// A value that has parts, and the text by which it is shown.
#[derive(Debug)]
pub struct Composite {
    pub values: Arc<Vec<Datum>>,
    pub text: String,
}

/// A value that is not null.
#[derive(Debug)]
pub enum ScalarImpl {
    Int16(i16),
    Int32(i32),
    Int64(i64),
    Float32(FloatValue),
    Float64(FloatValue),
    Utf8(String),
    Bool(bool),
    /// A decimal number, by its digits.
    Decimal(String),
    /// An interval, by its text.
    Interval(String),
    /// A date, by its text.
    NaiveDate(String),
    /// A date and time, by its text.
    NaiveDateTime(String),
    /// A time of day, by its text.
    NaiveTime(String),
    Struct(Composite),
    List(Composite),
}

/// A value.
pub type Datum = Option<ScalarImpl>;

/// A floating-point number as text.
pub open spec fn float_text(v: FloatValue) -> Seq<char> {
    match v.class {
        FloatClass::Finite => v.digits@,
        FloatClass::PositiveInfinity => "inf"@,
        FloatClass::NegativeInfinity => "-inf"@,
        FloatClass::NotANumber => "NaN"@,
    }
}

/// A value as text.
pub open spec fn scalar_text(v: ScalarImpl) -> Seq<char> {
    match v {
        ScalarImpl::Int16(n) => signed_decimal(n as int),
        ScalarImpl::Int32(n) => signed_decimal(n as int),
        ScalarImpl::Int64(n) => signed_decimal(n as int),
        ScalarImpl::Float32(f) => float_text(f),
        ScalarImpl::Float64(f) => float_text(f),
        ScalarImpl::Utf8(s) => s@,
        ScalarImpl::Bool(b) => if b {
            "true"@
        } else {
            "false"@
        },
        ScalarImpl::Decimal(s) => s@,
        ScalarImpl::Interval(s) => s@,
        ScalarImpl::NaiveDate(s) => s@,
        ScalarImpl::NaiveDateTime(s) => s@,
        ScalarImpl::NaiveTime(s) => s@,
        ScalarImpl::Struct(c) => c.text@,
        ScalarImpl::List(c) => c.text@,
    }
}

/// The name of a value's kind.
pub open spec fn kind_name(v: ScalarImpl) -> Seq<char> {
    match v {
        ScalarImpl::Int16(_) => "Int16"@,
        ScalarImpl::Int32(_) => "Int32"@,
        ScalarImpl::Int64(_) => "Int64"@,
        ScalarImpl::Float32(_) => "Float32"@,
        ScalarImpl::Float64(_) => "Float64"@,
        ScalarImpl::Utf8(_) => "Utf8"@,
        ScalarImpl::Bool(_) => "Bool"@,
        ScalarImpl::Decimal(_) => "Decimal"@,
        ScalarImpl::Interval(_) => "Interval"@,
        ScalarImpl::NaiveDate(_) => "NaiveDate"@,
        ScalarImpl::NaiveDateTime(_) => "NaiveDateTime"@,
        ScalarImpl::NaiveTime(_) => "NaiveTime"@,
        ScalarImpl::Struct(_) => "Struct"@,
        ScalarImpl::List(_) => "List"@,
    }
}

impl FloatValue {
    /// The number as text.
    pub fn to_text(&self) -> (r: String)
        ensures
            r@ == float_text(*self),
    {
        match self.class {
            FloatClass::Finite => self.digits.clone(),
            FloatClass::PositiveInfinity => "inf".to_owned(),
            FloatClass::NegativeInfinity => "-inf".to_owned(),
            FloatClass::NotANumber => "NaN".to_owned(),
        }
    }
}

impl FloatValue {
    /// A copy of the number.
    pub fn copy(&self) -> (r: FloatValue)
        ensures
            r == *self,
    {
        FloatValue { class: self.class, digits: self.digits.clone(), json: self.json.clone() }
    }
}

impl Composite {
    /// A copy of the value.
    pub fn copy(&self) -> (r: Composite)
        ensures
            r == *self,
    {
        Composite { values: self.values.clone(), text: self.text.clone() }
    }
}

/// A copy of a value.
pub fn copy_datum(d: &Datum) -> (r: Datum)
    ensures
        r == *d,
{
    match d {
        Some(v) => Some(v.copy()),
        None => None,
    }
}

/// A copy of a row.
pub fn copy_datums(row: &Vec<Datum>) -> (r: Vec<Datum>)
    ensures
        r@ == row@,
{
    let mut r: Vec<Datum> = Vec::new();
    let mut i: usize = 0;
    while i < row.len()
        invariant
            i <= row@.len(),
            r@ == row@.subrange(0, i as int),
        decreases row@.len() - i,
    {
        r.push(copy_datum(&row[i]));
        i = i + 1;
        proof {
            assert(r@ =~= row@.subrange(0, i as int));
        }
    }
    proof {
        assert(row@.subrange(0, i as int) =~= row@);
    }
    r
}

impl ScalarImpl {
    /// A copy of the value.
    pub fn copy(&self) -> (r: ScalarImpl)
        ensures
            r == *self,
    {
        match self {
            ScalarImpl::Int16(n) => ScalarImpl::Int16(*n),
            ScalarImpl::Int32(n) => ScalarImpl::Int32(*n),
            ScalarImpl::Int64(n) => ScalarImpl::Int64(*n),
            ScalarImpl::Float32(f) => ScalarImpl::Float32(f.copy()),
            ScalarImpl::Float64(f) => ScalarImpl::Float64(f.copy()),
            ScalarImpl::Utf8(s) => ScalarImpl::Utf8(s.clone()),
            ScalarImpl::Bool(b) => ScalarImpl::Bool(*b),
            ScalarImpl::Decimal(s) => ScalarImpl::Decimal(s.clone()),
            ScalarImpl::Interval(s) => ScalarImpl::Interval(s.clone()),
            ScalarImpl::NaiveDate(s) => ScalarImpl::NaiveDate(s.clone()),
            ScalarImpl::NaiveDateTime(s) => ScalarImpl::NaiveDateTime(s.clone()),
            ScalarImpl::NaiveTime(s) => ScalarImpl::NaiveTime(s.clone()),
            ScalarImpl::Struct(c) => ScalarImpl::Struct(c.copy()),
            ScalarImpl::List(c) => ScalarImpl::List(c.copy()),
        }
    }

    /// The value as text.
    pub fn to_text(&self) -> (r: String)
        ensures
            r@ == scalar_text(*self),
    {
        match self {
            ScalarImpl::Int16(n) => signed_decimal_text(*n as i64),
            ScalarImpl::Int32(n) => signed_decimal_text(*n as i64),
            ScalarImpl::Int64(n) => signed_decimal_text(*n),
            ScalarImpl::Float32(f) => f.to_text(),
            ScalarImpl::Float64(f) => f.to_text(),
            ScalarImpl::Utf8(s) => s.clone(),
            ScalarImpl::Bool(b) => {
                if *b {
                    "true".to_owned()
                } else {
                    "false".to_owned()
                }
            },
            ScalarImpl::Decimal(s) => s.clone(),
            ScalarImpl::Interval(s) => s.clone(),
            ScalarImpl::NaiveDate(s) => s.clone(),
            ScalarImpl::NaiveDateTime(s) => s.clone(),
            ScalarImpl::NaiveTime(s) => s.clone(),
            ScalarImpl::Struct(c) => c.text.clone(),
            ScalarImpl::List(c) => c.text.clone(),
        }
    }

    /// The name of the value's kind.
    pub fn get_ident(&self) -> (r: &'static str)
        ensures
            r@ == kind_name(*self),
    {
        match self {
            ScalarImpl::Int16(_) => "Int16",
            ScalarImpl::Int32(_) => "Int32",
            ScalarImpl::Int64(_) => "Int64",
            ScalarImpl::Float32(_) => "Float32",
            ScalarImpl::Float64(_) => "Float64",
            ScalarImpl::Utf8(_) => "Utf8",
            ScalarImpl::Bool(_) => "Bool",
            ScalarImpl::Decimal(_) => "Decimal",
            ScalarImpl::Interval(_) => "Interval",
            ScalarImpl::NaiveDate(_) => "NaiveDate",
            ScalarImpl::NaiveDateTime(_) => "NaiveDateTime",
            ScalarImpl::NaiveTime(_) => "NaiveTime",
            ScalarImpl::Struct(_) => "Struct",
            ScalarImpl::List(_) => "List",
        }
    }
}

/// A number is written in decimal digits, a truth value as the word for it, and the others as the text that
/// they come with; a number that is not finite is written as a word.
pub proof fn law_texts_of_values(n: i16, m: i32, k: i64, b: bool, f: FloatValue, s: String, c: Composite)
    ensures
        scalar_text(ScalarImpl::Int16(n)) == signed_decimal(n as int),
        scalar_text(ScalarImpl::Int32(m)) == signed_decimal(m as int),
        scalar_text(ScalarImpl::Int64(k)) == signed_decimal(k as int),
        scalar_text(ScalarImpl::Bool(b)) == if b {
            "true"@
        } else {
            "false"@
        },
        f.class is Finite ==> scalar_text(ScalarImpl::Float32(f)) == f.digits@ && scalar_text(ScalarImpl::Float64(f))
            == f.digits@,
        f.class is PositiveInfinity ==> scalar_text(ScalarImpl::Float32(f)) == "inf"@ && scalar_text(
            ScalarImpl::Float64(f),
        ) == "inf"@,
        f.class is NegativeInfinity ==> scalar_text(ScalarImpl::Float32(f)) == "-inf"@ && scalar_text(
            ScalarImpl::Float64(f),
        ) == "-inf"@,
        f.class is NotANumber ==> scalar_text(ScalarImpl::Float32(f)) == "NaN"@ && scalar_text(ScalarImpl::Float64(f))
            == "NaN"@,
        scalar_text(ScalarImpl::Utf8(s)) == s@,
        scalar_text(ScalarImpl::Decimal(s)) == s@,
        scalar_text(ScalarImpl::Interval(s)) == s@,
        scalar_text(ScalarImpl::NaiveDate(s)) == s@,
        scalar_text(ScalarImpl::NaiveDateTime(s)) == s@,
        scalar_text(ScalarImpl::NaiveTime(s)) == s@,
        scalar_text(ScalarImpl::Struct(c)) == c.text@,
        scalar_text(ScalarImpl::List(c)) == c.text@,
{
}

} // verus!

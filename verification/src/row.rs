//! The wire-level value model and the projection of a row into the
//! intermediate document.

use crate::datetime::{decodes_to, iso_seq, legacy_wf, render_legacy, CivilDateTime,
    LegacyDateTime};
use crate::error::RowError;
use vstd::prelude::*;

verus! {

/// One wire-level column value: the closed set of kinds the projection
/// understands, each optionally absent (SQL NULL).  A kind outside the
/// set arrives as `Unsupported`, carrying its diagnostic description,
/// and makes the whole projection fail.
pub enum Value {
    Int64(Option<i64>),
    Int32(Option<i32>),
    Int16(Option<i16>),
    UInt8(Option<u8>),
    /// A 32-bit floating value, carried as the exact text the driver
    /// layer rendered it to: this core never computes on floating
    /// values, it only passes their rendering through.
    Float32(Option<String>),
    /// A 64-bit floating value, carried as its rendered text.
    Float64(Option<String>),
    Bool(Option<bool>),
    Text(Option<String>),
    /// Arbitrary-precision fixed-point, kept in its canonical string
    /// form, never coerced through floating point.
    Decimal(Option<String>),
    LegacyDateTime(Option<LegacyDateTime>),
    /// A value kind outside the supported set, with its diagnostic
    /// description.
    Unsupported(String),
}

/// An ordered, named association of a column to its value.
pub struct Column {
    pub name: String,
    pub value: Value,
}

/// One rendered scalar of the intermediate document.
pub enum Scalar {
    /// Any supported integer width, held without loss.
    Int(i64),
    /// Canonical numeric text: a decimal's exact form, or the rendered
    /// text of a floating value.
    Num(String),
    Txt(String),
    Bool(bool),
    /// The explicit null marker.
    Null,
}

/// What a document scalar is, at specification level.
pub enum ScalarModel {
    Int(int),
    Num(Seq<char>),
    Txt(Seq<char>),
    Bool(bool),
    Null,
}

pub open spec fn scalar_model(s: Scalar) -> ScalarModel {
    match s {
        Scalar::Int(v) => ScalarModel::Int(v as int),
        Scalar::Num(t) => ScalarModel::Num(t@),
        Scalar::Txt(t) => ScalarModel::Txt(t@),
        Scalar::Bool(b) => ScalarModel::Bool(b),
        Scalar::Null => ScalarModel::Null,
    }
}

/// One line of the intermediate document.
pub struct Line {
    pub name: String,
    pub value: Scalar,
}

/// The intermediate document: a transient, line-ordered rendering of
/// one row, consumed immediately by the binding stage.
pub struct Document {
    pub lines: Vec<Line>,
}

/// Whether the projection supports a value's kind.
pub open spec fn value_supported(v: Value) -> bool {
    !(v matches Value::Unsupported(_))
}

/// A value as the wire ever produces it: a date/time fragment count
/// stays below one day's worth.
pub open spec fn value_wf(v: Value) -> bool {
    match v {
        Value::LegacyDateTime(o) => match o {
            Option::Some(dt) => legacy_wf(dt),
            Option::None => true,
        },
        _ => true,
    }
}

pub open spec fn row_wf(columns: Seq<Column>) -> bool {
    forall|i: int| 0 <= i < columns.len() ==> value_wf(#[trigger] columns[i].value)
}

/// How one supported value must appear in the document.  An absent
/// value renders as the null marker, except for `Text`, whose absence
/// renders as the empty string (legacy behaviour, preserved).  A
/// date/time renders as the ISO-8601 form of the civil timestamp the
/// raw value decodes to; `lemma_decode_unique` shows there is exactly
/// one such timestamp.
pub open spec fn line_model(v: Value, s: Scalar) -> bool {
    match v {
        Value::Int64(o) => match o {
            Option::Some(n) => scalar_model(s) == ScalarModel::Int(n as int),
            Option::None => scalar_model(s) == ScalarModel::Null,
        },
        Value::Int32(o) => match o {
            Option::Some(n) => scalar_model(s) == ScalarModel::Int(n as int),
            Option::None => scalar_model(s) == ScalarModel::Null,
        },
        Value::Int16(o) => match o {
            Option::Some(n) => scalar_model(s) == ScalarModel::Int(n as int),
            Option::None => scalar_model(s) == ScalarModel::Null,
        },
        Value::UInt8(o) => match o {
            Option::Some(n) => scalar_model(s) == ScalarModel::Int(n as int),
            Option::None => scalar_model(s) == ScalarModel::Null,
        },
        Value::Float32(o) => match o {
            Option::Some(t) => scalar_model(s) == ScalarModel::Num(t@),
            Option::None => scalar_model(s) == ScalarModel::Null,
        },
        Value::Float64(o) => match o {
            Option::Some(t) => scalar_model(s) == ScalarModel::Num(t@),
            Option::None => scalar_model(s) == ScalarModel::Null,
        },
        Value::Bool(o) => match o {
            Option::Some(b) => scalar_model(s) == ScalarModel::Bool(b),
            Option::None => scalar_model(s) == ScalarModel::Null,
        },
        Value::Text(o) => match o {
            Option::Some(t) => scalar_model(s) == ScalarModel::Txt(t@),
            Option::None => scalar_model(s) == ScalarModel::Txt(Seq::<char>::empty()),
        },
        Value::Decimal(o) => match o {
            Option::Some(t) => scalar_model(s) == ScalarModel::Num(t@),
            Option::None => scalar_model(s) == ScalarModel::Null,
        },
        Value::LegacyDateTime(o) => match o {
            Option::Some(dt) => exists|c: CivilDateTime|
                decodes_to(dt, c) && scalar_model(s) == ScalarModel::Txt(iso_seq(c)),
            Option::None => scalar_model(s) == ScalarModel::Null,
        },
        Value::Unsupported(_) => false,
    }
}

/// A document projected from a row: one line per column, in order,
/// each line named after its column and rendered by `line_model`.
pub open spec fn projects_to(columns: Seq<Column>, lines: Seq<Line>) -> bool {
    &&& lines.len() == columns.len()
    &&& forall|i: int|
        0 <= i < columns.len() ==> {
            &&& (#[trigger] lines[i]).name@ == columns[i].name@
            &&& line_model(columns[i].value, lines[i].value)
        }
}

/// A failed projection: the error reports the first column whose kind
/// is unsupported, with that kind's diagnostic description.
pub open spec fn project_fails(columns: Seq<Column>, e: RowError) -> bool {
    exists|i: int|
        {
            &&& 0 <= i < columns.len()
            &&& (#[trigger] columns[i].value) matches Value::Unsupported(d) && e matches
                RowError::DataTypeError(msg) && msg@ == d@
            &&& forall|j: int| 0 <= j < i ==> value_supported(#[trigger] columns[j].value)
        }
}

/// Null asymmetry: an absent `Text` value projects to the empty
/// string, while an absent value of any other kind projects to the
/// explicit null marker — never to a zero or an empty rendering.
pub proof fn lemma_null_asymmetry(v: Value, s: Scalar)
    requires
        line_model(v, s),
    ensures
        (v matches Value::Text(o) && o is None) ==> scalar_model(s) == ScalarModel::Txt(
            Seq::<char>::empty(),
        ),
        (!(v matches Value::Text(_)) && value_absent(v)) ==> scalar_model(s) == ScalarModel::Null,
{
}

/// Whether a value is present-but-null.
pub open spec fn value_absent(v: Value) -> bool {
    match v {
        Value::Int64(o) => o is None,
        Value::Int32(o) => o is None,
        Value::Int16(o) => o is None,
        Value::UInt8(o) => o is None,
        Value::Float32(o) => o is None,
        Value::Float64(o) => o is None,
        Value::Bool(o) => o is None,
        Value::Text(o) => o is None,
        Value::Decimal(o) => o is None,
        Value::LegacyDateTime(o) => o is None,
        Value::Unsupported(_) => false,
    }
}

/// Project an ordered row of columns into one intermediate document.
/// Walks the columns in order; the first unsupported kind fails the
/// whole projection and no document is produced.
pub fn project(columns: &Vec<Column>) -> (r: Result<Document, RowError>)
    requires
        row_wf(columns@),
    ensures
        match r {
            Result::Ok(doc) => projects_to(columns@, doc.lines@),
            Result::Err(e) => project_fails(columns@, e),
        },
{
    let mut lines: Vec<Line> = Vec::new();
    let mut i: usize = 0;
    while i < columns.len()
        invariant
            i <= columns@.len(),
            row_wf(columns@),
            lines@.len() == i,
            forall|k: int|
                0 <= k < i ==> {
                    &&& (#[trigger] lines@[k]).name@ == columns@[k].name@
                    &&& line_model(columns@[k].value, lines@[k].value)
                },
        decreases columns@.len() - i,
    {
        let col = &columns[i];
        proof {
            assert(value_wf(columns@[i as int].value));
        }
        let sc: Scalar = match &col.value {
            Value::Int64(o) => match o {
                Option::Some(v) => Scalar::Int(*v),
                Option::None => Scalar::Null,
            },
            Value::Int32(o) => match o {
                Option::Some(v) => Scalar::Int(*v as i64),
                Option::None => Scalar::Null,
            },
            Value::Int16(o) => match o {
                Option::Some(v) => Scalar::Int(*v as i64),
                Option::None => Scalar::Null,
            },
            Value::UInt8(o) => match o {
                Option::Some(v) => Scalar::Int(*v as i64),
                Option::None => Scalar::Null,
            },
            Value::Float32(o) => match o {
                Option::Some(t) => Scalar::Num(t.clone()),
                Option::None => Scalar::Null,
            },
            Value::Float64(o) => match o {
                Option::Some(t) => Scalar::Num(t.clone()),
                Option::None => Scalar::Null,
            },
            Value::Bool(o) => match o {
                Option::Some(b) => Scalar::Bool(*b),
                Option::None => Scalar::Null,
            },
            Value::Text(o) => match o {
                Option::Some(t) => Scalar::Txt(t.clone()),
                Option::None => Scalar::Txt(String::new()),
            },
            Value::Decimal(o) => match o {
                Option::Some(t) => Scalar::Num(t.clone()),
                Option::None => Scalar::Null,
            },
            Value::LegacyDateTime(o) => match o {
                Option::Some(dt) => Scalar::Txt(render_legacy(dt)),
                Option::None => Scalar::Null,
            },
            Value::Unsupported(d) => {
                let e = RowError::DataTypeError(d.clone());
                proof {
                    assert forall|j: int| 0 <= j < i implies value_supported(
                        #[trigger] columns@[j].value,
                    ) by {
                        assert(line_model(columns@[j].value, lines@[j].value));
                    };
                    assert((columns@[i as int].value) matches Value::Unsupported(dd) && e matches
                        RowError::DataTypeError(msg) && msg@ == dd@);
                }
                return Result::Err(e);
            },
        };
        lines.push(Line { name: col.name.clone(), value: sc });
        i = i + 1;
    }
    Result::Ok(Document { lines })
}

} // verus!

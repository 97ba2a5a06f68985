//! Binding the intermediate document to a caller-declared record shape.

use crate::error::{ConversionError, RowError};
use crate::row::{project, project_fails, projects_to, row_wf, scalar_model, Column, Document,
    Line, Scalar, ScalarModel};
use vstd::prelude::*;

verus! {

/// The kind a target field declares.
#[derive(Clone, Copy, PartialEq, Eq, Structural)]
pub enum FieldKind {
    Int64,
    Int32,
    Int16,
    UInt8,
    /// Canonical numeric text: a decimal or a rendered floating value.
    Number,
    Bool,
    Text,
}

/// One declared field of the target record: its own name, the column
/// it is filled from when that differs (rename), its kind, and whether
/// a value is required.
pub struct FieldSpec {
    pub name: String,
    /// The column the field is filled from; `None` means the field
    /// name itself.
    pub column: Option<String>,
    pub kind: FieldKind,
    pub required: bool,
}

/// The caller-declared record shape: supplied per invocation, never
/// retained.
pub struct TargetRecord {
    pub fields: Vec<FieldSpec>,
}

/// One bound field value, typed according to its declared kind.
pub enum FieldValue {
    Int64(i64),
    Int32(i32),
    Int16(i16),
    UInt8(u8),
    Number(String),
    Bool(bool),
    Text(String),
    /// An optional field whose column was absent or null.
    Null,
}

/// A populated record: one value per declared field, in declaration
/// order.
pub struct BoundField {
    pub name: String,
    pub value: FieldValue,
}

pub struct BoundRecord {
    pub fields: Vec<BoundField>,
}

/// What a bound value is, at specification level.
pub enum FieldModel {
    Int64(int),
    Int32(int),
    Int16(int),
    UInt8(int),
    Number(Seq<char>),
    Bool(bool),
    Text(Seq<char>),
    Null,
}

pub open spec fn field_model(v: FieldValue) -> FieldModel {
    match v {
        FieldValue::Int64(n) => FieldModel::Int64(n as int),
        FieldValue::Int32(n) => FieldModel::Int32(n as int),
        FieldValue::Int16(n) => FieldModel::Int16(n as int),
        FieldValue::UInt8(n) => FieldModel::UInt8(n as int),
        FieldValue::Number(t) => FieldModel::Number(t@),
        FieldValue::Bool(b) => FieldModel::Bool(b),
        FieldValue::Text(t) => FieldModel::Text(t@),
        FieldValue::Null => FieldModel::Null,
    }
}

/// The column name a field is filled from, after rename resolution.
pub open spec fn spec_source(f: FieldSpec) -> Seq<char> {
    match f.column {
        Option::Some(c) => c@,
        Option::None => f.name@,
    }
}

/// The first document line with the given name, if any.
pub open spec fn spec_lookup(lines: Seq<Line>, name: Seq<char>) -> Option<Scalar>
    decreases lines.len(),
{
    if lines.len() == 0 {
        Option::None
    } else if lines[0].name@ == name {
        Option::Some(lines[0].value)
    } else {
        spec_lookup(lines.drop_first(), name)
    }
}

/// How a scalar coerces into a declared kind: exactly the matching
/// scalar kind, with a range check for the narrower integer widths, and
/// no coercion across kinds.
pub open spec fn spec_coerce(k: FieldKind, m: ScalarModel) -> Option<FieldModel> {
    match (k, m) {
        (FieldKind::Int64, ScalarModel::Int(v)) => Option::Some(FieldModel::Int64(v)),
        (FieldKind::Int32, ScalarModel::Int(v)) => if i32::MIN as int <= v <= i32::MAX as int {
            Option::Some(FieldModel::Int32(v))
        } else {
            Option::None
        },
        (FieldKind::Int16, ScalarModel::Int(v)) => if i16::MIN as int <= v <= i16::MAX as int {
            Option::Some(FieldModel::Int16(v))
        } else {
            Option::None
        },
        (FieldKind::UInt8, ScalarModel::Int(v)) => if 0 <= v <= u8::MAX as int {
            Option::Some(FieldModel::UInt8(v))
        } else {
            Option::None
        },
        (FieldKind::Number, ScalarModel::Num(t)) => Option::Some(FieldModel::Number(t)),
        (FieldKind::Bool, ScalarModel::Bool(b)) => Option::Some(FieldModel::Bool(b)),
        (FieldKind::Text, ScalarModel::Txt(t)) => Option::Some(FieldModel::Text(t)),
        _ => Option::None,
    }
}

/// How one field binds against the document; `None` is failure.  A
/// missing entry or an explicit null fills an optional field with
/// `Null` and fails a required one.
pub open spec fn spec_bind_field(f: FieldSpec, lines: Seq<Line>) -> Option<FieldModel> {
    match spec_lookup(lines, spec_source(f)) {
        Option::None => if f.required {
            Option::None
        } else {
            Option::Some(FieldModel::Null)
        },
        Option::Some(s) => if scalar_model(s) is Null {
            if f.required {
                Option::None
            } else {
                Option::Some(FieldModel::Null)
            }
        } else {
            spec_coerce(f.kind, scalar_model(s))
        },
    }
}

/// Which error a failing field reports: a missing entry reports
/// `MissingField`, anything else `FieldMismatch`, both under the
/// field's own name.
pub open spec fn spec_bind_error(f: FieldSpec, lines: Seq<Line>, e: ConversionError) -> bool {
    match spec_lookup(lines, spec_source(f)) {
        Option::None => e matches ConversionError::MissingField(n) && n@ == f.name@,
        Option::Some(_) => e matches ConversionError::FieldMismatch(n) && n@ == f.name@,
    }
}

/// A record fully bound from the document: every declared field, in
/// order, under its own name, holding what `spec_bind_field` gives.
pub open spec fn binds_ok(target: Seq<FieldSpec>, lines: Seq<Line>, rec: BoundRecord) -> bool {
    &&& rec.fields@.len() == target.len()
    &&& forall|i: int|
        0 <= i < target.len() ==> {
            &&& (#[trigger] rec.fields@[i]).name@ == target[i].name@
            &&& Option::Some(field_model(rec.fields@[i].value)) == spec_bind_field(
                target[i],
                lines,
            )
        }
}

/// A failed binding: the error reports the first declared field that
/// does not bind.
pub open spec fn bind_fails(target: Seq<FieldSpec>, lines: Seq<Line>, e: ConversionError) -> bool {
    exists|i: int|
        {
            &&& 0 <= i < target.len()
            &&& spec_bind_field(#[trigger] target[i], lines) is None
            &&& spec_bind_error(target[i], lines, e)
            &&& forall|j: int| 0 <= j < i ==> spec_bind_field(#[trigger] target[j], lines) is Some
        }
}

/// The first document line named `name`, if any.
fn find_line<'a>(doc: &'a Document, name: &String) -> (r: Option<&'a Scalar>)
    ensures
        match r {
            Option::Some(s) => spec_lookup(doc.lines@, name@) == Option::Some(*s),
            Option::None => spec_lookup(doc.lines@, name@) is None,
        },
{
    let n: usize = doc.lines.len();
    let mut i: usize = 0;
    proof {
        assert(doc.lines@.subrange(0, n as int) =~= doc.lines@);
    }
    while i < n
        invariant
            i <= n,
            n == doc.lines@.len(),
            spec_lookup(doc.lines@, name@) == spec_lookup(
                doc.lines@.subrange(i as int, n as int),
                name@,
            ),
        decreases n - i,
    {
        proof {
            assert(doc.lines@.subrange(i as int, n as int)[0] == doc.lines@[i as int]);
            assert(doc.lines@.subrange(i as int, n as int).drop_first() =~= doc.lines@.subrange(
                i as int + 1,
                n as int,
            ));
        }
        if doc.lines[i].name == *name {
            return Option::Some(&doc.lines[i].value);
        }
        i = i + 1;
    }
    proof {
        assert(doc.lines@.subrange(n as int, n as int).len() == 0);
    }
    Option::None
}

/// Bind the intermediate document to the target record shape.  Fails
/// atomically on the first field whose entry is missing or does not
/// fit; the caller never sees a partially populated record.
#[verifier::rlimit(60)]
pub fn bind(doc: &Document, target: &TargetRecord) -> (r: Result<BoundRecord, ConversionError>)
    ensures
        match r {
            Result::Ok(rec) => binds_ok(target.fields@, doc.lines@, rec),
            Result::Err(e) => bind_fails(target.fields@, doc.lines@, e),
        },
{
    let mut fields: Vec<BoundField> = Vec::new();
    let mut i: usize = 0;
    while i < target.fields.len()
        invariant
            i <= target.fields@.len(),
            fields@.len() == i,
            forall|k: int|
                0 <= k < i ==> {
                    &&& (#[trigger] fields@[k]).name@ == target.fields@[k].name@
                    &&& Option::Some(field_model(fields@[k].value)) == spec_bind_field(
                        target.fields@[k],
                        doc.lines@,
                    )
                },
        decreases target.fields@.len() - i,
    {
        let f = &target.fields[i];
        let source: &String = match &f.column {
            Option::Some(c) => c,
            Option::None => &f.name,
        };
        proof {
            assert(source@ == spec_source(target.fields@[i as int]));
        }
        let looked = find_line(doc, source);
        let mut failed: bool = false;
        let fv: FieldValue = match looked {
            Option::None => {
                if f.required {
                    failed = true;
                }
                FieldValue::Null
            },
            Option::Some(sc) => match sc {
                Scalar::Null => {
                    if f.required {
                        failed = true;
                    }
                    FieldValue::Null
                },
                Scalar::Int(v) => match f.kind {
                    FieldKind::Int64 => FieldValue::Int64(*v),
                    FieldKind::Int32 => {
                        if *v < i32::MIN as i64 || *v > i32::MAX as i64 {
                            failed = true;
                            FieldValue::Null
                        } else {
                            FieldValue::Int32(*v as i32)
                        }
                    },
                    FieldKind::Int16 => {
                        if *v < i16::MIN as i64 || *v > i16::MAX as i64 {
                            failed = true;
                            FieldValue::Null
                        } else {
                            FieldValue::Int16(*v as i16)
                        }
                    },
                    FieldKind::UInt8 => {
                        if *v < 0 || *v > u8::MAX as i64 {
                            failed = true;
                            FieldValue::Null
                        } else {
                            FieldValue::UInt8(*v as u8)
                        }
                    },
                    _ => {
                        failed = true;
                        FieldValue::Null
                    },
                },
                Scalar::Num(t) => match f.kind {
                    FieldKind::Number => FieldValue::Number(t.clone()),
                    _ => {
                        failed = true;
                        FieldValue::Null
                    },
                },
                Scalar::Txt(t) => match f.kind {
                    FieldKind::Text => FieldValue::Text(t.clone()),
                    _ => {
                        failed = true;
                        FieldValue::Null
                    },
                },
                Scalar::Bool(b) => match f.kind {
                    FieldKind::Bool => FieldValue::Bool(*b),
                    _ => {
                        failed = true;
                        FieldValue::Null
                    },
                },
            },
        };
        if failed {
            let e = if matches!(looked, Option::None) {
                ConversionError::MissingField(f.name.clone())
            } else {
                ConversionError::FieldMismatch(f.name.clone())
            };
            proof {
                assert(spec_bind_field(target.fields@[i as int], doc.lines@) is None);
                assert(spec_bind_error(target.fields@[i as int], doc.lines@, e));
                assert forall|j: int|
                    0 <= j < i implies spec_bind_field(
                    #[trigger] target.fields@[j],
                    doc.lines@,
                ) is Some by {
                    assert(Option::Some(field_model(fields@[j].value)) == spec_bind_field(
                        target.fields@[j],
                        doc.lines@,
                    ));
                };
            }
            return Result::Err(e);
        }
        fields.push(BoundField { name: f.name.clone(), value: fv });
        i = i + 1;
    }
    Result::Ok(BoundRecord { fields })
}

/// Project a row and bind the resulting document in one step: the
/// convenience composition over `project` and `bind`, with the two
/// error kinds united in `RowError`.
pub fn decode_row(columns: &Vec<Column>, target: &TargetRecord) -> (r: Result<
    BoundRecord,
    RowError,
>)
    requires
        row_wf(columns@),
    ensures
        match r {
            Result::Ok(rec) => exists|lines: Seq<Line>|
                #[trigger] projects_to(columns@, lines) && binds_ok(target.fields@, lines, rec),
            Result::Err(e) => match e {
                RowError::DataTypeError(_) => project_fails(columns@, e),
                RowError::ConvertError(ce) => exists|lines: Seq<Line>|
                    #[trigger] projects_to(columns@, lines) && bind_fails(
                        target.fields@,
                        lines,
                        ce,
                    ),
            },
        },
{
    match project(columns) {
        Result::Ok(doc) => match bind(&doc, target) {
            Result::Ok(rec) => {
                proof {
                    assert(projects_to(columns@, doc.lines@));
                }
                Result::Ok(rec)
            },
            Result::Err(ce) => {
                proof {
                    assert(projects_to(columns@, doc.lines@));
                }
                Result::Err(RowError::ConvertError(ce))
            },
        },
        Result::Err(e) => Result::Err(e),
    }
}

} // verus!

use rowproj::bind::{bind, decode_row, BoundRecord, FieldKind, FieldSpec, FieldValue,
    TargetRecord};
use rowproj::config::{AppConfig, DbServerConfig, LabelFmtConfig};
use rowproj::datetime::LegacyDateTime;
use rowproj::error::{ConversionError, RowError};
use rowproj::row::{project, Column, Scalar, Value};

fn col(name: &str, value: Value) -> Column {
    Column { name: name.to_string(), value }
}

fn field(name: &str, column: Option<&str>, kind: FieldKind, required: bool) -> FieldSpec {
    FieldSpec {
        name: name.to_string(),
        column: column.map(|c| c.to_string()),
        kind,
        required,
    }
}

fn value_of<'a>(rec: &'a BoundRecord, name: &str) -> &'a FieldValue {
    let f = rec.fields.iter().find(|f| f.name == name).expect("field");
    &f.value
}

#[test]
fn project_renders_each_kind() {
    let doc = project(&vec![
        col("a", Value::Int64(Some(7))),
        col("b", Value::Int16(Some(-3))),
        col("c", Value::UInt8(Some(200))),
        col("d", Value::Bool(Some(true))),
        col("e", Value::Text(Some("hi".to_string()))),
        col("f", Value::Decimal(Some("12.50".to_string()))),
        col("g", Value::LegacyDateTime(Some(LegacyDateTime { days: 1, fragments: 150 }))),
    ])
    .expect("supported row");
    assert!(matches!(doc.lines[0].value, Scalar::Int(7)));
    assert!(matches!(doc.lines[1].value, Scalar::Int(-3)));
    assert!(matches!(doc.lines[2].value, Scalar::Int(200)));
    assert!(matches!(doc.lines[3].value, Scalar::Bool(true)));
    assert!(matches!(&doc.lines[4].value, Scalar::Txt(t) if t == "hi"));
    assert!(matches!(&doc.lines[5].value, Scalar::Num(t) if t == "12.50"));
    assert!(matches!(&doc.lines[6].value, Scalar::Txt(t) if t == "1900-01-02T00:00:00.5Z"));
    assert_eq!(doc.lines[6].name, "g");
}

#[test]
fn null_text_becomes_empty_string() {
    let doc = project(&vec![
        col("t", Value::Text(None)),
        col("n", Value::Int32(None)),
        col("m", Value::Decimal(None)),
    ])
    .expect("supported row");
    assert!(matches!(&doc.lines[0].value, Scalar::Txt(t) if t.is_empty()));
    assert!(matches!(doc.lines[1].value, Scalar::Null));
    assert!(matches!(doc.lines[2].value, Scalar::Null));
}

#[test]
fn unsupported_kind_fails_whole_row() {
    let r = project(&vec![
        col("ok", Value::Int64(Some(1))),
        col("bad", Value::Unsupported("Guid(some-guid)".to_string())),
        col("later", Value::Int32(Some(2))),
    ]);
    match r {
        Err(RowError::DataTypeError(m)) => assert_eq!(m, "Guid(some-guid)"),
        other => panic!("expected a data type error, got {:?}", other.is_ok()),
    }
}

#[test]
fn missing_renamed_field_is_an_error() {
    let doc = project(&vec![col("SerialType", Value::Text(Some("ZTE".to_string())))])
        .expect("supported row");
    // The target wants `serialtype` but declares no rename, so the
    // document's `SerialType` entry does not match.
    let target = TargetRecord {
        fields: vec![field("serialtype", None, FieldKind::Text, true)],
    };
    match bind(&doc, &target) {
        Err(ConversionError::MissingField(n)) => assert_eq!(n, "serialtype"),
        _ => panic!("expected a missing field error"),
    }
}

#[test]
fn kind_mismatch_is_an_error() {
    let doc = project(&vec![col("n", Value::Text(Some("7".to_string())))]).expect("row");
    let target = TargetRecord {
        fields: vec![field("n", None, FieldKind::Int64, true)],
    };
    match bind(&doc, &target) {
        Err(ConversionError::FieldMismatch(n)) => assert_eq!(n, "n"),
        _ => panic!("expected a mismatch error"),
    }
}

#[test]
fn narrow_integer_out_of_range_is_an_error() {
    let doc = project(&vec![col("n", Value::Int64(Some(1 << 40)))]).expect("row");
    let target = TargetRecord {
        fields: vec![field("n", None, FieldKind::Int32, true)],
    };
    assert!(matches!(bind(&doc, &target), Err(ConversionError::FieldMismatch(_))));
}

#[test]
fn optional_fields_accept_absence_and_null() {
    let doc = project(&vec![col("present", Value::Int32(None))]).expect("row");
    let target = TargetRecord {
        fields: vec![
            field("present", None, FieldKind::Int32, false),
            field("absent", None, FieldKind::Text, false),
        ],
    };
    let rec = bind(&doc, &target).expect("optional fields bind");
    assert!(matches!(value_of(&rec, "present"), FieldValue::Null));
    assert!(matches!(value_of(&rec, "absent"), FieldValue::Null));
}

#[test]
fn required_null_is_an_error() {
    let doc = project(&vec![col("n", Value::Int32(None))]).expect("row");
    let target = TargetRecord {
        fields: vec![field("n", None, FieldKind::Int32, true)],
    };
    assert!(matches!(bind(&doc, &target), Err(ConversionError::FieldMismatch(_))));
}

#[test]
fn end_to_end_serial_number_row() {
    let columns = vec![
        col("ID", Value::Int64(Some(7))),
        col("SerialType", Value::Text(Some("ZTE".to_string()))),
        col("CurrentSerialNumber", Value::Text(Some("0042".to_string()))),
    ];
    let target = TargetRecord {
        fields: vec![
            field("id", Some("ID"), FieldKind::Int64, true),
            field("serialtype", Some("SerialType"), FieldKind::Text, true),
            field("serialnumber", Some("CurrentSerialNumber"), FieldKind::Text, true),
        ],
    };
    let rec = decode_row(&columns, &target).expect("row decodes");
    assert!(matches!(value_of(&rec, "id"), FieldValue::Int64(7)));
    assert!(matches!(value_of(&rec, "serialtype"), FieldValue::Text(t) if t == "ZTE"));
    assert!(matches!(value_of(&rec, "serialnumber"), FieldValue::Text(t) if t == "0042"));
}

#[test]
fn decode_row_reports_data_type_error() {
    let columns = vec![col("bad", Value::Unsupported("Xml".to_string()))];
    let target = TargetRecord { fields: vec![] };
    match decode_row(&columns, &target) {
        Err(RowError::DataTypeError(m)) => assert_eq!(m, "Xml"),
        _ => panic!("expected a data type error"),
    }
}

#[test]
fn decode_row_reports_conversion_error() {
    let columns = vec![col("a", Value::Int64(Some(1)))];
    let target = TargetRecord {
        fields: vec![field("b", None, FieldKind::Int64, true)],
    };
    match decode_row(&columns, &target) {
        Err(RowError::ConvertError(e)) => assert_eq!(e.field_name(), "b"),
        _ => panic!("expected a conversion error"),
    }
}

#[test]
fn empty_row_projects_to_empty_document() {
    let doc = project(&vec![]).expect("empty row");
    assert!(doc.lines.is_empty());
    let target = TargetRecord { fields: vec![] };
    let rec = bind(&doc, &target).expect("empty target");
    assert!(rec.fields.is_empty());
}

#[test]
fn default_config_has_stock_label_fields() {
    let c = AppConfig::default();
    assert_eq!(c.dbserver.host, "");
    assert_eq!(c.dbserver.port, 0);
    assert_eq!(c.labelfmt.coo, "CN");
    assert_eq!(c.labelfmt.envirattr, "HSF-S");
    assert_eq!(c.labelfmt.desc, "贴片普通晶体振荡器");
    let d = DbServerConfig::default();
    assert_eq!(d.database, "");
    let l = LabelFmtConfig::default();
    assert_eq!(l.remark, "");
}

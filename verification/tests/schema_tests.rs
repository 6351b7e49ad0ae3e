use kafka_bigquery::json::{JsonNumber, JsonValue};
use kafka_bigquery::schema::{create_schema, fields_to_add, get_field_type, schema_update, FieldKind, FieldSchema};

fn obj(entries: Vec<(&str, JsonValue)>) -> JsonValue {
    JsonValue::Object(entries.into_iter().map(|(k, v)| (k.to_string(), v)).collect())
}

fn num() -> JsonValue {
    JsonValue::Number(JsonNumber::Float(1.5f64.to_bits()))
}

fn sorted(fields: Vec<FieldSchema>) -> Vec<(String, FieldKind, bool)> {
    let mut v: Vec<(String, FieldKind, bool)> =
        fields.into_iter().map(|f| (f.name, f.field_type, f.repeated)).collect();
    v.sort_by(|a, b| a.0.cmp(&b.0));
    v
}

#[test]
fn field_type_of_scalars() {
    assert_eq!(get_field_type(JsonValue::Bool(true)), FieldKind::Boolean);
    assert_eq!(get_field_type(num()), FieldKind::Float64);
    assert_eq!(get_field_type(JsonValue::Number(JsonNumber::NegInt(-3))), FieldKind::Float64);
    assert_eq!(get_field_type(JsonValue::String("a".to_string())), FieldKind::String);
    assert_eq!(get_field_type(obj(vec![])), FieldKind::Record);
    assert_eq!(get_field_type(JsonValue::Null), FieldKind::String);
}

#[test]
fn field_type_of_array_is_that_of_its_last_element() {
    assert_eq!(get_field_type(JsonValue::Array(vec![])), FieldKind::String);
    assert_eq!(
        get_field_type(JsonValue::Array(vec![JsonValue::Bool(true), num()])),
        FieldKind::Float64
    );
    assert_eq!(
        get_field_type(JsonValue::Array(vec![num(), JsonValue::Array(vec![JsonValue::Bool(false)])])),
        FieldKind::Boolean
    );
}

#[test]
fn create_schema_has_one_column_per_flattened_key() {
    let v = obj(vec![
        ("a", obj(vec![("b", num()), ("c", JsonValue::Array(vec![JsonValue::Bool(true)]))])),
        ("d", JsonValue::String("x".to_string())),
        ("e", JsonValue::Null),
    ]);
    let got = sorted(create_schema(v));
    assert_eq!(
        got,
        vec![
            ("a_b".to_string(), FieldKind::Float64, false),
            ("a_c".to_string(), FieldKind::Boolean, true),
            ("d".to_string(), FieldKind::String, false),
            ("e".to_string(), FieldKind::String, false),
        ]
    );
}

#[test]
fn create_schema_of_scalar_row_has_an_unnamed_column() {
    let got = sorted(create_schema(JsonValue::Bool(true)));
    assert_eq!(got, vec![(String::new(), FieldKind::Boolean, false)]);
}

#[test]
fn fields_to_add_keeps_only_new_names_in_order() {
    let existing = vec!["a".to_string(), "c".to_string()];
    let new_fields = vec![
        FieldSchema { name: "c".to_string(), field_type: FieldKind::String, repeated: false },
        FieldSchema { name: "b".to_string(), field_type: FieldKind::Boolean, repeated: true },
        FieldSchema { name: "a".to_string(), field_type: FieldKind::Record, repeated: false },
        FieldSchema { name: "d".to_string(), field_type: FieldKind::Float64, repeated: false },
    ];
    let got: Vec<String> = fields_to_add(&existing, new_fields).into_iter().map(|f| f.name).collect();
    assert_eq!(got, vec!["b".to_string(), "d".to_string()]);
}

#[test]
fn schema_update_reports_missing_columns() {
    let row = || obj(vec![("a", num()), ("b", obj(vec![("c", JsonValue::Bool(true))]))]);
    let existing = vec!["a".to_string()];
    let added = schema_update(&existing, row()).expect("a column is missing");
    assert_eq!(sorted(added), vec![("b_c".to_string(), FieldKind::Boolean, false)]);
}

#[test]
fn schema_update_settles_once_columns_are_added() {
    let row = || obj(vec![("a", num()), ("b", JsonValue::String("t".to_string()))]);
    let mut existing: Vec<String> = vec![];
    let added = schema_update(&existing, row()).expect("every column is missing");
    existing.extend(added.into_iter().map(|f| f.name));
    assert!(schema_update(&existing, row()).is_none());
}

#[test]
fn schema_update_none_when_table_has_all_columns() {
    let existing = vec!["x".to_string(), "y".to_string(), "z".to_string()];
    let row = obj(vec![("x", num()), ("y", JsonValue::Null)]);
    assert!(schema_update(&existing, row).is_none());
}

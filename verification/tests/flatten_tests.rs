use kafka_bigquery::flatten::{flatten_json, flatten_json_for_schema};
use kafka_bigquery::json::{JsonMap, JsonNumber, JsonValue};

fn s(t: &str) -> String {
    t.to_string()
}

fn obj(entries: Vec<(&str, JsonValue)>) -> JsonValue {
    JsonValue::Object(entries.into_iter().map(|(k, v)| (k.to_string(), v)).collect())
}

fn num(i: u64) -> JsonValue {
    JsonValue::Number(JsonNumber::PosInt(i))
}

fn entries(m: JsonMap) -> Vec<(String, String)> {
    let mut out: Vec<(String, String)> = m
        .into_entries()
        .into_iter()
        .map(|(k, v)| (k, format!("{:?}", v)))
        .collect();
    out.sort();
    out
}

#[test]
fn flatten_nested_object_joins_keys_with_underscore() {
    let v = obj(vec![
        ("a", obj(vec![("b", num(1)), ("c", obj(vec![("d", JsonValue::Bool(true))]))])),
        ("e", JsonValue::String(s("x"))),
    ]);
    let mut m = JsonMap::new();
    flatten_json(v, "", &mut m);
    let got = entries(m);
    assert_eq!(
        got,
        vec![
            (s("a_b"), format!("{:?}", num(1))),
            (s("a_c_d"), format!("{:?}", JsonValue::Bool(true))),
            (s("e"), format!("{:?}", JsonValue::String(s("x")))),
        ]
    );
}

#[test]
fn flatten_scalar_at_top_is_filed_under_the_prefix() {
    let mut m = JsonMap::new();
    flatten_json(num(7), "", &mut m);
    assert_eq!(entries(m), vec![(s(""), format!("{:?}", num(7)))]);

    let mut m = JsonMap::new();
    flatten_json(JsonValue::Null, "col", &mut m);
    assert_eq!(entries(m), vec![(s("col"), format!("{:?}", JsonValue::Null))]);
}

#[test]
fn flatten_keeps_arrays_whole() {
    let arr = JsonValue::Array(vec![num(1), obj(vec![("z", num(2))])]);
    let v = obj(vec![("list", arr)]);
    let mut m = JsonMap::new();
    flatten_json(v, "", &mut m);
    let got = m.into_entries();
    assert_eq!(got.len(), 1);
    assert_eq!(got[0].0, "list");
    assert!(got[0].1.is_array());
}

#[test]
fn flatten_empty_object_adds_nothing() {
    let mut m = JsonMap::new();
    flatten_json(obj(vec![]), "", &mut m);
    assert_eq!(m.len(), 0);
}

#[test]
fn flatten_later_member_overrides_colliding_key() {
    // "a" comes before "a_b" in key order; both file under "a_b".
    let v = obj(vec![("a", obj(vec![("b", num(2))])), ("a_b", num(1))]);
    let mut m = JsonMap::new();
    flatten_json(v, "", &mut m);
    assert_eq!(entries(m), vec![(s("a_b"), format!("{:?}", num(1)))]);
}

#[test]
fn flatten_with_prefix_and_empty_member_key() {
    let v = obj(vec![("", num(3)), ("k", num(4))]);
    let mut m = JsonMap::new();
    flatten_json(v, "p", &mut m);
    assert_eq!(
        entries(m),
        vec![(s("p_"), format!("{:?}", num(3))), (s("p_k"), format!("{:?}", num(4)))]
    );
}

#[test]
fn flatten_for_schema_agrees_with_flatten_json() {
    let make = || obj(vec![("a", obj(vec![("b", num(1))])), ("c", JsonValue::Bool(false))]);
    let mut m1 = JsonMap::new();
    flatten_json(make(), "", &mut m1);
    let mut m2 = JsonMap::new();
    flatten_json_for_schema("", make(), &mut m2);
    assert_eq!(entries(m1), entries(m2));
}

#[test]
fn flatten_row_holds_no_objects() {
    let v = obj(vec![("a", obj(vec![("b", obj(vec![("c", num(1))]))])), ("d", obj(vec![]))]);
    let mut m = JsonMap::new();
    flatten_json(v, "", &mut m);
    for (_, v) in m.into_entries() {
        assert!(!matches!(v, JsonValue::Object(_)));
    }
}

#[test]
fn json_map_insert_replaces_existing_key() {
    let mut m = JsonMap::new();
    m.insert(s("k"), num(1));
    m.insert(s("j"), num(2));
    m.insert(s("k"), num(3));
    assert_eq!(m.len(), 2);
    assert_eq!(entries(m), vec![(s("j"), format!("{:?}", num(2))), (s("k"), format!("{:?}", num(3)))]);
}

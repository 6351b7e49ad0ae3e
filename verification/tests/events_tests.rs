use kafka_bigquery::events::{
    parse_event_data, parse_event_value, parse_value_map, BrokerType, Duration, EventData, EventHeader,
    EventValue, EventValueKind, ValueMap, ValueVector,
};
use kafka_bigquery::json::{JsonNumber, JsonValue};

fn ev(k: EventValueKind) -> EventValue {
    EventValue { value: Some(k) }
}

fn keys(v: &JsonValue) -> Vec<String> {
    match v {
        JsonValue::Object(es) => es.iter().map(|(k, _)| k.clone()).collect(),
        _ => panic!("not an object"),
    }
}

#[test]
fn event_scalars() {
    assert!(matches!(parse_event_value(EventValue { value: None }), JsonValue::Null));
    assert!(matches!(parse_event_value(ev(EventValueKind::IntV(-5))), JsonValue::Number(JsonNumber::NegInt(-5))));
    assert!(matches!(parse_event_value(ev(EventValueKind::IntV(5))), JsonValue::Number(JsonNumber::PosInt(5))));
    assert!(matches!(parse_event_value(ev(EventValueKind::BooleanV(true))), JsonValue::Bool(true)));
    match parse_event_value(ev(EventValueKind::StringV("s".to_string()))) {
        JsonValue::String(t) => assert_eq!(t, "s"),
        _ => panic!(),
    }
    match parse_event_value(ev(EventValueKind::DateTimeV("2024-01-01T00:00:00Z".to_string()))) {
        JsonValue::String(t) => assert_eq!(t, "2024-01-01T00:00:00Z"),
        _ => panic!(),
    }
}

#[test]
fn event_doubles() {
    let bits = 2.5f64.to_bits();
    assert!(matches!(parse_event_value(ev(EventValueKind::DoubleV(bits))), JsonValue::Number(JsonNumber::Float(b)) if b == bits));
    assert!(matches!(parse_event_value(ev(EventValueKind::DoubleV(f64::NAN.to_bits()))), JsonValue::Null));
    assert!(matches!(parse_event_value(ev(EventValueKind::DoubleV(f64::INFINITY.to_bits()))), JsonValue::Null));
}

#[test]
fn event_duration() {
    let j = parse_event_value(ev(EventValueKind::DurationV(Duration { seconds: 3, nanos: -4 })));
    assert_eq!(keys(&j), vec!["nanos".to_string(), "seconds".to_string()]);
    match j {
        JsonValue::Object(es) => {
            assert!(matches!(es[0].1, JsonValue::Number(JsonNumber::NegInt(-4))));
            assert!(matches!(es[1].1, JsonValue::Number(JsonNumber::PosInt(3))));
        },
        _ => panic!(),
    }
}

#[test]
fn event_vector_keeps_order() {
    let vv = ValueVector { values: vec![ev(EventValueKind::IntV(1)), EventValue { value: None }, ev(EventValueKind::BooleanV(false))] };
    match parse_event_value(ev(EventValueKind::VectorV(vv))) {
        JsonValue::Array(items) => {
            assert_eq!(items.len(), 3);
            assert!(matches!(items[0], JsonValue::Number(JsonNumber::PosInt(1))));
            assert!(matches!(items[1], JsonValue::Null));
            assert!(matches!(items[2], JsonValue::Bool(false)));
        },
        _ => panic!(),
    }
}

#[test]
fn value_map_keys_come_out_sorted() {
    let vm = ValueMap {
        values: vec![
            ("zeta".to_string(), ev(EventValueKind::IntV(1))),
            ("alpha".to_string(), ev(EventValueKind::IntV(2))),
            ("mid".to_string(), ev(EventValueKind::MapV(ValueMap { values: vec![("b".to_string(), ev(EventValueKind::IntV(3))), ("a".to_string(), ev(EventValueKind::IntV(4)))] }))),
        ],
    };
    let j = parse_value_map(vm);
    assert_eq!(keys(&j), vec!["alpha".to_string(), "mid".to_string(), "zeta".to_string()]);
    match j {
        JsonValue::Object(es) => assert_eq!(keys(&es[1].1), vec!["a".to_string(), "b".to_string()]),
        _ => panic!(),
    }
}

#[test]
fn value_map_last_value_for_a_key_wins() {
    let vm = ValueMap {
        values: vec![
            ("k".to_string(), ev(EventValueKind::IntV(1))),
            ("k".to_string(), ev(EventValueKind::IntV(2))),
        ],
    };
    match parse_value_map(vm) {
        JsonValue::Object(es) => {
            assert_eq!(es.len(), 1);
            assert!(matches!(es[0].1, JsonValue::Number(JsonNumber::PosInt(2))));
        },
        _ => panic!(),
    }
}

#[test]
fn event_data_document() {
    let data = EventData {
        header: EventHeader {
            tenant_id: "t".to_string(),
            device_id: "d".to_string(),
            message_id: "m".to_string(),
            tags: "g".to_string(),
            ingestion_timestamp: "ts".to_string(),
            broker_type: Some(BrokerType::Http),
            event_id: "e".to_string(),
        },
        body: Some(ValueMap { values: vec![("speed".to_string(), ev(EventValueKind::IntV(9)))] }),
    };
    let j = parse_event_data(data);
    assert_eq!(keys(&j), vec!["body".to_string(), "header".to_string()]);
    match j {
        JsonValue::Object(es) => {
            assert_eq!(keys(&es[0].1), vec!["speed".to_string()]);
            assert_eq!(
                keys(&es[1].1),
                vec!["device_id", "event_id", "ingestion_timestamp", "message_id", "tags", "tenant_id"]
                    .into_iter()
                    .map(|s| s.to_string())
                    .collect::<Vec<_>>()
            );
            match &es[1].1 {
                JsonValue::Object(h) => match &h[0].1 {
                    JsonValue::String(t) => assert_eq!(t, "d"),
                    _ => panic!(),
                },
                _ => panic!(),
            }
        },
        _ => panic!(),
    }
}

use kafka_bigquery::consumer::{next_action, ConsumerAction, PollOutcome};
use kafka_bigquery::ingest::{deserializer, find_json_frame, frame_json_text, process_data, try_deserializer};
use kafka_bigquery::json::{JsonNumber, JsonValue};
use kafka_bigquery::text::{compare_keys, KeyOrder};

#[test]
fn frame_json_text_frames_first_open_to_last_close_brace() {
    assert_eq!(frame_json_text("garbage {\"a\": {\"b\": 1}} trailing } end"), "{\"a\": {\"b\": 1}} trailing }");
    assert_eq!(frame_json_text("{}"), "{}");
}

#[test]
fn frame_json_text_is_idempotent() {
    let once = frame_json_text("xx{\"k\":\"v\"}yy");
    assert_eq!(once, "{\"k\":\"v\"}");
    assert_eq!(frame_json_text(&once), once);
}

fn describe(v: &JsonValue) -> String {
    format!("{:?}", v)
}

#[test]
fn process_data_parses_the_framed_document() {
    let got = process_data("log line {\"b\": [1, -2, 2.5], \"a\": null} end").expect("parses");
    let expected = JsonValue::Object(vec![
        ("a".to_string(), JsonValue::Null),
        (
            "b".to_string(),
            JsonValue::Array(vec![
                JsonValue::Number(JsonNumber::PosInt(1)),
                JsonValue::Number(JsonNumber::NegInt(-2)),
                JsonValue::Number(JsonNumber::Float(2.5f64.to_bits())),
            ]),
        ),
    ]);
    assert_eq!(describe(&got), describe(&expected));
}

#[test]
fn process_data_none_when_frame_is_not_json() {
    assert!(process_data("{not json}").is_none());
    assert!(process_data("{\"a\": 1} and }").is_none());
}

#[test]
fn find_json_frame_positions_count_characters() {
    assert_eq!(find_json_frame("é{x}"), Some((1, 3)));
    assert_eq!(find_json_frame("no braces"), None);
    assert_eq!(find_json_frame("} before {"), None);
    assert_eq!(find_json_frame("{"), None);
}

#[test]
fn deserializer_decodes_frames_and_parses() {
    let got = deserializer(b"id=7 {\"temp\": 21}\n").expect("parses");
    let expected = JsonValue::Object(vec![("temp".to_string(), JsonValue::Number(JsonNumber::PosInt(21)))]);
    assert_eq!(describe(&got), describe(&expected));
}

#[test]
fn deserializer_replaces_invalid_utf8() {
    let payload: &[u8] = &[0xff, b'{', b'"', 0xfe, b'"', b':', b'1', b'}'];
    let got = deserializer(payload).expect("parses");
    let expected = JsonValue::Object(vec![("\u{fffd}".to_string(), JsonValue::Number(JsonNumber::PosInt(1)))]);
    assert_eq!(describe(&got), describe(&expected));
}

#[test]
fn try_deserializer_none_without_frame_or_json() {
    assert!(try_deserializer(b"plain text").is_none());
    assert!(try_deserializer(b"{oops}").is_none());
    let got = try_deserializer(b"{\"a\":true}").expect("parses");
    assert_eq!(describe(&got), describe(&JsonValue::Object(vec![("a".to_string(), JsonValue::Bool(true))])));
}

#[test]
fn next_action_for_each_poll_outcome() {
    assert!(matches!(next_action(PollOutcome::Nothing), ConsumerAction::Wait));
    assert!(matches!(next_action(PollOutcome::Failed), ConsumerAction::ReportError));
    assert!(matches!(next_action(PollOutcome::Message(None)), ConsumerAction::ReportMissingPayload));
    match next_action(PollOutcome::Message(Some(b" {\"x\": true} ".to_vec()))) {
        ConsumerAction::Insert(j) => assert_eq!(
            describe(&j),
            describe(&JsonValue::Object(vec![("x".to_string(), JsonValue::Bool(true))]))
        ),
        other => panic!("unexpected {:?}", other),
    }
    assert!(matches!(next_action(PollOutcome::Message(Some(b"nothing".to_vec()))), ConsumerAction::Abort));
    assert!(matches!(next_action(PollOutcome::Message(Some(b"{bad}".to_vec()))), ConsumerAction::Abort));
}

#[test]
fn compare_keys_orders_by_code_point() {
    assert_eq!(compare_keys("a", "b"), KeyOrder::Less);
    assert_eq!(compare_keys("ab", "a"), KeyOrder::Greater);
    assert_eq!(compare_keys("", ""), KeyOrder::Equal);
    assert_eq!(compare_keys("", "a"), KeyOrder::Less);
    assert_eq!(compare_keys("Z", "a"), KeyOrder::Less);
    assert_eq!(compare_keys("é", "z"), KeyOrder::Greater);
}

use kafka_bigquery::credentials::{credentials_from_destinations, has_credentials};
use kafka_bigquery::json::{get_text, JsonNumber, JsonValue};
use kafka_bigquery::model::Destinations;

fn props(prefix: &str, with_number: bool) -> JsonValue {
    let mut es: Vec<(String, JsonValue)> = vec![
        "cloudJson.auth_provider_x509_cert_url",
        "cloudJson.auth_uri",
        "cloudJson.client_email",
        "cloudJson.client_id",
        "cloudJson.client_x509_cert_url",
        "cloudJson.private_key_id",
        "cloudJson.project_id",
        "cloudJson.token_uri",
        "cloudJson.type",
    ]
    .into_iter()
    .map(|k| (k.to_string(), JsonValue::String(format!("{}{}", prefix, k))))
    .collect();
    if with_number {
        es[0].1 = JsonValue::Number(JsonNumber::PosInt(1));
    }
    JsonValue::Object(es)
}

fn secret(key: &str) -> JsonValue {
    JsonValue::Object(vec![("cloudJson.private_key".to_string(), JsonValue::String(key.to_string()))])
}

fn dest(prefix: &str, key: &str) -> Destinations {
    Destinations {
        tenant_id: "t".to_string(),
        name: "Bigquery".to_string(),
        type_: "bq".to_string(),
        properties: props(prefix, false),
        confidential_properties: secret(key),
    }
}

#[test]
fn credentials_come_from_the_last_destination() {
    let ds = vec![dest("first:", "k1"), dest("last:", "k2")];
    assert!(has_credentials(&ds));
    let c = credentials_from_destinations(ds);
    assert_eq!(c.key_type.as_deref(), Some("last:cloudJson.type"));
    assert_eq!(c.project_id.as_deref(), Some("last:cloudJson.project_id"));
    assert_eq!(c.private_key_id.as_deref(), Some("last:cloudJson.private_key_id"));
    assert_eq!(c.private_key, "k2");
    assert_eq!(c.client_email, "last:cloudJson.client_email");
    assert_eq!(c.client_id.as_deref(), Some("last:cloudJson.client_id"));
    assert_eq!(c.auth_uri.as_deref(), Some("last:cloudJson.auth_uri"));
    assert_eq!(c.token_uri, "last:cloudJson.token_uri");
    assert_eq!(c.auth_provider_x509_cert_url.as_deref(), Some("last:cloudJson.auth_provider_x509_cert_url"));
    assert_eq!(c.client_x509_cert_url.as_deref(), Some("last:cloudJson.client_x509_cert_url"));
}

#[test]
fn no_credentials_without_destinations() {
    assert!(!has_credentials(&vec![]));
}

#[test]
fn no_credentials_when_a_field_is_not_a_string() {
    let mut d = dest("p:", "k");
    d.properties = props("p:", true);
    assert!(!has_credentials(&vec![d]));
    let mut d = dest("p:", "k");
    d.confidential_properties = JsonValue::Null;
    assert!(!has_credentials(&vec![d]));
}

#[test]
fn get_text_finds_string_members_only() {
    let v = JsonValue::Object(vec![
        ("a".to_string(), JsonValue::String("x".to_string())),
        ("b".to_string(), JsonValue::Bool(true)),
    ]);
    assert_eq!(get_text(&v, "a").map(|s| s.as_str()), Some("x"));
    assert_eq!(get_text(&v, "b"), None);
    assert_eq!(get_text(&v, "c"), None);
    assert_eq!(get_text(&JsonValue::Null, "a"), None);
}

//! The service-account key that the destinations table holds.
use vstd::prelude::*;
use crate::json::{JsonValue, get_text, text_at};
use crate::model::Destinations;

verus! {

/// A service-account key: the fields that authenticate the service.
#[derive(Debug, Clone)]
pub struct ServiceAccountCredentials {
    pub key_type: Option<String>,
    pub project_id: Option<String>,
    pub private_key_id: Option<String>,
    pub private_key: String,
    pub client_email: String,
    pub client_id: Option<String>,
    pub auth_uri: Option<String>,
    pub token_uri: String,
    pub auth_provider_x509_cert_url: Option<String>,
    pub client_x509_cert_url: Option<String>,
}

/// The public properties that count: those of the last destination, or
/// null when there is none.
pub open spec fn chosen_properties(ds: Seq<Destinations>) -> JsonValue {
    if ds.len() == 0 {
        JsonValue::Null
    } else {
        ds.last().properties
    }
}

/// The confidential properties that count: those of the last
/// destination, or null when there is none.
pub open spec fn chosen_confidential(ds: Seq<Destinations>) -> JsonValue {
    if ds.len() == 0 {
        JsonValue::Null
    } else {
        ds.last().confidential_properties
    }
}

/// The chosen properties hold every field of a key as a string.
pub open spec fn credentials_present(ds: Seq<Destinations>) -> bool {
    let p = chosen_properties(ds);
    let c = chosen_confidential(ds);
    &&& text_at(p, "cloudJson.type"@) is Some
    &&& text_at(p, "cloudJson.project_id"@) is Some
    &&& text_at(p, "cloudJson.private_key_id"@) is Some
    &&& text_at(c, "cloudJson.private_key"@) is Some
    &&& text_at(p, "cloudJson.client_email"@) is Some
    &&& text_at(p, "cloudJson.client_id"@) is Some
    &&& text_at(p, "cloudJson.auth_uri"@) is Some
    &&& text_at(p, "cloudJson.token_uri"@) is Some
    &&& text_at(p, "cloudJson.auth_provider_x509_cert_url"@) is Some
    &&& text_at(p, "cloudJson.client_x509_cert_url"@) is Some
}

/// The text of an optional string.
pub open spec fn opt_text(o: Option<String>) -> Option<Seq<char>> {
    match o {
        Some(s) => Some(s@),
        None => None,
    }
}

/// A copy of a text that is there.
fn present_text(t: Option<&String>) -> (r: String)
    requires
        t is Some,
    ensures
        r@ == t->0@,
{
    match t {
        Some(s) => s.clone(),
        None => String::new(),
    }
}

/// Whether the destinations hold every field of a key, as
/// `credentials_present` states it.
pub fn has_credentials(destinations: &Vec<Destinations>) -> (r: bool)
    ensures
        r == credentials_present(destinations@),
{
    if destinations.len() == 0 {
        assert(text_at(JsonValue::Null, "cloudJson.type"@) is None);
        return false;
    }
    let last = &destinations[destinations.len() - 1];
    let p = &last.properties;
    let c = &last.confidential_properties;
    get_text(p, "cloudJson.type").is_some()
        && get_text(p, "cloudJson.project_id").is_some()
        && get_text(p, "cloudJson.private_key_id").is_some()
        && get_text(c, "cloudJson.private_key").is_some()
        && get_text(p, "cloudJson.client_email").is_some()
        && get_text(p, "cloudJson.client_id").is_some()
        && get_text(p, "cloudJson.auth_uri").is_some()
        && get_text(p, "cloudJson.token_uri").is_some()
        && get_text(p, "cloudJson.auth_provider_x509_cert_url").is_some()
        && get_text(p, "cloudJson.client_x509_cert_url").is_some()
}

/// The service-account key of the last destination: each field is the
/// string its property holds (the private key from the confidential
/// properties). The destinations must hold every field as a string.
pub fn credentials_from_destinations(destinations: Vec<Destinations>) -> (r: ServiceAccountCredentials)
    requires
        credentials_present(destinations@),
    ensures
        opt_text(r.key_type) == text_at(chosen_properties(destinations@), "cloudJson.type"@),
        opt_text(r.project_id) == text_at(chosen_properties(destinations@), "cloudJson.project_id"@),
        opt_text(r.private_key_id) == text_at(chosen_properties(destinations@), "cloudJson.private_key_id"@),
        Some(r.private_key@) == text_at(chosen_confidential(destinations@), "cloudJson.private_key"@),
        Some(r.client_email@) == text_at(chosen_properties(destinations@), "cloudJson.client_email"@),
        opt_text(r.client_id) == text_at(chosen_properties(destinations@), "cloudJson.client_id"@),
        opt_text(r.auth_uri) == text_at(chosen_properties(destinations@), "cloudJson.auth_uri"@),
        Some(r.token_uri@) == text_at(chosen_properties(destinations@), "cloudJson.token_uri"@),
        opt_text(r.auth_provider_x509_cert_url) == text_at(
            chosen_properties(destinations@),
            "cloudJson.auth_provider_x509_cert_url"@,
        ),
        opt_text(r.client_x509_cert_url) == text_at(
            chosen_properties(destinations@),
            "cloudJson.client_x509_cert_url"@,
        ),
{
    let n = destinations.len();
    let last = &destinations[n - 1];
    let properties = &last.properties;
    let credential_properties = &last.confidential_properties;
    ServiceAccountCredentials {
        key_type: Some(present_text(get_text(properties, "cloudJson.type"))),
        project_id: Some(present_text(get_text(properties, "cloudJson.project_id"))),
        private_key_id: Some(present_text(get_text(properties, "cloudJson.private_key_id"))),
        private_key: present_text(get_text(credential_properties, "cloudJson.private_key")),
        client_email: present_text(get_text(properties, "cloudJson.client_email")),
        client_id: Some(present_text(get_text(properties, "cloudJson.client_id"))),
        auth_uri: Some(present_text(get_text(properties, "cloudJson.auth_uri"))),
        token_uri: present_text(get_text(properties, "cloudJson.token_uri")),
        auth_provider_x509_cert_url: Some(
            present_text(get_text(properties, "cloudJson.auth_provider_x509_cert_url")),
        ),
        client_x509_cert_url: Some(present_text(get_text(properties, "cloudJson.client_x509_cert_url"))),
    }
}

/// The properties that count are those of the last destination.
pub proof fn lemma_last_destination_counts(ds: Seq<Destinations>)
    ensures
        ds.len() > 0 ==> chosen_properties(ds) == ds[ds.len() - 1].properties,
        ds.len() > 0 ==> chosen_confidential(ds) == ds[ds.len() - 1].confidential_properties,
        ds.len() == 0 ==> !credentials_present(ds),
{
}

} // verus!

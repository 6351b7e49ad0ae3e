//! Records that the service reads and passes around.
use vstd::prelude::*;
use crate::json::JsonValue;

verus! {

/// The settings of the service: where rows go and where events come from.
#[derive(Debug, Clone)]
pub struct Config {
    pub project_id: String,
    pub dataset_id: String,
    pub table_id: String,
    pub kafka_broker: String,
    pub topic: String,
    pub group_id: String,
}

/// A destination of a tenant, as the destinations table stores it:
/// public properties and confidential ones, each a JSON document.
#[derive(Debug)]
pub struct Destinations {
    pub tenant_id: String,
    pub name: String,
    pub type_: String,
    pub properties: JsonValue,
    pub confidential_properties: JsonValue,
}

/// The fields of a cloud service-account credential, as the destination
/// properties name them.
#[allow(non_snake_case)]
#[derive(Debug, Clone)]
pub struct Object {
    pub cloudJson_auth_provider_x509_cert_url: String,
    pub cloudJson_auth_uri: String,
    pub cloudJson_client_email: String,
    pub cloudJson_client_id: String,
    pub cloudJson_client_x509_cert_url: String,
    pub cloudJson_private_key_id: String,
    pub cloudJson_project_id: String,
    pub cloudJson_token_uri: String,
    pub cloudJson_type: String,
    pub instanceId: String,
    pub tableName: String,
}

} // verus!

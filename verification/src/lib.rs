//! Turns Kafka event payloads into BigQuery rows and schemas.
pub mod consumer;
pub mod credentials;
pub mod events;
pub mod flatten;
pub mod ingest;
pub mod json;
pub mod model;
pub mod schema;
pub mod text;

# kafka_bigquery

A service that consumes JSON events from a Kafka topic and streams them into
a BigQuery table, growing the table's schema as new fields appear.

- `src/` is the verified library:
  - `json`: the JSON document model and the keyed map rows are collected in;
  - `text`: character-level ordering and comparison of keys;
  - `ingest`: payload bytes to text, and the JSON document framed and parsed in it;
  - `flatten`: nested objects flattened to `_`-joined column names;
  - `schema`: column types, the schema of a row, and how a table's schema grows;
  - `events`: events as producers encode them, and their JSON documents;
  - `credentials`: the service-account key held by the destinations table;
  - `consumer`: what the consumer does with each poll;
  - `model`: the configuration and destination records.
- `app/` is the program around it: configuration, environment, the database,
  Kafka and BigQuery clients.
- `tests/` exercises the library on concrete inputs.

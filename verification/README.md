# weaver_resolved_schema

A resolved telemetry schema: a registry of groups (attribute groups and
signals such as metrics, events, spans and resources), a catalog of the
attributes that the groups refer to, and the diff between two versions of a
schema. The library is written in Verus; its functions carry contracts that
Verus proves.

Layout:

- `src/lib.rs`: the schema, its statistics, and the maps of attributes and
  groups by name.
- `src/diff.rs`: the diff between a schema and a baseline, the mathematical
  description of what it records, and the laws proved of it (a schema compared
  with itself records nothing; what is added one way is removed the other way).
- `src/keyed.rs`: collections keyed by text, where a later item replaces an
  earlier one with the same key.
- `src/attribute.rs`, `src/catalog.rs`, `src/registry.rs`, `src/deprecated.rs`,
  `src/schema_changes.rs`, `src/manifest.rs`, `src/resource.rs`,
  `src/instrumentation_library.rs`, `src/lineage.rs`, `src/versions.rs`,
  `src/error.rs`: the data of a schema and of
  its changes.
- `src/cli.rs`: the command line arguments, as plain data.
- `src/text.rs`: the calls into std's string functions.
- `app/`: command line parsing with clap, JSON (de)serialization and JSON
  schema with serde and schemars, and a diff entry point that checks its
  preconditions at run time.
- `tests/`: tests of the library.

# codex

A catalog compiler and SQL planner for event-sourced aggregates, written in
Verus.

The schema of each aggregate is declared in YAML definition files. The library
merges the files in a fixed dependency order, checks the merged document
against the aggregate grammar, expands partials, runs the semantic rules and
lowers the document into a catalog of relations, aggregates and enum types.
From that catalog it plans SQL: list and detail reads with RSQL filters,
search, sorting and paging; projection writes that copy snapshot rows forward
one version at a time; sink upserts and soft deletes; and the archive of
events with its checkpoint.

## Layout

- `src/` is the verified library.
  - `catalog/` holds the catalog types (columns, relations, aggregates, read
    shapes) and their lookups.
  - `dtos/` holds the document shapes read from YAML, partial expansion, the
    lowering into the catalog and the semantic rules (`dtos/semantic.rs`).
  - `definition.rs` holds the loaded catalog and its lookups by name.
  - `compile.rs` orders and merges the definition files and checks the grammar.
  - `rsql.rs` parses RSQL filter and sort expressions.
  - `mason/` plans SQL: `read.rs` for queries, `project.rs` and `rows.rs` for
    projection writes, `sink.rs` for sinks, `archive.rs` for the event archive,
    `validate.rs` for the key rules, `sql.rs` for statements and identifier
    quoting.
  - `yaml.rs`, `text.rs`, `seqs.rs`, `json.rs` and `error.rs` hold the YAML
    driver, text and sequence helpers, the declaration of the JSON value type and the error types.
- `tests/` exercises the library through its public API.
- `app/` is the unverified shell: reading definition files from disk, serde
  copies of the document shapes, error messages, and running the planned SQL
  against Postgres with `sqlx`.

Every call into an outside crate from `src/` goes through a small trusted
wrapper whose doc comment says what its contract assumes of that crate.

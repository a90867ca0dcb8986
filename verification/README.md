# click_house_component

A 1C:Enterprise add-in that writes rows to ClickHouse: it parses TSV text
into JSON rows, caches them per table, builds the `INSERT` statements that
send them, and logs event metrics.

## Layout

- `src/` — the library, verified with Verus.
  - `text.rs` — characters and strings: trimming, splitting, lines,
    joining, integer text.
  - `json.rs` — the JSON values that rows are made of; objects keep their
    keys sorted, as `serde_json` does without `preserve_order`.
  - `number.rs` — how one TSV field becomes a JSON value.
  - `utils.rs` — TSV to rows, the `INSERT` statement of a batch, the
    query that tells whether a table exists.
  - `cache.rs` — the per-table cache of rows waiting to be sent.
  - `metrics.rs` — event metrics as a TSV line.
  - `click_house_component.rs` — the decisions of the add-in's methods:
    what `BulkInsert` does with the cache, what it sends and answers.
  - `laws.rs` — properties that relate several operations, proved.
  - `tsv_laws.rs` — properties of parsed rows: which errors occur, the
    shape of the rows, and a metric line read back.
- `app/` — the add-in itself: the 1C interface, the ClickHouse client,
  the async runtime and retries. It calls the library for every decision.
- `tests/` — tests of the library.

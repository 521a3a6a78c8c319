# sql_json_path

SQL/JSON path expressions (as PostgreSQL has them): reading a path from its text,
printing it back, and evaluating it over JSON values in `lax` or `strict` mode.
The library is written in Verus and its behaviour is stated in contracts.

## Layout

- `src/` — the verified library.
  - `grammar.rs`, `parser.rs`, `chains.rs`: the grammar of path text and the parser,
    proved to return only paths that the text spells under that grammar, and to read
    every text that the grammar derives a path from.
  - `printer.rs`: the canonical text of a path.
  - `sem.rs`: the meaning of a path as spec functions; `eval.rs` and `methods.rs`
    are proved to compute it.
  - `number.rs`, `text.rs`: integers and bounded decimal fractions, their arithmetic
    and their text.
  - `compare.rs`, `truth.rs`: comparisons and three-valued logic.
  - `datetime.rs`, `dtparse.rs`: date and time items (parsing through `chrono`).
  - `like_regex.rs`: `like_regex` through the `regex` crate.
  - `json.rs`: JSON values; objects whose keys differ (as a JSON text read into maps
    gives them) are looked up the same whatever the order of their members.
  - `laws.rs`: properties of evaluation as a whole, and of operators, accessors,
    filters and subscripts over sequences of items; `first.rs`: evaluation that stops
    at the first result against full evaluation; `quoting.rs`: quoted strings read back.
- `tests/` — tests run against the compiled library.
- `app/` — an interactive front end that reads JSON with `serde_json`.

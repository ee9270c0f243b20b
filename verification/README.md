# streamdb

Parts of a streaming database, with their behaviour stated in contracts and proved by
Verus.

- `src/` is the library. Its functions state over mathematical models (sequences, sets, maps,
  views of the types) what they return and change, and the laws that relate several
  functions are public proof functions whose names begin with `law_`.
  - `catalog`, `common`: types, rows, chunks, errors, settings, texts, maps by string.
  - `frontend`: binding, plans, their properties and their split into stages, what the
    handlers of statements compute.
  - `hummock`: keys, tables, the choice of compactions, vacuum, lookups and batches.
  - `storage`: rows as cells, materialized views, buffered changes, objects in memory.
  - `stream`, `batch`, `source`: executors and what they share.
  - `meta`: requests to the catalog, as a machine from events to actions.
  - `connector`, `expr`, `risedev`, `sqlsmith`, `bench`: sinks, formats and tools.
- `tests/` runs the library on concrete values.
- `app/` is ordinary Rust around the library: files, channels, clocks, locks and the
  clients of other services.

Functions marked `#[verifier::external_body]` call `fixedbitset`, `serde_json`, `bytes`,
`aho-corasick`, `chrono`, `uuid` or `std`. What they claim of these is believed, not
proved, and stands in their doc comments. Of a random id nothing is claimed.

# vardadb

The query-planning core of a graph database engine, written in Verus.
The library's functions are verified against their `requires` / `ensures`
contracts; the calls into std or outside crates that Verus cannot read
(case mappings, stemming, hashing, hex encoding, regular expressions,
lossy UTF-8 decoding, debug quoting, the clock) stand behind small
trusted wrappers whose contracts say what they assume.

- `src/query_planner/` — the logical IR (`ir`), lowering of client filter
  and sort arguments (`lowering`), the textual expression syntax
  (`parser`), candidate planning (`planner`, `plan`), the operator
  pipeline and its builders (`operators`, with hash-grouped aggregation
  in `operators::aggregate`), explain renderings
  (`explain`) and the plans' JSON text (`plan_json`), the storage
  interface the operators read through (`traits`, `adapters`), and
  expression values and functions (`physical_expr`, `function`).
- `src/engine/` — index tokenization and input validation rules; what a
  schema's type definitions mean to the database (`sdl`: uniques, search
  strategies, relations, inverse edges, vector fields and validation
  rules per type), the input, filter and sort types generated per object
  type (`inputs`), and the decisions of a nested create (`create`).
- `src/repl.rs` — the interactive shell's command language: which command
  a typed line is, and which database `use` switches to.
- `src/db_routing.rs` — which database a request's headers or a
  subscription's first message address.
- `src/bulk_ingest.rs` — the bulk ingest stream's framing: length
  prefixes, the size guard, and what the first frame selects.
- `src/realtime/` — the types that describe a mutation event (its kind,
  its source, the schema metadata it carries).
- `src/launch.rs`, `src/render.rs` — launch argument handling and text
  rendering helpers.
- `app/` — the command-line front end: argument parsing, the shell's line
  reading and HTTP calls, process-wide state, JSON output, and the parts
  that compute on doubles.
- `tests/` — executable tests of the library.

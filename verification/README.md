# codemao_core

The decision logic of a client for the CodeMao community, written in Verus
and verified: each public function states in its `ensures` what it returns or
changes, over mathematical models (`Seq`, `Map`-like entry sequences, views
of the library's types).

## Layout

- `src/` — the verified library.
  - `json.rs`, `text.rs`, `search.rs`: the JSON document model, character
    strings and search helpers the rest is stated over.
  - `cloud.rs`, `cloud_store.rs`, `cloud_session.rs`, `callbacks.rs`: cloud
    variables and lists, the local store, and the session state machine that
    turns frames and requests into effects.
  - `cloudops.rs`: the second cloud client's state machine and helpers.
  - `chat.rs`, `deepseek.rs`: the two AI chat sessions as state machines.
  - `registry.rs`, `retrieve.rs`, `executer.rs`, `pipeline.rs`,
    `services.rs`, `terminal.rs`, `details.rs`, `types.rs`: report
    moderation — report types and their fields, queries, violation checks,
    batching, the console's answers and the detail view.
  - `compiler.rs`, `decoders.rs`, `coco.rs`: options of a decompilation run,
    Blockly XML of compiled blocks, and the reorganisation of work documents.
- `tests/` — tests run against the compiled library.
- `app/` — the running side: WebSocket sessions driving the state machines,
  the terminal console, and JSON text read and written with `serde_json`.

Laws that span several functions are public proof functions named `law_*`.

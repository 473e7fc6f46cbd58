# kxen_core

The part of a coding assistant that decides: which model answers, what a request
looks like and what its answer says, what knowledge goes into a prompt, and what
is written down before a call that costs something.

- `src/` is the library. Every function in it is verified with Verus.
  - `llm/` holds the wire formats of the providers, their streams, limits,
    circuit breakers and the resource manager.
  - `knowledge/` holds the knowledge files: scanning, rendering, retrieval,
    moving between scopes, embeddings, and the consolidation of sessions into
    notes.
  - `goal_rpc.rs` and `doctor.rs` answer the calls of the window.
  - `text.rs`, `json.rs`, `table.rs` and `ident.rs` are what the rest is built on.
- `tests/` runs the library with the crates it calls.
- `app/` is the program around it: network, files, clocks and tasks. It performs
  the steps that the library's machines ask for, and hands back what came of them.

Outside crates are called from `src/` through trusted functions, each with a
comment that says what is believed of the call: `serde_json` (`json.rs`), `sha2`
and `uuid` (`ident.rs`), `time` (`knowledge.rs`) and `globset`
(`knowledge/render.rs`).

# cascade_engine

The decisions of a Cascade node, written in Verus: who may do what to it, which
files it keeps, what changed below a directory, and where its backends are
mounted. Every function states what it returns in its contract, and Verus proves
it.

## Layout

- `src/manage/` is the management plane. `scope` and `grant` hold the authority
  model, `token` the signed tokens that carry a grant, `delegation` how far a
  grant may be handed on, `command` and `dispatch` what a command needs and
  touches, and `run` the flow from a request to its reply, as a state machine.
- `src/cache/` decides what is pinned and what is evicted.
- `src/changefeed.rs` keeps the latest changes below each directory.
- `src/config.rs` applies ignore rules; `src/glob.rs` matches their patterns.
- `src/engine/` places mounts, checks pushed configs, resolves what peers may
  read and write, and words the replies.
- `src/db/` turns database columns into records and plans schema migrations.
- `src/backend.rs` and `src/p2p_bridge.rs` are the computing parts of the
  backends and of the block index.
- `src/text.rs`, `src/bytes.rs`, `src/path.rs`, `src/time.rs`, `src/table.rs` and
  `src/types.rs` are what the rest is built from.
- `tests/` runs the library on concrete values.
- `app/` is the node around the library: SQLite, async backends, background
  workers and JSON. It is ordinary Rust.

Properties of the library as a whole are public proof functions whose names begin
with `law_`, each next to what it speaks of.

## What is trusted

The functions marked `external_body` hand a call to `chrono`, `sha2`,
`data-encoding` or the standard library and state what comes back. Each says in
its comment what is taken on trust.

# Mission Control (`mc`)

A read-only view over running coding-agent panes: which panes need you,
what each agent is doing, what each project is.

## Layout

- `src/` — the library, verified with Verus.
  - `collector/` — turning herdr's pane list, pi session records and a
    project directory's files into raw signals.
  - `reducer.rs` — joining the signals into one `PaneView` per pane, with
    flags, an attention level and totals.
  - `state.rs` — the bounded, numbered event store that clients catch up on.
  - `daemon.rs` — what a poll reads and which events it emits.
  - `transport.rs` — the answers of the JSON-RPC methods and the framing of
    request and reply lines.
  - `status.rs`, `render.rs`, `diagnose.rs` — the order and the text of the
    status table and dashboard, and the session-mapping report.
  - `text.rs`, `lines.rs`, `json.rs`, `time.rs`, `path_map.rs` — text,
    JSON values, instants and a path-keyed map.
- `app/` — the `mc` program: command line, sockets, files, terminal and
  HTTP, and the serde forms of the library's types.
- `tests/` — tests of the library.

Costs are held as whole millionths of a US dollar; they travel as dollars
on the wire.

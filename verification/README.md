# claudexor-linux

A Linux client for the Claudexor daemon, with its core written in Verus and
proved against its contracts.

## Layout

- `src/` — the verified library.
  - `sse.rs` — the Server-Sent Events parser and the per-chunk pump.
  - `transcript.rs` — the fold of a run's event stream into visible blocks
    (thinking, messages, tools), with caps that evict the oldest blocks.
  - `keyed.rs` — the small string-keyed index the transcript uses.
  - `model.rs` — the daemon's data; the turn options and the request
    fields they set; the panel grammar; plan answers; quota
    accounts.
  - `state.rs` — the client's decisions: single-flight refreshes, live run
    cards, login jobs, the composer, the connection supervisor.
  - `api.rs` — error lines, discovery/token/handshake checks, route
    encoding.
  - `board.rs` — the run board: one live card per run stream, stream
    events and ends, run fetches in flight, answers.
  - `pane.rs` — the thread list and the open thread, their refreshes, the
    error banner, and the sidebar's trash and search filter.
  - `order.rs` — the stable orderings of thread and harness lists.
  - `prefs.rs` — the saved preferences file.
  - `text.rs` — character-level string helpers.
  - `ui/` — view helpers: relative times, transcript rows, labels.
- `tests/` — tests run against the compiled library.
- `app/` — the command-line program around the library: HTTP (ureq), the
  daemon's private files, JSON decoding (serde), and the headless
  `--send`, `--upload`, `--record` modes and the connection status loop.

# apimock

A mock HTTP API server: ports serve canned responses ("mocks") chosen by
method and path pattern, with response templates, JSON filtering by request
parameters, pagination, request and system logs, a terminal interface, a web
dashboard and a background daemon mode.

## Layout

- `src/` — the library, verified with Verus:
  - `text.rs` — character-level text operations and their laws (splitting,
    trimming, decimal numbers);
  - `json.rs` — the JSON document model, its compact text, and parsing;
  - `models.rs` — ports, mocks, logs and log events;
  - `handler.rs` — request matching (path patterns, method priority),
    query/body parameters, response shaping (filtering and pagination);
  - `shape.rs` — recursive JSON filtering and field paths;
  - `template.rs` — the `{{function:args}}` response templates;
  - `store.rs` — SQL statements and parameters for the stores, and row decoding;
  - `api.rs` — the dashboard API's bodies and queries, and static assets;
  - `control.rs` — daemon lifecycle decisions and port-server reconciliation;
  - `cli.rs` — the command line's model;
  - `tui.rs` — the terminal interface's state machine (keys, forms, dialogs);
  - `views.rs` — what the terminal screens show (form windows, texts, hints).
- `tests/` — tests of the library on concrete values.
- `app/` — the program around the library: SQLite, HTTP servers, the daemon's
  processes and PID file, the dashboard, logging and terminal drawing.

# monitor

A small server monitor: a Linux agent reports CPU, memory, disk, traffic and
TCP latency to a server, which keeps per-node traffic totals, minute
resource samples and 30-second latency rounds in SQLite and serves a status
page and an administrator panel.

The rules of both programs live in `src/` and are verified with Verus:

- `text` — lines, words, trimming, splitting and decimal numbers over
  characters, with the meaning the standard library gives them.
- `model` — interface counters and their deltas, latency targets and the
  settings shared by agent and server.
- `probe` — what the agent computes from `/proc`, `/sys` and `/etc` files, its
  server endpoint, reconnection waits and the decisions of its connection.
- `accounting` — traffic totals across reports, reboots and UTC days and
  months; latency rounds and minute samples.
- `auth` — password rules, credential formats and verification, the
  administrator's sessions and attempt budget.
- `api` — bearer tokens, agent keys, report bounds, history queries and
  settings changes.
- `store` — node identifiers, names and keys, schema versions, stored
  settings, latency target revisions, history windows and retention.
- `cli` — `--name value` arguments.
- `external` — every call into code that is not verified here, each with the
  contract the rest relies on.

`app/` holds what stays outside: the HTTP and WebSocket plumbing, SQLite
statements, file reading, the JSON shapes, and the floating-point parts
(CPU share, rates, latency rechecks). Run it as `monitor-agent` (or with
`agent` as first argument) for the agent, otherwise it is the server.

`tests/` exercises the library on concrete values.

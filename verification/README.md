# CLN exporter

Two plugins for a Core Lightning node, with their logic verified by Verus.

- `cln-exporter` exposes bounded-cardinality Prometheus metrics on one HTTP listener. It asks the node
  and every plugin that offers a `-metrics` method, and counts the node's notifications.
- `cln-history` keeps a compact history of the node's channels in an SQLite database, and answers
  queries about channels, pending HTLCs, forwarding pairs, events and probes.

## Layout

`src/` is the verified library.

- JSON and text: `json`, `text`, `ordered`, `sorting`, `clock`.
- The exporter: `exposition` (the text format), `node`, `channels`, `accounting`, `event_metrics` (what
  the collectors write), `events` (the counters), `plugin_metrics` (discovery and validation of other
  plugins' metrics), `scrape` (one scrape), `exporter` (settings, notifications and health).
- The history: `model` (a channel's state), `store` (the tables), `recording`, `activity` (what is
  recorded), `queries` (parameters), `browse`, `lookups`, `probes` (what queries find), `upkeep` (older
  databases, status, metrics), `answers`, `reports` (answers as JSON), `history` (settings,
  notifications and snapshots).
- What holds of the history as a whole: `integrity` (the tables stay sound), `continuity` (the latest
  states, absences, what is dropped with time), `identities` (names and the channels that they stand
  for), `paging`, `listing` (pages and intervals), `totals` (sums), `conformance` (the exporter accepts
  the history's metrics).

`app/` is the rest: the plugins' options and methods, the calls of the node, the HTTP listener, the
SQLite database, and the floating-point numbers. One program holds both plugins; it is the history
when it is started under the name `cln-history`.

`tests/` runs the library.

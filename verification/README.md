# soma-observe

An observability backend for OpenTelemetry: it takes metrics, logs and traces
over OTLP/HTTP, keeps them in Postgres, answers queries about them, evaluates
alert rules, and serves a portal.

## Layout

- `src/` is the library, verified with Verus. It holds the rules: decoding and
  normalising OTLP, laying out and admitting data points, series keys and the
  series cache, partitions and retention, query planning and answers, alert
  rules and their evaluation, authorization, and what the portal shows.
- `tests/` runs the library on concrete values.
- `app/` is the server and the portal around the library: sockets, the database,
  the clock of the browser, markup.

## The library

| Module       | What it states                                                      |
|--------------|---------------------------------------------------------------------|
| `text`       | characters, trimming, decimal numbers                               |
| `json`       | JSON values and their canonical text                                |
| `float`      | the order of doubles by their bits, and the nearest double          |
| `double`     | doubles as texts and as JSON numbers                                |
| `time`       | instants, the clock, the ingest window                              |
| `http`       | replies and cross-origin headers                                    |
| `config`     | settings and their defaults                                         |
| `auth`       | which requests pass                                                 |
| `admin`      | health and statistics                                               |
| `store`      | series, their cache, columns to write, partitions                   |
| `ingest`     | from OTLP requests to records, and the answers to them              |
| `query`      | ranges, filters, and what queries answer                            |
| `alerts`     | rules, and the states that follow from their conditions             |
| `dashboards` | saved dashboards                                                    |
| `ui`         | the portal: addresses, forms, texts, colours, the graph and the bars |

Contracts speak of texts as sequences of characters, of JSON through a view, and
of doubles through their 64 bits. Functions named `law_…` are proofs of what
holds across several functions.

The calls into other crates stand in small functions of their own whose
contracts are taken on trust; a comment above each says what it claims.

## Running

The server reads `DATABASE_URL` (required), `LISTEN_ADDR`, `AUTH_TOKEN`,
`METRICS_RETENTION_DAYS`, `LOGS_RETENTION_DAYS`, `TRACES_RETENTION_DAYS`,
`CORS_ALLOW_ORIGIN`, `INGEST_WINDOW_SECS`, `FUTURE_TOLERANCE_SECS` and
`ALERT_EVAL_INTERVAL_SECS`. It applies the files under `migrations/` at start,
and serves what was built into `dashboard/dist/`.

# trading_data

Market data for perpetual futures: capture from Binance USD-M into a framed,
self-healing log, conversion of the log to tables with a daily quality report,
REST history of Binance and Bybit with a daily reconciliation, and reference
data (canonical instruments, instrument history, fees).

- `src/` is the library. All of it is verified with Verus: the wire format and
  its reader, what venue messages mean, sessions, pollers and their control
  events, quality assurance, partitioned history runs, reconciliation, symbology,
  configuration and command lines. It does no input or output; time, replies and
  file names are arguments. What it takes from `chrono`, `crc32fast`, `rand`,
  `rust_decimal`, `serde_json` and std is stated on the functions that make the calls.
- `tests/` runs the library on concrete values.
- `app/` is the program around it: sockets, HTTP, files, Parquet, serialization,
  threads, and whatever needs floating point.

| Module | What it holds |
|--------|---------------|
| `types`, `payloads`, `events`, `decimal` | the event envelope and its payloads |
| `wire` | frames, and the reader that finds them again past damage |
| `binance` | messages, streams, sessions, depth snapshots, pollers |
| `recorder` | log files, counters, tables, quality report, sweep |
| `backfill` | months, partitioned runs, history paging, reconciliation |
| `symbology` | canonical instruments, point-in-time history, fees |
| `process` | universe, heartbeat, startup |
| `config`, `cli` | what a configuration or a command line asks for |
| `calendar`, `text`, `paths`, `order`, `timed`, `listing` | what the rest stands on |

Laws that span functions are public proof functions whose names begin with
`law_`.

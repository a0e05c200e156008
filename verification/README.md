# logs-gateway

A small service that sits between a FiveM server and an external log panel,
absorbing log traffic so that the game server never blocks on the network.
FiveM POSTs a log and is answered at once; background tasks forward it to the
panel, retry whatever fails, and keep a configurable set of paths in local
files instead.

Its logic is a library verified with Verus; the I/O around it is ordinary Rust.

| Directory | Contents |
| --- | --- |
| `src/` | the library: every decision, format and rule, with contracts |
| `app/` | the service: HTTP server and client, files, timers, signals |
| `tests/` | tests of the library |

## The library

| Module | Role |
| --- | --- |
| `config` | settings from variables, all problems reported together; target URLs |
| `intake` | where an arriving log goes and how it is answered |
| `forward` | one delivery with a single retry on `401`; the live queue |
| `auth` | login response, backoff of the first login, token refresh |
| `failed_log` | the NDJSON file of failed logs: append, compact, read, migrate |
| `retry` | the retry queue and its rounds |
| `local` | logs that stay on the machine, in daily files |
| `status`, `json`, `text` | status codes, JSON through `serde_json`, text |

Work that alternates I/O and decisions is a state machine: the state says what
to do next, and a method takes what came of it. The service performs the I/O.

Among what is proved, in the functions' contracts and in the proof functions
named `law_...`:

- a configuration is accepted exactly when nothing is wrong with it, and every
  problem is in the report;
- base URL and request path meet in exactly one slash, and the path is kept;
- a log is answered with `202` exactly when some queue or file took it over;
- a delivery takes at most two requests and one token refresh;
- a log leaves the retry queue only after the panel took it;
- from the start on, the file and the retry queue hold the same logs, after
  every append and every compaction; a crash in the middle of an append,
  wherever it falls, costs that log alone, and the log that fails next gets a
  line of its own;
- a file that cannot be read as text, or an array that is not valid, is never
  removed and never overwritten: it stays, or is set aside under another name;
- on shutdown every permit there is has been held, so no forward is in flight.

Reading a log back from its line is the service's part (`serde` does it). The
laws on the file hold for every way of reading that gives back each log of the
queue from its own line, and suppose that what was to be written was written;
after a failed write the next compaction brings the file in step again.

What is believed of other crates and of the standard library stands next to the
functions marked `external_body` and in the `assume_specification` items.

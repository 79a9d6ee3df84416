# jambox_go_rs

A proxy that restreams television channels as local HLS playlists. A channel is
remuxed by `ffmpeg` once it is asked for; the proxy signs what `ffmpeg` fetches,
rewrites the playlists, serves the segments, and ends sessions that nobody watches.

The logic is a library that Verus verifies; a thin server around it does the I/O.

| Place | What it holds |
|-------|---------------|
| `src/rewriter.rs` | rewriting of the local and the upstream playlist |
| `src/upstream.rs` | addresses, signatures, requests and answers of the service |
| `src/handlers.rs` | what the endpoints decide and answer |
| `src/session.rs` | the `ffmpeg` call, readiness, progress, sessions and their end |
| `src/assets.rs`, `src/db.rs`, `src/domain.rs` | channels, rows, cookies, qualities |
| `src/metrics.rs` | descriptions of the metrics, and the counts |
| `src/startup.rs`, `src/config.rs` | settings, and what is decided before the server runs |
| `src/text.rs`, `src/sorting.rs`, `src/clock.rs` | texts, their order, points in time |
| `src/laws.rs` | what holds of the rewritten playlists as a whole |
| `src/outside.rs` | the calls into other crates, with what is believed of them |
| `app/` | the server: command line, HTTP, SQLite, processes, Prometheus |

Public proof functions named `law_..` state what holds of several functions
together, such as that an idle session is collected and no other, that a token is
refreshed once per request at most, and that an echoed tag is answered with 304.

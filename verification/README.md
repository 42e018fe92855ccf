# linewatch

A small network monitor. It probes a line at a fixed interval, classifies each
cycle, turns bad streaks into outage events, keeps everything in an append-only
log with a SHA-256 hash chain, and projects that log to a dossier.

- `src/` is the library: classification, hysteresis, the hash chain, the log,
  the dossier and its renderings, path tracing, and the decisions of the
  monitoring loop. Every function has a contract, and Verus proves it. Public
  proof functions named `law_...` state what holds across functions.
- `app/` is the program around it: command line, configuration, sockets, files,
  clock, HTTP endpoints, and the drawing of PDFs and charts.
- `tests/` runs the library, with the crates that it calls, on concrete values.

Times are whole nanoseconds. Temperatures, tariffs and coordinates are held by
their IEEE-754 bit pattern (`Quantity`) and are only compared; arithmetic on
them, and the fractional numbers of a report, belong to `app/`.

What is trusted rather than proved is marked `external_body` and says in its
doc comment which outside function it calls: `serde_json` (reading and writing
documents), `sha2` and `hex` (digests), `time` (calendar texts), and two
functions of the standard library.

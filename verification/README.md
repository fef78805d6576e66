# esc_sentry

A verified scanner for terminal escape sequences in untrusted text. `scan`
returns the sanitized text and a report of every escape sequence that was not
passed through untouched; under the strict policy only plain SGR sequences
survive, under the lenient one every well-formed sequence does, and broken
sequences are always dropped.

Layout:

- `src/grammar.rs`: the token grammar over the characters of a text, and what
  a scan keeps of and reports about each token.
- `src/scanner.rs`: `scan` and its helpers, proved against the grammar.
- `src/text.rs`: characters with their UTF-8 byte positions.
- `src/model.rs`: `Policy`, `SequenceKind`, `Violation`, `ScanResult`.
- `src/report.rs`: report lines and the JSON report, proved against their specs.
- `src/laws.rs`: properties of every scan (idempotence, clean output, which texts scan
  clean, where findings point, their order, the frame of escape and CSI tokens) and of the
  JSON output (no raw controls; escaping round-trips through a JSON string literal).
- `app/main.rs`: the command-line program.

# port_scanner

A TCP connect port scanner whose decision logic is a verified library.

- `src/ports.rs` parses the `--ports` argument (`top-100`, `22,80,443`,
  `1-1000`, or mixtures) into a sorted list without duplicates, with proofs of
  how comma-joined lists and ranges behave.
- `src/services.rs` names the services of well-known ports.
- `src/scan.rs` turns a connection attempt into a result, decides what is
  reported, and counts the states for the summary.
- `src/text.rs` splits, trims and takes the first line of text.
- `src/holy_table.rs` and `src/comparison.rs` back two small teaching demos.
- `app/` holds the command line, the asynchronous scanning, JSON output and the
  demos (`demo-unsafe`, `demo-memory` as first argument).

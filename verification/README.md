# rrpc

A small remote-procedure-call toolkit whose logic carries machine-checked
contracts.

- `src/codegen`: reads an interface file (enums whose variant lines are a
  name, optionally followed by a type and a value; structs; functions with
  `INT` and `STRING` parameters) and writes the client and server Rust
  sources; the contracts state exactly which lines are copied, which are
  generated, and when a line is refused.
- `src/execution.rs`, `src/server.rs`: the request classification and the
  integer evaluator of the server (text requests, bare or with a `SYNC;` or
  `ASYNC;` prefix, and JSON messages).
- `src/plain`: the text-only server and its evaluator.
- `src/text.rs`, `src/number.rs`: the character and integer text functions
  the rest is specified over (trimming, splitting, `i32` parsing and
  printing).
- `app/`: the program around the library: files, sockets, threads, logging
  and JSON decoding.

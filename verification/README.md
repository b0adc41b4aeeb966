# Cadence

An in-process publish/subscribe bus, a single-producer single-consumer ring
buffer and an append-only message log, written in Rust and verified with Verus.

## Layout

- `src/message.rs`: the 64-byte message record.
- `src/bus.rs`, `src/channel.rs`: topic routing to bounded subscriber queues, with
  back-pressure.
- `src/spsc.rs`, `src/lockfree.rs`: the ring buffer, and why two threads may use it
  without a lock.
- `src/persist.rs`, `src/write_run.rs`, `src/persist_verify.rs`: the message log,
  the writes that append to it, and the comparison of log writers.
- `src/schedule.rs`, `src/hist.rs`, `src/stats.rs`, `src/rate.rs`, `src/base64.rs`:
  open-loop latency measurement and its report.
- `src/environ.rs`, `src/text.rs`: settings and facts about the system.
- `app/`: the programs around the library (threads, files, `io_uring`, floating
  point, JSON).
- `tests/`: tests of the library.

Every function of the library states in its contract what it returns or changes;
functions named `law_*` state what holds across them. What the library takes on
trust from `crossbeam-channel`, `hdrhistogram` and the standard library stands in
declarations marked `external_body` or `assume_specification`, each with a comment
on what it claims.

## Commands

`demo`, `bench`, `tail_bench`, `persist_bench` and `persist_verify`.

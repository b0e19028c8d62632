# sasse

A local merge queue: batch, gate, fast-forward. Branches are queued against a
base branch. A worker merges a batch of them onto the base, runs one command over
the result, and moves the base to exactly the commit that passed. A batch that
fails is bisected until a batch of one names its culprit.

The library is written in Verus, and every function of it is verified against the
contract it states. What it decides, it decides on plain values: it reads no file,
starts no process and opens no database. Where something outside has to be done it
says what, one thing at a time, and is told what came of it.

## Layout

- `src/queue/ledger.rs`: the queue as mathematics. What the rows say, and what
  each step does to them.
- `src/queue/store.rs`: the rows, and every step on them.
- `src/queue/lease.rs`: who may integrate into a base branch, and until when.
- `src/queue/state.rs`, `outcome.rs`, `model.rs`: lifecycles, verdicts, bisection.
- `src/queue/laws.rs`: what every step keeps of a queue.
- `src/tick.rs`: one pass of the queue, as a series of things to do and what came
  of them.
- `src/laws.rs`: what holds of every pass, whatever git, the command and the hook
  answer.
- `src/worker.rs`: what a pass came to, and the loop around passes.
- `src/git/`, `src/gate.rs`, `src/notify.rs`: git, the command over a candidate,
  and the hook, each as a series of things to do.
- `src/logs.rs`, `src/retention.rs`: which logs go, and in what order that is made
  to last. `src/pruning.rs`: what holds of a prune as a whole.
- `src/config.rs`, `src/bytes.rs`, `src/db.rs`: the committed configuration, sizes,
  timestamps and migrations.
- `src/report.rs`: everything that is said at the terminal.
- `src/time.rs`, `src/text.rs`, `src/seqs.rs`, `src/failure.rs`: what the rest is
  written in.
- `app/`: the program. SQLite, processes, files, signals and the clock.
- `tests/`: the library on concrete values.

## What is believed without proof

`chrono` for reading, writing and adding up times, `toml` for reading TOML, and a
few functions of the standard library. Each stands behind one function whose
comment says what is claimed of it.

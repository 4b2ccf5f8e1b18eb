# rustlab

A Verus library with its proofs, and a small program around it.

- `src/stack.rs`: a last-in, first-out stack of `i32` kept as a linked list.
- `src/fifth.rs`: a first-in, first-out queue kept as a linked list.
- `src/log_store.rs`, `src/log_snapshot.rs`: an append-only log of text entries
  in one preallocated byte buffer, and a bounded view of it.
- `src/text.rs`: trimming, word splitting, text comparison and decimal
  reading for command lines.
- `src/ledger.rs`: currency accounts, transfers between them, and the command
  line parser; the laws on balances (money is conserved by transfers, refused
  commands change nothing, accounts are never removed) are proof functions
  there.
- `src/waterfall.rs`, `src/decorator_pattern.rs`, `src/state_machines.rs`:
  small patterns.
- `app/`: the program. It runs the ledger as a task fed over a channel, and
  holds the asynchronous and printing parts of the patterns.

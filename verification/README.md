# rush

The verified core of a small Unix shell and of a reader-writer lock.

- `src/text.rs`: whitespace, trimming, searching and splitting of strings,
  stated over their characters, with laws (split pieces join back, trimming
  removes only surrounding whitespace).
- `src/number.rs`: decimal numbers: writing counters, right-aligning them,
  reading process ids as `i32::from_str_radix` does.
- `src/pipeline.rs`: the shell's command lines (`a | b`, `&`, `<`, `>`), the
  plan of what to run for each command, and the output of `history`,
  `jobs` and `pwd`.
- `src/single.rs`, `src/owned.rs`: the one-command forms of the shell.
- `src/rwlock.rs`: the scheduling state of a reader-writer lock with reader
  or writer preference and FIFO or LIFO wake-up order; every step keeps
  writers exclusive.
- `app/`: the shell program (processes, files, signals, the working
  directory) and the thread-level lock built on the verified schedule.

# kvs

A key/value store library in Verus, with the command-line programs around it.

- `src/strmap.rs`: a map keyed by strings, modelled as a `Map` of character sequences.
  The stores keep their indexes in it rather than in std's `HashMap` or `BTreeMap`:
  vstd specifies those maps only for key types that obey its key model, which it grants
  to integer keys and not to `String`, so no contract about a string-keyed `HashMap` or
  `BTreeMap` can be proved. `StrMap` holds its entries in a `Vec`, so a lookup is a
  linear scan.
- `src/memory.rs`: the in-memory store.
- `src/logstore.rs`: the log-structured store's index: log replay, stale-byte accounting, lookups.
- `src/engine.rs`: the index of the multi-threaded server's engine, and the logs it holds open.
- `src/files.rs`, `src/decimal.rs`: log file names: writing them, and finding generations among file names.
- `src/protocol.rs`: requests and responses of the networked store, the server's answers and the client's readings.
- `src/console.rs`: the console client's command parser and the mock server's answers.
- `app/`: the programs: file and network I/O, threads, JSON encoding and argument parsing.

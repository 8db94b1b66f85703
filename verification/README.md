# Kerux

A Matrix homeserver whose logic is verified with Verus.

- `src/` is the library. It holds identifiers, events and their hashes, the rules by which events are
  judged, state resolution, the store in memory, and the answers to the requests of clients. Every
  function states what it does in `requires` and `ensures`, and laws that span several functions are
  public proof functions whose names begin with `law_`.
- `src/outside.rs` and `src/json.rs` are where the library meets other crates: what stands there in a
  contract is believed and not proved.
- `tests/` runs the library.
- `app/` is the server: HTTP, configuration, the stores on disk and in a database, and waiting. It reads
  `config.toml`, which names the `domain`, the `bind_address` and the `storage` (`mem` or `sled`).

# roextract

A verified core for browsing and extracting the Roblox asset cache.

- `src/` is the library, verified with Verus: recognising assets by their
  headers and magic bytes, cutting files out of cache records, content
  fingerprints, the listing and task state shared with the interface,
  searching, extraction plans, SQL row names, and cache checkpoints (which
  caches appeared, changed or disappeared after a snapshot).
- `app/` holds the parts that touch the outside world: files, the SQLite
  database, dialogs, threads, the configuration file, localised messages
  and the egui checkpoint tab.
- `tests/` exercise the library on concrete values.

Checkpoint comparisons look records up by key with linear scans over
vectors rather than a hash map: the keys are strings, and with string keys
the hash map specifications in vstd do not let the lookups be proved. The
scans keep the map's behaviour (of two entries with one key, the later one
counts) and are proved against the `lookup` and `key_is_current` specs.

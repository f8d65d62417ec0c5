# razel-os-api

The `System` seam: the one OS surface the build engine above it may touch, with typed host
paths, fail-closed errors, `lstat` distinct from `stat`, dirty-check metadata without
digests, exact spawn environments, and per-OS path policies. Every function here carries a
Verus contract.

Layout:

- `src/lib.rs`: the typed path and env values, `Metadata`, `OsError`, `OsPathPolicy`,
  `ProcessSpec`, and the `System` trait, whose methods state their results through each
  implementation's outcome predicates.
- `src/text.rs`: text operations over `Seq<char>` and the raw-byte order of names.
- `src/text_map.rs`: `TextMap`/`TextSet`, maps and sets keyed by text and kept in byte order.
- `src/graph.rs`: node kinds, node keys, value policies, content digests, the graph error.
- `src/conformance.rs`, `src/conformance/fake.rs`: the in-memory `FakeSystem` with its model
  (files, symlinks, clock, ids), the laws it obeys, and the conformance checks every
  `System` is held to.
- `src/env.rs`, `src/env/mock.rs`: declared environment snapshots, env leaf keys and values,
  the recording read seam, and its reference implementation.

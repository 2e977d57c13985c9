# gaskiya

A tamper-evident ledger for civic opportunity listings (scholarships,
grants, jobs), with the engine and the trust rules verified in Verus.

- `src/` is the verified library:
  - `hashing`: SHA-256 and hex text.
  - `merkle_chain`: per-listing hash chains, checked version by version.
  - `merkle_tree`: batch Merkle trees and inclusion proofs.
  - `anchor`: what an anchor batch publishes and how a version's proof is rebuilt.
  - `cuckoo`: Cuckoo-hash shard placement with eviction walks and growth.
  - `signature`: Ed25519 institutional signatures over hex keys.
  - `onboarding`: the keys an institution is registered with.
  - `text`: normalization, word shingles and Jaccard counts.
  - `trust`: pivot detection, red flags, score, status lifecycle, diffs.
  - `assessment`: recomputing a listing's trust from its stored history.
  - `models`: the records as plain values (ids as 128-bit integers,
    times as nanoseconds since the epoch).
- `tests/` exercises the library on concrete values.
- `app/` is the HTTP server around it: Actix handlers, Postgres queries,
  IPFS pinning, JSON (de)serialization and the floating-point ratios shown
  to clients.

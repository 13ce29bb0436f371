# qres_core

The deterministic core of a swarm compression engine, written in Verus:
every function under `src/` carries a `requires`/`ensures` contract that
Verus proves, and the properties that span several functions are stated
as public proof functions (`lemma_*`).

## Layout

- `src/` — the verified library.
  - `probability`, `predictors`, `transformer`, `mixer`, `heuristic`,
    `spectral`: adaptive symbol models and the fixed-point predictors.
  - `dedup`: rolling hash, content-defined chunking, xxHash64 and the
    deduplication engine; `archive` and `archive/stream`: the container
    header, the manifest and the framed chunk stream of solid archives.
  - `fragmentation`, `bitpack`, `semantic`: packet fragments, delta
    bit-packing, hex and DID encodings.
  - `adaptive`, `adaptive/votes`, `twt`, `twt/scheduler`: regime
    hysteresis, strategic silence, the vote ledger, and the target-wake-time
    scheduler with its radio time accounting.
  - `cortex`, `multimodal`, `tensor`, `fixed_point`: Q16.16 neurons,
    multimodal fusion, I8F8/I16F16 tensors and the Haar transform.
  - `aggregation`, `secure_agg`, `zk_proofs`, `audit`: trimmed-mean
    aggregation, pairwise-masked secure aggregation, Pedersen commitments
    and Schnorr-style proofs, collusion audits.
  - `resource_management`, `privacy`, `config`, `multivariate`: energy
    pools and small shared types.
- `app/` — ordinary Rust around the library: file and network I/O,
  serialisation, command-line configuration and the floating-point
  front ends.
- `tests/` — tests of the library, run against the real outside crates.

Calls into outside crates (BLAKE3, X25519, ChaCha20, Curve25519, fixed-point
arithmetic, OS randomness) go through small trusted wrappers whose
contracts are documented where they are declared.

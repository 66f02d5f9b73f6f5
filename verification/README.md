# carbon

The verified core of Carbon, a broker-based payment system: the data
structures, state machines and validation rules of its replicas, brokers and
discovery service, with contracts proved by Verus.

- `src/` is the library. Every function in it is verified; the few calls into
  other crates (`bit-vec`, `rayon`, `std::time`) go through small trusted
  wrappers whose contracts are stated next to them.
  - `discovery/`: the frame of install messages served to light clients, the
    discovery server's acquisition of installs, and the client's.
  - `crypto/`: certificates, multi-signature aggregation, digests and identities.
  - `commit/`: payloads, witnessed batches, extracts and batch completions.
  - `data/`: shift vectors, digest-keyed tables, ping boards and sponges.
  - `external/`: the decisions of the benchmark brokers and clients.
- `tests/` runs the library on concrete scenarios.
- `app/` holds what cannot be verified: serialisation of parameters, the
  timers and locks around sponges and ping boards, and settings that hold
  floating-point numbers.

Signature checks, hashing and Merkle proofs are not part of this crate: the
functions that depend on them take their outcome as an argument, and their
contracts say what is returned for each outcome. The network services that
would make those checks and carry the messages are not part of it either.

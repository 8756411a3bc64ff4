# cr_dr

Coercion-resistant voting with private dispute resolution, as a Verus
library: the election protocol (setup, registration with cut-and-choose,
voting, fake compliance, chaff, admission), the exact FilterAndTally with
its duplicate rule, the native semantics of the tally relation (monolithic
and chunked), the cast relation, the threshold sharing of the authority
nonces, and the private judge for recorded-as-cast and tallied-as-recorded
disputes. Verus proves every function in `src/`; the public ones carry
contracts that state what they return.

## Layout

- `src/field.rs`: the BN254 scalar field `Fe` and the BabyJubJub scalar
  field `Sc`, modelled as integers below their moduli.
- `src/crypto/`: Poseidon and SHA-256 hashing, the Merkle tree, Schnorr
  signatures over BabyJubJub, the hybrid ballot encryption, Shamir sharing.
- `src/protocol/`: the protocol phases, the bulletin board and the
  anonymous channel, FilterAndTally and the duplicate rule.
- `src/zk/`: the public statement, the witness, the native relation
  checkers, the Batcher schedule, the chunked pipeline, the circuit input
  encodings and the provider partition of decentralized proving.
- `src/disputes/`: the judge.
- `src/threshold/`: the trusted-dealer sharing of R_EA.
- `app/`: the command-line program (files, JSON, snarkjs and co-circom
  subprocesses), outside the verified library.
- `tests/`: the test suite.

Arithmetic on field elements, curve points, Poseidon, SHA-256, decimal
conversion and randomness come from arkworks, light-poseidon, sha2,
num-bigint and rand through small trusted wrappers whose contracts state
what those crates compute.

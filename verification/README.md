# spartan2

A Spartan proof system for rank-1 constraint systems, with polynomial commitments that rest on
hashes alone, written in Rust and verified with Verus.

## Layout

| Path | What it holds |
| --- | --- |
| `src/provider/goldi.rs` | the Goldilocks field |
| `src/provider/pasta/` | the scalar fields of the Pallas and Vesta curves, on top of `pasta_curves`, and the primality of their moduli |
| `src/provider/keccak.rs` | the Keccak-256 transcript |
| `src/provider/pcs/hash_mle_backend.rs` | leaf and node hashes: Keccak-256 and Poseidon2 |
| `src/provider/pcs/merkle_tree.rs` | Merkle trees and authentication paths |
| `src/provider/pcs/layers.rs` | the chain of folded layers that an evaluation argument opens |
| `src/provider/pcs/merkle_mle_pc.rs` | the commitment scheme with Keccak-256 |
| `src/provider/pcs/merkle_mle_pc_p3.rs` | the commitment scheme with Poseidon2, and its streaming mode |
| `src/polys/` | multilinear extensions, the equality polynomial, univariate polynomials |
| `src/sumcheck.rs` | the sum-check protocol |
| `src/r1cs/` | sparse matrices, shapes and instances of constraint systems |
| `src/spartan.rs` | keys, prover and verifier |
| `src/completeness.rs` | the proof that honest proofs are accepted, and laws on changed ones |
| `src/primes.rs` | primality of the Goldilocks modulus, Fermat's little theorem, Pocklington's criterion |
| `app/` | the `ff` traits, serialized forms, circuits, threads and clocks |
| `tests/` | tests of the compiled library |

## How contracts are stated

Scalars are stated over the integers in `0..modulus` that they stand for, byte strings and tables as
sequences, and types with structure by a model that their view gives. What a verifier returns, and
the transcript that it leaves, is a function of those models: `verify_of` of a scheme and in
`spartan.rs`. A prover may draw blinds, so what it returns is stated by a relation between its inputs
and its outcomes: `proves` of a scheme and in `spartan.rs`. The hash-based schemes draw nothing, and
their inputs determine the outcome. Hashes are names without a definition; the wrappers that call
the hash crates are the only place where they are tied to code.

Laws that relate several functions are public proof functions whose names start with `law_`.

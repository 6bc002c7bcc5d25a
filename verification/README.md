# warp_whir

A verified compiler from evaluation claims about Reed-Solomon oracles to linear
queries, and the proof system that opens those oracles in one batch.

An accumulation scheme records commitments to oracles and claims about them:
"the codeword has this value at this index", "its multilinear extension has this
value at this point". Every oracle is one codeword of one Reed-Solomon code. The
compiler turns the claims into linear constraints on that codeword, and the proof
system commits oracles, absorbs their commitments, reduces all claims to one and
opens the combination. The opening protocol itself is handed in by the caller.

## Layout

- `src/field.rs`, `src/algebra.rs`, `src/multilinear.rs`: rings, powers,
  polynomials on subgroups of two-power order, multilinear extensions
- `src/modular.rs`, `src/goldilocks.rs`, `src/keccak.rs`: the field of order
  2^64 - 2^32 + 1, its quadratic extension, and a Keccak-256 transcript, on top
  of the `p3` crates
- `src/code.rs`, `src/adjoint.rs`: the Reed-Solomon code, and codeword queries as
  message queries
- `src/root_iop.rs`, `src/statement.rs`, `src/compiler.rs`, `src/claims.rs`:
  recorded claims and what they are compiled to
- `src/proof_system.rs`, `src/commit.rs`, `src/binding.rs`, `src/grouping.rs`,
  `src/root_prover.rs`, `src/root_verifier.rs`: the proof system
- `src/reader.rs`, `src/finalize.rs`: commitments read off a proof, and the
  proofs of the terminal checks
- `src/grouped.rs`, `src/laws.rs`, `src/relevance.rs`, `src/acceptance.rs`,
  `src/repeatability.rs`, `src/lifecycle.rs`, `src/truth.rs`: what holds of the
  whole, such as what a proof depends on, and that a proof of true claims about
  committed oracles is accepted where the opening protocol accepts the reduction
  and the opening that it made for them
- `tests/`: scenarios and edge cases
- `app/`: the library wired to an opening backend, with serializable proofs and
  errors that have messages

## What is trusted

Functions marked `external_body` call the `p3` crates: field arithmetic and
transforms, powers of a point and `eq` tables, and the transcript. Their doc
comments name the function that is called and say what is claimed of it. One more
reads the address behind an `Arc`, of which nothing is claimed.

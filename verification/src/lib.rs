//! A compiler from recorded evaluation claims about Reed-Solomon oracles to
//! linear queries, and the proof system that opens those oracles in one batch.
//!
//! Every oracle is one codeword of one Reed-Solomon code ([`code`]). Claims such
//! as "the codeword has this value at this index" or "its multilinear extension
//! has this value at this point" ([`root_iop`]) become linear constraints on the
//! codeword ([`statement`], [`compiler`]) and compact statements about it
//! ([`claims`]). The proof system ([`proof_system`]) commits oracles
//! ([`commit`]), absorbs the commitments that claims are about ([`binding`]),
//! and opens all of them together ([`root_prover`], [`root_verifier`]), with the
//! columns of shared commitments grouped ([`grouping`]). The opening protocol
//! itself is handed in by the caller. [`reader`] reads commitments and their
//! out-of-domain constraints off a proof, and [`finalize`] holds the proofs of
//! the terminal checks.
//!
//! The logic is generic over the fields ([`field`]) and the transcript
//! ([`transcript`]); [`goldilocks`] and [`keccak`] provide one instance of each.
//! [`adjoint`], [`grouped`], [`laws`], [`relevance`], [`acceptance`],
//! [`repeatability`], [`lifecycle`] and [`truth`] state what holds of the whole,
//! and [`operations`] what each operation is for.

pub mod acceptance;
pub mod adjoint;
pub mod algebra;
pub mod binding;
pub mod claims;
pub mod code;
pub mod collect;
pub mod commit;
pub mod compiler;
pub mod decimal;
pub mod domain;
pub mod error;
pub mod field;
pub mod finalize;
pub mod goldilocks;
pub mod grouped;
pub mod grouping;
pub mod keccak;
pub mod laws;
pub mod lifecycle;
pub mod modular;
pub mod multilinear;
pub mod operations;
pub mod params;
pub mod proof_system;
pub mod reader;
pub mod relevance;
pub mod repeatability;
pub mod root_iop;
pub mod root_prover;
pub mod root_verifier;
pub mod statement;
pub mod transcript;
pub mod truth;
pub mod types;

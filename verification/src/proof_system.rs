//! The proof system for the recorded claims: one batched opening of the
//! committed Reed-Solomon oracles.

use crate::claims::{
    base_queries, base_query, base_statement, extension_queries, extension_query,
    extension_statement, lemma_queries_step, NativeWarpCompactRootStatement, Query,
};
use crate::code::{base_generators, extension_generators, CodeShape, ReedSolomonCode};
use crate::compiler::NativeWarpWhirCompiler;
use crate::domain::{ROOT_WHIR_BASE_ORACLE, ROOT_WHIR_EXTENSION_ORACLE};
use crate::error::{
    NativeWarpWhirClaimCompileError, NativeWarpWhirRootProofError,
    NativeWarpWhirRootReductionError,
};
use crate::field::{ExtensionField, Field, TwoAdicField};
use crate::params::WhirConfig;
use crate::root_iop::{
    RootIopOpeningClaim, RootIopOpeningPoint, RootIopOpeningValue,
};
use crate::statement::copied_point;
use crate::transcript::{Challenger, Digest, TranscriptItem};
use core::marker::PhantomData;
use vstd::prelude::*;

verus! {

/// The transcript in which a base-field oracle is committed.
pub open spec fn base_transcript<F: Field, EF, D>(
    seed: Seq<TranscriptItem<F, EF, D>>,
    oracle_id: usize,
) -> Seq<TranscriptItem<F, EF, D>> {
    seed.push(TranscriptItem::Base(F::nat_spec(ROOT_WHIR_BASE_ORACLE as nat))).push(
        TranscriptItem::Base(F::nat_spec(oracle_id as nat)),
    )
}

/// The transcript in which an extension-field oracle is committed.
pub open spec fn extension_transcript<F: Field, EF, D>(
    seed: Seq<TranscriptItem<F, EF, D>>,
    oracle_id: usize,
) -> Seq<TranscriptItem<F, EF, D>> {
    seed.push(TranscriptItem::Base(F::nat_spec(ROOT_WHIR_EXTENSION_ORACLE as nat))).push(
        TranscriptItem::Base(F::nat_spec(oracle_id as nat)),
    )
}

/// A codeword and a message have the lengths of the code, and the codeword is
/// the encoding of the message, where `g` generates the subgroups.
pub open spec fn consistent_input<T: Field>(
    shape: CodeShape,
    g: spec_fn(nat) -> T,
    oracle_id: usize,
    codeword: Seq<T>,
    message: Seq<T>,
) -> Result<(), NativeWarpWhirRootReductionError> {
    if codeword.len() != shape.codeword_len() {
        Err(
            NativeWarpWhirRootReductionError::OracleValueLengthMismatch {
                oracle_id,
                expected: shape.codeword_len() as usize,
                actual: codeword.len() as usize,
            },
        )
    } else {
        consistent_message(shape, g, oracle_id, codeword, message)
    }
}

/// A message has the length of the code, and the codeword is its encoding,
/// where `g` generates the subgroups.
pub open spec fn consistent_message<T: Field>(
    shape: CodeShape,
    g: spec_fn(nat) -> T,
    oracle_id: usize,
    codeword: Seq<T>,
    message: Seq<T>,
) -> Result<(), NativeWarpWhirRootReductionError> {
    if message.len() != shape.msg_len() {
        Err(
            NativeWarpWhirRootReductionError::OracleValueLengthMismatch {
                oracle_id,
                expected: shape.msg_len() as usize,
                actual: message.len() as usize,
            },
        )
    } else if shape.encoding(g, message) != codeword {
        Err(NativeWarpWhirRootReductionError::EncodingMismatch { oracle_id })
    } else {
        Ok(())
    }
}

/// Whether two tables are equal.
fn same_table<T: Field>(a: &Vec<T>, b: &Vec<T>) -> (r: bool)
    ensures
        r == (a@ == b@),
{
    if a.len() != b.len() {
        return false;
    }
    let mut i: usize = 0;
    while i < a.len()
        invariant
            a@.len() == b@.len(),
            i <= a@.len(),
            forall|j: int| 0 <= j < i ==> a@[j] == b@[j],
        decreases a@.len() - i,
    {
        if !a[i].same(b[i]) {
            return false;
        }
        i = i + 1;
    }
    assert(a@ =~= b@);
    true
}

/// The proof system of one code.
///
/// `F` is the base field, `EF` the extension in which challenges are drawn, `D`
/// the value of a commitment and `C` the transcript. The opening backend is
/// handed in by the callers of the single operations.
#[derive(Debug)]
pub struct NativeWarpWhirRootProofSystem<'a, F: TwoAdicField, EF, D, C> {
    message_pcs: &'a WhirConfig,
    compiler: NativeWarpWhirCompiler<'a, F>,
    challenger_seed: C,
    elements: PhantomData<(EF, D)>,
}

/// The same proof system under the name of what it proves: linear openings.
pub type NativeWarpWhirLinearOpeningProofSystem<'a, F, EF, D, C> = NativeWarpWhirRootProofSystem<
    'a,
    F,
    EF,
    D,
    C,
>;

impl<'a, F: TwoAdicField, EF, D, C> NativeWarpWhirRootProofSystem<'a, F, EF, D, C> {
    /// The opening protocol is set up for the message length and the rate of
    /// the code.
    #[verifier::type_invariant]
    spec fn well_formed(self) -> bool {
        &&& self.message_pcs.num_variables == self.compiler.shape().log_msg_len
        &&& self.message_pcs.starting_log_inv_rate == self.compiler.shape().log_inv_rate
    }
}

impl<
    'a,
    F: TwoAdicField,
    EF: ExtensionField<F>,
    D: Digest,
    C: Challenger<F, EF, D>,
> NativeWarpWhirRootProofSystem<'a, F, EF, D, C> {
    /// The dimensions and the layout of the code.
    pub closed spec fn shape(self) -> CodeShape {
        self.compiler.shape()
    }

    /// The parameters of the opening protocol.
    pub closed spec fn config(self) -> WhirConfig {
        *self.message_pcs
    }

    /// The history of the transcript from which those of the single oracles
    /// are derived.
    pub closed spec fn seed(self) -> Seq<TranscriptItem<F, EF, D>> {
        self.challenger_seed.history()
    }

    /// A proof system. The opening protocol has to be set up for the message
    /// length and the rate of the code.
    pub fn new(
        message_pcs: &'a WhirConfig,
        code: &'a ReedSolomonCode<F>,
        challenger_seed: C,
    ) -> (r: Self)
        requires
            message_pcs.num_variables == code.shape().log_msg_len,
            message_pcs.starting_log_inv_rate == code.shape().log_inv_rate,
        ensures
            r.shape() == code.shape(),
            r.config() == *message_pcs,
            r.seed() == challenger_seed.history(),
    {
        NativeWarpWhirRootProofSystem {
            message_pcs,
            compiler: NativeWarpWhirCompiler::new(code),
            challenger_seed,
            elements: PhantomData,
        }
    }

    /// The parameters of the opening protocol, which are those of the code.
    pub fn message_pcs(&self) -> (r: &'a WhirConfig)
        ensures
            *r == self.config(),
            r.num_variables == self.shape().log_msg_len,
            r.starting_log_inv_rate == self.shape().log_inv_rate,
    {
        proof {
            use_type_invariant(self);
        }
        self.message_pcs
    }

    /// Compiles the claims about a base-field oracle to one statement.
    pub fn compact_base_message_claim_statement(
        &self,
        claims: &Vec<RootIopOpeningClaim<F, EF>>,
        oracle_id: usize,
    ) -> (r: Result<NativeWarpCompactRootStatement<EF>, NativeWarpWhirClaimCompileError>)
        ensures
            match base_statement(self.shape(), claims@, oracle_id) {
                Ok(statement) => r matches Ok(found) && found@ == statement,
                Err(e) => r matches Err(found) && found == e,
            },
    {
        let codeword_len: usize = self.compiler.code().codeword_len();
        let mut statement = NativeWarpCompactRootStatement::initialize(
            self.compiler.code().log_msg_len(),
        );
        let ghost f = |c: RootIopOpeningClaim<F, EF>| base_query(self.shape(), oracle_id, c);
        let mut i: usize = 0;
        assert(claims@.take(0) =~= Seq::<RootIopOpeningClaim<F, EF>>::empty());
        reveal(Seq::filter);
        while i < claims.len()
            invariant
                i <= claims@.len(),
                codeword_len == self.shape().codeword_len(),
                f == |c: RootIopOpeningClaim<F, EF>| base_query(self.shape(), oracle_id, c),
                statement@.num_variables == self.shape().log_msg_len,
                base_queries(self.shape(), claims@.take(i as int), oracle_id) == Ok::<
                    Seq<Query<EF>>,
                    NativeWarpWhirClaimCompileError,
                >(statement@.queries),
            decreases claims@.len() - i,
        {
            let claim = &claims[i];
            proof {
                lemma_queries_step(claims@, oracle_id, i as int, f);
            }
            if claim.oracle_id == oracle_id {
                let value = match &claim.value {
                    RootIopOpeningValue::Base(value) => EF::from_base(*value),
                    RootIopOpeningValue::Extension(_) => {
                        return Err(
                            NativeWarpWhirClaimCompileError::OracleFieldMismatch(oracle_id),
                        );
                    },
                };
                match &claim.point {
                    RootIopOpeningPoint::Index(index)
                    | RootIopOpeningPoint::RsCodewordIndex(index) => {
                        if *index >= codeword_len {
                            return Err(
                                NativeWarpWhirClaimCompileError::IndexOutOfBounds {
                                    oracle_id,
                                    index: *index,
                                },
                            );
                        }
                        statement.add_index(*index, value);
                    },
                    RootIopOpeningPoint::Mle(_) => {
                        return Err(
                            NativeWarpWhirClaimCompileError::UnsupportedBaseMle(oracle_id),
                        );
                    },
                }
            }
            i = i + 1;
        }
        assert(claims@.take(i as int) =~= claims@);
        if statement.is_empty() {
            return Err(NativeWarpWhirClaimCompileError::EmptyOracle(oracle_id));
        }
        Ok(statement)
    }

    /// Compiles the claims about an extension-field oracle to one statement.
    pub fn compact_extension_message_claim_statement(
        &self,
        claims: &Vec<RootIopOpeningClaim<F, EF>>,
        oracle_id: usize,
    ) -> (r: Result<NativeWarpCompactRootStatement<EF>, NativeWarpWhirClaimCompileError>)
        ensures
            match extension_statement(self.shape(), claims@, oracle_id) {
                Ok(statement) => r matches Ok(found) && found@ == statement,
                Err(e) => r matches Err(found) && found == e,
            },
    {
        let codeword_len: usize = self.compiler.code().codeword_len();
        let log_codeword_len: usize = self.compiler.code().log_codeword_len();
        let mut statement = NativeWarpCompactRootStatement::initialize(
            self.compiler.code().log_msg_len(),
        );
        let ghost f = |c: RootIopOpeningClaim<F, EF>| extension_query(self.shape(), oracle_id, c);
        let mut i: usize = 0;
        assert(claims@.take(0) =~= Seq::<RootIopOpeningClaim<F, EF>>::empty());
        reveal(Seq::filter);
        while i < claims.len()
            invariant
                i <= claims@.len(),
                codeword_len == self.shape().codeword_len(),
                log_codeword_len == self.shape().log_codeword_len(),
                f == |c: RootIopOpeningClaim<F, EF>| extension_query(self.shape(), oracle_id, c),
                statement@.num_variables == self.shape().log_msg_len,
                extension_queries(self.shape(), claims@.take(i as int), oracle_id) == Ok::<
                    Seq<Query<EF>>,
                    NativeWarpWhirClaimCompileError,
                >(statement@.queries),
            decreases claims@.len() - i,
        {
            let claim = &claims[i];
            proof {
                lemma_queries_step(claims@, oracle_id, i as int, f);
            }
            if claim.oracle_id == oracle_id {
                let value = match &claim.value {
                    RootIopOpeningValue::Extension(value) => *value,
                    RootIopOpeningValue::Base(_) => {
                        return Err(
                            NativeWarpWhirClaimCompileError::OracleFieldMismatch(oracle_id),
                        );
                    },
                };
                match &claim.point {
                    RootIopOpeningPoint::Index(index)
                    | RootIopOpeningPoint::RsCodewordIndex(index) => {
                        if *index >= codeword_len {
                            return Err(
                                NativeWarpWhirClaimCompileError::IndexOutOfBounds {
                                    oracle_id,
                                    index: *index,
                                },
                            );
                        }
                        statement.add_index(*index, value);
                    },
                    RootIopOpeningPoint::Mle(point) => {
                        if point.len() != log_codeword_len {
                            return Err(
                                NativeWarpWhirClaimCompileError::PointArityMismatch { oracle_id },
                            );
                        }
                        statement.add_mle(copied_point(point), value);
                    },
                }
            }
            i = i + 1;
        }
        assert(claims@.take(i as int) =~= claims@);
        if statement.is_empty() {
            return Err(NativeWarpWhirClaimCompileError::EmptyOracle(oracle_id));
        }
        Ok(statement)
    }

    /// The compiler of the code.
    pub(crate) fn compiler(&self) -> (r: &NativeWarpWhirCompiler<'a, F>)
        ensures
            r.shape() == self.shape(),
    {
        &self.compiler
    }

    /// A transcript with the history of the seed.
    pub(crate) fn seed_challenger(&self) -> (r: C)
        ensures
            r.history() == self.seed(),
    {
        self.challenger_seed.fork()
    }

    /// The transcript in which a base-field oracle is committed.
    pub fn base_oracle_challenger(&self, oracle_id: usize) -> (r: C)
        ensures
            r.history() == base_transcript(self.seed(), oracle_id),
    {
        let mut challenger = self.challenger_seed.fork();
        challenger.observe(F::from_u64(ROOT_WHIR_BASE_ORACLE));
        challenger.observe(F::from_u64(oracle_id as u64));
        challenger
    }

    /// The transcript in which an extension-field oracle is committed.
    pub fn extension_oracle_challenger(&self, oracle_id: usize) -> (r: C)
        ensures
            r.history() == extension_transcript(self.seed(), oracle_id),
    {
        let mut challenger = self.challenger_seed.fork();
        challenger.observe(F::from_u64(ROOT_WHIR_EXTENSION_ORACLE));
        challenger.observe(F::from_u64(oracle_id as u64));
        challenger
    }

    /// The codeword is the encoding of the message.
    pub fn ensure_base_codeword_matches_message<E>(
        &self,
        oracle_id: usize,
        codeword: &Vec<F>,
        message: &Vec<F>,
    ) -> (r: Result<(), NativeWarpWhirRootProofError<E>>)
        requires
            message@.len() == self.shape().msg_len(),
        ensures
            r == if self.shape().encoding(base_generators::<F>(), message@) == codeword@ {
                Ok(())
            } else {
                Err(
                    NativeWarpWhirRootProofError::<E>::Reduction(
                        NativeWarpWhirRootReductionError::EncodingMismatch { oracle_id },
                    ),
                )
            },
    {
        let expected_codeword = self.compiler.code().encode(message);
        if !same_table(&expected_codeword, codeword) {
            return Err(
                NativeWarpWhirRootProofError::Reduction(
                    NativeWarpWhirRootReductionError::EncodingMismatch { oracle_id },
                ),
            );
        }
        Ok(())
    }

    /// The codeword over the extension is the encoding of the message.
    pub fn ensure_extension_codeword_matches_message<E>(
        &self,
        oracle_id: usize,
        codeword: &Vec<EF>,
        message: &Vec<EF>,
    ) -> (r: Result<(), NativeWarpWhirRootProofError<E>>)
        requires
            message@.len() == self.shape().msg_len(),
        ensures
            r == if self.shape().encoding(extension_generators::<F, EF>(), message@) == codeword@ {
                Ok(())
            } else {
                Err(
                    NativeWarpWhirRootProofError::<E>::Reduction(
                        NativeWarpWhirRootReductionError::EncodingMismatch { oracle_id },
                    ),
                )
            },
    {
        let expected_codeword = self.compiler.code().encode_algebra(message);
        if !same_table(&expected_codeword, codeword) {
            return Err(
                NativeWarpWhirRootProofError::Reduction(
                    NativeWarpWhirRootReductionError::EncodingMismatch { oracle_id },
                ),
            );
        }
        Ok(())
    }
}

} // verus!

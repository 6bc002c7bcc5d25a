//! Committing oracles of the root proof system.

use crate::code::{
    base_generators, codewords_are_fixed_by_reencoding, extension_generators,
    lemma_extension_chain, CodeShape,
};
use crate::collect::{collected, lemma_collected_prefix, lemma_collected_push};
use crate::domain::ROOT_WHIR_BASE_ORACLE;
use crate::error::{NativeWarpWhirRootProofError, NativeWarpWhirRootReductionError};
use crate::field::{ExtensionField, Field, TwoAdicField};
use crate::proof_system::{
    base_transcript, consistent_input, extension_transcript, NativeWarpWhirRootProofSystem,
};
use crate::root_iop::{RootIopBoundCommitment, RootIopOracleField};
use crate::statement::copied_point;
use crate::transcript::{Challenger, Digest, TranscriptItem};
use crate::types::{
    BoundRoot, NativeWarpWhirRootBaseProverData, NativeWarpWhirRootCommitment,
    NativeWarpWhirRootExtensionProverData, NativeWarpWhirRootOracleProverData,
    NativeWarpWhirRootProverData, NativeWarpWhirRootSharedBaseProverData, SharedHandle,
};
use vstd::prelude::*;

verus! {

/// The public commitment to an oracle of the length of a codeword.
pub open spec fn bound_commitment<D>(
    shape: CodeShape,
    oracle_id: usize,
    field: RootIopOracleField,
    commitment: NativeWarpWhirRootCommitment<D>,
) -> BoundRoot<D> {
    RootIopBoundCommitment {
        oracle_id,
        log_len: shape.log_codeword_len() as usize,
        field,
        commitment,
    }
}

/// The result is the given commitment with the given prover data of the same
/// oracle.
pub open spec fn committed<F, EF, D, C, PB, PS, PE, E>(
    r: Result<
        (
            BoundRoot<D>,
            NativeWarpWhirRootOracleProverData<F, EF, C, PB, PS, PE>,
        ),
        NativeWarpWhirRootProofError<E>,
    >,
    commitment: BoundRoot<D>,
    data: NativeWarpWhirRootProverData<F, EF, C, PB, PS, PE>,
) -> bool {
    r matches Ok((found_commitment, found_data)) && found_commitment == commitment && found_data
        == (NativeWarpWhirRootOracleProverData { oracle_id: commitment.oracle_id, data })
}

/// The result is the commitment to an extension-field oracle, with the given
/// prover data.
pub open spec fn extension_committed<F, EF, D, C, PB, PS, PE, E>(
    r: Result<
        (
            BoundRoot<D>,
            NativeWarpWhirRootOracleProverData<F, EF, C, PB, PS, PE>,
        ),
        NativeWarpWhirRootProofError<E>,
    >,
    shape: CodeShape,
    oracle_id: usize,
    root: D,
    prover_data: PE,
    challenger: C,
    message: Seq<EF>,
) -> bool {
    r matches Ok((commitment, found)) && commitment == bound_commitment(
        shape,
        oracle_id,
        RootIopOracleField::Extension,
        NativeWarpWhirRootCommitment::ExtensionMessage(root),
    ) && found.oracle_id == oracle_id && (found.data matches
        NativeWarpWhirRootProverData::ExtensionMessage(data) && data.prover_data == prover_data
        && data.challenger == challenger && data.message@ == message)
}

/// The result is the error that a message of the given length is refused with.
pub open spec fn wrong_message_length<T, E>(
    r: Result<T, NativeWarpWhirRootProofError<E>>,
    shape: CodeShape,
    oracle_id: usize,
    len: nat,
) -> bool {
    r matches Err(
        NativeWarpWhirRootProofError::Reduction(
            NativeWarpWhirRootReductionError::OracleValueLengthMismatch {
                oracle_id: found,
                expected,
                actual,
            },
        ),
    ) && found == oracle_id && expected == shape.msg_len() && actual == len
}

/// The tables behind vectors.
pub open spec fn tables<T>(v: Seq<Vec<T>>) -> Seq<Seq<T>> {
    Seq::new(v.len(), |i: int| v[i]@)
}

/// The identifiers of a stack of oracles.
pub open spec fn input_ids<T>(inputs: Seq<(usize, Vec<T>, Vec<T>)>) -> Seq<usize> {
    Seq::new(inputs.len(), |i: int| inputs[i].0)
}

/// The messages of a stack of oracles.
pub open spec fn input_messages<T>(inputs: Seq<(usize, Vec<T>, Vec<T>)>) -> Seq<Seq<T>> {
    Seq::new(inputs.len(), |i: int| inputs[i].2@)
}

/// Every oracle of a stack fits the code; if not, the first that does not is
/// reported.
pub open spec fn consistent_inputs<F: TwoAdicField>(
    shape: CodeShape,
    inputs: Seq<(usize, Vec<F>, Vec<F>)>,
) -> Result<Seq<()>, NativeWarpWhirRootReductionError> {
    collected(
        inputs,
        |input: (usize, Vec<F>, Vec<F>)|
            consistent_input(shape, base_generators::<F>(), input.0, input.1@, input.2@),
    )
}

/// The start of the transcript in which a stack is committed: the role and the
/// number of columns.
pub open spec fn stack_header<F: Field, EF, D>(
    seed: Seq<TranscriptItem<F, EF, D>>,
    width: nat,
) -> Seq<TranscriptItem<F, EF, D>> {
    seed.push(TranscriptItem::Base(F::nat_spec(ROOT_WHIR_BASE_ORACLE as nat))).push(
        TranscriptItem::Base(F::nat_spec(width)),
    )
}

/// Identifiers as they are absorbed.
pub open spec fn id_items<F: Field, EF, D>(ids: Seq<usize>) -> Seq<TranscriptItem<F, EF, D>> {
    Seq::new(ids.len(), |i: int| TranscriptItem::Base(F::nat_spec(ids[i] as nat)))
}

/// The transcript in which a stack is committed: the role, the number of
/// columns, and the identifiers of the columns in order.
pub open spec fn stack_transcript<F: Field, EF, D>(
    seed: Seq<TranscriptItem<F, EF, D>>,
    ids: Seq<usize>,
) -> Seq<TranscriptItem<F, EF, D>> {
    stack_header(seed, ids.len()) + id_items(ids)
}

/// What is returned for one column of a stack.
pub open spec fn stack_column<F, EF, D, C, PB, PS, PE>(
    shape: CodeShape,
    inputs: Seq<(usize, Vec<F>, Vec<F>)>,
    root: D,
    shared: SharedHandle<PS>,
    column: int,
    out: (
        BoundRoot<D>,
        NativeWarpWhirRootOracleProverData<F, EF, C, PB, PS, PE>,
    ),
) -> bool {
    let width = inputs.len() as usize;
    let oracle_id = inputs[column].0;
    &&& out.0 == bound_commitment(
        shape,
        oracle_id,
        RootIopOracleField::Base,
        NativeWarpWhirRootCommitment::BaseMessageShared { root, column: column as usize, width },
    )
    &&& out.1.oracle_id == oracle_id
    &&& out.1.data matches NativeWarpWhirRootProverData::BaseShared(data)
    &&& data.shared == shared
    &&& data.column == column
    &&& data.width == width
    &&& data.message@ == inputs[column].2@
}

/// What is returned for a stack: one commitment for each column, all with the
/// same root and width.
pub open spec fn stack_of<F, EF, D, C, PB, PS, PE>(
    shape: CodeShape,
    inputs: Seq<(usize, Vec<F>, Vec<F>)>,
    root: D,
    shared: SharedHandle<PS>,
    out: Seq<
        (
            BoundRoot<D>,
            NativeWarpWhirRootOracleProverData<F, EF, C, PB, PS, PE>,
        ),
    >,
) -> bool {
    &&& out.len() == inputs.len()
    &&& forall|i: int|
        0 <= i < out.len() ==> stack_column(shape, inputs, root, shared, i, #[trigger] out[i])
}

impl<
    'a,
    F: TwoAdicField,
    EF: ExtensionField<F>,
    D: Digest,
    C: Challenger<F, EF, D>,
> NativeWarpWhirRootProofSystem<'a, F, EF, D, C> {
    /// Commits a base-field oracle whose codeword is the encoding of its
    /// message. `commit` commits to the encoded message in the transcript that
    /// it is handed, and hands back the transcript as it leaves it.
    pub fn commit_base_message_oracle<PB, PS, PE, E, G: FnOnce(Vec<F>, C) -> (D, PB, C)>(
        &self,
        oracle_id: usize,
        codeword: Vec<F>,
        message: Vec<F>,
        commit: G,
    ) -> (r: Result<
        (
            BoundRoot<D>,
            NativeWarpWhirRootOracleProverData<F, EF, C, PB, PS, PE>,
        ),
        NativeWarpWhirRootProofError<E>,
    >)
        requires
            consistent_input(
                self.shape(),
                base_generators::<F>(),
                oracle_id,
                codeword@,
                message@,
            ) is Ok ==> forall|m: Vec<F>, c: C|
                m@ == message@ && c.history() == base_transcript(self.seed(), oracle_id)
                    ==> #[trigger] call_requires(commit, (m, c)),
        ensures
            match consistent_input(
                self.shape(),
                base_generators::<F>(),
                oracle_id,
                codeword@,
                message@,
            ) {
                Err(e) => r matches Err(NativeWarpWhirRootProofError::Reduction(found)) && found
                    == e,
                Ok(()) => exists|m: Vec<F>, c: C, root: D, prover_data: PB, challenger: C|
                    #![trigger call_ensures(commit, (m, c), (root, prover_data, challenger))]
                    m@ == message@ && c.history() == base_transcript(self.seed(), oracle_id)
                        && call_ensures(commit, (m, c), (root, prover_data, challenger))
                        && committed(
                        r,
                        bound_commitment(
                            self.shape(),
                            oracle_id,
                            RootIopOracleField::Base,
                            NativeWarpWhirRootCommitment::BaseMessage(root),
                        ),
                        NativeWarpWhirRootProverData::Base(
                            NativeWarpWhirRootBaseProverData { prover_data, challenger, message },
                        ),
                    ),
            },
    {
        match self.check_base_input(oracle_id, &codeword, &message) {
            Ok(()) => {},
            Err(e) => {
                return Err(e);
            },
        }
        let challenger = self.base_oracle_challenger(oracle_id);
        let (root, prover_data, challenger) = commit(copied_point(&message), challenger);
        Ok(
            (
                RootIopBoundCommitment {
                    oracle_id,
                    log_len: self.compiler().code().log_codeword_len(),
                    field: RootIopOracleField::Base,
                    commitment: NativeWarpWhirRootCommitment::BaseMessage(root),
                },
                NativeWarpWhirRootOracleProverData {
                    oracle_id,
                    data: NativeWarpWhirRootProverData::Base(
                        NativeWarpWhirRootBaseProverData { prover_data, challenger, message },
                    ),
                },
            ),
        )
    }

    /// The codeword and the message fit the code and each other.
    fn check_base_input<E>(&self, oracle_id: usize, codeword: &Vec<F>, message: &Vec<F>) -> (r:
        Result<(), NativeWarpWhirRootProofError<E>>)
        ensures
            match consistent_input(
                self.shape(),
                base_generators::<F>(),
                oracle_id,
                codeword@,
                message@,
            ) {
                Err(e) => r matches Err(NativeWarpWhirRootProofError::Reduction(found)) && found
                    == e,
                Ok(()) => r is Ok,
            },
    {
        let expected: usize = self.compiler().code().codeword_len();
        if codeword.len() != expected {
            return Err(
                NativeWarpWhirRootProofError::Reduction(
                    NativeWarpWhirRootReductionError::OracleValueLengthMismatch {
                        oracle_id,
                        expected,
                        actual: codeword.len(),
                    },
                ),
            );
        }
        let expected: usize = self.compiler().code().msg_len();
        if message.len() != expected {
            return Err(
                NativeWarpWhirRootProofError::Reduction(
                    NativeWarpWhirRootReductionError::OracleValueLengthMismatch {
                        oracle_id,
                        expected,
                        actual: message.len(),
                    },
                ),
            );
        }
        self.ensure_base_codeword_matches_message(oracle_id, codeword, message)
    }

    /// Commits several base-field oracles in one stack: every oracle is a
    /// column of it, in the given order. `commit` commits to the encoded
    /// messages in the transcript that it is handed.
    pub fn commit_shared_base_message_oracles<
        PB,
        PS,
        PE,
        E,
        G: FnOnce(Vec<Vec<F>>, C) -> (D, SharedHandle<PS>, C),
    >(&self, inputs: Vec<(usize, Vec<F>, Vec<F>)>, commit: G) -> (r: Result<
        Vec<
            (
                BoundRoot<D>,
                NativeWarpWhirRootOracleProverData<F, EF, C, PB, PS, PE>,
            ),
        >,
        NativeWarpWhirRootProofError<E>,
    >)
        requires
            inputs@.len() > 0 && consistent_inputs(self.shape(), inputs@) is Ok ==> forall|
                m: Vec<Vec<F>>,
                c: C,
            |
                tables(m@) == input_messages(inputs@) && c.history() == stack_transcript(
                    self.seed(),
                    input_ids(inputs@),
                ) ==> #[trigger] call_requires(commit, (m, c)),
        ensures
            match consistent_inputs(self.shape(), inputs@) {
                Err(e) => r matches Err(NativeWarpWhirRootProofError::Reduction(found)) && found
                    == e,
                Ok(_) => if inputs@.len() == 0 {
                    r matches Ok(out) && out@.len() == 0
                } else {
                    exists|m: Vec<Vec<F>>, c: C, root: D, shared: SharedHandle<PS>, after: C|
                        #![trigger call_ensures(commit, (m, c), (root, shared, after))]
                        tables(m@) == input_messages(inputs@) && c.history() == stack_transcript(
                            self.seed(),
                            input_ids(inputs@),
                        ) && call_ensures(commit, (m, c), (root, shared, after)) && (r matches Ok(
                            out,
                        ) && stack_of(self.shape(), inputs@, root, shared, out@))
                },
            },
    {
        let width: usize = inputs.len();
        let mut matrices: Vec<Vec<F>> = Vec::new();
        let mut i: usize = 0;
        let ghost check = |input: (usize, Vec<F>, Vec<F>)|
            consistent_input(
                self.shape(),
                base_generators::<F>(),
                input.0,
                input.1@,
                input.2@,
            );
        while i < width
            invariant
                i <= width == inputs@.len(),
                check == |input: (usize, Vec<F>, Vec<F>)|
                    consistent_input(
                        self.shape(),
                        base_generators::<F>(),
                        input.0,
                        input.1@,
                        input.2@,
                    ),
                consistent_inputs(self.shape(), inputs@.take(i as int)) is Ok,
                matrices@.len() == i,
                tables(matrices@) == input_messages(inputs@.take(i as int)),
            decreases width - i,
        {
            let input = &inputs[i];
            proof {
                let n = i as int;
                lemma_collected_push(inputs@.take(n), inputs@[n], check);
                assert(inputs@.take(n).push(inputs@[n]) =~= inputs@.take(n + 1));
                lemma_collected_prefix(inputs@, n + 1, check);
            }
            match self.check_base_input(input.0, &input.1, &input.2) {
                Ok(()) => {},
                Err(e) => {
                    return Err(e);
                },
            }
            let ghost before = matrices@;
            matrices.push(copied_point(&input.2));
            i = i + 1;
            assert forall|k: int| 0 <= k < i implies #[trigger] tables(matrices@)[k]
                == input_messages(inputs@.take(i as int))[k] by {
                if k < i - 1 {
                    assert(tables(before)[k] == input_messages(inputs@.take(i as int - 1))[k]);
                }
            }
            assert(tables(matrices@) =~= input_messages(inputs@.take(i as int)));
        }
        assert(inputs@.take(i as int) =~= inputs@);
        let mut out: Vec<
            (
                BoundRoot<D>,
                NativeWarpWhirRootOracleProverData<F, EF, C, PB, PS, PE>,
            ),
        > = Vec::new();
        if width == 0 {
            return Ok(out);
        }
        let mut challenger = self.seed_challenger();
        challenger.observe(F::from_u64(ROOT_WHIR_BASE_ORACLE));
        challenger.observe(F::from_u64(width as u64));
        let mut j: usize = 0;
        let ghost start = stack_header::<F, EF, D>(self.seed(), width as nat);
        while j < width
            invariant
                j <= width == inputs@.len(),
                start == stack_header::<F, EF, D>(self.seed(), width as nat),
                challenger.history() == start + id_items::<F, EF, D>(
                    input_ids(inputs@.take(j as int)),
                ),
            decreases width - j,
        {
            let oracle_id: usize = inputs[j].0;
            challenger.observe(F::from_u64(oracle_id as u64));
            j = j + 1;
            assert(challenger.history() =~= start + id_items::<F, EF, D>(
                input_ids(inputs@.take(j as int)),
            ));
        }
        assert(inputs@.take(j as int) =~= inputs@);
        let log_len: usize = self.compiler().code().log_codeword_len();
        let (root, shared, after) = commit(matrices, challenger);
        let mut column: usize = 0;
        while column < width
            invariant
                column <= width == inputs@.len(),
                log_len == self.shape().log_codeword_len(),
                out@.len() == column,
                forall|k: int|
                    0 <= k < column ==> stack_column(
                        self.shape(),
                        inputs@,
                        root,
                        shared,
                        k,
                        #[trigger] out@[k],
                    ),
            decreases width - column,
        {
            let input = &inputs[column];
            let commitment = RootIopBoundCommitment {
                oracle_id: input.0,
                log_len,
                field: RootIopOracleField::Base,
                commitment: NativeWarpWhirRootCommitment::BaseMessageShared { root, column, width },
            };
            let prover_data = NativeWarpWhirRootOracleProverData {
                oracle_id: input.0,
                data: NativeWarpWhirRootProverData::BaseShared(
                    NativeWarpWhirRootSharedBaseProverData {
                        shared: shared.share(),
                        column,
                        width,
                        message: copied_point(&input.2),
                    },
                ),
            };
            out.push((commitment, prover_data));
            column = column + 1;
        }
        Ok(out)
    }

    /// Commits an extension-field oracle given by its codeword. The message is
    /// read off the codeword and encoded again, and tables that are not
    /// codewords are refused.
    pub fn commit_extension_oracle<PB, PS, PE, E, G: FnOnce(Vec<EF>, C) -> (D, PE, C)>(
        &self,
        oracle_id: usize,
        codeword: Vec<EF>,
        commit: G,
    ) -> (r: Result<
        (
            BoundRoot<D>,
            NativeWarpWhirRootOracleProverData<F, EF, C, PB, PS, PE>,
        ),
        NativeWarpWhirRootProofError<E>,
    >)
        requires
            codeword@.len() == self.shape().codeword_len() && self.shape().is_codeword(
                extension_generators::<F, EF>(),
                codeword@,
            ) ==> forall|m: Vec<EF>, c: C|
                m@ == self.shape().decoding(extension_generators::<F, EF>(), codeword@)
                    && c.history() == extension_transcript(self.seed(), oracle_id)
                    ==> #[trigger] call_requires(commit, (m, c)),
        ensures
            if codeword@.len() != self.shape().codeword_len() {
                r matches Err(
                    NativeWarpWhirRootProofError::Reduction(
                        NativeWarpWhirRootReductionError::OracleValueLengthMismatch {
                            oracle_id: found,
                            expected,
                            actual,
                        },
                    ),
                ) && found == oracle_id && expected == self.shape().codeword_len() && actual
                    == codeword@.len()
            } else if !self.shape().is_codeword(extension_generators::<F, EF>(), codeword@) {
                r matches Err(
                    NativeWarpWhirRootProofError::Reduction(
                        NativeWarpWhirRootReductionError::EncodingMismatch { oracle_id: found },
                    ),
                ) && found == oracle_id
            } else {
                exists|m: Vec<EF>, c: C, root: D, prover_data: PE, challenger: C|
                    #![trigger call_ensures(commit, (m, c), (root, prover_data, challenger))]
                    m@ == self.shape().decoding(extension_generators::<F, EF>(), codeword@)
                        && c.history() == extension_transcript(self.seed(), oracle_id)
                        && call_ensures(commit, (m, c), (root, prover_data, challenger))
                        && extension_committed(
                        r,
                        self.shape(),
                        oracle_id,
                        root,
                        prover_data,
                        challenger,
                        m@,
                    )
            },
    {
        let expected: usize = self.compiler().code().codeword_len();
        if codeword.len() != expected {
            return Err(
                NativeWarpWhirRootProofError::Reduction(
                    NativeWarpWhirRootReductionError::OracleValueLengthMismatch {
                        oracle_id,
                        expected,
                        actual: codeword.len(),
                    },
                ),
            );
        }
        let message = self.compiler().code().message_from_codeword(&codeword);
        proof {
            lemma_extension_chain::<F, EF>();
            codewords_are_fixed_by_reencoding(
                self.shape(),
                extension_generators::<F, EF>(),
                F::two_adicity(),
                codeword@,
            );
        }
        self.commit_extension_oracle_with_message(oracle_id, codeword, message, commit)
    }

    /// Commits an extension-field oracle whose codeword is the encoding of its
    /// message.
    pub fn commit_extension_oracle_with_message<
        PB,
        PS,
        PE,
        E,
        G: FnOnce(Vec<EF>, C) -> (D, PE, C),
    >(&self, oracle_id: usize, codeword: Vec<EF>, message: Vec<EF>, commit: G) -> (r: Result<
        (
            BoundRoot<D>,
            NativeWarpWhirRootOracleProverData<F, EF, C, PB, PS, PE>,
        ),
        NativeWarpWhirRootProofError<E>,
    >)
        requires
            consistent_input(
                self.shape(),
                extension_generators::<F, EF>(),
                oracle_id,
                codeword@,
                message@,
            ) is Ok ==> forall|m: Vec<EF>, c: C|
                m@ == message@ && c.history() == extension_transcript(self.seed(), oracle_id)
                    ==> #[trigger] call_requires(commit, (m, c)),
        ensures
            match consistent_input(
                self.shape(),
                extension_generators::<F, EF>(),
                oracle_id,
                codeword@,
                message@,
            ) {
                Err(e) => r matches Err(NativeWarpWhirRootProofError::Reduction(found)) && found
                    == e,
                Ok(()) => exists|m: Vec<EF>, c: C, root: D, prover_data: PE, challenger: C|
                    #![trigger call_ensures(commit, (m, c), (root, prover_data, challenger))]
                    m@ == message@ && c.history() == extension_transcript(self.seed(), oracle_id)
                        && call_ensures(commit, (m, c), (root, prover_data, challenger))
                        && extension_committed(
                        r,
                        self.shape(),
                        oracle_id,
                        root,
                        prover_data,
                        challenger,
                        message@,
                    ),
            },
    {
        let expected: usize = self.compiler().code().codeword_len();
        if codeword.len() != expected {
            return Err(
                NativeWarpWhirRootProofError::Reduction(
                    NativeWarpWhirRootReductionError::OracleValueLengthMismatch {
                        oracle_id,
                        expected,
                        actual: codeword.len(),
                    },
                ),
            );
        }
        let expected: usize = self.compiler().code().msg_len();
        if message.len() != expected {
            return Err(
                NativeWarpWhirRootProofError::Reduction(
                    NativeWarpWhirRootReductionError::OracleValueLengthMismatch {
                        oracle_id,
                        expected,
                        actual: message.len(),
                    },
                ),
            );
        }
        match self.ensure_extension_codeword_matches_message(oracle_id, &codeword, &message) {
            Ok(()) => {},
            Err(e) => {
                return Err(e);
            },
        }
        let challenger = self.extension_oracle_challenger(oracle_id);
        self.commit_extension_message_oracle_with_challenger(oracle_id, message, challenger, commit)
    }

    /// Commits an extension-field oracle given by its message alone.
    pub fn commit_extension_message_oracle<PB, PS, PE, E, G: FnOnce(Vec<EF>, C) -> (D, PE, C)>(
        &self,
        oracle_id: usize,
        message: Vec<EF>,
        commit: G,
    ) -> (r: Result<
        (
            BoundRoot<D>,
            NativeWarpWhirRootOracleProverData<F, EF, C, PB, PS, PE>,
        ),
        NativeWarpWhirRootProofError<E>,
    >)
        requires
            message@.len() == self.shape().msg_len() ==> forall|m: Vec<EF>, c: C|
                m@ == message@ && c.history() == extension_transcript(self.seed(), oracle_id)
                    ==> #[trigger] call_requires(commit, (m, c)),
        ensures
            if message@.len() != self.shape().msg_len() {
                wrong_message_length(r, self.shape(), oracle_id, message@.len())
            } else {
                exists|m: Vec<EF>, c: C, root: D, prover_data: PE, challenger: C|
                    #![trigger call_ensures(commit, (m, c), (root, prover_data, challenger))]
                    m@ == message@ && c.history() == extension_transcript(self.seed(), oracle_id)
                        && call_ensures(commit, (m, c), (root, prover_data, challenger))
                        && extension_committed(
                        r,
                        self.shape(),
                        oracle_id,
                        root,
                        prover_data,
                        challenger,
                        message@,
                    )
            },
    {
        let challenger = self.extension_oracle_challenger(oracle_id);
        self.commit_extension_message_oracle_with_challenger(oracle_id, message, challenger, commit)
    }

    /// Commits an extension-field oracle given by its message, in the given
    /// transcript.
    pub fn commit_extension_message_oracle_with_challenger<
        PB,
        PS,
        PE,
        E,
        G: FnOnce(Vec<EF>, C) -> (D, PE, C),
    >(&self, oracle_id: usize, message: Vec<EF>, challenger: C, commit: G) -> (r: Result<
        (
            BoundRoot<D>,
            NativeWarpWhirRootOracleProverData<F, EF, C, PB, PS, PE>,
        ),
        NativeWarpWhirRootProofError<E>,
    >)
        requires
            message@.len() == self.shape().msg_len() ==> forall|m: Vec<EF>|
                m@ == message@ ==> #[trigger] call_requires(commit, (m, challenger)),
        ensures
            if message@.len() != self.shape().msg_len() {
                wrong_message_length(r, self.shape(), oracle_id, message@.len())
            } else {
                exists|m: Vec<EF>, root: D, prover_data: PE, after: C|
                    #![trigger call_ensures(commit, (m, challenger), (root, prover_data, after))]
                    m@ == message@ && call_ensures(
                        commit,
                        (m, challenger),
                        (root, prover_data, after),
                    ) && extension_committed(
                        r,
                        self.shape(),
                        oracle_id,
                        root,
                        prover_data,
                        after,
                        message@,
                    )
            },
    {
        let expected: usize = self.compiler().code().msg_len();
        if message.len() != expected {
            return Err(
                NativeWarpWhirRootProofError::Reduction(
                    NativeWarpWhirRootReductionError::OracleValueLengthMismatch {
                        oracle_id,
                        expected,
                        actual: message.len(),
                    },
                ),
            );
        }
        let (root, prover_data, challenger) = commit(copied_point(&message), challenger);
        Ok(
            (
                RootIopBoundCommitment {
                    oracle_id,
                    log_len: self.compiler().code().log_codeword_len(),
                    field: RootIopOracleField::Extension,
                    commitment: NativeWarpWhirRootCommitment::ExtensionMessage(root),
                },
                NativeWarpWhirRootOracleProverData {
                    oracle_id,
                    data: NativeWarpWhirRootProverData::ExtensionMessage(
                        NativeWarpWhirRootExtensionProverData { prover_data, challenger, message },
                    ),
                },
            ),
        )
    }
}

} // verus!

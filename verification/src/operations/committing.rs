//! What committing gives.

use crate::code::{
    base_generators, codewords_are_fixed_by_reencoding, decoding_inverts_encoding,
    extension_generators, lemma_extension_chain, lemma_pow2_at_least, lemma_pow2_exceeds, CodeShape,
};
use crate::collect::{lemma_collected_err, lemma_collected_ok};
use crate::commit::{
    consistent_inputs, input_ids, input_messages, stack_column, stack_of, stack_transcript, tables,
};
use crate::domain::{ROOT_WHIR_BASE_ORACLE, ROOT_WHIR_EXTENSION_ORACLE};
use crate::error::{NativeWarpWhirRootProofError, NativeWarpWhirRootReductionError};
use crate::field::{all_valid, ExtensionField, Field, TwoAdicField};
use crate::proof_system::{consistent_input, NativeWarpWhirRootProofSystem};
use crate::root_iop::RootIopOracleField;
use crate::transcript::{Challenger, Digest, TranscriptItem};
use crate::types::{
    BoundRoot, NativeWarpWhirRootCommitment, NativeWarpWhirRootOracleProverData,
    NativeWarpWhirRootProverData, SharedHandle,
};
use vstd::arithmetic::power2::pow2;
use vstd::prelude::*;

verus! {

/// The table has the length of a codeword, the message that of a message, and
/// the table is the encoding of the message; `encoded` is that encoding.
pub open spec fn is_encoded<T>(
    shape: CodeShape,
    codeword: Seq<T>,
    message: Seq<T>,
    encoded: Seq<T>,
) -> bool {
    &&& codeword.len() == pow2((shape.log_msg_len + shape.log_inv_rate) as nat)
    &&& message.len() == pow2(shape.log_msg_len as nat)
    &&& codeword == encoded
}

/// The error for a table and a message that are not encoded: the length of the
/// table is looked at first, then that of the message, then the encoding.
pub open spec fn not_encoded<T>(
    shape: CodeShape,
    oracle_id: usize,
    codeword: Seq<T>,
    message: Seq<T>,
    e: NativeWarpWhirRootReductionError,
) -> bool {
    let (n, k) = (
        pow2((shape.log_msg_len + shape.log_inv_rate) as nat),
        pow2(shape.log_msg_len as nat),
    );
    if codeword.len() != n {
        e matches NativeWarpWhirRootReductionError::OracleValueLengthMismatch {
            oracle_id: id,
            expected,
            actual,
        } && id == oracle_id && expected == n && actual == codeword.len()
    } else if message.len() != k {
        e matches NativeWarpWhirRootReductionError::OracleValueLengthMismatch {
            oracle_id: id,
            expected,
            actual,
        } && id == oracle_id && expected == k && actual == message.len()
    } else {
        e == (NativeWarpWhirRootReductionError::EncodingMismatch { oracle_id })
    }
}

/// The commitment is that of the oracle, over the given field, with the length
/// of a codeword, and the prover data is that of the same oracle.
pub open spec fn labelled<F, EF, D, C, PB, PS, PE>(
    shape: CodeShape,
    oracle_id: usize,
    field: RootIopOracleField,
    commitment: BoundRoot<D>,
    data: NativeWarpWhirRootOracleProverData<F, EF, C, PB, PS, PE>,
) -> bool {
    &&& commitment.oracle_id == oracle_id
    &&& commitment.log_len == shape.log_msg_len + shape.log_inv_rate
    &&& commitment.field == field
    &&& data.oracle_id == oracle_id
}

/// The transcript starts from the seed with the role and the identifier.
pub open spec fn role_transcript<F: Field, EF, D, C: Challenger<F, EF, D>>(
    role: u64,
    seed: Seq<TranscriptItem<F, EF, D>>,
    oracle_id: usize,
    transcript: C,
) -> bool {
    transcript.history() == seed + seq![
        TranscriptItem::Base(F::nat_spec(role as nat)),
        TranscriptItem::Base(F::nat_spec(oracle_id as nat)),
    ]
}

/// Where a codeword length fits in a machine word, the other lengths do too.
pub proof fn lemma_lengths_fit(shape: CodeShape)
    requires
        pow2((shape.log_msg_len + shape.log_inv_rate) as nat) <= usize::MAX,
    ensures
        pow2(shape.log_msg_len as nat) <= usize::MAX,
        shape.log_msg_len + shape.log_inv_rate <= usize::MAX,
{
    lemma_pow2_exceeds((shape.log_msg_len + shape.log_inv_rate) as nat);
    lemma_pow2_at_least(shape.log_msg_len as nat, shape.log_inv_rate as nat);
}

proof fn lemma_role_transcript<F: Field, EF, D>(
    role: u64,
    seed: Seq<TranscriptItem<F, EF, D>>,
    oracle_id: usize,
)
    ensures
        seed.push(TranscriptItem::Base(F::nat_spec(role as nat))).push(
            TranscriptItem::Base(F::nat_spec(oracle_id as nat)),
        ) == seed + seq![
            TranscriptItem::<F, EF, D>::Base(F::nat_spec(role as nat)),
            TranscriptItem::<F, EF, D>::Base(F::nat_spec(oracle_id as nat)),
        ],
{
    assert(seed.push(TranscriptItem::Base(F::nat_spec(role as nat))).push(
        TranscriptItem::Base(F::nat_spec(oracle_id as nat)),
    ) =~= seed + seq![
        TranscriptItem::<F, EF, D>::Base(F::nat_spec(role as nat)),
        TranscriptItem::<F, EF, D>::Base(F::nat_spec(oracle_id as nat)),
    ]);
}

/// Committing a base-field oracle succeeds exactly when the table is the
/// encoding of the message. The backend is then handed that message, in a
/// transcript that starts from the seed with the role and the identifier, and
/// the result carries the root, the prover data and the transcript that the
/// backend gave, the message, and the identifier.
pub proof fn base_oracles_are_committed<
    'a,
    F: TwoAdicField,
    EF: ExtensionField<F>,
    D: Digest,
    C: Challenger<F, EF, D>,
    PB,
    PS,
    PE,
    E,
    G: FnOnce(Vec<F>, C) -> (D, PB, C),
>(
    system: NativeWarpWhirRootProofSystem<'a, F, EF, D, C>,
    oracle_id: usize,
    codeword: Vec<F>,
    message: Vec<F>,
    commit: G,
    r: Result<
        (BoundRoot<D>, NativeWarpWhirRootOracleProverData<F, EF, C, PB, PS, PE>),
        NativeWarpWhirRootProofError<E>,
    >,
)
    requires
        pow2((system.shape().log_msg_len + system.shape().log_inv_rate) as nat) <= usize::MAX,
        call_ensures(
            NativeWarpWhirRootProofSystem::<'a, F, EF, D, C>::commit_base_message_oracle::<
                PB,
                PS,
                PE,
                E,
                G,
            >,
            (&system, oracle_id, codeword, message, commit),
            r,
        ),
    ensures
        ({
            let shape = system.shape();
            let encoded = shape.encoding(base_generators::<F>(), message@);
            &&& r is Ok <==> is_encoded(shape, codeword@, message@, encoded)
            &&& r matches Err(e) ==> e matches NativeWarpWhirRootProofError::Reduction(e)
                && not_encoded(shape, oracle_id, codeword@, message@, e)
            &&& r matches Ok((commitment, data)) ==> labelled(
                shape,
                oracle_id,
                RootIopOracleField::Base,
                commitment,
                data,
            ) && (exists|m: Vec<F>, c: C, root: D, given: PB, after: C|
                #![trigger call_ensures(commit, (m, c), (root, given, after))]
                call_ensures(commit, (m, c), (root, given, after)) && m@ == message@
                    && role_transcript(ROOT_WHIR_BASE_ORACLE, system.seed(), oracle_id, c)
                    && commitment.commitment == NativeWarpWhirRootCommitment::BaseMessage(root)
                    && (data.data matches NativeWarpWhirRootProverData::Base(d) && d.prover_data
                    == given && d.challenger == after && d.message@ == message@))
        }),
{
    lemma_lengths_fit(system.shape());
    assert(codeword.len() == codeword@.len() && message.len() == message@.len());
    lemma_role_transcript::<F, EF, D>(ROOT_WHIR_BASE_ORACLE, system.seed(), oracle_id);
}

/// Committing an extension-field oracle succeeds exactly when the table is the
/// encoding of the message. The backend is then handed that message, in a
/// transcript that starts from the seed with the role and the identifier.
pub proof fn extension_oracles_are_committed<
    'a,
    F: TwoAdicField,
    EF: ExtensionField<F>,
    D: Digest,
    C: Challenger<F, EF, D>,
    PB,
    PS,
    PE,
    E,
    G: FnOnce(Vec<EF>, C) -> (D, PE, C),
>(
    system: NativeWarpWhirRootProofSystem<'a, F, EF, D, C>,
    oracle_id: usize,
    codeword: Vec<EF>,
    message: Vec<EF>,
    commit: G,
    r: Result<
        (BoundRoot<D>, NativeWarpWhirRootOracleProverData<F, EF, C, PB, PS, PE>),
        NativeWarpWhirRootProofError<E>,
    >,
)
    requires
        pow2((system.shape().log_msg_len + system.shape().log_inv_rate) as nat) <= usize::MAX,
        call_ensures(
            NativeWarpWhirRootProofSystem::<
                'a,
                F,
                EF,
                D,
                C,
            >::commit_extension_oracle_with_message::<
                PB,
                PS,
                PE,
                E,
                G,
            >,
            (&system, oracle_id, codeword, message, commit),
            r,
        ),
    ensures
        ({
            let shape = system.shape();
            let g = extension_generators::<F, EF>();
            &&& r is Ok <==> is_encoded(shape, codeword@, message@, shape.encoding(g, message@))
            &&& r matches Err(e) ==> e matches NativeWarpWhirRootProofError::Reduction(e)
                && not_encoded(shape, oracle_id, codeword@, message@, e)
            &&& r matches Ok((commitment, data)) ==> labelled(
                shape,
                oracle_id,
                RootIopOracleField::Extension,
                commitment,
                data,
            ) && (exists|m: Vec<EF>, c: C, root: D, given: PE, after: C|
                #![trigger call_ensures(commit, (m, c), (root, given, after))]
                call_ensures(commit, (m, c), (root, given, after)) && m@ == message@
                    && role_transcript(ROOT_WHIR_EXTENSION_ORACLE, system.seed(), oracle_id, c)
                    && commitment.commitment == NativeWarpWhirRootCommitment::ExtensionMessage(
                    root,
                ) && (data.data matches NativeWarpWhirRootProverData::ExtensionMessage(d)
                    && d.prover_data == given && d.challenger == after && d.message@ == m@))
        }),
{
    lemma_lengths_fit(system.shape());
    assert(codeword.len() == codeword@.len() && message.len() == message@.len());
    lemma_role_transcript::<F, EF, D>(ROOT_WHIR_EXTENSION_ORACLE, system.seed(), oracle_id);
}

/// Committing an extension-field message succeeds exactly when it has the length
/// of a message.
pub proof fn extension_messages_are_committed<
    'a,
    F: TwoAdicField,
    EF: ExtensionField<F>,
    D: Digest,
    C: Challenger<F, EF, D>,
    PB,
    PS,
    PE,
    E,
    G: FnOnce(Vec<EF>, C) -> (D, PE, C),
>(
    system: NativeWarpWhirRootProofSystem<'a, F, EF, D, C>,
    oracle_id: usize,
    message: Vec<EF>,
    commit: G,
    r: Result<
        (BoundRoot<D>, NativeWarpWhirRootOracleProverData<F, EF, C, PB, PS, PE>),
        NativeWarpWhirRootProofError<E>,
    >,
)
    requires
        pow2((system.shape().log_msg_len + system.shape().log_inv_rate) as nat) <= usize::MAX,
        call_ensures(
            NativeWarpWhirRootProofSystem::<'a, F, EF, D, C>::commit_extension_message_oracle::<
                PB,
                PS,
                PE,
                E,
                G,
            >,
            (&system, oracle_id, message, commit),
            r,
        ),
    ensures
        ({
            let shape = system.shape();
            let g = extension_generators::<F, EF>();
            &&& r is Ok <==> message@.len() == pow2(shape.log_msg_len as nat)
            &&& r matches Err(e) ==> e matches NativeWarpWhirRootProofError::Reduction(e)
                && (e matches NativeWarpWhirRootReductionError::OracleValueLengthMismatch {
                oracle_id: id,
                expected,
                actual,
            } && id == oracle_id && expected == pow2(shape.log_msg_len as nat) && actual
                == message@.len())
            &&& r matches Ok((commitment, data)) ==> labelled(
                shape,
                oracle_id,
                RootIopOracleField::Extension,
                commitment,
                data,
            ) && (exists|m: Vec<EF>, c: C, root: D, given: PE, after: C|
                #![trigger call_ensures(commit, (m, c), (root, given, after))]
                call_ensures(commit, (m, c), (root, given, after)) && m@ == message@
                    && role_transcript(ROOT_WHIR_EXTENSION_ORACLE, system.seed(), oracle_id, c)
                    && commitment.commitment == NativeWarpWhirRootCommitment::ExtensionMessage(
                    root,
                ) && (data.data matches NativeWarpWhirRootProverData::ExtensionMessage(d)
                    && d.prover_data == given && d.challenger == after && d.message@ == m@))
        }),
{
    lemma_lengths_fit(system.shape());
    assert(message.len() == message@.len());
    lemma_role_transcript::<F, EF, D>(ROOT_WHIR_EXTENSION_ORACLE, system.seed(), oracle_id);
}

/// Committing an extension-field message in a given transcript succeeds exactly
/// when it has the length of a message.
pub proof fn extension_messages_are_committed_in_a_transcript<
    'a,
    F: TwoAdicField,
    EF: ExtensionField<F>,
    D: Digest,
    C: Challenger<F, EF, D>,
    PB,
    PS,
    PE,
    E,
    G: FnOnce(Vec<EF>, C) -> (D, PE, C),
>(
    system: NativeWarpWhirRootProofSystem<'a, F, EF, D, C>,
    oracle_id: usize,
    message: Vec<EF>,
    challenger: C,
    commit: G,
    r: Result<
        (BoundRoot<D>, NativeWarpWhirRootOracleProverData<F, EF, C, PB, PS, PE>),
        NativeWarpWhirRootProofError<E>,
    >,
)
    requires
        pow2((system.shape().log_msg_len + system.shape().log_inv_rate) as nat) <= usize::MAX,
        call_ensures(
            NativeWarpWhirRootProofSystem::<
                'a,
                F,
                EF,
                D,
                C,
            >::commit_extension_message_oracle_with_challenger::<
                PB,
                PS,
                PE,
                E,
                G,
            >,
            (&system, oracle_id, message, challenger, commit),
            r,
        ),
    ensures
        ({
            let shape = system.shape();
            let g = extension_generators::<F, EF>();
            &&& r is Ok <==> message@.len() == pow2(shape.log_msg_len as nat)
            &&& r matches Err(e) ==> e matches NativeWarpWhirRootProofError::Reduction(e)
                && (e matches NativeWarpWhirRootReductionError::OracleValueLengthMismatch {
                oracle_id: id,
                expected,
                actual,
            } && id == oracle_id && expected == pow2(shape.log_msg_len as nat) && actual
                == message@.len())
            &&& r matches Ok((commitment, data)) ==> labelled(
                shape,
                oracle_id,
                RootIopOracleField::Extension,
                commitment,
                data,
            ) && (exists|m: Vec<EF>, c: C, root: D, given: PE, after: C|
                #![trigger call_ensures(commit, (m, c), (root, given, after))]
                call_ensures(commit, (m, c), (root, given, after)) && m@ == message@
                    && c == challenger
                    && commitment.commitment == NativeWarpWhirRootCommitment::ExtensionMessage(
                    root,
                ) && (data.data matches NativeWarpWhirRootProverData::ExtensionMessage(d)
                    && d.prover_data == given && d.challenger == after && d.message@ == m@))
        }),
{
    lemma_lengths_fit(system.shape());
    assert(message.len() == message@.len());
    lemma_role_transcript::<F, EF, D>(ROOT_WHIR_EXTENSION_ORACLE, system.seed(), oracle_id);
}

/// Committing an extension-field table succeeds exactly when it is the encoding
/// of some message, of the length of a message. The backend is then handed a
/// message that the table is the encoding of.
pub proof fn extension_tables_are_committed<
    'a,
    F: TwoAdicField,
    EF: ExtensionField<F>,
    D: Digest,
    C: Challenger<F, EF, D>,
    PB,
    PS,
    PE,
    E,
    G: FnOnce(Vec<EF>, C) -> (D, PE, C),
>(
    system: NativeWarpWhirRootProofSystem<'a, F, EF, D, C>,
    oracle_id: usize,
    codeword: Vec<EF>,
    commit: G,
    r: Result<
        (BoundRoot<D>, NativeWarpWhirRootOracleProverData<F, EF, C, PB, PS, PE>),
        NativeWarpWhirRootProofError<E>,
    >,
)
    requires
        system.shape().log_msg_len + system.shape().log_inv_rate <= F::two_adicity(),
        pow2((system.shape().log_msg_len + system.shape().log_inv_rate) as nat) <= usize::MAX,
        call_ensures(
            NativeWarpWhirRootProofSystem::<'a, F, EF, D, C>::commit_extension_oracle::<
                PB,
                PS,
                PE,
                E,
                G,
            >,
            (&system, oracle_id, codeword, commit),
            r,
        ),
    ensures
        ({
            let shape = system.shape();
            let g = extension_generators::<F, EF>();
            let (n, k) = (
                pow2((shape.log_msg_len + shape.log_inv_rate) as nat),
                pow2(shape.log_msg_len as nat),
            );
            &&& r is Ok <==> codeword@.len() == n && exists|m: Seq<EF>|
                m.len() == k && all_valid(m) && #[trigger] shape.encoding(g, m) == codeword@
            &&& r matches Err(e) ==> e matches NativeWarpWhirRootProofError::Reduction(e) && (
            if codeword@.len() != n {
                e matches NativeWarpWhirRootReductionError::OracleValueLengthMismatch {
                    oracle_id: id,
                    expected,
                    actual,
                } && id == oracle_id && expected == n && actual == codeword@.len()
            } else {
                e == (NativeWarpWhirRootReductionError::EncodingMismatch { oracle_id })
            })
            &&& r matches Ok((commitment, data)) ==> labelled(
                shape,
                oracle_id,
                RootIopOracleField::Extension,
                commitment,
                data,
            ) && (exists|m: Vec<EF>, c: C, root: D, given: PE, after: C|
                #![trigger call_ensures(commit, (m, c), (root, given, after))]
                call_ensures(commit, (m, c), (root, given, after)) && m@.len() == k
                    && shape.encoding(g, m@) == codeword@ && role_transcript(
                    ROOT_WHIR_EXTENSION_ORACLE,
                    system.seed(),
                    oracle_id,
                    c,
                ) && commitment.commitment == NativeWarpWhirRootCommitment::ExtensionMessage(root)
                    && (data.data matches NativeWarpWhirRootProverData::ExtensionMessage(d)
                    && d.prover_data == given && d.challenger == after && d.message@ == m@))
        }),
{
    let shape = system.shape();
    let g = extension_generators::<F, EF>();
    lemma_lengths_fit(shape);
    assert(codeword.len() == codeword@.len());
    lemma_role_transcript::<F, EF, D>(ROOT_WHIR_EXTENSION_ORACLE, system.seed(), oracle_id);
    lemma_extension_chain::<F, EF>();
    if r is Ok {
        codewords_are_fixed_by_reencoding(shape, g, F::two_adicity(), codeword@);
        let m = choose|m: Seq<EF>|
            m.len() == shape.msg_len() && all_valid(m) && #[trigger] shape.encoding(g, m)
                == codeword@;
        decoding_inverts_encoding(shape, g, F::two_adicity(), m);
    }
}

/// Committing a stack succeeds exactly when every table is the encoding of its
/// message; otherwise the first that is not is reported. An empty stack is not
/// handed to the backend. For any other the backend is handed all messages in
/// their order, in a transcript that starts from the seed with the role, the
/// number of columns and the identifiers in order. The `i`-th result is bound to
/// column `i`, in its commitment and in its prover data: at that column stands
/// its own message among those that the backend was handed. All columns carry
/// the root and the prover data that the backend gave, and the width.
pub proof fn stacks_are_committed<
    'a,
    F: TwoAdicField,
    EF: ExtensionField<F>,
    D: Digest,
    C: Challenger<F, EF, D>,
    PB,
    PS,
    PE,
    E,
    G: FnOnce(Vec<Vec<F>>, C) -> (D, SharedHandle<PS>, C),
>(
    system: NativeWarpWhirRootProofSystem<'a, F, EF, D, C>,
    inputs: Vec<(usize, Vec<F>, Vec<F>)>,
    commit: G,
    r: Result<
        Vec<(BoundRoot<D>, NativeWarpWhirRootOracleProverData<F, EF, C, PB, PS, PE>)>,
        NativeWarpWhirRootProofError<E>,
    >,
)
    requires
        pow2((system.shape().log_msg_len + system.shape().log_inv_rate) as nat) <= usize::MAX,
        call_ensures(
            NativeWarpWhirRootProofSystem::<'a, F, EF, D, C>::commit_shared_base_message_oracles::<
                PB,
                PS,
                PE,
                E,
                G,
            >,
            (&system, inputs, commit),
            r,
        ),
    ensures
        ({
            let shape = system.shape();
            let g = base_generators::<F>();
            let fits = |i: int|
                is_encoded(
                    shape,
                    inputs@[i].1@,
                    inputs@[i].2@,
                    shape.encoding(g, inputs@[i].2@),
                );
            &&& r is Ok <==> forall|i: int| 0 <= i < inputs@.len() ==> #[trigger] fits(i)
            &&& r matches Err(e) ==> exists|k: int|
                0 <= k < inputs@.len() && !#[trigger] fits(k) && (forall|i: int|
                    0 <= i < k ==> #[trigger] fits(i)) && (e matches
                    NativeWarpWhirRootProofError::Reduction(e) && not_encoded(
                    shape,
                    inputs@[k].0,
                    inputs@[k].1@,
                    inputs@[k].2@,
                    e,
                ))
            &&& r matches Ok(out) ==> out@.len() == inputs@.len()
            &&& r matches Ok(out) ==> inputs@.len() > 0 ==> exists|
                m: Vec<Vec<F>>,
                c: C,
                root: D,
                shared: SharedHandle<PS>,
                after: C,
            |
                #![trigger call_ensures(commit, (m, c), (root, shared, after))]
                call_ensures(commit, (m, c), (root, shared, after)) && m@.len() == inputs@.len()
                    && (forall|i: int|
                    0 <= i < inputs@.len() ==> (#[trigger] m@[i])@ == inputs@[i].2@) && c.history()
                    == system.seed() + seq![
                    TranscriptItem::Base(F::nat_spec(ROOT_WHIR_BASE_ORACLE as nat)),
                    TranscriptItem::Base(F::nat_spec(inputs@.len())),
                ] + Seq::new(
                    inputs@.len(),
                    |i: int| TranscriptItem::Base(F::nat_spec(inputs@[i].0 as nat)),
                ) && (forall|i: int|
                    0 <= i < out@.len() ==> {
                        let (commitment, data) = #[trigger] out@[i];
                        &&& labelled(
                            shape,
                            inputs@[i].0,
                            RootIopOracleField::Base,
                            commitment,
                            data,
                        )
                        &&& commitment.commitment matches
                            NativeWarpWhirRootCommitment::BaseMessageShared {
                            root: found,
                            column,
                            width,
                        } && found == root && column == i && width == inputs@.len()
                            && m@[column as int]@ == inputs@[i].2@
                        &&& data.data matches NativeWarpWhirRootProverData::BaseShared(d)
                            && d.shared == shared && d.column == i && d.width == inputs@.len()
                            && d.message@ == inputs@[i].2@ && d.message@ == m@[d.column as int]@
                    })
        }),
{
    let shape = system.shape();
    let g = base_generators::<F>();
    lemma_lengths_fit(shape);
    assert(inputs.len() == inputs@.len());
    let check = |input: (usize, Vec<F>, Vec<F>)|
        consistent_input(shape, g, input.0, input.1@, input.2@);
    let fits = |i: int|
        is_encoded(shape, inputs@[i].1@, inputs@[i].2@, shape.encoding(g, inputs@[i].2@));
    let k = lemma_collected_err(inputs@, check);
    lemma_collected_ok(inputs@, check);
    assert forall|i: int| 0 <= i < inputs@.len() implies (check(#[trigger] inputs@[i]) is Ok
        <==> fits(i)) by {
        assert(inputs@[i].1.len() == inputs@[i].1@.len());
        assert(inputs@[i].2.len() == inputs@[i].2@.len());
    }
    match consistent_inputs(shape, inputs@) {
        Err(e) => {
            assert(check(inputs@[k]) is Err);
            assert(!fits(k));
            assert forall|i: int| 0 <= i < k implies #[trigger] fits(i) by {
                assert(check(inputs@[i]) is Ok);
            }
            assert(inputs@[k].1.len() == inputs@[k].1@.len());
            assert(inputs@[k].2.len() == inputs@[k].2@.len());
            assert(not_encoded(shape, inputs@[k].0, inputs@[k].1@, inputs@[k].2@, e));
        },
        Ok(done) => {
            assert forall|i: int| 0 <= i < inputs@.len() implies #[trigger] fits(i) by {
                assert(check(inputs@[i]) == Ok::<(), NativeWarpWhirRootReductionError>(done[i]));
            }
            if inputs@.len() > 0 {
                let out = r->Ok_0;
                let (m, c, root, shared, after) = choose|
                    m: Vec<Vec<F>>,
                    c: C,
                    root: D,
                    shared: SharedHandle<PS>,
                    after: C,
                |
                    #![trigger call_ensures(commit, (m, c), (root, shared, after))]
                    tables(m@) == input_messages(inputs@) && c.history() == stack_transcript(
                        system.seed(),
                        input_ids(inputs@),
                    ) && call_ensures(commit, (m, c), (root, shared, after)) && stack_of(
                        shape,
                        inputs@,
                        root,
                        shared,
                        out@,
                    );
                assert(tables(m@).len() == m@.len());
                assert forall|i: int| 0 <= i < inputs@.len() implies (#[trigger] m@[i])@
                    == inputs@[i].2@ by {
                    assert(tables(m@)[i] == input_messages(inputs@)[i]);
                }
                assert(c.history() =~= system.seed() + seq![
                    TranscriptItem::Base(F::nat_spec(ROOT_WHIR_BASE_ORACLE as nat)),
                    TranscriptItem::Base(F::nat_spec(inputs@.len())),
                ] + Seq::new(
                    inputs@.len(),
                    |i: int| TranscriptItem::Base(F::nat_spec(inputs@[i].0 as nat)),
                ));
                assert forall|i: int| 0 <= i < out@.len() implies stack_column(
                    shape,
                    inputs@,
                    root,
                    shared,
                    i,
                    #[trigger] out@[i],
                ) && m@[i]@ == inputs@[i].2@ by {}
                assert(call_ensures(commit, (m, c), (root, shared, after)));
            }
        },
    }
}

/// A base-field oracle may be committed whatever it holds: the backend has to
/// take its message only where the table is the encoding of the message.
pub proof fn base_oracles_may_be_committed<
    'a,
    F: TwoAdicField,
    EF: ExtensionField<F>,
    D: Digest,
    C: Challenger<F, EF, D>,
    PB,
    PS,
    PE,
    E,
    G: FnOnce(Vec<F>, C) -> (D, PB, C),
>(
    system: NativeWarpWhirRootProofSystem<'a, F, EF, D, C>,
    oracle_id: usize,
    codeword: Vec<F>,
    message: Vec<F>,
    commit: G,
)
    requires
        is_encoded(
            system.shape(),
            codeword@,
            message@,
            system.shape().encoding(base_generators::<F>(), message@),
        ) ==> forall|m: Vec<F>, c: C|
            m@ == message@ && role_transcript(ROOT_WHIR_BASE_ORACLE, system.seed(), oracle_id, c)
                ==> #[trigger] call_requires(commit, (m, c)),
    ensures
        call_requires(
            NativeWarpWhirRootProofSystem::<'a, F, EF, D, C>::commit_base_message_oracle::<
                PB,
                PS,
                PE,
                E,
                G,
            >,
            (&system, oracle_id, codeword, message, commit),
        ),
{
    lemma_role_transcript::<F, EF, D>(ROOT_WHIR_BASE_ORACLE, system.seed(), oracle_id);
}

/// An extension-field oracle may be committed whatever it holds: the backend has
/// to take its message only where the table is the encoding of the message.
pub proof fn extension_oracles_may_be_committed<
    'a,
    F: TwoAdicField,
    EF: ExtensionField<F>,
    D: Digest,
    C: Challenger<F, EF, D>,
    PB,
    PS,
    PE,
    E,
    G: FnOnce(Vec<EF>, C) -> (D, PE, C),
>(
    system: NativeWarpWhirRootProofSystem<'a, F, EF, D, C>,
    oracle_id: usize,
    codeword: Vec<EF>,
    message: Vec<EF>,
    commit: G,
)
    requires
        is_encoded(
            system.shape(),
            codeword@,
            message@,
            system.shape().encoding(extension_generators::<F, EF>(), message@),
        ) ==> forall|m: Vec<EF>, c: C|
            m@ == message@ && role_transcript(
                ROOT_WHIR_EXTENSION_ORACLE,
                system.seed(),
                oracle_id,
                c,
            )
                ==> #[trigger] call_requires(commit, (m, c)),
    ensures
        call_requires(
            NativeWarpWhirRootProofSystem::<
                'a,
                F,
                EF,
                D,
                C,
            >::commit_extension_oracle_with_message::<
                PB,
                PS,
                PE,
                E,
                G,
            >,
            (&system, oracle_id, codeword, message, commit),
        ),
{
    lemma_role_transcript::<F, EF, D>(ROOT_WHIR_EXTENSION_ORACLE, system.seed(), oracle_id);
}

/// An extension-field message may be committed whatever it holds: the backend
/// has to take it only where it has the length of a message.
pub proof fn extension_messages_may_be_committed<
    'a,
    F: TwoAdicField,
    EF: ExtensionField<F>,
    D: Digest,
    C: Challenger<F, EF, D>,
    PB,
    PS,
    PE,
    E,
    G: FnOnce(Vec<EF>, C) -> (D, PE, C),
>(
    system: NativeWarpWhirRootProofSystem<'a, F, EF, D, C>,
    oracle_id: usize,
    message: Vec<EF>,
    commit: G,
)
    requires
        message@.len() == pow2(system.shape().log_msg_len as nat) ==> forall|m: Vec<EF>, c: C|
            m@ == message@ && role_transcript(
                ROOT_WHIR_EXTENSION_ORACLE,
                system.seed(),
                oracle_id,
                c,
            )
                ==> #[trigger] call_requires(commit, (m, c)),
    ensures
        call_requires(
            NativeWarpWhirRootProofSystem::<'a, F, EF, D, C>::commit_extension_message_oracle::<
                PB,
                PS,
                PE,
                E,
                G,
            >,
            (&system, oracle_id, message, commit),
        ),
{
    lemma_role_transcript::<F, EF, D>(ROOT_WHIR_EXTENSION_ORACLE, system.seed(), oracle_id);
}

/// An extension-field message may be committed in any transcript: the backend
/// has to take it only where it has the length of a message.
pub proof fn extension_messages_may_be_committed_in_a_transcript<
    'a,
    F: TwoAdicField,
    EF: ExtensionField<F>,
    D: Digest,
    C: Challenger<F, EF, D>,
    PB,
    PS,
    PE,
    E,
    G: FnOnce(Vec<EF>, C) -> (D, PE, C),
>(
    system: NativeWarpWhirRootProofSystem<'a, F, EF, D, C>,
    oracle_id: usize,
    message: Vec<EF>,
    challenger: C,
    commit: G,
)
    requires
        message@.len() == pow2(system.shape().log_msg_len as nat) ==> forall|m: Vec<EF>|
            m@ == message@ ==> #[trigger] call_requires(commit, (m, challenger)),
    ensures
        call_requires(
            NativeWarpWhirRootProofSystem::<
                'a,
                F,
                EF,
                D,
                C,
            >::commit_extension_message_oracle_with_challenger::<
                PB,
                PS,
                PE,
                E,
                G,
            >,
            (&system, oracle_id, message, challenger, commit),
        ),
{
}

/// An extension-field table may be committed whatever it holds: the backend has
/// to take a message only where the table is the encoding of it.
pub proof fn extension_tables_may_be_committed<
    'a,
    F: TwoAdicField,
    EF: ExtensionField<F>,
    D: Digest,
    C: Challenger<F, EF, D>,
    PB,
    PS,
    PE,
    E,
    G: FnOnce(Vec<EF>, C) -> (D, PE, C),
>(
    system: NativeWarpWhirRootProofSystem<'a, F, EF, D, C>,
    oracle_id: usize,
    codeword: Vec<EF>,
    commit: G,
)
    requires
        system.shape().log_msg_len + system.shape().log_inv_rate <= F::two_adicity(),
        codeword@.len() == pow2(
            (system.shape().log_msg_len + system.shape().log_inv_rate) as nat,
        ) ==> forall|m: Vec<EF>, c: C|
            m@.len() == pow2(system.shape().log_msg_len as nat) && system.shape().encoding(
                extension_generators::<F, EF>(),
                m@,
            ) == codeword@ && role_transcript(
                ROOT_WHIR_EXTENSION_ORACLE,
                system.seed(),
                oracle_id,
                c,
            ) ==> #[trigger] call_requires(commit, (m, c)),
    ensures
        call_requires(
            NativeWarpWhirRootProofSystem::<'a, F, EF, D, C>::commit_extension_oracle::<
                PB,
                PS,
                PE,
                E,
                G,
            >,
            (&system, oracle_id, codeword, commit),
        ),
{
    let shape = system.shape();
    let g = extension_generators::<F, EF>();
    lemma_role_transcript::<F, EF, D>(ROOT_WHIR_EXTENSION_ORACLE, system.seed(), oracle_id);
    lemma_extension_chain::<F, EF>();
    if shape.is_codeword(g, codeword@) {
        codewords_are_fixed_by_reencoding(shape, g, F::two_adicity(), codeword@);
        let m = choose|m: Seq<EF>|
            m.len() == shape.msg_len() && all_valid(m) && #[trigger] shape.encoding(g, m)
                == codeword@;
        decoding_inverts_encoding(shape, g, F::two_adicity(), m);
    }
}

/// A stack may be committed whatever it holds: the backend has to take its
/// messages only where there is one and every table is the encoding of its
/// message.
pub proof fn stacks_may_be_committed<
    'a,
    F: TwoAdicField,
    EF: ExtensionField<F>,
    D: Digest,
    C: Challenger<F, EF, D>,
    PB,
    PS,
    PE,
    E,
    G: FnOnce(Vec<Vec<F>>, C) -> (D, SharedHandle<PS>, C),
>(
    system: NativeWarpWhirRootProofSystem<'a, F, EF, D, C>,
    inputs: Vec<(usize, Vec<F>, Vec<F>)>,
    commit: G,
)
    requires
        inputs@.len() > 0 && (forall|i: int|
            0 <= i < inputs@.len() ==> is_encoded(
                system.shape(),
                (#[trigger] inputs@[i]).1@,
                inputs@[i].2@,
                system.shape().encoding(base_generators::<F>(), inputs@[i].2@),
            )) ==> forall|m: Vec<Vec<F>>, c: C|
            m@.len() == inputs@.len() && (forall|i: int|
                0 <= i < inputs@.len() ==> (#[trigger] m@[i])@ == inputs@[i].2@) && c.history()
                == system.seed() + seq![
                TranscriptItem::Base(F::nat_spec(ROOT_WHIR_BASE_ORACLE as nat)),
                TranscriptItem::Base(F::nat_spec(inputs@.len())),
            ] + Seq::new(
                inputs@.len(),
                |i: int| TranscriptItem::Base(F::nat_spec(inputs@[i].0 as nat)),
            ) ==> #[trigger] call_requires(commit, (m, c)),
    ensures
        call_requires(
            NativeWarpWhirRootProofSystem::<'a, F, EF, D, C>::commit_shared_base_message_oracles::<
                PB,
                PS,
                PE,
                E,
                G,
            >,
            (&system, inputs, commit),
        ),
{
    let shape = system.shape();
    let g = base_generators::<F>();
    let check = |input: (usize, Vec<F>, Vec<F>)|
        consistent_input(shape, g, input.0, input.1@, input.2@);
    lemma_collected_ok(inputs@, check);
    if consistent_inputs(shape, inputs@) is Ok {
        let done = consistent_inputs(shape, inputs@)->Ok_0;
        assert forall|i: int| 0 <= i < inputs@.len() implies is_encoded(
            shape,
            (#[trigger] inputs@[i]).1@,
            inputs@[i].2@,
            shape.encoding(g, inputs@[i].2@),
        ) by {
            assert(check(inputs@[i]) == Ok::<(), NativeWarpWhirRootReductionError>(done[i]));
        }
        assert forall|m: Vec<Vec<F>>, c: C|
            inputs@.len() > 0 && tables(m@) == input_messages(inputs@) && c.history()
                == stack_transcript(
                system.seed(),
                input_ids(inputs@),
            ) implies #[trigger] call_requires(commit, (m, c)) by {
            assert(tables(m@).len() == m@.len());
            assert forall|i: int| 0 <= i < inputs@.len() implies (#[trigger] m@[i])@
                == inputs@[i].2@ by {
                assert(tables(m@)[i] == input_messages(inputs@)[i]);
            }
            assert(c.history() =~= system.seed() + seq![
                TranscriptItem::Base(F::nat_spec(ROOT_WHIR_BASE_ORACLE as nat)),
                TranscriptItem::Base(F::nat_spec(inputs@.len())),
            ] + Seq::new(
                inputs@.len(),
                |i: int| TranscriptItem::Base(F::nat_spec(inputs@[i].0 as nat)),
            ));
        }
    }
}

} // verus!

//! What is absorbed, and in which transcripts.

use crate::binding::{all_binding_items, binding_items, observe_all, observe_native_root_commitment};
use crate::domain::{
    FIELD_BASE, FIELD_EXTENSION, KIND_BASE_MESSAGE, KIND_BASE_MESSAGE_SHARED,
    KIND_EXTENSION_MESSAGE, ROOT_WHIR_BASE_ORACLE, ROOT_WHIR_EXTENSION_ORACLE,
};
use crate::field::{ExtensionField, Field, TwoAdicField};
use crate::proof_system::NativeWarpWhirRootProofSystem;
use crate::root_iop::RootIopOracleField;
use crate::transcript::{Challenger, Digest, TranscriptItem};
use crate::types::{BoundRoot, NativeWarpWhirRootCommitment};
use vstd::prelude::*;

verus! {

/// A public commitment, item by item: the identifier, the length and the field
/// of the oracle, the kind of the commitment, for a column of a stack the column
/// and the width, and the root.
pub open spec fn items_of<F: Field, EF, D>(bound: BoundRoot<D>) -> Seq<TranscriptItem<F, EF, D>> {
    let field = if bound.field == RootIopOracleField::Base {
        FIELD_BASE
    } else {
        FIELD_EXTENSION
    };
    let of_oracle = seq![
        TranscriptItem::Base(F::nat_spec(bound.oracle_id as nat)),
        TranscriptItem::Base(F::nat_spec(bound.log_len as nat)),
        TranscriptItem::Base(F::nat_spec(field as nat)),
    ];
    match bound.commitment {
        NativeWarpWhirRootCommitment::BaseMessage(root) => of_oracle.push(
            TranscriptItem::Base(F::nat_spec(KIND_BASE_MESSAGE as nat)),
        ).push(TranscriptItem::Root(root)),
        NativeWarpWhirRootCommitment::BaseMessageShared { root, column, width } => of_oracle.push(
            TranscriptItem::Base(F::nat_spec(KIND_BASE_MESSAGE_SHARED as nat)),
        ).push(TranscriptItem::Base(F::nat_spec(column as nat))).push(
            TranscriptItem::Base(F::nat_spec(width as nat)),
        ).push(TranscriptItem::Root(root)),
        NativeWarpWhirRootCommitment::ExtensionMessage(root) => of_oracle.push(
            TranscriptItem::Base(F::nat_spec(KIND_EXTENSION_MESSAGE as nat)),
        ).push(TranscriptItem::Root(root)),
    }
}

/// Public commitments, item by item, one after the other.
pub open spec fn items_of_all<F: Field, EF, D>(commitments: Seq<BoundRoot<D>>) -> Seq<
    TranscriptItem<F, EF, D>,
> {
    commitments.map_values(|b: BoundRoot<D>| items_of::<F, EF, D>(b)).flatten()
}

/// What is absorbed for a list of public commitments is what each of them is
/// made of, in order.
pub proof fn commitments_are_absorbed_item_by_item<F: Field, EF, D>(commitments: Seq<BoundRoot<D>>)
    ensures
        all_binding_items::<F, EF, D>(commitments) == items_of_all::<F, EF, D>(commitments),
    decreases commitments.len(),
{
    let f = |b: BoundRoot<D>| items_of::<F, EF, D>(b);
    if commitments.len() == 0 {
        assert(commitments.map_values(f) =~= Seq::<Seq<TranscriptItem<F, EF, D>>>::empty());
    } else {
        let rest = commitments.drop_last();
        commitments_are_absorbed_item_by_item::<F, EF, D>(rest);
        assert(commitments.map_values(f) =~= rest.map_values(f).push(f(commitments.last())));
        rest.map_values(f).lemma_flatten_push(f(commitments.last()));
        assert(binding_items::<F, EF, D>(commitments.last()) =~= items_of::<F, EF, D>(
            commitments.last(),
        ));
    }
}

/// Absorbing a public commitment absorbs what it is made of.
pub proof fn commitments_are_absorbed<F: Field, EF, D: Copy, C: Challenger<F, EF, D>>(
    challenger: &mut C,
    bound: BoundRoot<D>,
)
    requires
        call_ensures(
            observe_native_root_commitment::<F, EF, D, C>,
            (challenger, &bound),
            (),
        ),
    ensures
        final(challenger).history() == old(challenger).history() + items_of::<F, EF, D>(bound),
{
    assert(binding_items::<F, EF, D>(bound) =~= items_of::<F, EF, D>(bound));
}

/// Absorbing several public commitments absorbs them one after the other.
pub proof fn all_commitments_are_absorbed<F: Field, EF, D: Copy, C: Challenger<F, EF, D>>(
    challenger: &mut C,
    commitments: Vec<BoundRoot<D>>,
)
    requires
        call_ensures(observe_all::<F, EF, D, C>, (challenger, &commitments), ()),
    ensures
        final(challenger).history() == old(challenger).history() + items_of_all::<F, EF, D>(
            commitments@,
        ),
{
    commitments_are_absorbed_item_by_item::<F, EF, D>(commitments@);
}

/// The transcripts of single oracles start from the seed with the role and the
/// identifier.
pub proof fn oracle_transcripts_start_with_their_role<
    'a,
    F: TwoAdicField,
    EF: ExtensionField<F>,
    D: Digest,
    C: Challenger<F, EF, D>,
>(
    system: NativeWarpWhirRootProofSystem<'a, F, EF, D, C>,
    oracle_id: usize,
    base: C,
    extension: C,
)
    requires
        call_ensures(
            NativeWarpWhirRootProofSystem::<'a, F, EF, D, C>::base_oracle_challenger,
            (&system, oracle_id),
            base,
        ),
        call_ensures(
            NativeWarpWhirRootProofSystem::<'a, F, EF, D, C>::extension_oracle_challenger,
            (&system, oracle_id),
            extension,
        ),
    ensures
        base.history() == system.seed() + seq![
            TranscriptItem::Base(F::nat_spec(ROOT_WHIR_BASE_ORACLE as nat)),
            TranscriptItem::Base(F::nat_spec(oracle_id as nat)),
        ],
        extension.history() == system.seed() + seq![
            TranscriptItem::Base(F::nat_spec(ROOT_WHIR_EXTENSION_ORACLE as nat)),
            TranscriptItem::Base(F::nat_spec(oracle_id as nat)),
        ],
{
    assert(base.history() =~= system.seed() + seq![
        TranscriptItem::Base(F::nat_spec(ROOT_WHIR_BASE_ORACLE as nat)),
        TranscriptItem::Base(F::nat_spec(oracle_id as nat)),
    ]);
    assert(extension.history() =~= system.seed() + seq![
        TranscriptItem::Base(F::nat_spec(ROOT_WHIR_EXTENSION_ORACLE as nat)),
        TranscriptItem::Base(F::nat_spec(oracle_id as nat)),
    ]);
}

} // verus!

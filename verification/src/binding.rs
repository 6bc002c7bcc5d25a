//! Absorbing public commitments.

use crate::domain::{
    FIELD_BASE, FIELD_EXTENSION, KIND_BASE_MESSAGE, KIND_BASE_MESSAGE_SHARED,
    KIND_EXTENSION_MESSAGE,
};
use crate::field::Field;
use crate::root_iop::RootIopOracleField;
use crate::transcript::{Challenger, TranscriptItem};
use crate::types::{BoundRoot, NativeWarpWhirRootCommitment};
use vstd::prelude::*;

verus! {

/// The tag of a field.
pub open spec fn field_tag(field: RootIopOracleField) -> u64 {
    match field {
        RootIopOracleField::Base => FIELD_BASE,
        RootIopOracleField::Extension => FIELD_EXTENSION,
    }
}

/// An absorbed integer.
pub open spec fn integer_item<F: Field, EF, D>(n: nat) -> TranscriptItem<F, EF, D> {
    TranscriptItem::Base(F::nat_spec(n))
}

/// The commitment as it is absorbed: its kind, for a column of a stack the
/// column and the number of columns, and the root.
pub open spec fn commitment_items<F: Field, EF, D>(
    commitment: NativeWarpWhirRootCommitment<D>,
) -> Seq<TranscriptItem<F, EF, D>> {
    match commitment {
        NativeWarpWhirRootCommitment::BaseMessage(root) => seq![
            integer_item(KIND_BASE_MESSAGE as nat),
            TranscriptItem::Root(root),
        ],
        NativeWarpWhirRootCommitment::BaseMessageShared { root, column, width } => seq![
            integer_item(KIND_BASE_MESSAGE_SHARED as nat),
            integer_item(column as nat),
            integer_item(width as nat),
            TranscriptItem::Root(root),
        ],
        NativeWarpWhirRootCommitment::ExtensionMessage(root) => seq![
            integer_item(KIND_EXTENSION_MESSAGE as nat),
            TranscriptItem::Root(root),
        ],
    }
}

/// What is absorbed for a public commitment: the identifier, the length and the
/// field of the oracle, and the commitment.
pub open spec fn binding_items<F: Field, EF, D>(
    bound: BoundRoot<D>,
) -> Seq<TranscriptItem<F, EF, D>> {
    seq![
        integer_item(bound.oracle_id as nat),
        integer_item(bound.log_len as nat),
        integer_item(field_tag(bound.field) as nat),
    ] + commitment_items(bound.commitment)
}

/// What is absorbed for several public commitments, in order.
pub open spec fn all_binding_items<F: Field, EF, D>(
    commitments: Seq<BoundRoot<D>>,
) -> Seq<TranscriptItem<F, EF, D>>
    decreases commitments.len(),
{
    if commitments.len() == 0 {
        Seq::empty()
    } else {
        all_binding_items(commitments.drop_last()) + binding_items(commitments.last())
    }
}

/// Absorbs a public commitment.
pub fn observe_native_root_commitment<F: Field, EF, D: Copy, C: Challenger<F, EF, D>>(
    challenger: &mut C,
    bound: &BoundRoot<D>,
)
    ensures
        final(challenger).history() == old(challenger).history() + binding_items(*bound),
{
    let tag: u64 = match bound.field {
        RootIopOracleField::Base => FIELD_BASE,
        RootIopOracleField::Extension => FIELD_EXTENSION,
    };
    challenger.observe(F::from_u64(bound.oracle_id as u64));
    challenger.observe(F::from_u64(bound.log_len as u64));
    challenger.observe(F::from_u64(tag));
    match bound.commitment {
        NativeWarpWhirRootCommitment::BaseMessage(root) => {
            challenger.observe(F::from_u64(KIND_BASE_MESSAGE));
            challenger.observe_commitment(root);
        },
        NativeWarpWhirRootCommitment::BaseMessageShared { root, column, width } => {
            challenger.observe(F::from_u64(KIND_BASE_MESSAGE_SHARED));
            challenger.observe(F::from_u64(column as u64));
            challenger.observe(F::from_u64(width as u64));
            challenger.observe_commitment(root);
        },
        NativeWarpWhirRootCommitment::ExtensionMessage(root) => {
            challenger.observe(F::from_u64(KIND_EXTENSION_MESSAGE));
            challenger.observe_commitment(root);
        },
    }
    assert(challenger.history() =~= old(challenger).history() + binding_items(*bound));
}

/// Absorbs public commitments in order.
pub fn observe_all<F: Field, EF, D: Copy, C: Challenger<F, EF, D>>(
    challenger: &mut C,
    commitments: &Vec<BoundRoot<D>>,
)
    ensures
        final(challenger).history() == old(challenger).history() + all_binding_items(commitments@),
{
    let ghost start = challenger.history();
    let mut i: usize = 0;
    assert(challenger.history() =~= start + all_binding_items(commitments@.take(0)));
    while i < commitments.len()
        invariant
            i <= commitments@.len(),
            challenger.history() == start + all_binding_items(commitments@.take(i as int)),
        decreases commitments@.len() - i,
    {
        observe_native_root_commitment(challenger, &commitments[i]);
        assert(commitments@.take(i as int + 1).drop_last() =~= commitments@.take(i as int));
        i = i + 1;
        assert(challenger.history() =~= start + all_binding_items(commitments@.take(i as int)));
    }
    assert(commitments@.take(i as int) =~= commitments@);
}

/// Every integer of the commitment is smaller than the characteristic, and so
/// are the tags.
pub open spec fn integers_fit<F: Field, D>(
    bound: BoundRoot<D>,
) -> bool {
    &&& F::characteristic() > KIND_EXTENSION_MESSAGE
    &&& bound.oracle_id < F::characteristic()
    &&& bound.log_len < F::characteristic()
    &&& bound.commitment matches NativeWarpWhirRootCommitment::BaseMessageShared {
        column,
        width,
        ..
    } ==> column < F::characteristic() && width < F::characteristic()
}

proof fn lemma_same_integer<F: Field, EF, D>(a: nat, b: nat)
    requires
        a < F::characteristic(),
        b < F::characteristic(),
        integer_item::<F, EF, D>(a) == integer_item::<F, EF, D>(b),
    ensures
        a == b,
{
    F::nat_is_injective(a, b);
}

/// What is absorbed for a commitment can be told apart from what follows it.
proof fn lemma_binding_prefix<F: Field, EF, D>(
    a: BoundRoot<D>,
    b: BoundRoot<D>,
    s: Seq<TranscriptItem<F, EF, D>>,
    t: Seq<TranscriptItem<F, EF, D>>,
)
    requires
        integers_fit::<F, D>(a),
        integers_fit::<F, D>(b),
        binding_items::<F, EF, D>(a) + s == binding_items::<F, EF, D>(b) + t,
    ensures
        a == b,
        s == t,
{
    let (x, y) = (binding_items::<F, EF, D>(a), binding_items::<F, EF, D>(b));
    let (ca, cb) = (
        commitment_items::<F, EF, D>(a.commitment),
        commitment_items::<F, EF, D>(b.commitment),
    );
    let (u, v) = (x + s, y + t);
    assert(u[0] == x[0] && u[1] == x[1] && u[2] == x[2] && u[3] == ca[0]);
    assert(v[0] == y[0] && v[1] == y[1] && v[2] == y[2] && v[3] == cb[0]);
    lemma_same_integer::<F, EF, D>(a.oracle_id as nat, b.oracle_id as nat);
    lemma_same_integer::<F, EF, D>(a.log_len as nat, b.log_len as nat);
    lemma_same_integer::<F, EF, D>(field_tag(a.field) as nat, field_tag(b.field) as nat);
    lemma_same_integer::<F, EF, D>(
        kind_tag(a.commitment) as nat,
        kind_tag(b.commitment) as nat,
    );
    match (a.commitment, b.commitment) {
        (
            NativeWarpWhirRootCommitment::BaseMessageShared { column: c1, width: w1, .. },
            NativeWarpWhirRootCommitment::BaseMessageShared { column: c2, width: w2, .. },
        ) => {
            assert(u[4] == ca[1] && u[5] == ca[2] && u[6] == ca[3]);
            assert(v[4] == cb[1] && v[5] == cb[2] && v[6] == cb[3]);
            lemma_same_integer::<F, EF, D>(c1 as nat, c2 as nat);
            lemma_same_integer::<F, EF, D>(w1 as nat, w2 as nat);
        },
        _ => {
            assert(u[4] == ca[1]);
            assert(v[4] == cb[1]);
        },
    }
    assert(a == b);
    assert(s =~= u.skip(x.len() as int));
    assert(t =~= v.skip(x.len() as int));
}

/// The transcript fixes the commitment: what is absorbed for two different
/// public commitments differs, in particular for two different columns of one
/// stack.
pub proof fn binding_items_are_injective<F: Field, EF, D>(
    a: BoundRoot<D>,
    b: BoundRoot<D>,
)
    requires
        integers_fit::<F, D>(a),
        integers_fit::<F, D>(b),
        binding_items::<F, EF, D>(a) == binding_items::<F, EF, D>(b),
    ensures
        a == b,
{
    lemma_binding_prefix(a, b, Seq::<TranscriptItem<F, EF, D>>::empty(), Seq::empty());
}

proof fn lemma_first_binding<F: Field, EF, D>(
    commitments: Seq<BoundRoot<D>>,
)
    requires
        commitments.len() > 0,
    ensures
        all_binding_items::<F, EF, D>(commitments) == binding_items::<F, EF, D>(commitments[0])
            + all_binding_items(commitments.skip(1)),
    decreases commitments.len(),
{
    let items = all_binding_items::<F, EF, D>(commitments);
    let first = binding_items::<F, EF, D>(commitments[0]);
    if commitments.len() == 1 {
        assert(commitments.drop_last() =~= Seq::empty());
        assert(commitments.skip(1) =~= Seq::empty());
        assert(all_binding_items::<F, EF, D>(commitments.drop_last()) =~= Seq::empty());
        assert(items =~= first + all_binding_items(commitments.skip(1)));
    } else {
        lemma_first_binding::<F, EF, D>(commitments.drop_last());
        assert(commitments.drop_last().skip(1) =~= commitments.skip(1).drop_last());
        assert(items =~= first + all_binding_items(commitments.skip(1)));
    }
}

/// The transcript fixes all commitments and their order: what is absorbed for
/// two different lists of public commitments differs.
pub proof fn transcript_fixes_commitments<F: Field, EF, D>(
    a: Seq<BoundRoot<D>>,
    b: Seq<BoundRoot<D>>,
)
    requires
        forall|i: int| 0 <= i < a.len() ==> integers_fit::<F, D>(#[trigger] a[i]),
        forall|i: int| 0 <= i < b.len() ==> integers_fit::<F, D>(#[trigger] b[i]),
        all_binding_items::<F, EF, D>(a) == all_binding_items::<F, EF, D>(b),
    ensures
        a == b,
    decreases a.len(),
{
    if a.len() > 0 {
        lemma_first_binding::<F, EF, D>(a);
    }
    if b.len() > 0 {
        lemma_first_binding::<F, EF, D>(b);
    }
    if a.len() == 0 || b.len() == 0 {
        if a.len() > 0 {
            assert(all_binding_items::<F, EF, D>(a).len() > 0);
        }
        if b.len() > 0 {
            assert(all_binding_items::<F, EF, D>(b).len() > 0);
        }
        assert(a =~= b);
    } else {
        let (s, t) = (
            all_binding_items::<F, EF, D>(a.skip(1)),
            all_binding_items::<F, EF, D>(b.skip(1)),
        );
        lemma_binding_prefix(a[0], b[0], s, t);
        assert forall|i: int| 0 <= i < a.skip(1).len() implies integers_fit::<F, D>(
            #[trigger] a.skip(1)[i],
        ) by {
            assert(a.skip(1)[i] == a[i + 1]);
        }
        assert forall|i: int| 0 <= i < b.skip(1).len() implies integers_fit::<F, D>(
            #[trigger] b.skip(1)[i],
        ) by {
            assert(b.skip(1)[i] == b[i + 1]);
        }
        transcript_fixes_commitments::<F, EF, D>(a.skip(1), b.skip(1));
        assert(a =~= seq![a[0]] + a.skip(1));
        assert(b =~= seq![b[0]] + b.skip(1));
    }
}

/// The tag of the kind of a commitment.
spec fn kind_tag<D>(commitment: NativeWarpWhirRootCommitment<D>) -> u64 {
    match commitment {
        NativeWarpWhirRootCommitment::BaseMessage(_) => KIND_BASE_MESSAGE,
        NativeWarpWhirRootCommitment::BaseMessageShared { .. } => KIND_BASE_MESSAGE_SHARED,
        NativeWarpWhirRootCommitment::ExtensionMessage(_) => KIND_EXTENSION_MESSAGE,
    }
}

} // verus!

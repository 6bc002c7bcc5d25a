//! What the arithmetic of the two fields gives.

use crate::field::{all_valid, ExtensionField, Field, TwoAdicField};
use crate::goldilocks::{
    base_operations, extension_operations, root_of_largest_subgroup, Goldilocks, GoldilocksExt2,
};
use crate::keccak::{keccak_challenge, recorded, KeccakChallenger, KeccakDigest};
use crate::transcript::{Challenger, Digest, TranscriptItem};
use vstd::prelude::*;

verus! {

/// Elements of the base field are added, multiplied and compared as integers
/// modulo the order of the field.
pub proof fn base_elements_are_residues(
    n: u64,
    made: Goldilocks,
    image: Goldilocks,
    a: Goldilocks,
    b: Goldilocks,
    sum: Goldilocks,
    product: Goldilocks,
    equal: bool,
    zero: Goldilocks,
    one: Goldilocks,
    same: Goldilocks,
    read: u64,
)
    requires
        call_ensures(Goldilocks::new, (n,), made),
        call_ensures(<Goldilocks as Field>::from_u64, (n,), image),
        call_ensures(<Goldilocks as Field>::plus, (a, b), sum),
        call_ensures(<Goldilocks as Field>::times, (a, b), product),
        call_ensures(<Goldilocks as Field>::same, (a, b), equal),
        call_ensures(<Goldilocks as Field>::zero, (), zero),
        call_ensures(<Goldilocks as Field>::one, (), one),
        call_ensures(<Goldilocks as Field>::canonical, (a,), same),
        call_ensures(Goldilocks::as_canonical_u64, (a,), read),
    ensures
        made.int_value() == n as int % 0xFFFF_FFFF_0000_0001,
        image.int_value() == n as int % 0xFFFF_FFFF_0000_0001,
        sum.int_value() == (a.int_value() + b.int_value()) % 0xFFFF_FFFF_0000_0001,
        product.int_value() == (a.int_value() * b.int_value()) % 0xFFFF_FFFF_0000_0001,
        equal <==> a.int_value() == b.int_value(),
        zero.int_value() == 0,
        one.int_value() == 1,
        same == a,
        read == a.int_value(),
{
    base_operations(a, b, n as nat);
}

/// Elements of the extension are pairs `c0 + c1 * t`, added coefficient by
/// coefficient and multiplied with `t * t == 7`.
pub proof fn extension_elements_are_pairs(
    c0: Goldilocks,
    c1: Goldilocks,
    made: GoldilocksExt2,
    a: GoldilocksExt2,
    b: GoldilocksExt2,
    sum: GoldilocksExt2,
    product: GoldilocksExt2,
    equal: bool,
    embedded: GoldilocksExt2,
    read: (Goldilocks, Goldilocks),
    zero: GoldilocksExt2,
    one: GoldilocksExt2,
    n: u64,
    image: GoldilocksExt2,
    same: GoldilocksExt2,
)
    requires
        call_ensures(<GoldilocksExt2 as Field>::zero, (), zero),
        call_ensures(<GoldilocksExt2 as Field>::one, (), one),
        call_ensures(<GoldilocksExt2 as Field>::from_u64, (n,), image),
        call_ensures(<GoldilocksExt2 as Field>::canonical, (a,), same),
        call_ensures(GoldilocksExt2::new, (c0, c1), made),
        call_ensures(<GoldilocksExt2 as Field>::plus, (a, b), sum),
        call_ensures(<GoldilocksExt2 as Field>::times, (a, b), product),
        call_ensures(<GoldilocksExt2 as Field>::same, (a, b), equal),
        call_ensures(<GoldilocksExt2 as ExtensionField<Goldilocks>>::from_base, (c0,), embedded),
        call_ensures(GoldilocksExt2::into_coefficients, (a,), read),
    ensures
        ({
            let (a0, a1) = a.coefficients();
            let (b0, b1) = b.coefficients();
            let w = Goldilocks::nat_spec(7);
            &&& made.coefficients() == (c0, c1)
            &&& sum.coefficients() == (a0.add_spec(b0), a1.add_spec(b1))
            &&& product.coefficients() == (
                a0.mul_spec(b0).add_spec(w.mul_spec(a1.mul_spec(b1))),
                a0.mul_spec(b1).add_spec(a1.mul_spec(b0)),
            )
            &&& equal <==> a.coefficients() == b.coefficients()
            &&& embedded.coefficients() == (c0, Goldilocks::zero_spec())
            &&& read == a.coefficients()
            &&& zero.coefficients() == (Goldilocks::zero_spec(), Goldilocks::zero_spec())
            &&& one.coefficients() == (Goldilocks::one_spec(), Goldilocks::zero_spec())
            &&& image.coefficients() == (Goldilocks::nat_spec(n as nat), Goldilocks::zero_spec())
            &&& same == a
        }),
{
    extension_operations(a, b, n as nat, c0);
}

/// The base field has subgroups of order `2^k` for every `k` up to 32. The
/// generator of the largest is a fixed element, and each generator is the square
/// of that of the next larger one.
pub proof fn subgroups_are_generated_by_squares(bits: nat)
    ensures
        Goldilocks::two_adicity() == 32,
        Goldilocks::characteristic() == 0xFFFF_FFFF_0000_0001,
        Goldilocks::root(32).int_value() == 0x1856_29dc_da58_878c,
        bits < 32 ==> Goldilocks::root(bits) == Goldilocks::root(bits + 1).mul_spec(
            Goldilocks::root(bits + 1),
        ),
{
    if bits < 32 {
        Goldilocks::root_squares(bits);
    }
    root_of_largest_subgroup();
}

/// All elements of a table are canonical exactly when each of them is.
pub proof fn tables_are_valid_element_by_element<T: Field>(table: Seq<T>, next: T)
    ensures
        all_valid(Seq::<T>::empty()),
        all_valid(table.push(next)) <==> all_valid(table) && next.valid(),
{
    let more = table.push(next);
    if all_valid(more) {
        assert forall|i: int| 0 <= i < table.len() implies (#[trigger] table[i]).valid() by {
            assert(more[i] == table[i]);
        }
        assert(more[table.len() as int].valid());
    }
    if all_valid(table) && next.valid() {
        assert forall|i: int| 0 <= i < more.len() implies (#[trigger] more[i]).valid() by {
            if i < table.len() {
                assert(more[i] == table[i]);
            }
        }
    }
}

/// A transcript starts with nothing recorded, records what it absorbs and every
/// draw, and draws what its record determines; a fork has the same record.
pub proof fn transcripts_record_what_they_absorb(
    empty: KeccakChallenger,
    with_base: &mut KeccakChallenger,
    base: Goldilocks,
    with_extension: &mut KeccakChallenger,
    extension: GoldilocksExt2,
    with_root: &mut KeccakChallenger,
    root: KeccakDigest,
    with_draw: &mut KeccakChallenger,
    drawn: GoldilocksExt2,
    forked: KeccakChallenger,
    fork: KeccakChallenger,
    other: KeccakDigest,
    equal: bool,
)
    requires
        call_ensures(KeccakChallenger::new, (), empty),
        call_ensures(
            <KeccakChallenger as Challenger<Goldilocks, GoldilocksExt2, KeccakDigest>>::observe,
            (with_base, base),
            (),
        ),
        call_ensures(
            <KeccakChallenger as Challenger<
                Goldilocks,
                GoldilocksExt2,
                KeccakDigest,
            >>::observe_algebra_element,
            (with_extension, extension),
            (),
        ),
        call_ensures(
            <KeccakChallenger as Challenger<
                Goldilocks,
                GoldilocksExt2,
                KeccakDigest,
            >>::observe_commitment,
            (with_root, root),
            (),
        ),
        call_ensures(
            <KeccakChallenger as Challenger<
                Goldilocks,
                GoldilocksExt2,
                KeccakDigest,
            >>::sample_algebra_element,
            (with_draw,),
            drawn,
        ),
        call_ensures(
            <KeccakChallenger as Challenger<Goldilocks, GoldilocksExt2, KeccakDigest>>::fork,
            (&forked,),
            fork,
        ),
        call_ensures(<KeccakDigest as Digest>::same, (root, other), equal),
    ensures
        recorded(empty).len() == 0,
        recorded(*final(with_base)) == recorded(*old(with_base)).push(TranscriptItem::Base(base)),
        recorded(*final(with_extension)) == recorded(*old(with_extension)).push(
            TranscriptItem::Extension(extension),
        ),
        recorded(*final(with_root)) == recorded(*old(with_root)).push(TranscriptItem::Root(root)),
        drawn == keccak_challenge(recorded(*old(with_draw))),
        recorded(*final(with_draw)) == recorded(*old(with_draw)).push(TranscriptItem::Sample),
        recorded(fork) == recorded(forked),
        equal <==> root == other,
{
}

} // verus!

//! A transcript over the field of order `2^64 - 2^32 + 1`, hashed with
//! Keccak-256.

use crate::goldilocks::{Goldilocks, GoldilocksExt2};
use crate::transcript::{Challenger, Digest, TranscriptItem};
use p3_challenger::{CanObserve, FieldChallenger};
use p3_field::extension::BinomialExtensionField;
use p3_field::{BasedVectorSpace, PrimeField64};
use vstd::prelude::*;

verus! {

/// A commitment of four 64-bit words.
#[derive(Clone, Copy, Debug, PartialEq, Eq, Structural)]
pub struct KeccakDigest {
    /// First word.
    pub w0: u64,
    /// Second word.
    pub w1: u64,
    /// Third word.
    pub w2: u64,
    /// Fourth word.
    pub w3: u64,
}

impl Digest for KeccakDigest {
    fn same(self, other: Self) -> (r: bool) {
        self == other
    }
}

/// The transcript of `p3_challenger` that serializes elements of a 64-bit
/// field and hashes them with the Keccak-256 of `p3_keccak`.
#[verifier::external_body]
pub struct KeccakChallenger {
    inner: p3_challenger::SerializingChallenger64<
        p3_goldilocks::Goldilocks,
        p3_challenger::HashChallenger<u8, p3_keccak::Keccak256Hash, 32>,
    >,
}

/// What a transcript has absorbed and drawn since it was made.
pub uninterp spec fn recorded(
    transcript: KeccakChallenger,
) -> Seq<TranscriptItem<Goldilocks, GoldilocksExt2, KeccakDigest>>;

/// The element that `sample_algebra_element` of `p3_challenger` draws from a
/// transcript with the given record.
pub uninterp spec fn keccak_challenge(
    record: Seq<TranscriptItem<Goldilocks, GoldilocksExt2, KeccakDigest>>,
) -> GoldilocksExt2;

/// `from_hasher` of `p3_challenger::SerializingChallenger64` with an empty
/// initial state: a transcript that has recorded nothing.
#[verifier::external_body]
fn empty_transcript() -> (r: KeccakChallenger)
    ensures
        recorded(r).len() == 0,
{
    KeccakChallenger {
        inner: p3_challenger::SerializingChallenger64::from_hasher(
            Vec::new(),
            p3_keccak::Keccak256Hash,
        ),
    }
}

/// `observe` of `p3_challenger::CanObserve` for a field element: the element is
/// recorded.
#[verifier::external_body]
fn absorb_base(transcript: &mut KeccakChallenger, value: Goldilocks)
    ensures
        recorded(*final(transcript)) == recorded(*old(transcript)).push(
            TranscriptItem::Base(value),
        ),
{
    transcript.inner.observe(p3_goldilocks::Goldilocks::new(value.as_canonical_u64()));
}

/// `observe_algebra_element` of `p3_challenger::FieldChallenger` for an element
/// of the quadratic extension: the element is recorded.
#[verifier::external_body]
fn absorb_extension(transcript: &mut KeccakChallenger, value: GoldilocksExt2)
    ensures
        recorded(*final(transcript)) == recorded(*old(transcript)).push(
            TranscriptItem::Extension(value),
        ),
{
    let (c0, c1) = value.into_coefficients();
    let element: BinomialExtensionField<p3_goldilocks::Goldilocks, 2> = BinomialExtensionField::new(
        [
            p3_goldilocks::Goldilocks::new(c0.as_canonical_u64()),
            p3_goldilocks::Goldilocks::new(c1.as_canonical_u64()),
        ],
    );
    transcript.inner.observe_algebra_element(element);
}

/// `observe` of `p3_challenger::CanObserve` for a `p3_symmetric::Hash` of four
/// words: the words are recorded.
#[verifier::external_body]
fn absorb_root(transcript: &mut KeccakChallenger, root: KeccakDigest)
    ensures
        recorded(*final(transcript)) == recorded(*old(transcript)).push(TranscriptItem::Root(root)),
{
    let hash: p3_symmetric::Hash<p3_goldilocks::Goldilocks, u64, 4> = p3_symmetric::Hash::from(
        [root.w0, root.w1, root.w2, root.w3],
    );
    transcript.inner.observe(hash);
}

/// `sample_algebra_element` of `p3_challenger::FieldChallenger`: the element
/// drawn depends on the record alone, and the draw is recorded.
#[verifier::external_body]
fn squeeze(transcript: &mut KeccakChallenger) -> (r: GoldilocksExt2)
    ensures
        r == keccak_challenge(recorded(*old(transcript))),
        recorded(*final(transcript)) == recorded(*old(transcript)).push(TranscriptItem::Sample),
{
    let element: BinomialExtensionField<p3_goldilocks::Goldilocks, 2> =
        transcript.inner.sample_algebra_element();
    let c: &[p3_goldilocks::Goldilocks] = element.as_basis_coefficients_slice();
    GoldilocksExt2::new(
        Goldilocks::new(c[0].as_canonical_u64()),
        Goldilocks::new(c[1].as_canonical_u64()),
    )
}

/// `clone` of the transcript of `p3_challenger`: the copy has the same record.
#[verifier::external_body]
fn duplicate(transcript: &KeccakChallenger) -> (r: KeccakChallenger)
    ensures
        recorded(r) == recorded(*transcript),
{
    KeccakChallenger { inner: transcript.inner.clone() }
}

impl KeccakChallenger {
    /// A transcript that has recorded nothing.
    pub fn new() -> (r: Self)
        ensures
            r.history() == Seq::<
                TranscriptItem<Goldilocks, GoldilocksExt2, KeccakDigest>,
            >::empty(),
    {
        empty_transcript()
    }
}

impl Challenger<Goldilocks, GoldilocksExt2, KeccakDigest> for KeccakChallenger {
    open spec fn history(self) -> Seq<TranscriptItem<Goldilocks, GoldilocksExt2, KeccakDigest>> {
        recorded(self)
    }

    open spec fn challenge(
        history: Seq<TranscriptItem<Goldilocks, GoldilocksExt2, KeccakDigest>>,
    ) -> GoldilocksExt2 {
        keccak_challenge(history)
    }

    fn observe(&mut self, value: Goldilocks) {
        absorb_base(self, value);
    }

    fn observe_algebra_element(&mut self, value: GoldilocksExt2) {
        absorb_extension(self, value);
    }

    fn observe_commitment(&mut self, root: KeccakDigest) {
        absorb_root(self, root);
    }

    fn sample_algebra_element(&mut self) -> (r: GoldilocksExt2) {
        squeeze(self)
    }

    fn fork(&self) -> (r: Self) {
        duplicate(self)
    }
}

} // verus!

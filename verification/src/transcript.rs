//! Fiat-Shamir transcripts.
//!
//! A transcript is known to the logic by its history: everything absorbed so
//! far and every draw. A drawn challenge is a function of the history before
//! the draw.

use vstd::prelude::*;

verus! {

/// One step of a transcript.
pub enum TranscriptItem<F, EF, D> {
    /// A base-field element was absorbed.
    Base(F),
    /// An extension-field element was absorbed.
    Extension(EF),
    /// A commitment was absorbed.
    Root(D),
    /// A challenge was drawn.
    Sample,
}

/// The value of a commitment.
pub trait Digest: Copy + Sized {
    /// Equality of commitments.
    fn same(self, other: Self) -> (r: bool)
        ensures
            r == (self == other),
    ;
}

/// A transcript that absorbs field elements and commitments and draws
/// challenges in the extension.
pub trait Challenger<F, EF, D>: Sized {
    /// Everything absorbed and drawn so far.
    spec fn history(self) -> Seq<TranscriptItem<F, EF, D>>;

    /// The challenge drawn after the given history.
    spec fn challenge(history: Seq<TranscriptItem<F, EF, D>>) -> EF;

    /// Absorbs a base-field element.
    fn observe(&mut self, value: F)
        ensures
            final(self).history() == old(self).history().push(TranscriptItem::Base(value)),
    ;

    /// Absorbs an extension-field element.
    fn observe_algebra_element(&mut self, value: EF)
        ensures
            final(self).history() == old(self).history().push(TranscriptItem::Extension(value)),
    ;

    /// Absorbs a commitment.
    fn observe_commitment(&mut self, root: D)
        ensures
            final(self).history() == old(self).history().push(TranscriptItem::Root(root)),
    ;

    /// Draws a challenge.
    fn sample_algebra_element(&mut self) -> (r: EF)
        ensures
            r == Self::challenge(old(self).history()),
            final(self).history() == old(self).history().push(TranscriptItem::Sample),
    ;

    /// An independent transcript with the same history.
    fn fork(&self) -> (r: Self)
        ensures
            r.history() == self.history(),
    ;
}

} // verus!

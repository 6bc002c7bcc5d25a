//! The recorded root oracle proof: commitments to oracles and claims about
//! them.

use vstd::prelude::*;

verus! {

/// The field over which an oracle is committed.
#[derive(Clone, Copy, Debug, PartialEq, Eq, Structural)]
pub enum RootIopOracleField {
    /// The oracle holds base-field elements.
    Base,
    /// The oracle holds extension-field elements.
    Extension,
}

/// The table behind an oracle.
#[derive(Debug)]
pub enum RootIopOracleValues<F, EF> {
    /// A base-field table.
    Base(Vec<F>),
    /// An extension-field table.
    Extension(Vec<EF>),
}

/// A commitment together with the oracle that it binds.
#[derive(Clone, Copy, Debug)]
pub struct RootIopBoundCommitment<Comm> {
    /// Identifier of the oracle.
    pub oracle_id: usize,
    /// Binary logarithm of the table length.
    pub log_len: usize,
    /// Field of the table.
    pub field: RootIopOracleField,
    /// The commitment.
    pub commitment: Comm,
}

/// The position at which an oracle is opened.
#[derive(Debug)]
pub enum RootIopOpeningPoint<EF> {
    /// An index into the table.
    Index(usize),
    /// An index into the codeword.
    RsCodewordIndex(usize),
    /// A point of the multilinear extension of the table.
    Mle(Vec<EF>),
}

/// The value that an opening is claimed to have.
#[derive(Clone, Copy, Debug)]
pub enum RootIopOpeningValue<F, EF> {
    /// A base-field value.
    Base(F),
    /// An extension-field value.
    Extension(EF),
}

/// A claim about one opening of one oracle.
#[derive(Debug)]
pub struct RootIopOpeningClaim<F, EF> {
    /// Identifier of the oracle.
    pub oracle_id: usize,
    /// The position.
    pub point: RootIopOpeningPoint<EF>,
    /// The claimed value.
    pub value: RootIopOpeningValue<F, EF>,
}

/// The oracles that were bound, with their tables, and the claims about them.
#[derive(Debug)]
pub struct RootIopBoundTranscript<F, EF, Comm> {
    /// Bound oracles.
    pub oracles: Vec<(RootIopBoundCommitment<Comm>, RootIopOracleValues<F, EF>)>,
    /// Claims.
    pub claims: Vec<RootIopOpeningClaim<F, EF>>,
}

/// Some claim is about the oracle.
pub open spec fn claimed<F, EF>(claims: Seq<RootIopOpeningClaim<F, EF>>, oracle_id: usize) -> bool {
    exists|i: int| 0 <= i < claims.len() && (#[trigger] claims[i]).oracle_id == oracle_id
}

/// The claims about one oracle, in order.
pub open spec fn claims_about<F, EF>(
    claims: Seq<RootIopOpeningClaim<F, EF>>,
    oracle_id: usize,
) -> Seq<RootIopOpeningClaim<F, EF>> {
    claims.filter(|c: RootIopOpeningClaim<F, EF>| c.oracle_id == oracle_id)
}

/// Whether some claim is about the oracle.
pub fn claims_include_oracle<F, EF>(
    claims: &Vec<RootIopOpeningClaim<F, EF>>,
    oracle_id: usize,
) -> (r: bool)
    ensures
        r == claimed(claims@, oracle_id),
{
    let mut i: usize = 0;
    while i < claims.len()
        invariant
            i <= claims@.len(),
            forall|j: int| 0 <= j < i ==> (#[trigger] claims@[j]).oracle_id != oracle_id,
        decreases claims@.len() - i,
    {
        if claims[i].oracle_id == oracle_id {
            return true;
        }
        i = i + 1;
    }
    false
}

/// The claims about an oracle among the first `i + 1` claims.
pub proof fn lemma_claims_about_step<F, EF>(
    claims: Seq<RootIopOpeningClaim<F, EF>>,
    oracle_id: usize,
    i: int,
)
    requires
        0 <= i < claims.len(),
    ensures
        claims_about(claims.take(i + 1), oracle_id) == if claims[i].oracle_id == oracle_id {
            claims_about(claims.take(i), oracle_id).push(claims[i])
        } else {
            claims_about(claims.take(i), oracle_id)
        },
{
    reveal(Seq::filter);
    assert(claims.take(i + 1).drop_last() =~= claims.take(i));
    assert(claims.take(i + 1).last() == claims[i]);
}

/// An oracle is claimed exactly when some claim is about it.
pub proof fn lemma_claims_about_nonempty<F, EF>(
    claims: Seq<RootIopOpeningClaim<F, EF>>,
    oracle_id: usize,
)
    ensures
        claimed(claims, oracle_id) <==> claims_about(claims, oracle_id).len() > 0,
    decreases claims.len(),
{
    reveal(Seq::filter);
    if claims.len() > 0 {
        let n = claims.len() - 1;
        lemma_claims_about_nonempty(claims.drop_last(), oracle_id);
        if claims[n].oracle_id != oracle_id && claimed(claims, oracle_id) {
            let i = choose|i: int|
                0 <= i < claims.len() && (#[trigger] claims[i]).oracle_id == oracle_id;
            assert(claims.drop_last()[i].oracle_id == oracle_id);
        }
        if claimed(claims.drop_last(), oracle_id) {
            let i = choose|i: int|
                0 <= i < claims.drop_last().len() && (#[trigger] claims.drop_last()[i]).oracle_id
                    == oracle_id;
            assert(claims[i].oracle_id == oracle_id);
        }
    }
}

} // verus!

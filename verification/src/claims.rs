//! Compiling the claims about one oracle to one compact statement.
//!
//! A query of a compact statement is a query to the codeword of the oracle:
//! the value at an index, or the value of the multilinear extension at a point.

use crate::code::{embedded, CodeShape};
use crate::collect::{collected, lemma_collected_ok, lemma_collected_prefix, lemma_collected_push};
use crate::error::NativeWarpWhirClaimCompileError;
use crate::field::{ExtensionField, Field, TwoAdicField};
use crate::multilinear::mle;
use crate::root_iop::{
    claims_about, lemma_claims_about_step, RootIopOpeningClaim, RootIopOpeningPoint,
    RootIopOpeningValue,
};
use vstd::prelude::*;

verus! {

/// One query to a codeword and the claimed answer.
#[derive(Debug)]
pub enum CompactRootQuery<EF> {
    /// The value at an index.
    Index {
        /// The index.
        index: usize,
        /// The claimed value.
        value: EF,
    },
    /// The value of the multilinear extension at a point.
    Mle {
        /// The point.
        point: Vec<EF>,
        /// The claimed value.
        value: EF,
    },
}

/// The model of a [`CompactRootQuery`].
pub enum Query<EF> {
    /// The value at an index.
    Index { index: usize, value: EF },
    /// The value of the multilinear extension at a point.
    Mle { point: Seq<EF>, value: EF },
}

impl<EF> View for CompactRootQuery<EF> {
    type V = Query<EF>;

    open spec fn view(&self) -> Query<EF> {
        match *self {
            CompactRootQuery::Index { index, value } => Query::Index { index, value },
            CompactRootQuery::Mle { point, value } => Query::Mle { point: point@, value },
        }
    }
}

/// All queries to the codeword of one oracle.
#[derive(Debug)]
pub struct NativeWarpCompactRootStatement<EF> {
    num_variables: usize,
    queries: Vec<CompactRootQuery<EF>>,
}

/// The model of a [`NativeWarpCompactRootStatement`].
pub struct CompactStatement<EF> {
    /// Number of variables of the message polynomial.
    pub num_variables: usize,
    /// The queries, in order.
    pub queries: Seq<Query<EF>>,
}

impl<EF> View for NativeWarpCompactRootStatement<EF> {
    type V = CompactStatement<EF>;

    closed spec fn view(&self) -> CompactStatement<EF> {
        CompactStatement {
            num_variables: self.num_variables,
            queries: Seq::new(self.queries@.len(), |i: int| self.queries@[i]@),
        }
    }
}

impl<EF: Copy> NativeWarpCompactRootStatement<EF> {
    /// A statement without queries.
    pub fn initialize(num_variables: usize) -> (r: Self)
        ensures
            r@.num_variables == num_variables,
            r@.queries == Seq::<Query<EF>>::empty(),
    {
        let r = NativeWarpCompactRootStatement { num_variables, queries: Vec::new() };
        assert(r@.queries =~= Seq::<Query<EF>>::empty());
        r
    }

    /// Adds a query to the value at an index.
    pub fn add_index(&mut self, index: usize, value: EF)
        ensures
            final(self)@.num_variables == old(self)@.num_variables,
            final(self)@.queries == old(self)@.queries.push(Query::Index { index, value }),
    {
        self.queries.push(CompactRootQuery::Index { index, value });
        assert(self@.queries =~= old(self)@.queries.push(Query::Index { index, value }));
    }

    /// Adds a query to the value of the multilinear extension at a point.
    pub fn add_mle(&mut self, point: Vec<EF>, value: EF)
        ensures
            final(self)@.num_variables == old(self)@.num_variables,
            final(self)@.queries == old(self)@.queries.push(Query::Mle { point: point@, value }),
    {
        self.queries.push(CompactRootQuery::Mle { point, value });
        assert(self@.queries =~= old(self)@.queries.push(Query::Mle { point: point@, value }));
    }

    /// Whether there are no queries.
    pub fn is_empty(&self) -> (r: bool)
        ensures
            r == (self@.queries.len() == 0),
    {
        self.queries.len() == 0
    }

    /// Number of variables of the message polynomial.
    pub fn num_variables(&self) -> (r: usize)
        ensures
            r == self@.num_variables,
    {
        self.num_variables
    }

    /// The queries, in order.
    pub fn queries(&self) -> (r: &Vec<CompactRootQuery<EF>>)
        ensures
            self@.queries == Seq::new(r@.len(), |i: int| r@[i]@),
    {
        &self.queries
    }
}

/// The query that a claim about a base-field oracle is compiled to. Such an
/// oracle is opened at indices only, with base-field values.
pub open spec fn base_query<F: TwoAdicField, EF: ExtensionField<F>>(
    shape: CodeShape,
    oracle_id: usize,
    claim: RootIopOpeningClaim<F, EF>,
) -> Result<Query<EF>, NativeWarpWhirClaimCompileError> {
    match claim.value {
        RootIopOpeningValue::Extension(_) => Err(
            NativeWarpWhirClaimCompileError::OracleFieldMismatch(oracle_id),
        ),
        RootIopOpeningValue::Base(value) => match claim.point {
            RootIopOpeningPoint::Mle(_) => Err(
                NativeWarpWhirClaimCompileError::UnsupportedBaseMle(oracle_id),
            ),
            RootIopOpeningPoint::Index(index) | RootIopOpeningPoint::RsCodewordIndex(index) => {
                index_query(shape, oracle_id, index, EF::embed(value))
            },
        },
    }
}

/// The query that a claim about an extension-field oracle is compiled to. Such
/// an oracle is opened at indices and at points, with extension-field values.
pub open spec fn extension_query<F: TwoAdicField, EF: ExtensionField<F>>(
    shape: CodeShape,
    oracle_id: usize,
    claim: RootIopOpeningClaim<F, EF>,
) -> Result<Query<EF>, NativeWarpWhirClaimCompileError> {
    match claim.value {
        RootIopOpeningValue::Base(_) => Err(
            NativeWarpWhirClaimCompileError::OracleFieldMismatch(oracle_id),
        ),
        RootIopOpeningValue::Extension(value) => match claim.point {
            RootIopOpeningPoint::Mle(point) => if point@.len() != shape.log_codeword_len() {
                Err(NativeWarpWhirClaimCompileError::PointArityMismatch { oracle_id })
            } else {
                Ok(Query::Mle { point: point@, value })
            },
            RootIopOpeningPoint::Index(index) | RootIopOpeningPoint::RsCodewordIndex(index) => {
                index_query(shape, oracle_id, index, value)
            },
        },
    }
}

/// The query to an index, which has to lie in the codeword.
pub open spec fn index_query<EF>(
    shape: CodeShape,
    oracle_id: usize,
    index: usize,
    value: EF,
) -> Result<Query<EF>, NativeWarpWhirClaimCompileError> {
    if index >= shape.codeword_len() {
        Err(NativeWarpWhirClaimCompileError::IndexOutOfBounds { oracle_id, index })
    } else {
        Ok(Query::Index { index, value })
    }
}

/// The queries of the claims about a base-field oracle.
pub open spec fn base_queries<F: TwoAdicField, EF: ExtensionField<F>>(
    shape: CodeShape,
    claims: Seq<RootIopOpeningClaim<F, EF>>,
    oracle_id: usize,
) -> Result<Seq<Query<EF>>, NativeWarpWhirClaimCompileError> {
    collected(
        claims_about(claims, oracle_id),
        |c: RootIopOpeningClaim<F, EF>| base_query(shape, oracle_id, c),
    )
}

/// The queries of the claims about an extension-field oracle.
pub open spec fn extension_queries<F: TwoAdicField, EF: ExtensionField<F>>(
    shape: CodeShape,
    claims: Seq<RootIopOpeningClaim<F, EF>>,
    oracle_id: usize,
) -> Result<Seq<Query<EF>>, NativeWarpWhirClaimCompileError> {
    collected(
        claims_about(claims, oracle_id),
        |c: RootIopOpeningClaim<F, EF>| extension_query(shape, oracle_id, c),
    )
}

/// The statement with the given queries, of which there has to be one.
pub open spec fn nonempty_statement<EF>(
    shape: CodeShape,
    oracle_id: usize,
    queries: Result<Seq<Query<EF>>, NativeWarpWhirClaimCompileError>,
) -> Result<CompactStatement<EF>, NativeWarpWhirClaimCompileError> {
    match queries {
        Err(e) => Err(e),
        Ok(queries) => if queries.len() == 0 {
            Err(NativeWarpWhirClaimCompileError::EmptyOracle(oracle_id))
        } else {
            Ok(CompactStatement { num_variables: shape.log_msg_len, queries })
        },
    }
}

/// The statement of the claims about a base-field oracle.
pub open spec fn base_statement<F: TwoAdicField, EF: ExtensionField<F>>(
    shape: CodeShape,
    claims: Seq<RootIopOpeningClaim<F, EF>>,
    oracle_id: usize,
) -> Result<CompactStatement<EF>, NativeWarpWhirClaimCompileError> {
    nonempty_statement(shape, oracle_id, base_queries(shape, claims, oracle_id))
}

/// The statement of the claims about an extension-field oracle.
pub open spec fn extension_statement<F: TwoAdicField, EF: ExtensionField<F>>(
    shape: CodeShape,
    claims: Seq<RootIopOpeningClaim<F, EF>>,
    oracle_id: usize,
) -> Result<CompactStatement<EF>, NativeWarpWhirClaimCompileError> {
    nonempty_statement(shape, oracle_id, extension_queries(shape, claims, oracle_id))
}

proof fn lemma_claims_about_prefix<F, EF>(
    claims: Seq<RootIopOpeningClaim<F, EF>>,
    oracle_id: usize,
    n: int,
)
    requires
        0 <= n <= claims.len(),
    ensures
        ({
            let part = claims_about(claims.take(n), oracle_id);
            let all = claims_about(claims, oracle_id);
            part.len() <= all.len() && all.take(part.len() as int) == part
        }),
    decreases claims.len() - n,
{
    let part = claims_about(claims.take(n), oracle_id);
    let all = claims_about(claims, oracle_id);
    if n == claims.len() {
        assert(claims.take(n) =~= claims);
        assert(all.take(part.len() as int) =~= part);
    } else {
        lemma_claims_about_step(claims, oracle_id, n);
        lemma_claims_about_prefix(claims, oracle_id, n + 1);
        let next = claims_about(claims.take(n + 1), oracle_id);
        assert(all.take(part.len() as int) =~= next.take(part.len() as int));
        assert(next.take(part.len() as int) =~= part);
    }
}

/// What one more claim adds to the images of the claims about an oracle.
pub proof fn lemma_queries_step<F, EF, U, E>(
    claims: Seq<RootIopOpeningClaim<F, EF>>,
    oracle_id: usize,
    i: int,
    f: spec_fn(RootIopOpeningClaim<F, EF>) -> Result<U, E>,
)
    requires
        0 <= i < claims.len(),
        collected(claims_about(claims.take(i), oracle_id), f) is Ok,
    ensures
        ({
            let before = collected(claims_about(claims.take(i), oracle_id), f)->Ok_0;
            let after = collected(claims_about(claims.take(i + 1), oracle_id), f);
            let all = collected(claims_about(claims, oracle_id), f);
            if claims[i].oracle_id != oracle_id {
                after == Ok::<Seq<U>, E>(before)
            } else {
                match f(claims[i]) {
                    Ok(q) => after == Ok::<Seq<U>, E>(before.push(q)),
                    Err(e) => all == Err::<Seq<U>, E>(e),
                }
            }
        }),
{
    let part = claims_about(claims.take(i), oracle_id);
    let next = claims_about(claims.take(i + 1), oracle_id);
    lemma_claims_about_step(claims, oracle_id, i);
    if claims[i].oracle_id == oracle_id {
        lemma_collected_push(part, claims[i], f);
        lemma_claims_about_prefix(claims, oracle_id, i + 1);
        lemma_collected_prefix(claims_about(claims, oracle_id), next.len() as int, f);
    }
}

/// The codeword answers the query with the claimed value.
pub open spec fn query_holds<EF: Field>(codeword: Seq<EF>, query: Query<EF>) -> bool {
    match query {
        Query::Index { index, value } => codeword[index as int] == value,
        Query::Mle { point, value } => mle(codeword, point) == value,
    }
}

/// All queries are answered with the claimed values.
pub open spec fn statement_holds<EF: Field>(
    codeword: Seq<EF>,
    statement: CompactStatement<EF>,
) -> bool {
    forall|i: int|
        0 <= i < statement.queries.len() ==> query_holds(codeword, #[trigger] statement.queries[i])
}

/// The claim is true of a base-field codeword.
pub open spec fn base_claim_holds<F, EF>(
    codeword: Seq<F>,
    claim: RootIopOpeningClaim<F, EF>,
) -> bool {
    match (claim.point, claim.value) {
        (RootIopOpeningPoint::Index(i), RootIopOpeningValue::Base(v)) => codeword[i as int] == v,
        (RootIopOpeningPoint::RsCodewordIndex(i), RootIopOpeningValue::Base(v)) => {
            codeword[i as int] == v
        },
        _ => false,
    }
}

/// The claim is true of an extension-field codeword.
pub open spec fn extension_claim_holds<F, EF: Field>(
    codeword: Seq<EF>,
    claim: RootIopOpeningClaim<F, EF>,
) -> bool {
    match (claim.point, claim.value) {
        (RootIopOpeningPoint::Index(i), RootIopOpeningValue::Extension(v)) => {
            codeword[i as int] == v
        },
        (RootIopOpeningPoint::RsCodewordIndex(i), RootIopOpeningValue::Extension(v)) => {
            codeword[i as int] == v
        },
        (RootIopOpeningPoint::Mle(p), RootIopOpeningValue::Extension(v)) => mle(codeword, p@) == v,
        _ => false,
    }
}


/// The statement compiled for a base-field oracle says what the claims about
/// the oracle say: it holds for the codeword, embedded in the extension, exactly
/// when every claim is true of the codeword.
pub proof fn base_statement_is_faithful<F: TwoAdicField, EF: ExtensionField<F>>(
    shape: CodeShape,
    claims: Seq<RootIopOpeningClaim<F, EF>>,
    oracle_id: usize,
    codeword: Seq<F>,
)
    requires
        codeword.len() == shape.codeword_len(),
    ensures
        base_statement(shape, claims, oracle_id) matches Ok(statement) ==> (statement_holds(
            embedded::<F, EF>(codeword),
            statement,
        ) <==> forall|i: int|
            0 <= i < claims_about(claims, oracle_id).len() ==> base_claim_holds(
                codeword,
                #[trigger] claims_about(claims, oracle_id)[i],
            )),
{
    let about = claims_about(claims, oracle_id);
    let f = |c: RootIopOpeningClaim<F, EF>| base_query(shape, oracle_id, c);
    lemma_collected_ok(about, f);
    if let Ok(statement) = base_statement(shape, claims, oracle_id) {
        let e = embedded::<F, EF>(codeword);
        assert forall|i: int| 0 <= i < about.len() implies (query_holds(
            e,
            #[trigger] statement.queries[i],
        ) <==> base_claim_holds(codeword, about[i])) by {
            assert(f(about[i]) == Ok::<Query<EF>, NativeWarpWhirClaimCompileError>(
                statement.queries[i],
            ));
            let index = statement.queries[i]->index as int;
            let v = about[i].value->Base_0;
            if EF::embed(codeword[index]) == EF::embed(v) {
                EF::embed_is_injective(codeword[index], v);
            }
        }
        if statement_holds(e, statement) {
            assert forall|i: int| 0 <= i < about.len() implies base_claim_holds(
                codeword,
                #[trigger] about[i],
            ) by {
                assert(query_holds(e, statement.queries[i]));
            }
        }
        if forall|i: int| 0 <= i < about.len() ==> base_claim_holds(codeword, #[trigger] about[i]) {
            assert forall|i: int| 0 <= i < statement.queries.len() implies query_holds(
                e,
                #[trigger] statement.queries[i],
            ) by {
                assert(base_claim_holds(codeword, about[i]));
            }
        }
    }
}

/// The statement compiled for an extension-field oracle says what the claims
/// about the oracle say: it holds for the codeword exactly when every claim is
/// true of it.
pub proof fn extension_statement_is_faithful<F: TwoAdicField, EF: ExtensionField<F>>(
    shape: CodeShape,
    claims: Seq<RootIopOpeningClaim<F, EF>>,
    oracle_id: usize,
    codeword: Seq<EF>,
)
    ensures
        extension_statement(shape, claims, oracle_id) matches Ok(statement) ==> (statement_holds(
            codeword,
            statement,
        ) <==> forall|i: int|
            0 <= i < claims_about(claims, oracle_id).len() ==> extension_claim_holds(
                codeword,
                #[trigger] claims_about(claims, oracle_id)[i],
            )),
{
    let about = claims_about(claims, oracle_id);
    let f = |c: RootIopOpeningClaim<F, EF>| extension_query(shape, oracle_id, c);
    lemma_collected_ok(about, f);
    if let Ok(statement) = extension_statement(shape, claims, oracle_id) {
        assert forall|i: int| 0 <= i < about.len() implies (query_holds(
            codeword,
            #[trigger] statement.queries[i],
        ) <==> extension_claim_holds(codeword, about[i])) by {
            assert(f(about[i]) == Ok::<Query<EF>, NativeWarpWhirClaimCompileError>(
                statement.queries[i],
            ));
        }
        if statement_holds(codeword, statement) {
            assert forall|i: int| 0 <= i < about.len() implies extension_claim_holds(
                codeword,
                #[trigger] about[i],
            ) by {
                assert(query_holds(codeword, statement.queries[i]));
            }
        }
        if forall|i: int|
            0 <= i < about.len() ==> extension_claim_holds(codeword, #[trigger] about[i]) {
            assert forall|i: int| 0 <= i < statement.queries.len() implies query_holds(
                codeword,
                #[trigger] statement.queries[i],
            ) by {
                assert(extension_claim_holds(codeword, about[i]));
            }
        }
    }
}

/// A compiled statement has one query for each claim about the oracle.
pub proof fn lemma_query_count<F: TwoAdicField, EF: ExtensionField<F>>(
    shape: CodeShape,
    claims: Seq<RootIopOpeningClaim<F, EF>>,
    oracle_id: usize,
)
    ensures
        base_statement(shape, claims, oracle_id) matches Ok(s) ==> s.queries.len() == claims_about(
            claims,
            oracle_id,
        ).len(),
        extension_statement(shape, claims, oracle_id) matches Ok(s) ==> s.queries.len()
            == claims_about(claims, oracle_id).len(),
{
    let about = claims_about(claims, oracle_id);
    lemma_collected_ok(
        about,
        |c: RootIopOpeningClaim<F, EF>| base_query(shape, oracle_id, c),
    );
    lemma_collected_ok(
        about,
        |c: RootIopOpeningClaim<F, EF>| extension_query(shape, oracle_id, c),
    );
}

/// The number of claims about the given oracles.
pub open spec fn claim_count<F, EF>(
    claims: Seq<RootIopOpeningClaim<F, EF>>,
    ids: Seq<usize>,
) -> nat
    decreases ids.len(),
{
    if ids.len() == 0 {
        0
    } else {
        claim_count(claims, ids.drop_last()) + claims_about(claims, ids.last()).len()
    }
}

proof fn lemma_claim_count_step<F, EF>(claims: Seq<RootIopOpeningClaim<F, EF>>, ids: Seq<usize>)
    requires
        claims.len() > 0,
        ids.no_duplicates(),
    ensures
        claim_count(claims, ids) == claim_count(claims.drop_last(), ids) + if ids.contains(
            claims.last().oracle_id,
        ) {
            1nat
        } else {
            0nat
        },
    decreases ids.len(),
{
    if ids.len() > 0 {
        let rest = ids.drop_last();
        let id = claims.last().oracle_id;
        assert(rest.no_duplicates()) by {
            assert forall|i: int, j: int| 0 <= i < rest.len() && 0 <= j < rest.len() && i != j
                implies rest[i] != rest[j] by {
                assert(ids[i] != ids[j]);
            }
        }
        lemma_claim_count_step(claims, rest);
        let n = claims.len() - 1;
        lemma_claims_about_step(claims, ids.last(), n);
        assert(claims.take(n + 1) =~= claims);
        assert(claims.take(n) =~= claims.drop_last());
        if rest.contains(id) {
            let k = choose|k: int| 0 <= k < rest.len() && rest[k] == id;
            assert(ids[k] == id);
            assert(ids[ids.len() - 1] != ids[k]);
        }
        if ids.contains(id) && ids.last() != id {
            let k = choose|k: int| 0 <= k < ids.len() && ids[k] == id;
            assert(rest[k] == id);
        }
        if ids.last() == id {
            assert(ids[ids.len() - 1] == id);
        }
    }
}

/// Where the oracles are pairwise different and every claim is about one of
/// them, each claim is counted for exactly one oracle.
pub proof fn lemma_every_claim_counted_once<F, EF>(
    claims: Seq<RootIopOpeningClaim<F, EF>>,
    ids: Seq<usize>,
)
    requires
        ids.no_duplicates(),
        forall|i: int| 0 <= i < claims.len() ==> ids.contains((#[trigger] claims[i]).oracle_id),
    ensures
        claim_count(claims, ids) == claims.len(),
    decreases claims.len(),
{
    if claims.len() == 0 {
        lemma_no_claims_counted(claims, ids);
    } else {
        lemma_claim_count_step(claims, ids);
        assert forall|i: int| 0 <= i < claims.drop_last().len() implies ids.contains(
            (#[trigger] claims.drop_last()[i]).oracle_id,
        ) by {
            assert(claims[i] == claims.drop_last()[i]);
        }
        lemma_every_claim_counted_once(claims.drop_last(), ids);
        assert(ids.contains(claims[claims.len() - 1].oracle_id));
    }
}

proof fn lemma_no_claims_counted<F, EF>(claims: Seq<RootIopOpeningClaim<F, EF>>, ids: Seq<usize>)
    requires
        claims.len() == 0,
    ensures
        claim_count(claims, ids) == 0,
    decreases ids.len(),
{
    if ids.len() > 0 {
        lemma_no_claims_counted(claims, ids.drop_last());
        reveal(Seq::filter);
    }
}

} // verus!

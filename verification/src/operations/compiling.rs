//! What compiling claims gives.

use crate::claims::{
    base_query, base_statement, extension_query, extension_statement, CompactRootQuery,
    CompactStatement, NativeWarpCompactRootStatement, Query,
};
use crate::code::CodeShape;
use crate::collect::{lemma_collected_err, lemma_collected_ok};
use crate::error::NativeWarpWhirClaimCompileError;
use crate::field::{ExtensionField, TwoAdicField};
use crate::proof_system::NativeWarpWhirRootProofSystem;
use crate::root_iop::{
    claims_about, claims_include_oracle, RootIopOpeningClaim, RootIopOpeningPoint,
    RootIopOpeningValue,
};
use crate::transcript::{Challenger, Digest};
use vstd::arithmetic::power2::pow2;
use vstd::prelude::*;

verus! {

/// A claim that can be made about a base-field codeword: it has a base-field
/// value, and an index of either kind below the codeword length.
pub open spec fn base_claim_fits<F, EF>(
    shape: CodeShape,
    claim: RootIopOpeningClaim<F, EF>,
) -> bool {
    &&& claim.value is Base
    &&& match claim.point {
        RootIopOpeningPoint::Index(i) => i < pow2(
            (shape.log_msg_len + shape.log_inv_rate) as nat,
        ),
        RootIopOpeningPoint::RsCodewordIndex(i) => i < pow2(
            (shape.log_msg_len + shape.log_inv_rate) as nat,
        ),
        RootIopOpeningPoint::Mle(_) => false,
    }
}

/// A claim that can be made about an extension-field codeword: it has an
/// extension-field value, and an index of either kind below the codeword length
/// or a point with one coordinate for each variable of the codeword.
pub open spec fn extension_claim_fits<F, EF>(
    shape: CodeShape,
    claim: RootIopOpeningClaim<F, EF>,
) -> bool {
    &&& claim.value is Extension
    &&& match claim.point {
        RootIopOpeningPoint::Index(i) => i < pow2(
            (shape.log_msg_len + shape.log_inv_rate) as nat,
        ),
        RootIopOpeningPoint::RsCodewordIndex(i) => i < pow2(
            (shape.log_msg_len + shape.log_inv_rate) as nat,
        ),
        RootIopOpeningPoint::Mle(p) => p@.len() == shape.log_msg_len + shape.log_inv_rate,
    }
}

/// The query asks for what the claim is about, and claims its value.
pub open spec fn asks_for<F: TwoAdicField, EF: ExtensionField<F>>(
    query: Query<EF>,
    claim: RootIopOpeningClaim<F, EF>,
) -> bool {
    let claimed = match claim.value {
        RootIopOpeningValue::Base(v) => EF::embed(v),
        RootIopOpeningValue::Extension(v) => v,
    };
    match claim.point {
        RootIopOpeningPoint::Index(i) => query == (Query::Index { index: i, value: claimed }),
        RootIopOpeningPoint::RsCodewordIndex(i) => query == (Query::Index {
            index: i,
            value: claimed,
        }),
        RootIopOpeningPoint::Mle(p) => query == (Query::Mle { point: p@, value: claimed }),
    }
}

/// The statement has the number of variables of a message, and one query for
/// each of the given claims, in order.
pub open spec fn asks_for_all<F: TwoAdicField, EF: ExtensionField<F>>(
    shape: CodeShape,
    statement: CompactStatement<EF>,
    about: Seq<RootIopOpeningClaim<F, EF>>,
) -> bool {
    &&& statement.num_variables == shape.log_msg_len
    &&& statement.queries.len() == about.len()
    &&& forall|k: int|
        0 <= k < about.len() ==> asks_for(#[trigger] statement.queries[k], about[k])
}

/// The claims about one oracle make a statement exactly when there is one and
/// each can be made about a base-field codeword. The statement then asks for
/// what each of them is about, in order. Otherwise the first claim that cannot
/// be made is reported.
pub proof fn base_statement_asks_for_claims<F: TwoAdicField, EF: ExtensionField<F>>(
    shape: CodeShape,
    claims: Seq<RootIopOpeningClaim<F, EF>>,
    oracle_id: usize,
)
    ensures
        ({
            let about = claims.filter(|c: RootIopOpeningClaim<F, EF>| c.oracle_id == oracle_id);
            let r = base_statement(shape, claims, oracle_id);
            &&& r is Ok <==> (exists|i: int|
                0 <= i < claims.len() && (#[trigger] claims[i]).oracle_id == oracle_id) && (
            forall|i: int|
                0 <= i < claims.len() && (#[trigger] claims[i]).oracle_id == oracle_id
                    ==> base_claim_fits(shape, claims[i]))
            &&& r matches Ok(statement) ==> asks_for_all(shape, statement, about)
            &&& r matches Err(e) ==> if about.len() == 0 {
                e == NativeWarpWhirClaimCompileError::EmptyOracle(oracle_id)
            } else {
                exists|k: int|
                    0 <= k < about.len() && !base_claim_fits(shape, #[trigger] about[k]) && (
                    forall|j: int| 0 <= j < k ==> base_claim_fits(shape, #[trigger] about[j]))
                        && e == match (about[k].value, about[k].point) {
                        (RootIopOpeningValue::Extension(_), _) => {
                            NativeWarpWhirClaimCompileError::OracleFieldMismatch(oracle_id)
                        },
                        (_, RootIopOpeningPoint::Mle(_)) => {
                            NativeWarpWhirClaimCompileError::UnsupportedBaseMle(oracle_id)
                        },
                        (_, RootIopOpeningPoint::Index(index)) => {
                            NativeWarpWhirClaimCompileError::IndexOutOfBounds { oracle_id, index }
                        },
                        (_, RootIopOpeningPoint::RsCodewordIndex(index)) => {
                            NativeWarpWhirClaimCompileError::IndexOutOfBounds { oracle_id, index }
                        },
                    }
            }
        }),
{
    let pred = |c: RootIopOpeningClaim<F, EF>| c.oracle_id == oracle_id;
    let about = claims_about(claims, oracle_id);
    assert(about == claims.filter(pred));
    let f = |c: RootIopOpeningClaim<F, EF>| base_query(shape, oracle_id, c);
    let k = lemma_collected_err(about, f);
    lemma_collected_ok(about, f);
    lemma_filtered(claims, pred);
    assert forall|c: RootIopOpeningClaim<F, EF>| #[trigger] f(c) is Ok <==> base_claim_fits(
        shape,
        c,
    ) by {}
    match base_statement(shape, claims, oracle_id) {
        Ok(statement) => {
            assert forall|i: int| 0 <= i < about.len() implies base_claim_fits(
                shape,
                #[trigger] about[i],
            ) && asks_for(statement.queries[i], about[i]) by {
                assert(f(about[i]) == Ok::<Query<EF>, NativeWarpWhirClaimCompileError>(
                    statement.queries[i],
                ));
            }
        },
        Err(e) => {
            if about.len() > 0 {
                assert(!(f(about[k]) is Ok));
                assert forall|j: int| 0 <= j < k implies base_claim_fits(
                    shape,
                    #[trigger] about[j],
                ) by {
                    assert(f(about[j]) is Ok);
                }
                assert(!base_claim_fits(shape, about[k]));
            }
        },
    }
}

/// The claims about one oracle make a statement exactly when there is one and
/// each can be made about an extension-field codeword. The statement then asks
/// for what each of them is about, in order. Otherwise the first claim that
/// cannot be made is reported.
pub proof fn extension_statement_asks_for_claims<F: TwoAdicField, EF: ExtensionField<F>>(
    shape: CodeShape,
    claims: Seq<RootIopOpeningClaim<F, EF>>,
    oracle_id: usize,
)
    ensures
        ({
            let about = claims.filter(|c: RootIopOpeningClaim<F, EF>| c.oracle_id == oracle_id);
            let r = extension_statement(shape, claims, oracle_id);
            &&& r is Ok <==> (exists|i: int|
                0 <= i < claims.len() && (#[trigger] claims[i]).oracle_id == oracle_id) && (
            forall|i: int|
                0 <= i < claims.len() && (#[trigger] claims[i]).oracle_id == oracle_id
                    ==> extension_claim_fits(shape, claims[i]))
            &&& r matches Ok(statement) ==> asks_for_all(shape, statement, about)
            &&& r matches Err(e) ==> if about.len() == 0 {
                e == NativeWarpWhirClaimCompileError::EmptyOracle(oracle_id)
            } else {
                exists|k: int|
                    0 <= k < about.len() && !extension_claim_fits(shape, #[trigger] about[k]) && (
                    forall|j: int| 0 <= j < k ==> extension_claim_fits(shape, #[trigger] about[j]))
                        && e == match (about[k].value, about[k].point) {
                        (RootIopOpeningValue::Base(_), _) => {
                            NativeWarpWhirClaimCompileError::OracleFieldMismatch(oracle_id)
                        },
                        (_, RootIopOpeningPoint::Mle(_)) => {
                            NativeWarpWhirClaimCompileError::PointArityMismatch { oracle_id }
                        },
                        (_, RootIopOpeningPoint::Index(index)) => {
                            NativeWarpWhirClaimCompileError::IndexOutOfBounds { oracle_id, index }
                        },
                        (_, RootIopOpeningPoint::RsCodewordIndex(index)) => {
                            NativeWarpWhirClaimCompileError::IndexOutOfBounds { oracle_id, index }
                        },
                    }
            }
        }),
{
    let pred = |c: RootIopOpeningClaim<F, EF>| c.oracle_id == oracle_id;
    let about = claims_about(claims, oracle_id);
    assert(about == claims.filter(pred));
    let f = |c: RootIopOpeningClaim<F, EF>| extension_query(shape, oracle_id, c);
    let k = lemma_collected_err(about, f);
    lemma_collected_ok(about, f);
    lemma_filtered(claims, pred);
    assert forall|c: RootIopOpeningClaim<F, EF>| #[trigger] f(c) is Ok <==> extension_claim_fits(
        shape,
        c,
    ) by {}
    match extension_statement(shape, claims, oracle_id) {
        Ok(statement) => {
            assert forall|i: int| 0 <= i < about.len() implies extension_claim_fits(
                shape,
                #[trigger] about[i],
            ) && asks_for(statement.queries[i], about[i]) by {
                assert(f(about[i]) == Ok::<Query<EF>, NativeWarpWhirClaimCompileError>(
                    statement.queries[i],
                ));
            }
        },
        Err(e) => {
            if about.len() > 0 {
                assert(!(f(about[k]) is Ok));
                assert forall|j: int| 0 <= j < k implies extension_claim_fits(
                    shape,
                    #[trigger] about[j],
                ) by {
                    assert(f(about[j]) is Ok);
                }
                assert(!extension_claim_fits(shape, about[k]));
            }
        },
    }
}

/// What a filter keeps is what is there and passes.
pub proof fn lemma_filtered<T>(s: Seq<T>, pred: spec_fn(T) -> bool)
    ensures
        forall|i: int|
            0 <= i < s.filter(pred).len() ==> pred(#[trigger] s.filter(pred)[i]) && s.contains(
                s.filter(pred)[i],
            ),
        forall|i: int|
            0 <= i < s.len() && pred(#[trigger] s[i]) ==> exists|k: int|
                0 <= k < s.filter(pred).len() && #[trigger] s.filter(pred)[k] == s[i],
    decreases s.len(),
{
    reveal(Seq::filter);
    if s.len() > 0 {
        let n = s.len() - 1;
        let rest = s.drop_last();
        lemma_filtered(rest, pred);
        let (before, all) = (rest.filter(pred), s.filter(pred));
        assert forall|i: int| 0 <= i < all.len() implies pred(#[trigger] all[i]) && s.contains(
            all[i],
        ) by {
            if i < before.len() {
                assert(all[i] == before[i]);
                let k = choose|k: int| 0 <= k < rest.len() && rest[k] == before[i];
                assert(s[k] == all[i]);
            } else {
                assert(s[n] == all[i]);
            }
        }
        assert forall|i: int| 0 <= i < s.len() && pred(#[trigger] s[i]) implies exists|k: int|
            0 <= k < all.len() && #[trigger] all[k] == s[i] by {
            if i < n {
                assert(rest[i] == s[i]);
                let k = choose|k: int| 0 <= k < before.len() && #[trigger] before[k] == rest[i];
                assert(all[k] == s[i]);
            } else {
                assert(all[all.len() - 1] == s[i]);
            }
        }
    }
}

/// Compiling the claims about a base-field oracle: it succeeds exactly when some
/// claim is about the oracle and each of these can be made about its codeword.
/// The statement then asks for what each of them is about, in their order, and
/// for nothing else.
pub proof fn base_claims_compile<
    'a,
    F: TwoAdicField,
    EF: ExtensionField<F>,
    D: Digest,
    C: Challenger<F, EF, D>,
>(
    system: NativeWarpWhirRootProofSystem<'a, F, EF, D, C>,
    claims: Vec<RootIopOpeningClaim<F, EF>>,
    oracle_id: usize,
    r: Result<NativeWarpCompactRootStatement<EF>, NativeWarpWhirClaimCompileError>,
)
    requires
        call_ensures(
            NativeWarpWhirRootProofSystem::<
                'a,
                F,
                EF,
                D,
                C,
            >::compact_base_message_claim_statement,
            (&system, &claims, oracle_id),
            r,
        ),
    ensures
        ({
            let about = claims@.filter(|c: RootIopOpeningClaim<F, EF>| c.oracle_id == oracle_id);
            &&& r is Ok <==> (exists|i: int|
                0 <= i < claims@.len() && (#[trigger] claims@[i]).oracle_id == oracle_id) && (
            forall|i: int|
                0 <= i < claims@.len() && (#[trigger] claims@[i]).oracle_id == oracle_id
                    ==> base_claim_fits(system.shape(), claims@[i]))
            &&& r matches Ok(statement) ==> asks_for_all(system.shape(), statement@, about)
            &&& r matches Err(e) ==> if about.len() == 0 {
                e == NativeWarpWhirClaimCompileError::EmptyOracle(oracle_id)
            } else {
                exists|k: int|
                    0 <= k < about.len() && !base_claim_fits(
                        system.shape(),
                        #[trigger] about[k],
                    ) && (forall|j: int|
                        0 <= j < k ==> base_claim_fits(system.shape(), #[trigger] about[j]))
                        && e == match (about[k].value, about[k].point) {
                        (RootIopOpeningValue::Extension(_), _) => {
                            NativeWarpWhirClaimCompileError::OracleFieldMismatch(oracle_id)
                        },
                        (_, RootIopOpeningPoint::Mle(_)) => {
                            NativeWarpWhirClaimCompileError::UnsupportedBaseMle(oracle_id)
                        },
                        (_, RootIopOpeningPoint::Index(index)) => {
                            NativeWarpWhirClaimCompileError::IndexOutOfBounds { oracle_id, index }
                        },
                        (_, RootIopOpeningPoint::RsCodewordIndex(index)) => {
                            NativeWarpWhirClaimCompileError::IndexOutOfBounds { oracle_id, index }
                        },
                    }
            }
        }),
{
    base_statement_asks_for_claims(system.shape(), claims@, oracle_id);
}

/// Compiling the claims about an extension-field oracle: it succeeds exactly when some
/// claim is about the oracle and each of these can be made about its codeword.
/// The statement then asks for what each of them is about, in their order, and
/// for nothing else.
pub proof fn extension_claims_compile<
    'a,
    F: TwoAdicField,
    EF: ExtensionField<F>,
    D: Digest,
    C: Challenger<F, EF, D>,
>(
    system: NativeWarpWhirRootProofSystem<'a, F, EF, D, C>,
    claims: Vec<RootIopOpeningClaim<F, EF>>,
    oracle_id: usize,
    r: Result<NativeWarpCompactRootStatement<EF>, NativeWarpWhirClaimCompileError>,
)
    requires
        call_ensures(
            NativeWarpWhirRootProofSystem::<
                'a,
                F,
                EF,
                D,
                C,
            >::compact_extension_message_claim_statement,
            (&system, &claims, oracle_id),
            r,
        ),
    ensures
        ({
            let about = claims@.filter(|c: RootIopOpeningClaim<F, EF>| c.oracle_id == oracle_id);
            &&& r is Ok <==> (exists|i: int|
                0 <= i < claims@.len() && (#[trigger] claims@[i]).oracle_id == oracle_id) && (
            forall|i: int|
                0 <= i < claims@.len() && (#[trigger] claims@[i]).oracle_id == oracle_id
                    ==> extension_claim_fits(system.shape(), claims@[i]))
            &&& r matches Ok(statement) ==> asks_for_all(system.shape(), statement@, about)
            &&& r matches Err(e) ==> if about.len() == 0 {
                e == NativeWarpWhirClaimCompileError::EmptyOracle(oracle_id)
            } else {
                exists|k: int|
                    0 <= k < about.len() && !extension_claim_fits(
                        system.shape(),
                        #[trigger] about[k],
                    ) && (forall|j: int|
                        0 <= j < k ==> extension_claim_fits(system.shape(), #[trigger] about[j]))
                        && e == match (about[k].value, about[k].point) {
                        (RootIopOpeningValue::Base(_), _) => {
                            NativeWarpWhirClaimCompileError::OracleFieldMismatch(oracle_id)
                        },
                        (_, RootIopOpeningPoint::Mle(_)) => {
                            NativeWarpWhirClaimCompileError::PointArityMismatch { oracle_id }
                        },
                        (_, RootIopOpeningPoint::Index(index)) => {
                            NativeWarpWhirClaimCompileError::IndexOutOfBounds { oracle_id, index }
                        },
                        (_, RootIopOpeningPoint::RsCodewordIndex(index)) => {
                            NativeWarpWhirClaimCompileError::IndexOutOfBounds { oracle_id, index }
                        },
                    }
            }
        }),
{
    extension_statement_asks_for_claims(system.shape(), claims@, oracle_id);
}

/// What is read off a statement is what it holds: the number of variables, and
/// every query with its index or point and its value.
pub proof fn statements_hold_their_queries<EF: Copy>(
    statement: NativeWarpCompactRootStatement<EF>,
    num_variables: usize,
    queries: &Vec<CompactRootQuery<EF>>,
    empty: bool,
)
    requires
        call_ensures(
            NativeWarpCompactRootStatement::<EF>::num_variables,
            (&statement,),
            num_variables,
        ),
        call_ensures(NativeWarpCompactRootStatement::<EF>::queries, (&statement,), queries),
        call_ensures(NativeWarpCompactRootStatement::<EF>::is_empty, (&statement,), empty),
    ensures
        num_variables == statement@.num_variables,
        queries@.len() == statement@.queries.len(),
        empty <==> queries@.len() == 0,
        forall|k: int|
            0 <= k < queries@.len() ==> match #[trigger] queries@[k] {
                CompactRootQuery::Index { index, value } => statement@.queries[k] == (
                Query::Index { index, value }),
                CompactRootQuery::Mle { point, value } => statement@.queries[k] == (Query::Mle {
                    point: point@,
                    value,
                }),
            },
{
    assert forall|k: int| 0 <= k < queries@.len() implies statement@.queries[k] == (
    #[trigger] queries@[k])@ by {}
}

/// A statement starts without queries, and a query is added behind the others.
pub proof fn statements_grow_at_the_end<EF: Copy>(
    num_variables: usize,
    started: NativeWarpCompactRootStatement<EF>,
    with_index: &mut NativeWarpCompactRootStatement<EF>,
    index: usize,
    with_point: &mut NativeWarpCompactRootStatement<EF>,
    point: Vec<EF>,
    value: EF,
)
    requires
        call_ensures(
            NativeWarpCompactRootStatement::<EF>::initialize,
            (num_variables,),
            started,
        ),
        call_ensures(
            NativeWarpCompactRootStatement::<EF>::add_index,
            (with_index, index, value),
            (),
        ),
        call_ensures(
            NativeWarpCompactRootStatement::<EF>::add_mle,
            (with_point, point, value),
            (),
        ),
    ensures
        started@.num_variables == num_variables && started@.queries.len() == 0,
        final(with_index)@.num_variables == old(with_index)@.num_variables,
        final(with_index)@.queries == old(with_index)@.queries.push(Query::Index { index, value }),
        final(with_point)@.num_variables == old(with_point)@.num_variables,
        final(with_point)@.queries == old(with_point)@.queries.push(
            Query::Mle { point: point@, value },
        ),
{
}

/// An oracle is one that claims are about exactly when some claim names it.
pub proof fn claimed_oracles_are_named<F, EF>(
    claims: Vec<RootIopOpeningClaim<F, EF>>,
    oracle_id: usize,
    r: bool,
)
    requires
        call_ensures(claims_include_oracle::<F, EF>, (&claims, oracle_id), r),
    ensures
        r <==> exists|i: int|
            0 <= i < claims@.len() && (#[trigger] claims@[i]).oracle_id == oracle_id,
{
}

} // verus!

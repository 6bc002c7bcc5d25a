//! What the checks on bound oracles and claims report.

use crate::code::{base_generators, extension_generators, ReedSolomonCode};
use crate::compiler::{
    bound_commitments, distinct_ids, known_oracles, public_ids, NativeWarpWhirCompiler,
};
use crate::error::{NativeWarpWhirRootProofError, NativeWarpWhirRootReductionError};
use crate::field::{ExtensionField, TwoAdicField};
use crate::params::WhirConfig;
use crate::proof_system::NativeWarpWhirRootProofSystem;
use crate::root_iop::{
    RootIopBoundCommitment, RootIopOpeningClaim, RootIopOracleField, RootIopOracleValues,
};
use crate::transcript::{Challenger, Digest};
use vstd::arithmetic::power2::pow2;
use vstd::prelude::*;

verus! {

/// The identifier at `j` stands there for the second time, and no identifier
/// before it does.
pub open spec fn first_repeated(ids: Seq<usize>, j: int) -> bool {
    &&& 0 <= j < ids.len()
    &&& exists|i: int| 0 <= i < j && #[trigger] ids[i] == ids[j]
    &&& forall|i: int, l: int|
        #![trigger ids[i], ids[l]]
        0 <= i < l < j ==> ids[i] != ids[l]
}

/// The claim at `k` is about an oracle that is not given, and no claim before it
/// is.
pub open spec fn first_unknown<F, EF>(
    ids: Seq<usize>,
    claims: Seq<RootIopOpeningClaim<F, EF>>,
    k: int,
) -> bool {
    &&& 0 <= k < claims.len()
    &&& !ids.contains(claims[k].oracle_id)
    &&& forall|i: int| 0 <= i < k ==> ids.contains((#[trigger] claims[i]).oracle_id)
}

/// Identifiers pass exactly when they are pairwise different, and otherwise the
/// first that is repeated is reported.
pub proof fn the_first_repeated_identifier_is_reported(ids: Seq<usize>)
    ensures
        match distinct_ids(ids) {
            Ok(()) => forall|i: int, j: int|
                #![trigger ids[i], ids[j]]
                0 <= i < j < ids.len() ==> ids[i] != ids[j],
            Err(e) => exists|j: int| #[trigger]
                first_repeated(ids, j) && e
                    == NativeWarpWhirRootReductionError::DuplicateOracle(ids[j]),
        },
    decreases ids.len(),
{
    if ids.len() > 0 {
        let rest = ids.drop_last();
        let n = ids.len() - 1;
        the_first_repeated_identifier_is_reported(rest);
        assert(forall|i: int| 0 <= i < n ==> #[trigger] ids[i] == rest[i]);
        assert(forall|i: int| 0 <= i < n ==> #[trigger] rest[i] == ids[i]);
        if let Err(e) = distinct_ids(rest) {
            let j = choose|j: int| #[trigger]
                first_repeated(rest, j) && e
                    == NativeWarpWhirRootReductionError::DuplicateOracle(rest[j]);
            let i = choose|i: int| 0 <= i < j && #[trigger] rest[i] == rest[j];
            assert(ids[i] == ids[j]);
            assert(first_repeated(ids, j));
        } else if rest.contains(ids.last()) {
            let i = choose|i: int| 0 <= i < rest.len() && rest[i] == ids.last();
            assert(ids[i] == ids[n]);
            assert(first_repeated(ids, n));
        } else {
            assert forall|i: int, j: int|
                #![trigger ids[i], ids[j]]
                0 <= i < j < ids.len() implies ids[i] != ids[j] by {
                if j == n {
                    assert(rest[i] == ids[i]);
                }
            }
        }
    }
}

/// Claims pass exactly when each is about a given oracle, and otherwise the
/// first that is not is reported.
pub proof fn the_first_unknown_oracle_is_reported<F, EF>(
    ids: Seq<usize>,
    claims: Seq<RootIopOpeningClaim<F, EF>>,
)
    ensures
        match known_oracles(ids, claims) {
            Ok(()) => forall|i: int|
                0 <= i < claims.len() ==> ids.contains((#[trigger] claims[i]).oracle_id),
            Err(e) => exists|k: int| #[trigger]
                first_unknown(ids, claims, k) && e
                    == NativeWarpWhirRootReductionError::UnknownOracle(claims[k].oracle_id),
        },
    decreases claims.len(),
{
    if claims.len() > 0 {
        let rest = claims.drop_last();
        let n = claims.len() - 1;
        the_first_unknown_oracle_is_reported(ids, rest);
        assert(forall|i: int| 0 <= i < n ==> #[trigger] claims[i] == rest[i]);
        assert(forall|i: int| 0 <= i < n ==> #[trigger] rest[i] == claims[i]);
        if let Err(e) = known_oracles(ids, rest) {
            let k = choose|k: int| #[trigger]
                first_unknown(ids, rest, k) && e
                    == NativeWarpWhirRootReductionError::UnknownOracle(rest[k].oracle_id);
            assert(first_unknown(ids, claims, k));
        } else if !ids.contains(claims.last().oracle_id) {
            assert(first_unknown(ids, claims, n));
        }
    }
}

/// The checks of bound oracles and of public commitments: identifiers pass
/// exactly when they are pairwise different, and claims exactly when each is
/// about an oracle that is there. Otherwise the first that does not pass is
/// reported.
pub proof fn identifiers_are_checked<'a, F: TwoAdicField, EF, Comm>(
    compiler: NativeWarpWhirCompiler<'a, F>,
    oracles: Vec<(RootIopBoundCommitment<Comm>, RootIopOracleValues<F, EF>)>,
    commitments: Vec<RootIopBoundCommitment<Comm>>,
    claims: Vec<RootIopOpeningClaim<F, EF>>,
    unique_bound: Result<(), NativeWarpWhirRootReductionError>,
    unique_public: Result<(), NativeWarpWhirRootReductionError>,
    known_bound: Result<(), NativeWarpWhirRootReductionError>,
    known_public: Result<(), NativeWarpWhirRootReductionError>,
)
    requires
        call_ensures(
            NativeWarpWhirCompiler::<'a, F>::check_unique_bound_oracle_ids::<EF, Comm>,
            (&compiler, &oracles),
            unique_bound,
        ),
        call_ensures(
            NativeWarpWhirCompiler::<'a, F>::check_unique_public_oracle_ids::<Comm>,
            (&compiler, &commitments),
            unique_public,
        ),
        call_ensures(
            NativeWarpWhirCompiler::<'a, F>::check_claim_oracles_bound::<EF, Comm>,
            (&compiler, &oracles, &claims),
            known_bound,
        ),
        call_ensures(
            NativeWarpWhirCompiler::<'a, F>::check_claim_oracles_public::<EF, Comm>,
            (&compiler, &commitments, &claims),
            known_public,
        ),
    ensures
        ({
            let bound = Seq::new(oracles@.len(), |i: int| oracles@[i].0.oracle_id);
            let public = Seq::new(commitments@.len(), |i: int| commitments@[i].oracle_id);
            &&& passes_unique(bound, unique_bound)
            &&& passes_unique(public, unique_public)
            &&& passes_known(bound, claims@, known_bound)
            &&& passes_known(public, claims@, known_public)
        }),
{
    let bound = Seq::new(oracles@.len(), |i: int| oracles@[i].0.oracle_id);
    let public = Seq::new(commitments@.len(), |i: int| commitments@[i].oracle_id);
    assert(public_ids(bound_commitments(oracles@)) =~= bound);
    assert(public_ids(commitments@) =~= public);
    the_first_repeated_identifier_is_reported(bound);
    the_first_repeated_identifier_is_reported(public);
    the_first_unknown_oracle_is_reported(bound, claims@);
    the_first_unknown_oracle_is_reported(public, claims@);
}

/// The result of a check that identifiers are pairwise different.
pub open spec fn passes_unique(
    ids: Seq<usize>,
    r: Result<(), NativeWarpWhirRootReductionError>,
) -> bool {
    match r {
        Ok(()) => forall|i: int, j: int|
            #![trigger ids[i], ids[j]]
            0 <= i < j < ids.len() ==> ids[i] != ids[j],
        Err(e) => exists|j: int| #[trigger]
            first_repeated(ids, j) && e == NativeWarpWhirRootReductionError::DuplicateOracle(
                ids[j],
            ),
    }
}

/// The result of a check that every claim is about one of the oracles.
pub open spec fn passes_known<F, EF>(
    ids: Seq<usize>,
    claims: Seq<RootIopOpeningClaim<F, EF>>,
    r: Result<(), NativeWarpWhirRootReductionError>,
) -> bool {
    match r {
        Ok(()) => forall|i: int|
            0 <= i < claims.len() ==> ids.contains((#[trigger] claims[i]).oracle_id),
        Err(e) => exists|k: int| #[trigger]
            first_unknown(ids, claims, k) && e == NativeWarpWhirRootReductionError::UnknownOracle(
                claims[k].oracle_id,
            ),
    }
}

/// A bound oracle passes exactly when it has the length of a codeword and its
/// table, where it is given, is over the bound field and has that length too.
/// The length is looked at first, then the field, then the table.
pub proof fn bound_oracles_are_checked<'a, F: TwoAdicField, EF, Comm>(
    compiler: NativeWarpWhirCompiler<'a, F>,
    commitment: RootIopBoundCommitment<Comm>,
    values: Option<&RootIopOracleValues<F, EF>>,
    r: Result<(), NativeWarpWhirRootReductionError>,
)
    requires
        pow2((compiler.shape().log_msg_len + compiler.shape().log_inv_rate) as nat) <= usize::MAX,
        compiler.shape().log_msg_len + compiler.shape().log_inv_rate <= usize::MAX,
        call_ensures(
            NativeWarpWhirCompiler::<'a, F>::check_bound_oracle_shape::<EF, Comm>,
            (&compiler, &commitment, values),
            r,
        ),
    ensures
        ({
            let log_len = compiler.shape().log_msg_len + compiler.shape().log_inv_rate;
            let id = commitment.oracle_id;
            let (field, len) = match values {
                Some(RootIopOracleValues::Base(t)) => (RootIopOracleField::Base, t@.len()),
                Some(RootIopOracleValues::Extension(t)) => (
                    RootIopOracleField::Extension,
                    t@.len(),
                ),
                None => (commitment.field, pow2(log_len as nat)),
            };
            if commitment.log_len != log_len {
                r matches Err(
                    NativeWarpWhirRootReductionError::OracleLogLengthMismatch {
                        oracle_id,
                        expected,
                        actual,
                    },
                ) && oracle_id == id && expected == log_len && actual == commitment.log_len
            } else if commitment.field != field {
                r matches Err(NativeWarpWhirRootReductionError::OracleValueFieldMismatch(oracle_id))
                    && oracle_id == id
            } else if len != pow2(log_len as nat) {
                r matches Err(
                    NativeWarpWhirRootReductionError::OracleValueLengthMismatch {
                        oracle_id,
                        expected,
                        actual,
                    },
                ) && oracle_id == id && expected == pow2(log_len as nat) && actual == len
            } else {
                r is Ok
            }
        }),
{
    match values {
        Some(RootIopOracleValues::Base(t)) => {
            assert(t.len() == t@.len());
        },
        Some(RootIopOracleValues::Extension(t)) => {
            assert(t.len() == t@.len());
        },
        None => {},
    }
}

/// A codeword passes exactly when it is the encoding of the message.
pub proof fn codewords_are_checked_against_messages<
    'a,
    F: TwoAdicField,
    EF: ExtensionField<F>,
    D: Digest,
    C: Challenger<F, EF, D>,
    E,
>(
    system: NativeWarpWhirRootProofSystem<'a, F, EF, D, C>,
    oracle_id: usize,
    codeword: Vec<F>,
    message: Vec<F>,
    r: Result<(), NativeWarpWhirRootProofError<E>>,
    extension_codeword: Vec<EF>,
    extension_message: Vec<EF>,
    extension_r: Result<(), NativeWarpWhirRootProofError<E>>,
)
    requires
        call_ensures(
            NativeWarpWhirRootProofSystem::<
                'a,
                F,
                EF,
                D,
                C,
            >::ensure_base_codeword_matches_message::<E>,
            (&system, oracle_id, &codeword, &message),
            r,
        ),
        call_ensures(
            NativeWarpWhirRootProofSystem::<
                'a,
                F,
                EF,
                D,
                C,
            >::ensure_extension_codeword_matches_message::<E>,
            (&system, oracle_id, &extension_codeword, &extension_message),
            extension_r,
        ),
    ensures
        r is Ok <==> codeword@ == system.shape().encoding(base_generators::<F>(), message@),
        r matches Err(e) ==> e matches NativeWarpWhirRootProofError::Reduction(
            NativeWarpWhirRootReductionError::EncodingMismatch { oracle_id: id },
        ) && id == oracle_id,
        extension_r is Ok <==> extension_codeword@ == system.shape().encoding(
            extension_generators::<F, EF>(),
            extension_message@,
        ),
        extension_r matches Err(e) ==> e matches NativeWarpWhirRootProofError::Reduction(
            NativeWarpWhirRootReductionError::EncodingMismatch { oracle_id: id },
        ) && id == oracle_id,
{
}

/// A proof system is made for the code, the parameters and the seed that it is
/// given, and a compiler for its code.
pub proof fn systems_are_made_for_their_code<
    'a,
    F: TwoAdicField,
    EF: ExtensionField<F>,
    D: Digest,
    C: Challenger<F, EF, D>,
>(
    config: WhirConfig,
    code: ReedSolomonCode<F>,
    seed: C,
    system: NativeWarpWhirRootProofSystem<'a, F, EF, D, C>,
    lent: &WhirConfig,
    compiler: NativeWarpWhirCompiler<'a, F>,
    lent_code: &ReedSolomonCode<F>,
)
    requires
        call_ensures(
            NativeWarpWhirRootProofSystem::<'a, F, EF, D, C>::new,
            (&config, &code, seed),
            system,
        ),
        call_ensures(
            NativeWarpWhirRootProofSystem::<'a, F, EF, D, C>::message_pcs,
            (&system,),
            lent,
        ),
        call_ensures(NativeWarpWhirCompiler::<'a, F>::new, (&code,), compiler),
        call_ensures(NativeWarpWhirCompiler::<'a, F>::code, (&compiler,), lent_code),
    ensures
        system.shape() == code.shape(),
        system.seed() == seed.history(),
        *lent == config,
        compiler.shape() == code.shape(),
        lent_code.shape() == code.shape(),
{
}

} // verus!

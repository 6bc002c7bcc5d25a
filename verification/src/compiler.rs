//! The compiler from recorded evaluation claims to linear queries on one
//! Reed-Solomon codeword.

use crate::code::{CodeShape, ReedSolomonCode};
use crate::error::NativeWarpWhirRootReductionError;
use crate::field::{ExtensionField, TwoAdicField};
use crate::multilinear::{eq_table, lifted};
use crate::root_iop::{
    RootIopBoundCommitment, RootIopOpeningClaim, RootIopOracleField, RootIopOracleValues,
};
use crate::statement::{
    copied_point, lemma_single_constraint, EqStatement, LinearSigmaConstraint, LinearSigmaStatement,
    NativeWarpWhirEvalClaim, NativeWarpWhirOracleStatement,
};
use vstd::prelude::*;

verus! {

/// The identifiers are pairwise different; if not, the first one that was
/// there before is reported.
pub open spec fn distinct_ids(ids: Seq<usize>) -> Result<(), NativeWarpWhirRootReductionError>
    decreases ids.len(),
{
    if ids.len() == 0 {
        Ok(())
    } else if distinct_ids(ids.drop_last()) is Err {
        distinct_ids(ids.drop_last())
    } else if ids.drop_last().contains(ids.last()) {
        Err(NativeWarpWhirRootReductionError::DuplicateOracle(ids.last()))
    } else {
        Ok(())
    }
}

/// Every claim is about one of the given oracles; if not, the first other
/// oracle is reported.
pub open spec fn known_oracles<F, EF>(
    ids: Seq<usize>,
    claims: Seq<RootIopOpeningClaim<F, EF>>,
) -> Result<(), NativeWarpWhirRootReductionError>
    decreases claims.len(),
{
    if claims.len() == 0 {
        Ok(())
    } else if known_oracles(ids, claims.drop_last()) is Err {
        known_oracles(ids, claims.drop_last())
    } else if ids.contains(claims.last().oracle_id) {
        Ok(())
    } else {
        Err(NativeWarpWhirRootReductionError::UnknownOracle(claims.last().oracle_id))
    }
}

pub proof fn lemma_distinct_ids_prefix(ids: Seq<usize>, n: int)
    requires
        0 <= n <= ids.len(),
    ensures
        distinct_ids(ids.take(n)) is Err ==> distinct_ids(ids) == distinct_ids(ids.take(n)),
    decreases ids.len(),
{
    if n == ids.len() {
        assert(ids.take(n) =~= ids);
    } else {
        lemma_distinct_ids_prefix(ids.drop_last(), n);
        assert(ids.drop_last().take(n) =~= ids.take(n));
    }
}

pub proof fn lemma_known_oracles_prefix<F, EF>(
    ids: Seq<usize>,
    claims: Seq<RootIopOpeningClaim<F, EF>>,
    n: int,
)
    requires
        0 <= n <= claims.len(),
    ensures
        known_oracles(ids, claims.take(n)) is Err ==> known_oracles(ids, claims) == known_oracles(
            ids,
            claims.take(n),
        ),
    decreases claims.len(),
{
    if n == claims.len() {
        assert(claims.take(n) =~= claims);
    } else {
        lemma_known_oracles_prefix(ids, claims.drop_last(), n);
        assert(claims.drop_last().take(n) =~= claims.take(n));
    }
}

/// The identifiers pass exactly when none occurs twice, and what is reported
/// otherwise is the identifier of an oracle that does.
pub proof fn distinct_ids_means_no_duplicates(ids: Seq<usize>)
    ensures
        distinct_ids(ids) is Ok <==> ids.no_duplicates(),
        distinct_ids(ids) matches Err(e) ==> exists|i: int, j: int|
            0 <= i < j < ids.len() && #[trigger] ids[i] == #[trigger] ids[j] && e
                == NativeWarpWhirRootReductionError::DuplicateOracle(ids[j]),
    decreases ids.len(),
{
    if ids.len() > 0 {
        let rest = ids.drop_last();
        distinct_ids_means_no_duplicates(rest);
        if rest.contains(ids.last()) {
            let i = choose|i: int| 0 <= i < rest.len() && rest[i] == ids.last();
            assert(ids[i] == ids[ids.len() - 1]);
        }
        if distinct_ids(rest) is Err {
            let e = distinct_ids(rest)->Err_0;
            let (i, j) = choose|i: int, j: int|
                0 <= i < j < rest.len() && #[trigger] rest[i] == #[trigger] rest[j] && e
                    == NativeWarpWhirRootReductionError::DuplicateOracle(rest[j]);
            assert(ids[i] == ids[j]);
        }
        if ids.no_duplicates() {
            assert forall|i: int, j: int| 0 <= i < rest.len() && 0 <= j < rest.len() && i != j
                implies rest[i] != rest[j] by {
                assert(ids[i] != ids[j]);
            }
        } else if distinct_ids(ids) is Ok {
            let (i, j) = choose|i: int, j: int|
                0 <= i < ids.len() && 0 <= j < ids.len() && i != j && ids[i] == ids[j];
            if i < rest.len() && j < rest.len() {
                assert(rest[i] == rest[j]);
            } else if i < rest.len() {
                assert(rest[i] == ids.last());
            } else {
                assert(rest[j] == ids.last());
            }
        }
    }
}

/// The claims pass exactly when each is about a given oracle, and what is
/// reported otherwise is an oracle that a claim is about and that is not given.
pub proof fn known_oracles_means_all_given<F, EF>(
    ids: Seq<usize>,
    claims: Seq<RootIopOpeningClaim<F, EF>>,
)
    ensures
        known_oracles(ids, claims) is Ok <==> forall|i: int|
            0 <= i < claims.len() ==> ids.contains((#[trigger] claims[i]).oracle_id),
        known_oracles(ids, claims) matches Err(e) ==> exists|i: int|
            0 <= i < claims.len() && !ids.contains((#[trigger] claims[i]).oracle_id) && e
                == NativeWarpWhirRootReductionError::UnknownOracle(claims[i].oracle_id),
    decreases claims.len(),
{
    if claims.len() > 0 {
        let rest = claims.drop_last();
        known_oracles_means_all_given(ids, rest);
        if known_oracles(ids, rest) is Err {
            let e = known_oracles(ids, rest)->Err_0;
            let i = choose|i: int|
                0 <= i < rest.len() && !ids.contains((#[trigger] rest[i]).oracle_id) && e
                    == NativeWarpWhirRootReductionError::UnknownOracle(rest[i].oracle_id);
            assert(claims[i] == rest[i]);
        } else {
            assert forall|i: int| 0 <= i < rest.len() implies ids.contains(
                (#[trigger] claims[i]).oracle_id,
            ) by {
                assert(rest[i] == claims[i]);
            }
            assert(claims[claims.len() - 1] == claims.last());
        }
    }
}

/// The identifiers of commitments.
pub open spec fn public_ids<Comm>(commitments: Seq<RootIopBoundCommitment<Comm>>) -> Seq<usize> {
    Seq::new(commitments.len(), |i: int| commitments[i].oracle_id)
}

/// The commitments of bound oracles.
pub open spec fn bound_commitments<F, EF, Comm>(
    oracles: Seq<(RootIopBoundCommitment<Comm>, RootIopOracleValues<F, EF>)>,
) -> Seq<RootIopBoundCommitment<Comm>> {
    Seq::new(oracles.len(), |i: int| oracles[i].0)
}

/// The field of a table.
pub open spec fn table_field<F, EF>(values: RootIopOracleValues<F, EF>) -> RootIopOracleField {
    match values {
        RootIopOracleValues::Base(_) => RootIopOracleField::Base,
        RootIopOracleValues::Extension(_) => RootIopOracleField::Extension,
    }
}

/// The length of a table.
pub open spec fn table_len<F, EF>(values: RootIopOracleValues<F, EF>) -> nat {
    match values {
        RootIopOracleValues::Base(v) => v@.len(),
        RootIopOracleValues::Extension(v) => v@.len(),
    }
}

/// The bound oracle has the length of a codeword, and its table, where it is
/// given, is over the bound field and has that length too.
pub open spec fn oracle_shape<F, EF, Comm>(
    shape: CodeShape,
    commitment: RootIopBoundCommitment<Comm>,
    values: Option<RootIopOracleValues<F, EF>>,
) -> Result<(), NativeWarpWhirRootReductionError> {
    let oracle_id = commitment.oracle_id;
    if commitment.log_len != shape.log_codeword_len() {
        Err(
            NativeWarpWhirRootReductionError::OracleLogLengthMismatch {
                oracle_id,
                expected: shape.log_codeword_len() as usize,
                actual: commitment.log_len,
            },
        )
    } else {
        match values {
            None => Ok(()),
            Some(v) => if commitment.field != table_field(v) {
                Err(NativeWarpWhirRootReductionError::OracleValueFieldMismatch(oracle_id))
            } else if table_len(v) != shape.codeword_len() {
                Err(
                    NativeWarpWhirRootReductionError::OracleValueLengthMismatch {
                        oracle_id,
                        expected: shape.codeword_len() as usize,
                        actual: table_len(v) as usize,
                    },
                )
            } else {
                Ok(())
            },
        }
    }
}

/// The value behind an optional reference.
pub open spec fn referenced<T>(x: Option<&T>) -> Option<T> {
    match x {
        Some(v) => Some(*v),
        None => None,
    }
}

/// Compiles the claims of one code.
#[derive(Debug)]
pub struct NativeWarpWhirCompiler<'a, F: TwoAdicField> {
    code: &'a ReedSolomonCode<F>,
}

impl<'a, F: TwoAdicField> NativeWarpWhirCompiler<'a, F> {
    /// The dimensions and the layout of the code.
    pub closed spec fn shape(self) -> CodeShape {
        self.code.shape()
    }

    /// A compiler for one code.
    pub fn new(code: &'a ReedSolomonCode<F>) -> (r: Self)
        ensures
            r.shape() == code.shape(),
    {
        NativeWarpWhirCompiler { code }
    }

    /// The code that this compiler targets.
    pub fn code(&self) -> (r: &'a ReedSolomonCode<F>)
        ensures
            r.shape() == self.shape(),
    {
        self.code
    }

    /// Converts a claim that the folded codeword takes a value at a point into
    /// a linear constraint on the codeword: `f(z) = v` is
    /// `sum_b eq(z, b) * f(b) = v`.
    pub fn eval_claim_constraint<EF: ExtensionField<F>>(
        &self,
        claim: &NativeWarpWhirEvalClaim<EF>,
    ) -> (r: LinearSigmaConstraint<EF>)
        requires
            claim.point@.len() == self.shape().log_codeword_len(),
        ensures
            r.weights@ == eq_table(claim.point@),
            r.value == claim.value,
    {
        let log_len: usize = self.code.log_codeword_len();
        let value = claim.value.canonical();
        let mut eq: EqStatement<EF> = EqStatement::initialize(log_len);
        eq.add_evaluated_constraint(copied_point(&claim.point), value);
        let r = LinearSigmaConstraint::from_eq_statement::<F>(&eq, EF::one());
        proof {
            assert(eq@.constraints =~= seq![(claim.point@, value)]);
            lemma_single_constraint(claim.point@, value);
            assert(r.weights@ =~= eq_table(claim.point@));
        }
        r
    }

    /// Converts several claims into separate constraints, in order.
    pub fn eval_claim_statement<EF: ExtensionField<F>>(
        &self,
        claims: &Vec<NativeWarpWhirEvalClaim<EF>>,
    ) -> (r: NativeWarpWhirOracleStatement<EF>)
        requires
            forall|i: int|
                0 <= i < claims@.len() ==> (#[trigger] claims@[i]).point@.len()
                    == self.shape().log_codeword_len(),
        ensures
            r.statement.num_variables == self.shape().log_codeword_len(),
            r.statement.constraints@.len() == claims@.len(),
            forall|i: int|
                0 <= i < claims@.len() ==> (#[trigger] r.statement.constraints@[i]).weights@
                    == eq_table(claims@[i].point@) && r.statement.constraints@[i].value
                    == claims@[i].value,
    {
        let log_len: usize = self.code.log_codeword_len();
        let mut statement: LinearSigmaStatement<EF> = LinearSigmaStatement::initialize(log_len);
        let mut i: usize = 0;
        while i < claims.len()
            invariant
                i <= claims@.len(),
                log_len == self.shape().log_codeword_len(),
                forall|j: int|
                    0 <= j < claims@.len() ==> (#[trigger] claims@[j]).point@.len()
                        == self.shape().log_codeword_len(),
                statement.num_variables == log_len,
                statement.constraints@.len() == i,
                forall|j: int|
                    0 <= j < i ==> (#[trigger] statement.constraints@[j]).weights@ == eq_table(
                        claims@[j].point@,
                    ) && statement.constraints@[j].value == claims@[j].value,
            decreases claims@.len() - i,
        {
            let constraint = self.eval_claim_constraint(&claims[i]);
            statement.add_constraint(constraint);
            i = i + 1;
        }
        NativeWarpWhirOracleStatement::new(statement)
    }

    /// Converts a claim that the message of a systematic code takes a value at
    /// a point of its multilinear extension into a constraint on the codeword:
    /// the message point `y` is the codeword point `(y, 0, ..., 0)`.
    pub fn systematic_message_eval_constraint<EF: ExtensionField<F>>(
        &self,
        message_point: &Vec<EF>,
        value: EF,
    ) -> (r: LinearSigmaConstraint<EF>)
        requires
            self.shape().systematic,
            message_point@.len() == self.shape().log_msg_len,
        ensures
            r.weights@ == eq_table(lifted(message_point@, self.shape().log_inv_rate as nat)),
            r.value == value,
    {
        let point = self.code.systematic_message_point(message_point);
        self.eval_claim_constraint(&NativeWarpWhirEvalClaim { point, value })
    }

    /// Every claim is about a bound oracle.
    pub fn check_claim_oracles_bound<EF, Comm>(
        &self,
        oracles: &Vec<(RootIopBoundCommitment<Comm>, RootIopOracleValues<F, EF>)>,
        claims: &Vec<RootIopOpeningClaim<F, EF>>,
    ) -> (r: Result<(), NativeWarpWhirRootReductionError>)
        ensures
            r == known_oracles(public_ids(bound_commitments(oracles@)), claims@),
    {
        let ids = ids_of_bound(oracles);
        check_known(&ids, claims)
    }

    /// No two bound oracles have the same identifier.
    pub fn check_unique_bound_oracle_ids<EF, Comm>(
        &self,
        oracles: &Vec<(RootIopBoundCommitment<Comm>, RootIopOracleValues<F, EF>)>,
    ) -> (r: Result<(), NativeWarpWhirRootReductionError>)
        ensures
            r == distinct_ids(public_ids(bound_commitments(oracles@))),
    {
        let ids = ids_of_bound(oracles);
        check_distinct(&ids)
    }

    /// No two public commitments have the same identifier.
    pub fn check_unique_public_oracle_ids<Comm>(
        &self,
        commitments: &Vec<RootIopBoundCommitment<Comm>>,
    ) -> (r: Result<(), NativeWarpWhirRootReductionError>)
        ensures
            r == distinct_ids(public_ids(commitments@)),
    {
        let ids = ids_of_public(commitments);
        check_distinct(&ids)
    }

    /// Every claim is about an oracle with a public commitment.
    pub fn check_claim_oracles_public<EF, Comm>(
        &self,
        commitments: &Vec<RootIopBoundCommitment<Comm>>,
        claims: &Vec<RootIopOpeningClaim<F, EF>>,
    ) -> (r: Result<(), NativeWarpWhirRootReductionError>)
        ensures
            r == known_oracles(public_ids(commitments@), claims@),
    {
        let ids = ids_of_public(commitments);
        check_known(&ids, claims)
    }

    /// The bound oracle fits the code.
    pub fn check_bound_oracle_shape<EF, Comm>(
        &self,
        commitment: &RootIopBoundCommitment<Comm>,
        values: Option<&RootIopOracleValues<F, EF>>,
    ) -> (r: Result<(), NativeWarpWhirRootReductionError>)
        ensures
            r == oracle_shape(self.shape(), *commitment, referenced(values)),
    {
        let oracle_id: usize = commitment.oracle_id;
        let log_len: usize = self.code.log_codeword_len();
        if commitment.log_len != log_len {
            return Err(
                NativeWarpWhirRootReductionError::OracleLogLengthMismatch {
                    oracle_id,
                    expected: log_len,
                    actual: commitment.log_len,
                },
            );
        }
        let (field, actual): (RootIopOracleField, usize) = match values {
            Some(RootIopOracleValues::Base(values)) => (RootIopOracleField::Base, values.len()),
            Some(RootIopOracleValues::Extension(values)) => (
                RootIopOracleField::Extension,
                values.len(),
            ),
            None => {
                return Ok(());
            },
        };
        if commitment.field != field {
            return Err(NativeWarpWhirRootReductionError::OracleValueFieldMismatch(oracle_id));
        }
        let expected: usize = self.code.codeword_len();
        if actual != expected {
            return Err(
                NativeWarpWhirRootReductionError::OracleValueLengthMismatch {
                    oracle_id,
                    expected,
                    actual,
                },
            );
        }
        Ok(())
    }
}

/// The identifiers of public commitments.
fn ids_of_public<Comm>(commitments: &Vec<RootIopBoundCommitment<Comm>>) -> (r: Vec<usize>)
    ensures
        r@ == public_ids(commitments@),
{
    let mut ids: Vec<usize> = Vec::new();
    let mut i: usize = 0;
    while i < commitments.len()
        invariant
            i <= commitments@.len(),
            ids@ == public_ids(commitments@.take(i as int)),
        decreases commitments@.len() - i,
    {
        ids.push(commitments[i].oracle_id);
        i = i + 1;
        assert(ids@ =~= public_ids(commitments@.take(i as int)));
    }
    assert(commitments@.take(i as int) =~= commitments@);
    ids
}

/// The identifiers of bound oracles.
fn ids_of_bound<F, EF, Comm>(
    oracles: &Vec<(RootIopBoundCommitment<Comm>, RootIopOracleValues<F, EF>)>,
) -> (r: Vec<usize>)
    ensures
        r@ == public_ids(bound_commitments(oracles@)),
{
    let mut ids: Vec<usize> = Vec::new();
    let mut i: usize = 0;
    while i < oracles.len()
        invariant
            i <= oracles@.len(),
            ids@ == public_ids(bound_commitments(oracles@.take(i as int))),
        decreases oracles@.len() - i,
    {
        ids.push(oracles[i].0.oracle_id);
        i = i + 1;
        assert(ids@ =~= public_ids(bound_commitments(oracles@.take(i as int))));
    }
    assert(oracles@.take(i as int) =~= oracles@);
    ids
}

/// Whether `id` is among the first `n` identifiers.
fn id_among_first(ids: &Vec<usize>, n: usize, id: usize) -> (r: bool)
    requires
        n <= ids@.len(),
    ensures
        r == ids@.take(n as int).contains(id),
{
    let mut i: usize = 0;
    while i < n
        invariant
            i <= n <= ids@.len(),
            !ids@.take(i as int).contains(id),
        decreases n - i,
    {
        if ids[i] == id {
            assert(ids@.take(n as int)[i as int] == id);
            return true;
        }
        i = i + 1;
        assert forall|j: int| 0 <= j < i implies ids@.take(i as int)[j] != id by {
            if j < i - 1 {
                assert(ids@.take(i as int - 1)[j] == ids@.take(i as int)[j]);
            }
        }
    }
    false
}

fn check_distinct(ids: &Vec<usize>) -> (r: Result<(), NativeWarpWhirRootReductionError>)
    ensures
        r == distinct_ids(ids@),
{
    let mut i: usize = 0;
    while i < ids.len()
        invariant
            i <= ids@.len(),
            distinct_ids(ids@.take(i as int)) is Ok,
        decreases ids@.len() - i,
    {
        proof {
            assert(ids@.take(i as int + 1).drop_last() =~= ids@.take(i as int));
            lemma_distinct_ids_prefix(ids@, i as int + 1);
        }
        if id_among_first(ids, i, ids[i]) {
            return Err(NativeWarpWhirRootReductionError::DuplicateOracle(ids[i]));
        }
        i = i + 1;
    }
    assert(ids@.take(i as int) =~= ids@);
    Ok(())
}

fn check_known<F, EF>(ids: &Vec<usize>, claims: &Vec<RootIopOpeningClaim<F, EF>>) -> (r: Result<
    (),
    NativeWarpWhirRootReductionError,
>)
    ensures
        r == known_oracles(ids@, claims@),
{
    let mut i: usize = 0;
    assert(ids@.take(ids@.len() as int) =~= ids@);
    while i < claims.len()
        invariant
            i <= claims@.len(),
            ids@.take(ids@.len() as int) == ids@,
            known_oracles(ids@, claims@.take(i as int)) is Ok,
        decreases claims@.len() - i,
    {
        proof {
            assert(claims@.take(i as int + 1).drop_last() =~= claims@.take(i as int));
            lemma_known_oracles_prefix(ids@, claims@, i as int + 1);
        }
        let id: usize = claims[i].oracle_id;
        if !id_among_first(ids, ids.len(), id) {
            return Err(NativeWarpWhirRootReductionError::UnknownOracle(id));
        }
        i = i + 1;
    }
    assert(claims@.take(i as int) =~= claims@);
    Ok(())
}

} // verus!

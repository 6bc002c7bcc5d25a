use warp_whir::code::ReedSolomonCode;
use warp_whir::compiler::NativeWarpWhirCompiler;
use warp_whir::error::NativeWarpWhirRootReductionError;
use warp_whir::field::{ExtensionField, Field};
use warp_whir::goldilocks::{Goldilocks, GoldilocksExt2, ORDER};
use warp_whir::root_iop::{
    claims_include_oracle, RootIopBoundCommitment, RootIopOpeningClaim, RootIopOpeningPoint,
    RootIopOpeningValue, RootIopOracleField, RootIopOracleValues,
};
use warp_whir::statement::{
    eval_claims_from_parts, EqStatement, LinearSigmaConstraint, NativeWarpWhirEvalClaim,
};

type Claim = RootIopOpeningClaim<Goldilocks, GoldilocksExt2>;
type Values = RootIopOracleValues<Goldilocks, GoldilocksExt2>;

fn g(n: u64) -> Goldilocks {
    Goldilocks::new(n)
}

fn e(n: u64) -> GoldilocksExt2 {
    GoldilocksExt2::from_base(g(n))
}

fn inner_product(a: &[GoldilocksExt2], b: &[GoldilocksExt2]) -> GoldilocksExt2 {
    let mut sum = GoldilocksExt2::zero();
    for i in 0..a.len() {
        sum = sum.plus(a[i].times(b[i]));
    }
    sum
}

fn claim(oracle_id: usize) -> Claim {
    RootIopOpeningClaim {
        oracle_id,
        point: RootIopOpeningPoint::Index(0),
        value: RootIopOpeningValue::Base(g(1)),
    }
}

fn bound(oracle_id: usize, log_len: usize, field: RootIopOracleField) -> RootIopBoundCommitment<u8> {
    RootIopBoundCommitment { oracle_id, log_len, field, commitment: 0 }
}

fn base_table(n: usize) -> Values {
    RootIopOracleValues::Base(vec![g(0); n])
}

#[test]
fn evaluation_claims_become_eq_weights() {
    let code: ReedSolomonCode<Goldilocks> = ReedSolomonCode::new(1, 1, false);
    let compiler = NativeWarpWhirCompiler::new(&code);
    let constraint = compiler.eval_claim_constraint(&NativeWarpWhirEvalClaim {
        point: vec![e(2), e(5)],
        value: e(77),
    });
    assert_eq!(constraint.weights, vec![e(4), e(ORDER - 5), e(ORDER - 8), e(10)]);
    assert_eq!(constraint.value, e(77));
    // The multilinear polynomial with these values takes 1*4 - 2*5 - 3*8 + 4*10 = 10 there.
    let table = vec![e(1), e(2), e(3), e(4)];
    assert_eq!(inner_product(&constraint.weights, &table), e(10));
}

#[test]
fn evaluation_claims_stay_separate_and_in_order() {
    let code: ReedSolomonCode<Goldilocks> = ReedSolomonCode::new(1, 0, false);
    let compiler = NativeWarpWhirCompiler::new(&code);
    let claims = eval_claims_from_parts(&vec![vec![e(0)], vec![e(1)]], &vec![e(8), e(9)]);
    let statement = compiler.eval_claim_statement(&claims).statement;
    assert_eq!(statement.num_variables, 1);
    assert_eq!(statement.constraints.len(), 2);
    assert_eq!(statement.constraints[0].weights, vec![e(1), e(0)]);
    assert_eq!(statement.constraints[0].value, e(8));
    assert_eq!(statement.constraints[1].weights, vec![e(0), e(1)]);
    assert_eq!(statement.constraints[1].value, e(9));
    assert_eq!(compiler.eval_claim_statement::<GoldilocksExt2>(&Vec::new()).statement.constraints.len(), 0);
}

#[test]
fn parts_are_paired_in_order() {
    let claims = eval_claims_from_parts(&vec![vec![e(3), e(4)], vec![e(5), e(6)]], &vec![e(1), e(2)]);
    assert_eq!(claims.len(), 2);
    assert_eq!(claims[0].point, vec![e(3), e(4)]);
    assert_eq!(claims[0].value, e(1));
    assert_eq!(claims[1].point, vec![e(5), e(6)]);
    assert_eq!(claims[1].value, e(2));
}

#[test]
fn eq_statements_combine_with_powers() {
    let mut eq: EqStatement<GoldilocksExt2> = EqStatement::initialize(1);
    eq.add_evaluated_constraint(vec![e(0)], e(10));
    eq.add_evaluated_constraint(vec![e(1)], e(20));
    eq.add_evaluated_constraint(vec![e(0)], e(30));
    let combined = LinearSigmaConstraint::from_eq_statement::<Goldilocks>(&eq, e(3));
    assert_eq!(combined.weights, vec![e(1 + 9), e(3)]);
    assert_eq!(combined.value, e(10 + 60 + 270));
    let none = LinearSigmaConstraint::from_eq_statement::<Goldilocks>(
        &EqStatement::<GoldilocksExt2>::initialize(1),
        e(3),
    );
    assert_eq!(none.weights, vec![e(0), e(0)]);
    assert_eq!(none.value, e(0));
}

#[test]
fn systematic_claims_read_the_message_off_the_codeword() {
    let code: ReedSolomonCode<Goldilocks> = ReedSolomonCode::new(2, 1, true);
    let compiler = NativeWarpWhirCompiler::new(&code);
    let message = vec![e(1), e(2), e(3), e(4)];
    let codeword = code.encode_algebra(&message);
    let constraint = compiler.systematic_message_eval_constraint(&vec![e(2), e(5)], e(10));
    assert_eq!(inner_product(&constraint.weights, &codeword), e(10));
    assert_eq!(constraint.value, e(10));
    assert_eq!(constraint.weights.len(), 8);
}

#[test]
fn the_compiler_keeps_its_code() {
    let code: ReedSolomonCode<Goldilocks> = ReedSolomonCode::new(2, 1, true);
    let compiler = NativeWarpWhirCompiler::new(&code);
    assert_eq!(compiler.code().codeword_len(), 8);
}

#[test]
fn duplicate_oracles_are_reported_by_the_second_occurrence() {
    let code: ReedSolomonCode<Goldilocks> = ReedSolomonCode::new(1, 1, false);
    let compiler = NativeWarpWhirCompiler::new(&code);
    let b = RootIopOracleField::Base;
    let public = vec![bound(4, 2, b), bound(5, 2, b), bound(6, 2, b), bound(5, 2, b), bound(4, 2, b)];
    assert_eq!(
        compiler.check_unique_public_oracle_ids(&public),
        Err(NativeWarpWhirRootReductionError::DuplicateOracle(5))
    );
    assert_eq!(compiler.check_unique_public_oracle_ids(&public[..3].to_vec()), Ok(()));
    let oracles: Vec<(RootIopBoundCommitment<u8>, Values)> =
        vec![(bound(1, 2, b), base_table(4)), (bound(1, 2, b), base_table(4))];
    assert_eq!(
        compiler.check_unique_bound_oracle_ids(&oracles),
        Err(NativeWarpWhirRootReductionError::DuplicateOracle(1))
    );
}

#[test]
fn unknown_oracles_are_reported_by_the_first_claim() {
    let code: ReedSolomonCode<Goldilocks> = ReedSolomonCode::new(1, 1, false);
    let compiler = NativeWarpWhirCompiler::new(&code);
    let b = RootIopOracleField::Base;
    let public = vec![bound(4, 2, b), bound(5, 2, b)];
    let claims = vec![claim(5), claim(9), claim(8)];
    assert_eq!(
        compiler.check_claim_oracles_public(&public, &claims),
        Err(NativeWarpWhirRootReductionError::UnknownOracle(9))
    );
    let oracles: Vec<(RootIopBoundCommitment<u8>, Values)> = vec![(bound(5, 2, b), base_table(4))];
    assert_eq!(
        compiler.check_claim_oracles_bound(&oracles, &claims),
        Err(NativeWarpWhirRootReductionError::UnknownOracle(9))
    );
    assert_eq!(compiler.check_claim_oracles_bound(&oracles, &vec![claim(5)]), Ok(()));
    let none: Vec<Claim> = Vec::new();
    assert_eq!(compiler.check_claim_oracles_public(&public, &none), Ok(()));
}

#[test]
fn oracle_shapes_are_checked_in_order() {
    let code: ReedSolomonCode<Goldilocks> = ReedSolomonCode::new(1, 1, false);
    let compiler = NativeWarpWhirCompiler::new(&code);
    let (b, x) = (RootIopOracleField::Base, RootIopOracleField::Extension);
    let base = base_table(4);
    let short = base_table(3);
    let extension: Values = RootIopOracleValues::Extension(vec![e(0); 4]);
    let long: Values = RootIopOracleValues::Extension(vec![e(0); 5]);
    assert_eq!(compiler.check_bound_oracle_shape(&bound(7, 2, b), Some(&base)), Ok(()));
    assert_eq!(compiler.check_bound_oracle_shape(&bound(7, 2, x), Some(&extension)), Ok(()));
    assert_eq!(
        compiler.check_bound_oracle_shape::<GoldilocksExt2, u8>(&bound(7, 2, x), None),
        Ok(())
    );
    assert_eq!(
        compiler.check_bound_oracle_shape(&bound(7, 3, x), Some(&short)),
        Err(NativeWarpWhirRootReductionError::OracleLogLengthMismatch {
            oracle_id: 7,
            expected: 2,
            actual: 3
        })
    );
    assert_eq!(
        compiler.check_bound_oracle_shape(&bound(7, 2, x), Some(&short)),
        Err(NativeWarpWhirRootReductionError::OracleValueFieldMismatch(7))
    );
    assert_eq!(
        compiler.check_bound_oracle_shape(&bound(7, 2, b), Some(&extension)),
        Err(NativeWarpWhirRootReductionError::OracleValueFieldMismatch(7))
    );
    assert_eq!(
        compiler.check_bound_oracle_shape(&bound(7, 2, b), Some(&short)),
        Err(NativeWarpWhirRootReductionError::OracleValueLengthMismatch {
            oracle_id: 7,
            expected: 4,
            actual: 3
        })
    );
    assert_eq!(
        compiler.check_bound_oracle_shape(&bound(7, 2, x), Some(&long)),
        Err(NativeWarpWhirRootReductionError::OracleValueLengthMismatch {
            oracle_id: 7,
            expected: 4,
            actual: 5
        })
    );
}

#[test]
fn claims_are_found_by_oracle() {
    let claims = vec![claim(2), claim(3)];
    assert!(claims_include_oracle(&claims, 3));
    assert!(!claims_include_oracle(&claims, 4));
}

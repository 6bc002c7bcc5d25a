use std::sync::Arc;
use warp_whir::claims::{CompactRootQuery, NativeWarpCompactRootStatement};
use warp_whir::code::ReedSolomonCode;
use warp_whir::error::{
    LinearSigmaReductionError, NativeWarpWhirClaimCompileError, NativeWarpWhirRootProofError,
    NativeWarpWhirRootReductionError,
};
use warp_whir::field::{ExtensionField, Field};
use warp_whir::goldilocks::{Goldilocks, GoldilocksExt2};
use warp_whir::grouping::{group_oracles, BatchedOracle, ResidualOracle, RootKey};
use warp_whir::keccak::{KeccakChallenger, KeccakDigest};
use warp_whir::params::WhirConfig;
use warp_whir::proof_system::NativeWarpWhirRootProofSystem;
use warp_whir::root_iop::{
    RootIopBoundCommitment, RootIopBoundTranscript, RootIopOpeningClaim, RootIopOpeningPoint,
    RootIopOpeningValue, RootIopOracleField, RootIopOracleValues,
};
use warp_whir::transcript::Challenger;
use warp_whir::types::{
    BatchedLinearSigmaOpeningClaim, NativeWarpDirectBatchedResidualPoly,
    NativeWarpWhirRootBatchedOpeningProof, NativeWarpWhirRootCommitment,
    NativeWarpWhirRootOracleProverData, NativeWarpWhirRootProof, NativeWarpWhirRootProverData,
    SharedHandle,
};

type System<'a> =
    NativeWarpWhirRootProofSystem<'a, Goldilocks, GoldilocksExt2, KeccakDigest, KeccakChallenger>;
type Failure = NativeWarpWhirRootProofError<&'static str>;
type Commitment = RootIopBoundCommitment<NativeWarpWhirRootCommitment<KeccakDigest>>;
type Data = NativeWarpWhirRootOracleProverData<
    Goldilocks,
    GoldilocksExt2,
    KeccakChallenger,
    &'static str,
    &'static str,
    &'static str,
>;
type Claim = RootIopOpeningClaim<Goldilocks, GoldilocksExt2>;
type Values = RootIopOracleValues<Goldilocks, GoldilocksExt2>;
type Transcript =
    RootIopBoundTranscript<Goldilocks, GoldilocksExt2, NativeWarpWhirRootCommitment<KeccakDigest>>;
type Statement = NativeWarpCompactRootStatement<GoldilocksExt2>;
type Poly<'b> = NativeWarpDirectBatchedResidualPoly<'b, Goldilocks, GoldilocksExt2>;
type Opening = BatchedLinearSigmaOpeningClaim<GoldilocksExt2>;
type ProverGroup<'b> = BatchedOracle<
    GoldilocksExt2,
    &'b &'static str,
    &'b &'static str,
    &'b SharedHandle<&'static str>,
>;
type VerifierGroup =
    BatchedOracle<GoldilocksExt2, KeccakDigest, KeccakDigest, RootKey<KeccakDigest>>;
type Layout = Vec<(&'static str, Vec<GoldilocksExt2>)>;

const CONFIG: WhirConfig =
    WhirConfig { num_variables: 1, starting_log_inv_rate: 1, commitment_ood_samples: 1 };

fn g(n: u64) -> Goldilocks {
    Goldilocks::new(n)
}

fn e(n: u64) -> GoldilocksExt2 {
    GoldilocksExt2::from_base(g(n))
}

fn digest(n: u64) -> KeccakDigest {
    KeccakDigest { w0: n, w1: 2, w2: 3, w3: 4 }
}

fn code() -> ReedSolomonCode<Goldilocks> {
    ReedSolomonCode::new(1, 1, false)
}

fn base_claim(oracle_id: usize, index: usize, value: Goldilocks) -> Claim {
    RootIopOpeningClaim {
        oracle_id,
        point: RootIopOpeningPoint::RsCodewordIndex(index),
        value: RootIopOpeningValue::Base(value),
    }
}

fn extension_claim(oracle_id: usize, point: Vec<GoldilocksExt2>, value: GoldilocksExt2) -> Claim {
    RootIopOpeningClaim {
        oracle_id,
        point: RootIopOpeningPoint::Mle(point),
        value: RootIopOpeningValue::Extension(value),
    }
}

/// One base oracle (1), two columns of a stack (2 and 3), and one extension
/// oracle (4), with claims about all but nothing about oracle 5.
fn recorded() -> (Transcript, Vec<Data>) {
    let code = code();
    let config = CONFIG;
    let system: System = NativeWarpWhirRootProofSystem::new(&config, &code, KeccakChallenger::new());
    let mut oracles: Vec<(Commitment, Values)> = Vec::new();
    let mut data: Vec<Data> = Vec::new();

    let m1 = vec![g(10), g(3)];
    let c1 = code.encode(&m1);
    let (commitment, prover_data) = system
        .commit_base_message_oracle::<_, _, _, &'static str, _>(
            1,
            c1.clone(),
            m1,
            |_: Vec<Goldilocks>, c: KeccakChallenger| (digest(100), "one", c),
        )
        .unwrap();
    oracles.push((commitment, RootIopOracleValues::Base(c1.clone())));
    data.push(prover_data);

    let (m2, m3) = (vec![g(1), g(2)], vec![g(5), g(7)]);
    let (c2, c3) = (code.encode(&m2), code.encode(&m3));
    let stack = system
        .commit_shared_base_message_oracles::<_, _, _, &'static str, _>(
            vec![(2, c2.clone(), m2), (3, c3.clone(), m3)],
            |_: Vec<Vec<Goldilocks>>, c: KeccakChallenger| {
                (digest(200), SharedHandle::new(Arc::new("stack")), c)
            },
        )
        .unwrap();
    for ((commitment, prover_data), table) in stack.into_iter().zip([c2.clone(), c3.clone()]) {
        oracles.push((commitment, RootIopOracleValues::Base(table)));
        data.push(prover_data);
    }

    let m4 = vec![e(6), GoldilocksExt2::new(g(1), g(1))];
    let c4 = code.encode_algebra(&m4);
    let (commitment, prover_data) = system
        .commit_extension_oracle::<_, _, _, &'static str, _>(
            4,
            c4.clone(),
            |_: Vec<GoldilocksExt2>, c: KeccakChallenger| (digest(400), "four", c),
        )
        .unwrap();
    oracles.push((commitment, RootIopOracleValues::Extension(c4.clone())));
    data.push(prover_data);

    let m5 = vec![g(0), g(0)];
    let c5 = code.encode(&m5);
    let (commitment, prover_data) = system
        .commit_base_message_oracle::<_, _, _, &'static str, _>(
            5,
            c5.clone(),
            m5,
            |_: Vec<Goldilocks>, c: KeccakChallenger| (digest(500), "five", c),
        )
        .unwrap();
    oracles.push((commitment, RootIopOracleValues::Base(c5)));
    data.push(prover_data);

    let claims = vec![
        base_claim(3, 2, c3[2]),
        base_claim(1, 0, c1[0]),
        extension_claim(4, vec![e(0), e(0)], c4[0]),
        base_claim(1, 3, c1[3]),
        base_claim(2, 1, c2[1]),
        RootIopOpeningClaim {
            oracle_id: 4,
            point: RootIopOpeningPoint::Index(1),
            value: RootIopOpeningValue::Extension(c4[1]),
        },
    ];
    (RootIopBoundTranscript { oracles, claims }, data)
}

fn queries(statements: &[Statement]) -> Vec<Vec<String>> {
    statements
        .iter()
        .map(|s| {
            s.queries()
                .iter()
                .map(|q| match q {
                    CompactRootQuery::Index { index, value } => format!("{} {:?}", index, value),
                    CompactRootQuery::Mle { point, value } => format!("{:?} {:?}", point, value),
                })
                .collect()
        })
        .collect()
}

fn prover_layout(groups: Vec<ProverGroup>) -> Layout {
    groups
        .into_iter()
        .map(|group| match group {
            BatchedOracle::Base { coeff, data } => (*data, vec![coeff]),
            BatchedOracle::SharedBase { coeffs, data } => (*data.get(), coeffs),
            BatchedOracle::Extension { coeff, data } => (*data, vec![coeff]),
        })
        .collect()
}

fn verifier_layout(groups: Vec<VerifierGroup>) -> Layout {
    groups
        .into_iter()
        .map(|group| match group {
            BatchedOracle::Base { coeff, data } => {
                assert_eq!(data, digest(100));
                ("one", vec![coeff])
            }
            BatchedOracle::SharedBase { coeffs, data } => {
                assert_eq!(data.root, digest(200));
                ("stack", coeffs)
            }
            BatchedOracle::Extension { coeff, data } => {
                assert_eq!(data, digest(400));
                ("four", vec![coeff])
            }
        })
        .collect()
}

fn batching(challenger: &mut KeccakChallenger, n: usize) -> Opening {
    let gamma = challenger.sample_algebra_element();
    let mut coeffs = vec![GoldilocksExt2::one()];
    for i in 1..n {
        let next = coeffs[i - 1].times(gamma);
        coeffs.push(next);
    }
    BatchedLinearSigmaOpeningClaim { point: vec![gamma], value: gamma.times(gamma), coeffs }
}

fn prove(transcript: &Transcript, data: &Vec<Data>) -> Result<(), Failure> {
    let code = code();
    let config = CONFIG;
    let system: System = NativeWarpWhirRootProofSystem::new(&config, &code, KeccakChallenger::new());
    let mut challenger = KeccakChallenger::new();
    let result: Result<NativeWarpWhirRootProof<(), ()>, Failure> = system.prove(
        transcript,
        data,
        &mut challenger,
        0,
        |statements: Vec<Statement>, _: Vec<Poly>, mut c: KeccakChallenger, _: usize| {
            let opening = batching(&mut c, statements.len());
            (Ok(((), opening)), c)
        },
        |_: Vec<ProverGroup>, _: Vec<GoldilocksExt2>, _: GoldilocksExt2, c: KeccakChallenger| {
            (Ok(()), c)
        },
    );
    result.map(|_| ())
}

fn verify(commitments: &Vec<Commitment>, claims: &Vec<Claim>) -> Result<(), Failure> {
    let code = code();
    let config = CONFIG;
    let system: System = NativeWarpWhirRootProofSystem::new(&config, &code, KeccakChallenger::new());
    let mut challenger = KeccakChallenger::new();
    let proof = NativeWarpWhirRootProof {
        opening: NativeWarpWhirRootBatchedOpeningProof { reduction: (), opening: () },
    };
    system.verify(
        commitments,
        claims,
        &proof,
        &mut challenger,
        0,
        |statements: Vec<Statement>, _: &(), mut c: KeccakChallenger, _: usize| {
            let opening = batching(&mut c, statements.len());
            (Ok(opening), c)
        },
        |_: Vec<VerifierGroup>,
         _: Vec<GoldilocksExt2>,
         _: GoldilocksExt2,
         _: &(),
         c: KeccakChallenger| (Ok(()), c),
    )
}

fn commitments(transcript: &Transcript) -> Vec<Commitment> {
    transcript.oracles.iter().map(|(commitment, _)| *commitment).collect()
}

#[test]
fn prover_and_verifier_run_over_the_same_batch() {
    let (transcript, data) = recorded();
    let code = code();
    let config = CONFIG;
    let system: System = NativeWarpWhirRootProofSystem::new(&config, &code, KeccakChallenger::new());

    let mut prover = KeccakChallenger::new();
    let proof: NativeWarpWhirRootProof<(Vec<Vec<String>>, Vec<usize>, GoldilocksExt2), (Layout, GoldilocksExt2)> = system
        .prove(
            &transcript,
            &data,
            &mut prover,
            9,
            |statements: Vec<Statement>, polys: Vec<Poly>, mut c: KeccakChallenger, bits: usize| {
                assert_eq!(bits, 9);
                let kinds = polys
                    .iter()
                    .map(|p| match p {
                        NativeWarpDirectBatchedResidualPoly::Base(m) => m.len(),
                        NativeWarpDirectBatchedResidualPoly::Extension(m) => 10 * m.len(),
                    })
                    .collect();
                let opening = batching(&mut c, statements.len());
                let gamma = opening.point[0];
                let result: Result<_, &'static str> =
                    Ok(((queries(&statements), kinds, gamma), opening));
                (result, c)
            },
            |groups: Vec<ProverGroup>,
             point: Vec<GoldilocksExt2>,
             value: GoldilocksExt2,
             mut c: KeccakChallenger| {
                assert_eq!(value, point[0].times(point[0]));
                let last = c.sample_algebra_element();
                (Ok((prover_layout(groups), last)), c)
            },
        )
        .unwrap();

    let (found, kinds, gamma) = &proof.opening.reduction;
    assert_eq!(found.len(), 4);
    assert_eq!(found.iter().map(|q| q.len()).collect::<Vec<usize>>(), vec![2, 1, 1, 2]);
    assert_eq!(kinds, &vec![2, 2, 2, 20]);
    let (layout, last) = &proof.opening.opening;
    let square = gamma.times(*gamma);
    assert_eq!(
        layout,
        &vec![
            ("one", vec![e(1)]),
            ("stack", vec![*gamma, square]),
            ("four", vec![square.times(*gamma)]),
        ]
    );

    let mut verifier = KeccakChallenger::new();
    let result: Result<(), Failure> = system.verify(
        &commitments(&transcript),
        &transcript.claims,
        &proof,
        &mut verifier,
        9,
        |statements: Vec<Statement>,
         reduction: &(Vec<Vec<String>>, Vec<usize>, GoldilocksExt2),
         mut c: KeccakChallenger,
         bits: usize| {
            assert_eq!(bits, 9);
            assert_eq!(queries(&statements), reduction.0);
            let opening = batching(&mut c, statements.len());
            assert_eq!(opening.point[0], reduction.2);
            (Ok(opening), c)
        },
        |groups: Vec<VerifierGroup>,
         _: Vec<GoldilocksExt2>,
         _: GoldilocksExt2,
         opening: &(Layout, GoldilocksExt2),
         mut c: KeccakChallenger| {
            assert_eq!(verifier_layout(groups), opening.0);
            assert_eq!(c.sample_algebra_element(), opening.1);
            (Ok(()), c)
        },
    );
    assert!(result.is_ok());
    assert_eq!(prover.sample_algebra_element(), verifier.sample_algebra_element());
    assert_ne!(*last, *gamma);
}

#[test]
fn statements_have_one_query_for_each_claim_in_order() {
    let (transcript, _) = recorded();
    let code = code();
    let config = CONFIG;
    let system: System = NativeWarpWhirRootProofSystem::new(&config, &code, KeccakChallenger::new());
    let statement = system.compact_base_message_claim_statement(&transcript.claims, 1).unwrap();
    assert_eq!(statement.num_variables(), 1);
    assert!(!statement.is_empty());
    let indices: Vec<usize> = statement
        .queries()
        .iter()
        .map(|q| match q {
            CompactRootQuery::Index { index, .. } => *index,
            CompactRootQuery::Mle { .. } => panic!("point"),
        })
        .collect();
    assert_eq!(indices, vec![0, 3]);
    let statement = system.compact_extension_message_claim_statement(&transcript.claims, 4).unwrap();
    assert!(matches!(&statement.queries()[0], CompactRootQuery::Mle { point, .. } if point.len() == 2));
    assert!(matches!(&statement.queries()[1], CompactRootQuery::Index { index: 1, .. }));
}

#[test]
fn claims_that_do_not_compile_are_reported() {
    let code = code();
    let config = CONFIG;
    let system: System = NativeWarpWhirRootProofSystem::new(&config, &code, KeccakChallenger::new());
    let base = |claims: Vec<Claim>| {
        system.compact_base_message_claim_statement(&claims, 8).map(|_| ()).unwrap_err()
    };
    let extension = |claims: Vec<Claim>| {
        system.compact_extension_message_claim_statement(&claims, 8).map(|_| ()).unwrap_err()
    };
    let value = RootIopOpeningValue::Extension(e(1));
    assert_eq!(
        base(vec![RootIopOpeningClaim { oracle_id: 8, point: RootIopOpeningPoint::Index(0), value }]),
        NativeWarpWhirClaimCompileError::OracleFieldMismatch(8)
    );
    assert_eq!(
        extension(vec![base_claim(8, 0, g(1))]),
        NativeWarpWhirClaimCompileError::OracleFieldMismatch(8)
    );
    assert_eq!(
        base(vec![base_claim(8, 3, g(1)), base_claim(8, 4, g(1))]),
        NativeWarpWhirClaimCompileError::IndexOutOfBounds { oracle_id: 8, index: 4 }
    );
    assert_eq!(
        extension(vec![RootIopOpeningClaim {
            oracle_id: 8,
            point: RootIopOpeningPoint::Index(9),
            value
        }]),
        NativeWarpWhirClaimCompileError::IndexOutOfBounds { oracle_id: 8, index: 9 }
    );
    assert_eq!(
        base(vec![RootIopOpeningClaim {
            oracle_id: 8,
            point: RootIopOpeningPoint::Mle(vec![e(1), e(2)]),
            value: RootIopOpeningValue::Base(g(1)),
        }]),
        NativeWarpWhirClaimCompileError::UnsupportedBaseMle(8)
    );
    assert_eq!(
        extension(vec![extension_claim(8, vec![e(1)], e(2))]),
        NativeWarpWhirClaimCompileError::PointArityMismatch { oracle_id: 8 }
    );
    assert_eq!(base(vec![base_claim(7, 99, g(1))]), NativeWarpWhirClaimCompileError::EmptyOracle(8));
    assert_eq!(extension(Vec::new()), NativeWarpWhirClaimCompileError::EmptyOracle(8));
}

#[test]
fn a_good_record_is_proved_and_verified() {
    let (transcript, data) = recorded();
    assert!(prove(&transcript, &data).is_ok());
    assert!(verify(&commitments(&transcript), &transcript.claims).is_ok());
}

#[test]
fn without_claims_there_is_nothing_to_prove() {
    let (mut transcript, data) = recorded();
    transcript.claims.clear();
    assert!(matches!(
        prove(&transcript, &data),
        Err(NativeWarpWhirRootProofError::ClaimCompile(
            NativeWarpWhirClaimCompileError::EmptyOracle(usize::MAX)
        ))
    ));
}

#[test]
fn duplicate_and_unknown_oracles_are_refused() {
    let (mut transcript, data) = recorded();
    transcript.claims.push(base_claim(77, 0, g(0)));
    assert!(matches!(
        prove(&transcript, &data),
        Err(NativeWarpWhirRootProofError::Reduction(
            NativeWarpWhirRootReductionError::UnknownOracle(77)
        ))
    ));
    assert!(matches!(
        verify(&commitments(&transcript), &transcript.claims),
        Err(NativeWarpWhirRootProofError::Reduction(
            NativeWarpWhirRootReductionError::UnknownOracle(77)
        ))
    ));
    let copy = transcript.oracles[0].0;
    transcript.oracles.push((copy, RootIopOracleValues::Base(Vec::new())));
    assert!(matches!(
        prove(&transcript, &data),
        Err(NativeWarpWhirRootProofError::Reduction(
            NativeWarpWhirRootReductionError::DuplicateOracle(1)
        ))
    ));
    assert!(matches!(
        verify(&commitments(&transcript), &transcript.claims),
        Err(NativeWarpWhirRootProofError::Reduction(
            NativeWarpWhirRootReductionError::DuplicateOracle(1)
        ))
    ));
}

#[test]
fn oracles_of_the_wrong_shape_are_refused() {
    let (mut transcript, data) = recorded();
    transcript.oracles[0].0.log_len = 7;
    assert!(matches!(
        prove(&transcript, &data),
        Err(NativeWarpWhirRootProofError::Reduction(
            NativeWarpWhirRootReductionError::OracleLogLengthMismatch {
                oracle_id: 1,
                expected: 2,
                actual: 7
            }
        ))
    ));
    assert!(matches!(
        verify(&commitments(&transcript), &transcript.claims),
        Err(NativeWarpWhirRootProofError::Reduction(
            NativeWarpWhirRootReductionError::OracleLogLengthMismatch {
                oracle_id: 1,
                expected: 2,
                actual: 7
            }
        ))
    ));
}

#[test]
fn tampered_tables_are_refused() {
    let (mut transcript, data) = recorded();
    if let RootIopOracleValues::Base(table) = &mut transcript.oracles[1].1 {
        table[0] = table[0].plus(g(1));
    }
    assert!(matches!(
        prove(&transcript, &data),
        Err(NativeWarpWhirRootProofError::Reduction(
            NativeWarpWhirRootReductionError::EncodingMismatch { oracle_id: 2 }
        ))
    ));
}

#[test]
fn unclaimed_oracles_are_not_looked_at() {
    let (mut transcript, data) = recorded();
    transcript.oracles[4].0.log_len = 7;
    transcript.oracles[4].1 = RootIopOracleValues::Extension(Vec::new());
    assert!(prove(&transcript, &data).is_ok());
    assert!(verify(&commitments(&transcript), &transcript.claims).is_ok());
}

#[test]
fn prover_data_has_to_be_there_and_of_the_right_kind() {
    let (transcript, mut data) = recorded();
    data.remove(0);
    assert!(matches!(
        prove(&transcript, &data),
        Err(NativeWarpWhirRootProofError::MissingProverData(1))
    ));
    let (transcript, mut data) = recorded();
    data[0].oracle_id = 4;
    data[3].oracle_id = 1;
    assert!(matches!(
        prove(&transcript, &data),
        Err(NativeWarpWhirRootProofError::OracleKindMismatch(1))
    ));
    let (transcript, mut data) = recorded();
    if let NativeWarpWhirRootProverData::BaseShared(shared) = &mut data[2].data {
        shared.column = 0;
    }
    assert!(matches!(
        prove(&transcript, &data),
        Err(NativeWarpWhirRootProofError::OracleKindMismatch(3))
    ));
    let (transcript, mut data) = recorded();
    if let NativeWarpWhirRootProverData::Base(base) = &mut data[0].data {
        base.message.pop();
    }
    assert!(matches!(
        prove(&transcript, &data),
        Err(NativeWarpWhirRootProofError::Reduction(
            NativeWarpWhirRootReductionError::OracleValueLengthMismatch {
                oracle_id: 1,
                expected: 2,
                actual: 1
            }
        ))
    ));
}

#[test]
fn commitment_and_table_have_to_be_of_one_kind() {
    let (mut transcript, data) = recorded();
    transcript.oracles[0].0.commitment = NativeWarpWhirRootCommitment::ExtensionMessage(digest(100));
    assert!(matches!(
        prove(&transcript, &data),
        Err(NativeWarpWhirRootProofError::OracleKindMismatch(1))
    ));
    let (mut transcript, data) = recorded();
    transcript.oracles[0].0.field = RootIopOracleField::Extension;
    assert!(matches!(
        prove(&transcript, &data),
        Err(NativeWarpWhirRootProofError::Reduction(
            NativeWarpWhirRootReductionError::OracleValueFieldMismatch(1)
        ))
    ));
}

#[test]
fn messages_are_found_by_oracle() {
    let (_, data) = recorded();
    let code = code();
    let config = CONFIG;
    let system: System = NativeWarpWhirRootProofSystem::new(&config, &code, KeccakChallenger::new());
    let base: Result<&Vec<Goldilocks>, Failure> = system.base_message_for_oracle(&data, 3);
    assert_eq!(base.unwrap(), &vec![g(5), g(7)]);
    let base: Result<&Vec<Goldilocks>, Failure> = system.base_message_for_oracle(&data, 4);
    assert!(matches!(base, Err(NativeWarpWhirRootProofError::OracleKindMismatch(4))));
    let extension: Result<&Vec<GoldilocksExt2>, Failure> =
        system.extension_message_for_oracle(&data, 4);
    assert_eq!(extension.unwrap()[0], e(6));
    let extension: Result<&Vec<GoldilocksExt2>, Failure> =
        system.extension_message_for_oracle(&data, 3);
    assert!(matches!(extension, Err(NativeWarpWhirRootProofError::OracleKindMismatch(3))));
    let extension: Result<&Vec<GoldilocksExt2>, Failure> =
        system.extension_message_for_oracle(&data, 9);
    assert!(matches!(extension, Err(NativeWarpWhirRootProofError::MissingProverData(9))));
}

#[test]
fn errors_of_the_backend_are_passed_on() {
    let (transcript, data) = recorded();
    let code = code();
    let config = CONFIG;
    let system: System = NativeWarpWhirRootProofSystem::new(&config, &code, KeccakChallenger::new());
    let mut challenger = KeccakChallenger::new();
    let result: Result<NativeWarpWhirRootProof<(), ()>, Failure> = system.prove(
        &transcript,
        &data,
        &mut challenger,
        0,
        |_: Vec<Statement>, _: Vec<Poly>, c: KeccakChallenger, _: usize| (Err("reduction"), c),
        |_: Vec<ProverGroup>, _: Vec<GoldilocksExt2>, _: GoldilocksExt2, c: KeccakChallenger| {
            (Ok(()), c)
        },
    );
    assert!(matches!(result, Err(NativeWarpWhirRootProofError::CompactReduction("reduction"))));
    let result: Result<NativeWarpWhirRootProof<(), ()>, Failure> = system.prove(
        &transcript,
        &data,
        &mut challenger,
        0,
        |statements: Vec<Statement>, _: Vec<Poly>, mut c: KeccakChallenger, _: usize| {
            let opening = batching(&mut c, statements.len());
            (Ok(((), opening)), c)
        },
        |_: Vec<ProverGroup>, _: Vec<GoldilocksExt2>, _: GoldilocksExt2, c: KeccakChallenger| {
            (Err("opening"), c)
        },
    );
    assert!(matches!(result, Err(NativeWarpWhirRootProofError::BatchedOpening("opening"))));
    let result: Result<NativeWarpWhirRootProof<(), ()>, Failure> = system.prove(
        &transcript,
        &data,
        &mut challenger,
        0,
        |_: Vec<Statement>, _: Vec<Poly>, mut c: KeccakChallenger, _: usize| {
            let opening = batching(&mut c, 3);
            (Ok(((), opening)), c)
        },
        |_: Vec<ProverGroup>, _: Vec<GoldilocksExt2>, _: GoldilocksExt2, _: KeccakChallenger| {
            panic!("opened")
        },
    );
    assert!(matches!(
        result,
        Err(NativeWarpWhirRootProofError::LinearSigma(LinearSigmaReductionError::ArityMismatch {
            expected: 4,
            actual: 3
        }))
    ));
}

#[test]
fn rejected_openings_are_reported() {
    let (transcript, _) = recorded();
    let code = code();
    let config = CONFIG;
    let system: System = NativeWarpWhirRootProofSystem::new(&config, &code, KeccakChallenger::new());
    let proof = NativeWarpWhirRootProof {
        opening: NativeWarpWhirRootBatchedOpeningProof { reduction: (), opening: () },
    };
    let mut challenger = KeccakChallenger::new();
    let result: Result<(), Failure> = system.verify(
        &commitments(&transcript),
        &transcript.claims,
        &proof,
        &mut challenger,
        0,
        |statements: Vec<Statement>, _: &(), mut c: KeccakChallenger, _: usize| {
            let opening = batching(&mut c, statements.len());
            (Ok(opening), c)
        },
        |_: Vec<VerifierGroup>,
         _: Vec<GoldilocksExt2>,
         _: GoldilocksExt2,
         _: &(),
         c: KeccakChallenger| (Err("rejected"), c),
    );
    assert!(matches!(result, Err(NativeWarpWhirRootProofError::BatchedOpening("rejected"))));
    let result: Result<(), Failure> = system.verify(
        &commitments(&transcript),
        &transcript.claims,
        &proof,
        &mut challenger,
        0,
        |_: Vec<Statement>, _: &(), c: KeccakChallenger, _: usize| (Err("sumcheck"), c),
        |_: Vec<VerifierGroup>,
         _: Vec<GoldilocksExt2>,
         _: GoldilocksExt2,
         _: &(),
         _: KeccakChallenger| panic!("checked"),
    );
    assert!(matches!(result, Err(NativeWarpWhirRootProofError::CompactReduction("sumcheck"))));
}

#[test]
fn swapped_columns_change_the_challenges() {
    let (transcript, _) = recorded();
    let code = code();
    let config = CONFIG;
    let system: System = NativeWarpWhirRootProofSystem::new(&config, &code, KeccakChallenger::new());
    let challenge = |commitments: &Vec<Commitment>| {
        let mut challenger = KeccakChallenger::new();
        let scanned: Result<_, Failure> =
            system.scan_commitments(commitments, &transcript.claims, &mut challenger);
        assert!(scanned.is_ok());
        challenger.sample_algebra_element()
    };
    let honest = commitments(&transcript);
    let mut swapped = commitments(&transcript);
    let (a, b) = (swapped[1].commitment, swapped[2].commitment);
    swapped[1].commitment = b;
    swapped[2].commitment = a;
    assert_eq!(challenge(&honest), challenge(&honest));
    assert_ne!(challenge(&honest), challenge(&swapped));
    let mut reordered = commitments(&transcript);
    reordered.swap(0, 1);
    assert_ne!(challenge(&honest), challenge(&reordered));
}

#[test]
fn the_verifier_absorbs_up_to_the_failing_commitment() {
    let (mut transcript, _) = recorded();
    transcript.claims.push(base_claim(2, 50, g(0)));
    let code = code();
    let config = CONFIG;
    let system: System = NativeWarpWhirRootProofSystem::new(&config, &code, KeccakChallenger::new());
    let mut challenger = KeccakChallenger::new();
    let scanned: Result<_, Failure> =
        system.scan_commitments(&commitments(&transcript), &transcript.claims, &mut challenger);
    assert!(matches!(
        scanned,
        Err(NativeWarpWhirRootProofError::ClaimCompile(
            NativeWarpWhirClaimCompileError::IndexOutOfBounds { oracle_id: 2, index: 50 }
        ))
    ));
    let mut expected = KeccakChallenger::new();
    let first_two: Vec<Commitment> = commitments(&transcript)[..2].to_vec();
    warp_whir::binding::observe_all(&mut expected, &first_two);
    assert_eq!(challenger.sample_algebra_element(), expected.sample_algebra_element());
}

#[test]
fn columns_of_one_root_are_grouped() {
    let shared = |root: u64, column: usize, width: usize| ResidualOracle::SharedBase {
        shared: RootKey { root: digest(root) },
        column,
        width,
    };
    let oracles: Vec<ResidualOracle<u8, u8, RootKey<KeccakDigest>>> = vec![
        shared(1, 2, 3),
        ResidualOracle::Base(7),
        shared(2, 0, 1),
        shared(1, 0, 3),
        ResidualOracle::Extension(9),
        shared(1, 2, 3),
    ];
    let coeffs: Vec<GoldilocksExt2> = (1..=6).map(e).collect();
    let groups = group_oracles(&oracles, &coeffs).unwrap();
    assert_eq!(groups.len(), 4);
    assert!(matches!(
        &groups[0],
        BatchedOracle::SharedBase { coeffs, data }
            if coeffs == &vec![e(4), e(0), e(7)] && data.root == digest(1)
    ));
    assert!(matches!(&groups[1], BatchedOracle::Base { coeff, data: 7 } if *coeff == e(2)));
    assert!(matches!(
        &groups[2],
        BatchedOracle::SharedBase { coeffs, data }
            if coeffs == &vec![e(3)] && data.root == digest(2)
    ));
    assert!(matches!(&groups[3], BatchedOracle::Extension { coeff, data: 9 } if *coeff == e(5)));
}

#[test]
fn grouping_preserves_the_combination() {
    let shared = |column: usize| ResidualOracle::SharedBase {
        shared: RootKey { root: digest(1) },
        column,
        width: 2,
    };
    let oracles: Vec<ResidualOracle<u64, u64, RootKey<KeccakDigest>>> =
        vec![shared(1), ResidualOracle::Base(30), shared(0), shared(1)];
    let coeffs = vec![e(2), e(3), e(5), e(7)];
    let columns = [e(100), e(200)];
    let groups = group_oracles(&oracles, &coeffs).unwrap();
    let mut total = e(0);
    for group in &groups {
        match group {
            BatchedOracle::Base { coeff, data } | BatchedOracle::Extension { coeff, data } => {
                total = total.plus(coeff.times(e(*data)));
            }
            BatchedOracle::SharedBase { coeffs, .. } => {
                for c in 0..2 {
                    total = total.plus(coeffs[c].times(columns[c]));
                }
            }
        }
    }
    assert_eq!(total, e(2 * 200 + 3 * 30 + 5 * 100 + 7 * 200));
}

#[test]
fn columns_and_widths_have_to_fit() {
    let shared = |column: usize, width: usize| ResidualOracle::SharedBase {
        shared: RootKey { root: digest(1) },
        column,
        width,
    };
    let group = |oracles: Vec<ResidualOracle<u8, u8, RootKey<KeccakDigest>>>| {
        let coeffs: Vec<GoldilocksExt2> = oracles.iter().map(|_| e(1)).collect();
        group_oracles(&oracles, &coeffs).map(|g| g.len()).map_err(|error| {
            let LinearSigmaReductionError::ArityMismatch { expected, actual } = error;
            (expected, actual)
        })
    };
    assert_eq!(group(vec![shared(3, 3)]), Err((3, 4)));
    assert_eq!(group(vec![shared(0, 3), shared(0, 2)]), Err((2, 3)));
    assert_eq!(group(vec![shared(0, 3), shared(2, 2)]), Err((2, 3)));
    assert_eq!(group(Vec::new()), Ok(0));
}

#[test]
fn prover_groups_follow_the_allocation() {
    let (one, two) = (SharedHandle::new(Arc::new(5u8)), SharedHandle::new(Arc::new(5u8)));
    let again = one.share();
    assert_eq!(*again.get(), 5);
    let oracle = |handle| ResidualOracle::SharedBase { shared: handle, column: 0, width: 1 };
    let oracles: Vec<ResidualOracle<u8, u8, &SharedHandle<u8>>> =
        vec![oracle(&one), oracle(&two), oracle(&again)];
    let groups = group_oracles(&oracles, &vec![e(1), e(2), e(4)]).unwrap();
    assert_eq!(groups.len(), 2);
    assert!(matches!(&groups[0], BatchedOracle::SharedBase { coeffs, .. } if coeffs == &vec![e(5)]));
    assert!(matches!(&groups[1], BatchedOracle::SharedBase { coeffs, .. } if coeffs == &vec![e(2)]));
}

type Reduced = (Vec<Vec<String>>, GoldilocksExt2);

/// The root proof, or the error in words, and the next challenge.
fn run_prover(
    transcript: &Transcript,
    data: &Vec<Data>,
) -> (Result<(Reduced, Layout), String>, GoldilocksExt2) {
    let code = code();
    let config = CONFIG;
    let system: System = NativeWarpWhirRootProofSystem::new(&config, &code, KeccakChallenger::new());
    let mut challenger = KeccakChallenger::new();
    let result: Result<NativeWarpWhirRootProof<Reduced, Layout>, Failure> = system.prove(
        transcript,
        data,
        &mut challenger,
        3,
        |statements: Vec<Statement>, _: Vec<Poly>, mut c: KeccakChallenger, _: usize| {
            let opening = batching(&mut c, statements.len());
            (Ok(((queries(&statements), opening.point[0]), opening)), c)
        },
        |groups: Vec<ProverGroup>,
         _: Vec<GoldilocksExt2>,
         value: GoldilocksExt2,
         mut c: KeccakChallenger| {
            c.observe_algebra_element(value);
            (Ok(prover_layout(groups)), c)
        },
    );
    let result = result
        .map(|proof| (proof.opening.reduction, proof.opening.opening))
        .map_err(|error| format!("{:?}", error));
    (result, challenger.sample_algebra_element())
}

/// The direct batched opening, or the error in words, and the next challenge.
fn run_direct_prover(
    transcript: &Transcript,
    data: &Vec<Data>,
) -> (Result<(Reduced, Layout), String>, GoldilocksExt2) {
    let code = code();
    let config = CONFIG;
    let system: System = NativeWarpWhirRootProofSystem::new(&config, &code, KeccakChallenger::new());
    let mut challenger = KeccakChallenger::new();
    let result: Result<NativeWarpWhirRootBatchedOpeningProof<Reduced, Layout>, Failure> = system
        .prove_direct_batched_root(
            transcript,
            data,
            &mut challenger,
            3,
            |statements: Vec<Statement>, _: Vec<Poly>, mut c: KeccakChallenger, _: usize| {
                let opening = batching(&mut c, statements.len());
                (Ok(((queries(&statements), opening.point[0]), opening)), c)
            },
            |groups: Vec<ProverGroup>,
             _: Vec<GoldilocksExt2>,
             value: GoldilocksExt2,
             mut c: KeccakChallenger| {
                c.observe_algebra_element(value);
                (Ok(prover_layout(groups)), c)
            },
        );
    let result = result
        .map(|proof| (proof.reduction, proof.opening))
        .map_err(|error| format!("{:?}", error));
    (result, challenger.sample_algebra_element())
}

/// The outcome, with the error in words, and the next challenge.
fn run_verifier(
    commitments: &Vec<Commitment>,
    claims: &Vec<Claim>,
    proof: (Reduced, Layout),
) -> (Result<(), String>, GoldilocksExt2) {
    let code = code();
    let config = CONFIG;
    let system: System = NativeWarpWhirRootProofSystem::new(&config, &code, KeccakChallenger::new());
    let mut challenger = KeccakChallenger::new();
    let proof = NativeWarpWhirRootProof {
        opening: NativeWarpWhirRootBatchedOpeningProof { reduction: proof.0, opening: proof.1 },
    };
    let result: Result<(), Failure> = system.verify(
        commitments,
        claims,
        &proof,
        &mut challenger,
        3,
        |statements: Vec<Statement>, reduction: &Reduced, mut c: KeccakChallenger, _: usize| {
            let opening = batching(&mut c, statements.len());
            if queries(&statements) != reduction.0 || opening.point[0] != reduction.1 {
                return (Err("reduction"), c);
            }
            (Ok(opening), c)
        },
        |groups: Vec<VerifierGroup>,
         _: Vec<GoldilocksExt2>,
         value: GoldilocksExt2,
         opening: &Layout,
         mut c: KeccakChallenger| {
            c.observe_algebra_element(value);
            let coeffs = |layout: &Layout| -> Vec<Vec<GoldilocksExt2>> {
                layout.iter().map(|(_, coeffs)| coeffs.clone()).collect()
            };
            let found: Layout = groups
                .into_iter()
                .map(|group| match group {
                    BatchedOracle::Base { coeff, .. } => ("base", vec![coeff]),
                    BatchedOracle::SharedBase { coeffs, .. } => ("shared", coeffs),
                    BatchedOracle::Extension { coeff, .. } => ("extension", vec![coeff]),
                })
                .collect();
            if coeffs(&found) != coeffs(opening) {
                return (Err("opening"), c);
            }
            (Ok(()), c)
        },
    );
    (result.map_err(|error| format!("{:?}", error)), challenger.sample_algebra_element())
}

fn stray_oracle(oracle_id: usize) -> (Commitment, Values) {
    let commitment = RootIopBoundCommitment {
        oracle_id,
        log_len: 60,
        field: RootIopOracleField::Base,
        commitment: NativeWarpWhirRootCommitment::BaseMessage(digest(900)),
    };
    (commitment, RootIopOracleValues::Base(vec![g(1)]))
}

#[test]
fn unclaimed_oracles_and_prover_data_leave_the_proof() {
    let (transcript, data) = recorded();
    let expected = run_prover(&transcript, &data);
    assert!(expected.0.is_ok());
    for at in 0..=5 {
        let (mut transcript, mut data) = recorded();
        transcript.oracles.insert(at, stray_oracle(77));
        let mut extra = data.remove(4);
        assert_eq!(run_prover(&transcript, &data), expected);
        extra.oracle_id = 78;
        data.insert(at.min(4), extra);
        assert_eq!(run_prover(&transcript, &data), expected);
    }
    // The same holds where there is no proof.
    let (mut transcript, data) = recorded();
    transcript.claims.push(base_claim(2, 50, g(0)));
    let refused = run_prover(&transcript, &data);
    assert!(refused.0.is_err());
    transcript.oracles.insert(1, stray_oracle(77));
    assert_eq!(run_prover(&transcript, &data), refused);
}

#[test]
fn irrelevant_input_leaves_the_outcome() {
    let (transcript, data) = recorded();
    let proof = || run_prover(&recorded().0, &recorded().1).0.unwrap();
    let accepted = run_verifier(&commitments(&transcript), &transcript.claims, proof());
    assert_eq!(accepted.0, Ok(()));
    assert_eq!(accepted.1, run_prover(&transcript, &data).1);
    for at in 0..=5 {
        let (mut transcript, _) = recorded();
        // The claims about each oracle keep their order.
        transcript.claims.swap(0, 1);
        let last = transcript.claims.pop().unwrap();
        transcript.claims.insert(3, last);
        let mut given = commitments(&transcript);
        given.insert(at, stray_oracle(77).0);
        assert_eq!(run_verifier(&given, &transcript.claims, proof()), accepted);
    }
    // Claims about one oracle in another order are other statements.
    let (mut transcript, _) = recorded();
    transcript.claims.swap(1, 3);
    let rejected = run_verifier(&commitments(&transcript), &transcript.claims, proof());
    assert_eq!(rejected.0, Err("CompactReduction(\"reduction\")".to_string()));
}

#[test]
fn a_root_proof_is_the_wrapped_direct_opening() {
    let (mut transcript, data) = recorded();
    assert!(run_prover(&transcript, &data).0.is_ok());
    assert_eq!(run_prover(&transcript, &data), run_direct_prover(&transcript, &data));
    transcript.claims.clear();
    let refused = run_direct_prover(&transcript, &data);
    assert_eq!(
        refused,
        (
            Err(format!("ClaimCompile(EmptyOracle({}))", usize::MAX)),
            KeccakChallenger::new().sample_algebra_element(),
        )
    );
    assert_eq!(run_prover(&transcript, &data), refused);
}

#[test]
fn claimed_commitments_are_absorbed_once_in_order() {
    let (transcript, data) = recorded();
    let mut expected = KeccakChallenger::new();
    let claimed: Vec<Commitment> = commitments(&transcript)[..4].to_vec();
    warp_whir::binding::observe_all(&mut expected, &claimed);
    let gamma = expected.sample_algebra_element();
    let ((_, drawn), _) = run_prover(&transcript, &data).0.unwrap();
    assert_eq!(drawn, gamma);

    // With two columns exchanged the verifier draws another challenge.
    let mut exchanged = commitments(&transcript);
    let (a, b) = (exchanged[1].commitment, exchanged[2].commitment);
    exchanged[1].commitment = b;
    exchanged[2].commitment = a;
    let proof = run_prover(&transcript, &data).0.unwrap();
    let rejected = run_verifier(&exchanged, &transcript.claims, proof);
    assert_eq!(rejected.0, Err("CompactReduction(\"reduction\")".to_string()));
}

#[test]
fn two_stacks_are_committed_proved_and_verified() {
    let code = code();
    let config = CONFIG;
    let system: System = NativeWarpWhirRootProofSystem::new(&config, &code, KeccakChallenger::new());
    let mut oracles: Vec<(Commitment, Values)> = Vec::new();
    let mut data: Vec<Data> = Vec::new();
    let mut claims: Vec<Claim> = Vec::new();
    for stack in 0..2usize {
        let tables: Vec<(usize, Vec<Goldilocks>, Vec<Goldilocks>)> = (0..2usize)
            .map(|column| {
                let message = vec![g(stack as u64), g(column as u64)];
                (10 * stack + column, code.encode(&message), message)
            })
            .collect();
        let codewords: Vec<Vec<Goldilocks>> = tables.iter().map(|t| t.1.clone()).collect();
        let made = system
            .commit_shared_base_message_oracles::<_, _, _, &'static str, _>(
                tables,
                |_: Vec<Vec<Goldilocks>>, c: KeccakChallenger| {
                    let name = if stack == 0 { "first" } else { "second" };
                    (digest(stack as u64), SharedHandle::new(Arc::new(name)), c)
                },
            )
            .unwrap();
        for ((commitment, prover_data), codeword) in made.into_iter().zip(codewords) {
            claims.push(base_claim(commitment.oracle_id, 3, codeword[3]));
            oracles.push((commitment, RootIopOracleValues::Base(codeword)));
            data.push(prover_data);
        }
    }
    data.reverse();
    let transcript = RootIopBoundTranscript { oracles, claims };
    let proof = run_prover(&transcript, &data).0.unwrap();
    let gamma = proof.0 .1;
    let square = gamma.times(gamma);
    assert_eq!(
        proof.1,
        vec![("first", vec![e(1), gamma]), ("second", vec![square, square.times(gamma)])]
    );
    assert_eq!(
        run_verifier(&commitments(&transcript), &transcript.claims, proof).0,
        Ok(())
    );
}

#[test]
fn the_largest_column_is_refused() {
    let oracles = vec![ResidualOracle::SharedBase {
        shared: RootKey { root: digest(1) },
        column: usize::MAX,
        width: 1,
    }];
    let LinearSigmaReductionError::ArityMismatch { expected, actual } =
        System::group_verifier_oracles(&oracles, &vec![e(5)]).err().unwrap();
    assert_eq!((expected, actual), (1, usize::MAX));

    let (mut transcript, _) = recorded();
    transcript.oracles[2].0.commitment = NativeWarpWhirRootCommitment::BaseMessageShared {
        root: digest(200),
        column: usize::MAX,
        width: 2,
    };
    assert!(matches!(
        verify(&commitments(&transcript), &transcript.claims),
        Err(NativeWarpWhirRootProofError::LinearSigma(
            LinearSigmaReductionError::ArityMismatch { expected: 2, .. }
        ))
    ));
}

#[test]
fn groups_stand_at_the_first_column_with_summed_coefficients() {
    let shared = |root: u64, column: usize| ResidualOracle::SharedBase {
        shared: RootKey { root: digest(root) },
        column,
        width: 4,
    };
    let oracles: Vec<ResidualOracle<u8, u8, RootKey<KeccakDigest>>> = vec![
        ResidualOracle::Base(1),
        shared(5, 3),
        shared(6, 0),
        shared(5, 1),
        ResidualOracle::Base(1),
        shared(6, 0),
        shared(5, 3),
        shared(6, 0),
    ];
    let coeffs: Vec<GoldilocksExt2> = (1..=8).map(|n| e(1 << n)).collect();
    let groups: Vec<(u64, Vec<GoldilocksExt2>)> = group_oracles(&oracles, &coeffs)
        .unwrap()
        .into_iter()
        .map(|group| match group {
            BatchedOracle::Base { coeff, data } => (data as u64, vec![coeff]),
            BatchedOracle::Extension { coeff, data } => (data as u64, vec![coeff]),
            BatchedOracle::SharedBase { coeffs, data } => (data.root.w0, coeffs),
        })
        .collect();
    assert_eq!(
        groups,
        vec![
            (1, vec![e(2)]),
            (5, vec![e(0), e(16), e(0), e(4 + 128)]),
            (6, vec![e(8 + 64 + 256), e(0), e(0), e(0)]),
            (1, vec![e(32)]),
        ]
    );
    // The first oracle that does not fit is reported, with the widths.
    let mut misfit = oracles;
    misfit.insert(6, ResidualOracle::SharedBase {
        shared: RootKey { root: digest(6) },
        column: 0,
        width: 9,
    });
    misfit.push(ResidualOracle::SharedBase {
        shared: RootKey { root: digest(7) },
        column: 2,
        width: 1,
    });
    let coeffs: Vec<GoldilocksExt2> = misfit.iter().map(|_| e(1)).collect();
    let LinearSigmaReductionError::ArityMismatch { expected, actual } =
        group_oracles(&misfit, &coeffs).err().unwrap();
    assert_eq!((expected, actual), (9, 4));
    let LinearSigmaReductionError::ArityMismatch { expected, actual } =
        group_oracles(&misfit, &coeffs[..3].to_vec()).err().unwrap();
    assert_eq!((expected, actual), (10, 3));
}

/// The value of a query on a codeword.
fn answer(codeword: &[GoldilocksExt2], query: &CompactRootQuery<GoldilocksExt2>) -> bool {
    match query {
        CompactRootQuery::Index { index, value } => codeword[*index] == *value,
        CompactRootQuery::Mle { point, value } => {
            let table = GoldilocksExt2::eq_weights(point);
            let mut sum = e(0);
            for i in 0..codeword.len() {
                sum = sum.plus(table[i].times(codeword[i]));
            }
            sum == *value
        }
    }
}

/// Whether every statement that a record is reduced to is true of the codeword
/// of its message.
fn reduces_to_truth(transcript: &Transcript, data: &Vec<Data>) -> bool {
    let code = code();
    let config = CONFIG;
    let system: System = NativeWarpWhirRootProofSystem::new(&config, &code, KeccakChallenger::new());
    let mut challenger = KeccakChallenger::new();
    let result: Result<NativeWarpWhirRootProof<bool, ()>, Failure> = system.prove(
        transcript,
        data,
        &mut challenger,
        0,
        |statements: Vec<Statement>, polys: Vec<Poly>, mut c: KeccakChallenger, _: usize| {
            assert_eq!(statements.len(), polys.len());
            let truth = statements.iter().zip(&polys).all(|(statement, poly)| {
                let codeword: Vec<GoldilocksExt2> = match poly {
                    NativeWarpDirectBatchedResidualPoly::Base(m) => code
                        .encode(m)
                        .into_iter()
                        .map(|value| GoldilocksExt2::from_base(value))
                        .collect(),
                    NativeWarpDirectBatchedResidualPoly::Extension(m) => code.encode_algebra(m),
                };
                statement.queries().iter().all(|query| answer(&codeword, query))
            });
            let opening = batching(&mut c, statements.len());
            (Ok((truth, opening)), c)
        },
        |_: Vec<ProverGroup>, _: Vec<GoldilocksExt2>, _: GoldilocksExt2, c: KeccakChallenger| {
            (Ok(()), c)
        },
    );
    result.unwrap().opening.reduction
}

#[test]
fn statements_are_true_exactly_when_claims_are() {
    let (transcript, data) = recorded();
    assert!(reduces_to_truth(&transcript, &data));
    for i in 0..transcript.claims.len() {
        let (mut transcript, data) = recorded();
        let claim = &mut transcript.claims[i];
        claim.value = match claim.value {
            RootIopOpeningValue::Base(value) => RootIopOpeningValue::Base(value.plus(g(1))),
            RootIopOpeningValue::Extension(value) => {
                RootIopOpeningValue::Extension(value.plus(e(1)))
            }
        };
        assert!(!reduces_to_truth(&transcript, &data));
    }
}

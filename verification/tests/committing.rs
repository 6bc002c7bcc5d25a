use std::sync::Arc;
use warp_whir::code::ReedSolomonCode;
use warp_whir::domain::{ROOT_WHIR_BASE_ORACLE, ROOT_WHIR_EXTENSION_ORACLE};
use warp_whir::error::{NativeWarpWhirRootProofError, NativeWarpWhirRootReductionError};
use warp_whir::field::{ExtensionField, Field};
use warp_whir::goldilocks::{Goldilocks, GoldilocksExt2};
use warp_whir::keccak::{KeccakChallenger, KeccakDigest};
use warp_whir::params::WhirConfig;
use warp_whir::proof_system::NativeWarpWhirRootProofSystem;
use warp_whir::root_iop::RootIopOracleField;
use warp_whir::transcript::Challenger;
use warp_whir::types::{NativeWarpWhirRootCommitment, NativeWarpWhirRootProverData, SharedHandle};

type System<'a> =
    NativeWarpWhirRootProofSystem<'a, Goldilocks, GoldilocksExt2, KeccakDigest, KeccakChallenger>;
type Failure = NativeWarpWhirRootProofError<()>;

fn g(n: u64) -> Goldilocks {
    Goldilocks::new(n)
}

fn e(n: u64) -> GoldilocksExt2 {
    GoldilocksExt2::from_base(g(n))
}

fn digest(n: u64) -> KeccakDigest {
    KeccakDigest { w0: n, w1: 0, w2: 0, w3: 0 }
}

fn config() -> WhirConfig {
    WhirConfig { num_variables: 1, starting_log_inv_rate: 1, commitment_ood_samples: 2 }
}

fn seed() -> KeccakChallenger {
    let mut seed = KeccakChallenger::new();
    seed.observe(g(99));
    seed
}

fn reduction(failure: Failure) -> NativeWarpWhirRootReductionError {
    match failure {
        NativeWarpWhirRootProofError::Reduction(error) => error,
        other => panic!("{:?}", other),
    }
}

#[test]
fn a_base_oracle_is_committed_in_its_own_transcript() {
    let code: ReedSolomonCode<Goldilocks> = ReedSolomonCode::new(1, 1, false);
    let config = config();
    let system: System = NativeWarpWhirRootProofSystem::new(&config, &code, seed());
    let message = vec![g(10), g(3)];
    let codeword = code.encode(&message);
    let result: Result<_, Failure> = system.commit_base_message_oracle::<_, (), (), (), _>(
        6,
        codeword,
        message,
        |m: Vec<Goldilocks>, mut c: KeccakChallenger| {
            let challenge = c.sample_algebra_element();
            (digest(1), (m, challenge), c)
        },
    );
    let (commitment, data) = result.unwrap();
    assert_eq!(commitment.oracle_id, 6);
    assert_eq!(commitment.log_len, 2);
    assert_eq!(commitment.field, RootIopOracleField::Base);
    assert!(matches!(
        commitment.commitment,
        NativeWarpWhirRootCommitment::BaseMessage(root) if root == digest(1)
    ));
    assert_eq!(data.oracle_id, 6);
    let NativeWarpWhirRootProverData::Base(data) = data.data else { panic!("wrong kind") };
    assert_eq!(data.message, vec![g(10), g(3)]);
    assert_eq!(data.prover_data.0, vec![g(10), g(3)]);
    let mut expected = seed();
    expected.observe(g(ROOT_WHIR_BASE_ORACLE));
    expected.observe(g(6));
    assert_eq!(data.prover_data.1, expected.sample_algebra_element());
    let mut after = data.challenger;
    assert_eq!(after.sample_algebra_element(), expected.sample_algebra_element());
}

#[test]
fn base_inputs_have_to_fit_the_code() {
    let code: ReedSolomonCode<Goldilocks> = ReedSolomonCode::new(1, 1, false);
    let config = config();
    let system: System = NativeWarpWhirRootProofSystem::new(&config, &code, seed());
    let message = vec![g(10), g(3)];
    let codeword = code.encode(&message);
    let attempt = |codeword: Vec<Goldilocks>, message: Vec<Goldilocks>| {
        let result: Result<_, Failure> = system.commit_base_message_oracle::<(), (), (), (), _>(
            4,
            codeword,
            message,
            |_: Vec<Goldilocks>, _: KeccakChallenger| panic!("committed"),
        );
        reduction(result.err().unwrap())
    };
    assert_eq!(
        attempt(codeword[..3].to_vec(), message.clone()),
        NativeWarpWhirRootReductionError::OracleValueLengthMismatch {
            oracle_id: 4,
            expected: 4,
            actual: 3
        }
    );
    assert_eq!(
        attempt(codeword.clone(), vec![g(1)]),
        NativeWarpWhirRootReductionError::OracleValueLengthMismatch {
            oracle_id: 4,
            expected: 2,
            actual: 1
        }
    );
    assert_eq!(
        attempt(codeword.clone(), vec![g(10), g(4)]),
        NativeWarpWhirRootReductionError::EncodingMismatch { oracle_id: 4 }
    );
    let mut tampered = codeword.clone();
    tampered[2] = tampered[2].plus(g(1));
    assert_eq!(
        attempt(tampered, message),
        NativeWarpWhirRootReductionError::EncodingMismatch { oracle_id: 4 }
    );
}

#[test]
fn a_stack_shares_one_root_and_numbers_its_columns() {
    let code: ReedSolomonCode<Goldilocks> = ReedSolomonCode::new(1, 1, true);
    let config = config();
    let system: System = NativeWarpWhirRootProofSystem::new(&config, &code, seed());
    let messages = [vec![g(1), g(2)], vec![g(3), g(4)], vec![g(5), g(6)]];
    let inputs = vec![
        (30, code.encode(&messages[0]), messages[0].clone()),
        (10, code.encode(&messages[1]), messages[1].clone()),
        (20, code.encode(&messages[2]), messages[2].clone()),
    ];
    let result: Result<_, Failure> = system.commit_shared_base_message_oracles::<(), _, (), (), _>(
        inputs,
        |m: Vec<Vec<Goldilocks>>, mut c: KeccakChallenger| {
            let challenge = c.sample_algebra_element();
            (digest(8), SharedHandle::new(Arc::new((m, challenge))), c)
        },
    );
    let out = result.unwrap();
    assert_eq!(out.len(), 3);
    let mut expected = seed();
    expected.observe(g(ROOT_WHIR_BASE_ORACLE));
    expected.observe(g(3));
    expected.observe(g(30));
    expected.observe(g(10));
    expected.observe(g(20));
    let expected = expected.sample_algebra_element();
    for (i, (commitment, data)) in out.into_iter().enumerate() {
        assert_eq!(commitment.oracle_id, [30, 10, 20][i]);
        assert_eq!(commitment.log_len, 2);
        assert_eq!(commitment.field, RootIopOracleField::Base);
        assert!(matches!(
            commitment.commitment,
            NativeWarpWhirRootCommitment::BaseMessageShared { root, column, width }
                if root == digest(8) && column == i && width == 3
        ));
        assert_eq!(data.oracle_id, [30, 10, 20][i]);
        let NativeWarpWhirRootProverData::BaseShared(data) = data.data else {
            panic!("wrong kind")
        };
        assert_eq!((data.column, data.width), (i, 3));
        assert_eq!(data.message, messages[i]);
        assert_eq!(data.shared.get().0, messages.to_vec());
        assert_eq!(data.shared.get().1, expected);
    }
}

#[test]
fn an_empty_stack_is_not_committed() {
    let code: ReedSolomonCode<Goldilocks> = ReedSolomonCode::new(1, 1, true);
    let config = config();
    let system: System = NativeWarpWhirRootProofSystem::new(&config, &code, seed());
    let result: Result<_, Failure> = system.commit_shared_base_message_oracles::<(), (), (), (), _>(
        Vec::new(),
        |_: Vec<Vec<Goldilocks>>, _: KeccakChallenger| panic!("committed"),
    );
    assert!(result.unwrap().is_empty());
}

#[test]
fn the_first_bad_column_of_a_stack_is_reported() {
    let code: ReedSolomonCode<Goldilocks> = ReedSolomonCode::new(1, 1, true);
    let config = config();
    let system: System = NativeWarpWhirRootProofSystem::new(&config, &code, seed());
    let good = vec![g(1), g(2)];
    let inputs = vec![
        (1, code.encode(&good), good.clone()),
        (2, code.encode(&good), vec![g(9), g(9)]),
        (3, Vec::new(), good.clone()),
    ];
    let result: Result<_, Failure> = system.commit_shared_base_message_oracles::<(), (), (), (), _>(
        inputs,
        |_: Vec<Vec<Goldilocks>>, _: KeccakChallenger| panic!("committed"),
    );
    assert_eq!(
        reduction(result.err().unwrap()),
        NativeWarpWhirRootReductionError::EncodingMismatch { oracle_id: 2 }
    );
}

#[test]
fn an_extension_oracle_is_decoded_and_committed() {
    for systematic in [false, true] {
        let code: ReedSolomonCode<Goldilocks> = ReedSolomonCode::new(1, 1, systematic);
        let config = config();
        let system: System = NativeWarpWhirRootProofSystem::new(&config, &code, seed());
        let message = vec![GoldilocksExt2::new(g(1), g(2)), GoldilocksExt2::new(g(3), g(4))];
        let codeword = code.encode_algebra(&message);
        let result: Result<_, Failure> = system.commit_extension_oracle::<(), (), _, (), _>(
            5,
            codeword,
            |m: Vec<GoldilocksExt2>, mut c: KeccakChallenger| {
                let challenge = c.sample_algebra_element();
                (digest(2), (m, challenge), c)
            },
        );
        let (commitment, data) = result.unwrap();
        assert_eq!(commitment.oracle_id, 5);
        assert_eq!(commitment.field, RootIopOracleField::Extension);
        assert!(matches!(
            commitment.commitment,
            NativeWarpWhirRootCommitment::ExtensionMessage(root) if root == digest(2)
        ));
        let NativeWarpWhirRootProverData::ExtensionMessage(data) = data.data else {
            panic!("wrong kind")
        };
        assert_eq!(data.message, message);
        assert_eq!(data.prover_data.0, message);
        let mut expected = seed();
        expected.observe(g(ROOT_WHIR_EXTENSION_ORACLE));
        expected.observe(g(5));
        assert_eq!(data.prover_data.1, expected.sample_algebra_element());
    }
}

#[test]
fn tables_that_are_no_codewords_are_refused() {
    let code: ReedSolomonCode<Goldilocks> = ReedSolomonCode::new(1, 1, false);
    let config = config();
    let system: System = NativeWarpWhirRootProofSystem::new(&config, &code, seed());
    let attempt = |codeword: Vec<GoldilocksExt2>| {
        let result: Result<_, Failure> = system.commit_extension_oracle::<(), (), (), (), _>(
            5,
            codeword,
            |_: Vec<GoldilocksExt2>, _: KeccakChallenger| panic!("committed"),
        );
        reduction(result.err().unwrap())
    };
    assert_eq!(
        attempt(vec![e(1), e(2), e(3), e(4)]),
        NativeWarpWhirRootReductionError::EncodingMismatch { oracle_id: 5 }
    );
    assert_eq!(
        attempt(vec![e(1), e(2)]),
        NativeWarpWhirRootReductionError::OracleValueLengthMismatch {
            oracle_id: 5,
            expected: 4,
            actual: 2
        }
    );
}

#[test]
fn extension_codeword_and_message_have_to_agree() {
    let code: ReedSolomonCode<Goldilocks> = ReedSolomonCode::new(1, 1, false);
    let config = config();
    let system: System = NativeWarpWhirRootProofSystem::new(&config, &code, seed());
    let message = vec![e(7), e(8)];
    let codeword = code.encode_algebra(&message);
    let attempt = |codeword: Vec<GoldilocksExt2>, message: Vec<GoldilocksExt2>| {
        let result: Result<_, Failure> =
            system.commit_extension_oracle_with_message::<(), (), (), (), _>(
                5,
                codeword,
                message,
                |m: Vec<GoldilocksExt2>, c: KeccakChallenger| {
                    assert_eq!(m, vec![e(7), e(8)]);
                    (digest(2), (), c)
                },
            );
        result.map(|(commitment, _)| commitment.oracle_id).map_err(reduction)
    };
    assert_eq!(attempt(codeword.clone(), message.clone()), Ok(5));
    assert_eq!(
        attempt(codeword.clone(), vec![e(8), e(7)]),
        Err(NativeWarpWhirRootReductionError::EncodingMismatch { oracle_id: 5 })
    );
    assert_eq!(
        attempt(codeword.clone(), vec![e(8)]),
        Err(NativeWarpWhirRootReductionError::OracleValueLengthMismatch {
            oracle_id: 5,
            expected: 2,
            actual: 1
        })
    );
    assert_eq!(
        attempt(Vec::new(), message),
        Err(NativeWarpWhirRootReductionError::OracleValueLengthMismatch {
            oracle_id: 5,
            expected: 4,
            actual: 0
        })
    );
}

#[test]
fn an_extension_message_is_committed_without_a_codeword() {
    let code: ReedSolomonCode<Goldilocks> = ReedSolomonCode::new(1, 1, false);
    let config = config();
    let system: System = NativeWarpWhirRootProofSystem::new(&config, &code, seed());
    let attempt = |message: Vec<GoldilocksExt2>| {
        let result: Result<_, Failure> = system.commit_extension_message_oracle::<(), (), _, (), _>(
            5,
            message,
            |m: Vec<GoldilocksExt2>, c: KeccakChallenger| {
                assert_eq!(m.len(), 2);
                (digest(2), m, c)
            },
        );
        result.map_err(reduction)
    };
    let (commitment, data) = attempt(vec![e(1), e(2)]).unwrap();
    assert_eq!(commitment.log_len, 2);
    let NativeWarpWhirRootProverData::ExtensionMessage(data) = data.data else {
        panic!("wrong kind")
    };
    assert_eq!(data.prover_data, vec![e(1), e(2)]);
    assert_eq!(
        attempt(vec![e(1)]).err().unwrap(),
        NativeWarpWhirRootReductionError::OracleValueLengthMismatch {
            oracle_id: 5,
            expected: 2,
            actual: 1
        }
    );
}

#[test]
fn roles_and_oracles_have_different_transcripts() {
    let code: ReedSolomonCode<Goldilocks> = ReedSolomonCode::new(1, 1, false);
    let config = config();
    let system: System = NativeWarpWhirRootProofSystem::new(&config, &code, seed());
    let base = system.base_oracle_challenger(1).sample_algebra_element();
    let other = system.base_oracle_challenger(2).sample_algebra_element();
    let extension = system.extension_oracle_challenger(1).sample_algebra_element();
    assert_ne!(base, other);
    assert_ne!(base, extension);
    assert_ne!(other, extension);
    assert_eq!(base, system.base_oracle_challenger(1).sample_algebra_element());
}

#[test]
fn the_order_of_a_stack_is_part_of_its_transcript() {
    let code: ReedSolomonCode<Goldilocks> = ReedSolomonCode::new(1, 1, true);
    let config = config();
    let system: System = NativeWarpWhirRootProofSystem::new(&config, &code, seed());
    assert_eq!(*system.message_pcs(), config);
    let message = vec![g(1), g(2)];
    let challenge = |ids: &[usize]| {
        let inputs =
            ids.iter().map(|id| (*id, code.encode(&message), message.clone())).collect();
        let result: Result<_, Failure> =
            system.commit_shared_base_message_oracles::<(), _, (), (), _>(
                inputs,
                |_: Vec<Vec<Goldilocks>>, mut c: KeccakChallenger| {
                    let challenge = c.sample_algebra_element();
                    (digest(8), SharedHandle::new(Arc::new(challenge)), c)
                },
            );
        match &result.unwrap()[0].1.data {
            NativeWarpWhirRootProverData::BaseShared(data) => *data.shared.get(),
            _ => panic!("wrong kind"),
        }
    };
    assert_eq!(challenge(&[1, 2]), challenge(&[1, 2]));
    assert_ne!(challenge(&[1, 2]), challenge(&[2, 1]));
    assert_ne!(challenge(&[1, 2]), challenge(&[1]));
    assert_ne!(challenge(&[1]), system.base_oracle_challenger(1).sample_algebra_element());
}

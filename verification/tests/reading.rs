use warp_whir::decimal::append_decimal;
use warp_whir::field::{ExtensionField, Field};
use warp_whir::finalize::{
    SumcheckProof, WhirAccumulatorOpeningProof, WhirPesatProof, WhirWarpFinalizerProof,
};
use warp_whir::goldilocks::{Goldilocks, GoldilocksExt2};
use warp_whir::keccak::{KeccakChallenger, KeccakDigest};
use warp_whir::params::WhirConfig;
use warp_whir::reader::{
    CommitmentReader, ParsedCommitment, VerifierError, WhirProof, WhirRoundProof,
};
use warp_whir::transcript::Challenger;

type Proof = WhirProof<GoldilocksExt2, KeccakDigest>;
type Parsed = ParsedCommitment<GoldilocksExt2, KeccakDigest>;

fn e(n: u64) -> GoldilocksExt2 {
    GoldilocksExt2::from_base(Goldilocks::new(n))
}

fn digest(n: u64) -> KeccakDigest {
    KeccakDigest { w0: n, w1: n + 1, w2: n + 2, w3: n + 3 }
}

fn example() -> Proof {
    WhirProof {
        initial_commitment: Some(digest(10)),
        initial_ood_answers: vec![e(1), e(2), e(3)],
        rounds: vec![
            WhirRoundProof { commitment: Some(digest(20)), ood_answers: vec![e(4)] },
            WhirRoundProof { commitment: None, ood_answers: vec![e(5)] },
        ],
    }
}

fn square(x: GoldilocksExt2) -> GoldilocksExt2 {
    x.times(x)
}

#[test]
fn the_initial_commitment_is_read_with_its_constraints() {
    let mut challenger = KeccakChallenger::new();
    let parsed: Parsed = ParsedCommitment::parse(&example(), &mut challenger, 3, 2).unwrap();
    assert_eq!(parsed.root, digest(10));
    assert_eq!(parsed.ood_statement.num_variables, 3);
    assert_eq!(parsed.ood_statement.constraints.len(), 2);

    let mut expected = KeccakChallenger::new();
    expected.observe_commitment(digest(10));
    let y = expected.sample_algebra_element();
    expected.observe_algebra_element(e(1));
    let z = expected.sample_algebra_element();
    expected.observe_algebra_element(e(2));
    let constraints = &parsed.ood_statement.constraints;
    assert_eq!(constraints[0].point, vec![square(square(y)), square(y), y]);
    assert_eq!(constraints[0].value, e(1));
    assert_eq!(constraints[1].point, vec![square(square(z)), square(z), z]);
    assert_eq!(constraints[1].value, e(2));
    assert_ne!(y, z);
    assert_eq!(challenger.sample_algebra_element(), expected.sample_algebra_element());
}

#[test]
fn challenges_depend_on_what_was_absorbed() {
    let mut empty = KeccakChallenger::new();
    let mut base = KeccakChallenger::new();
    base.observe(Goldilocks::new(5));
    let mut extension = KeccakChallenger::new();
    extension.observe_algebra_element(e(6));
    let mut root = KeccakChallenger::new();
    root.observe_commitment(digest(7));
    let mut fork = root.fork();
    let drawn = [
        empty.sample_algebra_element(),
        base.sample_algebra_element(),
        extension.sample_algebra_element(),
        root.sample_algebra_element(),
    ];
    for i in 0..4 {
        for j in 0..i {
            assert_ne!(drawn[i], drawn[j]);
        }
    }
    assert_eq!(fork.sample_algebra_element(), drawn[3]);
    assert_ne!(root.sample_algebra_element(), drawn[3]);
}

#[test]
fn a_round_is_read_by_its_index() {
    let mut challenger = KeccakChallenger::new();
    let parsed: Parsed =
        ParsedCommitment::parse_with_round(&example(), &mut challenger, 1, 1, Some(0)).unwrap();
    assert_eq!(parsed.root, digest(20));
    assert_eq!(parsed.ood_statement.constraints.len(), 1);
    assert_eq!(parsed.ood_statement.constraints[0].value, e(4));
    let none: Parsed =
        ParsedCommitment::parse_with_round(&example(), &mut challenger, 1, 0, None).unwrap();
    assert_eq!(none.root, digest(10));
    assert!(none.ood_statement.constraints.is_empty());
}

fn details(result: Result<Parsed, VerifierError>) -> String {
    match result {
        Err(VerifierError::MalformedProof { details }) => details,
        other => panic!("{:?}", other),
    }
}

#[test]
fn missing_parts_are_named() {
    let mut challenger = KeccakChallenger::new();
    let mut proof = example();
    proof.initial_commitment = None;
    assert_eq!(
        details(ParsedCommitment::parse(&proof, &mut challenger, 1, 1)),
        "missing initial commitment"
    );
    assert_eq!(
        details(ParsedCommitment::parse_with_round(&proof, &mut challenger, 1, 1, Some(1))),
        "missing commitment for round 1"
    );
    // Nothing has been absorbed.
    let drawn = challenger.sample_algebra_element();
    assert_eq!(drawn, KeccakChallenger::new().sample_algebra_element());
}

#[test]
fn rounds_that_are_not_there_are_refused() {
    let mut challenger = KeccakChallenger::new();
    let result: Result<Parsed, VerifierError> =
        ParsedCommitment::parse_with_round(&example(), &mut challenger, 1, 1, Some(2));
    assert!(matches!(result, Err(VerifierError::InvalidRoundIndex { index: 2 })));
}

#[test]
fn a_missing_answer_stops_the_reading_after_the_draw() {
    let mut challenger = KeccakChallenger::new();
    assert_eq!(
        details(ParsedCommitment::parse_with_round(&example(), &mut challenger, 1, 5, Some(0))),
        "missing OOD answer 1 for commitment"
    );
    let mut expected = KeccakChallenger::new();
    expected.observe_commitment(digest(20));
    expected.sample_algebra_element();
    expected.observe_algebra_element(e(4));
    expected.sample_algebra_element();
    assert_eq!(challenger.sample_algebra_element(), expected.sample_algebra_element());
}

#[test]
fn the_reader_uses_its_parameters() {
    let config = WhirConfig { num_variables: 2, starting_log_inv_rate: 1, commitment_ood_samples: 3 };
    let reader = CommitmentReader::new(&config);
    assert_eq!(reader.num_variables, 2);
    assert_eq!(*reader, config);
    let mut challenger = KeccakChallenger::new();
    let parsed: Parsed = reader.parse_commitment(&example(), &mut challenger).unwrap();
    assert_eq!(parsed.ood_statement.constraints.len(), 3);
    assert_eq!(parsed.ood_statement.constraints[2].point.len(), 2);
    let mut again = KeccakChallenger::new();
    let direct: Parsed = ParsedCommitment::parse(&example(), &mut again, 2, 3).unwrap();
    assert_eq!(direct.ood_statement.constraints[2].point, parsed.ood_statement.constraints[2].point);
}

#[test]
fn numbers_are_written_in_decimal() {
    for n in [0usize, 7, 10, 42, 99, 100, 1234567890, usize::MAX] {
        let mut text = String::from("n = ");
        append_decimal(&mut text, n);
        assert_eq!(text, format!("n = {}", n));
    }
}

#[test]
fn finalizer_proofs_hold_both_checks() {
    let proof = WhirWarpFinalizerProof {
        accumulator_opening: WhirAccumulatorOpeningProof { pcs_proof: 1u8 },
        pesat: WhirPesatProof {
            decider_sumcheck: SumcheckProof { rounds: vec![vec![e(1), e(2)]] },
            terminal_values: vec![e(3)],
            pcs_proof: 2u8,
        },
    };
    let copy = proof.clone();
    assert_eq!(copy.accumulator_opening.pcs_proof, 1);
    assert_eq!(copy.pesat.pcs_proof, 2);
    assert_eq!(copy.pesat.terminal_values, vec![e(3)]);
    assert_eq!(copy.pesat.decider_sumcheck.rounds, vec![vec![e(1), e(2)]]);
}

#[test]
fn a_point_does_not_depend_on_its_own_answer() {
    let read = |answers: Vec<GoldilocksExt2>| {
        let mut proof = example();
        proof.initial_ood_answers = answers;
        let mut challenger = KeccakChallenger::new();
        let parsed: Parsed = ParsedCommitment::parse(&proof, &mut challenger, 1, 3).unwrap();
        let points: Vec<GoldilocksExt2> =
            parsed.ood_statement.constraints.iter().map(|c| c.point[0]).collect();
        points
    };
    let a = read(vec![e(1), e(2), e(3)]);
    let b = read(vec![e(1), e(5), e(3)]);
    assert_eq!(a[0], b[0]);
    assert_eq!(a[1], b[1]);
    assert_ne!(a[2], b[2]);
}

#[test]
fn surplus_answers_and_other_rounds_are_not_read() {
    let read = |proof: &Proof, round: Option<usize>, samples: usize| {
        let mut challenger = KeccakChallenger::new();
        let result: Result<Parsed, VerifierError> =
            ParsedCommitment::parse_with_round(proof, &mut challenger, 2, samples, round);
        (format!("{:?}", result), challenger.sample_algebra_element())
    };
    let mut other = example();
    other.initial_ood_answers = vec![e(1), e(2), e(70), e(80)];
    other.rounds[1] = WhirRoundProof { commitment: Some(digest(90)), ood_answers: vec![] };
    other.rounds[0].ood_answers.push(e(60));
    for samples in 0..=2 {
        assert_eq!(read(&example(), None, samples), read(&other, None, samples));
    }
    assert_ne!(read(&example(), None, 3), read(&other, None, 3));
    other.initial_commitment = None;
    for samples in 0..=1 {
        assert_eq!(read(&example(), Some(0), samples), read(&other, Some(0), samples));
    }
    assert_ne!(read(&example(), Some(0), 2), read(&other, Some(0), 2));
}

#[test]
fn initial_readings_agree() {
    let mut other = example();
    other.rounds.clear();
    for samples in 0..=4 {
        let config = WhirConfig {
            num_variables: 2,
            starting_log_inv_rate: 1,
            commitment_ood_samples: samples,
        };
        let (mut a, mut b, mut c) =
            (KeccakChallenger::new(), KeccakChallenger::new(), KeccakChallenger::new());
        let by_reader: Result<Parsed, VerifierError> =
            CommitmentReader::new(&config).parse_commitment(&example(), &mut a);
        let by_parse: Result<Parsed, VerifierError> =
            ParsedCommitment::parse(&other, &mut b, 2, samples);
        let without_round: Result<Parsed, VerifierError> =
            ParsedCommitment::parse_with_round(&example(), &mut c, 2, samples, None);
        assert_eq!(by_reader.is_ok(), samples <= 3);
        assert_eq!(format!("{:?}", by_reader), format!("{:?}", by_parse));
        assert_eq!(format!("{:?}", by_reader), format!("{:?}", without_round));
        let next = a.sample_algebra_element();
        assert_eq!(next, b.sample_algebra_element());
        assert_eq!(next, c.sample_algebra_element());
    }
}

#[test]
fn the_number_of_variables_matters_only_where_a_point_is_drawn() {
    let mut challenger = KeccakChallenger::new();
    let parsed: Parsed =
        ParsedCommitment::parse(&example(), &mut challenger, usize::MAX, 0).unwrap();
    assert_eq!(parsed.ood_statement.num_variables, usize::MAX);
    let mut missing = example();
    missing.initial_commitment = None;
    assert_eq!(
        details(ParsedCommitment::parse(&missing, &mut challenger, usize::MAX, 1)),
        "missing initial commitment"
    );
}

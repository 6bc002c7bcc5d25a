//! Reading commitments off a proof.

use crate::decimal::{append_decimal, decimal};
use crate::field::{ExtensionField, TwoAdicField, MAX_ELEMENT_BYTES};
use crate::multilinear::expanded_point;
use crate::params::WhirConfig;
use crate::statement::{EqConstraints, EqStatement};
use crate::transcript::{Challenger, TranscriptItem};
use vstd::prelude::*;
use vstd::string::*;

verus! {

/// The part of a round of a proof that is read here.
#[derive(Debug)]
pub struct WhirRoundProof<EF, D> {
    /// The commitment of the round.
    pub commitment: Option<D>,
    /// The claimed values at the out-of-domain points of the round.
    pub ood_answers: Vec<EF>,
}

/// The part of a proof that is read here.
#[derive(Debug)]
pub struct WhirProof<EF, D> {
    /// The initial commitment.
    pub initial_commitment: Option<D>,
    /// The claimed values at the initial out-of-domain points.
    pub initial_ood_answers: Vec<EF>,
    /// The rounds.
    pub rounds: Vec<WhirRoundProof<EF, D>>,
}

/// A proof cannot be read.
#[derive(Debug)]
pub enum VerifierError {
    /// Something is missing from the proof.
    MalformedProof {
        /// What is missing.
        details: String,
    },
    /// The proof has no round with the index.
    InvalidRoundIndex {
        /// The index.
        index: usize,
    },
}

/// The model of a [`VerifierError`].
pub enum ReadError {
    /// Something is missing from the proof.
    MalformedProof { details: Seq<char> },
    /// The proof has no round with the index.
    InvalidRoundIndex { index: usize },
}

impl View for VerifierError {
    type V = ReadError;

    open spec fn view(&self) -> ReadError {
        match *self {
            VerifierError::MalformedProof { details } => ReadError::MalformedProof {
                details: details@,
            },
            VerifierError::InvalidRoundIndex { index } => ReadError::InvalidRoundIndex { index },
        }
    }
}

/// The commitment that is read, with the claimed values at its out-of-domain
/// points: that of a round, or the initial one.
pub open spec fn commitment_of<EF, D>(
    proof_read: WhirProof<EF, D>,
    round_index: Option<usize>,
) -> Result<(D, Seq<EF>), ReadError> {
    match round_index {
        None => match proof_read.initial_commitment {
            Some(root) => Ok((root, proof_read.initial_ood_answers@)),
            None => Err(ReadError::MalformedProof { details: "missing initial commitment"@ }),
        },
        Some(index) => if index >= proof_read.rounds@.len() {
            Err(ReadError::InvalidRoundIndex { index })
        } else {
            let round = proof_read.rounds@[index as int];
            match round.commitment {
                Some(root) => Ok((root, round.ood_answers@)),
                None => Err(
                    ReadError::MalformedProof {
                        details: "missing commitment for round "@ + decimal(index as nat),
                    },
                ),
            }
        },
    }
}

/// The transcript after `n` out-of-domain samples: for each, a challenge is
/// drawn and the claimed value is absorbed.
pub open spec fn ood_history<F, EF, D>(
    history: Seq<TranscriptItem<F, EF, D>>,
    answers: Seq<EF>,
    n: nat,
) -> Seq<TranscriptItem<F, EF, D>>
    decreases n,
{
    if n == 0 {
        history
    } else {
        ood_history(history, answers, (n - 1) as nat).push(TranscriptItem::Sample).push(
            TranscriptItem::Extension(answers[n - 1]),
        )
    }
}

/// The out-of-domain constraints: at the point that the challenge drawn for the
/// sample expands to, the polynomial takes the claimed value.
pub open spec fn ood_constraints<
    F: TwoAdicField,
    EF: ExtensionField<F>,
    D,
    C: Challenger<F, EF, D>,
>(
    history: Seq<TranscriptItem<F, EF, D>>,
    answers: Seq<EF>,
    num_variables: nat,
    n: nat,
) -> Seq<(Seq<EF>, EF)> {
    Seq::new(
        n,
        |i: int|
            (
                expanded_point(
                    C::challenge(ood_history(history, answers, i as nat)),
                    num_variables,
                ),
                answers[i],
            ),
    )
}

/// The error for a missing out-of-domain answer.
pub open spec fn missing_answer(index: nat) -> ReadError {
    ReadError::MalformedProof {
        details: "missing OOD answer "@ + decimal(index) + " for commitment"@,
    }
}

/// Where a point is drawn for a commitment, its coordinates can be held in
/// memory.
pub open spec fn points_addressable<EF, D>(
    selected: Result<(D, Seq<EF>), ReadError>,
    num_variables: nat,
    ood_samples: nat,
) -> bool {
    selected is Ok && ood_samples > 0 ==> num_variables * MAX_ELEMENT_BYTES <= isize::MAX
}

/// A commitment read off a proof, with the out-of-domain constraints on the
/// committed polynomial.
#[derive(Clone, Debug)]
pub struct ParsedCommitment<F, D> {
    /// Root of the committed table.
    pub root: D,
    /// Out-of-domain points and the claimed values at them.
    pub ood_statement: EqStatement<F>,
}

/// What reading a commitment gives, and the history of the transcript after it.
///
/// The root is absorbed. Then, for each out-of-domain sample, a challenge is
/// drawn, its answer is looked up, and the answer is absorbed. If an answer is
/// missing, the reading stops after the draw.
pub open spec fn parsed<F: TwoAdicField, EF: ExtensionField<F>, D, C: Challenger<F, EF, D>>(
    selected: Result<(D, Seq<EF>), ReadError>,
    history: Seq<TranscriptItem<F, EF, D>>,
    num_variables: usize,
    ood_samples: usize,
    r: Result<ParsedCommitment<EF, D>, VerifierError>,
    after: Seq<TranscriptItem<F, EF, D>>,
) -> bool {
    match selected {
        Err(e) => r matches Err(found) && found@ == e && after == history,
        Ok((root, answers)) => {
            let bound = history.push(TranscriptItem::Root(root));
            if ood_samples <= answers.len() {
                &&& r matches Ok(commitment)
                &&& commitment.root == root
                &&& commitment.ood_statement.well_formed()
                &&& commitment.ood_statement@ == (EqConstraints {
                    num_variables,
                    constraints: ood_constraints::<F, EF, D, C>(
                        bound,
                        answers,
                        num_variables as nat,
                        ood_samples as nat,
                    ),
                })
                &&& after == ood_history(bound, answers, ood_samples as nat)
            } else {
                &&& r matches Err(found)
                &&& found@ == missing_answer(answers.len())
                &&& after == ood_history(bound, answers, answers.len()).push(TranscriptItem::Sample)
            }
        },
    }
}

impl<EF, D: Copy> ParsedCommitment<EF, D> {
    /// Reads the initial commitment off a proof.
    pub fn parse<F: TwoAdicField, C: Challenger<F, EF, D>>(
        proof_read: &WhirProof<EF, D>,
        challenger: &mut C,
        num_variables: usize,
        ood_samples: usize,
    ) -> (r: Result<Self, VerifierError>) where EF: ExtensionField<F>
        requires
            points_addressable(
                commitment_of(*proof_read, None),
                num_variables as nat,
                ood_samples as nat,
            ),
        ensures
            parsed::<F, EF, D, C>(
                commitment_of(*proof_read, None),
                old(challenger).history(),
                num_variables,
                ood_samples,
                r,
                final(challenger).history(),
            ),
    {
        Self::parse_with_round(proof_read, challenger, num_variables, ood_samples, None)
    }

    /// Reads the commitment of a round off a proof, or the initial one.
    pub fn parse_with_round<F: TwoAdicField, C: Challenger<F, EF, D>>(
        proof_read: &WhirProof<EF, D>,
        challenger: &mut C,
        num_variables: usize,
        ood_samples: usize,
        round_index: Option<usize>,
    ) -> (r: Result<Self, VerifierError>) where EF: ExtensionField<F>
        requires
            points_addressable(
                commitment_of(*proof_read, round_index),
                num_variables as nat,
                ood_samples as nat,
            ),
        ensures
            parsed::<F, EF, D, C>(
                commitment_of(*proof_read, round_index),
                old(challenger).history(),
                num_variables,
                ood_samples,
                r,
                final(challenger).history(),
            ),
    {
        let ghost selected = commitment_of(*proof_read, round_index);
        let (root, ood_answers): (D, &Vec<EF>) = match round_index {
            None => match proof_read.initial_commitment {
                Some(root) => (root, &proof_read.initial_ood_answers),
                None => {
                    return Err(
                        VerifierError::MalformedProof {
                            details: "missing initial commitment".to_owned(),
                        },
                    );
                },
            },
            Some(index) => {
                if index >= proof_read.rounds.len() {
                    return Err(VerifierError::InvalidRoundIndex { index });
                }
                let round = &proof_read.rounds[index];
                match round.commitment {
                    Some(root) => (root, &round.ood_answers),
                    None => {
                        let mut details: String = "missing commitment for round ".to_owned();
                        append_decimal(&mut details, index);
                        return Err(VerifierError::MalformedProof { details });
                    },
                }
            },
        };
        challenger.observe_commitment(root);
        let ghost bound = challenger.history();
        let mut ood_statement: EqStatement<EF> = EqStatement::initialize(num_variables);
        let mut i: usize = 0;
        assert(ood_statement@.constraints =~= ood_constraints::<F, EF, D, C>(
            bound,
            ood_answers@,
            num_variables as nat,
            0,
        ));
        while i < ood_samples
            invariant
                i <= ood_samples,
                i <= ood_answers@.len(),
                selected == commitment_of(*proof_read, round_index),
                selected == Ok::<(D, Seq<EF>), ReadError>((root, ood_answers@)),
                bound == old(challenger).history().push(TranscriptItem::Root(root)),
                points_addressable(selected, num_variables as nat, ood_samples as nat),
                challenger.history() == ood_history(bound, ood_answers@, i as nat),
                ood_statement.well_formed(),
                ood_statement.num_variables == num_variables,
                ood_statement@.constraints == ood_constraints::<F, EF, D, C>(
                    bound,
                    ood_answers@,
                    num_variables as nat,
                    i as nat,
                ),
            decreases ood_samples - i,
        {
            let point = challenger.sample_algebra_element();
            let point = EF::expand_from_univariate(point, num_variables);
            if i >= ood_answers.len() {
                let mut details: String = "missing OOD answer ".to_owned();
                append_decimal(&mut details, i);
                details.append(" for commitment");
                return Err(VerifierError::MalformedProof { details });
            }
            let eval = ood_answers[i];
            challenger.observe_algebra_element(eval);
            ood_statement.add_evaluated_constraint(point, eval);
            i = i + 1;
            assert(ood_statement@.constraints =~= ood_constraints::<F, EF, D, C>(
                bound,
                ood_answers@,
                num_variables as nat,
                i as nat,
            ));
        }
        Ok(ParsedCommitment { root, ood_statement })
    }
}

/// Reads initial commitments with the parameters of the opening protocol.
#[derive(Debug)]
pub struct CommitmentReader<'a>(&'a WhirConfig);

impl<'a> CommitmentReader<'a> {
    /// The parameters of the opening protocol.
    pub closed spec fn config(self) -> WhirConfig {
        *self.0
    }

    /// A reader with the given parameters.
    pub fn new(params: &'a WhirConfig) -> (r: Self)
        ensures
            r.config() == *params,
    {
        CommitmentReader(params)
    }

    /// Reads the initial commitment off a proof.
    pub fn parse_commitment<
        F: TwoAdicField,
        EF: ExtensionField<F>,
        D: Copy,
        C: Challenger<F, EF, D>,
    >(&self, proof_read: &WhirProof<EF, D>, challenger: &mut C) -> (r: Result<
        ParsedCommitment<EF, D>,
        VerifierError,
    >)
        requires
            points_addressable(
                commitment_of(*proof_read, None),
                self.config().num_variables as nat,
                self.config().commitment_ood_samples as nat,
            ),
        ensures
            parsed::<F, EF, D, C>(
                commitment_of(*proof_read, None),
                old(challenger).history(),
                self.config().num_variables,
                self.config().commitment_ood_samples,
                r,
                final(challenger).history(),
            ),
    {
        ParsedCommitment::parse(
            proof_read,
            challenger,
            self.0.num_variables,
            self.0.commitment_ood_samples,
        )
    }
}

impl<'a> core::ops::Deref for CommitmentReader<'a> {
    type Target = WhirConfig;

    fn deref(&self) -> (r: &WhirConfig)
        ensures
            *r == self.config(),
    {
        self.0
    }
}

/// Every out-of-domain point is fixed before its answer is read: the points do
/// not depend on the answers from their own on, and the transcript up to the
/// draw of a point does not either.
pub proof fn ood_points_precede_their_answers<
    F: TwoAdicField,
    EF: ExtensionField<F>,
    D,
    C: Challenger<F, EF, D>,
>(
    history: Seq<TranscriptItem<F, EF, D>>,
    a: Seq<EF>,
    b: Seq<EF>,
    num_variables: nat,
    n: nat,
    i: nat,
)
    requires
        i < n,
        forall|j: int| 0 <= j < i ==> a[j] == b[j],
    ensures
        ood_history(history, a, i) == ood_history(history, b, i),
        ood_constraints::<F, EF, D, C>(history, a, num_variables, n)[i as int].0
            == ood_constraints::<F, EF, D, C>(history, b, num_variables, n)[i as int].0,
{
    lemma_ood_history_prefix(history, a, b, i);
}

proof fn lemma_ood_history_prefix<F, EF, D>(
    history: Seq<TranscriptItem<F, EF, D>>,
    a: Seq<EF>,
    b: Seq<EF>,
    n: nat,
)
    requires
        forall|j: int| 0 <= j < n ==> a[j] == b[j],
    ensures
        ood_history(history, a, n) == ood_history(history, b, n),
    decreases n,
{
    if n > 0 {
        lemma_ood_history_prefix(history, a, b, (n - 1) as nat);
    }
}

/// Both gave the same commitment with the same constraints, or the same error.
pub open spec fn same_reading<EF, D>(
    a: Result<ParsedCommitment<EF, D>, VerifierError>,
    b: Result<ParsedCommitment<EF, D>, VerifierError>,
) -> bool {
    match (a, b) {
        (Ok(x), Ok(y)) => x.root == y.root && x.ood_statement@ == y.ood_statement@,
        (Err(x), Err(y)) => x@ == y@,
        _ => false,
    }
}

/// The first `n` answers are the same; where there are fewer, all are.
pub open spec fn same_answers<EF>(a: Seq<EF>, b: Seq<EF>, n: nat) -> bool {
    if a.len() >= n {
        b.len() >= n && a.take(n as int) == b.take(n as int)
    } else {
        a == b
    }
}

/// Both proofs have the same commitment where one is read, with the same answers
/// to the samples that are drawn for it. Nothing is said of other answers, nor
/// of the commitments and answers of other rounds.
pub open spec fn agree_on<EF, D>(
    a: WhirProof<EF, D>,
    b: WhirProof<EF, D>,
    round_index: Option<usize>,
    ood_samples: nat,
) -> bool {
    match round_index {
        None => a.initial_commitment == b.initial_commitment && same_answers(
            a.initial_ood_answers@,
            b.initial_ood_answers@,
            ood_samples,
        ),
        Some(index) => index < a.rounds@.len() && index < b.rounds@.len()
            && a.rounds@[index as int].commitment == b.rounds@[index as int].commitment
            && same_answers(
            a.rounds@[index as int].ood_answers@,
            b.rounds@[index as int].ood_answers@,
            ood_samples,
        ),
    }
}

/// Only the selected commitment and the answers to the samples drawn for it are
/// read: surplus answers, and the commitments and answers of other rounds, are
/// neither read nor absorbed. Two proofs that agree on the selected ones, read
/// after the same transcript, give the same commitment with the same
/// constraints, or the same error, and leave the same transcript.
pub proof fn only_selected_answers_are_read<
    F: TwoAdicField,
    EF: ExtensionField<F>,
    D,
    C: Challenger<F, EF, D>,
>(
    a: WhirProof<EF, D>,
    b: WhirProof<EF, D>,
    round_index: Option<usize>,
    history: Seq<TranscriptItem<F, EF, D>>,
    num_variables: usize,
    ood_samples: usize,
    from_a: Result<ParsedCommitment<EF, D>, VerifierError>,
    after_a: Seq<TranscriptItem<F, EF, D>>,
    from_b: Result<ParsedCommitment<EF, D>, VerifierError>,
    after_b: Seq<TranscriptItem<F, EF, D>>,
)
    requires
        agree_on(a, b, round_index, ood_samples as nat),
        parsed::<F, EF, D, C>(
            commitment_of(a, round_index),
            history,
            num_variables,
            ood_samples,
            from_a,
            after_a,
        ),
        parsed::<F, EF, D, C>(
            commitment_of(b, round_index),
            history,
            num_variables,
            ood_samples,
            from_b,
            after_b,
        ),
    ensures
        same_reading(from_a, from_b),
        after_a == after_b,
{
    if let Ok((root, x)) = commitment_of(a, round_index) {
        let y = commitment_of(b, round_index)->Ok_0.1;
        let n = ood_samples as nat;
        let bound = history.push(TranscriptItem::Root(root));
        if x.len() >= n {
            assert forall|j: int| 0 <= j < n implies x[j] == y[j] by {
                assert(x.take(n as int)[j] == y.take(n as int)[j]);
            }
            lemma_ood_history_prefix(bound, x, y, n);
            let (s, t) = (
                ood_constraints::<F, EF, D, C>(bound, x, num_variables as nat, n),
                ood_constraints::<F, EF, D, C>(bound, y, num_variables as nat, n),
            );
            assert forall|j: int| 0 <= j < n implies s[j] == t[j] by {
                lemma_ood_history_prefix(bound, x, y, j as nat);
            }
            assert(s =~= t);
        }
    }
}

/// A reader with the parameters of a protocol, [`ParsedCommitment::parse`] with
/// the same numbers, and [`ParsedCommitment::parse_with_round`] without a round
/// read the same: the initial commitment and nothing else. After the same
/// transcript they give the same and leave the same transcript, whatever the
/// rounds of the proofs are.
pub proof fn initial_readings_agree<
    F: TwoAdicField,
    EF: ExtensionField<F>,
    D,
    C: Challenger<F, EF, D>,
>(
    config: WhirConfig,
    a: WhirProof<EF, D>,
    b: WhirProof<EF, D>,
    c: WhirProof<EF, D>,
    history: Seq<TranscriptItem<F, EF, D>>,
    by_reader: Result<ParsedCommitment<EF, D>, VerifierError>,
    after_reader: Seq<TranscriptItem<F, EF, D>>,
    by_parse: Result<ParsedCommitment<EF, D>, VerifierError>,
    after_parse: Seq<TranscriptItem<F, EF, D>>,
    without_round: Result<ParsedCommitment<EF, D>, VerifierError>,
    after_without_round: Seq<TranscriptItem<F, EF, D>>,
)
    requires
        a.initial_commitment == b.initial_commitment,
        a.initial_ood_answers@ == b.initial_ood_answers@,
        a.initial_commitment == c.initial_commitment,
        a.initial_ood_answers@ == c.initial_ood_answers@,
        parsed::<F, EF, D, C>(
            commitment_of(a, None),
            history,
            config.num_variables,
            config.commitment_ood_samples,
            by_reader,
            after_reader,
        ),
        parsed::<F, EF, D, C>(
            commitment_of(b, None),
            history,
            config.num_variables,
            config.commitment_ood_samples,
            by_parse,
            after_parse,
        ),
        parsed::<F, EF, D, C>(
            commitment_of(c, None),
            history,
            config.num_variables,
            config.commitment_ood_samples,
            without_round,
            after_without_round,
        ),
    ensures
        same_reading(by_reader, by_parse),
        same_reading(by_reader, without_round),
        after_reader == after_parse,
        after_reader == after_without_round,
{
}

} // verus!

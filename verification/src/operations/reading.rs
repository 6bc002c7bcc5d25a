//! What reading a commitment off a proof gives.

use crate::decimal::{append_decimal, decimal, digit};
use crate::field::{power, ExtensionField, TwoAdicField};
use crate::multilinear::mle;
use crate::params::WhirConfig;
use crate::reader::{
    ood_constraints, ood_history, parsed, CommitmentReader, ParsedCommitment, VerifierError,
    WhirProof,
};
use crate::transcript::{Challenger, TranscriptItem};
use core::ops::Deref;
use vstd::arithmetic::power2::pow2;
use vstd::prelude::*;
use vstd::string::*;

verus! {

/// The `i`-th answer was absorbed in its place, right after a draw; the first
/// draw stands at `start`.
pub open spec fn drawn_and_answered<F, EF, D>(
    items: Seq<TranscriptItem<F, EF, D>>,
    start: int,
    answers: Seq<EF>,
    i: int,
) -> bool {
    &&& items[start + 2 * i] == TranscriptItem::<F, EF, D>::Sample
    &&& items[start + 2 * i + 1] == TranscriptItem::<F, EF, D>::Extension(answers[i])
}

/// The transcript went on with the root, and then for each of the first `n`
/// answers with a draw and the answer.
pub open spec fn absorbed_answers<F, EF, D>(
    before: Seq<TranscriptItem<F, EF, D>>,
    root: D,
    answers: Seq<EF>,
    n: nat,
    after: Seq<TranscriptItem<F, EF, D>>,
) -> bool {
    &&& after.len() == before.len() + 1 + 2 * n
    &&& after.take(before.len() as int) == before
    &&& after[before.len() as int] == TranscriptItem::<F, EF, D>::Root(root)
    &&& forall|i: int|
        0 <= i < n ==> #[trigger] drawn_and_answered(after, before.len() as int + 1, answers, i)
}

/// A commitment with the given root and answers was read: the `i`-th constraint
/// has the `i`-th answer as its value, at the point whose coordinates are the
/// repeated squares of the challenge that was drawn before that answer was
/// absorbed, the largest power first.
pub open spec fn read_with_answers<
    F: TwoAdicField,
    EF: ExtensionField<F>,
    D,
    C: Challenger<F, EF, D>,
>(
    before: Seq<TranscriptItem<F, EF, D>>,
    root: D,
    answers: Seq<EF>,
    num_variables: usize,
    ood_samples: usize,
    found: ParsedCommitment<EF, D>,
    after: Seq<TranscriptItem<F, EF, D>>,
) -> bool {
    let constraints = found.ood_statement.constraints@;
    &&& absorbed_answers(before, root, answers, ood_samples as nat, after)
    &&& found.root == root
    &&& found.ood_statement.num_variables == num_variables
    &&& constraints.len() == ood_samples
    &&& forall|i: int|
        0 <= i < ood_samples ==> (#[trigger] constraints[i]).value == answers[i]
            && constraints[i].point@.len() == num_variables
    &&& forall|i: int, j: int|
        0 <= i < ood_samples && 0 <= j < num_variables ==> #[trigger] constraints[i].point@[j]
            == power(
            C::challenge(after.take(before.len() + 1 + 2 * i)),
            pow2((num_variables - 1 - j) as nat),
        )
}

proof fn lemma_ood_items<F, EF, D>(
    history: Seq<TranscriptItem<F, EF, D>>,
    answers: Seq<EF>,
    n: nat,
)
    ensures
        ood_history(history, answers, n).len() == history.len() + 2 * n,
        forall|i: nat|
            i <= n ==> #[trigger] ood_history(history, answers, i) == ood_history(
                history,
                answers,
                n,
            ).take((history.len() + 2 * i) as int),
        forall|i: int|
            0 <= i < n ==> #[trigger] drawn_and_answered(
                ood_history(history, answers, n),
                history.len() as int,
                answers,
                i,
            ),
    decreases n,
{
    let all = ood_history(history, answers, n);
    if n > 0 {
        let m = (n - 1) as nat;
        let before = ood_history(history, answers, m);
        lemma_ood_items(history, answers, m);
        assert(all.len() == before.len() + 2);
        assert forall|i: nat| i <= n implies #[trigger] ood_history(history, answers, i)
            == all.take((history.len() + 2 * i) as int) by {
            if i < n {
                let m = (history.len() + 2 * i) as int;
                assert(ood_history(history, answers, i) == before.take(m));
                assert(before.take(m) =~= all.take(m));
            } else {
                assert(all.take((history.len() + 2 * i) as int) =~= all);
            }
        }
        let start = history.len() as int;
        assert forall|i: int| 0 <= i < n implies #[trigger] drawn_and_answered(
            all,
            start,
            answers,
            i,
        ) by {
            if i < m {
                assert(drawn_and_answered(before, start, answers, i));
            }
        }
    } else {
        assert forall|i: nat| i <= n implies #[trigger] ood_history(history, answers, i)
            == all.take((history.len() + 2 * i) as int) by {
            assert(all.take((history.len() + 2 * i) as int) =~= all);
        }
    }
}

/// What a reading with a given root and given answers is.
proof fn lemma_read<F: TwoAdicField, EF: ExtensionField<F>, D, C: Challenger<F, EF, D>>(
    root: D,
    answers: Seq<EF>,
    before: Seq<TranscriptItem<F, EF, D>>,
    num_variables: usize,
    ood_samples: usize,
    r: Result<ParsedCommitment<EF, D>, VerifierError>,
    after: Seq<TranscriptItem<F, EF, D>>,
)
    requires
        parsed::<F, EF, D, C>(
            Ok((root, answers)),
            before,
            num_variables,
            ood_samples,
            r,
            after,
        ),
    ensures
        if ood_samples <= answers.len() {
            r matches Ok(found) && read_with_answers::<F, EF, D, C>(
                before,
                root,
                answers,
                num_variables,
                ood_samples,
                found,
                after,
            )
        } else {
            &&& after.len() > 0
            &&& after.last() == TranscriptItem::<F, EF, D>::Sample
            &&& absorbed_answers(before, root, answers, answers.len(), after.drop_last())
            &&& r matches Err(VerifierError::MalformedProof { details }) && details@
                == "missing OOD answer "@ + decimal(answers.len()) + " for commitment"@
        },
{
    let bound = before.push(TranscriptItem::Root(root));
    let n = if ood_samples <= answers.len() {
        ood_samples as nat
    } else {
        answers.len()
    };
    lemma_ood_items(bound, answers, n);
    let read = ood_history(bound, answers, n);
    assert(ood_history(bound, answers, 0) == read.take(bound.len() as int));
    assert(read.take(before.len() as int) =~= bound.take(before.len() as int));
    assert(bound.take(before.len() as int) =~= before);
    assert(read[before.len() as int] == read.take(bound.len() as int)[before.len() as int]);
    assert(absorbed_answers(before, root, answers, n, read));
    if ood_samples <= answers.len() {
        let found = r->Ok_0;
        let constraints = found.ood_statement.constraints@;
        let model = ood_constraints::<F, EF, D, C>(
            bound,
            answers,
            num_variables as nat,
            ood_samples as nat,
        );
        assert(found.ood_statement@.constraints == model);
        assert(found.ood_statement@.constraints.len() == constraints.len());
        assert forall|i: int| 0 <= i < ood_samples implies (#[trigger] constraints[i]).value
            == answers[i] && constraints[i].point@ == model[i].0 by {
            assert(found.ood_statement@.constraints[i] == (
                constraints[i].point@,
                constraints[i].value,
            ));
        }
        assert forall|i: int, j: int|
            0 <= i < ood_samples && 0 <= j
                < num_variables implies #[trigger] constraints[i].point@[j] == power(
            C::challenge(after.take(before.len() + 1 + 2 * i)),
            pow2((num_variables - 1 - j) as nat),
        ) by {
            assert(constraints[i].point@ == model[i].0);
            assert(ood_history(bound, answers, i as nat) == read.take(bound.len() + 2 * i));
        }
    } else {
        assert(after.drop_last() =~= read);
    }
}

/// The commitment that is selected and the answers that come with it: those of
/// the round, or the initial ones.
pub open spec fn selects<EF, D>(
    proof_read: WhirProof<EF, D>,
    round_index: Option<usize>,
    root: Option<D>,
    answers: Seq<EF>,
) -> bool {
    match round_index {
        None => root == proof_read.initial_commitment && answers
            == proof_read.initial_ood_answers@,
        Some(k) => k < proof_read.rounds@.len() && root == proof_read.rounds@[k as int].commitment
            && answers == proof_read.rounds@[k as int].ood_answers@,
    }
}

/// What reading the commitment of a round, or the initial one, gives: of a
/// commitment with as many answers as samples, a constraint for each sample,
/// with the answer to it as its value. Everything read is absorbed, each answer
/// after its point was drawn. A missing commitment is refused with nothing
/// absorbed, and a missing answer right after its point was drawn.
pub proof fn parsing_reads_the_answers<
    F: TwoAdicField,
    EF: ExtensionField<F>,
    D: Copy,
    C: Challenger<F, EF, D>,
>(
    proof_read: WhirProof<EF, D>,
    challenger: &mut C,
    num_variables: usize,
    ood_samples: usize,
    round_index: Option<usize>,
    root: Option<D>,
    answers: Seq<EF>,
    r: Result<ParsedCommitment<EF, D>, VerifierError>,
)
    requires
        call_ensures(
            ParsedCommitment::<EF, D>::parse_with_round::<F, C>,
            (&proof_read, challenger, num_variables, ood_samples, round_index),
            r,
        ),
        selects(proof_read, round_index, root, answers),
    ensures
        ({
            let (before, after) = (old(challenger).history(), final(challenger).history());
            match root {
                None => after == before && (r matches Err(
                    VerifierError::MalformedProof { details },
                ) && details@ == match round_index {
                    None => "missing initial commitment"@,
                    Some(k) => "missing commitment for round "@ + decimal(k as nat),
                }),
                Some(root) => if ood_samples <= answers.len() {
                    r matches Ok(found) && read_with_answers::<F, EF, D, C>(
                        before,
                        root,
                        answers,
                        num_variables,
                        ood_samples,
                        found,
                        after,
                    )
                } else {
                    &&& after.len() > 0
                    &&& after.last() == TranscriptItem::<F, EF, D>::Sample
                    &&& absorbed_answers(before, root, answers, answers.len(), after.drop_last())
                    &&& r matches Err(VerifierError::MalformedProof { details }) && details@
                        == "missing OOD answer "@ + decimal(answers.len()) + " for commitment"@
                },
            }
        }),
{
    if let Some(root) = root {
        lemma_read::<F, EF, D, C>(
            root,
            answers,
            old(challenger).history(),
            num_variables,
            ood_samples,
            r,
            final(challenger).history(),
        );
    }
}

/// A round that the proof does not have is refused with nothing absorbed.
pub proof fn missing_rounds_are_refused<
    F: TwoAdicField,
    EF: ExtensionField<F>,
    D: Copy,
    C: Challenger<F, EF, D>,
>(
    proof_read: WhirProof<EF, D>,
    challenger: &mut C,
    num_variables: usize,
    ood_samples: usize,
    round: usize,
    r: Result<ParsedCommitment<EF, D>, VerifierError>,
)
    requires
        call_ensures(
            ParsedCommitment::<EF, D>::parse_with_round::<F, C>,
            (&proof_read, challenger, num_variables, ood_samples, Some(round)),
            r,
        ),
        round >= proof_read.rounds@.len(),
    ensures
        r matches Err(VerifierError::InvalidRoundIndex { index }) && index == round,
        final(challenger).history() == old(challenger).history(),
{
}

/// The initial commitment is what is read without a round.
pub open spec fn initial_reading<
    F: TwoAdicField,
    EF: ExtensionField<F>,
    D,
    C: Challenger<F, EF, D>,
>(
    proof_read: WhirProof<EF, D>,
    before: Seq<TranscriptItem<F, EF, D>>,
    num_variables: usize,
    ood_samples: usize,
    r: Result<ParsedCommitment<EF, D>, VerifierError>,
    after: Seq<TranscriptItem<F, EF, D>>,
) -> bool {
    let answers = proof_read.initial_ood_answers@;
    match proof_read.initial_commitment {
        None => after == before && (r matches Err(VerifierError::MalformedProof { details })
            && details@ == "missing initial commitment"@),
        Some(root) => if ood_samples <= answers.len() {
            r matches Ok(found) && read_with_answers::<F, EF, D, C>(
                before,
                root,
                answers,
                num_variables,
                ood_samples,
                found,
                after,
            )
        } else {
            &&& after.len() > 0
            &&& after.last() == TranscriptItem::<F, EF, D>::Sample
            &&& absorbed_answers(before, root, answers, answers.len(), after.drop_last())
            &&& r matches Err(VerifierError::MalformedProof { details }) && details@
                == "missing OOD answer "@ + decimal(answers.len()) + " for commitment"@
        },
    }
}

/// [`ParsedCommitment::parse`] reads the initial commitment.
pub proof fn parsing_reads_the_initial_commitment<
    F: TwoAdicField,
    EF: ExtensionField<F>,
    D: Copy,
    C: Challenger<F, EF, D>,
>(
    proof_read: WhirProof<EF, D>,
    challenger: &mut C,
    num_variables: usize,
    ood_samples: usize,
    r: Result<ParsedCommitment<EF, D>, VerifierError>,
)
    requires
        call_ensures(
            ParsedCommitment::<EF, D>::parse::<F, C>,
            (&proof_read, challenger, num_variables, ood_samples),
            r,
        ),
    ensures
        initial_reading::<F, EF, D, C>(
            proof_read,
            old(challenger).history(),
            num_variables,
            ood_samples,
            r,
            final(challenger).history(),
        ),
{
    if let Some(root) = proof_read.initial_commitment {
        lemma_read::<F, EF, D, C>(
            root,
            proof_read.initial_ood_answers@,
            old(challenger).history(),
            num_variables,
            ood_samples,
            r,
            final(challenger).history(),
        );
    }
}

/// A reader reads the initial commitment with the numbers of the parameters that
/// it was made with, and lends these parameters.
pub proof fn readers_read_with_their_parameters<
    'a,
    F: TwoAdicField,
    EF: ExtensionField<F>,
    D: Copy,
    C: Challenger<F, EF, D>,
>(
    params: WhirConfig,
    reader: CommitmentReader<'a>,
    lent: &WhirConfig,
    proof_read: WhirProof<EF, D>,
    challenger: &mut C,
    r: Result<ParsedCommitment<EF, D>, VerifierError>,
)
    requires
        call_ensures(CommitmentReader::<'a>::new, (&params,), reader),
        call_ensures(CommitmentReader::<'a>::deref, (&reader,), lent),
        call_ensures(
            CommitmentReader::<'a>::parse_commitment::<F, EF, D, C>,
            (&reader, &proof_read, challenger),
            r,
        ),
    ensures
        *lent == params,
        initial_reading::<F, EF, D, C>(
            proof_read,
            old(challenger).history(),
            params.num_variables,
            params.commitment_ood_samples,
            r,
            final(challenger).history(),
        ),
{
    if let Some(root) = proof_read.initial_commitment {
        lemma_read::<F, EF, D, C>(
            root,
            proof_read.initial_ood_answers@,
            old(challenger).history(),
            params.num_variables,
            params.commitment_ood_samples,
            r,
            final(challenger).history(),
        );
    }
}

/// An honest commitment satisfies its own constraints: where each answer is the
/// value of one multilinear polynomial at the point drawn for it, that
/// polynomial takes the value of every constraint that is read at the point of
/// the constraint; and where an answer is not, the constraint with that answer
/// fails.
pub proof fn honest_answers_satisfy_what_is_read<
    F: TwoAdicField,
    EF: ExtensionField<F>,
    D: Copy,
    C: Challenger<F, EF, D>,
>(
    proof_read: WhirProof<EF, D>,
    challenger: &mut C,
    num_variables: usize,
    ood_samples: usize,
    round_index: Option<usize>,
    root: Option<D>,
    answers: Seq<EF>,
    found: ParsedCommitment<EF, D>,
    table: Seq<EF>,
)
    requires
        call_ensures(
            ParsedCommitment::<EF, D>::parse_with_round::<F, C>,
            (&proof_read, challenger, num_variables, ood_samples, round_index),
            Ok(found),
        ),
        selects(proof_read, round_index, root, answers),
    ensures
        found.ood_statement.constraints@.len() == ood_samples <= answers.len(),
        forall|i: int|
            0 <= i < ood_samples ==> {
                let constraint = #[trigger] found.ood_statement.constraints@[i];
                mle(table, constraint.point@) == answers[i] <==> mle(table, constraint.point@)
                    == constraint.value
            },
{
    lemma_read::<F, EF, D, C>(
        root->Some_0,
        answers,
        old(challenger).history(),
        num_variables,
        ood_samples,
        Ok(found),
        final(challenger).history(),
    );
}

/// The number that a text of decimal digits stands for.
pub open spec fn number_of(text: Seq<char>) -> nat
    decreases text.len(),
{
    if text.len() == 0 {
        0
    } else {
        10 * number_of(text.drop_last()) + (text.last() as u32 - '0' as u32) as nat
    }
}

/// Decimal notation is made of digits, has no superfluous zero in front, and
/// stands for the number.
pub proof fn decimal_stands_for_the_number(n: nat)
    ensures
        number_of(decimal(n)) == n,
        decimal(n).len() > 0,
        forall|i: int| 0 <= i < decimal(n).len() ==> '0' <= #[trigger] decimal(n)[i] <= '9',
        n > 0 ==> decimal(n)[0] != '0',
    decreases n,
{
    assert(digit(n % 10) as u32 - '0' as u32 == n % 10);
    assert('0' <= digit(n % 10) <= '9');
    if n < 10 {
        reveal_with_fuel(number_of, 2);
        assert(decimal(n).drop_last() =~= Seq::<char>::empty());
    } else {
        decimal_stands_for_the_number(n / 10);
        assert(decimal(n).drop_last() =~= decimal(n / 10));
        assert(decimal(n)[0] == decimal(n / 10)[0]);
        assert forall|i: int| 0 <= i < decimal(n).len() implies '0' <= #[trigger] decimal(n)[i]
            <= '9' by {
            if i < decimal(n).len() - 1 {
                assert(decimal(n)[i] == decimal(n / 10)[i]);
            }
        }
    }
}

/// Appending a number appends its decimal notation.
pub proof fn numbers_are_appended_in_decimal(text: &mut String, n: usize)
    requires
        call_ensures(append_decimal, (text, n), ()),
    ensures
        ({
            let (before, after) = (old(text)@, final(text)@);
            &&& after.len() > before.len()
            &&& after.take(before.len() as int) == before
            &&& number_of(after.skip(before.len() as int)) == n
            &&& n > 0 ==> after[before.len() as int] != '0'
        }),
{
    let (before, after) = (old(text)@, final(text)@);
    decimal_stands_for_the_number(n as nat);
    assert(after.take(before.len() as int) =~= before);
    assert(after.skip(before.len() as int) =~= decimal(n as nat));
}

} // verus!

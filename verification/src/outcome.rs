//! The evaluation-bridge protocol: what one evaluation produced, and the
//! errors that abort table generation.

use vstd::prelude::*;
use vstd::arithmetic::power2::pow2;
use crate::render::{table_text, table_text_spec};

verus! {

/// What the external evaluator produced for one assignment: a boolean, a
/// successfully computed value of some other runtime type, or an
/// evaluator-defined error of type `E`.
#[derive(Debug, PartialEq, Eq)]
pub enum EvalOutcome<E> {
    Boolean(bool),
    Other,
    Fail(E),
}

/// Why no table could be produced.
#[derive(Debug, PartialEq, Eq)]
pub enum TableError<E> {
    /// The program evaluated successfully but its final value is not a
    /// boolean, so it is not suitable for truth-table rendering.
    UnsupportedResultType,
    /// The external evaluator reported an error under some assignment;
    /// table generation aborts whole and no partial table is returned.
    Eval(E),
}

/// Decides what one evaluation outcome means for the table: a boolean is
/// the row's result; any other value is the distinct "unsupported result
/// type" error; an evaluator error is passed through and aborts the table.
pub fn row_result<E>(outcome: EvalOutcome<E>) -> (r: Result<bool, TableError<E>>)
    ensures
        (outcome matches EvalOutcome::Boolean(b) ==> r == Result::<bool, TableError<E>>::Ok(b)),
        (outcome matches EvalOutcome::Other ==> r == Result::<bool, TableError<E>>::Err(
            TableError::<E>::UnsupportedResultType,
        )),
        (outcome matches EvalOutcome::Fail(e) ==> r == Result::<bool, TableError<E>>::Err(
            TableError::<E>::Eval(e),
        )),
{
    match outcome {
        EvalOutcome::Boolean(b) => Ok(b),
        EvalOutcome::Other => Err(TableError::UnsupportedResultType),
        EvalOutcome::Fail(e) => Err(TableError::Eval(e)),
    }
}

/// The index of the first outcome that is not a boolean, or the length of
/// the sequence when every outcome is one. The evaluation loop aborts at
/// exactly this position.
pub open spec fn first_non_boolean<E>(outcomes: Seq<EvalOutcome<E>>) -> int
    decreases outcomes.len(),
{
    if outcomes.len() == 0 {
        0
    } else if !(outcomes[0] is Boolean) {
        0
    } else {
        1 + first_non_boolean(outcomes.drop_first())
    }
}

/// `first_non_boolean` is what its name says: every outcome before it is a
/// boolean, and the outcome at it, if any, is not.
pub proof fn lemma_first_non_boolean<E>(outcomes: Seq<EvalOutcome<E>>)
    ensures
        0 <= first_non_boolean(outcomes) <= outcomes.len(),
        forall|t: int| 0 <= t < first_non_boolean(outcomes) ==> outcomes[t] is Boolean,
        first_non_boolean(outcomes) < outcomes.len() ==> !(outcomes[first_non_boolean(outcomes)]
            is Boolean),
    decreases outcomes.len(),
{
    if outcomes.len() > 0 && outcomes[0] is Boolean {
        let rest = outcomes.drop_first();
        lemma_first_non_boolean(rest);
        assert(forall|t: int| 0 <= t < rest.len() ==> rest[t] == outcomes[t + 1]);
        assert forall|t: int| 0 <= t < first_non_boolean(outcomes) implies outcomes[t]
            is Boolean by {
            if t > 0 {
                assert(rest[t - 1] is Boolean);
            }
        }
    }
}

/// The position where every earlier outcome is a boolean and the outcome
/// there is not one is exactly `first_non_boolean`.
proof fn lemma_first_non_boolean_at<E>(outcomes: Seq<EvalOutcome<E>>, k: int)
    requires
        0 <= k < outcomes.len(),
        !(outcomes[k] is Boolean),
        forall|t: int| 0 <= t < k ==> outcomes[t] is Boolean,
    ensures
        first_non_boolean(outcomes) == k,
    decreases k,
{
    if k > 0 {
        assert(forall|t: int|
            0 <= t < outcomes.drop_first().len() ==> outcomes.drop_first()[t] == outcomes[t + 1]);
        lemma_first_non_boolean_at(outcomes.drop_first(), k - 1);
    }
}

/// Builds the whole table from the evaluation outcomes, one per assignment
/// in enumeration order. The table is produced exactly when every outcome
/// is a boolean. Otherwise the first outcome that is not one decides the
/// error and no table text is produced: a non-boolean success is the
/// distinct "unsupported result type" error, an evaluator error is passed
/// through whole.
pub fn make_table<E>(vars: &Vec<String>, outcomes: Vec<EvalOutcome<E>>) -> (r: Result<
    String,
    TableError<E>,
>)
    requires
        outcomes@.len() == pow2(vars@.len() as nat),
    ensures
        (r is Ok) <==> (forall|i: int| 0 <= i < outcomes@.len() ==> outcomes@[i] is Boolean),
        r matches Ok(s) ==> s@ == table_text_spec(
            vars.deep_view(),
            Seq::new(outcomes@.len(), |i: int| outcomes@[i]->Boolean_0),
        ),
        r is Err ==> first_non_boolean(outcomes@) < outcomes@.len(),
        r is Err && outcomes@[first_non_boolean(outcomes@)] is Other ==> r == Result::<
            String,
            TableError<E>,
        >::Err(TableError::UnsupportedResultType),
        r is Err && outcomes@[first_non_boolean(outcomes@)] is Fail ==> r == Result::<
            String,
            TableError<E>,
        >::Err(TableError::Eval(outcomes@[first_non_boolean(outcomes@)]->Fail_0)),
{
    let ghost orig = outcomes@;
    let mut rest = outcomes;
    let mut results: Vec<bool> = Vec::new();
    let total = rest.len();
    for i in 0..total
        invariant
            orig == outcomes@,
            total == orig.len(),
            rest@ == orig.skip(i as int),
            results@.len() == i,
            forall|t: int| 0 <= t < i ==> (#[trigger] orig[t]) is Boolean,
            forall|t: int| 0 <= t < i ==> results@[t] == (#[trigger] orig[t])->Boolean_0,
    {
        let outcome = rest.remove(0);
        proof {
            assert(outcome == orig[i as int]);
            assert(orig.skip(i as int).remove(0) =~= orig.skip(i + 1));
        }
        match row_result(outcome) {
            Ok(b) => {
                results.push(b);
            },
            Err(e) => {
                proof {
                    assert(!(orig[i as int] is Boolean));
                    lemma_first_non_boolean_at(orig, i as int);
                }
                return Err(e);
            },
        }
    }
    proof {
        assert(results@ =~= Seq::new(orig.len(), |t: int| orig[t]->Boolean_0));
    }
    Ok(table_text(vars, &results))
}

} // verus!

//! What holds of every network, whatever its layers, arithmetic and loss.

use crate::error::Error;
use crate::network::arithmetic::{adds_and_multiplies_functionally, Arithmetic};
use crate::network::layers::Layer;
use crate::network::matrix::Matrix;
use crate::network::Network;
use vstd::prelude::*;

verus! {

impl<
    T: Copy,
    A: Arithmetic<T>,
    F: Fn(&Matrix<T>) -> Matrix<T>,
    G: Fn(&Matrix<T>) -> Matrix<T>,
    L: Fn(&Matrix<T>, &Matrix<T>) -> T,
    P: Fn(&Matrix<T>, &Matrix<T>) -> Matrix<T>,
> Network<T, A, F, G, L, P> {
    /// Every layer holds the input of a forward call.
    pub open spec fn all_hold_input(layers: Seq<Layer<T, F, G>>) -> bool {
        forall|i: int| 0 <= i < layers.len() ==> (#[trigger] layers[i]).holds_input()
    }

    /// A pass forwards fails with a mismatch or not at all, and one that
    /// succeeds leaves every layer holding its input.
    pub proof fn lemma_forward_outcomes(
        before: Seq<Layer<T, F, G>>,
        ops: A,
        input: Matrix<T>,
        after: Seq<Layer<T, F, G>>,
        r: Result<Matrix<T>, Error>,
    )
        requires
            Self::forward_pass(before, ops, input, after, r),
        ensures
            r matches Err(e) ==> e == Error::DimensionMismatch,
            r is Ok ==> Self::all_hold_input(after),
    {
        let trace = choose|trace: Seq<Matrix<T>>| #[trigger]
            Self::forward_trace(before, ops, input, trace, after, r);
        if r is Ok {
            assert forall|i: int| 0 <= i < after.len() implies (#[trigger] after[i]).holds_input() by {
                assert(Self::forward_step_at(before, ops, trace, after, i));
                before[i].lemma_forward_outcomes(ops, trace[i], after[i], Ok(trace[i + 1]));
            }
        } else {
            let at = trace.len() - 1;
            before[at].lemma_forward_outcomes(ops, trace.last(), after[at], r);
        }
    }

    /// A pass backwards that finds every layer holding its input fails with a
    /// mismatch or not at all: no layer is asked to go back without having gone
    /// forwards.
    pub proof fn lemma_backward_outcomes(
        before: Seq<Layer<T, F, G>>,
        ops: A,
        gradient: Matrix<T>,
        learning_rate: T,
        after: Seq<Layer<T, F, G>>,
        r: Result<Matrix<T>, Error>,
    )
        requires
            Self::backward_pass(before, ops, gradient, learning_rate, after, r),
            Self::all_hold_input(before),
        ensures
            r matches Err(e) ==> e == Error::DimensionMismatch,
    {
        let trace = choose|trace: Seq<Matrix<T>>| #[trigger]
            Self::backward_trace(before, ops, gradient, learning_rate, trace, after, r);
        if r is Err {
            let at = before.len() - trace.len();
            assert(before[at].holds_input());
            before[at].lemma_backward_outcomes(ops, trace.last(), learning_rate, after[at], r);
        }
    }

    /// Training on a sample fails with a mismatch or not at all: the pass
    /// backwards always follows a pass forwards through the same layers.
    pub proof fn lemma_sample_outcomes(
        before: Seq<Layer<T, F, G>>,
        ops: A,
        loss: L,
        loss_prime: P,
        sample: Matrix<T>,
        label: Matrix<T>,
        learning_rate: T,
        after: Seq<Layer<T, F, G>>,
        r: Result<T, Error>,
    )
        requires
            Self::sample_pass(
                before,
                ops,
                loss,
                loss_prime,
                sample,
                label,
                learning_rate,
                after,
                r,
            ),
        ensures
            r matches Err(e) ==> e == Error::DimensionMismatch,
    {
        let work = choose|work: crate::network::SampleWork<T, F, G>| #[trigger]
            Self::sample_via(
                before,
                ops,
                loss,
                loss_prime,
                sample,
                label,
                learning_rate,
                work,
                after,
                r,
            );
        Self::lemma_forward_outcomes(before, ops, sample, work.forwarded, work.prediction);
        if work.prediction is Ok && label.same_shape(&work.prediction.unwrap()) {
            Self::lemma_backward_outcomes(
                work.forwarded,
                ops,
                work.gradient,
                learning_rate,
                after,
                work.input_gradient,
            );
        }
    }

    /// An epoch fails with a mismatch or not at all.
    pub proof fn lemma_epoch_outcomes(
        before: Seq<Layer<T, F, G>>,
        ops: A,
        loss: L,
        loss_prime: P,
        samples: Seq<Matrix<T>>,
        labels: Seq<Matrix<T>>,
        learning_rate: T,
        after: Seq<Layer<T, F, G>>,
        r: Result<T, Error>,
    )
        requires
            Self::epoch_pass(
                before,
                ops,
                loss,
                loss_prime,
                samples,
                labels,
                learning_rate,
                after,
                r,
            ),
        ensures
            r matches Err(e) ==> e == Error::DimensionMismatch,
    {
        let (states, losses) = choose|states: Seq<Seq<Layer<T, F, G>>>, losses: Vec<T>| #[trigger]
            Self::epoch_trace(
                before,
                ops,
                loss,
                loss_prime,
                samples,
                labels,
                learning_rate,
                states,
                losses,
                after,
                r,
            );
        if r is Err {
            Self::lemma_sample_outcomes(
                states.last(),
                ops,
                loss,
                loss_prime,
                samples[losses@.len() as int],
                labels[losses@.len() as int],
                learning_rate,
                after,
                Err(r->Err_0),
            );
        }
    }

    /// Training fails with a mismatch or not at all, and without an epoch to
    /// run it leaves the layers as they are and reports nothing.
    pub proof fn lemma_fit_outcomes(
        before: Seq<Layer<T, F, G>>,
        ops: A,
        loss: L,
        loss_prime: P,
        samples: Seq<Matrix<T>>,
        labels: Seq<Matrix<T>>,
        epochs: int,
        learning_rate: T,
        after: Seq<Layer<T, F, G>>,
        r: Result<Vec<T>, Error>,
    )
        requires
            Self::fits(
                before,
                ops,
                loss,
                loss_prime,
                samples,
                labels,
                epochs,
                learning_rate,
                after,
                r,
            ),
        ensures
            r matches Err(e) ==> e == Error::DimensionMismatch,
            r matches Ok(errors) ==> errors@.len() == epochs,
            epochs <= 0 ==> after == before && r is Ok,
    {
        if epochs > 0 && samples.len() != labels.len() {
        } else {
            let (states, errors) = choose|states: Seq<Seq<Layer<T, F, G>>>, errors: Seq<T>| #[trigger]
                Self::fit_trace(
                    before,
                    ops,
                    loss,
                    loss_prime,
                    samples,
                    labels,
                    epochs,
                    learning_rate,
                    states,
                    errors,
                    after,
                    r,
                );
            if r is Err {
                Self::lemma_epoch_outcomes(
                    states.last(),
                    ops,
                    loss,
                    loss_prime,
                    samples,
                    labels,
                    learning_rate,
                    after,
                    Err(r->Err_0),
                );
            }
        }
    }

    /// Predicting fails with a mismatch or not at all, gives one output for
    /// each sample, and leaves every parameter as it was.
    pub proof fn lemma_predict_outcomes(
        before: Seq<Layer<T, F, G>>,
        ops: A,
        samples: Seq<Matrix<T>>,
        after: Seq<Layer<T, F, G>>,
        r: Result<Vec<Matrix<T>>, Error>,
    )
        requires
            Self::predicts(before, ops, samples, after, r),
        ensures
            r matches Err(e) ==> e == Error::DimensionMismatch,
            r matches Ok(outputs) ==> outputs@.len() == samples.len(),
            Self::parameters_kept(before, after),
    {
        let (states, outputs) = choose|states: Seq<Seq<Layer<T, F, G>>>, outputs: Seq<Matrix<T>>| #[trigger]
            Self::predict_trace(before, ops, samples, states, outputs, after, r);
        Self::lemma_states_keep_parameters(ops, samples, states, outputs, outputs.len() as int);
        if r is Err {
            let at = outputs.len() as int;
            Self::lemma_forward_outcomes(states.last(), ops, samples[at], after, Err(r->Err_0));
            Self::lemma_forward_keeps_parameters(
                states.last(),
                ops,
                samples[at],
                after,
                Err(r->Err_0),
            );
            Self::lemma_parameters_kept_twice(before, states.last(), after);
        }
    }

    /// While predicting, the layers after `upto` samples have the parameters
    /// that they started with.
    pub proof fn lemma_states_keep_parameters(
        ops: A,
        samples: Seq<Matrix<T>>,
        states: Seq<Seq<Layer<T, F, G>>>,
        outputs: Seq<Matrix<T>>,
        upto: int,
    )
        requires
            states.len() == outputs.len() + 1,
            0 <= upto <= outputs.len(),
            forall|j: int|
                0 <= j < outputs.len() ==> #[trigger] Self::predict_step_at(
                    ops,
                    samples,
                    states,
                    outputs,
                    j,
                ),
        ensures
            Self::parameters_kept(states[0], states[upto]),
        decreases upto,
    {
        if upto == 0 {
            Self::lemma_parameters_kept_same(states[0]);
        } else {
            Self::lemma_states_keep_parameters(ops, samples, states, outputs, upto - 1);
            assert(Self::predict_step_at(ops, samples, states, outputs, upto - 1));
            Self::lemma_forward_keeps_parameters(
                states[upto - 1],
                ops,
                samples[upto - 1],
                states[upto],
                Ok(outputs[upto - 1]),
            );
            Self::lemma_parameters_kept_twice(states[0], states[upto - 1], states[upto]);
        }
    }

    /// Layers have their own parameters.
    pub proof fn lemma_parameters_kept_same(layers: Seq<Layer<T, F, G>>)
        ensures
            Self::parameters_kept(layers, layers),
    {
    }

    /// Having the same parameters goes both ways.
    pub proof fn lemma_parameters_kept_back(
        before: Seq<Layer<T, F, G>>,
        after: Seq<Layer<T, F, G>>,
    )
        requires
            Self::parameters_kept(before, after),
        ensures
            Self::parameters_kept(after, before),
    {
        assert forall|i: int| 0 <= i < after.len() implies (#[trigger] after[i]).same_parameters(
            &before[i],
        ) by {
            assert(before[i].same_parameters(&after[i]));
        }
    }

    /// What every layer applies on the way forward is a function.
    pub open spec fn all_apply_functions(layers: Seq<Layer<T, F, G>>) -> bool {
        forall|i: int| 0 <= i < layers.len() ==> (#[trigger] layers[i]).applies_a_function()
    }

    /// Two passes forwards through layers with the same parameters, with inputs
    /// of the same elements, have values of the same elements after every
    /// layer.
    pub proof fn lemma_traces_agree(
        before: Seq<Layer<T, F, G>>,
        other_before: Seq<Layer<T, F, G>>,
        ops: A,
        trace: Seq<Matrix<T>>,
        other_trace: Seq<Matrix<T>>,
        after: Seq<Layer<T, F, G>>,
        other_after: Seq<Layer<T, F, G>>,
        upto: int,
    )
        requires
            Self::parameters_kept(before, other_before),
            Self::all_apply_functions(before),
            adds_and_multiplies_functionally(ops),
            after.len() == before.len(),
            other_after.len() == before.len(),
            trace.len() == before.len() + 1,
            other_trace.len() == before.len() + 1,
            trace[0]@ == other_trace[0]@,
            forall|i: int|
                0 <= i < before.len() ==> #[trigger] Self::forward_step_at(
                    before,
                    ops,
                    trace,
                    after,
                    i,
                ),
            forall|i: int|
                0 <= i < before.len() ==> #[trigger] Self::forward_step_at(
                    other_before,
                    ops,
                    other_trace,
                    other_after,
                    i,
                ),
            0 <= upto <= before.len(),
        ensures
            trace[upto]@ == other_trace[upto]@,
        decreases upto,
    {
        if upto > 0 {
            Self::lemma_traces_agree(
                before,
                other_before,
                ops,
                trace,
                other_trace,
                after,
                other_after,
                upto - 1,
            );
            let i = upto - 1;
            assert(Self::forward_step_at(before, ops, trace, after, i));
            assert(Self::forward_step_at(other_before, ops, other_trace, other_after, i));
            assert(before[i].same_parameters(&other_before[i]));
            assert(before[i].applies_a_function());
            before[i].lemma_forward_agrees(
                other_before[i],
                ops,
                trace[i],
                other_trace[i],
                after[i],
                other_after[i],
                trace[i + 1],
                other_trace[i + 1],
            );
        }
    }

    /// Two passes forwards through layers with the same parameters, with inputs
    /// of the same elements, give outputs of the same elements, where the
    /// arithmetic and the activations are functions.
    pub proof fn lemma_passes_agree(
        before: Seq<Layer<T, F, G>>,
        other_before: Seq<Layer<T, F, G>>,
        ops: A,
        input: Matrix<T>,
        other_input: Matrix<T>,
        after: Seq<Layer<T, F, G>>,
        other_after: Seq<Layer<T, F, G>>,
        output: Matrix<T>,
        other_output: Matrix<T>,
    )
        requires
            Self::parameters_kept(before, other_before),
            Self::all_apply_functions(before),
            adds_and_multiplies_functionally(ops),
            input@ == other_input@,
            Self::forward_pass(before, ops, input, after, Ok(output)),
            Self::forward_pass(other_before, ops, other_input, other_after, Ok(other_output)),
        ensures
            output@ == other_output@,
    {
        let trace = choose|trace: Seq<Matrix<T>>| #[trigger]
            Self::forward_trace(before, ops, input, trace, after, Ok(output));
        let other_trace = choose|trace: Seq<Matrix<T>>| #[trigger]
            Self::forward_trace(
                other_before,
                ops,
                other_input,
                trace,
                other_after,
                Ok(other_output),
            );
        Self::lemma_traces_agree(
            before,
            other_before,
            ops,
            trace,
            other_trace,
            after,
            other_after,
            before.len() as int,
        );
    }

    /// Layers with the parameters of layers that apply functions apply
    /// functions.
    pub proof fn lemma_functions_kept(before: Seq<Layer<T, F, G>>, after: Seq<Layer<T, F, G>>)
        requires
            Self::parameters_kept(before, after),
            Self::all_apply_functions(before),
        ensures
            Self::all_apply_functions(after),
    {
        assert forall|i: int| 0 <= i < after.len() implies (#[trigger] after[i]).applies_a_function() by {
            assert(before[i].same_parameters(&after[i]));
            assert(before[i].applies_a_function());
        }
    }

    /// Predicting twice for the same samples, with no training between, gives
    /// outputs of the same elements both times and leaves every parameter as it
    /// was. This holds where the arithmetic and the activations are functions:
    /// where what they give depends only on what is in the matrices that they
    /// are given.
    pub proof fn lemma_predict_twice(
        first: Seq<Layer<T, F, G>>,
        ops: A,
        samples: Seq<Matrix<T>>,
        second: Seq<Layer<T, F, G>>,
        outputs: Vec<Matrix<T>>,
        third: Seq<Layer<T, F, G>>,
        again: Vec<Matrix<T>>,
    )
        requires
            Self::predicts(first, ops, samples, second, Ok(outputs)),
            Self::predicts(second, ops, samples, third, Ok(again)),
            adds_and_multiplies_functionally(ops),
            Self::all_apply_functions(first),
        ensures
            outputs@.len() == samples.len(),
            again@.len() == samples.len(),
            forall|j: int| 0 <= j < samples.len() ==> (#[trigger] outputs@[j])@ == again@[j]@,
            Self::parameters_kept(first, second),
            Self::parameters_kept(first, third),
    {
        Self::lemma_predict_outcomes(first, ops, samples, second, Ok(outputs));
        Self::lemma_predict_outcomes(second, ops, samples, third, Ok(again));
        Self::lemma_parameters_kept_twice(first, second, third);
        let (states, given) = choose|states: Seq<Seq<Layer<T, F, G>>>, given: Seq<Matrix<T>>| #[trigger]
            Self::predict_trace(first, ops, samples, states, given, second, Ok(outputs));
        let (other_states, other_given) = choose|
            states: Seq<Seq<Layer<T, F, G>>>,
            given: Seq<Matrix<T>>,
        | #[trigger]
            Self::predict_trace(second, ops, samples, states, given, third, Ok(again));
        assert forall|j: int| 0 <= j < samples.len() implies (#[trigger] outputs@[j])@
            == again@[j]@ by {
            Self::lemma_states_keep_parameters(ops, samples, states, given, j);
            Self::lemma_states_keep_parameters(ops, samples, other_states, other_given, j);
            Self::lemma_parameters_kept_back(first, states[j]);
            Self::lemma_parameters_kept_twice(states[j], first, second);
            Self::lemma_parameters_kept_twice(states[j], second, other_states[j]);
            Self::lemma_functions_kept(first, states[j]);
            assert(Self::predict_step_at(ops, samples, states, given, j));
            assert(Self::predict_step_at(ops, samples, other_states, other_given, j));
            Self::lemma_passes_agree(
                states[j],
                other_states[j],
                ops,
                samples[j],
                samples[j],
                states[j + 1],
                other_states[j + 1],
                given[j],
                other_given[j],
            );
        }
    }

    /// Training in two goes is training in one: where a first call ran its
    /// epochs, and a second call went on from the layers that it left, the two
    /// together came to what one call for all the epochs comes to. So a caller
    /// may train epoch by epoch and look at each mean loss as it comes.
    pub proof fn lemma_fit_in_two(
        first: Seq<Layer<T, F, G>>,
        ops: A,
        loss: L,
        loss_prime: P,
        samples: Seq<Matrix<T>>,
        labels: Seq<Matrix<T>>,
        epochs: int,
        more_epochs: int,
        learning_rate: T,
        second: Seq<Layer<T, F, G>>,
        errors: Vec<T>,
        third: Seq<Layer<T, F, G>>,
        r: Result<Vec<T>, Error>,
        all: Vec<T>,
    )
        requires
            0 <= epochs,
            0 <= more_epochs,
            Self::fits(
                first,
                ops,
                loss,
                loss_prime,
                samples,
                labels,
                epochs,
                learning_rate,
                second,
                Ok(errors),
            ),
            Self::fits(
                second,
                ops,
                loss,
                loss_prime,
                samples,
                labels,
                more_epochs,
                learning_rate,
                third,
                r,
            ),
            r matches Ok(more) ==> all@ == errors@ + more@,
        ensures
            Self::fits(
                first,
                ops,
                loss,
                loss_prime,
                samples,
                labels,
                epochs + more_epochs,
                learning_rate,
                third,
                match r {
                    Ok(_) => Ok(all),
                    Err(e) => Err(e),
                },
            ),
    {
        let total = match r {
            Ok(_) => Ok::<Vec<T>, Error>(all),
            Err(e) => Err::<Vec<T>, Error>(e),
        };
        let (states, given) = choose|states: Seq<Seq<Layer<T, F, G>>>, given: Seq<T>| #[trigger]
            Self::fit_trace(
                first,
                ops,
                loss,
                loss_prime,
                samples,
                labels,
                epochs,
                learning_rate,
                states,
                given,
                second,
                Ok(errors),
            );
        if more_epochs > 0 && samples.len() != labels.len() {
            assert(epochs == 0);
            assert(second == first);
        } else {
            let (more_states, more_given) = choose|
                states: Seq<Seq<Layer<T, F, G>>>,
                given: Seq<T>,
            | #[trigger]
                Self::fit_trace(
                    second,
                    ops,
                    loss,
                    loss_prime,
                    samples,
                    labels,
                    more_epochs,
                    learning_rate,
                    states,
                    given,
                    third,
                    r,
                );
            let joined = states + more_states.skip(1);
            let both = given + more_given;
            assert forall|e: int| 0 <= e < both.len() implies #[trigger] Self::fit_step_at(
                ops,
                loss,
                loss_prime,
                samples,
                labels,
                learning_rate,
                joined,
                both,
                e,
            ) by {
                if e < given.len() {
                    assert(Self::fit_step_at(
                        ops,
                        loss,
                        loss_prime,
                        samples,
                        labels,
                        learning_rate,
                        states,
                        given,
                        e,
                    ));
                    assert(joined[e] == states[e]);
                    if e + 1 < states.len() {
                        assert(joined[e + 1] == states[e + 1]);
                    }
                } else {
                    let k = e - given.len();
                    assert(Self::fit_step_at(
                        ops,
                        loss,
                        loss_prime,
                        samples,
                        labels,
                        learning_rate,
                        more_states,
                        more_given,
                        k,
                    ));
                    assert(joined[e + 1] == more_states[k + 1]);
                    if k == 0 {
                        assert(joined[e] == states.last());
                    } else {
                        assert(joined[e] == more_states[k]);
                    }
                }
            }
            assert(joined.last() == more_states.last());
            assert(joined[0] == first);
            if r is Ok {
                assert(all@ =~= both);
            }
            assert(Self::fit_trace(
                first,
                ops,
                loss,
                loss_prime,
                samples,
                labels,
                epochs + more_epochs,
                learning_rate,
                joined,
                both,
                third,
                total,
            ));
        }
    }
}

} // verus!

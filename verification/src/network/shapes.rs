//! When a call succeeds: the shapes that layers take and give.
//!
//! The layers accept whatever the arithmetic hands them only in the shape that
//! the operation must give. So where the arithmetic, the activations and the
//! loss keep to the shapes, whether a call succeeds is a matter of the shapes of
//! its inputs alone, and the laws here say which.

use crate::error::Error;
use crate::network::arithmetic::{
    adds_and_multiplies_in_shape, computes_in_shape, gives_shape_of_prediction, Arithmetic,
};
use crate::network::layers::Layer;
use crate::network::matrix::Matrix;
use crate::network::Network;
use vstd::prelude::*;

verus! {

impl<
    T: Copy,
    A: Arithmetic<T>,
    F: Fn(&Matrix<T>) -> Matrix<T>,
    G: Fn(&Matrix<T>) -> Matrix<T>,
    L: Fn(&Matrix<T>, &Matrix<T>) -> T,
    P: Fn(&Matrix<T>, &Matrix<T>) -> Matrix<T>,
> Network<T, A, F, G, L, P> {
    /// Every layer has parts of shapes that belong together.
    pub open spec fn all_well_shaped(layers: Seq<Layer<T, F, G>>) -> bool {
        forall|i: int| 0 <= i < layers.len() ==> (#[trigger] layers[i]).well_shaped()
    }

    /// What every layer applies on the way forward gives the shape that it is
    /// given.
    pub open spec fn all_apply_in_shape(layers: Seq<Layer<T, F, G>>) -> bool {
        forall|i: int| 0 <= i < layers.len() ==> (#[trigger] layers[i]).applies_in_shape()
    }

    /// The shape that a matrix of `rows` rows and `cols` columns has behind the
    /// first `upto` layers; `None` where one of them does not take what the
    /// layers before it give.
    pub open spec fn shape_after(
        layers: Seq<Layer<T, F, G>>,
        rows: nat,
        cols: nat,
        upto: int,
    ) -> Option<(nat, nat)>
        decreases upto,
    {
        if upto <= 0 {
            Some((rows, cols))
        } else {
            match Self::shape_after(layers, rows, cols, upto - 1) {
                None => None,
                Some((r, c)) => layers[upto - 1].output_shape(r, c),
            }
        }
    }

    /// Behind a layer that does not take its input, no later layer takes one
    /// either.
    pub proof fn lemma_shape_stays_refused(
        layers: Seq<Layer<T, F, G>>,
        rows: nat,
        cols: nat,
        at: int,
        upto: int,
    )
        requires
            0 <= at <= upto,
            Self::shape_after(layers, rows, cols, at) is None,
        ensures
            Self::shape_after(layers, rows, cols, upto) is None,
        decreases upto,
    {
        if upto > at {
            Self::lemma_shape_stays_refused(layers, rows, cols, at, upto - 1);
        }
    }

    /// In a pass forwards, the value in front of layer `upto` has the shape that
    /// the layers before it give.
    pub proof fn lemma_trace_shapes(
        before: Seq<Layer<T, F, G>>,
        ops: A,
        input: Matrix<T>,
        trace: Seq<Matrix<T>>,
        after: Seq<Layer<T, F, G>>,
        upto: int,
    )
        requires
            adds_and_multiplies_in_shape(ops),
            Self::all_apply_in_shape(before),
            Self::all_well_shaped(before),
            after.len() == before.len(),
            1 <= trace.len() <= before.len() + 1,
            trace[0]@ == input@,
            forall|i: int|
                0 <= i < trace.len() - 1 ==> #[trigger] Self::forward_step_at(
                    before,
                    ops,
                    trace,
                    after,
                    i,
                ),
            0 <= upto < trace.len(),
        ensures
            Self::shape_after(before, input@.rows, input@.cols, upto) == Some(
                (trace[upto]@.rows, trace[upto]@.cols),
            ),
        decreases upto,
    {
        if upto > 0 {
            Self::lemma_trace_shapes(before, ops, input, trace, after, upto - 1);
            let i = upto - 1;
            assert(Self::forward_step_at(before, ops, trace, after, i));
            assert(before[i].well_shaped());
            assert(before[i].applies_in_shape());
            before[i].lemma_forward_succeeds(ops, trace[i], after[i], Ok(trace[i + 1]));
        }
    }

    /// Where arithmetic and activations give the shapes that they should, a
    /// pass forwards succeeds exactly where every layer takes what the layers
    /// before it give, and the output has the shape that the last layer gives.
    pub proof fn lemma_forward_succeeds(
        before: Seq<Layer<T, F, G>>,
        ops: A,
        input: Matrix<T>,
        after: Seq<Layer<T, F, G>>,
        r: Result<Matrix<T>, Error>,
    )
        requires
            Self::forward_pass(before, ops, input, after, r),
            adds_and_multiplies_in_shape(ops),
            Self::all_apply_in_shape(before),
            Self::all_well_shaped(before),
        ensures
            r is Ok <==> Self::shape_after(
                before,
                input@.rows,
                input@.cols,
                before.len() as int,
            ) is Some,
            r matches Ok(output) ==> Self::shape_after(
                before,
                input@.rows,
                input@.cols,
                before.len() as int,
            ) == Some((output@.rows, output@.cols)),
    {
        let trace = choose|trace: Seq<Matrix<T>>| #[trigger]
            Self::forward_trace(before, ops, input, trace, after, r);
        let last = trace.len() - 1;
        Self::lemma_trace_shapes(before, ops, input, trace, after, last);
        if r is Err {
            assert(before[last].well_shaped());
            assert(before[last].applies_in_shape());
            before[last].lemma_forward_succeeds(ops, trace.last(), after[last], r);
            assert(Self::shape_after(before, input@.rows, input@.cols, last + 1) is None);
            Self::lemma_shape_stays_refused(
                before,
                input@.rows,
                input@.cols,
                last + 1,
                before.len() as int,
            );
        }
    }

    /// The shapes that layers give depend on their parameters alone.
    pub proof fn lemma_shape_after_kept(
        before: Seq<Layer<T, F, G>>,
        after: Seq<Layer<T, F, G>>,
        rows: nat,
        cols: nat,
        upto: int,
    )
        requires
            Self::parameters_kept(before, after),
            0 <= upto <= before.len(),
        ensures
            Self::shape_after(before, rows, cols, upto) == Self::shape_after(
                after,
                rows,
                cols,
                upto,
            ),
        decreases upto,
    {
        if upto > 0 {
            Self::lemma_shape_after_kept(before, after, rows, cols, upto - 1);
            assert(before[upto - 1].same_parameters(&after[upto - 1]));
        }
    }

    /// Layers with the parameters of layers that apply in shape apply in
    /// shape.
    pub proof fn lemma_in_shape_kept(before: Seq<Layer<T, F, G>>, after: Seq<Layer<T, F, G>>)
        requires
            Self::parameters_kept(before, after),
            Self::all_apply_in_shape(before),
        ensures
            Self::all_apply_in_shape(after),
    {
        assert forall|i: int| 0 <= i < after.len() implies (#[trigger] after[i]).applies_in_shape() by {
            assert(before[i].same_parameters(&after[i]));
            assert(before[i].applies_in_shape());
        }
    }

    /// A pass forwards leaves every layer with parts of shapes that belong
    /// together.
    pub proof fn lemma_forward_keeps_well_shaped(
        before: Seq<Layer<T, F, G>>,
        ops: A,
        input: Matrix<T>,
        after: Seq<Layer<T, F, G>>,
        r: Result<Matrix<T>, Error>,
    )
        requires
            Self::forward_pass(before, ops, input, after, r),
            Self::all_well_shaped(before),
        ensures
            Self::all_well_shaped(after),
    {
        let trace = choose|trace: Seq<Matrix<T>>| #[trigger]
            Self::forward_trace(before, ops, input, trace, after, r);
        assert forall|i: int| 0 <= i < after.len() implies (#[trigger] after[i]).well_shaped() by {
            if i < trace.len() - 1 {
                assert(Self::forward_step_at(before, ops, trace, after, i));
                before[i].lemma_forward_outcomes(ops, trace[i], after[i], Ok(trace[i + 1]));
            } else if i == trace.len() - 1 {
                before[i].lemma_forward_outcomes(ops, trace.last(), after[i], r);
            } else {
                assert(after[i] == before[i]);
                assert(before[i].well_shaped());
            }
        }
    }

    /// While predicting, the layers after `upto` samples have parts of shapes
    /// that belong together.
    pub proof fn lemma_states_stay_well_shaped(
        ops: A,
        samples: Seq<Matrix<T>>,
        states: Seq<Seq<Layer<T, F, G>>>,
        outputs: Seq<Matrix<T>>,
        upto: int,
    )
        requires
            states.len() == outputs.len() + 1,
            0 <= upto <= outputs.len(),
            Self::all_well_shaped(states[0]),
            forall|j: int|
                0 <= j < outputs.len() ==> #[trigger] Self::predict_step_at(
                    ops,
                    samples,
                    states,
                    outputs,
                    j,
                ),
        ensures
            Self::all_well_shaped(states[upto]),
        decreases upto,
    {
        if upto > 0 {
            Self::lemma_states_stay_well_shaped(ops, samples, states, outputs, upto - 1);
            assert(Self::predict_step_at(ops, samples, states, outputs, upto - 1));
            Self::lemma_forward_keeps_well_shaped(
                states[upto - 1],
                ops,
                samples[upto - 1],
                states[upto],
                Ok(outputs[upto - 1]),
            );
        }
    }

    /// The layers take sample `j`: every layer takes what the layers before it
    /// give for it.
    pub open spec fn takes(layers: Seq<Layer<T, F, G>>, samples: Seq<Matrix<T>>, j: int) -> bool {
        Self::shape_after(layers, samples[j]@.rows, samples[j]@.cols, layers.len() as int) is Some
    }

    /// Where arithmetic and activations give the shapes that they should,
    /// predicting succeeds exactly where the layers take every sample.
    pub proof fn lemma_predict_succeeds(
        before: Seq<Layer<T, F, G>>,
        ops: A,
        samples: Seq<Matrix<T>>,
        after: Seq<Layer<T, F, G>>,
        r: Result<Vec<Matrix<T>>, Error>,
    )
        requires
            Self::predicts(before, ops, samples, after, r),
            adds_and_multiplies_in_shape(ops),
            Self::all_apply_in_shape(before),
            Self::all_well_shaped(before),
        ensures
            r is Ok <==> forall|j: int| 0 <= j < samples.len() ==> #[trigger] Self::takes(
                before,
                samples,
                j,
            ),
            r matches Ok(given) ==> forall|j: int|
                0 <= j < samples.len() ==> Self::shape_after(
                    before,
                    samples[j]@.rows,
                    samples[j]@.cols,
                    before.len() as int,
                ) == Some(((#[trigger] given@[j])@.rows, given@[j]@.cols)),
    {
        let (states, outputs) = choose|states: Seq<Seq<Layer<T, F, G>>>, outputs: Seq<Matrix<T>>| #[trigger]
            Self::predict_trace(before, ops, samples, states, outputs, after, r);
        assert forall|j: int| 0 <= j < outputs.len() implies #[trigger] Self::takes(
            before,
            samples,
            j,
        ) && Self::shape_after(
            before,
            samples[j]@.rows,
            samples[j]@.cols,
            before.len() as int,
        ) == Some((outputs[j]@.rows, outputs[j]@.cols)) by {
            Self::lemma_states_keep_parameters(ops, samples, states, outputs, j);
            Self::lemma_states_stay_well_shaped(ops, samples, states, outputs, j);
            Self::lemma_in_shape_kept(before, states[j]);
            assert(Self::predict_step_at(ops, samples, states, outputs, j));
            Self::lemma_forward_succeeds(states[j], ops, samples[j], states[j + 1], Ok(outputs[j]));
            Self::lemma_shape_after_kept(
                before,
                states[j],
                samples[j]@.rows,
                samples[j]@.cols,
                before.len() as int,
            );
        }
        if r is Err {
            let at = outputs.len() as int;
            Self::lemma_states_keep_parameters(ops, samples, states, outputs, at);
            Self::lemma_states_stay_well_shaped(ops, samples, states, outputs, at);
            Self::lemma_in_shape_kept(before, states[at]);
            Self::lemma_forward_succeeds(states[at], ops, samples[at], after, Err(r->Err_0));
            Self::lemma_shape_after_kept(
                before,
                states[at],
                samples[at]@.rows,
                samples[at]@.cols,
                before.len() as int,
            );
            assert(!Self::takes(before, samples, at));
        } else {
            let given = r->Ok_0;
            assert forall|j: int| 0 <= j < samples.len() implies Self::shape_after(
                before,
                samples[j]@.rows,
                samples[j]@.cols,
                before.len() as int,
            ) == Some(((#[trigger] given@[j])@.rows, given@[j]@.cols)) by {
                assert(Self::takes(before, samples, j));
                assert(given@[j] == outputs[j]);
            }
        }
    }

    /// `after` has the layers of `before`, each of its kind and taking and
    /// giving the same widths; the numbers in the weights may differ.
    pub open spec fn sizes_kept(before: Seq<Layer<T, F, G>>, after: Seq<Layer<T, F, G>>) -> bool {
        &&& after.len() == before.len()
        &&& forall|i: int| 0 <= i < before.len() ==> (#[trigger] before[i]).same_size(&after[i])
    }

    /// What every layer applies, forwards and backwards, gives the shape that
    /// it is given.
    pub open spec fn all_propagate_in_shape(layers: Seq<Layer<T, F, G>>) -> bool {
        forall|i: int| 0 <= i < layers.len() ==> (#[trigger] layers[i]).propagates_in_shape()
    }

    /// The layers can be trained on `sample` with `label`: they take `sample`,
    /// and what they give for it has the shape of `label`.
    pub open spec fn trainable(
        layers: Seq<Layer<T, F, G>>,
        sample: Matrix<T>,
        label: Matrix<T>,
    ) -> bool {
        Self::shape_after(layers, sample@.rows, sample@.cols, layers.len() as int) == Some(
            (label@.rows, label@.cols),
        )
    }

    /// Keeping the sizes carries over from one change to the next.
    pub proof fn lemma_sizes_kept_twice(
        first: Seq<Layer<T, F, G>>,
        second: Seq<Layer<T, F, G>>,
        third: Seq<Layer<T, F, G>>,
    )
        requires
            Self::sizes_kept(first, second),
            Self::sizes_kept(second, third),
        ensures
            Self::sizes_kept(first, third),
    {
        assert forall|i: int| 0 <= i < first.len() implies (#[trigger] first[i]).same_size(
            &third[i],
        ) by {
            assert(first[i].same_size(&second[i]));
            assert(second[i].same_size(&third[i]));
        }
    }

    /// Layers that keep their parameters keep their sizes.
    pub proof fn lemma_parameters_are_sizes(
        before: Seq<Layer<T, F, G>>,
        after: Seq<Layer<T, F, G>>,
    )
        requires
            Self::parameters_kept(before, after),
        ensures
            Self::sizes_kept(before, after),
    {
        assert forall|i: int| 0 <= i < before.len() implies (#[trigger] before[i]).same_size(
            &after[i],
        ) by {
            assert(before[i].same_parameters(&after[i]));
        }
    }

    /// The shapes that layers give depend on their sizes alone.
    pub proof fn lemma_shape_after_sized(
        before: Seq<Layer<T, F, G>>,
        after: Seq<Layer<T, F, G>>,
        rows: nat,
        cols: nat,
        upto: int,
    )
        requires
            Self::sizes_kept(before, after),
            0 <= upto <= before.len(),
        ensures
            Self::shape_after(before, rows, cols, upto) == Self::shape_after(
                after,
                rows,
                cols,
                upto,
            ),
        decreases upto,
    {
        if upto > 0 {
            Self::lemma_shape_after_sized(before, after, rows, cols, upto - 1);
            assert(before[upto - 1].same_size(&after[upto - 1]));
        }
    }

    /// Layers of the sizes of layers that propagate in shape propagate in
    /// shape.
    pub proof fn lemma_propagation_kept(before: Seq<Layer<T, F, G>>, after: Seq<Layer<T, F, G>>)
        requires
            Self::sizes_kept(before, after),
            Self::all_propagate_in_shape(before),
        ensures
            Self::all_propagate_in_shape(after),
            Self::all_apply_in_shape(after),
            Self::all_apply_in_shape(before),
    {
        assert forall|i: int| 0 <= i < after.len() implies (#[trigger] after[i]).propagates_in_shape() by {
            assert(before[i].same_size(&after[i]));
            assert(before[i].propagates_in_shape());
        }
        assert forall|i: int| 0 <= i < after.len() implies (#[trigger] after[i]).applies_in_shape() by {
            assert(after[i].propagates_in_shape());
        }
        assert forall|i: int| 0 <= i < before.len() implies (#[trigger] before[i]).applies_in_shape() by {
            assert(before[i].propagates_in_shape());
        }
    }

    /// Layers have their own sizes.
    pub proof fn lemma_sizes_kept_same(layers: Seq<Layer<T, F, G>>)
        ensures
            Self::sizes_kept(layers, layers),
    {
    }

    /// In a pass backwards that follows a pass forwards, the gradient in front
    /// of step `upto` has the shape of the value that the pass forwards had
    /// behind the layer of that step.
    pub proof fn lemma_gradient_shapes(
        before: Seq<Layer<T, F, G>>,
        ops: A,
        values: Seq<Matrix<T>>,
        forwarded: Seq<Layer<T, F, G>>,
        learning_rate: T,
        gradients: Seq<Matrix<T>>,
        after: Seq<Layer<T, F, G>>,
        upto: int,
    )
        requires
            computes_in_shape(ops),
            Self::all_propagate_in_shape(before),
            Self::all_well_shaped(before),
            forwarded.len() == before.len(),
            after.len() == before.len(),
            values.len() == before.len() + 1,
            forall|i: int|
                0 <= i < before.len() ==> #[trigger] Self::forward_step_at(
                    before,
                    ops,
                    values,
                    forwarded,
                    i,
                ),
            1 <= gradients.len() <= before.len() + 1,
            gradients[0].same_shape(&values.last()),
            forall|s: int|
                0 <= s < gradients.len() - 1 ==> #[trigger] Self::backward_step_at(
                    forwarded,
                    ops,
                    learning_rate,
                    gradients,
                    after,
                    s,
                ),
            0 <= upto < gradients.len(),
        ensures
            gradients[upto].same_shape(&values[before.len() - upto]),
        decreases upto,
    {
        if upto > 0 {
            Self::lemma_gradient_shapes(
                before,
                ops,
                values,
                forwarded,
                learning_rate,
                gradients,
                after,
                upto - 1,
            );
            let s = upto - 1;
            let k = before.len() - 1 - s;
            assert(Self::forward_step_at(before, ops, values, forwarded, k));
            assert(Self::backward_step_at(forwarded, ops, learning_rate, gradients, after, s));
            assert(before[k].well_shaped());
            assert(before[k].propagates_in_shape());
            before[k].lemma_forward_outcomes(ops, values[k], forwarded[k], Ok(values[k + 1]));
            before[k].lemma_forward_succeeds(ops, values[k], forwarded[k], Ok(values[k + 1]));
            forwarded[k].lemma_backward_succeeds(
                ops,
                gradients[s],
                learning_rate,
                after[k],
                Ok(gradients[s + 1]),
            );
        }
    }

    /// Where arithmetic and activations give the shapes that they should, a
    /// pass backwards that follows a pass forwards, with a gradient of the
    /// shape of what the pass forwards gave, succeeds.
    pub proof fn lemma_backward_succeeds(
        before: Seq<Layer<T, F, G>>,
        ops: A,
        input: Matrix<T>,
        forwarded: Seq<Layer<T, F, G>>,
        prediction: Matrix<T>,
        gradient: Matrix<T>,
        learning_rate: T,
        after: Seq<Layer<T, F, G>>,
        r: Result<Matrix<T>, Error>,
    )
        requires
            Self::forward_pass(before, ops, input, forwarded, Ok(prediction)),
            Self::backward_pass(forwarded, ops, gradient, learning_rate, after, r),
            gradient.same_shape(&prediction),
            computes_in_shape(ops),
            Self::all_propagate_in_shape(before),
            Self::all_well_shaped(before),
        ensures
            r is Ok,
            Self::sizes_kept(forwarded, after),
            Self::all_well_shaped(after),
    {
        let values = choose|trace: Seq<Matrix<T>>| #[trigger]
            Self::forward_trace(before, ops, input, trace, forwarded, Ok(prediction));
        let gradients = choose|trace: Seq<Matrix<T>>| #[trigger]
            Self::backward_trace(forwarded, ops, gradient, learning_rate, trace, after, r);
        Self::lemma_forward_keeps_well_shaped(before, ops, input, forwarded, Ok(prediction));
        let last = gradients.len() - 1;
        Self::lemma_gradient_shapes(
            before,
            ops,
            values,
            forwarded,
            learning_rate,
            gradients,
            after,
            last,
        );
        if r is Err {
            let k = before.len() - gradients.len();
            assert(Self::forward_step_at(before, ops, values, forwarded, k));
            assert(before[k].well_shaped());
            assert(before[k].propagates_in_shape());
            before[k].lemma_forward_outcomes(ops, values[k], forwarded[k], Ok(values[k + 1]));
            before[k].lemma_forward_succeeds(ops, values[k], forwarded[k], Ok(values[k + 1]));
            forwarded[k].lemma_backward_succeeds(ops, gradients.last(), learning_rate, after[k], r);
        }
        assert forall|i: int| 0 <= i < forwarded.len() implies (#[trigger] forwarded[i]).same_size(
            &after[i],
        ) && after[i].well_shaped() by {
            let s = before.len() - 1 - i;
            assert(Self::backward_step_at(forwarded, ops, learning_rate, gradients, after, s));
            assert(forwarded[i].well_shaped());
            forwarded[i].lemma_backward_keeps_size(
                ops,
                gradients[s],
                learning_rate,
                after[i],
                Ok(gradients[s + 1]),
            );
        }
        assert forall|i: int| 0 <= i < after.len() implies (#[trigger] after[i]).well_shaped() by {
            assert(forwarded[i].same_size(&after[i]) && after[i].well_shaped());
        }
    }

    /// Where arithmetic, activations and the derivative of the loss give the
    /// shapes that they should, training on a sample succeeds exactly where
    /// the layers can be trained on it. Whatever it comes to, the layers keep
    /// their sizes.
    pub proof fn lemma_sample_succeeds(
        before: Seq<Layer<T, F, G>>,
        ops: A,
        loss: L,
        loss_prime: P,
        sample: Matrix<T>,
        label: Matrix<T>,
        learning_rate: T,
        after: Seq<Layer<T, F, G>>,
        r: Result<T, Error>,
    )
        requires
            Self::sample_pass(
                before,
                ops,
                loss,
                loss_prime,
                sample,
                label,
                learning_rate,
                after,
                r,
            ),
            computes_in_shape(ops),
            gives_shape_of_prediction(loss_prime),
            Self::all_propagate_in_shape(before),
            Self::all_well_shaped(before),
        ensures
            r is Ok <==> Self::trainable(before, sample, label),
            Self::sizes_kept(before, after),
            Self::all_well_shaped(after),
    {
        let work = choose|work: crate::network::SampleWork<T, F, G>| #[trigger]
            Self::sample_via(
                before,
                ops,
                loss,
                loss_prime,
                sample,
                label,
                learning_rate,
                work,
                after,
                r,
            );
        Self::lemma_sizes_kept_same(before);
        Self::lemma_propagation_kept(before, before);
        Self::lemma_forward_succeeds(before, ops, sample, work.forwarded, work.prediction);
        Self::lemma_forward_keeps_well_shaped(
            before,
            ops,
            sample,
            work.forwarded,
            work.prediction,
        );
        Self::lemma_forward_keeps_parameters(
            before,
            ops,
            sample,
            work.forwarded,
            work.prediction,
        );
        Self::lemma_parameters_are_sizes(before, work.forwarded);
        if work.prediction is Ok && label.same_shape(&work.prediction.unwrap()) {
            Self::lemma_backward_succeeds(
                before,
                ops,
                sample,
                work.forwarded,
                work.prediction.unwrap(),
                work.gradient,
                learning_rate,
                after,
                work.input_gradient,
            );
            Self::lemma_sizes_kept_twice(before, work.forwarded, after);
        }
    }

    /// In an epoch, the layers after `upto` samples have the sizes that they
    /// started with, and every sample before was one that they can be trained
    /// on.
    pub proof fn lemma_epoch_states(
        ops: A,
        loss: L,
        loss_prime: P,
        samples: Seq<Matrix<T>>,
        labels: Seq<Matrix<T>>,
        learning_rate: T,
        states: Seq<Seq<Layer<T, F, G>>>,
        losses: Seq<T>,
        upto: int,
    )
        requires
            computes_in_shape(ops),
            gives_shape_of_prediction(loss_prime),
            Self::all_propagate_in_shape(states[0]),
            Self::all_well_shaped(states[0]),
            states.len() == losses.len() + 1,
            forall|j: int|
                0 <= j < losses.len() ==> #[trigger] Self::epoch_step_at(
                    ops,
                    loss,
                    loss_prime,
                    samples,
                    labels,
                    learning_rate,
                    states,
                    losses,
                    j,
                ),
            0 <= upto <= losses.len(),
        ensures
            Self::sizes_kept(states[0], states[upto]),
            Self::all_well_shaped(states[upto]),
            Self::all_propagate_in_shape(states[upto]),
            forall|j: int|
                0 <= j < upto ==> #[trigger] Self::trainable(states[0], samples[j], labels[j]),
        decreases upto,
    {
        if upto == 0 {
            Self::lemma_sizes_kept_same(states[0]);
        } else {
            Self::lemma_epoch_states(
                ops,
                loss,
                loss_prime,
                samples,
                labels,
                learning_rate,
                states,
                losses,
                upto - 1,
            );
            let j = upto - 1;
            assert(Self::epoch_step_at(
                ops,
                loss,
                loss_prime,
                samples,
                labels,
                learning_rate,
                states,
                losses,
                j,
            ));
            Self::lemma_sample_succeeds(
                states[j],
                ops,
                loss,
                loss_prime,
                samples[j],
                labels[j],
                learning_rate,
                states[j + 1],
                Ok(losses[j]),
            );
            Self::lemma_sizes_kept_twice(states[0], states[j], states[j + 1]);
            Self::lemma_propagation_kept(states[0], states[j + 1]);
            Self::lemma_shape_after_sized(
                states[0],
                states[j],
                samples[j]@.rows,
                samples[j]@.cols,
                states[0].len() as int,
            );
        }
    }

    /// Where arithmetic, activations and the derivative of the loss give the
    /// shapes that they should, an epoch succeeds exactly where the layers can
    /// be trained on every sample. Whatever it comes to, the layers keep their
    /// sizes.
    pub proof fn lemma_epoch_succeeds(
        before: Seq<Layer<T, F, G>>,
        ops: A,
        loss: L,
        loss_prime: P,
        samples: Seq<Matrix<T>>,
        labels: Seq<Matrix<T>>,
        learning_rate: T,
        after: Seq<Layer<T, F, G>>,
        r: Result<T, Error>,
    )
        requires
            Self::epoch_pass(
                before,
                ops,
                loss,
                loss_prime,
                samples,
                labels,
                learning_rate,
                after,
                r,
            ),
            computes_in_shape(ops),
            gives_shape_of_prediction(loss_prime),
            Self::all_propagate_in_shape(before),
            Self::all_well_shaped(before),
        ensures
            r is Ok <==> forall|j: int|
                0 <= j < samples.len() ==> #[trigger] Self::trainable(
                    before,
                    samples[j],
                    labels[j],
                ),
            Self::sizes_kept(before, after),
            Self::all_well_shaped(after),
            Self::all_propagate_in_shape(after),
    {
        let (states, losses) = choose|states: Seq<Seq<Layer<T, F, G>>>, losses: Vec<T>| #[trigger]
            Self::epoch_trace(
                before,
                ops,
                loss,
                loss_prime,
                samples,
                labels,
                learning_rate,
                states,
                losses,
                after,
                r,
            );
        let done = losses@.len() as int;
        Self::lemma_epoch_states(
            ops,
            loss,
            loss_prime,
            samples,
            labels,
            learning_rate,
            states,
            losses@,
            done,
        );
        if r is Err {
            Self::lemma_sample_succeeds(
                states[done],
                ops,
                loss,
                loss_prime,
                samples[done],
                labels[done],
                learning_rate,
                after,
                Err(r->Err_0),
            );
            Self::lemma_sizes_kept_twice(before, states[done], after);
            Self::lemma_propagation_kept(before, after);
            Self::lemma_shape_after_sized(
                before,
                states[done],
                samples[done]@.rows,
                samples[done]@.cols,
                before.len() as int,
            );
            assert(!Self::trainable(before, samples[done], labels[done]));
        }
    }

    /// In training, the layers after `upto` epochs have the sizes that they
    /// started with.
    pub proof fn lemma_fit_states(
        ops: A,
        loss: L,
        loss_prime: P,
        samples: Seq<Matrix<T>>,
        labels: Seq<Matrix<T>>,
        learning_rate: T,
        states: Seq<Seq<Layer<T, F, G>>>,
        errors: Seq<T>,
        upto: int,
    )
        requires
            computes_in_shape(ops),
            gives_shape_of_prediction(loss_prime),
            Self::all_propagate_in_shape(states[0]),
            Self::all_well_shaped(states[0]),
            states.len() == errors.len() + 1,
            forall|e: int|
                0 <= e < errors.len() ==> #[trigger] Self::fit_step_at(
                    ops,
                    loss,
                    loss_prime,
                    samples,
                    labels,
                    learning_rate,
                    states,
                    errors,
                    e,
                ),
            0 <= upto <= errors.len(),
        ensures
            Self::sizes_kept(states[0], states[upto]),
            Self::all_well_shaped(states[upto]),
            Self::all_propagate_in_shape(states[upto]),
            upto > 0 ==> forall|j: int|
                0 <= j < samples.len() ==> #[trigger] Self::trainable(
                    states[0],
                    samples[j],
                    labels[j],
                ),
        decreases upto,
    {
        if upto == 0 {
            Self::lemma_sizes_kept_same(states[0]);
        } else {
            Self::lemma_fit_states(
                ops,
                loss,
                loss_prime,
                samples,
                labels,
                learning_rate,
                states,
                errors,
                upto - 1,
            );
            let e = upto - 1;
            assert(Self::fit_step_at(
                ops,
                loss,
                loss_prime,
                samples,
                labels,
                learning_rate,
                states,
                errors,
                e,
            ));
            Self::lemma_epoch_succeeds(
                states[e],
                ops,
                loss,
                loss_prime,
                samples,
                labels,
                learning_rate,
                states[e + 1],
                Ok(errors[e]),
            );
            Self::lemma_sizes_kept_twice(states[0], states[e], states[e + 1]);
            assert forall|j: int| 0 <= j < samples.len() implies #[trigger] Self::trainable(
                states[0],
                samples[j],
                labels[j],
            ) by {
                assert(Self::trainable(states[e], samples[j], labels[j]));
                Self::lemma_shape_after_sized(
                    states[0],
                    states[e],
                    samples[j]@.rows,
                    samples[j]@.cols,
                    states[0].len() as int,
                );
            }
        }
    }

    /// Where arithmetic, activations and the derivative of the loss give the
    /// shapes that they should, training succeeds exactly where there is no
    /// epoch to run, or there are as many labels as samples and the layers can
    /// be trained on each sample with its label. Whatever it comes to, the
    /// layers keep their sizes.
    pub proof fn lemma_fit_succeeds(
        before: Seq<Layer<T, F, G>>,
        ops: A,
        loss: L,
        loss_prime: P,
        samples: Seq<Matrix<T>>,
        labels: Seq<Matrix<T>>,
        epochs: int,
        learning_rate: T,
        after: Seq<Layer<T, F, G>>,
        r: Result<Vec<T>, Error>,
    )
        requires
            Self::fits(
                before,
                ops,
                loss,
                loss_prime,
                samples,
                labels,
                epochs,
                learning_rate,
                after,
                r,
            ),
            computes_in_shape(ops),
            gives_shape_of_prediction(loss_prime),
            Self::all_propagate_in_shape(before),
            Self::all_well_shaped(before),
        ensures
            r is Ok <==> epochs <= 0 || (samples.len() == labels.len() && forall|j: int|
                0 <= j < samples.len() ==> #[trigger] Self::trainable(
                    before,
                    samples[j],
                    labels[j],
                )),
            Self::sizes_kept(before, after),
            Self::all_well_shaped(after),
    {
        Self::lemma_sizes_kept_same(before);
        if epochs > 0 && samples.len() != labels.len() {
        } else {
            let (states, errors) = choose|states: Seq<Seq<Layer<T, F, G>>>, errors: Seq<T>| #[trigger]
                Self::fit_trace(
                    before,
                    ops,
                    loss,
                    loss_prime,
                    samples,
                    labels,
                    epochs,
                    learning_rate,
                    states,
                    errors,
                    after,
                    r,
                );
            let done = errors.len() as int;
            Self::lemma_fit_states(
                ops,
                loss,
                loss_prime,
                samples,
                labels,
                learning_rate,
                states,
                errors,
                done,
            );
            if r is Err {
                Self::lemma_epoch_succeeds(
                    states[done],
                    ops,
                    loss,
                    loss_prime,
                    samples,
                    labels,
                    learning_rate,
                    after,
                    Err(r->Err_0),
                );
                Self::lemma_sizes_kept_twice(before, states[done], after);
                let j = choose|j: int|
                    0 <= j < samples.len() && !#[trigger] Self::trainable(
                        states[done],
                        samples[j],
                        labels[j],
                    );
                Self::lemma_shape_after_sized(
                    before,
                    states[done],
                    samples[j]@.rows,
                    samples[j]@.cols,
                    before.len() as int,
                );
                assert(!Self::trainable(before, samples[j], labels[j]));
            } else if epochs > 0 {
                assert(done > 0);
            }
        }
    }
}

} // verus!

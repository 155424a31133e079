//! The network: layers in a fixed order, and how data and gradients pass them.
//!
//! What a call came to is stated as a relation between the layers before it, the
//! layers after it and its result. Every relation is built from the relations of
//! the steps that the call is made of, so it says in which order the layers were
//! used, what each was given, and where a failure stopped the call.

pub mod arithmetic;
pub mod laws;
pub mod layers;
pub mod matrix;
pub mod shapes;

pub use arithmetic::Arithmetic;
pub use layers::Layer;
pub use matrix::Matrix;

use crate::error::Error;
use vstd::prelude::*;

verus! {

/// The loss and its derivative: a pair that is made once and stays together.
#[verifier::reject_recursive_types(T)]
struct Objective<
    T: Copy,
    L: Fn(&Matrix<T>, &Matrix<T>) -> T,
    P: Fn(&Matrix<T>, &Matrix<T>) -> Matrix<T>,
> {
    loss: L,
    loss_prime: P,
    /// Stands for the type of the elements, which the pair itself holds none of.
    element: Ghost<Option<T>>,
}

impl<
    T: Copy,
    L: Fn(&Matrix<T>, &Matrix<T>) -> T,
    P: Fn(&Matrix<T>, &Matrix<T>) -> Matrix<T>,
> Objective<T, L, P> {
    #[verifier::type_invariant]
    spec fn callable(&self) -> bool {
        &&& forall|y: Matrix<T>, p: Matrix<T>| y.same_shape(&p) ==> #[trigger] call_requires(self.loss, (&y, &p))
        &&& forall|y: Matrix<T>, p: Matrix<T>|
            y.same_shape(&p) ==> #[trigger] call_requires(self.loss_prime, (&y, &p))
    }
}

/// What training on one sample works out on the way.
#[verifier::reject_recursive_types(T)]
pub struct SampleWork<T: Copy, F: Fn(&Matrix<T>) -> Matrix<T>, G: Fn(&Matrix<T>) -> Matrix<T>> {
    /// The layers after the pass forwards.
    pub forwarded: Seq<Layer<T, F, G>>,
    /// What the pass forwards gave.
    pub prediction: Result<Matrix<T>, Error>,
    /// The loss of the prediction.
    pub loss: T,
    /// The derivative of the loss at the prediction.
    pub gradient: Matrix<T>,
    /// What the pass backwards gave: the gradient at the input of the network.
    pub input_gradient: Result<Matrix<T>, Error>,
}

/// A stack of layers with the arithmetic and the loss that it is trained with.
#[verifier::reject_recursive_types(T)]
pub struct Network<
    T: Copy,
    A: Arithmetic<T>,
    F: Fn(&Matrix<T>) -> Matrix<T>,
    G: Fn(&Matrix<T>) -> Matrix<T>,
    L: Fn(&Matrix<T>, &Matrix<T>) -> T,
    P: Fn(&Matrix<T>, &Matrix<T>) -> Matrix<T>,
> {
    layers: Vec<Layer<T, F, G>>,
    ops: A,
    objective: Objective<T, L, P>,
}

impl<
    T: Copy,
    A: Arithmetic<T>,
    F: Fn(&Matrix<T>) -> Matrix<T>,
    G: Fn(&Matrix<T>) -> Matrix<T>,
    L: Fn(&Matrix<T>, &Matrix<T>) -> T,
    P: Fn(&Matrix<T>, &Matrix<T>) -> Matrix<T>,
> Network<T, A, F, G, L, P> {
    /// The layers, the first one first.
    pub closed spec fn layers(&self) -> Seq<Layer<T, F, G>> {
        self.layers@
    }

    /// The arithmetic that the network computes with.
    pub closed spec fn ops(&self) -> A {
        self.ops
    }

    /// The loss that training reports.
    pub closed spec fn loss(&self) -> L {
        self.objective.loss
    }

    /// The derivative of the loss, which training descends along.
    pub closed spec fn loss_prime(&self) -> P {
        self.objective.loss_prime
    }

    /// The two networks differ in their layers at most.
    pub open spec fn same_setup(&self, other: &Self) -> bool {
        &&& self.ops() == other.ops()
        &&& self.loss() == other.loss()
        &&& self.loss_prime() == other.loss_prime()
    }

    /// `after` has the layers of `before`, each of its kind and with its
    /// parameters; what the layers keep for the way back may differ.
    pub open spec fn parameters_kept(
        before: Seq<Layer<T, F, G>>,
        after: Seq<Layer<T, F, G>>,
    ) -> bool {
        &&& after.len() == before.len()
        &&& forall|i: int| 0 <= i < before.len() ==> (#[trigger] before[i]).same_parameters(&after[i])
    }

    /// In a pass forwards with the values `trace`, layer `i` turned `trace[i]`
    /// into `trace[i + 1]`.
    pub open spec fn forward_step_at(
        before: Seq<Layer<T, F, G>>,
        ops: A,
        trace: Seq<Matrix<T>>,
        after: Seq<Layer<T, F, G>>,
        i: int,
    ) -> bool {
        before[i].forwards(ops, trace[i], after[i], Ok(trace[i + 1]))
    }

    /// `after` and `r` are what passing `input` forwards through the layers
    /// `before` came to, with `trace` as the values between the layers.
    ///
    /// `trace` starts with a copy of `input`, and each layer in turn takes the
    /// last value and gives the next. The first layer that fails ends the pass
    /// with its failure, and the layers behind it are not touched.
    pub open spec fn forward_trace(
        before: Seq<Layer<T, F, G>>,
        ops: A,
        input: Matrix<T>,
        trace: Seq<Matrix<T>>,
        after: Seq<Layer<T, F, G>>,
        r: Result<Matrix<T>, Error>,
    ) -> bool {
        &&& after.len() == before.len()
        &&& 1 <= trace.len() <= before.len() + 1
        &&& trace[0]@ == input@
        &&& forall|i: int|
            0 <= i < trace.len() - 1 ==> #[trigger] Self::forward_step_at(
                before,
                ops,
                trace,
                after,
                i,
            )
        &&& forall|i: int| trace.len() <= i < before.len() ==> #[trigger] after[i] == before[i]
        &&& if trace.len() == before.len() + 1 {
            r == Ok::<Matrix<T>, Error>(trace.last())
        } else {
            &&& r is Err
            &&& before[trace.len() - 1].forwards(ops, trace.last(), after[trace.len() - 1], r)
        }
    }

    /// `after` and `r` are what passing `input` forwards through the layers
    /// `before` came to.
    pub open spec fn forward_pass(
        before: Seq<Layer<T, F, G>>,
        ops: A,
        input: Matrix<T>,
        after: Seq<Layer<T, F, G>>,
        r: Result<Matrix<T>, Error>,
    ) -> bool {
        exists|trace: Seq<Matrix<T>>| #[trigger]
            Self::forward_trace(before, ops, input, trace, after, r)
    }

    /// In a pass backwards with the gradients `trace`, step `s` took `trace[s]`
    /// to the layer that is `s` places from the end and got `trace[s + 1]`.
    pub open spec fn backward_step_at(
        before: Seq<Layer<T, F, G>>,
        ops: A,
        learning_rate: T,
        trace: Seq<Matrix<T>>,
        after: Seq<Layer<T, F, G>>,
        s: int,
    ) -> bool {
        before[before.len() - 1 - s].backwards(
            ops,
            trace[s],
            learning_rate,
            after[before.len() - 1 - s],
            Ok(trace[s + 1]),
        )
    }

    /// `after` and `r` are what passing `gradient` backwards through the layers
    /// `before` came to, with `trace` as the gradients between the layers.
    ///
    /// `trace` starts with a copy of `gradient`, and each layer in turn, the
    /// last one first, takes the last gradient and gives the next. The first
    /// layer that fails ends the pass with its failure, and the layers in front
    /// of it are not touched.
    pub open spec fn backward_trace(
        before: Seq<Layer<T, F, G>>,
        ops: A,
        gradient: Matrix<T>,
        learning_rate: T,
        trace: Seq<Matrix<T>>,
        after: Seq<Layer<T, F, G>>,
        r: Result<Matrix<T>, Error>,
    ) -> bool {
        &&& after.len() == before.len()
        &&& 1 <= trace.len() <= before.len() + 1
        &&& trace[0]@ == gradient@
        &&& forall|s: int|
            0 <= s < trace.len() - 1 ==> #[trigger] Self::backward_step_at(
                before,
                ops,
                learning_rate,
                trace,
                after,
                s,
            )
        &&& forall|i: int| 0 <= i < before.len() - trace.len() ==> #[trigger] after[i] == before[i]
        &&& if trace.len() == before.len() + 1 {
            r == Ok::<Matrix<T>, Error>(trace.last())
        } else {
            &&& r is Err
            &&& before[before.len() - trace.len()].backwards(
                ops,
                trace.last(),
                learning_rate,
                after[before.len() - trace.len()],
                r,
            )
        }
    }

    /// `after` and `r` are what passing `gradient` backwards through the layers
    /// `before` came to.
    pub open spec fn backward_pass(
        before: Seq<Layer<T, F, G>>,
        ops: A,
        gradient: Matrix<T>,
        learning_rate: T,
        after: Seq<Layer<T, F, G>>,
        r: Result<Matrix<T>, Error>,
    ) -> bool {
        exists|trace: Seq<Matrix<T>>| #[trigger]
            Self::backward_trace(before, ops, gradient, learning_rate, trace, after, r)
    }

    /// Sample `j` took the layers from `states[j]` to `states[j + 1]` and gave
    /// `outputs[j]`.
    pub open spec fn predict_step_at(
        ops: A,
        samples: Seq<Matrix<T>>,
        states: Seq<Seq<Layer<T, F, G>>>,
        outputs: Seq<Matrix<T>>,
        j: int,
    ) -> bool {
        Self::forward_pass(states[j], ops, samples[j], states[j + 1], Ok(outputs[j]))
    }

    /// `after` and `r` are what predicting for `samples` with the layers
    /// `before` came to, with `states` as the layers between the samples and
    /// `outputs` as what the samples gave.
    pub open spec fn predict_trace(
        before: Seq<Layer<T, F, G>>,
        ops: A,
        samples: Seq<Matrix<T>>,
        states: Seq<Seq<Layer<T, F, G>>>,
        outputs: Seq<Matrix<T>>,
        after: Seq<Layer<T, F, G>>,
        r: Result<Vec<Matrix<T>>, Error>,
    ) -> bool {
        &&& states.len() == outputs.len() + 1
        &&& outputs.len() <= samples.len()
        &&& states[0] == before
        &&& forall|j: int|
            0 <= j < outputs.len() ==> #[trigger] Self::predict_step_at(
                ops,
                samples,
                states,
                outputs,
                j,
            )
        &&& if outputs.len() == samples.len() {
            &&& after == states.last()
            &&& r matches Ok(given)
            &&& given@ == outputs
        } else {
            &&& r matches Err(e)
            &&& Self::forward_pass(
                states.last(),
                ops,
                samples[outputs.len() as int],
                after,
                Err(e),
            )
        }
    }

    /// `after` and `r` are what predicting for `samples` with the layers
    /// `before` came to: one pass forwards for each sample, in order, each on
    /// the layers as the pass before left them. The first pass that fails ends
    /// the call with its failure.
    pub open spec fn predicts(
        before: Seq<Layer<T, F, G>>,
        ops: A,
        samples: Seq<Matrix<T>>,
        after: Seq<Layer<T, F, G>>,
        r: Result<Vec<Matrix<T>>, Error>,
    ) -> bool {
        exists|states: Seq<Seq<Layer<T, F, G>>>, outputs: Seq<Matrix<T>>| #[trigger]
            Self::predict_trace(before, ops, samples, states, outputs, after, r)
    }

    /// `after` and `r` are what training on one sample came to, with `work` as
    /// what was worked out on the way.
    pub open spec fn sample_via(
        before: Seq<Layer<T, F, G>>,
        ops: A,
        loss: L,
        loss_prime: P,
        sample: Matrix<T>,
        label: Matrix<T>,
        learning_rate: T,
        work: SampleWork<T, F, G>,
        after: Seq<Layer<T, F, G>>,
        r: Result<T, Error>,
    ) -> bool {
        &&& Self::forward_pass(before, ops, sample, work.forwarded, work.prediction)
        &&& match work.prediction {
            Err(e) => after == work.forwarded && r == Err::<T, Error>(e),
            Ok(prediction) => if !label.same_shape(&prediction) {
                after == work.forwarded && r == Err::<T, Error>(Error::DimensionMismatch)
            } else {
                &&& call_ensures(loss, (&label, &prediction), work.loss)
                &&& call_ensures(loss_prime, (&label, &prediction), work.gradient)
                &&& Self::backward_pass(
                    work.forwarded,
                    ops,
                    work.gradient,
                    learning_rate,
                    after,
                    work.input_gradient,
                )
                &&& match work.input_gradient {
                    Err(e) => r == Err::<T, Error>(e),
                    Ok(_) => r == Ok::<T, Error>(work.loss),
                }
            },
        }
    }

    /// `after` and `r` are what training on one sample came to: a pass
    /// forwards with `sample`; the loss of what it gave against `label`, which
    /// is the result; the derivative of the loss there; and a pass backwards
    /// with that derivative. A pass that fails ends the call with its failure,
    /// and a prediction of another shape than `label` is a mismatch.
    pub open spec fn sample_pass(
        before: Seq<Layer<T, F, G>>,
        ops: A,
        loss: L,
        loss_prime: P,
        sample: Matrix<T>,
        label: Matrix<T>,
        learning_rate: T,
        after: Seq<Layer<T, F, G>>,
        r: Result<T, Error>,
    ) -> bool {
        exists|work: SampleWork<T, F, G>| #[trigger]
            Self::sample_via(
                before,
                ops,
                loss,
                loss_prime,
                sample,
                label,
                learning_rate,
                work,
                after,
                r,
            )
    }

    /// Sample `j` of an epoch took the layers from `states[j]` to
    /// `states[j + 1]` and had the loss `losses[j]`.
    pub open spec fn epoch_step_at(
        ops: A,
        loss: L,
        loss_prime: P,
        samples: Seq<Matrix<T>>,
        labels: Seq<Matrix<T>>,
        learning_rate: T,
        states: Seq<Seq<Layer<T, F, G>>>,
        losses: Seq<T>,
        j: int,
    ) -> bool {
        Self::sample_pass(
            states[j],
            ops,
            loss,
            loss_prime,
            samples[j],
            labels[j],
            learning_rate,
            states[j + 1],
            Ok(losses[j]),
        )
    }

    /// `after` and `r` are what one epoch came to, with `states` as the layers
    /// between the samples and `losses` as the losses of the samples.
    pub open spec fn epoch_trace(
        before: Seq<Layer<T, F, G>>,
        ops: A,
        loss: L,
        loss_prime: P,
        samples: Seq<Matrix<T>>,
        labels: Seq<Matrix<T>>,
        learning_rate: T,
        states: Seq<Seq<Layer<T, F, G>>>,
        losses: Vec<T>,
        after: Seq<Layer<T, F, G>>,
        r: Result<T, Error>,
    ) -> bool {
        &&& states.len() == losses@.len() + 1
        &&& losses@.len() <= samples.len()
        &&& states[0] == before
        &&& forall|j: int|
            0 <= j < losses@.len() ==> #[trigger] Self::epoch_step_at(
                ops,
                loss,
                loss_prime,
                samples,
                labels,
                learning_rate,
                states,
                losses@,
                j,
            )
        &&& if losses@.len() == samples.len() {
            &&& after == states.last()
            &&& r matches Ok(mean)
            &&& call_ensures(A::mean, (&ops, &losses), mean)
        } else {
            &&& r matches Err(e)
            &&& Self::sample_pass(
                states.last(),
                ops,
                loss,
                loss_prime,
                samples[losses@.len() as int],
                labels[losses@.len() as int],
                learning_rate,
                after,
                Err(e),
            )
        }
    }

    /// `after` and `r` are what one epoch came to: training on each sample with
    /// its label, in order, each on the layers as the sample before left them,
    /// and then the mean of the losses, which is the result. The first sample
    /// that fails ends the epoch with its failure.
    pub open spec fn epoch_pass(
        before: Seq<Layer<T, F, G>>,
        ops: A,
        loss: L,
        loss_prime: P,
        samples: Seq<Matrix<T>>,
        labels: Seq<Matrix<T>>,
        learning_rate: T,
        after: Seq<Layer<T, F, G>>,
        r: Result<T, Error>,
    ) -> bool {
        exists|states: Seq<Seq<Layer<T, F, G>>>, losses: Vec<T>| #[trigger]
            Self::epoch_trace(
                before,
                ops,
                loss,
                loss_prime,
                samples,
                labels,
                learning_rate,
                states,
                losses,
                after,
                r,
            )
    }

    /// Epoch `e` took the layers from `states[e]` to `states[e + 1]` and had
    /// the mean loss `errors[e]`.
    pub open spec fn fit_step_at(
        ops: A,
        loss: L,
        loss_prime: P,
        samples: Seq<Matrix<T>>,
        labels: Seq<Matrix<T>>,
        learning_rate: T,
        states: Seq<Seq<Layer<T, F, G>>>,
        errors: Seq<T>,
        e: int,
    ) -> bool {
        Self::epoch_pass(
            states[e],
            ops,
            loss,
            loss_prime,
            samples,
            labels,
            learning_rate,
            states[e + 1],
            Ok(errors[e]),
        )
    }

    /// `after` and `r` are what `epochs` epochs came to, with `states` as the
    /// layers between the epochs and `errors` as their mean losses.
    pub open spec fn fit_trace(
        before: Seq<Layer<T, F, G>>,
        ops: A,
        loss: L,
        loss_prime: P,
        samples: Seq<Matrix<T>>,
        labels: Seq<Matrix<T>>,
        epochs: int,
        learning_rate: T,
        states: Seq<Seq<Layer<T, F, G>>>,
        errors: Seq<T>,
        after: Seq<Layer<T, F, G>>,
        r: Result<Vec<T>, Error>,
    ) -> bool {
        &&& states.len() == errors.len() + 1
        &&& errors.len() <= epochs
        &&& states[0] == before
        &&& forall|e: int|
            0 <= e < errors.len() ==> #[trigger] Self::fit_step_at(
                ops,
                loss,
                loss_prime,
                samples,
                labels,
                learning_rate,
                states,
                errors,
                e,
            )
        &&& if errors.len() == epochs {
            &&& after == states.last()
            &&& r matches Ok(given)
            &&& given@ == errors
        } else {
            &&& r matches Err(x)
            &&& Self::epoch_pass(
                states.last(),
                ops,
                loss,
                loss_prime,
                samples,
                labels,
                learning_rate,
                after,
                Err(x),
            )
        }
    }

    /// `after` and `r` are what training for `epochs` epochs came to.
    ///
    /// With no epoch to run nothing happens. With samples and labels that
    /// differ in number the call is a mismatch before anything is touched.
    /// Otherwise the epochs run in order, each on the layers as the epoch
    /// before left them, and the result holds the mean loss of each. The first
    /// epoch that fails ends the call with its failure.
    pub open spec fn fits(
        before: Seq<Layer<T, F, G>>,
        ops: A,
        loss: L,
        loss_prime: P,
        samples: Seq<Matrix<T>>,
        labels: Seq<Matrix<T>>,
        epochs: int,
        learning_rate: T,
        after: Seq<Layer<T, F, G>>,
        r: Result<Vec<T>, Error>,
    ) -> bool {
        if epochs > 0 && samples.len() != labels.len() {
            after == before && r == Err::<Vec<T>, Error>(Error::DimensionMismatch)
        } else {
            exists|states: Seq<Seq<Layer<T, F, G>>>, errors: Seq<T>| #[trigger]
                Self::fit_trace(
                    before,
                    ops,
                    loss,
                    loss_prime,
                    samples,
                    labels,
                    epochs,
                    learning_rate,
                    states,
                    errors,
                    after,
                    r,
                )
        }
    }

    /// A network without layers. `loss` and `loss_prime` must accept every pair
    /// of matrices of one shape: a label first, then a prediction.
    pub fn new(ops: A, loss: L, loss_prime: P) -> (r: Self)
        requires
            forall|y: Matrix<T>, p: Matrix<T>| y.same_shape(&p) ==> #[trigger] call_requires(loss, (&y, &p)),
            forall|y: Matrix<T>, p: Matrix<T>|
                y.same_shape(&p) ==> #[trigger] call_requires(loss_prime, (&y, &p)),
        ensures
            r.layers() == Seq::<Layer<T, F, G>>::empty(),
            r.ops() == ops,
            r.loss() == loss,
            r.loss_prime() == loss_prime,
    {
        Network {
            layers: Vec::new(),
            ops,
            objective: Objective { loss, loss_prime, element: Ghost(None) },
        }
    }

    /// Puts `layer` behind the layers that the network has. Whether its width
    /// fits theirs is not looked at here: a layer that does not fit fails when
    /// data first passes it.
    pub fn add(&mut self, layer: Layer<T, F, G>) -> (r: &mut Self)
        ensures
            r.layers() == old(self).layers().push(layer),
            r.same_setup(old(self)),
            *final(self) == *final(r),
    {
        self.layers.push(layer);
        self
    }

    /// The number of layers.
    pub fn depth(&self) -> (r: usize)
        ensures
            r == self.layers().len(),
    {
        self.layers.len()
    }

    /// Layer `index`, if the network has one there.
    pub fn layer(&self, index: usize) -> (r: Option<&Layer<T, F, G>>)
        ensures
            r is Some <==> index < self.layers().len(),
            r matches Some(layer) ==> *layer == self.layers()[index as int],
    {
        if index < self.layers.len() {
            Some(&self.layers[index])
        } else {
            None
        }
    }

    /// The shape of the output for an input of `rows` rows and `cols` columns;
    /// `None` where a layer does not take what the layers before it give. This
    /// is the check that `add` leaves out.
    pub fn output_shape(&self, rows: usize, cols: usize) -> (r: Option<(usize, usize)>)
        ensures
            r is Some <==> Self::shape_after(
                self.layers(),
                rows as nat,
                cols as nat,
                self.layers().len() as int,
            ) is Some,
            r matches Some((out_rows, out_cols)) ==> Self::shape_after(
                self.layers(),
                rows as nat,
                cols as nat,
                self.layers().len() as int,
            ) == Some((out_rows as nat, out_cols as nat)),
    {
        let mut shape = (rows, cols);
        let mut i: usize = 0;
        while i < self.layers.len()
            invariant
                i <= self.layers.len(),
                Self::shape_after(self.layers(), rows as nat, cols as nat, i as int) == Some(
                    (shape.0 as nat, shape.1 as nat),
                ),
            decreases self.layers.len() - i,
        {
            match self.layers[i].shape_for(shape.0, shape.1) {
                None => {
                    proof {
                        assert(Self::shape_after(
                            self.layers(),
                            rows as nat,
                            cols as nat,
                            i as int + 1,
                        ) is None);
                        Self::lemma_shape_stays_refused(
                            self.layers(),
                            rows as nat,
                            cols as nat,
                            i as int + 1,
                            self.layers().len() as int,
                        );
                    }
                    return None;
                },
                Some(next) => {
                    shape = next;
                },
            }
            i += 1;
        }
        Some(shape)
    }

    /// Passes `input` through every layer in order: the first layer takes a
    /// copy of `input`, each further one the output of the layer before it.
    pub fn apply_forward_propagation(&mut self, input: &Matrix<T>) -> (r: Result<Matrix<T>, Error>)
        ensures
            final(self).same_setup(old(self)),
            Self::forward_pass(
                old(self).layers(),
                old(self).ops(),
                *input,
                final(self).layers(),
                r,
            ),
    {
        let mut current = input.duplicate();
        let ghost mut trace: Seq<Matrix<T>> = seq![current];
        let mut i: usize = 0;
        while i < self.layers.len()
            invariant
                self.same_setup(old(self)),
                self.layers.len() == old(self).layers.len(),
                i <= self.layers.len(),
                trace.len() == i + 1,
                trace[0]@ == input@,
                trace.last() == current,
                forall|j: int|
                    0 <= j < i ==> #[trigger] Self::forward_step_at(
                        old(self).layers(),
                        old(self).ops(),
                        trace,
                        self.layers(),
                        j,
                    ),
                forall|j: int| i <= j < self.layers.len() ==> self.layers[j] == old(self).layers[j],
            decreases self.layers.len() - i,
        {
            let ghost entering = self.layers();
            let ghost seen = trace;
            match self.layers[i].forward_propagation(&self.ops, &current) {
                Err(e) => {
                    proof {
                        assert forall|j: int| 0 <= j < trace.len() - 1 implies #[trigger] Self::forward_step_at(
                            old(self).layers(),
                            old(self).ops(),
                            trace,
                            self.layers(),
                            j,
                        ) by {
                            assert(Self::forward_step_at(
                                old(self).layers(),
                                old(self).ops(),
                                trace,
                                entering,
                                j,
                            ));
                        }
                        assert(Self::forward_trace(
                            old(self).layers(),
                            old(self).ops(),
                            *input,
                            trace,
                            self.layers(),
                            Err(e),
                        ));
                    }
                    return Err(e);
                },
                Ok(next) => {
                    current = next;
                    proof {
                        trace = trace.push(current);
                        assert forall|j: int| 0 <= j < i + 1 implies #[trigger] Self::forward_step_at(
                            old(self).layers(),
                            old(self).ops(),
                            trace,
                            self.layers(),
                            j,
                        ) by {
                            if j < i {
                                assert(Self::forward_step_at(
                                    old(self).layers(),
                                    old(self).ops(),
                                    seen,
                                    entering,
                                    j,
                                ));
                            }
                        }
                    }
                },
            }
            i += 1;
        }
        proof {
            assert(Self::forward_trace(
                old(self).layers(),
                old(self).ops(),
                *input,
                trace,
                self.layers(),
                Ok(current),
            ));
        }
        Ok(current)
    }

    /// Passes `gradient` back through every layer, the last one first: the last
    /// layer takes a copy of `gradient`, each further one the gradient that the
    /// layer behind it gave. Every layer with parameters takes one step of
    /// size `learning_rate`. The result is the gradient at the input of the
    /// network.
    pub fn apply_back_propagation(&mut self, gradient: &Matrix<T>, learning_rate: T) -> (r: Result<
        Matrix<T>,
        Error,
    >)
        ensures
            final(self).same_setup(old(self)),
            Self::backward_pass(
                old(self).layers(),
                old(self).ops(),
                *gradient,
                learning_rate,
                final(self).layers(),
                r,
            ),
    {
        let mut current = gradient.duplicate();
        let ghost mut trace: Seq<Matrix<T>> = seq![current];
        let depth = self.layers.len();
        let mut done: usize = 0;
        while done < depth
            invariant
                self.same_setup(old(self)),
                self.layers.len() == old(self).layers.len(),
                depth == self.layers.len(),
                done <= depth,
                trace.len() == done + 1,
                trace[0]@ == gradient@,
                trace.last() == current,
                forall|s: int|
                    0 <= s < done ==> #[trigger] Self::backward_step_at(
                        old(self).layers(),
                        old(self).ops(),
                        learning_rate,
                        trace,
                        self.layers(),
                        s,
                    ),
                forall|j: int| 0 <= j < depth - done ==> self.layers[j] == old(self).layers[j],
            decreases depth - done,
        {
            let ghost entering = self.layers();
            let ghost seen = trace;
            let at = depth - 1 - done;
            match self.layers[at].back_propagation(&self.ops, &current, learning_rate) {
                Err(e) => {
                    proof {
                        assert forall|s: int| 0 <= s < trace.len() - 1 implies #[trigger] Self::backward_step_at(
                            old(self).layers(),
                            old(self).ops(),
                            learning_rate,
                            trace,
                            self.layers(),
                            s,
                        ) by {
                            assert(Self::backward_step_at(
                                old(self).layers(),
                                old(self).ops(),
                                learning_rate,
                                trace,
                                entering,
                                s,
                            ));
                        }
                        assert(Self::backward_trace(
                            old(self).layers(),
                            old(self).ops(),
                            *gradient,
                            learning_rate,
                            trace,
                            self.layers(),
                            Err(e),
                        ));
                    }
                    return Err(e);
                },
                Ok(next) => {
                    current = next;
                    proof {
                        trace = trace.push(current);
                        assert forall|s: int| 0 <= s < done + 1 implies #[trigger] Self::backward_step_at(
                            old(self).layers(),
                            old(self).ops(),
                            learning_rate,
                            trace,
                            self.layers(),
                            s,
                        ) by {
                            if s < done {
                                assert(Self::backward_step_at(
                                    old(self).layers(),
                                    old(self).ops(),
                                    learning_rate,
                                    seen,
                                    entering,
                                    s,
                                ));
                            }
                        }
                    }
                },
            }
            done += 1;
        }
        proof {
            assert(Self::backward_trace(
                old(self).layers(),
                old(self).ops(),
                *gradient,
                learning_rate,
                trace,
                self.layers(),
                Ok(current),
            ));
        }
        Ok(current)
    }

    /// Passing data forwards leaves every layer of its kind and with its
    /// parameters.
    pub proof fn lemma_forward_keeps_parameters(
        before: Seq<Layer<T, F, G>>,
        ops: A,
        input: Matrix<T>,
        after: Seq<Layer<T, F, G>>,
        r: Result<Matrix<T>, Error>,
    )
        requires
            Self::forward_pass(before, ops, input, after, r),
        ensures
            Self::parameters_kept(before, after),
    {
        let trace = choose|trace: Seq<Matrix<T>>| #[trigger]
            Self::forward_trace(before, ops, input, trace, after, r);
        assert forall|i: int| 0 <= i < before.len() implies (#[trigger] before[i]).same_parameters(
            &after[i],
        ) by {
            if i < trace.len() - 1 {
                assert(Self::forward_step_at(before, ops, trace, after, i));
            } else if i >= trace.len() {
                assert(after[i] == before[i]);
            }
        }
    }

    /// Keeping the parameters carries over from one change to the next.
    pub proof fn lemma_parameters_kept_twice(
        first: Seq<Layer<T, F, G>>,
        second: Seq<Layer<T, F, G>>,
        third: Seq<Layer<T, F, G>>,
    )
        requires
            Self::parameters_kept(first, second),
            Self::parameters_kept(second, third),
        ensures
            Self::parameters_kept(first, third),
    {
        assert forall|i: int| 0 <= i < first.len() implies (#[trigger] first[i]).same_parameters(
            &third[i],
        ) by {
            assert(first[i].same_parameters(&second[i]));
            assert(second[i].same_parameters(&third[i]));
        }
    }

    /// The output of the network for each sample, in the order of the samples.
    /// No parameter changes; the layers only keep what passed them last.
    pub fn predict(&mut self, samples: &[Matrix<T>]) -> (r: Result<Vec<Matrix<T>>, Error>)
        ensures
            final(self).same_setup(old(self)),
            Self::predicts(old(self).layers(), old(self).ops(), samples@, final(self).layers(), r),
            Self::parameters_kept(old(self).layers(), final(self).layers()),
            r matches Ok(outputs) ==> outputs@.len() == samples@.len(),
            r matches Err(e) ==> e == Error::DimensionMismatch,
    {
        let mut outputs: Vec<Matrix<T>> = Vec::new();
        let ghost mut states: Seq<Seq<Layer<T, F, G>>> = seq![self.layers()];
        let mut j: usize = 0;
        while j < samples.len()
            invariant
                self.same_setup(old(self)),
                j <= samples.len(),
                outputs@.len() == j,
                states.len() == j + 1,
                states[0] == old(self).layers(),
                states.last() == self.layers(),
                forall|k: int|
                    0 <= k < j ==> #[trigger] Self::predict_step_at(
                        old(self).ops(),
                        samples@,
                        states,
                        outputs@,
                        k,
                    ),
            decreases samples.len() - j,
        {
            let ghost seen = states;
            let ghost given = outputs@;
            match self.apply_forward_propagation(&samples[j]) {
                Err(e) => {
                    proof {
                        assert(Self::predict_trace(
                            old(self).layers(),
                            old(self).ops(),
                            samples@,
                            states,
                            outputs@,
                            self.layers(),
                            Err(e),
                        ));
                        Self::lemma_predict_outcomes(
                            old(self).layers(),
                            old(self).ops(),
                            samples@,
                            self.layers(),
                            Err(e),
                        );
                    }
                    return Err(e);
                },
                Ok(output) => {
                    outputs.push(output);
                    proof {
                        states = states.push(self.layers());
                        assert forall|k: int| 0 <= k < j + 1 implies #[trigger] Self::predict_step_at(
                            old(self).ops(),
                            samples@,
                            states,
                            outputs@,
                            k,
                        ) by {
                            if k < j {
                                assert(Self::predict_step_at(
                                    old(self).ops(),
                                    samples@,
                                    seen,
                                    given,
                                    k,
                                ));
                            }
                        }
                    }
                },
            }
            j += 1;
        }
        proof {
            assert(Self::predict_trace(
                old(self).layers(),
                old(self).ops(),
                samples@,
                states,
                outputs@,
                self.layers(),
                Ok(outputs),
            ));
            Self::lemma_predict_outcomes(
                old(self).layers(),
                old(self).ops(),
                samples@,
                self.layers(),
                Ok(outputs),
            );
        }
        Ok(outputs)
    }

    /// Trains on one sample: a pass forwards, the loss and its derivative at
    /// what the pass gave, and a pass backwards with the derivative. The result
    /// is the loss.
    pub fn train_sample(&mut self, sample: &Matrix<T>, label: &Matrix<T>, learning_rate: T) -> (r:
        Result<T, Error>)
        ensures
            final(self).same_setup(old(self)),
            Self::sample_pass(
                old(self).layers(),
                old(self).ops(),
                old(self).loss(),
                old(self).loss_prime(),
                *sample,
                *label,
                learning_rate,
                final(self).layers(),
                r,
            ),
    {
        let ghost unknown = Err::<Matrix<T>, Error>(Error::DimensionMismatch);
        let prediction = match self.apply_forward_propagation(sample) {
            Err(e) => {
                proof {
                    let work = SampleWork::<T, F, G> {
                        forwarded: self.layers(),
                        prediction: Err(e),
                        loss: arbitrary(),
                        gradient: arbitrary(),
                        input_gradient: unknown,
                    };
                    assert(Self::sample_via(
                        old(self).layers(),
                        old(self).ops(),
                        old(self).loss(),
                        old(self).loss_prime(),
                        *sample,
                        *label,
                        learning_rate,
                        work,
                        self.layers(),
                        Err(e),
                    ));
                }
                return Err(e);
            },
            Ok(prediction) => prediction,
        };
        let ghost forwarded = self.layers();
        if label.nrows() != prediction.nrows() || label.ncols() != prediction.ncols() {
            proof {
                let work = SampleWork::<T, F, G> {
                    forwarded,
                    prediction: Ok(prediction),
                    loss: arbitrary(),
                    gradient: arbitrary(),
                    input_gradient: unknown,
                };
                assert(Self::sample_via(
                    old(self).layers(),
                    old(self).ops(),
                    old(self).loss(),
                    old(self).loss_prime(),
                    *sample,
                    *label,
                    learning_rate,
                    work,
                    self.layers(),
                    Err(Error::DimensionMismatch),
                ));
            }
            return Err(Error::DimensionMismatch);
        }
        proof {
            use_type_invariant(&self.objective);
        }
        let loss = (self.objective.loss)(label, &prediction);
        let gradient = (self.objective.loss_prime)(label, &prediction);
        let passed = self.apply_back_propagation(&gradient, learning_rate);
        proof {
            let work = SampleWork::<T, F, G> {
                forwarded,
                prediction: Ok(prediction),
                loss,
                gradient,
                input_gradient: passed,
            };
            assert(Self::sample_via(
                old(self).layers(),
                old(self).ops(),
                old(self).loss(),
                old(self).loss_prime(),
                *sample,
                *label,
                learning_rate,
                work,
                self.layers(),
                match passed {
                    Err(e) => Err(e),
                    Ok(_) => Ok(loss),
                },
            ));
        }
        match passed {
            Err(e) => Err(e),
            Ok(_) => Ok(loss),
        }
    }

    /// Trains on every sample once, in order, and gives the mean of the losses.
    fn train_epoch(&mut self, samples: &[Matrix<T>], labels: &[Matrix<T>], learning_rate: T) -> (r:
        Result<T, Error>)
        requires
            samples@.len() == labels@.len(),
        ensures
            final(self).same_setup(old(self)),
            Self::epoch_pass(
                old(self).layers(),
                old(self).ops(),
                old(self).loss(),
                old(self).loss_prime(),
                samples@,
                labels@,
                learning_rate,
                final(self).layers(),
                r,
            ),
    {
        let mut losses: Vec<T> = Vec::new();
        let ghost mut states: Seq<Seq<Layer<T, F, G>>> = seq![self.layers()];
        let mut j: usize = 0;
        while j < samples.len()
            invariant
                self.same_setup(old(self)),
                samples@.len() == labels@.len(),
                j <= samples.len(),
                losses@.len() == j,
                states.len() == j + 1,
                states[0] == old(self).layers(),
                states.last() == self.layers(),
                forall|k: int|
                    0 <= k < j ==> #[trigger] Self::epoch_step_at(
                        old(self).ops(),
                        old(self).loss(),
                        old(self).loss_prime(),
                        samples@,
                        labels@,
                        learning_rate,
                        states,
                        losses@,
                        k,
                    ),
            decreases samples.len() - j,
        {
            let ghost seen = states;
            let ghost given = losses@;
            match self.train_sample(&samples[j], &labels[j], learning_rate) {
                Err(e) => {
                    proof {
                        assert(Self::epoch_trace(
                            old(self).layers(),
                            old(self).ops(),
                            old(self).loss(),
                            old(self).loss_prime(),
                            samples@,
                            labels@,
                            learning_rate,
                            states,
                            losses,
                            self.layers(),
                            Err(e),
                        ));
                    }
                    return Err(e);
                },
                Ok(loss) => {
                    losses.push(loss);
                    proof {
                        states = states.push(self.layers());
                        assert forall|k: int| 0 <= k < j + 1 implies #[trigger] Self::epoch_step_at(
                            old(self).ops(),
                            old(self).loss(),
                            old(self).loss_prime(),
                            samples@,
                            labels@,
                            learning_rate,
                            states,
                            losses@,
                            k,
                        ) by {
                            if k < j {
                                assert(Self::epoch_step_at(
                                    old(self).ops(),
                                    old(self).loss(),
                                    old(self).loss_prime(),
                                    samples@,
                                    labels@,
                                    learning_rate,
                                    seen,
                                    given,
                                    k,
                                ));
                            }
                        }
                    }
                },
            }
            j += 1;
        }
        let mean = self.ops.mean(&losses);
        proof {
            assert(Self::epoch_trace(
                old(self).layers(),
                old(self).ops(),
                old(self).loss(),
                old(self).loss_prime(),
                samples@,
                labels@,
                learning_rate,
                states,
                losses,
                self.layers(),
                Ok(mean),
            ));
        }
        Ok(mean)
    }

    /// Trains for `epochs` epochs on `samples` with their `labels`, always in
    /// the order given, and returns the mean loss of each epoch.
    ///
    /// With no epoch to run the network stays as it is. Samples and labels that
    /// differ in number are a mismatch, found before anything is touched.
    pub fn fit(
        &mut self,
        samples: &[Matrix<T>],
        labels: &[Matrix<T>],
        epochs: usize,
        learning_rate: T,
    ) -> (r: Result<Vec<T>, Error>)
        ensures
            final(self).same_setup(old(self)),
            Self::fits(
                old(self).layers(),
                old(self).ops(),
                old(self).loss(),
                old(self).loss_prime(),
                samples@,
                labels@,
                epochs as int,
                learning_rate,
                final(self).layers(),
                r,
            ),
            epochs == 0 ==> final(self).layers() == old(self).layers() && r is Ok,
            r matches Ok(errors) ==> errors@.len() == epochs,
            r matches Err(e) ==> e == Error::DimensionMismatch,
    {
        let mut errors: Vec<T> = Vec::new();
        let ghost mut states: Seq<Seq<Layer<T, F, G>>> = seq![self.layers()];
        if epochs > 0 && samples.len() != labels.len() {
            return Err(Error::DimensionMismatch);
        }
        let mut epoch: usize = 0;
        while epoch < epochs
            invariant
                self.same_setup(old(self)),
                epochs > 0 ==> samples@.len() == labels@.len(),
                epoch <= epochs,
                errors@.len() == epoch,
                states.len() == epoch + 1,
                states[0] == old(self).layers(),
                states.last() == self.layers(),
                forall|k: int|
                    0 <= k < epoch ==> #[trigger] Self::fit_step_at(
                        old(self).ops(),
                        old(self).loss(),
                        old(self).loss_prime(),
                        samples@,
                        labels@,
                        learning_rate,
                        states,
                        errors@,
                        k,
                    ),
            decreases epochs - epoch,
        {
            let ghost seen = states;
            let ghost given = errors@;
            match self.train_epoch(samples, labels, learning_rate) {
                Err(e) => {
                    proof {
                        assert(Self::fit_trace(
                            old(self).layers(),
                            old(self).ops(),
                            old(self).loss(),
                            old(self).loss_prime(),
                            samples@,
                            labels@,
                            epochs as int,
                            learning_rate,
                            states,
                            errors@,
                            self.layers(),
                            Err(e),
                        ));
                        Self::lemma_fit_outcomes(
                            old(self).layers(),
                            old(self).ops(),
                            old(self).loss(),
                            old(self).loss_prime(),
                            samples@,
                            labels@,
                            epochs as int,
                            learning_rate,
                            self.layers(),
                            Err(e),
                        );
                    }
                    return Err(e);
                },
                Ok(mean) => {
                    errors.push(mean);
                    proof {
                        states = states.push(self.layers());
                        assert forall|k: int| 0 <= k < epoch + 1 implies #[trigger] Self::fit_step_at(
                            old(self).ops(),
                            old(self).loss(),
                            old(self).loss_prime(),
                            samples@,
                            labels@,
                            learning_rate,
                            states,
                            errors@,
                            k,
                        ) by {
                            if k < epoch {
                                assert(Self::fit_step_at(
                                    old(self).ops(),
                                    old(self).loss(),
                                    old(self).loss_prime(),
                                    samples@,
                                    labels@,
                                    learning_rate,
                                    seen,
                                    given,
                                    k,
                                ));
                            }
                        }
                    }
                },
            }
            epoch += 1;
        }
        proof {
            assert(Self::fit_trace(
                old(self).layers(),
                old(self).ops(),
                old(self).loss(),
                old(self).loss_prime(),
                samples@,
                labels@,
                epochs as int,
                learning_rate,
                states,
                errors@,
                self.layers(),
                Ok(errors),
            ));
            Self::lemma_fit_outcomes(
                old(self).layers(),
                old(self).ops(),
                old(self).loss(),
                old(self).loss_prime(),
                samples@,
                labels@,
                epochs as int,
                learning_rate,
                self.layers(),
                Ok(errors),
            );
        }
        Ok(errors)
    }
}

} // verus!

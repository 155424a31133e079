//! The fully connected layer: weights, biases, and one step of gradient descent
//! on each backward call.

use crate::error::Error;
use crate::network::arithmetic::{
    difference, difference_gives, product, product_gives, scaled, scaled_gives, sum, sum_gives,
    Arithmetic,
};
use crate::network::matrix::Matrix;
use vstd::prelude::*;

verus! {

/// A layer that maps a row of `input_size` numbers to a row of `output_size`
/// numbers: the input times the weights, plus the biases. It keeps the input
/// and the output of the last forward call until a backward call has used them.
pub struct FullyConnectedLayer<T: Copy> {
    input: Option<Matrix<T>>,
    output: Option<Matrix<T>>,
    weights: Matrix<T>,
    biases: Matrix<T>,
}

/// What a fully connected layer works out on the way forward.
pub struct AffineForward<T> {
    /// The input times the weights.
    pub product: Result<Matrix<T>, Error>,
}

/// What a fully connected layer works out on the way back, in the order in
/// which it does so. A step behind a failed one holds the same failure.
pub struct AffineBackward<T> {
    /// The weights, turned over.
    pub weights_transposed: Matrix<T>,
    /// The gradient at the output times the turned weights.
    pub input_gradient: Result<Matrix<T>, Error>,
    /// The kept input, turned over.
    pub input_transposed: Matrix<T>,
    /// The turned input times the gradient at the output.
    pub weight_gradient: Result<Matrix<T>, Error>,
    /// The learning rate times the weight gradient.
    pub weight_step: Result<Matrix<T>, Error>,
    /// The weights less the weight step.
    pub weights: Result<Matrix<T>, Error>,
    /// The learning rate times the gradient at the output.
    pub bias_step: Result<Matrix<T>, Error>,
    /// The biases less the bias step.
    pub biases: Result<Matrix<T>, Error>,
}

impl<T> AffineBackward<T> {
    /// The same work, with failure `e` in step `step` and every step behind it.
    /// The steps count from 1, in the order of the fields.
    pub open spec fn failed_from(self, step: int, e: Error) -> Self {
        AffineBackward {
            weights_transposed: self.weights_transposed,
            input_gradient: if step <= 1 {
                Err(e)
            } else {
                self.input_gradient
            },
            input_transposed: self.input_transposed,
            weight_gradient: if step <= 2 {
                Err(e)
            } else {
                self.weight_gradient
            },
            weight_step: if step <= 3 {
                Err(e)
            } else {
                self.weight_step
            },
            weights: if step <= 4 {
                Err(e)
            } else {
                self.weights
            },
            bias_step: if step <= 5 {
                Err(e)
            } else {
                self.bias_step
            },
            biases: if step <= 6 {
                Err(e)
            } else {
                self.biases
            },
        }
    }
}

impl<T: Copy> FullyConnectedLayer<T> {
    #[verifier::type_invariant]
    spec fn well_formed(&self) -> bool {
        &&& self.biases@.rows == 1
        &&& self.biases@.cols == self.weights@.cols
        &&& self.input matches Some(kept) ==> kept@.rows == 1 && kept@.cols == self.weights@.rows
    }

    /// The biases are one row of `output_size` numbers, and the input that the
    /// layer keeps, if it keeps one, is one row of `input_size` numbers. This
    /// holds of every layer that was made by `new`.
    pub open spec fn well_shaped(&self) -> bool {
        &&& self.biases()@.rows == 1
        &&& self.biases()@.cols == self.output_size()
        &&& self.cached_input() matches Some(kept) ==> kept@.rows == 1 && kept@.cols
            == self.input_size()
    }

    /// The weights: `input_size` rows of `output_size` numbers.
    pub closed spec fn weights(&self) -> Matrix<T> {
        self.weights
    }

    /// The biases: one row of `output_size` numbers.
    pub closed spec fn biases(&self) -> Matrix<T> {
        self.biases
    }

    /// The input that the layer keeps for the way back, if it keeps one.
    pub closed spec fn cached_input(&self) -> Option<Matrix<T>> {
        self.input
    }

    /// The output of the forward call whose input the layer keeps.
    pub closed spec fn cached_output(&self) -> Option<Matrix<T>> {
        self.output
    }

    /// The width of the rows that the layer takes.
    pub open spec fn input_size(&self) -> nat {
        self.weights()@.rows
    }

    /// The width of the rows that the layer gives.
    pub open spec fn output_size(&self) -> nat {
        self.weights()@.cols
    }

    /// The two layers have the same weights and biases.
    pub open spec fn same_parameters(&self, other: &Self) -> bool {
        &&& self.weights() == other.weights()
        &&& self.biases() == other.biases()
    }

    /// The two layers keep the same input and output.
    pub open spec fn same_cache(&self, other: &Self) -> bool {
        &&& self.cached_input() == other.cached_input()
        &&& self.cached_output() == other.cached_output()
    }

    /// `after` and `r` are what a forward call on `self` with `input` came to,
    /// with `work` as what was worked out on the way.
    pub open spec fn forwards_via<A: Arithmetic<T>>(
        &self,
        ops: A,
        input: Matrix<T>,
        work: AffineForward<T>,
        after: Self,
        r: Result<Matrix<T>, Error>,
    ) -> bool {
        &&& self.same_parameters(&after)
        &&& after.well_shaped()
        &&& if input@.rows != 1 || input@.cols != self.input_size() {
            r == Err::<Matrix<T>, Error>(Error::DimensionMismatch)
        } else {
            &&& product_gives(ops, input, self.weights(), work.product)
            &&& match work.product {
                Err(e) => r == Err::<Matrix<T>, Error>(e),
                Ok(p) => sum_gives(ops, p, self.biases(), r),
            }
        }
        &&& match r {
            Ok(out) => {
                &&& after.cached_input() matches Some(kept) && kept@ == input@
                &&& after.cached_output() matches Some(given) && given@ == out@
            },
            Err(_) => self.same_cache(&after),
        }
    }

    /// `after` and `r` are what a forward call on `self` with `input` came to.
    ///
    /// An input that is not one row of `input_size` numbers is a mismatch.
    /// Otherwise the result is the sum of the biases and the product of `input`
    /// and the weights. The parameters stay. A call that succeeds keeps copies
    /// of `input` and of the result; one that fails leaves the layer as it was.
    pub open spec fn forwards<A: Arithmetic<T>>(
        &self,
        ops: A,
        input: Matrix<T>,
        after: Self,
        r: Result<Matrix<T>, Error>,
    ) -> bool {
        exists|work: AffineForward<T>| #[trigger] self.forwards_via(ops, input, work, after, r)
    }

    /// The steps of `work` are those of a backward call on `self`, which keeps
    /// `kept`, with `output_gradient` and `learning_rate`: each step is what
    /// `ops` gave for it, and a step behind a failed one holds the same failure.
    pub open spec fn steps_back<A: Arithmetic<T>>(
        &self,
        ops: A,
        kept: Matrix<T>,
        output_gradient: Matrix<T>,
        learning_rate: T,
        work: AffineBackward<T>,
    ) -> bool {
        &&& work.weights_transposed@ == self.weights()@.transposed()
        &&& work.input_transposed@ == kept@.transposed()
        &&& product_gives(ops, output_gradient, work.weights_transposed, work.input_gradient)
        &&& match work.input_gradient {
            Err(e) => work.weight_gradient == Err::<Matrix<T>, Error>(e),
            Ok(_) => product_gives(
                ops,
                work.input_transposed,
                output_gradient,
                work.weight_gradient,
            ),
        }
        &&& match work.weight_gradient {
            Err(e) => work.weight_step == Err::<Matrix<T>, Error>(e),
            Ok(gradient) => scaled_gives(ops, learning_rate, gradient, work.weight_step),
        }
        &&& match work.weight_step {
            Err(e) => work.weights == Err::<Matrix<T>, Error>(e),
            Ok(step) => difference_gives(ops, self.weights(), step, work.weights),
        }
        &&& match work.weights {
            Err(e) => work.bias_step == Err::<Matrix<T>, Error>(e),
            Ok(_) => scaled_gives(ops, learning_rate, output_gradient, work.bias_step),
        }
        &&& match work.bias_step {
            Err(e) => work.biases == Err::<Matrix<T>, Error>(e),
            Ok(step) => difference_gives(ops, self.biases(), step, work.biases),
        }
    }

    /// `after` and `r` are what a backward call on `self` with `output_gradient`
    /// and `learning_rate` came to, with `work` as what was worked out on the
    /// way.
    pub open spec fn backwards_via<A: Arithmetic<T>>(
        &self,
        ops: A,
        output_gradient: Matrix<T>,
        learning_rate: T,
        work: AffineBackward<T>,
        after: Self,
        r: Result<Matrix<T>, Error>,
    ) -> bool {
        &&& after.well_shaped()
        &&& match self.cached_input() {
            None => {
                &&& r == Err::<Matrix<T>, Error>(Error::BackwardWithoutForward)
                &&& self.same_parameters(&after)
                &&& self.same_cache(&after)
            },
            Some(kept) => if output_gradient@.rows != 1 || output_gradient@.cols
                != self.output_size() {
                &&& r == Err::<Matrix<T>, Error>(Error::DimensionMismatch)
                &&& self.same_parameters(&after)
                &&& self.same_cache(&after)
            } else {
                &&& self.steps_back(ops, kept, output_gradient, learning_rate, work)
                &&& match work.biases {
                    Err(e) => {
                        &&& r == Err::<Matrix<T>, Error>(e)
                        &&& self.same_parameters(&after)
                        &&& self.same_cache(&after)
                    },
                    Ok(biases) => {
                        &&& r == work.input_gradient
                        &&& work.weights == Ok::<Matrix<T>, Error>(after.weights())
                        &&& after.biases() == biases
                        &&& after.cached_input() is None
                        &&& after.cached_output() is None
                    },
                }
            },
        }
    }

    /// `after` and `r` are what a backward call on `self` with `output_gradient`
    /// and `learning_rate` came to.
    ///
    /// Without a kept input the call fails, and so it does with a gradient that
    /// is not one row of `output_size` numbers. Otherwise the result is the
    /// gradient times the turned weights, as they were before the call; the
    /// weights lose the learning rate times the product of the turned input and
    /// the gradient, and the biases lose the learning rate times the gradient.
    /// A call that succeeds uses the kept input up; one that fails leaves the
    /// layer as it was.
    pub open spec fn backwards<A: Arithmetic<T>>(
        &self,
        ops: A,
        output_gradient: Matrix<T>,
        learning_rate: T,
        after: Self,
        r: Result<Matrix<T>, Error>,
    ) -> bool {
        exists|work: AffineBackward<T>| #[trigger]
            self.backwards_via(ops, output_gradient, learning_rate, work, after, r)
    }

    /// A layer from `input_size` to `output_size` numbers that starts with the
    /// given parameters: a mismatch unless `weights` has `input_size` rows and
    /// `output_size` columns and `biases` is one row of `output_size` numbers.
    pub fn new(input_size: usize, output_size: usize, weights: Matrix<T>, biases: Matrix<T>) -> (r:
        Result<Self, Error>)
        ensures
            r is Ok <==> weights@.rows == input_size && weights@.cols == output_size
                && biases@.rows == 1 && biases@.cols == output_size,
            r matches Ok(layer) ==> {
                &&& layer.weights() == weights
                &&& layer.biases() == biases
                &&& layer.cached_input() is None
                &&& layer.cached_output() is None
                &&& layer.well_shaped()
            },
            r matches Err(e) ==> e == Error::DimensionMismatch,
    {
        if weights.nrows() == input_size && weights.ncols() == output_size && biases.nrows() == 1
            && biases.ncols() == output_size {
            Ok(FullyConnectedLayer { input: None, output: None, weights, biases })
        } else {
            Err(Error::DimensionMismatch)
        }
    }

    /// The layer has just been made from `input_size` to `output_size` numbers
    /// with parameters that `generate` gave: weights for the shape of the
    /// weights, biases for one row of `output_size` numbers.
    pub open spec fn generated_by<R: Fn(usize, usize) -> Matrix<T>>(
        &self,
        generate: R,
        input_size: usize,
        output_size: usize,
    ) -> bool {
        &&& self.input_size() == input_size
        &&& self.output_size() == output_size
        &&& self.well_shaped()
        &&& self.cached_input() is None
        &&& self.cached_output() is None
        &&& call_ensures(generate, (input_size, output_size), self.weights())
        &&& call_ensures(generate, (1usize, output_size), self.biases())
    }

    /// `generate` gave a matrix of another shape than it was asked for.
    pub open spec fn misled_by<R: Fn(usize, usize) -> Matrix<T>>(
        generate: R,
        rows: usize,
        cols: usize,
        m: Matrix<T>,
    ) -> bool {
        call_ensures(generate, (rows, cols), m) && !(m@.rows == rows && m@.cols == cols)
    }

    /// A layer from `input_size` to `output_size` numbers whose parameters
    /// `generate` gives: first the weights, then the biases. A matrix of
    /// another shape than was asked for is a mismatch.
    pub fn generate<R: Fn(usize, usize) -> Matrix<T>>(
        input_size: usize,
        output_size: usize,
        generate: &R,
    ) -> (r: Result<Self, Error>)
        requires
            forall|rows: usize, cols: usize| call_requires(*generate, (rows, cols)),
        ensures
            match r {
                Ok(layer) => layer.generated_by(*generate, input_size, output_size),
                Err(e) => {
                    &&& e == Error::DimensionMismatch
                    &&& exists|rows: usize, cols: usize, m: Matrix<T>| #[trigger]
                        Self::misled_by(*generate, rows, cols, m)
                },
            },
    {
        let weights = generate(input_size, output_size);
        let biases = generate(1, output_size);
        proof {
            if !(weights@.rows == input_size && weights@.cols == output_size) {
                assert(Self::misled_by(*generate, input_size, output_size, weights));
            } else if !(biases@.rows == 1 && biases@.cols == output_size) {
                assert(Self::misled_by(*generate, 1, output_size, biases));
            }
        }
        FullyConnectedLayer::new(input_size, output_size, weights, biases)
    }

    /// The width of the rows that the layer takes.
    pub fn input_width(&self) -> (r: usize)
        ensures
            r == self.input_size(),
    {
        self.weights.nrows()
    }

    /// The width of the rows that the layer gives.
    pub fn output_width(&self) -> (r: usize)
        ensures
            r == self.output_size(),
    {
        self.weights.ncols()
    }

    /// The weights as they stand.
    pub fn current_weights(&self) -> (r: &Matrix<T>)
        ensures
            *r == self.weights(),
    {
        &self.weights
    }

    /// The biases as they stand.
    pub fn current_biases(&self) -> (r: &Matrix<T>)
        ensures
            *r == self.biases(),
    {
        &self.biases
    }

    /// The output for `input` under the parameters as they stand. Keeps copies
    /// of `input` and of the output for the way back.
    pub fn forward_propagation<A: Arithmetic<T>>(&mut self, ops: &A, input: &Matrix<T>) -> (r:
        Result<Matrix<T>, Error>)
        ensures
            old(self).forwards(*ops, *input, *final(self), r),
    {
        proof {
            use_type_invariant(&*self);
        }
        if input.nrows() != 1 || input.ncols() != self.weights.nrows() {
            proof {
                let work = AffineForward::<T> { product: Err(Error::DimensionMismatch) };
                assert(old(self).forwards_via(
                    *ops,
                    *input,
                    work,
                    *self,
                    Err(Error::DimensionMismatch),
                ));
            }
            return Err(Error::DimensionMismatch);
        }
        let p = match product(ops, input, &self.weights) {
            Err(e) => {
                proof {
                    let work = AffineForward::<T> { product: Err(e) };
                    assert(old(self).forwards_via(*ops, *input, work, *self, Err(e)));
                }
                return Err(e);
            },
            Ok(p) => p,
        };
        let r = sum(ops, &p, &self.biases);
        match &r {
            Ok(out) => {
                self.input = Some(input.duplicate());
                self.output = Some(out.duplicate());
            },
            Err(_) => {},
        }
        proof {
            use_type_invariant(&*self);
            let work = AffineForward::<T> { product: Ok(p) };
            assert(old(self).forwards_via(*ops, *input, work, *self, r));
        }
        r
    }

    /// Turns the gradient at the output into the gradient at the input, and
    /// takes one step of gradient descent on the weights and the biases. The
    /// gradient at the input comes from the weights as they were before the
    /// step.
    pub fn back_propagation<A: Arithmetic<T>>(
        &mut self,
        ops: &A,
        output_gradient: &Matrix<T>,
        learning_rate: T,
    ) -> (r: Result<Matrix<T>, Error>)
        ensures
            old(self).backwards(*ops, *output_gradient, learning_rate, *final(self), r),
    {
        proof {
            use_type_invariant(&*self);
        }
        let ghost failed = Err::<Matrix<T>, Error>(Error::BackwardWithoutForward);
        let weights_transposed = self.weights.transpose();
        let ghost mut work = AffineBackward::<T> {
            weights_transposed,
            input_gradient: failed,
            input_transposed: weights_transposed,
            weight_gradient: failed,
            weight_step: failed,
            weights: failed,
            bias_step: failed,
            biases: failed,
        };
        let kept = match &self.input {
            None => {
                proof {
                    assert(old(self).backwards_via(
                        *ops,
                        *output_gradient,
                        learning_rate,
                        work,
                        *self,
                        Err(Error::BackwardWithoutForward),
                    ));
                }
                return Err(Error::BackwardWithoutForward);
            },
            Some(kept) => kept,
        };
        if output_gradient.nrows() != 1 || output_gradient.ncols() != self.weights.ncols() {
            proof {
                assert(old(self).backwards_via(
                    *ops,
                    *output_gradient,
                    learning_rate,
                    work,
                    *self,
                    Err(Error::DimensionMismatch),
                ));
            }
            return Err(Error::DimensionMismatch);
        }
        let input_transposed = kept.transpose();
        proof {
            work.input_transposed = input_transposed;
        }
        let input_gradient = match product(ops, output_gradient, &weights_transposed) {
            Err(e) => {
                proof {
                    work = work.failed_from(1, e);
                    assert(old(self).backwards_via(
                        *ops,
                        *output_gradient,
                        learning_rate,
                        work,
                        *self,
                        Err(e),
                    ));
                }
                return Err(e);
            },
            Ok(m) => m,
        };
        proof {
            work.input_gradient = Ok(input_gradient);
        }
        let weight_gradient = match product(ops, &input_transposed, output_gradient) {
            Err(e) => {
                proof {
                    work = work.failed_from(2, e);
                    assert(old(self).backwards_via(
                        *ops,
                        *output_gradient,
                        learning_rate,
                        work,
                        *self,
                        Err(e),
                    ));
                }
                return Err(e);
            },
            Ok(m) => m,
        };
        proof {
            work.weight_gradient = Ok(weight_gradient);
        }
        let weight_step = match scaled(ops, &learning_rate, &weight_gradient) {
            Err(e) => {
                proof {
                    work = work.failed_from(3, e);
                    assert(old(self).backwards_via(
                        *ops,
                        *output_gradient,
                        learning_rate,
                        work,
                        *self,
                        Err(e),
                    ));
                }
                return Err(e);
            },
            Ok(m) => m,
        };
        proof {
            work.weight_step = Ok(weight_step);
        }
        let weights = match difference(ops, &self.weights, &weight_step) {
            Err(e) => {
                proof {
                    work = work.failed_from(4, e);
                    assert(old(self).backwards_via(
                        *ops,
                        *output_gradient,
                        learning_rate,
                        work,
                        *self,
                        Err(e),
                    ));
                }
                return Err(e);
            },
            Ok(m) => m,
        };
        proof {
            work.weights = Ok(weights);
        }
        let bias_step = match scaled(ops, &learning_rate, output_gradient) {
            Err(e) => {
                proof {
                    work = work.failed_from(5, e);
                    assert(old(self).backwards_via(
                        *ops,
                        *output_gradient,
                        learning_rate,
                        work,
                        *self,
                        Err(e),
                    ));
                }
                return Err(e);
            },
            Ok(m) => m,
        };
        proof {
            work.bias_step = Ok(bias_step);
        }
        let biases = match difference(ops, &self.biases, &bias_step) {
            Err(e) => {
                proof {
                    work = work.failed_from(6, e);
                    assert(old(self).backwards_via(
                        *ops,
                        *output_gradient,
                        learning_rate,
                        work,
                        *self,
                        Err(e),
                    ));
                }
                return Err(e);
            },
            Ok(m) => m,
        };
        proof {
            work.biases = Ok(biases);
        }
        self.weights = weights;
        self.biases = biases;
        self.input = None;
        self.output = None;
        proof {
            use_type_invariant(&*self);
            assert(old(self).backwards_via(
                *ops,
                *output_gradient,
                learning_rate,
                work,
                *self,
                Ok(input_gradient),
            ));
        }
        Ok(input_gradient)
    }

    /// `weights` is `before` less `learning_rate` times the product of `input`
    /// turned over and `output_gradient`, with `turned`, `gradient` and `step`
    /// as the three values on the way.
    pub open spec fn descends_via<A: Arithmetic<T>>(
        ops: A,
        before: Matrix<T>,
        input: Matrix<T>,
        output_gradient: Matrix<T>,
        learning_rate: T,
        turned: Matrix<T>,
        gradient: Matrix<T>,
        step: Matrix<T>,
        weights: Matrix<T>,
    ) -> bool {
        &&& turned@ == input@.transposed()
        &&& product_gives(ops, turned, output_gradient, Ok(gradient))
        &&& scaled_gives(ops, learning_rate, gradient, Ok(step))
        &&& difference_gives(ops, before, step, Ok(weights))
    }

    /// `weights` is `before` less `learning_rate` times the product of `input`
    /// turned over and `output_gradient`.
    pub open spec fn descends<A: Arithmetic<T>>(
        ops: A,
        before: Matrix<T>,
        input: Matrix<T>,
        output_gradient: Matrix<T>,
        learning_rate: T,
        weights: Matrix<T>,
    ) -> bool {
        exists|turned: Matrix<T>, gradient: Matrix<T>, step: Matrix<T>| #[trigger]
            Self::descends_via(
                ops,
                before,
                input,
                output_gradient,
                learning_rate,
                turned,
                gradient,
                step,
                weights,
            )
    }

    /// `input_gradient` is the product of `output_gradient` and `turned`, which
    /// is `weights` turned over.
    pub open spec fn pulls_back_via<A: Arithmetic<T>>(
        ops: A,
        weights: Matrix<T>,
        output_gradient: Matrix<T>,
        turned: Matrix<T>,
        input_gradient: Matrix<T>,
    ) -> bool {
        &&& turned@ == weights@.transposed()
        &&& product_gives(ops, output_gradient, turned, Ok(input_gradient))
    }

    /// `input_gradient` is the product of `output_gradient` and `weights` turned
    /// over.
    pub open spec fn pulls_back<A: Arithmetic<T>>(
        ops: A,
        weights: Matrix<T>,
        output_gradient: Matrix<T>,
        input_gradient: Matrix<T>,
    ) -> bool {
        exists|turned: Matrix<T>| #[trigger]
            Self::pulls_back_via(ops, weights, output_gradient, turned, input_gradient)
    }

    /// `biases` is `before` less `learning_rate` times `output_gradient`.
    pub open spec fn bias_descends<A: Arithmetic<T>>(
        ops: A,
        before: Matrix<T>,
        output_gradient: Matrix<T>,
        learning_rate: T,
        biases: Matrix<T>,
    ) -> bool {
        exists|step: Matrix<T>| #[trigger]
            scaled_gives(ops, learning_rate, output_gradient, Ok(step)) && difference_gives(
                ops,
                before,
                step,
                Ok(biases),
            )
    }

    /// A forward call with `input` and the backward call that follows it with
    /// `output_gradient` change the weights by exactly `learning_rate` times
    /// the product of `input` turned over and `output_gradient`, and the biases
    /// by `learning_rate` times `output_gradient`; the gradient that comes back
    /// is `output_gradient` times the weights of before the step, turned over.
    pub proof fn lemma_forward_then_backward<A: Arithmetic<T>>(
        before: Self,
        ops: A,
        input: Matrix<T>,
        between: Self,
        output: Matrix<T>,
        output_gradient: Matrix<T>,
        learning_rate: T,
        after: Self,
        input_gradient: Matrix<T>,
    )
        requires
            before.forwards(ops, input, between, Ok(output)),
            between.backwards(ops, output_gradient, learning_rate, after, Ok(input_gradient)),
        ensures
            Self::descends(
                ops,
                before.weights(),
                input,
                output_gradient,
                learning_rate,
                after.weights(),
            ),
            Self::bias_descends(
                ops,
                before.biases(),
                output_gradient,
                learning_rate,
                after.biases(),
            ),
            Self::pulls_back(ops, before.weights(), output_gradient, input_gradient),
    {
        let forward = choose|work: AffineForward<T>| #[trigger]
            before.forwards_via(ops, input, work, between, Ok(output));
        let work = choose|work: AffineBackward<T>| #[trigger]
            between.backwards_via(ops, output_gradient, learning_rate, work, after, Ok(input_gradient));
        let kept = between.cached_input().unwrap();
        assert(kept@ == input@);
        assert(work.biases is Ok);
        assert(work.bias_step is Ok);
        assert(work.weights is Ok);
        assert(work.weight_step is Ok);
        assert(work.weight_gradient is Ok);
        assert(work.input_gradient is Ok);
        assert(Self::descends_via(
            ops,
            before.weights(),
            input,
            output_gradient,
            learning_rate,
            work.input_transposed,
            work.weight_gradient.unwrap(),
            work.weight_step.unwrap(),
            after.weights(),
        ));
        assert(scaled_gives(ops, learning_rate, output_gradient, Ok(work.bias_step.unwrap()))
            && difference_gives(ops, before.biases(), work.bias_step.unwrap(), Ok(after.biases())));
        assert(Self::pulls_back_via(
            ops,
            before.weights(),
            output_gradient,
            work.weights_transposed,
            input_gradient,
        ));
    }
}

} // verus!

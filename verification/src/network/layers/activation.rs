//! The activation layer: a function applied to what passes, and its derivative
//! applied to what comes back.

use crate::error::Error;
use crate::network::arithmetic::{component_product, component_product_gives, in_shape, shaped, Arithmetic};
use crate::network::matrix::Matrix;
use vstd::prelude::*;

verus! {

/// A layer without parameters. It keeps the input of the last forward call until
/// a backward call has used it.
#[verifier::reject_recursive_types(T)]
pub struct ActivationLayer<T: Copy, F: Fn(&Matrix<T>) -> Matrix<T>, G: Fn(&Matrix<T>) -> Matrix<T>> {
    input: Option<Matrix<T>>,
    activation: F,
    activation_prime: G,
}

/// What an activation layer works out on the way back.
pub struct ActivationBackward<T> {
    /// The derivative at the kept input, framed to the input's shape.
    pub derivative: Result<Matrix<T>, Error>,
}

impl<T: Copy, F: Fn(&Matrix<T>) -> Matrix<T>, G: Fn(&Matrix<T>) -> Matrix<T>> ActivationLayer<
    T,
    F,
    G,
> {
    #[verifier::type_invariant]
    spec fn callable(&self) -> bool {
        &&& forall|m: Matrix<T>| call_requires(self.activation, (&m,))
        &&& forall|m: Matrix<T>| call_requires(self.activation_prime, (&m,))
    }

    /// The input that the layer keeps for the way back, if it keeps one.
    pub closed spec fn cached_input(&self) -> Option<Matrix<T>> {
        self.input
    }

    /// The function that the layer applies on the way forward.
    pub closed spec fn activation(&self) -> F {
        self.activation
    }

    /// The derivative that the layer applies on the way back.
    pub closed spec fn activation_prime(&self) -> G {
        self.activation_prime
    }

    /// The two layers apply the same functions.
    pub open spec fn same_parameters(&self, other: &Self) -> bool {
        &&& self.activation() == other.activation()
        &&& self.activation_prime() == other.activation_prime()
    }

    /// `after` and `r` are what a forward call on `self` with `input` came to.
    ///
    /// The activation is applied to `input`, and its result counts only in the
    /// shape of `input`. Then the layer keeps a copy of `input`. A call that
    /// fails leaves the layer as it was.
    pub open spec fn forwards(
        &self,
        input: Matrix<T>,
        after: Self,
        r: Result<Matrix<T>, Error>,
    ) -> bool {
        &&& self.same_parameters(&after)
        &&& exists|y: Matrix<T>| #[trigger]
            call_ensures(self.activation(), (&input,), y) && r == shaped(
                y,
                input@.rows,
                input@.cols,
            )
        &&& match r {
            Ok(_) => after.cached_input() matches Some(kept) && kept@ == input@,
            Err(_) => after.cached_input() == self.cached_input(),
        }
    }

    /// `after` and `r` are what a backward call on `self` with `output_gradient`
    /// came to, with `work` as what was worked out on the way.
    pub open spec fn backwards_via<A: Arithmetic<T>>(
        &self,
        ops: A,
        output_gradient: Matrix<T>,
        work: ActivationBackward<T>,
        after: Self,
        r: Result<Matrix<T>, Error>,
    ) -> bool {
        &&& self.same_parameters(&after)
        &&& match self.cached_input() {
            None => r == Err::<Matrix<T>, Error>(Error::BackwardWithoutForward),
            Some(kept) => {
                &&& exists|d: Matrix<T>| #[trigger]
                    call_ensures(self.activation_prime(), (&kept,), d) && work.derivative
                        == shaped(d, kept@.rows, kept@.cols)
                &&& match work.derivative {
                    Err(e) => r == Err::<Matrix<T>, Error>(e),
                    Ok(derivative) => component_product_gives(ops, derivative, output_gradient, r),
                }
            },
        }
        &&& match r {
            Ok(_) => after.cached_input() is None,
            Err(_) => after.cached_input() == self.cached_input(),
        }
    }

    /// `after` and `r` are what a backward call on `self` with `output_gradient`
    /// came to.
    ///
    /// Without a kept input the call fails. Otherwise the result is the
    /// elementwise product of the derivative at the kept input and
    /// `output_gradient`, where each of the two counts only in the shape of the
    /// kept input. A call that succeeds uses the kept input up; one that fails
    /// leaves the layer as it was.
    pub open spec fn backwards<A: Arithmetic<T>>(
        &self,
        ops: A,
        output_gradient: Matrix<T>,
        after: Self,
        r: Result<Matrix<T>, Error>,
    ) -> bool {
        exists|work: ActivationBackward<T>| #[trigger]
            self.backwards_via(ops, output_gradient, work, after, r)
    }

    /// A layer that applies `activation` forwards and `activation_prime`
    /// backwards. Both must accept every matrix.
    pub fn new(activation: F, activation_prime: G) -> (r: Self)
        requires
            forall|m: Matrix<T>| call_requires(activation, (&m,)),
            forall|m: Matrix<T>| call_requires(activation_prime, (&m,)),
        ensures
            r.cached_input() is None,
            r.activation() == activation,
            r.activation_prime() == activation_prime,
    {
        ActivationLayer { input: None, activation, activation_prime }
    }

    /// Applies the activation to `input` and keeps a copy of `input` for the way
    /// back.
    pub fn forward_propagation(&mut self, input: &Matrix<T>) -> (r: Result<Matrix<T>, Error>)
        ensures
            old(self).forwards(*input, *final(self), r),
    {
        proof {
            use_type_invariant(&*self);
        }
        let y = (self.activation)(input);
        assert(call_ensures(old(self).activation(), (input,), y));
        let r = in_shape(y, input.nrows(), input.ncols());
        if r.is_ok() {
            self.input = Some(input.duplicate());
        }
        r
    }

    /// Turns the gradient at the output into the gradient at the input: the
    /// derivative at the kept input, times `output_gradient`, element by
    /// element. The learning rate plays no part.
    pub fn back_propagation<A: Arithmetic<T>>(
        &mut self,
        ops: &A,
        output_gradient: &Matrix<T>,
        _learning_rate: T,
    ) -> (r: Result<Matrix<T>, Error>)
        ensures
            old(self).backwards(*ops, *output_gradient, *final(self), r),
    {
        proof {
            use_type_invariant(&*self);
        }
        let kept = match &self.input {
            None => {
                proof {
                    let work = ActivationBackward::<T> {
                        derivative: Err(Error::BackwardWithoutForward),
                    };
                    assert(old(self).backwards_via(
                        *ops,
                        *output_gradient,
                        work,
                        *self,
                        Err(Error::BackwardWithoutForward),
                    ));
                }
                return Err(Error::BackwardWithoutForward);
            },
            Some(kept) => kept,
        };
        let d = (self.activation_prime)(kept);
        assert(call_ensures(old(self).activation_prime(), (kept,), d));
        let derivative = match in_shape(d, kept.nrows(), kept.ncols()) {
            Err(e) => {
                proof {
                    let work = ActivationBackward::<T> { derivative: Err(e) };
                    assert(old(self).backwards_via(*ops, *output_gradient, work, *self, Err(e)));
                }
                return Err(e);
            },
            Ok(derivative) => derivative,
        };
        let r = component_product(ops, &derivative, output_gradient);
        if r.is_ok() {
            self.input = None;
        }
        proof {
            let work = ActivationBackward::<T> { derivative: Ok(derivative) };
            assert(old(self).backwards_via(*ops, *output_gradient, work, *self, r));
        }
        r
    }

    /// `input_gradient` is the elementwise product of the derivative at `kept`
    /// and `output_gradient`, with `derivative` as the derivative.
    pub open spec fn chains_via<A: Arithmetic<T>>(
        ops: A,
        activation_prime: G,
        kept: Matrix<T>,
        output_gradient: Matrix<T>,
        derivative: Matrix<T>,
        input_gradient: Matrix<T>,
    ) -> bool {
        &&& call_ensures(activation_prime, (&kept,), derivative)
        &&& derivative.same_shape(&kept)
        &&& component_product_gives(ops, derivative, output_gradient, Ok(input_gradient))
    }

    /// A forward call with `input` and the backward call that follows it with
    /// `output_gradient` give the elementwise product of the derivative at a
    /// copy of `input` and `output_gradient`.
    pub proof fn lemma_forward_then_backward<A: Arithmetic<T>>(
        before: Self,
        ops: A,
        input: Matrix<T>,
        between: Self,
        output: Matrix<T>,
        output_gradient: Matrix<T>,
        after: Self,
        input_gradient: Matrix<T>,
    )
        requires
            before.forwards(input, between, Ok(output)),
            between.backwards(ops, output_gradient, after, Ok(input_gradient)),
        ensures
            exists|kept: Matrix<T>, derivative: Matrix<T>|
                kept@ == input@ && #[trigger] Self::chains_via(
                    ops,
                    before.activation_prime(),
                    kept,
                    output_gradient,
                    derivative,
                    input_gradient,
                ),
    {
        let work = choose|work: ActivationBackward<T>| #[trigger]
            between.backwards_via(ops, output_gradient, work, after, Ok(input_gradient));
        let kept = between.cached_input().unwrap();
        assert(kept@ == input@);
        assert(work.derivative is Ok);
        let derivative = work.derivative.unwrap();
        assert(Self::chains_via(
            ops,
            before.activation_prime(),
            kept,
            output_gradient,
            derivative,
            input_gradient,
        ));
    }
}

} // verus!

//! The layers of a network: two kinds, one way to use them.

pub mod activation;
pub mod fully_connected;

pub use activation::ActivationLayer;
pub use fully_connected::FullyConnectedLayer;

use crate::error::Error;
use crate::network::arithmetic::{
    adds_and_multiplies_functionally, adds_and_multiplies_in_shape, computes_in_shape,
    is_functional, keeps_shape, Arithmetic,
};
use crate::network::matrix::Matrix;
use vstd::prelude::*;

verus! {

/// One layer of a network.
#[verifier::reject_recursive_types(T)]
pub enum Layer<T: Copy, F: Fn(&Matrix<T>) -> Matrix<T>, G: Fn(&Matrix<T>) -> Matrix<T>> {
    /// A layer with weights and biases.
    Affine(FullyConnectedLayer<T>),
    /// A layer that applies a function to what passes.
    Activation(ActivationLayer<T, F, G>),
}

impl<T: Copy, F: Fn(&Matrix<T>) -> Matrix<T>, G: Fn(&Matrix<T>) -> Matrix<T>> Layer<T, F, G> {
    /// The two layers are of one kind and have the same parameters: weights and
    /// biases, or the functions that they apply.
    pub open spec fn same_parameters(&self, other: &Self) -> bool {
        match (*self, *other) {
            (Layer::Affine(a), Layer::Affine(b)) => a.same_parameters(&b),
            (Layer::Activation(a), Layer::Activation(b)) => a.same_parameters(&b),
            _ => false,
        }
    }

    /// `after` and `r` are what a forward call on `self` with `input` came to.
    pub open spec fn forwards<A: Arithmetic<T>>(
        &self,
        ops: A,
        input: Matrix<T>,
        after: Self,
        r: Result<Matrix<T>, Error>,
    ) -> bool {
        match (*self, after) {
            (Layer::Affine(a), Layer::Affine(b)) => a.forwards(ops, input, b, r),
            (Layer::Activation(a), Layer::Activation(b)) => a.forwards(input, b, r),
            _ => false,
        }
    }

    /// `after` and `r` are what a backward call on `self` with `output_gradient`
    /// and `learning_rate` came to.
    pub open spec fn backwards<A: Arithmetic<T>>(
        &self,
        ops: A,
        output_gradient: Matrix<T>,
        learning_rate: T,
        after: Self,
        r: Result<Matrix<T>, Error>,
    ) -> bool {
        match (*self, after) {
            (Layer::Affine(a), Layer::Affine(b)) => a.backwards(
                ops,
                output_gradient,
                learning_rate,
                b,
                r,
            ),
            (Layer::Activation(a), Layer::Activation(b)) => a.backwards(
                ops,
                output_gradient,
                b,
                r,
            ),
            _ => false,
        }
    }

    /// The output of the layer for `input`, under its parameters as they stand.
    /// The layer keeps what it needs for the backward call that follows.
    pub fn forward_propagation<A: Arithmetic<T>>(&mut self, ops: &A, input: &Matrix<T>) -> (r:
        Result<Matrix<T>, Error>)
        ensures
            old(self).forwards(*ops, *input, *final(self), r),
    {
        match self {
            Layer::Affine(layer) => layer.forward_propagation(ops, input),
            Layer::Activation(layer) => layer.forward_propagation(input),
        }
    }

    /// The gradient at the input of the layer, from the gradient at its output
    /// and what the last forward call kept. A layer with parameters takes one
    /// step of gradient descent of size `learning_rate`.
    pub fn back_propagation<A: Arithmetic<T>>(
        &mut self,
        ops: &A,
        output_gradient: &Matrix<T>,
        learning_rate: T,
    ) -> (r: Result<Matrix<T>, Error>)
        ensures
            old(self).backwards(*ops, *output_gradient, learning_rate, *final(self), r),
    {
        match self {
            Layer::Affine(layer) => layer.back_propagation(ops, output_gradient, learning_rate),
            Layer::Activation(layer) => layer.back_propagation(
                ops,
                output_gradient,
                learning_rate,
            ),
        }
    }

    /// The input that the layer keeps for the way back, if it keeps one.
    pub open spec fn kept_input(&self) -> Option<Matrix<T>> {
        match *self {
            Layer::Affine(layer) => layer.cached_input(),
            Layer::Activation(layer) => layer.cached_input(),
        }
    }

    /// The two layers are of one kind and take and give the same widths: they
    /// have weights of one shape, or they apply the same functions.
    pub open spec fn same_size(&self, other: &Self) -> bool {
        match (*self, *other) {
            (Layer::Affine(a), Layer::Affine(b)) => a.input_size() == b.input_size()
                && a.output_size() == b.output_size(),
            (Layer::Activation(a), Layer::Activation(b)) => a.same_parameters(&b),
            _ => false,
        }
    }

    /// The layer keeps the input of a forward call for the backward call that
    /// follows.
    pub open spec fn holds_input(&self) -> bool {
        match *self {
            Layer::Affine(layer) => layer.cached_input() is Some,
            Layer::Activation(layer) => layer.cached_input() is Some,
        }
    }

    /// A forward call fails with a mismatch or not at all, and one that succeeds
    /// leaves the layer holding its input.
    pub proof fn lemma_forward_outcomes<A: Arithmetic<T>>(
        &self,
        ops: A,
        input: Matrix<T>,
        after: Self,
        r: Result<Matrix<T>, Error>,
    )
        requires
            self.forwards(ops, input, after, r),
        ensures
            self.same_parameters(&after),
            self.same_size(&after),
            after.well_shaped(),
            r matches Err(e) ==> e == Error::DimensionMismatch,
            r is Ok ==> (after.kept_input() matches Some(kept) && kept@ == input@),
            r is Ok ==> after.holds_input(),
    {
    }

    /// A backward call on a layer that holds its input fails with a mismatch or
    /// not at all.
    pub proof fn lemma_backward_outcomes<A: Arithmetic<T>>(
        &self,
        ops: A,
        output_gradient: Matrix<T>,
        learning_rate: T,
        after: Self,
        r: Result<Matrix<T>, Error>,
    )
        requires
            self.backwards(ops, output_gradient, learning_rate, after, r),
            self.holds_input(),
        ensures
            r matches Err(e) ==> e == Error::DimensionMismatch,
    {
        match (*self, after) {
            (Layer::Affine(a), Layer::Affine(b)) => {
                let work = choose|work: fully_connected::AffineBackward<T>| #[trigger]
                    a.backwards_via(ops, output_gradient, learning_rate, work, b, r);
            },
            (Layer::Activation(a), Layer::Activation(b)) => {
                let work = choose|work: activation::ActivationBackward<T>| #[trigger]
                    a.backwards_via(ops, output_gradient, work, b, r);
            },
            _ => {},
        }
    }

    /// What the layer applies on the way forward depends on nothing but the
    /// shape and the elements of its input.
    pub open spec fn applies_a_function(&self) -> bool {
        match *self {
            Layer::Affine(_) => true,
            Layer::Activation(layer) => is_functional(layer.activation()),
        }
    }

    /// Two layers with the same parameters give outputs with the same elements
    /// for inputs with the same elements, where the arithmetic and the
    /// activation are functions.
    pub proof fn lemma_forward_agrees<A: Arithmetic<T>>(
        &self,
        other: Self,
        ops: A,
        input: Matrix<T>,
        other_input: Matrix<T>,
        after: Self,
        other_after: Self,
        output: Matrix<T>,
        other_output: Matrix<T>,
    )
        requires
            self.same_parameters(&other),
            input@ == other_input@,
            self.forwards(ops, input, after, Ok(output)),
            other.forwards(ops, other_input, other_after, Ok(other_output)),
            adds_and_multiplies_functionally(ops),
            self.applies_a_function(),
        ensures
            output@ == other_output@,
    {
        match (*self, other) {
            (Layer::Affine(a), Layer::Affine(b)) => {
                let first = choose|work: fully_connected::AffineForward<T>| #[trigger]
                    a.forwards_via(ops, input, work, after->Affine_0, Ok(output));
                let second = choose|work: fully_connected::AffineForward<T>| #[trigger]
                    b.forwards_via(ops, other_input, work, other_after->Affine_0, Ok(other_output));
                assert(first.product is Ok);
                assert(second.product is Ok);
                assert(first.product.unwrap()@ == second.product.unwrap()@);
            },
            (Layer::Activation(a), Layer::Activation(b)) => {},
            _ => {},
        }
    }

    /// The parts of the layer have the shapes that belong together. This holds
    /// of every layer that was made by the constructor of its kind.
    pub open spec fn well_shaped(&self) -> bool {
        match *self {
            Layer::Affine(layer) => layer.well_shaped(),
            Layer::Activation(_) => true,
        }
    }

    /// What the layer applies on the way forward gives the shape that it is
    /// given.
    pub open spec fn applies_in_shape(&self) -> bool {
        match *self {
            Layer::Affine(_) => true,
            Layer::Activation(layer) => keeps_shape(layer.activation()),
        }
    }

    /// The shape that the layer gives for an input of `rows` rows and `cols`
    /// columns; `None` where it does not take such an input. A layer with
    /// weights takes one row of its input size; the other kind takes anything.
    pub open spec fn output_shape(&self, rows: nat, cols: nat) -> Option<(nat, nat)> {
        match *self {
            Layer::Affine(layer) => if rows == 1 && cols == layer.input_size() {
                Some((1nat, layer.output_size()))
            } else {
                None
            },
            Layer::Activation(_) => Some((rows, cols)),
        }
    }

    /// Where arithmetic and activation give the shapes that they should, a
    /// forward call succeeds exactly on the inputs that the layer takes, and
    /// its output has the shape that the layer gives for them.
    pub proof fn lemma_forward_succeeds<A: Arithmetic<T>>(
        &self,
        ops: A,
        input: Matrix<T>,
        after: Self,
        r: Result<Matrix<T>, Error>,
    )
        requires
            self.forwards(ops, input, after, r),
            adds_and_multiplies_in_shape(ops),
            self.applies_in_shape(),
            self.well_shaped(),
        ensures
            r is Ok <==> self.output_shape(input@.rows, input@.cols) is Some,
            r matches Ok(output) ==> self.output_shape(input@.rows, input@.cols) == Some(
                (output@.rows, output@.cols),
            ),
    {
        match (*self, after) {
            (Layer::Affine(a), Layer::Affine(b)) => {
                let work = choose|work: fully_connected::AffineForward<T>| #[trigger]
                    a.forwards_via(ops, input, work, b, r);
            },
            (Layer::Activation(a), Layer::Activation(b)) => {},
            _ => {},
        }
    }

    /// The shape that the layer gives for an input of `rows` rows and `cols`
    /// columns, if it takes such an input.
    pub fn shape_for(&self, rows: usize, cols: usize) -> (r: Option<(usize, usize)>)
        ensures
            r is Some <==> self.output_shape(rows as nat, cols as nat) is Some,
            r matches Some((out_rows, out_cols)) ==> self.output_shape(rows as nat, cols as nat)
                == Some((out_rows as nat, out_cols as nat)),
    {
        match self {
            Layer::Affine(layer) => {
                if rows == 1 && cols == layer.input_width() {
                    Some((1, layer.output_width()))
                } else {
                    None
                }
            },
            Layer::Activation(_) => Some((rows, cols)),
        }
    }

    /// What the layer applies, forwards and backwards, gives the shape that it
    /// is given.
    pub open spec fn propagates_in_shape(&self) -> bool {
        match *self {
            Layer::Affine(_) => true,
            Layer::Activation(layer) => keeps_shape(layer.activation()) && keeps_shape(
                layer.activation_prime(),
            ),
        }
    }

    /// Whatever a backward call comes to, the layer takes and gives the widths
    /// that it did, and its parts have shapes that belong together.
    pub proof fn lemma_backward_keeps_size<A: Arithmetic<T>>(
        &self,
        ops: A,
        output_gradient: Matrix<T>,
        learning_rate: T,
        after: Self,
        r: Result<Matrix<T>, Error>,
    )
        requires
            self.backwards(ops, output_gradient, learning_rate, after, r),
            self.well_shaped(),
        ensures
            self.same_size(&after),
            after.well_shaped(),
    {
        match (*self, after) {
            (Layer::Affine(a), Layer::Affine(b)) => {
                let work = choose|work: fully_connected::AffineBackward<T>| #[trigger]
                    a.backwards_via(ops, output_gradient, learning_rate, work, b, r);
            },
            (Layer::Activation(a), Layer::Activation(b)) => {
                let work = choose|work: activation::ActivationBackward<T>| #[trigger]
                    a.backwards_via(ops, output_gradient, work, b, r);
            },
            _ => {},
        }
    }

    /// Where arithmetic and activation give the shapes that they should, a
    /// backward call with a gradient of the shape of the output succeeds, and
    /// the gradient that it gives has the shape of the input.
    pub proof fn lemma_backward_succeeds<A: Arithmetic<T>>(
        &self,
        ops: A,
        output_gradient: Matrix<T>,
        learning_rate: T,
        after: Self,
        r: Result<Matrix<T>, Error>,
    )
        requires
            self.backwards(ops, output_gradient, learning_rate, after, r),
            computes_in_shape(ops),
            self.propagates_in_shape(),
            self.well_shaped(),
            self.kept_input() is Some,
            self.output_shape(
                self.kept_input().unwrap()@.rows,
                self.kept_input().unwrap()@.cols,
            ) == Some((output_gradient@.rows, output_gradient@.cols)),
        ensures
            r is Ok,
            r.unwrap().same_shape(&self.kept_input().unwrap()),
    {
        match (*self, after) {
            (Layer::Affine(a), Layer::Affine(b)) => {
                let work = choose|work: fully_connected::AffineBackward<T>| #[trigger]
                    a.backwards_via(ops, output_gradient, learning_rate, work, b, r);
                assert(work.input_gradient is Ok);
                assert(work.weight_gradient is Ok);
                assert(work.weight_step is Ok);
                assert(work.weights is Ok);
                assert(work.bias_step is Ok);
                assert(work.biases is Ok);
            },
            (Layer::Activation(a), Layer::Activation(b)) => {
                let work = choose|work: activation::ActivationBackward<T>| #[trigger]
                    a.backwards_via(ops, output_gradient, work, b, r);
                assert(work.derivative is Ok);
            },
            _ => {},
        }
    }
}

} // verus!

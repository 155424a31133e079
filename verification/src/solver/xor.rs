//! The exclusive-or problem: four samples of two bits, and one bit to learn.

use crate::error::Error;
use crate::network::arithmetic::{
    computes_in_shape, gives_shape_asked, gives_shape_of_prediction, keeps_shape, Arithmetic,
};
use crate::network::layers::{FullyConnectedLayer, Layer};
use crate::network::matrix::Matrix;
use crate::network::Network;
use crate::solver::{
    assemble, encode_rows, lemma_stack_shapes, matches_below, row_encodes, score_rows, scores_of,
    stacked, train_and_test, trained_and_tested, SolverData,
};
use vstd::prelude::*;

verus! {

/// The exclusive-or problem.
pub struct XorSolver;

/// The four samples.
pub open spec fn xor_inputs() -> Seq<Seq<u8>> {
    seq![seq![0u8, 0u8], seq![0u8, 1u8], seq![1u8, 0u8], seq![1u8, 1u8]]
}

/// The exclusive or of each sample.
pub open spec fn xor_outputs() -> Seq<u8> {
    seq![0u8, 1u8, 1u8, 0u8]
}

/// The widths of the network that learns the problem.
pub open spec fn xor_sizes() -> Seq<usize> {
    seq![2usize, 3usize, 1usize]
}

/// Label `i` is 1 where the first score of row `i` is above `threshold`, and 0
/// where it is not.
pub open spec fn reads_bit(scores: Seq<i64>, threshold: i64, label: u8) -> bool {
    label == if scores[0] > threshold {
        1u8
    } else {
        0u8
    }
}

/// Reads a bit from each row of scores: 1 where the first score is above
/// `threshold`. A row without scores is a mismatch.
pub fn categorical_to_labels(scores: &[Vec<i64>], threshold: i64) -> (r: Result<Vec<u8>, Error>)
    ensures
        r is Ok <==> forall|i: int| 0 <= i < scores@.len() ==> (#[trigger] scores@[i])@.len() > 0,
        r matches Ok(labels) ==> {
            &&& labels@.len() == scores@.len()
            &&& forall|i: int|
                0 <= i < scores@.len() ==> reads_bit(scores@[i]@, threshold, #[trigger] labels@[i])
        },
        r matches Err(e) ==> e == Error::DimensionMismatch,
{
    let mut labels: Vec<u8> = Vec::new();
    let mut i: usize = 0;
    while i < scores.len()
        invariant
            i <= scores@.len(),
            labels@.len() == i,
            forall|j: int| 0 <= j < i ==> (#[trigger] scores@[j])@.len() > 0,
            forall|j: int|
                0 <= j < i ==> reads_bit(scores@[j]@, threshold, #[trigger] labels@[j]),
        decreases scores@.len() - i,
    {
        let row = &scores[i];
        if row.len() == 0 {
            return Err(Error::DimensionMismatch);
        }
        let label: u8 = if row[0] > threshold {
            1
        } else {
            0
        };
        labels.push(label);
        i += 1;
    }
    Ok(labels)
}

/// Each label as a row of its own.
pub fn label_rows(labels: &[u8]) -> (r: Vec<Vec<u8>>)
    ensures
        r@.len() == labels@.len(),
        forall|i: int| 0 <= i < labels@.len() ==> (#[trigger] r@[i])@ == seq![labels@[i]],
{
    let mut rows: Vec<Vec<u8>> = Vec::new();
    let mut i: usize = 0;
    while i < labels.len()
        invariant
            i <= labels@.len(),
            rows@.len() == i,
            forall|j: int| 0 <= j < i ==> (#[trigger] rows@[j])@ == seq![labels@[j]],
        decreases labels@.len() - i,
    {
        let mut row: Vec<u8> = Vec::new();
        row.push(labels[i]);
        assert(row@ =~= seq![labels@[i as int]]);
        rows.push(row);
        i += 1;
    }
    rows
}

/// What solving the problem works out on the way.
#[verifier::reject_recursive_types(T)]
pub struct XorRun<T: Copy, F: Fn(&Matrix<T>) -> Matrix<T>, G: Fn(&Matrix<T>) -> Matrix<T>> {
    /// The four samples, encoded.
    pub samples: Vec<Matrix<T>>,
    /// Their labels, encoded.
    pub labels: Vec<Matrix<T>>,
    /// The layers before training.
    pub start: Seq<Layer<T, F, G>>,
    /// The layers after training.
    pub trained: Seq<Layer<T, F, G>>,
    /// The layers after predicting.
    pub after: Seq<Layer<T, F, G>>,
    /// What the trained network gives for the samples.
    pub outputs: Vec<Matrix<T>>,
    /// The scores of the outputs.
    pub scores: Vec<Vec<i64>>,
    /// The score of the threshold.
    pub limit: i64,
}

impl XorSolver {
    /// The widths of the network that learns the problem: two numbers in, three
    /// between, one out.
    pub fn layer_sizes() -> (r: Vec<usize>)
        ensures
            r@ == xor_sizes(),
    {
        let sizes = vec![2usize, 3usize, 1usize];
        assert(sizes@ =~= xor_sizes());
        sizes
    }

    /// The four samples, in the order in which they are trained on.
    pub fn raw_data() -> (r: Vec<Vec<u8>>)
        ensures
            r@.len() == 4,
            forall|i: int| 0 <= i < 4 ==> (#[trigger] r@[i])@ == xor_inputs()[i],
    {
        let mut data: Vec<Vec<u8>> = Vec::new();
        data.push(vec![0u8, 0u8]);
        data.push(vec![0u8, 1u8]);
        data.push(vec![1u8, 0u8]);
        data.push(vec![1u8, 1u8]);
        data
    }

    /// The label of each sample: 1 where exactly one of its bits is 1.
    pub fn raw_labels() -> (r: Vec<u8>)
        ensures
            r@ == xor_outputs(),
            forall|i: int|
                0 <= i < 4 ==> (#[trigger] r@[i] == 1) == (xor_inputs()[i][0] != xor_inputs()[i][1]),
    {
        let labels = vec![0u8, 1u8, 1u8, 0u8];
        assert(labels@ =~= xor_outputs());
        labels
    }

    /// `data` and `errors` are what solving the problem came to, with `run` as
    /// what was worked out on the way: the samples and labels through `encode`;
    /// a stack of two, three and one numbers behind the layers of `network`;
    /// training on the four samples and predicting for them again; a score for
    /// every output through `key`; and a bit for every sample, 1 where the
    /// score is above that of `threshold`.
    pub open spec fn solved_via<
        T: Copy,
        A: Arithmetic<T>,
        F: Fn(&Matrix<T>) -> Matrix<T>,
        G: Fn(&Matrix<T>) -> Matrix<T>,
        L: Fn(&Matrix<T>, &Matrix<T>) -> T,
        P: Fn(&Matrix<T>, &Matrix<T>) -> Matrix<T>,
        R: Fn(usize, usize) -> Matrix<T>,
        C: Fn(u8) -> T,
        K: Fn(&T) -> i64,
    >(
        network: Network<T, A, F, G, L, P>,
        activation: F,
        activation_prime: G,
        generate: R,
        encode: C,
        key: K,
        threshold: T,
        epochs: int,
        learning_rate: T,
        run: XorRun<T, F, G>,
        data: SolverData<u8>,
        errors: Vec<T>,
    ) -> bool {
        &&& run.samples@.len() == 4
        &&& run.labels@.len() == 4
        &&& forall|i: int|
            0 <= i < 4 ==> row_encodes(encode, xor_inputs()[i], #[trigger] run.samples@[i])
        &&& forall|i: int|
            0 <= i < 4 ==> row_encodes(encode, seq![xor_outputs()[i]], #[trigger] run.labels@[i])
        &&& stacked(
            network.layers(),
            xor_sizes(),
            activation,
            activation_prime,
            generate,
            run.start,
        )
        &&& trained_and_tested(
            run.start,
            network.ops(),
            network.loss(),
            network.loss_prime(),
            run.samples@,
            run.labels@,
            run.samples@,
            epochs,
            learning_rate,
            run.trained,
            Ok(errors),
            run.after,
            Ok((errors, run.outputs)),
        )
        &&& run.scores@.len() == 4
        &&& forall|i: int|
            0 <= i < 4 ==> scores_of(key, run.outputs@[i], (#[trigger] run.scores@[i])@)
        &&& call_ensures(key, (&threshold,), run.limit)
        &&& data.predictions@.len() == 4
        &&& forall|i: int|
            0 <= i < 4 ==> (#[trigger] run.scores@[i])@.len() > 0 && reads_bit(
                run.scores@[i]@,
                run.limit,
                data.predictions@[i],
            )
        &&& data.labels@ == xor_outputs()
        &&& data.correct == matches_below(data.predictions@, data.labels@, 4)
    }

    /// `data` and `errors` are what solving the problem came to.
    pub open spec fn solved<
        T: Copy,
        A: Arithmetic<T>,
        F: Fn(&Matrix<T>) -> Matrix<T>,
        G: Fn(&Matrix<T>) -> Matrix<T>,
        L: Fn(&Matrix<T>, &Matrix<T>) -> T,
        P: Fn(&Matrix<T>, &Matrix<T>) -> Matrix<T>,
        R: Fn(usize, usize) -> Matrix<T>,
        C: Fn(u8) -> T,
        K: Fn(&T) -> i64,
    >(
        network: Network<T, A, F, G, L, P>,
        activation: F,
        activation_prime: G,
        generate: R,
        encode: C,
        key: K,
        threshold: T,
        epochs: int,
        learning_rate: T,
        data: SolverData<u8>,
        errors: Vec<T>,
    ) -> bool {
        exists|run: XorRun<T, F, G>| #[trigger]
            Self::solved_via(
                network,
                activation,
                activation_prime,
                generate,
                encode,
                key,
                threshold,
                epochs,
                learning_rate,
                run,
                data,
                errors,
            )
    }

    /// Learns the exclusive or with `network`, which brings the arithmetic and
    /// the loss: puts a stack of two, three and one numbers behind its layers,
    /// trains it on the four samples for `epochs` epochs, and holds what it then
    /// gives for the four samples against their labels. Beside that, the result
    /// holds the mean loss of each epoch.
    ///
    /// `generate` gives the first weights and biases, `encode` turns a bit into
    /// an element, and `key` gives a score for an element, by which it is held
    /// against `threshold`.
    ///
    /// Where the arithmetic, the loss, the activation and `generate` keep to
    /// the shapes, and `network` comes without layers, the call succeeds.
    pub fn solve<
        T: Copy,
        A: Arithmetic<T>,
        F: Fn(&Matrix<T>) -> Matrix<T> + Copy,
        G: Fn(&Matrix<T>) -> Matrix<T> + Copy,
        L: Fn(&Matrix<T>, &Matrix<T>) -> T,
        P: Fn(&Matrix<T>, &Matrix<T>) -> Matrix<T>,
        R: Fn(usize, usize) -> Matrix<T>,
        C: Fn(u8) -> T,
        K: Fn(&T) -> i64,
    >(
        &self,
        network: Network<T, A, F, G, L, P>,
        activation: F,
        activation_prime: G,
        generate: &R,
        encode: &C,
        key: &K,
        threshold: T,
        epochs: usize,
        learning_rate: T,
    ) -> (r: Result<(SolverData<u8>, Vec<T>), Error>)
        requires
            forall|m: Matrix<T>| call_requires(activation, (&m,)),
            forall|m: Matrix<T>| call_requires(activation_prime, (&m,)),
            forall|rows: usize, cols: usize| call_requires(*generate, (rows, cols)),
            forall|bit: u8| call_requires(*encode, (bit,)),
            forall|element: T| call_requires(*key, (&element,)),
        ensures
            match r {
                Ok(solved) => Self::solved(
                    network,
                    activation,
                    activation_prime,
                    *generate,
                    *encode,
                    *key,
                    threshold,
                    epochs as int,
                    learning_rate,
                    solved.0,
                    solved.1,
                ),
                Err(e) => e == Error::DimensionMismatch,
            },
            computes_in_shape(network.ops()) && gives_shape_of_prediction(network.loss_prime())
                && keeps_shape(activation) && keeps_shape(activation_prime) && gives_shape_asked(
                *generate,
            ) && network.layers().len() == 0 ==> r is Ok,
    {
        let ghost in_shape = computes_in_shape(network.ops()) && gives_shape_of_prediction(
            network.loss_prime(),
        ) && keeps_shape(activation) && keeps_shape(activation_prime) && gives_shape_asked(
            *generate,
        ) && network.layers().len() == 0;
        let raw_data = XorSolver::raw_data();
        let raw_labels = XorSolver::raw_labels();
        let samples = match encode_rows(raw_data.as_slice(), 2, encode) {
            Ok(samples) => samples,
            Err(e) => {
                return Err(e);
            },
        };
        let bits = label_rows(raw_labels.as_slice());
        let labels = match encode_rows(bits.as_slice(), 1, encode) {
            Ok(labels) => labels,
            Err(e) => {
                return Err(e);
            },
        };
        let sizes = XorSolver::layer_sizes();
        let mut built = match assemble(
            network,
            sizes.as_slice(),
            activation,
            activation_prime,
            generate,
        ) {
            Ok(built) => built,
            Err(e) => {
                return Err(e);
            },
        };
        let ghost start = built.layers();
        proof {
            if in_shape {
                assert(network.layers() =~= Seq::empty());
                lemma_stack_shapes(
                    network,
                    xor_sizes(),
                    activation,
                    activation_prime,
                    *generate,
                    start,
                );
                assert forall|j: int| 0 <= j < 4 implies #[trigger] Network::<
                    T,
                    A,
                    F,
                    G,
                    L,
                    P,
                >::trainable(start, samples@[j], labels@[j]) by {
                    assert(row_encodes(*encode, raw_data@[j]@, samples@[j]));
                    assert(row_encodes(*encode, bits@[j]@, labels@[j]));
                }
                assert forall|j: int| 0 <= j < 4 implies #[trigger] Network::<
                    T,
                    A,
                    F,
                    G,
                    L,
                    P,
                >::takes(start, samples@, j) by {
                    assert(row_encodes(*encode, raw_data@[j]@, samples@[j]));
                }
            }
        }
        let (errors, outputs) = match train_and_test(
            &mut built,
            samples.as_slice(),
            labels.as_slice(),
            samples.as_slice(),
            epochs,
            learning_rate,
        ) {
            Ok(pair) => pair,
            Err(e) => {
                return Err(e);
            },
        };
        let ghost (trained, fitted) = choose|
            trained: Seq<Layer<T, F, G>>,
            fitted: Result<Vec<T>, Error>,
        | #[trigger]
            trained_and_tested(
                start,
                network.ops(),
                network.loss(),
                network.loss_prime(),
                samples@,
                labels@,
                samples@,
                epochs as int,
                learning_rate,
                trained,
                fitted,
                built.layers(),
                Ok((errors, outputs)),
            );
        let scores = score_rows(outputs.as_slice(), key);
        let limit = key(&threshold);
        proof {
            if in_shape {
                assert forall|i: int| 0 <= i < 4 implies (#[trigger] scores@[i])@.len() > 0 by {
                    assert(row_encodes(*encode, raw_data@[i]@, samples@[i]));
                    assert(outputs@[i]@.rows == 1 && outputs@[i]@.cols == 1);
                }
            }
        }
        let predictions = match categorical_to_labels(scores.as_slice(), limit) {
            Ok(predictions) => predictions,
            Err(e) => {
                return Err(e);
            },
        };
        let data = SolverData::new(predictions, raw_labels);
        proof {
            let run = XorRun::<T, F, G> {
                samples,
                labels,
                start,
                trained,
                after: built.layers(),
                outputs,
                scores,
                limit,
            };
            assert forall|i: int| 0 <= i < 4 implies row_encodes(
                *encode,
                xor_inputs()[i],
                #[trigger] run.samples@[i],
            ) by {
                assert(row_encodes(*encode, raw_data@[i]@, samples@[i]));
            }
            assert forall|i: int| 0 <= i < 4 implies row_encodes(
                *encode,
                seq![xor_outputs()[i]],
                #[trigger] run.labels@[i],
            ) by {
                assert(row_encodes(*encode, bits@[i]@, labels@[i]));
            }
            assert(Self::solved_via(
                network,
                activation,
                activation_prime,
                *generate,
                *encode,
                *key,
                threshold,
                epochs as int,
                learning_rate,
                run,
                data,
                errors,
            ));
            assert(Self::solved(
                network,
                activation,
                activation_prime,
                *generate,
                *encode,
                *key,
                threshold,
                epochs as int,
                learning_rate,
                data,
                errors,
            ));
        }
        Ok((data, errors))
    }
}

} // verus!

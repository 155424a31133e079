//! The digit problem: which samples to take, how to encode them, and how to read
//! a digit from ten scores.

use crate::dataset::mnist::MnistDataset;
use crate::error::Error;
use crate::network::arithmetic::{
    computes_in_shape, gives_shape_asked, gives_shape_of_prediction, keeps_shape, Arithmetic,
};
use crate::network::layers::Layer;
use crate::network::matrix::Matrix;
use crate::network::Network;
use crate::solver::{
    arg_max, assemble, encode_rows, is_last_maximum, lemma_stack_shapes, matches_below, one_hot,
    row_encodes, score_rows, scores_of, stacked, train_and_test, trained_and_tested, SolverData,
};
use vstd::prelude::*;
use vstd::slice::{slice_subrange, slice_to_vec};

verus! {

/// The number of pixels of an image.
pub const IMAGE_PIXELS: usize = 784;

/// The number of digits.
pub const DIGITS: usize = 10;

/// The widths of the network that learns the problem.
pub open spec fn mnist_sizes() -> Seq<usize> {
    seq![784usize, 100usize, 50usize, 10usize]
}

/// The digit problem on a part of the dataset: the first `train_size` images
/// to train on, the first `test_size` images of the test set to test with.
pub struct MnistSolver<'a> {
    pub base_url: &'a str,
    pub train_size: usize,
    pub test_size: usize,
}

/// The part of a dataset that a solver works with.
pub struct Selection<'d> {
    pub train_images: &'d [Vec<u8>],
    pub train_labels: &'d [u8],
    pub test_images: &'d [Vec<u8>],
    pub test_labels: &'d [u8],
}

impl<'a> MnistSolver<'a> {
    /// A solver for the dataset below `base_url`.
    pub fn new(base_url: &'a str, train_size: usize, test_size: usize) -> (r: MnistSolver<'a>)
        ensures
            r.base_url == base_url,
            r.train_size == train_size,
            r.test_size == test_size,
    {
        MnistSolver { base_url, train_size, test_size }
    }

    /// The widths of the network that learns the problem, from the pixels of an
    /// image to the ten digits.
    pub fn layer_sizes() -> (r: Vec<usize>)
        ensures
            r@ == mnist_sizes(),
    {
        let sizes = vec![IMAGE_PIXELS, 100usize, 50usize, DIGITS];
        assert(sizes@ =~= mnist_sizes());
        sizes
    }

    /// The dataset has the images and labels that the solver asks for.
    pub open spec fn fits(&self, dataset: &MnistDataset) -> bool {
        &&& self.train_size <= dataset.train.images.images@.len()
        &&& self.train_size <= dataset.train.labels.0@.len()
        &&& self.test_size <= dataset.test.images.images@.len()
        &&& self.test_size <= dataset.test.labels.0@.len()
    }

    /// The first `train_size` images and labels of the training set and the
    /// first `test_size` of the test set; `None` where the dataset has fewer.
    pub fn select<'d>(&self, dataset: &'d MnistDataset) -> (r: Option<Selection<'d>>)
        ensures
            r is Some <==> self.fits(dataset),
            r matches Some(selection) ==> {
                &&& selection.train_images@ == dataset.train.images.images@.take(
                    self.train_size as int,
                )
                &&& selection.train_labels@ == dataset.train.labels.0@.take(self.train_size as int)
                &&& selection.test_images@ == dataset.test.images.images@.take(
                    self.test_size as int,
                )
                &&& selection.test_labels@ == dataset.test.labels.0@.take(self.test_size as int)
            },
    {
        if self.train_size <= dataset.train.images.images.len() && self.train_size
            <= dataset.train.labels.0.len() && self.test_size <= dataset.test.images.images.len()
            && self.test_size <= dataset.test.labels.0.len() {
            Some(
                Selection {
                    train_images: slice_subrange(
                        dataset.train.images.images.as_slice(),
                        0,
                        self.train_size,
                    ),
                    train_labels: slice_subrange(
                        dataset.train.labels.0.as_slice(),
                        0,
                        self.train_size,
                    ),
                    test_images: slice_subrange(
                        dataset.test.images.images.as_slice(),
                        0,
                        self.test_size,
                    ),
                    test_labels: slice_subrange(
                        dataset.test.labels.0.as_slice(),
                        0,
                        self.test_size,
                    ),
                },
            )
        } else {
            None
        }
    }
}

/// Turns each image into a sample: one row of 784 elements, the pixels in order,
/// each through `normalize`. An image of another size is a mismatch.
pub fn mnist_image_data<T, N: Fn(u8) -> T>(images: &[Vec<u8>], normalize: &N) -> (r: Result<
    Vec<Matrix<T>>,
    Error,
>)
    requires
        forall|pixel: u8| call_requires(*normalize, (pixel,)),
    ensures
        r is Ok <==> forall|i: int| 0 <= i < images@.len() ==> (#[trigger] images@[i])@.len() == 784,
        r matches Ok(samples) ==> {
            &&& samples@.len() == images@.len()
            &&& forall|i: int|
                0 <= i < images@.len() ==> row_encodes(*normalize, images@[i]@, #[trigger] samples@[i])
        },
        r matches Err(e) ==> e == Error::DimensionMismatch,
{
    encode_rows(images, IMAGE_PIXELS, normalize)
}

/// Turns each label into a target: one row of ten elements, `one` at the place
/// of the digit and `zero` at the others. A label above 9 is a mismatch.
pub fn mnist_to_categorical<T: Copy>(labels: &[u8], zero: T, one: T) -> (r: Result<
    Vec<Matrix<T>>,
    Error,
>)
    ensures
        r is Ok <==> forall|i: int| 0 <= i < labels@.len() ==> labels@[i] < 10,
        r matches Ok(targets) ==> {
            &&& targets@.len() == labels@.len()
            &&& forall|i: int|
                0 <= i < labels@.len() ==> (#[trigger] targets@[i])@ == one_hot(
                    10,
                    labels@[i] as int,
                    zero,
                    one,
                )
        },
        r matches Err(e) ==> e == Error::DimensionMismatch,
{
    let mut targets: Vec<Matrix<T>> = Vec::new();
    let mut i: usize = 0;
    while i < labels.len()
        invariant
            i <= labels@.len(),
            targets@.len() == i,
            forall|j: int| 0 <= j < i ==> labels@[j] < 10,
            forall|j: int|
                0 <= j < i ==> (#[trigger] targets@[j])@ == one_hot(
                    10,
                    labels@[j] as int,
                    zero,
                    one,
                ),
        decreases labels@.len() - i,
    {
        let label = labels[i];
        if label as usize >= DIGITS {
            return Err(Error::DimensionMismatch);
        }
        assert(1 * 10 == 10) by (nonlinear_arith);
        let blank = match Matrix::filled(1, DIGITS, zero) {
            Some(blank) => blank,
            None => {
                return Err(Error::DimensionMismatch);
            },
        };
        let target = blank.with(0, label as usize, one);
        assert(target@.elements =~= one_hot(10, label as int, zero, one).elements);
        targets.push(target);
        i += 1;
    }
    Ok(targets)
}

/// `label` is the digit that a row of scores reads as: the place of the last of
/// the greatest scores, cut to eight bits.
pub open spec fn reads_as(scores: Seq<i64>, label: u8) -> bool {
    exists|at: int| #[trigger] is_last_maximum(scores, at) && label == at % 256
}

/// Reads a digit from each row of scores: the place of the greatest score, and
/// of the last one where several are the greatest, cut to eight bits. The
/// scores come as keys that order as the scores do. A row without scores is a
/// mismatch.
pub fn categorical_to_mist_labels(scores: &[Vec<i64>]) -> (r: Result<Vec<u8>, Error>)
    ensures
        r is Ok <==> forall|i: int| 0 <= i < scores@.len() ==> (#[trigger] scores@[i])@.len() > 0,
        r matches Ok(labels) ==> {
            &&& labels@.len() == scores@.len()
            &&& forall|i: int|
                0 <= i < scores@.len() ==> #[trigger] reads_as(scores@[i]@, labels@[i])
        },
        r matches Err(e) ==> e == Error::DimensionMismatch,
{
    let mut labels: Vec<u8> = Vec::new();
    let mut i: usize = 0;
    while i < scores.len()
        invariant
            i <= scores@.len(),
            labels@.len() == i,
            forall|j: int| 0 <= j < i ==> (#[trigger] scores@[j])@.len() > 0,
            forall|j: int| 0 <= j < i ==> #[trigger] reads_as(scores@[j]@, labels@[j]),
        decreases scores@.len() - i,
    {
        match arg_max(scores[i].as_slice()) {
            None => {
                return Err(Error::DimensionMismatch);
            },
            Some(at) => {
                let label = (at % 256) as u8;
                let ghost before = labels@;
                labels.push(label);
                proof {
                    assert(is_last_maximum(scores@[i as int]@, at as int));
                    assert(reads_as(scores@[i as int]@, label));
                    assert forall|j: int| 0 <= j < i + 1 implies #[trigger] reads_as(
                        scores@[j]@,
                        labels@[j],
                    ) by {
                        if j < i {
                            assert(reads_as(scores@[j]@, before[j]));
                        }
                    }
                }
            },
        }
        i += 1;
    }
    Ok(labels)
}

/// What solving the problem works out on the way.
#[verifier::reject_recursive_types(T)]
pub struct MnistRun<T: Copy, F: Fn(&Matrix<T>) -> Matrix<T>, G: Fn(&Matrix<T>) -> Matrix<T>> {
    /// The images to train on, encoded.
    pub samples: Vec<Matrix<T>>,
    /// Their labels, encoded.
    pub targets: Vec<Matrix<T>>,
    /// The images to test with, encoded.
    pub tests: Vec<Matrix<T>>,
    /// The layers before training.
    pub start: Seq<Layer<T, F, G>>,
    /// The layers after training.
    pub trained: Seq<Layer<T, F, G>>,
    /// The layers after predicting.
    pub after: Seq<Layer<T, F, G>>,
    /// What the trained network gives for the tests.
    pub outputs: Vec<Matrix<T>>,
    /// The scores of the outputs.
    pub scores: Vec<Vec<i64>>,
}

impl<'a> MnistSolver<'a> {
    /// The images and labels that the solver takes from `dataset` can be
    /// encoded: it has as many as the solver asks for, every image has 784
    /// pixels, and every label to train on is a digit.
    pub open spec fn can_encode(&self, dataset: &MnistDataset) -> bool {
        &&& self.fits(dataset)
        &&& forall|i: int|
            0 <= i < self.train_size ==> (#[trigger] dataset.train.images.images@[i])@.len() == 784
        &&& forall|i: int|
            0 <= i < self.test_size ==> (#[trigger] dataset.test.images.images@[i])@.len() == 784
        &&& forall|i: int| 0 <= i < self.train_size ==> #[trigger] dataset.train.labels.0@[i] < 10
    }

    /// `data` and `errors` are what solving the problem came to, with `run` as
    /// what was worked out on the way: the images through `normalize` and the
    /// labels to train on as rows of ten with `one` at the digit; a stack from
    /// 784 over 100 and 50 to 10 numbers behind the layers of `network`;
    /// training on the first and predicting for the second; a score for every
    /// element of every output through `key`; and a digit for every test, the
    /// place of its greatest score.
    pub open spec fn solved_via<
        T: Copy,
        A: Arithmetic<T>,
        F: Fn(&Matrix<T>) -> Matrix<T>,
        G: Fn(&Matrix<T>) -> Matrix<T>,
        L: Fn(&Matrix<T>, &Matrix<T>) -> T,
        P: Fn(&Matrix<T>, &Matrix<T>) -> Matrix<T>,
        R: Fn(usize, usize) -> Matrix<T>,
        C: Fn(u8) -> T,
        K: Fn(&T) -> i64,
    >(
        &self,
        dataset: &MnistDataset,
        network: Network<T, A, F, G, L, P>,
        activation: F,
        activation_prime: G,
        generate: R,
        normalize: C,
        zero: T,
        one: T,
        key: K,
        epochs: int,
        learning_rate: T,
        run: MnistRun<T, F, G>,
        data: SolverData<u8>,
        errors: Vec<T>,
    ) -> bool {
        &&& self.can_encode(dataset)
        &&& run.samples@.len() == self.train_size
        &&& run.targets@.len() == self.train_size
        &&& run.tests@.len() == self.test_size
        &&& forall|i: int|
            0 <= i < self.train_size ==> row_encodes(
                normalize,
                dataset.train.images.images@[i]@,
                #[trigger] run.samples@[i],
            )
        &&& forall|i: int|
            0 <= i < self.train_size ==> (#[trigger] run.targets@[i])@ == one_hot(
                10,
                dataset.train.labels.0@[i] as int,
                zero,
                one,
            )
        &&& forall|i: int|
            0 <= i < self.test_size ==> row_encodes(
                normalize,
                dataset.test.images.images@[i]@,
                #[trigger] run.tests@[i],
            )
        &&& stacked(
            network.layers(),
            mnist_sizes(),
            activation,
            activation_prime,
            generate,
            run.start,
        )
        &&& trained_and_tested(
            run.start,
            network.ops(),
            network.loss(),
            network.loss_prime(),
            run.samples@,
            run.targets@,
            run.tests@,
            epochs,
            learning_rate,
            run.trained,
            Ok(errors),
            run.after,
            Ok((errors, run.outputs)),
        )
        &&& run.scores@.len() == self.test_size
        &&& forall|i: int|
            0 <= i < self.test_size ==> scores_of(key, run.outputs@[i], (#[trigger] run.scores@[i])@)
        &&& data.predictions@.len() == self.test_size
        &&& forall|i: int|
            0 <= i < self.test_size ==> reads_as((#[trigger] run.scores@[i])@, data.predictions@[i])
        &&& data.labels@ == dataset.test.labels.0@.take(self.test_size as int)
        &&& data.correct == matches_below(
            data.predictions@,
            data.labels@,
            self.test_size as int,
        )
    }

    /// `data` and `errors` are what solving the problem came to.
    pub open spec fn solved<
        T: Copy,
        A: Arithmetic<T>,
        F: Fn(&Matrix<T>) -> Matrix<T>,
        G: Fn(&Matrix<T>) -> Matrix<T>,
        L: Fn(&Matrix<T>, &Matrix<T>) -> T,
        P: Fn(&Matrix<T>, &Matrix<T>) -> Matrix<T>,
        R: Fn(usize, usize) -> Matrix<T>,
        C: Fn(u8) -> T,
        K: Fn(&T) -> i64,
    >(
        &self,
        dataset: &MnistDataset,
        network: Network<T, A, F, G, L, P>,
        activation: F,
        activation_prime: G,
        generate: R,
        normalize: C,
        zero: T,
        one: T,
        key: K,
        epochs: int,
        learning_rate: T,
        data: SolverData<u8>,
        errors: Vec<T>,
    ) -> bool {
        exists|run: MnistRun<T, F, G>| #[trigger]
            self.solved_via(
                dataset,
                network,
                activation,
                activation_prime,
                generate,
                normalize,
                zero,
                one,
                key,
                epochs,
                learning_rate,
                run,
                data,
                errors,
            )
    }

    /// Learns the digits of `dataset` with `network`, which brings the
    /// arithmetic and the loss: puts a stack from 784 over 100 and 50 to 10
    /// numbers behind its layers, trains it on the first `train_size` images of
    /// the training set for `epochs` epochs, and holds the digits that it then
    /// reads from the first `test_size` images of the test set against their
    /// labels. Beside that, the result holds the mean loss of each epoch.
    ///
    /// `generate` gives the first weights and biases, `normalize` turns a pixel
    /// into an element, `zero` and `one` fill the targets, and `key` gives a
    /// score for an element, by which the greatest is found.
    ///
    /// Where the arithmetic, the loss, the activation and `generate` keep to
    /// the shapes, and `network` comes without layers, the call succeeds
    /// exactly where the images and labels can be encoded.
    pub fn solve<
        T: Copy,
        A: Arithmetic<T>,
        F: Fn(&Matrix<T>) -> Matrix<T> + Copy,
        G: Fn(&Matrix<T>) -> Matrix<T> + Copy,
        L: Fn(&Matrix<T>, &Matrix<T>) -> T,
        P: Fn(&Matrix<T>, &Matrix<T>) -> Matrix<T>,
        R: Fn(usize, usize) -> Matrix<T>,
        C: Fn(u8) -> T,
        K: Fn(&T) -> i64,
    >(
        &self,
        dataset: &MnistDataset,
        network: Network<T, A, F, G, L, P>,
        activation: F,
        activation_prime: G,
        generate: &R,
        normalize: &C,
        zero: T,
        one: T,
        key: &K,
        epochs: usize,
        learning_rate: T,
    ) -> (r: Result<(SolverData<u8>, Vec<T>), Error>)
        requires
            forall|m: Matrix<T>| call_requires(activation, (&m,)),
            forall|m: Matrix<T>| call_requires(activation_prime, (&m,)),
            forall|rows: usize, cols: usize| call_requires(*generate, (rows, cols)),
            forall|pixel: u8| call_requires(*normalize, (pixel,)),
            forall|element: T| call_requires(*key, (&element,)),
        ensures
            match r {
                Ok(solved) => self.solved(
                    dataset,
                    network,
                    activation,
                    activation_prime,
                    *generate,
                    *normalize,
                    zero,
                    one,
                    *key,
                    epochs as int,
                    learning_rate,
                    solved.0,
                    solved.1,
                ),
                Err(e) => e == Error::DimensionMismatch,
            },
            r is Ok ==> self.can_encode(dataset),
            computes_in_shape(network.ops()) && gives_shape_of_prediction(network.loss_prime())
                && keeps_shape(activation) && keeps_shape(activation_prime) && gives_shape_asked(
                *generate,
            ) && network.layers().len() == 0 ==> (r is Ok <==> self.can_encode(dataset)),
    {
        let ghost in_shape = computes_in_shape(network.ops()) && gives_shape_of_prediction(
            network.loss_prime(),
        ) && keeps_shape(activation) && keeps_shape(activation_prime) && gives_shape_asked(
            *generate,
        ) && network.layers().len() == 0;
        let selection = match self.select(dataset) {
            Some(selection) => selection,
            None => {
                return Err(Error::DimensionMismatch);
            },
        };
        let samples = match mnist_image_data(selection.train_images, normalize) {
            Ok(samples) => samples,
            Err(e) => {
                proof {
                    let i = choose|i: int|
                        0 <= i < self.train_size && (#[trigger] selection.train_images@[i])@.len()
                            != 784;
                    assert(dataset.train.images.images@[i] == selection.train_images@[i]);
                }
                return Err(e);
            },
        };
        let targets = match mnist_to_categorical(selection.train_labels, zero, one) {
            Ok(targets) => targets,
            Err(e) => {
                proof {
                    let i = choose|i: int|
                        0 <= i < self.train_size && !(#[trigger] selection.train_labels@[i] < 10);
                    assert(dataset.train.labels.0@[i] == selection.train_labels@[i]);
                }
                return Err(e);
            },
        };
        let tests = match mnist_image_data(selection.test_images, normalize) {
            Ok(tests) => tests,
            Err(e) => {
                proof {
                    let i = choose|i: int|
                        0 <= i < self.test_size && (#[trigger] selection.test_images@[i])@.len()
                            != 784;
                    assert(dataset.test.images.images@[i] == selection.test_images@[i]);
                }
                return Err(e);
            },
        };
        proof {
            assert forall|i: int| 0 <= i < self.train_size implies (
            #[trigger] dataset.train.images.images@[i])@.len() == 784 by {
                assert(dataset.train.images.images@[i] == selection.train_images@[i]);
            }
            assert forall|i: int| 0 <= i < self.test_size implies (
            #[trigger] dataset.test.images.images@[i])@.len() == 784 by {
                assert(dataset.test.images.images@[i] == selection.test_images@[i]);
            }
            assert forall|i: int| 0 <= i < self.train_size implies #[trigger] dataset.train.labels.0@[i]
                < 10 by {
                assert(dataset.train.labels.0@[i] == selection.train_labels@[i]);
            }
            assert(self.can_encode(dataset));
        }
        let sizes = MnistSolver::layer_sizes();
        let mut built = match assemble(
            network,
            sizes.as_slice(),
            activation,
            activation_prime,
            generate,
        ) {
            Ok(built) => built,
            Err(e) => {
                return Err(e);
            },
        };
        let ghost start = built.layers();
        proof {
            if in_shape {
                assert(network.layers() =~= Seq::empty());
                lemma_stack_shapes(
                    network,
                    mnist_sizes(),
                    activation,
                    activation_prime,
                    *generate,
                    start,
                );
                assert forall|j: int| 0 <= j < samples@.len() implies #[trigger] Network::<
                    T,
                    A,
                    F,
                    G,
                    L,
                    P,
                >::trainable(start, samples@[j], targets@[j]) by {
                    assert(row_encodes(*normalize, selection.train_images@[j]@, samples@[j]));
                    assert(targets@[j]@ == one_hot(
                        10,
                        selection.train_labels@[j] as int,
                        zero,
                        one,
                    ));
                }
                assert forall|j: int| 0 <= j < tests@.len() implies #[trigger] Network::<
                    T,
                    A,
                    F,
                    G,
                    L,
                    P,
                >::takes(start, tests@, j) by {
                    assert(row_encodes(*normalize, selection.test_images@[j]@, tests@[j]));
                }
            }
        }
        let (errors, outputs) = match train_and_test(
            &mut built,
            samples.as_slice(),
            targets.as_slice(),
            tests.as_slice(),
            epochs,
            learning_rate,
        ) {
            Ok(pair) => pair,
            Err(e) => {
                return Err(e);
            },
        };
        let ghost (trained, fitted) = choose|
            trained: Seq<Layer<T, F, G>>,
            fitted: Result<Vec<T>, Error>,
        | #[trigger]
            trained_and_tested(
                start,
                network.ops(),
                network.loss(),
                network.loss_prime(),
                samples@,
                targets@,
                tests@,
                epochs as int,
                learning_rate,
                trained,
                fitted,
                built.layers(),
                Ok((errors, outputs)),
            );
        let scores = score_rows(outputs.as_slice(), key);
        proof {
            if in_shape {
                assert forall|i: int| 0 <= i < scores@.len() implies (#[trigger] scores@[i])@.len()
                    > 0 by {
                    assert(row_encodes(*normalize, selection.test_images@[i]@, tests@[i]));
                    assert(outputs@[i]@.rows == 1 && outputs@[i]@.cols == 10);
                }
            }
        }
        let predictions = match categorical_to_mist_labels(scores.as_slice()) {
            Ok(predictions) => predictions,
            Err(e) => {
                return Err(e);
            },
        };
        let data = SolverData::new(predictions, slice_to_vec(selection.test_labels));
        proof {
            let run = MnistRun::<T, F, G> {
                samples,
                targets,
                tests,
                start,
                trained,
                after: built.layers(),
                outputs,
                scores,
            };
            assert forall|i: int| 0 <= i < self.train_size implies row_encodes(
                *normalize,
                dataset.train.images.images@[i]@,
                #[trigger] run.samples@[i],
            ) by {
                assert(row_encodes(*normalize, selection.train_images@[i]@, samples@[i]));
            }
            assert forall|i: int| 0 <= i < self.train_size implies (#[trigger] run.targets@[i])@
                == one_hot(10, dataset.train.labels.0@[i] as int, zero, one) by {
                assert(targets@[i]@ == one_hot(
                    10,
                    selection.train_labels@[i] as int,
                    zero,
                    one,
                ));
            }
            assert forall|i: int| 0 <= i < self.test_size implies row_encodes(
                *normalize,
                dataset.test.images.images@[i]@,
                #[trigger] run.tests@[i],
            ) by {
                assert(row_encodes(*normalize, selection.test_images@[i]@, tests@[i]));
            }
            assert(self.solved_via(
                dataset,
                network,
                activation,
                activation_prime,
                *generate,
                *normalize,
                zero,
                one,
                *key,
                epochs as int,
                learning_rate,
                run,
                data,
                errors,
            ));
            assert(self.solved(
                dataset,
                network,
                activation,
                activation_prime,
                *generate,
                *normalize,
                zero,
                one,
                *key,
                epochs as int,
                learning_rate,
                data,
                errors,
            ));
        }
        Ok((data, errors))
    }
}

} // verus!

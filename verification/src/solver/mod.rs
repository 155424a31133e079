//! What the two example problems share: turning raw bytes into samples, scores
//! into labels, and labels into a count of hits.

pub mod mnist;
pub mod xor;

pub use mnist::MnistSolver;
pub use xor::XorSolver;

use crate::error::Error;
use crate::network::arithmetic::{
    computes_in_shape, gives_shape_of_prediction, keeps_shape, Arithmetic,
};
use crate::network::layers::{ActivationLayer, FullyConnectedLayer, Layer};
use crate::network::matrix::{Matrix, MatrixView};
use crate::network::Network;
use vstd::prelude::*;

verus! {

/// How a trained network did on the samples it was tested with. The accuracy is
/// `correct` out of the number of predictions.
#[derive(Debug)]
pub struct SolverData<T> {
    pub correct: usize,
    pub predictions: Vec<T>,
    pub labels: Vec<T>,
}

/// The number of places below `upto` at which `a` and `b` hold the same label.
pub open spec fn matches_below(a: Seq<u8>, b: Seq<u8>, upto: int) -> int
    decreases upto,
{
    if upto <= 0 {
        0
    } else {
        matches_below(a, b, upto - 1) + if a[upto - 1] == b[upto - 1] {
            1int
        } else {
            0int
        }
    }
}

/// The shorter of two lengths.
pub open spec fn shorter(a: int, b: int) -> int {
    if a <= b {
        a
    } else {
        b
    }
}

/// The number of predictions that are the label at their place. Where one of
/// the two is longer, what it has beyond the other does not count.
pub fn count_matches(predictions: &[u8], labels: &[u8]) -> (r: usize)
    ensures
        r == matches_below(
            predictions@,
            labels@,
            shorter(predictions@.len() as int, labels@.len() as int),
        ),
{
    let n = if predictions.len() <= labels.len() {
        predictions.len()
    } else {
        labels.len()
    };
    let mut count: usize = 0;
    let mut i: usize = 0;
    while i < n
        invariant
            i <= n,
            n <= predictions@.len(),
            n <= labels@.len(),
            count <= i,
            count == matches_below(predictions@, labels@, i as int),
        decreases n - i,
    {
        if predictions[i] == labels[i] {
            count += 1;
        }
        i += 1;
    }
    count
}

impl SolverData<u8> {
    /// Holds `predictions` against `labels` and counts the hits.
    pub fn new(predictions: Vec<u8>, labels: Vec<u8>) -> (r: SolverData<u8>)
        ensures
            r.predictions == predictions,
            r.labels == labels,
            r.correct == matches_below(
                predictions@,
                labels@,
                shorter(predictions@.len() as int, labels@.len() as int),
            ),
    {
        let correct = count_matches(predictions.as_slice(), labels.as_slice());
        SolverData { correct, predictions, labels }
    }
}

/// `row` is `bytes` as one row, each byte turned into an element by `convert`.
pub open spec fn row_encodes<T, N: Fn(u8) -> T>(convert: N, bytes: Seq<u8>, row: Matrix<T>) -> bool {
    &&& row@.rows == 1
    &&& row@.cols == bytes.len()
    &&& row@.elements.len() == bytes.len()
    &&& forall|k: int|
        0 <= k < bytes.len() ==> call_ensures(convert, (bytes[k],), #[trigger] row@.elements[k])
}

/// Turns each row of bytes into a matrix of one row and `width` columns, every
/// byte through `convert`. A row of another length than `width` is a mismatch.
pub fn encode_rows<T, N: Fn(u8) -> T>(rows: &[Vec<u8>], width: usize, convert: &N) -> (r: Result<
    Vec<Matrix<T>>,
    Error,
>)
    requires
        forall|byte: u8| call_requires(*convert, (byte,)),
    ensures
        r is Ok <==> forall|i: int| 0 <= i < rows@.len() ==> (#[trigger] rows@[i])@.len() == width,
        r matches Ok(encoded) ==> {
            &&& encoded@.len() == rows@.len()
            &&& forall|i: int|
                0 <= i < rows@.len() ==> row_encodes(*convert, rows@[i]@, #[trigger] encoded@[i])
        },
        r matches Err(e) ==> e == Error::DimensionMismatch,
{
    let mut encoded: Vec<Matrix<T>> = Vec::new();
    let mut i: usize = 0;
    while i < rows.len()
        invariant
            i <= rows@.len(),
            encoded@.len() == i,
            forall|byte: u8| call_requires(*convert, (byte,)),
            forall|j: int| 0 <= j < i ==> (#[trigger] rows@[j])@.len() == width,
            forall|j: int| 0 <= j < i ==> row_encodes(*convert, rows@[j]@, #[trigger] encoded@[j]),
        decreases rows@.len() - i,
    {
        let bytes = &rows[i];
        if bytes.len() != width {
            return Err(Error::DimensionMismatch);
        }
        let mut elements: Vec<T> = Vec::new();
        let mut k: usize = 0;
        while k < bytes.len()
            invariant
                k <= bytes@.len(),
                elements@.len() == k,
                forall|byte: u8| call_requires(*convert, (byte,)),
                forall|m: int|
                    0 <= m < k ==> call_ensures(*convert, (bytes@[m],), #[trigger] elements@[m]),
            decreases bytes@.len() - k,
        {
            let element = convert(bytes[k]);
            elements.push(element);
            k += 1;
        }
        assert(1 * width == width) by (nonlinear_arith);
        match Matrix::from_vec(1, width, elements) {
            Some(row) => {
                encoded.push(row);
            },
            None => {
                return Err(Error::DimensionMismatch);
            },
        }
        i += 1;
    }
    Ok(encoded)
}

/// `at` is the place of the last of the greatest keys.
pub open spec fn is_last_maximum(keys: Seq<i64>, at: int) -> bool {
    &&& 0 <= at < keys.len()
    &&& forall|i: int| 0 <= i < keys.len() ==> keys[i] <= keys[at]
    &&& forall|i: int| at < i < keys.len() ==> keys[i] < keys[at]
}

/// The place of the greatest key, and of the last one where several are the
/// greatest; `None` where there is no key.
pub fn arg_max(keys: &[i64]) -> (r: Option<usize>)
    ensures
        r is None <==> keys@.len() == 0,
        r matches Some(at) ==> is_last_maximum(keys@, at as int),
{
    if keys.len() == 0 {
        return None;
    }
    let mut best: usize = 0;
    let mut i: usize = 1;
    while i < keys.len()
        invariant
            1 <= i <= keys@.len(),
            best < i,
            forall|j: int| 0 <= j < i ==> keys@[j] <= keys@[best as int],
            forall|j: int| best < j < i ==> keys@[j] < keys@[best as int],
        decreases keys@.len() - i,
    {
        if keys[i] >= keys[best] {
            best = i;
        }
        i += 1;
    }
    Some(best)
}

/// A row of `width` elements: `one` at `hot`, `zero` everywhere else.
pub open spec fn one_hot<T>(width: nat, hot: int, zero: T, one: T) -> MatrixView<T> {
    MatrixView {
        rows: 1,
        cols: width,
        elements: Seq::new(
            width,
            |k: int|
                if k == hot {
                    one
                } else {
                    zero
                },
        ),
    }
}

/// The number of steps from one of `sizes` to the next.
pub open spec fn pairs(sizes: Seq<usize>) -> int {
    if sizes.len() == 0 {
        0
    } else {
        sizes.len() - 1
    }
}

/// Behind the first `base` of `layers`, step `i` of `sizes` is a freshly
/// generated layer with weights from `sizes[i]` to `sizes[i + 1]` numbers, and
/// behind it a fresh layer that applies `activation`.
pub open spec fn stacked_at<
    T: Copy,
    F: Fn(&Matrix<T>) -> Matrix<T>,
    G: Fn(&Matrix<T>) -> Matrix<T>,
    R: Fn(usize, usize) -> Matrix<T>,
>(
    sizes: Seq<usize>,
    activation: F,
    activation_prime: G,
    generate: R,
    layers: Seq<Layer<T, F, G>>,
    base: int,
    i: int,
) -> bool {
    &&& layers[base + 2 * i] matches Layer::Affine(affine) && affine.generated_by(
        generate,
        sizes[i],
        sizes[i + 1],
    )
    &&& layers[base + 2 * i + 1] matches Layer::Activation(applied) && applied.activation()
        == activation && applied.activation_prime() == activation_prime
        && applied.cached_input() is None
}

/// `after` is `before` with a stack for `sizes` behind it: for each step from
/// one size to the next, a layer with weights and a layer that applies
/// `activation`.
pub open spec fn stacked<
    T: Copy,
    F: Fn(&Matrix<T>) -> Matrix<T>,
    G: Fn(&Matrix<T>) -> Matrix<T>,
    R: Fn(usize, usize) -> Matrix<T>,
>(
    before: Seq<Layer<T, F, G>>,
    sizes: Seq<usize>,
    activation: F,
    activation_prime: G,
    generate: R,
    after: Seq<Layer<T, F, G>>,
) -> bool {
    &&& after.len() == before.len() + 2 * pairs(sizes)
    &&& forall|i: int| 0 <= i < before.len() ==> #[trigger] after[i] == before[i]
    &&& forall|i: int|
        0 <= i < pairs(sizes) ==> #[trigger] stacked_at(
            sizes,
            activation,
            activation_prime,
            generate,
            after,
            before.len() as int,
            i,
        )
}

/// Puts a stack for `sizes` behind the layers of `network`: for each step from
/// one size to the next, a layer with weights that `generate` gives, and a layer
/// that applies `activation`. A matrix from `generate` of another shape than
/// was asked for is a mismatch.
pub fn assemble<
    T: Copy,
    A: Arithmetic<T>,
    F: Fn(&Matrix<T>) -> Matrix<T> + Copy,
    G: Fn(&Matrix<T>) -> Matrix<T> + Copy,
    L: Fn(&Matrix<T>, &Matrix<T>) -> T,
    P: Fn(&Matrix<T>, &Matrix<T>) -> Matrix<T>,
    R: Fn(usize, usize) -> Matrix<T>,
>(
    network: Network<T, A, F, G, L, P>,
    sizes: &[usize],
    activation: F,
    activation_prime: G,
    generate: &R,
) -> (r: Result<Network<T, A, F, G, L, P>, Error>)
    requires
        forall|m: Matrix<T>| call_requires(activation, (&m,)),
        forall|m: Matrix<T>| call_requires(activation_prime, (&m,)),
        forall|rows: usize, cols: usize| call_requires(*generate, (rows, cols)),
    ensures
        match r {
            Ok(built) => {
                &&& built.same_setup(&network)
                &&& stacked(
                    network.layers(),
                    sizes@,
                    activation,
                    activation_prime,
                    *generate,
                    built.layers(),
                )
            },
            Err(e) => {
                &&& e == Error::DimensionMismatch
                &&& exists|rows: usize, cols: usize, m: Matrix<T>| #[trigger]
                    FullyConnectedLayer::<T>::misled_by(*generate, rows, cols, m)
            },
        },
{
    let mut network = network;
    let ghost before = network.layers();
    let ghost setup = network;
    let count = sizes.len();
    let mut i: usize = 0;
    while i + 1 < count
        invariant
            count == sizes@.len(),
            i <= pairs(sizes@),
            network.same_setup(&setup),
            network.layers().len() == before.len() + 2 * i,
            forall|m: Matrix<T>| call_requires(activation, (&m,)),
            forall|m: Matrix<T>| call_requires(activation_prime, (&m,)),
            forall|rows: usize, cols: usize| call_requires(*generate, (rows, cols)),
            forall|k: int| 0 <= k < before.len() ==> #[trigger] network.layers()[k] == before[k],
            forall|k: int|
                0 <= k < i ==> #[trigger] stacked_at(
                    sizes@,
                    activation,
                    activation_prime,
                    *generate,
                    network.layers(),
                    before.len() as int,
                    k,
                ),
        decreases sizes@.len() - i,
    {
        let ghost entering = network.layers();
        let affine = match FullyConnectedLayer::generate(sizes[i], sizes[i + 1], generate) {
            Ok(affine) => affine,
            Err(e) => {
                return Err(e);
            },
        };
        network.add(Layer::Affine(affine));
        network.add(Layer::Activation(ActivationLayer::new(activation, activation_prime)));
        proof {
            assert forall|k: int| 0 <= k < i + 1 implies #[trigger] stacked_at(
                sizes@,
                activation,
                activation_prime,
                *generate,
                network.layers(),
                before.len() as int,
                k,
            ) by {
                if k < i {
                    assert(stacked_at(
                        sizes@,
                        activation,
                        activation_prime,
                        *generate,
                        entering,
                        before.len() as int,
                        k,
                    ));
                }
            }
        }
        i += 1;
    }
    Ok(network)
}

/// The scores of the elements of each matrix, row after row: every element
/// through `key`.
pub open spec fn scores_of<T, K: Fn(&T) -> i64>(key: K, m: Matrix<T>, scores: Seq<i64>) -> bool {
    &&& scores.len() == m@.elements.len()
    &&& forall|k: int|
        0 <= k < scores.len() ==> call_ensures(key, (&m@.elements[k],), #[trigger] scores[k])
}

/// Turns each matrix into the scores of its elements, row after row. `key` gives
/// an integer for an element; the caller sees to it that the integers order as
/// the elements do.
pub fn score_rows<T, K: Fn(&T) -> i64>(outputs: &[Matrix<T>], key: &K) -> (r: Vec<Vec<i64>>)
    requires
        forall|element: T| call_requires(*key, (&element,)),
    ensures
        r@.len() == outputs@.len(),
        forall|i: int| 0 <= i < outputs@.len() ==> scores_of(*key, outputs@[i], (#[trigger] r@[i])@),
        forall|i: int|
            0 <= i < outputs@.len() ==> (#[trigger] r@[i])@.len() == outputs@[i]@.rows
                * outputs@[i]@.cols,
{
    let mut rows: Vec<Vec<i64>> = Vec::new();
    let mut i: usize = 0;
    while i < outputs.len()
        invariant
            i <= outputs@.len(),
            rows@.len() == i,
            forall|element: T| call_requires(*key, (&element,)),
            forall|j: int| 0 <= j < i ==> scores_of(*key, outputs@[j], (#[trigger] rows@[j])@),
            forall|j: int|
                0 <= j < i ==> (#[trigger] rows@[j])@.len() == outputs@[j]@.rows
                    * outputs@[j]@.cols,
        decreases outputs@.len() - i,
    {
        let elements = outputs[i].as_slice();
        let count = outputs[i].len();
        let mut scores: Vec<i64> = Vec::new();
        let mut k: usize = 0;
        while k < elements.len()
            invariant
                k <= elements@.len(),
                scores@.len() == k,
                elements@ == outputs@[i as int]@.elements,
                forall|element: T| call_requires(*key, (&element,)),
                forall|m: int|
                    0 <= m < k ==> call_ensures(*key, (&elements@[m],), #[trigger] scores@[m]),
            decreases elements@.len() - k,
        {
            let score = key(&elements[k]);
            scores.push(score);
            k += 1;
        }
        rows.push(scores);
        i += 1;
    }
    rows
}

/// A stack for `sizes` on its own takes one row of the first size and gives one
/// row of the size of step `upto`.
pub proof fn lemma_stack_shape_upto<
    T: Copy,
    A: Arithmetic<T>,
    F: Fn(&Matrix<T>) -> Matrix<T>,
    G: Fn(&Matrix<T>) -> Matrix<T>,
    L: Fn(&Matrix<T>, &Matrix<T>) -> T,
    P: Fn(&Matrix<T>, &Matrix<T>) -> Matrix<T>,
    R: Fn(usize, usize) -> Matrix<T>,
>(
    network: Network<T, A, F, G, L, P>,
    sizes: Seq<usize>,
    activation: F,
    activation_prime: G,
    generate: R,
    layers: Seq<Layer<T, F, G>>,
    upto: int,
)
    requires
        stacked(Seq::empty(), sizes, activation, activation_prime, generate, layers),
        sizes.len() >= 1,
        0 <= upto <= pairs(sizes),
    ensures
        Network::<T, A, F, G, L, P>::shape_after(layers, 1, sizes[0] as nat, 2 * upto) == Some(
            (1nat, sizes[upto] as nat),
        ),
    decreases upto,
{
    if upto > 0 {
        lemma_stack_shape_upto(
            network,
            sizes,
            activation,
            activation_prime,
            generate,
            layers,
            upto - 1,
        );
        assert(stacked_at(sizes, activation, activation_prime, generate, layers, 0, upto - 1));
        assert(Network::<T, A, F, G, L, P>::shape_after(layers, 1, sizes[0] as nat, 2 * upto - 1)
            == Some((1nat, sizes[upto] as nat)));
    }
}

/// A stack for `sizes` on its own takes one row of the first size and gives one
/// row of the last size; its layers have parts of shapes that belong together;
/// and where the activation and its derivative keep to the shape that they are
/// given, its layers do.
pub proof fn lemma_stack_shapes<
    T: Copy,
    A: Arithmetic<T>,
    F: Fn(&Matrix<T>) -> Matrix<T>,
    G: Fn(&Matrix<T>) -> Matrix<T>,
    L: Fn(&Matrix<T>, &Matrix<T>) -> T,
    P: Fn(&Matrix<T>, &Matrix<T>) -> Matrix<T>,
    R: Fn(usize, usize) -> Matrix<T>,
>(
    network: Network<T, A, F, G, L, P>,
    sizes: Seq<usize>,
    activation: F,
    activation_prime: G,
    generate: R,
    layers: Seq<Layer<T, F, G>>,
)
    requires
        stacked(Seq::empty(), sizes, activation, activation_prime, generate, layers),
        sizes.len() >= 1,
    ensures
        Network::<T, A, F, G, L, P>::shape_after(
            layers,
            1,
            sizes[0] as nat,
            layers.len() as int,
        ) == Some((1nat, sizes.last() as nat)),
        Network::<T, A, F, G, L, P>::all_well_shaped(layers),
        keeps_shape(activation) && keeps_shape(activation_prime) ==> Network::<
            T,
            A,
            F,
            G,
            L,
            P,
        >::all_propagate_in_shape(layers),
{
    lemma_stack_shape_upto(
        network,
        sizes,
        activation,
        activation_prime,
        generate,
        layers,
        pairs(sizes),
    );
    assert forall|i: int| 0 <= i < layers.len() implies (#[trigger] layers[i]).well_shaped() && (
    keeps_shape(activation) && keeps_shape(activation_prime)
        ==> layers[i].propagates_in_shape()) by {
        assert(stacked_at(sizes, activation, activation_prime, generate, layers, 0, i / 2));
    }
}

/// `trained`, `after` and `r` are what training and then predicting came to:
/// training on `samples` with `labels` for `epochs` epochs took the layers from
/// `before` to `trained` and gave `fitted`; where it succeeded, predicting for
/// `tests` took them on to `after`, and `r` holds the mean loss of each epoch
/// and the output for each test.
pub open spec fn trained_and_tested<
    T: Copy,
    A: Arithmetic<T>,
    F: Fn(&Matrix<T>) -> Matrix<T>,
    G: Fn(&Matrix<T>) -> Matrix<T>,
    L: Fn(&Matrix<T>, &Matrix<T>) -> T,
    P: Fn(&Matrix<T>, &Matrix<T>) -> Matrix<T>,
>(
    before: Seq<Layer<T, F, G>>,
    ops: A,
    loss: L,
    loss_prime: P,
    samples: Seq<Matrix<T>>,
    labels: Seq<Matrix<T>>,
    tests: Seq<Matrix<T>>,
    epochs: int,
    learning_rate: T,
    trained: Seq<Layer<T, F, G>>,
    fitted: Result<Vec<T>, Error>,
    after: Seq<Layer<T, F, G>>,
    r: Result<(Vec<T>, Vec<Matrix<T>>), Error>,
) -> bool {
    &&& Network::<T, A, F, G, L, P>::fits(
        before,
        ops,
        loss,
        loss_prime,
        samples,
        labels,
        epochs,
        learning_rate,
        trained,
        fitted,
    )
    &&& match fitted {
        Err(e) => after == trained && r == Err::<(Vec<T>, Vec<Matrix<T>>), Error>(e),
        Ok(errors) => match r {
            Err(e) => Network::<T, A, F, G, L, P>::predicts(trained, ops, tests, after, Err(e)),
            Ok((reported, outputs)) => reported == errors && Network::<
                T,
                A,
                F,
                G,
                L,
                P,
            >::predicts(trained, ops, tests, after, Ok(outputs)),
        },
    }
}

/// Trains `network` on `samples` with `labels` for `epochs` epochs, then
/// predicts for `tests`. The result holds the mean loss of each epoch and the
/// output for each test.
///
/// Where the arithmetic, the derivative of the loss and the layers keep to the
/// shapes, the call succeeds exactly where the layers can be trained on every
/// sample with its label, or there is no epoch to run, and they take every
/// test.
pub fn train_and_test<
    T: Copy,
    A: Arithmetic<T>,
    F: Fn(&Matrix<T>) -> Matrix<T>,
    G: Fn(&Matrix<T>) -> Matrix<T>,
    L: Fn(&Matrix<T>, &Matrix<T>) -> T,
    P: Fn(&Matrix<T>, &Matrix<T>) -> Matrix<T>,
>(
    network: &mut Network<T, A, F, G, L, P>,
    samples: &[Matrix<T>],
    labels: &[Matrix<T>],
    tests: &[Matrix<T>],
    epochs: usize,
    learning_rate: T,
) -> (r: Result<(Vec<T>, Vec<Matrix<T>>), Error>)
    ensures
        final(network).same_setup(old(network)),
        exists|trained: Seq<Layer<T, F, G>>, fitted: Result<Vec<T>, Error>| #[trigger]
            trained_and_tested(
                old(network).layers(),
                old(network).ops(),
                old(network).loss(),
                old(network).loss_prime(),
                samples@,
                labels@,
                tests@,
                epochs as int,
                learning_rate,
                trained,
                fitted,
                final(network).layers(),
                r,
            ),
        r matches Err(e) ==> e == Error::DimensionMismatch,
        r matches Ok((errors, outputs)) ==> errors@.len() == epochs && outputs@.len()
            == tests@.len(),
        computes_in_shape(old(network).ops()) && gives_shape_of_prediction(
            old(network).loss_prime(),
        ) && Network::<T, A, F, G, L, P>::all_propagate_in_shape(old(network).layers())
            && Network::<T, A, F, G, L, P>::all_well_shaped(old(network).layers()) ==> {
            &&& r is Ok <==> (epochs == 0 || (samples@.len() == labels@.len() && forall|j: int|
                0 <= j < samples@.len() ==> #[trigger] Network::<T, A, F, G, L, P>::trainable(
                    old(network).layers(),
                    samples@[j],
                    labels@[j],
                ))) && forall|j: int|
                0 <= j < tests@.len() ==> #[trigger] Network::<T, A, F, G, L, P>::takes(
                    old(network).layers(),
                    tests@,
                    j,
                )
            &&& r matches Ok((errors, outputs)) ==> forall|j: int|
                0 <= j < tests@.len() ==> Network::<T, A, F, G, L, P>::shape_after(
                    old(network).layers(),
                    tests@[j]@.rows,
                    tests@[j]@.cols,
                    old(network).layers().len() as int,
                ) == Some(((#[trigger] outputs@[j])@.rows, outputs@[j]@.cols))
        },
{
    let ghost before = network.layers();
    let ghost in_shape = computes_in_shape(old(network).ops()) && gives_shape_of_prediction(
        old(network).loss_prime(),
    ) && Network::<T, A, F, G, L, P>::all_propagate_in_shape(before) && Network::<
        T,
        A,
        F,
        G,
        L,
        P,
    >::all_well_shaped(before);
    let fitted = network.fit(samples, labels, epochs, learning_rate);
    let ghost trained = network.layers();
    proof {
        if in_shape {
            Network::<T, A, F, G, L, P>::lemma_fit_succeeds(
                before,
                old(network).ops(),
                old(network).loss(),
                old(network).loss_prime(),
                samples@,
                labels@,
                epochs as int,
                learning_rate,
                trained,
                fitted,
            );
            Network::<T, A, F, G, L, P>::lemma_propagation_kept(before, trained);
        }
    }
    let errors = match fitted {
        Err(e) => {
            proof {
                assert(trained_and_tested(
                    old(network).layers(),
                    old(network).ops(),
                    old(network).loss(),
                    old(network).loss_prime(),
                    samples@,
                    labels@,
                    tests@,
                    epochs as int,
                    learning_rate,
                    trained,
                    Err(e),
                    network.layers(),
                    Err(e),
                ));
            }
            return Err(e);
        },
        Ok(errors) => errors,
    };
    let tested = network.predict(tests);
    proof {
        if in_shape {
            Network::<T, A, F, G, L, P>::lemma_predict_succeeds(
                trained,
                old(network).ops(),
                tests@,
                network.layers(),
                tested,
            );
            assert forall|j: int| 0 <= j < tests@.len() implies (#[trigger] Network::<
                T,
                A,
                F,
                G,
                L,
                P,
            >::takes(before, tests@, j)) == Network::<T, A, F, G, L, P>::takes(
                trained,
                tests@,
                j,
            ) by {
                Network::<T, A, F, G, L, P>::lemma_shape_after_sized(
                    before,
                    trained,
                    tests@[j]@.rows,
                    tests@[j]@.cols,
                    before.len() as int,
                );
            }
            assert forall|j: int| 0 <= j < tests@.len() implies Network::<
                T,
                A,
                F,
                G,
                L,
                P,
            >::takes(before, tests@, j) == #[trigger] Network::<T, A, F, G, L, P>::takes(
                trained,
                tests@,
                j,
            ) by {
                Network::<T, A, F, G, L, P>::lemma_shape_after_sized(
                    before,
                    trained,
                    tests@[j]@.rows,
                    tests@[j]@.cols,
                    before.len() as int,
                );
            }
            if tested is Ok {
                let outputs = tested->Ok_0;
                assert forall|j: int| 0 <= j < tests@.len() implies Network::<
                    T,
                    A,
                    F,
                    G,
                    L,
                    P,
                >::shape_after(before, tests@[j]@.rows, tests@[j]@.cols, before.len() as int)
                    == Some(((#[trigger] outputs@[j])@.rows, outputs@[j]@.cols)) by {
                    Network::<T, A, F, G, L, P>::lemma_shape_after_sized(
                        before,
                        trained,
                        tests@[j]@.rows,
                        tests@[j]@.cols,
                        before.len() as int,
                    );
                }
            }
        }
    }
    match tested {
        Err(e) => {
            proof {
                assert(trained_and_tested(
                    old(network).layers(),
                    old(network).ops(),
                    old(network).loss(),
                    old(network).loss_prime(),
                    samples@,
                    labels@,
                    tests@,
                    epochs as int,
                    learning_rate,
                    trained,
                    Ok(errors),
                    network.layers(),
                    Err(e),
                ));
            }
            Err(e)
        },
        Ok(outputs) => {
            proof {
                assert(trained_and_tested(
                    old(network).layers(),
                    old(network).ops(),
                    old(network).loss(),
                    old(network).loss_prime(),
                    samples@,
                    labels@,
                    tests@,
                    epochs as int,
                    learning_rate,
                    trained,
                    Ok(errors),
                    network.layers(),
                    Ok((errors, outputs)),
                ));
            }
            Ok((errors, outputs))
        },
    }
}

} // verus!

use nalgebra::DMatrix;
use neural_network::dataset::mnist::{MnistDataset, MnistImages, MnistLabels, MnistSubDataset};
use neural_network::error::Error;
use neural_network::network::layers::FullyConnectedLayer;
use neural_network::network::{Arithmetic, Layer, Matrix, Network};
use neural_network::solver::mnist::{
    categorical_to_mist_labels, mnist_image_data, mnist_to_categorical,
};
use neural_network::solver::xor::{categorical_to_labels, label_rows};
use neural_network::solver::{
    arg_max, assemble, count_matches, encode_rows, score_rows, train_and_test, MnistSolver,
    SolverData, XorSolver,
};
use std::cell::Cell;

/// Arithmetic on single-precision matrices, done by nalgebra.
struct Dense;

fn to_dense(m: &Matrix<f32>) -> DMatrix<f32> {
    DMatrix::from_row_slice(m.nrows(), m.ncols(), m.as_slice())
}

fn from_dense(m: &DMatrix<f32>) -> Matrix<f32> {
    let rows: Vec<f32> = m.transpose().as_slice().to_vec();
    Matrix::from_vec(m.nrows(), m.ncols(), rows).unwrap()
}

impl Arithmetic<f32> for Dense {
    fn product(&self, a: &Matrix<f32>, b: &Matrix<f32>) -> Matrix<f32> {
        from_dense(&(to_dense(a) * to_dense(b)))
    }

    fn sum(&self, a: &Matrix<f32>, b: &Matrix<f32>) -> Matrix<f32> {
        from_dense(&(to_dense(a) + to_dense(b)))
    }

    fn difference(&self, a: &Matrix<f32>, b: &Matrix<f32>) -> Matrix<f32> {
        from_dense(&(to_dense(a) - to_dense(b)))
    }

    fn scaled(&self, factor: &f32, a: &Matrix<f32>) -> Matrix<f32> {
        from_dense(&(*factor * to_dense(a)))
    }

    fn component_product(&self, a: &Matrix<f32>, b: &Matrix<f32>) -> Matrix<f32> {
        from_dense(&to_dense(a).component_mul(&to_dense(b)))
    }

    fn mean(&self, values: &Vec<f32>) -> f32 {
        let mut total = 0.0;
        for value in values {
            total += value;
        }
        total / values.len() as f32
    }
}

type Elementwise = fn(&Matrix<f32>) -> Matrix<f32>;
type Loss = fn(&Matrix<f32>, &Matrix<f32>) -> f32;
type LossPrime = fn(&Matrix<f32>, &Matrix<f32>) -> Matrix<f32>;
type Net = Network<f32, Dense, Elementwise, Elementwise, Loss, LossPrime>;

fn tanh(x: &Matrix<f32>) -> Matrix<f32> {
    from_dense(&to_dense(x).map(|v| v.tanh()))
}

fn tanh_prime(x: &Matrix<f32>) -> Matrix<f32> {
    from_dense(&to_dense(x).map(|v| 1.0 - v.tanh().powi(2)))
}

fn mse(y_true: &Matrix<f32>, y_pred: &Matrix<f32>) -> f32 {
    (to_dense(y_true) - to_dense(y_pred)).map(|v| v.powi(2)).mean()
}

fn mse_prime(y_true: &Matrix<f32>, y_pred: &Matrix<f32>) -> Matrix<f32> {
    from_dense(&(2.0 * (to_dense(y_pred) - to_dense(y_true)) / y_true.len() as f32))
}

fn empty_network() -> Net {
    Network::new(Dense, mse as Loss, mse_prime as LossPrime)
}

/// An integer that orders as the number does.
fn order_key(x: &f32) -> i64 {
    assert!(!x.is_nan());
    let bits = x.to_bits();
    let magnitude = (bits & 0x7fff_ffff) as i64;
    if bits >> 31 == 1 {
        -magnitude
    } else {
        magnitude
    }
}

/// A fixed stream of numbers in [-0.5, 0.5), so that every run trains alike.
struct Stream(Cell<u64>);

impl Stream {
    fn new(seed: u64) -> Self {
        Stream(Cell::new(seed))
    }

    fn next(&self) -> f32 {
        let state =
            self.0.get().wrapping_mul(6364136223846793005).wrapping_add(1442695040888963407);
        self.0.set(state);
        ((state >> 40) as f32) / ((1u64 << 24) as f32) - 0.5
    }

    fn matrix(&self, rows: usize, cols: usize) -> Matrix<f32> {
        let data: Vec<f32> = (0..rows * cols).map(|_| self.next()).collect();
        Matrix::from_vec(rows, cols, data).unwrap()
    }
}

#[test]
fn order_key_orders_as_the_numbers_do() {
    let numbers = [-3.5f32, -1.0, -0.25, -0.0, 0.0, 1e-9, 0.5, 2.0, 1e9];
    for a in numbers.iter() {
        for b in numbers.iter() {
            assert_eq!(a < b, order_key(a) < order_key(b));
            assert_eq!(a == b, order_key(a) == order_key(b));
        }
    }
}

#[test]
fn hits_are_counted_place_by_place() {
    assert_eq!(count_matches(&[1, 2, 3, 4], &[1, 0, 3, 0]), 2);
    assert_eq!(count_matches(&[1, 2, 3], &[1, 2, 3]), 3);
    assert_eq!(count_matches(&[1, 2, 3], &[3, 1, 2]), 0);
    assert_eq!(count_matches(&[], &[]), 0);
    assert_eq!(count_matches(&[1, 2, 3, 4], &[1, 2]), 2);
    assert_eq!(count_matches(&[1], &[1, 1, 1]), 1);
    let data = SolverData::new(vec![0, 1, 1, 1], vec![0, 1, 1, 0]);
    assert_eq!(data.correct, 3);
    assert_eq!(data.predictions, vec![0, 1, 1, 1]);
    assert_eq!(data.labels, vec![0, 1, 1, 0]);
}

#[test]
fn greatest_score_is_found() {
    assert_eq!(arg_max(&[]), None);
    assert_eq!(arg_max(&[5]), Some(0));
    assert_eq!(arg_max(&[1, 9, 3]), Some(1));
    assert_eq!(arg_max(&[-4, -9, -3]), Some(2));
    assert_eq!(arg_max(&[i64::MIN, i64::MIN]), Some(1));
}

#[test]
fn last_of_the_greatest_scores_wins() {
    assert_eq!(arg_max(&[7, 2, 7, 1]), Some(2));
    assert_eq!(arg_max(&[0, 0, 0]), Some(2));
    let scores = [3.0f32, 1.0, 3.0];
    let picked = scores
        .iter()
        .enumerate()
        .max_by(|(_, a), (_, b)| a.partial_cmp(b).unwrap())
        .unwrap()
        .0;
    let keys: Vec<i64> = scores.iter().map(order_key).collect();
    assert_eq!(arg_max(&keys), Some(picked));
}

#[test]
fn digits_are_read_from_scores() {
    let scores = vec![vec![0, 5, 2], vec![9, 1, 1], vec![1, 1, 1]];
    assert_eq!(categorical_to_mist_labels(&scores).unwrap(), vec![1, 0, 2]);
    assert_eq!(categorical_to_mist_labels(&[]).unwrap(), Vec::<u8>::new());
    let mut wide = vec![0i64; 300];
    wide[260] = 1;
    assert_eq!(categorical_to_mist_labels(&[wide]).unwrap(), vec![4]);
}

#[test]
fn row_without_scores_is_refused() {
    let scores = vec![vec![0, 5, 2], vec![]];
    assert!(matches!(categorical_to_mist_labels(&scores), Err(Error::DimensionMismatch)));
    assert!(matches!(categorical_to_labels(&scores, 0), Err(Error::DimensionMismatch)));
}

#[test]
fn bits_are_read_against_the_threshold() {
    let scores = vec![vec![4], vec![5], vec![6, -100], vec![-7]];
    assert_eq!(categorical_to_labels(&scores, 5).unwrap(), vec![0, 0, 1, 0]);
    assert_eq!(categorical_to_labels(&scores, -7).unwrap(), vec![1, 1, 1, 0]);
}

#[test]
fn labels_become_rows_of_ten() {
    let targets = mnist_to_categorical(&[3, 0, 9], 0.0f32, 1.0f32).unwrap();
    assert_eq!(targets.len(), 3);
    assert_eq!(targets[0].shape(), (1, 10));
    assert_eq!(targets[0].as_slice(), &[0., 0., 0., 1., 0., 0., 0., 0., 0., 0.]);
    assert_eq!(targets[1].as_slice(), &[1., 0., 0., 0., 0., 0., 0., 0., 0., 0.]);
    assert_eq!(targets[2].as_slice(), &[0., 0., 0., 0., 0., 0., 0., 0., 0., 1.]);
    assert!(mnist_to_categorical(&[], 0u8, 1u8).unwrap().is_empty());
}

#[test]
fn label_above_nine_is_refused() {
    assert!(matches!(mnist_to_categorical(&[3, 10], 0u8, 1u8), Err(Error::DimensionMismatch)));
    assert!(matches!(mnist_to_categorical(&[255], 0u8, 1u8), Err(Error::DimensionMismatch)));
}

#[test]
fn images_become_rows_of_pixels() {
    let image: Vec<u8> = (0..784).map(|k| (k % 256) as u8).collect();
    let samples = mnist_image_data(&[image.clone()], &|p: u8| p as f32 / 255.0).unwrap();
    assert_eq!(samples.len(), 1);
    assert_eq!(samples[0].shape(), (1, 784));
    assert_eq!(samples[0].as_slice()[0], 0.0);
    assert_eq!(samples[0].as_slice()[255], 1.0);
    assert_eq!(samples[0].as_slice()[256 + 51], 51.0 / 255.0);
}

#[test]
fn image_of_another_size_is_refused() {
    let r = mnist_image_data(&[vec![0u8; 784], vec![0u8; 783]], &|p: u8| p);
    assert!(matches!(r, Err(Error::DimensionMismatch)));
    let r = encode_rows(&[vec![1u8, 2]], 3, &|p: u8| p);
    assert!(matches!(r, Err(Error::DimensionMismatch)));
}

#[test]
fn rows_are_encoded_byte_by_byte() {
    let rows = encode_rows(&[vec![1u8, 2], vec![3, 4]], 2, &|p: u8| p as f32 * 2.0).unwrap();
    assert_eq!(rows[0].shape(), (1, 2));
    assert_eq!(rows[0].as_slice(), &[2.0, 4.0]);
    assert_eq!(rows[1].as_slice(), &[6.0, 8.0]);
    assert_eq!(label_rows(&[4, 5]), vec![vec![4], vec![5]]);
}

#[test]
fn scores_follow_the_elements() {
    let outputs = vec![
        Matrix::from_vec(1, 3, vec![0.5f32, -1.0, 2.0]).unwrap(),
        Matrix::from_vec(2, 1, vec![0.0f32, -0.0]).unwrap(),
    ];
    let scores = score_rows(&outputs, &order_key);
    assert_eq!(scores.len(), 2);
    assert_eq!(scores[0].len(), 3);
    assert!(scores[0][1] < scores[0][0] && scores[0][0] < scores[0][2]);
    assert_eq!(scores[1], vec![0, 0]);
}

#[test]
fn xor_table_is_the_exclusive_or() {
    assert_eq!(XorSolver::raw_data(), vec![vec![0, 0], vec![0, 1], vec![1, 0], vec![1, 1]]);
    assert_eq!(XorSolver::raw_labels(), vec![0, 1, 1, 0]);
    assert_eq!(XorSolver::layer_sizes(), vec![2, 3, 1]);
    assert_eq!(MnistSolver::layer_sizes(), vec![784, 100, 50, 10]);
}

#[test]
fn stack_alternates_weights_and_activation() {
    let stream = Stream::new(4);
    let network = assemble(
        empty_network(),
        &[4, 3, 2],
        tanh as Elementwise,
        tanh_prime as Elementwise,
        &|r, c| stream.matrix(r, c),
    )
    .unwrap();
    assert_eq!(network.depth(), 4);
    assert_eq!(network.output_shape(1, 4), Some((1, 2)));
    assert_eq!(network.output_shape(1, 3), None);
    assert_eq!(network.output_shape(2, 4), None);
    match network.layer(2) {
        Some(Layer::Affine(layer)) => {
            assert_eq!(layer.input_width(), 3);
            assert_eq!(layer.output_width(), 2);
        }
        _ => panic!("the third layer has weights"),
    }
    assert!(matches!(network.layer(1), Some(Layer::Activation(_))));
    assert!(matches!(network.layer(3), Some(Layer::Activation(_))));
    assert!(network.layer(4).is_none());
    let single = assemble(
        empty_network(),
        &[4],
        tanh as Elementwise,
        tanh_prime as Elementwise,
        &|r, c| stream.matrix(r, c),
    )
    .unwrap();
    assert_eq!(single.depth(), 0);
    assert_eq!(single.output_shape(3, 5), Some((3, 5)));
}

#[test]
fn stack_refuses_parameters_of_another_shape() {
    let stream = Stream::new(4);
    let r = assemble(
        empty_network(),
        &[4, 3, 2],
        tanh as Elementwise,
        tanh_prime as Elementwise,
        &|r, c| stream.matrix(c, r),
    );
    assert!(matches!(r, Err(Error::DimensionMismatch)));
    let r = FullyConnectedLayer::generate(2, 2, &|_, _| stream.matrix(2, 2));
    assert!(matches!(r, Err(Error::DimensionMismatch)));
    let layer = FullyConnectedLayer::generate(2, 3, &|r, c| stream.matrix(r, c)).unwrap();
    assert_eq!(layer.current_weights().shape(), (2, 3));
    assert_eq!(layer.current_biases().shape(), (1, 3));
}

#[test]
fn training_then_testing() {
    let stream = Stream::new(12);
    let mut network = assemble(
        empty_network(),
        &[2, 3, 1],
        tanh as Elementwise,
        tanh_prime as Elementwise,
        &|r, c| stream.matrix(r, c),
    )
    .unwrap();
    let samples = encode_rows(&XorSolver::raw_data(), 2, &|b: u8| b as f32).unwrap();
    let labels = encode_rows(&label_rows(&XorSolver::raw_labels()), 1, &|b: u8| b as f32).unwrap();
    let (errors, outputs) =
        train_and_test(&mut network, &samples, &labels, &samples[..2], 5, 0.1).unwrap();
    assert_eq!(errors.len(), 5);
    assert_eq!(outputs.len(), 2);
    let r = train_and_test(&mut network, &samples, &labels[..3], &samples, 1, 0.1);
    assert!(matches!(r, Err(Error::DimensionMismatch)));
    let r = train_and_test(&mut network, &samples, &labels, &labels, 1, 0.1);
    assert!(matches!(r, Err(Error::DimensionMismatch)));
}

#[test]
fn xor_is_solved() {
    let stream = Stream::new(12);
    let (data, errors) = XorSolver
        .solve(
            empty_network(),
            tanh as Elementwise,
            tanh_prime as Elementwise,
            &|r, c| stream.matrix(r, c),
            &|bit: u8| bit as f32,
            &order_key,
            0.5,
            1000,
            0.1,
        )
        .unwrap();
    assert_eq!(errors.len(), 1000);
    assert!(errors[999] < errors[0]);
    assert_eq!(data.labels, vec![0, 1, 1, 0]);
    assert_eq!(data.predictions.len(), 4);
    assert!(data.correct >= 3);
    assert_eq!(data.correct, count_matches(&data.predictions, &data.labels));
}

#[test]
fn xor_without_epochs_is_still_decided() {
    let stream = Stream::new(12);
    let (data, errors) = XorSolver
        .solve(
            empty_network(),
            tanh as Elementwise,
            tanh_prime as Elementwise,
            &|r, c| stream.matrix(r, c),
            &|bit: u8| bit as f32,
            &order_key,
            0.5,
            0,
            0.1,
        )
        .unwrap();
    assert!(errors.is_empty());
    assert_eq!(data.predictions.len(), 4);
    assert!(data.predictions.iter().all(|p| *p <= 1));
}

#[test]
fn xor_with_misshapen_parameters_is_refused() {
    let stream = Stream::new(12);
    let r = XorSolver.solve(
        empty_network(),
        tanh as Elementwise,
        tanh_prime as Elementwise,
        &|r, c| stream.matrix(r + 1, c),
        &|bit: u8| bit as f32,
        &order_key,
        0.5,
        10,
        0.1,
    );
    assert!(matches!(r, Err(Error::DimensionMismatch)));
}

fn digit_image(digit: usize, shade: u8) -> Vec<u8> {
    (0..784).map(|k| if k % 10 == digit { shade } else { 0 }).collect()
}

fn small_dataset() -> MnistDataset {
    let train_images: Vec<Vec<u8>> = (0..20).map(|k| digit_image(k % 10, 255)).collect();
    let train_labels: Vec<u8> = (0..20).map(|k| (k % 10) as u8).collect();
    let test_images: Vec<Vec<u8>> = (0..10).map(|k| digit_image(k, 200)).collect();
    let test_labels: Vec<u8> = (0..10).map(|k| k as u8).collect();
    MnistDataset {
        train: MnistSubDataset {
            images: MnistImages { num_cols: 28, images: train_images },
            labels: MnistLabels(train_labels),
        },
        test: MnistSubDataset {
            images: MnistImages { num_cols: 28, images: test_images },
            labels: MnistLabels(test_labels),
        },
    }
}

#[test]
fn solver_takes_the_first_of_each_set() {
    let dataset = small_dataset();
    let solver = MnistSolver::new("http://example.org/", 3, 2);
    assert_eq!(solver.base_url, "http://example.org/");
    assert_eq!(solver.train_size, 3);
    assert_eq!(solver.test_size, 2);
    let selection = solver.select(&dataset).unwrap();
    assert_eq!(selection.train_images.len(), 3);
    assert_eq!(selection.train_labels, &[0, 1, 2]);
    assert_eq!(selection.test_images.len(), 2);
    assert_eq!(selection.test_labels, &[0, 1]);
    assert!(MnistSolver::new("", 21, 2).select(&dataset).is_none());
    assert!(MnistSolver::new("", 3, 11).select(&dataset).is_none());
    assert!(MnistSolver::new("", 20, 10).select(&dataset).is_some());
    assert!(MnistSolver::new("", 0, 0).select(&dataset).is_some());
}

#[test]
fn digits_are_learned_from_a_small_dataset() {
    let dataset = small_dataset();
    let stream = Stream::new(5);
    let (data, errors) = MnistSolver::new("", 10, 10)
        .solve(
            &dataset,
            empty_network(),
            tanh as Elementwise,
            tanh_prime as Elementwise,
            &|r, c| stream.matrix(r, c),
            &|pixel: u8| pixel as f32 / 255.0,
            0.0,
            1.0,
            &order_key,
            35,
            0.1,
        )
        .unwrap();
    assert_eq!(errors.len(), 35);
    assert!(errors[34] < errors[0]);
    assert_eq!(data.labels, vec![0, 1, 2, 3, 4, 5, 6, 7, 8, 9]);
    assert_eq!(data.predictions.len(), 10);
    assert!(data.correct > 0);
    assert_eq!(data.correct, count_matches(&data.predictions, &data.labels));
}

#[test]
fn dataset_that_cannot_be_encoded_is_refused() {
    let mut dataset = small_dataset();
    let stream = Stream::new(5);
    let run = |dataset: &MnistDataset, train: usize, test: usize| {
        MnistSolver::new("", train, test).solve(
            dataset,
            empty_network(),
            tanh as Elementwise,
            tanh_prime as Elementwise,
            &|r, c| stream.matrix(r, c),
            &|pixel: u8| pixel as f32 / 255.0,
            0.0,
            1.0,
            &order_key,
            0,
            0.1,
        )
    };
    assert!(matches!(run(&dataset, 21, 1), Err(Error::DimensionMismatch)));
    assert!(run(&dataset, 2, 1).is_ok());
    dataset.train.labels.0[1] = 10;
    assert!(matches!(run(&dataset, 2, 1), Err(Error::DimensionMismatch)));
    assert!(run(&dataset, 1, 1).is_ok());
    dataset.test.images.images[0].pop();
    assert!(matches!(run(&dataset, 1, 1), Err(Error::DimensionMismatch)));
}

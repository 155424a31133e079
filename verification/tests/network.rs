use nalgebra::DMatrix;
use neural_network::error::Error;
use neural_network::network::arithmetic::{component_product, difference, product, scaled, sum};
use neural_network::network::layers::{ActivationLayer, FullyConnectedLayer};
use neural_network::network::{Arithmetic, Layer, Matrix, Network};

/// Arithmetic on single-precision matrices, done by nalgebra.
struct Dense;

fn to_dense(m: &Matrix<f32>) -> DMatrix<f32> {
    DMatrix::from_row_slice(m.nrows(), m.ncols(), m.as_slice())
}

fn from_dense(m: &DMatrix<f32>) -> Matrix<f32> {
    let rows: Vec<f32> = m.transpose().as_slice().to_vec();
    Matrix::from_vec(m.nrows(), m.ncols(), rows).unwrap()
}

impl Arithmetic<f32> for Dense {
    fn product(&self, a: &Matrix<f32>, b: &Matrix<f32>) -> Matrix<f32> {
        from_dense(&(to_dense(a) * to_dense(b)))
    }

    fn sum(&self, a: &Matrix<f32>, b: &Matrix<f32>) -> Matrix<f32> {
        from_dense(&(to_dense(a) + to_dense(b)))
    }

    fn difference(&self, a: &Matrix<f32>, b: &Matrix<f32>) -> Matrix<f32> {
        from_dense(&(to_dense(a) - to_dense(b)))
    }

    fn scaled(&self, factor: &f32, a: &Matrix<f32>) -> Matrix<f32> {
        from_dense(&(*factor * to_dense(a)))
    }

    fn component_product(&self, a: &Matrix<f32>, b: &Matrix<f32>) -> Matrix<f32> {
        from_dense(&to_dense(a).component_mul(&to_dense(b)))
    }

    fn mean(&self, values: &Vec<f32>) -> f32 {
        let mut total = 0.0;
        for value in values {
            total += value;
        }
        total / values.len() as f32
    }
}

type Elementwise = fn(&Matrix<f32>) -> Matrix<f32>;
type Loss = fn(&Matrix<f32>, &Matrix<f32>) -> f32;
type LossPrime = fn(&Matrix<f32>, &Matrix<f32>) -> Matrix<f32>;
type Net = Network<f32, Dense, Elementwise, Elementwise, Loss, LossPrime>;

fn tanh(x: &Matrix<f32>) -> Matrix<f32> {
    from_dense(&to_dense(x).map(|v| v.tanh()))
}

fn tanh_prime(x: &Matrix<f32>) -> Matrix<f32> {
    from_dense(&to_dense(x).map(|v| 1.0 - v.tanh().powi(2)))
}

fn mse(y_true: &Matrix<f32>, y_pred: &Matrix<f32>) -> f32 {
    (to_dense(y_true) - to_dense(y_pred)).map(|v| v.powi(2)).mean()
}

fn mse_prime(y_true: &Matrix<f32>, y_pred: &Matrix<f32>) -> Matrix<f32> {
    from_dense(&(2.0 * (to_dense(y_pred) - to_dense(y_true)) / y_true.len() as f32))
}

/// A fixed stream of numbers in [-0.5, 0.5), so that every run trains alike.
struct Stream(u64);

impl Stream {
    fn next(&mut self) -> f32 {
        self.0 = self.0.wrapping_mul(6364136223846793005).wrapping_add(1442695040888963407);
        ((self.0 >> 40) as f32) / ((1u64 << 24) as f32) - 0.5
    }

    fn matrix(&mut self, rows: usize, cols: usize) -> Matrix<f32> {
        let data: Vec<f32> = (0..rows * cols).map(|_| self.next()).collect();
        Matrix::from_vec(rows, cols, data).unwrap()
    }
}

fn affine(stream: &mut Stream, input_size: usize, output_size: usize) -> Layer<f32, Elementwise, Elementwise> {
    let weights = stream.matrix(input_size, output_size);
    let biases = stream.matrix(1, output_size);
    Layer::Affine(FullyConnectedLayer::new(input_size, output_size, weights, biases).unwrap())
}

fn activation() -> Layer<f32, Elementwise, Elementwise> {
    Layer::Activation(ActivationLayer::new(tanh as Elementwise, tanh_prime as Elementwise))
}

fn row(values: &[f32]) -> Matrix<f32> {
    Matrix::from_row_slice(1, values.len(), values).unwrap()
}

fn xor_network(seed: u64) -> Net {
    let mut stream = Stream(seed);
    let mut network: Net = Network::new(Dense, mse as Loss, mse_prime as LossPrime);
    network
        .add(affine(&mut stream, 2, 3))
        .add(activation())
        .add(affine(&mut stream, 3, 1))
        .add(activation());
    network
}

fn xor_samples() -> (Vec<Matrix<f32>>, Vec<Matrix<f32>>) {
    let samples = vec![row(&[0.0, 0.0]), row(&[0.0, 1.0]), row(&[1.0, 0.0]), row(&[1.0, 1.0])];
    let labels = vec![row(&[0.0]), row(&[1.0]), row(&[1.0]), row(&[0.0])];
    (samples, labels)
}

#[test]
fn xor_converges() {
    let (samples, labels) = xor_samples();
    let mut network = xor_network(12);
    let errors = network.fit(&samples, &labels, 1000, 0.1).unwrap();
    assert_eq!(errors.len(), 1000);
    assert!(errors[999] < errors[0]);
    let outputs = network.predict(&samples).unwrap();
    let expected = [0u8, 1, 1, 0];
    let mut correct = 0;
    for (output, label) in outputs.iter().zip(expected.iter()) {
        let decided = (*output.get(0, 0).unwrap() > 0.5) as u8;
        if decided == *label {
            correct += 1;
        }
    }
    assert!(correct >= 3);
}


fn weights_of(network: &Net, index: usize) -> Vec<f32> {
    match network.layer(index) {
        Some(Layer::Affine(layer)) => layer.current_weights().as_slice().to_vec(),
        _ => panic!("no affine layer at {}", index),
    }
}

fn biases_of(network: &Net, index: usize) -> Vec<f32> {
    match network.layer(index) {
        Some(Layer::Affine(layer)) => layer.current_biases().as_slice().to_vec(),
        _ => panic!("no affine layer at {}", index),
    }
}

fn close(a: f32, b: f32, tolerance: f32) -> bool {
    (a - b).abs() <= tolerance
}

#[test]
fn tiny_classifier_learns_its_samples() {
    let mut stream = Stream(5);
    let mut network: Net = Network::new(Dense, mse as Loss, mse_prime as LossPrime);
    network
        .add(affine(&mut stream, 784, 100))
        .add(activation())
        .add(affine(&mut stream, 100, 50))
        .add(activation())
        .add(affine(&mut stream, 50, 10))
        .add(activation());
    let mut samples = Vec::new();
    let mut labels = Vec::new();
    for digit in 0..10usize {
        let pixels: Vec<f32> = (0..784).map(|k| if k % 10 == digit { 1.0 } else { 0.0 }).collect();
        samples.push(Matrix::from_vec(1, 784, pixels).unwrap());
        let target: Vec<f32> = (0..10).map(|k| if k == digit { 1.0 } else { 0.0 }).collect();
        labels.push(Matrix::from_vec(1, 10, target).unwrap());
    }
    let errors = network.fit(&samples, &labels, 35, 0.1).unwrap();
    assert_eq!(errors.len(), 35);
    assert!(errors.iter().all(|e| e.is_finite()));
    assert!(errors[34] < errors[0]);
    let outputs = network.predict(&samples).unwrap();
    let mut hits = 0;
    for (digit, output) in outputs.iter().enumerate() {
        let scores = output.as_slice();
        let mut best = 0;
        for k in 0..scores.len() {
            if scores[k] >= scores[best] {
                best = k;
            }
        }
        if best == digit {
            hits += 1;
        }
    }
    assert!(hits > 0);
}

#[test]
fn fit_without_epochs_changes_nothing() {
    let (samples, labels) = xor_samples();
    let mut network = xor_network(11);
    let weights = (weights_of(&network, 0), weights_of(&network, 2));
    let biases = (biases_of(&network, 0), biases_of(&network, 2));
    let errors = network.fit(&samples, &labels, 0, 0.1).unwrap();
    assert!(errors.is_empty());
    assert_eq!(weights, (weights_of(&network, 0), weights_of(&network, 2)));
    assert_eq!(biases, (biases_of(&network, 0), biases_of(&network, 2)));
}

#[test]
fn fit_without_epochs_does_not_look_at_the_labels() {
    let (samples, _) = xor_samples();
    let mut network = xor_network(11);
    let errors = network.fit(&samples, &[], 0, 0.1).unwrap();
    assert!(errors.is_empty());
}

#[test]
fn fit_reports_one_error_for_each_epoch() {
    let (samples, labels) = xor_samples();
    let mut network = xor_network(12);
    let errors = network.fit(&samples, &labels, 3, 0.1).unwrap();
    assert_eq!(errors.len(), 3);
}

#[test]
fn fit_by_single_epochs_is_fit_at_once() {
    let (samples, labels) = xor_samples();
    let mut at_once = xor_network(12);
    let mut by_steps = xor_network(12);
    let errors = at_once.fit(&samples, &labels, 5, 0.1).unwrap();
    let mut stepped = Vec::new();
    for _ in 0..5 {
        stepped.extend(by_steps.fit(&samples, &labels, 1, 0.1).unwrap());
    }
    assert_eq!(errors, stepped);
    assert_eq!(weights_of(&at_once, 0), weights_of(&by_steps, 0));
    assert_eq!(weights_of(&at_once, 2), weights_of(&by_steps, 2));
}

#[test]
fn fit_refuses_labels_of_another_number() {
    let (samples, mut labels) = xor_samples();
    labels.pop();
    let mut network = xor_network(11);
    let weights = weights_of(&network, 0);
    let r = network.fit(&samples, &labels, 1, 0.1);
    assert!(matches!(r, Err(Error::DimensionMismatch)));
    assert_eq!(weights, weights_of(&network, 0));
}

#[test]
fn fit_refuses_a_label_of_another_width() {
    let (samples, _) = xor_samples();
    let labels = vec![row(&[0.0, 1.0]), row(&[1.0, 0.0]), row(&[1.0, 0.0]), row(&[0.0, 1.0])];
    let mut network = xor_network(11);
    let r = network.fit(&samples, &labels, 1, 0.1);
    assert!(matches!(r, Err(Error::DimensionMismatch)));
}

#[test]
fn predict_twice_gives_the_same() {
    let (samples, _) = xor_samples();
    let mut network = xor_network(11);
    let weights = (weights_of(&network, 0), weights_of(&network, 2));
    let biases = (biases_of(&network, 0), biases_of(&network, 2));
    let first = network.predict(&samples).unwrap();
    let second = network.predict(&samples).unwrap();
    assert_eq!(first.len(), 4);
    assert_eq!(second.len(), 4);
    for (a, b) in first.iter().zip(second.iter()) {
        assert_eq!(a.shape(), (1, 1));
        assert_eq!(a.as_slice(), b.as_slice());
    }
    assert_eq!(weights, (weights_of(&network, 0), weights_of(&network, 2)));
    assert_eq!(biases, (biases_of(&network, 0), biases_of(&network, 2)));
}

#[test]
fn predict_follows_the_layers_in_order() {
    let weights = Matrix::from_vec(2, 2, vec![1.0, 2.0, 3.0, 4.0]).unwrap();
    let biases = row(&[0.5, -0.5]);
    let second_weights = Matrix::from_vec(2, 1, vec![1.0, -1.0]).unwrap();
    let second_biases = row(&[0.25]);
    let mut network: Net = Network::new(Dense, mse as Loss, mse_prime as LossPrime);
    network
        .add(Layer::Affine(FullyConnectedLayer::new(2, 2, weights, biases).unwrap()))
        .add(Layer::Affine(FullyConnectedLayer::new(2, 1, second_weights, second_biases).unwrap()));
    assert_eq!(network.depth(), 2);
    let outputs = network.predict(&[row(&[1.0, 1.0]), row(&[2.0, 0.0])]).unwrap();
    // [1 1] x W + b = [4.5 5.5], then 4.5 - 5.5 + 0.25
    assert_eq!(outputs[0].as_slice(), &[-0.75]);
    // [2 0] x W + b = [2.5 3.5], then 2.5 - 3.5 + 0.25
    assert_eq!(outputs[1].as_slice(), &[-0.75]);
}

#[test]
fn predict_without_layers_gives_the_samples_back() {
    let mut network: Net = Network::new(Dense, mse as Loss, mse_prime as LossPrime);
    let outputs = network.predict(&[row(&[1.0, 2.0, 3.0])]).unwrap();
    assert_eq!(outputs.len(), 1);
    assert_eq!(outputs[0].shape(), (1, 3));
    assert_eq!(outputs[0].as_slice(), &[1.0, 2.0, 3.0]);
}

#[test]
fn mismatched_sample_is_reported() {
    let mut network = xor_network(3);
    let r = network.predict(&[row(&[1.0, 2.0, 3.0])]);
    assert!(matches!(r, Err(Error::DimensionMismatch)));
}

#[test]
fn layers_that_do_not_fit_fail_when_data_passes() {
    let mut stream = Stream(1);
    let mut network: Net = Network::new(Dense, mse as Loss, mse_prime as LossPrime);
    network.add(affine(&mut stream, 2, 3)).add(affine(&mut stream, 4, 1));
    let r = network.predict(&[row(&[1.0, 2.0])]);
    assert!(matches!(r, Err(Error::DimensionMismatch)));
}

#[test]
fn affine_layer_refuses_parameters_of_another_shape() {
    let mut stream = Stream(1);
    let r = FullyConnectedLayer::new(2, 3, stream.matrix(3, 2), stream.matrix(1, 3));
    assert!(matches!(r, Err(Error::DimensionMismatch)));
    let r = FullyConnectedLayer::new(2, 3, stream.matrix(2, 3), stream.matrix(3, 1));
    assert!(matches!(r, Err(Error::DimensionMismatch)));
    let layer = FullyConnectedLayer::new(2, 3, stream.matrix(2, 3), stream.matrix(1, 3)).unwrap();
    assert_eq!(layer.input_width(), 2);
    assert_eq!(layer.output_width(), 3);
}

#[test]
fn affine_forward_is_input_times_weights_plus_biases() {
    let weights = Matrix::from_vec(2, 3, vec![1.0, 2.0, 3.0, 4.0, 5.0, 6.0]).unwrap();
    let biases = row(&[0.5, 0.25, -1.0]);
    let mut layer = FullyConnectedLayer::new(2, 3, weights, biases).unwrap();
    let output = layer.forward_propagation(&Dense, &row(&[2.0, -1.0])).unwrap();
    assert_eq!(output.shape(), (1, 3));
    assert_eq!(output.as_slice(), &[-1.5, -0.75, -1.0]);
}

#[test]
fn affine_step_is_learning_rate_times_input_times_gradient() {
    let before = vec![1.0, 2.0, 3.0, 4.0, 5.0, 6.0];
    let weights = Matrix::from_vec(2, 3, before.clone()).unwrap();
    let biases = row(&[0.5, 0.25, -1.0]);
    let mut layer = FullyConnectedLayer::new(2, 3, weights, biases).unwrap();
    let input = [2.0f32, -1.0];
    let gradient = [0.5f32, -1.0, 2.0];
    let rate = 0.1f32;
    layer.forward_propagation(&Dense, &row(&input)).unwrap();
    let back = layer.back_propagation(&Dense, &row(&gradient), rate).unwrap();
    // the gradient at the input comes from the weights of before the step
    assert_eq!(back.shape(), (1, 2));
    assert_eq!(back.as_slice(), &[0.5 - 2.0 + 6.0, 2.0 - 5.0 + 12.0]);
    let after = layer.current_weights().as_slice().to_vec();
    for i in 0..2 {
        for j in 0..3 {
            let expected = before[i * 3 + j] - rate * (input[i] * gradient[j]);
            assert_eq!(after[i * 3 + j], expected);
        }
    }
    let expected: Vec<f32> =
        [0.5f32, 0.25, -1.0].iter().zip(gradient.iter()).map(|(b, g)| b - rate * g).collect();
    assert_eq!(layer.current_biases().as_slice(), expected.as_slice());
}

#[test]
fn affine_backward_needs_a_forward() {
    let mut stream = Stream(2);
    let mut layer =
        FullyConnectedLayer::new(2, 3, stream.matrix(2, 3), stream.matrix(1, 3)).unwrap();
    let gradient = row(&[0.1, 0.2, 0.3]);
    let r = layer.back_propagation(&Dense, &gradient, 0.1);
    assert!(matches!(r, Err(Error::BackwardWithoutForward)));
    layer.forward_propagation(&Dense, &row(&[1.0, 2.0])).unwrap();
    assert!(layer.back_propagation(&Dense, &gradient, 0.1).is_ok());
    let r = layer.back_propagation(&Dense, &gradient, 0.1);
    assert!(matches!(r, Err(Error::BackwardWithoutForward)));
}

#[test]
fn affine_failure_leaves_the_layer_as_it_was() {
    let mut stream = Stream(2);
    let mut layer =
        FullyConnectedLayer::new(2, 3, stream.matrix(2, 3), stream.matrix(1, 3)).unwrap();
    let weights = layer.current_weights().as_slice().to_vec();
    let r = layer.forward_propagation(&Dense, &row(&[1.0, 2.0, 3.0]));
    assert!(matches!(r, Err(Error::DimensionMismatch)));
    let r = layer.forward_propagation(&Dense, &Matrix::from_vec(2, 2, vec![1.0; 4]).unwrap());
    assert!(matches!(r, Err(Error::DimensionMismatch)));
    layer.forward_propagation(&Dense, &row(&[1.0, 2.0])).unwrap();
    let r = layer.back_propagation(&Dense, &row(&[0.1, 0.2]), 0.1);
    assert!(matches!(r, Err(Error::DimensionMismatch)));
    assert_eq!(layer.current_weights().as_slice(), weights.as_slice());
    // the input is still held: a gradient of the right width goes through
    assert!(layer.back_propagation(&Dense, &row(&[0.1, 0.2, 0.3]), 0.1).is_ok());
}

#[test]
fn activation_forward_applies_the_function() {
    let mut layer = ActivationLayer::new(tanh as Elementwise, tanh_prime as Elementwise);
    let output = layer.forward_propagation(&row(&[0.0, 1.0, -2.0])).unwrap();
    assert_eq!(output.shape(), (1, 3));
    assert_eq!(output.as_slice(), &[0.0f32.tanh(), 1.0f32.tanh(), (-2.0f32).tanh()]);
}

#[test]
fn activation_backward_is_derivative_times_gradient() {
    let mut layer = ActivationLayer::new(tanh as Elementwise, tanh_prime as Elementwise);
    let input = [0.3f32, -1.2, 2.0, 0.0];
    let gradient = [1.0f32, -0.5, 0.25, 2.0];
    layer.forward_propagation(&row(&input)).unwrap();
    let back = layer.back_propagation(&Dense, &row(&gradient), 0.1).unwrap();
    assert_eq!(back.shape(), (1, 4));
    let step = 1e-3f32;
    for k in 0..4 {
        let estimate = ((input[k] + step).tanh() - (input[k] - step).tanh()) / (2.0 * step);
        assert!(close(back.as_slice()[k], estimate * gradient[k], 1e-3));
        let exact = (1.0 - input[k].tanh().powi(2)) * gradient[k];
        assert_eq!(back.as_slice()[k], exact);
    }
}

#[test]
fn activation_backward_needs_a_forward() {
    let mut layer = ActivationLayer::new(tanh as Elementwise, tanh_prime as Elementwise);
    let r = layer.back_propagation(&Dense, &row(&[1.0]), 0.1);
    assert!(matches!(r, Err(Error::BackwardWithoutForward)));
    layer.forward_propagation(&row(&[1.0])).unwrap();
    let r = layer.back_propagation(&Dense, &row(&[1.0, 2.0]), 0.1);
    assert!(matches!(r, Err(Error::DimensionMismatch)));
    assert!(layer.back_propagation(&Dense, &row(&[1.0]), 0.1).is_ok());
    let r = layer.back_propagation(&Dense, &row(&[1.0]), 0.1);
    assert!(matches!(r, Err(Error::BackwardWithoutForward)));
}

fn squeeze(_: &Matrix<f32>) -> Matrix<f32> {
    row(&[1.0])
}

#[test]
fn activation_of_another_shape_is_reported() {
    let mut layer = ActivationLayer::new(squeeze as Elementwise, tanh_prime as Elementwise);
    let r = layer.forward_propagation(&row(&[1.0, 2.0]));
    assert!(matches!(r, Err(Error::DimensionMismatch)));
    assert!(layer.forward_propagation(&row(&[3.0])).is_ok());
}

/// Arithmetic that gives every product one column too many.
struct Wide;

impl Arithmetic<f32> for Wide {
    fn product(&self, a: &Matrix<f32>, b: &Matrix<f32>) -> Matrix<f32> {
        Matrix::filled(a.nrows(), b.ncols() + 1, 0.0).unwrap()
    }

    fn sum(&self, a: &Matrix<f32>, b: &Matrix<f32>) -> Matrix<f32> {
        Dense.sum(a, b)
    }

    fn difference(&self, a: &Matrix<f32>, b: &Matrix<f32>) -> Matrix<f32> {
        Dense.difference(a, b)
    }

    fn scaled(&self, factor: &f32, a: &Matrix<f32>) -> Matrix<f32> {
        Dense.scaled(factor, a)
    }

    fn component_product(&self, a: &Matrix<f32>, b: &Matrix<f32>) -> Matrix<f32> {
        Dense.component_product(a, b)
    }

    fn mean(&self, values: &Vec<f32>) -> f32 {
        Dense.mean(values)
    }
}

#[test]
fn arithmetic_of_another_shape_is_reported() {
    let mut stream = Stream(2);
    let mut layer =
        FullyConnectedLayer::new(2, 3, stream.matrix(2, 3), stream.matrix(1, 3)).unwrap();
    let r = layer.forward_propagation(&Wide, &row(&[1.0, 2.0]));
    assert!(matches!(r, Err(Error::DimensionMismatch)));
}

#[test]
fn checked_arithmetic_looks_at_the_shapes() {
    let a = Matrix::from_vec(2, 3, vec![1.0, 2.0, 3.0, 4.0, 5.0, 6.0]).unwrap();
    let b = Matrix::from_vec(3, 1, vec![1.0, 0.0, -1.0]).unwrap();
    let p = product(&Dense, &a, &b).unwrap();
    assert_eq!(p.shape(), (2, 1));
    assert_eq!(p.as_slice(), &[-2.0, -2.0]);
    assert!(matches!(product(&Dense, &b, &a), Err(Error::DimensionMismatch)));
    assert!(matches!(sum(&Dense, &a, &b), Err(Error::DimensionMismatch)));
    assert!(matches!(difference(&Dense, &a, &b), Err(Error::DimensionMismatch)));
    assert!(matches!(component_product(&Dense, &a, &b), Err(Error::DimensionMismatch)));
    assert_eq!(sum(&Dense, &a, &a).unwrap().as_slice(), &[2.0, 4.0, 6.0, 8.0, 10.0, 12.0]);
    assert_eq!(difference(&Dense, &a, &a).unwrap().as_slice(), &[0.0; 6]);
    assert_eq!(scaled(&Dense, &0.5, &b).unwrap().as_slice(), &[0.5, 0.0, -0.5]);
    assert_eq!(
        component_product(&Dense, &a, &a).unwrap().as_slice(),
        &[1.0, 4.0, 9.0, 16.0, 25.0, 36.0]
    );
}

#[test]
fn matrix_is_framed_row_after_row() {
    let m = Matrix::from_vec(2, 3, vec![1, 2, 3, 4, 5, 6]).unwrap();
    assert_eq!(m.nrows(), 2);
    assert_eq!(m.ncols(), 3);
    assert_eq!(m.shape(), (2, 3));
    assert_eq!(m.len(), 6);
    assert_eq!(m.get(0, 0), Some(&1));
    assert_eq!(m.get(0, 2), Some(&3));
    assert_eq!(m.get(1, 0), Some(&4));
    assert_eq!(m.get(1, 2), Some(&6));
    assert_eq!(m.get(2, 0), None);
    assert_eq!(m.get(0, 3), None);
    assert!(Matrix::from_vec(2, 3, vec![1, 2, 3, 4, 5]).is_none());
    assert!(Matrix::from_row_slice(2, 2, &[1, 2, 3, 4, 5]).is_none());
    assert!(Matrix::from_vec(usize::MAX, 2, vec![1, 2]).is_none());
    assert!(Matrix::<u8>::from_vec(0, 5, vec![]).is_some());
}

#[test]
fn matrix_turns_over() {
    let m = Matrix::from_row_slice(2, 3, &[1, 2, 3, 4, 5, 6]).unwrap();
    let t = m.transpose();
    assert_eq!(t.shape(), (3, 2));
    assert_eq!(t.as_slice(), &[1, 4, 2, 5, 3, 6]);
    assert_eq!(t.transpose().as_slice(), m.as_slice());
    let empty = Matrix::<u8>::from_vec(0, 3, vec![]).unwrap().transpose();
    assert_eq!(empty.shape(), (3, 0));
}

#[test]
fn matrix_copies_and_changes() {
    let m = Matrix::filled(2, 2, 7u8).unwrap();
    assert_eq!(m.as_slice(), &[7, 7, 7, 7]);
    let copy = m.duplicate();
    let changed = m.with(1, 0, 9);
    assert_eq!(changed.as_slice(), &[7, 7, 9, 7]);
    assert_eq!(copy.as_slice(), &[7, 7, 7, 7]);
    let same = changed.with(2, 0, 1);
    assert_eq!(same.as_slice(), &[7, 7, 9, 7]);
    assert!(Matrix::filled(usize::MAX, 2, 0u8).is_none());
}

#[test]
fn passes_go_forwards_and_backwards() {
    let mut network = xor_network(12);
    let output = network.apply_forward_propagation(&row(&[1.0, 0.0])).unwrap();
    assert_eq!(output.shape(), (1, 1));
    let back = network.apply_back_propagation(&row(&[0.25]), 0.1).unwrap();
    assert_eq!(back.shape(), (1, 2));
    // every layer has used up what it kept
    let r = network.apply_back_propagation(&row(&[0.25]), 0.1);
    assert!(matches!(r, Err(Error::BackwardWithoutForward)));
}

#[test]
fn backward_pass_stops_at_the_layer_that_fails() {
    let mut network = xor_network(12);
    let before = weights_of(&network, 0);
    network.apply_forward_propagation(&row(&[1.0, 0.0])).unwrap();
    let r = network.apply_back_propagation(&row(&[0.25, 0.5]), 0.1);
    assert!(matches!(r, Err(Error::DimensionMismatch)));
    assert_eq!(before, weights_of(&network, 0));
    assert!(network.apply_back_propagation(&row(&[0.25]), 0.1).is_ok());
    assert_ne!(before, weights_of(&network, 0));
}

#[test]
fn training_on_one_sample_gives_its_loss() {
    let mut network = xor_network(12);
    let sample = row(&[1.0, 0.0]);
    let label = row(&[1.0]);
    let predicted = network.predict(&[sample.duplicate()]).unwrap();
    let expected = mse(&label, &predicted[0]);
    let before = weights_of(&network, 2);
    let loss = network.train_sample(&sample, &label, 0.1).unwrap();
    assert_eq!(loss, expected);
    assert_ne!(before, weights_of(&network, 2));
    let r = network.train_sample(&sample, &row(&[1.0, 2.0]), 0.1);
    assert!(matches!(r, Err(Error::DimensionMismatch)));
}

#[test]
fn epoch_error_is_the_mean_of_the_losses() {
    let (samples, labels) = xor_samples();
    let mut by_samples = xor_network(12);
    let mut at_once = xor_network(12);
    let mut losses = Vec::new();
    for (sample, label) in samples.iter().zip(labels.iter()) {
        losses.push(by_samples.train_sample(sample, label, 0.1).unwrap());
    }
    let errors = at_once.fit(&samples, &labels, 1, 0.1).unwrap();
    assert_eq!(errors, vec![Dense.mean(&losses)]);
    assert_eq!(weights_of(&by_samples, 0), weights_of(&at_once, 0));
}

#[test]
fn layer_says_what_shape_it_gives() {
    let mut stream = Stream(9);
    let dense = affine(&mut stream, 4, 2);
    assert_eq!(dense.shape_for(1, 4), Some((1, 2)));
    assert_eq!(dense.shape_for(1, 2), None);
    assert_eq!(dense.shape_for(2, 4), None);
    assert_eq!(activation().shape_for(3, 7), Some((3, 7)));
    let network = xor_network(1);
    assert_eq!(network.output_shape(1, 2), Some((1, 1)));
    assert_eq!(network.output_shape(1, 3), None);
}

#[test]
fn loss_derivative_matches_finite_differences() {
    let label = row(&[0.0, 1.0, 0.5, -1.0]);
    let prediction = [0.3f32, 0.8, -0.2, 0.4];
    let gradient = mse_prime(&label, &row(&prediction));
    let base = mse(&label, &row(&prediction));
    let step = 1e-2f32;
    for k in 0..4 {
        let mut moved = prediction;
        moved[k] += step;
        let estimate = (mse(&label, &row(&moved)) - base) / step;
        assert!(close(gradient.as_slice()[k], estimate, 1e-2));
    }
    // mean((y - p)^2) and 2 (p - y) / n on numbers that are exact
    assert_eq!(mse(&row(&[1.0, 0.0]), &row(&[0.0, 2.0])), 2.5);
    assert_eq!(mse_prime(&row(&[1.0, 0.0]), &row(&[0.0, 2.0])).as_slice(), &[-1.0, 2.0]);
}

use mlrust::error::NetworkError;
use mlrust::matrix::Matrix;
use mlrust::neural_network::{NeuralNetwork, NeuralNetworkLayer};
use mlrust::scalar::Scalar;
use rand::Rng;

#[derive(Clone, Copy, Debug, PartialEq)]
struct Float(f32);

impl Scalar for Float {
    fn zero() -> Self {
        Float(0.0)
    }

    fn one() -> Self {
        Float(1.0)
    }

    fn plus(self, rhs: Self) -> Self {
        Float(self.0 + rhs.0)
    }

    fn minus(self, rhs: Self) -> Self {
        Float(self.0 - rhs.0)
    }

    fn times(self, rhs: Self) -> Self {
        Float(self.0 * rhs.0)
    }

    fn reciprocal(count: usize) -> Self {
        Float(1.0 / count as f32)
    }

    fn sigmoid(self) -> Self {
        Float(sigmoid(self.0))
    }

    fn sigmoid_prime(self) -> Self {
        Float(sigmoid(self.0) * (1.0 - sigmoid(self.0)))
    }

    fn uniform(lower: Self, upper: Self) -> Self {
        Float(rand::thread_rng().gen_range(lower.0..=upper.0))
    }
}

fn sigmoid(x: f32) -> f32 {
    1.0 / (1.0 + (-x).exp())
}

fn sigmoid_prime(x: f32) -> f32 {
    sigmoid(x) * (1.0 - sigmoid(x))
}

fn grid(rows: &[&[f32]]) -> Matrix<Float> {
    Matrix::from_rows(rows.iter().map(|r| r.iter().map(|v| Float(*v)).collect()).collect())
        .unwrap()
}

fn column(values: &[f32]) -> Matrix<Float> {
    Matrix::from_rows(values.iter().map(|v| vec![Float(*v)]).collect()).unwrap()
}

fn cells(m: &Matrix<Float>) -> Vec<Vec<f32>> {
    (0..m.rows()).map(|i| (0..m.cols()).map(|j| m.get(i, j).0).collect()).collect()
}

fn close(a: f32, b: f32) -> bool {
    (a - b).abs() < 1e-6
}

fn all_close(m: &Matrix<Float>, expected: &[&[f32]]) -> bool {
    let got = cells(m);
    got.len() == expected.len()
        && got.iter().zip(expected.iter()).all(|(g, e)| {
            g.len() == e.len() && g.iter().zip(e.iter()).all(|(a, b)| close(*a, *b))
        })
}

fn shapes(net: &NeuralNetwork<Float>) -> Vec<((usize, usize), (usize, usize))> {
    net.layers()
        .iter()
        .map(|l| ((l.weights().rows(), l.weights().cols()), (l.biases().rows(), l.biases().cols())))
        .collect()
}

fn weights_of(net: &NeuralNetwork<Float>) -> Vec<(Vec<Vec<f32>>, Vec<Vec<f32>>)> {
    net.layers().iter().map(|l| (cells(l.weights()), cells(l.biases()))).collect()
}

#[test]
fn layer_starts_with_zero_weights_and_biases_of_one() {
    let layer: NeuralNetworkLayer<Float> = NeuralNetworkLayer::new(3, 2);
    assert_eq!(cells(layer.weights()), vec![vec![0.0, 0.0, 0.0], vec![0.0, 0.0, 0.0]]);
    assert_eq!(cells(layer.biases()), vec![vec![1.0], vec![1.0]]);
}

#[test]
fn layer_hands_out_its_matrices_for_change() {
    let mut layer: NeuralNetworkLayer<Float> = NeuralNetworkLayer::new(2, 1);
    layer.weights_mut().set(0, 1, Float(0.5));
    layer.biases_mut().set(0, 0, Float(-1.0));
    assert_eq!(cells(layer.weights()), vec![vec![0.0, 0.5]]);
    assert_eq!(cells(layer.biases()), vec![vec![-1.0]]);
}

#[test]
fn network_without_hidden_layers_has_one_layer() {
    let net: NeuralNetwork<Float> = NeuralNetwork::new(3, 2, vec![]);
    assert_eq!(shapes(&net), vec![((2, 3), (2, 1))]);
}

#[test]
fn network_with_two_hidden_layers_has_three_layers() {
    let net: NeuralNetwork<Float> = NeuralNetwork::new(4, 2, vec![5, 3]);
    assert_eq!(shapes(&net), vec![((5, 4), (5, 1)), ((3, 5), (3, 1)), ((2, 3), (2, 1))]);
}

#[test]
fn new_network_holds_draws_from_the_unit_interval() {
    let net: NeuralNetwork<Float> = NeuralNetwork::new(6, 4, vec![5]);
    let mut some_weight_moved = false;
    for (weights, biases) in weights_of(&net) {
        for v in weights.iter().flatten() {
            assert!(*v >= 0.0 && *v <= 1.0);
            some_weight_moved = some_weight_moved || *v != 0.0;
        }
        for v in biases.iter().flatten() {
            assert!(*v >= 0.0 && *v <= 1.0);
        }
    }
    assert!(some_weight_moved);
}

#[test]
fn new_network_is_ready_to_feed_forward() {
    let net: NeuralNetwork<Float> = NeuralNetwork::new(3, 2, vec![4]);
    let out = net.feed_forward(&column(&[0.1, 0.2, 0.3])).unwrap();
    assert_eq!(out.rows(), 2);
    assert_eq!(out.cols(), 1);
    for v in cells(&out).iter().flatten() {
        assert!(*v > 0.0 && *v < 1.0);
    }
}

#[test]
fn randomize_keeps_the_shapes() {
    let mut net =
        NeuralNetwork::from(vec![grid(&[&[5.0, 5.0], &[5.0, 5.0]])], vec![column(&[5.0, 5.0])])
            .unwrap();
    NeuralNetwork::randomize_weights_and_biases(&mut net);
    assert_eq!(shapes(&net), vec![((2, 2), (2, 1))]);
    for (weights, biases) in weights_of(&net) {
        for v in weights.iter().flatten().chain(biases.iter().flatten()) {
            assert!(*v >= 0.0 && *v <= 1.0);
        }
    }
}

#[test]
fn from_keeps_the_given_weights_and_biases() {
    let net = NeuralNetwork::from(
        vec![grid(&[&[1.0, 2.0], &[3.0, 4.0], &[5.0, 6.0]]), grid(&[&[7.0, 8.0, 9.0]])],
        vec![column(&[0.1, 0.2, 0.3]), column(&[0.4])],
    )
    .unwrap();
    assert_eq!(
        weights_of(&net),
        vec![
            (
                vec![vec![1.0, 2.0], vec![3.0, 4.0], vec![5.0, 6.0]],
                vec![vec![0.1], vec![0.2], vec![0.3]]
            ),
            (vec![vec![7.0, 8.0, 9.0]], vec![vec![0.4]]),
        ]
    );
}

#[test]
fn from_takes_its_output_size_from_the_rows_of_the_last_layer() {
    let net =
        NeuralNetwork::from(vec![grid(&[&[1.0, 2.0, 3.0]])], vec![column(&[0.0])]).unwrap();
    assert!(net.feed_forward(&column(&[1.0, 1.0, 1.0])).is_ok());
    assert!(net.back_propagate(&column(&[1.0, 1.0, 1.0]), &column(&[1.0])).is_ok());
    assert_eq!(
        net.back_propagate(&column(&[1.0, 1.0, 1.0]), &column(&[1.0, 1.0, 1.0])).err(),
        Some(NetworkError::DimensionMismatch)
    );
}

#[test]
fn from_refuses_sequences_of_different_length() {
    let r = NeuralNetwork::from(vec![grid(&[&[1.0]]), grid(&[&[1.0]])], vec![column(&[0.0])]);
    assert_eq!(r.err(), Some(NetworkError::InvalidConstruction));
}

#[test]
fn from_refuses_no_layers() {
    let r: Result<NeuralNetwork<Float>, NetworkError> = NeuralNetwork::from(vec![], vec![]);
    assert_eq!(r.err(), Some(NetworkError::InvalidConstruction));
}

#[test]
fn from_refuses_layers_that_do_not_chain() {
    let r = NeuralNetwork::from(
        vec![grid(&[&[1.0, 2.0], &[3.0, 4.0]]), grid(&[&[1.0, 2.0, 3.0]])],
        vec![column(&[0.0, 0.0]), column(&[0.0])],
    );
    assert_eq!(r.err(), Some(NetworkError::DimensionMismatch));
}

#[test]
fn from_refuses_biases_that_do_not_fit_the_weights() {
    let r = NeuralNetwork::from(vec![grid(&[&[1.0, 2.0], &[3.0, 4.0]])], vec![column(&[0.0])]);
    assert_eq!(r.err(), Some(NetworkError::DimensionMismatch));
    let wide = NeuralNetwork::from(vec![grid(&[&[1.0, 2.0]])], vec![grid(&[&[0.0, 0.0]])]);
    assert_eq!(wide.err(), Some(NetworkError::DimensionMismatch));
}

#[test]
fn single_unit_weight_feeds_sigmoid_of_two() {
    let net = NeuralNetwork::from(vec![grid(&[&[1.0]])], vec![grid(&[&[0.0]])]).unwrap();
    let out = net.feed_forward(&grid(&[&[2.0]])).unwrap();
    assert_eq!(out.rows(), 1);
    assert_eq!(out.cols(), 1);
    assert!((out.get(0, 0).0 - 0.8808).abs() < 1e-4);
    assert!(close(out.get(0, 0).0, sigmoid(2.0)));
}

#[test]
fn zero_weights_feed_sigmoid_of_the_bias_whatever_the_input() {
    let b = 0.3;
    let net = NeuralNetwork::from(
        vec![grid(&[&[0.0, 0.0], &[0.0, 0.0], &[0.0, 0.0]]), grid(&[&[0.0, 0.0, 0.0], &[0.0, 0.0, 0.0]])],
        vec![column(&[b, b, b]), column(&[b, b])],
    )
    .unwrap();
    for input in [[0.0, 0.0], [1.0, -1.0], [123.5, 0.001], [-7.0, 42.0]] {
        let out = net.feed_forward(&column(&input)).unwrap();
        assert_eq!(cells(&out), vec![vec![sigmoid(b)], vec![sigmoid(b)]]);
    }
}

#[test]
fn feed_forward_goes_through_the_layers_in_order() {
    let net = NeuralNetwork::from(
        vec![grid(&[&[0.5, -1.0], &[2.0, 0.25]]), grid(&[&[1.0, -2.0]])],
        vec![column(&[0.1, -0.2]), column(&[0.3])],
    )
    .unwrap();
    let out = net.feed_forward(&column(&[1.0, 2.0])).unwrap();
    let h0 = sigmoid(0.5 * 1.0 + -1.0 * 2.0 + 0.1);
    let h1 = sigmoid(2.0 * 1.0 + 0.25 * 2.0 + -0.2);
    let y = sigmoid(1.0 * h0 + -2.0 * h1 + 0.3);
    assert!(all_close(&out, &[&[y]]));
}

#[test]
fn feed_forward_leaves_the_network_alone() {
    let net = NeuralNetwork::from(vec![grid(&[&[0.5, -1.0]])], vec![column(&[0.1])]).unwrap();
    let before = weights_of(&net);
    let first = net.feed_forward(&column(&[1.0, 2.0])).unwrap();
    let second = net.feed_forward(&column(&[1.0, 2.0])).unwrap();
    assert_eq!(cells(&first), cells(&second));
    assert_eq!(weights_of(&net), before);
}

#[test]
fn feed_forward_refuses_an_input_of_another_size() {
    let net = NeuralNetwork::from(vec![grid(&[&[0.5, -1.0]])], vec![column(&[0.1])]).unwrap();
    assert_eq!(
        net.feed_forward(&column(&[1.0, 2.0, 3.0])).err(),
        Some(NetworkError::DimensionMismatch)
    );
    assert_eq!(net.feed_forward(&column(&[1.0])).err(), Some(NetworkError::DimensionMismatch));
    assert_eq!(
        net.feed_forward(&grid(&[&[1.0, 2.0], &[3.0, 4.0]])).err(),
        Some(NetworkError::DimensionMismatch)
    );
}

#[test]
fn single_layer_gradient_has_the_closed_form() {
    let net = NeuralNetwork::from(vec![grid(&[&[0.5, -0.3]])], vec![column(&[0.1])]).unwrap();
    let (wa, ba) = net.back_propagate(&column(&[1.0, 2.0]), &column(&[1.0])).unwrap();
    assert_eq!(wa.len(), 1);
    assert_eq!(ba.len(), 1);
    let z = 0.5 * 1.0 + -0.3 * 2.0 + 0.1;
    let delta = (1.0 - sigmoid(z)) * sigmoid_prime(z);
    assert!(all_close(&wa[0], &[&[delta * 1.0, delta * 2.0]]));
    assert!(all_close(&ba[0], &[&[delta]]));
    assert!(close(delta, 0.125));
}

#[test]
fn single_layer_gradient_with_two_neurons() {
    let net = NeuralNetwork::from(
        vec![grid(&[&[1.0, 0.0], &[0.0, -1.0]])],
        vec![column(&[0.0, 0.5])],
    )
    .unwrap();
    let (wa, ba) = net.back_propagate(&column(&[2.0, 3.0]), &column(&[1.0, 0.0])).unwrap();
    let z0 = 2.0;
    let z1 = -3.0 + 0.5;
    let d0 = (1.0 - sigmoid(z0)) * sigmoid_prime(z0);
    let d1 = (0.0 - sigmoid(z1)) * sigmoid_prime(z1);
    assert!(all_close(&wa[0], &[&[d0 * 2.0, d0 * 3.0], &[d1 * 2.0, d1 * 3.0]]));
    assert!(all_close(&ba[0], &[&[d0], &[d1]]));
}

#[test]
fn gradients_come_in_the_order_of_the_layers() {
    let net = NeuralNetwork::from(
        vec![grid(&[&[0.5, -1.0], &[2.0, 0.25], &[1.0, 1.0]]), grid(&[&[1.0, -2.0, 0.5]])],
        vec![column(&[0.1, -0.2, 0.0]), column(&[0.3])],
    )
    .unwrap();
    let (wa, ba) = net.back_propagate(&column(&[1.0, 2.0]), &column(&[1.0])).unwrap();
    assert_eq!(wa.len(), 2);
    assert_eq!(ba.len(), 2);
    assert_eq!((wa[0].rows(), wa[0].cols()), (3, 2));
    assert_eq!((ba[0].rows(), ba[0].cols()), (3, 1));
    assert_eq!((wa[1].rows(), wa[1].cols()), (1, 3));
    assert_eq!((ba[1].rows(), ba[1].cols()), (1, 1));
}

#[test]
fn hidden_layer_gets_the_error_through_the_transposed_weights() {
    let (w1, b1, w2, b2, x, e) = (0.5f32, 0.1f32, -2.0f32, 0.3f32, 1.5f32, 1.0f32);
    let net = NeuralNetwork::from(
        vec![grid(&[&[w1]]), grid(&[&[w2]])],
        vec![grid(&[&[b1]]), grid(&[&[b2]])],
    )
    .unwrap();
    let (wa, ba) = net.back_propagate(&grid(&[&[x]]), &grid(&[&[e]])).unwrap();
    let z1 = w1 * x + b1;
    let a1 = sigmoid(z1);
    let z2 = w2 * a1 + b2;
    let a2 = sigmoid(z2);
    let delta2 = (e - a2) * sigmoid_prime(z2);
    let delta1 = (w2 * delta2) * sigmoid_prime(z1);
    assert!(all_close(&ba[1], &[&[delta2]]));
    assert!(all_close(&wa[1], &[&[delta2 * a1]]));
    assert!(all_close(&ba[0], &[&[delta1]]));
    assert!(all_close(&wa[0], &[&[delta1 * x]]));
    assert!(delta1 != 0.0 && delta2 != 0.0);
}

#[test]
fn back_propagate_leaves_the_network_alone() {
    let net = NeuralNetwork::from(vec![grid(&[&[0.5, -0.3]])], vec![column(&[0.1])]).unwrap();
    let before = weights_of(&net);
    net.back_propagate(&column(&[1.0, 2.0]), &column(&[1.0])).unwrap();
    assert_eq!(weights_of(&net), before);
}

#[test]
fn back_propagate_refuses_examples_that_do_not_fit() {
    let net = NeuralNetwork::from(vec![grid(&[&[0.5, -0.3]])], vec![column(&[0.1])]).unwrap();
    assert_eq!(
        net.back_propagate(&column(&[1.0]), &column(&[1.0])).err(),
        Some(NetworkError::DimensionMismatch)
    );
    assert_eq!(
        net.back_propagate(&column(&[1.0, 2.0]), &column(&[1.0, 0.0])).err(),
        Some(NetworkError::DimensionMismatch)
    );
    assert_eq!(
        net.back_propagate(&column(&[1.0, 2.0]), &grid(&[&[1.0, 0.0]])).err(),
        Some(NetworkError::DimensionMismatch)
    );
}

#[test]
fn train_takes_the_adjustment_of_one_example_from_the_weights() {
    let mut net = NeuralNetwork::from(vec![grid(&[&[1.0]])], vec![grid(&[&[0.0]])]).unwrap();
    net.train(&vec![grid(&[&[2.0]])], &vec![grid(&[&[1.0]])]).unwrap();
    let delta = (1.0 - sigmoid(2.0)) * sigmoid_prime(2.0);
    let after = weights_of(&net);
    assert!(close(after[0].0[0][0], 1.0 - delta * 2.0));
    assert!(close(after[0].1[0][0], 0.0 - delta));
    assert!(after[0].0[0][0] < 1.0);
}

#[test]
fn train_averages_the_adjustments_of_a_batch() {
    let mut net = NeuralNetwork::from(vec![grid(&[&[0.5, -0.3]])], vec![column(&[0.1])]).unwrap();
    let inputs = vec![column(&[1.0, 2.0]), column(&[-1.0, 0.5])];
    let expected = vec![column(&[1.0]), column(&[0.0])];
    let (wa0, ba0) = net.back_propagate(&inputs[0], &expected[0]).unwrap();
    let (wa1, ba1) = net.back_propagate(&inputs[1], &expected[1]).unwrap();
    net.train(&inputs, &expected).unwrap();
    let after = weights_of(&net);
    for j in 0..2 {
        let sum = (0.0 + wa0[0].get(0, j).0) + wa1[0].get(0, j).0;
        let before = [0.5f32, -0.3f32][j];
        assert_eq!(after[0].0[0][j], before - 0.5 * sum);
    }
    let sum = (0.0 + ba0[0].get(0, 0).0) + ba1[0].get(0, 0).0;
    assert_eq!(after[0].1[0][0], 0.1 - 0.5 * sum);
}

#[test]
fn train_updates_every_layer() {
    let mut net = NeuralNetwork::from(
        vec![grid(&[&[0.5, -1.0], &[2.0, 0.25]]), grid(&[&[1.0, -2.0]])],
        vec![column(&[0.1, -0.2]), column(&[0.3])],
    )
    .unwrap();
    let before = weights_of(&net);
    let input = column(&[1.0, 2.0]);
    let expected = column(&[1.0]);
    let (wa, ba) = net.back_propagate(&input, &expected).unwrap();
    net.train(&vec![input], &vec![expected]).unwrap();
    let after = weights_of(&net);
    assert_eq!(shapes(&net), vec![((2, 2), (2, 1)), ((1, 2), (1, 1))]);
    for l in 0..2 {
        for i in 0..wa[l].rows() {
            for j in 0..wa[l].cols() {
                assert_eq!(after[l].0[i][j], before[l].0[i][j] - 1.0 * (0.0 + wa[l].get(i, j).0));
            }
            assert_eq!(after[l].1[i][0], before[l].1[i][0] - 1.0 * (0.0 + ba[l].get(i, 0).0));
        }
        assert_ne!(after[l], before[l]);
    }
}

#[test]
fn train_refuses_sequences_of_different_length_and_changes_nothing() {
    let mut net = NeuralNetwork::from(vec![grid(&[&[0.5, -0.3]])], vec![column(&[0.1])]).unwrap();
    let before = weights_of(&net);
    let r = net.train(&vec![column(&[1.0, 2.0]), column(&[0.0, 1.0])], &vec![column(&[1.0])]);
    assert_eq!(r, Err(NetworkError::LengthMismatch));
    assert_eq!(weights_of(&net), before);
    let r = net.train(&vec![], &vec![column(&[1.0])]);
    assert_eq!(r, Err(NetworkError::LengthMismatch));
    assert_eq!(weights_of(&net), before);
}

#[test]
fn train_refuses_an_example_that_does_not_fit_and_changes_nothing() {
    let mut net = NeuralNetwork::from(vec![grid(&[&[0.5, -0.3]])], vec![column(&[0.1])]).unwrap();
    let before = weights_of(&net);
    let r = net.train(
        &vec![column(&[1.0, 2.0]), column(&[1.0, 2.0, 3.0])],
        &vec![column(&[1.0]), column(&[1.0])],
    );
    assert_eq!(r, Err(NetworkError::DimensionMismatch));
    assert_eq!(weights_of(&net), before);
    let r = net.train(&vec![column(&[1.0, 2.0])], &vec![column(&[1.0, 0.0])]);
    assert_eq!(r, Err(NetworkError::DimensionMismatch));
    assert_eq!(weights_of(&net), before);
}

#[test]
fn train_reports_the_length_before_the_shapes() {
    let mut net = NeuralNetwork::from(vec![grid(&[&[0.5, -0.3]])], vec![column(&[0.1])]).unwrap();
    let r = net.train(&vec![column(&[1.0])], &vec![]);
    assert_eq!(r, Err(NetworkError::LengthMismatch));
}

#[test]
fn train_keeps_the_network_usable() {
    let mut net: NeuralNetwork<Float> = NeuralNetwork::new(2, 1, vec![3]);
    let inputs = vec![column(&[0.0, 1.0]), column(&[1.0, 0.0])];
    let expected = vec![column(&[1.0]), column(&[0.0])];
    for _ in 0..5 {
        net.train(&inputs, &expected).unwrap();
    }
    assert_eq!(shapes(&net), vec![((3, 2), (3, 1)), ((1, 3), (1, 1))]);
    let out = net.feed_forward(&inputs[0]).unwrap();
    assert!(out.get(0, 0).0 > 0.0 && out.get(0, 0).0 < 1.0);
}

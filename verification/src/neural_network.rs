use vstd::prelude::*;
use crate::array_utils;
use crate::error::NetworkError;
use crate::matrix::{Grid, Matrix};
use crate::scalar::Scalar;
use crate::scalar::{is_dot, is_one, is_product, is_reciprocal, is_sigmoid, is_sum, is_zero};

verus! {

/// The mathematical value of a layer.
pub struct LayerView<T> {
    pub weights: Grid<T>,
    pub biases: Grid<T>,
}

impl<T> LayerView<T> {
    /// How many values the layer takes.
    pub open spec fn inputs(self) -> nat {
        self.weights.width
    }

    /// How many values the layer gives.
    pub open spec fn neurons(self) -> nat {
        self.weights.height()
    }

    /// One row of weights and one bias for each neuron.
    pub open spec fn wf(self) -> bool {
        self.weights.wf() && self.biases.has_shape(self.weights.height(), 1)
    }

    /// Weights and biases have the shapes of `other`'s.
    pub open spec fn same_shape(self, other: LayerView<T>) -> bool {
        self.weights.same_shape(other.weights) && self.biases.same_shape(other.biases)
    }
}

/// The mathematical value of a network.
pub struct NetworkView<T> {
    pub input_neurons: nat,
    pub output_neurons: nat,
    pub hidden_layer_sizes: Seq<nat>,
    pub layers: Seq<LayerView<T>>,
    pub learning_rate: T,
}

impl<T> NetworkView<T> {
    /// There is a layer, the first takes `input_neurons` values, each
    /// later one takes what the one before it gives, and the last gives
    /// `output_neurons` values.
    pub open spec fn wf(self) -> bool {
        &&& self.layers.len() >= 1
        &&& forall|i: int| 0 <= i < self.layers.len() ==> #[trigger] self.layer_fits(i)
        &&& self.fan_in(self.layers.len() as int) == self.output_neurons
    }

    /// Layer `i` is well formed and takes as many values as reach it.
    pub open spec fn layer_fits(self, i: int) -> bool {
        self.layers[i].wf() && self.layers[i].inputs() == self.fan_in(i)
    }

    /// How many values reach layer `k`: the network's inputs, or the
    /// neurons of the layer before.
    pub open spec fn fan_in(self, k: int) -> nat {
        if k <= 0 {
            self.input_neurons
        } else {
            self.layers[k - 1].neurons()
        }
    }

    /// The widths along the network: inputs, hidden layers, outputs.
    pub open spec fn widths(self) -> Seq<nat> {
        seq![self.input_neurons] + self.hidden_layer_sizes + seq![self.output_neurons]
    }

    /// Layer `i` leads from width `i` to width `i + 1` of `widths`.
    pub open spec fn follows_widths(self) -> bool {
        &&& self.layers.len() == self.hidden_layer_sizes.len() + 1
        &&& forall|i: int|
            0 <= i < self.layers.len() ==> {
                &&& (#[trigger] self.layers[i]).weights.has_shape(self.widths()[i + 1], self.widths()[i])
                &&& self.layers[i].biases.has_shape(self.widths()[i + 1], 1)
            }
    }

    /// Same sizes, same layer shapes, same learning rate.
    pub open spec fn same_shape(self, other: NetworkView<T>) -> bool {
        &&& self.input_neurons == other.input_neurons
        &&& self.output_neurons == other.output_neurons
        &&& self.hidden_layer_sizes == other.hidden_layer_sizes
        &&& self.learning_rate == other.learning_rate
        &&& self.layers.len() == other.layers.len()
        &&& forall|i: int| 0 <= i < self.layers.len() ==> (#[trigger] self.layers[i]).same_shape(other.layers[i])
    }
}

/// `lower` and `upper` are outcomes of zero and one.
pub open spec fn is_unit_interval<T: Scalar>(lower: T, upper: T) -> bool {
    is_zero(lower) && is_one(upper)
}

impl<T: Scalar> LayerView<T> {
    /// Every weight is an outcome of zero, every bias an outcome of one.
    pub open spec fn is_blank(self) -> bool {
        self.weights.is_zeros() && self.biases.is_ones()
    }

    /// `z` is an outcome of `weights · x + biases`.
    pub open spec fn is_affine(self, x: Grid<T>, z: Grid<T>) -> bool {
        exists|p: Grid<T>| #[trigger] p.is_product_of(self.weights, x) && z.is_sum_of(p, self.biases)
    }

    /// `z` is an outcome of `weights · x + biases`, and `a` of the sigmoid
    /// of `z`.
    pub open spec fn fires(self, x: Grid<T>, z: Grid<T>, a: Grid<T>) -> bool {
        self.is_affine(x, z) && a.is_sigmoid_of(z)
    }
}

/// `out` is an outcome of sending `x` through `layers`, first to last.
pub open spec fn feeds<T: Scalar>(layers: Seq<LayerView<T>>, x: Grid<T>, out: Grid<T>) -> bool
    decreases layers.len(),
{
    if layers.len() == 0 {
        out == x
    } else {
        exists|mid: Grid<T>, z: Grid<T>|
            feeds(layers.drop_last(), x, mid) && #[trigger] layers.last().fires(mid, z, out)
    }
}

impl<T: Scalar> NetworkView<T> {
    /// Every weight and bias is an outcome of a draw from `[0, 1]`.
    pub open spec fn is_randomized(self) -> bool {
        exists|lower: T, upper: T| #[trigger]
            is_unit_interval(lower, upper) && forall|i: int|
                0 <= i < self.layers.len() ==> {
                    &&& (#[trigger] self.layers[i]).weights.is_uniform_in(lower, upper)
                    &&& self.layers[i].biases.is_uniform_in(lower, upper)
                }
    }
}

/// The layers made of `weights` and `biases`, pair by pair.
pub open spec fn paired<T>(weights: Seq<Grid<T>>, biases: Seq<Grid<T>>) -> Seq<LayerView<T>> {
    Seq::new(weights.len(), |i: int| LayerView { weights: weights[i], biases: biases[i] })
}

/// Pair `k` makes a layer that fits the one before it: one bias for each
/// row of weights, and as many columns of weights as the layer before
/// has rows.
pub open spec fn links<T>(weights: Seq<Grid<T>>, biases: Seq<Grid<T>>, k: int) -> bool {
    &&& biases[k].height() == weights[k].height()
    &&& biases[k].width == 1
    &&& k > 0 ==> weights[k].width == weights[k - 1].height()
}

/// The pairs of `weights` and `biases` chain into layers.
pub open spec fn chains<T>(weights: Seq<Grid<T>>, biases: Seq<Grid<T>>) -> bool {
    forall|k: int| 0 <= k < weights.len() ==> links(weights, biases, k)
}

impl<T: Scalar> LayerView<T> {
    /// One layer's way down in back-propagation. Given its input `x`, its
    /// pre-activation `z` and the error signal `above`, the layer gives
    ///  - `delta`, an outcome of the elementwise product of `above` and
    ///    the sigmoid's derivative at `z`, which is its bias adjustment,
    ///  - `adjustment`, an outcome of the product of `delta` and the
    ///    transpose of `x`, which is its weight adjustment, and
    ///  - `below`, an outcome of the product of the transposed weights and
    ///    `delta`, the error signal for the layer before it.
    pub open spec fn slopes(
        self,
        x: Grid<T>,
        z: Grid<T>,
        above: Grid<T>,
        adjustment: Grid<T>,
        delta: Grid<T>,
        below: Grid<T>,
    ) -> bool {
        exists|slope: Grid<T>|
            {
                &&& #[trigger] slope.is_sigmoid_prime_of(z)
                &&& delta.is_hadamard_of(above, slope)
                &&& adjustment.is_product_of(delta, x.transposed())
                &&& below.is_product_of(self.weights.transposed(), delta)
            }
    }

    /// One layer's share of back-propagation: up from `x` to `z` and `a`,
    /// and down from `above` to `adjustment`, `delta` and `below`.
    pub open spec fn descends(
        self,
        x: Grid<T>,
        z: Grid<T>,
        a: Grid<T>,
        above: Grid<T>,
        adjustment: Grid<T>,
        delta: Grid<T>,
        below: Grid<T>,
    ) -> bool {
        self.fires(x, z, a) && self.slopes(x, z, above, adjustment, delta, below)
    }
}

/// Back-propagation through the layers from `k` on, for input `x` to
/// layer `k`: `weight_adjustments` and `bias_adjustments` hold the
/// adjustments of layers `k`, `k + 1`, ... in that order, and `error` is
/// the signal for the layer before `k`. Past the last layer the signal is
/// `expected - x`.
pub open spec fn back_propagates<T: Scalar>(
    layers: Seq<LayerView<T>>,
    k: int,
    x: Grid<T>,
    expected: Grid<T>,
    weight_adjustments: Seq<Grid<T>>,
    bias_adjustments: Seq<Grid<T>>,
    error: Grid<T>,
) -> bool
    decreases layers.len() - k,
{
    if k >= layers.len() {
        &&& weight_adjustments.len() == 0
        &&& bias_adjustments.len() == 0
        &&& error.is_difference_of(expected, x)
    } else {
        &&& weight_adjustments.len() == layers.len() - k
        &&& bias_adjustments.len() == layers.len() - k
        &&& exists|z: Grid<T>, a: Grid<T>, above: Grid<T>|
            {
                &&& #[trigger] layers[k].descends(
                    x,
                    z,
                    a,
                    above,
                    weight_adjustments[0],
                    bias_adjustments[0],
                    error,
                )
                &&& back_propagates(
                    layers,
                    k + 1,
                    a,
                    expected,
                    weight_adjustments.drop_first(),
                    bias_adjustments.drop_first(),
                    above,
                )
            }
    }
}

impl<T: Scalar> NetworkView<T> {
    /// `weight_adjustments` and `bias_adjustments` are an outcome of
    /// back-propagation for one example: one pair for each layer, in the
    /// order of the layers.
    pub open spec fn is_gradient(
        self,
        input: Grid<T>,
        expected: Grid<T>,
        weight_adjustments: Seq<Grid<T>>,
        bias_adjustments: Seq<Grid<T>>,
    ) -> bool {
        exists|error: Grid<T>|
            back_propagates(
                self.layers,
                0,
                input,
                expected,
                weight_adjustments,
                bias_adjustments,
                error,
            )
    }

    /// Each of `weight_adjustments` has the shape of its layer's weights,
    /// each of `bias_adjustments` that of its layer's biases.
    pub open spec fn shapes_match(
        self,
        weight_adjustments: Seq<Grid<T>>,
        bias_adjustments: Seq<Grid<T>>,
    ) -> bool {
        &&& weight_adjustments.len() == self.layers.len()
        &&& bias_adjustments.len() == self.layers.len()
        &&& forall|i: int|
            0 <= i < self.layers.len() ==> {
                &&& (#[trigger] weight_adjustments[i]).wf()
                &&& weight_adjustments[i].same_shape(self.layers[i].weights)
            }
        &&& forall|i: int|
            0 <= i < self.layers.len() ==> {
                &&& (#[trigger] bias_adjustments[i]).wf()
                &&& bias_adjustments[i].same_shape(self.layers[i].biases)
            }
    }
}

/// Each of `acc` is an outcome of the elementwise sum of its fellows in
/// `prev` and `adj`.
pub open spec fn adds_up<T: Scalar>(prev: Seq<Grid<T>>, adj: Seq<Grid<T>>, acc: Seq<Grid<T>>) -> bool {
    &&& prev.len() == acc.len()
    &&& adj.len() == acc.len()
    &&& forall|i: int| 0 <= i < acc.len() ==> (#[trigger] acc[i]).is_sum_of(prev[i], adj[i])
}

/// `after` is an outcome of `before - (1 / count) * sum`.
pub open spec fn is_descent_step<T: Scalar>(
    after: Grid<T>,
    before: Grid<T>,
    sum: Grid<T>,
    count: usize,
) -> bool {
    exists|factor: T, scaled: Grid<T>|
        is_reciprocal(count, factor) && #[trigger] scaled.is_scaling_of(factor, sum)
            && after.is_difference_of(before, scaled)
}

impl<T: Scalar> NetworkView<T> {
    /// `weight_sums` and `bias_sums` have the shapes of the layers and hold
    /// outcomes of zero.
    pub open spec fn is_zeroed(self, weight_sums: Seq<Grid<T>>, bias_sums: Seq<Grid<T>>) -> bool {
        &&& self.shapes_match(weight_sums, bias_sums)
        &&& forall|i: int| 0 <= i < self.layers.len() ==> (#[trigger] weight_sums[i]).is_zeros()
        &&& forall|i: int| 0 <= i < self.layers.len() ==> (#[trigger] bias_sums[i]).is_zeros()
    }

    /// `weight_sums` and `bias_sums` are an outcome of adding up, from
    /// zero and in order, the adjustments that back-propagation gives for
    /// the first `n` examples.
    pub open spec fn accumulates(
        self,
        inputs: Seq<Grid<T>>,
        expected: Seq<Grid<T>>,
        n: int,
        weight_sums: Seq<Grid<T>>,
        bias_sums: Seq<Grid<T>>,
    ) -> bool
        decreases n,
    {
        if n <= 0 {
            self.is_zeroed(weight_sums, bias_sums)
        } else {
            exists|
                weights_before: Seq<Grid<T>>,
                biases_before: Seq<Grid<T>>,
                weight_adjustments: Seq<Grid<T>>,
                bias_adjustments: Seq<Grid<T>>,
            |
                {
                    &&& self.accumulates(inputs, expected, n - 1, weights_before, biases_before)
                    &&& self.is_gradient(
                        inputs[n - 1],
                        expected[n - 1],
                        weight_adjustments,
                        bias_adjustments,
                    )
                    &&& #[trigger] adds_up(weights_before, weight_adjustments, weight_sums)
                    &&& #[trigger] adds_up(biases_before, bias_adjustments, bias_sums)
                }
        }
    }

    /// `self` is an outcome of one descent step from `before`: every
    /// layer's weights and biases less `1 / count` times their sums.
    pub open spec fn is_update_of(
        self,
        before: NetworkView<T>,
        weight_sums: Seq<Grid<T>>,
        bias_sums: Seq<Grid<T>>,
        count: usize,
    ) -> bool {
        &&& self.same_shape(before)
        &&& forall|i: int|
            0 <= i < self.layers.len() ==> {
                &&& is_descent_step(
                    (#[trigger] self.layers[i]).weights,
                    before.layers[i].weights,
                    weight_sums[i],
                    count,
                )
                &&& is_descent_step(
                    self.layers[i].biases,
                    before.layers[i].biases,
                    bias_sums[i],
                    count,
                )
            }
    }

    /// Every input is a column of `input_neurons` values, every expected
    /// output a column of `output_neurons` values.
    pub open spec fn accepts(self, inputs: Seq<Grid<T>>, expected: Seq<Grid<T>>) -> bool {
        forall|i: int|
            0 <= i < inputs.len() ==> self.accepts_pair(#[trigger] inputs[i], expected[i])
    }

    /// `input` is a column of `input_neurons` values and `expected` a
    /// column of `output_neurons` values.
    pub open spec fn accepts_pair(self, input: Grid<T>, expected: Grid<T>) -> bool {
        input.has_shape(self.input_neurons, 1) && expected.has_shape(self.output_neurons, 1)
    }

    /// `self` is an outcome of training `before` on the batch: one descent
    /// step along the summed adjustments of all its examples.
    pub open spec fn is_trained(
        self,
        before: NetworkView<T>,
        inputs: Seq<Grid<T>>,
        expected: Seq<Grid<T>>,
    ) -> bool {
        exists|weight_sums: Seq<Grid<T>>, bias_sums: Seq<Grid<T>>|
            {
                &&& before.accumulates(
                    inputs,
                    expected,
                    inputs.len() as int,
                    weight_sums,
                    bias_sums,
                )
                &&& #[trigger] self.is_update_of(
                    before,
                    weight_sums,
                    bias_sums,
                    inputs.len() as usize,
                )
            }
    }
}

/// Adds to each of `sums` its fellow in `adjustments`.
fn add_each<T: Scalar>(sums: &mut Vec<Matrix<T>>, adjustments: &Vec<Matrix<T>>)
    requires
        old(sums)@.len() == adjustments@.len(),
        forall|k: int|
            0 <= k < adjustments@.len() ==> {
                &&& (#[trigger] old(sums)@[k])@.wf()
                &&& adjustments@[k]@.wf()
                &&& old(sums)@[k]@.same_shape(adjustments@[k]@)
            },
    ensures
        adds_up(grids(old(sums)@), grids(adjustments@), grids(final(sums)@)),
{
    let ghost before = sums@;
    let mut j: usize = 0;
    while j < adjustments.len()
        invariant
            j <= adjustments@.len(),
            before == old(sums)@,
            sums@.len() == adjustments@.len(),
            before.len() == adjustments@.len(),
            forall|k: int|
                0 <= k < adjustments@.len() ==> {
                    &&& (#[trigger] before[k])@.wf()
                    &&& adjustments@[k]@.wf()
                    &&& before[k]@.same_shape(adjustments@[k]@)
                },
            forall|k: int|
                0 <= k < j ==> (#[trigger] sums@[k])@.is_sum_of(before[k]@, adjustments@[k]@),
            forall|k: int| j <= k < adjustments@.len() ==> #[trigger] sums@[k] == before[k],
        decreases adjustments@.len() - j,
    {
        assert(before[j as int]@.wf());
        let sum = array_utils::add(&sums[j], &adjustments[j]).unwrap();
        sums.set(j, sum);
        j = j + 1;
    }
    assert forall|k: int| 0 <= k < grids(sums@).len() implies (#[trigger] grids(sums@)[k]).is_sum_of(
        grids(before)[k],
        grids(adjustments@)[k],
    ) by {
        assert(sums@[k]@.is_sum_of(before[k]@, adjustments@[k]@));
    }
}

/// One dense layer: a row of weights and a bias for each neuron.
pub struct NeuralNetworkLayer<T> {
    weights: Matrix<T>,
    biases: Matrix<T>,
}

impl<T> View for NeuralNetworkLayer<T> {
    type V = LayerView<T>;

    closed spec fn view(&self) -> LayerView<T> {
        LayerView { weights: self.weights@, biases: self.biases@ }
    }
}

/// The values of a sequence of layers.
pub open spec fn layer_views<T>(layers: Seq<NeuralNetworkLayer<T>>) -> Seq<LayerView<T>> {
    layers.map_values(|l: NeuralNetworkLayer<T>| l@)
}

/// The values of a sequence of matrices.
pub open spec fn grids<T>(ms: Seq<Matrix<T>>) -> Seq<Grid<T>> {
    ms.map_values(|m: Matrix<T>| m@)
}

impl<T: Scalar> NeuralNetworkLayer<T> {
    /// A layer of `neurons` neurons over `inputs` inputs, with zero weights
    /// and biases of one.
    pub fn new(inputs: usize, neurons: usize) -> (r: Self)
        ensures
            r@.wf(),
            r@.weights.has_shape(neurons as nat, inputs as nat),
            r@.biases.has_shape(neurons as nat, 1),
            r@.is_blank(),
    {
        let zero = T::zero();
        let one = T::one();
        NeuralNetworkLayer {
            weights: Matrix::filled(neurons, inputs, zero),
            biases: Matrix::filled(neurons, 1, one),
        }
    }

    /// The weights: one row for each neuron, one column for each input.
    pub fn weights(&self) -> (r: &Matrix<T>)
        ensures
            r@ == self@.weights,
    {
        &self.weights
    }

    /// The weights, to be changed in place.
    pub fn weights_mut(&mut self) -> (r: &mut Matrix<T>)
        ensures
            r@ == old(self)@.weights,
            final(self)@.weights == final(r)@,
            final(self)@.biases == old(self)@.biases,
    {
        &mut self.weights
    }

    /// The biases: a column with one entry for each neuron.
    pub fn biases(&self) -> (r: &Matrix<T>)
        ensures
            r@ == self@.biases,
    {
        &self.biases
    }

    /// The biases, to be changed in place.
    pub fn biases_mut(&mut self) -> (r: &mut Matrix<T>)
        ensures
            r@ == old(self)@.biases,
            final(self)@.biases == final(r)@,
            final(self)@.weights == old(self)@.weights,
    {
        &mut self.biases
    }
}

/// A feed-forward network of dense layers with sigmoid activation.
pub struct NeuralNetwork<T> {
    input_neurons: usize,
    output_neurons: usize,
    hidden_layer_sizes: Vec<usize>,
    layers: Vec<NeuralNetworkLayer<T>>,
    learning_rate: T,
}

impl<T> View for NeuralNetwork<T> {
    type V = NetworkView<T>;

    closed spec fn view(&self) -> NetworkView<T> {
        NetworkView {
            input_neurons: self.input_neurons as nat,
            output_neurons: self.output_neurons as nat,
            hidden_layer_sizes: sizes(self.hidden_layer_sizes@),
            layers: layer_views(self.layers@),
            learning_rate: self.learning_rate,
        }
    }
}

/// Layer sizes as natural numbers.
pub open spec fn sizes(hidden: Seq<usize>) -> Seq<nat> {
    hidden.map_values(|h: usize| h as nat)
}

/// A network whose layers lead along its widths is well formed.
pub proof fn lemma_follows_widths_wf<T>(net: NetworkView<T>)
    requires
        net.follows_widths(),
    ensures
        net.wf(),
{
    let n = net.layers.len() as int;
    assert forall|i: int| 0 <= i < n implies #[trigger] net.layer_fits(i) by {
        if i > 0 {
            assert(net.layers[i - 1].weights.has_shape(net.widths()[i], net.widths()[i - 1]));
        }
    }
    assert(net.layers[n - 1].weights.has_shape(net.widths()[n], net.widths()[n - 1]));
}

/// A network of well-formed layers that have the shapes of the layers
/// of a well-formed network is well formed.
pub proof fn lemma_same_shape_wf<T>(net: NetworkView<T>, other: NetworkView<T>)
    requires
        other.wf(),
        net.same_shape(other),
        forall|i: int| 0 <= i < net.layers.len() ==> (#[trigger] net.layers[i]).wf(),
    ensures
        net.wf(),
{
    let n = net.layers.len() as int;
    assert forall|i: int| 0 <= i < n implies #[trigger] net.layer_fits(i) by {
        assert(net.layers[i].same_shape(other.layers[i]));
        assert(other.layer_fits(i));
        if i > 0 {
            assert(net.layers[i - 1].same_shape(other.layers[i - 1]));
        }
    }
    assert(net.layers[n - 1].same_shape(other.layers[n - 1]));
}

impl<T: Scalar> NeuralNetwork<T> {
    /// A network with the given sizes whose weights and biases are drawn
    /// from `[0, 1]`. An empty `hidden_layer_sizes` joins the inputs to the
    /// outputs directly.
    pub fn new(input_neurons: usize, output_neurons: usize, hidden_layer_sizes: Vec<usize>) -> (r:
        Self)
        ensures
            r@.wf(),
            r@.input_neurons == input_neurons,
            r@.output_neurons == output_neurons,
            r@.hidden_layer_sizes == sizes(hidden_layer_sizes@),
            r@.follows_widths(),
            r@.is_randomized(),
            is_one(r@.learning_rate),
    {
        let mut instance = NeuralNetwork {
            input_neurons,
            output_neurons,
            hidden_layer_sizes,
            learning_rate: T::one(),
            layers: Vec::new(),
        };
        Self::init_network_layers(&mut instance);
        let ghost blank = instance@;
        Self::randomize_weights_and_biases(&mut instance);
        proof {
            assert forall|i: int| 0 <= i < instance@.layers.len() implies {
                &&& (#[trigger] instance@.layers[i]).weights.has_shape(
                    instance@.widths()[i + 1],
                    instance@.widths()[i],
                )
                &&& instance@.layers[i].biases.has_shape(instance@.widths()[i + 1], 1)
            } by {
                assert(instance@.layers[i].same_shape(blank.layers[i]));
                assert(instance@.layer_fits(i));
                assert(blank.layers[i].weights.has_shape(blank.widths()[i + 1], blank.widths()[i]));
            }
        }
        instance
    }

    /// Gives the network its layers, each with zero weights and biases of
    /// one.
    fn init_network_layers(instance: &mut NeuralNetwork<T>)
        requires
            old(instance).layers@.len() == 0,
        ensures
            final(instance)@.input_neurons == old(instance)@.input_neurons,
            final(instance)@.output_neurons == old(instance)@.output_neurons,
            final(instance)@.hidden_layer_sizes == old(instance)@.hidden_layer_sizes,
            final(instance)@.learning_rate == old(instance)@.learning_rate,
            final(instance)@.follows_widths(),
            final(instance)@.wf(),
            forall|i: int|
                0 <= i < final(instance)@.layers.len() ==> (#[trigger] final(instance)@.layers[i]).is_blank(),
    {
        let ghost widths = instance@.widths();
        let hidden: usize = instance.hidden_layer_sizes.len();
        let mut layer_inputs: usize = instance.input_neurons;
        let mut i: usize = 0;
        while i < hidden
            invariant
                i <= hidden,
                hidden == instance.hidden_layer_sizes@.len(),
                instance.input_neurons == old(instance).input_neurons,
                instance.output_neurons == old(instance).output_neurons,
                instance.hidden_layer_sizes == old(instance).hidden_layer_sizes,
                instance.learning_rate == old(instance).learning_rate,
                widths == instance@.widths(),
                instance.layers@.len() == i,
                layer_inputs == widths[i as int],
                forall|k: int|
                    0 <= k < i ==> {
                        &&& (#[trigger] instance.layers@[k])@.weights.has_shape(widths[k + 1], widths[k])
                        &&& instance.layers@[k]@.biases.has_shape(widths[k + 1], 1)
                        &&& instance.layers@[k]@.is_blank()
                    },
            decreases hidden - i,
        {
            let layer_size: usize = instance.hidden_layer_sizes[i];
            instance.layers.push(NeuralNetworkLayer::new(layer_inputs, layer_size));
            layer_inputs = layer_size;
            i = i + 1;
        }
        instance.layers.push(NeuralNetworkLayer::new(layer_inputs, instance.output_neurons));
        proof {
            assert forall|k: int| 0 <= k < instance@.layers.len() implies {
                &&& (#[trigger] instance@.layers[k]).weights.has_shape(widths[k + 1], widths[k])
                &&& instance@.layers[k].biases.has_shape(widths[k + 1], 1)
                &&& instance@.layers[k].is_blank()
            } by {
                assert(instance@.layers[k] == instance.layers@[k]@);
            }
            lemma_follows_widths_wf(instance@);
        }
    }

    /// Draws every weight and bias of the network afresh from `[0, 1]`.
    pub fn randomize_weights_and_biases(instance: &mut NeuralNetwork<T>)
        requires
            old(instance)@.wf(),
        ensures
            final(instance)@.wf(),
            final(instance)@.same_shape(old(instance)@),
            final(instance)@.is_randomized(),
    {
        let lower = T::zero();
        let upper = T::one();
        let count: usize = instance.layers.len();
        let mut fresh: Vec<NeuralNetworkLayer<T>> = Vec::new();
        let mut i: usize = 0;
        while i < count
            invariant
                i <= count,
                count == instance.layers@.len(),
                instance@.wf(),
                fresh@.len() == i,
                forall|k: int|
                    0 <= k < i ==> {
                        &&& (#[trigger] fresh@[k])@.wf()
                        &&& fresh@[k]@.same_shape(instance@.layers[k])
                        &&& fresh@[k]@.weights.is_uniform_in(lower, upper)
                        &&& fresh@[k]@.biases.is_uniform_in(lower, upper)
                    },
            decreases count - i,
        {
            assert(instance@.layer_fits(i as int));
            let mut layer = NeuralNetworkLayer {
                weights: instance.layers[i].weights().duplicate(),
                biases: instance.layers[i].biases().duplicate(),
            };
            array_utils::randomize_array(layer.weights_mut(), lower, upper);
            array_utils::randomize_array(layer.biases_mut(), lower, upper);
            fresh.push(layer);
            i = i + 1;
        }
        let ghost before = instance@;
        instance.layers = fresh;
        proof {
            assert forall|k: int| 0 <= k < instance@.layers.len() implies {
                &&& (#[trigger] instance@.layers[k]).wf()
                &&& instance@.layers[k].same_shape(before.layers[k])
                &&& instance@.layers[k].weights.is_uniform_in(lower, upper)
                &&& instance@.layers[k].biases.is_uniform_in(lower, upper)
            } by {
                assert(instance@.layers[k] == fresh@[k]@);
            }
            lemma_same_shape_wf(instance@, before);
            assert(is_unit_interval(lower, upper));
        }
    }

    /// The network whose layers hold the given weights and biases, in
    /// order. Its `hidden_layer_sizes` stays empty.
    ///
    /// Refused as `InvalidConstruction` unless there is at least one
    /// weight matrix and as many bias matrices; as `DimensionMismatch`
    /// unless the matrices chain into layers (see `chains`).
    pub fn from(weights: Vec<Matrix<T>>, biases: Vec<Matrix<T>>) -> (r: Result<Self, NetworkError>)
        requires
            forall|i: int| 0 <= i < weights@.len() ==> (#[trigger] weights@[i])@.wf(),
            forall|i: int| 0 <= i < biases@.len() ==> (#[trigger] biases@[i])@.wf(),
        ensures
            r is Ok <==> weights@.len() == biases@.len() && weights@.len() > 0 && chains(
                grids(weights@),
                grids(biases@),
            ),
            r matches Ok(net) ==> {
                &&& net@.wf()
                &&& net@.layers == paired(grids(weights@), grids(biases@))
                &&& net@.input_neurons == weights@[0]@.width
                &&& net@.output_neurons == weights@[weights@.len() - 1]@.height()
                &&& net@.hidden_layer_sizes == Seq::<nat>::empty()
                &&& is_one(net@.learning_rate)
            },
            r matches Err(e) ==> e == (if weights@.len() == biases@.len() && weights@.len() > 0 {
                NetworkError::DimensionMismatch
            } else {
                NetworkError::InvalidConstruction
            }),
    {
        let count: usize = weights.len();
        if count != biases.len() || count == 0 {
            return Err(NetworkError::InvalidConstruction);
        }
        let ghost ws = grids(weights@);
        let ghost bs = grids(biases@);
        let mut layers: Vec<NeuralNetworkLayer<T>> = Vec::new();
        let mut i: usize = 0;
        while i < count
            invariant
                i <= count,
                count == weights@.len(),
                count == biases@.len(),
                ws == grids(weights@),
                bs == grids(biases@),
                forall|k: int| 0 <= k < weights@.len() ==> (#[trigger] weights@[k])@.wf(),
                forall|k: int| 0 <= k < biases@.len() ==> (#[trigger] biases@[k])@.wf(),
                layers@.len() == i,
                forall|k: int| 0 <= k < i ==> links(ws, bs, k),
                forall|k: int|
                    0 <= k < i ==> (#[trigger] layers@[k])@ == (LayerView {
                        weights: ws[k],
                        biases: bs[k],
                    }),
            decreases count - i,
        {
            let w = &weights[i];
            let b = &biases[i];
            let fits = b.rows() == w.rows() && b.cols() == 1 && (i == 0 || w.cols() == weights[i
                - 1].rows());
            if !fits {
                assert(!links(ws, bs, i as int));
                return Err(NetworkError::DimensionMismatch);
            }
            assert(links(ws, bs, i as int));
            layers.push(NeuralNetworkLayer { weights: w.duplicate(), biases: b.duplicate() });
            i = i + 1;
        }
        let net = NeuralNetwork {
            input_neurons: weights[0].cols(),
            output_neurons: weights[count - 1].rows(),
            hidden_layer_sizes: Vec::new(),
            learning_rate: T::one(),
            layers,
        };
        proof {
            assert(net@.layers =~= paired(ws, bs));
            assert(net@.hidden_layer_sizes =~= Seq::<nat>::empty());
            assert forall|k: int| 0 <= k < net@.layers.len() implies #[trigger] net@.layer_fits(k) by {
                assert(links(ws, bs, k));
            }
        }
        Ok(net)
    }

    /// Sends `inputs` through the layers: each layer's outcome is the
    /// sigmoid of `weights · x + biases`, where `x` is the outcome of the
    /// layer before, or `inputs` for the first.
    ///
    /// Refused unless `inputs` is a column of `input_neurons` values.
    pub fn feed_forward(&self, inputs: &Matrix<T>) -> (r: Result<Matrix<T>, NetworkError>)
        requires
            self@.wf(),
            inputs@.wf(),
        ensures
            r is Ok <==> inputs@.has_shape(self@.input_neurons, 1),
            r matches Ok(out) ==> feeds(self@.layers, inputs@, out@) && out@.has_shape(
                self@.output_neurons,
                1,
            ),
            r matches Err(e) ==> e == NetworkError::DimensionMismatch,
    {
        if inputs.rows() != self.input_neurons || inputs.cols() != 1 {
            return Err(NetworkError::DimensionMismatch);
        }
        let ghost all = self@.layers;
        let mut activation: Matrix<T> = inputs.duplicate();
        let mut i: usize = 0;
        assert(all.take(0).len() == 0);
        while i < self.layers.len()
            invariant
                i <= self.layers@.len(),
                self@.wf(),
                all == self@.layers,
                activation@.has_shape(self@.fan_in(i as int), 1),
                feeds(all.take(i as int), inputs@, activation@),
            decreases self.layers@.len() - i,
        {
            let layer = &self.layers[i];
            assert(layer@ == all[i as int]);
            assert(self@.layer_fits(i as int));
            let fired = self.fire(layer, &activation);
            proof {
                let upto = all.take(i + 1);
                assert(upto.drop_last() =~= all.take(i as int));
                assert(upto.last() == all[i as int]);
                assert(upto.last().fires(activation@, fired.0@, fired.1@));
            }
            activation = fired.1;
            i = i + 1;
        }
        assert(all.take(i as int) =~= all);
        Ok(activation)
    }

    /// The weight and bias adjustments that one example asks for, one
    /// pair for each layer, in the order of the layers.
    ///
    /// Refused unless `input` is a column of `input_neurons` values and
    /// `expected` a column of `output_neurons` values.
    pub fn back_propagate(&self, input: &Matrix<T>, expected: &Matrix<T>) -> (r: Result<
        (Vec<Matrix<T>>, Vec<Matrix<T>>),
        NetworkError,
    >)
        requires
            self@.wf(),
            input@.wf(),
            expected@.wf(),
        ensures
            r is Ok <==> input@.has_shape(self@.input_neurons, 1) && expected@.has_shape(
                self@.output_neurons,
                1,
            ),
            r matches Ok(adjustments) ==> {
                &&& self@.is_gradient(
                    input@,
                    expected@,
                    grids(adjustments.0@),
                    grids(adjustments.1@),
                )
                &&& self@.shapes_match(grids(adjustments.0@), grids(adjustments.1@))
            },
            r matches Err(e) ==> e == NetworkError::DimensionMismatch,
    {
        if input.rows() != self.input_neurons || input.cols() != 1 || expected.rows()
            != self.output_neurons || expected.cols() != 1 {
            return Err(NetworkError::DimensionMismatch);
        }
        let mut weight_adjustments: Vec<Matrix<T>> = Vec::new();
        let mut bias_adjustments: Vec<Matrix<T>> = Vec::new();
        let error = self.back_prop_recursive(
            0,
            input,
            expected,
            &mut weight_adjustments,
            &mut bias_adjustments,
        );
        Ok((weight_adjustments, bias_adjustments))
    }

    /// Back-propagation through the layers from `layer_index` on, for the
    /// input `x` to that layer. Puts the adjustments of those layers, in
    /// the order of the layers, in `wav` and `bav`, and returns the error
    /// signal for the layer before.
    fn back_prop_recursive(
        &self,
        layer_index: usize,
        x: &Matrix<T>,
        expected: &Matrix<T>,
        wav: &mut Vec<Matrix<T>>,
        bav: &mut Vec<Matrix<T>>,
    ) -> (error: Matrix<T>)
        requires
            self@.wf(),
            layer_index <= self@.layers.len(),
            x@.has_shape(self@.fan_in(layer_index as int), 1),
            expected@.has_shape(self@.output_neurons, 1),
            old(wav)@.len() == 0,
            old(bav)@.len() == 0,
        ensures
            back_propagates(
                self@.layers,
                layer_index as int,
                x@,
                expected@,
                grids(final(wav)@),
                grids(final(bav)@),
                error@,
            ),
            error@.has_shape(self@.fan_in(layer_index as int), 1),
            forall|i: int|
                0 <= i < self@.layers.len() - layer_index ==> {
                    &&& (#[trigger] final(wav)@[i])@.wf()
                    &&& final(wav)@[i]@.same_shape(self@.layers[layer_index + i].weights)
                },
            forall|i: int|
                0 <= i < self@.layers.len() - layer_index ==> {
                    &&& (#[trigger] final(bav)@[i])@.wf()
                    &&& final(bav)@[i]@.same_shape(self@.layers[layer_index + i].biases)
                },
        decreases self@.layers.len() - layer_index,
    {
        if layer_index == self.layers.len() {
            let cost = self.calculate_cost(expected, x);
            assert(grids(wav@).len() == 0);
            assert(grids(bav@).len() == 0);
            return cost;
        }
        let ghost all = self@.layers;
        let layer = &self.layers[layer_index];
        assert(layer@ == all[layer_index as int]);
        assert(self@.layer_fits(layer_index as int));
        let fired = self.fire(layer, x);
        let above = self.back_prop_recursive(layer_index + 1, &fired.1, expected, wav, bav);
        let ghost upper_wav = wav@;
        let ghost upper_bav = bav@;
        let lowered = self.descend(layer, x, &fired.0, &above);
        wav.insert(0, lowered.0);
        bav.insert(0, lowered.1);
        proof {
            assert(grids(wav@).drop_first() =~= grids(upper_wav));
            assert(grids(bav@).drop_first() =~= grids(upper_bav));
            assert(all[layer_index as int].descends(
                x@,
                fired.0@,
                fired.1@,
                above@,
                grids(wav@)[0],
                grids(bav@)[0],
                lowered.2@,
            ));
            assert forall|i: int| 0 <= i < self@.layers.len() - layer_index implies {
                &&& (#[trigger] wav@[i])@.wf()
                &&& wav@[i]@.same_shape(self@.layers[layer_index + i].weights)
            } by {
                if i > 0 {
                    assert(wav@[i] == upper_wav[i - 1]);
                }
            }
            assert forall|i: int| 0 <= i < self@.layers.len() - layer_index implies {
                &&& (#[trigger] bav@[i])@.wf()
                &&& bav@[i]@.same_shape(self@.layers[layer_index + i].biases)
            } by {
                if i > 0 {
                    assert(bav@[i] == upper_bav[i - 1]);
                }
            }
        }
        lowered.2
    }

    /// One layer's way up: the pre-activation `weights · x + biases` and
    /// its sigmoid.
    fn fire(&self, layer: &NeuralNetworkLayer<T>, x: &Matrix<T>) -> (r: (Matrix<T>, Matrix<T>))
        requires
            layer@.wf(),
            x@.has_shape(layer@.inputs(), 1),
        ensures
            layer@.fires(x@, r.0@, r.1@),
            r.0@.has_shape(layer@.neurons(), 1),
            r.1@.has_shape(layer@.neurons(), 1),
    {
        let p = layer.weights().dot(x).unwrap();
        let z = array_utils::add(&p, layer.biases()).unwrap();
        let a = self.non_linearity(&z);
        assert(p@.is_product_of(layer@.weights, x@));
        (z, a)
    }

    /// One layer's way down: its weight adjustment, its bias adjustment
    /// and the error signal for the layer before it.
    fn descend(
        &self,
        layer: &NeuralNetworkLayer<T>,
        x: &Matrix<T>,
        z: &Matrix<T>,
        above: &Matrix<T>,
    ) -> (r: (Matrix<T>, Matrix<T>, Matrix<T>))
        requires
            layer@.wf(),
            x@.has_shape(layer@.inputs(), 1),
            z@.has_shape(layer@.neurons(), 1),
            above@.has_shape(layer@.neurons(), 1),
        ensures
            layer@.slopes(x@, z@, above@, r.0@, r.1@, r.2@),
            r.0@.has_shape(layer@.neurons(), layer@.inputs()),
            r.1@.has_shape(layer@.neurons(), 1),
            r.2@.has_shape(layer@.inputs(), 1),
    {
        let x_prime = self.non_linearity_prime(z);
        let delta = above.zip_with(&x_prime, T::times).unwrap();
        let adjustment = delta.dot(&x.transpose()).unwrap();
        let below = layer.weights().transpose().dot(&delta).unwrap();
        assert(x_prime@.is_sigmoid_prime_of(z@));
        (adjustment, delta, below)
    }

    /// Trains the network on a batch: adds up what back-propagation asks
    /// for over all examples, then takes from every weight and bias
    /// `1 / inputs.len()` times its sum. The learning rate plays no part.
    ///
    /// Refused as `LengthMismatch` unless there are as many expected
    /// outputs as inputs, and as `DimensionMismatch` unless every example
    /// fits the network. A refused call leaves the network as it was.
    pub fn train(&mut self, inputs: &Vec<Matrix<T>>, expected_outputs: &Vec<Matrix<T>>) -> (r:
        Result<(), NetworkError>)
        requires
            old(self)@.wf(),
            forall|i: int| 0 <= i < inputs@.len() ==> (#[trigger] inputs@[i])@.wf(),
            forall|i: int|
                0 <= i < expected_outputs@.len() ==> (#[trigger] expected_outputs@[i])@.wf(),
        ensures
            r is Ok <==> inputs@.len() == expected_outputs@.len() && old(self)@.accepts(
                grids(inputs@),
                grids(expected_outputs@),
            ),
            r matches Err(e) ==> {
                &&& e == (if inputs@.len() != expected_outputs@.len() {
                    NetworkError::LengthMismatch
                } else {
                    NetworkError::DimensionMismatch
                })
                &&& *final(self) == *old(self)
            },
            r is Ok ==> {
                &&& final(self)@.wf()
                &&& final(self)@.is_trained(
                    old(self)@,
                    grids(inputs@),
                    grids(expected_outputs@),
                )
            },
    {
        if inputs.len() != expected_outputs.len() {
            return Err(NetworkError::LengthMismatch);
        }
        let ghost ins = grids(inputs@);
        let ghost outs = grids(expected_outputs@);
        let adjustment_vectors = self.init_zeroed_adjustment_matrices();
        let mut weight_adjustments: Vec<Matrix<T>> = adjustment_vectors.0;
        let mut bias_adjustments: Vec<Matrix<T>> = adjustment_vectors.1;
        let mut i: usize = 0;
        while i < inputs.len()
            invariant
                i <= inputs@.len(),
                inputs@.len() == expected_outputs@.len(),
                *self == *old(self),
                self@.wf(),
                ins == grids(inputs@),
                outs == grids(expected_outputs@),
                forall|k: int| 0 <= k < inputs@.len() ==> (#[trigger] inputs@[k])@.wf(),
                forall|k: int|
                    0 <= k < expected_outputs@.len() ==> (#[trigger] expected_outputs@[k])@.wf(),
                forall|k: int| 0 <= k < i ==> self@.accepts_pair(#[trigger] ins[k], outs[k]),
                self@.shapes_match(grids(weight_adjustments@), grids(bias_adjustments@)),
                self@.accumulates(
                    ins,
                    outs,
                    i as int,
                    grids(weight_adjustments@),
                    grids(bias_adjustments@),
                ),
            decreases inputs@.len() - i,
        {
            let result = match self.back_propagate(&inputs[i], &expected_outputs[i]) {
                Ok(adjustments) => adjustments,
                Err(e) => {
                    assert(!self@.accepts_pair(ins[i as int], outs[i as int]));
                    return Err(e);
                },
            };
            let ghost weights_before = grids(weight_adjustments@);
            let ghost biases_before = grids(bias_adjustments@);
            proof {
                assert forall|k: int| 0 <= k < weight_adjustments@.len() implies {
                    &&& (#[trigger] weight_adjustments@[k])@.wf()
                    &&& result.0@[k]@.wf()
                    &&& weight_adjustments@[k]@.same_shape(result.0@[k]@)
                } by {
                    assert(weights_before[k].same_shape(self@.layers[k].weights));
                    assert(grids(result.0@)[k].same_shape(self@.layers[k].weights));
                }
                assert forall|k: int| 0 <= k < bias_adjustments@.len() implies {
                    &&& (#[trigger] bias_adjustments@[k])@.wf()
                    &&& result.1@[k]@.wf()
                    &&& bias_adjustments@[k]@.same_shape(result.1@[k]@)
                } by {
                    assert(biases_before[k].same_shape(self@.layers[k].biases));
                    assert(grids(result.1@)[k].same_shape(self@.layers[k].biases));
                }
            }
            add_each(&mut weight_adjustments, &result.0);
            add_each(&mut bias_adjustments, &result.1);
            proof {
                let sums_w = grids(weight_adjustments@);
                let sums_b = grids(bias_adjustments@);
                assert forall|k: int| 0 <= k < self@.layers.len() implies {
                    &&& (#[trigger] sums_w[k]).wf()
                    &&& sums_w[k].same_shape(self@.layers[k].weights)
                } by {
                    assert(sums_w[k].is_sum_of(weights_before[k], grids(result.0@)[k]));
                    assert(weights_before[k].same_shape(self@.layers[k].weights));
                }
                assert forall|k: int| 0 <= k < self@.layers.len() implies {
                    &&& (#[trigger] sums_b[k]).wf()
                    &&& sums_b[k].same_shape(self@.layers[k].biases)
                } by {
                    assert(sums_b[k].is_sum_of(biases_before[k], grids(result.1@)[k]));
                    assert(biases_before[k].same_shape(self@.layers[k].biases));
                }
                assert(adds_up(weights_before, grids(result.0@), sums_w));
                assert(adds_up(biases_before, grids(result.1@), sums_b));
            }
            i = i + 1;
        }
        let ghost before = self@;
        self.add_weights_and_biases(&weight_adjustments, &bias_adjustments, inputs.len());
        proof {
            assert(self@.is_update_of(
                before,
                grids(weight_adjustments@),
                grids(bias_adjustments@),
                ins.len() as usize,
            ));
        }
        Ok(())
    }

    /// Takes from every layer's weights and biases `1 / number_of_examples`
    /// times the matrix given for them.
    fn add_weights_and_biases(
        &mut self,
        weights: &Vec<Matrix<T>>,
        biases: &Vec<Matrix<T>>,
        number_of_examples: usize,
    )
        requires
            old(self)@.wf(),
            old(self)@.shapes_match(grids(weights@), grids(biases@)),
        ensures
            final(self)@.wf(),
            final(self)@.is_update_of(
                old(self)@,
                grids(weights@),
                grids(biases@),
                number_of_examples,
            ),
    {
        let ghost before = self@;
        let count: usize = self.layers.len();
        let mut fresh: Vec<NeuralNetworkLayer<T>> = Vec::new();
        let mut i: usize = 0;
        while i < count
            invariant
                i <= count,
                count == self.layers@.len(),
                *self == *old(self),
                before == self@,
                before.wf(),
                before.shapes_match(grids(weights@), grids(biases@)),
                fresh@.len() == i,
                forall|k: int|
                    0 <= k < i ==> {
                        &&& (#[trigger] fresh@[k])@.wf()
                        &&& fresh@[k]@.same_shape(before.layers[k])
                        &&& is_descent_step(
                            fresh@[k]@.weights,
                            before.layers[k].weights,
                            grids(weights@)[k],
                            number_of_examples,
                        )
                        &&& is_descent_step(
                            fresh@[k]@.biases,
                            before.layers[k].biases,
                            grids(biases@)[k],
                            number_of_examples,
                        )
                    },
            decreases count - i,
        {
            assert(before.layer_fits(i as int));
            assert(grids(weights@)[i as int].wf() && grids(biases@)[i as int].wf());
            let layer = &self.layers[i];
            let updated = NeuralNetworkLayer {
                weights: Self::step(layer.weights(), &weights[i], number_of_examples),
                biases: Self::step(layer.biases(), &biases[i], number_of_examples),
            };
            fresh.push(updated);
            i = i + 1;
        }
        self.layers = fresh;
        proof {
            assert forall|k: int| 0 <= k < self@.layers.len() implies {
                &&& (#[trigger] self@.layers[k]).wf()
                &&& self@.layers[k].same_shape(before.layers[k])
                &&& is_descent_step(
                    self@.layers[k].weights,
                    before.layers[k].weights,
                    grids(weights@)[k],
                    number_of_examples,
                )
                &&& is_descent_step(
                    self@.layers[k].biases,
                    before.layers[k].biases,
                    grids(biases@)[k],
                    number_of_examples,
                )
            } by {
                assert(self@.layers[k] == fresh@[k]@);
            }
            lemma_same_shape_wf(self@, before);
        }
    }

    /// `before - (1 / number_of_examples) * sum`.
    fn step(before: &Matrix<T>, sum: &Matrix<T>, number_of_examples: usize) -> (r: Matrix<T>)
        requires
            before@.wf(),
            sum@.wf(),
            sum@.same_shape(before@),
        ensures
            is_descent_step(r@, before@, sum@, number_of_examples),
            r@.wf(),
            r@.same_shape(before@),
    {
        let factor = T::reciprocal(number_of_examples);
        let share = sum.scaled(factor);
        let r = before.zip_with(&share, T::minus).unwrap();
        assert(is_reciprocal(number_of_examples, factor) && share@.is_scaling_of(factor, sum@)
            && r@.is_difference_of(before@, share@));
        r
    }

    /// For every layer, a matrix of zeros in the shape of its weights and
    /// one in the shape of its biases.
    fn init_zeroed_adjustment_matrices(&self) -> (r: (Vec<Matrix<T>>, Vec<Matrix<T>>))
        requires
            self@.wf(),
        ensures
            self@.is_zeroed(grids(r.0@), grids(r.1@)),
    {
        let mut weight_adjustments: Vec<Matrix<T>> = Vec::new();
        let mut bias_adjustments: Vec<Matrix<T>> = Vec::new();
        let mut i: usize = 0;
        while i < self.layers.len()
            invariant
                i <= self.layers@.len(),
                self@.wf(),
                weight_adjustments@.len() == i,
                bias_adjustments@.len() == i,
                forall|k: int|
                    0 <= k < i ==> {
                        &&& (#[trigger] weight_adjustments@[k])@.wf()
                        &&& weight_adjustments@[k]@.same_shape(self@.layers[k].weights)
                        &&& weight_adjustments@[k]@.is_zeros()
                    },
                forall|k: int|
                    0 <= k < i ==> {
                        &&& (#[trigger] bias_adjustments@[k])@.wf()
                        &&& bias_adjustments@[k]@.same_shape(self@.layers[k].biases)
                        &&& bias_adjustments@[k]@.is_zeros()
                    },
            decreases self.layers@.len() - i,
        {
            let layer = &self.layers[i];
            assert(layer@ == self@.layers[i as int]);
            assert(self@.layer_fits(i as int));
            let zero = T::zero();
            weight_adjustments.push(
                Matrix::filled(layer.weights().rows(), layer.weights().cols(), zero),
            );
            bias_adjustments.push(Matrix::filled(layer.biases().rows(), layer.biases().cols(), zero));
            i = i + 1;
        }
        proof {
            assert forall|k: int| 0 <= k < self@.layers.len() implies {
                &&& (#[trigger] grids(weight_adjustments@)[k]).wf()
                &&& grids(weight_adjustments@)[k].same_shape(self@.layers[k].weights)
                &&& grids(weight_adjustments@)[k].is_zeros()
            } by {
                assert(grids(weight_adjustments@)[k] == weight_adjustments@[k]@);
            }
            assert forall|k: int| 0 <= k < self@.layers.len() implies {
                &&& (#[trigger] grids(bias_adjustments@)[k]).wf()
                &&& grids(bias_adjustments@)[k].same_shape(self@.layers[k].biases)
                &&& grids(bias_adjustments@)[k].is_zeros()
            } by {
                assert(grids(bias_adjustments@)[k] == bias_adjustments@[k]@);
            }
        }
        (weight_adjustments, bias_adjustments)
    }

    /// The error signal at the output: `expected - output`.
    fn calculate_cost(&self, expected: &Matrix<T>, output: &Matrix<T>) -> (r: Matrix<T>)
        requires
            expected@.wf(),
            output@.wf(),
            expected@.same_shape(output@),
        ensures
            r@.is_difference_of(expected@, output@),
    {
        expected.zip_with(output, T::minus).unwrap()
    }

    /// The sigmoid's first derivative at every entry of `x`.
    fn non_linearity_prime(&self, x: &Matrix<T>) -> (r: Matrix<T>)
        requires
            x@.wf(),
        ensures
            r@.is_sigmoid_prime_of(x@),
    {
        let mut a = x.duplicate();
        array_utils::sig_prime(&mut a);
        a
    }

    /// The sigmoid of every entry of `x`.
    fn non_linearity(&self, x: &Matrix<T>) -> (r: Matrix<T>)
        requires
            x@.wf(),
        ensures
            r@.is_sigmoid_of(x@),
    {
        let mut a = x.duplicate();
        array_utils::sig(&mut a);
        a
    }

    /// The layers, first to last.
    pub fn layers(&self) -> (r: &Vec<NeuralNetworkLayer<T>>)
        ensures
            layer_views(r@) == self@.layers,
    {
        &self.layers
    }
}

/// A network without hidden layers has exactly one layer, and that layer
/// leads from the inputs straight to the outputs.
pub proof fn lemma_direct_network<T>(net: NetworkView<T>)
    requires
        net.follows_widths(),
        net.hidden_layer_sizes.len() == 0,
    ensures
        net.layers.len() == 1,
        net.layers[0].weights.has_shape(net.output_neurons, net.input_neurons),
        net.layers[0].biases.has_shape(net.output_neurons, 1),
{
    assert(net.layers[0].weights.has_shape(net.widths()[1], net.widths()[0]));
}

/// A network with two hidden layers of `h1` and `h2` neurons has three
/// layers: from the inputs to `h1`, from `h1` to `h2`, and from `h2` to
/// the outputs.
pub proof fn lemma_two_hidden_layers<T>(net: NetworkView<T>, h1: nat, h2: nat)
    requires
        net.follows_widths(),
        net.hidden_layer_sizes == seq![h1, h2],
    ensures
        net.layers.len() == 3,
        net.layers[0].weights.has_shape(h1, net.input_neurons),
        net.layers[1].weights.has_shape(h2, h1),
        net.layers[2].weights.has_shape(net.output_neurons, h2),
{
    assert(net.layers[0].weights.has_shape(net.widths()[1], net.widths()[0]));
    assert(net.layers[1].weights.has_shape(net.widths()[2], net.widths()[1]));
    assert(net.layers[2].weights.has_shape(net.widths()[3], net.widths()[2]));
}

impl<T: Scalar> LayerView<T> {
    /// `adjustment` is an outcome of the gradient of a lone layer in closed
    /// form: with `z = weights · x + biases`,
    /// `((expected - sigmoid(z)) ⊙ sigmoid'(z)) · xᵗ`.
    pub open spec fn is_closed_form_gradient(
        self,
        x: Grid<T>,
        expected: Grid<T>,
        adjustment: Grid<T>,
    ) -> bool {
        exists|z: Grid<T>, a: Grid<T>, cost: Grid<T>, slope: Grid<T>, delta: Grid<T>|
            {
                &&& #[trigger] self.fires(x, z, a)
                &&& cost.is_difference_of(expected, a)
                &&& slope.is_sigmoid_prime_of(z)
                &&& #[trigger] delta.is_hadamard_of(cost, slope)
                &&& adjustment.is_product_of(delta, x.transposed())
            }
    }
}

/// For a network of one layer, the weight adjustment that
/// back-propagation gives is the gradient in closed form, and the bias
/// adjustment is the delta it is made of.
pub proof fn lemma_single_layer_gradient<T: Scalar>(
    net: NetworkView<T>,
    input: Grid<T>,
    expected: Grid<T>,
    weight_adjustments: Seq<Grid<T>>,
    bias_adjustments: Seq<Grid<T>>,
)
    requires
        net.layers.len() == 1,
        net.is_gradient(input, expected, weight_adjustments, bias_adjustments),
    ensures
        weight_adjustments.len() == 1,
        bias_adjustments.len() == 1,
        net.layers[0].is_closed_form_gradient(input, expected, weight_adjustments[0]),
        weight_adjustments[0].is_product_of(bias_adjustments[0], input.transposed()),
{
    reveal_with_fuel(back_propagates, 3);
    let layer = net.layers[0];
    let error = choose|error: Grid<T>|
        back_propagates(
            net.layers,
            0,
            input,
            expected,
            weight_adjustments,
            bias_adjustments,
            error,
        );
    let (z, a, above) = choose|z: Grid<T>, a: Grid<T>, above: Grid<T>|
        {
            &&& #[trigger] layer.descends(
                input,
                z,
                a,
                above,
                weight_adjustments[0],
                bias_adjustments[0],
                error,
            )
            &&& back_propagates(
                net.layers,
                1,
                a,
                expected,
                weight_adjustments.drop_first(),
                bias_adjustments.drop_first(),
                above,
            )
        };
    let slope = choose|slope: Grid<T>|
        {
            &&& #[trigger] slope.is_sigmoid_prime_of(z)
            &&& bias_adjustments[0].is_hadamard_of(above, slope)
            &&& weight_adjustments[0].is_product_of(bias_adjustments[0], input.transposed())
            &&& error.is_product_of(layer.weights.transposed(), bias_adjustments[0])
        };
    assert(layer.fires(input, z, a));
    assert(bias_adjustments[0].is_hadamard_of(above, slope));
}

/// An inner product with a row of zeros is zero, for scalars whose zero
/// annihilates products and is neutral in sums.
proof fn lemma_dot_of_zeros<T: Scalar>(xs: Seq<T>, ys: Seq<T>, acc: T)
    requires
        is_dot(xs, ys, acc),
        forall|k: int| 0 <= k < xs.len() ==> is_zero(#[trigger] xs[k]),
        forall|w: T, v: T, t: T| is_zero(w) && #[trigger] is_product(w, v, t) ==> is_zero(t),
        forall|a: T, v: T, c: T| is_zero(a) && #[trigger] is_sum(a, v, c) ==> c == v,
    ensures
        is_zero(acc),
    decreases xs.len(),
{
    if xs.len() > 0 {
        let (prev, term) = choose|prev: T, term: T|
            is_dot(xs.drop_last(), ys.drop_last(), prev) && is_product(xs.last(), ys.last(), term)
                && #[trigger] is_sum(prev, term, acc);
        assert forall|k: int| 0 <= k < xs.drop_last().len() implies is_zero(
            #[trigger] xs.drop_last()[k],
        ) by {
            assert(xs.drop_last()[k] == xs[k]);
        }
        lemma_dot_of_zeros(xs.drop_last(), ys.drop_last(), prev);
        assert(is_zero(xs.last()));
        assert(is_zero(term));
        assert(acc == term);
    }
}

/// Where the last layer's weights are all zero and its biases all `b`,
/// every output is an outcome of the sigmoid of `b`, whatever the input:
/// for scalars whose zero annihilates products (`0 * v` is zero for every
/// `v` that occurs) and is neutral in sums (`0 + v` is `v`).
pub proof fn lemma_zero_weights_forward<T: Scalar>(
    net: NetworkView<T>,
    input: Grid<T>,
    out: Grid<T>,
    b: T,
)
    requires
        net.wf(),
        net.layers.last().weights.is_zeros(),
        forall|i: int|
            0 <= i < net.output_neurons ==> #[trigger] net.layers.last().biases.at(i, 0) == b,
        feeds(net.layers, input, out),
        forall|w: T, v: T, t: T| is_zero(w) && #[trigger] is_product(w, v, t) ==> is_zero(t),
        forall|a: T, v: T, c: T| is_zero(a) && #[trigger] is_sum(a, v, c) ==> c == v,
    ensures
        out.has_shape(net.output_neurons, 1),
        forall|i: int| 0 <= i < net.output_neurons ==> is_sigmoid(b, #[trigger] out.at(i, 0)),
{
    let layer = net.layers.last();
    assert(net.layer_fits(net.layers.len() - 1));
    let (mid, z) = choose|mid: Grid<T>, z: Grid<T>|
        feeds(net.layers.drop_last(), input, mid) && #[trigger] layer.fires(mid, z, out);
    let p = choose|p: Grid<T>| #[trigger]
        p.is_product_of(layer.weights, mid) && z.is_sum_of(p, layer.biases);
    assert forall|i: int| 0 <= i < net.output_neurons implies is_sigmoid(
        b,
        #[trigger] out.at(i, 0),
    ) by {
        let row = layer.weights.rows[i];
        assert(is_dot(row, mid.column(0), p.at(i, 0)));
        assert forall|k: int| 0 <= k < row.len() implies is_zero(#[trigger] row[k]) by {
            assert(row[k] == layer.weights.at(i, k));
        }
        lemma_dot_of_zeros(row, mid.column(0), p.at(i, 0));
        assert(is_sum(p.at(i, 0), layer.biases.at(i, 0), z.at(i, 0)));
        assert(z.at(i, 0) == b);
        assert(is_sigmoid(z.at(i, 0), out.at(i, 0)));
    }
}

} // verus!

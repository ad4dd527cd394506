//! The shape of a network that is about to be built: how many neurons each
//! layer gets, how many inputs each of them takes, and how they activate.

use crate::activation::Activation;
use crate::network::layer::Layer;
use crate::network::network::Network;
use crate::network::perceptron::Perceptron;
use vstd::prelude::*;

verus! {

/// The shape of one layer.
#[derive(Clone, Copy, Debug, PartialEq, Eq, Structural)]
pub struct LayerPlan {
    /// The number of neurons of the layer.
    pub neurons: u32,
    /// The number of inputs that each neuron takes.
    pub inputs: u32,
    /// The activation function of each neuron.
    pub activation: Activation,
    /// Where the layer's dropout rate stands in the list of rates; nothing
    /// for a layer beyond the end of the list, which drops no output.
    pub dropout: Option<usize>,
}

/// The shape of layer `index` of a network of `nb_input` inputs whose
/// layers have the widths `widths`: it takes the outputs of the layer
/// before it, or the inputs of the network; the last layer activates by
/// `output` and the others by `hidden`; and it has a dropout rate where
/// the list of `rates` rates reaches it.
pub open spec fn layer_plan(
    nb_input: u32,
    widths: Seq<u32>,
    hidden: Activation,
    output: Activation,
    rates: nat,
    index: int,
) -> LayerPlan {
    LayerPlan {
        neurons: widths[index],
        inputs: if index == 0 {
            nb_input
        } else {
            widths[index - 1]
        },
        activation: if index == widths.len() - 1 {
            output
        } else {
            hidden
        },
        dropout: if index < rates {
            Some(index as usize)
        } else {
            None
        },
    }
}

/// The shapes of the layers of a network of `nb_input` inputs whose layers
/// have the widths `widths`, in order.
pub open spec fn network_plan(
    nb_input: u32,
    widths: Seq<u32>,
    hidden: Activation,
    output: Activation,
    rates: nat,
) -> Seq<LayerPlan> {
    Seq::new(widths.len(), |i: int| layer_plan(nb_input, widths, hidden, output, rates, i))
}

/// The shapes of the layers of a network of `nb_input` inputs whose layers
/// have the widths `nb_perceptron`, of which `rates` have a dropout rate.
pub fn plan_layers(
    nb_input: u32,
    nb_perceptron: &Vec<u32>,
    hidden: Activation,
    output: Activation,
    rates: usize,
) -> (plan: Vec<LayerPlan>)
    ensures
        plan@ == network_plan(nb_input, nb_perceptron@, hidden, output, rates as nat),
{
    let mut plan: Vec<LayerPlan> = Vec::new();
    let mut inputs: u32 = nb_input;
    let mut i: usize = 0;
    while i < nb_perceptron.len()
        invariant
            i <= nb_perceptron.len(),
            plan.len() == i,
            inputs == if i == 0 {
                nb_input
            } else {
                nb_perceptron@[i - 1]
            },
            forall|k: int|
                0 <= k < i ==> #[trigger] plan@[k] == layer_plan(
                    nb_input,
                    nb_perceptron@,
                    hidden,
                    output,
                    rates as nat,
                    k,
                ),
        decreases nb_perceptron.len() - i,
    {
        let neurons: u32 = nb_perceptron[i];
        let activation = if i == nb_perceptron.len() - 1 {
            output
        } else {
            hidden
        };
        let dropout = if i < rates {
            Some(i)
        } else {
            None
        };
        plan.push(LayerPlan { neurons, inputs, activation, dropout });
        inputs = neurons;
        i += 1;
    }
    assert(plan@ =~= network_plan(nb_input, nb_perceptron@, hidden, output, rates as nat));
    plan
}

/// The shapes of the layers of a network for He initialisation: every
/// hidden layer activates by the rectifier, the last by `output`.
pub fn he_plan(nb_input: u32, nb_perceptron: &Vec<u32>, output: Activation, rates: usize) -> (plan:
    Vec<LayerPlan>)
    ensures
        plan@ == network_plan(nb_input, nb_perceptron@, Activation::Relu, output, rates as nat),
{
    plan_layers(nb_input, nb_perceptron, Activation::Relu, output, rates)
}

/// The shapes of the layers of a network whose neurons all activate by
/// `activation` and drop no output.
pub fn uniform_plan(nb_input: u32, nb_perceptron: &Vec<u32>, activation: Activation) -> (plan: Vec<
    LayerPlan,
>)
    ensures
        plan@ == network_plan(nb_input, nb_perceptron@, activation, activation, 0),
{
    plan_layers(nb_input, nb_perceptron, activation, activation, 0)
}

/// The variance of the weights that He initialisation draws for a neuron
/// of `fan_in` inputs, as a fraction: 2 over `fan_in` for a rectifier, 1
/// over `fan_in` for any other activation function.
pub fn he_variance(activation: Activation, fan_in: u32) -> (variance: (u32, u32))
    ensures
        variance.0 == if activation == Activation::Relu {
            2u32
        } else {
            1u32
        },
        variance.1 == fan_in,
{
    match activation {
        Activation::Relu => (2, fan_in),
        _ => (1, fan_in),
    }
}

impl<T> Network<T> {
    /// Whether the network has the shape `plan`: its layers have the
    /// planned numbers of neurons, and each neuron the planned number of
    /// weights and the planned activation function.
    pub open spec fn follows(&self, plan: Seq<LayerPlan>) -> bool {
        &&& self.0@.len() == plan.len()
        &&& forall|i: int|
            0 <= i < plan.len() ==> {
                &&& (#[trigger] self.0@[i]).neurons@.len() == plan[i].neurons
                &&& forall|j: int|
                    0 <= j < self.0@[i].neurons@.len() ==> {
                        &&& (#[trigger] self.0@[i].neurons@[j]).weights@.len() == plan[i].inputs
                        &&& self.0@[i].neurons@[j].activation == plan[i].activation
                    }
            }
    }

    /// Whether the network has the shape `plan`.
    pub fn has_shape(&self, plan: &Vec<LayerPlan>) -> (b: bool)
        ensures
            b == self.follows(plan@),
    {
        if self.0.len() != plan.len() {
            return false;
        }
        let mut i: usize = 0;
        while i < plan.len()
            invariant
                i <= plan.len(),
                self.0.len() == plan.len(),
                forall|k: int|
                    0 <= k < i ==> {
                        &&& (#[trigger] self.0@[k]).neurons@.len() == plan@[k].neurons
                        &&& forall|j: int|
                            0 <= j < self.0@[k].neurons@.len() ==> {
                                &&& (#[trigger] self.0@[k].neurons@[j]).weights@.len()
                                    == plan@[k].inputs
                                &&& self.0@[k].neurons@[j].activation == plan@[k].activation
                            }
                    },
            decreases plan.len() - i,
        {
            let layer = &self.0[i];
            let shape = plan[i];
            if layer.neurons.len() != shape.neurons as usize {
                return false;
            }
            let mut j: usize = 0;
            while j < layer.neurons.len()
                invariant
                    j <= layer.neurons.len(),
                    i < plan.len(),
                    self.0.len() == plan.len(),
                    *layer == self.0@[i as int],
                    shape == plan@[i as int],
                    forall|n: int|
                        0 <= n < j ==> {
                            &&& (#[trigger] layer.neurons@[n]).weights@.len() == shape.inputs
                            &&& layer.neurons@[n].activation == shape.activation
                        },
                decreases layer.neurons.len() - j,
            {
                let neuron = &layer.neurons[j];
                if neuron.weights.len() != shape.inputs as usize || neuron.activation
                    != shape.activation {
                    return false;
                }
                j += 1;
            }
            i += 1;
        }
        true
    }
}

impl<T: Copy> Network<T> {
    /// A network of the shape `plan` whose weights and biases all are
    /// `fill`. Each layer is in inference mode, and its dropout rate is the
    /// one of `rates` that the plan names, or `fill` where it names none.
    pub fn filled(plan: &Vec<LayerPlan>, rates: &Vec<T>, fill: T) -> (network: Network<T>)
        requires
            forall|i: int|
                0 <= i < plan.len() ==> ((#[trigger] plan@[i]).dropout matches Some(k) ==> k
                    < rates.len()),
        ensures
            network.follows(plan@),
            forall|i: int|
                0 <= i < plan.len() ==> {
                    &&& !(#[trigger] network.0@[i]).training_mode
                    &&& network.0@[i].dropout_rate == match plan@[i].dropout {
                        Some(k) => rates@[k as int],
                        None => fill,
                    }
                    &&& forall|j: int|
                        0 <= j < network.0@[i].neurons@.len() ==> {
                            &&& (#[trigger] network.0@[i].neurons@[j]).bias == fill
                            &&& forall|k: int|
                                0 <= k < network.0@[i].neurons@[j].weights@.len()
                                    ==> #[trigger] network.0@[i].neurons@[j].weights@[k] == fill
                        }
                },
    {
        let mut layers: Vec<Layer<T>> = Vec::new();
        let mut i: usize = 0;
        while i < plan.len()
            invariant
                i <= plan.len(),
                layers.len() == i,
                forall|n: int|
                    0 <= n < plan.len() ==> ((#[trigger] plan@[n]).dropout matches Some(k) ==> k
                        < rates.len()),
                forall|n: int|
                    0 <= n < i ==> {
                        &&& (#[trigger] layers@[n]).neurons@.len() == plan@[n].neurons
                        &&& !layers@[n].training_mode
                        &&& layers@[n].dropout_rate == match plan@[n].dropout {
                            Some(k) => rates@[k as int],
                            None => fill,
                        }
                        &&& forall|j: int|
                            0 <= j < layers@[n].neurons@.len() ==> {
                                &&& (#[trigger] layers@[n].neurons@[j]).weights@.len()
                                    == plan@[n].inputs
                                &&& layers@[n].neurons@[j].activation == plan@[n].activation
                                &&& layers@[n].neurons@[j].bias == fill
                                &&& forall|k: int|
                                    0 <= k < layers@[n].neurons@[j].weights@.len()
                                        ==> #[trigger] layers@[n].neurons@[j].weights@[k] == fill
                            }
                    },
            decreases plan.len() - i,
        {
            let shape = plan[i];
            let mut neurons: Vec<Perceptron<T>> = Vec::new();
            let mut j: u32 = 0;
            while j < shape.neurons
                invariant
                    j <= shape.neurons,
                    neurons.len() == j,
                    forall|n: int|
                        0 <= n < j ==> {
                            &&& (#[trigger] neurons@[n]).weights@.len() == shape.inputs
                            &&& neurons@[n].activation == shape.activation
                            &&& neurons@[n].bias == fill
                            &&& forall|k: int|
                                0 <= k < neurons@[n].weights@.len()
                                    ==> #[trigger] neurons@[n].weights@[k] == fill
                        },
                decreases shape.neurons - j,
            {
                let mut weights: Vec<T> = Vec::new();
                let mut k: u32 = 0;
                while k < shape.inputs
                    invariant
                        k <= shape.inputs,
                        weights.len() == k,
                        forall|n: int| 0 <= n < k ==> #[trigger] weights@[n] == fill,
                    decreases shape.inputs - k,
                {
                    weights.push(fill);
                    k += 1;
                }
                neurons.push(Perceptron { activation: shape.activation, weights, bias: fill });
                j += 1;
            }
            let dropout_rate = match shape.dropout {
                Some(k) => rates[k],
                None => fill,
            };
            layers.push(Layer { neurons, dropout_rate, training_mode: false });
            i += 1;
        }
        Network(layers)
    }
}

/// The shape of a network. A network built to the plan of `nb_input`
/// inputs and the layer widths `widths`, of which there is at least one,
/// takes `nb_input` inputs, feeds each layer with the outputs of the one
/// before it, has layers of the widths `widths`, and gives as many outputs
/// as the last of them says.
pub proof fn lemma_planned_shape<T>(
    network: Network<T>,
    nb_input: u32,
    widths: Seq<u32>,
    hidden: Activation,
    output: Activation,
    rates: nat,
)
    requires
        widths.len() >= 1,
        network.follows(network_plan(nb_input, widths, hidden, output, rates)),
    ensures
        network.well_formed(nb_input as nat),
        network.architecture() == Seq::new(widths.len(), |i: int| widths[i] as usize),
        network.output_width() == widths.last(),
{
    let plan = network_plan(nb_input, widths, hidden, output, rates);
    assert forall|i: int| 1 <= i < network.0@.len() implies (#[trigger] network.0@[i]).accepts(
        network.0@[i - 1].width(),
    ) by {
        assert(plan[i].inputs == widths[i - 1]);
        assert(network.0@[i - 1].neurons@.len() == plan[i - 1].neurons);
    }
    assert(network.0@[0].accepts(nb_input as nat)) by {
        assert(plan[0].inputs == nb_input);
    }
    assert(network.architecture() =~= Seq::new(widths.len(), |i: int| widths[i] as usize)) by {
        assert forall|i: int| 0 <= i < widths.len() implies network.architecture()[i]
            == widths[i] as usize by {
            assert(network.0@[i].neurons@.len() == plan[i].neurons);
        }
    }
    assert(network.0@.last().neurons@.len() == plan[widths.len() - 1].neurons);
}

} // verus!

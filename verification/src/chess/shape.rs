//! The shape of a network that classifies positions.

use crate::activation::Activation;
use crate::network::plan::{he_plan, network_plan, LayerPlan};
use vstd::prelude::*;

verus! {

/// The number of inputs that stand for a position.
pub const INPUT_SIZE: u32 = 833;

/// The number of classes of a position.
pub const OUTPUT_SIZE: u32 = 5;

/// The widths of the layers of a network that classifies positions: the
/// hidden layers, and a last layer of one neuron for each class.
pub open spec fn chess_widths(hidden_layers: Seq<u32>) -> Seq<u32> {
    hidden_layers.push(OUTPUT_SIZE)
}

/// The shapes of the layers of a network that classifies positions, for He
/// initialisation: it takes the inputs of a position, its hidden layers
/// have the widths `hidden_layers` and activate by the rectifier, and its
/// last layer has one neuron for each class and does not activate. The
/// first `rates` layers have a dropout rate.
pub fn chess_plan(hidden_layers: &Vec<u32>, rates: usize) -> (plan: Vec<LayerPlan>)
    ensures
        plan@ == network_plan(
            INPUT_SIZE,
            chess_widths(hidden_layers@),
            Activation::Relu,
            Activation::Linear,
            rates as nat,
        ),
{
    let mut layers: Vec<u32> = Vec::new();
    let mut i: usize = 0;
    while i < hidden_layers.len()
        invariant
            i <= hidden_layers.len(),
            layers@ == hidden_layers@.take(i as int),
        decreases hidden_layers.len() - i,
    {
        layers.push(hidden_layers[i]);
        i += 1;
        assert(layers@ =~= hidden_layers@.take(i as int));
    }
    assert(hidden_layers@.take(hidden_layers.len() as int) =~= hidden_layers@);
    layers.push(OUTPUT_SIZE);
    he_plan(INPUT_SIZE, &layers, Activation::Linear, rates)
}

} // verus!

//! A network: layers in sequence, each fed by the one before it.

use crate::decimal::{decimal, decimal_of};
use crate::network::layer::{layer_of_lines, layer_text, Layer, LayerError};
use crate::network::perceptron::{Neuron, Perceptron};
use crate::number::Number;
use crate::text::{
    chars_of, extend_chars, join, join_chars, runs, split_chars, split_lines, split_on, string_of,
    views,
};
use vstd::prelude::*;

verus! {

/// A network over numbers of type `T`: its layers, from the one that takes
/// the inputs to the one that gives the outputs.
#[derive(Debug, Clone)]
pub struct Network<T>(pub Vec<Layer<T>>);

/// Why a text is not a network.
pub enum NetworkError {
    /// The layer of this index holds no line.
    EmptyLayer(nat),
    /// The text of the layer of this index is not a layer.
    Layer(nat, LayerError),
    /// The neurons of the layer of this index take this many inputs, and
    /// the layer before it has that many neurons.
    Mismatch(nat, nat, nat),
}

impl NetworkError {
    /// The text of the error.
    pub open spec fn message(self) -> Seq<char> {
        match self {
            NetworkError::EmptyLayer(index) => "layer "@ + decimal(index) + ": no neuron"@,
            NetworkError::Layer(index, e) => "layer "@ + decimal(index) + ": "@ + e.message(),
            NetworkError::Mismatch(index, inputs, outputs) => "layer "@ + decimal(index)
                + " takes "@ + decimal(inputs) + " inputs, the layer before it gives "@ + decimal(
                outputs,
            ),
        }
    }
}

/// The number of weights and biases of the neurons `neurons`.
pub open spec fn neurons_parameters<T>(neurons: Seq<Perceptron<T>>) -> nat
    decreases neurons.len(),
{
    if neurons.len() == 0 {
        0
    } else {
        neurons_parameters(neurons.drop_last()) + neurons.last().fan_in() + 1
    }
}

/// The number of weights and biases of the layers `layers`.
pub open spec fn layers_parameters<T>(layers: Seq<Layer<T>>) -> nat
    decreases layers.len(),
{
    if layers.len() == 0 {
        0
    } else {
        layers_parameters(layers.drop_last()) + neurons_parameters(layers.last().neurons@)
    }
}

/// The layers that the runs of lines `groups[from..]` write, after the
/// layers `done`; the error of the first run that writes none.
pub open spec fn layers_of(groups: Seq<Seq<Seq<char>>>, from: int, done: Seq<Seq<Neuron>>)
    -> Result<Seq<Seq<Neuron>>, NetworkError>
    decreases groups.len() - from,
{
    if from < 0 || from >= groups.len() {
        Ok(done)
    } else if groups[from].len() == 0 {
        Err(NetworkError::EmptyLayer(from as nat))
    } else {
        match layer_of_lines(groups[from]) {
            Ok(layer) => layers_of(groups, from + 1, done.push(layer)),
            Err(e) => Err(NetworkError::Layer(from as nat, e)),
        }
    }
}

/// The number of inputs that the neurons of a layer take: that of its
/// first neuron.
pub open spec fn inputs_of(layer: Seq<Neuron>) -> nat {
    if layer.len() == 0 {
        0
    } else {
        layer[0].weights.len()
    }
}

/// The first index at or after `from` of a layer that takes another number
/// of inputs than the layer before it has neurons, or the number of layers
/// where all that follow fit.
pub open spec fn mismatch_at(layers: Seq<Seq<Neuron>>, from: int) -> int
    decreases layers.len() - from,
{
    if from < 1 || from >= layers.len() {
        layers.len() as int
    } else if inputs_of(layers[from]) == layers[from - 1].len() {
        mismatch_at(layers, from + 1)
    } else {
        from
    }
}

/// The network that `text` writes. A line that holds `---` and nothing
/// else separates two layers, and the other lines are neurons. Every layer
/// has a neuron, the neurons of a layer have as many weights as its first,
/// and as many as the layer before it has neurons.
pub open spec fn network_of(text: Seq<char>) -> Result<Seq<Seq<Neuron>>, NetworkError> {
    let groups = split_on(split_on(text, '\n'), "---"@);
    match layers_of(groups, 0, Seq::empty()) {
        Err(e) => Err(e),
        Ok(layers) => {
            let at = mismatch_at(layers, 1);
            if 1 <= at < layers.len() {
                Err(NetworkError::Mismatch(at as nat, inputs_of(layers[at]), layers[at - 1].len()))
            } else {
                Ok(layers)
            }
        },
    }
}

/// The texts that write the layers `layers`.
pub open spec fn layer_texts(layers: Seq<Seq<Neuron>>) -> Seq<Seq<char>> {
    Seq::new(layers.len(), |i: int| layer_text(layers[i]))
}

/// The text that writes the layers `layers`: the text of each, and between
/// each two a line that holds `---`.
pub open spec fn network_text(layers: Seq<Seq<Neuron>>) -> Seq<char> {
    join(layer_texts(layers), "\n---\n"@)
}

/// The layers of `layers` as they are written.
pub open spec fn written_layers(layers: Seq<Layer<Number>>) -> Seq<Seq<Neuron>> {
    Seq::new(layers.len(), |i: int| layers[i].written())
}

impl<T> Network<T> {
    /// The number of neurons of each layer, in order.
    pub open spec fn architecture(&self) -> Seq<usize> {
        Seq::new(self.0@.len(), |i: int| self.0@[i].neurons@.len() as usize)
    }

    /// Whether each layer but the first takes as many inputs as the layer
    /// before it has neurons.
    pub open spec fn chained(&self) -> bool {
        forall|i: int|
            1 <= i < self.0@.len() ==> (#[trigger] self.0@[i]).accepts(self.0@[i - 1].width())
    }

    /// Whether the network has a layer, takes `inputs` inputs, and is
    /// chained.
    pub open spec fn well_formed(&self, inputs: nat) -> bool {
        &&& self.0@.len() >= 1
        &&& self.0@[0].accepts(inputs)
        &&& self.chained()
    }

    /// The number of outputs of the network: the neurons of its last layer.
    pub open spec fn output_width(&self) -> nat {
        if self.0@.len() == 0 {
            0
        } else {
            self.0@.last().width()
        }
    }

    /// The number of weights and biases of the network.
    pub open spec fn parameter_count(&self) -> nat {
        layers_parameters(self.0@)
    }

    /// Switches every layer between training and inference.
    pub fn set_training_mode(&mut self, training: bool)
        ensures
            final(self).0.len() == old(self).0.len(),
            forall|i: int|
                0 <= i < old(self).0.len() ==> {
                    &&& (#[trigger] final(self).0@[i]).training_mode == training
                    &&& final(self).0@[i].neurons == old(self).0@[i].neurons
                    &&& final(self).0@[i].dropout_rate == old(self).0@[i].dropout_rate
                },
    {
        let mut i: usize = 0;
        while i < self.0.len()
            invariant
                i <= self.0.len(),
                self.0.len() == old(self).0.len(),
                forall|k: int|
                    0 <= k < self.0.len() ==> {
                        &&& (#[trigger] self.0@[k]).neurons == old(self).0@[k].neurons
                        &&& self.0@[k].dropout_rate == old(self).0@[k].dropout_rate
                    },
                forall|k: int| 0 <= k < i ==> (#[trigger] self.0@[k]).training_mode == training,
                forall|k: int|
                    i <= k < self.0.len() ==> (#[trigger] self.0@[k]).training_mode == old(
                        self,
                    ).0@[k].training_mode,
            decreases self.0.len() - i,
        {
            self.0[i].set_training_mode(training);
            i += 1;
        }
    }

    /// The number of neurons of each layer, in order.
    pub fn get_architecture(&self) -> (widths: Vec<usize>)
        ensures
            widths@ == self.architecture(),
    {
        let mut widths: Vec<usize> = Vec::new();
        let mut i: usize = 0;
        while i < self.0.len()
            invariant
                i <= self.0.len(),
                widths.len() == i,
                forall|k: int| 0 <= k < i ==> widths@[k] == self.0@[k].neurons@.len(),
            decreases self.0.len() - i,
        {
            widths.push(self.0[i].neurons.len());
            i += 1;
        }
        assert(widths@ =~= self.architecture());
        widths
    }

    /// The number of weights and biases of the network, where it is at
    /// most `usize::MAX`.
    pub fn checked_count_parameters(&self) -> (count: Option<usize>)
        ensures
            count == if self.parameter_count() <= usize::MAX {
                Some(self.parameter_count() as usize)
            } else {
                None
            },
    {
        let mut total: usize = 0;
        let mut i: usize = 0;
        proof {
            assert(self.0@.take(0) =~= Seq::<Layer<T>>::empty());
        }
        while i < self.0.len()
            invariant
                i <= self.0.len(),
                total == layers_parameters(self.0@.take(i as int)),
            decreases self.0.len() - i,
        {
            let layer = &self.0[i];
            let ghost before = layers_parameters(self.0@.take(i as int));
            let mut j: usize = 0;
            proof {
                assert(layer.neurons@.take(0) =~= Seq::<Perceptron<T>>::empty());
                assert(self.0@.take(i + 1).drop_last() =~= self.0@.take(i as int));
                lemma_layers_parameters_grow(self.0@, i + 1);
            }
            while j < layer.neurons.len()
                invariant
                    j <= layer.neurons.len(),
                    i < self.0.len(),
                    *layer == self.0@[i as int],
                    before == layers_parameters(self.0@.take(i as int)),
                    total == before + neurons_parameters(layer.neurons@.take(j as int)),
                    layers_parameters(self.0@.take(i + 1)) <= self.parameter_count(),
                decreases layer.neurons.len() - j,
            {
                let width: usize = layer.neurons[j].weights.len();
                proof {
                    assert(layer.neurons@.take(j + 1).drop_last() =~= layer.neurons@.take(j as int));
                    lemma_neurons_parameters_grow(layer.neurons@, j + 1);
                    assert(self.0@.take(i + 1).last() == *layer);
                    assert(self.0@.take(i + 1).drop_last() =~= self.0@.take(i as int));
                    assert(layers_parameters(self.0@.take(i + 1)) == before + neurons_parameters(
                        layer.neurons@,
                    ));
                    assert(neurons_parameters(layer.neurons@.take(j + 1)) == neurons_parameters(
                        layer.neurons@.take(j as int),
                    ) + width + 1);
                }
                if width == usize::MAX || total > usize::MAX - (width + 1) {
                    return None;
                }
                total = total + (width + 1);
                j += 1;
            }
            proof {
                assert(layer.neurons@.take(layer.neurons.len() as int) =~= layer.neurons@);
                assert(self.0@.take(i + 1).last() == *layer);
            }
            i += 1;
        }
        proof {
            assert(self.0@.take(self.0.len() as int) =~= self.0@);
        }
        Some(total)
    }

    /// The number of weights and biases of the network.
    pub fn count_parameters(&self) -> (count: usize)
        requires
            self.parameter_count() <= usize::MAX,
        ensures
            count == self.parameter_count(),
    {
        match self.checked_count_parameters() {
            Some(count) => count,
            None => 0,
        }
    }

    /// Whether an example of `inputs` inputs and `targets` targets fits the
    /// network: it is well formed for that many inputs, and gives as many
    /// outputs as there are targets.
    pub open spec fn fits(&self, inputs: nat, targets: nat) -> bool {
        self.well_formed(inputs) && self.output_width() == targets
    }

    /// Whether an example of `inputs` inputs and `targets` targets fits the
    /// network.
    pub fn accepts_example(&self, inputs: usize, targets: usize) -> (b: bool)
        ensures
            b == self.fits(inputs as nat, targets as nat),
    {
        self.is_well_formed(inputs) && self.0[self.0.len() - 1].neurons.len() == targets
    }

    /// Whether the network has a layer, takes `inputs` inputs, and is
    /// chained.
    pub fn is_well_formed(&self, inputs: usize) -> (b: bool)
        ensures
            b == self.well_formed(inputs as nat),
    {
        if self.0.len() == 0 {
            return false;
        }
        if !self.0[0].takes(inputs) {
            return false;
        }
        let mut i: usize = 1;
        while i < self.0.len()
            invariant
                1 <= i <= self.0.len(),
                self.0@[0].accepts(inputs as nat),
                forall|k: int|
                    1 <= k < i ==> (#[trigger] self.0@[k]).accepts(self.0@[k - 1].width()),
            decreases self.0.len() - i,
        {
            if !self.0[i].takes(self.0[i - 1].neurons.len()) {
                return false;
            }
            i += 1;
        }
        true
    }
}

impl Network<Number> {
    /// The layers of the network as they are written: the neurons of each.
    /// The dropout rates and the modes of the layers are not written.
    pub open spec fn written(&self) -> Seq<Seq<Neuron>> {
        written_layers(self.0@)
    }

    /// Reads a network from its text. Its layers drop nothing and are in
    /// inference mode.
    pub fn new(config: String) -> (r: Result<Self, String>)
        ensures
            match network_of(config@) {
                Ok(layers) => {
                    &&& r is Ok
                    &&& r->Ok_0.written() == layers
                    &&& forall|i: int|
                        0 <= i < r->Ok_0.0@.len() ==> (#[trigger] r->Ok_0.0@[i]).dropout_rate@
                            == seq!['0'] && !r->Ok_0.0@[i].training_mode
                },
                Err(e) => r is Err && r->Err_0@ == e.message(),
            },
    {
        let text = chars_of(config.as_str());
        let lines = split_chars(&text, '\n');
        let sep = chars_of("---");
        let ranges = split_lines(&lines, &sep);
        let ghost groups = runs(views(lines@), ranges@);
        let mut layers: Vec<Layer<Number>> = Vec::new();
        let mut i: usize = 0;
        proof {
            assert(written_layers(layers@) =~= Seq::<Seq<Neuron>>::empty());
        }
        while i < ranges.len()
            invariant
                i <= ranges.len(),
                layers.len() == i,
                groups == runs(views(lines@), ranges@),
                groups == split_on(split_on(config@, '\n'), "---"@),
                forall|k: int|
                    0 <= k < ranges.len() ==> (#[trigger] ranges@[k]).0 <= ranges@[k].1
                        <= lines.len(),
                layers_of(groups, 0, Seq::empty()) == layers_of(
                    groups,
                    i as int,
                    written_layers(layers@),
                ),
                forall|k: int|
                    0 <= k < i ==> (#[trigger] layers@[k]).dropout_rate@ == seq!['0']
                        && !layers@[k].training_mode,
            decreases ranges.len() - i,
        {
            let (from, to) = ranges[i];
            proof {
                assert(groups[i as int] == views(lines@).subrange(from as int, to as int));
            }
            if from == to {
                let mut message = chars_of("layer ");
                let index = decimal_of(i);
                extend_chars(&mut message, &index);
                let tail = chars_of(": no neuron");
                extend_chars(&mut message, &tail);
                return Err(string_of(&message));
            }
            match Layer::from_lines(&lines, from, to) {
                Ok(layer) => {
                    proof {
                        assert(written_layers(layers@.push(layer)) =~= written_layers(
                            layers@,
                        ).push(layer.written()));
                    }
                    layers.push(layer);
                },
                Err(e) => {
                    let mut message = chars_of("layer ");
                    let index = decimal_of(i);
                    extend_chars(&mut message, &index);
                    let colon = chars_of(": ");
                    extend_chars(&mut message, &colon);
                    let cause = chars_of(e.as_str());
                    extend_chars(&mut message, &cause);
                    return Err(string_of(&message));
                },
            }
            i += 1;
        }
        let ghost all = written_layers(layers@);
        let mut k: usize = 1;
        while k < layers.len()
            invariant
                1 <= k,
                all == written_layers(layers@),
                groups == split_on(split_on(config@, '\n'), "---"@),
                layers_of(groups, 0, Seq::empty()) == Ok::<Seq<Seq<Neuron>>, NetworkError>(all),
                mismatch_at(all, 1) == mismatch_at(all, k as int),
            decreases layers.len() - k,
        {
            let layer = &layers[k];
            let inputs: usize = if layer.neurons.len() == 0 {
                0
            } else {
                layer.neurons[0].weights.len()
            };
            let outputs: usize = layers[k - 1].neurons.len();
            proof {
                assert(all[k as int] == layer.written());
                assert(all[k - 1] == layers@[k - 1].written());
                if layer.neurons.len() > 0 {
                    assert(layer.written()[0] == layer.neurons@[0].written());
                }
                assert(inputs == inputs_of(all[k as int]));
                assert(outputs == all[k - 1].len());
            }
            if inputs != outputs {
                let mut message = chars_of("layer ");
                let index = decimal_of(k);
                extend_chars(&mut message, &index);
                let takes = chars_of(" takes ");
                extend_chars(&mut message, &takes);
                let inputs_text = decimal_of(inputs);
                extend_chars(&mut message, &inputs_text);
                let gives = chars_of(" inputs, the layer before it gives ");
                extend_chars(&mut message, &gives);
                let outputs_text = decimal_of(outputs);
                extend_chars(&mut message, &outputs_text);
                return Err(string_of(&message));
            }
            k += 1;
        }
        Ok(Network(layers))
    }

    /// The text that writes the network.
    pub fn to_string(&self) -> (s: String)
        ensures
            s@ == network_text(self.written()),
    {
        let mut texts: Vec<Vec<char>> = Vec::new();
        let mut i: usize = 0;
        while i < self.0.len()
            invariant
                i <= self.0.len(),
                texts.len() == i,
                forall|k: int|
                    0 <= k < i ==> (#[trigger] texts@[k])@ == layer_text(self.0@[k].written()),
            decreases self.0.len() - i,
        {
            texts.push(self.0[i].text());
            i += 1;
        }
        let sep = chars_of("\n---\n");
        proof {
            assert(views(texts@) =~= layer_texts(self.written()));
            assert(views(texts@).subrange(0, texts.len() as int) =~= views(texts@));
        }
        let out = join_chars(&texts, 0, texts.len(), &sep);
        string_of(&out)
    }
}

/// The parameters of the first `k` neurons are among those of all.
pub proof fn lemma_neurons_parameters_grow<T>(neurons: Seq<Perceptron<T>>, k: int)
    requires
        0 <= k <= neurons.len(),
    ensures
        neurons_parameters(neurons.take(k)) <= neurons_parameters(neurons),
    decreases neurons.len() - k,
{
    if k == neurons.len() {
        assert(neurons.take(k) =~= neurons);
    } else {
        lemma_neurons_parameters_grow(neurons, k + 1);
        assert(neurons.take(k + 1).drop_last() =~= neurons.take(k));
    }
}

/// The parameters of the first `k` layers are among those of all.
pub proof fn lemma_layers_parameters_grow<T>(layers: Seq<Layer<T>>, k: int)
    requires
        0 <= k <= layers.len(),
    ensures
        layers_parameters(layers.take(k)) <= layers_parameters(layers),
    decreases layers.len() - k,
{
    if k == layers.len() {
        assert(layers.take(k) =~= layers);
    } else {
        lemma_layers_parameters_grow(layers, k + 1);
        assert(layers.take(k + 1).drop_last() =~= layers.take(k));
    }
}

} // verus!

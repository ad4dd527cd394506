//! A layer: neurons that share their inputs, in the order of its outputs.

use crate::decimal::{decimal, decimal_of};
use crate::network::perceptron::{neuron_line, neuron_of, Neuron, NeuronError, Perceptron};
use crate::number::Number;
use crate::text::{chars_of, extend_chars, join, join_chars, split_chars, split_on, string_of, views};
use vstd::prelude::*;

verus! {

/// A layer over numbers of type `T`. With `training_mode` set, a forward
/// pass drops each output with probability `dropout_rate`.
#[derive(Debug, Clone)]
pub struct Layer<T> {
    pub neurons: Vec<Perceptron<T>>,
    pub dropout_rate: T,
    pub training_mode: bool,
}

/// Why a text is not a layer.
pub enum LayerError {
    /// One of its lines is not a neuron.
    Neuron(NeuronError),
    /// The neuron of this index has this many weights, and the first neuron
    /// of the layer that many.
    Ragged(nat, nat, nat),
}

impl LayerError {
    /// The text of the error.
    pub open spec fn message(self) -> Seq<char> {
        match self {
            LayerError::Neuron(e) => e.message(),
            LayerError::Ragged(index, found, expected) => "neuron "@ + decimal(index) + " has "@
                + decimal(found) + " weights, expected "@ + decimal(expected),
        }
    }
}

/// The neurons that the lines `lines[from..]` write, after the neurons
/// `done`; the error of the first line that writes none.
pub open spec fn neurons_of(lines: Seq<Seq<char>>, from: int, done: Seq<Neuron>) -> Result<
    Seq<Neuron>,
    NeuronError,
>
    decreases lines.len() - from,
{
    if from < 0 || from >= lines.len() {
        Ok(done)
    } else {
        match neuron_of(lines[from]) {
            Ok(neuron) => neurons_of(lines, from + 1, done.push(neuron)),
            Err(e) => Err(e),
        }
    }
}

/// The first index at or after `from` of a neuron that has not `width`
/// weights, or the number of neurons where all that follow have.
pub open spec fn ragged_at(neurons: Seq<Neuron>, width: nat, from: int) -> int
    decreases neurons.len() - from,
{
    if from < 0 || from >= neurons.len() {
        neurons.len() as int
    } else if neurons[from].weights.len() == width {
        ragged_at(neurons, width, from + 1)
    } else {
        from
    }
}

/// The layer that `lines` write, one neuron per line: all its neurons have
/// as many weights as the first.
pub open spec fn layer_of_lines(lines: Seq<Seq<char>>) -> Result<Seq<Neuron>, LayerError> {
    match neurons_of(lines, 0, Seq::empty()) {
        Err(e) => Err(LayerError::Neuron(e)),
        Ok(neurons) => if neurons.len() == 0 {
            Ok(neurons)
        } else {
            let width = neurons[0].weights.len();
            let at = ragged_at(neurons, width, 0);
            if 0 <= at < neurons.len() {
                Err(LayerError::Ragged(at as nat, neurons[at].weights.len(), width))
            } else {
                Ok(neurons)
            }
        },
    }
}

/// The layer that `text` writes: its lines are its neurons.
pub open spec fn layer_of(text: Seq<char>) -> Result<Seq<Neuron>, LayerError> {
    layer_of_lines(split_on(text, '\n'))
}

/// The lines that write the neurons `neurons`.
pub open spec fn layer_lines(neurons: Seq<Neuron>) -> Seq<Seq<char>> {
    Seq::new(neurons.len(), |i: int| neuron_line(neurons[i]))
}

/// The text that writes the neurons `neurons`: their lines, with a line
/// break between each two.
pub open spec fn layer_text(neurons: Seq<Neuron>) -> Seq<char> {
    join(layer_lines(neurons), seq!['\n'])
}

/// The neurons of `neurons` as they are written.
pub open spec fn written_neurons(neurons: Seq<Perceptron<Number>>) -> Seq<Neuron> {
    Seq::new(neurons.len(), |i: int| neurons[i].written())
}

impl<T> Layer<T> {
    /// The number of outputs of the layer: that of its neurons.
    pub open spec fn width(&self) -> nat {
        self.neurons@.len()
    }

    /// Whether every neuron of the layer takes `inputs` inputs.
    pub open spec fn accepts(&self, inputs: nat) -> bool {
        forall|i: int| 0 <= i < self.neurons@.len() ==> (#[trigger] self.neurons@[i]).fan_in() == inputs
    }

    /// The neurons of the layer.
    pub fn neurons(&self) -> (r: &Vec<Perceptron<T>>)
        ensures
            *r == self.neurons,
    {
        &self.neurons
    }

    /// The neurons of the layer, to be changed in place.
    pub fn neurons_mut(&mut self) -> (r: &mut Vec<Perceptron<T>>)
        ensures
            *r == old(self).neurons,
            final(self).neurons == *final(r),
            final(self).dropout_rate == old(self).dropout_rate,
            final(self).training_mode == old(self).training_mode,
    {
        &mut self.neurons
    }

    /// Sets the probability with which a forward pass in training mode
    /// drops an output.
    pub fn set_dropout(&mut self, rate: T)
        ensures
            final(self).dropout_rate == rate,
            final(self).neurons == old(self).neurons,
            final(self).training_mode == old(self).training_mode,
    {
        self.dropout_rate = rate;
    }

    /// Switches the layer between training and inference.
    pub fn set_training_mode(&mut self, training: bool)
        ensures
            final(self).training_mode == training,
            final(self).neurons == old(self).neurons,
            final(self).dropout_rate == old(self).dropout_rate,
    {
        self.training_mode = training;
    }

    /// Whether a forward pass through the layer drops outputs, `positive`
    /// saying whether its dropout rate is above zero: only in training
    /// mode, and only with such a rate. In inference mode a forward pass
    /// drops nothing, whatever the rate.
    pub fn drops(&self, positive: bool) -> (b: bool)
        ensures
            b == (self.training_mode && positive),
    {
        self.training_mode && positive
    }

    /// Whether every neuron of the layer takes `inputs` inputs.
    pub fn takes(&self, inputs: usize) -> (b: bool)
        ensures
            b == self.accepts(inputs as nat),
    {
        let mut i: usize = 0;
        while i < self.neurons.len()
            invariant
                i <= self.neurons.len(),
                forall|k: int| 0 <= k < i ==> (#[trigger] self.neurons@[k]).fan_in() == inputs,
            decreases self.neurons.len() - i,
        {
            if self.neurons[i].weights.len() != inputs {
                return false;
            }
            i += 1;
        }
        true
    }
}

impl Layer<Number> {
    /// The neurons of the layer as they are written. The dropout rate and
    /// the mode of the layer are not written.
    pub open spec fn written(&self) -> Seq<Neuron> {
        written_neurons(self.neurons@)
    }

    /// Reads a layer from its text, one neuron per line. The layer drops
    /// nothing and is in inference mode.
    pub fn new(config: String) -> (r: Result<Self, String>)
        ensures
            match layer_of(config@) {
                Ok(neurons) => r is Ok && r->Ok_0.written() == neurons && r->Ok_0.dropout_rate@
                    == seq!['0'] && !r->Ok_0.training_mode,
                Err(e) => r is Err && r->Err_0@ == e.message(),
            },
    {
        let text = chars_of(config.as_str());
        let lines = split_chars(&text, '\n');
        proof {
            assert(views(lines@).subrange(0, lines.len() as int) =~= views(lines@));
        }
        Self::from_lines(&lines, 0, lines.len())
    }

    /// Reads a layer from the lines `lines[from..to]`.
    pub fn from_lines(lines: &Vec<Vec<char>>, from: usize, to: usize) -> (r: Result<Self, String>)
        requires
            from <= to <= lines.len(),
        ensures
            match layer_of_lines(views(lines@).subrange(from as int, to as int)) {
                Ok(neurons) => r is Ok && r->Ok_0.written() == neurons && r->Ok_0.dropout_rate@
                    == seq!['0'] && !r->Ok_0.training_mode,
                Err(e) => r is Err && r->Err_0@ == e.message(),
            },
    {
        let ghost own = views(lines@).subrange(from as int, to as int);
        let mut neurons: Vec<Perceptron<Number>> = Vec::new();
        let mut i: usize = from;
        proof {
            assert(written_neurons(neurons@) =~= Seq::<Neuron>::empty());
        }
        while i < to
            invariant
                from <= i <= to <= lines.len(),
                own == views(lines@).subrange(from as int, to as int),
                neurons.len() == i - from,
                neurons_of(own, 0, Seq::empty()) == neurons_of(
                    own,
                    i - from,
                    written_neurons(neurons@),
                ),
            decreases to - i,
        {
            proof {
                assert(own[i - from] == lines@[i as int]@);
            }
            match Perceptron::from_line(&lines[i]) {
                Ok(neuron) => {
                    proof {
                        assert(written_neurons(neurons@.push(neuron)) =~= written_neurons(
                            neurons@,
                        ).push(neuron.written()));
                    }
                    neurons.push(neuron);
                },
                Err(e) => {
                    return Err(e);
                },
            }
            i += 1;
        }
        let ghost all = written_neurons(neurons@);
        if neurons.len() > 0 {
            let width: usize = neurons[0].weights.len();
            let mut k: usize = 0;
            proof {
                assert(all[0] == neurons@[0].written());
            }
            while k < neurons.len()
                invariant
                    k <= neurons.len(),
                    neurons.len() > 0,
                    own == views(lines@).subrange(from as int, to as int),
                    all == written_neurons(neurons@),
                    neurons_of(own, 0, Seq::empty()) == Ok::<Seq<Neuron>, NeuronError>(all),
                    width == all[0].weights.len(),
                    ragged_at(all, width as nat, 0) == ragged_at(all, width as nat, k as int),
                decreases neurons.len() - k,
            {
                proof {
                    assert(all[k as int] == neurons@[k as int].written());
                }
                let found: usize = neurons[k].weights.len();
                if found != width {
                    proof {
                        assert(all[k as int].weights.len() == found);
                        assert(ragged_at(all, width as nat, k as int) == k);
                        assert(own == views(lines@).subrange(from as int, to as int));
                    }
                    let mut message = chars_of("neuron ");
                    let index = decimal_of(k);
                    extend_chars(&mut message, &index);
                    let has = chars_of(" has ");
                    extend_chars(&mut message, &has);
                    let found_text = decimal_of(found);
                    extend_chars(&mut message, &found_text);
                    let expected = chars_of(" weights, expected ");
                    extend_chars(&mut message, &expected);
                    let width_text = decimal_of(width);
                    extend_chars(&mut message, &width_text);
                    return Err(string_of(&message));
                }
                k += 1;
            }
        }
        Ok(Layer { neurons, dropout_rate: Number::zero(), training_mode: false })
    }

    /// The lines that write the layer, as characters.
    pub fn lines(&self) -> (out: Vec<Vec<char>>)
        ensures
            views(out@) == layer_lines(self.written()),
    {
        let mut out: Vec<Vec<char>> = Vec::new();
        let mut i: usize = 0;
        while i < self.neurons.len()
            invariant
                i <= self.neurons.len(),
                out.len() == i,
                forall|k: int| 0 <= k < i ==> (#[trigger] out@[k])@ == neuron_line(
                    self.neurons@[k].written(),
                ),
            decreases self.neurons.len() - i,
        {
            out.push(self.neurons[i].line());
            i += 1;
        }
        proof {
            assert(views(out@) =~= layer_lines(self.written()));
        }
        out
    }

    /// The text that writes the layer, as characters.
    pub fn text(&self) -> (out: Vec<char>)
        ensures
            out@ == layer_text(self.written()),
    {
        let lines = self.lines();
        let sep: Vec<char> = vec!['\n'];
        proof {
            assert(sep@ =~= seq!['\n']);
            assert(views(lines@).subrange(0, lines.len() as int) =~= views(lines@));
        }
        join_chars(&lines, 0, lines.len(), &sep)
    }

    /// The text that writes the layer: one line per neuron.
    pub fn to_string(&self) -> (s: String)
        ensures
            s@ == layer_text(self.written()),
    {
        let out = self.text();
        string_of(&out)
    }
}

} // verus!

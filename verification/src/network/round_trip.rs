//! Reading what was written: the text of a network reads back as the
//! network.

use crate::activation::{activation_name, lemma_name_letters, lemma_name_names};
use crate::network::layer::{
    layer_lines, layer_of_lines, layer_text, neurons_of, ragged_at, LayerError,
};
use crate::network::network::{
    inputs_of, layer_texts, layers_of, mismatch_at, network_of, network_text, NetworkError,
};
use crate::network::perceptron::{neuron_line, neuron_of, numbers_end, Neuron, NeuronError};
use crate::number::{is_float_literal, lemma_literal_is_word};
use crate::text::{
    is_space, is_word, join, lemma_join_concat, lemma_split_join, lemma_words_after_word,
    lemma_words_join, split_on, words,
};
use vstd::prelude::*;

verus! {

/// Whether the bias and the weights of `neuron` are literals.
pub open spec fn well_written(neuron: Neuron) -> bool {
    &&& is_float_literal(neuron.bias)
    &&& forall|k: int| 0 <= k < neuron.weights.len() ==> is_float_literal(#[trigger] neuron.weights[k])
}

/// Whether `layers` are the layers of a network that can be written and
/// read: there is a layer, every layer has a neuron, the biases and the
/// weights are literals, the neurons of a layer have as many weights as
/// its first, and as many as the layer before it has neurons.
pub open spec fn readable(layers: Seq<Seq<Neuron>>) -> bool {
    &&& layers.len() >= 1
    &&& forall|i: int| 0 <= i < layers.len() ==> (#[trigger] layers[i]).len() >= 1
    &&& forall|i: int, j: int|
        0 <= i < layers.len() && 0 <= j < layers[i].len() ==> {
            &&& well_written(#[trigger] layers[i][j])
            &&& layers[i][j].weights.len() == inputs_of(layers[i])
        }
    &&& forall|i: int| 1 <= i < layers.len() ==> inputs_of(#[trigger] layers[i]) == layers[i - 1].len()
}

/// Whether `line` holds no line break.
pub open spec fn unbroken(line: Seq<char>) -> bool {
    forall|k: int| 0 <= k < line.len() ==> #[trigger] line[k] != '\n'
}

/// The lines of each of the layers `layers`.
pub open spec fn lines_of(layers: Seq<Seq<Neuron>>) -> Seq<Seq<Seq<char>>> {
    Seq::new(layers.len(), |i: int| layer_lines(layers[i]))
}

/// Words joined by single spaces hold no line break.
pub proof fn lemma_joined_words_unbroken(tokens: Seq<Seq<char>>)
    requires
        forall|i: int| 0 <= i < tokens.len() ==> is_word(#[trigger] tokens[i]),
    ensures
        unbroken(join(tokens, seq![' '])),
    decreases tokens.len(),
{
    assert(is_space('\n'));
    if tokens.len() >= 2 {
        lemma_joined_words_unbroken(tokens.drop_last());
        assert(is_word(tokens.last()));
    } else if tokens.len() == 1 {
        assert(is_word(tokens[0]));
    }
}

/// Where only literals stand from `from` on, `numbers_end` finds no other
/// word.
pub proof fn lemma_all_numbers(tokens: Seq<Seq<char>>, from: int)
    requires
        0 <= from <= tokens.len(),
        forall|k: int| from <= k < tokens.len() ==> is_float_literal(#[trigger] tokens[k]),
    ensures
        numbers_end(tokens, from) == tokens.len(),
    decreases tokens.len() - from,
{
    if from < tokens.len() {
        lemma_all_numbers(tokens, from + 1);
    }
}

/// The line of a neuron reads back as the neuron. It holds no line break,
/// and starts with a lower-case letter.
pub proof fn lemma_neuron_round_trip(neuron: Neuron)
    requires
        well_written(neuron),
    ensures
        neuron_of(neuron_line(neuron)) == Ok::<Neuron, NeuronError>(neuron),
        unbroken(neuron_line(neuron)),
        neuron_line(neuron).len() > 0,
        'a' <= neuron_line(neuron)[0] <= 'z',
{
    let name = activation_name(neuron.activation);
    let space = seq![' '];
    let tail = join(neuron.weights, space);
    let after_name = neuron.bias + space + tail;
    let line = neuron_line(neuron);
    lemma_name_letters(neuron.activation);
    lemma_name_names(neuron.activation);
    lemma_literal_is_word(neuron.bias);
    assert forall|i: int| 0 <= i < neuron.weights.len() implies is_word(
        #[trigger] neuron.weights[i],
    ) by {
        lemma_literal_is_word(neuron.weights[i]);
    }
    assert(is_word(name)) by {
        assert forall|i: int| 0 <= i < name.len() implies !is_space(#[trigger] name[i]) by {
            assert('a' <= name[i] <= 'z');
        }
    }
    assert(line =~= name + space + after_name);
    lemma_words_after_word(name, after_name);
    lemma_words_after_word(neuron.bias, tail);
    lemma_words_join(neuron.weights);
    let tokens = words(line);
    assert(tokens =~= seq![name] + (seq![neuron.bias] + neuron.weights));
    assert(tokens[0] == name);
    assert(tokens[1] == neuron.bias);
    assert forall|k: int| 1 <= k < tokens.len() implies is_float_literal(#[trigger] tokens[k]) by {
        if k >= 2 {
            assert(tokens[k] == neuron.weights[k - 2]);
        }
    }
    lemma_all_numbers(tokens, 1);
    assert(tokens.skip(2) =~= neuron.weights);
    lemma_joined_words_unbroken(neuron.weights);
    assert(is_space('\n'));
    assert(unbroken(line)) by {
        assert forall|k: int| 0 <= k < line.len() implies #[trigger] line[k] != '\n' by {
            if k < name.len() {
                assert(line[k] == name[k]);
            } else if k == name.len() {
            } else if k < name.len() + 1 + neuron.bias.len() {
                assert(line[k] == neuron.bias[k - name.len() - 1]);
            } else if k == name.len() + 1 + neuron.bias.len() {
            } else {
                assert(line[k] == tail[k - name.len() - neuron.bias.len() - 2]);
            }
        }
    }
    assert(line[0] == name[0]);
}

/// The lines of neurons read back as the neurons, whatever was read
/// before them.
pub proof fn lemma_neurons_round_trip(neurons: Seq<Neuron>, from: int)
    requires
        0 <= from <= neurons.len(),
        forall|j: int| 0 <= j < neurons.len() ==> well_written(#[trigger] neurons[j]),
    ensures
        neurons_of(layer_lines(neurons), from, neurons.take(from)) == Ok::<
            Seq<Neuron>,
            NeuronError,
        >(neurons),
    decreases neurons.len() - from,
{
    if from == neurons.len() {
        assert(neurons.take(from) =~= neurons);
    } else {
        lemma_neuron_round_trip(neurons[from]);
        assert(neurons.take(from).push(neurons[from]) =~= neurons.take(from + 1));
        lemma_neurons_round_trip(neurons, from + 1);
    }
}

/// Where all neurons from `from` on have `width` weights, `ragged_at`
/// finds no other.
pub proof fn lemma_not_ragged(neurons: Seq<Neuron>, width: nat, from: int)
    requires
        0 <= from <= neurons.len(),
        forall|j: int| from <= j < neurons.len() ==> (#[trigger] neurons[j]).weights.len() == width,
    ensures
        ragged_at(neurons, width, from) == neurons.len(),
    decreases neurons.len() - from,
{
    if from < neurons.len() {
        lemma_not_ragged(neurons, width, from + 1);
    }
}

/// The lines of a layer read back as the layer.
pub proof fn lemma_layer_round_trip(neurons: Seq<Neuron>)
    requires
        neurons.len() >= 1,
        forall|j: int|
            0 <= j < neurons.len() ==> well_written(#[trigger] neurons[j])
                && neurons[j].weights.len() == inputs_of(neurons),
    ensures
        layer_of_lines(layer_lines(neurons)) == Ok::<Seq<Neuron>, LayerError>(neurons),
{
    assert(neurons.take(0) =~= Seq::<Neuron>::empty());
    lemma_neurons_round_trip(neurons, 0);
    lemma_not_ragged(neurons, neurons[0].weights.len(), 0);
}

/// The runs of lines of layers read back as the layers, whatever was read
/// before them.
pub proof fn lemma_layers_round_trip(layers: Seq<Seq<Neuron>>, from: int)
    requires
        0 <= from <= layers.len(),
        readable(layers),
    ensures
        layers_of(lines_of(layers), from, layers.take(from)) == Ok::<
            Seq<Seq<Neuron>>,
            NetworkError,
        >(layers),
    decreases layers.len() - from,
{
    if from == layers.len() {
        assert(layers.take(from) =~= layers);
    } else {
        let layer = layers[from];
        assert forall|j: int| 0 <= j < layer.len() implies well_written(#[trigger] layer[j])
            && layer[j].weights.len() == inputs_of(layer) by {
            assert(well_written(layers[from][j]));
        }
        lemma_layer_round_trip(layer);
        assert(layers.take(from).push(layer) =~= layers.take(from + 1));
        lemma_layers_round_trip(layers, from + 1);
    }
}

/// Where every layer from `from` on takes what the layer before it gives,
/// `mismatch_at` finds no other.
pub proof fn lemma_no_mismatch(layers: Seq<Seq<Neuron>>, from: int)
    requires
        1 <= from,
        forall|i: int| 1 <= i < layers.len() ==> inputs_of(#[trigger] layers[i]) == layers[i - 1].len(),
    ensures
        mismatch_at(layers, from) >= layers.len(),
    decreases layers.len() - from,
{
    if from < layers.len() {
        lemma_no_mismatch(layers, from + 1);
    }
}

/// The lines of a network: the lines of its layers, and between each two
/// layers the line `---`.
pub open spec fn network_lines(layers: Seq<Seq<Neuron>>) -> Seq<Seq<char>> {
    join(lines_of(layers), seq!["---"@])
}

/// The lines of a network are at least one, hold no line break, and join
/// to its text.
pub proof fn lemma_network_lines(layers: Seq<Seq<Neuron>>)
    requires
        readable(layers),
    ensures
        network_lines(layers).len() >= 1,
        forall|k: int| 0 <= k < network_lines(layers).len() ==> unbroken(#[trigger] network_lines(layers)[k]),
        join(network_lines(layers), seq!['\n']) == network_text(layers),
    decreases layers.len(),
{
    let dashes = "---"@;
    let groups = lines_of(layers);
    let last = layers.last();
    let last_lines = layer_lines(last);
    reveal_strlit("---");
    reveal_strlit("\n---\n");
    assert(last_lines.len() >= 1);
    assert forall|k: int| 0 <= k < last_lines.len() implies unbroken(#[trigger] last_lines[k]) by {
        assert(well_written(layers[layers.len() - 1][k]));
        lemma_neuron_round_trip(last[k]);
    }
    if layers.len() == 1 {
        assert(network_lines(layers) == last_lines);
        assert(layer_texts(layers).len() == 1);
        assert(network_text(layers) == layer_text(last));
    } else {
        let before = layers.drop_last();
        assert(readable(before)) by {
            assert forall|i: int, j: int|
                0 <= i < before.len() && 0 <= j < before[i].len() implies well_written(
                #[trigger] before[i][j],
            ) && before[i][j].weights.len() == inputs_of(before[i]) by {
                assert(well_written(layers[i][j]));
            }
            assert forall|i: int| 1 <= i < before.len() implies inputs_of(#[trigger] before[i])
                == before[i - 1].len() by {
                assert(inputs_of(layers[i]) == layers[i - 1].len());
            }
            assert forall|i: int| 0 <= i < before.len() implies (#[trigger] before[i]).len()
                >= 1 by {
                assert(layers[i].len() >= 1);
            }
        }
        lemma_network_lines(before);
        let head = network_lines(before);
        assert(groups.drop_last() =~= lines_of(before));
        assert(groups.last() == last_lines);
        assert(network_lines(layers) == head + seq![dashes] + last_lines);
        lemma_join_concat(head + seq![dashes], last_lines, seq!['\n']);
        lemma_join_concat(head, seq![dashes], seq!['\n']);
        assert(layer_texts(layers).drop_last() =~= layer_texts(before));
        assert(layer_texts(layers).last() == layer_text(last));
        assert("\n---\n"@ =~= seq!['\n'] + dashes + seq!['\n']);
        assert(join(seq![dashes], seq!['\n']) == dashes);
        assert(network_text(layers) =~= join(network_lines(layers), seq!['\n']));
        assert(unbroken(dashes));
    }
}

/// No run of lines of a layer holds the line `---`.
pub proof fn lemma_no_dashes(layers: Seq<Seq<Neuron>>)
    requires
        readable(layers),
    ensures
        forall|i: int, k: int|
            0 <= i < lines_of(layers).len() && 0 <= k < lines_of(layers)[i].len()
                ==> #[trigger] lines_of(layers)[i][k] != "---"@,
{
    reveal_strlit("---");
    assert forall|i: int, k: int|
        0 <= i < lines_of(layers).len() && 0 <= k < lines_of(layers)[i].len()
        implies #[trigger] lines_of(layers)[i][k] != "---"@ by {
        assert(well_written(layers[i][k]));
        lemma_neuron_round_trip(layers[i][k]);
        let line = lines_of(layers)[i][k];
        assert(line == neuron_line(layers[i][k]));
        assert("---"@[0] == '-');
    }
}

/// Round trip. The text of a network that can be written and read reads
/// back as that network: the same layers of the same neurons, each with
/// the same activation function and the same literals for its bias and
/// its weights.
pub proof fn lemma_round_trip(layers: Seq<Seq<Neuron>>)
    requires
        readable(layers),
    ensures
        network_of(network_text(layers)) == Ok::<Seq<Seq<Neuron>>, NetworkError>(layers),
{
    let lines = network_lines(layers);
    lemma_network_lines(layers);
    assert forall|i: int, k: int|
        0 <= i < lines.len() && 0 <= k < lines[i].len() implies #[trigger] lines[i][k]
        != '\n' by {
        assert(unbroken(lines[i]));
    }
    lemma_split_join(lines, '\n');
    lemma_no_dashes(layers);
    lemma_split_join(lines_of(layers), "---"@);
    assert(layers.take(0) =~= Seq::<Seq<Neuron>>::empty());
    lemma_layers_round_trip(layers, 0);
    lemma_no_mismatch(layers, 1);
}

} // verus!

//! The check that ends a training run that has diverged: no weight and no
//! bias may be infinite or fail to be a number.

use crate::decimal::{decimal, decimal_of};
use crate::network::layer::Layer;
use crate::network::network::Network;
use crate::network::perceptron::Perceptron;
use crate::text::{chars_of, extend_chars, string_of};
use vstd::prelude::*;

verus! {

/// What the check reads of a weight or a bias.
#[derive(Clone, Copy, Debug, PartialEq, Eq, Structural)]
pub enum Magnitude {
    /// A number of ordinary size.
    Finite,
    /// A number whose absolute value is above the warning threshold.
    Large,
    /// An infinity.
    Infinite,
    /// Not a number.
    NotANumber,
}

/// One weight or bias of a network, where it stands, and its magnitude.
pub struct Entry {
    pub layer: nat,
    pub neuron: nat,
    /// The index of the weight; nothing for the bias.
    pub weight: Option<nat>,
    pub magnitude: Magnitude,
}

/// The weights of `neuron`, in order, and then its bias.
pub open spec fn neuron_entries(layer: nat, index: nat, neuron: Perceptron<Magnitude>) -> Seq<
    Entry,
> {
    Seq::new(
        neuron.weights@.len() + 1,
        |k: int|
            if k < neuron.weights@.len() {
                Entry { layer, neuron: index, weight: Some(k as nat), magnitude: neuron.weights@[k] }
            } else {
                Entry { layer, neuron: index, weight: None, magnitude: neuron.bias }
            },
    )
}

/// The weights and biases of `neurons`, neuron by neuron.
pub open spec fn layer_entries(layer: nat, neurons: Seq<Perceptron<Magnitude>>) -> Seq<Entry>
    decreases neurons.len(),
{
    if neurons.len() == 0 {
        Seq::empty()
    } else {
        layer_entries(layer, neurons.drop_last()) + neuron_entries(
            layer,
            (neurons.len() - 1) as nat,
            neurons.last(),
        )
    }
}

/// The weights and biases of `layers`, layer by layer.
pub open spec fn network_entries(layers: Seq<Layer<Magnitude>>) -> Seq<Entry>
    decreases layers.len(),
{
    if layers.len() == 0 {
        Seq::empty()
    } else {
        network_entries(layers.drop_last()) + layer_entries(
            (layers.len() - 1) as nat,
            layers.last().neurons@,
        )
    }
}

/// Whether a value of this magnitude ends the training run.
pub open spec fn is_fatal(magnitude: Magnitude) -> bool {
    magnitude == Magnitude::Infinite || magnitude == Magnitude::NotANumber
}

/// The first index at or after `from` of an entry that ends the run, or
/// the number of entries where none that follows does.
pub open spec fn fatal_at(entries: Seq<Entry>, from: int) -> int
    decreases entries.len() - from,
{
    if from < 0 || from >= entries.len() {
        entries.len() as int
    } else if is_fatal(entries[from].magnitude) {
        from
    } else {
        fatal_at(entries, from + 1)
    }
}

/// The places of the large weights among `entries`, in order, each as
/// layer, neuron and weight. A bias is never among them.
pub open spec fn large_weights(entries: Seq<Entry>) -> Seq<(usize, usize, usize)>
    decreases entries.len(),
{
    if entries.len() == 0 {
        Seq::empty()
    } else {
        let last = entries.last();
        let before = large_weights(entries.drop_last());
        if last.magnitude == Magnitude::Large && last.weight is Some {
            before.push((last.layer as usize, last.neuron as usize, last.weight->Some_0 as usize))
        } else {
            before
        }
    }
}

/// The text that reports the entry `entry` as the end of the run.
pub open spec fn failure_message(entry: Entry) -> Seq<char> {
    let kind = if entry.magnitude == Magnitude::NotANumber {
        "NaN"@
    } else {
        "Infinite"@
    };
    let place = " at layer "@ + decimal(entry.layer) + ", neuron "@ + decimal(entry.neuron);
    match entry.weight {
        Some(weight) => kind + " weight"@ + place + ", weight "@ + decimal(weight),
        None => kind + " bias"@ + place,
    }
}

/// The entries of the first `k` neurons of a layer start those of all.
pub proof fn lemma_layer_prefix(layer: nat, neurons: Seq<Perceptron<Magnitude>>, k: int)
    requires
        0 <= k <= neurons.len(),
    ensures
        layer_entries(layer, neurons.take(k)).len() <= layer_entries(layer, neurons).len(),
        layer_entries(layer, neurons).take(layer_entries(layer, neurons.take(k)).len() as int)
            == layer_entries(layer, neurons.take(k)),
    decreases neurons.len() - k,
{
    let whole = layer_entries(layer, neurons);
    if k == neurons.len() {
        assert(neurons.take(k) =~= neurons);
        assert(whole.take(whole.len() as int) =~= whole);
    } else {
        lemma_layer_prefix(layer, neurons, k + 1);
        let longer = layer_entries(layer, neurons.take(k + 1));
        let shorter = layer_entries(layer, neurons.take(k));
        assert(neurons.take(k + 1).drop_last() =~= neurons.take(k));
        assert(longer.take(shorter.len() as int) =~= shorter);
        assert(whole.take(shorter.len() as int) =~= whole.take(longer.len() as int).take(
            shorter.len() as int,
        ));
    }
}

/// The entries of the first `k` layers of a network start those of all.
pub proof fn lemma_network_prefix(layers: Seq<Layer<Magnitude>>, k: int)
    requires
        0 <= k <= layers.len(),
    ensures
        network_entries(layers.take(k)).len() <= network_entries(layers).len(),
        network_entries(layers).take(network_entries(layers.take(k)).len() as int)
            == network_entries(layers.take(k)),
    decreases layers.len() - k,
{
    let whole = network_entries(layers);
    if k == layers.len() {
        assert(layers.take(k) =~= layers);
        assert(whole.take(whole.len() as int) =~= whole);
    } else {
        lemma_network_prefix(layers, k + 1);
        let longer = network_entries(layers.take(k + 1));
        let shorter = network_entries(layers.take(k));
        assert(layers.take(k + 1).drop_last() =~= layers.take(k));
        assert(longer.take(shorter.len() as int) =~= shorter);
        assert(whole.take(shorter.len() as int) =~= whole.take(longer.len() as int).take(
            shorter.len() as int,
        ));
    }
}

/// Where nothing of `entries[from..at]` ends the run and `entries[at]`
/// does, or `at` is the number of entries, `fatal_at` returns `at`.
pub proof fn lemma_fatal_at_is(entries: Seq<Entry>, from: int, at: int)
    requires
        0 <= from <= at <= entries.len(),
        forall|k: int| from <= k < at ==> !is_fatal(#[trigger] entries[k].magnitude),
        at < entries.len() ==> is_fatal(entries[at].magnitude),
    ensures
        fatal_at(entries, from) == at,
    decreases at - from,
{
    if from < at {
        lemma_fatal_at_is(entries, from + 1, at);
    }
}

/// The entries of a network up to and with those of neuron `j` of layer
/// `i` start the entries of the network.
pub proof fn lemma_entries_prefix(layers: Seq<Layer<Magnitude>>, i: int, j: int)
    requires
        0 <= i < layers.len(),
        0 <= j < layers[i].neurons@.len(),
    ensures
        ({
            let upto = network_entries(layers.take(i)) + layer_entries(
                i as nat,
                layers[i].neurons@.take(j),
            ) + neuron_entries(i as nat, j as nat, layers[i].neurons@[j]);
            &&& upto.len() <= network_entries(layers).len()
            &&& network_entries(layers).take(upto.len() as int) == upto
        }),
{
    let neurons = layers[i].neurons@;
    let before = network_entries(layers.take(i));
    let upto = before + layer_entries(i as nat, neurons.take(j)) + neuron_entries(
        i as nat,
        j as nat,
        neurons[j],
    );
    let whole = network_entries(layers);
    assert(neurons.take(j + 1).drop_last() =~= neurons.take(j));
    assert(upto =~= before + layer_entries(i as nat, neurons.take(j + 1)));
    lemma_layer_prefix(i as nat, neurons, j + 1);
    assert(layers.take(i + 1).drop_last() =~= layers.take(i));
    let layer_whole = layer_entries(i as nat, neurons);
    let next = network_entries(layers.take(i + 1));
    assert(next =~= before + layer_whole);
    lemma_network_prefix(layers, i + 1);
    assert(next.take(upto.len() as int) =~= before + layer_whole.take(
        layer_entries(i as nat, neurons.take(j + 1)).len() as int,
    ));
    assert(whole.take(upto.len() as int) =~= whole.take(next.len() as int).take(
        upto.len() as int,
    ));
}

/// Where the entries `seen` start the entries `all` and hold nothing that
/// ends the run, the first entry that does, if there is one, comes right
/// after them.
pub proof fn lemma_first_fatal(all: Seq<Entry>, seen: Seq<Entry>)
    requires
        seen.len() <= all.len(),
        all.take(seen.len() as int) == seen,
        forall|x: int| 0 <= x < seen.len() ==> !is_fatal(#[trigger] seen[x].magnitude),
        seen.len() < all.len() ==> is_fatal(all[seen.len() as int].magnitude),
    ensures
        fatal_at(all, 0) == seen.len(),
{
    assert forall|x: int| 0 <= x < seen.len() implies !is_fatal(#[trigger] all[x].magnitude) by {
        assert(all[x] == all.take(seen.len() as int)[x]);
    }
    lemma_fatal_at_is(all, 0, seen.len() as int);
}

/// `fatal_at` finds the first entry that ends the run: none before it
/// does.
pub proof fn lemma_fatal_at(entries: Seq<Entry>, from: int)
    requires
        0 <= from <= entries.len(),
    ensures
        from <= fatal_at(entries, from) <= entries.len(),
        fatal_at(entries, from) < entries.len() ==> is_fatal(
            entries[fatal_at(entries, from)].magnitude,
        ),
        forall|k: int|
            from <= k < fatal_at(entries, from) ==> !is_fatal(#[trigger] entries[k].magnitude),
    decreases entries.len() - from,
{
    if from < entries.len() && !is_fatal(entries[from].magnitude) {
        lemma_fatal_at(entries, from + 1);
    }
}

/// Whether no weight and no bias of `neuron` ends the run.
pub open spec fn neuron_sound(neuron: Perceptron<Magnitude>) -> bool {
    &&& !is_fatal(neuron.bias)
    &&& forall|k: int| 0 <= k < neuron.weights@.len() ==> !is_fatal(#[trigger] neuron.weights@[k])
}

/// Whether no weight and no bias of `layers` ends the run.
pub open spec fn sound(layers: Seq<Layer<Magnitude>>) -> bool {
    forall|i: int, j: int|
        0 <= i < layers.len() && 0 <= j < layers[i].neurons@.len() ==> neuron_sound(
            #[trigger] layers[i].neurons@[j],
        )
}

/// The entries of sound neurons are sound.
pub proof fn lemma_layer_sound(layer: nat, neurons: Seq<Perceptron<Magnitude>>)
    requires
        forall|j: int| 0 <= j < neurons.len() ==> neuron_sound(#[trigger] neurons[j]),
    ensures
        forall|x: int|
            0 <= x < layer_entries(layer, neurons).len() ==> !is_fatal(
                #[trigger] layer_entries(layer, neurons)[x].magnitude,
            ),
    decreases neurons.len(),
{
    if neurons.len() > 0 {
        lemma_layer_sound(layer, neurons.drop_last());
        assert(neuron_sound(neurons.last()));
    }
}

/// The entries of sound layers are sound.
pub proof fn lemma_network_sound(layers: Seq<Layer<Magnitude>>)
    requires
        sound(layers),
    ensures
        forall|x: int|
            0 <= x < network_entries(layers).len() ==> !is_fatal(
                #[trigger] network_entries(layers)[x].magnitude,
            ),
    decreases layers.len(),
{
    if layers.len() > 0 {
        let before = layers.drop_last();
        assert(sound(before)) by {
            assert forall|i: int, j: int|
                0 <= i < before.len() && 0 <= j < before[i].neurons@.len() implies neuron_sound(
                #[trigger] before[i].neurons@[j],
            ) by {
                assert(neuron_sound(layers[i].neurons@[j]));
            }
        }
        lemma_network_sound(before);
        let last = layers.last().neurons@;
        assert forall|j: int| 0 <= j < last.len() implies neuron_sound(#[trigger] last[j]) by {
            assert(neuron_sound(layers[layers.len() - 1].neurons@[j]));
        }
        lemma_layer_sound((layers.len() - 1) as nat, last);
    }
}

/// Gradient sanity. The check succeeds on a network of which no weight
/// and no bias is infinite or fails to be a number, and on no other: one
/// such value anywhere makes it fail.
pub proof fn lemma_gradient_sanity(layers: Seq<Layer<Magnitude>>)
    ensures
        sound(layers) <==> fatal_at(network_entries(layers), 0) == network_entries(layers).len(),
{
    let entries = network_entries(layers);
    lemma_fatal_at(entries, 0);
    if sound(layers) {
        lemma_network_sound(layers);
    } else {
        let (i, j) = choose|i: int, j: int|
            0 <= i < layers.len() && 0 <= j < layers[i].neurons@.len() && !neuron_sound(
                #[trigger] layers[i].neurons@[j],
            );
        let neuron = layers[i].neurons@[j];
        let own = neuron_entries(i as nat, j as nat, neuron);
        let k = if is_fatal(neuron.bias) {
            neuron.weights@.len() as int
        } else {
            choose|k: int| 0 <= k < neuron.weights@.len() && is_fatal(#[trigger] neuron.weights@[k])
        };
        assert(is_fatal(own[k].magnitude));
        lemma_entries_prefix(layers, i, j);
        let start = network_entries(layers.take(i)) + layer_entries(
            i as nat,
            layers[i].neurons@.take(j),
        );
        let upto = start + own;
        assert(entries.take(upto.len() as int)[start.len() + k] == upto[start.len() + k]);
        assert(entries[start.len() + k] == own[k]);
    }
}

/// The text that reports a value that ends the run: its kind, what it is,
/// and the layer and the neuron where it stands.
fn failure_head(kind: &str, what: &str, layer: usize, neuron: usize) -> (out: Vec<char>)
    ensures
        out@ == kind@ + what@ + " at layer "@ + decimal(layer as nat) + ", neuron "@ + decimal(
            neuron as nat,
        ),
{
    let mut out = chars_of(kind);
    let what_chars = chars_of(what);
    extend_chars(&mut out, &what_chars);
    let at = chars_of(" at layer ");
    extend_chars(&mut out, &at);
    let layer_text = decimal_of(layer);
    extend_chars(&mut out, &layer_text);
    let neuron_head = chars_of(", neuron ");
    extend_chars(&mut out, &neuron_head);
    let neuron_text = decimal_of(neuron);
    extend_chars(&mut out, &neuron_text);
    out
}

impl Network<Magnitude> {
    /// Checks that no weight and no bias ends the training run, going
    /// through the layers, the neurons of each, and the weights and then
    /// the bias of each. Returns the places of the large weights met before
    /// the check ended, and the report of the first value that is infinite
    /// or not a number, if there is one.
    pub fn check_gradients(&self) -> (r: (Vec<(usize, usize, usize)>, Result<(), String>))
        ensures
            ({
                let entries = network_entries(self.0@);
                let at = fatal_at(entries, 0);
                &&& r.0@ == large_weights(entries.take(at))
                &&& at == entries.len() ==> r.1 is Ok
                &&& at < entries.len() ==> r.1 is Err && r.1->Err_0@ == failure_message(
                    entries[at],
                )
            }),
    {
        let ghost all = network_entries(self.0@);
        let ghost mut seen: Seq<Entry> = Seq::empty();
        let mut large: Vec<(usize, usize, usize)> = Vec::new();
        let mut i: usize = 0;
        proof {
            assert(self.0@.take(0) =~= Seq::<Layer<Magnitude>>::empty());
        }
        while i < self.0.len()
            invariant
                i <= self.0.len(),
                all == network_entries(self.0@),
                seen == network_entries(self.0@.take(i as int)),
                forall|x: int| 0 <= x < seen.len() ==> !is_fatal(#[trigger] seen[x].magnitude),
                large@ == large_weights(seen),
            decreases self.0.len() - i,
        {
            let layer = &self.0[i];
            let ghost before = seen;
            let mut j: usize = 0;
            proof {
                assert(layer.neurons@.take(0) =~= Seq::<Perceptron<Magnitude>>::empty());
                assert(seen =~= before + layer_entries(i as nat, layer.neurons@.take(0)));
            }
            while j < layer.neurons.len()
                invariant
                    i < self.0.len(),
                    j <= layer.neurons.len(),
                    *layer == self.0@[i as int],
                    all == network_entries(self.0@),
                    before == network_entries(self.0@.take(i as int)),
                    seen == before + layer_entries(i as nat, layer.neurons@.take(j as int)),
                    forall|x: int| 0 <= x < seen.len() ==> !is_fatal(#[trigger] seen[x].magnitude),
                    large@ == large_weights(seen),
                decreases layer.neurons.len() - j,
            {
                let neuron = &layer.neurons[j];
                let ghost start = seen;
                let ghost own = neuron_entries(i as nat, j as nat, *neuron);
                let mut k: usize = 0;
                proof {
                    lemma_entries_prefix(self.0@, i as int, j as int);
                    assert(own.take(0) =~= Seq::<Entry>::empty());
                    assert(seen =~= start + own.take(0));
                }
                while k < neuron.weights.len()
                    invariant
                        k <= neuron.weights.len(),
                        all == network_entries(self.0@),
                        own == neuron_entries(i as nat, j as nat, *neuron),
                        seen == start + own.take(k as int),
                        (start + own).len() <= all.len(),
                        all.take((start + own).len() as int) == start + own,
                        forall|x: int|
                            0 <= x < seen.len() ==> !is_fatal(#[trigger] seen[x].magnitude),
                        large@ == large_weights(seen),
                    decreases neuron.weights.len() - k,
                {
                    let magnitude = neuron.weights[k];
                    let ghost entry = own[k as int];
                    proof {
                        assert(entry.magnitude == magnitude);
                        assert(all[seen.len() as int] == all.take((start + own).len() as int)[seen.len() as int]);
                        assert(all[seen.len() as int] == entry);
                        assert(all.take(seen.len() as int) =~= seen) by {
                            assert(all.take(seen.len() as int) =~= all.take(
                                (start + own).len() as int,
                            ).take(seen.len() as int));
                        }
                    }
                    match magnitude {
                        Magnitude::NotANumber => {
                            let mut message = failure_head("NaN", " weight", i, j);
                            let tail = chars_of(", weight ");
                            extend_chars(&mut message, &tail);
                            let index = decimal_of(k);
                            extend_chars(&mut message, &index);
                            proof {
                                lemma_first_fatal(all, seen);
                                assert(entry.weight == Some(k as nat));
                                assert(message@ =~= failure_message(entry));
                            }
                            return (large, Err(string_of(&message)));
                        },
                        Magnitude::Infinite => {
                            let mut message = failure_head("Infinite", " weight", i, j);
                            let tail = chars_of(", weight ");
                            extend_chars(&mut message, &tail);
                            let index = decimal_of(k);
                            extend_chars(&mut message, &index);
                            proof {
                                lemma_first_fatal(all, seen);
                                assert(entry.weight == Some(k as nat));
                                assert(message@ =~= failure_message(entry));
                            }
                            return (large, Err(string_of(&message)));
                        },
                        Magnitude::Large => {
                            large.push((i, j, k));
                        },
                        Magnitude::Finite => {},
                    }
                    proof {
                        let next = seen.push(entry);
                        assert(next.drop_last() =~= seen);
                        assert(next =~= start + own.take(k + 1));
                        seen = next;
                    }
                    k += 1;
                }
                let ghost entry = own[neuron.weights.len() as int];
                proof {
                    assert(entry.magnitude == neuron.bias);
                    assert(all[seen.len() as int] == all.take((start + own).len() as int)[seen.len() as int]);
                    assert(all[seen.len() as int] == entry);
                    assert(all.take(seen.len() as int) =~= seen) by {
                        assert(all.take(seen.len() as int) =~= all.take(
                            (start + own).len() as int,
                        ).take(seen.len() as int));
                    }
                }
                match neuron.bias {
                    Magnitude::NotANumber => {
                        let message = failure_head("NaN", " bias", i, j);
                        proof {
                            lemma_first_fatal(all, seen);
                        }
                        return (large, Err(string_of(&message)));
                    },
                    Magnitude::Infinite => {
                        let message = failure_head("Infinite", " bias", i, j);
                        proof {
                            lemma_first_fatal(all, seen);
                        }
                        return (large, Err(string_of(&message)));
                    },
                    _ => {},
                }
                proof {
                    let next = seen.push(entry);
                    assert(next.drop_last() =~= seen);
                    assert(next =~= start + own);
                    assert(layer.neurons@.take(j + 1).drop_last() =~= layer.neurons@.take(j as int));
                    assert(next =~= before + layer_entries(i as nat, layer.neurons@.take(j + 1)));
                    seen = next;
                }
                j += 1;
            }
            proof {
                assert(layer.neurons@.take(layer.neurons.len() as int) =~= layer.neurons@);
                assert(self.0@.take(i + 1).drop_last() =~= self.0@.take(i as int));
            }
            i += 1;
        }
        proof {
            assert(self.0@.take(self.0.len() as int) =~= self.0@);
            assert(all.take(all.len() as int) =~= all);
            lemma_first_fatal(all, all);
        }
        (large, Ok(()))
    }
}

} // verus!

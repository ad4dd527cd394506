//! A neuron: an activation function, a bias, and one weight per input.

use crate::activation::{
    activation_name, activation_named, activation_of, unknown_function, unknown_function_message,
    Activation,
};
use crate::number::{is_float_literal, Number};
use crate::text::{chars_of, extend_chars, join, split_words, string_of, views, words};
use vstd::prelude::*;

verus! {

/// A neuron over numbers of type `T`.
#[derive(Debug, Clone)]
pub struct Perceptron<T> {
    pub activation: Activation,
    pub weights: Vec<T>,
    pub bias: T,
}

/// A neuron as it is written: its activation function, and the literals of
/// its bias and of its weights.
pub struct Neuron {
    pub activation: Activation,
    pub bias: Seq<char>,
    pub weights: Seq<Seq<char>>,
}

/// Why a line of text is not a neuron.
pub enum NeuronError {
    /// The line holds no word.
    Empty,
    /// The first word names no activation function.
    UnknownFunction(Seq<char>),
    /// No bias follows the activation function.
    MissingBias,
    /// This word stands where a number belongs and is none.
    InvalidNumber(Seq<char>),
}

impl NeuronError {
    /// The text of the error.
    pub open spec fn message(self) -> Seq<char> {
        match self {
            NeuronError::Empty => "empty neuron line"@,
            NeuronError::UnknownFunction(key) => unknown_function(key),
            NeuronError::MissingBias => "missing bias"@,
            NeuronError::InvalidNumber(word) => "invalid number '"@ + word + "'"@,
        }
    }
}

/// The first index at or after `from` where `tokens` holds a word that is
/// no number, or the length of `tokens` where only numbers follow.
pub open spec fn numbers_end(tokens: Seq<Seq<char>>, from: int) -> int
    decreases tokens.len() - from,
{
    if from < 0 || from >= tokens.len() {
        tokens.len() as int
    } else if is_float_literal(tokens[from]) {
        numbers_end(tokens, from + 1)
    } else {
        from
    }
}

/// The neuron that `line` writes: the name of its activation function, its
/// bias, and its weights, separated by white space.
pub open spec fn neuron_of(line: Seq<char>) -> Result<Neuron, NeuronError> {
    let tokens = words(line);
    if tokens.len() == 0 {
        Err(NeuronError::Empty)
    } else {
        match activation_named(tokens[0]) {
            None => Err(NeuronError::UnknownFunction(tokens[0])),
            Some(activation) => if tokens.len() == 1 {
                Err(NeuronError::MissingBias)
            } else {
                let bad = numbers_end(tokens, 1);
                if 0 <= bad < tokens.len() {
                    Err(NeuronError::InvalidNumber(tokens[bad]))
                } else {
                    Ok(Neuron { activation, bias: tokens[1], weights: tokens.skip(2) })
                }
            },
        }
    }
}

/// The line that writes `neuron`: the name of its activation function, its
/// bias, and its weights separated by single spaces. A space follows the
/// bias also where there is no weight.
pub open spec fn neuron_line(neuron: Neuron) -> Seq<char> {
    activation_name(neuron.activation) + seq![' '] + neuron.bias + seq![' '] + join(
        neuron.weights,
        seq![' '],
    )
}

/// The literals of a sequence of numbers.
pub open spec fn literals(numbers: Seq<Number>) -> Seq<Seq<char>> {
    Seq::new(numbers.len(), |i: int| numbers[i]@)
}

/// The number that the word `token` writes; the error reports the word.
fn number_of(token: &Vec<char>) -> (r: Result<Number, String>)
    ensures
        is_float_literal(token@) ==> r is Ok && r->Ok_0@ == token@,
        !is_float_literal(token@) ==> r is Err && r->Err_0@ == NeuronError::InvalidNumber(
            token@,
        ).message(),
{
    let mut copy: Vec<char> = Vec::new();
    extend_chars(&mut copy, token);
    assert(copy@ =~= token@);
    match Number::from_chars(copy) {
        Some(number) => Ok(number),
        None => {
            let mut message = chars_of("invalid number '");
            extend_chars(&mut message, token);
            let tail = chars_of("'");
            extend_chars(&mut message, &tail);
            Err(string_of(&message))
        },
    }
}

impl<T> Perceptron<T> {
    /// The number of inputs that the neuron takes.
    pub open spec fn fan_in(&self) -> nat {
        self.weights@.len()
    }

    /// The number of weights, and so of inputs, of the neuron.
    pub fn input_width(&self) -> (n: usize)
        ensures
            n == self.fan_in(),
    {
        self.weights.len()
    }
}

impl Perceptron<Number> {
    /// The neuron as it is written.
    pub open spec fn written(&self) -> Neuron {
        Neuron {
            activation: self.activation,
            bias: self.bias@,
            weights: literals(self.weights@),
        }
    }

    /// Reads a neuron from a line of text.
    pub fn new(config: String) -> (r: Result<Self, String>)
        ensures
            match neuron_of(config@) {
                Ok(neuron) => r is Ok && r->Ok_0.written() == neuron,
                Err(e) => r is Err && r->Err_0@ == e.message(),
            },
    {
        let line = chars_of(config.as_str());
        Self::from_line(&line)
    }

    /// Reads a neuron from the characters of a line.
    pub fn from_line(line: &Vec<char>) -> (r: Result<Self, String>)
        ensures
            match neuron_of(line@) {
                Ok(neuron) => r is Ok && r->Ok_0.written() == neuron,
                Err(e) => r is Err && r->Err_0@ == e.message(),
            },
    {
        let tokens = split_words(line);
        let ghost all = views(tokens@);
        if tokens.len() == 0 {
            return Err(String::from_str("empty neuron line"));
        }
        assert(all[0] == tokens@[0]@);
        let activation = match activation_of(&tokens[0]) {
            Some(activation) => activation,
            None => {
                return Err(unknown_function_message(&tokens[0]));
            },
        };
        if tokens.len() == 1 {
            return Err(String::from_str("missing bias"));
        }
        assert(all[1] == tokens@[1]@);
        let bias = match number_of(&tokens[1]) {
            Ok(bias) => bias,
            Err(e) => {
                return Err(e);
            },
        };
        let mut weights: Vec<Number> = Vec::new();
        let mut i: usize = 2;
        while i < tokens.len()
            invariant
                2 <= i <= tokens.len(),
                all == views(tokens@),
                all == words(line@),
                activation_named(all[0]) == Some(activation),
                weights.len() == i - 2,
                numbers_end(all, 1) == numbers_end(all, i as int),
                forall|k: int| 0 <= k < i - 2 ==> (#[trigger] weights@[k])@ == all[k + 2],
            decreases tokens.len() - i,
        {
            assert(all[i as int] == tokens@[i as int]@);
            match number_of(&tokens[i]) {
                Ok(weight) => {
                    weights.push(weight);
                },
                Err(e) => {
                    return Err(e);
                },
            }
            i += 1;
        }
        let neuron = Perceptron { activation, weights, bias };
        proof {
            assert(neuron.written().weights =~= all.skip(2));
        }
        Ok(neuron)
    }

    /// The line that writes the neuron, as characters.
    pub fn line(&self) -> (out: Vec<char>)
        ensures
            out@ == neuron_line(self.written()),
    {
        let name = self.activation.name();
        let mut out = chars_of(name.as_str());
        out.push(' ');
        extend_chars(&mut out, self.bias.chars());
        out.push(' ');
        let ghost head = out@;
        let ghost all = literals(self.weights@);
        let mut i: usize = 0;
        proof {
            assert(all.take(0) =~= Seq::<Seq<char>>::empty());
            assert(head + join(all.take(0), seq![' ']) =~= head);
        }
        while i < self.weights.len()
            invariant
                i <= self.weights.len(),
                all == literals(self.weights@),
                out@ == head + join(all.take(i as int), seq![' ']),
            decreases self.weights.len() - i,
        {
            let ghost before = all.take(i as int);
            let ghost after = all.take(i + 1);
            proof {
                assert(after.drop_last() =~= before);
                assert(after.last() == self.weights@[i as int]@);
            }
            if i > 0 {
                out.push(' ');
            }
            extend_chars(&mut out, self.weights[i].chars());
            proof {
                if i == 0 {
                    assert(join(before, seq![' ']) =~= Seq::<char>::empty());
                    assert(out@ =~= head + join(after, seq![' ']));
                } else {
                    assert(out@ =~= head + join(after, seq![' ']));
                }
            }
            i += 1;
        }
        proof {
            assert(all.take(self.weights.len() as int) =~= all);
            assert(head =~= activation_name(self.activation) + seq![' '] + self.bias@ + seq![' ']);
        }
        out
    }

    /// The line of text that writes the neuron.
    pub fn to_string(&self) -> (s: String)
        ensures
            s@ == neuron_line(self.written()),
    {
        let out = self.line();
        string_of(&out)
    }
}

} // verus!

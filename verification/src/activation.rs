//! The activation functions that a neuron can be given, by name.

use crate::text::{chars_of, extend_chars, spells, string_of};
use vstd::prelude::*;

verus! {

/// The activation function of a neuron.
#[derive(Clone, Copy, Debug, PartialEq, Eq, Structural)]
pub enum Activation {
    Sigmoid,
    Relu,
    Tanh,
    Linear,
}

/// The name under which an activation function is written.
pub open spec fn activation_name(activation: Activation) -> Seq<char> {
    match activation {
        Activation::Sigmoid => "sigmoid"@,
        Activation::Relu => "relu"@,
        Activation::Tanh => "tanh"@,
        Activation::Linear => "linear"@,
    }
}

/// The activation function that `key` names, if it names one.
pub open spec fn activation_named(key: Seq<char>) -> Option<Activation> {
    if key == "sigmoid"@ {
        Some(Activation::Sigmoid)
    } else if key == "relu"@ {
        Some(Activation::Relu)
    } else if key == "tanh"@ {
        Some(Activation::Tanh)
    } else if key == "linear"@ {
        Some(Activation::Linear)
    } else {
        None
    }
}

/// The text that reports `key` as the name of no activation function.
pub open spec fn unknown_function(key: Seq<char>) -> Seq<char> {
    "unknow function '"@ + key + "'"@
}

/// Each activation function is the one that its name names.
pub proof fn lemma_name_names(activation: Activation)
    ensures
        activation_named(activation_name(activation)) == Some(activation),
{
    reveal_strlit("sigmoid");
    reveal_strlit("relu");
    reveal_strlit("tanh");
    reveal_strlit("linear");
    assert("sigmoid"@.len() == 7);
    assert("relu"@.len() == 4);
    assert("tanh"@.len() == 4);
    assert("linear"@.len() == 6);
    assert("relu"@[0] == 'r');
    assert("tanh"@[0] == 't');
}

/// A name is spelled in lower-case letters, of which it has at least one.
pub proof fn lemma_name_letters(activation: Activation)
    ensures
        activation_name(activation).len() > 0,
        forall|i: int|
            0 <= i < activation_name(activation).len() ==> 'a' <= #[trigger] activation_name(
                activation,
            )[i] <= 'z',
{
    reveal_strlit("sigmoid");
    reveal_strlit("relu");
    reveal_strlit("tanh");
    reveal_strlit("linear");
}

/// The activation function that the characters `key` name.
pub fn activation_of(key: &Vec<char>) -> (r: Option<Activation>)
    ensures
        r == activation_named(key@),
{
    if spells(key, "sigmoid") {
        Some(Activation::Sigmoid)
    } else if spells(key, "relu") {
        Some(Activation::Relu)
    } else if spells(key, "tanh") {
        Some(Activation::Tanh)
    } else if spells(key, "linear") {
        Some(Activation::Linear)
    } else {
        None
    }
}

/// The text that reports `key` as the name of no activation function.
pub fn unknown_function_message(key: &Vec<char>) -> (s: String)
    ensures
        s@ == unknown_function(key@),
{
    let mut message = chars_of("unknow function '");
    extend_chars(&mut message, key);
    let tail = chars_of("'");
    extend_chars(&mut message, &tail);
    string_of(&message)
}

/// The activation function that `key` names, or the text of the error
/// where it names none.
pub fn function_getter(key: String) -> (r: Result<Activation, String>)
    ensures
        match activation_named(key@) {
            Some(activation) => r == Ok::<Activation, String>(activation),
            None => r is Err && r->Err_0@ == unknown_function(key@),
        },
{
    let chars = chars_of(key.as_str());
    match activation_of(&chars) {
        Some(activation) => Ok(activation),
        None => Err(unknown_function_message(&chars)),
    }
}

/// The activation function whose derivative serves a neuron written with
/// the name `func_id`: the one that it names, and the sigmoid where it
/// names none.
pub fn get_derivative(func_id: &str) -> (activation: Activation)
    ensures
        activation == match activation_named(func_id@) {
            Some(named) => named,
            None => Activation::Sigmoid,
        },
{
    let chars = chars_of(func_id);
    match activation_of(&chars) {
        Some(activation) => activation,
        None => Activation::Sigmoid,
    }
}

impl Activation {
    /// The name under which the activation function is written.
    pub fn name(&self) -> (s: String)
        ensures
            s@ == activation_name(*self),
    {
        match self {
            Activation::Sigmoid => String::from_str("sigmoid"),
            Activation::Relu => String::from_str("relu"),
            Activation::Tanh => String::from_str("tanh"),
            Activation::Linear => String::from_str("linear"),
        }
    }
}

} // verus!

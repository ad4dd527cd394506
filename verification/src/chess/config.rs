//! The training configuration: the hyperparameters of a training run, as
//! `KEY = VALUE` lines of text.

use crate::decimal::{decimal, decimal_of, parse_unsigned, read_unsigned};
use crate::number::{is_float_literal, lemma_plain_decimal, Number};
use crate::text::{
    chars_of, extend_chars, find, join, join_chars, lemma_find_is, slice_of, spells, split_chars,
    split_on, string_of, trim, trim_chars, views,
};
use vstd::prelude::*;

verus! {

/// What `str::to_lowercase` of std makes of a text.
pub uninterp spec fn lowercase(s: Seq<char>) -> Seq<char>;

/// `str::to_lowercase` of std: the text in lower case, which depends on
/// the text alone.
#[verifier::external_body]
fn to_lowercase(s: &str) -> (lowered: String)
    ensures
        lowered@ == lowercase(s@),
{
    s.to_lowercase()
}

/// The truth value that a text in lower case names.
pub open spec fn truth_named(lowered: Seq<char>) -> Option<bool> {
    if lowered == "true"@ || lowered == "1"@ || lowered == "yes"@ || lowered == "on"@ {
        Some(true)
    } else if lowered == "false"@ || lowered == "0"@ || lowered == "no"@ || lowered == "off"@ {
        Some(false)
    } else {
        None
    }
}

/// The text that reports `value` as the name of no truth value.
pub open spec fn invalid_boolean(value: Seq<char>) -> Seq<char> {
    "Invalid boolean value: "@ + value
}

/// The truth value that `lowered` names, which is `value` in lower case;
/// the error reports `value`.
pub fn truth_of(lowered: &str, value: &str) -> (r: Result<bool, String>)
    ensures
        match truth_named(lowered@) {
            Some(b) => r == Ok::<bool, String>(b),
            None => r is Err && r->Err_0@ == invalid_boolean(value@),
        },
{
    let word = chars_of(lowered);
    if spells(&word, "true") || spells(&word, "1") || spells(&word, "yes") || spells(&word, "on") {
        Ok(true)
    } else if spells(&word, "false") || spells(&word, "0") || spells(&word, "no") || spells(
        &word,
        "off",
    ) {
        Ok(false)
    } else {
        let mut message = chars_of("Invalid boolean value: ");
        let given = chars_of(value);
        extend_chars(&mut message, &given);
        Err(string_of(&message))
    }
}

/// The truth value that `s` names, in any case.
pub fn parse_bool(s: &str) -> (r: Result<bool, String>)
    ensures
        match truth_named(lowercase(s@)) {
            Some(b) => r == Ok::<bool, String>(b),
            None => r is Err && r->Err_0@ == invalid_boolean(s@),
        },
{
    let lowered = to_lowercase(s);
    truth_of(lowered.as_str(), s)
}

/// Whether `c` separates the numbers of a list: a comma or a space.
pub open spec fn is_separator(c: char) -> bool {
    c == ',' || c == ' '
}

/// The first index at or after `from` where `s` holds a separator, or the
/// length of `s` where it holds none.
pub open spec fn item_end(s: Seq<char>, from: int) -> int
    decreases s.len() - from,
{
    if from < 0 || from >= s.len() {
        s.len() as int
    } else if is_separator(s[from]) {
        from
    } else {
        item_end(s, from + 1)
    }
}

/// The items of `s` that start at or after `from`: its maximal runs of
/// characters that are no separators.
pub open spec fn items_from(s: Seq<char>, from: int) -> Seq<Seq<char>>
    decreases s.len() - from,
{
    if from < 0 || from >= s.len() {
        Seq::empty()
    } else if is_separator(s[from]) {
        items_from(s, from + 1)
    } else {
        let end = item_end(s, from + 1);
        if from < end <= s.len() {
            seq![s.subrange(from, end)] + items_from(s, end)
        } else {
            Seq::empty()
        }
    }
}

/// The first index at or after `from` where `s` does not hold `c`.
pub open spec fn run_end(s: Seq<char>, c: char, from: int) -> int
    decreases s.len() - from,
{
    if from < 0 || from >= s.len() {
        s.len() as int
    } else if s[from] == c {
        run_end(s, c, from + 1)
    } else {
        from
    }
}

/// The index after the last character of `s[..to]` that is not `c`.
pub open spec fn run_start(s: Seq<char>, c: char, to: int) -> int
    decreases to,
{
    if to <= 0 || to > s.len() {
        0
    } else if s[to - 1] == c {
        run_start(s, c, to - 1)
    } else {
        to
    }
}

/// `s` without the white space around it, the `[` at its start, and the
/// `]` at its end.
pub open spec fn unbracketed(s: Seq<char>) -> Seq<char> {
    let inner = trim(s);
    let from = run_end(inner, '[', 0);
    let to = run_start(inner, ']', inner.len() as int);
    if from < to {
        inner.subrange(from, to)
    } else {
        Seq::empty()
    }
}

/// The numbers that the items `items[from..]` write, after the numbers
/// `done`; nothing where one of them writes none.
pub open spec fn numbers_of(items: Seq<Seq<char>>, from: int, done: Seq<u32>) -> Option<Seq<u32>>
    decreases items.len() - from,
{
    if from < 0 || from >= items.len() {
        Some(done)
    } else {
        match parse_unsigned(trim(items[from]), u32::MAX as nat) {
            Some(n) => numbers_of(items, from + 1, done.push(n as u32)),
            None => None,
        }
    }
}

/// The list of numbers that `s` writes: numbers separated by commas or
/// spaces, with or without brackets around them.
pub open spec fn list_of(s: Seq<char>) -> Option<Seq<u32>> {
    numbers_of(items_from(unbracketed(s), 0), 0, Seq::empty())
}

/// The text that reports `s` as no list of numbers.
pub open spec fn invalid_list(s: Seq<char>) -> Seq<char> {
    "Invalid hidden_layers format: "@ + unbracketed(s)
}

/// Where `at` is the first separator from `from` on, `item_end` returns it.
pub proof fn lemma_item_end_is(s: Seq<char>, from: int, at: int)
    requires
        0 <= from <= at <= s.len(),
        forall|k: int| from <= k < at ==> !is_separator(s[k]),
        at < s.len() ==> is_separator(s[at]),
    ensures
        item_end(s, from) == at,
    decreases at - from,
{
    if from < at {
        lemma_item_end_is(s, from + 1, at);
    }
}

/// The list of numbers that `s` writes.
pub fn parse_vec_u32(s: &str) -> (r: Result<Vec<u32>, String>)
    ensures
        match list_of(s@) {
            Some(numbers) => r is Ok && r->Ok_0@ == numbers,
            None => r is Err && r->Err_0@ == invalid_list(s@),
        },
{
    let chars = chars_of(s);
    let inner = trim_chars(&chars);
    let mut from: usize = 0;
    while from < inner.len() && inner[from] == '['
        invariant
            from <= inner.len(),
            run_end(inner@, '[', 0) == run_end(inner@, '[', from as int),
        decreases inner.len() - from,
    {
        from += 1;
    }
    let mut to: usize = inner.len();
    while to > 0 && inner[to - 1] == ']'
        invariant
            to <= inner.len(),
            run_start(inner@, ']', inner.len() as int) == run_start(inner@, ']', to as int),
        decreases to,
    {
        to -= 1;
    }
    let list: Vec<char> = if from < to {
        slice_of(&inner, from, to)
    } else {
        Vec::new()
    };
    assert(list@ == unbracketed(s@));
    let mut numbers: Vec<u32> = Vec::new();
    let mut i: usize = 0;
    let ghost mut seen: int = 0;
    while i < list.len()
        invariant
            i <= list.len(),
            list@ == unbracketed(s@),
            0 <= seen <= items_from(list@, 0).len(),
            items_from(list@, 0).skip(seen) == items_from(list@, i as int),
            numbers_of(items_from(list@, 0), 0, Seq::empty()) == numbers_of(
                items_from(list@, 0),
                seen,
                numbers@,
            ),
        decreases list.len() - i,
    {
        if list[i] == ',' || list[i] == ' ' {
            i += 1;
        } else {
            let mut j: usize = i + 1;
            while j < list.len() && !(list[j] == ',' || list[j] == ' ')
                invariant
                    i < j <= list.len(),
                    forall|k: int| i + 1 <= k < j ==> !is_separator(list@[k]),
                decreases list.len() - j,
            {
                j += 1;
            }
            let item = slice_of(&list, i, j);
            let ghost all = items_from(list@, 0);
            proof {
                lemma_item_end_is(list@, i + 1, j as int);
                assert(items_from(list@, i as int) == seq![item@] + items_from(list@, j as int));
                assert(all.skip(seen)[0] == item@);
                assert(all[seen] == item@);
                assert(all.skip(seen + 1) =~= all.skip(seen).skip(1));
                assert(all.skip(seen).skip(1) =~= items_from(list@, j as int));
            }
            let token = trim_chars(&item);
            match read_unsigned(&token, 0xffff_ffff) {
                Some(n) => {
                    numbers.push(n as u32);
                },
                None => {
                    let mut message = chars_of("Invalid hidden_layers format: ");
                    extend_chars(&mut message, &list);
                    return Err(string_of(&message));
                },
            }
            proof {
                seen = seen + 1;
            }
            i = j;
        }
    }
    proof {
        assert(items_from(list@, 0).skip(seen).len() == 0);
    }
    Ok(numbers)
}

/// The text that writes the list `numbers`: the numbers in decimal, with a
/// comma and a space between each two, in brackets.
pub open spec fn list_text(numbers: Seq<u32>) -> Seq<char> {
    "["@ + join(Seq::new(numbers.len(), |i: int| decimal(numbers[i] as nat)), ", "@) + "]"@
}

/// The text that writes the list `vec`.
pub fn format_vec_u32(vec: &Vec<u32>) -> (s: String)
    ensures
        s@ == list_text(vec@),
{
    let mut texts: Vec<Vec<char>> = Vec::new();
    let mut i: usize = 0;
    while i < vec.len()
        invariant
            i <= vec.len(),
            texts.len() == i,
            forall|k: int| 0 <= k < i ==> (#[trigger] texts@[k])@ == decimal(vec@[k] as nat),
        decreases vec.len() - i,
    {
        texts.push(decimal_of(vec[i] as usize));
        i += 1;
    }
    let sep = chars_of(", ");
    proof {
        assert(views(texts@) =~= Seq::new(vec@.len(), |i: int| decimal(vec@[i] as nat)));
        assert(views(texts@).subrange(0, texts.len() as int) =~= views(texts@));
    }
    let inner = join_chars(&texts, 0, texts.len(), &sep);
    let mut out = chars_of("[");
    extend_chars(&mut out, &inner);
    let close = chars_of("]");
    extend_chars(&mut out, &close);
    string_of(&out)
}

/// The hyperparameters of a training run, over numbers of type `T`.
#[derive(Debug, Clone)]
pub struct TrainingConfig<T> {
    pub learning_rate: T,
    pub epochs: usize,
    pub batch_size: usize,
    pub patience: usize,
    /// The share of the examples that is trained on; the rest validates.
    pub train_ratio: T,
    /// The widths of the hidden layers, in order.
    pub hidden_layers: Vec<u32>,
    pub weight_min: T,
    pub weight_max: T,
    pub bias_min: T,
    pub bias_max: T,
    pub lr_decay_enabled: bool,
    pub lr_decay_rate: T,
    pub lr_decay_step: usize,
}

/// A training configuration as it is written: its numbers as literals.
pub struct Settings {
    pub learning_rate: Seq<char>,
    pub epochs: usize,
    pub batch_size: usize,
    pub patience: usize,
    pub train_ratio: Seq<char>,
    pub hidden_layers: Seq<u32>,
    pub weight_min: Seq<char>,
    pub weight_max: Seq<char>,
    pub bias_min: Seq<char>,
    pub bias_max: Seq<char>,
    pub lr_decay_enabled: bool,
    pub lr_decay_rate: Seq<char>,
    pub lr_decay_step: usize,
}

/// Why a text is no training configuration.
pub enum ConfigError {
    /// The line of this number, counted from 1, holds no `=`.
    MalformedLine(nat),
    /// The key of this name cannot have this value.
    InvalidValue(Seq<char>, Seq<char>),
    /// This value is no list of numbers.
    InvalidList(Seq<char>),
    /// This value is no truth value.
    InvalidBoolean(Seq<char>),
    /// There is no key of this name.
    UnknownKey(Seq<char>),
}

impl ConfigError {
    /// The text of the error.
    pub open spec fn message(self) -> Seq<char> {
        match self {
            ConfigError::MalformedLine(line) => "Invalid format at line "@ + decimal(line)
                + ": expected KEY = VALUE"@,
            ConfigError::InvalidValue(key, value) => "Invalid "@ + key + ": "@ + value,
            ConfigError::InvalidList(value) => invalid_list(value),
            ConfigError::InvalidBoolean(value) => invalid_boolean(value),
            ConfigError::UnknownKey(key) => "Unknown configuration key: "@ + key,
        }
    }
}

/// The settings that hold where the text names no other.
pub open spec fn default_settings() -> Settings {
    Settings {
        learning_rate: "0.01"@,
        epochs: 1000,
        batch_size: 1,
        patience: 50,
        train_ratio: "0.8"@,
        hidden_layers: seq![256u32, 128u32, 64u32],
        weight_min: "-0.3"@,
        weight_max: "0.3"@,
        bias_min: "-0.1"@,
        bias_max: "0.1"@,
        lr_decay_enabled: false,
        lr_decay_rate: "0.95"@,
        lr_decay_step: 100,
    }
}

/// The literal `value`, as the value of the key `key`.
pub open spec fn literal_for(key: Seq<char>, value: Seq<char>) -> Result<Seq<char>, ConfigError> {
    if is_float_literal(value) {
        Ok(value)
    } else {
        Err(ConfigError::InvalidValue(key, value))
    }
}

/// The count that `value` writes, as the value of the key `key`.
pub open spec fn count_for(key: Seq<char>, value: Seq<char>) -> Result<usize, ConfigError> {
    match parse_unsigned(value, usize::MAX as nat) {
        Some(n) => Ok(n as usize),
        None => Err(ConfigError::InvalidValue(key, value)),
    }
}

/// The settings `settings` with the key `key` set to `value`.
pub open spec fn with_entry(settings: Settings, key: Seq<char>, value: Seq<char>) -> Result<
    Settings,
    ConfigError,
> {
    if key == "learning_rate"@ {
        match literal_for(key, value) {
            Ok(number) => Ok(Settings { learning_rate: number, ..settings }),
            Err(e) => Err(e),
        }
    } else if key == "epochs"@ {
        match count_for(key, value) {
            Ok(count) => Ok(Settings { epochs: count, ..settings }),
            Err(e) => Err(e),
        }
    } else if key == "batch_size"@ {
        match count_for(key, value) {
            Ok(count) => Ok(Settings { batch_size: count, ..settings }),
            Err(e) => Err(e),
        }
    } else if key == "patience"@ {
        match count_for(key, value) {
            Ok(count) => Ok(Settings { patience: count, ..settings }),
            Err(e) => Err(e),
        }
    } else if key == "train_ratio"@ {
        match literal_for(key, value) {
            Ok(number) => Ok(Settings { train_ratio: number, ..settings }),
            Err(e) => Err(e),
        }
    } else if key == "hidden_layers"@ {
        match list_of(value) {
            Some(list) => Ok(Settings { hidden_layers: list, ..settings }),
            None => Err(ConfigError::InvalidList(value)),
        }
    } else if key == "weight_min"@ {
        match literal_for(key, value) {
            Ok(number) => Ok(Settings { weight_min: number, ..settings }),
            Err(e) => Err(e),
        }
    } else if key == "weight_max"@ {
        match literal_for(key, value) {
            Ok(number) => Ok(Settings { weight_max: number, ..settings }),
            Err(e) => Err(e),
        }
    } else if key == "bias_min"@ {
        match literal_for(key, value) {
            Ok(number) => Ok(Settings { bias_min: number, ..settings }),
            Err(e) => Err(e),
        }
    } else if key == "bias_max"@ {
        match literal_for(key, value) {
            Ok(number) => Ok(Settings { bias_max: number, ..settings }),
            Err(e) => Err(e),
        }
    } else if key == "lr_decay_enabled"@ {
        match truth_named(lowercase(value)) {
            Some(enabled) => Ok(Settings { lr_decay_enabled: enabled, ..settings }),
            None => Err(ConfigError::InvalidBoolean(value)),
        }
    } else if key == "lr_decay_rate"@ {
        match literal_for(key, value) {
            Ok(number) => Ok(Settings { lr_decay_rate: number, ..settings }),
            Err(e) => Err(e),
        }
    } else if key == "lr_decay_step"@ {
        match count_for(key, value) {
            Ok(count) => Ok(Settings { lr_decay_step: count, ..settings }),
            Err(e) => Err(e),
        }
    } else {
        Err(ConfigError::UnknownKey(key))
    }
}

/// Whether a line says nothing: it is blank, or a comment, which starts
/// with `#` or with `//`.
pub open spec fn is_silent(line: Seq<char>) -> bool {
    let text = trim(line);
    ||| text.len() == 0
    ||| text[0] == '#'
    ||| (text.len() >= 2 && text[0] == '/' && text[1] == '/')
}

/// The settings `settings` after the lines `lines[from..]`: each line that
/// says something sets the key before its first `=` to the value after
/// it, both without the white space around them.
pub open spec fn with_lines(lines: Seq<Seq<char>>, from: int, settings: Settings) -> Result<
    Settings,
    ConfigError,
>
    decreases lines.len() - from,
{
    if from < 0 || from >= lines.len() {
        Ok(settings)
    } else if is_silent(lines[from]) {
        with_lines(lines, from + 1, settings)
    } else {
        let text = trim(lines[from]);
        let equals = find(text, '=', 0);
        if equals >= text.len() {
            Err(ConfigError::MalformedLine((from + 1) as nat))
        } else {
            match with_entry(settings, trim(text.take(equals)), trim(text.skip(equals + 1))) {
                Ok(next) => with_lines(lines, from + 1, next),
                Err(e) => Err(e),
            }
        }
    }
}

/// The settings that the text `content` makes of the default settings.
pub open spec fn settings_of(content: Seq<char>) -> Result<Settings, ConfigError> {
    with_lines(split_on(content, '\n'), 0, default_settings())
}

/// What a configuration must meet beyond what its text shows: conditions
/// on its numbers, each in the order in which it is checked.
#[derive(Clone, Copy, Debug, PartialEq, Eq, Structural)]
pub enum Violation {
    /// The learning rate is not above 0 and at most 1.
    LearningRate,
    /// There is no epoch.
    Epochs,
    /// A batch holds no example.
    BatchSize,
    /// There is no patience.
    Patience,
    /// The share of training examples is not between 0 and 1.
    TrainRatio,
    /// There is no hidden layer.
    HiddenLayers,
    /// The least weight is not below the greatest.
    Weights,
    /// The least bias is not below the greatest.
    Biases,
    /// The decay rate is not between 0 and 1.
    DecayRate,
    /// The learning rate decays every 0 epochs.
    DecayStep,
}

/// Which of the conditions on the numbers of a configuration hold.
#[derive(Clone, Copy, Debug, PartialEq, Eq, Structural)]
pub struct RangeChecks {
    /// The learning rate is above 0 and at most 1.
    pub learning_rate: bool,
    /// The share of training examples is above 0 and below 1.
    pub train_ratio: bool,
    /// The least weight is below the greatest.
    pub weights: bool,
    /// The least bias is below the greatest.
    pub biases: bool,
    /// The decay rate is above 0 and below 1.
    pub lr_decay_rate: bool,
}

/// What the caller finds of the numbers of a configuration: which of the
/// conditions on them hold, and the three numbers that an error shows, each
/// as it is to be shown.
#[derive(Clone, Debug, PartialEq, Eq)]
pub struct Ranges {
    pub checks: RangeChecks,
    pub learning_rate: String,
    pub train_ratio: String,
    pub lr_decay_rate: String,
}

impl Ranges {
    /// The number that the report of the violation `violation` shows;
    /// nothing for a violation that shows none.
    pub open spec fn shown(self, violation: Violation) -> Seq<char> {
        match violation {
            Violation::LearningRate => self.learning_rate@,
            Violation::TrainRatio => self.train_ratio@,
            Violation::DecayRate => self.lr_decay_rate@,
            _ => Seq::empty(),
        }
    }
}

/// The text that reports the violation `violation`, in which `shown` is
/// the number that violates, for the violations that show one.
pub open spec fn violation_text(violation: Violation, shown: Seq<char>) -> Seq<char> {
    match violation {
        Violation::LearningRate => "Invalid learning_rate: "@ + shown + " (must be 0 < lr <= 1)"@,
        Violation::Epochs => "epochs must be > 0"@,
        Violation::BatchSize => "batch_size must be > 0"@,
        Violation::Patience => "patience must be > 0"@,
        Violation::TrainRatio => "Invalid train_ratio: "@ + shown + " (must be 0 < ratio < 1)"@,
        Violation::HiddenLayers => "hidden_layers cannot be empty"@,
        Violation::Weights => "weight_min must be < weight_max"@,
        Violation::Biases => "bias_min must be < bias_max"@,
        Violation::DecayRate => "Invalid lr_decay_rate: "@ + shown + " (must be 0 < rate < 1)"@,
        Violation::DecayStep => "lr_decay_step must be > 0"@,
    }
}

/// The text `head`, the text `shown`, and the text `tail`.
fn framed(head: &str, shown: &str, tail: &str) -> (s: String)
    ensures
        s@ == head@ + shown@ + tail@,
{
    let mut out = chars_of(head);
    let middle = chars_of(shown);
    extend_chars(&mut out, &middle);
    let end = chars_of(tail);
    extend_chars(&mut out, &end);
    string_of(&out)
}

/// The text that reports the violation `violation`, in which `shown` is
/// the number that violates.
pub fn violation_message(violation: Violation, shown: &str) -> (s: String)
    ensures
        s@ == violation_text(violation, shown@),
{
    match violation {
        Violation::LearningRate => framed("Invalid learning_rate: ", shown, " (must be 0 < lr <= 1)"),
        Violation::Epochs => String::from_str("epochs must be > 0"),
        Violation::BatchSize => String::from_str("batch_size must be > 0"),
        Violation::Patience => String::from_str("patience must be > 0"),
        Violation::TrainRatio => framed("Invalid train_ratio: ", shown, " (must be 0 < ratio < 1)"),
        Violation::HiddenLayers => String::from_str("hidden_layers cannot be empty"),
        Violation::Weights => String::from_str("weight_min must be < weight_max"),
        Violation::Biases => String::from_str("bias_min must be < bias_max"),
        Violation::DecayRate => framed("Invalid lr_decay_rate: ", shown, " (must be 0 < rate < 1)"),
        Violation::DecayStep => String::from_str("lr_decay_step must be > 0"),
    }
}

impl<T> TrainingConfig<T> {
    /// The first condition that the configuration violates, if it violates
    /// one, `ranges` saying which conditions on its numbers hold.
    pub open spec fn violation(&self, ranges: RangeChecks) -> Option<Violation> {
        if !ranges.learning_rate {
            Some(Violation::LearningRate)
        } else if self.epochs == 0 {
            Some(Violation::Epochs)
        } else if self.batch_size == 0 {
            Some(Violation::BatchSize)
        } else if self.patience == 0 {
            Some(Violation::Patience)
        } else if !ranges.train_ratio {
            Some(Violation::TrainRatio)
        } else if self.hidden_layers@.len() == 0 {
            Some(Violation::HiddenLayers)
        } else if !ranges.weights {
            Some(Violation::Weights)
        } else if !ranges.biases {
            Some(Violation::Biases)
        } else if !ranges.lr_decay_rate {
            Some(Violation::DecayRate)
        } else if self.lr_decay_step == 0 {
            Some(Violation::DecayStep)
        } else {
            None
        }
    }

    /// The first condition that the configuration violates, if it violates
    /// one.
    pub fn first_violation(&self, ranges: &RangeChecks) -> (r: Option<Violation>)
        ensures
            r == self.violation(*ranges),
    {
        if !ranges.learning_rate {
            Some(Violation::LearningRate)
        } else if self.epochs == 0 {
            Some(Violation::Epochs)
        } else if self.batch_size == 0 {
            Some(Violation::BatchSize)
        } else if self.patience == 0 {
            Some(Violation::Patience)
        } else if !ranges.train_ratio {
            Some(Violation::TrainRatio)
        } else if self.hidden_layers.len() == 0 {
            Some(Violation::HiddenLayers)
        } else if !ranges.weights {
            Some(Violation::Weights)
        } else if !ranges.biases {
            Some(Violation::Biases)
        } else if !ranges.lr_decay_rate {
            Some(Violation::DecayRate)
        } else if self.lr_decay_step == 0 {
            Some(Violation::DecayStep)
        } else {
            None
        }
    }

    /// Checks the configuration, `ranges` being what the caller finds of
    /// its numbers: the error is the report of the first condition that it
    /// violates.
    pub fn validate(&self, ranges: &Ranges) -> (r: Result<(), String>)
        ensures
            match self.violation(ranges.checks) {
                None => r is Ok,
                Some(violation) => r is Err && r->Err_0@ == violation_text(
                    violation,
                    ranges.shown(violation),
                ),
            },
    {
        match self.first_violation(&ranges.checks) {
            None => Ok(()),
            Some(violation) => {
                let message = match violation {
                    Violation::LearningRate => violation_message(
                        violation,
                        ranges.learning_rate.as_str(),
                    ),
                    Violation::TrainRatio => violation_message(
                        violation,
                        ranges.train_ratio.as_str(),
                    ),
                    Violation::DecayRate => violation_message(
                        violation,
                        ranges.lr_decay_rate.as_str(),
                    ),
                    _ => violation_message(violation, ""),
                };
                Err(message)
            },
        }
    }

    /// How often the learning rate has decayed at `epoch`: once every
    /// `lr_decay_step` epochs where decay is enabled, and never where it is
    /// not.
    pub fn decay_count(&self, epoch: usize) -> (count: usize)
        requires
            self.lr_decay_enabled ==> self.lr_decay_step > 0,
        ensures
            count == if self.lr_decay_enabled {
                epoch / self.lr_decay_step
            } else {
                0
            },
    {
        if self.lr_decay_enabled {
            epoch / self.lr_decay_step
        } else {
            0
        }
    }
}

/// The text that writes the settings `settings`: a line for each key,
/// after the comment that names its group.
pub open spec fn settings_text(settings: Settings) -> Seq<char> {
    "# Training Configuration\n# Learning parameters\nlearning_rate = "@ + settings.learning_rate
        + "\nepochs = "@ + decimal(settings.epochs as nat) + "\nbatch_size = "@ + decimal(
        settings.batch_size as nat,
    ) + "\npatience = "@ + decimal(settings.patience as nat)
        + "\n\n# Data split\ntrain_ratio = "@ + settings.train_ratio
        + "\n\n# Network architecture\nhidden_layers = "@ + list_text(settings.hidden_layers)
        + "\n\n# Weight initialization\nweight_min = "@ + settings.weight_min + "\nweight_max = "@
        + settings.weight_max + "\nbias_min = "@ + settings.bias_min + "\nbias_max = "@
        + settings.bias_max + "\n\n# Learning rate decay\nlr_decay_enabled = "@ + (
    if settings.lr_decay_enabled {
        "true"@
    } else {
        "false"@
    }) + "\nlr_decay_rate = "@ + settings.lr_decay_rate + "\nlr_decay_step = "@ + decimal(
        settings.lr_decay_step as nat,
    ) + "\n"@
}

/// The text that reports `value` as no value of the key `key`.
fn invalid_value(key: &str, value: &Vec<char>) -> (s: String)
    ensures
        s@ == ConfigError::InvalidValue(key@, value@).message(),
{
    let mut message = chars_of("Invalid ");
    let name = chars_of(key);
    extend_chars(&mut message, &name);
    let colon = chars_of(": ");
    extend_chars(&mut message, &colon);
    extend_chars(&mut message, value);
    string_of(&message)
}

/// The number that `value` writes, as the value of the key `key`.
fn number_for(key: &str, value: &Vec<char>) -> (r: Result<Number, String>)
    ensures
        match literal_for(key@, value@) {
            Ok(literal) => r is Ok && r->Ok_0@ == literal,
            Err(e) => r is Err && r->Err_0@ == e.message(),
        },
{
    let mut token: Vec<char> = Vec::new();
    extend_chars(&mut token, value);
    assert(token@ =~= value@);
    match Number::from_chars(token) {
        Some(number) => Ok(number),
        None => Err(invalid_value(key, value)),
    }
}

/// The count that `value` writes, as the value of the key `key`.
fn count_of(key: &str, value: &Vec<char>) -> (r: Result<usize, String>)
    ensures
        match count_for(key@, value@) {
            Ok(count) => r == Ok::<usize, String>(count),
            Err(e) => r is Err && r->Err_0@ == e.message(),
        },
{
    match read_unsigned(value, usize::MAX as u64) {
        Some(n) => Ok(n as usize),
        None => Err(invalid_value(key, value)),
    }
}

impl TrainingConfig<Number> {
    /// The configuration as it is written.
    pub open spec fn settings(&self) -> Settings {
        Settings {
            learning_rate: self.learning_rate@,
            epochs: self.epochs,
            batch_size: self.batch_size,
            patience: self.patience,
            train_ratio: self.train_ratio@,
            hidden_layers: self.hidden_layers@,
            weight_min: self.weight_min@,
            weight_max: self.weight_max@,
            bias_min: self.bias_min@,
            bias_max: self.bias_max@,
            lr_decay_enabled: self.lr_decay_enabled,
            lr_decay_rate: self.lr_decay_rate@,
            lr_decay_step: self.lr_decay_step,
        }
    }

    /// The configuration that holds where none is given.
    pub fn default() -> (config: Self)
        ensures
            config.settings() == default_settings(),
    {
        proof {
            reveal_strlit("0.01");
            reveal_strlit("0.8");
            reveal_strlit("-0.3");
            reveal_strlit("0.3");
            reveal_strlit("-0.1");
            reveal_strlit("0.1");
            reveal_strlit("0.95");
            lemma_plain_decimal("0.01"@, 1);
            lemma_plain_decimal("0.8"@, 1);
            lemma_plain_decimal("-0.3"@, 2);
            lemma_plain_decimal("0.3"@, 1);
            lemma_plain_decimal("-0.1"@, 2);
            lemma_plain_decimal("0.1"@, 1);
            lemma_plain_decimal("0.95"@, 1);
        }
        let hidden_layers: Vec<u32> = vec![256, 128, 64];
        assert(hidden_layers@ =~= seq![256u32, 128u32, 64u32]);
        TrainingConfig {
            learning_rate: Number::literal("0.01"),
            epochs: 1000,
            batch_size: 1,
            patience: 50,
            train_ratio: Number::literal("0.8"),
            hidden_layers,
            weight_min: Number::literal("-0.3"),
            weight_max: Number::literal("0.3"),
            bias_min: Number::literal("-0.1"),
            bias_max: Number::literal("0.1"),
            lr_decay_enabled: false,
            lr_decay_rate: Number::literal("0.95"),
            lr_decay_step: 100,
        }
    }

    /// Sets the key `key` to `value`.
    pub fn set(&mut self, key: &Vec<char>, value: &Vec<char>) -> (r: Result<(), String>)
        ensures
            match with_entry(old(self).settings(), key@, value@) {
                Ok(next) => r is Ok && final(self).settings() == next,
                Err(e) => r is Err && r->Err_0@ == e.message() && final(self).settings() == old(
                    self,
                ).settings(),
            },
    {
        if spells(key, "learning_rate") {
            match number_for("learning_rate", value) {
                Ok(number) => {
                    self.learning_rate = number;
                    Ok(())
                },
                Err(e) => Err(e),
            }
        } else if spells(key, "epochs") {
            match count_of("epochs", value) {
                Ok(count) => {
                    self.epochs = count;
                    Ok(())
                },
                Err(e) => Err(e),
            }
        } else if spells(key, "batch_size") {
            match count_of("batch_size", value) {
                Ok(count) => {
                    self.batch_size = count;
                    Ok(())
                },
                Err(e) => Err(e),
            }
        } else if spells(key, "patience") {
            match count_of("patience", value) {
                Ok(count) => {
                    self.patience = count;
                    Ok(())
                },
                Err(e) => Err(e),
            }
        } else if spells(key, "train_ratio") {
            match number_for("train_ratio", value) {
                Ok(number) => {
                    self.train_ratio = number;
                    Ok(())
                },
                Err(e) => Err(e),
            }
        } else if spells(key, "hidden_layers") {
            let text = string_of(value);
            match parse_vec_u32(text.as_str()) {
                Ok(list) => {
                    self.hidden_layers = list;
                    Ok(())
                },
                Err(e) => Err(e),
            }
        } else if spells(key, "weight_min") {
            match number_for("weight_min", value) {
                Ok(number) => {
                    self.weight_min = number;
                    Ok(())
                },
                Err(e) => Err(e),
            }
        } else if spells(key, "weight_max") {
            match number_for("weight_max", value) {
                Ok(number) => {
                    self.weight_max = number;
                    Ok(())
                },
                Err(e) => Err(e),
            }
        } else if spells(key, "bias_min") {
            match number_for("bias_min", value) {
                Ok(number) => {
                    self.bias_min = number;
                    Ok(())
                },
                Err(e) => Err(e),
            }
        } else if spells(key, "bias_max") {
            match number_for("bias_max", value) {
                Ok(number) => {
                    self.bias_max = number;
                    Ok(())
                },
                Err(e) => Err(e),
            }
        } else if spells(key, "lr_decay_enabled") {
            let text = string_of(value);
            match parse_bool(text.as_str()) {
                Ok(enabled) => {
                    self.lr_decay_enabled = enabled;
                    Ok(())
                },
                Err(e) => Err(e),
            }
        } else if spells(key, "lr_decay_rate") {
            match number_for("lr_decay_rate", value) {
                Ok(number) => {
                    self.lr_decay_rate = number;
                    Ok(())
                },
                Err(e) => Err(e),
            }
        } else if spells(key, "lr_decay_step") {
            match count_of("lr_decay_step", value) {
                Ok(count) => {
                    self.lr_decay_step = count;
                    Ok(())
                },
                Err(e) => Err(e),
            }
        } else {
            let mut message = chars_of("Unknown configuration key: ");
            extend_chars(&mut message, key);
            Err(string_of(&message))
        }
    }

    /// Reads a configuration from its text and checks it. The text makes
    /// a configuration of the default one, line by line; `judge` then finds
    /// which conditions on its numbers hold; and the configuration is
    /// returned where it violates no condition. The error is that of the
    /// text, or else the report of the first condition that is violated.
    pub fn parse<F: Fn(&TrainingConfig<Number>) -> Ranges>(content: &str, judge: F) -> (r: Result<
        Self,
        String,
    >)
        requires
            forall|config: &TrainingConfig<Number>| call_requires(judge, (config,)),
        ensures
            match settings_of(content@) {
                Err(e) => r is Err && r->Err_0@ == e.message(),
                Ok(settings) => exists|config: TrainingConfig<Number>, ranges: Ranges|
                    {
                        &&& #[trigger] call_ensures(judge, (&config,), ranges)
                        &&& config.settings() == settings
                        &&& match config.violation(ranges.checks) {
                            None => r is Ok && r->Ok_0.settings() == settings,
                            Some(violation) => r is Err && r->Err_0@ == violation_text(
                                violation,
                                ranges.shown(violation),
                            ),
                        }
                    },
            },
    {
        let config = match Self::read(content) {
            Ok(config) => config,
            Err(e) => {
                return Err(e);
            },
        };
        let ranges = judge(&config);
        match config.validate(&ranges) {
            Ok(()) => Ok(config),
            Err(e) => Err(e),
        }
    }

    /// Reads a configuration from its text, without checking it: the
    /// default configuration, changed by each line that sets a key.
    pub fn read(content: &str) -> (r: Result<Self, String>)
        ensures
            match settings_of(content@) {
                Ok(settings) => r is Ok && r->Ok_0.settings() == settings,
                Err(e) => r is Err && r->Err_0@ == e.message(),
            },
    {
        let mut config = Self::default();
        let text = chars_of(content);
        let lines = split_chars(&text, '\n');
        let ghost all = views(lines@);
        let mut i: usize = 0;
        while i < lines.len()
            invariant
                i <= lines.len(),
                all == views(lines@),
                all == split_on(content@, '\n'),
                with_lines(all, 0, default_settings()) == with_lines(
                    all,
                    i as int,
                    config.settings(),
                ),
            decreases lines.len() - i,
        {
            assert(all[i as int] == lines@[i as int]@);
            let line = trim_chars(&lines[i]);
            let silent = line.len() == 0 || line[0] == '#' || (line.len() >= 2 && line[0] == '/'
                && line[1] == '/');
            if !silent {
                let mut equals: usize = 0;
                while equals < line.len() && line[equals] != '='
                    invariant
                        equals <= line.len(),
                        forall|k: int| 0 <= k < equals ==> line@[k] != '=',
                    decreases line.len() - equals,
                {
                    equals += 1;
                }
                proof {
                    lemma_find_is(line@, '=', 0, equals as int);
                }
                if equals >= line.len() {
                    let mut message = chars_of("Invalid format at line ");
                    let number = decimal_of(i + 1);
                    extend_chars(&mut message, &number);
                    let tail = chars_of(": expected KEY = VALUE");
                    extend_chars(&mut message, &tail);
                    return Err(string_of(&message));
                }
                let before = slice_of(&line, 0, equals);
                let after = slice_of(&line, equals + 1, line.len());
                proof {
                    assert(before@ =~= line@.take(equals as int));
                    assert(after@ =~= line@.skip(equals + 1));
                }
                let key = trim_chars(&before);
                let value = trim_chars(&after);
                match config.set(&key, &value) {
                    Ok(()) => {},
                    Err(e) => {
                        return Err(e);
                    },
                }
            }
            i += 1;
        }
        Ok(config)
    }

    /// The text that writes the configuration.
    pub fn to_string(&self) -> (s: String)
        ensures
            s@ == settings_text(self.settings()),
    {
        let mut out = chars_of("# Training Configuration\n# Learning parameters\nlearning_rate = ");
        extend_chars(&mut out, self.learning_rate.chars());
        let epochs_key = chars_of("\nepochs = ");
        extend_chars(&mut out, &epochs_key);
        let epochs = decimal_of(self.epochs);
        extend_chars(&mut out, &epochs);
        let batch_key = chars_of("\nbatch_size = ");
        extend_chars(&mut out, &batch_key);
        let batch = decimal_of(self.batch_size);
        extend_chars(&mut out, &batch);
        let patience_key = chars_of("\npatience = ");
        extend_chars(&mut out, &patience_key);
        let patience = decimal_of(self.patience);
        extend_chars(&mut out, &patience);
        let ratio_key = chars_of("\n\n# Data split\ntrain_ratio = ");
        extend_chars(&mut out, &ratio_key);
        extend_chars(&mut out, self.train_ratio.chars());
        let hidden_key = chars_of("\n\n# Network architecture\nhidden_layers = ");
        extend_chars(&mut out, &hidden_key);
        let hidden = format_vec_u32(&self.hidden_layers);
        let hidden_chars = chars_of(hidden.as_str());
        extend_chars(&mut out, &hidden_chars);
        let weight_min_key = chars_of("\n\n# Weight initialization\nweight_min = ");
        extend_chars(&mut out, &weight_min_key);
        extend_chars(&mut out, self.weight_min.chars());
        let weight_max_key = chars_of("\nweight_max = ");
        extend_chars(&mut out, &weight_max_key);
        extend_chars(&mut out, self.weight_max.chars());
        let bias_min_key = chars_of("\nbias_min = ");
        extend_chars(&mut out, &bias_min_key);
        extend_chars(&mut out, self.bias_min.chars());
        let bias_max_key = chars_of("\nbias_max = ");
        extend_chars(&mut out, &bias_max_key);
        extend_chars(&mut out, self.bias_max.chars());
        let enabled_key = chars_of("\n\n# Learning rate decay\nlr_decay_enabled = ");
        extend_chars(&mut out, &enabled_key);
        let enabled = if self.lr_decay_enabled {
            chars_of("true")
        } else {
            chars_of("false")
        };
        extend_chars(&mut out, &enabled);
        let rate_key = chars_of("\nlr_decay_rate = ");
        extend_chars(&mut out, &rate_key);
        extend_chars(&mut out, self.lr_decay_rate.chars());
        let step_key = chars_of("\nlr_decay_step = ");
        extend_chars(&mut out, &step_key);
        let step = decimal_of(self.lr_decay_step);
        extend_chars(&mut out, &step);
        let end = chars_of("\n");
        extend_chars(&mut out, &end);
        string_of(&out)
    }
}

} // verus!

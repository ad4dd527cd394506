//! The files of positions: one position to a line, with or without the
//! label of its class.

use crate::chess::fen::{encoding, position, FenError, FenPosition};
use crate::chess::labels::{label_class, label_to_targets, one_hot, unknown_label};
use crate::decimal::{decimal, decimal_of};
use crate::text::{
    chars_of, extend_chars, join, join_chars, split_chars, split_on, split_words, string_of, trim,
    trim_chars, views, words,
};
use vstd::prelude::*;

verus! {

/// The position that `line` starts with: its first six fields with single
/// spaces between them where it has more than six, and the line as it is
/// where it has not.
pub open spec fn fen_of(line: Seq<char>) -> Seq<char> {
    let fields = words(line);
    if fields.len() > 6 {
        join(fields.take(6), seq![' '])
    } else {
        line
    }
}

/// The position that `line` starts with.
pub fn extract_fen(line: &str) -> (fen: String)
    ensures
        fen@ == fen_of(line@),
{
    let chars = chars_of(line);
    let fields = split_words(&chars);
    if fields.len() > 6 {
        let space: Vec<char> = vec![' '];
        proof {
            assert(space@ =~= seq![' ']);
            assert(views(fields@).subrange(0, 6) =~= views(fields@).take(6));
        }
        let fen = join_chars(&fields, 0, 6, &space);
        string_of(&fen)
    } else {
        string_of(&chars)
    }
}

/// What one line of a file of examples holds.
pub enum LineReading {
    /// Nothing but white space.
    Blank,
    /// A position and the label of its class.
    Example(Seq<char>, Seq<char>),
    /// Fewer than the six fields of a position and a label.
    Malformed,
}

/// What `line` holds: its first six fields are the position, and the
/// fields after them the label, with single spaces between the fields of
/// each.
pub open spec fn read_line(line: Seq<char>) -> LineReading {
    let fields = words(line);
    if fields.len() == 0 {
        LineReading::Blank
    } else if fields.len() < 7 {
        LineReading::Malformed
    } else {
        LineReading::Example(
            join(fields.take(6), seq![' ']),
            join(fields.skip(6), seq![' ']),
        )
    }
}

/// Why a file holds no examples.
pub enum DatasetError {
    /// The line of this number, counted from 1, is malformed.
    Malformed(nat),
    /// The file, of this name, holds no example.
    NoData(Seq<char>),
}

impl DatasetError {
    /// The text of the error.
    pub open spec fn message(self) -> Seq<char> {
        match self {
            DatasetError::Malformed(line) => "Invalid format at line "@ + decimal(line)
                + ": expected FEN (6 fields) + LABEL"@,
            DatasetError::NoData(path) => "No training data found in "@ + path,
        }
    }
}

/// The examples on the lines `lines[from..]`, after the examples `done`;
/// the number of the first line that is malformed.
pub open spec fn examples_on(
    lines: Seq<Seq<char>>,
    from: int,
    done: Seq<(Seq<char>, Seq<char>)>,
) -> Result<Seq<(Seq<char>, Seq<char>)>, DatasetError>
    decreases lines.len() - from,
{
    if from < 0 || from >= lines.len() {
        Ok(done)
    } else {
        match read_line(lines[from]) {
            LineReading::Blank => examples_on(lines, from + 1, done),
            LineReading::Example(fen, label) => examples_on(lines, from + 1, done.push((fen, label))),
            LineReading::Malformed => Err(DatasetError::Malformed((from + 1) as nat)),
        }
    }
}

/// The examples that the file of the text `content` and the name `path`
/// holds, one on each line that is not blank. There is at least one.
pub open spec fn examples_of(content: Seq<char>, path: Seq<char>) -> Result<
    Seq<(Seq<char>, Seq<char>)>,
    DatasetError,
> {
    match examples_on(split_on(content, '\n'), 0, Seq::empty()) {
        Err(e) => Err(e),
        Ok(examples) => if examples.len() == 0 {
            Err(DatasetError::NoData(path))
        } else {
            Ok(examples)
        },
    }
}

/// The characters of each string of each pair.
pub open spec fn pair_views(pairs: Seq<(String, String)>) -> Seq<(Seq<char>, Seq<char>)> {
    Seq::new(pairs.len(), |i: int| (pairs[i].0@, pairs[i].1@))
}

/// Reads the examples of the file of the text `content` and the name
/// `path`: each a position and the label of its class.
pub fn read_training_data(content: &str, path: &str) -> (r: Result<Vec<(String, String)>, String>)
    ensures
        match examples_of(content@, path@) {
            Ok(examples) => r is Ok && pair_views(r->Ok_0@) == examples,
            Err(e) => r is Err && r->Err_0@ == e.message(),
        },
{
    let text = chars_of(content);
    let lines = split_chars(&text, '\n');
    let ghost all = views(lines@);
    let mut data: Vec<(String, String)> = Vec::new();
    let space: Vec<char> = vec![' '];
    let mut i: usize = 0;
    proof {
        assert(space@ =~= seq![' ']);
        assert(pair_views(data@) =~= Seq::<(Seq<char>, Seq<char>)>::empty());
    }
    while i < lines.len()
        invariant
            i <= lines.len(),
            all == views(lines@),
            all == split_on(content@, '\n'),
            space@ == seq![' '],
            examples_on(all, 0, Seq::empty()) == examples_on(all, i as int, pair_views(data@)),
        decreases lines.len() - i,
    {
        assert(all[i as int] == lines@[i as int]@);
        let fields = split_words(&lines[i]);
        if fields.len() > 0 {
            if fields.len() < 7 {
                let mut message = chars_of("Invalid format at line ");
                let number = decimal_of(i + 1);
                extend_chars(&mut message, &number);
                let tail = chars_of(": expected FEN (6 fields) + LABEL");
                extend_chars(&mut message, &tail);
                return Err(string_of(&message));
            }
            proof {
                assert(views(fields@).subrange(0, 6) =~= views(fields@).take(6));
                assert(views(fields@).subrange(6, fields.len() as int) =~= views(fields@).skip(6));
            }
            let fen = join_chars(&fields, 0, 6, &space);
            let label = join_chars(&fields, 6, fields.len(), &space);
            let pair = (string_of(&fen), string_of(&label));
            proof {
                assert(pair_views(data@.push(pair)) =~= pair_views(data@).push((fen@, label@)));
            }
            data.push(pair);
        }
        i += 1;
    }
    if data.len() == 0 {
        let mut message = chars_of("No training data found in ");
        let name = chars_of(path);
        extend_chars(&mut message, &name);
        return Err(string_of(&message));
    }
    Ok(data)
}

/// The lines `lines[from..]` that are not blank, each without the white
/// space around it, after the lines `done`.
pub open spec fn kept_lines(lines: Seq<Seq<char>>, from: int, done: Seq<Seq<char>>) -> Seq<
    Seq<char>,
>
    decreases lines.len() - from,
{
    if from < 0 || from >= lines.len() {
        done
    } else if trim(lines[from]).len() == 0 {
        kept_lines(lines, from + 1, done)
    } else {
        kept_lines(lines, from + 1, done.push(trim(lines[from])))
    }
}

/// The text that reports the file of the name `path` as empty.
pub open spec fn empty_file(path: Seq<char>) -> Seq<char> {
    "File "@ + path + " is empty"@
}

/// The characters of each of the strings `lines`.
pub open spec fn string_views(lines: Seq<String>) -> Seq<Seq<char>> {
    Seq::new(lines.len(), |i: int| lines[i]@)
}

/// Reads the lines of the file of the text `content` and the name `path`
/// that are not blank, each without the white space around it. There is
/// at least one.
pub fn read_chess_lines(content: &str, path: &str) -> (r: Result<Vec<String>, String>)
    ensures
        ({
            let kept = kept_lines(split_on(content@, '\n'), 0, Seq::empty());
            if kept.len() == 0 {
                r is Err && r->Err_0@ == empty_file(path@)
            } else {
                r is Ok && string_views(r->Ok_0@) == kept
            }
        }),
{
    let text = chars_of(content);
    let lines = split_chars(&text, '\n');
    let ghost all = views(lines@);
    let mut kept: Vec<String> = Vec::new();
    let mut i: usize = 0;
    proof {
        assert(string_views(kept@) =~= Seq::<Seq<char>>::empty());
    }
    while i < lines.len()
        invariant
            i <= lines.len(),
            all == views(lines@),
            all == split_on(content@, '\n'),
            kept_lines(all, 0, Seq::empty()) == kept_lines(all, i as int, string_views(kept@)),
        decreases lines.len() - i,
    {
        assert(all[i as int] == lines@[i as int]@);
        let line = trim_chars(&lines[i]);
        if line.len() > 0 {
            let line = string_of(&line);
            proof {
                assert(string_views(kept@.push(line)) =~= string_views(kept@).push(line@));
            }
            kept.push(line);
        }
        i += 1;
    }
    if kept.len() == 0 {
        let mut message = chars_of("File ");
        let name = chars_of(path);
        extend_chars(&mut message, &name);
        let tail = chars_of(" is empty");
        extend_chars(&mut message, &tail);
        return Err(string_of(&message));
    }
    Ok(kept)
}

/// Why examples are not network inputs and targets.
pub enum ConversionError {
    /// The position of the example of this number, counted from 1, is no
    /// position.
    Position(nat, FenError),
    /// This label names no class.
    Label(Seq<char>),
}

impl ConversionError {
    /// The text of the error.
    pub open spec fn message(self) -> Seq<char> {
        match self {
            ConversionError::Position(example, e) => "Error parsing FEN at example "@ + decimal(
                example,
            ) + ": "@ + e.message(),
            ConversionError::Label(label) => unknown_label(label),
        }
    }
}

/// The inputs and the targets of the examples `examples[from..]`, after
/// those in `done`; the error of the first example that has none.
pub open spec fn converted(
    examples: Seq<(Seq<char>, Seq<char>)>,
    from: int,
    done: Seq<(Seq<u8>, Seq<u8>)>,
) -> Result<Seq<(Seq<u8>, Seq<u8>)>, ConversionError>
    decreases examples.len() - from,
{
    if from < 0 || from >= examples.len() {
        Ok(done)
    } else {
        match position(examples[from].0) {
            Err(e) => Err(ConversionError::Position((from + 1) as nat, e)),
            Ok((board, color)) => match label_class(examples[from].1) {
                None => Err(ConversionError::Label(examples[from].1)),
                Some(class) => converted(
                    examples,
                    from + 1,
                    done.push((encoding(board, color), one_hot(5, class))),
                ),
            },
        }
    }
}

/// The values of each vector of each pair.
pub open spec fn vector_views(pairs: Seq<(Vec<u8>, Vec<u8>)>) -> Seq<(Seq<u8>, Seq<u8>)> {
    Seq::new(pairs.len(), |i: int| (pairs[i].0@, pairs[i].1@))
}

/// The network inputs and targets of the examples `raw_data`, each a
/// position and the label of its class. Every input and every target is 0
/// or 1.
pub fn convert_to_training_data(raw_data: &Vec<(String, String)>) -> (r: Result<
    Vec<(Vec<u8>, Vec<u8>)>,
    String,
>)
    ensures
        match converted(pair_views(raw_data@), 0, Seq::empty()) {
            Ok(data) => r is Ok && vector_views(r->Ok_0@) == data,
            Err(e) => r is Err && r->Err_0@ == e.message(),
        },
{
    let ghost examples = pair_views(raw_data@);
    let mut data: Vec<(Vec<u8>, Vec<u8>)> = Vec::new();
    let mut i: usize = 0;
    proof {
        assert(vector_views(data@) =~= Seq::<(Seq<u8>, Seq<u8>)>::empty());
    }
    while i < raw_data.len()
        invariant
            i <= raw_data.len(),
            examples == pair_views(raw_data@),
            converted(examples, 0, Seq::empty()) == converted(
                examples,
                i as int,
                vector_views(data@),
            ),
        decreases raw_data.len() - i,
    {
        assert(examples[i as int] == (raw_data@[i as int].0@, raw_data@[i as int].1@));
        let position = match FenPosition::parse(raw_data[i].0.as_str()) {
            Ok(position) => position,
            Err(e) => {
                let mut message = chars_of("Error parsing FEN at example ");
                let number = decimal_of(i + 1);
                extend_chars(&mut message, &number);
                let colon = chars_of(": ");
                extend_chars(&mut message, &colon);
                let cause = chars_of(e.as_str());
                extend_chars(&mut message, &cause);
                return Err(string_of(&message));
            },
        };
        let inputs = position.to_inputs();
        let targets = match label_to_targets(raw_data[i].1.as_str()) {
            Ok(targets) => targets,
            Err(e) => {
                return Err(e);
            },
        };
        proof {
            assert(vector_views(data@.push((inputs, targets))) =~= vector_views(data@).push(
                (inputs@, targets@),
            ));
        }
        data.push((inputs, targets));
        i += 1;
    }
    Ok(data)
}

} // verus!

//! The names of the files that hold newly generated networks.

use crate::decimal::{decimal, decimal_of};
use crate::text::{chars_of, extend_chars, find, lemma_find_is, slice_of, string_of};
use vstd::prelude::*;

verus! {

/// The index after the last `sep` of `s[..to]`, or 0 where it holds none.
pub open spec fn after_last(s: Seq<char>, sep: char, to: int) -> int
    decreases to,
{
    if to <= 0 || to > s.len() {
        0
    } else if s[to - 1] == sep {
        to
    } else {
        after_last(s, sep, to - 1)
    }
}

/// The base name of the file `path`: what follows its last `/`, up to the
/// first `.` of that.
pub open spec fn base_name(path: Seq<char>) -> Seq<char> {
    let filename = path.skip(after_last(path, '/', path.len() as int));
    filename.take(find(filename, '.', 0))
}

/// The base name of the file `path`.
pub fn extract_base_name(path: &str) -> (name: String)
    ensures
        name@ == base_name(path@),
{
    let chars = chars_of(path);
    let mut start: usize = chars.len();
    while start > 0 && chars[start - 1] != '/'
        invariant
            start <= chars.len(),
            after_last(chars@, '/', chars.len() as int) == after_last(chars@, '/', start as int),
        decreases start,
    {
        start -= 1;
    }
    let ghost filename = chars@.skip(start as int);
    let mut end: usize = start;
    while end < chars.len() && chars[end] != '.'
        invariant
            start <= end <= chars.len(),
            filename == chars@.skip(start as int),
            forall|k: int| 0 <= k < end - start ==> filename[k] != '.',
        decreases chars.len() - end,
    {
        end += 1;
    }
    proof {
        lemma_find_is(filename, '.', 0, end - start);
        assert(filename.take(end - start) =~= chars@.subrange(start as int, end as int));
    }
    let name = slice_of(&chars, start, end);
    string_of(&name)
}

/// The name of the file of network number `index` of `count` networks
/// generated from the configuration of the base name `base`: the base
/// name alone where there is one network, and with the number after it
/// where there are more.
pub open spec fn file_name(base: Seq<char>, count: nat, index: nat) -> Seq<char> {
    if count == 1 {
        base + ".nn"@
    } else {
        base + "_"@ + decimal(index) + ".nn"@
    }
}

/// The name of the file of network number `index` of `count` networks
/// generated from the configuration of the base name `base`.
pub fn network_file_name(base: &str, count: usize, index: usize) -> (name: String)
    ensures
        name@ == file_name(base@, count as nat, index as nat),
{
    let mut name = chars_of(base);
    if count != 1 {
        let underscore = chars_of("_");
        extend_chars(&mut name, &underscore);
        let number = decimal_of(index);
        extend_chars(&mut name, &number);
    }
    let extension = chars_of(".nn");
    extend_chars(&mut name, &extension);
    string_of(&name)
}

} // verus!

//! Character sequences: conversion between strings and character vectors,
//! and the splitting and joining that the text formats of this crate share.

use vstd::prelude::*;
use vstd::std_specs::iter::IteratorSpec;

verus! {

/// `String::push` of std: afterwards the string holds the characters that
/// it held before, and after them `c`.
pub assume_specification[ String::push ](s: &mut String, c: char)
    ensures
        final(s)@ == old(s)@.push(c),
;

/// The views of a sequence of character vectors.
pub open spec fn views(parts: Seq<Vec<char>>) -> Seq<Seq<char>> {
    Seq::new(parts.len(), |i: int| parts[i]@)
}

/// The characters of `s`, in order.
pub fn chars_of(s: &str) -> (v: Vec<char>)
    ensures
        v@ == s@,
{
    let mut v: Vec<char> = Vec::new();
    for c in iter: s.chars()
        invariant
            v@ == iter.history(),
            iter.seq() == s@,
    {
        v.push(c);
    }
    assert(v@ =~= s@);
    v
}

/// Appends the characters `v[from..to]` to `s`.
pub fn push_chars(s: &mut String, v: &Vec<char>, from: usize, to: usize)
    requires
        from <= to <= v.len(),
    ensures
        final(s)@ == old(s)@ + v@.subrange(from as int, to as int),
{
    let mut i: usize = from;
    while i < to
        invariant
            from <= i <= to <= v.len(),
            s@ == old(s)@ + v@.subrange(from as int, i as int),
        decreases to - i,
    {
        s.push(v[i]);
        i += 1;
        assert(s@ =~= old(s)@ + v@.subrange(from as int, i as int));
    }
    assert(s@ =~= old(s)@ + v@.subrange(from as int, to as int));
}

/// The string made of the characters of `v`.
pub fn string_of(v: &Vec<char>) -> (s: String)
    ensures
        s@ == v@,
{
    let mut s = String::new();
    push_chars(&mut s, v, 0, v.len());
    assert(v@.subrange(0, v.len() as int) =~= v@);
    assert(s@ =~= v@);
    s
}

/// A copy of `v[from..to]`.
pub fn slice_of(v: &Vec<char>, from: usize, to: usize) -> (r: Vec<char>)
    requires
        from <= to <= v.len(),
    ensures
        r@ == v@.subrange(from as int, to as int),
{
    let mut r: Vec<char> = Vec::new();
    let mut i: usize = from;
    while i < to
        invariant
            from <= i <= to <= v.len(),
            r@ == v@.subrange(from as int, i as int),
        decreases to - i,
    {
        r.push(v[i]);
        i += 1;
        assert(r@ =~= v@.subrange(from as int, i as int));
    }
    r
}

/// Whether two character vectors hold the same characters.
pub fn same_chars(a: &Vec<char>, b: &Vec<char>) -> (r: bool)
    ensures
        r == (a@ == b@),
{
    if a.len() != b.len() {
        return false;
    }
    let mut i: usize = 0;
    while i < a.len()
        invariant
            i <= a.len(),
            a.len() == b.len(),
            forall|k: int| 0 <= k < i ==> a@[k] == b@[k],
        decreases a.len() - i,
    {
        if a[i] != b[i] {
            return false;
        }
        i += 1;
    }
    assert(a@ =~= b@);
    true
}

/// Whether `v` spells the string `word`.
pub fn spells(v: &Vec<char>, word: &str) -> (r: bool)
    ensures
        r == (v@ == word@),
{
    let w = chars_of(word);
    same_chars(v, &w)
}

/// Whether `c` is white space: the characters that separate words.
pub open spec fn is_space(c: char) -> bool {
    let u = c as u32;
    ||| 0x09 <= u <= 0x0d
    ||| u == 0x20
    ||| u == 0x85
    ||| u == 0xa0
    ||| u == 0x1680
    ||| 0x2000 <= u <= 0x200a
    ||| u == 0x2028
    ||| u == 0x2029
    ||| u == 0x202f
    ||| u == 0x205f
    ||| u == 0x3000
}

/// Whether `c` is white space.
pub fn is_whitespace(c: char) -> (b: bool)
    ensures
        b == is_space(c),
{
    let u: u32 = c as u32;
    (0x09 <= u && u <= 0x0d) || u == 0x20 || u == 0x85 || u == 0xa0 || u == 0x1680 || (0x2000 <= u
        && u <= 0x200a) || u == 0x2028 || u == 0x2029 || u == 0x202f || u == 0x205f || u == 0x3000
}

/// The first index at or after `from` where `s` holds `sep`, or the length
/// of `s` where it holds none.
pub open spec fn find<T>(s: Seq<T>, sep: T, from: int) -> int
    decreases s.len() - from,
{
    if from >= s.len() {
        s.len() as int
    } else if s[from] == sep {
        from
    } else {
        find(s, sep, from + 1)
    }
}

/// The pieces of `s` between the occurrences of `sep`: one more piece than
/// there are occurrences, so that an empty sequence gives one empty piece.
pub open spec fn split_on<T>(s: Seq<T>, sep: T) -> Seq<Seq<T>>
    decreases s.len(),
{
    let i = find(s, sep, 0);
    if 0 <= i < s.len() {
        seq![s.take(i)] + split_on(s.skip(i + 1), sep)
    } else {
        seq![s]
    }
}

/// Where `at` is the first occurrence of `sep` from `from` on, `find`
/// returns it.
pub proof fn lemma_find_is<T>(s: Seq<T>, sep: T, from: int, at: int)
    requires
        0 <= from <= at <= s.len(),
        forall|k: int| from <= k < at ==> s[k] != sep,
        at < s.len() ==> s[at] == sep,
    ensures
        find(s, sep, from) == at,
    decreases at - from,
{
    if from < at {
        lemma_find_is(s, sep, from + 1, at);
    }
}

/// The pieces of `v` between the occurrences of `sep`.
pub fn split_chars(v: &Vec<char>, sep: char) -> (parts: Vec<Vec<char>>)
    ensures
        views(parts@) == split_on(v@, sep),
        parts.len() >= 1,
{
    let mut parts: Vec<Vec<char>> = Vec::new();
    let mut start: usize = 0;
    let mut i: usize = 0;
    proof {
        assert(v@.skip(0) =~= v@);
        assert(views(parts@) + split_on(v@, sep) =~= split_on(v@, sep));
    }
    while i < v.len()
        invariant
            start <= i <= v.len(),
            forall|k: int| start <= k < i ==> v@[k] != sep,
            split_on(v@, sep) == views(parts@) + split_on(v@.skip(start as int), sep),
        decreases v.len() - i,
    {
        if v[i] == sep {
            let piece = slice_of(v, start, i);
            proof {
                let rest = v@.skip(start as int);
                assert forall|k: int| 0 <= k < i - start implies rest[k] != sep by {
                    assert(rest[k] == v@[start + k]);
                }
                lemma_find_is(rest, sep, 0, i - start);
                assert(rest.take(i - start) =~= piece@);
                assert(rest.skip(i - start + 1) =~= v@.skip(i + 1));
                assert(views(parts@.push(piece)) =~= views(parts@) + seq![piece@]);
            }
            parts.push(piece);
            start = i + 1;
        }
        i += 1;
    }
    let piece = slice_of(v, start, v.len());
    proof {
        let rest = v@.skip(start as int);
        assert forall|k: int| 0 <= k < rest.len() implies rest[k] != sep by {
            assert(rest[k] == v@[start + k]);
        }
        lemma_find_is(rest, sep, 0, rest.len() as int);
        assert(rest =~= piece@);
        assert(views(parts@.push(piece)) =~= views(parts@) + seq![piece@]);
    }
    parts.push(piece);
    parts
}

/// The first index at or after `from` where `s` holds white space, or the
/// length of `s` where it holds none.
pub open spec fn word_end(s: Seq<char>, from: int) -> int
    decreases s.len() - from,
{
    if from >= s.len() {
        s.len() as int
    } else if is_space(s[from]) {
        from
    } else {
        word_end(s, from + 1)
    }
}

/// The words of `s` that start at or after `from`.
pub open spec fn words_from(s: Seq<char>, from: int) -> Seq<Seq<char>>
    decreases s.len() - from,
{
    if from < 0 || from >= s.len() {
        Seq::empty()
    } else if is_space(s[from]) {
        words_from(s, from + 1)
    } else {
        let end = word_end(s, from + 1);
        if from < end <= s.len() {
            seq![s.subrange(from, end)] + words_from(s, end)
        } else {
            Seq::empty()
        }
    }
}

/// The words of `s`: its maximal runs of characters that are not white
/// space, in order. None of them is empty.
pub open spec fn words(s: Seq<char>) -> Seq<Seq<char>> {
    words_from(s, 0)
}

/// `word_end` finds the first white space: nothing before it is one.
pub proof fn lemma_word_end(s: Seq<char>, from: int)
    requires
        0 <= from <= s.len(),
    ensures
        from <= word_end(s, from) <= s.len(),
        word_end(s, from) < s.len() ==> is_space(s[word_end(s, from)]),
        forall|k: int| from <= k < word_end(s, from) ==> !is_space(s[k]),
    decreases s.len() - from,
{
    if from < s.len() && !is_space(s[from]) {
        lemma_word_end(s, from + 1);
    }
}

/// Where `at` is the first white space from `from` on, `word_end` returns it.
pub proof fn lemma_word_end_is(s: Seq<char>, from: int, at: int)
    requires
        0 <= from <= at <= s.len(),
        forall|k: int| from <= k < at ==> !is_space(s[k]),
        at < s.len() ==> is_space(s[at]),
    ensures
        word_end(s, from) == at,
    decreases at - from,
{
    if from < at {
        lemma_word_end_is(s, from + 1, at);
    }
}

/// The words of `v`.
pub fn split_words(v: &Vec<char>) -> (parts: Vec<Vec<char>>)
    ensures
        views(parts@) == words(v@),
{
    let mut parts: Vec<Vec<char>> = Vec::new();
    let mut i: usize = 0;
    proof {
        assert(views(parts@) + words_from(v@, 0) =~= words(v@));
    }
    while i < v.len()
        invariant
            i <= v.len(),
            words(v@) == views(parts@) + words_from(v@, i as int),
        decreases v.len() - i,
    {
        if is_whitespace(v[i]) {
            i += 1;
        } else {
            let mut j: usize = i + 1;
            while j < v.len() && !is_whitespace(v[j])
                invariant
                    i < j <= v.len(),
                    forall|k: int| i + 1 <= k < j ==> !is_space(v@[k]),
                decreases v.len() - j,
            {
                j += 1;
            }
            let piece = slice_of(v, i, j);
            proof {
                lemma_word_end_is(v@, i + 1, j as int);
                assert(views(parts@.push(piece)) =~= views(parts@) + seq![piece@]);
            }
            parts.push(piece);
            i = j;
        }
    }
    proof {
        assert(views(parts@) + words_from(v@, i as int) =~= views(parts@));
    }
    parts
}

/// The pieces of `parts` in order, with `sep` between each two neighbours.
pub open spec fn join<T>(parts: Seq<Seq<T>>, sep: Seq<T>) -> Seq<T>
    decreases parts.len(),
{
    if parts.len() == 0 {
        Seq::empty()
    } else if parts.len() == 1 {
        parts[0]
    } else {
        join(parts.drop_last(), sep) + sep + parts.last()
    }
}

/// Appends all of `piece` to `out`.
pub fn extend_chars(out: &mut Vec<char>, piece: &Vec<char>)
    ensures
        final(out)@ == old(out)@ + piece@,
{
    let mut i: usize = 0;
    while i < piece.len()
        invariant
            i <= piece.len(),
            out@ == old(out)@ + piece@.take(i as int),
        decreases piece.len() - i,
    {
        out.push(piece[i]);
        i += 1;
        assert(out@ =~= old(out)@ + piece@.take(i as int));
    }
    assert(piece@.take(piece.len() as int) =~= piece@);
}

/// The pieces `parts[from..to]` joined by `sep`.
pub fn join_chars(parts: &Vec<Vec<char>>, from: usize, to: usize, sep: &Vec<char>) -> (out: Vec<
    char,
>)
    requires
        from <= to <= parts.len(),
    ensures
        out@ == join(views(parts@).subrange(from as int, to as int), sep@),
{
    let mut out: Vec<char> = Vec::new();
    let mut i: usize = from;
    let ghost all = views(parts@);
    proof {
        assert(all.subrange(from as int, from as int) =~= Seq::<Seq<char>>::empty());
    }
    while i < to
        invariant
            from <= i <= to <= parts.len(),
            all == views(parts@),
            out@ == join(all.subrange(from as int, i as int), sep@),
        decreases to - i,
    {
        let ghost before = all.subrange(from as int, i as int);
        let ghost after = all.subrange(from as int, i + 1);
        proof {
            assert(after.drop_last() =~= before);
            assert(after.last() == parts@[i as int]@);
        }
        if i > from {
            extend_chars(&mut out, sep);
        }
        extend_chars(&mut out, &parts[i]);
        proof {
            if i == from {
                assert(before.len() == 0);
                assert(out@ =~= parts@[i as int]@);
                assert(after.len() == 1);
            } else {
                assert(after.len() >= 2);
            }
        }
        i += 1;
    }
    out
}

/// The runs `all[a..b]` for the index pairs `(a, b)` of `ranges`.
pub open spec fn runs<T>(all: Seq<T>, ranges: Seq<(usize, usize)>) -> Seq<Seq<T>> {
    Seq::new(ranges.len(), |i: int| all.subrange(ranges[i].0 as int, ranges[i].1 as int))
}

/// The runs of lines of `lines` between the lines that spell `sep`, each as
/// the pair of the index where it starts and the index where it ends.
pub fn split_lines(lines: &Vec<Vec<char>>, sep: &Vec<char>) -> (ranges: Vec<(usize, usize)>)
    ensures
        runs(views(lines@), ranges@) == split_on(views(lines@), sep@),
        ranges.len() >= 1,
        forall|i: int|
            0 <= i < ranges.len() ==> (#[trigger] ranges@[i]).0 <= ranges@[i].1 <= lines.len(),
{
    let ghost all = views(lines@);
    let mut ranges: Vec<(usize, usize)> = Vec::new();
    let mut start: usize = 0;
    let mut i: usize = 0;
    proof {
        assert(all.skip(0) =~= all);
        assert(runs(all, ranges@) + split_on(all, sep@) =~= split_on(all, sep@));
    }
    while i < lines.len()
        invariant
            start <= i <= lines.len(),
            all == views(lines@),
            forall|k: int| start <= k < i ==> all[k] != sep@,
            split_on(all, sep@) == runs(all, ranges@) + split_on(all.skip(start as int), sep@),
            forall|k: int|
                0 <= k < ranges.len() ==> (#[trigger] ranges@[k]).0 <= ranges@[k].1 <= lines.len(),
        decreases lines.len() - i,
    {
        assert(all[i as int] == lines@[i as int]@);
        if same_chars(&lines[i], sep) {
            proof {
                let rest = all.skip(start as int);
                assert forall|k: int| 0 <= k < i - start implies rest[k] != sep@ by {
                    assert(rest[k] == all[start + k]);
                }
                lemma_find_is(rest, sep@, 0, i - start);
                assert(rest.take(i - start) =~= all.subrange(start as int, i as int));
                assert(rest.skip(i - start + 1) =~= all.skip(i + 1));
                assert(runs(all, ranges@.push((start, i))) =~= runs(all, ranges@) + seq![
                    all.subrange(start as int, i as int),
                ]);
            }
            ranges.push((start, i));
            start = i + 1;
        }
        i += 1;
    }
    proof {
        let rest = all.skip(start as int);
        assert forall|k: int| 0 <= k < rest.len() implies rest[k] != sep@ by {
            assert(rest[k] == all[start + k]);
        }
        lemma_find_is(rest, sep@, 0, rest.len() as int);
        assert(rest =~= all.subrange(start as int, lines.len() as int));
        assert(runs(all, ranges@.push((start, lines.len()))) =~= runs(all, ranges@) + seq![
            all.subrange(start as int, lines.len() as int),
        ]);
    }
    ranges.push((start, lines.len()));
    ranges
}

/// Joining what two sequences of pieces hold, one after the other, is
/// joining each and putting the separator between the two.
pub proof fn lemma_join_concat<T>(a: Seq<Seq<T>>, b: Seq<Seq<T>>, sep: Seq<T>)
    requires
        a.len() >= 1,
        b.len() >= 1,
    ensures
        join(a + b, sep) == join(a, sep) + sep + join(b, sep),
    decreases b.len(),
{
    assert((a + b).drop_last() =~= a + b.drop_last());
    assert((a + b).last() == b.last());
    if b.len() == 1 {
        assert(a + b.drop_last() =~= a);
    } else {
        lemma_join_concat(a, b.drop_last(), sep);
        assert(join(a + b, sep) =~= join(a, sep) + sep + join(b, sep));
    }
}

/// Joining two pieces or more starts with the first piece and the
/// separator, and goes on with the rest joined.
pub proof fn lemma_join_front<T>(parts: Seq<Seq<T>>, sep: Seq<T>)
    requires
        parts.len() >= 2,
    ensures
        join(parts, sep) == parts[0] + sep + join(parts.drop_first(), sep),
{
    let head = seq![parts[0]];
    assert(parts =~= head + parts.drop_first());
    lemma_join_concat(head, parts.drop_first(), sep);
}

/// Splitting undoes joining: pieces that hold no `sep`, joined by `sep`
/// and split on it, are the pieces again.
pub proof fn lemma_split_join<T>(parts: Seq<Seq<T>>, sep: T)
    requires
        parts.len() >= 1,
        forall|i: int, k: int|
            0 <= i < parts.len() && 0 <= k < parts[i].len() ==> #[trigger] parts[i][k] != sep,
    ensures
        split_on(join(parts, seq![sep]), sep) == parts,
    decreases parts.len(),
{
    let joined = join(parts, seq![sep]);
    if parts.len() == 1 {
        assert(joined == parts[0]);
        lemma_find_is(joined, sep, 0, joined.len() as int);
        assert(split_on(joined, sep) =~= parts);
    } else {
        let rest = parts.drop_first();
        lemma_join_front(parts, seq![sep]);
        let first = parts[0];
        assert(joined == first + seq![sep] + join(rest, seq![sep]));
        assert forall|k: int| 0 <= k < first.len() implies joined[k] != sep by {
            assert(joined[k] == first[k]);
        }
        assert(joined[first.len() as int] == sep);
        lemma_find_is(joined, sep, 0, first.len() as int);
        assert(joined.take(first.len() as int) =~= first);
        assert(joined.skip(first.len() as int + 1) =~= join(rest, seq![sep]));
        assert forall|i: int, k: int|
            0 <= i < rest.len() && 0 <= k < rest[i].len() implies #[trigger] rest[i][k]
            != sep by {
            assert(rest[i] == parts[i + 1]);
        }
        lemma_split_join(rest, sep);
        assert(split_on(joined, sep) =~= parts);
    }
}

/// Whether `s` is a word: it holds a character, and no white space.
pub open spec fn is_word(s: Seq<char>) -> bool {
    &&& s.len() > 0
    &&& forall|i: int| 0 <= i < s.len() ==> !is_space(#[trigger] s[i])
}

/// The first white space of a sequence that something precedes is where it
/// is in the sequence alone, moved by the length of what precedes.
pub proof fn lemma_word_end_shift(head: Seq<char>, s: Seq<char>, from: int)
    requires
        0 <= from <= s.len(),
    ensures
        word_end(head + s, head.len() + from) == head.len() + word_end(s, from),
    decreases s.len() - from,
{
    let whole = head + s;
    if from < s.len() {
        assert(whole[head.len() + from] == s[from]);
        if !is_space(s[from]) {
            lemma_word_end_shift(head, s, from + 1);
        }
    }
}

/// The words of a sequence that something precedes are its words alone.
pub proof fn lemma_words_shift(head: Seq<char>, s: Seq<char>, from: int)
    requires
        0 <= from <= s.len(),
    ensures
        words_from(head + s, head.len() + from) == words_from(s, from),
    decreases s.len() - from,
{
    let whole = head + s;
    if from < s.len() {
        assert(whole[head.len() + from] == s[from]);
        if is_space(s[from]) {
            lemma_words_shift(head, s, from + 1);
        } else {
            lemma_word_end_shift(head, s, from + 1);
            lemma_word_end(s, from + 1);
            let end = word_end(s, from + 1);
            assert(whole.subrange(head.len() + from, head.len() + end) =~= s.subrange(from, end));
            lemma_words_shift(head, s, end);
        }
    }
}

/// A word alone is its only word.
pub proof fn lemma_words_of_word(word: Seq<char>)
    requires
        is_word(word),
    ensures
        words(word) == seq![word],
{
    lemma_word_end_is(word, 1, word.len() as int);
    assert(word.subrange(0, word.len() as int) =~= word);
    assert(words_from(word, word.len() as int) =~= Seq::<Seq<char>>::empty());
    assert(seq![word] + Seq::<Seq<char>>::empty() =~= seq![word]);
}

/// The words of a word, a space, and more are the word and the words of
/// what follows the space.
pub proof fn lemma_words_after_word(word: Seq<char>, rest: Seq<char>)
    requires
        is_word(word),
    ensures
        words(word + seq![' '] + rest) == seq![word] + words(rest),
{
    let head = word + seq![' '];
    let whole = head + rest;
    let n = word.len() as int;
    assert forall|k: int| 0 <= k < n implies !is_space(whole[k]) by {
        assert(whole[k] == word[k]);
    }
    assert(whole[n] == ' ');
    assert(is_space(' '));
    lemma_word_end_is(whole, 1, n);
    assert(whole.subrange(0, n) =~= word);
    lemma_words_shift(head, rest, 0);
    assert(words_from(whole, n) == words_from(whole, n + 1));
}

/// Words joined by single spaces are the words of what they make.
pub proof fn lemma_words_join(tokens: Seq<Seq<char>>)
    requires
        forall|i: int| 0 <= i < tokens.len() ==> is_word(#[trigger] tokens[i]),
    ensures
        words(join(tokens, seq![' '])) == tokens,
    decreases tokens.len(),
{
    if tokens.len() == 0 {
        assert(words(join(tokens, seq![' '])) =~= tokens);
    } else if tokens.len() == 1 {
        lemma_words_of_word(tokens[0]);
        assert(seq![tokens[0]] =~= tokens);
    } else {
        let rest = tokens.drop_first();
        lemma_join_front(tokens, seq![' ']);
        assert forall|i: int| 0 <= i < rest.len() implies is_word(#[trigger] rest[i]) by {
            assert(rest[i] == tokens[i + 1]);
        }
        lemma_words_join(rest);
        lemma_words_after_word(tokens[0], join(rest, seq![' ']));
        assert(seq![tokens[0]] + rest =~= tokens);
    }
}

/// The first index at or after `from` where `s` holds no white space, or
/// the length of `s` where only white space follows.
pub open spec fn space_end(s: Seq<char>, from: int) -> int
    decreases s.len() - from,
{
    if from < 0 || from >= s.len() {
        s.len() as int
    } else if is_space(s[from]) {
        space_end(s, from + 1)
    } else {
        from
    }
}

/// The index after the last character of `s[..to]` that is no white
/// space, or 0 where there is none.
pub open spec fn text_end(s: Seq<char>, to: int) -> int
    decreases to,
{
    if to <= 0 || to > s.len() {
        0
    } else if is_space(s[to - 1]) {
        text_end(s, to - 1)
    } else {
        to
    }
}

/// `s` without the white space at its start and at its end.
pub open spec fn trim(s: Seq<char>) -> Seq<char> {
    let from = space_end(s, 0);
    let to = text_end(s, s.len() as int);
    if from < to {
        s.subrange(from, to)
    } else {
        Seq::empty()
    }
}

/// `v` without the white space at its start and at its end.
pub fn trim_chars(v: &Vec<char>) -> (r: Vec<char>)
    ensures
        r@ == trim(v@),
{
    let mut from: usize = 0;
    while from < v.len() && is_whitespace(v[from])
        invariant
            from <= v.len(),
            space_end(v@, 0) == space_end(v@, from as int),
        decreases v.len() - from,
    {
        from += 1;
    }
    let mut to: usize = v.len();
    while to > 0 && is_whitespace(v[to - 1])
        invariant
            to <= v.len(),
            text_end(v@, v.len() as int) == text_end(v@, to as int),
        decreases to,
    {
        to -= 1;
    }
    if from < to {
        slice_of(v, from, to)
    } else {
        Vec::new()
    }
}

/// Whether `needle` stands in `s` at the index `at`.
pub open spec fn occurs_at(s: Seq<char>, needle: Seq<char>, at: int) -> bool {
    0 <= at && at + needle.len() <= s.len() && s.subrange(at, at + needle.len()) == needle
}

/// Whether `needle` stands somewhere in `s`.
pub open spec fn contains(s: Seq<char>, needle: Seq<char>) -> bool {
    exists|at: int| occurs_at(s, needle, at)
}

/// Whether `needle` stands in `v` at the index `at`.
pub fn stands_at(v: &Vec<char>, needle: &Vec<char>, at: usize) -> (b: bool)
    ensures
        b == occurs_at(v@, needle@, at as int),
{
    if at > v.len() || needle.len() > v.len() - at {
        return false;
    }
    let mut i: usize = 0;
    while i < needle.len()
        invariant
            i <= needle.len(),
            at + needle.len() <= v.len(),
            forall|k: int| 0 <= k < i ==> v@[at + k] == needle@[k],
        decreases needle.len() - i,
    {
        if v[at + i] != needle[i] {
            assert(v@.subrange(at as int, at + needle.len())[i as int] != needle@[i as int]);
            return false;
        }
        i += 1;
    }
    assert(v@.subrange(at as int, at + needle.len()) =~= needle@);
    true
}

/// Whether `needle` stands somewhere in `v`.
pub fn contains_chars(v: &Vec<char>, needle: &Vec<char>) -> (b: bool)
    ensures
        b == contains(v@, needle@),
{
    let mut at: usize = 0;
    while at < v.len()
        invariant
            at <= v.len(),
            forall|k: int| 0 <= k < at ==> !occurs_at(v@, needle@, k),
        decreases v.len() - at,
    {
        if stands_at(v, needle, at) {
            return true;
        }
        at += 1;
    }
    if stands_at(v, needle, at) {
        return true;
    }
    assert forall|k: int| !occurs_at(v@, needle@, k) by {
        if 0 <= k && k + needle@.len() <= v@.len() {
            assert(k <= at);
        }
    }
    false
}

} // verus!

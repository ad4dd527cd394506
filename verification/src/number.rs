//! Numbers as they are written in the text of a network: decimal
//! floating-point literals.
//!
//! ```text
//! literal  ::= sign? ( "inf" | "infinity" | "nan" | number )
//! number   ::= ( digit+ | digit+ "." digit* | digit* "." digit+ ) exponent?
//! exponent ::= "e" sign? digit+
//! sign     ::= "+" | "-"
//! ```
//!
//! Letters are read without regard to case.

use crate::decimal::is_digit;
use crate::text::{chars_of, is_space, is_word, string_of};
use vstd::prelude::*;

verus! {

/// The first index at or after `from` where `s` holds no digit, or the
/// length of `s` where only digits follow.
pub open spec fn digits_end(s: Seq<char>, from: int) -> int
    decreases s.len() - from,
{
    if from < 0 || from >= s.len() {
        s.len() as int
    } else if is_digit(s[from]) {
        digits_end(s, from + 1)
    } else {
        from
    }
}

/// Whether `c` is the lower-case letter `letter` or its capital.
pub open spec fn same_letter(c: char, letter: char) -> bool {
    c == letter || c as u32 + 32 == letter as u32
}

/// Whether `s[at..]` spells `word`, a word in lower case, in any case.
pub open spec fn spells_at(s: Seq<char>, at: int, word: Seq<char>) -> bool {
    &&& s.len() - at == word.len()
    &&& forall|i: int| 0 <= i < word.len() ==> same_letter(s[at + i], #[trigger] word[i])
}

/// Whether `s[at..]` names an infinity or the value that is no number.
pub open spec fn is_special_at(s: Seq<char>, at: int) -> bool {
    ||| spells_at(s, at, seq!['i', 'n', 'f'])
    ||| spells_at(s, at, seq!['i', 'n', 'f', 'i', 'n', 'i', 't', 'y'])
    ||| spells_at(s, at, seq!['n', 'a', 'n'])
}

/// Whether `s[at..]` is an exponent: `e`, an optional sign, and digits.
pub open spec fn is_exponent_at(s: Seq<char>, at: int) -> bool {
    &&& at + 1 < s.len()
    &&& (s[at] == 'e' || s[at] == 'E')
    &&& {
        let digits = if s[at + 1] == '+' || s[at + 1] == '-' {
            at + 2
        } else {
            at + 1
        };
        digits < s.len() && digits_end(s, digits) == s.len()
    }
}

/// Whether `s[at..]` is a number: digits with at most one point among
/// them, at least one digit in all, and an optional exponent.
pub open spec fn is_number_at(s: Seq<char>, at: int) -> bool {
    let point = digits_end(s, at);
    let has_point = point < s.len() && s[point] == '.';
    let end = if has_point {
        digits_end(s, point + 1)
    } else {
        point
    };
    let digit_count = if has_point {
        end - at - 1
    } else {
        end - at
    };
    &&& digit_count > 0
    &&& (end == s.len() || is_exponent_at(s, end))
}

/// Where the body of `s` starts: after its sign, if it has one.
pub open spec fn body_start(s: Seq<char>) -> int {
    if s.len() > 0 && (s[0] == '+' || s[0] == '-') {
        1
    } else {
        0
    }
}

/// Whether `s` is a floating-point literal.
pub open spec fn is_float_literal(s: Seq<char>) -> bool {
    is_special_at(s, body_start(s)) || is_number_at(s, body_start(s))
}

/// `digits_end` finds the end of a run of digits.
pub proof fn lemma_digits_end(s: Seq<char>, from: int)
    requires
        0 <= from <= s.len(),
    ensures
        from <= digits_end(s, from) <= s.len(),
        digits_end(s, from) < s.len() ==> !is_digit(s[digits_end(s, from)]),
        forall|k: int| from <= k < digits_end(s, from) ==> is_digit(s[k]),
    decreases s.len() - from,
{
    if from < s.len() && is_digit(s[from]) {
        lemma_digits_end(s, from + 1);
    }
}

/// Where the digits from `from` on end at `at`, `digits_end` returns it.
pub proof fn lemma_digits_end_is(s: Seq<char>, from: int, at: int)
    requires
        0 <= from <= at <= s.len(),
        forall|k: int| from <= k < at ==> is_digit(s[k]),
        at < s.len() ==> !is_digit(s[at]),
    ensures
        digits_end(s, from) == at,
    decreases at - from,
{
    if from < at {
        lemma_digits_end_is(s, from + 1, at);
    }
}

/// A literal is a word: it holds a character, and no white space.
pub proof fn lemma_literal_is_word(s: Seq<char>)
    requires
        is_float_literal(s),
    ensures
        is_word(s),
{
    let at = body_start(s);
    if is_special_at(s, at) {
        let inf = seq!['i', 'n', 'f'];
        let infinity = seq!['i', 'n', 'f', 'i', 'n', 'i', 't', 'y'];
        let nan = seq!['n', 'a', 'n'];
        let word = if spells_at(s, at, inf) {
            inf
        } else if spells_at(s, at, infinity) {
            infinity
        } else {
            nan
        };
        assert(spells_at(s, at, word));
        assert forall|i: int| 0 <= i < s.len() implies !is_space(#[trigger] s[i]) by {
            if i >= at {
                assert(same_letter(s[at + (i - at)], word[i - at]));
                assert('a' <= word[i - at] <= 'z');
            }
        }
    } else {
        let point = digits_end(s, at);
        lemma_digits_end(s, at);
        let has_point = point < s.len() && s[point] == '.';
        let end = if has_point {
            digits_end(s, point + 1)
        } else {
            point
        };
        if has_point {
            lemma_digits_end(s, point + 1);
        }
        if end < s.len() {
            let digits = if s[end + 1] == '+' || s[end + 1] == '-' {
                end + 2
            } else {
                end + 1
            };
            lemma_digits_end(s, digits);
        }
        assert forall|i: int| 0 <= i < s.len() implies !is_space(#[trigger] s[i]) by {
            if i < at {
            } else if i < point {
                assert(is_digit(s[i]));
            } else if i < end {
                if i > point {
                    assert(is_digit(s[i]));
                }
            } else if i == end {
            } else if i == end + 1 {
                if !(s[i] == '+' || s[i] == '-') {
                    assert(is_digit(s[i]));
                }
            } else {
                assert(is_digit(s[i]));
            }
        }
    }
}

/// Digits with one point among them, after an optional sign, are a
/// literal.
pub proof fn lemma_plain_decimal(s: Seq<char>, point: int)
    requires
        body_start(s) <= point < s.len(),
        s.len() - body_start(s) >= 2,
        s[point] == '.',
        forall|k: int| body_start(s) <= k < s.len() && k != point ==> is_digit(#[trigger] s[k]),
    ensures
        is_float_literal(s),
{
    let at = body_start(s);
    lemma_digits_end_is(s, at, point);
    lemma_digits_end_is(s, point + 1, s.len() as int);
    assert(is_number_at(s, at));
}

/// The end of the run of digits of `v` that starts at `from`.
fn scan_digits(v: &Vec<char>, from: usize) -> (end: usize)
    requires
        from <= v.len(),
    ensures
        end == digits_end(v@, from as int),
        from <= end <= v.len(),
{
    let mut end: usize = from;
    while end < v.len() && v[end] >= '0' && v[end] <= '9'
        invariant
            from <= end <= v.len(),
            forall|k: int| from <= k < end ==> is_digit(v@[k]),
        decreases v.len() - end,
    {
        end += 1;
    }
    proof {
        lemma_digits_end_is(v@, from as int, end as int);
    }
    end
}

/// Whether `c` is the lower-case letter `letter` or its capital.
fn is_letter(c: char, letter: char) -> (b: bool)
    ensures
        b == same_letter(c, letter),
{
    c == letter || c as u32 + 32 == letter as u32
}

/// Whether `v[at..]` spells `word` in any case.
fn spells_from(v: &Vec<char>, at: usize, word: &Vec<char>) -> (b: bool)
    requires
        at <= v.len(),
    ensures
        b == spells_at(v@, at as int, word@),
{
    if v.len() - at != word.len() {
        return false;
    }
    let mut i: usize = 0;
    while i < word.len()
        invariant
            i <= word.len(),
            at <= v.len(),
            v.len() - at == word.len(),
            forall|k: int| 0 <= k < i ==> same_letter(v@[at + k], #[trigger] word@[k]),
        decreases word.len() - i,
    {
        if !is_letter(v[at + i], word[i]) {
            return false;
        }
        i += 1;
    }
    true
}

/// Whether `v` holds a floating-point literal.
pub fn is_float_text(v: &Vec<char>) -> (b: bool)
    ensures
        b == is_float_literal(v@),
{
    let at: usize = if v.len() > 0 && (v[0] == '+' || v[0] == '-') {
        1
    } else {
        0
    };
    let inf: Vec<char> = vec!['i', 'n', 'f'];
    let infinity: Vec<char> = vec!['i', 'n', 'f', 'i', 'n', 'i', 't', 'y'];
    let nan: Vec<char> = vec!['n', 'a', 'n'];
    proof {
        assert(inf@ =~= seq!['i', 'n', 'f']);
        assert(infinity@ =~= seq!['i', 'n', 'f', 'i', 'n', 'i', 't', 'y']);
        assert(nan@ =~= seq!['n', 'a', 'n']);
    }
    if spells_from(v, at, &inf) || spells_from(v, at, &infinity) || spells_from(v, at, &nan) {
        return true;
    }
    let point = scan_digits(v, at);
    let has_point = point < v.len() && v[point] == '.';
    let end: usize = if has_point {
        scan_digits(v, point + 1)
    } else {
        point
    };
    let digit_count: usize = if has_point {
        end - at - 1
    } else {
        end - at
    };
    if digit_count == 0 {
        return false;
    }
    if end == v.len() {
        return true;
    }
    if end + 1 >= v.len() || !(v[end] == 'e' || v[end] == 'E') {
        return false;
    }
    let digits: usize = if v[end + 1] == '+' || v[end + 1] == '-' {
        end + 2
    } else {
        end + 1
    };
    if digits >= v.len() {
        return false;
    }
    scan_digits(v, digits) == v.len()
}

/// A number as it is written: the characters of a floating-point literal.
#[derive(Debug)]
pub struct Number {
    text: Vec<char>,
}

impl View for Number {
    type V = Seq<char>;

    closed spec fn view(&self) -> Seq<char> {
        self.text@
    }
}

impl Clone for Number {
    fn clone(&self) -> (r: Self)
        ensures
            r@ == self@,
    {
        proof {
            use_type_invariant(self);
        }
        let mut text: Vec<char> = Vec::new();
        let mut i: usize = 0;
        while i < self.text.len()
            invariant
                i <= self.text.len(),
                text@ == self.text@.take(i as int),
            decreases self.text.len() - i,
        {
            text.push(self.text[i]);
            i += 1;
            assert(text@ =~= self.text@.take(i as int));
        }
        assert(text@ =~= self.text@);
        Number { text }
    }
}

impl Number {
    #[verifier::type_invariant]
    spec fn well_formed(self) -> bool {
        is_float_literal(self.text@)
    }

    /// The number that `token` writes, where it is a floating-point literal.
    pub fn parse(token: &str) -> (r: Option<Number>)
        ensures
            r is Some == is_float_literal(token@),
            r is Some ==> r->Some_0@ == token@,
    {
        Number::from_chars(chars_of(token))
    }

    /// The number that the characters `token` write, where they are a
    /// floating-point literal.
    pub fn from_chars(token: Vec<char>) -> (r: Option<Number>)
        ensures
            r is Some == is_float_literal(token@),
            r is Some ==> r->Some_0@ == token@,
    {
        if is_float_text(&token) {
            Some(Number { text: token })
        } else {
            None
        }
    }

    /// The number that the literal `token` writes.
    pub(crate) fn literal(token: &str) -> (r: Number)
        requires
            is_float_literal(token@),
        ensures
            r@ == token@,
    {
        Number { text: chars_of(token) }
    }

    /// The number zero, written `0`.
    pub fn zero() -> (r: Number)
        ensures
            r@ == seq!['0'],
    {
        let text: Vec<char> = vec!['0'];
        proof {
            assert(text@ =~= seq!['0']);
            lemma_digits_end_is(text@, 0, 1);
            assert(is_number_at(text@, 0));
        }
        Number { text }
    }

    /// The literal, which is always well formed.
    pub fn text(&self) -> (s: String)
        ensures
            s@ == self@,
            is_float_literal(self@),
    {
        proof {
            use_type_invariant(self);
        }
        string_of(&self.text)
    }

    /// The characters of the literal.
    pub fn chars(&self) -> (v: &Vec<char>)
        ensures
            v@ == self@,
            is_float_literal(self@),
    {
        proof {
            use_type_invariant(self);
        }
        &self.text
    }
}

} // verus!

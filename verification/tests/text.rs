use my_torch_analyzer::decimal::{decimal_of, read_unsigned};
use my_torch_analyzer::number::Number;
use my_torch_analyzer::text::{
    chars_of, contains_chars, is_whitespace, join_chars, split_chars, split_words, string_of,
    trim_chars,
};

fn chars(s: &str) -> Vec<char> {
    s.chars().collect()
}

fn strings(parts: &Vec<Vec<char>>) -> Vec<String> {
    parts.iter().map(|p| p.iter().collect()).collect()
}

#[test]
fn chars_and_strings_convert_both_ways() {
    assert_eq!(chars_of("héllo\n"), chars("héllo\n"));
    assert_eq!(string_of(&chars("héllo\n")), "héllo\n");
    assert_eq!(string_of(&Vec::new()), "");
}

#[test]
fn whitespace_is_that_of_std() {
    for code in 0..=0x10ffffu32 {
        if let Some(c) = char::from_u32(code) {
            assert_eq!(is_whitespace(c), c.is_whitespace());
        }
    }
}

#[test]
fn words_are_those_of_std() {
    for text in ["", " ", "a", " a  b\tc\n", "sigmoid 0.5 1 2", "\u{a0}x\u{3000}y "] {
        let expected: Vec<String> = text.split_whitespace().map(String::from).collect();
        assert_eq!(strings(&split_words(&chars(text))), expected);
    }
}

#[test]
fn splitting_is_that_of_std() {
    for text in ["", "/", "a/b", "a//b/", "/a", "8/8/8"] {
        let expected: Vec<String> = text.split('/').map(String::from).collect();
        assert_eq!(strings(&split_chars(&chars(text), '/')), expected);
    }
}

#[test]
fn trimming_is_that_of_std() {
    for text in ["", "  ", " a b ", "a", "\t\na\r\n", " x"] {
        assert_eq!(string_of(&trim_chars(&chars(text))), text.trim());
    }
}

#[test]
fn joining_is_that_of_std() {
    let parts = vec![chars("a"), chars(""), chars("bc")];
    let sep = chars(", ");
    assert_eq!(string_of(&join_chars(&parts, 0, 3, &sep)), "a, , bc");
    assert_eq!(string_of(&join_chars(&parts, 1, 3, &sep)), ", bc");
    assert_eq!(string_of(&join_chars(&parts, 2, 2, &sep)), "");
}

#[test]
fn containing_is_that_of_std() {
    for (text, needle) in [
        ("Checkmate White", "Check"),
        ("Checkmate White", "White"),
        ("Check", "Checkmate"),
        ("", ""),
        ("a", ""),
        ("", "a"),
        ("abcabd", "abd"),
    ] {
        assert_eq!(contains_chars(&chars(text), &chars(needle)), text.contains(needle));
    }
}

#[test]
fn decimal_is_that_of_std() {
    for n in [0usize, 1, 9, 10, 11, 99, 100, 1000, 65535, 4294967295, usize::MAX] {
        assert_eq!(string_of(&decimal_of(n)), n.to_string());
    }
}

#[test]
fn unsigned_reading_is_that_of_std() {
    for text in [
        "", "+", "0", "+0", "007", "12", "4294967295", "4294967296", "99999999999999999999", "-1",
        "1a", " 1", "1 ", "++1", "+12", "١",
    ] {
        let expected: Option<u64> = text.parse::<u32>().ok().map(|n| n as u64);
        assert_eq!(read_unsigned(&chars(text), u32::MAX as u64), expected);
    }
    assert_eq!(read_unsigned(&chars("18446744073709551615"), u64::MAX), Some(u64::MAX));
    assert_eq!(read_unsigned(&chars("18446744073709551616"), u64::MAX), None);
    assert_eq!(read_unsigned(&chars("5"), 4), None);
    assert_eq!(read_unsigned(&chars("4"), 4), Some(4));
}

fn literals_agree(text: &str) {
    let ours = Number::parse(text).is_some();
    let theirs = text.parse::<f64>().is_ok();
    assert_eq!(ours, theirs);
}

#[test]
fn literals_are_those_that_parse_as_floats() {
    for text in [
        "0", "1", "-1", "+1", "3.14", "-3.14", "2.5E10", "2.5e-10", "5.", ".5", "0.5", "inf",
        "-inf", "+infinity", "NaN", "nan", "-NAN", "InFiNiTy", "", ".", "+", "-", "e", "e5", "1e",
        "1e+", "1.e5", ".e5", "1..2", "1.2.3", "--1", "1 ", " 1", "1e5.5", "infinit", "infinityy",
        "na", "0x10", "1_000", "1e-0", "00.00", "1E+05", "+.5e-3", "1f", "١",
    ] {
        literals_agree(text);
    }
}

#[test]
fn literals_over_a_small_alphabet() {
    let alphabet = ['0', '7', '.', 'e', 'E', '+', '-', 'i', 'n', 'f', 'a', 'N', ' '];
    let mut texts: Vec<String> = vec![String::new()];
    let mut start = 0;
    for _ in 0..4 {
        let end = texts.len();
        for index in start..end {
            for c in alphabet {
                let mut longer = texts[index].clone();
                longer.push(c);
                texts.push(longer);
            }
        }
        start = end;
    }
    assert_eq!(texts.len(), 1 + 13 + 169 + 2197 + 28561);
    for text in &texts {
        literals_agree(text);
    }
}

#[test]
fn a_number_keeps_its_literal() {
    let number = Number::parse("-1.5e3").unwrap();
    assert_eq!(number.text(), "-1.5e3");
    assert_eq!(number.clone().text(), "-1.5e3");
    assert_eq!(Number::zero().text(), "0");
    assert_eq!(number.text().parse::<f64>().unwrap(), -1500.0);
}

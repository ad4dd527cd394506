//! The classes of a position, as labels and as network targets.

use crate::decimal::{decimal, decimal_of};
use crate::text::{chars_of, contains, contains_chars, extend_chars, string_of};
use vstd::prelude::*;

verus! {

/// The class that `label` names: 0 where it holds `Nothing`, else 3 or 4
/// where it holds a checkmate by white or by black, else 1 or 2 where it
/// holds a check by white or by black.
pub open spec fn label_class(label: Seq<char>) -> Option<nat> {
    if contains(label, "Nothing"@) {
        Some(0)
    } else if contains(label, "Checkmate White"@) {
        Some(3)
    } else if contains(label, "Checkmate Black"@) {
        Some(4)
    } else if contains(label, "Check White"@) {
        Some(1)
    } else if contains(label, "Check Black"@) {
        Some(2)
    } else {
        None
    }
}

/// As many targets as there are classes, of which the one of `class` is 1
/// and the others are 0.
pub open spec fn one_hot(classes: nat, class: nat) -> Seq<u8> {
    Seq::new(
        classes,
        |i: int|
            if i == class {
                1u8
            } else {
                0u8
            },
    )
}

/// The text that reports `label` as the name of no class.
pub open spec fn unknown_label(label: Seq<char>) -> Seq<char> {
    "Unknown label: "@ + label
}

/// The label of the class `class` of a network of `width` outputs.
pub open spec fn class_label(width: nat, class: nat) -> Seq<char> {
    if width == 1 {
        if class == 1 {
            "Check"@
        } else {
            "Nothing"@
        }
    } else if width == 2 {
        if class == 0 {
            "Nothing"@
        } else {
            "Check"@
        }
    } else if width == 3 {
        if class == 0 {
            "Nothing"@
        } else if class == 1 {
            "Check"@
        } else if class == 2 {
            "Checkmate"@
        } else {
            "Unknown"@
        }
    } else if width == 5 {
        if class == 0 {
            "Nothing"@
        } else if class == 1 {
            "Check White"@
        } else if class == 2 {
            "Check Black"@
        } else if class == 3 {
            "Checkmate White"@
        } else if class == 4 {
            "Checkmate Black"@
        } else {
            "Unknown"@
        }
    } else {
        "Class "@ + decimal(class)
    }
}

/// Whether the characters `label` hold the text `needle`.
fn holds(label: &Vec<char>, needle: &str) -> (b: bool)
    ensures
        b == contains(label@, needle@),
{
    let needle_chars = chars_of(needle);
    contains_chars(label, &needle_chars)
}

/// The five targets that stand for the class that `label` names.
pub fn label_to_targets(label: &str) -> (r: Result<Vec<u8>, String>)
    ensures
        match label_class(label@) {
            Some(class) => r is Ok && r->Ok_0@ == one_hot(5, class),
            None => r is Err && r->Err_0@ == unknown_label(label@),
        },
{
    let chars = chars_of(label);
    let class: usize = if holds(&chars, "Nothing") {
        0
    } else if holds(&chars, "Checkmate White") {
        3
    } else if holds(&chars, "Checkmate Black") {
        4
    } else if holds(&chars, "Check White") {
        1
    } else if holds(&chars, "Check Black") {
        2
    } else {
        let mut message = chars_of("Unknown label: ");
        extend_chars(&mut message, &chars);
        return Err(string_of(&message));
    };
    let mut targets: Vec<u8> = Vec::new();
    let mut i: usize = 0;
    while i < 5
        invariant
            i <= 5,
            class < 5,
            targets.len() == i,
            forall|k: int|
                0 <= k < i ==> targets@[k] == if k == class {
                    1u8
                } else {
                    0u8
                },
        decreases 5 - i,
    {
        targets.push(
            if i == class {
                1u8
            } else {
                0u8
            },
        );
        i += 1;
    }
    assert(targets@ =~= one_hot(5, class as nat));
    Ok(targets)
}

/// The label of the class `class` of a network of `width` outputs.
pub fn outputs_to_label(width: usize, class: usize) -> (label: String)
    ensures
        label@ == class_label(width as nat, class as nat),
{
    if width == 1 {
        if class == 1 {
            String::from_str("Check")
        } else {
            String::from_str("Nothing")
        }
    } else if width == 2 {
        if class == 0 {
            String::from_str("Nothing")
        } else {
            String::from_str("Check")
        }
    } else if width == 3 {
        if class == 0 {
            String::from_str("Nothing")
        } else if class == 1 {
            String::from_str("Check")
        } else if class == 2 {
            String::from_str("Checkmate")
        } else {
            String::from_str("Unknown")
        }
    } else if width == 5 {
        if class == 0 {
            String::from_str("Nothing")
        } else if class == 1 {
            String::from_str("Check White")
        } else if class == 2 {
            String::from_str("Check Black")
        } else if class == 3 {
            String::from_str("Checkmate White")
        } else if class == 4 {
            String::from_str("Checkmate Black")
        } else {
            String::from_str("Unknown")
        }
    } else {
        let mut label = chars_of("Class ");
        let digits = decimal_of(class);
        extend_chars(&mut label, &digits);
        string_of(&label)
    }
}

} // verus!

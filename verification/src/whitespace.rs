//! The characters that separate words.

use vstd::prelude::*;

verus! {

/// The characters that carry the Unicode property `White_Space`.
pub open spec fn spec_is_whitespace(c: char) -> bool {
    let v = c as u32;
    // tab, line feed, vertical tab, form feed, carriage return
    ||| 0x0009 <= v <= 0x000D
    // space
    ||| v == 0x0020
    // next line
    ||| v == 0x0085
    // no-break space
    ||| v == 0x00A0
    // ogham space mark
    ||| v == 0x1680
    // the spaces of fixed width, en quad to hair space
    ||| 0x2000 <= v <= 0x200A
    // line separator, paragraph separator
    ||| v == 0x2028
    ||| v == 0x2029
    // narrow no-break space
    ||| v == 0x202F
    // medium mathematical space
    ||| v == 0x205F
    // ideographic space
    ||| v == 0x3000
}

/// Tells whether `c` separates words.
#[verifier::when_used_as_spec(spec_is_whitespace)]
pub fn is_whitespace(c: char) -> (b: bool)
    ensures
        b == spec_is_whitespace(c),
{
    let v: u32 = c as u32;
    (0x0009 <= v && v <= 0x000D) || v == 0x0020 || v == 0x0085 || v == 0x00A0 || v == 0x1680 || (
    0x2000 <= v && v <= 0x200A) || v == 0x2028 || v == 0x2029 || v == 0x202F || v == 0x205F || v
        == 0x3000
}

} // verus!

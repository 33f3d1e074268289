//! Hexadecimal digits, as lengths and object ids are written in.

use vstd::prelude::*;

verus! {

/// The lower-case hexadecimal digit for `v`, a number below sixteen.
pub open spec fn hex_digit(v: int) -> u8 {
    if v < 10 {
        (0x30 + v) as u8
    } else {
        (0x61 + v - 10) as u8
    }
}

/// The number that the hexadecimal digit `b` stands for, in either case.
pub open spec fn hex_value(b: u8) -> Option<int> {
    if 0x30 <= b <= 0x39 {
        Some(b - 0x30)
    } else if 0x61 <= b <= 0x66 {
        Some(b - 0x61 + 10)
    } else if 0x41 <= b <= 0x46 {
        Some(b - 0x41 + 10)
    } else {
        None
    }
}

/// The lower-case hexadecimal digit for `v`.
pub(crate) fn digit_of(v: usize) -> (d: u8)
    requires
        v < 16,
    ensures
        d == hex_digit(v as int),
{
    if v < 10 {
        0x30 + v as u8
    } else {
        0x61 + (v as u8 - 10)
    }
}

/// The number that the hexadecimal digit `b` stands for.
pub fn value_of(b: u8) -> (v: Option<usize>)
    ensures
        match v {
            Some(n) => hex_value(b) == Some(n as int) && n < 16,
            None => hex_value(b) is None,
        },
{
    if 0x30 <= b && b <= 0x39 {
        Some((b - 0x30) as usize)
    } else if 0x61 <= b && b <= 0x66 {
        Some((b - 0x61 + 10) as usize)
    } else if 0x41 <= b && b <= 0x46 {
        Some((b - 0x41 + 10) as usize)
    } else {
        None
    }
}

/// A written digit stands for the number it was written for.
pub proof fn lemma_hex_digit_value(v: int)
    requires
        0 <= v < 16,
    ensures
        hex_value(hex_digit(v)) == Some(v),
{
}

} // verus!

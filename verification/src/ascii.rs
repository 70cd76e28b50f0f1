//! The ASCII bytes that the wire format gives a meaning to.

use vstd::prelude::*;

verus! {

/// Carriage return, the first byte of a line terminator.
pub const CR: u8 = 13;

/// Line feed, the second byte of a line terminator.
pub const LF: u8 = 10;

/// `+`: a positive sign, and the marker of a simple string.
pub const PLUS: u8 = 43;

/// `-`: a negative sign, and the marker of a simple error.
pub const MINUS: u8 = 45;

/// `:`: the marker of an integer.
pub const COLON: u8 = 58;

/// `$`: the marker of a bulk string.
pub const DOLLAR: u8 = 36;

/// `*`: the marker of an array.
pub const STAR: u8 = 42;

/// `_`: the marker of the null frame.
pub const UNDERSCORE: u8 = 95;

/// `#`: the marker of a boolean.
pub const HASH: u8 = 35;

/// `,`: the marker of a double.
pub const COMMA: u8 = 44;

/// `%`: the marker of a map.
pub const PERCENT: u8 = 37;

/// `~`: the marker of a set.
pub const TILDE: u8 = 126;

/// `.`: the decimal point of a double.
pub const DOT: u8 = 46;

/// The digit `0`.
pub const ZERO: u8 = 48;

/// The digit `1`.
pub const ONE: u8 = 49;

/// The digit `9`.
pub const NINE: u8 = 57;

/// `t`: the body of the boolean `true`.
pub const LOWER_T: u8 = 116;

/// `f`: the body of the boolean `false`.
pub const LOWER_F: u8 = 102;

/// `e`, which opens the exponent of a double.
pub const LOWER_E: u8 = 101;

/// `A`, the first upper-case letter.
pub const UPPER_A: u8 = 65;

/// `Z`, the last upper-case letter.
pub const UPPER_Z: u8 = 90;

} // verus!

//! The ASCII bytes that the lexical grammar speaks of.

use vstd::prelude::*;

verus! {

pub const TAB: u8 = 0x09;
pub const NEWLINE: u8 = 0x0A;
pub const RETURN: u8 = 0x0D;
pub const SPACE: u8 = 0x20;
pub const DOUBLE_QUOTE: u8 = 0x22;
pub const HASH: u8 = 0x23;
pub const APOSTROPHE: u8 = 0x27;
pub const OPEN_PAREN: u8 = 0x28;
pub const CLOSE_PAREN: u8 = 0x29;
pub const PLUS: u8 = 0x2B;
pub const COMMA: u8 = 0x2C;
pub const MINUS: u8 = 0x2D;
pub const POINT: u8 = 0x2E;
pub const DIGIT_0: u8 = 0x30;
pub const DIGIT_9: u8 = 0x39;
pub const SEMICOLON: u8 = 0x3B;
pub const AT_SIGN: u8 = 0x40;
pub const UPPER_A: u8 = 0x41;
pub const UPPER_E: u8 = 0x45;
pub const UPPER_F: u8 = 0x46;
pub const UPPER_Z: u8 = 0x5A;
pub const BACKSLASH: u8 = 0x5C;
pub const BACKQUOTE: u8 = 0x60;
pub const LOWER_A: u8 = 0x61;
pub const LOWER_B: u8 = 0x62;
pub const LOWER_E: u8 = 0x65;
pub const LOWER_F: u8 = 0x66;
pub const LOWER_N: u8 = 0x6E;
pub const LOWER_R: u8 = 0x72;
pub const LOWER_T: u8 = 0x74;
pub const LOWER_V: u8 = 0x76;
pub const LOWER_X: u8 = 0x78;
pub const LOWER_Z: u8 = 0x7A;
pub const BAR: u8 = 0x7C;

} // verus!

//! The bytes that the lexer tells apart, by name.
use vstd::prelude::*;

verus! {

pub const TAB: u8 = 0x09;

pub const LINE_FEED: u8 = 0x0A;

pub const CARRIAGE_RETURN: u8 = 0x0D;

pub const SPACE: u8 = 0x20;

pub const QUOTE: u8 = 0x22;

pub const APOSTROPHE: u8 = 0x27;

pub const OPEN_PAREN: u8 = 0x28;

pub const CLOSE_PAREN: u8 = 0x29;

pub const STAR: u8 = 0x2A;

pub const PLUS: u8 = 0x2B;

pub const DOT: u8 = 0x2E;

pub const SLASH: u8 = 0x2F;

pub const DIGIT_0: u8 = 0x30;

pub const DIGIT_1: u8 = 0x31;

pub const DIGIT_7: u8 = 0x37;

pub const DIGIT_9: u8 = 0x39;

pub const SEMICOLON: u8 = 0x3B;

pub const EQUALS: u8 = 0x3D;

pub const GREATER: u8 = 0x3E;

pub const UPPER_A: u8 = 0x41;

pub const UPPER_F: u8 = 0x46;

pub const UPPER_Z: u8 = 0x5A;

pub const BACKSLASH: u8 = 0x5C;

pub const UNDERSCORE: u8 = 0x5F;

pub const LOWER_A: u8 = 0x61;

pub const LOWER_B: u8 = 0x62;

pub const LOWER_C: u8 = 0x63;

pub const LOWER_D: u8 = 0x64;

pub const LOWER_E: u8 = 0x65;

pub const LOWER_F: u8 = 0x66;

pub const LOWER_N: u8 = 0x6E;

pub const LOWER_O: u8 = 0x6F;

pub const LOWER_R: u8 = 0x72;

pub const LOWER_S: u8 = 0x73;

pub const LOWER_T: u8 = 0x74;

pub const LOWER_U: u8 = 0x75;

pub const LOWER_V: u8 = 0x76;

pub const LOWER_X: u8 = 0x78;

pub const LOWER_Z: u8 = 0x7A;

pub const OPEN_BRACE: u8 = 0x7B;

pub const CLOSE_BRACE: u8 = 0x7D;

/// The first of the bytes that continue a character of several bytes.
pub const CONTINUATION_FIRST: u8 = 0x80;

/// The last of the bytes that continue a character of several bytes.
pub const CONTINUATION_LAST: u8 = 0xBF;

} // verus!

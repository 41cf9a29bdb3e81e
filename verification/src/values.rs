//! Scalar configuration values: colors and suffixed integers, as plain
//! data. Parsing them out of configuration text is a collaborator's
//! job; these are the shapes it produces.

use vstd::prelude::*;

verus! {

/// A named terminal color.
#[derive(Debug, Copy, Clone, Eq, PartialEq, Structural)]
pub enum Name {
    Black,
    Red,
    Green,
    Yellow,
    Blue,
    Magenta,
    Cyan,
    White,
}

/// A text attribute a color value may carry.
#[derive(Debug, Copy, Clone, Eq, PartialEq, Structural)]
pub enum Attribute {
    Bold,
    Dim,
    Ul,
    Blink,
    Reverse,
    Italic,
    Strike,
}

/// Any value that may hold a foreground color, a background color, and
/// a collection of text modifiers; all three parts are optional.
#[derive(Debug, Clone)]
pub struct Color {
    /// A provided foreground color.
    pub foreground: Option<Name>,
    /// A provided background color.
    pub background: Option<Name>,
    /// A potentially empty list of text attributes.
    pub attributes: Vec<Attribute>,
}

/// How truth was spelled in the configuration text.
#[derive(Debug, Clone)]
pub enum TrueVariant {
    /// An explicit word meaning true, kept as written.
    Explicit(Vec<u8>),
    /// The key stood alone, which also means true.
    Implicit,
}

/// Any value that can be interpreted as a boolean, keeping the spelling
/// it had.
#[derive(Debug, Clone)]
pub enum Boolean {
    /// A true value: an explicit word or a bare key.
    True(TrueVariant),
    /// A false value, kept as written.
    False(Vec<u8>),
}

/// Any value that can be interpreted as a file path: a byte string,
/// un-interpolated.
#[derive(Debug, Clone)]
pub struct Path {
    /// The path bytes as the configuration held them.
    pub value: Vec<u8>,
}

/// The binary-magnitude suffix an integer value may carry.
#[derive(Debug, Copy, Clone, Eq, PartialEq, Structural)]
pub enum Suffix {
    /// `k`: a factor of two to the tenth.
    Kibi,
    /// `m`: a factor of two to the twentieth.
    Mebi,
    /// `g`: a factor of two to the thirtieth.
    Gibi,
}

impl Suffix {
    /// How many doublings the suffix stands for.
    pub fn bitwise_offset(&self) -> (r: u32)
        ensures
            r == match *self {
                Suffix::Kibi => 10u32,
                Suffix::Mebi => 20u32,
                Suffix::Gibi => 30u32,
            },
    {
        match self {
            Suffix::Kibi => 10,
            Suffix::Mebi => 20,
            Suffix::Gibi => 30,
        }
    }
}

/// Any value that can be interpreted as an integer: the numeric part,
/// and the suffix still to be applied to it.
#[derive(Debug, Copy, Clone, Eq, PartialEq, Structural)]
pub struct Integer {
    /// The value, without any suffix applied.
    pub value: i64,
    /// A provided suffix, if any.
    pub suffix: Option<Suffix>,
}

} // verus!

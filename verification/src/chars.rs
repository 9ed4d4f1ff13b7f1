//! The character model: code points, their classes and their case.
use vstd::prelude::*;

verus! {

/// The class of a character, by which boundaries in a haystack are found.
#[derive(Clone, Copy, Debug, PartialEq, Eq, Structural)]
pub enum CharClass {
    Whitespace,
    Separator,
    Lower,
    Upper,
    Letter,
    Number,
}

/// Uppercase letters of the basic Latin, Latin-1, Greek and Cyrillic blocks.
pub open spec fn is_upper(c: u32) -> bool {
    ||| 0x41 <= c <= 0x5A
    ||| (0xC0 <= c <= 0xDE && c != 0xD7)
    ||| (0x391 <= c <= 0x3A9 && c != 0x3A2)
    ||| 0x410 <= c <= 0x42F
}

/// Lowercase letters of the same blocks.
pub open spec fn is_lower(c: u32) -> bool {
    ||| 0x61 <= c <= 0x7A
    ||| (0xDF <= c <= 0xFF && c != 0xF7)
    ||| 0x3B1 <= c <= 0x3C9
    ||| 0x430 <= c <= 0x44F
}

/// The lowercase form of an uppercase letter; any other code point unchanged.
pub open spec fn to_lower(c: u32) -> u32 {
    if is_upper(c) {
        (c + 32) as u32
    } else {
        c
    }
}

pub open spec fn is_whitespace(c: u32) -> bool {
    ||| c == 0x20
    ||| 0x09 <= c <= 0x0D
    ||| c == 0xA0
    ||| c == 0x3000
}

pub open spec fn is_digit(c: u32) -> bool {
    0x30 <= c <= 0x39
}

/// The class of a code point. Below U+00C0 whatever is no letter, digit or
/// whitespace separates words; so do the two operators among the Latin-1 letters.
pub open spec fn class_of(c: u32) -> CharClass {
    if is_whitespace(c) {
        CharClass::Whitespace
    } else if is_digit(c) {
        CharClass::Number
    } else if is_upper(c) {
        CharClass::Upper
    } else if is_lower(c) {
        CharClass::Lower
    } else if c < 0xC0 || c == 0xD7 || c == 0xF7 {
        CharClass::Separator
    } else {
        CharClass::Letter
    }
}

/// A word character is one that a boundary bonus can be earned on.
pub open spec fn is_word(class: CharClass) -> bool {
    class != CharClass::Whitespace && class != CharClass::Separator
}

/// Folding never carries a character across the end of the seven-bit range.
pub proof fn lemma_to_lower_keeps_width(c: u32)
    ensures
        c < 128 <==> to_lower(c) < 128,
{
}

/// A text unit of either width: a packed byte or a full code point.
pub trait Char: Copy {
    /// The code point that the unit stands for.
    spec fn code(self) -> u32;

    fn codepoint(self) -> (c: u32)
        ensures
            c == self.code(),
    ;
}

impl Char for u8 {
    open spec fn code(self) -> u32 {
        self as u32
    }

    fn codepoint(self) -> (c: u32) {
        self as u32
    }
}

impl Char for char {
    open spec fn code(self) -> u32 {
        self as u32
    }

    fn codepoint(self) -> (c: u32) {
        self as u32
    }
}

/// The code points of a text.
pub open spec fn codes<C: Char>(text: Seq<C>) -> Seq<u32> {
    Seq::new(text.len(), |i: int| text[i].code())
}

pub fn upper(c: u32) -> (r: bool)
    ensures
        r == is_upper(c),
{
    (0x41 <= c && c <= 0x5A) || (0xC0 <= c && c <= 0xDE && c != 0xD7) || (0x391 <= c && c <= 0x3A9
        && c != 0x3A2) || (0x410 <= c && c <= 0x42F)
}

pub fn lower(c: u32) -> (r: bool)
    ensures
        r == is_lower(c),
{
    (0x61 <= c && c <= 0x7A) || (0xDF <= c && c <= 0xFF && c != 0xF7) || (0x3B1 <= c && c <= 0x3C9)
        || (0x430 <= c && c <= 0x44F)
}

pub fn fold(c: u32) -> (r: u32)
    ensures
        r == to_lower(c),
{
    if upper(c) {
        c + 32
    } else {
        c
    }
}

pub fn classify(c: u32) -> (class: CharClass)
    ensures
        class == class_of(c),
{
    if c == 0x20 || (0x09 <= c && c <= 0x0D) || c == 0xA0 || c == 0x3000 {
        CharClass::Whitespace
    } else if 0x30 <= c && c <= 0x39 {
        CharClass::Number
    } else if upper(c) {
        CharClass::Upper
    } else if lower(c) {
        CharClass::Lower
    } else if c < 0xC0 || c == 0xD7 || c == 0xF7 {
        CharClass::Separator
    } else {
        CharClass::Letter
    }
}

} // verus!

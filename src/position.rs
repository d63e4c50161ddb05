use vstd::prelude::*;
use ropey::Rope;

verus! {

#[verifier::external_type_specification]
#[verifier::external_body]
pub struct ExRope(ropey::Rope);

/// The characters a rope holds.
pub uninterp spec fn rope_chars(r: Rope) -> Seq<char>;

/// Line index of a byte offset, as `Rope::try_byte_to_line` computes it
/// (it knows the line breaks of Unicode, CRLF among them).
pub uninterp spec fn rope_byte_line(text: Seq<char>, byte: nat) -> Option<nat>;

/// Char index of the start of a line, as `Rope::try_line_to_char` computes it.
pub uninterp spec fn rope_line_char(text: Seq<char>, line: nat) -> Option<nat>;

/// Char index of the char holding a byte offset, as `Rope::try_byte_to_char`
/// computes it.
pub uninterp spec fn rope_byte_char(text: Seq<char>, byte: nat) -> Option<nat>;

/// Number of bytes that a char takes in UTF-8.
pub open spec fn utf8_width(c: char) -> nat {
    if (c as u32) < 0x80 {
        1
    } else if (c as u32) < 0x800 {
        2
    } else if (c as u32) < 0x10000 {
        3
    } else {
        4
    }
}

/// Number of bytes that a text takes in UTF-8.
pub open spec fn utf8_len(s: Seq<char>) -> nat
    decreases s.len(),
{
    if s.len() == 0 {
        0
    } else {
        utf8_len(s.drop_last()) + utf8_width(s.last())
    }
}

/// Byte offset of a char index, as `Rope::try_char_to_byte` computes it.
pub uninterp spec fn rope_char_byte(text: Seq<char>, c: nat) -> Option<nat>;

/// An optional machine offset as an optional natural number.
pub open spec fn opt_nat(r: Option<usize>) -> Option<nat> {
    match r {
        Some(v) => Some(v as nat),
        None => None,
    }
}

/// Relies on ropey::Rope's `Clone`: the clone shares the original's text.
pub assume_specification[ <ropey::Rope as Clone>::clone ](r: &Rope) -> (c: Rope)
    ensures
        rope_chars(c) == rope_chars(*r),
;

/// Relies on ropey::Rope::from_str: the rope holds the characters of `s`.
#[verifier::external_body]
pub(crate) fn rope_from_str(s: &str) -> (r: Rope)
    ensures
        rope_chars(r) == s@,
{
    Rope::from_str(s)
}

/// Relies on ropey::Rope::try_byte_to_line: fails exactly past the last byte.
#[verifier::external_body]
fn byte_to_line(rope: &Rope, byte: usize) -> (r: Option<usize>)
    ensures
        opt_nat(r) == rope_byte_line(rope_chars(*rope), byte as nat),
        r is Some <==> byte <= utf8_len(rope_chars(*rope)),
{
    rope.try_byte_to_line(byte).ok()
}

/// Relies on ropey::Rope::try_line_to_char.
#[verifier::external_body]
fn line_to_char(rope: &Rope, line: usize) -> (r: Option<usize>)
    ensures
        opt_nat(r) == rope_line_char(rope_chars(*rope), line as nat),
{
    rope.try_line_to_char(line).ok()
}

/// Relies on ropey::Rope::try_byte_to_char: fails exactly past the last byte.
#[verifier::external_body]
fn byte_to_char(rope: &Rope, byte: usize) -> (r: Option<usize>)
    ensures
        opt_nat(r) == rope_byte_char(rope_chars(*rope), byte as nat),
        r is Some <==> byte <= utf8_len(rope_chars(*rope)),
{
    rope.try_byte_to_char(byte).ok()
}

/// Relies on ropey::Rope::try_char_to_byte: fails exactly past the last char.
#[verifier::external_body]
fn char_to_byte(rope: &Rope, c: usize) -> (r: Option<usize>)
    ensures
        opt_nat(r) == rope_char_byte(rope_chars(*rope), c as nat),
        r is Some <==> c <= rope_chars(*rope).len(),
{
    rope.try_char_to_byte(c).ok()
}

/// Byte offset of the char `col` chars after the start of `line`, or `None`
/// when there is no such line or char.
pub open spec fn offset_spec(text: Seq<char>, line: nat, col: nat) -> Option<nat> {
    match rope_line_char(text, line) {
        Some(first) => if first + col <= usize::MAX {
            rope_char_byte(text, first + col)
        } else {
            None
        },
        None => None,
    }
}

/// Maps a line and a char column of the rope's text to a byte offset.
pub fn byte_offset(rope: &Rope, line: usize, col: usize) -> (r: Option<usize>)
    ensures
        opt_nat(r) == offset_spec(rope_chars(*rope), line as nat, col as nat),
{
    let first = match line_to_char(rope, line) {
        Some(f) => f,
        None => return None,
    };
    if col <= usize::MAX - first {
        char_to_byte(rope, first + col)
    } else {
        None
    }
}

/// Zero-based line and char column of a byte offset, or `None` when the
/// offset lies past the text or the position does not fit the wire's `u32`.
/// The column counts chars from the start of the line.
pub open spec fn position_spec(text: Seq<char>, byte: nat) -> Option<(u32, u32)> {
    match (rope_byte_line(text, byte), rope_byte_char(text, byte)) {
        (Some(line), Some(c)) => match rope_line_char(text, line) {
            Some(first) => if first <= c && line <= u32::MAX && c - first <= u32::MAX {
                Some((line as u32, (c - first) as u32))
            } else {
                None
            },
            None => None,
        },
        _ => None,
    }
}

/// Maps a byte offset of the rope's text to its line and column.
pub fn byte_position(rope: &Rope, byte: usize) -> (r: Option<(u32, u32)>)
    ensures
        r == position_spec(rope_chars(*rope), byte as nat),
        byte > utf8_len(rope_chars(*rope)) ==> r is None,
{
    let line = match byte_to_line(rope, byte) {
        Some(l) => l,
        None => return None,
    };
    let c = match byte_to_char(rope, byte) {
        Some(c) => c,
        None => return None,
    };
    let first = match line_to_char(rope, line) {
        Some(f) => f,
        None => return None,
    };
    if first <= c && line <= u32::MAX as usize && c - first <= u32::MAX as usize {
        Some((line as u32, (c - first) as u32))
    } else {
        None
    }
}

} // verus!

//! The boundary to the rope: what this library takes on trust about
//! `ropey::Rope`, stated over the text model.

use crate::text::{
    byte_len, char_of_byte, cut, line_count, line_len_bytes, line_of_byte, line_start_byte,
    splice,
};
use ropey::Rope;
use vstd::prelude::*;

verus! {

#[verifier::external_type_specification]
#[verifier::external_body]
pub struct ExRope(ropey::Rope);

/// The characters that a rope holds, in order.
pub uninterp spec fn rope_text(rope: Rope) -> Seq<char>;

/// `Rope::new`: a rope that holds no character.
#[verifier::external_body]
pub(crate) fn rope_new() -> (rope: Rope)
    ensures
        rope_text(rope) == Seq::<char>::empty(),
{
    Rope::new()
}

/// `Rope::clone`: a rope that holds the same characters.
#[verifier::external_body]
pub(crate) fn rope_clone(rope: &Rope) -> (copy: Rope)
    ensures
        rope_text(copy) == rope_text(*rope),
{
    rope.clone()
}

/// `Rope::len_chars`: the number of characters held.
#[verifier::external_body]
pub(crate) fn rope_len_chars(rope: &Rope) -> (n: usize)
    ensures
        n == rope_text(*rope).len(),
{
    rope.len_chars()
}

/// `Rope::len_bytes`: the number of bytes that the text takes in UTF-8.
#[verifier::external_body]
pub(crate) fn rope_len_bytes(rope: &Rope) -> (n: usize)
    ensures
        n == byte_len(rope_text(*rope)),
{
    rope.len_bytes()
}

/// `Rope::len_lines`: one more than the number of line breaks.
#[verifier::external_body]
pub(crate) fn rope_len_lines(rope: &Rope) -> (n: usize)
    ensures
        n == line_count(rope_text(*rope)),
{
    rope.len_lines()
}

/// `Rope::line_to_byte`: the byte index at which a line starts; the byte
/// length of the text for the line one past the last. It panics on a line
/// index beyond that one.
#[verifier::external_body]
pub(crate) fn rope_line_to_byte(rope: &Rope, line: usize) -> (b: usize)
    requires
        line <= line_count(rope_text(*rope)),
    ensures
        b == line_start_byte(rope_text(*rope), line as nat),
{
    rope.line_to_byte(line)
}

/// `Rope::byte_to_line`: the index of the line that a byte lies on, which is
/// the number of line breaks that end at or before the character holding the
/// byte. It panics on a byte index beyond the byte length of the text.
#[verifier::external_body]
pub(crate) fn rope_byte_to_line(rope: &Rope, byte: usize) -> (line: usize)
    requires
        byte <= byte_len(rope_text(*rope)),
    ensures
        line == line_of_byte(rope_text(*rope), byte as nat),
{
    rope.byte_to_line(byte)
}

/// `Rope::byte_to_char`: the index of the character that a byte belongs to;
/// the number of characters for the byte one past the end. It panics on a
/// byte index beyond that one.
#[verifier::external_body]
pub(crate) fn rope_byte_to_char(rope: &Rope, byte: usize) -> (idx: usize)
    requires
        byte <= byte_len(rope_text(*rope)),
    ensures
        idx == char_of_byte(rope_text(*rope), byte as nat),
{
    rope.byte_to_char(byte)
}

/// `Rope::line` followed by `RopeSlice::len_bytes`: the length in bytes of a
/// line, its line break included. `Rope::line` panics on an index that is
/// not below the number of lines.
#[verifier::external_body]
pub(crate) fn rope_line_len_bytes(rope: &Rope, line: usize) -> (n: usize)
    requires
        line < line_count(rope_text(*rope)),
    ensures
        n == line_len_bytes(rope_text(*rope), line as nat),
{
    rope.line(line).len_bytes()
}

/// `Rope::char`: the character at a character index. It panics on an index
/// that is not below the number of characters.
#[verifier::external_body]
pub(crate) fn rope_char(rope: &Rope, idx: usize) -> (c: char)
    requires
        idx < rope_text(*rope).len(),
    ensures
        c == rope_text(*rope)[idx as int],
{
    rope.char(idx)
}

/// `Rope::insert`: puts `s` in at character index `at`. It panics where `at`
/// is beyond the number of characters.
#[verifier::external_body]
pub(crate) fn rope_insert(rope: &mut Rope, at: usize, s: &str)
    requires
        at <= rope_text(*old(rope)).len(),
    ensures
        rope_text(*final(rope)) == splice(rope_text(*old(rope)), at as int, s@),
{
    rope.insert(at, s)
}

/// `Rope::remove` on the range `from..to` of character indices: takes those
/// characters out. It panics where `from` is beyond `to`, or `to` beyond the
/// number of characters.
#[verifier::external_body]
pub(crate) fn rope_remove(rope: &mut Rope, from: usize, to: usize)
    requires
        from <= to <= rope_text(*old(rope)).len(),
    ensures
        rope_text(*final(rope)) == cut(rope_text(*old(rope)), from as int, to as int),
{
    rope.remove(from..to)
}

} // verus!

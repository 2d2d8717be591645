//! The mathematical model of a text: a sequence of characters, its length in
//! UTF-8 bytes, and its division into lines.
//!
//! A line break is one of LF, VT, FF, CR, NEL, LS and PS; a CR directly
//! followed by an LF forms a single break with it. A break belongs to the line
//! that it ends, and a new line starts right behind every break, so a text
//! that ends in a break has an empty last line.

use vstd::prelude::*;

verus! {

/// The number of bytes that `c` takes in UTF-8.
pub open spec fn utf8_width(c: char) -> nat {
    if (c as u32) < 0x80 {
        1
    } else if (c as u32) < 0x800 {
        2
    } else if (c as u32) < 0x10000 {
        3
    } else {
        4
    }
}

/// The number of bytes that `t` takes in UTF-8.
pub open spec fn byte_len(t: Seq<char>) -> nat
    decreases t.len(),
{
    if t.len() == 0 {
        0
    } else {
        byte_len(t.drop_last()) + utf8_width(t.last())
    }
}

/// Whether `c` alone can end a line.
pub open spec fn is_break_char(c: char) -> bool {
    c == '\u{0A}' || c == '\u{0B}' || c == '\u{0C}' || c == '\u{0D}' || c == '\u{85}' || c
        == '\u{2028}' || c == '\u{2029}'
}

/// Whether a line break ends right before character index `i` of `t`: the
/// character before `i` is a break character, and `i` does not fall between
/// the CR and the LF of one pair.
pub open spec fn break_ends_at(t: Seq<char>, i: int) -> bool {
    &&& 0 < i <= t.len()
    &&& is_break_char(t[i - 1])
    &&& !(t[i - 1] == '\u{0D}' && i < t.len() && t[i] == '\u{0A}')
}

/// The number of line breaks of `t` that end at or before character index `i`.
pub open spec fn breaks_before(t: Seq<char>, i: int) -> nat
    decreases i,
{
    if i <= 0 {
        0
    } else {
        breaks_before(t, i - 1) + if break_ends_at(t, i) {
            1nat
        } else {
            0nat
        }
    }
}

/// The number of lines of `t`: one more than its line breaks.
pub open spec fn line_count(t: Seq<char>) -> nat {
    breaks_before(t, t.len() as int) + 1
}

/// The first character index from `i` on that has at least `l` line breaks
/// before it, or the length of `t` where there is none.
pub open spec fn seek_line(t: Seq<char>, l: nat, i: int) -> int
    decreases t.len() - i,
{
    if i >= t.len() || breaks_before(t, i) >= l {
        i
    } else {
        seek_line(t, l, i + 1)
    }
}

/// The character index at which line `l` of `t` starts; the length of `t`
/// for an `l` past the last line.
pub open spec fn line_start(t: Seq<char>, l: nat) -> int {
    seek_line(t, l, 0)
}

/// The byte index at which line `l` of `t` starts.
pub open spec fn line_start_byte(t: Seq<char>, l: nat) -> nat {
    byte_len(t.take(line_start(t, l)))
}

/// The length in bytes of line `l` of `t`, its line break included.
pub open spec fn line_len_bytes(t: Seq<char>, l: nat) -> int {
    line_start_byte(t, l + 1) - line_start_byte(t, l)
}

/// The length in bytes of the line break that ends line `l` of `t`, a line
/// that is not the last: two for a CR followed by an LF, else the width of
/// the one break character.
pub open spec fn break_len(t: Seq<char>, l: nat) -> nat {
    let end = line_start(t, l + 1);
    if end >= 2 && t[end - 1] == '\u{0A}' && t[end - 2] == '\u{0D}' {
        2
    } else {
        utf8_width(t[end - 1])
    }
}

/// The largest byte offset that a cursor may take on line `l` of `t`: the
/// length of the line without its line break. The last line has none.
pub open spec fn addressable_len(t: Seq<char>, l: nat) -> int {
    if l + 1 < line_count(t) {
        line_len_bytes(t, l) - break_len(t, l)
    } else {
        line_len_bytes(t, l)
    }
}

/// The index of the character that byte `b` of `t` belongs to: the largest
/// `k` such that the first `k` characters take at most `b` bytes.
pub open spec fn char_of_byte(t: Seq<char>, b: nat) -> nat
    decreases t.len(),
{
    if t.len() == 0 || byte_len(t) <= b {
        t.len()
    } else {
        char_of_byte(t.drop_last(), b)
    }
}

/// The index of the line that byte `b` of `t` lies on.
pub open spec fn line_of_byte(t: Seq<char>, b: nat) -> nat {
    breaks_before(t, char_of_byte(t, b) as int)
}

/// Whether `(line, offset)` is a cursor position of `t`.
pub open spec fn valid_cursor(t: Seq<char>, line: nat, offset: nat) -> bool {
    line < line_count(t) && offset <= addressable_len(t, line)
}

/// `line`, or the last line of `t` where `t` has no such line.
pub open spec fn clamp_line(t: Seq<char>, line: nat) -> nat {
    if line < line_count(t) {
        line
    } else {
        (line_count(t) - 1) as nat
    }
}

/// `offset`, or the largest offset that line `line` of `t` admits where
/// `offset` is beyond it.
pub open spec fn clamp_offset(t: Seq<char>, line: nat, offset: nat) -> nat {
    if offset <= addressable_len(t, line) {
        offset
    } else {
        addressable_len(t, line) as nat
    }
}

/// `t` with `s` put in at character index `at`.
pub open spec fn splice(t: Seq<char>, at: int, s: Seq<char>) -> Seq<char> {
    t.take(at) + s + t.skip(at)
}

/// `t` without the characters from index `from` up to `to`.
pub open spec fn cut(t: Seq<char>, from: int, to: int) -> Seq<char> {
    t.take(from) + t.skip(to)
}

/// One more character adds its width to the byte length of a prefix.
pub proof fn lemma_byte_len_step(t: Seq<char>, k: int)
    requires
        0 <= k < t.len(),
    ensures
        byte_len(t.take(k + 1)) == byte_len(t.take(k)) + utf8_width(t[k]),
        byte_len(t.take(k + 1)) > byte_len(t.take(k)),
{
    assert(t.take(k + 1).drop_last() =~= t.take(k));
    assert(t.take(k + 1).last() == t[k]);
}

/// A longer prefix takes more bytes.
pub proof fn lemma_byte_len_prefix(t: Seq<char>, i: int, j: int)
    requires
        0 <= i <= j <= t.len(),
    ensures
        byte_len(t.take(i)) + (j - i) <= byte_len(t.take(j)),
    decreases j - i,
{
    if i < j {
        lemma_byte_len_prefix(t, i, j - 1);
        lemma_byte_len_step(t, j - 1);
    }
}

/// The count of line breaks grows with the index, by at most one per character.
pub proof fn lemma_breaks_prefix(t: Seq<char>, i: int, j: int)
    requires
        0 <= i <= j,
    ensures
        breaks_before(t, i) <= breaks_before(t, j) <= breaks_before(t, i) + (j - i),
    decreases j - i,
{
    if i < j {
        lemma_breaks_prefix(t, i, j - 1);
    }
}

/// What `seek_line` finds: nothing before it has `l` breaks, and it has them
/// itself wherever any index has.
pub proof fn lemma_seek_line(t: Seq<char>, l: nat, i: int)
    requires
        0 <= i <= t.len(),
    ensures
        i <= seek_line(t, l, i) <= t.len(),
        forall|j: int| i <= j < seek_line(t, l, i) ==> breaks_before(t, j) < l,
        seek_line(t, l, i) < t.len() ==> breaks_before(t, seek_line(t, l, i)) >= l,
    decreases t.len() - i,
{
    if i >= t.len() || breaks_before(t, i) >= l {
    } else {
        lemma_seek_line(t, l, i + 1);
    }
}

/// A line that exists starts at the first index with exactly its number of
/// breaks before it; the line one past the last starts at the end of the text.
pub proof fn lemma_line_start(t: Seq<char>, l: nat)
    ensures
        0 <= line_start(t, l) <= t.len(),
        forall|j: int| 0 <= j < line_start(t, l) ==> breaks_before(t, j) < l,
        l < line_count(t) ==> breaks_before(t, line_start(t, l)) == l,
        l >= line_count(t) ==> line_start(t, l) == t.len(),
{
    lemma_seek_line(t, l, 0);
    let s = line_start(t, l);
    if l < line_count(t) {
        if s > 0 {
            lemma_breaks_prefix(t, s - 1, s);
        }
    } else if s < t.len() {
        lemma_breaks_prefix(t, s, t.len() as int);
    }
}

/// Lines start in order: a later line starts no earlier, and every index
/// from the start of line `l` up to the start of the next lies on line `l`.
pub proof fn lemma_line_span(t: Seq<char>, l: nat, k: int)
    requires
        l < line_count(t),
        line_start(t, l) <= k <= t.len(),
        k < line_start(t, l + 1) || l + 1 == line_count(t),
    ensures
        breaks_before(t, k) == l,
{
    lemma_line_start(t, l);
    lemma_line_start(t, l + 1);
    lemma_breaks_prefix(t, line_start(t, l), k);
    if l + 1 == line_count(t) {
        lemma_breaks_prefix(t, k, t.len() as int);
    }
}

/// The start of the next line lies behind the start of a line that exists.
pub proof fn lemma_line_start_order(t: Seq<char>, l: nat)
    requires
        l < line_count(t),
    ensures
        line_start(t, l) <= line_start(t, l + 1),
        l + 1 < line_count(t) ==> line_start(t, l) < line_start(t, l + 1),
        line_start_byte(t, l) <= line_start_byte(t, l + 1),
        l + 1 < line_count(t) ==> line_start_byte(t, l) < line_start_byte(t, l + 1),
        line_start_byte(t, l + 1) <= byte_len(t),
{
    lemma_line_start(t, l);
    lemma_line_start(t, l + 1);
    let s = line_start(t, l);
    let e = line_start(t, l + 1);
    if e < s {
        lemma_breaks_prefix(t, e, s);
    }
    lemma_byte_len_prefix(t, s, e);
    lemma_byte_len_prefix(t, e, t.len() as int);
    assert(t.take(t.len() as int) =~= t);
}

/// A line that is not the last ends in a line break, which lies wholly
/// inside the line: the break ends where the next line starts, and it is no
/// longer than the line.
pub proof fn lemma_break_len(t: Seq<char>, l: nat)
    requires
        l + 1 < line_count(t),
    ensures
        break_ends_at(t, line_start(t, l + 1)),
        1 <= break_len(t, l) <= line_len_bytes(t, l),
        0 <= addressable_len(t, l) < line_len_bytes(t, l),
{
    lemma_line_start(t, l);
    lemma_line_start(t, l + 1);
    lemma_line_start_order(t, l);
    let s = line_start(t, l);
    let e = line_start(t, l + 1);
    lemma_breaks_prefix(t, e - 1, e);
    lemma_byte_len_step(t, e - 1);
    if e >= 2 && t[e - 1] == '\u{0A}' && t[e - 2] == '\u{0D}' {
        lemma_breaks_prefix(t, e - 2, e - 1);
        lemma_byte_len_step(t, e - 2);
        lemma_byte_len_prefix(t, s, e - 2);
    } else {
        lemma_byte_len_prefix(t, s, e - 1);
    }
}

/// A line that exists admits the offset zero, and clamping a cursor into a
/// text gives a cursor position of that text.
pub proof fn lemma_clamp_valid(t: Seq<char>, line: nat, offset: nat)
    ensures
        valid_cursor(t, clamp_line(t, line), 0),
        valid_cursor(t, clamp_line(t, line), clamp_offset(t, clamp_line(t, line), offset)),
{
    let l = clamp_line(t, line);
    lemma_line_start_order(t, l);
    if l + 1 < line_count(t) {
        lemma_break_len(t, l);
    }
}

/// The first line starts at byte zero.
pub proof fn lemma_first_line(t: Seq<char>)
    ensures
        line_start(t, 0) == 0,
        line_start_byte(t, 0) == 0,
{
    assert(t.take(0) =~= Seq::<char>::empty());
}

/// What `char_of_byte` finds: the character whose bytes hold byte `b`.
pub proof fn lemma_char_of_byte(t: Seq<char>, b: nat)
    ensures
        char_of_byte(t, b) <= t.len(),
        byte_len(t.take(char_of_byte(t, b) as int)) <= b,
        char_of_byte(t, b) < t.len() ==> b < byte_len(t.take(char_of_byte(t, b) as int + 1)),
        b < byte_len(t) ==> char_of_byte(t, b) < t.len(),
    decreases t.len(),
{
    if t.len() == 0 || byte_len(t) <= b {
        assert(t.take(t.len() as int) =~= t);
    } else {
        let u = t.drop_last();
        lemma_char_of_byte(u, b);
        let k = char_of_byte(u, b) as int;
        assert(u.take(k) =~= t.take(k));
        if k < u.len() {
            assert(u.take(k + 1) =~= t.take(k + 1));
        } else {
            assert(t.take(k + 1) =~= t);
        }
    }
}

/// A byte between the first byte of character `k` and the first byte of the
/// next belongs to character `k`.
pub proof fn lemma_char_of_byte_is(t: Seq<char>, b: nat, k: int)
    requires
        0 <= k <= t.len(),
        byte_len(t.take(k)) <= b,
        k < t.len() ==> b < byte_len(t.take(k + 1)),
    ensures
        char_of_byte(t, b) == k,
{
    lemma_char_of_byte(t, b);
    let c = char_of_byte(t, b) as int;
    if c < k {
        lemma_byte_len_prefix(t, c + 1, k);
    } else if k < c {
        lemma_byte_len_prefix(t, k + 1, c);
    }
}

/// The byte at a valid cursor's absolute position lies on the cursor's line,
/// and the absolute position is inside the text.
pub proof fn lemma_cursor_line(t: Seq<char>, line: nat, offset: nat)
    requires
        valid_cursor(t, line, offset),
    ensures
        line_start_byte(t, line) + offset <= byte_len(t),
        line_of_byte(t, line_start_byte(t, line) + offset) == line,
{
    let b = line_start_byte(t, line) + offset;
    lemma_line_start_order(t, line);
    if line + 1 < line_count(t) {
        lemma_break_len(t, line);
    }
    lemma_line_start(t, line);
    lemma_line_start(t, line + 1);
    lemma_char_of_byte(t, b);
    let s = line_start(t, line);
    let e = line_start(t, line + 1);
    let k = char_of_byte(t, b) as int;
    if k < s {
        lemma_byte_len_prefix(t, k + 1, s);
    }
    if line + 1 < line_count(t) {
        if k >= e {
            lemma_byte_len_prefix(t, e, k);
        }
    }
    lemma_line_span(t, line, k);
}

/// The line that a byte lies on starts at or before that byte, and the byte
/// lies before the start of the next line.
pub proof fn lemma_line_of_byte(t: Seq<char>, b: nat)
    requires
        b <= byte_len(t),
    ensures
        line_of_byte(t, b) < line_count(t),
        line_start_byte(t, line_of_byte(t, b)) <= b <= line_start_byte(
            t,
            line_of_byte(t, b) + 1,
        ),
        line_of_byte(t, b) + 1 < line_count(t) ==> b < line_start_byte(
            t,
            line_of_byte(t, b) + 1,
        ),
{
    lemma_char_of_byte(t, b);
    let k = char_of_byte(t, b) as int;
    let l = line_of_byte(t, b);
    lemma_breaks_prefix(t, k, t.len() as int);
    lemma_line_start(t, l);
    lemma_line_start(t, l + 1);
    lemma_line_start_order(t, l);
    let s = line_start(t, l);
    let e = line_start(t, l + 1);
    lemma_byte_len_prefix(t, s, k);
    if l + 1 < line_count(t) {
        if e <= k {
            lemma_breaks_prefix(t, e, k);
        }
        lemma_byte_len_prefix(t, k + 1, e);
    } else {
        assert(t.take(t.len() as int) =~= t);
    }
}

} // verus!

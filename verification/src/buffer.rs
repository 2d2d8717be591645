//! The buffer: a rope of text with a cursor, a vertical scroll position and
//! a cursor mode.

use crate::rope::{
    rope_byte_to_char, rope_byte_to_line, rope_char, rope_len_bytes, rope_len_chars,
    rope_len_lines, rope_line_len_bytes, rope_line_to_byte, rope_new, rope_text,
};
use crate::chars::char_width;
use crate::text::{
    addressable_len, break_len, byte_len, char_of_byte, clamp_line, clamp_offset,
    lemma_break_len, lemma_byte_len_prefix, lemma_byte_len_step, lemma_char_of_byte_is,
    lemma_clamp_valid, lemma_cursor_line, lemma_line_of_byte, lemma_line_start, line_count,
    line_len_bytes, line_of_byte, line_start, line_start_byte, valid_cursor,
};
use crate::transaction::{log_cursor, log_fits, log_text, Transaction};
use ropey::Rope;
use vstd::prelude::*;

verus! {

/// The mode that decides how input is resolved.
#[derive(Debug, Clone, Copy, PartialEq, Eq, Structural, Hash)]
pub enum CursorMode {
    Insert,
    Normal,
    Visual,
}

impl Default for CursorMode {
    fn default() -> (mode: Self)
        ensures
            mode == CursorMode::Normal,
    {
        CursorMode::Normal
    }
}

/// A text with its cursor, given as a line index and a byte offset into that
/// line, the index of the first line on screen, and the cursor mode.
#[derive(Debug)]
pub struct Buffer {
    text: Rope,
    index: usize,
    offset: usize,
    vscroll: usize,
    mode: CursorMode,
}

/// The mathematical value of a [`Buffer`].
pub struct BufferView {
    pub text: Seq<char>,
    pub index: nat,
    pub offset: nat,
    pub vscroll: nat,
    pub mode: CursorMode,
}

impl View for Buffer {
    type V = BufferView;

    closed spec fn view(&self) -> BufferView {
        BufferView {
            text: rope_text(self.text),
            index: self.index as nat,
            offset: self.offset as nat,
            vscroll: self.vscroll as nat,
            mode: self.mode,
        }
    }
}

/// The first line on screen after the least shift that brings line `index`
/// into a window of `height` lines that started at line `vscroll`. A height
/// of zero counts as one.
pub open spec fn scrolled(vscroll: nat, index: nat, height: nat) -> nat {
    let rows = if height == 0 {
        1
    } else {
        height
    };
    if index < vscroll {
        index
    } else if index - vscroll >= rows {
        (index + 1 - rows) as nat
    } else {
        vscroll
    }
}

impl BufferView {
    /// The invariant of a buffer: the cursor is on a line of the text, at an
    /// offset that the line admits.
    pub open spec fn wf(self) -> bool {
        valid_cursor(self.text, self.index, self.offset)
    }

    /// The absolute byte position of the cursor.
    pub open spec fn byte_pos(self) -> nat {
        line_start_byte(self.text, self.index) + self.offset
    }

    /// This value with the cursor at `(index, offset)`.
    pub open spec fn at(self, index: nat, offset: nat) -> BufferView {
        BufferView { index, offset, ..self }
    }

    /// This value with the text `text`, the cursor moved no further than is
    /// needed to be a cursor position of it.
    pub open spec fn with_text(self, text: Seq<char>) -> BufferView {
        let index = clamp_line(text, self.index);
        BufferView { text, index, offset: clamp_offset(text, index, self.offset), ..self }
    }
}

impl Buffer {
    /// The invariant of a buffer.
    pub open spec fn wf(&self) -> bool {
        self@.wf()
    }

    /// An empty buffer in normal mode, the cursor at its start.
    pub fn new() -> (buffer: Self)
        ensures
            buffer@ == (BufferView {
                text: Seq::<char>::empty(),
                index: 0,
                offset: 0,
                vscroll: 0,
                mode: CursorMode::Normal,
            }),
            buffer.wf(),
    {
        let buffer = Self {
            text: rope_new(),
            index: 0,
            offset: 0,
            vscroll: 0,
            mode: CursorMode::Normal,
        };
        proof {
            lemma_clamp_valid(buffer@.text, 0, 0);
        }
        buffer
    }

    pub fn mode(&self) -> (mode: CursorMode)
        ensures
            mode == self@.mode,
    {
        self.mode
    }

    pub fn set_mode(&mut self, mode: CursorMode)
        ensures
            final(self)@ == (BufferView { mode, ..old(self)@ }),
    {
        self.mode = mode;
    }

    pub fn text(&self) -> (text: &Rope)
        ensures
            rope_text(*text) == self@.text,
    {
        &self.text
    }

    /// Replaces the text. The cursor moves no further than is needed to be
    /// a cursor position of the new text.
    pub fn set_text(&mut self, text: Rope)
        ensures
            final(self)@ == old(self)@.with_text(rope_text(text)),
            final(self).wf(),
    {
        self.text = text;
        self.settle();
    }

    /// Carries `tx` out on the text, as [`Transaction::apply`] does, and
    /// returns what that returns. The cursor moves no further than is needed
    /// to be a cursor position of the new text.
    pub fn edit(&mut self, tx: &Transaction) -> (cursor: Option<usize>)
        ensures
            log_fits(tx@, old(self)@.text) ==> final(self)@ == old(self)@.with_text(
                log_text(tx@, old(self)@.text),
            ) && match cursor {
                Some(pos) => log_cursor(tx@) == Some(pos as nat),
                None => log_cursor(tx@) is None,
            },
            !log_fits(tx@, old(self)@.text) ==> final(self)@ == old(self)@.with_text(
                old(self)@.text,
            ) && cursor is None,
            final(self).wf(),
    {
        let cursor = tx.apply(&mut self.text);
        self.settle();
        cursor
    }

    /// Moves the cursor into the text where it is outside.
    fn settle(&mut self)
        ensures
            final(self)@ == old(self)@.with_text(old(self)@.text),
            final(self).wf(),
    {
        let lines = rope_len_lines(&self.text);
        if self.index >= lines {
            self.index = lines - 1;
        }
        let limit = self.max_offset(self.index);
        if self.offset > limit {
            self.offset = limit;
        }
        proof {
            lemma_clamp_valid(old(self)@.text, old(self)@.index, old(self)@.offset);
        }
    }

    pub fn index(&self) -> (index: usize)
        ensures
            index == self@.index,
    {
        self.index
    }

    /// Moves the cursor to line `index`, keeping its offset.
    pub fn set_index(&mut self, index: usize)
        requires
            valid_cursor(old(self)@.text, index as nat, old(self)@.offset),
        ensures
            final(self)@ == old(self)@.at(index as nat, old(self)@.offset),
            final(self).wf(),
    {
        self.index = index;
    }

    pub fn offset(&self) -> (offset: usize)
        ensures
            offset == self@.offset,
    {
        self.offset
    }

    /// Moves the cursor to byte `offset` of its line.
    pub fn set_offset(&mut self, offset: usize)
        requires
            valid_cursor(old(self)@.text, old(self)@.index, offset as nat),
        ensures
            final(self)@ == old(self)@.at(old(self)@.index, offset as nat),
            final(self).wf(),
    {
        self.offset = offset;
    }

    pub fn pos(&self) -> (pos: (usize, usize))
        ensures
            pos.0 == self@.index,
            pos.1 == self@.offset,
    {
        (self.index, self.offset)
    }

    /// Moves the cursor to line `pos.0`, byte offset `pos.1`.
    pub fn set_pos(&mut self, pos: (usize, usize))
        requires
            valid_cursor(old(self)@.text, pos.0 as nat, pos.1 as nat),
        ensures
            final(self)@ == old(self)@.at(pos.0 as nat, pos.1 as nat),
            final(self).wf(),
    {
        self.index = pos.0;
        self.offset = pos.1;
    }

    /// Whether `(index, offset)` is a cursor position of the text.
    pub fn is_valid_pos(&self, index: usize, offset: usize) -> (valid: bool)
        ensures
            valid == valid_cursor(self@.text, index as nat, offset as nat),
    {
        index < rope_len_lines(&self.text) && offset <= self.max_offset(index)
    }

    /// The absolute byte position of the cursor: the start of its line plus
    /// its offset.
    pub fn as_byte_pos(&self) -> (pos: usize)
        requires
            self.wf(),
        ensures
            pos == self@.byte_pos(),
            pos <= byte_len(self@.text),
    {
        let start = rope_line_to_byte(&self.text, self.index);
        let total = self.byte_size();
        proof {
            lemma_cursor_line(self@.text, self@.index, self@.offset);
        }
        assert(start + self.offset <= total);
        start + self.offset
    }

    /// The cursor position of the absolute byte position `pos`: the line
    /// that holds the byte, and the byte's distance from the line's start.
    pub fn as_curs_pos(&self, pos: usize) -> (cursor: (usize, usize))
        requires
            pos <= byte_len(self@.text),
        ensures
            cursor.0 == line_of_byte(self@.text, pos as nat),
            cursor.1 == pos - line_start_byte(self@.text, line_of_byte(self@.text, pos as nat)),
            cursor.0 < line_count(self@.text),
            cursor.1 <= line_len_bytes(self@.text, cursor.0 as nat),
    {
        proof {
            lemma_line_of_byte(self@.text, pos as nat);
        }
        let index = rope_byte_to_line(&self.text, pos);
        let start = rope_line_to_byte(&self.text, index);
        let offset = pos - start;
        (index, offset)
    }

    pub fn vscroll(&self) -> (vscroll: usize)
        ensures
            vscroll == self@.vscroll,
    {
        self.vscroll
    }

    /// Shifts the window of `max` lines by the least amount that brings the
    /// cursor's line into it.
    pub fn update_vscroll(&mut self, max: usize)
        ensures
            final(self)@ == (BufferView {
                vscroll: scrolled(old(self)@.vscroll, old(self)@.index, max as nat),
                ..old(self)@
            }),
            final(self)@.vscroll <= final(self)@.index,
            max > 0 ==> final(self)@.index < final(self)@.vscroll + max,
    {
        let rows = if max == 0 {
            1
        } else {
            max
        };
        if self.index < self.vscroll {
            self.vscroll = self.index;
        } else if self.index - self.vscroll >= rows {
            self.vscroll = self.index - rows + 1;
        }
    }

    /// The lines that a window of `max` lines shows: from the first line on
    /// screen up to, and without, the line returned second; no line where
    /// the window starts behind the text.
    pub fn visible_lines(&self, max: usize) -> (lines: (usize, usize))
        ensures
            lines.0 == self@.vscroll,
            lines.1 == if self@.vscroll >= line_count(self@.text) {
                self@.vscroll
            } else if self@.vscroll + max >= line_count(self@.text) {
                line_count(self@.text)
            } else {
                (self@.vscroll + max) as nat
            },
    {
        let total = rope_len_lines(&self.text);
        if self.vscroll >= total {
            (self.vscroll, self.vscroll)
        } else if max >= total - self.vscroll {
            (self.vscroll, total)
        } else {
            (self.vscroll, self.vscroll + max)
        }
    }

    /// The cursor's place on screen: its column, which is its offset, and
    /// its row, counted from the first line on screen; row zero where the
    /// cursor's line is above the window.
    pub fn cursor_on_screen(&self) -> (place: (usize, usize))
        ensures
            place.0 == self@.offset,
            place.1 == if self@.index >= self@.vscroll {
                self@.index - self@.vscroll
            } else {
                0
            },
    {
        if self.index >= self.vscroll {
            (self.offset, self.index - self.vscroll)
        } else {
            (self.offset, 0)
        }
    }

    /// The byte index at which line `index` starts.
    pub fn line_byte(&self, index: usize) -> (start: usize)
        requires
            index <= line_count(self@.text),
        ensures
            start == line_start_byte(self@.text, index as nat),
    {
        rope_line_to_byte(&self.text, index)
    }

    /// The length in bytes of line `index`, its line break included.
    pub fn len_bytes(&self, index: usize) -> (len: usize)
        requires
            index < line_count(self@.text),
        ensures
            len == line_len_bytes(self@.text, index as nat),
    {
        rope_line_len_bytes(&self.text, index)
    }

    /// The largest byte offset that the cursor may take on line `index`: the
    /// length of the line without its line break.
    pub fn max_offset(&self, index: usize) -> (limit: usize)
        requires
            index < line_count(self@.text),
        ensures
            limit == addressable_len(self@.text, index as nat),
    {
        let len = rope_line_len_bytes(&self.text, index);
        if index < rope_len_lines(&self.text) - 1 {
            len - self.break_width(index + 1)
        } else {
            len
        }
    }

    /// The length in bytes of the line break that stands before line `next`.
    fn break_width(&self, next: usize) -> (width: usize)
        requires
            1 <= next < line_count(self@.text),
        ensures
            width == break_len(self@.text, (next - 1) as nat),
            width <= line_len_bytes(self@.text, (next - 1) as nat),
    {
        let ghost t = self@.text;
        let ghost e = line_start(t, next as nat);
        proof {
            lemma_break_len(t, (next - 1) as nat);
            lemma_line_start(t, next as nat);
            lemma_byte_len_step(t, e - 1);
            lemma_char_of_byte_is(t, (byte_len(t.take(e)) - 1) as nat, e - 1);
        }
        let end = rope_line_to_byte(&self.text, next);
        let last = rope_char(&self.text, rope_byte_to_char(&self.text, end - 1));
        if last == '\n' && end >= 2 {
            proof {
                lemma_byte_len_prefix(t, 0, e - 1);
                assert(t.take(0) =~= Seq::<char>::empty());
                lemma_byte_len_step(t, e - 2);
                lemma_char_of_byte_is(t, (byte_len(t.take(e)) - 2) as nat, e - 2);
            }
            let before = rope_char(&self.text, rope_byte_to_char(&self.text, end - 2));
            if before == '\r' {
                return 2;
            }
        }
        char_width(last)
    }

    pub fn len_lines(&self) -> (lines: usize)
        ensures
            lines == line_count(self@.text),
            lines >= 1,
    {
        rope_len_lines(&self.text)
    }

    /// The number of bytes that the text takes: the largest absolute byte
    /// position.
    pub fn byte_size(&self) -> (bytes: usize)
        ensures
            bytes == byte_len(self@.text),
    {
        rope_len_bytes(&self.text)
    }

    pub fn len_chars(&self) -> (chars: usize)
        ensures
            chars == self@.text.len(),
    {
        rope_len_chars(&self.text)
    }

    pub fn is_insert(&self) -> (insert: bool)
        ensures
            insert == (self@.mode == CursorMode::Insert),
    {
        self.mode == CursorMode::Insert
    }

    /// The character at character index `pos`.
    pub fn char(&self, pos: usize) -> (c: char)
        requires
            pos < self@.text.len(),
        ensures
            c == self@.text[pos as int],
    {
        rope_char(&self.text, pos)
    }

    /// The index of the character that byte `pos` belongs to.
    pub fn char_index(&self, pos: usize) -> (idx: usize)
        requires
            pos <= byte_len(self@.text),
        ensures
            idx == char_of_byte(self@.text, pos as nat),
    {
        rope_byte_to_char(&self.text, pos)
    }
}

impl Default for Buffer {
    fn default() -> (buffer: Self)
        ensures
            buffer@ == (BufferView {
                text: Seq::<char>::empty(),
                index: 0,
                offset: 0,
                vscroll: 0,
                mode: CursorMode::Normal,
            }),
            buffer.wf(),
    {
        Buffer::new()
    }
}

/// After the shift the cursor's line is inside a window of at least one
/// line; a window that held the line already does not move; and
/// where the window moves, every window `top` that holds the line lies as
/// far from the old one or further, on the same side.
pub proof fn lemma_scrolled(vscroll: nat, index: nat, height: nat, top: nat)
    requires
        height >= 1,
    ensures
        scrolled(vscroll, index, height) <= index < scrolled(vscroll, index, height) + height,
        vscroll <= index < vscroll + height ==> scrolled(vscroll, index, height) == vscroll,
        top <= index < top + height && scrolled(vscroll, index, height) < vscroll ==> top
            <= scrolled(vscroll, index, height),
        top <= index < top + height && scrolled(vscroll, index, height) > vscroll ==> top
            >= scrolled(vscroll, index, height),
{
}

/// The absolute byte position of a cursor position of a text lies in the
/// text, on the cursor's line, at the cursor's offset from the start of that
/// line: turning it back into a cursor position gives the same cursor.
pub proof fn lemma_coordinate_round_trip(t: Seq<char>, line: nat, offset: nat)
    requires
        valid_cursor(t, line, offset),
    ensures
        line_start_byte(t, line) + offset <= byte_len(t),
        line_of_byte(t, line_start_byte(t, line) + offset) == line,
        line_start_byte(t, line) + offset - line_start_byte(
            t,
            line_of_byte(t, line_start_byte(t, line) + offset),
        ) == offset,
{
    lemma_cursor_line(t, line, offset);
}

} // verus!

//! The command dispatcher: resolves input through the keymap trie or the
//! insert-mode character stream and carries the commands out on a buffer.

use crate::buffer::{scrolled, Buffer, BufferView, CursorMode};
use crate::chars::str_eq;
use crate::event::{Event, Input};
use crate::keymap::{Keymap, KeymapNode};
use crate::text::{
    addressable_len, char_of_byte, clamp_line, clamp_offset, cut, lemma_char_of_byte,
    lemma_clamp_valid, lemma_first_line, lemma_line_start_order, line_count, line_len_bytes,
    splice, valid_cursor,
};
use crate::transaction::{lemma_single_action, Transaction};
use vstd::prelude::*;

verus! {

/// The commands that a key sequence can be bound to.
#[derive(Debug, Clone, Copy, PartialEq, Eq, Structural, Hash)]
pub enum CommandType {
    SwitchToInsertMode,
    SwitchToNormalMode,
    MoveBack,
    MoveDown,
    MoveUp,
    MoveForward,
    SwitchToInsertLineEnd,
    SwitchToInsertLineStart,
    SwitchToInsertNewLineNext,
    SwitchToInsertNewLinePrev,
    GoToStartLine,
    GoToEndLine,
    DeleteChar,
    NewLine,
}

impl CommandType {
    /// The command that the binding table calls `name`.
    pub open spec fn named(name: Seq<char>) -> Option<CommandType> {
        if name == "switch_to_insert_mode"@ {
            Some(CommandType::SwitchToInsertMode)
        } else if name == "switch_to_normal_mode"@ {
            Some(CommandType::SwitchToNormalMode)
        } else if name == "move_back"@ {
            Some(CommandType::MoveBack)
        } else if name == "move_down"@ {
            Some(CommandType::MoveDown)
        } else if name == "move_up"@ {
            Some(CommandType::MoveUp)
        } else if name == "move_forward"@ {
            Some(CommandType::MoveForward)
        } else if name == "switch_to_insert_line_end"@ {
            Some(CommandType::SwitchToInsertLineEnd)
        } else if name == "switch_to_insert_line_start"@ {
            Some(CommandType::SwitchToInsertLineStart)
        } else if name == "switch_to_insert_new_line_next"@ {
            Some(CommandType::SwitchToInsertNewLineNext)
        } else if name == "switch_to_insert_new_line_prev"@ {
            Some(CommandType::SwitchToInsertNewLinePrev)
        } else if name == "go_to_start_line"@ {
            Some(CommandType::GoToStartLine)
        } else if name == "go_to_end_line"@ {
            Some(CommandType::GoToEndLine)
        } else if name == "delete_char"@ {
            Some(CommandType::DeleteChar)
        } else if name == "new_line"@ {
            Some(CommandType::NewLine)
        } else {
            None
        }
    }

    /// The command that the binding table calls `name`, if there is one.
    pub fn from_name(name: &str) -> (command: Option<CommandType>)
        ensures
            command == Self::named(name@),
    {
        if str_eq(name, "switch_to_insert_mode") {
            Some(CommandType::SwitchToInsertMode)
        } else if str_eq(name, "switch_to_normal_mode") {
            Some(CommandType::SwitchToNormalMode)
        } else if str_eq(name, "move_back") {
            Some(CommandType::MoveBack)
        } else if str_eq(name, "move_down") {
            Some(CommandType::MoveDown)
        } else if str_eq(name, "move_up") {
            Some(CommandType::MoveUp)
        } else if str_eq(name, "move_forward") {
            Some(CommandType::MoveForward)
        } else if str_eq(name, "switch_to_insert_line_end") {
            Some(CommandType::SwitchToInsertLineEnd)
        } else if str_eq(name, "switch_to_insert_line_start") {
            Some(CommandType::SwitchToInsertLineStart)
        } else if str_eq(name, "switch_to_insert_new_line_next") {
            Some(CommandType::SwitchToInsertNewLineNext)
        } else if str_eq(name, "switch_to_insert_new_line_prev") {
            Some(CommandType::SwitchToInsertNewLinePrev)
        } else if str_eq(name, "go_to_start_line") {
            Some(CommandType::GoToStartLine)
        } else if str_eq(name, "go_to_end_line") {
            Some(CommandType::GoToEndLine)
        } else if str_eq(name, "delete_char") {
            Some(CommandType::DeleteChar)
        } else if str_eq(name, "new_line") {
            Some(CommandType::NewLine)
        } else {
            None
        }
    }
}

/// The cursor moved back by `n` bytes, no further than the start of its line.
pub open spec fn move_back(v: BufferView, n: nat) -> BufferView {
    v.at(
        v.index,
        if v.offset >= n {
            (v.offset - n) as nat
        } else {
            0
        },
    )
}

/// The cursor moved forward by `n` bytes, no further than its line admits.
pub open spec fn move_forward(v: BufferView, n: nat) -> BufferView {
    v.at(v.index, clamp_offset(v.text, v.index, v.offset + n))
}

/// The cursor moved up by `n` lines, no further than the first line, its
/// offset no larger than the new line admits.
pub open spec fn move_up(v: BufferView, n: nat) -> BufferView {
    let index = if v.index >= n {
        (v.index - n) as nat
    } else {
        0
    };
    v.at(index, clamp_offset(v.text, index, v.offset))
}

/// The cursor moved down by `n` lines, no further than the last line, its
/// offset no larger than the new line admits.
pub open spec fn move_down(v: BufferView, n: nat) -> BufferView {
    let index = clamp_line(v.text, v.index + n);
    v.at(index, clamp_offset(v.text, index, v.offset))
}

/// The cursor moved to the end of its line.
pub open spec fn line_end(v: BufferView) -> BufferView {
    v.at(v.index, addressable_len(v.text, v.index) as nat)
}

/// The index of the character that the cursor stands at.
pub open spec fn cursor_char(v: BufferView) -> nat {
    char_of_byte(v.text, v.byte_pos())
}

/// The character `ch` put in at the cursor; the cursor stays as close to
/// where it was as the new text admits.
pub open spec fn put_in(v: BufferView, ch: char) -> BufferView {
    v.with_text(splice(v.text, cursor_char(v) as int, seq![ch]))
}

/// The character `ch` typed at the cursor: it is put in, and the cursor
/// moves forward by one.
pub open spec fn typed(v: BufferView, ch: char) -> BufferView {
    move_forward(put_in(v, ch), 1)
}

/// A line feed put in at the cursor, the cursor then moved to the start of
/// the next line.
pub open spec fn new_line(v: BufferView) -> BufferView {
    let w = put_in(v, '\n');
    w.at(clamp_line(w.text, v.index + 1), 0)
}

/// The character before the cursor taken out. At the start of the text
/// nothing changes. At the start of a later line the cursor first moves up,
/// behind the last byte of the line above. The cursor then moves back by one,
/// and no further from there than is needed for the new text to admit it.
pub open spec fn delete_char(v: BufferView) -> BufferView {
    if v.byte_pos() == 0 {
        v
    } else {
        let at = char_of_byte(v.text, (v.byte_pos() - 1) as nat);
        let from = if v.offset == 0 {
            v.at((v.index - 1) as nat, line_len_bytes(v.text, (v.index - 1) as nat) as nat)
        } else {
            v
        };
        from.at(from.index, (from.offset - 1) as nat).with_text(
            cut(v.text, at as int, at as int + 1),
        )
    }
}

/// This value in the mode `mode`.
pub open spec fn in_mode(v: BufferView, mode: CursorMode) -> BufferView {
    BufferView { mode, ..v }
}

/// A new line opened below the cursor's line, the cursor on it, in insert
/// mode.
pub open spec fn open_below(v: BufferView) -> BufferView {
    in_mode(new_line(line_end(v)), CursorMode::Insert)
}

/// A new line opened above the cursor's line, the cursor on it, in insert
/// mode.
pub open spec fn open_above(v: BufferView) -> BufferView {
    if v.index == 0 {
        in_mode(move_up(new_line(v.at(0, 0)), 1), CursorMode::Insert)
    } else {
        open_below(move_up(v, 1))
    }
}

/// What `command` makes of a buffer.
pub open spec fn run(command: CommandType, v: BufferView) -> BufferView {
    match command {
        CommandType::SwitchToInsertMode => in_mode(v, CursorMode::Insert),
        CommandType::SwitchToNormalMode => in_mode(v, CursorMode::Normal),
        CommandType::MoveBack => move_back(v, 1),
        CommandType::MoveDown => move_down(v, 1),
        CommandType::MoveUp => move_up(v, 1),
        CommandType::MoveForward => move_forward(v, 1),
        CommandType::SwitchToInsertLineEnd => in_mode(line_end(v), CursorMode::Insert),
        CommandType::SwitchToInsertLineStart => in_mode(v.at(v.index, 0), CursorMode::Insert),
        CommandType::SwitchToInsertNewLineNext => open_below(v),
        CommandType::SwitchToInsertNewLinePrev => open_above(v),
        CommandType::GoToStartLine => v.at(v.index, 0),
        CommandType::GoToEndLine => line_end(v),
        CommandType::DeleteChar => delete_char(v),
        CommandType::NewLine => new_line(v),
    }
}

/// The node that `input` leads to from the state `pending`: looked up in the
/// pending table where there is one, in `keymap` where there is none.
pub open spec fn next_node(pending: Option<KeymapNode>, input: Input, keymap: Keymap) -> Option<
    KeymapNode,
> {
    match pending {
        None => keymap.lookup(input),
        Some(KeymapNode::Node(table)) => table.lookup(input),
        Some(KeymapNode::Leaf(_)) => None,
    }
}

/// One step of the character stream of insert mode: a character with no
/// modifier is typed, the letter q with the control key alone asks for the
/// end of the session, all else changes nothing.
pub open spec fn stream_step(state: CommandView, input: Input, v: BufferView) -> (
    CommandView,
    BufferView,
) {
    match input.event {
        Event::Char(ch) => if !input.ctrl && !input.alt {
            (state, typed(v, ch))
        } else if ch == 'q' && input.ctrl && !input.alt {
            (CommandView { should_exit: true, ..state }, v)
        } else {
            (state, v)
        },
        _ => (state, v),
    }
}

/// One step of the resolution: the state and the buffer after `input`.
pub open spec fn step(state: CommandView, input: Input, v: BufferView, keymap: Keymap) -> (
    CommandView,
    BufferView,
) {
    match next_node(state.pending, input, keymap) {
        None => (CommandView { pending: None, ..state }, v),
        Some(KeymapNode::Leaf(command)) => (CommandView { pending: None, ..state }, run(command, v)),
        Some(node) => (CommandView { pending: Some(node), ..state }, v),
    }
}

/// One step in the mode of the buffer: of the character stream in insert
/// mode, of the resolution through the trie in the other modes.
pub open spec fn mode_step(state: CommandView, input: Input, v: BufferView, keymap: Keymap) -> (
    CommandView,
    BufferView,
) {
    if v.mode == CursorMode::Insert {
        stream_step(state, input, v)
    } else {
        step(state, input, v, keymap)
    }
}

/// The window of `height` lines shifted by the least amount that brings the
/// cursor's line into it.
pub open spec fn in_view(v: BufferView, height: nat) -> BufferView {
    BufferView { vscroll: scrolled(v.vscroll, v.index, height), ..v }
}

/// The state of a dispatcher: the node of a key sequence that has begun and
/// is not yet resolved, and whether the end of the session was asked for.
pub struct Command<'a> {
    current_node: Option<&'a KeymapNode>,
    should_exit: bool,
}

/// The mathematical value of a [`Command`].
pub struct CommandView {
    pub pending: Option<KeymapNode>,
    pub should_exit: bool,
}

impl<'a> View for Command<'a> {
    type V = CommandView;

    closed spec fn view(&self) -> CommandView {
        CommandView {
            pending: match self.current_node {
                Some(node) => Some(*node),
                None => None,
            },
            should_exit: self.should_exit,
        }
    }
}

impl<'a> Command<'a> {
    /// A dispatcher with no key sequence begun.
    pub fn new() -> (command: Self)
        ensures
            command@ == (CommandView { pending: None, should_exit: false }),
    {
        Command { current_node: None, should_exit: false }
    }

    pub fn should_exit(&self) -> (exit: bool)
        ensures
            exit == self@.should_exit,
    {
        self.should_exit
    }

    pub fn in_progress(&self) -> (pending: bool)
        ensures
            pending == self@.pending is Some,
    {
        self.current_node.is_some()
    }

    /// Shifts the window of `max` lines by the least amount that brings the
    /// cursor's line into it.
    pub fn scroll(buffer: &mut Buffer, max: usize)
        ensures
            final(buffer)@ == in_view(old(buffer)@, max as nat),
            final(buffer)@.vscroll <= final(buffer)@.index,
            max > 0 ==> final(buffer)@.index < final(buffer)@.vscroll + max,
    {
        buffer.update_vscroll(max);
    }

    /// Resolves `input` through the trie. With no sequence begun the key is
    /// looked up in `keymap`, else in the pending table. A key that leads
    /// nowhere ends the sequence and changes nothing else; one that leads to
    /// a command ends the sequence and carries the command out; one that
    /// leads to a table makes that table pending.
    pub fn execute(&mut self, input: Input, buffer: &mut Buffer, keymap: &'a Keymap)
        requires
            old(buffer).wf(),
        ensures
            (final(self)@, final(buffer)@) == step(old(self)@, input, old(buffer)@, *keymap),
            final(buffer).wf(),
    {
        let node = match self.current_node {
            None => keymap.get(input),
            Some(KeymapNode::Node(table)) => table.get(input),
            Some(KeymapNode::Leaf(_)) => None,
        };
        match node {
            Some(KeymapNode::Leaf(command)) => {
                self.current_node = None;
                Self::run(*command, buffer);
            },
            Some(table) => {
                self.current_node = Some(table);
            },
            None => {
                self.current_node = None;
            },
        }
    }

    /// Takes `input` as part of the character stream of insert mode: a
    /// character with no modifier is typed at the cursor, the letter q with
    /// the control key alone asks for the end of the session, and all else is
    /// ignored.
    pub fn insert_mode_on_input(&mut self, input: Input, buffer: &mut Buffer)
        requires
            old(buffer).wf(),
        ensures
            (final(self)@, final(buffer)@) == stream_step(old(self)@, input, old(buffer)@),
            final(buffer).wf(),
    {
        match input.event {
            Event::Char(ch) => {
                if !input.ctrl && !input.alt {
                    Self::insert_char(buffer, ch);
                } else if ch == 'q' && input.ctrl && !input.alt {
                    self.should_exit = true;
                }
            },
            _ => {},
        }
    }

    /// Takes `input` the way that the buffer's mode asks for: as part of the
    /// character stream in insert mode, through the trie in the other modes.
    pub fn dispatch(&mut self, input: Input, buffer: &mut Buffer, keymap: &'a Keymap)
        requires
            old(buffer).wf(),
        ensures
            (final(self)@, final(buffer)@) == mode_step(old(self)@, input, old(buffer)@, *keymap),
            final(buffer).wf(),
    {
        if buffer.is_insert() {
            self.insert_mode_on_input(input, buffer);
        } else {
            self.execute(input, buffer, keymap);
        }
    }

    /// Takes one key press: dispatches it as the mode asks, then shifts the
    /// window of `height` lines so that it holds the cursor's line. Returns
    /// whether the end of the session was asked for.
    pub fn on_input(
        &mut self,
        input: Input,
        buffer: &mut Buffer,
        keymap: &'a Keymap,
        height: usize,
    ) -> (exit: bool)
        requires
            old(buffer).wf(),
        ensures
            final(self)@ == mode_step(old(self)@, input, old(buffer)@, *keymap).0,
            final(buffer)@ == in_view(
                mode_step(old(self)@, input, old(buffer)@, *keymap).1,
                height as nat,
            ),
            exit == final(self)@.should_exit,
            final(buffer).wf(),
    {
        self.dispatch(input, buffer, keymap);
        Self::scroll(buffer, height);
        self.should_exit
    }

    /// Carries `command` out on `buffer`.
    pub fn run(command: CommandType, buffer: &mut Buffer)
        requires
            old(buffer).wf(),
        ensures
            final(buffer)@ == run(command, old(buffer)@),
            final(buffer).wf(),
    {
        match command {
            CommandType::SwitchToInsertMode => buffer.set_mode(CursorMode::Insert),
            CommandType::SwitchToNormalMode => buffer.set_mode(CursorMode::Normal),
            CommandType::MoveBack => Self::move_cursor_back_by(buffer, 1),
            CommandType::MoveDown => Self::move_cursor_down_by(buffer, 1),
            CommandType::MoveUp => Self::move_cursor_up_by(buffer, 1),
            CommandType::MoveForward => Self::move_cursor_forward_by(buffer, 1),
            CommandType::SwitchToInsertLineEnd => Self::to_insert_move_end(buffer),
            CommandType::SwitchToInsertLineStart => Self::to_insert_move_start(buffer),
            CommandType::SwitchToInsertNewLineNext => Self::to_insert_new_line_next(buffer),
            CommandType::SwitchToInsertNewLinePrev => Self::to_insert_new_line_prev(buffer),
            CommandType::GoToStartLine => Self::move_cursor_to_line_start(buffer),
            CommandType::GoToEndLine => Self::move_cursor_to_line_end(buffer),
            CommandType::DeleteChar => Self::delete_char(buffer),
            CommandType::NewLine => Self::new_line(buffer),
        }
    }

    /// Puts `ch` into the text at the cursor, through a transaction.
    fn put_in(buffer: &mut Buffer, ch: char)
        requires
            old(buffer).wf(),
        ensures
            final(buffer)@ == put_in(old(buffer)@, ch),
            final(buffer).wf(),
    {
        let pos = buffer.as_byte_pos();
        let at = buffer.char_index(pos);
        let mut tx = Transaction::new();
        tx.insert_char(at, ch);
        proof {
            lemma_char_of_byte(buffer@.text, pos as nat);
            lemma_single_action(tx@[0], buffer@.text);
            assert(tx@ =~= seq![tx@[0]]);
        }
        buffer.edit(&tx);
    }

    fn insert_char(buffer: &mut Buffer, ch: char)
        requires
            old(buffer).wf(),
        ensures
            final(buffer)@ == typed(old(buffer)@, ch),
            final(buffer).wf(),
    {
        Self::put_in(buffer, ch);
        Self::move_cursor_forward_by(buffer, 1);
    }

    /// Moves the cursor forward by `offset` bytes, no further than its line
    /// admits.
    pub fn move_cursor_forward_by(buffer: &mut Buffer, offset: usize)
        requires
            old(buffer).wf(),
        ensures
            final(buffer)@ == move_forward(old(buffer)@, offset as nat),
            final(buffer).wf(),
    {
        let limit = buffer.max_offset(buffer.index());
        let cursor_offset = buffer.offset();
        let new_offset = if offset <= limit - cursor_offset {
            cursor_offset + offset
        } else {
            limit
        };
        buffer.set_offset(new_offset);
    }

    /// Moves the cursor back by `offset` bytes, no further than the start of
    /// its line.
    pub fn move_cursor_back_by(buffer: &mut Buffer, offset: usize)
        requires
            old(buffer).wf(),
        ensures
            final(buffer)@ == move_back(old(buffer)@, offset as nat),
            final(buffer).wf(),
    {
        let cursor_offset = buffer.offset();
        let new_offset = if cursor_offset >= offset {
            cursor_offset - offset
        } else {
            0
        };
        buffer.set_offset(new_offset);
    }

    /// Moves the cursor up by `offset` lines, no further than the first
    /// line, and holds its byte offset within the bounds of the new line.
    pub fn move_cursor_up_by(buffer: &mut Buffer, offset: usize)
        requires
            old(buffer).wf(),
        ensures
            final(buffer)@ == move_up(old(buffer)@, offset as nat),
            old(buffer)@.index == 0 ==> final(buffer)@.index == 0,
            final(buffer)@.offset == clamp_offset(
                old(buffer)@.text,
                final(buffer)@.index,
                old(buffer)@.offset,
            ),
            final(buffer).wf(),
    {
        let line_index = buffer.index();
        let new_line_index = if line_index >= offset {
            line_index - offset
        } else {
            0
        };
        let new_offset = Self::cursor_line_bounds(buffer, new_line_index, buffer.offset());
        buffer.set_pos((new_line_index, new_offset));
    }

    /// Moves the cursor down by `offset` lines, no further than the last
    /// line, and holds its byte offset within the bounds of the new line.
    pub fn move_cursor_down_by(buffer: &mut Buffer, offset: usize)
        requires
            old(buffer).wf(),
        ensures
            final(buffer)@ == move_down(old(buffer)@, offset as nat),
            old(buffer)@.index + 1 == line_count(old(buffer)@.text) ==> final(buffer)@.index
                == old(buffer)@.index,
            final(buffer)@.offset == clamp_offset(
                old(buffer)@.text,
                final(buffer)@.index,
                old(buffer)@.offset,
            ),
            final(buffer).wf(),
    {
        let line_index = buffer.index();
        let last = buffer.len_lines() - 1;
        let new_line_index = if offset <= last - line_index {
            line_index + offset
        } else {
            last
        };
        let new_offset = Self::cursor_line_bounds(buffer, new_line_index, buffer.offset());
        buffer.set_pos((new_line_index, new_offset));
    }

    /// The offset `offset` held within the bounds of line `index`.
    fn cursor_line_bounds(buffer: &Buffer, index: usize, offset: usize) -> (bounded: usize)
        requires
            index < line_count(buffer@.text),
        ensures
            bounded == clamp_offset(buffer@.text, index as nat, offset as nat),
            valid_cursor(buffer@.text, index as nat, bounded as nat),
    {
        let limit = buffer.max_offset(index);
        proof {
            lemma_line_start_order(buffer@.text, index as nat);
        }
        if offset > limit {
            limit
        } else {
            offset
        }
    }

    fn new_line(buffer: &mut Buffer)
        requires
            old(buffer).wf(),
        ensures
            final(buffer)@ == new_line(old(buffer)@),
            final(buffer).wf(),
    {
        let line_index = buffer.index();
        Self::put_in(buffer, '\n');
        let last = buffer.len_lines() - 1;
        let new_line_index = if line_index < last {
            line_index + 1
        } else {
            last
        };
        proof {
            lemma_clamp_valid(buffer@.text, line_index as nat + 1, 0);
        }
        buffer.set_pos((new_line_index, 0));
    }

    fn delete_char(buffer: &mut Buffer)
        requires
            old(buffer).wf(),
        ensures
            final(buffer)@ == delete_char(old(buffer)@),
            final(buffer).wf(),
    {
        let pos = buffer.as_byte_pos();
        if pos != 0 {
            proof {
                lemma_first_line(buffer@.text);
            }
            let (line_index, offset) = if buffer.offset() == 0 {
                let above = buffer.index() - 1;
                proof {
                    lemma_line_start_order(buffer@.text, above as nat);
                }
                (above, buffer.len_bytes(above))
            } else {
                buffer.pos()
            };
            let at = buffer.char_index(pos - 1);
            proof {
                lemma_char_of_byte(buffer@.text, (pos - 1) as nat);
            }
            let ch = buffer.char(at);
            let mut tx = Transaction::new();
            tx.delete_char(at, ch);
            proof {
                lemma_single_action(tx@[0], buffer@.text);
                assert(tx@ =~= seq![tx@[0]]);
            }
            buffer.edit(&tx);
            let last = buffer.len_lines() - 1;
            let new_line_index = if line_index < last {
                line_index
            } else {
                last
            };
            let new_offset = Self::cursor_line_bounds(buffer, new_line_index, offset - 1);
            buffer.set_pos((new_line_index, new_offset));
        }
    }

    fn move_cursor_to_line_start(buffer: &mut Buffer)
        requires
            old(buffer).wf(),
        ensures
            final(buffer)@ == old(buffer)@.at(old(buffer)@.index, 0),
            final(buffer).wf(),
    {
        proof {
            lemma_clamp_valid(buffer@.text, buffer@.index, 0);
        }
        buffer.set_offset(0);
    }

    fn move_cursor_to_line_end(buffer: &mut Buffer)
        requires
            old(buffer).wf(),
        ensures
            final(buffer)@ == line_end(old(buffer)@),
            final(buffer).wf(),
    {
        let new_offset = buffer.max_offset(buffer.index());
        buffer.set_offset(new_offset);
    }

    fn to_insert_move_end(buffer: &mut Buffer)
        requires
            old(buffer).wf(),
        ensures
            final(buffer)@ == in_mode(line_end(old(buffer)@), CursorMode::Insert),
            final(buffer).wf(),
    {
        Self::move_cursor_to_line_end(buffer);
        buffer.set_mode(CursorMode::Insert);
    }

    fn to_insert_move_start(buffer: &mut Buffer)
        requires
            old(buffer).wf(),
        ensures
            final(buffer)@ == in_mode(
                old(buffer)@.at(old(buffer)@.index, 0),
                CursorMode::Insert,
            ),
            final(buffer).wf(),
    {
        Self::move_cursor_to_line_start(buffer);
        buffer.set_mode(CursorMode::Insert);
    }

    fn to_insert_new_line_next(buffer: &mut Buffer)
        requires
            old(buffer).wf(),
        ensures
            final(buffer)@ == open_below(old(buffer)@),
            final(buffer).wf(),
    {
        Self::move_cursor_to_line_end(buffer);
        Self::new_line(buffer);
        buffer.set_mode(CursorMode::Insert);
    }

    fn to_insert_new_line_prev(buffer: &mut Buffer)
        requires
            old(buffer).wf(),
        ensures
            final(buffer)@ == open_above(old(buffer)@),
            final(buffer).wf(),
    {
        if buffer.index() == 0 {
            Self::move_cursor_to_line_start(buffer);
            Self::new_line(buffer);
            Self::move_cursor_up_by(buffer, 1);
        } else {
            Self::move_cursor_up_by(buffer, 1);
            Self::to_insert_new_line_next(buffer);
        }
        buffer.set_mode(CursorMode::Insert);
    }
}

/// A move down from the last line and a move up from the first leave the
/// cursor on its line, and after any move up or down the cursor is on a line
/// of the text, at an offset that the line admits.
pub proof fn lemma_motion_clamping(v: BufferView, n: nat)
    requires
        v.wf(),
    ensures
        v.index + 1 == line_count(v.text) ==> move_down(v, n).index == v.index,
        v.index == 0 ==> move_up(v, n).index == 0,
        move_down(v, n).wf(),
        move_up(v, n).wf(),
        move_up(v, n).offset == clamp_offset(v.text, move_up(v, n).index, v.offset),
{
    lemma_clamp_valid(v.text, v.index + n, v.offset);
    lemma_clamp_valid(v.text, move_up(v, n).index, v.offset);
}

/// Where the sequence of `first` and `second` is bound to `command`, the
/// first key carries nothing out and leaves a table pending;
/// from there the second key carries the command out and ends the sequence,
/// and a key that the pending table does not hold ends the sequence and
/// changes nothing.
pub proof fn lemma_two_key_sequence(
    keymap: Keymap,
    state: CommandView,
    v: BufferView,
    first: Input,
    second: Input,
    other: Input,
    command: CommandType,
)
    requires
        state.pending is None,
        keymap.resolve(seq![first, second]) == Some(KeymapNode::Leaf(command)),
    ensures
        step(state, first, v, keymap).1 == v,
        step(state, first, v, keymap).0.pending matches Some(KeymapNode::Node(table)) && (
        table.lookup(other) is None ==> step(
            step(state, first, v, keymap).0,
            other,
            v,
            keymap,
        ) == (state, v)),
        step(step(state, first, v, keymap).0, second, v, keymap) == (state, run(command, v)),
{
    let keys = seq![first, second];
    assert(keys.skip(1) =~= seq![second]);
    assert(keys[0] == first);
    assert(keys.skip(1)[0] == second);
    let node = keymap.lookup(first);
    assert(node is Some);
    match node {
        Some(KeymapNode::Node(table)) => {
            assert(table.resolve(keys.skip(1)) == table.lookup(second));
        },
        _ => {},
    }
}

impl<'a> Default for Command<'a> {
    fn default() -> (command: Self)
        ensures
            command@ == (CommandView { pending: None, should_exit: false }),
    {
        Command::new()
    }
}

} // verus!

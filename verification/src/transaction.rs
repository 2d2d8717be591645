//! The transaction engine: a coalescing log of edits that applies itself to
//! a rope and computes its own inverse.

use crate::chars::{reversed, string_of_char};
use crate::rope::{rope_clone, rope_insert, rope_len_chars, rope_remove, rope_text};
use crate::text::{cut, splice};
use ropey::Rope;
use vstd::prelude::*;
use vstd::string::*;

verus! {

/// A piece of text together with the character index that it belongs to.
#[derive(Debug)]
pub struct Change {
    pub content: String,
    pub pos: usize,
}

/// One recorded edit. The content of an `Insert` is in reading order; the
/// content of a `Delete` is in reverse order, the character deleted first
/// standing first.
#[derive(Debug)]
pub enum Action {
    Insert(Change),
    Delete(Change),
    Move(usize),
}

/// The mathematical value of an [`Action`].
pub enum ActionView {
    Insert { content: Seq<char>, pos: nat },
    Delete { content: Seq<char>, pos: nat },
    Move { pos: nat },
}

impl View for Action {
    type V = ActionView;

    open spec fn view(&self) -> ActionView {
        match self {
            Action::Insert(c) => ActionView::Insert { content: c.content@, pos: c.pos as nat },
            Action::Delete(c) => ActionView::Delete { content: c.content@, pos: c.pos as nat },
            Action::Move(pos) => ActionView::Move { pos: *pos as nat },
        }
    }
}

impl Action {
    /// The change of an insertion, to be changed in place.
    fn as_insert_mut(&mut self) -> (r: Option<&mut Change>)
        ensures
            match r {
                Some(c) => *old(self) is Insert && *c == (*old(self))->Insert_0 && *final(self)
                    == Action::Insert(*final(c)),
                None => !(*old(self) is Insert) && *final(self) == *old(self),
            },
    {
        match self {
            Self::Insert(change) => Some(change),
            _ => None,
        }
    }

    /// The change of a deletion, to be changed in place.
    fn as_delete_mut(&mut self) -> (r: Option<&mut Change>)
        ensures
            match r {
                Some(c) => *old(self) is Delete && *c == (*old(self))->Delete_0 && *final(self)
                    == Action::Delete(*final(c)),
                None => !(*old(self) is Delete) && *final(self) == *old(self),
            },
    {
        match self {
            Self::Delete(change) => Some(change),
            _ => None,
        }
    }

    /// The action that takes this one back.
    pub fn inverse(&self) -> (r: Action)
        ensures
            r@ == invert(self@),
    {
        match self {
            Self::Insert(change) => Self::Delete(
                Change { content: change.content.clone(), pos: change.pos },
            ),
            Self::Delete(change) => {
                let content = reversed(change.content.as_str());
                Self::Insert(Change { content, pos: change.pos })
            },
            Self::Move(pos) => Self::Move(*pos),
        }
    }
}

/// Whether two actions are of the same kind.
pub open spec fn same_kind(a: ActionView, b: ActionView) -> bool {
    (a is Insert && b is Insert) || (a is Delete && b is Delete) || (a is Move && b is Move)
}

/// Whether no two neighbours in `log` are of the same kind.
pub open spec fn coalesced(log: Seq<ActionView>) -> bool {
    forall|i: int| 0 <= i && i + 1 < log.len() ==> !same_kind(#[trigger] log[i], log[i + 1])
}

/// `log` after an insertion of `text` at `pos` is recorded: the last action
/// grows where it is an insertion, else a new one is appended.
pub open spec fn log_insert(log: Seq<ActionView>, pos: nat, text: Seq<char>) -> Seq<ActionView> {
    if log.len() > 0 && log.last() is Insert {
        log.drop_last().push(
            ActionView::Insert {
                content: log.last()->Insert_content + text,
                pos: log.last()->Insert_pos,
            },
        )
    } else {
        log.push(ActionView::Insert { content: text, pos })
    }
}

/// `log` after a deletion is recorded whose remaining text starts at `pos`
/// and whose characters, last deleted last, are `text`: the last action grows
/// and moves to `pos` where it is a deletion, else a new one is appended.
pub open spec fn log_delete(log: Seq<ActionView>, pos: nat, text: Seq<char>) -> Seq<ActionView> {
    if log.len() > 0 && log.last() is Delete {
        log.drop_last().push(
            ActionView::Delete { content: log.last()->Delete_content + text, pos },
        )
    } else {
        log.push(ActionView::Delete { content: text, pos })
    }
}

/// `log` after a cursor move to `pos` is recorded: a move that is last is
/// overwritten, else a new one is appended.
pub open spec fn log_shift(log: Seq<ActionView>, pos: nat) -> Seq<ActionView> {
    if log.len() > 0 && log.last() is Move {
        log.drop_last().push(ActionView::Move { pos })
    } else {
        log.push(ActionView::Move { pos })
    }
}

/// The action that takes back `a`: an insertion becomes a deletion with the
/// same content and position, a deletion becomes the insertion of its content
/// put back into reading order, a move stays as it is.
pub open spec fn invert(a: ActionView) -> ActionView {
    match a {
        ActionView::Insert { content, pos } => ActionView::Delete { content, pos },
        ActionView::Delete { content, pos } => ActionView::Insert {
            content: content.reverse(),
            pos,
        },
        ActionView::Move { pos } => ActionView::Move { pos },
    }
}

/// The inverse of `log`: its actions in reverse order, each inverted.
pub open spec fn log_inverse(log: Seq<ActionView>) -> Seq<ActionView> {
    Seq::new(log.len(), |i: int| invert(log[log.len() - 1 - i]))
}

/// `log` after the action `a` is replayed into it: the action is recorded
/// as it stands, content and position, and coalesces with the last action of
/// `log` as a newly recorded one would.
pub open spec fn log_replay(log: Seq<ActionView>, a: ActionView) -> Seq<ActionView> {
    match a {
        ActionView::Insert { content, pos } => log_insert(log, pos, content),
        ActionView::Delete { content, pos } => log_delete(log, pos, content),
        ActionView::Move { pos } => log_shift(log, pos),
    }
}

/// `log` after all the actions of `other` are replayed into it, in order.
pub open spec fn log_merge(log: Seq<ActionView>, other: Seq<ActionView>) -> Seq<ActionView>
    decreases other.len(),
{
    if other.len() == 0 {
        log
    } else {
        log_replay(log_merge(log, other.drop_last()), other.last())
    }
}

/// Whether `a` can be carried out on a text of `len` characters.
pub open spec fn fits(a: ActionView, len: nat) -> bool {
    match a {
        ActionView::Insert { content, pos } => pos <= len,
        ActionView::Delete { content, pos } => pos + content.len() <= len,
        ActionView::Move { pos } => true,
    }
}

/// The text `t` after `a` is carried out on it.
pub open spec fn act(a: ActionView, t: Seq<char>) -> Seq<char> {
    match a {
        ActionView::Insert { content, pos } => splice(t, pos as int, content),
        ActionView::Delete { content, pos } => cut(
            t,
            pos as int,
            (pos + content.len()) as int,
        ),
        ActionView::Move { pos } => t,
    }
}

/// The cursor position that `a` leaves behind.
pub open spec fn cursor_after(a: ActionView) -> nat {
    match a {
        ActionView::Insert { content, pos } => pos + content.len(),
        ActionView::Delete { content, pos } => pos,
        ActionView::Move { pos } => pos,
    }
}

/// The text `t` after the actions of `log` are carried out on it, in order.
pub open spec fn log_text(log: Seq<ActionView>, t: Seq<char>) -> Seq<char>
    decreases log.len(),
{
    if log.len() == 0 {
        t
    } else {
        act(log.last(), log_text(log.drop_last(), t))
    }
}

/// Whether every action of `log` can be carried out in its turn, starting
/// from the text `t`.
pub open spec fn log_fits(log: Seq<ActionView>, t: Seq<char>) -> bool
    decreases log.len(),
{
    log.len() == 0 || (log_fits(log.drop_last(), t) && fits(
        log.last(),
        log_text(log.drop_last(), t).len(),
    ))
}

/// The cursor position that `log` leaves behind: that of its last action.
pub open spec fn log_cursor(log: Seq<ActionView>) -> Option<nat> {
    if log.len() == 0 {
        None
    } else {
        Some(cursor_after(log.last()))
    }
}

/// Whether a deletion `a` holds, in reverse, the very characters that it
/// takes out of `t`. Other actions record nothing of the text.
pub open spec fn records(a: ActionView, t: Seq<char>) -> bool {
    match a {
        ActionView::Delete { content, pos } => content.reverse() == t.subrange(
            pos as int,
            (pos + content.len()) as int,
        ),
        _ => true,
    }
}

/// Whether every deletion of `log` records what it takes out in its turn,
/// starting from the text `t`.
pub open spec fn log_records(log: Seq<ActionView>, t: Seq<char>) -> bool
    decreases log.len(),
{
    log.len() == 0 || (log_records(log.drop_last(), t) && records(
        log.last(),
        log_text(log.drop_last(), t),
    ))
}

/// An undoable burst of edits: actions in the order in which they were
/// recorded, no two neighbours of the same kind.
#[derive(Debug)]
pub struct Transaction {
    changes: Vec<Action>,
}

impl View for Transaction {
    type V = Seq<ActionView>;

    closed spec fn view(&self) -> Seq<ActionView> {
        self.changes@.map_values(|a: Action| a@)
    }
}

impl Transaction {
    /// The invariant of a transaction: neighbours differ in kind.
    pub open spec fn wf(&self) -> bool {
        coalesced(self@)
    }

    /// A transaction that records nothing.
    pub fn new() -> (tx: Self)
        ensures
            tx@ == Seq::<ActionView>::empty(),
            tx.wf(),
    {
        let tx = Self { changes: Vec::new() };
        assert(tx@ =~= Seq::<ActionView>::empty());
        tx
    }

    /// The number of actions recorded.
    pub fn len(&self) -> (len: usize)
        ensures
            len == self@.len(),
    {
        self.changes.len()
    }

    /// The action at index `i`, if there is one.
    pub fn get(&self, i: usize) -> (action: Option<&Action>)
        ensures
            match action {
                Some(a) => i < self@.len() && a@ == self@[i as int],
                None => i >= self@.len(),
            },
    {
        if i < self.changes.len() {
            Some(&self.changes[i])
        } else {
            None
        }
    }

    /// The inverse of this transaction: its actions in reverse order, each
    /// inverted.
    pub fn inverse(&self) -> (tx: Self)
        ensures
            tx@ == log_inverse(self@),
            self.wf() ==> tx.wf(),
    {
        let mut changes: Vec<Action> = Vec::new();
        let n = self.changes.len();
        let mut i: usize = n;
        while i > 0
            invariant
                i <= n,
                n == self.changes.len(),
                changes.len() == n - i,
                forall|j: int|
                    0 <= j < changes.len() ==> (#[trigger] changes[j])@ == invert(
                        self.changes[n - 1 - j]@,
                    ),
            decreases i,
        {
            i = i - 1;
            changes.push(self.changes[i].inverse());
        }
        let tx = Self { changes };
        assert(tx@ =~= log_inverse(self@));
        tx
    }

    /// Replays the actions of `tx` into this transaction, in order. Each
    /// action is recorded as it stands and coalesces with the last action
    /// here as a newly recorded one would: an insertion extends an insertion,
    /// a deletion extends a deletion and moves it to its own position, a move
    /// overwrites a move.
    pub fn merge(&mut self, tx: Self)
        ensures
            final(self)@ == log_merge(old(self)@, tx@),
            old(self).wf() ==> final(self).wf(),
    {
        let n = tx.changes.len();
        let mut i: usize = 0;
        while i < n
            invariant
                i <= n,
                n == tx.changes.len(),
                self@ == log_merge(old(self)@, tx@.take(i as int)),
                old(self).wf() ==> self.wf(),
            decreases n - i,
        {
            assert(tx@.take(i + 1).drop_last() =~= tx@.take(i as int));
            assert(tx@.take(i + 1).last() == tx.changes[i as int]@);
            match &tx.changes[i] {
                Action::Insert(c) => self.insert_impl(c.pos, c.content.as_str()),
                Action::Delete(c) => self.delete_impl(c.pos, c.content.as_str()),
                Action::Move(pos) => self.shift(*pos),
            }
            i = i + 1;
        }
        assert(tx@.take(n as int) =~= tx@);
    }

    /// Carries the actions out on `text`, in order, and returns the cursor
    /// position that the last of them leaves behind. A transaction with an
    /// action that does not fit the text in its turn is not carried out at
    /// all.
    pub fn apply(&self, text: &mut Rope) -> (cursor: Option<usize>)
        ensures
            log_fits(self@, rope_text(*old(text))) ==> rope_text(*final(text)) == log_text(
                self@,
                rope_text(*old(text)),
            ) && match cursor {
                Some(pos) => log_cursor(self@) == Some(pos as nat),
                None => log_cursor(self@) is None,
            },
            !log_fits(self@, rope_text(*old(text))) ==> rope_text(*final(text)) == rope_text(
                *old(text),
            ) && cursor is None,
    {
        let saved = rope_clone(text);
        let ghost t0 = rope_text(*old(text));
        let mut last_pos: Option<usize> = None;
        let n = self.changes.len();
        let mut i: usize = 0;
        while i < n
            invariant
                i <= n,
                n == self.changes.len(),
                t0 == rope_text(*old(text)),
                rope_text(saved) == t0,
                log_fits(self@.take(i as int), t0),
                rope_text(*text) == log_text(self@.take(i as int), t0),
                match last_pos {
                    Some(pos) => log_cursor(self@.take(i as int)) == Some(pos as nat),
                    None => log_cursor(self@.take(i as int)) is None,
                },
            decreases n - i,
        {
            assert(self@.take(i + 1).drop_last() =~= self@.take(i as int));
            assert(self@.take(i + 1).last() == self.changes[i as int]@);
            let len = rope_len_chars(text);
            let fitting = match &self.changes[i] {
                Action::Insert(c) => {
                    if c.pos <= len {
                        rope_insert(text, c.pos, c.content.as_str());
                        let grown = rope_len_chars(text);
                        last_pos = Some(grown - (len - c.pos));
                        true
                    } else {
                        false
                    }
                },
                Action::Delete(c) => {
                    let count = c.content.as_str().unicode_len();
                    if c.pos <= len && count <= len - c.pos {
                        rope_remove(text, c.pos, c.pos + count);
                        last_pos = Some(c.pos);
                        true
                    } else {
                        false
                    }
                },
                Action::Move(pos) => {
                    last_pos = Some(*pos);
                    true
                },
            };
            if !fitting {
                proof {
                    if log_fits(self@, t0) {
                        lemma_fits_prefix(self@, t0, i + 1);
                    }
                }
                *text = saved;
                return None;
            }
            i = i + 1;
        }
        assert(self@.take(n as int) =~= self@);
        last_pos
    }

    /// Records a cursor move to `pos`.
    pub fn shift(&mut self, pos: usize)
        ensures
            final(self)@ == log_shift(old(self)@, pos as nat),
            old(self).wf() ==> final(self).wf(),
    {
        if let Some(Action::Move(p)) = self.changes.last_mut() {
            *p = pos;
        } else {
            self.changes.push(Action::Move(pos));
        }
        assert(self@ =~= log_shift(old(self)@, pos as nat));
    }
}

impl Transaction {
    /// Records the insertion of `ch` at `pos`.
    pub fn insert_char(&mut self, pos: usize, ch: char)
        ensures
            final(self)@ == log_insert(old(self)@, pos as nat, seq![ch]),
            old(self).wf() ==> final(self).wf(),
    {
        let piece = string_of_char(ch);
        self.insert_impl(pos, piece.as_str());
    }

    /// Records the insertion of `slice` at `pos`.
    pub fn insert_str(&mut self, pos: usize, slice: &str)
        ensures
            final(self)@ == log_insert(old(self)@, pos as nat, slice@),
            old(self).wf() ==> final(self).wf(),
    {
        self.insert_impl(pos, slice);
    }

    fn insert_impl(&mut self, pos: usize, piece: &str)
        ensures
            final(self)@ == log_insert(old(self)@, pos as nat, piece@),
            old(self).wf() ==> final(self).wf(),
    {
        let maybe_change = match self.changes.last_mut() {
            Some(action) => action.as_insert_mut(),
            None => None,
        };
        if let Some(change) = Self::merge_or_new(maybe_change, pos, piece) {
            self.changes.push(Action::Insert(change));
        }
        assert(self@ =~= log_insert(old(self)@, pos as nat, piece@));
    }

    /// Records the deletion of `ch`, the character that stood at `pos`.
    pub fn delete_char(&mut self, pos: usize, ch: char)
        ensures
            final(self)@ == log_delete(old(self)@, pos as nat, seq![ch]),
            old(self).wf() ==> final(self).wf(),
    {
        let piece = string_of_char(ch);
        self.delete_impl(pos, piece.as_str());
    }

    /// Records the deletion of `slice`, the text that ended at `pos`.
    pub fn delete_str(&mut self, pos: usize, slice: &str)
        ensures
            final(self)@ == log_delete(
                old(self)@,
                if pos >= slice@.len() {
                    (pos - slice@.len()) as nat
                } else {
                    0
                },
                slice@.reverse(),
            ),
            old(self).wf() ==> final(self).wf(),
    {
        let count = slice.unicode_len();
        let start = if pos >= count {
            pos - count
        } else {
            0
        };
        let piece = reversed(slice);
        self.delete_impl(start, piece.as_str());
    }

    fn delete_impl(&mut self, pos: usize, piece: &str)
        ensures
            final(self)@ == log_delete(old(self)@, pos as nat, piece@),
            old(self).wf() ==> final(self).wf(),
    {
        let maybe_change = match self.changes.last_mut() {
            Some(action) => match action.as_delete_mut() {
                Some(change) => {
                    change.pos = pos;
                    Some(change)
                },
                None => None,
            },
            None => None,
        };
        if let Some(change) = Self::merge_or_new(maybe_change, pos, piece) {
            self.changes.push(Action::Delete(change));
        }
        assert(self@ =~= log_delete(old(self)@, pos as nat, piece@));
    }

    /// Appends `piece` to the change that is there, or makes a new change
    /// of it at `pos` where there is none.
    fn merge_or_new(maybe_change: Option<&mut Change>, pos: usize, piece: &str) -> (r: Option<
        Change,
    >)
        ensures
            match maybe_change {
                Some(c) => r is None && final(c).content@ == c.content@ + piece@ && final(c).pos
                    == c.pos,
                None => r matches Some(n) && n.content@ == piece@ && n.pos == pos,
            },
    {
        match maybe_change {
            Some(change) => {
                change.content.append(piece);
                None
            },
            None => {
                let content = String::from_str(piece);
                Some(Change { content, pos })
            },
        }
    }
}

/// A transaction that fits a text fits it up to any of its actions.
pub proof fn lemma_fits_prefix(log: Seq<ActionView>, t: Seq<char>, k: int)
    requires
        0 <= k <= log.len(),
        log_fits(log, t),
    ensures
        log_fits(log.take(k), t),
    decreases log.len(),
{
    if k < log.len() {
        lemma_fits_prefix(log.drop_last(), t, k);
        assert(log.drop_last().take(k) =~= log.take(k));
    } else {
        assert(log.take(k) =~= log);
    }
}

/// Replaying a coalesced log into an empty one gives that log again.
pub proof fn lemma_merge_into_empty(other: Seq<ActionView>)
    requires
        coalesced(other),
    ensures
        log_merge(Seq::<ActionView>::empty(), other) == other,
    decreases other.len(),
{
    if other.len() > 0 {
        let init = other.drop_last();
        lemma_merge_into_empty(init);
        if init.len() > 0 {
            assert(!same_kind(other[init.len() - 1], other[init.len() as int]));
        }
        assert(log_replay(init, other.last()) =~= other);
    }
}

/// Replaying a coalesced log into a log whose last action differs in kind
/// from the first action replayed appends the one to the other.
pub proof fn lemma_merge_appends(log: Seq<ActionView>, other: Seq<ActionView>)
    requires
        coalesced(other),
        log.len() == 0 || other.len() == 0 || !same_kind(log.last(), other[0]),
    ensures
        log_merge(log, other) == log + other,
    decreases other.len(),
{
    if other.len() == 0 {
        assert(log + other =~= log);
    } else {
        let init = other.drop_last();
        lemma_merge_appends(log, init);
        if init.len() > 0 {
            assert(!same_kind(other[init.len() - 1], other[init.len() as int]));
            assert((log + init).last() == init.last());
        } else {
            assert(log + init =~= log);
        }
        assert(log_replay(log + init, other.last()) =~= log + other);
    }
}

/// A log of one action fits where the action fits, and does what the action
/// does.
pub proof fn lemma_single_action(a: ActionView, t: Seq<char>)
    ensures
        log_fits(seq![a], t) == fits(a, t.len()),
        log_text(seq![a], t) == act(a, t),
        log_records(seq![a], t) == records(a, t),
{
    let log = seq![a];
    assert(log.drop_last() =~= Seq::<ActionView>::empty());
    assert(log.last() == a);
    assert(log_text(log.drop_last(), t) == t);
    assert(log_fits(log.drop_last(), t));
    assert(log_records(log.drop_last(), t));
}

/// Carrying out two logs one after the other is carrying out their
/// concatenation.
pub proof fn lemma_log_concat(x: Seq<ActionView>, y: Seq<ActionView>, t: Seq<char>)
    ensures
        log_text(x + y, t) == log_text(y, log_text(x, t)),
        log_fits(x + y, t) == (log_fits(x, t) && log_fits(y, log_text(x, t))),
    decreases y.len(),
{
    if y.len() == 0 {
        assert(x + y =~= x);
    } else {
        lemma_log_concat(x, y.drop_last(), t);
        assert((x + y).drop_last() =~= x + y.drop_last());
        assert((x + y).last() == y.last());
    }
}

/// An action that fits a text and records what it deletes is taken back by
/// its inverse.
pub proof fn lemma_invert_restores(a: ActionView, t: Seq<char>)
    requires
        fits(a, t.len()),
        records(a, t),
    ensures
        fits(invert(a), act(a, t).len()),
        act(invert(a), act(a, t)) == t,
{
    match a {
        ActionView::Insert { content, pos } => {
            assert(act(invert(a), act(a, t)) =~= t);
        },
        ActionView::Delete { content, pos } => {
            assert(content.reverse().len() == content.len());
            assert(act(invert(a), act(a, t)) =~= t);
        },
        ActionView::Move { pos } => {},
    }
}

/// Where a transaction fits a text and each of its deletions records the
/// characters that it takes out, the inverse transaction fits the
/// resulting text, and carried out on it gives back the text from before,
/// character for character.
pub proof fn lemma_inverse_restores(log: Seq<ActionView>, t: Seq<char>)
    requires
        log_fits(log, t),
        log_records(log, t),
    ensures
        log_fits(log_inverse(log), log_text(log, t)),
        log_text(log_inverse(log), log_text(log, t)) == t,
    decreases log.len(),
{
    if log.len() == 0 {
        assert(log_inverse(log) =~= Seq::<ActionView>::empty());
    } else {
        let init = log.drop_last();
        let mid = log_text(init, t);
        let head = seq![invert(log.last())];
        lemma_inverse_restores(init, t);
        lemma_invert_restores(log.last(), mid);
        assert(log_inverse(log) =~= head + log_inverse(init));
        lemma_log_concat(head, log_inverse(init), log_text(log, t));
        assert(head.drop_last() =~= Seq::<ActionView>::empty());
        assert(head.last() == invert(log.last()));
        assert(log_text(head.drop_last(), log_text(log, t)) == log_text(log, t));
        assert(log_fits(head.drop_last(), log_text(log, t)));
        assert(log_text(head, log_text(log, t)) == mid);
        assert(log_fits(head, log_text(log, t)));
    }
}

impl Default for Transaction {
    fn default() -> (tx: Self)
        ensures
            tx@ == Seq::<ActionView>::empty(),
            tx.wf(),
    {
        Transaction::new()
    }
}

/// What becomes of a transaction: it is made part of the history, kept open
/// for further edits, or thrown away.
#[derive(Debug, Clone, Copy, PartialEq, Eq, Structural)]
pub enum TransactionResult {
    Commit,
    Keep,
    Abort,
}

} // verus!

//! The keymap trie: ordered key sequences bound to commands.

use crate::command::CommandType;
use crate::event::Input;
use vstd::prelude::*;

verus! {

/// What a key leads to: a command, or a further table of keys.
#[derive(Debug)]
pub enum KeymapNode {
    Leaf(CommandType),
    Node(Keymap),
}

/// A table from keys to nodes. Where a key stands twice, its first entry
/// counts.
#[derive(Debug)]
pub struct Keymap {
    entries: Vec<(Input, KeymapNode)>,
}

/// What a key sequence means in a keymap: it is bound to a command, or it
/// is the beginning of longer sequences.
pub enum Slot {
    Command(CommandType),
    Prefix,
}

/// The index of the first entry from `from` on whose key is `key`.
pub open spec fn first_entry(entries: Seq<(Input, KeymapNode)>, key: Input, from: int) -> Option<
    int,
>
    decreases entries.len() - from,
{
    if from < 0 || from >= entries.len() {
        None
    } else if entries[from].0 == key {
        Some(from)
    } else {
        first_entry(entries, key, from + 1)
    }
}

/// What the key sequence `p` means after `keys` is bound to `command`, where
/// it meant `before`: `keys` itself is the command; the sequences that
/// `keys` begins with are prefixes; what begins with `keys` and goes on means
/// nothing any more; all else is as before. Binding the empty sequence
/// changes nothing.
pub open spec fn rebound(
    before: Option<Slot>,
    p: Seq<Input>,
    keys: Seq<Input>,
    command: CommandType,
) -> Option<Slot> {
    if keys.len() == 0 {
        before
    } else if p == keys {
        Some(Slot::Command(command))
    } else if p.len() > 0 && p.is_prefix_of(keys) {
        Some(Slot::Prefix)
    } else if keys.is_prefix_of(p) {
        None
    } else {
        before
    }
}

impl Keymap {
    /// The entries of the table, in order.
    pub closed spec fn entries(&self) -> Seq<(Input, KeymapNode)> {
        self.entries@
    }

    /// The node that `key` leads to, if any.
    pub open spec fn lookup(&self, key: Input) -> Option<KeymapNode> {
        match first_entry(self.entries(), key, 0) {
            Some(i) => Some(self.entries()[i].1),
            None => None,
        }
    }

    /// The node that the key sequence `keys` leads to, if any: each key is
    /// looked up in the table that the keys before it led to.
    pub open spec fn resolve(&self, keys: Seq<Input>) -> Option<KeymapNode>
        decreases keys.len(),
    {
        if keys.len() == 0 {
            None
        } else {
            match self.lookup(keys[0]) {
                None => None,
                Some(node) => if keys.len() == 1 {
                    Some(node)
                } else {
                    match node {
                        KeymapNode::Leaf(_) => None,
                        KeymapNode::Node(sub) => sub.resolve(keys.skip(1)),
                    }
                },
            }
        }
    }

    /// What the key sequence `keys` means.
    pub open spec fn slot_at(&self, keys: Seq<Input>) -> Option<Slot> {
        match self.resolve(keys) {
            None => None,
            Some(KeymapNode::Leaf(command)) => Some(Slot::Command(command)),
            Some(KeymapNode::Node(_)) => Some(Slot::Prefix),
        }
    }

    /// A keymap that binds nothing.
    pub fn new() -> (keymap: Self)
        ensures
            keymap.entries() == Seq::<(Input, KeymapNode)>::empty(),
            forall|key: Input| keymap.lookup(key) is None,
    {
        Keymap { entries: Vec::new() }
    }

    /// The index of the first entry whose key is `key`.
    fn position(&self, key: Input) -> (found: Option<usize>)
        ensures
            match found {
                Some(i) => first_entry(self.entries(), key, 0) == Some(i as int) && i
                    < self.entries().len() && self.entries()[i as int].0 == key,
                None => first_entry(self.entries(), key, 0) is None,
            },
    {
        proof {
            lemma_first_entry_found(self.entries(), key, 0);
        }
        let mut i: usize = 0;
        while i < self.entries.len()
            invariant
                i <= self.entries.len(),
                first_entry(self.entries(), key, 0) == first_entry(self.entries(), key, i as int),
            decreases self.entries.len() - i,
        {
            if self.entries[i].0 == key {
                return Some(i);
            }
            i = i + 1;
        }
        None
    }

    /// The node that `key` leads to, if any.
    pub fn get(&self, key: Input) -> (node: Option<&KeymapNode>)
        ensures
            match node {
                Some(n) => self.lookup(key) == Some(*n),
                None => self.lookup(key) is None,
            },
    {
        match self.position(key) {
            Some(i) => Some(&self.entries[i].1),
            None => None,
        }
    }
}

impl Keymap {
    /// Binds the key sequence `keys` to `command`. A command that stood on
    /// the way becomes a table, and a table that stood at the end, with all
    /// below it, gives way to the command.
    pub fn bind(&mut self, keys: &[Input], command: CommandType)
        ensures
            forall|p: Seq<Input>|
                #[trigger] final(self).slot_at(p) == rebound(
                    old(self).slot_at(p),
                    p,
                    keys@,
                    command,
                ),
    {
        if keys.len() > 0 {
            assert(keys@.skip(0) =~= keys@);
            self.bind_from(keys, 0, command);
        }
    }

    /// Binds the key sequence `keys` to the command that the binding table
    /// calls `name`. Returns whether there is such a command; where there is
    /// none, nothing changes.
    pub fn bind_named(&mut self, name: &str, keys: &[Input]) -> (known: bool)
        ensures
            known == CommandType::named(name@) is Some,
            forall|p: Seq<Input>|
                #[trigger] final(self).slot_at(p) == match CommandType::named(name@) {
                    Some(command) => rebound(old(self).slot_at(p), p, keys@, command),
                    None => old(self).slot_at(p),
                },
    {
        match CommandType::from_name(name) {
            Some(command) => {
                self.bind(keys, command);
                true
            },
            None => false,
        }
    }

    fn bind_from(&mut self, keys: &[Input], from: usize, command: CommandType)
        requires
            from < keys@.len(),
        ensures
            forall|p: Seq<Input>|
                #[trigger] final(self).slot_at(p) == rebound(
                    old(self).slot_at(p),
                    p,
                    keys@.skip(from as int),
                    command,
                ),
        decreases keys@.len() - from,
    {
        let key = keys[from];
        let last = from + 1 == keys.len();
        let ghost ks = keys@.skip(from as int);
        let ghost before = *self;
        assert(ks.skip(1) =~= keys@.skip(from + 1));
        let found = self.position(key);
        let displaced = match found {
            Some(i) => Some(self.entries.remove(i).1),
            None => None,
        };
        let mut sub = match displaced {
            Some(KeymapNode::Node(sub)) => sub,
            _ => Keymap::new(),
        };
        let ghost sub_before = sub;
        let node = if last {
            KeymapNode::Leaf(command)
        } else {
            sub.bind_from(keys, from + 1, command);
            KeymapNode::Node(sub)
        };
        let ghost sub_after = if node is Node {
            node->Node_0
        } else {
            sub_before
        };
        match found {
            Some(i) => {
                self.entries.insert(i, (key, node));
                proof {
                    assert(self.entries() =~= before.entries().update(i as int, (key, node)));
                    assert forall|other: Input| other != key implies self.lookup(other)
                        == before.lookup(other) by {
                        lemma_first_entry_update(before.entries(), i as int, node, other, 0);
                        lemma_first_entry_found(before.entries(), other, 0);
                    }
                    lemma_first_entry_update(before.entries(), i as int, node, key, 0);
                }
            },
            None => {
                self.entries.push((key, node));
                proof {
                    assert forall|other: Input| other != key implies self.lookup(other)
                        == before.lookup(other) by {
                        lemma_first_entry_push(before.entries(), key, node, other, 0);
                        lemma_first_entry_found(before.entries(), other, 0);
                    }
                    lemma_first_entry_push(before.entries(), key, node, key, 0);
                }
            },
        }
        proof {
            lemma_rebind(before, *self, ks, command, sub_before, sub_after);
        }
    }
}

/// The first entry of a key holds that key, and no entry holds it where
/// there is no first.
pub proof fn lemma_first_entry_found(entries: Seq<(Input, KeymapNode)>, key: Input, from: int)
    requires
        0 <= from,
    ensures
        match first_entry(entries, key, from) {
            Some(j) => from <= j < entries.len() && entries[j].0 == key,
            None => forall|j: int| from <= j < entries.len() ==> entries[j].0 != key,
        },
    decreases entries.len() - from,
{
    if from < entries.len() {
        lemma_first_entry_found(entries, key, from + 1);
    }
}

/// Replacing the node of the first entry of a key changes what that key
/// leads to, and nothing else.
pub proof fn lemma_first_entry_update(
    entries: Seq<(Input, KeymapNode)>,
    i: int,
    node: KeymapNode,
    key: Input,
    from: int,
)
    requires
        0 <= i < entries.len(),
        0 <= from,
    ensures
        first_entry(entries.update(i, (entries[i].0, node)), key, from) == first_entry(
            entries,
            key,
            from,
        ),
    decreases entries.len() - from,
{
    if from < entries.len() {
        lemma_first_entry_update(entries, i, node, key, from + 1);
    }
}

/// Appending an entry for a key that had none changes what that key leads
/// to, and nothing else.
pub proof fn lemma_first_entry_push(
    entries: Seq<(Input, KeymapNode)>,
    added: Input,
    node: KeymapNode,
    key: Input,
    from: int,
)
    requires
        0 <= from,
    ensures
        first_entry(entries.push((added, node)), key, from) == match first_entry(
            entries,
            key,
            from,
        ) {
            Some(i) => Some(i),
            None => if key == added && from <= entries.len() {
                Some(entries.len() as int)
            } else {
                None
            },
        },
    decreases entries.len() - from,
{
    if from < entries.len() {
        lemma_first_entry_push(entries, added, node, key, from + 1);
    } else if from == entries.len() {
        assert(first_entry(entries.push((added, node)), key, from + 1) is None);
    }
}

/// How being a prefix, and being equal, go down to the tails of two
/// sequences that are not empty.
pub proof fn lemma_prefix_tail(p: Seq<Input>, keys: Seq<Input>)
    requires
        p.len() > 0,
        keys.len() > 0,
    ensures
        p.is_prefix_of(keys) <==> p[0] == keys[0] && p.skip(1).is_prefix_of(keys.skip(1)),
        p == keys <==> p[0] == keys[0] && p.skip(1) == keys.skip(1),
{
    if p[0] == keys[0] && p.skip(1).is_prefix_of(keys.skip(1)) {
        assert forall|j: int| 0 <= j < p.len() implies p[j] == keys.subrange(
            0,
            p.len() as int,
        )[j] by {
            if j > 0 {
                assert(p.skip(1)[j - 1] == keys.skip(1).subrange(0, p.len() - 1)[j - 1]);
            }
        }
        assert(p =~= keys.subrange(0, p.len() as int));
    }
    if p.is_prefix_of(keys) {
        assert(p[0] == keys.subrange(0, p.len() as int)[0]);
        assert(p.skip(1) =~= keys.skip(1).subrange(0, p.len() - 1)) by {
            assert forall|j: int| 0 <= j < p.len() - 1 implies p.skip(1)[j] == keys.skip(
                1,
            ).subrange(0, p.len() - 1)[j] by {
                assert(p[j + 1] == keys.subrange(0, p.len() as int)[j + 1]);
            }
        }
    }
    if p[0] == keys[0] && p.skip(1) == keys.skip(1) {
        assert forall|j: int| 0 <= j < p.len() implies p[j] == keys[j] by {
            if j > 0 {
                assert(p.skip(1)[j - 1] == keys.skip(1)[j - 1]);
            }
        }
        assert(p.len() == keys.len()) by {
            assert(p.skip(1).len() == keys.skip(1).len());
        }
        assert(p =~= keys);
    }
}

/// One step of binding: a keymap that differs from another only under the
/// first key of `keys`, and there as binding the rest of `keys` asks, means
/// what binding `keys` asks.
pub proof fn lemma_rebind(
    before: Keymap,
    after: Keymap,
    keys: Seq<Input>,
    command: CommandType,
    sub_before: Keymap,
    sub_after: Keymap,
)
    requires
        keys.len() > 0,
        forall|other: Input| other != keys[0] ==> after.lookup(other) == before.lookup(other),
        keys.len() == 1 ==> after.lookup(keys[0]) == Some(KeymapNode::Leaf(command)),
        keys.len() > 1 ==> after.lookup(keys[0]) == Some(KeymapNode::Node(sub_after)),
        keys.len() > 1 ==> forall|q: Seq<Input>|
            #[trigger] sub_after.slot_at(q) == rebound(
                sub_before.slot_at(q),
                q,
                keys.skip(1),
                command,
            ),
        keys.len() > 1 ==> match before.lookup(keys[0]) {
            Some(KeymapNode::Node(sub)) => sub_before == sub,
            _ => forall|key: Input| sub_before.lookup(key) is None,
        },
    ensures
        forall|p: Seq<Input>|
            #[trigger] after.slot_at(p) == rebound(before.slot_at(p), p, keys, command),
{
    assert forall|p: Seq<Input>|
        #[trigger] after.slot_at(p) == rebound(before.slot_at(p), p, keys, command) by {
        if p.len() == 0 {
        } else {
            lemma_prefix_tail(p, keys);
            lemma_prefix_tail(keys, p);
            if p[0] != keys[0] {
            } else if p.len() == 1 {
                assert(p.skip(1) =~= Seq::<Input>::empty());
                if keys.len() == 1 {
                    assert(keys.skip(1) =~= Seq::<Input>::empty());
                } else {
                }
            } else {
                let q = p.skip(1);
                if keys.len() == 1 {
                    assert(keys.skip(1) =~= Seq::<Input>::empty());
                } else {
                    assert(sub_after.slot_at(q) == rebound(
                        sub_before.slot_at(q),
                        q,
                        keys.skip(1),
                        command,
                    ));
                    match before.lookup(keys[0]) {
                        Some(KeymapNode::Node(sub)) => {},
                        _ => {
                            assert(sub_before.resolve(q) is None);
                        },
                    }
                }
            }
        }
    }
}

} // verus!

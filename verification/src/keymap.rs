//! Key chords: a trie from key sequences to commands, the state machine
//! that feeds it one key at a time, and the built-in keymaps.
use vstd::prelude::*;

use crate::command::Command;
use crate::text::chars_of;

verus! {

/// A key, as the terminal reports it.
#[derive(Debug, Clone, Copy, PartialEq, Eq, Hash, Structural)]
pub enum KeyCode {
    Backspace,
    Enter,
    Left,
    Right,
    Up,
    Down,
    Home,
    End,
    PageUp,
    PageDown,
    Tab,
    BackTab,
    Delete,
    Insert,
    F(u8),
    Char(char),
    Null,
    Esc,
    CapsLock,
    ScrollLock,
    NumLock,
    PrintScreen,
    Pause,
    Menu,
    KeypadBegin,
    /// A media or lone modifier key.
    Other,
}

/// A normalized key representation for the keymap trie.
#[derive(Debug, Clone, Copy, PartialEq, Eq, Hash, Structural)]
pub struct Key {
    pub code: KeyCode,
    pub ctrl: bool,
    pub alt: bool,
}

/// How a key code is shown on the mode line.
pub open spec fn code_display(code: KeyCode) -> Seq<char> {
    match code {
        KeyCode::Char(c) => seq![c],
        KeyCode::Enter => "RET"@,
        KeyCode::Tab => "TAB"@,
        KeyCode::BackTab => "S-TAB"@,
        KeyCode::Backspace => "DEL"@,
        KeyCode::Delete => "Delete"@,
        KeyCode::Left => "Left"@,
        KeyCode::Right => "Right"@,
        KeyCode::Up => "Up"@,
        KeyCode::Down => "Down"@,
        KeyCode::Home => "Home"@,
        KeyCode::End => "End"@,
        KeyCode::PageUp => "PgUp"@,
        KeyCode::PageDown => "PgDn"@,
        KeyCode::Esc => "ESC"@,
        _ => seq!['?'],
    }
}

/// How a key is shown on the mode line: `C-` for control, `M-` for alt,
/// then its code.
pub open spec fn key_display(k: Key) -> Seq<char> {
    (if k.ctrl {
        "C-"@
    } else {
        Seq::empty()
    }) + (if k.alt {
        "M-"@
    } else {
        Seq::empty()
    }) + code_display(k.code)
}

/// Appends the chars of `s` to `v`.
fn push_str(v: &mut Vec<char>, s: &str)
    ensures
        final(v)@ == old(v)@ + s@,
{
    let cs = chars_of(s);
    let mut i: usize = 0;
    while i < cs.len()
        invariant
            i <= cs@.len(),
            v@ == old(v)@ + cs@.take(i as int),
        decreases cs@.len() - i,
    {
        v.push(cs[i]);
        assert(cs@.take(i + 1) =~= cs@.take(i as int).push(cs@[i as int]));
        i += 1;
    }
    assert(cs@.take(cs@.len() as int) =~= cs@);
}

impl Key {
    /// The chars of the key's mode-line display, appended to `out`.
    pub(crate) fn display_into(&self, out: &mut Vec<char>)
        ensures
            final(out)@ == old(out)@ + key_display(*self),
    {
        let ghost start = out@;
        if self.ctrl {
            push_str(out, "C-");
        }
        let ghost after_ctrl = out@;
        if self.alt {
            push_str(out, "M-");
        }
        let ghost after_alt = out@;
        match self.code {
            KeyCode::Char(c) => out.push(c),
            KeyCode::Enter => push_str(out, "RET"),
            KeyCode::Tab => push_str(out, "TAB"),
            KeyCode::BackTab => push_str(out, "S-TAB"),
            KeyCode::Backspace => push_str(out, "DEL"),
            KeyCode::Delete => push_str(out, "Delete"),
            KeyCode::Left => push_str(out, "Left"),
            KeyCode::Right => push_str(out, "Right"),
            KeyCode::Up => push_str(out, "Up"),
            KeyCode::Down => push_str(out, "Down"),
            KeyCode::Home => push_str(out, "Home"),
            KeyCode::End => push_str(out, "End"),
            KeyCode::PageUp => push_str(out, "PgUp"),
            KeyCode::PageDown => push_str(out, "PgDn"),
            KeyCode::Esc => push_str(out, "ESC"),
            _ => out.push('?'),
        }
        assert(out@ =~= start + key_display(*self));
    }

    /// Human-readable display of the key for the mode line.
    pub fn display(&self) -> (s: String)
        ensures
            s@ == key_display(*self),
    {
        let mut v: Vec<char> = Vec::new();
        self.display_into(&mut v);
        assert(v@ =~= key_display(*self));
        crate::text::string_of(v.as_slice())
    }
}

/// A node in the keymap trie: the child node under each key, and the
/// command bound at this node.
#[derive(Debug)]
pub struct KeymapNode {
    pub children: Vec<(Key, KeymapNode)>,
    pub command: Option<Command>,
}

/// The index of the first child of `children` under `k`.
pub open spec fn first_index_of(children: Seq<(Key, KeymapNode)>, k: Key) -> Option<int> {
    if exists|i: int| 0 <= i < children.len() && children[i].0 == k && (forall|j: int| 0 <= j < i ==> children[j].0 != k) {
        Some(choose|i: int| 0 <= i < children.len() && children[i].0 == k && (forall|j: int| 0 <= j < i ==> children[j].0 != k))
    } else {
        None
    }
}

proof fn lemma_first_index(children: Seq<(Key, KeymapNode)>, k: Key, i: int)
    requires
        0 <= i < children.len(),
        children[i].0 == k,
        forall|j: int| 0 <= j < i ==> children[j].0 != k,
    ensures
        first_index_of(children, k) == Some(i),
{
    assert(exists|i: int| 0 <= i < children.len() && children[i].0 == k && (forall|j: int| 0 <= j < i ==> children[j].0 != k));
    let c = choose|i: int| 0 <= i < children.len() && children[i].0 == k && (forall|j: int| 0 <= j < i ==> children[j].0 != k);
    if c < i {
        assert(children[c].0 != k);
    } else if c > i {
        assert(children[i].0 != k);
    }
}

/// A key that occurs among the children has a first index.
proof fn lemma_some_first(children: Seq<(Key, KeymapNode)>, k: Key, j: int)
    requires
        0 <= j < children.len(),
        children[j].0 == k,
    ensures
        first_index_of(children, k) is Some,
    decreases j,
{
    if exists|q: int| 0 <= q < j && children[q].0 == k {
        let q = choose|q: int| 0 <= q < j && children[q].0 == k;
        lemma_some_first(children, k, q);
    } else {
        lemma_first_index(children, k, j);
    }
}

/// Replacing the child at the first index of `k`, or appending a child
/// under a `k` that had none, leaves the child under every other key as it
/// was.
proof fn lemma_other_children(
    before: Seq<(Key, KeymapNode)>,
    after: Seq<(Key, KeymapNode)>,
    k: Key,
    i: int,
    k2: Key,
)
    requires
        k2 != k,
        0 <= i <= before.len(),
        i < before.len() ==> first_index_of(before, k) == Some(i) && after == before.update(
            i,
            (k, after[i].1),
        ),
        i == before.len() ==> first_index_of(before, k) is None && after == before.push(
            (k, after[i].1),
        ),
    ensures
        match first_index_of(before, k2) {
            Some(j) => first_index_of(after, k2) == Some(j) && after[j].1 == before[j].1,
            None => first_index_of(after, k2) is None,
        },
{
    if i < before.len() {
        let c = choose|q: int| 0 <= q < before.len() && before[q].0 == k && (forall|j: int| 0 <= j < q ==> before[j].0 != k);
        assert(before[i].0 == k);
    }
    match first_index_of(before, k2) {
        Some(j) => {
            let c = choose|q: int| 0 <= q < before.len() && before[q].0 == k2 && (forall|m: int| 0 <= m < q ==> before[m].0 != k2);
            assert(before[j].0 == k2);
            assert(j != i);
            assert forall|m: int| 0 <= m < j implies after[m].0 != k2 by {
                if m != i {
                    assert(after[m] == before[m]);
                }
            }
            lemma_first_index(after, k2, j);
        },
        None => {
            if first_index_of(after, k2) is Some {
                let q = choose|q: int| 0 <= q < after.len() && after[q].0 == k2 && (forall|m: int| 0 <= m < q ==> after[m].0 != k2);
                assert(q != i);
                assert(after[q] == before[q]);
                lemma_some_first(before, k2, q);
            }
        },
    }
}

/// `p` is a prefix of `s`.
pub open spec fn is_prefix_seq(p: Seq<Key>, s: Seq<Key>) -> bool {
    p.len() <= s.len() && s.take(p.len() as int) == p
}

proof fn lemma_prefix_step(s: Seq<Key>, p: Seq<Key>)
    requires
        s.len() > 0,
        p.len() > 0,
        p[0] == s[0],
    ensures
        is_prefix_seq(p, s) <==> is_prefix_seq(p.drop_first(), s.drop_first()),
        p == s <==> p.drop_first() == s.drop_first(),
{
    if is_prefix_seq(p.drop_first(), s.drop_first()) {
        assert forall|j: int| 0 <= j < p.len() implies s.take(p.len() as int)[j] == p[j] by {
            if j > 0 {
                assert(s.drop_first().take(p.drop_first().len() as int)[j - 1] == p.drop_first()[j
                    - 1]);
            }
        }
        assert(s.take(p.len() as int) =~= p);
    }
    if is_prefix_seq(p, s) {
        assert forall|j: int| 0 <= j < p.len() - 1 implies s.drop_first().take(
            p.drop_first().len() as int,
        )[j] == p.drop_first()[j] by {
            assert(s.take(p.len() as int)[j + 1] == p[j + 1]);
        }
        assert(s.drop_first().take(p.drop_first().len() as int) =~= p.drop_first());
    }
    if p.drop_first() == s.drop_first() {
        assert forall|j: int| 0 <= j < p.len() implies p[j] == s[j] by {
            if j > 0 {
                assert(p.drop_first()[j - 1] == s.drop_first()[j - 1]);
            }
        }
        assert(p =~= s);
    }
}

/// A fresh node has no node but itself, no command, and no continuation.
proof fn lemma_fresh_node(n: KeymapNode, ks: Seq<Key>)
    requires
        n.children@.len() == 0,
        n.command is None,
    ensures
        n.node_at(ks) is Some <==> ks.len() == 0,
        n.command_at(ks) is None,
        !n.continues_at(ks),
{
    if ks.len() > 0 {
        assert(n.child(ks[0]) is None);
    }
}

impl KeymapNode {
    /// The child under `k`.
    pub open spec fn child(self, k: Key) -> Option<KeymapNode> {
        match first_index_of(self.children@, k) {
            Some(i) => Some(self.children@[i].1),
            None => None,
        }
    }

    /// The node reached from this one by following `keys`.
    pub open spec fn node_at(self, keys: Seq<Key>) -> Option<KeymapNode>
        decreases keys.len(),
    {
        if keys.len() == 0 {
            Some(self)
        } else {
            match self.child(keys[0]) {
                Some(c) => c.node_at(keys.drop_first()),
                None => None,
            }
        }
    }

    /// The command bound to `keys`.
    pub open spec fn command_at(self, keys: Seq<Key>) -> Option<Command> {
        match self.node_at(keys) {
            Some(n) => n.command,
            None => None,
        }
    }

    /// Whether some longer sequence goes on from `keys`.
    pub open spec fn continues_at(self, keys: Seq<Key>) -> bool {
        match self.node_at(keys) {
            Some(n) => n.children@.len() > 0,
            None => false,
        }
    }

    pub fn new() -> (n: Self)
        ensures
            n.children@.len() == 0,
            n.command is None,
    {
        Self { children: Vec::new(), command: None }
    }

    /// Bind a key sequence to a command.
    pub fn bind(&mut self, keys: &[Key], command: Command)
        ensures
            forall|ks: Seq<Key>| #[trigger]
                final(self).node_at(ks) is Some <==> (old(self).node_at(ks) is Some
                    || is_prefix_seq(ks, keys@)),
            forall|ks: Seq<Key>| #[trigger]
                final(self).command_at(ks) == if ks == keys@ {
                    Some(command)
                } else {
                    old(self).command_at(ks)
                },
            forall|ks: Seq<Key>| #[trigger]
                final(self).continues_at(ks) == (old(self).continues_at(ks) || (is_prefix_seq(
                    ks,
                    keys@,
                ) && ks.len() < keys@.len())),
    {
        assert(keys@.skip(0) =~= keys@);
        self.bind_from(keys, 0, command);
    }

    /// Bind the keys of `keys` from index `from` on to a command.
    fn bind_from(&mut self, keys: &[Key], from: usize, command: Command)
        requires
            from <= keys@.len(),
        ensures
            forall|ks: Seq<Key>| #[trigger]
                final(self).node_at(ks) is Some <==> (old(self).node_at(ks) is Some
                    || is_prefix_seq(ks, keys@.skip(from as int))),
            forall|ks: Seq<Key>| #[trigger]
                final(self).command_at(ks) == if ks == keys@.skip(from as int) {
                    Some(command)
                } else {
                    old(self).command_at(ks)
                },
            forall|ks: Seq<Key>| #[trigger]
                final(self).continues_at(ks) == (old(self).continues_at(ks) || (is_prefix_seq(
                    ks,
                    keys@.skip(from as int),
                ) && ks.len() < keys@.skip(from as int).len())),
        decreases keys@.len() - from,
    {
        let ghost all = keys@.skip(from as int);
        if from == keys.len() {
            self.command = Some(command);
            proof {
                assert(all.len() == 0);
                assert forall|ks: Seq<Key>|
                #![trigger self.node_at(ks)]
                #![trigger self.command_at(ks)]
                #![trigger self.continues_at(ks)]
                true implies ({
                    &&& (self.node_at(ks) is Some <==> (old(self).node_at(ks) is Some
                        || is_prefix_seq(ks, all)))
                    &&& self.command_at(ks) == if ks == all {
                        Some(command)
                    } else {
                        old(self).command_at(ks)
                    }
                    &&& self.continues_at(ks) == (old(self).continues_at(ks) || (
                    is_prefix_seq(ks, all) && ks.len() < all.len()))
                }) by {
                    if ks.len() > 0 {
                        assert(self.child(ks[0]) == old(self).child(ks[0]));
                    } else {
                        assert(ks =~= all);
                    }
                }
            }
            return ;
        }
        let k = keys[from];
        assert(all[0] == k);
        // Find the child under k, or append a fresh one.
        let mut i: usize = 0;
        while i < self.children.len() && self.children[i].0 != k
            invariant
                i <= self.children@.len(),
                forall|j: int| 0 <= j < i ==> self.children@[j].0 != k,
            decreases self.children@.len() - i,
        {
            i += 1;
        }
        if i == self.children.len() {
            let fresh = KeymapNode::new();
            self.children.push((k, fresh));
        }
        assert(i < old(self).children@.len() ==> self.children@ == old(self).children@);
        assert(i == old(self).children@.len() ==> self.children@[i as int].1.children@.len() == 0
            && self.children@[i as int].1.command is None);
        let ghost mid = *self;
        proof {
            lemma_first_index(mid.children@, k, i as int);
        }
        let (key, mut child) = self.children.remove(i);
        let ghost old_child = child;
        child.bind_from(keys, from + 1, command);
        self.children.insert(i, (key, child));
        proof {
            let rest = keys@.skip(from + 1);
            assert(all.drop_first() =~= rest);
            assert(self.children@ =~= mid.children@.update(i as int, (k, child)));
            lemma_first_index(self.children@, k, i as int);
            assert(self.child(k) == Some(child));
            let had_child = old(self).child(k) is Some;
            if had_child {
                assert(old(self).children@ == mid.children@);
                assert(old(self).child(k) == Some(old_child));
            } else {
                if i < old(self).children@.len() {
                    lemma_some_first(old(self).children@, k, i as int);
                }
                assert(mid.children@ =~= old(self).children@.push((k, old_child)));
                assert(old_child.children@.len() == 0 && old_child.command is None);
            }
            assert forall|k2: Key| k2 != k implies #[trigger] self.child(k2) == old(self).child(
                k2,
            ) by {
                if !had_child {
                    assert(self.children@ =~= old(self).children@.push((k, child)));
                }
                lemma_other_children(old(self).children@, self.children@, k, i as int, k2);
            }
            assert forall|ks: Seq<Key>|
                #![trigger self.node_at(ks)]
                #![trigger self.command_at(ks)]
                #![trigger self.continues_at(ks)]
                true implies ({
                &&& (self.node_at(ks) is Some <==> (old(self).node_at(ks) is Some
                    || is_prefix_seq(ks, all)))
                &&& self.command_at(ks) == if ks == all {
                    Some(command)
                } else {
                    old(self).command_at(ks)
                }
                &&& self.continues_at(ks) == (old(self).continues_at(ks) || (is_prefix_seq(
                    ks,
                    all,
                ) && ks.len() < all.len()))
            }) by {
                if ks.len() > 0 {
                    let r = ks.drop_first();
                    if ks[0] == k {
                        if !had_child {
                            lemma_fresh_node(old_child, r);
                            assert(old(self).node_at(ks) is None);
                        } else {
                            assert(old(self).node_at(ks) == old_child.node_at(r));
                        }
                        assert(self.node_at(ks) == child.node_at(r));
                        assert(child.node_at(r) is Some <==> (old_child.node_at(r) is Some
                            || is_prefix_seq(r, rest)));
                        assert(child.command_at(r) == if r == rest {
                            Some(command)
                        } else {
                            old_child.command_at(r)
                        });
                        assert(child.continues_at(r) == (old_child.continues_at(r) || (
                        is_prefix_seq(r, rest) && r.len() < rest.len())));
                        lemma_prefix_step(all, ks);
                        if r.len() == 0 {
                            assert(rest.take(0) =~= r);
                        }
                    } else {
                        assert(self.child(ks[0]) == old(self).child(ks[0]));
                        if is_prefix_seq(ks, all) {
                            assert(all.take(ks.len() as int)[0] == all[0]);
                        }
                        assert(ks != all);
                    }
                } else {
                    assert(all.take(0) =~= ks);
                    assert(self.children@.len() > 0);
                    assert(ks != all);
                }
            }
        }
    }

    /// Look up a key in this node's children.
    pub fn get(&self, key: &Key) -> (res: Option<&KeymapNode>)
        ensures
            match res {
                Some(n) => self.child(*key) == Some(*n),
                None => self.child(*key) is None,
            },
    {
        let mut i: usize = 0;
        while i < self.children.len()
            invariant
                i <= self.children@.len(),
                forall|j: int| 0 <= j < i ==> self.children@[j].0 != *key,
            decreases self.children@.len() - i,
        {
            if self.children[i].0 == *key {
                proof {
                    lemma_first_index(self.children@, *key, i as int);
                }
                return Some(&self.children[i].1);
            }
            i += 1;
        }
        None
    }
}


/// Result of processing a key through the keymap.
#[derive(Debug)]
pub enum KeymapResult {
    /// A command was matched.
    Matched(Command),
    /// Partial match — waiting for more keys.
    Pending,
    /// No match found.
    NotFound,
}

/// The text of pending keys on the mode line: each key's display followed
/// by a space.
pub open spec fn keys_text(keys: Seq<Key>) -> Seq<char>
    decreases keys.len(),
{
    if keys.len() == 0 {
        Seq::empty()
    } else {
        keys_text(keys.drop_last()) + key_display(keys.last()) + seq![' ']
    }
}

/// State machine for multi-key chord processing.
pub struct KeymapState {
    pending_keys: Vec<Key>,
    keymap: KeymapNode,  // root of trie
}

impl KeymapState {
    /// The keys typed so far of an unfinished chord.
    pub closed spec fn pending(&self) -> Seq<Key> {
        self.pending_keys@
    }

    /// The root of the keymap in use.
    pub closed spec fn root(&self) -> KeymapNode {
        self.keymap
    }

    pub fn new(keymap: KeymapNode) -> (st: Self)
        ensures
            st.pending().len() == 0,
            st.root() == keymap,
    {
        Self { pending_keys: Vec::new(), keymap }
    }

    /// Process a key and return the result: the pending keys followed by
    /// `key` lead to a bound command (which is returned), to a node with
    /// continuations (the chord stays pending), or nowhere (not found); the
    /// pending keys are cleared unless the chord stays pending.
    pub fn process_key(&mut self, key: Key) -> (res: KeymapResult)
        ensures
            final(self).root() == old(self).root(),
            ({
                let p = old(self).pending().push(key);
                match old(self).root().node_at(p) {
                    None => res is NotFound && final(self).pending().len() == 0,
                    Some(n) => match n.command {
                        Some(c) => res == KeymapResult::Matched(c) && final(self).pending().len()
                            == 0,
                        None => if n.children@.len() > 0 {
                            res is Pending && final(self).pending() == p
                        } else {
                            res is NotFound && final(self).pending().len() == 0
                        },
                    },
                }
            }),
    {
        self.pending_keys.push(key);
        match walk(&self.keymap, &self.pending_keys) {
            None => {
                self.pending_keys.clear();
                KeymapResult::NotFound
            },
            Some((command, continues)) => {
                match command {
                    // If we reached a node with a command, return it
                    Some(cmd) => {
                        self.pending_keys.clear();
                        KeymapResult::Matched(cmd)
                    },
                    None => {
                        // If the node has children, we're pending
                        if continues {
                            KeymapResult::Pending
                        } else {
                            // Dead end
                            self.pending_keys.clear();
                            KeymapResult::NotFound
                        }
                    },
                }
            },
        }
    }

    /// Get the display string for currently pending keys.
    pub fn pending_display(&self) -> (s: String)
        ensures
            s@ == keys_text(self.pending()),
    {
        let mut v: Vec<char> = Vec::new();
        let mut i: usize = 0;
        while i < self.pending_keys.len()
            invariant
                i <= self.pending_keys@.len(),
                v@ == keys_text(self.pending_keys@.take(i as int)),
            decreases self.pending_keys@.len() - i,
        {
            self.pending_keys[i].display_into(&mut v);
            v.push(' ');
            assert(self.pending_keys@.take(i + 1).drop_last() =~= self.pending_keys@.take(
                i as int,
            ));
            i += 1;
        }
        assert(self.pending_keys@.take(self.pending_keys@.len() as int) =~= self.pending_keys@);
        crate::text::string_of(v.as_slice())
    }

    /// Clear pending keys (used by C-g cancel).
    pub fn clear(&mut self)
        ensures
            final(self).pending().len() == 0,
            final(self).root() == old(self).root(),
    {
        self.pending_keys.clear();
    }

    /// Whether we have pending keys.
    pub fn has_pending(&self) -> (b: bool)
        ensures
            b == (self.pending().len() > 0),
    {
        self.pending_keys.len() > 0
    }

    /// Replace the keymap (used for vim mode switching).
    pub fn set_keymap(&mut self, keymap: KeymapNode)
        ensures
            final(self).pending().len() == 0,
            final(self).root() == keymap,
    {
        self.keymap = keymap;
        self.pending_keys.clear();
    }
}

/// Walk the trie from `root` along `keys`: the command at the node reached
/// and whether it has children, or `None` when the walk falls off the trie.
fn walk(root: &KeymapNode, keys: &Vec<Key>) -> (res: Option<(Option<Command>, bool)>)
    ensures
        match root.node_at(keys@) {
            None => res is None,
            Some(n) => res == Some((n.command, n.children@.len() > 0)),
        },
{
    let ghost p = keys@;
    let mut node = root;
    let mut i: usize = 0;
    assert(p.take(0) =~= Seq::<Key>::empty());
    while i < keys.len()
        invariant
            p == keys@,
            i <= p.len(),
            root.node_at(p.take(i as int)) == Some(*node),
        decreases p.len() - i,
    {
        proof {
            lemma_node_at_push(*root, p.take(i as int), p[i as int]);
            assert(p.take(i + 1) =~= p.take(i as int).push(p[i as int]));
        }
        match node.get(&keys[i]) {
            Some(child) => node = child,
            None => {
                proof {
                    lemma_node_at_missing(*root, p, i as int);
                }
                return None;
            },
        }
        i += 1;
    }
    assert(p.take(p.len() as int) =~= p);
    Some((node.command, node.children.len() > 0))
}

proof fn lemma_node_at_push(root: KeymapNode, ks: Seq<Key>, k: Key)
    ensures
        root.node_at(ks.push(k)) == match root.node_at(ks) {
            Some(n) => n.child(k),
            None => None,
        },
    decreases ks.len(),
{
    if ks.len() == 0 {
        assert(ks.push(k).drop_first() =~= ks);
        match root.child(k) {
            Some(c) => assert(c.node_at(ks) == Some(c)),
            None => {},
        }
    } else {
        assert(ks.push(k)[0] == ks[0]);
        assert(ks.push(k).drop_first() =~= ks.drop_first().push(k));
        match root.child(ks[0]) {
            Some(c) => lemma_node_at_push(c, ks.drop_first(), k),
            None => {},
        }
    }
}

proof fn lemma_node_at_extend(root: KeymapNode, ks: Seq<Key>, j: int)
    requires
        0 <= j <= ks.len(),
        root.node_at(ks.take(j)) is None,
    ensures
        root.node_at(ks) is None,
    decreases ks.len() - j,
{
    if j < ks.len() {
        lemma_node_at_push(root, ks.take(j), ks[j]);
        assert(ks.take(j + 1) =~= ks.take(j).push(ks[j]));
        lemma_node_at_extend(root, ks, j + 1);
    } else {
        assert(ks.take(j) =~= ks);
    }
}

proof fn lemma_node_at_missing(root: KeymapNode, p: Seq<Key>, i: int)
    requires
        0 <= i < p.len(),
        root.node_at(p.take(i)) matches Some(n) && n.child(p[i]) is None,
    ensures
        root.node_at(p) is None,
{
    lemma_node_at_push(root, p.take(i), p[i]);
    assert(p.take(i + 1) =~= p.take(i).push(p[i]));
    lemma_node_at_extend(root, p, i + 1);
}

/// The node at every prefix of a sequence that reaches a node exists, and
/// a node that has a node under it has children.
proof fn lemma_prefix_nodes(root: KeymapNode, keys: Seq<Key>, j: int)
    requires
        root.node_at(keys) is Some,
        0 <= j < keys.len(),
    ensures
        root.node_at(keys.take(j)) matches Some(n) && n.children@.len() > 0,
    decreases keys.len() - j,
{
    lemma_node_at_push(root, keys.take(j), keys[j]);
    assert(keys.take(j + 1) =~= keys.take(j).push(keys[j]));
    if j + 1 < keys.len() {
        lemma_prefix_nodes(root, keys, j + 1);
    } else {
        assert(keys.take(j + 1) =~= keys);
    }
    if root.node_at(keys.take(j)) is None {
        lemma_node_at_extend(root, keys, j);
    }
    let n = root.node_at(keys.take(j))->0;
    assert(n.child(keys[j]) is Some);
    let i = first_index_of(n.children@, keys[j])->0;
}

/// A chord bound to a command, none of whose proper prefixes is bound, is
/// pending after each of its proper prefixes (the node there has no command
/// and has children) and matches its command at its end: feeding it to
/// [`KeymapState::process_key`] from an empty state yields `Pending` until
/// the last key, which yields `Matched`.
pub proof fn lemma_bound_chord_dispatch(root: KeymapNode, keys: Seq<Key>, c: Command)
    requires
        root.command_at(keys) == Some(c),
        forall|j: int| 0 < j < keys.len() ==> (#[trigger] root.command_at(keys.take(j))) is None,
    ensures
        forall|j: int|
            0 < j < keys.len() ==> ((#[trigger] root.node_at(keys.take(j))) matches Some(n)
                && n.command is None && n.children@.len() > 0),
        root.node_at(keys) matches Some(n) && n.command == Some(c),
{
    assert forall|j: int| 0 < j < keys.len() implies ((#[trigger] root.node_at(keys.take(j))) matches Some(
        n,
    ) && n.command is None && n.children@.len() > 0) by {
        lemma_prefix_nodes(root, keys, j);
        assert(root.command_at(keys.take(j)) is None);
    }
}

/// The command bound last to exactly `ks` by `table`.
pub open spec fn bound_command(table: Seq<(Seq<Key>, Command)>, ks: Seq<Key>) -> Option<Command>
    decreases table.len(),
{
    if table.len() == 0 {
        None
    } else if table.last().0 == ks {
        Some(table.last().1)
    } else {
        bound_command(table.drop_last(), ks)
    }
}

/// `root` is the trie that binding each entry of `table` in turn makes
/// from an empty node: its nodes are the prefixes of the bound sequences,
/// each sequence holds the command bound to it last, and a node continues
/// exactly when it is a proper prefix of a bound sequence.
pub open spec fn keymap_of(root: KeymapNode, table: Seq<(Seq<Key>, Command)>) -> bool {
    &&& forall|ks: Seq<Key>| #[trigger]
        root.node_at(ks) is Some <==> (ks.len() == 0 || exists|j: int|
            0 <= j < table.len() && is_prefix_seq(ks, #[trigger] table[j].0))
    &&& forall|ks: Seq<Key>| #[trigger] root.command_at(ks) == bound_command(table, ks)
    &&& forall|ks: Seq<Key>| #[trigger]
        root.continues_at(ks) <==> exists|j: int|
            0 <= j < table.len() && is_prefix_seq(ks, #[trigger] table[j].0) && ks.len()
                < table[j].0.len()
}

/// The key sequence and command of each binding.
pub open spec fn binding_views(t: Seq<(Vec<Key>, Command)>) -> Seq<(Seq<Key>, Command)> {
    t.map_values(|b: (Vec<Key>, Command)| (b.0@, b.1))
}

/// The keymap that binds each entry of `bindings` in turn.
pub fn keymap_from_bindings(bindings: &Vec<(Vec<Key>, Command)>) -> (root: KeymapNode)
    ensures
        keymap_of(root, binding_views(bindings@)),
{
    let ghost table = binding_views(bindings@);
    let mut root = KeymapNode::new();
    proof {
        assert forall|ks: Seq<Key>| #[trigger] root.node_at(ks) is Some <==> ks.len() == 0 by {
            lemma_fresh_node(root, ks);
        }
        assert forall|ks: Seq<Key>| #[trigger] root.command_at(ks) is None by {
            lemma_fresh_node(root, ks);
        }
        assert forall|ks: Seq<Key>| !#[trigger] root.continues_at(ks) by {
            lemma_fresh_node(root, ks);
        }
        assert(table.take(0) =~= Seq::<(Seq<Key>, Command)>::empty());
    }
    let mut i: usize = 0;
    while i < bindings.len()
        invariant
            table == binding_views(bindings@),
            i <= bindings@.len(),
            keymap_of(root, table.take(i as int)),
        decreases bindings@.len() - i,
    {
        let ghost before = root;
        let ghost t0 = table.take(i as int);
        let ghost t1 = table.take(i + 1);
        let ghost entry = table[i as int];
        root.bind(bindings[i].0.as_slice(), bindings[i].1);
        proof {
            assert(t1.drop_last() =~= t0);
            assert(t1.last() == entry);
            assert forall|j: int| 0 <= j < t0.len() implies #[trigger] t1[j] == t0[j] by {}
            assert forall|ks: Seq<Key>| #[trigger]
                root.node_at(ks) is Some <==> (ks.len() == 0 || exists|j: int|
                    0 <= j < t1.len() && is_prefix_seq(ks, #[trigger] t1[j].0)) by {
                if is_prefix_seq(ks, entry.0) {
                    assert(t1[i as int] == entry);
                }
                if exists|j: int| 0 <= j < t1.len() && is_prefix_seq(ks, #[trigger] t1[j].0) {
                    let j = choose|j: int| 0 <= j < t1.len() && is_prefix_seq(ks, #[trigger] t1[j].0);
                    if j < i {
                        assert(t0[j] == t1[j]);
                    }
                }
            }
            assert forall|ks: Seq<Key>| #[trigger] root.command_at(ks) == bound_command(t1, ks) by {}
            assert forall|ks: Seq<Key>| #[trigger]
                root.continues_at(ks) <==> exists|j: int|
                    0 <= j < t1.len() && is_prefix_seq(ks, #[trigger] t1[j].0) && ks.len()
                        < t1[j].0.len() by {
                if is_prefix_seq(ks, entry.0) && ks.len() < entry.0.len() {
                    assert(t1[i as int] == entry);
                }
                if exists|j: int| 0 <= j < t1.len() && is_prefix_seq(ks, #[trigger] t1[j].0) && ks.len() < t1[j].0.len() {
                    let j = choose|j: int| 0 <= j < t1.len() && is_prefix_seq(ks, #[trigger] t1[j].0) && ks.len() < t1[j].0.len();
                    if j < i {
                        assert(t0[j] == t1[j]);
                    }
                }
            }
        }
        i += 1;
    }
    assert(table.take(bindings@.len() as int) =~= table);
    root
}

/// A letter key with control.
pub open spec fn ctrl_key(c: char) -> Key {
    Key { code: KeyCode::Char(c), ctrl: true, alt: false }
}

/// A letter key with alt.
pub open spec fn alt_char_key(c: char) -> Key {
    Key { code: KeyCode::Char(c), ctrl: false, alt: true }
}

/// A key with alt.
pub open spec fn alt_code_key(code: KeyCode) -> Key {
    Key { code, ctrl: false, alt: true }
}

/// A key without modifiers.
pub open spec fn plain_key(code: KeyCode) -> Key {
    Key { code, ctrl: false, alt: false }
}

// Helper constructors for keys
fn ctrl(c: char) -> (k: Key)
    ensures
        k == ctrl_key(c),
{
    Key { code: KeyCode::Char(c), ctrl: true, alt: false }
}

fn alt(c: char) -> (k: Key)
    ensures
        k == alt_char_key(c),
{
    Key { code: KeyCode::Char(c), ctrl: false, alt: true }
}

fn alt_key(code: KeyCode) -> (k: Key)
    ensures
        k == alt_code_key(code),
{
    Key { code, ctrl: false, alt: true }
}

fn plain(code: KeyCode) -> (k: Key)
    ensures
        k == plain_key(code),
{
    Key { code, ctrl: false, alt: false }
}

/// The bindings of [`default_keymap`], in the order they are made.
pub open spec fn default_bindings() -> Seq<(Seq<Key>, Command)> {
    seq![
        (seq![ctrl_key('f')], Command::ForwardChar),
        (seq![ctrl_key('b')], Command::BackwardChar),
        (seq![ctrl_key('n')], Command::NextLine),
        (seq![ctrl_key('p')], Command::PreviousLine),
        (seq![ctrl_key('a')], Command::BeginningOfLine),
        (seq![ctrl_key('e')], Command::EndOfLine),
        (seq![ctrl_key('v')], Command::PageDown),
        (seq![alt_char_key('v')], Command::PageUp),
        (seq![alt_char_key('f')], Command::ForwardWord),
        (seq![alt_char_key('b')], Command::BackwardWord),
        (seq![alt_code_key(KeyCode::Right)], Command::ForwardWord),
        (seq![alt_code_key(KeyCode::Left)], Command::BackwardWord),
        (seq![alt_char_key('<')], Command::BufferBeginning),
        (seq![alt_char_key('>')], Command::BufferEnd),
        (seq![plain_key(KeyCode::Right)], Command::ForwardChar),
        (seq![plain_key(KeyCode::Left)], Command::BackwardChar),
        (seq![plain_key(KeyCode::Down)], Command::NextLine),
        (seq![plain_key(KeyCode::Up)], Command::PreviousLine),
        (seq![plain_key(KeyCode::Home)], Command::BeginningOfLine),
        (seq![plain_key(KeyCode::End)], Command::EndOfLine),
        (seq![plain_key(KeyCode::PageDown)], Command::PageDown),
        (seq![plain_key(KeyCode::PageUp)], Command::PageUp),
        (seq![plain_key(KeyCode::Enter)], Command::InsertNewline),
        (seq![plain_key(KeyCode::Backspace)], Command::DeleteBackward),
        (seq![ctrl_key('d')], Command::DeleteForward),
        (seq![plain_key(KeyCode::Delete)], Command::DeleteForward),
        (seq![ctrl_key('k')], Command::KillLine),
        (seq![plain_key(KeyCode::Tab)], Command::IndentLine),
        (seq![plain_key(KeyCode::BackTab)], Command::DedentLine),
        (seq![alt_code_key(KeyCode::Backspace)], Command::DeleteWordBackward),
        (seq![ctrl_key('/')], Command::Undo),
        (seq![ctrl_key('_')], Command::Undo),
        (seq![ctrl_key('7')], Command::Undo),
        (seq![ctrl_key('-')], Command::Undo),
        (seq![ctrl_key(' ')], Command::SetMark),
        (seq![ctrl_key('w')], Command::Cut),
        (seq![alt_char_key('w')], Command::Copy),
        (seq![ctrl_key('y')], Command::Paste),
        (seq![ctrl_key('x'), ctrl_key('c')], Command::Quit),
        (seq![ctrl_key('x'), ctrl_key('s')], Command::Save),
        (seq![ctrl_key('x'), ctrl_key('w')], Command::WriteFile),
        (seq![ctrl_key('x'), ctrl_key('f')], Command::FindFile),
        (seq![ctrl_key('x'), plain_key(KeyCode::Char('b'))], Command::SwitchBuffer),
        (seq![ctrl_key('x'), plain_key(KeyCode::Char('k'))], Command::KillBuffer),
        (seq![ctrl_key('x'), plain_key(KeyCode::Char('2'))], Command::SplitVertical),
        (seq![ctrl_key('x'), plain_key(KeyCode::Char('3'))], Command::SplitHorizontal),
        (seq![ctrl_key('x'), plain_key(KeyCode::Char('0'))], Command::DeletePane),
        (seq![ctrl_key('x'), plain_key(KeyCode::Char('1'))], Command::DeleteOtherPanes),
        (seq![ctrl_key('x'), plain_key(KeyCode::Char('o'))], Command::CycleFocus),
        (seq![ctrl_key('x'), ctrl_key('x')], Command::SwapPointAndMark),
        (seq![ctrl_key('l')], Command::RecenterTopBottom),
        (seq![ctrl_key('s')], Command::ISearchForward),
        (seq![ctrl_key('r')], Command::ISearchBackward),
        (seq![ctrl_key('g')], Command::Cancel),
        (seq![alt_char_key('g'), plain_key(KeyCode::Char('g'))], Command::GotoLine),
    ]
}

#[verifier::rlimit(100)]
pub(crate) fn default_binding_table() -> (t: Vec<(Vec<Key>, Command)>)
    ensures
        binding_views(t@) == default_bindings(),
{
    let mut t: Vec<(Vec<Key>, Command)> = Vec::new();
    {
        let mut keys: Vec<Key> = Vec::new();
        keys.push(ctrl('f'));
        let ghost prev = binding_views(t@);
        let ghost kv = keys@;
        t.push((keys, Command::ForwardChar));
        assert(binding_views(t@) =~= prev.push((kv, Command::ForwardChar)));
    }
    {
        let mut keys: Vec<Key> = Vec::new();
        keys.push(ctrl('b'));
        let ghost prev = binding_views(t@);
        let ghost kv = keys@;
        t.push((keys, Command::BackwardChar));
        assert(binding_views(t@) =~= prev.push((kv, Command::BackwardChar)));
    }
    {
        let mut keys: Vec<Key> = Vec::new();
        keys.push(ctrl('n'));
        let ghost prev = binding_views(t@);
        let ghost kv = keys@;
        t.push((keys, Command::NextLine));
        assert(binding_views(t@) =~= prev.push((kv, Command::NextLine)));
    }
    {
        let mut keys: Vec<Key> = Vec::new();
        keys.push(ctrl('p'));
        let ghost prev = binding_views(t@);
        let ghost kv = keys@;
        t.push((keys, Command::PreviousLine));
        assert(binding_views(t@) =~= prev.push((kv, Command::PreviousLine)));
    }
    {
        let mut keys: Vec<Key> = Vec::new();
        keys.push(ctrl('a'));
        let ghost prev = binding_views(t@);
        let ghost kv = keys@;
        t.push((keys, Command::BeginningOfLine));
        assert(binding_views(t@) =~= prev.push((kv, Command::BeginningOfLine)));
    }
    {
        let mut keys: Vec<Key> = Vec::new();
        keys.push(ctrl('e'));
        let ghost prev = binding_views(t@);
        let ghost kv = keys@;
        t.push((keys, Command::EndOfLine));
        assert(binding_views(t@) =~= prev.push((kv, Command::EndOfLine)));
    }
    {
        let mut keys: Vec<Key> = Vec::new();
        keys.push(ctrl('v'));
        let ghost prev = binding_views(t@);
        let ghost kv = keys@;
        t.push((keys, Command::PageDown));
        assert(binding_views(t@) =~= prev.push((kv, Command::PageDown)));
    }
    {
        let mut keys: Vec<Key> = Vec::new();
        keys.push(alt('v'));
        let ghost prev = binding_views(t@);
        let ghost kv = keys@;
        t.push((keys, Command::PageUp));
        assert(binding_views(t@) =~= prev.push((kv, Command::PageUp)));
    }
    {
        let mut keys: Vec<Key> = Vec::new();
        keys.push(alt('f'));
        let ghost prev = binding_views(t@);
        let ghost kv = keys@;
        t.push((keys, Command::ForwardWord));
        assert(binding_views(t@) =~= prev.push((kv, Command::ForwardWord)));
    }
    {
        let mut keys: Vec<Key> = Vec::new();
        keys.push(alt('b'));
        let ghost prev = binding_views(t@);
        let ghost kv = keys@;
        t.push((keys, Command::BackwardWord));
        assert(binding_views(t@) =~= prev.push((kv, Command::BackwardWord)));
    }
    {
        let mut keys: Vec<Key> = Vec::new();
        keys.push(alt_key(KeyCode::Right));
        let ghost prev = binding_views(t@);
        let ghost kv = keys@;
        t.push((keys, Command::ForwardWord));
        assert(binding_views(t@) =~= prev.push((kv, Command::ForwardWord)));
    }
    {
        let mut keys: Vec<Key> = Vec::new();
        keys.push(alt_key(KeyCode::Left));
        let ghost prev = binding_views(t@);
        let ghost kv = keys@;
        t.push((keys, Command::BackwardWord));
        assert(binding_views(t@) =~= prev.push((kv, Command::BackwardWord)));
    }
    {
        let mut keys: Vec<Key> = Vec::new();
        keys.push(alt('<'));
        let ghost prev = binding_views(t@);
        let ghost kv = keys@;
        t.push((keys, Command::BufferBeginning));
        assert(binding_views(t@) =~= prev.push((kv, Command::BufferBeginning)));
    }
    {
        let mut keys: Vec<Key> = Vec::new();
        keys.push(alt('>'));
        let ghost prev = binding_views(t@);
        let ghost kv = keys@;
        t.push((keys, Command::BufferEnd));
        assert(binding_views(t@) =~= prev.push((kv, Command::BufferEnd)));
    }
    {
        let mut keys: Vec<Key> = Vec::new();
        keys.push(plain(KeyCode::Right));
        let ghost prev = binding_views(t@);
        let ghost kv = keys@;
        t.push((keys, Command::ForwardChar));
        assert(binding_views(t@) =~= prev.push((kv, Command::ForwardChar)));
    }
    {
        let mut keys: Vec<Key> = Vec::new();
        keys.push(plain(KeyCode::Left));
        let ghost prev = binding_views(t@);
        let ghost kv = keys@;
        t.push((keys, Command::BackwardChar));
        assert(binding_views(t@) =~= prev.push((kv, Command::BackwardChar)));
    }
    {
        let mut keys: Vec<Key> = Vec::new();
        keys.push(plain(KeyCode::Down));
        let ghost prev = binding_views(t@);
        let ghost kv = keys@;
        t.push((keys, Command::NextLine));
        assert(binding_views(t@) =~= prev.push((kv, Command::NextLine)));
    }
    {
        let mut keys: Vec<Key> = Vec::new();
        keys.push(plain(KeyCode::Up));
        let ghost prev = binding_views(t@);
        let ghost kv = keys@;
        t.push((keys, Command::PreviousLine));
        assert(binding_views(t@) =~= prev.push((kv, Command::PreviousLine)));
    }
    {
        let mut keys: Vec<Key> = Vec::new();
        keys.push(plain(KeyCode::Home));
        let ghost prev = binding_views(t@);
        let ghost kv = keys@;
        t.push((keys, Command::BeginningOfLine));
        assert(binding_views(t@) =~= prev.push((kv, Command::BeginningOfLine)));
    }
    {
        let mut keys: Vec<Key> = Vec::new();
        keys.push(plain(KeyCode::End));
        let ghost prev = binding_views(t@);
        let ghost kv = keys@;
        t.push((keys, Command::EndOfLine));
        assert(binding_views(t@) =~= prev.push((kv, Command::EndOfLine)));
    }
    {
        let mut keys: Vec<Key> = Vec::new();
        keys.push(plain(KeyCode::PageDown));
        let ghost prev = binding_views(t@);
        let ghost kv = keys@;
        t.push((keys, Command::PageDown));
        assert(binding_views(t@) =~= prev.push((kv, Command::PageDown)));
    }
    {
        let mut keys: Vec<Key> = Vec::new();
        keys.push(plain(KeyCode::PageUp));
        let ghost prev = binding_views(t@);
        let ghost kv = keys@;
        t.push((keys, Command::PageUp));
        assert(binding_views(t@) =~= prev.push((kv, Command::PageUp)));
    }
    {
        let mut keys: Vec<Key> = Vec::new();
        keys.push(plain(KeyCode::Enter));
        let ghost prev = binding_views(t@);
        let ghost kv = keys@;
        t.push((keys, Command::InsertNewline));
        assert(binding_views(t@) =~= prev.push((kv, Command::InsertNewline)));
    }
    {
        let mut keys: Vec<Key> = Vec::new();
        keys.push(plain(KeyCode::Backspace));
        let ghost prev = binding_views(t@);
        let ghost kv = keys@;
        t.push((keys, Command::DeleteBackward));
        assert(binding_views(t@) =~= prev.push((kv, Command::DeleteBackward)));
    }
    {
        let mut keys: Vec<Key> = Vec::new();
        keys.push(ctrl('d'));
        let ghost prev = binding_views(t@);
        let ghost kv = keys@;
        t.push((keys, Command::DeleteForward));
        assert(binding_views(t@) =~= prev.push((kv, Command::DeleteForward)));
    }
    {
        let mut keys: Vec<Key> = Vec::new();
        keys.push(plain(KeyCode::Delete));
        let ghost prev = binding_views(t@);
        let ghost kv = keys@;
        t.push((keys, Command::DeleteForward));
        assert(binding_views(t@) =~= prev.push((kv, Command::DeleteForward)));
    }
    {
        let mut keys: Vec<Key> = Vec::new();
        keys.push(ctrl('k'));
        let ghost prev = binding_views(t@);
        let ghost kv = keys@;
        t.push((keys, Command::KillLine));
        assert(binding_views(t@) =~= prev.push((kv, Command::KillLine)));
    }
    {
        let mut keys: Vec<Key> = Vec::new();
        keys.push(plain(KeyCode::Tab));
        let ghost prev = binding_views(t@);
        let ghost kv = keys@;
        t.push((keys, Command::IndentLine));
        assert(binding_views(t@) =~= prev.push((kv, Command::IndentLine)));
    }
    {
        let mut keys: Vec<Key> = Vec::new();
        keys.push(plain(KeyCode::BackTab));
        let ghost prev = binding_views(t@);
        let ghost kv = keys@;
        t.push((keys, Command::DedentLine));
        assert(binding_views(t@) =~= prev.push((kv, Command::DedentLine)));
    }
    {
        let mut keys: Vec<Key> = Vec::new();
        keys.push(alt_key(KeyCode::Backspace));
        let ghost prev = binding_views(t@);
        let ghost kv = keys@;
        t.push((keys, Command::DeleteWordBackward));
        assert(binding_views(t@) =~= prev.push((kv, Command::DeleteWordBackward)));
    }
    {
        let mut keys: Vec<Key> = Vec::new();
        keys.push(ctrl('/'));
        let ghost prev = binding_views(t@);
        let ghost kv = keys@;
        t.push((keys, Command::Undo));
        assert(binding_views(t@) =~= prev.push((kv, Command::Undo)));
    }
    {
        let mut keys: Vec<Key> = Vec::new();
        keys.push(ctrl('_'));
        let ghost prev = binding_views(t@);
        let ghost kv = keys@;
        t.push((keys, Command::Undo));
        assert(binding_views(t@) =~= prev.push((kv, Command::Undo)));
    }
    {
        let mut keys: Vec<Key> = Vec::new();
        keys.push(ctrl('7'));
        let ghost prev = binding_views(t@);
        let ghost kv = keys@;
        t.push((keys, Command::Undo));
        assert(binding_views(t@) =~= prev.push((kv, Command::Undo)));
    }
    {
        let mut keys: Vec<Key> = Vec::new();
        keys.push(ctrl('-'));
        let ghost prev = binding_views(t@);
        let ghost kv = keys@;
        t.push((keys, Command::Undo));
        assert(binding_views(t@) =~= prev.push((kv, Command::Undo)));
    }
    {
        let mut keys: Vec<Key> = Vec::new();
        keys.push(ctrl(' '));
        let ghost prev = binding_views(t@);
        let ghost kv = keys@;
        t.push((keys, Command::SetMark));
        assert(binding_views(t@) =~= prev.push((kv, Command::SetMark)));
    }
    {
        let mut keys: Vec<Key> = Vec::new();
        keys.push(ctrl('w'));
        let ghost prev = binding_views(t@);
        let ghost kv = keys@;
        t.push((keys, Command::Cut));
        assert(binding_views(t@) =~= prev.push((kv, Command::Cut)));
    }
    {
        let mut keys: Vec<Key> = Vec::new();
        keys.push(alt('w'));
        let ghost prev = binding_views(t@);
        let ghost kv = keys@;
        t.push((keys, Command::Copy));
        assert(binding_views(t@) =~= prev.push((kv, Command::Copy)));
    }
    {
        let mut keys: Vec<Key> = Vec::new();
        keys.push(ctrl('y'));
        let ghost prev = binding_views(t@);
        let ghost kv = keys@;
        t.push((keys, Command::Paste));
        assert(binding_views(t@) =~= prev.push((kv, Command::Paste)));
    }
    {
        let mut keys: Vec<Key> = Vec::new();
        keys.push(ctrl('x'));
        keys.push(ctrl('c'));
        let ghost prev = binding_views(t@);
        let ghost kv = keys@;
        t.push((keys, Command::Quit));
        assert(binding_views(t@) =~= prev.push((kv, Command::Quit)));
    }
    {
        let mut keys: Vec<Key> = Vec::new();
        keys.push(ctrl('x'));
        keys.push(ctrl('s'));
        let ghost prev = binding_views(t@);
        let ghost kv = keys@;
        t.push((keys, Command::Save));
        assert(binding_views(t@) =~= prev.push((kv, Command::Save)));
    }
    {
        let mut keys: Vec<Key> = Vec::new();
        keys.push(ctrl('x'));
        keys.push(ctrl('w'));
        let ghost prev = binding_views(t@);
        let ghost kv = keys@;
        t.push((keys, Command::WriteFile));
        assert(binding_views(t@) =~= prev.push((kv, Command::WriteFile)));
    }
    {
        let mut keys: Vec<Key> = Vec::new();
        keys.push(ctrl('x'));
        keys.push(ctrl('f'));
        let ghost prev = binding_views(t@);
        let ghost kv = keys@;
        t.push((keys, Command::FindFile));
        assert(binding_views(t@) =~= prev.push((kv, Command::FindFile)));
    }
    {
        let mut keys: Vec<Key> = Vec::new();
        keys.push(ctrl('x'));
        keys.push(plain(KeyCode::Char('b')));
        let ghost prev = binding_views(t@);
        let ghost kv = keys@;
        t.push((keys, Command::SwitchBuffer));
        assert(binding_views(t@) =~= prev.push((kv, Command::SwitchBuffer)));
    }
    {
        let mut keys: Vec<Key> = Vec::new();
        keys.push(ctrl('x'));
        keys.push(plain(KeyCode::Char('k')));
        let ghost prev = binding_views(t@);
        let ghost kv = keys@;
        t.push((keys, Command::KillBuffer));
        assert(binding_views(t@) =~= prev.push((kv, Command::KillBuffer)));
    }
    {
        let mut keys: Vec<Key> = Vec::new();
        keys.push(ctrl('x'));
        keys.push(plain(KeyCode::Char('2')));
        let ghost prev = binding_views(t@);
        let ghost kv = keys@;
        t.push((keys, Command::SplitVertical));
        assert(binding_views(t@) =~= prev.push((kv, Command::SplitVertical)));
    }
    {
        let mut keys: Vec<Key> = Vec::new();
        keys.push(ctrl('x'));
        keys.push(plain(KeyCode::Char('3')));
        let ghost prev = binding_views(t@);
        let ghost kv = keys@;
        t.push((keys, Command::SplitHorizontal));
        assert(binding_views(t@) =~= prev.push((kv, Command::SplitHorizontal)));
    }
    {
        let mut keys: Vec<Key> = Vec::new();
        keys.push(ctrl('x'));
        keys.push(plain(KeyCode::Char('0')));
        let ghost prev = binding_views(t@);
        let ghost kv = keys@;
        t.push((keys, Command::DeletePane));
        assert(binding_views(t@) =~= prev.push((kv, Command::DeletePane)));
    }
    {
        let mut keys: Vec<Key> = Vec::new();
        keys.push(ctrl('x'));
        keys.push(plain(KeyCode::Char('1')));
        let ghost prev = binding_views(t@);
        let ghost kv = keys@;
        t.push((keys, Command::DeleteOtherPanes));
        assert(binding_views(t@) =~= prev.push((kv, Command::DeleteOtherPanes)));
    }
    {
        let mut keys: Vec<Key> = Vec::new();
        keys.push(ctrl('x'));
        keys.push(plain(KeyCode::Char('o')));
        let ghost prev = binding_views(t@);
        let ghost kv = keys@;
        t.push((keys, Command::CycleFocus));
        assert(binding_views(t@) =~= prev.push((kv, Command::CycleFocus)));
    }
    {
        let mut keys: Vec<Key> = Vec::new();
        keys.push(ctrl('x'));
        keys.push(ctrl('x'));
        let ghost prev = binding_views(t@);
        let ghost kv = keys@;
        t.push((keys, Command::SwapPointAndMark));
        assert(binding_views(t@) =~= prev.push((kv, Command::SwapPointAndMark)));
    }
    {
        let mut keys: Vec<Key> = Vec::new();
        keys.push(ctrl('l'));
        let ghost prev = binding_views(t@);
        let ghost kv = keys@;
        t.push((keys, Command::RecenterTopBottom));
        assert(binding_views(t@) =~= prev.push((kv, Command::RecenterTopBottom)));
    }
    {
        let mut keys: Vec<Key> = Vec::new();
        keys.push(ctrl('s'));
        let ghost prev = binding_views(t@);
        let ghost kv = keys@;
        t.push((keys, Command::ISearchForward));
        assert(binding_views(t@) =~= prev.push((kv, Command::ISearchForward)));
    }
    {
        let mut keys: Vec<Key> = Vec::new();
        keys.push(ctrl('r'));
        let ghost prev = binding_views(t@);
        let ghost kv = keys@;
        t.push((keys, Command::ISearchBackward));
        assert(binding_views(t@) =~= prev.push((kv, Command::ISearchBackward)));
    }
    {
        let mut keys: Vec<Key> = Vec::new();
        keys.push(ctrl('g'));
        let ghost prev = binding_views(t@);
        let ghost kv = keys@;
        t.push((keys, Command::Cancel));
        assert(binding_views(t@) =~= prev.push((kv, Command::Cancel)));
    }
    {
        let mut keys: Vec<Key> = Vec::new();
        keys.push(alt('g'));
        keys.push(plain(KeyCode::Char('g')));
        let ghost prev = binding_views(t@);
        let ghost kv = keys@;
        t.push((keys, Command::GotoLine));
        assert(binding_views(t@) =~= prev.push((kv, Command::GotoLine)));
    }
    assert(binding_views(t@) =~~= default_bindings());
    t
}

/// Build the default emacs-like keymap.
pub fn default_keymap() -> (root: KeymapNode)
    ensures
        keymap_of(root, default_bindings()),
{
    keymap_from_bindings(&default_binding_table())
}

/// The bindings of [`vim_normal_keymap`], in the order they are made.
pub open spec fn vim_normal_bindings() -> Seq<(Seq<Key>, Command)> {
    seq![
        (seq![plain_key(KeyCode::Char('h'))], Command::BackwardChar),
        (seq![plain_key(KeyCode::Char('l'))], Command::ForwardChar),
        (seq![plain_key(KeyCode::Char('j'))], Command::NextLine),
        (seq![plain_key(KeyCode::Char('k'))], Command::PreviousLine),
        (seq![plain_key(KeyCode::Char('w'))], Command::ForwardWord),
        (seq![plain_key(KeyCode::Char('b'))], Command::BackwardWord),
        (seq![plain_key(KeyCode::Char('0'))], Command::BeginningOfLine),
        (seq![plain_key(KeyCode::Char('$'))], Command::EndOfLine),
        (seq![plain_key(KeyCode::Char('G'))], Command::BufferEnd),
        (seq![plain_key(KeyCode::Char('g')), plain_key(KeyCode::Char('g'))], Command::BufferBeginning),
        (seq![plain_key(KeyCode::Right)], Command::ForwardChar),
        (seq![plain_key(KeyCode::Left)], Command::BackwardChar),
        (seq![plain_key(KeyCode::Down)], Command::NextLine),
        (seq![plain_key(KeyCode::Up)], Command::PreviousLine),
        (seq![plain_key(KeyCode::Home)], Command::BeginningOfLine),
        (seq![plain_key(KeyCode::End)], Command::EndOfLine),
        (seq![plain_key(KeyCode::PageDown)], Command::PageDown),
        (seq![plain_key(KeyCode::PageUp)], Command::PageUp),
        (seq![ctrl_key('d')], Command::PageDown),
        (seq![ctrl_key('u')], Command::PageUp),
        (seq![plain_key(KeyCode::Char('x'))], Command::DeleteForward),
        (seq![plain_key(KeyCode::Char('d')), plain_key(KeyCode::Char('d'))], Command::DeleteLine),
        (seq![plain_key(KeyCode::Char('D'))], Command::KillLine),
        (seq![plain_key(KeyCode::Char('J'))], Command::JoinLines),
        (seq![plain_key(KeyCode::Char('u'))], Command::Undo),
        (seq![ctrl_key('r')], Command::Redo),
        (seq![plain_key(KeyCode::Char('p'))], Command::Paste),
        (seq![plain_key(KeyCode::Char('v'))], Command::SetMark),
        (seq![plain_key(KeyCode::Char('y')), plain_key(KeyCode::Char('y'))], Command::YankLine),
        (seq![plain_key(KeyCode::Char('/'))], Command::ISearchForward),
        (seq![plain_key(KeyCode::Char('?'))], Command::ISearchBackward),
        (seq![plain_key(KeyCode::Char(':'))], Command::VimCommandPrompt),
        (seq![ctrl_key('l')], Command::RecenterTopBottom),
        (seq![ctrl_key('w'), plain_key(KeyCode::Char('s'))], Command::SplitVertical),
        (seq![ctrl_key('w'), plain_key(KeyCode::Char('v'))], Command::SplitHorizontal),
        (seq![ctrl_key('w'), plain_key(KeyCode::Char('w'))], Command::CycleFocus),
        (seq![ctrl_key('w'), plain_key(KeyCode::Char('q'))], Command::DeletePane),
        (seq![ctrl_key('w'), plain_key(KeyCode::Char('o'))], Command::DeleteOtherPanes),
    ]
}

#[verifier::rlimit(100)]
fn vim_normal_binding_table() -> (t: Vec<(Vec<Key>, Command)>)
    ensures
        binding_views(t@) == vim_normal_bindings(),
{
    let mut t: Vec<(Vec<Key>, Command)> = Vec::new();
    {
        let mut keys: Vec<Key> = Vec::new();
        keys.push(plain(KeyCode::Char('h')));
        let ghost prev = binding_views(t@);
        let ghost kv = keys@;
        t.push((keys, Command::BackwardChar));
        assert(binding_views(t@) =~= prev.push((kv, Command::BackwardChar)));
    }
    {
        let mut keys: Vec<Key> = Vec::new();
        keys.push(plain(KeyCode::Char('l')));
        let ghost prev = binding_views(t@);
        let ghost kv = keys@;
        t.push((keys, Command::ForwardChar));
        assert(binding_views(t@) =~= prev.push((kv, Command::ForwardChar)));
    }
    {
        let mut keys: Vec<Key> = Vec::new();
        keys.push(plain(KeyCode::Char('j')));
        let ghost prev = binding_views(t@);
        let ghost kv = keys@;
        t.push((keys, Command::NextLine));
        assert(binding_views(t@) =~= prev.push((kv, Command::NextLine)));
    }
    {
        let mut keys: Vec<Key> = Vec::new();
        keys.push(plain(KeyCode::Char('k')));
        let ghost prev = binding_views(t@);
        let ghost kv = keys@;
        t.push((keys, Command::PreviousLine));
        assert(binding_views(t@) =~= prev.push((kv, Command::PreviousLine)));
    }
    {
        let mut keys: Vec<Key> = Vec::new();
        keys.push(plain(KeyCode::Char('w')));
        let ghost prev = binding_views(t@);
        let ghost kv = keys@;
        t.push((keys, Command::ForwardWord));
        assert(binding_views(t@) =~= prev.push((kv, Command::ForwardWord)));
    }
    {
        let mut keys: Vec<Key> = Vec::new();
        keys.push(plain(KeyCode::Char('b')));
        let ghost prev = binding_views(t@);
        let ghost kv = keys@;
        t.push((keys, Command::BackwardWord));
        assert(binding_views(t@) =~= prev.push((kv, Command::BackwardWord)));
    }
    {
        let mut keys: Vec<Key> = Vec::new();
        keys.push(plain(KeyCode::Char('0')));
        let ghost prev = binding_views(t@);
        let ghost kv = keys@;
        t.push((keys, Command::BeginningOfLine));
        assert(binding_views(t@) =~= prev.push((kv, Command::BeginningOfLine)));
    }
    {
        let mut keys: Vec<Key> = Vec::new();
        keys.push(plain(KeyCode::Char('$')));
        let ghost prev = binding_views(t@);
        let ghost kv = keys@;
        t.push((keys, Command::EndOfLine));
        assert(binding_views(t@) =~= prev.push((kv, Command::EndOfLine)));
    }
    {
        let mut keys: Vec<Key> = Vec::new();
        keys.push(plain(KeyCode::Char('G')));
        let ghost prev = binding_views(t@);
        let ghost kv = keys@;
        t.push((keys, Command::BufferEnd));
        assert(binding_views(t@) =~= prev.push((kv, Command::BufferEnd)));
    }
    {
        let mut keys: Vec<Key> = Vec::new();
        keys.push(plain(KeyCode::Char('g')));
        keys.push(plain(KeyCode::Char('g')));
        let ghost prev = binding_views(t@);
        let ghost kv = keys@;
        t.push((keys, Command::BufferBeginning));
        assert(binding_views(t@) =~= prev.push((kv, Command::BufferBeginning)));
    }
    {
        let mut keys: Vec<Key> = Vec::new();
        keys.push(plain(KeyCode::Right));
        let ghost prev = binding_views(t@);
        let ghost kv = keys@;
        t.push((keys, Command::ForwardChar));
        assert(binding_views(t@) =~= prev.push((kv, Command::ForwardChar)));
    }
    {
        let mut keys: Vec<Key> = Vec::new();
        keys.push(plain(KeyCode::Left));
        let ghost prev = binding_views(t@);
        let ghost kv = keys@;
        t.push((keys, Command::BackwardChar));
        assert(binding_views(t@) =~= prev.push((kv, Command::BackwardChar)));
    }
    {
        let mut keys: Vec<Key> = Vec::new();
        keys.push(plain(KeyCode::Down));
        let ghost prev = binding_views(t@);
        let ghost kv = keys@;
        t.push((keys, Command::NextLine));
        assert(binding_views(t@) =~= prev.push((kv, Command::NextLine)));
    }
    {
        let mut keys: Vec<Key> = Vec::new();
        keys.push(plain(KeyCode::Up));
        let ghost prev = binding_views(t@);
        let ghost kv = keys@;
        t.push((keys, Command::PreviousLine));
        assert(binding_views(t@) =~= prev.push((kv, Command::PreviousLine)));
    }
    {
        let mut keys: Vec<Key> = Vec::new();
        keys.push(plain(KeyCode::Home));
        let ghost prev = binding_views(t@);
        let ghost kv = keys@;
        t.push((keys, Command::BeginningOfLine));
        assert(binding_views(t@) =~= prev.push((kv, Command::BeginningOfLine)));
    }
    {
        let mut keys: Vec<Key> = Vec::new();
        keys.push(plain(KeyCode::End));
        let ghost prev = binding_views(t@);
        let ghost kv = keys@;
        t.push((keys, Command::EndOfLine));
        assert(binding_views(t@) =~= prev.push((kv, Command::EndOfLine)));
    }
    {
        let mut keys: Vec<Key> = Vec::new();
        keys.push(plain(KeyCode::PageDown));
        let ghost prev = binding_views(t@);
        let ghost kv = keys@;
        t.push((keys, Command::PageDown));
        assert(binding_views(t@) =~= prev.push((kv, Command::PageDown)));
    }
    {
        let mut keys: Vec<Key> = Vec::new();
        keys.push(plain(KeyCode::PageUp));
        let ghost prev = binding_views(t@);
        let ghost kv = keys@;
        t.push((keys, Command::PageUp));
        assert(binding_views(t@) =~= prev.push((kv, Command::PageUp)));
    }
    {
        let mut keys: Vec<Key> = Vec::new();
        keys.push(ctrl('d'));
        let ghost prev = binding_views(t@);
        let ghost kv = keys@;
        t.push((keys, Command::PageDown));
        assert(binding_views(t@) =~= prev.push((kv, Command::PageDown)));
    }
    {
        let mut keys: Vec<Key> = Vec::new();
        keys.push(ctrl('u'));
        let ghost prev = binding_views(t@);
        let ghost kv = keys@;
        t.push((keys, Command::PageUp));
        assert(binding_views(t@) =~= prev.push((kv, Command::PageUp)));
    }
    {
        let mut keys: Vec<Key> = Vec::new();
        keys.push(plain(KeyCode::Char('x')));
        let ghost prev = binding_views(t@);
        let ghost kv = keys@;
        t.push((keys, Command::DeleteForward));
        assert(binding_views(t@) =~= prev.push((kv, Command::DeleteForward)));
    }
    {
        let mut keys: Vec<Key> = Vec::new();
        keys.push(plain(KeyCode::Char('d')));
        keys.push(plain(KeyCode::Char('d')));
        let ghost prev = binding_views(t@);
        let ghost kv = keys@;
        t.push((keys, Command::DeleteLine));
        assert(binding_views(t@) =~= prev.push((kv, Command::DeleteLine)));
    }
    {
        let mut keys: Vec<Key> = Vec::new();
        keys.push(plain(KeyCode::Char('D')));
        let ghost prev = binding_views(t@);
        let ghost kv = keys@;
        t.push((keys, Command::KillLine));
        assert(binding_views(t@) =~= prev.push((kv, Command::KillLine)));
    }
    {
        let mut keys: Vec<Key> = Vec::new();
        keys.push(plain(KeyCode::Char('J')));
        let ghost prev = binding_views(t@);
        let ghost kv = keys@;
        t.push((keys, Command::JoinLines));
        assert(binding_views(t@) =~= prev.push((kv, Command::JoinLines)));
    }
    {
        let mut keys: Vec<Key> = Vec::new();
        keys.push(plain(KeyCode::Char('u')));
        let ghost prev = binding_views(t@);
        let ghost kv = keys@;
        t.push((keys, Command::Undo));
        assert(binding_views(t@) =~= prev.push((kv, Command::Undo)));
    }
    {
        let mut keys: Vec<Key> = Vec::new();
        keys.push(ctrl('r'));
        let ghost prev = binding_views(t@);
        let ghost kv = keys@;
        t.push((keys, Command::Redo));
        assert(binding_views(t@) =~= prev.push((kv, Command::Redo)));
    }
    {
        let mut keys: Vec<Key> = Vec::new();
        keys.push(plain(KeyCode::Char('p')));
        let ghost prev = binding_views(t@);
        let ghost kv = keys@;
        t.push((keys, Command::Paste));
        assert(binding_views(t@) =~= prev.push((kv, Command::Paste)));
    }
    {
        let mut keys: Vec<Key> = Vec::new();
        keys.push(plain(KeyCode::Char('v')));
        let ghost prev = binding_views(t@);
        let ghost kv = keys@;
        t.push((keys, Command::SetMark));
        assert(binding_views(t@) =~= prev.push((kv, Command::SetMark)));
    }
    {
        let mut keys: Vec<Key> = Vec::new();
        keys.push(plain(KeyCode::Char('y')));
        keys.push(plain(KeyCode::Char('y')));
        let ghost prev = binding_views(t@);
        let ghost kv = keys@;
        t.push((keys, Command::YankLine));
        assert(binding_views(t@) =~= prev.push((kv, Command::YankLine)));
    }
    {
        let mut keys: Vec<Key> = Vec::new();
        keys.push(plain(KeyCode::Char('/')));
        let ghost prev = binding_views(t@);
        let ghost kv = keys@;
        t.push((keys, Command::ISearchForward));
        assert(binding_views(t@) =~= prev.push((kv, Command::ISearchForward)));
    }
    {
        let mut keys: Vec<Key> = Vec::new();
        keys.push(plain(KeyCode::Char('?')));
        let ghost prev = binding_views(t@);
        let ghost kv = keys@;
        t.push((keys, Command::ISearchBackward));
        assert(binding_views(t@) =~= prev.push((kv, Command::ISearchBackward)));
    }
    {
        let mut keys: Vec<Key> = Vec::new();
        keys.push(plain(KeyCode::Char(':')));
        let ghost prev = binding_views(t@);
        let ghost kv = keys@;
        t.push((keys, Command::VimCommandPrompt));
        assert(binding_views(t@) =~= prev.push((kv, Command::VimCommandPrompt)));
    }
    {
        let mut keys: Vec<Key> = Vec::new();
        keys.push(ctrl('l'));
        let ghost prev = binding_views(t@);
        let ghost kv = keys@;
        t.push((keys, Command::RecenterTopBottom));
        assert(binding_views(t@) =~= prev.push((kv, Command::RecenterTopBottom)));
    }
    {
        let mut keys: Vec<Key> = Vec::new();
        keys.push(ctrl('w'));
        keys.push(plain(KeyCode::Char('s')));
        let ghost prev = binding_views(t@);
        let ghost kv = keys@;
        t.push((keys, Command::SplitVertical));
        assert(binding_views(t@) =~= prev.push((kv, Command::SplitVertical)));
    }
    {
        let mut keys: Vec<Key> = Vec::new();
        keys.push(ctrl('w'));
        keys.push(plain(KeyCode::Char('v')));
        let ghost prev = binding_views(t@);
        let ghost kv = keys@;
        t.push((keys, Command::SplitHorizontal));
        assert(binding_views(t@) =~= prev.push((kv, Command::SplitHorizontal)));
    }
    {
        let mut keys: Vec<Key> = Vec::new();
        keys.push(ctrl('w'));
        keys.push(plain(KeyCode::Char('w')));
        let ghost prev = binding_views(t@);
        let ghost kv = keys@;
        t.push((keys, Command::CycleFocus));
        assert(binding_views(t@) =~= prev.push((kv, Command::CycleFocus)));
    }
    {
        let mut keys: Vec<Key> = Vec::new();
        keys.push(ctrl('w'));
        keys.push(plain(KeyCode::Char('q')));
        let ghost prev = binding_views(t@);
        let ghost kv = keys@;
        t.push((keys, Command::DeletePane));
        assert(binding_views(t@) =~= prev.push((kv, Command::DeletePane)));
    }
    {
        let mut keys: Vec<Key> = Vec::new();
        keys.push(ctrl('w'));
        keys.push(plain(KeyCode::Char('o')));
        let ghost prev = binding_views(t@);
        let ghost kv = keys@;
        t.push((keys, Command::DeleteOtherPanes));
        assert(binding_views(t@) =~= prev.push((kv, Command::DeleteOtherPanes)));
    }
    assert(binding_views(t@) =~~= vim_normal_bindings());
    t
}

/// Build the vim normal mode keymap.
///
/// In normal mode, bare keys are commands (no self-insert).
/// Mode-switching keys (i, a, o, etc.) are NOT in this keymap;
/// the input layer handles them so it can switch the mode.
pub fn vim_normal_keymap() -> (root: KeymapNode)
    ensures
        keymap_of(root, vim_normal_bindings()),
{
    keymap_from_bindings(&vim_normal_binding_table())
}

/// The bindings of [`vim_insert_keymap`], in the order they are made.
pub open spec fn vim_insert_bindings() -> Seq<(Seq<Key>, Command)> {
    seq![
        (seq![plain_key(KeyCode::Enter)], Command::InsertNewline),
        (seq![plain_key(KeyCode::Backspace)], Command::DeleteBackward),
        (seq![plain_key(KeyCode::Delete)], Command::DeleteForward),
        (seq![plain_key(KeyCode::Tab)], Command::IndentLine),
        (seq![plain_key(KeyCode::BackTab)], Command::DedentLine),
        (seq![ctrl_key('w')], Command::DeleteWordBackward),
        (seq![ctrl_key('u')], Command::KillLine),
        (seq![plain_key(KeyCode::Right)], Command::ForwardChar),
        (seq![plain_key(KeyCode::Left)], Command::BackwardChar),
        (seq![plain_key(KeyCode::Down)], Command::NextLine),
        (seq![plain_key(KeyCode::Up)], Command::PreviousLine),
        (seq![plain_key(KeyCode::Home)], Command::BeginningOfLine),
        (seq![plain_key(KeyCode::End)], Command::EndOfLine),
    ]
}

fn vim_insert_binding_table() -> (t: Vec<(Vec<Key>, Command)>)
    ensures
        binding_views(t@) == vim_insert_bindings(),
{
    let mut t: Vec<(Vec<Key>, Command)> = Vec::new();
    {
        let mut keys: Vec<Key> = Vec::new();
        keys.push(plain(KeyCode::Enter));
        let ghost prev = binding_views(t@);
        let ghost kv = keys@;
        t.push((keys, Command::InsertNewline));
        assert(binding_views(t@) =~= prev.push((kv, Command::InsertNewline)));
    }
    {
        let mut keys: Vec<Key> = Vec::new();
        keys.push(plain(KeyCode::Backspace));
        let ghost prev = binding_views(t@);
        let ghost kv = keys@;
        t.push((keys, Command::DeleteBackward));
        assert(binding_views(t@) =~= prev.push((kv, Command::DeleteBackward)));
    }
    {
        let mut keys: Vec<Key> = Vec::new();
        keys.push(plain(KeyCode::Delete));
        let ghost prev = binding_views(t@);
        let ghost kv = keys@;
        t.push((keys, Command::DeleteForward));
        assert(binding_views(t@) =~= prev.push((kv, Command::DeleteForward)));
    }
    {
        let mut keys: Vec<Key> = Vec::new();
        keys.push(plain(KeyCode::Tab));
        let ghost prev = binding_views(t@);
        let ghost kv = keys@;
        t.push((keys, Command::IndentLine));
        assert(binding_views(t@) =~= prev.push((kv, Command::IndentLine)));
    }
    {
        let mut keys: Vec<Key> = Vec::new();
        keys.push(plain(KeyCode::BackTab));
        let ghost prev = binding_views(t@);
        let ghost kv = keys@;
        t.push((keys, Command::DedentLine));
        assert(binding_views(t@) =~= prev.push((kv, Command::DedentLine)));
    }
    {
        let mut keys: Vec<Key> = Vec::new();
        keys.push(ctrl('w'));
        let ghost prev = binding_views(t@);
        let ghost kv = keys@;
        t.push((keys, Command::DeleteWordBackward));
        assert(binding_views(t@) =~= prev.push((kv, Command::DeleteWordBackward)));
    }
    {
        let mut keys: Vec<Key> = Vec::new();
        keys.push(ctrl('u'));
        let ghost prev = binding_views(t@);
        let ghost kv = keys@;
        t.push((keys, Command::KillLine));
        assert(binding_views(t@) =~= prev.push((kv, Command::KillLine)));
    }
    {
        let mut keys: Vec<Key> = Vec::new();
        keys.push(plain(KeyCode::Right));
        let ghost prev = binding_views(t@);
        let ghost kv = keys@;
        t.push((keys, Command::ForwardChar));
        assert(binding_views(t@) =~= prev.push((kv, Command::ForwardChar)));
    }
    {
        let mut keys: Vec<Key> = Vec::new();
        keys.push(plain(KeyCode::Left));
        let ghost prev = binding_views(t@);
        let ghost kv = keys@;
        t.push((keys, Command::BackwardChar));
        assert(binding_views(t@) =~= prev.push((kv, Command::BackwardChar)));
    }
    {
        let mut keys: Vec<Key> = Vec::new();
        keys.push(plain(KeyCode::Down));
        let ghost prev = binding_views(t@);
        let ghost kv = keys@;
        t.push((keys, Command::NextLine));
        assert(binding_views(t@) =~= prev.push((kv, Command::NextLine)));
    }
    {
        let mut keys: Vec<Key> = Vec::new();
        keys.push(plain(KeyCode::Up));
        let ghost prev = binding_views(t@);
        let ghost kv = keys@;
        t.push((keys, Command::PreviousLine));
        assert(binding_views(t@) =~= prev.push((kv, Command::PreviousLine)));
    }
    {
        let mut keys: Vec<Key> = Vec::new();
        keys.push(plain(KeyCode::Home));
        let ghost prev = binding_views(t@);
        let ghost kv = keys@;
        t.push((keys, Command::BeginningOfLine));
        assert(binding_views(t@) =~= prev.push((kv, Command::BeginningOfLine)));
    }
    {
        let mut keys: Vec<Key> = Vec::new();
        keys.push(plain(KeyCode::End));
        let ghost prev = binding_views(t@);
        let ghost kv = keys@;
        t.push((keys, Command::EndOfLine));
        assert(binding_views(t@) =~= prev.push((kv, Command::EndOfLine)));
    }
    assert(binding_views(t@) =~~= vim_insert_bindings());
    t
}

/// Build the vim insert mode keymap.
///
/// In insert mode, most keys self-insert. This keymap only binds
/// editing helpers; Esc (to exit insert) is handled by the input layer.
pub fn vim_insert_keymap() -> (root: KeymapNode)
    ensures
        keymap_of(root, vim_insert_bindings()),
{
    keymap_from_bindings(&vim_insert_binding_table())
}

} // verus!

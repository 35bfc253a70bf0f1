//! From a key press to what the editor does with it: `C-g` cancels, a bare
//! ESC makes the next key Meta-modified, incremental search and the
//! minibuffer take their keys first, and everything else walks the keymap,
//! with printable keys inserting themselves when nothing is bound.
use vstd::prelude::*;

use crate::command::Command;
use crate::isearch::SearchDirection;
use crate::keymap::{key_display, keys_text, Key, KeyCode, KeymapNode, KeymapResult, KeymapState};
use crate::minibuffer::PromptKind;
use crate::text::{chars_of, string_of};

verus! {

/// A key press: the key and the modifiers held (`other` for any modifier
/// beyond Control, Alt and Shift).
#[derive(Debug, Clone, Copy, PartialEq, Eq, Structural)]
pub struct KeyPress {
    pub code: KeyCode,
    pub ctrl: bool,
    pub alt: bool,
    pub shift: bool,
    pub other: bool,
}

impl KeyPress {
    /// The key that the keymap sees: the code with Control and Alt.
    pub open spec fn key_of(self) -> Key {
        Key { code: self.code, ctrl: self.ctrl, alt: self.alt }
    }

    /// Whether no modifier is held.
    pub open spec fn plain(self) -> bool {
        !self.ctrl && !self.alt && !self.shift && !self.other
    }

    /// The key that the keymap sees.
    pub fn key(&self) -> (k: Key)
        ensures
            k == self.key_of(),
    {
        Key { code: self.code, ctrl: self.ctrl, alt: self.alt }
    }
}

/// What the editor does with a key press.
#[derive(Debug)]
pub enum KeyAction {
    /// Cancel (`C-g`): all pending input was dropped.
    Cancel,
    /// A bare ESC: the next key counts as Meta-modified.
    AwaitMeta,
    /// Incremental search is on: it handles this key.
    ISearch(KeyPress),
    /// Enter in the minibuffer: submit the prompt.
    SubmitPrompt,
    /// Tab in the minibuffer: complete the input.
    CompleteInput,
    /// Run this command.
    Execute(Command),
    /// A chord is under way; wait for its next key.
    Pending,
    /// A chord led nowhere: show this message.
    Undefined(String),
    /// Nothing is bound and nothing is inserted.
    Nothing,
}

/// A key's action, and whether the minibuffer's completion list is
/// dismissed first (any key but Enter and Tab in an active minibuffer).
#[derive(Debug)]
pub struct KeyDispatch {
    pub dismiss_completions: bool,
    pub action: KeyAction,
}

/// All partially consumed input: the chord walk in the keymap and a
/// pending ESC.
pub struct InputState {
    pub keymap: KeymapState,
    pub esc_pending: bool,
}

/// The text that announces an undefined chord.
pub open spec fn undefined_message(pending: Seq<Key>, key: Key) -> Seq<char> {
    keys_text(pending) + key_display(key) + " is undefined"@
}

/// The press `key` with Alt added when an ESC was pending.
pub open spec fn with_meta(key: KeyPress, esc: bool) -> KeyPress {
    KeyPress { code: key.code, ctrl: key.ctrl, alt: key.alt || esc, shift: key.shift, other: key.other }
}

/// What the keymap walk does with `key` after the `pending` keys: the
/// action, and the keys left pending.
pub open spec fn chord_step(root: KeymapNode, pending: Seq<Key>, key: KeyPress) -> (bool, Option<Command>, Seq<Key>) {
    let p = pending.push(key.key_of());
    match root.node_at(p) {
        Some(n) => match n.command {
            Some(c) => (true, Some(c), Seq::empty()),
            None => if n.children@.len() > 0 {
                (true, None, p)
            } else {
                (false, None, Seq::empty())
            },
        },
        None => (false, None, Seq::empty()),
    }
}

impl InputState {
    /// No chord under way and no ESC pending, with `keymap` as the root.
    pub fn new(keymap: KeymapNode) -> (st: Self)
        ensures
            st.keymap.pending().len() == 0,
            st.keymap.root() == keymap,
            !st.esc_pending,
    {
        InputState { keymap: KeymapState::new(keymap), esc_pending: false }
    }

    /// Drops all pending input: the chord under way and a pending ESC.
    pub fn reset(&mut self)
        ensures
            final(self).keymap.pending().len() == 0,
            final(self).keymap.root() == old(self).keymap.root(),
            !final(self).esc_pending,
    {
        self.keymap.clear();
        self.esc_pending = false;
    }

    /// The pending input as the mode line shows it: the chord's keys, then
    /// `ESC ` when an ESC is pending.
    pub fn pending_display(&self) -> (s: String)
        ensures
            s@ == keys_text(self.keymap.pending()) + (if self.esc_pending {
                "ESC "@
            } else {
                Seq::empty()
            }),
    {
        let shown = self.keymap.pending_display();
        if self.esc_pending {
            let mut v = chars_of(shown.as_str());
            let mut esc = chars_of("ESC ");
            v.append(&mut esc);
            string_of(v.as_slice())
        } else {
            assert(shown@ =~= shown@ + Seq::<char>::empty());
            shown
        }
    }

    /// Decides what `key` does, given whether incremental search and the
    /// minibuffer are active, and updates the pending input.
    pub fn handle_key(&mut self, key: KeyPress, isearch_active: bool, minibuffer_active: bool) -> (d:
        KeyDispatch)
        ensures
            final(self).keymap.root() == old(self).keymap.root(),
            ({
                let k2 = with_meta(key, old(self).esc_pending);
                let step = chord_step(old(self).keymap.root(), old(self).keymap.pending(), k2);
                if key.ctrl && key.code == KeyCode::Char('g') {
                    &&& d.action is Cancel
                    &&& !d.dismiss_completions
                    &&& final(self).keymap.pending().len() == 0
                    &&& !final(self).esc_pending
                } else if key.code == KeyCode::Esc && !key.ctrl && !key.alt {
                    &&& d.action is AwaitMeta
                    &&& !d.dismiss_completions
                    &&& final(self).keymap.pending() == old(self).keymap.pending()
                    &&& final(self).esc_pending
                } else if isearch_active {
                    &&& d.action == KeyAction::ISearch(k2)
                    &&& !d.dismiss_completions
                    &&& final(self).keymap.pending() == old(self).keymap.pending()
                    &&& !final(self).esc_pending
                } else if minibuffer_active && k2.plain() && k2.code == KeyCode::Enter {
                    &&& d.action is SubmitPrompt
                    &&& !d.dismiss_completions
                    &&& final(self).keymap.pending() == old(self).keymap.pending()
                    &&& !final(self).esc_pending
                } else if minibuffer_active && k2.plain() && k2.code == KeyCode::Tab {
                    &&& d.action is CompleteInput
                    &&& !d.dismiss_completions
                    &&& final(self).keymap.pending() == old(self).keymap.pending()
                    &&& !final(self).esc_pending
                } else {
                    &&& d.dismiss_completions == minibuffer_active
                    &&& !final(self).esc_pending
                    &&& final(self).keymap.pending() == step.2
                    &&& if step.0 {
                        match step.1 {
                            Some(c) => d.action == KeyAction::Execute(c),
                            None => d.action is Pending,
                        }
                    } else if old(self).keymap.pending().len() > 0 {
                        d.action matches KeyAction::Undefined(m) && m@ == undefined_message(
                            old(self).keymap.pending(),
                            k2.key_of(),
                        )
                    } else {
                        match k2.code {
                            KeyCode::Char(c) => if !k2.ctrl && !k2.alt {
                                d.action == KeyAction::Execute(Command::InsertChar(c))
                            } else {
                                d.action is Nothing
                            },
                            _ => d.action is Nothing,
                        }
                    }
                }
            }),
    {
        if key.ctrl && key.code == KeyCode::Char('g') {
            self.reset();
            return KeyDispatch { dismiss_completions: false, action: KeyAction::Cancel };
        }
        if key.code == KeyCode::Esc && !key.ctrl && !key.alt {
            self.esc_pending = true;
            return KeyDispatch { dismiss_completions: false, action: KeyAction::AwaitMeta };
        }
        let key = KeyPress {
            code: key.code,
            ctrl: key.ctrl,
            alt: key.alt || self.esc_pending,
            shift: key.shift,
            other: key.other,
        };
        self.esc_pending = false;
        if isearch_active {
            return KeyDispatch { dismiss_completions: false, action: KeyAction::ISearch(key) };
        }
        let plain = !key.ctrl && !key.alt && !key.shift && !key.other;
        let mut dismiss = false;
        if minibuffer_active {
            if plain && key.code == KeyCode::Enter {
                return KeyDispatch { dismiss_completions: false, action: KeyAction::SubmitPrompt };
            }
            if plain && key.code == KeyCode::Tab {
                return KeyDispatch { dismiss_completions: false, action: KeyAction::CompleteInput };
            }
            dismiss = true;
        }
        let had_pending = self.keymap.has_pending();
        let pending_before = self.keymap.pending_display();
        let k = key.key();
        match self.keymap.process_key(k) {
            KeymapResult::Matched(cmd) => KeyDispatch {
                dismiss_completions: dismiss,
                action: KeyAction::Execute(cmd),
            },
            KeymapResult::Pending => KeyDispatch { dismiss_completions: dismiss, action: KeyAction::Pending },
            KeymapResult::NotFound => {
                if had_pending {
                    let mut v = chars_of(pending_before.as_str());
                    let mut shown = chars_of(k.display().as_str());
                    let mut tail = chars_of(" is undefined");
                    v.append(&mut shown);
                    v.append(&mut tail);
                    return KeyDispatch {
                        dismiss_completions: dismiss,
                        action: KeyAction::Undefined(string_of(v.as_slice())),
                    };
                }
                match key.code {
                    KeyCode::Char(c) => {
                        if !key.ctrl && !key.alt {
                            KeyDispatch {
                                dismiss_completions: dismiss,
                                action: KeyAction::Execute(Command::InsertChar(c)),
                            }
                        } else {
                            KeyDispatch { dismiss_completions: dismiss, action: KeyAction::Nothing }
                        }
                    },
                    _ => KeyDispatch { dismiss_completions: dismiss, action: KeyAction::Nothing },
                }
            },
        }
    }
}

/// What incremental search does with a key.
#[derive(Debug, Clone, Copy, PartialEq, Eq, Structural)]
pub enum ISearchKeyAction {
    /// `C-s` / `C-r`: move to the next match in this direction.
    Cycle(SearchDirection),
    /// Enter: stay at the current match.
    Accept,
    /// Backspace: drop the last grapheme of the query.
    Backspace,
    /// A printable char: add it to the query.
    Input(char),
    /// Any other key: accept, then handle the key as usual.
    AcceptThenHandle,
}

/// What incremental search does with `key`.
pub fn isearch_key_action(key: KeyPress) -> (a: ISearchKeyAction)
    ensures
        a == (if key.ctrl && !key.alt && !key.shift && !key.other && key.code == KeyCode::Char('s') {
            ISearchKeyAction::Cycle(SearchDirection::Forward)
        } else if key.ctrl && !key.alt && !key.shift && !key.other && key.code == KeyCode::Char('r') {
            ISearchKeyAction::Cycle(SearchDirection::Backward)
        } else if key.plain() && key.code == KeyCode::Enter {
            ISearchKeyAction::Accept
        } else if key.plain() && key.code == KeyCode::Backspace {
            ISearchKeyAction::Backspace
        } else if !key.ctrl && !key.alt && !key.other && key.code is Char {
            ISearchKeyAction::Input(key.code->Char_0)
        } else {
            ISearchKeyAction::AcceptThenHandle
        }),
{
    let only_ctrl = key.ctrl && !key.alt && !key.shift && !key.other;
    let plain = !key.ctrl && !key.alt && !key.shift && !key.other;
    if only_ctrl && key.code == KeyCode::Char('s') {
        return ISearchKeyAction::Cycle(SearchDirection::Forward);
    }
    if only_ctrl && key.code == KeyCode::Char('r') {
        return ISearchKeyAction::Cycle(SearchDirection::Backward);
    }
    if plain && key.code == KeyCode::Enter {
        return ISearchKeyAction::Accept;
    }
    if plain && key.code == KeyCode::Backspace {
        return ISearchKeyAction::Backspace;
    }
    match key.code {
        KeyCode::Char(c) => {
            if !key.ctrl && !key.alt && !key.other {
                ISearchKeyAction::Input(c)
            } else {
                ISearchKeyAction::AcceptThenHandle
            }
        },
        _ => ISearchKeyAction::AcceptThenHandle,
    }
}

/// What Tab completes in the minibuffer.
#[derive(Debug, Clone, Copy, PartialEq, Eq, Structural)]
pub enum Completion {
    /// File paths (find-file, write-file).
    Path,
    /// Buffer names (switch-to-buffer).
    BufferName,
    /// Nothing.
    NoCompletion,
}

/// What Tab completes for a prompt of kind `kind` (none without a prompt).
pub fn completion_for(kind: Option<&PromptKind>) -> (c: Completion)
    ensures
        c == match kind {
            Some(PromptKind::FindFile) | Some(PromptKind::WriteFile) => Completion::Path,
            Some(PromptKind::SwitchBuffer) => Completion::BufferName,
            _ => Completion::NoCompletion,
        },
{
    match kind {
        Some(PromptKind::FindFile) | Some(PromptKind::WriteFile) => Completion::Path,
        Some(PromptKind::SwitchBuffer) => Completion::BufferName,
        _ => Completion::NoCompletion,
    }
}

} // verus!

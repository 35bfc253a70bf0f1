//! The editor's commands, their Emacs-style names, and lookup by name.
use vstd::prelude::*;

use crate::text::{chars_of, str_eq};

verus! {

#[derive(Debug, Clone, Copy, PartialEq, Eq, Structural)]
pub enum Command {
    // Movement
    ForwardChar,
    BackwardChar,
    ForwardWord,
    BackwardWord,
    NextLine,
    PreviousLine,
    BeginningOfLine,
    EndOfLine,
    BufferBeginning,
    BufferEnd,
    PageDown,
    PageUp,

    // Editing
    InsertChar(char),
    InsertNewline,
    IndentLine,
    DedentLine,
    DeleteBackward,
    DeleteForward,
    DeleteWordBackward,
    KillLine,

    // Undo/Redo
    Undo,
    Redo,

    // Mark/Region
    SetMark,
    SwapPointAndMark,
    Cut,
    Copy,
    Paste,

    // Files & Buffers
    Save,
    WriteFile,
    FindFile,
    SwitchBuffer,
    KillBuffer,

    // Panes
    SplitVertical,
    SplitHorizontal,
    DeletePane,
    DeleteOtherPanes,
    CycleFocus,

    // Search
    ISearchForward,
    ISearchBackward,

    // Display
    RecenterTopBottom,

    // Help
    DescribeBindings,

    // Command dispatch
    ExecuteExtended,

    // Vim-mode editing and command line
    DeleteLine,
    JoinLines,
    YankLine,
    VimCommandPrompt,

    // Misc
    Cancel,
    Quit,
    GotoLine,
}

/// Whether `prefix` is a prefix of `s`.
pub open spec fn starts_with(s: Seq<char>, prefix: Seq<char>) -> bool {
    prefix.len() <= s.len() && s.take(prefix.len() as int) == prefix
}

impl Command {
    /// The stable, Emacs-style name of a command.
    pub open spec fn spec_name(self) -> Seq<char> {
        match self {
            Command::ForwardChar => "forward-char"@,
            Command::BackwardChar => "backward-char"@,
            Command::ForwardWord => "forward-word"@,
            Command::BackwardWord => "backward-word"@,
            Command::NextLine => "next-line"@,
            Command::PreviousLine => "previous-line"@,
            Command::BeginningOfLine => "beginning-of-line"@,
            Command::EndOfLine => "end-of-line"@,
            Command::BufferBeginning => "beginning-of-buffer"@,
            Command::BufferEnd => "end-of-buffer"@,
            Command::PageDown => "scroll-up-command"@,
            Command::PageUp => "scroll-down-command"@,
            Command::InsertChar(_) => "self-insert-command"@,
            Command::InsertNewline => "newline"@,
            Command::IndentLine => "indent-for-tab-command"@,
            Command::DedentLine => "dedent-line"@,
            Command::DeleteBackward => "delete-backward-char"@,
            Command::DeleteForward => "delete-forward-char"@,
            Command::DeleteWordBackward => "backward-kill-word"@,
            Command::KillLine => "kill-line"@,
            Command::Undo => "undo"@,
            Command::Redo => "undo-redo"@,
            Command::SetMark => "set-mark-command"@,
            Command::SwapPointAndMark => "exchange-point-and-mark"@,
            Command::Cut => "kill-region"@,
            Command::Copy => "kill-ring-save"@,
            Command::Paste => "yank"@,
            Command::Save => "save-buffer"@,
            Command::WriteFile => "write-file"@,
            Command::FindFile => "find-file"@,
            Command::SwitchBuffer => "switch-to-buffer"@,
            Command::KillBuffer => "kill-buffer"@,
            Command::SplitVertical => "split-window-below"@,
            Command::SplitHorizontal => "split-window-right"@,
            Command::DeletePane => "delete-window"@,
            Command::DeleteOtherPanes => "delete-other-windows"@,
            Command::CycleFocus => "other-window"@,
            Command::ISearchForward => "isearch-forward"@,
            Command::ISearchBackward => "isearch-backward"@,
            Command::RecenterTopBottom => "recenter-top-bottom"@,
            Command::DescribeBindings => "describe-bindings"@,
            Command::ExecuteExtended => "execute-extended-command"@,
            Command::Cancel => "keyboard-quit"@,
            Command::Quit => "save-buffers-kill-terminal"@,
            Command::GotoLine => "goto-line"@,
            Command::DeleteLine => "kill-whole-line"@,
            Command::JoinLines => "join-line"@,
            Command::YankLine => "yank-line"@,
            Command::VimCommandPrompt => "vim-command-line"@,
        }
    }

    /// Stable, Emacs-style name shown by generated keybinding help.
    pub fn name(&self) -> (res: &'static str)
        ensures
            res@ == self.spec_name(),
    {
        match self {
            Self::ForwardChar => "forward-char",
            Self::BackwardChar => "backward-char",
            Self::ForwardWord => "forward-word",
            Self::BackwardWord => "backward-word",
            Self::NextLine => "next-line",
            Self::PreviousLine => "previous-line",
            Self::BeginningOfLine => "beginning-of-line",
            Self::EndOfLine => "end-of-line",
            Self::BufferBeginning => "beginning-of-buffer",
            Self::BufferEnd => "end-of-buffer",
            Self::PageDown => "scroll-up-command",
            Self::PageUp => "scroll-down-command",
            Self::InsertChar(_) => "self-insert-command",
            Self::InsertNewline => "newline",
            Self::IndentLine => "indent-for-tab-command",
            Self::DedentLine => "dedent-line",
            Self::DeleteBackward => "delete-backward-char",
            Self::DeleteForward => "delete-forward-char",
            Self::DeleteWordBackward => "backward-kill-word",
            Self::KillLine => "kill-line",
            Self::Undo => "undo",
            Self::Redo => "undo-redo",
            Self::SetMark => "set-mark-command",
            Self::SwapPointAndMark => "exchange-point-and-mark",
            Self::Cut => "kill-region",
            Self::Copy => "kill-ring-save",
            Self::Paste => "yank",
            Self::Save => "save-buffer",
            Self::WriteFile => "write-file",
            Self::FindFile => "find-file",
            Self::SwitchBuffer => "switch-to-buffer",
            Self::KillBuffer => "kill-buffer",
            Self::SplitVertical => "split-window-below",
            Self::SplitHorizontal => "split-window-right",
            Self::DeletePane => "delete-window",
            Self::DeleteOtherPanes => "delete-other-windows",
            Self::CycleFocus => "other-window",
            Self::ISearchForward => "isearch-forward",
            Self::ISearchBackward => "isearch-backward",
            Self::RecenterTopBottom => "recenter-top-bottom",
            Self::DescribeBindings => "describe-bindings",
            Self::ExecuteExtended => "execute-extended-command",
            Self::Cancel => "keyboard-quit",
            Self::Quit => "save-buffers-kill-terminal",
            Self::GotoLine => "goto-line",
            Self::DeleteLine => "kill-whole-line",
            Self::JoinLines => "join-line",
            Self::YankLine => "yank-line",
            Self::VimCommandPrompt => "vim-command-line",
        }
    }

    /// The registry of commands that can be invoked by name, in order.
    pub open spec fn registry() -> Seq<Command> {
        seq![
            Command::ForwardChar,
            Command::BackwardChar,
            Command::ForwardWord,
            Command::BackwardWord,
            Command::NextLine,
            Command::PreviousLine,
            Command::BeginningOfLine,
            Command::EndOfLine,
            Command::BufferBeginning,
            Command::BufferEnd,
            Command::PageDown,
            Command::PageUp,
            Command::InsertNewline,
            Command::IndentLine,
            Command::DedentLine,
            Command::DeleteBackward,
            Command::DeleteForward,
            Command::DeleteWordBackward,
            Command::KillLine,
            Command::Undo,
            Command::Redo,
            Command::SetMark,
            Command::SwapPointAndMark,
            Command::Cut,
            Command::Copy,
            Command::Paste,
            Command::Save,
            Command::WriteFile,
            Command::FindFile,
            Command::SwitchBuffer,
            Command::KillBuffer,
            Command::SplitVertical,
            Command::SplitHorizontal,
            Command::DeletePane,
            Command::DeleteOtherPanes,
            Command::CycleFocus,
            Command::ISearchForward,
            Command::ISearchBackward,
            Command::RecenterTopBottom,
            Command::DescribeBindings,
            Command::ExecuteExtended,
            Command::Cancel,
            Command::Quit,
            Command::GotoLine,
        ]
    }

    /// Every command that can be invoked by name. Parameterized internal
    /// commands such as `InsertChar(char)`, and the vim-mode commands, are
    /// deliberately absent.
    pub fn interactive_commands() -> (res: Vec<Command>)
        ensures
            res@ == Self::registry(),
    {
        let mut v: Vec<Command> = Vec::new();
        v.push(Command::ForwardChar);
        v.push(Command::BackwardChar);
        v.push(Command::ForwardWord);
        v.push(Command::BackwardWord);
        v.push(Command::NextLine);
        v.push(Command::PreviousLine);
        v.push(Command::BeginningOfLine);
        v.push(Command::EndOfLine);
        v.push(Command::BufferBeginning);
        v.push(Command::BufferEnd);
        v.push(Command::PageDown);
        v.push(Command::PageUp);
        v.push(Command::InsertNewline);
        v.push(Command::IndentLine);
        v.push(Command::DedentLine);
        v.push(Command::DeleteBackward);
        v.push(Command::DeleteForward);
        v.push(Command::DeleteWordBackward);
        v.push(Command::KillLine);
        v.push(Command::Undo);
        v.push(Command::Redo);
        v.push(Command::SetMark);
        v.push(Command::SwapPointAndMark);
        v.push(Command::Cut);
        v.push(Command::Copy);
        v.push(Command::Paste);
        v.push(Command::Save);
        v.push(Command::WriteFile);
        v.push(Command::FindFile);
        v.push(Command::SwitchBuffer);
        v.push(Command::KillBuffer);
        v.push(Command::SplitVertical);
        v.push(Command::SplitHorizontal);
        v.push(Command::DeletePane);
        v.push(Command::DeleteOtherPanes);
        v.push(Command::CycleFocus);
        v.push(Command::ISearchForward);
        v.push(Command::ISearchBackward);
        v.push(Command::RecenterTopBottom);
        v.push(Command::DescribeBindings);
        v.push(Command::ExecuteExtended);
        v.push(Command::Cancel);
        v.push(Command::Quit);
        v.push(Command::GotoLine);
        assert(v@ =~= Self::registry());
        v
    }

    /// The command of the registry named exactly `name`, if any.
    pub open spec fn named(name: Seq<char>) -> Option<Command> {
        if exists|i: int| 0 <= i < Self::registry().len() && (#[trigger] Self::registry()[i]).spec_name() == name {
            Some(Self::registry()[choose|i: int| 0 <= i < Self::registry().len() && (#[trigger] Self::registry()[i]).spec_name() == name])
        } else {
            None
        }
    }

    /// The commands of the registry whose name starts with `input`, in
    /// registry order.
    pub open spec fn with_prefix(input: Seq<char>) -> Seq<Command> {
        Self::registry().filter(|c: Command| starts_with(c.spec_name(), input))
    }

    /// The command named exactly `input`, else the only command whose name
    /// starts with `input`, else none.
    pub open spec fn named_or_unique_prefix(input: Seq<char>) -> Option<Command> {
        if Self::named(input) is Some {
            Self::named(input)
        } else if Self::with_prefix(input).len() == 1 {
            Some(Self::with_prefix(input)[0])
        } else {
            None
        }
    }

    /// Resolve an exact interactive command name.
    pub fn from_name(name: &str) -> (res: Option<Command>)
        ensures
            res == Self::named(name@),
    {
        let commands = Self::interactive_commands();
        let mut i: usize = 0;
        while i < commands.len()
            invariant
                commands@ == Self::registry(),
                i <= commands@.len(),
                forall|j: int| 0 <= j < i ==> (#[trigger] Self::registry()[j]).spec_name() != name@,
            decreases commands@.len() - i,
        {
            if str_eq(commands[i].name(), name) {
                proof {
                    lemma_names_unique();
                    let k = choose|k: int| 0 <= k < Self::registry().len() && (#[trigger] Self::registry()[k]).spec_name() == name@;
                    assert(k == i);
                }
                return Some(commands[i]);
            }
            i += 1;
        }
        None
    }

    /// Resolve a command when the input is either exact or a unique prefix.
    pub fn from_name_or_unique_prefix(input: &str) -> (res: Option<Command>)
        ensures
            res == Self::named_or_unique_prefix(input@),
    {
        if let Some(command) = Self::from_name(input) {
            return Some(command);
        }
        let commands = Self::interactive_commands();
        let prefix = chars_of(input);
        let mut found: Option<Command> = None;
        let mut count: usize = 0;
        let mut i: usize = 0;
        while i < commands.len()
            invariant
                commands@ == Self::registry(),
                prefix@ == input@,
                i <= commands@.len(),
                count == Self::registry().take(i as int).filter(|c: Command| starts_with(c.spec_name(), input@)).len(),
                count <= i,
                count >= 1 ==> found == Some(Self::registry().take(i as int).filter(|c: Command| starts_with(c.spec_name(), input@))[0]),
            decreases commands@.len() - i,
        {
            let name = chars_of(commands[i].name());
            let matches = is_prefix(&prefix, &name);
            proof {
                let p = |c: Command| starts_with(c.spec_name(), input@);
                let r = Self::registry();
                assert(r.take(i + 1).drop_last() =~= r.take(i as int));
                reveal(Seq::filter);
                assert(r.take(i + 1).last() == r[i as int]);
            }
            if matches {
                if count == 0 {
                    found = Some(commands[i]);
                }
                count += 1;
            }
            i += 1;
        }
        assert(Self::registry().take(commands@.len() as int) =~= Self::registry());
        if count == 1 {
            found
        } else {
            None
        }
    }
}

/// Whether `prefix` is a prefix of `s`.
pub fn is_prefix(prefix: &Vec<char>, s: &Vec<char>) -> (b: bool)
    ensures
        b == starts_with(s@, prefix@),
{
    if prefix.len() > s.len() {
        return false;
    }
    let mut i: usize = 0;
    while i < prefix.len()
        invariant
            prefix@.len() <= s@.len(),
            i <= prefix@.len(),
            forall|j: int| 0 <= j < i ==> prefix@[j] == s@[j],
        decreases prefix@.len() - i,
    {
        if prefix[i] != s[i] {
            assert(s@.take(prefix@.len() as int)[i as int] != prefix@[i as int]);
            return false;
        }
        i += 1;
    }
    assert(s@.take(prefix@.len() as int) =~= prefix@);
    true
}

/// No two commands of the registry share a name.
pub proof fn lemma_names_unique()
    ensures
        forall|i: int, j: int|
            0 <= i < j < Command::registry().len() ==> (#[trigger] Command::registry()[i]).spec_name()
                != (#[trigger] Command::registry()[j]).spec_name(),
{
    reveal_strlit("forward-char");
    reveal_strlit("backward-char");
    reveal_strlit("forward-word");
    reveal_strlit("backward-word");
    reveal_strlit("next-line");
    reveal_strlit("previous-line");
    reveal_strlit("beginning-of-line");
    reveal_strlit("end-of-line");
    reveal_strlit("beginning-of-buffer");
    reveal_strlit("end-of-buffer");
    reveal_strlit("scroll-up-command");
    reveal_strlit("scroll-down-command");
    reveal_strlit("newline");
    reveal_strlit("indent-for-tab-command");
    reveal_strlit("dedent-line");
    reveal_strlit("delete-backward-char");
    reveal_strlit("delete-forward-char");
    reveal_strlit("backward-kill-word");
    reveal_strlit("kill-line");
    reveal_strlit("undo");
    reveal_strlit("undo-redo");
    reveal_strlit("set-mark-command");
    reveal_strlit("exchange-point-and-mark");
    reveal_strlit("kill-region");
    reveal_strlit("kill-ring-save");
    reveal_strlit("yank");
    reveal_strlit("save-buffer");
    reveal_strlit("write-file");
    reveal_strlit("find-file");
    reveal_strlit("switch-to-buffer");
    reveal_strlit("kill-buffer");
    reveal_strlit("split-window-below");
    reveal_strlit("split-window-right");
    reveal_strlit("delete-window");
    reveal_strlit("delete-other-windows");
    reveal_strlit("other-window");
    reveal_strlit("isearch-forward");
    reveal_strlit("isearch-backward");
    reveal_strlit("recenter-top-bottom");
    reveal_strlit("describe-bindings");
    reveal_strlit("execute-extended-command");
    reveal_strlit("keyboard-quit");
    reveal_strlit("save-buffers-kill-terminal");
    reveal_strlit("goto-line");
    assert(Command::registry()[0] == Command::ForwardChar);
    assert(Command::ForwardChar.spec_name().len() == 12);
    assert(Command::registry()[1] == Command::BackwardChar);
    assert(Command::BackwardChar.spec_name().len() == 13);
    assert(Command::registry()[2] == Command::ForwardWord);
    assert(Command::ForwardWord.spec_name().len() == 12);
    assert(Command::registry()[3] == Command::BackwardWord);
    assert(Command::BackwardWord.spec_name().len() == 13);
    assert(Command::registry()[4] == Command::NextLine);
    assert(Command::NextLine.spec_name().len() == 9);
    assert(Command::registry()[5] == Command::PreviousLine);
    assert(Command::PreviousLine.spec_name().len() == 13);
    assert(Command::registry()[6] == Command::BeginningOfLine);
    assert(Command::BeginningOfLine.spec_name().len() == 17);
    assert(Command::registry()[7] == Command::EndOfLine);
    assert(Command::EndOfLine.spec_name().len() == 11);
    assert(Command::registry()[8] == Command::BufferBeginning);
    assert(Command::BufferBeginning.spec_name().len() == 19);
    assert(Command::registry()[9] == Command::BufferEnd);
    assert(Command::BufferEnd.spec_name().len() == 13);
    assert(Command::registry()[10] == Command::PageDown);
    assert(Command::PageDown.spec_name().len() == 17);
    assert(Command::registry()[11] == Command::PageUp);
    assert(Command::PageUp.spec_name().len() == 19);
    assert(Command::registry()[12] == Command::InsertNewline);
    assert(Command::InsertNewline.spec_name().len() == 7);
    assert(Command::registry()[13] == Command::IndentLine);
    assert(Command::IndentLine.spec_name().len() == 22);
    assert(Command::registry()[14] == Command::DedentLine);
    assert(Command::DedentLine.spec_name().len() == 11);
    assert(Command::registry()[15] == Command::DeleteBackward);
    assert(Command::DeleteBackward.spec_name().len() == 20);
    assert(Command::registry()[16] == Command::DeleteForward);
    assert(Command::DeleteForward.spec_name().len() == 19);
    assert(Command::registry()[17] == Command::DeleteWordBackward);
    assert(Command::DeleteWordBackward.spec_name().len() == 18);
    assert(Command::registry()[18] == Command::KillLine);
    assert(Command::KillLine.spec_name().len() == 9);
    assert(Command::registry()[19] == Command::Undo);
    assert(Command::Undo.spec_name().len() == 4);
    assert(Command::registry()[20] == Command::Redo);
    assert(Command::Redo.spec_name().len() == 9);
    assert(Command::registry()[21] == Command::SetMark);
    assert(Command::SetMark.spec_name().len() == 16);
    assert(Command::registry()[22] == Command::SwapPointAndMark);
    assert(Command::SwapPointAndMark.spec_name().len() == 23);
    assert(Command::registry()[23] == Command::Cut);
    assert(Command::Cut.spec_name().len() == 11);
    assert(Command::registry()[24] == Command::Copy);
    assert(Command::Copy.spec_name().len() == 14);
    assert(Command::registry()[25] == Command::Paste);
    assert(Command::Paste.spec_name().len() == 4);
    assert(Command::registry()[26] == Command::Save);
    assert(Command::Save.spec_name().len() == 11);
    assert(Command::registry()[27] == Command::WriteFile);
    assert(Command::WriteFile.spec_name().len() == 10);
    assert(Command::registry()[28] == Command::FindFile);
    assert(Command::FindFile.spec_name().len() == 9);
    assert(Command::registry()[29] == Command::SwitchBuffer);
    assert(Command::SwitchBuffer.spec_name().len() == 16);
    assert(Command::registry()[30] == Command::KillBuffer);
    assert(Command::KillBuffer.spec_name().len() == 11);
    assert(Command::registry()[31] == Command::SplitVertical);
    assert(Command::SplitVertical.spec_name().len() == 18);
    assert(Command::registry()[32] == Command::SplitHorizontal);
    assert(Command::SplitHorizontal.spec_name().len() == 18);
    assert(Command::registry()[33] == Command::DeletePane);
    assert(Command::DeletePane.spec_name().len() == 13);
    assert(Command::registry()[34] == Command::DeleteOtherPanes);
    assert(Command::DeleteOtherPanes.spec_name().len() == 20);
    assert(Command::registry()[35] == Command::CycleFocus);
    assert(Command::CycleFocus.spec_name().len() == 12);
    assert(Command::registry()[36] == Command::ISearchForward);
    assert(Command::ISearchForward.spec_name().len() == 15);
    assert(Command::registry()[37] == Command::ISearchBackward);
    assert(Command::ISearchBackward.spec_name().len() == 16);
    assert(Command::registry()[38] == Command::RecenterTopBottom);
    assert(Command::RecenterTopBottom.spec_name().len() == 19);
    assert(Command::registry()[39] == Command::DescribeBindings);
    assert(Command::DescribeBindings.spec_name().len() == 17);
    assert(Command::registry()[40] == Command::ExecuteExtended);
    assert(Command::ExecuteExtended.spec_name().len() == 24);
    assert(Command::registry()[41] == Command::Cancel);
    assert(Command::Cancel.spec_name().len() == 13);
    assert(Command::registry()[42] == Command::Quit);
    assert(Command::Quit.spec_name().len() == 26);
    assert(Command::registry()[43] == Command::GotoLine);
    assert(Command::GotoLine.spec_name().len() == 9);
    assert(Command::ForwardChar.spec_name()[8] != Command::ForwardWord.spec_name()[8]);
    assert(Command::ForwardChar.spec_name()[0] != Command::CycleFocus.spec_name()[0]);
    assert(Command::BackwardChar.spec_name()[9] != Command::BackwardWord.spec_name()[9]);
    assert(Command::BackwardChar.spec_name()[0] != Command::PreviousLine.spec_name()[0]);
    assert(Command::BackwardChar.spec_name()[0] != Command::BufferEnd.spec_name()[0]);
    assert(Command::BackwardChar.spec_name()[0] != Command::DeletePane.spec_name()[0]);
    assert(Command::BackwardChar.spec_name()[0] != Command::Cancel.spec_name()[0]);
    assert(Command::ForwardWord.spec_name()[0] != Command::CycleFocus.spec_name()[0]);
    assert(Command::BackwardWord.spec_name()[0] != Command::PreviousLine.spec_name()[0]);
    assert(Command::BackwardWord.spec_name()[0] != Command::BufferEnd.spec_name()[0]);
    assert(Command::BackwardWord.spec_name()[0] != Command::DeletePane.spec_name()[0]);
    assert(Command::BackwardWord.spec_name()[0] != Command::Cancel.spec_name()[0]);
    assert(Command::NextLine.spec_name()[0] != Command::KillLine.spec_name()[0]);
    assert(Command::NextLine.spec_name()[0] != Command::Redo.spec_name()[0]);
    assert(Command::NextLine.spec_name()[0] != Command::FindFile.spec_name()[0]);
    assert(Command::NextLine.spec_name()[0] != Command::GotoLine.spec_name()[0]);
    assert(Command::PreviousLine.spec_name()[0] != Command::BufferEnd.spec_name()[0]);
    assert(Command::PreviousLine.spec_name()[0] != Command::DeletePane.spec_name()[0]);
    assert(Command::PreviousLine.spec_name()[0] != Command::Cancel.spec_name()[0]);
    assert(Command::BeginningOfLine.spec_name()[0] != Command::PageDown.spec_name()[0]);
    assert(Command::BeginningOfLine.spec_name()[0] != Command::DescribeBindings.spec_name()[0]);
    assert(Command::EndOfLine.spec_name()[0] != Command::DedentLine.spec_name()[0]);
    assert(Command::EndOfLine.spec_name()[0] != Command::Cut.spec_name()[0]);
    assert(Command::EndOfLine.spec_name()[0] != Command::Save.spec_name()[0]);
    assert(Command::EndOfLine.spec_name()[0] != Command::KillBuffer.spec_name()[0]);
    assert(Command::BufferBeginning.spec_name()[0] != Command::PageUp.spec_name()[0]);
    assert(Command::BufferBeginning.spec_name()[0] != Command::DeleteForward.spec_name()[0]);
    assert(Command::BufferBeginning.spec_name()[0] != Command::RecenterTopBottom.spec_name()[0]);
    assert(Command::BufferEnd.spec_name()[0] != Command::DeletePane.spec_name()[0]);
    assert(Command::BufferEnd.spec_name()[0] != Command::Cancel.spec_name()[0]);
    assert(Command::PageDown.spec_name()[0] != Command::DescribeBindings.spec_name()[0]);
    assert(Command::PageUp.spec_name()[0] != Command::DeleteForward.spec_name()[0]);
    assert(Command::PageUp.spec_name()[0] != Command::RecenterTopBottom.spec_name()[0]);
    assert(Command::DedentLine.spec_name()[0] != Command::Cut.spec_name()[0]);
    assert(Command::DedentLine.spec_name()[0] != Command::Save.spec_name()[0]);
    assert(Command::DedentLine.spec_name()[0] != Command::KillBuffer.spec_name()[0]);
    assert(Command::DeleteBackward.spec_name()[7] != Command::DeleteOtherPanes.spec_name()[7]);
    assert(Command::DeleteForward.spec_name()[0] != Command::RecenterTopBottom.spec_name()[0]);
    assert(Command::DeleteWordBackward.spec_name()[0] != Command::SplitVertical.spec_name()[0]);
    assert(Command::DeleteWordBackward.spec_name()[0] != Command::SplitHorizontal.spec_name()[0]);
    assert(Command::KillLine.spec_name()[0] != Command::Redo.spec_name()[0]);
    assert(Command::KillLine.spec_name()[0] != Command::FindFile.spec_name()[0]);
    assert(Command::KillLine.spec_name()[0] != Command::GotoLine.spec_name()[0]);
    assert(Command::Undo.spec_name()[0] != Command::Paste.spec_name()[0]);
    assert(Command::Redo.spec_name()[0] != Command::FindFile.spec_name()[0]);
    assert(Command::Redo.spec_name()[0] != Command::GotoLine.spec_name()[0]);
    assert(Command::SetMark.spec_name()[1] != Command::SwitchBuffer.spec_name()[1]);
    assert(Command::SetMark.spec_name()[0] != Command::ISearchBackward.spec_name()[0]);
    assert(Command::Cut.spec_name()[0] != Command::Save.spec_name()[0]);
    assert(Command::Cut.spec_name()[5] != Command::KillBuffer.spec_name()[5]);
    assert(Command::Save.spec_name()[0] != Command::KillBuffer.spec_name()[0]);
    assert(Command::FindFile.spec_name()[0] != Command::GotoLine.spec_name()[0]);
    assert(Command::SwitchBuffer.spec_name()[0] != Command::ISearchBackward.spec_name()[0]);
    assert(Command::SplitVertical.spec_name()[13] != Command::SplitHorizontal.spec_name()[13]);
    assert(Command::DeletePane.spec_name()[0] != Command::Cancel.spec_name()[0]);
}

/// Looking a registry command up by its own name finds that command.
pub proof fn lemma_name_round_trip(i: int)
    requires
        0 <= i < Command::registry().len(),
    ensures
        Command::named(Command::registry()[i].spec_name()) == Some(Command::registry()[i]),
        Command::named_or_unique_prefix(Command::registry()[i].spec_name()) == Some(
            Command::registry()[i],
        ),
{
    lemma_names_unique();
    let name = Command::registry()[i].spec_name();
    assert(exists|k: int| 0 <= k < Command::registry().len() && (#[trigger] Command::registry()[k]).spec_name() == name);
}

/// The registry holds no parameterized `InsertChar` command.
pub proof fn lemma_registry_excludes_insert_char()
    ensures
        forall|i: int| 0 <= i < Command::registry().len() ==> !(#[trigger] Command::registry()[i] is InsertChar),
{
}

/// Whether `cmd` changes the text of the buffer it runs in.
pub open spec fn edits_text(cmd: Command) -> bool {
    match cmd {
        Command::InsertChar(_) | Command::InsertNewline | Command::IndentLine | Command::DedentLine
        | Command::DeleteBackward | Command::DeleteForward | Command::DeleteWordBackward
        | Command::KillLine | Command::Undo | Command::Redo | Command::Cut | Command::Paste => true,
        _ => false,
    }
}

/// Whether `cmd` changes the text of the buffer it runs in (such commands
/// are refused in a read-only buffer).
pub fn command_modifies_buffer(cmd: &Command) -> (b: bool)
    ensures
        b == edits_text(*cmd),
{
    match cmd {
        Command::InsertChar(_) | Command::InsertNewline | Command::IndentLine | Command::DedentLine
        | Command::DeleteBackward | Command::DeleteForward | Command::DeleteWordBackward
        | Command::KillLine | Command::Undo | Command::Redo | Command::Cut | Command::Paste => true,
        _ => false,
    }
}

/// Whether `cmd` keeps an undo group of typing or deleting open: the text
/// edits that group, and undo and redo themselves. Any other command is an
/// action that closes the group.
pub open spec fn groups_with_edits(cmd: Command) -> bool {
    match cmd {
        Command::InsertChar(_) | Command::InsertNewline | Command::IndentLine | Command::DedentLine
        | Command::DeleteBackward | Command::DeleteForward | Command::DeleteWordBackward
        | Command::KillLine | Command::Undo | Command::Redo => true,
        _ => false,
    }
}

/// How the editor starts running a command.
#[derive(Debug, Clone, Copy, PartialEq, Eq, Structural)]
pub enum ExecuteStep {
    /// The current buffer is read-only and the command would edit it.
    ReadOnly,
    /// Newline in the minibuffer submits the prompt.
    SubmitPrompt,
    /// The command does nothing while a prompt is active.
    Ignore,
    /// Run the command; `closes_undo_group` says whether it first ends the
    /// undo group of the buffer it runs in.
    Run { closes_undo_group: bool },
}

/// How the editor starts running `cmd`, given whether a prompt is active
/// and whether the current buffer is read-only. While a prompt is active,
/// newline submits it, indentation (Tab) is left to completion, and the
/// window layout and focus stay frozen.
pub fn execute_step(cmd: &Command, prompt_active: bool, read_only: bool) -> (step: ExecuteStep)
    ensures
        step == (if !prompt_active && read_only && edits_text(*cmd) {
            ExecuteStep::ReadOnly
        } else if prompt_active && *cmd == Command::InsertNewline {
            ExecuteStep::SubmitPrompt
        } else if prompt_active && (*cmd == Command::IndentLine || *cmd == Command::DedentLine
            || *cmd == Command::SplitVertical || *cmd == Command::SplitHorizontal || *cmd
            == Command::DeletePane || *cmd == Command::DeleteOtherPanes || *cmd
            == Command::CycleFocus) {
            ExecuteStep::Ignore
        } else {
            ExecuteStep::Run { closes_undo_group: !groups_with_edits(*cmd) }
        }),
{
    if !prompt_active && read_only && command_modifies_buffer(cmd) {
        return ExecuteStep::ReadOnly;
    }
    if prompt_active {
        match cmd {
            Command::InsertNewline => {
                return ExecuteStep::SubmitPrompt;
            },
            Command::IndentLine | Command::DedentLine | Command::SplitVertical
            | Command::SplitHorizontal | Command::DeletePane | Command::DeleteOtherPanes
            | Command::CycleFocus => {
                return ExecuteStep::Ignore;
            },
            _ => {},
        }
    }
    let grouped = match cmd {
        Command::InsertChar(_) | Command::InsertNewline | Command::IndentLine | Command::DedentLine
        | Command::DeleteBackward | Command::DeleteForward | Command::DeleteWordBackward
        | Command::KillLine | Command::Undo | Command::Redo => true,
        _ => false,
    };
    ExecuteStep::Run { closes_undo_group: !grouped }
}

} // verus!

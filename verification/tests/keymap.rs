use minimacs::command::Command;
use minimacs::input::KeyPress;
use minimacs::keymap::{
    default_keymap, vim_insert_keymap, vim_normal_keymap, Key, KeyCode, KeymapNode, KeymapResult,
    KeymapState,
};

fn ctrl(c: char) -> Key {
    Key { code: KeyCode::Char(c), ctrl: true, alt: false }
}

fn alt(code: KeyCode) -> Key {
    Key { code, ctrl: false, alt: true }
}

fn plain(code: KeyCode) -> Key {
    Key { code, ctrl: false, alt: false }
}

#[test]
fn single_key_lookup() {
    let keymap = default_keymap();
    let node = keymap.get(&ctrl('f'));
    assert!(node.is_some());
    assert_eq!(node.unwrap().command, Some(Command::ForwardChar));
}

#[test]
fn multi_key_chord_lookup() {
    let keymap = default_keymap();
    let cx_node = keymap.get(&ctrl('x'));
    assert!(cx_node.is_some());
    let cx = cx_node.unwrap();
    let cxcs = cx.get(&ctrl('s'));
    assert!(cxcs.is_some());
    assert_eq!(cxcs.unwrap().command, Some(Command::Save));
}

#[test]
fn keymap_state_single_key() {
    let mut state = KeymapState::new(default_keymap());
    match state.process_key(ctrl('f')) {
        KeymapResult::Matched(cmd) => assert_eq!(cmd, Command::ForwardChar),
        _ => panic!("Expected Matched"),
    }
}

#[test]
fn keymap_state_multi_key() {
    let mut state = KeymapState::new(default_keymap());
    match state.process_key(ctrl('x')) {
        KeymapResult::Pending => {}
        other => panic!("Expected Pending, got {:?}", other),
    }
    assert!(state.has_pending());
    assert!(!state.pending_display().is_empty());

    match state.process_key(ctrl('s')) {
        KeymapResult::Matched(cmd) => assert_eq!(cmd, Command::Save),
        other => panic!("Expected Matched(Save), got {:?}", other),
    }
    assert!(!state.has_pending());
}

#[test]
fn keymap_state_not_found() {
    let mut state = KeymapState::new(default_keymap());
    match state.process_key(plain(KeyCode::F(12))) {
        KeymapResult::NotFound => {}
        other => panic!("Expected NotFound, got {:?}", other),
    }
}

#[test]
fn keymap_state_clear() {
    let mut state = KeymapState::new(default_keymap());
    state.process_key(ctrl('x'));
    assert!(state.has_pending());
    state.clear();
    assert!(!state.has_pending());
}

#[test]
fn pending_display_format() {
    let mut state = KeymapState::new(default_keymap());
    state.process_key(ctrl('x'));
    assert_eq!(state.pending_display(), "C-x ");
}

#[test]
fn alt_key_lookup() {
    let mut state = KeymapState::new(default_keymap());
    match state.process_key(alt(KeyCode::Char('v'))) {
        KeymapResult::Matched(cmd) => assert_eq!(cmd, Command::PageUp),
        other => panic!("Expected Matched(PageUp), got {:?}", other),
    }
}

#[test]
fn alt_arrow_keys() {
    let mut state = KeymapState::new(default_keymap());
    match state.process_key(alt(KeyCode::Left)) {
        KeymapResult::Matched(cmd) => assert_eq!(cmd, Command::BackwardWord),
        other => panic!("Expected Matched(BackwardWord), got {:?}", other),
    }

    let mut state = KeymapState::new(default_keymap());
    match state.process_key(alt(KeyCode::Right)) {
        KeymapResult::Matched(cmd) => assert_eq!(cmd, Command::ForwardWord),
        other => panic!("Expected Matched(ForwardWord), got {:?}", other),
    }
}

#[test]
fn ctrl_underscore_undo_all_variants() {
    let mut state = KeymapState::new(default_keymap());
    match state.process_key(ctrl('_')) {
        KeymapResult::Matched(cmd) => assert_eq!(cmd, Command::Undo),
        other => panic!("Expected Matched(Undo) for ctrl('_'), got {:?}", other),
    }

    let mut state = KeymapState::new(default_keymap());
    match state.process_key(ctrl('7')) {
        KeymapResult::Matched(cmd) => assert_eq!(cmd, Command::Undo),
        other => panic!("Expected Matched(Undo) for ctrl('7'), got {:?}", other),
    }

    // Ctrl+Shift+- as the Kitty protocol reports it: the keymap sees the
    // key without Shift.
    let press = KeyPress { code: KeyCode::Char('-'), ctrl: true, alt: false, shift: true, other: false };
    let mut state = KeymapState::new(default_keymap());
    match state.process_key(press.key()) {
        KeymapResult::Matched(cmd) => assert_eq!(cmd, Command::Undo),
        other => panic!("Expected Matched(Undo) for ctrl('-'), got {:?}", other),
    }
}

#[test]
fn m_g_g_goto_line() {
    let mut state = KeymapState::new(default_keymap());
    match state.process_key(alt(KeyCode::Char('g'))) {
        KeymapResult::Pending => {}
        other => panic!("Expected Pending, got {:?}", other),
    }
    match state.process_key(plain(KeyCode::Char('g'))) {
        KeymapResult::Matched(cmd) => assert_eq!(cmd, Command::GotoLine),
        other => panic!("Expected Matched(GotoLine), got {:?}", other),
    }
}

#[test]
fn vim_normal_hjkl() {
    let cases = vec![
        ('h', Command::BackwardChar),
        ('j', Command::NextLine),
        ('k', Command::PreviousLine),
        ('l', Command::ForwardChar),
    ];
    for (c, expected) in cases {
        let mut state = KeymapState::new(vim_normal_keymap());
        match state.process_key(plain(KeyCode::Char(c))) {
            KeymapResult::Matched(cmd) => assert_eq!(cmd, expected, "key '{}'", c),
            other => panic!("Expected Matched for '{}', got {:?}", c, other),
        }
    }
}

#[test]
fn vim_normal_word_motion() {
    let mut state = KeymapState::new(vim_normal_keymap());
    match state.process_key(plain(KeyCode::Char('w'))) {
        KeymapResult::Matched(cmd) => assert_eq!(cmd, Command::ForwardWord),
        other => panic!("Expected ForwardWord, got {:?}", other),
    }

    let mut state = KeymapState::new(vim_normal_keymap());
    match state.process_key(plain(KeyCode::Char('b'))) {
        KeymapResult::Matched(cmd) => assert_eq!(cmd, Command::BackwardWord),
        other => panic!("Expected BackwardWord, got {:?}", other),
    }
}

#[test]
fn vim_normal_dd_delete_line() {
    let mut state = KeymapState::new(vim_normal_keymap());
    match state.process_key(plain(KeyCode::Char('d'))) {
        KeymapResult::Pending => {}
        other => panic!("Expected Pending for first 'd', got {:?}", other),
    }
    match state.process_key(plain(KeyCode::Char('d'))) {
        KeymapResult::Matched(cmd) => assert_eq!(cmd, Command::DeleteLine),
        other => panic!("Expected Matched(DeleteLine), got {:?}", other),
    }
}

#[test]
fn vim_normal_gg_buffer_beginning() {
    let mut state = KeymapState::new(vim_normal_keymap());
    match state.process_key(plain(KeyCode::Char('g'))) {
        KeymapResult::Pending => {}
        other => panic!("Expected Pending for first 'g', got {:?}", other),
    }
    match state.process_key(plain(KeyCode::Char('g'))) {
        KeymapResult::Matched(cmd) => assert_eq!(cmd, Command::BufferBeginning),
        other => panic!("Expected Matched(BufferBeginning), got {:?}", other),
    }
}

#[test]
fn vim_normal_yy_yank_line() {
    let mut state = KeymapState::new(vim_normal_keymap());
    match state.process_key(plain(KeyCode::Char('y'))) {
        KeymapResult::Pending => {}
        other => panic!("Expected Pending for first 'y', got {:?}", other),
    }
    match state.process_key(plain(KeyCode::Char('y'))) {
        KeymapResult::Matched(cmd) => assert_eq!(cmd, Command::YankLine),
        other => panic!("Expected Matched(YankLine), got {:?}", other),
    }
}

#[test]
fn vim_normal_colon_command() {
    let mut state = KeymapState::new(vim_normal_keymap());
    match state.process_key(plain(KeyCode::Char(':'))) {
        KeymapResult::Matched(cmd) => assert_eq!(cmd, Command::VimCommandPrompt),
        other => panic!("Expected Matched(VimCommandPrompt), got {:?}", other),
    }
}

#[test]
fn vim_normal_pane_split() {
    let mut state = KeymapState::new(vim_normal_keymap());
    match state.process_key(ctrl('w')) {
        KeymapResult::Pending => {}
        other => panic!("Expected Pending for Ctrl-w, got {:?}", other),
    }
    match state.process_key(plain(KeyCode::Char('s'))) {
        KeymapResult::Matched(cmd) => assert_eq!(cmd, Command::SplitVertical),
        other => panic!("Expected Matched(SplitVertical), got {:?}", other),
    }
}

#[test]
fn vim_insert_self_insert_fallthrough() {
    let mut state = KeymapState::new(vim_insert_keymap());
    match state.process_key(plain(KeyCode::Char('a'))) {
        KeymapResult::NotFound => {}
        other => panic!("Expected NotFound for 'a' in insert mode, got {:?}", other),
    }
}

#[test]
fn vim_insert_enter() {
    let mut state = KeymapState::new(vim_insert_keymap());
    match state.process_key(plain(KeyCode::Enter)) {
        KeymapResult::Matched(cmd) => assert_eq!(cmd, Command::InsertNewline),
        other => panic!("Expected Matched(InsertNewline), got {:?}", other),
    }
}

#[test]
fn vim_insert_backspace() {
    let mut state = KeymapState::new(vim_insert_keymap());
    match state.process_key(plain(KeyCode::Backspace)) {
        KeymapResult::Matched(cmd) => assert_eq!(cmd, Command::DeleteBackward),
        other => panic!("Expected Matched(DeleteBackward), got {:?}", other),
    }
}

#[test]
fn set_keymap_clears_pending() {
    let mut state = KeymapState::new(vim_normal_keymap());
    state.process_key(plain(KeyCode::Char('d')));
    assert!(state.has_pending());
    state.set_keymap(vim_insert_keymap());
    assert!(!state.has_pending());
}

// Further cases.

#[test]
fn bind_overrides_and_extends() {
    let mut root = KeymapNode::new();
    root.bind(&[ctrl('a'), ctrl('b')], Command::Save);
    root.bind(&[ctrl('a'), ctrl('b')], Command::Undo);
    root.bind(&[ctrl('a'), ctrl('c')], Command::Redo);
    let a = root.get(&ctrl('a')).unwrap();
    assert_eq!(a.command, None);
    assert_eq!(a.get(&ctrl('b')).unwrap().command, Some(Command::Undo));
    assert_eq!(a.get(&ctrl('c')).unwrap().command, Some(Command::Redo));
    assert!(root.get(&ctrl('b')).is_none());
}

#[test]
fn dead_end_chord_clears_pending() {
    let mut state = KeymapState::new(default_keymap());
    state.process_key(ctrl('x'));
    match state.process_key(plain(KeyCode::Char('j'))) {
        KeymapResult::NotFound => {}
        other => panic!("Expected NotFound, got {:?}", other),
    }
    assert!(!state.has_pending());
    assert_eq!(state.pending_display(), "");
}

#[test]
fn key_display_forms() {
    assert_eq!(ctrl('x').display(), "C-x");
    assert_eq!(alt(KeyCode::Left).display(), "M-Left");
    assert_eq!(Key { code: KeyCode::Enter, ctrl: true, alt: true }.display(), "C-M-RET");
    assert_eq!(plain(KeyCode::F(3)).display(), "?");
}

fn run_keys(keys: &[Key]) -> Option<Command> {
    let mut state = KeymapState::new(default_keymap());
    let mut last = None;
    for k in keys {
        last = Some(state.process_key(*k));
    }
    match last {
        Some(KeymapResult::Matched(cmd)) => Some(cmd),
        _ => None,
    }
}

#[test]
fn readme_keybindings_run_their_commands() {
    let table: Vec<(Vec<Key>, Command)> = vec![
        (vec![ctrl('f')], Command::ForwardChar),
        (vec![plain(KeyCode::Right)], Command::ForwardChar),
        (vec![ctrl('b')], Command::BackwardChar),
        (vec![plain(KeyCode::Left)], Command::BackwardChar),
        (vec![alt(KeyCode::Char('f'))], Command::ForwardWord),
        (vec![alt(KeyCode::Char('b'))], Command::BackwardWord),
        (vec![ctrl('n')], Command::NextLine),
        (vec![plain(KeyCode::Down)], Command::NextLine),
        (vec![ctrl('p')], Command::PreviousLine),
        (vec![plain(KeyCode::Up)], Command::PreviousLine),
        (vec![ctrl('a')], Command::BeginningOfLine),
        (vec![plain(KeyCode::Home)], Command::BeginningOfLine),
        (vec![ctrl('e')], Command::EndOfLine),
        (vec![plain(KeyCode::End)], Command::EndOfLine),
        (vec![ctrl('v')], Command::PageDown),
        (vec![plain(KeyCode::PageDown)], Command::PageDown),
        (vec![alt(KeyCode::Char('v'))], Command::PageUp),
        (vec![plain(KeyCode::PageUp)], Command::PageUp),
        (vec![alt(KeyCode::Char('<'))], Command::BufferBeginning),
        (vec![alt(KeyCode::Char('>'))], Command::BufferEnd),
        (vec![alt(KeyCode::Char('g')), plain(KeyCode::Char('g'))], Command::GotoLine),
        (vec![plain(KeyCode::Enter)], Command::InsertNewline),
        (vec![plain(KeyCode::Tab)], Command::IndentLine),
        (vec![plain(KeyCode::Backspace)], Command::DeleteBackward),
        (vec![ctrl('d')], Command::DeleteForward),
        (vec![plain(KeyCode::Delete)], Command::DeleteForward),
        (vec![ctrl('k')], Command::KillLine),
        (vec![ctrl('/')], Command::Undo),
        (vec![ctrl('_')], Command::Undo),
        (vec![ctrl(' ')], Command::SetMark),
        (vec![ctrl('w')], Command::Cut),
        (vec![alt(KeyCode::Char('w'))], Command::Copy),
        (vec![ctrl('y')], Command::Paste),
        (vec![ctrl('x'), ctrl('x')], Command::SwapPointAndMark),
        (vec![ctrl('x'), ctrl('f')], Command::FindFile),
        (vec![ctrl('x'), ctrl('s')], Command::Save),
        (vec![ctrl('x'), ctrl('w')], Command::WriteFile),
        (vec![ctrl('x'), plain(KeyCode::Char('b'))], Command::SwitchBuffer),
        (vec![ctrl('x'), plain(KeyCode::Char('k'))], Command::KillBuffer),
        (vec![ctrl('x'), plain(KeyCode::Char('2'))], Command::SplitVertical),
        (vec![ctrl('x'), plain(KeyCode::Char('3'))], Command::SplitHorizontal),
        (vec![ctrl('x'), plain(KeyCode::Char('0'))], Command::DeletePane),
        (vec![ctrl('x'), plain(KeyCode::Char('1'))], Command::DeleteOtherPanes),
        (vec![ctrl('x'), plain(KeyCode::Char('o'))], Command::CycleFocus),
        (vec![ctrl('s')], Command::ISearchForward),
        (vec![ctrl('r')], Command::ISearchBackward),
        (vec![ctrl('g')], Command::Cancel),
        (vec![ctrl('x'), ctrl('c')], Command::Quit),
    ];
    for (keys, command) in table {
        assert_eq!(run_keys(&keys), Some(command), "keys {:?}", keys);
    }
}

#[test]
fn describe_bindings_lists_every_binding_in_columns() {
    let ctrl = |c: char| minimacs::keymap::Key { code: minimacs::keymap::KeyCode::Char(c), ctrl: true, alt: false };
    let table = vec![
        (vec![ctrl('f')], minimacs::command::Command::ForwardChar),
        (vec![ctrl('x'), ctrl('s')], minimacs::command::Command::Save),
    ];
    let text = minimacs::help::describe_bindings(&table);
    assert_eq!(
        text,
        "Key bindings\n\nKey      Command\n-------  -------\nC-f      forward-char\nC-x C-s  save-buffer\n"
    );
    let help = minimacs::help::describe_default_bindings();
    assert!(help.starts_with("Key bindings\n\n"));
    assert!(help.contains("save-buffer"));
}

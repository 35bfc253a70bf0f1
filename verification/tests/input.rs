use minimacs::command::Command;
use minimacs::input::{
    completion_for, isearch_key_action, Completion, ISearchKeyAction, InputState, KeyAction,
    KeyPress,
};
use minimacs::isearch::SearchDirection;
use minimacs::keymap::{default_keymap, KeyCode};
use minimacs::minibuffer::PromptKind;

fn press(code: KeyCode) -> KeyPress {
    KeyPress { code, ctrl: false, alt: false, shift: false, other: false }
}

fn ctrl(c: char) -> KeyPress {
    KeyPress { code: KeyCode::Char(c), ctrl: true, alt: false, shift: false, other: false }
}

fn ch(c: char) -> KeyPress {
    press(KeyCode::Char(c))
}

#[test]
fn chord_runs_its_command() {
    let mut input = InputState::new(default_keymap());
    let d = input.handle_key(ctrl('x'), false, false);
    assert!(matches!(d.action, KeyAction::Pending));
    assert_eq!(input.pending_display(), "C-x ");
    let d = input.handle_key(ctrl('s'), false, false);
    assert!(matches!(d.action, KeyAction::Execute(Command::Save)));
    assert_eq!(input.pending_display(), "");
}

#[test]
fn dead_end_chord_is_reported_not_inserted() {
    let mut input = InputState::new(default_keymap());
    input.handle_key(ctrl('x'), false, false);
    match input.handle_key(ch('j'), false, false).action {
        KeyAction::Undefined(m) => assert_eq!(m, "C-x j is undefined"),
        other => panic!("unexpected {other:?}"),
    }
}

#[test]
fn printable_keys_insert_themselves() {
    let mut input = InputState::new(default_keymap());
    assert!(matches!(
        input.handle_key(ch('q'), false, false).action,
        KeyAction::Execute(Command::InsertChar('q'))
    ));
    let shifted = KeyPress { code: KeyCode::Char('Q'), ctrl: false, alt: false, shift: true, other: false };
    assert!(matches!(
        input.handle_key(shifted, false, false).action,
        KeyAction::Execute(Command::InsertChar('Q'))
    ));
    assert!(matches!(input.handle_key(press(KeyCode::F(9)), false, false).action, KeyAction::Nothing));
}

#[test]
fn escape_makes_the_next_key_meta() {
    let mut input = InputState::new(default_keymap());
    assert!(matches!(input.handle_key(press(KeyCode::Esc), false, false).action, KeyAction::AwaitMeta));
    assert_eq!(input.pending_display(), "ESC ");
    assert!(matches!(
        input.handle_key(ch('v'), false, false).action,
        KeyAction::Execute(Command::PageUp)
    ));
    assert!(!input.esc_pending);
}

#[test]
fn control_g_cancels_everything() {
    let mut input = InputState::new(default_keymap());
    input.handle_key(ctrl('x'), false, false);
    input.handle_key(press(KeyCode::Esc), false, false);
    let d = input.handle_key(ctrl('g'), false, true);
    assert!(matches!(d.action, KeyAction::Cancel));
    assert!(!d.dismiss_completions);
    assert_eq!(input.pending_display(), "");
}

#[test]
fn minibuffer_takes_enter_and_tab() {
    let mut input = InputState::new(default_keymap());
    assert!(matches!(input.handle_key(press(KeyCode::Enter), false, true).action, KeyAction::SubmitPrompt));
    assert!(matches!(input.handle_key(press(KeyCode::Tab), false, true).action, KeyAction::CompleteInput));
    let d = input.handle_key(ch('a'), false, true);
    assert!(d.dismiss_completions);
    assert!(matches!(d.action, KeyAction::Execute(Command::InsertChar('a'))));
}

#[test]
fn isearch_takes_keys_first() {
    let mut input = InputState::new(default_keymap());
    input.handle_key(press(KeyCode::Esc), false, false);
    match input.handle_key(ch('x'), true, false).action {
        KeyAction::ISearch(k) => {
            assert_eq!(k.code, KeyCode::Char('x'));
            assert!(k.alt);
        }
        other => panic!("unexpected {other:?}"),
    }
}

#[test]
fn isearch_key_actions() {
    assert_eq!(isearch_key_action(ctrl('s')), ISearchKeyAction::Cycle(SearchDirection::Forward));
    assert_eq!(isearch_key_action(ctrl('r')), ISearchKeyAction::Cycle(SearchDirection::Backward));
    assert_eq!(isearch_key_action(press(KeyCode::Enter)), ISearchKeyAction::Accept);
    assert_eq!(isearch_key_action(press(KeyCode::Backspace)), ISearchKeyAction::Backspace);
    assert_eq!(isearch_key_action(ch('a')), ISearchKeyAction::Input('a'));
    let shifted = KeyPress { code: KeyCode::Char('A'), ctrl: false, alt: false, shift: true, other: false };
    assert_eq!(isearch_key_action(shifted), ISearchKeyAction::Input('A'));
    assert_eq!(isearch_key_action(ctrl('f')), ISearchKeyAction::AcceptThenHandle);
    assert_eq!(isearch_key_action(press(KeyCode::Left)), ISearchKeyAction::AcceptThenHandle);
}

#[test]
fn tab_completion_kinds() {
    assert_eq!(completion_for(Some(&PromptKind::FindFile)), Completion::Path);
    assert_eq!(completion_for(Some(&PromptKind::WriteFile)), Completion::Path);
    assert_eq!(completion_for(Some(&PromptKind::SwitchBuffer)), Completion::BufferName);
    assert_eq!(completion_for(Some(&PromptKind::GotoLine)), Completion::NoCompletion);
    assert_eq!(completion_for(None), Completion::NoCompletion);
}

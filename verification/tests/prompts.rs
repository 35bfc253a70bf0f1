use minimacs::command::Command;
use minimacs::minibuffer::PromptKind;
use minimacs::prompts::{
    is_blank, parse_usize, path_from_input, prompt_outcome, validated_path_from_input,
    write_file_step, default_path_prompt_input, drop_from_quit, next_quit_prompt, PromptOutcome,
    WriteStep,
};

#[test]
fn parses_like_std() {
    for s in ["0", "7", "+7", "0012", "18446744073709551615", "", "+", "-1", "1 ", "x1", "18446744073709551616", "99999999999999999999x"] {
        assert_eq!(parse_usize(s), s.parse::<usize>().ok(), "input {s:?}");
    }
}

#[test]
fn blank_input() {
    assert!(is_blank(""));
    assert!(is_blank(" \t\n"));
    assert!(is_blank("\u{2003}"));
    assert!(!is_blank(" a "));
}

#[test]
fn path_input_resolves_against_cwd() {
    assert_eq!(path_from_input("foo/../bar.txt", "/work", None), "/work/bar.txt");
    assert_eq!(path_from_input("/abs/./x", "/work", None), "/abs/x");
    assert_eq!(path_from_input("../up", "/work/sub", None), "/work/up");
    assert_eq!(path_from_input("~/notes", "/work", Some("/home/u")), "/home/u/notes");
    assert_eq!(path_from_input(".", "/work", None), "");
}

#[test]
fn path_prompt_validation() {
    assert_eq!(validated_path_from_input("  ", "/w", None), None);
    assert_eq!(validated_path_from_input("a/..", "/w", None), None);
    assert_eq!(validated_path_from_input("f.txt", "/w", None), Some("/w/f.txt".to_string()));
}

#[test]
fn find_file_outcomes() {
    match prompt_outcome(&PromptKind::FindFile, "notes.md", "/w", None) {
        PromptOutcome::OpenFile(p) => assert_eq!(p, "/w/notes.md"),
        other => panic!("unexpected {other:?}"),
    }
    match prompt_outcome(&PromptKind::FindFile, " ", "/w", None) {
        PromptOutcome::ReaskPath(label) => assert_eq!(label, "Find file (path required): "),
        other => panic!("unexpected {other:?}"),
    }
    match prompt_outcome(&PromptKind::WriteFile, ".", "/w", None) {
        PromptOutcome::ReaskPath(label) => assert_eq!(label, "Write file (path required): "),
        other => panic!("unexpected {other:?}"),
    }
    match prompt_outcome(&PromptKind::WriteFile, "/tmp/out", "/w", None) {
        PromptOutcome::WriteFile(p) => assert_eq!(p, "/tmp/out"),
        other => panic!("unexpected {other:?}"),
    }
}

#[test]
fn command_and_buffer_outcomes() {
    assert!(matches!(
        prompt_outcome(&PromptKind::ExecuteExtendedCommand, "find-f", "/w", None),
        PromptOutcome::RunCommand(Command::FindFile)
    ));
    match prompt_outcome(&PromptKind::ExecuteExtendedCommand, "nonsense", "/w", None) {
        PromptOutcome::CommandRequired(label) => assert_eq!(label, "M-x (command required) "),
        other => panic!("unexpected {other:?}"),
    }
    match prompt_outcome(&PromptKind::SwitchBuffer, "notes", "/w", None) {
        PromptOutcome::SwitchBuffer(name) => assert_eq!(name, "notes"),
        other => panic!("unexpected {other:?}"),
    }
    assert!(matches!(prompt_outcome(&PromptKind::ISearch, "x", "/w", None), PromptOutcome::AcceptSearch));
}

#[test]
fn goto_line_outcomes() {
    assert!(matches!(prompt_outcome(&PromptKind::GotoLine, "3", "/w", None), PromptOutcome::GotoLine(2)));
    assert!(matches!(prompt_outcome(&PromptKind::GotoLine, "0", "/w", None), PromptOutcome::InvalidLineNumber));
    assert!(matches!(prompt_outcome(&PromptKind::GotoLine, "x", "/w", None), PromptOutcome::InvalidLineNumber));
    assert!(matches!(prompt_outcome(&PromptKind::GotoLine, "+1", "/w", None), PromptOutcome::GotoLine(0)));
}

#[test]
fn confirmation_outcomes() {
    let kill = PromptKind::KillConfirm { buffer_id: 4 };
    assert!(matches!(prompt_outcome(&kill, "Y", "/w", None), PromptOutcome::KillBuffer(4)));
    assert!(matches!(prompt_outcome(&kill, "n", "/w", None), PromptOutcome::Dismiss));
    assert!(matches!(prompt_outcome(&kill, "yes", "/w", None), PromptOutcome::AskAgain));

    let over = PromptKind::OverwriteConfirm { buffer_id: 2, path: "/x".to_string() };
    match prompt_outcome(&over, "y", "/w", None) {
        PromptOutcome::WriteBufferTo { buffer_id, path } => {
            assert_eq!(buffer_id, 2);
            assert_eq!(path, "/x");
        }
        other => panic!("unexpected {other:?}"),
    }
    assert!(matches!(prompt_outcome(&over, "N", "/w", None), PromptOutcome::OverwriteCancelled));
    assert!(matches!(prompt_outcome(&over, "", "/w", None), PromptOutcome::AskAgain));

    let save = PromptKind::SaveAnywayConfirm { buffer_id: 1, resume_quit: true };
    assert!(matches!(
        prompt_outcome(&save, "y", "/w", None),
        PromptOutcome::SaveBuffer { buffer_id: 1, resume_quit: true }
    ));
    assert!(matches!(
        prompt_outcome(&save, "n", "/w", None),
        PromptOutcome::SaveCancelled { resume_quit: true }
    ));

    let quit = PromptKind::QuitSaveConfirm { buffer_id: 9 };
    assert!(matches!(prompt_outcome(&quit, "y", "/w", None), PromptOutcome::QuitSave(9)));
    assert!(matches!(prompt_outcome(&quit, "N", "/w", None), PromptOutcome::QuitSkip(9)));
    assert!(matches!(prompt_outcome(&quit, "q", "/w", None), PromptOutcome::QuitCancel));
    assert!(matches!(prompt_outcome(&quit, "A", "/w", None), PromptOutcome::QuitAbort));
    assert!(matches!(prompt_outcome(&quit, "z", "/w", None), PromptOutcome::QuitAskAgain));
}

#[test]
fn write_file_steps() {
    assert_eq!(write_file_step(true, false, false), WriteStep::ConfirmOverwrite);
    assert_eq!(write_file_step(true, true, true), WriteStep::ConfirmChangedOnDisk);
    assert_eq!(write_file_step(true, true, false), WriteStep::Write);
    assert_eq!(write_file_step(false, false, true), WriteStep::Write);
}

#[test]
fn quit_sequence_skips_buffers_no_longer_modified() {
    let mut pending = vec![3, 5, 7];
    let bufs = vec![(3, false), (5, true), (7, true)];
    assert_eq!(next_quit_prompt(&mut pending, &bufs), Some(5));
    assert_eq!(pending, vec![5, 7]);
    drop_from_quit(&mut pending, 5);
    assert_eq!(pending, vec![7]);
    assert_eq!(next_quit_prompt(&mut pending, &bufs), Some(7));
    drop_from_quit(&mut pending, 7);
    assert_eq!(next_quit_prompt(&mut pending, &bufs), None);
    assert!(pending.is_empty());
}

#[test]
fn quit_sequence_drops_buffers_that_are_gone() {
    let mut pending = vec![9, 2];
    let bufs = vec![(2, true)];
    assert_eq!(next_quit_prompt(&mut pending, &bufs), Some(2));
    assert_eq!(pending, vec![2]);
    let mut none_left = vec![4];
    assert_eq!(next_quit_prompt(&mut none_left, &[(4, false)]), None);
    assert!(none_left.is_empty());
}

#[test]
fn path_prompts_start_in_the_buffer_directory() {
    assert_eq!(default_path_prompt_input(Some("/home/u/src/main.rs"), "/tmp"), "/home/u/src/");
    assert_eq!(default_path_prompt_input(Some("/main.rs"), "/tmp"), "/");
    assert_eq!(default_path_prompt_input(None, "/tmp"), "/tmp/");
    assert_eq!(default_path_prompt_input(None, "/tmp/"), "/tmp/");
    assert_eq!(default_path_prompt_input(Some("/"), "/work"), "/work/");
}

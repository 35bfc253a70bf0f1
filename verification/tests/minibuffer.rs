use minimacs::minibuffer::{
    common_prefix, complete_buffer, complete_buffer_with_candidates, Minibuffer, MinibufferState,
    Prompt, PromptKind,
};
use minimacs::path::expand_tilde_with;

#[test]
fn minibuffer_state_transitions() {
    let mut mb = Minibuffer::new();
    assert!(!mb.is_active());

    mb.start_prompt(PromptKind::FindFile, "Find file: ");
    assert!(mb.is_active());

    mb.cancel();
    assert!(!mb.is_active());
    assert_eq!(mb.message, Some("Quit".to_string()));
}

#[test]
fn common_prefix_works() {
    assert_eq!(
        common_prefix(&["foo".into(), "foobar".into(), "foobaz".into()]),
        Some("foo".into())
    );
    assert_eq!(common_prefix(&["abc".into(), "xyz".into()]), None);
}

#[test]
fn buffer_name_completion() {
    let result = complete_buffer(
        "t",
        &["test.txt".into(), "todo.md".into(), "other.rs".into()],
    );
    assert_eq!(result, "t");
}

#[test]
fn buffer_name_single_completion() {
    let result = complete_buffer(
        "te",
        &["test.txt".into(), "todo.md".into(), "other.rs".into()],
    );
    assert_eq!(result, "test.txt");
}

#[test]
fn minibuffer_prompt_idle() {
    let mb = Minibuffer::new();
    assert!(mb.prompt().is_none());
}

#[test]
fn minibuffer_prompt_mut_idle() {
    let mut mb = Minibuffer::new();
    assert!(mb.prompt_mut().is_none());
}

#[test]
fn minibuffer_finish() {
    let mut mb = Minibuffer::new();
    mb.start_prompt(PromptKind::FindFile, "Find file: ");
    assert!(mb.is_active());
    mb.finish();
    assert!(!mb.is_active());
}

#[test]
fn finish_clears_stale_message() {
    let mut mb = Minibuffer::new();
    mb.start_prompt(PromptKind::FindFile, "Find file: ");
    mb.show_message("Mark set".to_string());
    mb.finish();
    assert_eq!(mb.message, None);
}

#[test]
fn start_prompt_clears_message() {
    let mut mb = Minibuffer::new();
    mb.show_message("old".to_string());
    mb.start_prompt(PromptKind::FindFile, "Find file: ");
    assert_eq!(mb.message, None);
}

#[test]
fn minibuffer_show_message() {
    let mut mb = Minibuffer::new();
    mb.show_message("hello".to_string());
    assert_eq!(mb.message, Some("hello".to_string()));
}

#[test]
fn common_prefix_unsorted_input() {
    assert_eq!(
        common_prefix(&["abc".into(), "a".into(), "abd".into()]),
        Some("a".to_string())
    );
}

#[test]
fn common_prefix_multibyte_divergence() {
    assert_eq!(common_prefix(&["éa".into(), "üb".into()]), None);
    assert_eq!(
        common_prefix(&["éa".into(), "éb".into()]),
        Some("é".to_string())
    );
}

#[test]
fn common_prefix_empty_list() {
    assert_eq!(common_prefix(&[]), None);
}

#[test]
fn buffer_candidates_multiple_matches_sorted() {
    let names = vec!["test.txt".into(), "todo.md".into(), "other.rs".into()];
    let (completed, candidates) = complete_buffer_with_candidates("t", &names);
    assert_eq!(completed, "t");
    assert_eq!(candidates, vec!["test.txt", "todo.md"]);
}

#[test]
fn buffer_candidates_single_match() {
    let names = vec!["test.txt".into(), "todo.md".into()];
    let (completed, candidates) = complete_buffer_with_candidates("te", &names);
    assert_eq!(completed, "test.txt");
    assert!(candidates.is_empty());
}

#[test]
fn buffer_candidates_no_match() {
    let names = vec!["test.txt".into(), "todo.md".into()];
    let (completed, candidates) = complete_buffer_with_candidates("zzz", &names);
    assert_eq!(completed, "zzz");
    assert!(candidates.is_empty());
}

#[test]
fn tilde_expands_to_home() {
    assert_eq!(
        expand_tilde_with("~/foo/bar.txt", Some("/home/u")),
        "/home/u/foo/bar.txt"
    );
    assert_eq!(expand_tilde_with("~", Some("/home/u")), "/home/u");
    assert_eq!(expand_tilde_with("~/", Some("/home/u/")), "/home/u/");
}

#[test]
fn tilde_not_expanded_mid_path_or_for_named_user() {
    assert_eq!(expand_tilde_with("/a/~/b", Some("/home/u")), "/a/~/b");
    assert_eq!(
        expand_tilde_with("~other/foo", Some("/home/u")),
        "~other/foo"
    );
    assert_eq!(expand_tilde_with("~/foo", None), "~/foo");
}

// Further cases.

#[test]
fn tilde_with_trailing_slash_home() {
    assert_eq!(expand_tilde_with("~/a", Some("/home/u/")), "/home/u/a");
    assert_eq!(expand_tilde_with("~/", Some("/home/u")), "/home/u/");
}

#[test]
fn common_prefix_single_string_is_itself() {
    assert_eq!(common_prefix(&["abc".into()]), Some("abc".to_string()));
    assert_eq!(common_prefix(&["".into()]), None);
}

#[test]
fn buffer_candidates_are_sorted_whatever_the_input_order() {
    let names = vec!["tb".into(), "ta".into(), "tc".into()];
    let (completed, candidates) = complete_buffer_with_candidates("t", &names);
    assert_eq!(completed, "t");
    assert_eq!(candidates, vec!["ta", "tb", "tc"]);
}

#[test]
fn prompt_mut_edits_the_active_prompt() {
    let mut mb = Minibuffer::new();
    mb.start_prompt(PromptKind::GotoLine, "Goto line: ");
    if let Some(p) = mb.prompt_mut() {
        p.label = "Line: ".to_string();
    }
    assert_eq!(mb.prompt().unwrap().label, "Line: ");
    assert_eq!(mb.prompt().unwrap().kind, PromptKind::GotoLine);
}

#[test]
fn dismiss_completions_keeps_prompt_and_message() {
    let mut mb = Minibuffer::new();
    mb.start_prompt(PromptKind::SwitchBuffer, "Switch to buffer: ");
    mb.completions = Some(vec!["a".to_string()]);
    mb.completion_page = 3;
    mb.dismiss_completions();
    assert!(mb.is_active());
    assert!(mb.completions.is_none());
    assert_eq!(mb.completion_page, 0);
}

#[test]
fn prompt_new_keeps_kind_and_label() {
    let p = Prompt::new(PromptKind::KillConfirm { buffer_id: 3 }, "Kill? ");
    assert_eq!(p.kind, PromptKind::KillConfirm { buffer_id: 3 });
    assert_eq!(p.label, "Kill? ");
    let mb = Minibuffer::new();
    assert!(matches!(mb.state, MinibufferState::Idle));
}

#[test]
fn common_prefix_is_the_same_in_any_order() {
    let a = vec!["interval".to_string(), "internal".to_string(), "inter".to_string()];
    let b = vec!["inter".to_string(), "internal".to_string(), "interval".to_string(), "inter".to_string()];
    assert_eq!(common_prefix(&a), Some("inter".to_string()));
    assert_eq!(common_prefix(&a), common_prefix(&b));
}

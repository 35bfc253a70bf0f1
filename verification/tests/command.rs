use minimacs::command::Command;

#[test]
fn interactive_command_names_are_unique() {
    let mut names: Vec<_> = Command::interactive_commands()
        .iter()
        .map(Command::name)
        .collect();
    let original_len = names.len();
    names.sort_unstable();
    names.dedup();
    assert_eq!(names.len(), original_len);
}

#[test]
fn command_lookup_uses_the_interactive_registry() {
    assert_eq!(Command::from_name("find-file"), Some(Command::FindFile));
    assert_eq!(Command::from_name("not-a-command"), None);
    assert!(!Command::interactive_commands()
        .iter()
        .any(|command| matches!(command, Command::InsertChar(_))));
}

#[test]
fn command_names_round_trip() {
    for command in Command::interactive_commands() {
        assert_eq!(Command::from_name(command.name()), Some(command));
    }
}

#[test]
fn insert_char_is_named_but_not_registered() {
    assert_eq!(Command::InsertChar('x').name(), "self-insert-command");
    assert_eq!(Command::from_name("self-insert-command"), None);
}

#[test]
fn unique_prefix_resolves_and_ambiguous_prefix_does_not() {
    assert_eq!(
        Command::from_name_or_unique_prefix("find-f"),
        Some(Command::FindFile)
    );
    // An exact name wins even when it also prefixes other names.
    assert_eq!(
        Command::from_name_or_unique_prefix("find-file"),
        Some(Command::FindFile)
    );
    assert_eq!(Command::from_name_or_unique_prefix("zzz"), None);
    assert_eq!(Command::from_name_or_unique_prefix(""), None);
}

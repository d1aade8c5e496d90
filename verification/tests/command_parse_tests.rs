use bif::cli::cli_error::CliError;
use bif::cli::command::{resolve_command, Command, DeleteSpec, ReadSpec};

fn args(a: &[&str]) -> Vec<String> {
    a.iter().map(|s| s.to_string()).collect()
}

#[test]
fn parse_empty_and_help() {
    assert!(matches!(Command::parse(&args(&[])), Some(Command::HELP)));
    assert!(matches!(Command::parse(&args(&["help"])), Some(Command::HELP)));
}

#[test]
fn parse_init_forms() {
    match Command::parse(&args(&["init"])) {
        Some(Command::INIT { name_of_new_log, config_path }) => {
            assert!(name_of_new_log.is_none());
            assert!(config_path.is_none());
        }
        other => panic!("unexpected: {other:?}"),
    }
    match Command::parse(&args(&["init", "daily"])) {
        Some(Command::INIT { name_of_new_log, config_path }) => {
            assert_eq!(name_of_new_log.as_deref(), Some("daily"));
            assert!(config_path.is_none());
        }
        other => panic!("unexpected: {other:?}"),
    }
    match Command::parse(&args(&["init", "--config", "cfg.json"])) {
        Some(Command::INIT { name_of_new_log, config_path }) => {
            assert!(name_of_new_log.is_none());
            assert_eq!(config_path.as_deref(), Some("cfg.json"));
        }
        other => panic!("unexpected: {other:?}"),
    }
    match Command::parse(&args(&["init", "daily", "--config", "cfg.json"])) {
        Some(Command::INIT { name_of_new_log, config_path }) => {
            assert_eq!(name_of_new_log.as_deref(), Some("daily"));
            assert_eq!(config_path.as_deref(), Some("cfg.json"));
        }
        other => panic!("unexpected: {other:?}"),
    }
    assert!(Command::parse(&args(&["init", "a", "b"])).is_none());
    assert!(Command::parse(&args(&["init", "a", "b", "c"])).is_none());
    assert!(Command::parse(&args(&["init", "a", "--config", "c", "d"])).is_none());
}

#[test]
fn parse_track_needs_one_name() {
    match Command::parse(&args(&["track", "log.bif"])) {
        Some(Command::TRACK { name_of_log }) => assert_eq!(name_of_log, "log.bif"),
        other => panic!("unexpected: {other:?}"),
    }
    assert!(Command::parse(&args(&["track"])).is_none());
    assert!(Command::parse(&args(&["track", "a", "b"])).is_none());
}

#[test]
fn parse_new_joins_words() {
    match Command::parse(&args(&["new", "hello", "big", "world"])) {
        Some(Command::NEW { body }) => assert_eq!(body, "hello big world"),
        other => panic!("unexpected: {other:?}"),
    }
    assert!(Command::parse(&args(&["new"])).is_none());
}

#[test]
fn parse_unknown_first_word_is_a_new_entry() {
    match Command::parse(&args(&["buy", "milk"])) {
        Some(Command::NEW { body }) => assert_eq!(body, "buy milk"),
        other => panic!("unexpected: {other:?}"),
    }
}

#[test]
fn parse_delete_forms() {
    assert!(matches!(
        Command::parse(&args(&["delete"])),
        Some(Command::DELETE { spec: None })
    ));
    assert!(matches!(
        Command::parse(&args(&["delete", "3"])),
        Some(Command::DELETE { spec: Some(DeleteSpec::CountFromEnd(3)) })
    ));
    assert!(matches!(
        Command::parse(&args(&["delete", " -2 "])),
        Some(Command::DELETE { spec: Some(DeleteSpec::IndexFromEnd(2)) })
    ));
    assert!(matches!(
        Command::parse(&args(&["delete", "+4"])),
        Some(Command::DELETE { spec: Some(DeleteSpec::CountFromEnd(4)) })
    ));
    assert!(Command::parse(&args(&["delete", "0"])).is_none());
    assert!(Command::parse(&args(&["delete", "-0"])).is_none());
    assert!(Command::parse(&args(&["delete", "x"])).is_none());
    assert!(Command::parse(&args(&["delete", "  "])).is_none());
    assert!(Command::parse(&args(&["delete", "99999999999999999999"])).is_none());
    assert!(Command::parse(&args(&["delete", "1", "2"])).is_none());
}

#[test]
fn parse_read_raw_count_and_index() {
    assert!(matches!(
        Command::parse(&args(&["read", "5"])),
        Some(Command::READ { spec: Some(ReadSpec::CountFromEnd(5)), pretty: false })
    ));
    assert!(matches!(
        Command::parse(&args(&["read", "-1"])),
        Some(Command::READ { spec: Some(ReadSpec::IndexFromEnd(1)), pretty: false })
    ));
    // `--pretty` may come after the number too.
    assert!(matches!(
        Command::parse(&args(&["read", "2", "--pretty"])),
        Some(Command::READ { spec: Some(ReadSpec::CountFromEnd(2)), pretty: true })
    ));
    assert!(Command::parse(&args(&["read", "0"])).is_none());
    assert!(Command::parse(&args(&["read", "1", "2"])).is_none());
    assert!(Command::parse(&args(&["read", "abc"])).is_none());
}

#[test]
fn parse_config_forms() {
    match Command::parse(&args(&["config", "set", "cfg.json", "--local"])) {
        Some(Command::CONFIG_SET_LOCAL { path }) => assert_eq!(path, "cfg.json"),
        other => panic!("unexpected: {other:?}"),
    }
    match Command::parse(&args(&["config", "set", "--local", "cfg.json"])) {
        Some(Command::CONFIG_SET_LOCAL { path }) => assert_eq!(path, "cfg.json"),
        other => panic!("unexpected: {other:?}"),
    }
    assert!(Command::parse(&args(&["config"])).is_none());
    assert!(Command::parse(&args(&["config", "get"])).is_none());
    assert!(Command::parse(&args(&["config", "set", "cfg.json"])).is_none());
    assert!(Command::parse(&args(&["config", "set", "a", "b"])).is_none());
}

#[test]
fn resolve_command_refuses_unparsable_arguments() {
    match resolve_command(&args(&["track"])) {
        Err(CliError::UnknownCommand { got }) => assert_eq!(got, "track"),
        other => panic!("unexpected: {other:?}"),
    }
    match resolve_command(&args(&["new"])) {
        Err(CliError::UnknownCommand { got }) => assert_eq!(got, "new"),
        other => panic!("unexpected: {other:?}"),
    }
    assert!(matches!(resolve_command(&args(&[])), Ok(Command::HELP)));
}

//! Tests for command parsing.

use groups_bot::errors::CommandParseError;
use groups_bot::types::Command;

#[test]
fn command_parse_str_ok() {
    let text_simple: String = "/help".into();
    let text_params = "/list all";

    let command_simple = Command::try_from(&*text_simple).unwrap();
    let command_params = Command::try_from(text_params).unwrap();

    assert_eq!(command_simple.name, "help");
    assert_eq!(command_simple.params, Vec::<String>::new());
    assert_eq!(command_params.name, "list");
    assert_eq!(command_params.params, vec!["all"]);
}

#[test]
fn command_parse_string_err() {
    let texts = vec![
        "",
        "/",
        "no initial slash",
        " /preceding space",
        "/ params but no name",
    ];

    for &text in texts.iter() {
        assert!(Command::try_from(text).is_err());
    }
}

#[test]
fn command_parse_rejects_empty_name_with_receiver() {
    assert!(Command::try_from("/@Bot").is_err());
}

#[test]
fn command_parse_error_is_no_command() {
    match Command::try_from("plain text") {
        Err(CommandParseError::NoCommand) => (),
        other => panic!("expected NoCommand, got {:?}", other),
    }
    assert_eq!(
        CommandParseError::NoCommand.description(),
        "Could not parse the command."
    );
}

#[test]
fn command_parse_extracts_receiver() {
    let command = Command::try_from("/add@GroupsBot Bot Dev https://telegram.me/xyz").unwrap();
    assert_eq!(command.name, "add");
    assert_eq!(command.receiver, Some("GroupsBot".to_string()));
    assert_eq!(command.params, vec!["Bot", "Dev", "https://telegram.me/xyz"]);
}

#[test]
fn command_parse_no_receiver_means_none() {
    let command = Command::try_from("/groups").unwrap();
    assert_eq!(command.receiver, None);
    assert!(command.params.is_empty());
}

#[test]
fn command_parse_keeps_empty_params_between_spaces() {
    let command = Command::try_from("/add a  b").unwrap();
    assert_eq!(command.name, "add");
    assert_eq!(command.params, vec!["a", "", "b"]);
}

#[test]
fn command_parse_empty_receiver_after_at() {
    let command = Command::try_from("/help@").unwrap();
    assert_eq!(command.name, "help");
    assert_eq!(command.receiver, Some(String::new()));
}

#[test]
fn command_to_text_round_trip() {
    let command = Command::try_from("/list all").unwrap();
    assert_eq!(command.to_text(), "/list all");
    let bare = Command::try_from("/help").unwrap();
    assert_eq!(bare.to_text(), "/help ");
}

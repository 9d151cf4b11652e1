use irc_relay::codec::CodecError;
use irc_relay::codec::Command;
use irc_relay::codec::Message;
use irc_relay::codec::ParseError;
use irc_relay::codec::ReplyCode;
use irc_relay::codec::Response;
use irc_relay::codec::ToIrc;

#[test]
fn parse_privmsg_with_prefix() {
    let m = Message::from(":nick!user@host PRIVMSG #room :hello world").unwrap();
    assert_eq!(m.prefix, Some("nick!user@host".to_string()));
    assert_eq!(m.command, Command::PrivMsg);
    assert_eq!(m.params, vec!["#room".to_string(), "hello world".to_string()]);
}

#[test]
fn parse_join_skips_empty_tokens() {
    let m = Message::from("join  #a").unwrap();
    assert_eq!(m.prefix, None);
    assert_eq!(m.command, Command::Join);
    assert_eq!(m.params, vec!["#a".to_string()]);
}

#[test]
fn parse_empty_is_invalid_input() {
    let e = Message::from("").unwrap_err();
    assert_eq!(e, ParseError::InvalidInput);
    assert_eq!(e.message(), "Input string does not contain a command.");
}

#[test]
fn parse_trims_line_ending() {
    let m = Message::from("PING\r\n").unwrap();
    assert_eq!(m.command, Command::Ping);
    assert!(m.params.is_empty());
}

#[test]
fn serialize_space_param_goes_last_with_colon() {
    let m = Message::new(None, Command::PrivMsg, &[":foo", "hello world"]);
    assert_eq!(m.to_line().unwrap(), "PRIVMSG :foo :hello world");
}

#[test]
fn serialize_reorders_lone_space_param() {
    let m = Message::new(None, Command::PrivMsg, &["a b", "x"]);
    assert_eq!(m.to_line().unwrap(), "PRIVMSG x :a b");
}

#[test]
fn serialize_refuses_two_space_params() {
    let m = Message::new(None, Command::PrivMsg, &["a b", "c d"]);
    assert_eq!(m.to_line().unwrap_err(), CodecError::MultipleTrailing);
    assert!(m.to_irc().is_err());
}

#[test]
fn to_irc_appends_crlf() {
    let m = Message::new(Some("srv".to_string()), Command::Pong, &["srv"]);
    assert_eq!(m.to_irc().unwrap(), ":srv PONG :srv\r\n");
}

#[test]
fn round_trip_preserves_parsed_fields() {
    let line = ":alice!alice@h PRIVMSG #rust :one two three";
    let m1 = Message::from(line).unwrap();
    let again = m1.to_irc().unwrap();
    let m2 = Message::from(&again).unwrap();
    assert_eq!(m1.prefix, m2.prefix);
    assert_eq!(m1.command, m2.command);
    assert_eq!(m1.params, m2.params);
}

#[test]
fn round_trip_unknown_command() {
    let m1 = Message::from("frobnicate a b :c d").unwrap();
    assert_eq!(m1.command, Command::Unknown);
    let m2 = Message::from(&m1.to_irc().unwrap()).unwrap();
    assert_eq!(m2.command, Command::Unknown);
    assert_eq!(m1.params, m2.params);
}

#[test]
fn command_matching_is_ascii_case_insensitive() {
    assert_eq!(Command::from_str("privmsg"), Command::PrivMsg);
    assert_eq!(Command::from_str("QuIt"), Command::Quit);
    assert_eq!(Command::from_str("USER"), Command::User);
    assert_eq!(Command::from_str("nosuch"), Command::Unknown);
}

#[test]
fn get_next_word_splits_at_first_space() {
    assert_eq!(Message::get_next_word("a b c"), ("a", "b c"));
    assert_eq!(Message::get_next_word("abc"), ("abc", ""));
}

#[test]
fn response_line_has_zero_padded_code() {
    let r = Response::new("srv", ReplyCode::RPL_WELCOME, &["alice", "hi there"]);
    assert_eq!(r.to_line().unwrap(), ":srv 001 alice :hi there");
    assert_eq!(ReplyCode::ERR_NOTREGISTERED.digits(), "451");
    assert_eq!(ReplyCode::RPL_LIST.digits(), "322");
}

#[test]
fn trailing_parameter_keeps_inner_spaces() {
    let m = Message::from("KICK #general bob :Using profanity").unwrap();
    assert_eq!(
        m.params,
        vec![
            "#general".to_string(),
            "bob".to_string(),
            "Using profanity".to_string()
        ]
    );
}

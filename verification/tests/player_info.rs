use q3tool::error::{ParseField, Q3Error};
use q3tool::player_info::PlayerInfo;

const VALID_PLAYER: &str = "11 194 \"dogue\"";
const INVALID_SCORE: &str = "a 194 \"dogue\"";
const INVALID_PING: &str = "11 a \"dogue\"";

#[test]
fn parses_score() {
    let p = PlayerInfo::new(VALID_PLAYER.to_string());
    assert!(p.is_ok());
    assert_eq!(11, p.unwrap().score());
}

#[test]
fn parses_ping() {
    let p = PlayerInfo::new(VALID_PLAYER.to_string());
    assert!(p.is_ok());
    assert_eq!(194, p.unwrap().ping());
}

#[test]
fn parses_name() {
    let p = PlayerInfo::new(VALID_PLAYER.to_string());
    assert!(p.is_ok());
    assert_eq!("\"dogue\"", p.unwrap().name());
}

#[test]
fn parseint_error_on_invalid_score() {
    let p = PlayerInfo::new(INVALID_SCORE.to_string());
    assert!(p.is_err());
    assert!(matches!(p.err(), Some(Q3Error::ParseError(_))));
}

#[test]
fn parseint_error_on_invalid_ping() {
    let p = PlayerInfo::new(INVALID_PING.to_string());
    assert!(p.is_err());
    assert!(matches!(p.err(), Some(Q3Error::ParseError(_))));
}

#[test]
fn round_trip_literal() {
    let p = PlayerInfo::new("11 194 \"dogue\"".to_string()).unwrap();
    assert_eq!(p.score(), 11);
    assert_eq!(p.ping(), 194);
    assert_eq!(p.name(), "\"dogue\"");
}

#[test]
fn strict_error_names_the_score_field() {
    let p = PlayerInfo::new("a 194 \"dogue\"".to_string());
    assert!(matches!(p.err(), Some(Q3Error::ParseError(ParseField::Score))));
}

#[test]
fn strict_error_names_the_ping_field() {
    let p = PlayerInfo::new("11 a \"dogue\"".to_string());
    assert!(matches!(p.err(), Some(Q3Error::ParseError(ParseField::Ping))));
}

#[test]
fn name_keeps_embedded_spaces_and_escapes() {
    let p = PlayerInfo::new("-3 0 ^1red^7 name with spaces".to_string()).unwrap();
    assert_eq!(p.score(), -3);
    assert_eq!(p.ping(), 0);
    assert_eq!(p.name(), "^1red^7 name with spaces");
}

#[test]
fn missing_name_is_empty() {
    let p = PlayerInfo::new("11 194".to_string()).unwrap();
    assert_eq!(p.name(), "");
}

#[test]
fn missing_ping_is_an_error() {
    let p = PlayerInfo::new("11".to_string());
    assert!(matches!(p.err(), Some(Q3Error::ParseError(ParseField::Ping))));
}

#[test]
fn empty_line_is_a_score_error() {
    let p = PlayerInfo::new("".to_string());
    assert!(matches!(p.err(), Some(Q3Error::ParseError(ParseField::Score))));
}

#[test]
fn score_bounds_are_those_of_i32() {
    let max = PlayerInfo::new("2147483647 0 x".to_string()).unwrap();
    assert_eq!(max.score(), 2147483647);
    let min = PlayerInfo::new("-2147483648 0 x".to_string()).unwrap();
    assert_eq!(min.score(), -2147483648);
    let over = PlayerInfo::new("2147483648 0 x".to_string());
    assert!(matches!(over.err(), Some(Q3Error::ParseError(ParseField::Score))));
    let under = PlayerInfo::new("-2147483649 0 x".to_string());
    assert!(matches!(under.err(), Some(Q3Error::ParseError(ParseField::Score))));
}

#[test]
fn explicit_plus_sign_is_accepted() {
    let p = PlayerInfo::new("+7 +12 x".to_string()).unwrap();
    assert_eq!(p.score(), 7);
    assert_eq!(p.ping(), 12);
}

#[test]
fn lone_sign_is_an_error() {
    let p = PlayerInfo::new("- 194 x".to_string());
    assert!(matches!(p.err(), Some(Q3Error::ParseError(ParseField::Score))));
}

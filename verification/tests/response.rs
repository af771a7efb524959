use q3tool::error::{ParseField, Q3Error};
use q3tool::Q3Tool;

#[test]
fn missing_line_boundary_is_invalid_response() {
    let r = Q3Tool::parse_response("statusResponse with no newline".to_string());
    assert!(matches!(r.err(), Some(Q3Error::InvalidResponse)));
}

#[test]
fn empty_buffer_is_invalid_response() {
    let r = Q3Tool::parse_response(String::new());
    assert!(matches!(r.err(), Some(Q3Error::InvalidResponse)));
}

#[test]
fn end_to_end_decode() {
    let buffer = "header\n\\sv_hostname\\Test Server\\sv_maxclients\\16\n11 194 \"dogue\"\n\u{0}";
    let info = Q3Tool::parse_response(buffer.to_string()).unwrap();
    assert_eq!(info.vars().get("sv_hostname").unwrap(), "Test Server");
    assert_eq!(info.vars().get("sv_maxclients").unwrap(), "16");
    assert_eq!(info.players().len(), 1);
    assert_eq!(info.players()[0].score(), 11);
    assert_eq!(info.players()[0].ping(), 194);
    assert_eq!(info.players()[0].name(), "\"dogue\"");
}

#[test]
fn decoding_twice_yields_equal_results() {
    let buffer = "header\n\\sv_hostname\\Test Server\\sv_maxclients\\16\n11 194 \"dogue\"\n\u{0}";
    let first = Q3Tool::parse_response(buffer.to_string());
    let second = Q3Tool::parse_response(buffer.to_string());
    assert_eq!(first, second);
}

#[test]
fn rcon_without_password_is_missing_credential() {
    let q = Q3Tool::new("somehost:27960", None);
    let r = q.rcon_request("map ut4_casa");
    assert!(matches!(r.err(), Some(Q3Error::MissingCredentialError)));
}

#[test]
fn status_request_is_marker_plus_getstatus() {
    let q = Q3Tool::new("somehost:27960", None);
    let r = q.status_request();
    assert_eq!(r, b"\xFF\xFF\xFF\xFFgetstatus".to_vec());
}

#[test]
fn rcon_request_frames_password_and_command() {
    let q = Q3Tool::new("somehost:27960", Some("opensesame".to_string()));
    let r = q.rcon_request("map ut4_casa").unwrap();
    let mut expected = b"\xFF\xFF\xFF\xFFrcon ".to_vec();
    expected.extend_from_slice(b"opensesame");
    expected.push(b' ');
    expected.extend_from_slice(b"map ut4_casa");
    assert_eq!(r, expected);
}

#[test]
fn facade_keeps_host_and_password() {
    let q = Q3Tool::new("somehost:27960", Some("pw".to_string()));
    assert_eq!(q.host, "somehost:27960");
    assert_eq!(q.password.as_deref(), Some("pw"));
}

#[test]
fn errors_describe_themselves() {
    assert_eq!(
        Q3Error::InvalidResponse.describe(),
        "response from server was empty or improperly formatted"
    );
    assert_eq!(
        Q3Error::MissingCredentialError.describe(),
        "no rcon password was configured"
    );
    assert_eq!(Q3Error::TransportError.describe(), "socket operation failed");
    assert_eq!(
        Q3Error::TextDecodeError.describe(),
        "response contained invalid text"
    );
    assert_eq!(
        Q3Error::ParseError(ParseField::Score).describe(),
        "failed to parse player score as an integer"
    );
    assert_eq!(
        Q3Error::ParseError(ParseField::Ping).describe(),
        "failed to parse player ping as an integer"
    );
}

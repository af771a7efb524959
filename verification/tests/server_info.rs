use q3tool::error::{ParseField, Q3Error};
use q3tool::player_list::PlayerList;
use q3tool::server_info::ServerInfo;

const VALID_PLAYER_CHUNK: &str = "11 194 \"dogue\"\n11 194 \"dogue\"\n11 194 \"dogue\"\n\u{0}";

const VALID_SERVER_CHUNK: &str = "\\players_blue\\1 2 4 \\players_red\\3 5 6 \\score_blue\\1\\score_red\\0\\score_time\\0:58\\sv_maxclients\\22\\capturelimit\\10\\fraglimit\\10\\email\\http://contact.fpsclasico.de\\url\\https://forum.fpsclasico.de\\administrator\\adminless\\dmflags\\72\\version\\Q3 1.32b.v6 linux-i386 Sep 24 2021\\g_gametype\\3\\protocol\\68\\mapname\\pro-q3dm13\\sv_hostname\\\u{7}      ! ^^--UnFreeZe^/.^-fpsclasico^/.^-de ^/(^+Oct 07^/, ^+03:07^/)\\sv_floodProtect\\1\\x_enable\\0\\bot_minplayers\\3\\www\\http://unfreeze.fpsclasico.de\\gamename\\unfreeze\\g_needpass\\0\\g_delagHitscan\\1\\g_unlaggedVersion\\2.0";

#[test]
fn correct_number_of_players() {
    let p = ServerInfo::build_player_list(VALID_PLAYER_CHUNK);
    assert!(p.is_ok());

    let p = p.unwrap();
    assert_eq!(p.len(), 3);
}

#[test]
fn parses_server_vars() {
    let s = ServerInfo::build_server_vars(VALID_SERVER_CHUNK);
    assert_eq!(s.get("sv_maxclients").unwrap(), &"22");
    assert_eq!(s.get("fraglimit").unwrap(), &"10");
}

#[test]
fn returns_server_vars() {
    let combined_chunk = format!("{}\n{}", VALID_SERVER_CHUNK, VALID_PLAYER_CHUNK);
    let s = ServerInfo::new(combined_chunk).unwrap();
    assert_eq!(s.vars().get("sv_maxclients").unwrap(), &"22");
}

#[test]
fn returns_player_list() {
    let combined_chunk = format!("{}\n{}", VALID_SERVER_CHUNK, VALID_PLAYER_CHUNK);
    let s = ServerInfo::new(combined_chunk).unwrap();
    assert_eq!(s.players().len(), 3);
    assert_eq!(s.players()[0].name(), "\"dogue\"");
}

#[test]
fn pairs_even_segments() {
    let s = ServerInfo::build_server_vars("\\a\\1\\b\\2");
    assert_eq!(s.len(), 2);
    assert_eq!(s.get("a").unwrap(), "1");
    assert_eq!(s.get("b").unwrap(), "2");
}

#[test]
fn odd_trailing_key_pairs_with_empty_value() {
    let s = ServerInfo::build_server_vars("\\a\\1\\b");
    assert_eq!(s.len(), 2);
    assert_eq!(s.get("a").unwrap(), "1");
    assert_eq!(s.get("b").unwrap(), "");
}

#[test]
fn later_duplicate_key_overwrites() {
    let s = ServerInfo::build_server_vars("\\a\\1\\b\\2\\a\\3");
    assert_eq!(s.len(), 2);
    assert_eq!(s.get("a").unwrap(), "3");
    assert_eq!(s.get("b").unwrap(), "2");
}

#[test]
fn absent_key_is_none() {
    let s = ServerInfo::build_server_vars("\\a\\1");
    assert!(s.get("missing").is_none());
}

#[test]
fn vars_without_delimiter_are_empty() {
    let s = ServerInfo::build_server_vars("no delimiter here");
    assert_eq!(s.len(), 0);
}

#[test]
fn stops_at_nul_line_and_never_decodes_garbage() {
    let chunk = "1 2 a\n3 4 b\n5 6 c\n\u{0}garbage\nnot even close\n";
    let p = ServerInfo::build_player_list(chunk).unwrap();
    assert_eq!(p.len(), 3);
    assert_eq!(p[0].name(), "a");
    assert_eq!(p[2].score(), 5);
}

#[test]
fn empty_player_section_is_an_empty_list() {
    let p = ServerInfo::build_player_list("").unwrap();
    assert_eq!(p.len(), 0);
}

#[test]
fn bad_line_before_sentinel_is_an_error() {
    let chunk = "1 2 a\nbogus line\n\u{0}";
    let p = ServerInfo::build_player_list(chunk);
    assert!(matches!(p.err(), Some(Q3Error::ParseError(ParseField::Score))));
}

#[test]
fn payload_without_newline_is_empty_sections() {
    let s = ServerInfo::new("\\a\\1".to_string()).unwrap();
    assert_eq!(s.vars().len(), 0);
    assert_eq!(s.players().len(), 0);
}

#[test]
fn player_list_newtype_decodes_a_section() {
    let list = PlayerList::new("11 194 \"dogue\"\n\u{0}").unwrap();
    assert_eq!(list.0.len(), 1);
    assert_eq!(list.0[0].ping(), 194);
}

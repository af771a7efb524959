//! Decoder for the player section of a status response: newline-delimited
//! player lines, terminated by the first line whose first character is the
//! NUL byte.  That sentinel line and everything after it is excluded; a
//! genuinely empty section (no lines at all) is an empty list, not an error.

use crate::error::Q3Error;
use crate::player_info::{player_spec, PlayerInfo, PlayerView};
use crate::server_info::ServerInfo;
use crate::text::split_on;
use vstd::prelude::*;

verus! {

/// What decoding a sequence of player lines yields: the records of every line
/// before the first NUL-prefixed one, in input order, or the error of the
/// first line that failed before that sentinel.  Empty lines are decoded like
/// any other line (and fail strict numeric decoding).
pub open spec fn players_spec(lines: Seq<Seq<char>>) -> Result<Seq<PlayerView>, Q3Error>
    decreases lines.len(),
{
    if lines.len() == 0 {
        Ok(Seq::empty())
    } else if lines[0].len() > 0 && lines[0][0] == '\u{0}' {
        Ok(Seq::empty())
    } else {
        match player_spec(lines[0]) {
            Err(e) => Err(e),
            Ok(p) => match players_spec(lines.drop_first()) {
                Err(e) => Err(e),
                Ok(ps) => Ok(seq![p] + ps),
            },
        }
    }
}

/// What decoding a whole player section yields: an empty section has no lines
/// and decodes to the empty list; any other section is split on newlines and
/// decoded line by line.
pub open spec fn player_section_spec(s: Seq<char>) -> Result<Seq<PlayerView>, Q3Error> {
    if s.len() == 0 {
        Ok(Seq::empty())
    } else {
        players_spec(split_on(s, '\n'))
    }
}

/// The views of a sequence of player records, in order.
pub open spec fn players_view(ps: Seq<PlayerInfo>) -> Seq<PlayerView> {
    ps.map_values(|p: PlayerInfo| p@)
}

/// The view of a list-decoding outcome: the record views on success, the
/// error unchanged on failure.
pub open spec fn players_result_view(r: Result<Vec<PlayerInfo>, Q3Error>) -> Result<
    Seq<PlayerView>,
    Q3Error,
> {
    match r {
        Ok(v) => Ok(players_view(v@)),
        Err(e) => Err(e),
    }
}

/// Law: decoding stops at the first NUL-prefixed line.  Once some line of the
/// section starts with the NUL sentinel, anything appended after the section
/// is never decoded and cannot change the result.
pub proof fn lemma_players_stop_at_sentinel(
    lines: Seq<Seq<char>>,
    garbage: Seq<Seq<char>>,
    i: int,
)
    requires
        0 <= i < lines.len(),
        lines[i].len() > 0,
        lines[i][0] == '\u{0}',
    ensures
        players_spec(lines + garbage) == players_spec(lines),
    decreases i,
{
    let both = lines + garbage;
    assert(both[0] == lines[0]);
    if lines[0].len() > 0 && lines[0][0] == '\u{0}' {
    } else {
        assert(i >= 1);
        lemma_players_stop_at_sentinel(lines.drop_first(), garbage, i - 1);
        assert(both.drop_first() =~= lines.drop_first() + garbage);
    }
}

/// An ordered list of player records, in the order the server reported them.
#[derive(Debug, Clone, PartialEq)]
pub struct PlayerList(pub Vec<PlayerInfo>);

impl PlayerList {
    /// Decodes a whole player section into a list.
    pub fn new(raw: &str) -> (r: Result<Self, Q3Error>)
        ensures
            match r {
                Ok(list) => player_section_spec(raw@) == Ok::<Seq<PlayerView>, Q3Error>(
                    players_view(list.0@),
                ),
                Err(e) => player_section_spec(raw@) == Err::<Seq<PlayerView>, Q3Error>(e),
            },
    {
        match ServerInfo::build_player_list(raw) {
            Ok(players) => Ok(PlayerList(players)),
            Err(e) => Err(e),
        }
    }
}

} // verus!

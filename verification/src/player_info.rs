//! Decoder for one line of the player section: `<score> <ping> <name>`, the
//! fields separated by single spaces.  The name is the remainder of the line
//! after the second space, taken byte-for-byte as sent — embedded spaces,
//! colour escapes and the surrounding literal quote characters are all kept.
//!
//! Decoding is strict: a missing or non-numeric score or ping is a hard
//! failure naming the field, never a silent zero, so server-side protocol
//! drift surfaces instead of being masked.

use crate::error::{ParseField, Q3Error};
use crate::text::{parse_i32, parse_i32_spec, split_once_at};
use vstd::prelude::*;

verus! {

/// The mathematical content of a player record: its two numbers and the text
/// of its name.
pub struct PlayerView {
    pub score: int,
    pub ping: int,
    pub name: Seq<char>,
}

/// One connected player as reported by the server: frag count (may be
/// negative), ping in milliseconds (non-negative in practice, but not
/// validated), and the raw name.  Immutable once constructed.
#[derive(Debug, Clone, PartialEq)]
pub struct PlayerInfo {
    pub name: String,
    pub score: i32,
    pub ping: i32,
}

impl View for PlayerInfo {
    type V = PlayerView;

    open spec fn view(&self) -> PlayerView {
        PlayerView { score: self.score as int, ping: self.ping as int, name: self.name@ }
    }
}

/// The part of `s` before its first space; all of `s` when it has none.
pub open spec fn field_head(s: Seq<char>) -> Seq<char> {
    match s.index_of_first(' ') {
        None => s,
        Some(i) => s.take(i),
    }
}

/// The part of `s` after its first space; empty when it has none.
pub open spec fn field_tail(s: Seq<char>) -> Seq<char> {
    match s.index_of_first(' ') {
        None => Seq::empty(),
        Some(i) => s.skip(i + 1),
    }
}

/// What strict decoding of one player line yields: the record, or the first
/// field that failed.  The score is read before the ping, so a line whose two
/// leading fields are both bad reports the score.
pub open spec fn player_spec(line: Seq<char>) -> Result<PlayerView, Q3Error> {
    let rest = field_tail(line);
    match parse_i32_spec(field_head(line)) {
        None => Err(Q3Error::ParseError(ParseField::Score)),
        Some(score) => match parse_i32_spec(field_head(rest)) {
            None => Err(Q3Error::ParseError(ParseField::Ping)),
            Some(ping) => Ok(
                PlayerView { score: score as int, ping: ping as int, name: field_tail(rest) },
            ),
        },
    }
}

/// The view of a decoding outcome: the record's view on success, the error
/// unchanged on failure.
pub open spec fn player_result_view(r: Result<PlayerInfo, Q3Error>) -> Result<
    PlayerView,
    Q3Error,
> {
    match r {
        Ok(p) => Ok(p@),
        Err(e) => Err(e),
    }
}

impl PlayerInfo {
    /// Strictly decodes one player line.
    pub fn new(player: String) -> (r: Result<Self, Q3Error>)
        ensures
            player_result_view(r) == player_spec(player@),
    {
        let s = player.as_str();
        let (score_text, rest): (&str, &str) = match split_once_at(s, ' ') {
            Some((a, b)) => (a, b),
            None => (s, ""),
        };
        proof {
            reveal_strlit("");
            assert(""@ =~= Seq::<char>::empty());
            assert(score_text@ == field_head(player@));
            assert(rest@ == field_tail(player@));
        }
        let score = match parse_i32(score_text) {
            Some(v) => v,
            None => {
                return Err(Q3Error::ParseError(ParseField::Score));
            },
        };
        let (ping_text, name_text): (&str, &str) = match split_once_at(rest, ' ') {
            Some((a, b)) => (a, b),
            None => (rest, ""),
        };
        proof {
            reveal_strlit("");
            assert(""@ =~= Seq::<char>::empty());
            assert(ping_text@ == field_head(rest@));
            assert(name_text@ == field_tail(rest@));
        }
        let ping = match parse_i32(ping_text) {
            Some(v) => v,
            None => {
                return Err(Q3Error::ParseError(ParseField::Ping));
            },
        };
        let name = name_text.to_owned();
        Ok(Self { name, score, ping })
    }

    /// The raw name, exactly as the server sent it.
    pub fn name(&self) -> (r: &String)
        ensures
            r@ == self@.name,
    {
        &self.name
    }

    /// The frag count.
    pub fn score(&self) -> (r: i32)
        ensures
            r as int == self@.score,
    {
        self.score
    }

    /// The latency in milliseconds.
    pub fn ping(&self) -> (r: i32)
        ensures
            r as int == self@.ping,
    {
        self.ping
    }
}

} // verus!

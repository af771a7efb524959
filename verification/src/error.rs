//! The closed set of failure kinds that the library reports.  Callers can
//! match on it exhaustively; it never grows behind their back.

use vstd::prelude::*;
use vstd::string::StringExecFns;

verus! {

/// Which numeric field of a player line failed strict decoding.
#[derive(Debug, Clone, Copy, PartialEq, Eq, Structural)]
pub enum ParseField {
    /// The first field of a player line, the frag count.
    Score,
    /// The second field of a player line, the latency in milliseconds.
    Ping,
}

/// Everything that can go wrong while querying or administering a server.
#[derive(Debug, Clone, Copy, PartialEq, Eq, Structural)]
pub enum Q3Error {
    /// A score or ping field of a player line was missing or was not a signed
    /// decimal integer that fits an `i32`; names the field that failed.
    ParseError(ParseField),
    /// A bind, connect, send or receive operation of the transport failed.
    /// Raised by the transport around the library, never by the decoder.
    TransportError,
    /// The received bytes were not valid text.  Raised only by a transport
    /// that decodes strictly; the recommended transport decodes lossily,
    /// substituting a replacement character, and never raises it.
    TextDecodeError,
    /// The response lacks the line boundary that separates the out-of-band
    /// reply header from the payload, so it cannot be split into sections.
    InvalidResponse,
    /// An rcon command was requested but no password is configured.
    MissingCredentialError,
}

impl Q3Error {
    /// A human-readable message for the error, one fixed sentence per kind.
    pub fn describe(&self) -> (r: String)
        ensures
            r@ == match *self {
                Q3Error::ParseError(ParseField::Score) => "failed to parse player score as an integer"@,
                Q3Error::ParseError(ParseField::Ping) => "failed to parse player ping as an integer"@,
                Q3Error::TransportError => "socket operation failed"@,
                Q3Error::TextDecodeError => "response contained invalid text"@,
                Q3Error::InvalidResponse => "response from server was empty or improperly formatted"@,
                Q3Error::MissingCredentialError => "no rcon password was configured"@,
            },
    {
        match self {
            Q3Error::ParseError(ParseField::Score) => String::from_str(
                "failed to parse player score as an integer",
            ),
            Q3Error::ParseError(ParseField::Ping) => String::from_str(
                "failed to parse player ping as an integer",
            ),
            Q3Error::TransportError => String::from_str("socket operation failed"),
            Q3Error::TextDecodeError => String::from_str("response contained invalid text"),
            Q3Error::InvalidResponse => String::from_str(
                "response from server was empty or improperly formatted",
            ),
            Q3Error::MissingCredentialError => String::from_str("no rcon password was configured"),
        }
    }
}

} // verus!

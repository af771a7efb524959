//! Client library for the out-of-band UDP status/administration protocol of
//! ioquake3 (Quake 3 engine family) game servers.
//!
//! The heart of the library is the response decoder, which turns the text of a
//! `getstatus` reply into a structured [`server_info::ServerInfo`] (a mapping
//! of server variables plus an ordered player list), and the request encoder,
//! which frames the outgoing `getstatus` and `rcon` commands.  The library
//! itself performs no network traffic: a caller sends the encoded request over
//! UDP, decodes the received bytes to text (this library expects lossy
//! decoding, replacing invalid byte sequences rather than failing), and hands
//! the text to [`Q3Tool::parse_response`].
//!
//! Numeric player fields are decoded strictly: a missing or malformed score or
//! ping is reported as an error naming the field, never silently zeroed.

use vstd::prelude::*;

pub mod error;
pub mod player_info;
pub mod player_list;
pub mod server_info;
pub mod text;

use crate::error::Q3Error;
use crate::server_info::{info_result_view, server_info_spec, InfoView, ServerInfo};
use crate::text::split_once_at;
use vstd::string::StrSliceExecFns;
use vstd::utf8::encode_utf8;

verus! {

/// The four-byte marker that frames every out-of-band command and reply.
pub open spec fn oob_prefix() -> Seq<u8> {
    seq![0xffu8, 0xffu8, 0xffu8, 0xffu8]
}

/// The framed `getstatus` request: the out-of-band marker followed by the
/// ASCII command name.
pub open spec fn getstatus_payload() -> Seq<u8> {
    oob_prefix() + seq!['g' as u8, 'e' as u8, 't' as u8, 's' as u8, 't' as u8, 'a' as u8, 't' as u8, 'u' as u8, 's' as u8]
}

/// The framed `rcon` request: the out-of-band marker, the ASCII word `rcon`,
/// a space, the password bytes, a space, the command bytes.  Nothing is
/// escaped: the caller must keep newline and NUL bytes out of the password
/// and the command, or the framing is corrupted.
pub open spec fn rcon_payload(password: Seq<char>, command: Seq<char>) -> Seq<u8> {
    oob_prefix() + seq!['r' as u8, 'c' as u8, 'o' as u8, 'n' as u8, ' ' as u8] + encode_utf8(
        password,
    ) + seq![' ' as u8] + encode_utf8(command)
}

/// What decoding a full status reply yields: drop the out-of-band reply
/// header line and decode the rest as a status payload; text without a single
/// line boundary is rejected as `InvalidResponse`.
pub open spec fn response_spec(s: Seq<char>) -> Result<InfoView, Q3Error> {
    match s.index_of_first('\n') {
        None => Err(Q3Error::InvalidResponse),
        Some(i) => server_info_spec(s.skip(i + 1)),
    }
}

/// Appends the UTF-8 bytes of `s` to `out`.
fn push_str_bytes(out: &mut Vec<u8>, s: &str)
    ensures
        final(out)@ == old(out)@ + encode_utf8(s@),
{
    let bytes = s.as_bytes_vec();
    let n = bytes.len();
    let mut i: usize = 0;
    while i < n
        invariant
            i <= n,
            n == bytes@.len(),
            bytes@ == encode_utf8(s@),
            out@ == old(out)@ + bytes@.take(i as int),
        decreases n - i,
    {
        let b = bytes[i];
        out.push(b);
        proof {
            assert(bytes@.take(i + 1) =~= bytes@.take(i as int).push(b));
        }
        i += 1;
    }
    proof {
        assert(bytes@.take(n as int) =~= bytes@);
    }
}

/// The client facade: the remote `host:port` to query and, optionally, the
/// rcon password.  Owns no socket; callers send the encoded requests over
/// their own transport and hand the decoded reply text back.
#[derive(Debug)]
pub struct Q3Tool {
    pub host: String,
    pub password: Option<String>,
}

impl Q3Tool {
    /// Creates a facade for one server; performs no requests.
    pub fn new(host: &str, password: Option<String>) -> (r: Self)
        ensures
            r.host@ == host@,
            r.password == password,
    {
        Self { host: host.to_owned(), password }
    }

    /// The framed `getstatus` request to send to the host.
    pub fn status_request(&self) -> (r: Vec<u8>)
        ensures
            r@ == getstatus_payload(),
    {
        let mut out: Vec<u8> = Vec::new();
        out.push(0xff);
        out.push(0xff);
        out.push(0xff);
        out.push(0xff);
        out.push('g' as u8);
        out.push('e' as u8);
        out.push('t' as u8);
        out.push('s' as u8);
        out.push('t' as u8);
        out.push('a' as u8);
        out.push('t' as u8);
        out.push('u' as u8);
        out.push('s' as u8);
        proof {
            assert(out@ =~= getstatus_payload());
        }
        out
    }

    /// The framed `rcon` request carrying `command`, or
    /// `MissingCredentialError` when no password is configured — decided
    /// before any network traffic can happen.
    pub fn rcon_request(&self, command: &str) -> (r: Result<Vec<u8>, Q3Error>)
        ensures
            match self.password {
                Some(pw) => r matches Ok(v) && v@ == rcon_payload(pw@, command@),
                None => r == Err::<Vec<u8>, Q3Error>(Q3Error::MissingCredentialError),
            },
    {
        let password: &String = match &self.password {
            Some(p) => p,
            None => {
                return Err(Q3Error::MissingCredentialError);
            },
        };
        let mut out: Vec<u8> = Vec::new();
        out.push(0xff);
        out.push(0xff);
        out.push(0xff);
        out.push(0xff);
        out.push('r' as u8);
        out.push('c' as u8);
        out.push('o' as u8);
        out.push('n' as u8);
        out.push(' ' as u8);
        push_str_bytes(&mut out, password.as_str());
        out.push(' ' as u8);
        push_str_bytes(&mut out, command);
        proof {
            assert(out@ =~= rcon_payload(password@, command@));
        }
        Ok(out)
    }

    /// Decodes a full status reply: splits off and discards the out-of-band
    /// reply header line, then decodes the payload.  Fails with
    /// `InvalidResponse` when the text holds no line boundary at all.
    pub fn parse_response(raw_info: String) -> (r: Result<ServerInfo, Q3Error>)
        ensures
            info_result_view(r) == response_spec(raw_info@),
            r matches Ok(info) ==> info.wf(),
    {
        match split_once_at(raw_info.as_str(), '\n') {
            None => Err(Q3Error::InvalidResponse),
            Some((_header, info)) => ServerInfo::new(info.to_owned()),
        }
    }
}

/// Law: decoding is a pure function of the received text.  Two decodes of the
/// same reply yield structurally equal results — no hidden state influences
/// the outcome.
pub proof fn lemma_decode_idempotent(
    first: Result<ServerInfo, Q3Error>,
    second: Result<ServerInfo, Q3Error>,
    raw: Seq<char>,
)
    requires
        info_result_view(first) == response_spec(raw),
        info_result_view(second) == response_spec(raw),
    ensures
        info_result_view(first) == info_result_view(second),
{
}

} // verus!

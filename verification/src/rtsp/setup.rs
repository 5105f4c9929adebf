//! The response to a SETUP request.

use vstd::prelude::*;

use crate::number::{parse_number, parse_number_spec};
use crate::rtsp::headers::{lookup, Field};
use crate::rtsp::message::RtspResponse;
use crate::text::{
    split, split_spec, starts_with, starts_with_spec, strip_prefixes, strip_prefixes_spec, texts,
};

verus! {

/// The session timeout, in seconds, where the server gives none.
pub const DEFAULT_TIMEOUT: usize = 60;

/// A response to SETUP, with what it settles.
#[derive(Debug)]
pub struct SetupResponse {
    pub response: RtspResponse,
    /// The RTP port and the RTCP port of the server.
    pub peer_ports: (u16, u16),
    /// The session identifier and the session timeout.
    pub session: (u32, usize),
}

/// Why a response to SETUP settles no session.
#[derive(Debug, Clone, Copy, PartialEq, Eq, Structural)]
pub enum SetupError {
    /// There is no Transport header field.
    NoTransport,
    /// No parameter of the Transport header field is a server_port.
    NoServerPort,
    /// The RTP port is no number of 16 bits.
    InvalidRtpPort,
    /// There is no RTCP port.
    NoRtcpPort,
    /// The RTCP port is no number of 16 bits.
    InvalidRtcpPort,
    /// There is no Session header field.
    NoSession,
    /// The session identifier is no number of 32 bits.
    InvalidSessionId,
}

/// The first of `params` that starts with `prefix`.
pub open spec fn first_with_prefix(params: Seq<Seq<char>>, prefix: Seq<char>) -> Option<Seq<char>>
    decreases params.len(),
{
    if params.len() == 0 {
        None
    } else if starts_with_spec(params[0], prefix) {
        Some(params[0])
    } else {
        first_with_prefix(params.drop_first(), prefix)
    }
}

/// The two ports of a port range, `first-second`.
pub open spec fn parse_port_range(range: Seq<char>) -> Result<(u16, u16), SetupError> {
    let ports = split_spec(range, seq!['-']);
    match parse_number_spec(ports[0], u16::MAX as int) {
        None => Err(SetupError::InvalidRtpPort),
        Some(rtp_port) => if ports.len() < 2 {
            Err(SetupError::NoRtcpPort)
        } else {
            match parse_number_spec(ports[1], u16::MAX as int) {
                None => Err(SetupError::InvalidRtcpPort),
                Some(rtcp_port) => Ok((rtp_port as u16, rtcp_port as u16)),
            }
        },
    }
}

/// The server's ports in the value of a Transport header field.
pub open spec fn parse_transport(transport: Seq<char>) -> Result<(u16, u16), SetupError> {
    match first_with_prefix(split_spec(transport, seq![';']), "server_port="@) {
        None => Err(SetupError::NoServerPort),
        Some(param) => parse_port_range(strip_prefixes_spec(param, "server_port="@)),
    }
}

/// The identifier and the timeout in the value of a Session header field. A timeout that is none
/// is passed over.
pub open spec fn parse_session(session: Seq<char>) -> Result<(u32, usize), SetupError> {
    let params = split_spec(session, seq![';']);
    let timeout = if params.len() < 2 {
        None
    } else {
        parse_number_spec(strip_prefixes_spec(params[1], "timeout="@), usize::MAX as int)
    };
    match parse_number_spec(params[0], u32::MAX as int) {
        None => Err(SetupError::InvalidSessionId),
        Some(id) => Ok(
            (
                id as u32,
                match timeout {
                    Some(timeout) => timeout as usize,
                    None => DEFAULT_TIMEOUT,
                },
            ),
        ),
    }
}

/// What the headers of a response to SETUP settle: the server's ports, and the session's
/// identifier and timeout.
pub open spec fn parse_setup(headers: Seq<Field>) -> Result<
    ((u16, u16), (u32, usize)),
    SetupError,
> {
    match lookup(headers, "Transport"@) {
        None => Err(SetupError::NoTransport),
        Some(transport) => match parse_transport(transport) {
            Err(error) => Err(error),
            Ok(ports) => match lookup(headers, "Session"@) {
                None => Err(SetupError::NoSession),
                Some(session) => match parse_session(session) {
                    Err(error) => Err(error),
                    Ok(session) => Ok((ports, session)),
                },
            },
        },
    }
}

fn parse_transport_exec(transport: &str) -> (r: Result<(u16, u16), SetupError>)
    ensures
        r == parse_transport(transport@),
{
    proof {
        reveal_strlit(";");
        assert(";"@ =~= seq![';']);
        reveal_strlit("-");
        assert("-"@ =~= seq!['-']);
        reveal_strlit("server_port=");
    }
    let params = split(transport, ";");
    let ghost all = texts(params@);
    let mut i: usize = 0;
    assert(all.skip(0) =~= all);
    while i < params.len() && !starts_with(params[i], "server_port=")
        invariant
            i <= params.len(),
            all == texts(params@),
            first_with_prefix(all, "server_port="@) == first_with_prefix(
                all.skip(i as int),
                "server_port="@,
            ),
        decreases params.len() - i,
    {
        assert(all.skip(i as int).drop_first() =~= all.skip(i + 1));
        i += 1;
    }
    if i == params.len() {
        return Err(SetupError::NoServerPort);
    }
    let range = strip_prefixes(params[i], "server_port=");
    let ports = split(range, "-");
    assert(texts(ports@)[0] == ports@[0]@);
    let rtp_port = match parse_number(ports[0], u16::MAX as u64) {
        Some(port) => port as u16,
        None => return Err(SetupError::InvalidRtpPort),
    };
    if ports.len() < 2 {
        return Err(SetupError::NoRtcpPort);
    }
    assert(texts(ports@)[1] == ports@[1]@);
    let rtcp_port = match parse_number(ports[1], u16::MAX as u64) {
        Some(port) => port as u16,
        None => return Err(SetupError::InvalidRtcpPort),
    };
    Ok((rtp_port, rtcp_port))
}

fn parse_session_exec(session: &str) -> (r: Result<(u32, usize), SetupError>)
    ensures
        r == parse_session(session@),
{
    proof {
        reveal_strlit(";");
        assert(";"@ =~= seq![';']);
        reveal_strlit("timeout=");
    }
    let params = split(session, ";");
    assert(texts(params@)[0] == params@[0]@);
    let id = match parse_number(params[0], u32::MAX as u64) {
        Some(id) => id as u32,
        None => return Err(SetupError::InvalidSessionId),
    };
    let timeout = if params.len() < 2 {
        DEFAULT_TIMEOUT
    } else {
        assert(texts(params@)[1] == params@[1]@);
        match parse_number(strip_prefixes(params[1], "timeout="), usize::MAX as u64) {
            Some(timeout) => timeout as usize,
            None => DEFAULT_TIMEOUT,
        }
    };
    Ok((id, timeout))
}

impl vstd::std_specs::convert::TryFromSpecImpl<RtspResponse> for SetupResponse {
    open spec fn obeys_try_from_spec() -> bool {
        true
    }

    open spec fn try_from_spec(response: RtspResponse) -> Result<Self, SetupError> {
        match parse_setup(response.headers.fields()) {
            Ok((peer_ports, session)) => Ok(SetupResponse { response, peer_ports, session }),
            Err(error) => Err(error),
        }
    }
}

impl TryFrom<RtspResponse> for SetupResponse {
    type Error = SetupError;

    fn try_from(response: RtspResponse) -> (r: Result<Self, SetupError>)
        ensures
            r == (match parse_setup(response.headers.fields()) {
                Ok((peer_ports, session)) => Ok(SetupResponse { response, peer_ports, session }),
                Err(error) => Err(error),
            }),
    {
        let transport = match response.headers.get("Transport") {
            Some(transport) => transport,
            None => return Err(SetupError::NoTransport),
        };
        let peer_ports = match parse_transport_exec(transport) {
            Ok(ports) => ports,
            Err(error) => return Err(error),
        };
        let session = match response.headers.get("Session") {
            Some(session) => match parse_session_exec(session) {
                Ok(session) => session,
                Err(error) => return Err(error),
            },
            None => return Err(SetupError::NoSession),
        };
        Ok(SetupResponse { response, peer_ports, session })
    }
}

impl SetupResponse {
    /// The session timeout, in seconds.
    pub fn timeout(&self) -> (r: usize)
        ensures
            r == self.session.1,
    {
        self.session.1
    }

    /// The session identifier.
    pub fn session_id(&self) -> (r: u32)
        ensures
            r == self.session.0,
    {
        self.session.0
    }

    /// The RTP port of the server.
    pub fn rtp_port(&self) -> (r: u16)
        ensures
            r == self.peer_ports.0,
    {
        self.peer_ports.0
    }

    /// The RTCP port of the server.
    pub fn rtcp_port(&self) -> (r: u16)
        ensures
            r == self.peer_ports.1,
    {
        self.peer_ports.1
    }
}

} // verus!

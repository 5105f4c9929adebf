//! The client's side of an RTSP connection: the requests that it makes.

use vstd::prelude::*;

use crate::number::{decimal, decimal_spec};
use crate::rtsp::describe::{
    can_describe, can_describe_spec, described, video_track_spec, DescribeError, DescribeResponse,
    SessionDescription,
};
use crate::rtsp::headers::{put, Field, Headers};
use crate::rtsp::message::{
    optional_text, MessageView, RtspMessage, RtspMethod, RtspResponse, RtspVersion, StatusLineView,
};
use crate::rtsp::request::{RequestLineView, RtspRequest, RtspRequestLine};
use crate::rtsp::uri::{url_of, Url, UrlView};

verus! {

/// The port of a server where its URL gives none.
pub const RTSP_DEFAULT_PORT: u16 = 554;

/// What a client is set up with.
#[derive(Debug)]
pub struct Config {
    pub username: String,
    pub password: String,
    pub buf_size: usize,
    pub version: RtspVersion,
}

/// A configuration that is refused. None is.
#[derive(Debug)]
pub struct ConfigError;

impl Config {
    /// A configuration for version 1.0 of the protocol.
    pub fn new(username: String, password: String, buf_size: usize) -> (r: Result<
        Config,
        ConfigError,
    >)
        ensures
            r == Ok::<_, ConfigError>(
                (Config { username, password, buf_size, version: RtspVersion::Rtsp10 }),
            ),
    {
        Ok(Config { username, password, buf_size, version: RtspVersion::Rtsp10 })
    }
}

/// What a server is shown when it asks who the client is.
#[derive(Debug)]
pub struct RtspCredential {
    pub username: String,
    pub password: String,
}

/// What stands against a stream.
#[derive(Debug, Clone, Copy, PartialEq, Eq, Structural)]
pub enum StreamError {
    /// The URL names no host.
    NoHostname,
    /// The session that the server describes has no video track.
    NoVideo,
}

/// Why a response to DESCRIBE gives no track; `T` is the type of the parser's message.
#[derive(Debug, PartialEq, Eq)]
pub enum TrackError<T> {
    /// It describes no session.
    Description(DescribeError<T>),
    /// What it describes does not do for a stream.
    Stream(StreamError),
}

impl View for TrackError<String> {
    type V = TrackError<Seq<char>>;

    open spec fn view(&self) -> TrackError<Seq<char>> {
        match self {
            TrackError::Description(error) => TrackError::Description(error@),
            TrackError::Stream(error) => TrackError::Stream(*error),
        }
    }
}

/// The client's side of an RTSP connection.
#[derive(Debug)]
pub struct RtspStream {
    /// The sequence number of the next request.
    pub cseq: usize,
    /// The track of the video, once it is known.
    pub track_id: String,
    pub url: Url,
    pub version: RtspVersion,
    pub buf_size: usize,
    pub credential: RtspCredential,
}

/// A stream as plain values.
#[verifier::ext_equal]
pub struct StreamView {
    pub cseq: usize,
    pub track_id: Seq<char>,
    pub url: UrlView,
    pub version: RtspVersion,
    pub buf_size: usize,
    pub username: Seq<char>,
    pub password: Seq<char>,
}

impl View for RtspStream {
    type V = StreamView;

    open spec fn view(&self) -> StreamView {
        StreamView {
            cseq: self.cseq,
            track_id: self.track_id@,
            url: self.url@,
            version: self.version,
            buf_size: self.buf_size,
            username: self.credential.username@,
            password: self.credential.password@,
        }
    }
}

/// The address of a server, `host:port`.
pub open spec fn server_address_spec(url: UrlView) -> Option<Seq<char>> {
    match url.host_str {
        Some(host) => Some(
            host + seq![':'] + decimal_spec(
                match url.port {
                    Some(port) => port as int,
                    None => RTSP_DEFAULT_PORT as int,
                },
            ),
        ),
        None => None,
    }
}

/// The sequence number that follows; the last one is followed by 0.
pub open spec fn next_cseq(cseq: usize) -> usize {
    if cseq == usize::MAX {
        0
    } else {
        (cseq + 1) as usize
    }
}

/// A stream after it has made a request.
pub open spec fn advanced(stream: StreamView) -> StreamView {
    StreamView { cseq: next_cseq(stream.cseq), ..stream }
}

/// The text of the address of the video track, which SETUP requests name.
pub open spec fn track_address(stream: StreamView) -> Seq<char> {
    stream.url.text + seq!['/'] + stream.track_id
}

/// Whether a stream can make a request of the given method: SETUP needs the address of the track
/// to be a URL.
pub open spec fn can_request(stream: StreamView, method: RtspMethod) -> bool {
    method == RtspMethod::Setup ==> url_of(track_address(stream)) is Ok
}

/// The request of the given method that a stream makes: about the track for SETUP, else about the
/// stream's URL, with the sequence number among its headers.
pub open spec fn request_spec(
    stream: StreamView,
    method: RtspMethod,
    headers: Seq<Field>,
    body: Option<Seq<char>>,
) -> MessageView<RequestLineView> {
    MessageView {
        first_line: RequestLineView {
            method,
            uri: if method == RtspMethod::Setup {
                url_of(track_address(stream))->Ok_0
            } else {
                stream.url
            },
            version: stream.version,
        },
        headers: put(headers, "CSeq"@, decimal_spec(stream.cseq as int)),
        body,
    }
}

/// The value of the Transport header that asks for media on two UDP ports.
pub open spec fn transport_text(rtp_port: u16, rtcp_port: u16) -> Seq<char> {
    "RTP/AVP/UDP;unicast;client_port="@ + decimal_spec(rtp_port as int) + seq!['-'] + decimal_spec(
        rtcp_port as int,
    )
}

/// The DESCRIBE request of a stream.
pub open spec fn describe_spec(stream: StreamView) -> MessageView<RequestLineView> {
    request_spec(stream, RtspMethod::Describe, seq![], None)
}

/// The SETUP request of a stream.
pub open spec fn setup_spec(stream: StreamView, rtp_port: u16, rtcp_port: u16) -> MessageView<
    RequestLineView,
> {
    request_spec(
        stream,
        RtspMethod::Setup,
        seq![("Transport"@, transport_text(rtp_port, rtcp_port))],
        None,
    )
}

/// The PLAY request of a stream.
pub open spec fn play_spec(stream: StreamView, session: u32) -> MessageView<RequestLineView> {
    request_spec(
        stream,
        RtspMethod::Play,
        seq![("Session"@, decimal_spec(session as int))],
        None,
    )
}

/// The video track in the session that a response to DESCRIBE describes.
pub open spec fn described_track(response: MessageView<StatusLineView>) -> Result<
    Seq<char>,
    TrackError<Seq<char>>,
> {
    match described(response.body) {
        Err(error) => Err(TrackError::Description(error)),
        Ok(medias) => match video_track_spec(medias) {
            None => Err(TrackError::Stream(StreamError::NoVideo)),
            Some(track) => Ok(track),
        },
    }
}

/// What a stream makes of a response to DESCRIBE: it takes the track, or stays as it is.
pub open spec fn took_track(
    before: StreamView,
    response: MessageView<StatusLineView>,
    r: Result<(), TrackError<String>>,
    after: StreamView,
) -> bool {
    match r {
        Ok(_) => described_track(response) is Ok && after == (StreamView {
            track_id: described_track(response)->Ok_0,
            ..before
        }),
        Err(error) => described_track(response) == Err::<Seq<char>, _>(error@) && after == before,
    }
}

/// Headers of one field.
fn one_header(name: &str, value: String) -> (r: Headers)
    ensures
        r.fields() == seq![(name@, value@)],
{
    let mut headers = Headers::new();
    headers.insert(name.to_owned(), value);
    assert(headers.fields() =~= seq![(name@, value@)]);
    headers
}

impl RtspStream {
    /// The address of the server that a URL names.
    pub fn server_address(url: &Url) -> (r: Result<String, StreamError>)
        ensures
            match server_address_spec(url@) {
                Some(address) => r matches Ok(a) && a@ == address,
                None => r == Err::<String, _>(StreamError::NoHostname),
            },
    {
        match &url.host_str {
            Some(host) => {
                let port: u16 = match url.port {
                    Some(port) => port,
                    None => RTSP_DEFAULT_PORT,
                };
                proof {
                    reveal_strlit(":");
                    assert(":"@ =~= seq![':']);
                }
                let mut address = host.clone();
                address.append(":");
                address.append(decimal(port as u64).as_str());
                Ok(address)
            },
            None => Err(StreamError::NoHostname),
        }
    }

    /// A stream of version 1.0 that has made no request yet and knows no track.
    pub fn new(url: Url, config: &Config) -> (r: RtspStream)
        ensures
            r@ == (StreamView {
                cseq: 0,
                track_id: seq![],
                url: url@,
                version: RtspVersion::Rtsp10,
                buf_size: config.buf_size,
                username: config.username@,
                password: config.password@,
            }),
            r.url == url,
            r.credential.username@ == config.username@,
            r.credential.password@ == config.password@,
    {
        RtspStream {
            cseq: 0,
            track_id: String::new(),
            url,
            version: RtspVersion::Rtsp10,
            buf_size: config.buf_size,
            credential: RtspCredential {
                username: config.username.clone(),
                password: config.password.clone(),
            },
        }
    }

    /// Takes the track of the video from what the server describes.
    pub fn select_track(&mut self, session: &SessionDescription) -> (r: Result<(), StreamError>)
        ensures
            match video_track_spec(session@) {
                Some(track) => r is Ok && final(self)@ == (StreamView {
                    track_id: track,
                    ..old(self)@
                }) && final(self).track_id@ == track && final(self).cseq == old(self).cseq
                    && final(self).url == old(self).url && final(self).credential == old(
                    self,
                ).credential,
                None => r == Err::<(), _>(StreamError::NoVideo) && *final(self) == *old(self),
            },
    {
        match session.video_track() {
            Some(track) => {
                self.track_id = track.to_owned();
                Ok(())
            },
            None => Err(StreamError::NoVideo),
        }
    }

    /// Takes the track of the video from the response to DESCRIBE.
    pub fn on_described(&mut self, response: RtspResponse) -> (r: Result<(), TrackError<String>>)
        requires
            can_describe_spec(response@.body),
        ensures
            took_track(old(self)@, response@, r, final(self)@),
            match described_track(response@) {
                Ok(track) => r is Ok && final(self).track_id@ == track && final(self).cseq == old(
                    self,
                ).cseq && final(self).url == old(self).url && final(self).credential == old(
                    self,
                ).credential,
                Err(error) => r matches Err(e) && e@ == error && *final(self) == *old(self),
            },
    {
        match DescribeResponse::try_from(response) {
            Ok(describe) => match self.select_track(describe.session()) {
                Ok(_) => Ok(()),
                Err(error) => Err(TrackError::Stream(error)),
            },
            Err(error) => Err(TrackError::Description(error)),
        }
    }

    /// Takes the track of the video from the response to DESCRIBE, if the description parser comes
    /// to an end on its body; else the response is handed back.
    pub fn try_on_described(&mut self, response: RtspResponse) -> (r: Result<
        Result<(), TrackError<String>>,
        RtspResponse,
    >)
        ensures
            match r {
                Ok(result) => can_describe_spec(response@.body) && took_track(
                    old(self)@,
                    response@,
                    result,
                    final(self)@,
                ) && (match described_track(response@) {
                    Ok(track) => result is Ok && final(self).track_id@ == track,
                    Err(error) => result matches Err(e) && e@ == error && *final(self) == *old(
                        self,
                    ),
                }),
                Err(back) => !can_describe_spec(response@.body) && back == response
                    && *final(self) == *old(self),
            },
    {
        if can_describe(&response) {
            Ok(self.on_described(response))
        } else {
            Err(response)
        }
    }

    /// The text of the address of the video track.
    fn track_address(&self) -> (r: String)
        ensures
            r@ == track_address(self@),
    {
        proof {
            reveal_strlit("/");
            assert("/"@ =~= seq!['/']);
        }
        let mut text = self.url.text.clone();
        text.append("/");
        text.append(self.track_id.as_str());
        text
    }

    /// Makes a request with the next sequence number.
    pub fn make_req(
        &mut self,
        method: RtspMethod,
        headers: Headers,
        body: Option<String>,
    ) -> (r: RtspRequest)
        requires
            can_request(old(self)@, method),
        ensures
            r@ == request_spec(old(self)@, method, headers.fields(), optional_text(body)),
            final(self)@ == advanced(old(self)@),
            r.first_line.method == method,
            r.first_line.version == old(self).version,
            r.body == body,
            final(self).url == old(self).url,
            final(self).track_id == old(self).track_id,
            final(self).credential == old(self).credential,
    {
        let mut headers = headers;
        headers.insert("CSeq".to_owned(), decimal(self.cseq as u64));
        self.cseq = self.cseq.wrapping_add(1);
        let uri = if method == RtspMethod::Setup {
            Url::parse(self.track_address().as_str()).unwrap()
        } else {
            self.url.clone()
        };
        RtspMessage {
            first_line: RtspRequestLine { method, uri, version: self.version },
            headers,
            body,
        }
    }

    /// Makes the request for a description of the session.
    pub fn describe(&mut self) -> (r: RtspRequest)
        ensures
            r@ == describe_spec(old(self)@),
            final(self)@ == advanced(old(self)@),
    {
        self.make_req(RtspMethod::Describe, Headers::new(), None)
    }

    /// Makes the request that sets up the video track, with its media sent to two UDP ports.
    pub fn setup(&mut self, rtp_port: u16, rtcp_port: u16) -> (r: RtspRequest)
        requires
            can_request(old(self)@, RtspMethod::Setup),
        ensures
            r@ == setup_spec(old(self)@, rtp_port, rtcp_port),
            final(self)@ == advanced(old(self)@),
    {
        proof {
            reveal_strlit("-");
            assert("-"@ =~= seq!['-']);
        }
        let mut transport = "RTP/AVP/UDP;unicast;client_port=".to_owned();
        transport.append(decimal(rtp_port as u64).as_str());
        transport.append("-");
        transport.append(decimal(rtcp_port as u64).as_str());
        self.make_req(RtspMethod::Setup, one_header("Transport", transport), None)
    }

    /// Makes the request that sets up the video track, if the address of the track is a URL.
    pub fn try_setup(&mut self, rtp_port: u16, rtcp_port: u16) -> (r: Option<RtspRequest>)
        ensures
            match r {
                Some(request) => can_request(old(self)@, RtspMethod::Setup) && request@
                    == setup_spec(old(self)@, rtp_port, rtcp_port) && final(self)@ == advanced(
                    old(self)@,
                ),
                None => !can_request(old(self)@, RtspMethod::Setup) && *final(self) == *old(self),
            },
    {
        match Url::parse(self.track_address().as_str()) {
            Ok(_) => Some(self.setup(rtp_port, rtcp_port)),
            Err(_) => None,
        }
    }

    /// Makes the request that starts the media of a session.
    pub fn play(&mut self, session: u32) -> (r: RtspRequest)
        ensures
            r@ == play_spec(old(self)@, session),
            final(self)@ == advanced(old(self)@),
    {
        self.make_req(RtspMethod::Play, one_header("Session", decimal(session as u64)), None)
    }
}

/// A response to PLAY.
#[derive(Debug)]
pub struct PlayResponse {
    pub response: RtspResponse,
}

} // verus!

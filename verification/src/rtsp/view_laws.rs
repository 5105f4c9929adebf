//! What contracts see of a value is what the value holds.

use vstd::prelude::*;

use crate::rtsp::describe::{DescribeError, SessionDescription};
use crate::rtsp::exchange::{Exchange, ResponseError};
use crate::rtsp::message::{
    message_text, parse_status_line, status_line_text, MessageError, RtspFirstLine, RtspMessage,
    RtspMethod, RtspResponse, RtspStatusLine, RtspVersion, ToText,
};
use crate::rtsp::request::{request_line_text, RtspRequest, RtspRequestLine};
use crate::rtsp::stream::{RtspStream, StreamError, TrackError};
use crate::rtsp::uri::{Host, HostView, Url};

verus! {

/// Different hosts are seen as different: names by their characters, addresses by their numbers.
pub proof fn lemma_host_view(a: String, v4: u32, v6: u128)
    ensures
        Host::Domain(a)@ == HostView::Domain(a@),
        Host::Ipv4(v4)@ == HostView::Ipv4(v4),
        Host::Ipv6(v6)@ == HostView::Ipv6(v6),
{
}

/// A URL is seen with its text, its host in both forms, and its port.
pub proof fn lemma_url_view(url: Url)
    ensures
        url@.text == url.text@,
        url@.port == url.port,
        url.host matches Some(host) ==> url@.host == Some(host@),
        url.host is None ==> url@.host is None,
        url.host_str matches Some(host) ==> url@.host_str == Some(host@),
        url.host_str is None ==> url@.host_str is None,
{
}

/// A message is seen with its first line, its headers and its body.
pub proof fn lemma_message_view<FirstLine: View>(message: RtspMessage<FirstLine>)
    ensures
        message@.first_line == message.first_line@,
        message@.headers == message.headers.fields(),
        message.body matches Some(body) ==> message@.body == Some(body@),
        message.body is None ==> message@.body is None,
{
}

/// A request line and a status line are seen with all their parts.
pub proof fn lemma_first_line_views(request: RtspRequestLine, status: RtspStatusLine)
    ensures
        request@.method == request.method,
        request@.uri == request.uri@,
        request@.version == request.version,
        status@.version == status.version,
        status@.status_code == status.status_code,
        status.msg matches Some(msg) ==> status@.msg == Some(msg@),
        status.msg is None ==> status@.msg is None,
{
}

/// The text of a request and of a response is made of all their parts, and a first line that is
/// received is read as a status line.
pub proof fn lemma_message_texts(
    request: RtspRequest,
    response: RtspResponse,
    method: RtspMethod,
    line: Seq<char>,
)
    ensures
        request.text() == message_text(
            request_line_text(request.first_line@),
            request.headers.fields(),
            request@.body,
        ),
        response.text() == message_text(
            status_line_text(response.first_line@),
            response.headers.fields(),
            response@.body,
        ),
        method.text() == (match method {
            RtspMethod::Describe => "DESCRIBE"@,
            RtspMethod::Options => "OPTIONS"@,
            RtspMethod::Play => "PLAY"@,
            RtspMethod::Setup => "SETUP"@,
        }),
        RtspVersion::Rtsp10.text() == "RTSP/1.0"@,
        RtspVersion::Rtsp20.text() == "RTSP/2.0"@,
        <RtspStatusLine as RtspFirstLine>::parse_line(line) == parse_status_line(line),
{
}

/// A stream is seen with its sequence number, its track, its URL, its version, its buffer size and
/// its credential.
pub proof fn lemma_stream_view(stream: RtspStream)
    ensures
        stream@.cseq == stream.cseq,
        stream@.track_id == stream.track_id@,
        stream@.url == stream.url@,
        stream@.version == stream.version,
        stream@.buf_size == stream.buf_size,
        stream@.username == stream.credential.username@,
        stream@.password == stream.credential.password@,
{
}

/// An exchange is seen with its request, and whether it was sent again.
pub proof fn lemma_exchange_view(exchange: Exchange)
    ensures
        exchange@.request == exchange.request@,
        exchange@.retried == exchange.retried,
{
}

/// A session is seen with its media descriptions in order, each with its type and its attributes in
/// order, each of them with its name and its value.
pub proof fn lemma_session_view(session: SessionDescription, i: int, k: int)
    requires
        0 <= i < session.medias@.len(),
        0 <= k < session.medias@[i].attributes@.len(),
    ensures
        session@.len() == session.medias@.len(),
        session@[i].0 == session.medias@[i].media@,
        session@[i].1.len() == session.medias@[i].attributes@.len(),
        session@[i].1[k].0 == session.medias@[i].attributes@[k].attribute@,
        session.medias@[i].attributes@[k].value matches Some(value) ==> session@[i].1[k].1 == Some(
            value@,
        ),
        session.medias@[i].attributes@[k].value is None ==> session@[i].1[k].1 is None,
{
}

/// Errors are seen as the errors that they are, with the texts that they quote.
pub proof fn lemma_error_views(s: String, message: MessageError<String>, stream: StreamError)
    ensures
        MessageError::InvalidStatusLine(s)@ == MessageError::InvalidStatusLine(s@),
        MessageError::InvalidVersion(s)@ == MessageError::InvalidVersion(s@),
        MessageError::<String>::InvalidStatusCode@ == MessageError::<Seq<char>>::InvalidStatusCode,
        MessageError::InvalidHeaderLine(s)@ == MessageError::InvalidHeaderLine(s@),
        MessageError::<String>::NoBlankLine@ == MessageError::<Seq<char>>::NoBlankLine,
        ResponseError::<String>::NotUtf8@ == ResponseError::<Seq<char>>::NotUtf8,
        ResponseError::Message(message)@ == ResponseError::Message(message@),
        DescribeError::<String>::NoVersion@ == DescribeError::<Seq<char>>::NoVersion,
        DescribeError::Malformed(s)@ == DescribeError::Malformed(s@),
        TrackError::Description(DescribeError::Malformed(s))@ == TrackError::Description(
            DescribeError::Malformed(s@),
        ),
        TrackError::<String>::Stream(stream)@ == TrackError::<Seq<char>>::Stream(stream),
{
}

} // verus!

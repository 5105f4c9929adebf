//! What holds of all requests of a stream, and of every exchange.

use vstd::prelude::*;
use vstd::utf8::{encode_utf8, valid_utf8};

use crate::number::{decimal_spec, lemma_parse_decimal};
use crate::rtsp::exchange::{
    asks_for_authorization, authorized, parse_response, ExchangeView, ResponseError,
};
use crate::rtsp::headers::{
    distinct, lemma_lookup_put, lemma_position_of, lookup, put, Field,
};
use crate::rtsp::message::{
    fields_text, message_text, parse_message, MessageView, RtspMethod, RtspStatusLine,
    StatusLineView,
};
use crate::rtsp::stream::{
    advanced, can_request, describe_spec, request_spec, setup_spec, transport_text, StreamView,
};
use crate::rtsp::uri::url_of;
use crate::text::crlf;

verus! {

/// A stream after it has made `n` requests.
pub open spec fn advanced_by(stream: StreamView, n: nat) -> StreamView
    decreases n,
{
    if n == 0 {
        stream
    } else {
        advanced(advanced_by(stream, (n - 1) as nat))
    }
}

/// A request carries the sequence number of the stream and, besides it, the headers that it was
/// given.
pub proof fn lemma_request_headers(
    stream: StreamView,
    method: RtspMethod,
    headers: Seq<Field>,
    body: Option<Seq<char>>,
    name: Seq<char>,
)
    requires
        distinct(headers),
    ensures
        lookup(request_spec(stream, method, headers, body).headers, name) == (if name == "CSeq"@ {
            Some(decimal_spec(stream.cseq as int))
        } else {
            lookup(headers, name)
        }),
{
    lemma_lookup_put(headers, "CSeq"@, decimal_spec(stream.cseq as int), name);
}

/// Requests with different sequence numbers carry different CSeq headers.
pub proof fn lemma_cseq_tells_requests_apart(
    stream: StreamView,
    method: RtspMethod,
    headers: Seq<Field>,
    body: Option<Seq<char>>,
    other_stream: StreamView,
    other_method: RtspMethod,
    other_headers: Seq<Field>,
    other_body: Option<Seq<char>>,
)
    requires
        distinct(headers),
        distinct(other_headers),
        stream.cseq != other_stream.cseq,
    ensures
        lookup(request_spec(stream, method, headers, body).headers, "CSeq"@) != lookup(
            request_spec(other_stream, other_method, other_headers, other_body).headers,
            "CSeq"@,
        ),
{
    lemma_request_headers(stream, method, headers, body, "CSeq"@);
    lemma_request_headers(other_stream, other_method, other_headers, other_body, "CSeq"@);
    lemma_parse_decimal(stream.cseq as int, usize::MAX as int);
    lemma_parse_decimal(other_stream.cseq as int, usize::MAX as int);
}

/// Requests are numbered in the order in which they are made: after `n` of them the next one has
/// the number `n` more, as long as there is such a number. Nothing else changes.
pub proof fn lemma_requests_are_numbered(stream: StreamView, n: nat)
    requires
        stream.cseq + n <= usize::MAX,
    ensures
        advanced_by(stream, n) == (StreamView { cseq: (stream.cseq + n) as usize, ..stream }),
    decreases n,
{
    if n > 0 {
        lemma_requests_are_numbered(stream, (n - 1) as nat);
    }
}

/// The requests that open a session: a new stream asks for the description with number 0, and,
/// once the description has given it a track, for the set-up of that track with number 1.
pub proof fn lemma_opening_requests(
    stream: StreamView,
    track: Seq<char>,
    rtp_port: u16,
    rtcp_port: u16,
)
    requires
        stream.cseq == 0,
        url_of(stream.url.text + seq!['/'] + track) is Ok,
    ensures
        ({
            let describe = describe_spec(stream);
            let after = StreamView { track_id: track, ..advanced(stream) };
            let setup = setup_spec(after, rtp_port, rtcp_port);
            &&& describe.first_line.uri == stream.url
            &&& lookup(describe.headers, "CSeq"@) == Some(seq!['0'])
            &&& can_request(after, RtspMethod::Setup)
            &&& url_of(stream.url.text + seq!['/'] + track) == Ok::<_, Seq<char>>(
                setup.first_line.uri,
            )
            &&& lookup(setup.headers, "CSeq"@) == Some(seq!['1'])
            &&& lookup(setup.headers, "Transport"@) == Some(transport_text(rtp_port, rtcp_port))
        }),
{
    let after = StreamView { track_id: track, ..advanced(stream) };
    let transport = seq![("Transport"@, transport_text(rtp_port, rtcp_port))];
    reveal_strlit("CSeq");
    reveal_strlit("Transport");
    assert("CSeq"@.len() != "Transport"@.len());
    lemma_request_headers(stream, RtspMethod::Describe, seq![], None, "CSeq"@);
    lemma_request_headers(after, RtspMethod::Setup, transport, None, "CSeq"@);
    lemma_request_headers(after, RtspMethod::Setup, transport, None, "Transport"@);
    lemma_position_of(transport, 0);
}

/// A request is sent again at most once: no response to the second one asks for more.
pub proof fn lemma_at_most_one_retry(
    exchange: ExchangeView,
    authorization: Seq<char>,
    response: MessageView<StatusLineView>,
)
    ensures
        !asks_for_authorization(authorized(exchange, authorization), response),
{
}

/// Only a first response with status 401 asks for authorization, and it always does.
pub proof fn lemma_unauthorized_asks(
    exchange: ExchangeView,
    response: MessageView<StatusLineView>,
)
    ensures
        asks_for_authorization(exchange, response) == (!exchange.retried
            && response.first_line.status_code == 401),
{
}

/// A request that is sent again is the same request, sequence number included, but for the
/// Authorization header, which is only added where there is none.
pub proof fn lemma_retry_keeps_request(
    exchange: ExchangeView,
    authorization: Seq<char>,
    name: Seq<char>,
)
    requires
        distinct(exchange.request.headers),
    ensures
        ({
            let before = exchange.request;
            let after = authorized(exchange, authorization).request;
            &&& after.first_line == before.first_line
            &&& after.body == before.body
            &&& name != "Authorization"@ || lookup(before.headers, name) is Some ==> lookup(
                after.headers,
                name,
            ) == lookup(before.headers, name)
            &&& lookup(before.headers, "Authorization"@) is None ==> lookup(
                after.headers,
                "Authorization"@,
            ) == Some(authorization)
        }),
{
    let headers = exchange.request.headers;
    if lookup(headers, "Authorization"@) is None {
        assert(authorized(exchange, authorization).request.headers == put(
            headers,
            "Authorization"@,
            authorization,
        ));
        lemma_lookup_put(headers, "Authorization"@, authorization, name);
        lemma_lookup_put(headers, "Authorization"@, authorization, "Authorization"@);
    }
}

/// The text of a request that is sent again is the text that was sent, with a line for the
/// Authorization header in front of the empty line.
pub proof fn lemma_retry_text(
    first_line: Seq<char>,
    exchange: ExchangeView,
    authorization: Seq<char>,
)
    requires
        lookup(exchange.request.headers, "Authorization"@) is None,
    ensures
        ({
            let headers = exchange.request.headers;
            let after = authorized(exchange, authorization).request;
            let line = "Authorization"@ + seq![':', ' '] + authorization + crlf();
            message_text(first_line, after.headers, after.body) == first_line + crlf()
                + fields_text(headers) + line + crlf() + (match exchange.request.body {
                Some(body) => body + crlf(),
                None => seq![],
            })
        }),
{
    let headers = exchange.request.headers;
    let after = headers.push(("Authorization"@, authorization));
    assert(after.drop_last() =~= headers);
    assert(fields_text(after) =~= fields_text(headers) + ("Authorization"@ + seq![':', ' ']
        + authorization + crlf()));
    assert(first_line + crlf() + fields_text(after) =~= first_line + crlf() + fields_text(headers)
        + ("Authorization"@ + seq![':', ' '] + authorization + crlf()));
}

/// A response that is sent in UTF-8 is read as its text is; bytes that are no UTF-8 are no
/// response.
pub proof fn lemma_response_bytes(text: Seq<char>, bytes: Seq<u8>)
    ensures
        !valid_utf8(bytes) ==> parse_response(bytes) == Err::<MessageView<StatusLineView>, _>(
            ResponseError::<Seq<char>>::NotUtf8,
        ),
        parse_response(encode_utf8(text)) == (match parse_message::<RtspStatusLine>(text) {
            Ok(response) => Ok(response),
            Err(error) => Err(ResponseError::Message(error)),
        }),
{
    broadcast use {vstd::utf8::encode_utf8_valid_utf8, vstd::utf8::encode_utf8_decode_utf8};

}

} // verus!

//! What a request says: its line as it is sent, and what a server reads of its headers.

use vstd::prelude::*;

use crate::number::{decimal_spec, lemma_parse_decimal, parse_number_spec};
use crate::rtsp::headers::{
    distinct, lemma_lookup_is_some, lemma_lookup_put, lookup, Field,
};
use crate::rtsp::message::{version_text, RtspMethod, RtspVersion};
use crate::rtsp::message_laws::lemma_version_text;
use crate::rtsp::request::{request_line_text, RequestLineView};
use crate::rtsp::setup::{parse_port_range, parse_session, SetupError};
use crate::rtsp::setup_laws::{
    lemma_decimal_chars, lemma_port_range_round_trip, lemma_session_round_trip,
};
use crate::rtsp::stream::{
    advanced, can_request, describe_spec, play_spec, request_spec, server_address_spec,
    setup_spec, transport_text, StreamView,
};
use crate::rtsp::uri::{url_of, UrlView};
use crate::text::{is_whitespace_spec, join_spec, split_spec, words_spec};
use crate::text_laws::lemma_join;
use crate::text_lemmas::{
    lemma_char_not_found, lemma_single_word, lemma_split_join, lemma_words_across_space,
};

verus! {

/// A request line is the method's name, the whole text of the URL and the version's name, one
/// space apart. Where the URL has no white space, these are its words.
pub proof fn lemma_request_line_is_read(method: RtspMethod, uri: UrlView, version: RtspVersion)
    ensures
        ({
            let name = match method {
                RtspMethod::Describe => "DESCRIBE"@,
                RtspMethod::Options => "OPTIONS"@,
                RtspMethod::Play => "PLAY"@,
                RtspMethod::Setup => "SETUP"@,
            };
            let protocol = match version {
                RtspVersion::Rtsp10 => "RTSP/1.0"@,
                RtspVersion::Rtsp20 => "RTSP/2.0"@,
            };
            let text = request_line_text(RequestLineView { method, uri, version });
            &&& text == join_spec(seq![name, uri.text, protocol], seq![' '])
            &&& uri.text.len() > 0 && (forall|i: int|
                0 <= i < uri.text.len() ==> !is_whitespace_spec(#[trigger] uri.text[i]))
                ==> words_spec(text) == seq![name, uri.text, protocol]
        }),
{
    let name = match method {
        RtspMethod::Describe => "DESCRIBE"@,
        RtspMethod::Options => "OPTIONS"@,
        RtspMethod::Play => "PLAY"@,
        RtspMethod::Setup => "SETUP"@,
    };
    let protocol = version_text(version);
    let text = request_line_text(RequestLineView { method, uri, version });
    lemma_join(seq![name], uri.text, seq![' ']);
    lemma_join(seq![name, uri.text], protocol, seq![' ']);
    assert(seq![name].push(uri.text) =~= seq![name, uri.text]);
    assert(seq![name, uri.text].push(protocol) =~= seq![name, uri.text, protocol]);
    assert(text =~= join_spec(seq![name, uri.text, protocol], seq![' ']));
    if uri.text.len() > 0 && (forall|i: int|
        0 <= i < uri.text.len() ==> !is_whitespace_spec(#[trigger] uri.text[i])) {
        lemma_method_is_a_word(method);
        lemma_version_text(version);
        lemma_single_word(uri.text);
        let rest = uri.text + seq![' '] + protocol;
        assert(text =~= name + seq![' '] + rest);
        lemma_words_across_space(name, rest);
        lemma_words_across_space(uri.text, protocol);
        assert(words_spec(text) =~= seq![name, uri.text, protocol]);
    }
}

proof fn lemma_method_is_a_word(method: RtspMethod)
    ensures
        ({
            let name = match method {
                RtspMethod::Describe => "DESCRIBE"@,
                RtspMethod::Options => "OPTIONS"@,
                RtspMethod::Play => "PLAY"@,
                RtspMethod::Setup => "SETUP"@,
            };
            words_spec(name) == seq![name]
        }),
{
    reveal_strlit("DESCRIBE");
    reveal_strlit("OPTIONS");
    reveal_strlit("PLAY");
    reveal_strlit("SETUP");
    assert("DESCRIBE"@ =~= seq!['D', 'E', 'S', 'C', 'R', 'I', 'B', 'E']);
    assert("OPTIONS"@ =~= seq!['O', 'P', 'T', 'I', 'O', 'N', 'S']);
    assert("PLAY"@ =~= seq!['P', 'L', 'A', 'Y']);
    assert("SETUP"@ =~= seq!['S', 'E', 'T', 'U', 'P']);
    lemma_single_word("DESCRIBE"@);
    lemma_single_word("OPTIONS"@);
    lemma_single_word("PLAY"@);
    lemma_single_word("SETUP"@);
}

/// A request is of the method asked for, in the stream's version, with the body given. It is about
/// the stream's URL, but for SETUP, which is about what the text of that URL, a slash and the track
/// write. Its sequence number is read back from its headers, the other headers are those given,
/// and the next request has the next number.
pub proof fn lemma_request_is_what_was_asked_for(
    stream: StreamView,
    method: RtspMethod,
    headers: Seq<Field>,
    body: Option<Seq<char>>,
    name: Seq<char>,
)
    requires
        distinct(headers),
    ensures
        ({
            let request = request_spec(stream, method, headers, body);
            let cseq = lookup(request.headers, "CSeq"@);
            &&& request.first_line.method == method
            &&& request.first_line.version == stream.version
            &&& request.body == body
            &&& method != RtspMethod::Setup ==> request.first_line.uri == stream.url
            &&& method == RtspMethod::Setup ==> (url_of(
                stream.url.text + seq!['/'] + stream.track_id,
            ) matches Ok(uri) ==> request.first_line.uri == uri)
            &&& cseq is Some && parse_number_spec(cseq->0, usize::MAX as int) == Some(
                stream.cseq as int,
            )
            &&& cseq->0 == decimal_spec(stream.cseq as int)
            &&& name != "CSeq"@ ==> lookup(request.headers, name) == lookup(headers, name)
            &&& can_request(stream, method) == (method != RtspMethod::Setup || url_of(
                stream.url.text + seq!['/'] + stream.track_id,
            ) is Ok)
            &&& advanced(stream).cseq == (if stream.cseq == usize::MAX {
                0
            } else {
                stream.cseq + 1
            })
        }),
{
    lemma_lookup_put(headers, "CSeq"@, decimal_spec(stream.cseq as int), name);
    lemma_lookup_put(headers, "CSeq"@, decimal_spec(stream.cseq as int), "CSeq"@);
    lemma_parse_decimal(stream.cseq as int, usize::MAX as int);
}

proof fn lemma_request_of_one_header(
    stream: StreamView,
    method: RtspMethod,
    name: Seq<char>,
    value: Seq<char>,
    other: Seq<char>,
)
    requires
        name.len() != 4,
    ensures
        ({
            let request = request_spec(stream, method, seq![(name, value)], None);
            &&& request.headers.len() == 2
            &&& lookup(request.headers, name) == Some(value)
            &&& other != name && other != "CSeq"@ ==> lookup(request.headers, other) is None
        }),
{
    let headers = seq![(name, value)];
    reveal_strlit("CSeq");
    lemma_lookup_put(headers, "CSeq"@, decimal_spec(stream.cseq as int), name);
    lemma_lookup_put(headers, "CSeq"@, decimal_spec(stream.cseq as int), other);
    lemma_lookup_is_some(headers, name);
    lemma_lookup_is_some(headers, other);
    lemma_lookup_is_some(headers, "CSeq"@);
    assert(headers[0] == (name, value));
}

/// A DESCRIBE request has a sequence number and no other header, and no body.
pub proof fn lemma_describe_request(stream: StreamView, other: Seq<char>)
    ensures
        ({
            let request = describe_spec(stream);
            &&& request.first_line.method == RtspMethod::Describe
            &&& request.first_line.uri == stream.url
            &&& request.first_line.version == stream.version
            &&& request.body is None
            &&& request.headers.len() == 1
            &&& lookup(request.headers, "CSeq"@) == Some(decimal_spec(stream.cseq as int))
            &&& other != "CSeq"@ ==> lookup(request.headers, other) is None
        }),
{
    let none: Seq<Field> = seq![];
    lemma_request_is_what_was_asked_for(stream, RtspMethod::Describe, none, None, other);
    lemma_lookup_is_some(none, other);
    lemma_lookup_is_some(none, "CSeq"@);
}

/// A SETUP request asks for the media on the two ports that it was given: its Transport header has
/// three parameters, and the last one writes these ports, from which they are read back. Besides
/// it and the sequence number there is no other header.
pub proof fn lemma_setup_request(
    stream: StreamView,
    rtp_port: u16,
    rtcp_port: u16,
    other: Seq<char>,
)
    ensures
        ({
            let request = setup_spec(stream, rtp_port, rtcp_port);
            let transport = lookup(request.headers, "Transport"@);
            let range = decimal_spec(rtp_port as int) + seq!['-'] + decimal_spec(rtcp_port as int);
            &&& request.first_line.method == RtspMethod::Setup
            &&& url_of(stream.url.text + seq!['/'] + stream.track_id) matches Ok(uri)
                ==> request.first_line.uri == uri
            &&& request.first_line.version == stream.version
            &&& request.body is None
            &&& request.headers.len() == 2
            &&& lookup(request.headers, "CSeq"@) == Some(decimal_spec(stream.cseq as int))
            &&& transport is Some
            &&& split_spec(transport->0, seq![';']) == seq![
                "RTP/AVP/UDP"@,
                "unicast"@,
                "client_port="@ + range,
            ]
            &&& parse_port_range(range) == Ok::<_, SetupError>((rtp_port, rtcp_port))
            &&& other != "Transport"@ && other != "CSeq"@ ==> lookup(request.headers, other) is None
        }),
{
    let text = transport_text(rtp_port, rtcp_port);
    let headers = seq![("Transport"@, text)];
    let a = decimal_spec(rtp_port as int);
    let b = decimal_spec(rtcp_port as int);
    let range = a + seq!['-'] + b;
    reveal_strlit("Transport");
    lemma_request_of_one_header(stream, RtspMethod::Setup, "Transport"@, text, other);
    lemma_request_is_what_was_asked_for(stream, RtspMethod::Setup, headers, None, other);
    lemma_port_range_round_trip((rtp_port, rtcp_port));
    reveal_strlit("RTP/AVP/UDP;unicast;client_port=");
    reveal_strlit("RTP/AVP/UDP");
    reveal_strlit("unicast");
    reveal_strlit("client_port=");
    let protocol = seq!['R', 'T', 'P', '/', 'A', 'V', 'P', '/', 'U', 'D', 'P'];
    let unicast = seq!['u', 'n', 'i', 'c', 'a', 's', 't'];
    let client = seq!['c', 'l', 'i', 'e', 'n', 't', '_', 'p', 'o', 'r', 't', '='];
    assert("RTP/AVP/UDP"@ =~= protocol);
    assert("unicast"@ =~= unicast);
    assert("client_port="@ =~= client);
    assert("RTP/AVP/UDP;unicast;client_port="@ =~= protocol + seq![';'] + unicast + seq![';']
        + client);
    let last = client + range;
    let params = seq![protocol, unicast, last];
    lemma_decimal_chars(rtp_port as int);
    lemma_decimal_chars(rtcp_port as int);
    assert forall|i: int| 0 <= i < last.len() implies #[trigger] last[i] != ';' by {
        if i < client.len() {
            assert(last[i] == client[i]);
        } else {
            let k = i - client.len();
            assert(last[i] == range[k]);
            if k < a.len() {
                assert(range[k] == a[k]);
            } else if k > a.len() {
                assert(range[k] == b[k - a.len() - 1]);
            }
        }
    }
    lemma_char_not_found(protocol, ';');
    lemma_char_not_found(unicast, ';');
    lemma_char_not_found(last, ';');
    lemma_join(seq![protocol], unicast, seq![';']);
    lemma_join(seq![protocol, unicast], last, seq![';']);
    assert(seq![protocol].push(unicast) =~= seq![protocol, unicast]);
    assert(seq![protocol, unicast].push(last) =~= params);
    assert(text =~= join_spec(params, seq![';']));
    lemma_split_join(params, seq![';']);
}

/// A PLAY request names the session that it was given: it is read back from its Session header.
/// Besides it and the sequence number there is no other header.
pub proof fn lemma_play_request(stream: StreamView, session: u32, other: Seq<char>)
    ensures
        ({
            let request = play_spec(stream, session);
            let named = lookup(request.headers, "Session"@);
            &&& request.first_line.method == RtspMethod::Play
            &&& request.first_line.uri == stream.url
            &&& request.first_line.version == stream.version
            &&& request.body is None
            &&& request.headers.len() == 2
            &&& lookup(request.headers, "CSeq"@) == Some(decimal_spec(stream.cseq as int))
            &&& named == Some(decimal_spec(session as int))
            &&& parse_session(named->0) == Ok::<_, SetupError>((session, 60usize))
            &&& other != "Session"@ && other != "CSeq"@ ==> lookup(request.headers, other) is None
        }),
{
    let value = decimal_spec(session as int);
    reveal_strlit("Session");
    lemma_request_of_one_header(stream, RtspMethod::Play, "Session"@, value, other);
    lemma_request_is_what_was_asked_for(
        stream,
        RtspMethod::Play,
        seq![("Session"@, value)],
        None,
        other,
    );
    lemma_session_round_trip(session);
}

/// The address of a server is its host as the URL has it, a colon, and the URL's port or else 554,
/// which is read back from it. A URL without a host has no address.
pub proof fn lemma_server_address(url: UrlView)
    ensures
        server_address_spec(url) is Some == url.host_str is Some,
        url.host_str matches Some(host) ==> {
            let address = server_address_spec(url)->0;
            let port = match url.port {
                Some(port) => port as int,
                None => 554int,
            };
            &&& address == host + seq![':'] + decimal_spec(port)
            &&& parse_number_spec(address.skip(host.len() as int + 1), 65535) == Some(port)
        },
{
    if let Some(host) = url.host_str {
        let port = match url.port {
            Some(port) => port as int,
            None => 554int,
        };
        let address = server_address_spec(url)->0;
        assert(address.skip(host.len() as int + 1) =~= decimal_spec(port));
        lemma_parse_decimal(port, 65535);
    }
}

} // verus!

//! The exchange of a request for its response, with the retry that authentication asks for.

use vstd::prelude::*;
use vstd::utf8::{decode_utf8, valid_utf8};

use crate::rtsp::auth::{answer_of, answers, challenge_of};
use crate::rtsp::headers::{lookup, put_if_absent};
use crate::rtsp::message::{
    message_text, method_text, optional_text, parse_message, MessageError, MessageView,
    RtspMessage, RtspResponse, RtspStatusLine, StatusLineView, ToText,
};
use crate::rtsp::request::{request_line_text, RequestLineView, RtspRequest};
use crate::rtsp::stream::RtspStream;

verus! {

/// The status code of a response that asks for authentication.
pub const UNAUTHORIZED: u32 = 401;

/// Why received bytes are no response; `T` is the type of the text that is quoted.
#[derive(Debug, PartialEq, Eq)]
pub enum ResponseError<T> {
    /// The bytes are no UTF-8.
    NotUtf8,
    /// The text is no response.
    Message(MessageError<T>),
}

/// What received bytes mean as a response.
pub open spec fn parse_response(bytes: Seq<u8>) -> Result<
    MessageView<StatusLineView>,
    ResponseError<Seq<char>>,
> {
    if valid_utf8(bytes) {
        match parse_message::<RtspStatusLine>(decode_utf8(bytes)) {
            Ok(response) => Ok(response),
            Err(error) => Err(ResponseError::Message(error)),
        }
    } else {
        Err(ResponseError::NotUtf8)
    }
}

/// `std::str::from_utf8`: the text that the bytes encode, where they are valid UTF-8.
#[verifier::external_body]
fn from_utf8(bytes: &[u8]) -> (r: Option<&str>)
    ensures
        match r {
            Some(text) => valid_utf8(bytes@) && text@ == decode_utf8(bytes@),
            None => !valid_utf8(bytes@),
        },
{
    std::str::from_utf8(bytes).ok()
}

impl View for ResponseError<String> {
    type V = ResponseError<Seq<char>>;

    open spec fn view(&self) -> ResponseError<Seq<char>> {
        match self {
            ResponseError::NotUtf8 => ResponseError::NotUtf8,
            ResponseError::Message(error) => ResponseError::Message(error@),
        }
    }
}

impl RtspMessage<RtspStatusLine> {
    /// The response that was received as bytes.
    pub fn from_bytes(bytes: &[u8]) -> (r: Result<RtspResponse, ResponseError<String>>)
        ensures
            match r {
                Ok(response) => parse_response(bytes@) == Ok::<_, ResponseError<Seq<char>>>(
                    response@,
                ),
                Err(error) => parse_response(bytes@) == Err::<MessageView<StatusLineView>, _>(
                    error@,
                ),
            },
    {
        match from_utf8(bytes) {
            Some(text) => match RtspResponse::parse(text) {
                Ok(response) => Ok(response),
                Err(error) => Err(ResponseError::Message(error)),
            },
            None => Err(ResponseError::NotUtf8),
        }
    }
}

/// A request that is sent until it is answered.
#[derive(Debug)]
pub struct Exchange {
    pub request: RtspRequest,
    /// Whether the request has been sent again.
    pub retried: bool,
}

/// An exchange as plain values.
#[verifier::ext_equal]
pub struct ExchangeView {
    pub request: MessageView<RequestLineView>,
    pub retried: bool,
}

impl View for Exchange {
    type V = ExchangeView;

    open spec fn view(&self) -> ExchangeView {
        ExchangeView { request: self.request@, retried: self.retried }
    }
}

/// What follows a response.
#[derive(Debug)]
pub enum Progress {
    /// The request, now with authorization, is to be sent again.
    SendAgain,
    /// The response answers the request.
    Done(RtspResponse),
}

/// Whether a response asks to send the request again with authorization.
pub open spec fn asks_for_authorization(
    exchange: ExchangeView,
    response: MessageView<StatusLineView>,
) -> bool {
    !exchange.retried && response.first_line.status_code == UNAUTHORIZED
}

/// An exchange whose request is sent again with an Authorization header. A request that has one
/// keeps it.
pub open spec fn authorized(exchange: ExchangeView, authorization: Seq<char>) -> ExchangeView {
    ExchangeView {
        request: MessageView {
            headers: put_if_absent(exchange.request.headers, "Authorization"@, authorization),
            ..exchange.request
        },
        retried: true,
    }
}

impl Exchange {
    /// The exchange of a request that has not been sent yet.
    pub fn new(request: RtspRequest) -> (r: Exchange)
        ensures
            r.request == request,
            !r.retried,
    {
        Exchange { request, retried: false }
    }

    /// What is to be sent.
    pub fn to_send(&self) -> (r: String)
        ensures
            r@ == self.request.text(),
            r@ == message_text(
                request_line_text(self.request.first_line@),
                self.request.headers.fields(),
                optional_text(self.request.body),
            ),
    {
        self.request.to_string()
    }

    /// Whether a response asks to send the request again with authorization.
    pub fn asks_for_authorization(&self, response: &RtspResponse) -> (r: bool)
        ensures
            r == asks_for_authorization(self@, response@),
    {
        !self.retried && response.first_line.status_code == UNAUTHORIZED
    }

    /// Has the request sent again with an Authorization header.
    pub fn authorize(&mut self, authorization: String)
        ensures
            final(self)@ == authorized(old(self)@, authorization@),
            final(self).retried,
            final(self).request.first_line == old(self).request.first_line,
            final(self).request.body == old(self).request.body,
            lookup(final(self).request.headers.fields(), "Authorization"@) == (match lookup(
                old(self).request.headers.fields(),
                "Authorization"@,
            ) {
                Some(present) => Some(present),
                None => Some(authorization@),
            }),
    {
        let ghost fields = self.request.headers.fields();
        assert(fields.push(("Authorization"@, authorization@)).drop_last() =~= fields);
        self.request.headers.insert_if_absent("Authorization".to_owned(), authorization);
        self.retried = true;
    }

    /// Takes in a response. The error is the reason why its challenge is not answered.
    pub fn receive(&mut self, stream: &RtspStream, response: RtspResponse) -> (r: Result<
        Progress,
        String,
    >)
        requires
            asks_for_authorization(old(self)@, response@) ==> challenge_of(
                response.headers.fields(),
            ) is Some,
        ensures
            if asks_for_authorization(old(self)@, response@) {
                match r {
                    Ok(progress) => progress is SendAgain && exists|authorization: Seq<char>|
                        answers(
                            stream@,
                            old(self).request.first_line@,
                            response.headers.fields(),
                            Ok(authorization),
                        ) && final(self)@ == #[trigger] authorized(old(self)@, authorization),
                    Err(message) => answers(
                        stream@,
                        old(self).request.first_line@,
                        response.headers.fields(),
                        Err(message@),
                    ) && *final(self) == *old(self),
                }
            } else {
                r == Ok::<_, String>(Progress::Done(response)) && *final(self) == *old(self)
            },
            old(self).retried || response.first_line.status_code != 401 ==> r == Ok::<_, String>(
                Progress::Done(response),
            ),
            !old(self).retried && response.first_line.status_code == 401 ==> !(r matches Ok(
                Progress::Done(_),
            )),
            r matches Ok(Progress::SendAgain) ==> {
                &&& final(self).retried
                &&& final(self).request.first_line == old(self).request.first_line
                &&& final(self).request.body == old(self).request.body
                &&& lookup(old(self).request.headers.fields(), "Authorization"@) is None ==> (
                lookup(final(self).request.headers.fields(), "Authorization"@) matches Some(
                    authorization,
                ) && exists|nonce: u128|
                    #[trigger] answer_of(
                        lookup(response.headers.fields(), "WWW-Authenticate"@)->0,
                        stream.credential.username@,
                        stream.credential.password@,
                        old(self).request.first_line.uri.text@,
                        method_text(old(self).request.first_line.method),
                        None,
                        nonce,
                    ) == Ok::<Seq<char>, Seq<char>>(authorization))
            },
    {
        if self.asks_for_authorization(&response) {
            match stream.try_auth(&self.request.first_line, &response.headers) {
                Ok(authorization) => {
                    self.authorize(authorization);
                    Ok(Progress::SendAgain)
                },
                Err(message) => Err(message),
            }
        } else {
            Ok(Progress::Done(response))
        }
    }
}

} // verus!

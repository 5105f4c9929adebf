//! Answers to authentication challenges.

use vstd::prelude::*;

use crate::rtsp::headers::{lookup, Field, Headers};
use crate::rtsp::message::{method_text, RtspMethod};
use crate::rtsp::request::{RequestLineView, RtspRequestLine};
use crate::rtsp::stream::{RtspStream, StreamView};

verus! {

/// The characters of a text or of an error message.
pub open spec fn result_text(r: Result<String, String>) -> Result<Seq<char>, Seq<char>> {
    match r {
        Ok(text) => Ok(text@),
        Err(message) => Err(message@),
    }
}

/// The value of the Authorization header that answers a challenge, given the nonce of sixteen bytes
/// that the client picks, or the reason why the challenge is not answered.
pub uninterp spec fn answer_of(
    challenge: Seq<char>,
    username: Seq<char>,
    password: Seq<char>,
    uri: Seq<char>,
    method: Seq<char>,
    body: Option<Seq<u8>>,
    nonce: u128,
) -> Result<Seq<char>, Seq<char>>;

/// The bytes of an optional body.
pub open spec fn optional_bytes(body: Option<&[u8]>) -> Option<Seq<u8>> {
    match body {
        Some(bytes) => Some(bytes@),
        None => None,
    }
}

/// `http_auth::PasswordClient::try_from` on the challenge, and `PasswordClient::respond` on the
/// client that it returns. The contract says that the answer depends on the arguments and on a
/// nonce alone: for a Digest challenge `respond` picks sixteen random bytes at each call.
#[verifier::external_body]
fn answer(
    challenge: &str,
    username: &str,
    password: &str,
    uri: &str,
    method: &str,
    body: Option<&[u8]>,
) -> (r: Result<String, String>)
    ensures
        exists|nonce: u128|
            result_text(r) == #[trigger] answer_of(
                challenge@,
                username@,
                password@,
                uri@,
                method@,
                optional_bytes(body),
                nonce,
            ),
{
    let mut client = http_auth::PasswordClient::try_from(challenge)?;
    client.respond(&http_auth::PasswordParams { username, password, uri, method, body })
}

/// The challenge among the headers of a response.
pub open spec fn challenge_of(headers: Seq<Field>) -> Option<Seq<char>> {
    lookup(headers, "WWW-Authenticate"@)
}

/// Whether `answer` is what a stream answers to the challenge among `headers` when it has made a
/// request with the given request line.
pub open spec fn answers(
    stream: StreamView,
    line: RequestLineView,
    headers: Seq<Field>,
    answer: Result<Seq<char>, Seq<char>>,
) -> bool {
    exists|nonce: u128|
        answer == #[trigger] answer_of(
            challenge_of(headers)->0,
            stream.username,
            stream.password,
            line.uri.text,
            method_text(line.method),
            None,
            nonce,
        )
}

impl RtspStream {
    /// Answers the challenge among the headers of a response with the stream's credential.
    pub fn try_auth(&self, request_line: &RtspRequestLine, headers: &Headers) -> (r: Result<
        String,
        String,
    >)
        requires
            challenge_of(headers.fields()) is Some,
        ensures
            answers(self@, request_line@, headers.fields(), result_text(r)),
            exists|nonce: u128|
                #[trigger] answer_of(
                    lookup(headers.fields(), "WWW-Authenticate"@)->0,
                    self.credential.username@,
                    self.credential.password@,
                    request_line.uri.text@,
                    method_text(request_line.method),
                    None,
                    nonce,
                ) == (match r {
                    Ok(answer) => Ok::<Seq<char>, Seq<char>>(answer@),
                    Err(message) => Err::<Seq<char>, Seq<char>>(message@),
                }),
    {
        answer(
            headers.get("WWW-Authenticate").unwrap(),
            self.credential.username.as_str(),
            self.credential.password.as_str(),
            request_line.uri.as_str(),
            request_line.method.as_str(),
            None,
        )
    }
}

/// A challenge is answered for the request that was challenged: with the challenge of the response,
/// the stream's user name and password, the text of the request's URL, the name of its method, and
/// no body.
pub proof fn lemma_answer_is_for_the_request(
    stream: StreamView,
    line: RequestLineView,
    headers: Seq<Field>,
    answer: Result<Seq<char>, Seq<char>>,
    method: Seq<char>,
)
    requires
        line.method == RtspMethod::Describe ==> method == "DESCRIBE"@,
        line.method == RtspMethod::Options ==> method == "OPTIONS"@,
        line.method == RtspMethod::Play ==> method == "PLAY"@,
        line.method == RtspMethod::Setup ==> method == "SETUP"@,
    ensures
        answers(stream, line, headers, answer) == exists|nonce: u128|
            answer == #[trigger] answer_of(
                lookup(headers, "WWW-Authenticate"@)->0,
                stream.username,
                stream.password,
                line.uri.text,
                method,
                None,
                nonce,
            ),
        (challenge_of(headers) is Some) == (lookup(headers, "WWW-Authenticate"@) is Some),
{
    assert(method == method_text(line.method));
}

} // verus!

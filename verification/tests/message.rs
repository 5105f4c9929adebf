//! Messages: their parser and their text.

use rtsp_client::rtsp::exchange::ResponseError;
use rtsp_client::rtsp::headers::Headers;
use rtsp_client::rtsp::message::{
    MessageError, RtspFirstLine, RtspMethod, RtspResponse, RtspStatusLine, RtspVersion, ToText,
};

#[test]
fn parse() {
    let response = RtspResponse::parse("RTSP/1.0 200 OK\r\nCSeq: 312\r\nAccept: application/sdp, application/rtsl, application/mheg\r\n\r\n").unwrap();
    assert_eq!(response.first_line.version, RtspVersion::Rtsp10);
    assert_eq!(response.first_line.status_code, 200);
    assert_eq!(response.first_line.msg, Some("OK".to_string()));
    assert_eq!(response.headers.len(), 2);

    assert!(RtspResponse::parse("RTSP/1.0 200 OK\r\nCSeq: 312\r\nAccept: application/sdp, application/rtsl, application/mheg\r\n").is_err());
    assert!(RtspResponse::parse("RTSP/1.0 200 OK\r\nCSeq: 312\r\nAccept: application/sdp, application/rtsl, application/mheg").is_err());
    assert!(RtspResponse::parse("RTSP/1.0 200 OK\r\nCSeq: 312\r\nAccept application/sdp, application/rtsl, application/mheg\r\n\r\n").is_err());
    assert!(RtspResponse::parse("RTSP/1.0 OK\r\nCSeq: 312\r\nAccept: application/sdp, application/rtsl, application/mheg").is_err());
}

#[test]
fn header_values_are_trimmed_and_looked_up() {
    let response =
        RtspResponse::parse("RTSP/2.0 404\r\n CSeq :\t7 \r\nA: b:c\r\nA: d\r\n\r\nbody\r\n")
            .unwrap();
    assert_eq!(response.first_line.version, RtspVersion::Rtsp20);
    assert_eq!(response.first_line.status_code, 404);
    assert_eq!(response.first_line.msg, None);
    assert_eq!(response.headers.len(), 2);
    assert_eq!(response.headers.get("CSeq"), Some("7"));
    assert_eq!(response.headers.get("A"), Some("d"));
    assert_eq!(response.headers.get("a"), None);
    assert_eq!(response.body, Some("body\r\n\r\n".to_string()));
}

#[test]
fn value_keeps_what_follows_the_first_colon() {
    let response = RtspResponse::parse("RTSP/1.0 200 OK\r\nA: b:c\r\n\r\n").unwrap();
    assert_eq!(response.headers.get("A"), Some("b:c"));
    assert_eq!(response.body, Some("\r\n".to_string()));
}

#[test]
fn each_message_error_has_an_input() {
    let error = |text: &str| RtspResponse::parse(text).unwrap_err();
    assert_eq!(
        error("RTSP/1.0\r\n\r\n"),
        MessageError::InvalidStatusLine("RTSP/1.0".to_string())
    );
    assert_eq!(error(""), MessageError::InvalidStatusLine(String::new()));
    assert_eq!(
        error("HTTP/1.1 200 OK\r\n\r\n"),
        MessageError::InvalidVersion("HTTP/1.1".to_string())
    );
    assert_eq!(error("RTSP/1.0 OK\r\n\r\n"), MessageError::InvalidStatusCode);
    assert_eq!(error("RTSP/1.0 4294967296 OK\r\n\r\n"), MessageError::InvalidStatusCode);
    assert_eq!(error("RTSP/1.0 -1 OK\r\n\r\n"), MessageError::InvalidStatusCode);
    assert_eq!(
        error("RTSP/1.0 200 OK\r\nCSeq 1\r\n\r\n"),
        MessageError::InvalidHeaderLine("CSeq 1".to_string())
    );
    assert_eq!(error("RTSP/1.0 200 OK"), MessageError::NoBlankLine);
    assert_eq!(error("RTSP/1.0 200 OK\r\n"), MessageError::NoBlankLine);
    assert_eq!(error("RTSP/1.0 200 OK\r\nCSeq: 1\r\n"), MessageError::NoBlankLine);
}

#[test]
fn status_line_words_are_joined_by_one_space() {
    let line = RtspStatusLine::parse("  RTSP/1.0\t+200   Not  really\u{a0}found ").unwrap();
    assert_eq!(line.status_code, 200);
    assert_eq!(line.msg, Some("Not really found".to_string()));
    assert_eq!(line.to_string(), "RTSP/1.0 200 Not really found");
}

#[test]
fn status_line_without_message() {
    let line = RtspStatusLine { version: RtspVersion::Rtsp20, status_code: 100, msg: None };
    assert_eq!(line.to_string(), "RTSP/2.0 100");
}

#[test]
fn names_of_methods_and_versions() {
    assert_eq!(RtspMethod::Describe.as_str(), "DESCRIBE");
    assert_eq!(RtspMethod::Options.as_str(), "OPTIONS");
    assert_eq!(RtspMethod::Play.as_str(), "PLAY");
    assert_eq!(RtspMethod::Setup.as_str(), "SETUP");
    assert_eq!(ToText::to_string(&RtspMethod::Setup), "SETUP");
    assert_eq!(ToText::to_string(&RtspVersion::Rtsp10), "RTSP/1.0");
    assert_eq!(ToText::to_string(&RtspVersion::Rtsp20), "RTSP/2.0");
}

#[test]
fn text_of_a_response() {
    let mut headers = Headers::new();
    headers.insert("CSeq".to_string(), "3".to_string());
    headers.insert("Session".to_string(), "12".to_string());
    headers.insert("CSeq".to_string(), "4".to_string());
    let response = RtspResponse {
        first_line: RtspStatusLine {
            version: RtspVersion::Rtsp10,
            status_code: 200,
            msg: Some("OK".to_string()),
        },
        headers,
        body: Some("v=0".to_string()),
    };
    assert_eq!(
        response.to_string(),
        "RTSP/1.0 200 OK\r\nCSeq: 4\r\nSession: 12\r\n\r\nv=0\r\n"
    );
}

#[test]
fn a_response_survives_its_text() {
    let text = "RTSP/1.0 200 OK\r\nCSeq: 4\r\nServer: a b\r\n\r\nv=0\r\ns=x\r\n";
    let once = RtspResponse::parse(text).unwrap();
    assert_eq!(once.body, Some("v=0\r\ns=x\r\n\r\n".to_string()));
    let again = RtspResponse::parse(&once.to_string()).unwrap();
    assert_eq!(again.first_line.to_string(), once.first_line.to_string());
    assert_eq!(again.headers.len(), once.headers.len());
    assert_eq!(again.headers.field(0), ("CSeq", "4"));
    assert_eq!(again.headers.field(1), ("Server", "a b"));
    assert_eq!(again.body, Some("v=0\r\ns=x\r\n\r\n\r\n\r\n".to_string()));
}

#[test]
fn responses_come_as_bytes() {
    let response =
        RtspResponse::from_bytes("RTSP/1.0 200 Gr\u{fc}n\r\n\r\n".as_bytes()).unwrap();
    assert_eq!(response.first_line.msg, Some("Gr\u{fc}n".to_string()));
    assert_eq!(
        RtspResponse::from_bytes(b"RTSP/1.0 200 \xff\r\n\r\n").unwrap_err(),
        ResponseError::NotUtf8
    );
    assert_eq!(
        RtspResponse::from_bytes(b"RTSP/1.0 200 OK\r\n").unwrap_err(),
        ResponseError::Message(MessageError::NoBlankLine)
    );
    assert_eq!(
        RtspResponse::from_bytes(b"RTSP/1.0 200 \xed\xa0\x80\r\n\r\n").unwrap_err(),
        ResponseError::NotUtf8
    );
}

#[test]
fn headers_hold_each_name_once() {
    let mut headers = Headers::new();
    assert_eq!(headers.len(), 0);
    headers.insert("A".to_string(), "1".to_string());
    headers.insert_if_absent("A".to_string(), "2".to_string());
    headers.insert_if_absent("B".to_string(), "3".to_string());
    assert_eq!(headers.len(), 2);
    assert_eq!(headers.get("A"), Some("1"));
    assert_eq!(headers.get("B"), Some("3"));
    assert!(headers.contains("B"));
    assert!(!headers.contains("C"));
    let copy = headers.clone();
    headers.insert("A".to_string(), "4".to_string());
    assert_eq!(copy.get("A"), Some("1"));
    assert_eq!(headers.get("A"), Some("4"));
}

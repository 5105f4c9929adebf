//! Responses to SETUP.

use rtsp_client::rtsp::message::RtspResponse;
use rtsp_client::rtsp::setup::{SetupError, SetupResponse};

fn setup(headers: &str) -> Result<SetupResponse, SetupError> {
    let text = format!("RTSP/1.0 200 OK\r\n{}\r\n", headers);
    SetupResponse::try_from(RtspResponse::parse(&text).unwrap())
}

#[test]
fn ports_session_and_timeout() {
    let response = setup(
        "Transport: RTP/AVP/UDP;unicast;client_port=1-2;server_port=6970-6971\r\n\
         Session: 4242;timeout=90\r\n",
    )
    .unwrap();
    assert_eq!(response.rtp_port(), 6970);
    assert_eq!(response.rtcp_port(), 6971);
    assert_eq!(response.session_id(), 4242);
    assert_eq!(response.timeout(), 90);
    assert_eq!(response.response.headers.len(), 2);
}

#[test]
fn timeout_falls_back_to_a_minute() {
    let timeout = |session: &str| {
        let headers = format!("Transport: server_port=1-2\r\nSession: {}\r\n", session);
        setup(&headers).unwrap().timeout()
    };
    assert_eq!(timeout("1"), 60);
    assert_eq!(timeout("1;"), 60);
    assert_eq!(timeout("1;timeout=x"), 60);
    assert_eq!(timeout("1; timeout=5"), 60);
    assert_eq!(timeout("1;5"), 5);
    assert_eq!(timeout("1;timeout=timeout=5"), 5);
    assert_eq!(timeout("1;x;timeout=5"), 60);
}

#[test]
fn a_third_port_is_passed_over() {
    let response = setup("Transport: server_port=1-2-3\r\nSession: 1\r\n").unwrap();
    assert_eq!(response.peer_ports, (1, 2));
}

#[test]
fn each_setup_error_has_an_input() {
    let error = |headers: &str| setup(headers).unwrap_err();
    assert_eq!(error("Session: 1\r\n"), SetupError::NoTransport);
    assert_eq!(error("Transport: RTP/AVP; server_port=1-2\r\n"), SetupError::NoServerPort);
    assert_eq!(error("Transport: server_port=\r\n"), SetupError::InvalidRtpPort);
    assert_eq!(error("Transport: server_port=65536-1\r\n"), SetupError::InvalidRtpPort);
    assert_eq!(error("Transport: server_port=1\r\n"), SetupError::NoRtcpPort);
    assert_eq!(error("Transport: server_port=1-\r\n"), SetupError::InvalidRtcpPort);
    assert_eq!(error("Transport: server_port=1-2\r\n"), SetupError::NoSession);
    assert_eq!(
        error("Transport: server_port=1-2\r\nSession: abc\r\n"),
        SetupError::InvalidSessionId
    );
    assert_eq!(
        error("Transport: server_port=1-2\r\nSession: 4294967296\r\n"),
        SetupError::InvalidSessionId
    );
}

//! The protocol core of an RTSP client: RTSP messages, the request exchange with its
//! authentication retry, session set-up, and the RTP packets that follow.

pub mod number;
pub mod rtp;
pub mod rtsp;
pub mod text;
pub mod text_laws;
pub mod text_lemmas;

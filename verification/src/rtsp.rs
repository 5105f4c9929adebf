//! RTSP: the control protocol of a session.

pub mod auth;
pub mod client;
pub mod data_stream;
pub mod describe;
pub mod describe_laws;
pub mod exchange;
pub mod headers;
pub mod message;
pub mod message_laws;
pub mod reader;
pub mod request;
pub mod request_laws;
pub mod setup;
pub mod setup_laws;
pub mod stream;
pub mod stream_laws;
pub mod uri;
pub mod view_laws;

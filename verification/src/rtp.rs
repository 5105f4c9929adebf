//! RTP: the datagrams that carry the media of a session.

pub mod buffer;
pub mod packet;
pub mod packet_laws;
pub mod stream;
pub mod wire;

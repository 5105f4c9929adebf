//! The pair of UDP sockets that the media of a session arrive at.

use std::sync::Arc;

use rand::Rng;
use vstd::prelude::*;

use crate::rtp::packet::{PacketView, RtpPayloadType};
use crate::rtp::wire::packet_bytes;

verus! {

/// The lowest port that is drawn for RTP.
pub const FIRST_PORT: u16 = 16384;

/// The highest port that is drawn.
pub const LAST_PORT: u16 = 32767;

/// The ports of a session: on either side one for RTP and one for RTCP.
#[derive(Debug, Clone, Copy)]
pub struct RtpRtcpPorts {
    pub local: (u16, u16),
    pub peer: (u16, u16),
}

impl RtpRtcpPorts {
    pub fn new(local: (u16, u16), peer: (u16, u16)) -> (r: RtpRtcpPorts)
        ensures
            r.local == local,
            r.peer == peer,
    {
        RtpRtcpPorts { local, peer }
    }
}

/// The sockets of a session and their ports; `S` is the type of a socket.
#[derive(Debug)]
pub struct DataStream<S> {
    pub rtp_socket: Arc<S>,
    pub rtcp_socket: Arc<S>,
    pub ports: RtpRtcpPorts,
}

impl<S> DataStream<S> {
    pub fn new(rtp_socket: S, rtcp_socket: S, ports: RtpRtcpPorts) -> (r: DataStream<S>)
        ensures
            *r.rtp_socket == rtp_socket,
            *r.rtcp_socket == rtcp_socket,
            r.ports == ports,
    {
        DataStream { rtp_socket: Arc::new(rtp_socket), rtcp_socket: Arc::new(rtcp_socket), ports }
    }

    /// The client's port for RTP.
    pub fn local_rtp_port(&self) -> (r: u16)
        ensures
            r == self.ports.local.0,
    {
        self.ports.local.0
    }

    /// The client's port for RTCP.
    pub fn local_rtcp_port(&self) -> (r: u16)
        ensures
            r == self.ports.local.1,
    {
        self.ports.local.1
    }
}

/// `rand::Rng::gen_range` on `rand::thread_rng` and the range from `low` to `high`: a random
/// number in that range, both ends included. The outside function panics on an empty range.
#[verifier::external_body]
fn gen_range(low: u16, high: u16) -> (r: u16)
    requires
        low <= high,
    ensures
        low <= r <= high,
{
    rand::thread_rng().gen_range(low..=high)
}

/// Whether a number can be drawn for a port.
pub open spec fn can_be_drawn(draw: u16) -> bool {
    FIRST_PORT <= draw <= LAST_PORT
}

/// The RTP port for a number that was drawn: that number or, where it is odd, the one below.
pub open spec fn rtp_port_spec(draw: u16) -> u16 {
    (draw - draw % 2) as u16
}

/// The RTP port for a number that was drawn.
pub fn rtp_port(draw: u16) -> (r: u16)
    ensures
        r == rtp_port_spec(draw),
{
    assert(draw & !1u16 == draw - draw % 2) by (bit_vector);
    draw & !1u16
}

/// What kept a socket from being bound, as far as the binder tells it apart.
#[derive(Debug, Clone, Copy, PartialEq, Eq, Structural)]
pub enum BindErrorKind {
    /// The port belongs to another socket.
    AddrInUse,
    Other,
}

/// The search for two free ports: an even one for RTP and the next for RTCP.
#[derive(Debug)]
pub struct UdpPairBinder {
    rtp_port: u16,
    rtp_bound: bool,
}

/// A search as plain values.
pub struct BinderView {
    pub rtp_port: u16,
    /// Whether the RTP socket is bound.
    pub rtp_bound: bool,
}

impl View for UdpPairBinder {
    type V = BinderView;

    closed spec fn view(&self) -> BinderView {
        BinderView { rtp_port: self.rtp_port, rtp_bound: self.rtp_bound }
    }
}

/// A search that has bound nothing, with the port for a number that was drawn.
pub open spec fn started(draw: u16) -> BinderView {
    BinderView { rtp_port: rtp_port_spec(draw), rtp_bound: false }
}

/// The port that is to be bound next.
pub open spec fn port_to_bind(binder: BinderView) -> int {
    if binder.rtp_bound {
        binder.rtp_port + 1
    } else {
        binder.rtp_port as int
    }
}

impl UdpPairBinder {
    #[verifier::type_invariant]
    spec fn is_even_port(&self) -> bool {
        FIRST_PORT <= self.rtp_port < LAST_PORT && self.rtp_port % 2 == 0
    }

    /// A search that starts with the port for a number that was drawn.
    pub fn start(draw: u16) -> (r: UdpPairBinder)
        requires
            can_be_drawn(draw),
        ensures
            r@ == started(draw),
    {
        UdpPairBinder { rtp_port: rtp_port(draw), rtp_bound: false }
    }

    /// A search that starts with a random port.
    pub fn new() -> (r: UdpPairBinder)
        ensures
            exists|draw: u16| can_be_drawn(draw) && r@ == #[trigger] started(draw),
    {
        UdpPairBinder::start(gen_range(FIRST_PORT, LAST_PORT))
    }

    /// The port that is to be bound next. It is even for RTP, odd for RTCP, and in range.
    pub fn port(&self) -> (r: u16)
        ensures
            r == port_to_bind(self@),
            r == self@.rtp_port + (if self@.rtp_bound {
                1int
            } else {
                0int
            }),
            (r % 2 == 1) == self@.rtp_bound,
            FIRST_PORT <= r <= LAST_PORT,
    {
        proof {
            use_type_invariant(self);
        }
        if self.rtp_bound {
            self.rtp_port + 1
        } else {
            self.rtp_port
        }
    }

    /// Takes in how binding the port went. Where the port was taken, the search starts over, and
    /// a socket that is bound already is given up; other errors end it. The result holds the two
    /// ports once both are bound.
    pub fn on_bind<E>(&mut self, bound: Result<(), (BindErrorKind, E)>) -> (r: Result<
        Option<(u16, u16)>,
        E,
    >)
        ensures
            match bound {
                Ok(_) => if old(self)@.rtp_bound {
                    r matches Ok(Some(ports)) && ports.0 == old(self)@.rtp_port && ports.1
                        == ports.0 + 1 && ports.0 % 2 == 0 && FIRST_PORT <= ports.0 && ports.1
                        <= LAST_PORT && *final(self) == *old(self)
                } else {
                    r == Ok::<Option<(u16, u16)>, E>(None) && final(self)@ == (BinderView {
                        rtp_bound: true,
                        ..old(self)@
                    })
                },
                Err((BindErrorKind::AddrInUse, _)) => r == Ok::<Option<(u16, u16)>, E>(None)
                    && exists|draw: u16|
                    can_be_drawn(draw) && final(self)@ == #[trigger] started(draw),
                Err((BindErrorKind::Other, error)) => r == Err::<Option<(u16, u16)>, _>(error)
                    && *final(self) == *old(self),
            },
    {
        proof {
            use_type_invariant(&*self);
        }
        match bound {
            Ok(_) => {
                if self.rtp_bound {
                    Ok(Some((self.rtp_port, self.rtp_port + 1)))
                } else {
                    self.rtp_bound = true;
                    Ok(None)
                }
            },
            Err((kind, error)) => match kind {
                BindErrorKind::AddrInUse => {
                    *self = UdpPairBinder::new();
                    Ok(None)
                },
                BindErrorKind::Other => Err(error),
            },
        }
    }
}

/// The numbers from 16384 to 32767 can be drawn. Whatever is drawn is the RTP port or the one
/// behind it; the RTP port is even, and both are in range. A search starts with the RTP port, and
/// goes on with the one behind it.
pub proof fn lemma_drawn_ports(draw: u16)
    ensures
        can_be_drawn(draw) == (16384 <= draw <= 32767),
        rtp_port_spec(draw) % 2 == 0,
        rtp_port_spec(draw) == draw || rtp_port_spec(draw) + 1 == draw,
        can_be_drawn(draw) ==> 16384 <= rtp_port_spec(draw) && rtp_port_spec(draw) + 1 <= 32767,
        started(draw).rtp_port == rtp_port_spec(draw),
        !started(draw).rtp_bound,
        port_to_bind(started(draw)) == rtp_port_spec(draw),
        port_to_bind(BinderView { rtp_bound: true, ..started(draw) }) == rtp_port_spec(draw) + 1,
{
}

/// An RTP packet without a payload, with all its fields zero.
pub open spec fn silent_packet() -> PacketView {
    PacketView {
        padding: None,
        extension_header: None,
        has_marker: false,
        csrc_count: 0,
        payload_type: RtpPayloadType::Unknown(0),
        sequence_number: 0,
        timestamp: 0,
        ssrc: 0,
        csrc_list: Seq::new(15, |i: int| 0u32),
        payload: seq![],
    }
}

/// The RTP packet that opens a way through firewalls for the packets of the server.
pub fn dummy_rtp() -> (r: [u8; 12])
    ensures
        r@ == seq![0x80u8, 0, 0, 0, 0, 0, 0, 0, 0, 0, 0, 0],
        r@ == packet_bytes(silent_packet()),
{
    assert(0x80u8 | 0u8 | 0u8 | 0u8 == 0x80u8) by (bit_vector);
    assert(0u8 | 0u8 == 0u8) by (bit_vector);
    let r: [u8; 12] = [0x80, 0, 0, 0, 0, 0, 0, 0, 0, 0, 0, 0];
    assert(r@ =~= seq![0x80u8, 0, 0, 0, 0, 0, 0, 0, 0, 0, 0, 0]);
    assert(r@ =~= packet_bytes(silent_packet()));
    r
}

/// The RTCP packet that does so for RTCP: a header of packet type 200 with a zero source.
pub fn dummy_rtcp() -> (r: [u8; 8])
    ensures
        r@ == seq![0x80u8, 200, 0, 1, 0, 0, 0, 0],
{
    let r: [u8; 8] = [0x80, 200, 0, 1, 0, 0, 0, 0];
    assert(r@ =~= seq![0x80u8, 200, 0, 1, 0, 0, 0, 0]);
    r
}

} // verus!

//! The streams of a client, one for each host.

use vstd::prelude::*;

use crate::rtsp::data_stream::{DataStream, RtpRtcpPorts};
use crate::rtsp::setup::SetupResponse;
use crate::rtsp::stream::{Config, RtspStream};
use crate::rtsp::uri::{Host, HostView, Url, UrlView};

verus! {

spec fn entry_map<S>(entries: Seq<(Host, S)>) -> Map<HostView, S>
    decreases entries.len(),
{
    if entries.len() == 0 {
        Map::empty()
    } else {
        entry_map(entries.drop_last()).insert(entries.last().0@, entries.last().1)
    }
}

spec fn distinct_hosts<S>(entries: Seq<(Host, S)>) -> bool {
    forall|i: int, j: int|
        0 <= i < entries.len() && 0 <= j < entries.len() && i != j ==> (
        #[trigger] entries[i]).0@ != (#[trigger] entries[j]).0@
}

proof fn lemma_entry_hosts<S>(entries: Seq<(Host, S)>)
    ensures
        forall|i: int|
            0 <= i < entries.len() ==> entry_map(entries).dom().contains(
                (#[trigger] entries[i]).0@,
            ),
    decreases entries.len(),
{
    if entries.len() > 0 {
        let front = entries.drop_last();
        lemma_entry_hosts(front);
        assert forall|i: int| 0 <= i < entries.len() implies entry_map(entries).dom().contains(
            (#[trigger] entries[i]).0@,
        ) by {
            if i < front.len() {
                assert(entries[i] == front[i]);
            }
        }
    }
}

/// The streams that a client has, by host. No host occurs twice.
#[derive(Debug)]
pub struct VideoStreamTable<S> {
    entries: Vec<(Host, S)>,
}

impl<S> View for VideoStreamTable<S> {
    type V = Map<HostView, S>;

    closed spec fn view(&self) -> Map<HostView, S> {
        entry_map(self.entries@)
    }
}

impl<S> VideoStreamTable<S> {
    #[verifier::type_invariant]
    spec fn hosts_are_distinct(&self) -> bool {
        distinct_hosts(self.entries@)
    }

    /// No streams.
    pub fn new() -> (r: VideoStreamTable<S>)
        ensures
            r@ == Map::<HostView, S>::empty(),
    {
        VideoStreamTable { entries: Vec::new() }
    }

    /// The stream of a host.
    pub fn get(&self, host: &Host) -> (r: Option<&S>)
        ensures
            match r {
                Some(stream) => self@.dom().contains(host@) && *stream == self@[host@],
                None => !self@.dom().contains(host@),
            },
    {
        let ghost all = self.entries@;
        let mut i: usize = self.entries.len();
        assert(all.take(i as int) =~= all);
        while i > 0
            invariant
                i <= all.len(),
                all == self.entries@,
                self@.dom().contains(host@) == entry_map(all.take(i as int)).dom().contains(host@),
                self@.dom().contains(host@) ==> self@[host@] == entry_map(
                    all.take(i as int),
                )[host@],
            decreases i,
        {
            i -= 1;
            assert(all.take(i + 1).drop_last() =~= all.take(i as int));
            if self.entries[i].0.same(host) {
                return Some(&self.entries[i].1);
            }
        }
        None
    }

    /// Adds the stream of a host that has none.
    pub fn insert(&mut self, host: Host, stream: S)
        requires
            !old(self)@.dom().contains(host@),
        ensures
            final(self)@ == old(self)@.insert(host@, stream),
    {
        proof {
            use_type_invariant(&*self);
            lemma_entry_hosts(self.entries@);
        }
        let mut entries: Vec<(Host, S)> = Vec::new();
        std::mem::swap(&mut self.entries, &mut entries);
        entries.push((host, stream));
        assert(entries@.drop_last() =~= old(self).entries@);
        *self = VideoStreamTable { entries };
    }
}

/// A video stream on top of an RTSP connection; `S` is the type of a socket.
#[derive(Debug)]
pub struct VideoStream<S> {
    pub rtsp_stream: RtspStream,
    pub data_stream: DataStream<S>,
}

impl<S> VideoStream<S> {
    /// The stream that a response to SETUP sets up, given the client's sockets and their ports.
    pub fn new(
        rtsp_stream: RtspStream,
        sockets: (S, S),
        local_ports: (u16, u16),
        setup: &SetupResponse,
    ) -> (r: VideoStream<S>)
        ensures
            r.rtsp_stream == rtsp_stream,
            *r.data_stream.rtp_socket == sockets.0,
            *r.data_stream.rtcp_socket == sockets.1,
            r.data_stream.ports.local == local_ports,
            r.data_stream.ports.peer == setup.peer_ports,
    {
        let ports = RtpRtcpPorts::new(local_ports, setup.peer_ports);
        VideoStream { rtsp_stream, data_stream: DataStream::new(sockets.0, sockets.1, ports) }
    }
}

/// A client; `S` is the type of its streams.
#[derive(Debug)]
pub struct RtspClient<S> {
    pub config: Config,
    pub video_streams: VideoStreamTable<S>,
}

/// What stands against a connection.
#[derive(Debug, Clone, Copy, PartialEq, Eq, Structural)]
pub enum ConnectError {
    /// There is no host in the URL.
    NoHost,
}

/// The stream for a URL.
#[derive(Debug)]
pub enum Connection<'a, S> {
    /// The client has one.
    Occupied(&'a S),
    /// The client has none for the host; one is to be made.
    Vacant(Host),
}

/// What a client with the given streams has for a URL: its host, and the stream of that host.
pub open spec fn connection<S>(streams: Map<HostView, S>, url: UrlView) -> Result<
    (HostView, Option<S>),
    ConnectError,
> {
    match url.host {
        None => Err(ConnectError::NoHost),
        Some(host) => Ok(
            (
                host,
                if streams.dom().contains(host) {
                    Some(streams[host])
                } else {
                    None
                },
            ),
        ),
    }
}

impl<S> RtspClient<S> {
    /// A client without streams.
    pub fn new(config: Config) -> (r: RtspClient<S>)
        ensures
            r.config == config,
            r.video_streams@ == Map::<HostView, S>::empty(),
    {
        RtspClient { config, video_streams: VideoStreamTable::new() }
    }

    /// The stream for a URL.
    pub fn connect(&self, url: &Url) -> (r: Result<Connection<'_, S>, ConnectError>)
        ensures
            match connection(self.video_streams@, url@) {
                Err(error) => r == Err::<Connection<'_, S>, _>(error),
                Ok((_, Some(stream))) => r == Ok::<_, ConnectError>(
                    Connection::Occupied(&stream),
                ),
                Ok((host, None)) => r matches Ok(Connection::Vacant(h)) && h@ == host,
            },
    {
        match &url.host {
            None => Err(ConnectError::NoHost),
            Some(host) => match self.video_streams.get(host) {
                Some(stream) => Ok(Connection::Occupied(stream)),
                None => Ok(Connection::Vacant(host.clone())),
            },
        }
    }

    /// Adds the stream that was made for a host.
    pub fn insert(&mut self, host: Host, stream: S)
        requires
            !old(self).video_streams@.dom().contains(host@),
        ensures
            final(self).config == old(self).config,
            final(self).video_streams@ == old(self).video_streams@.insert(host@, stream),
    {
        self.video_streams.insert(host, stream);
    }
}

/// A client without streams has none for any URL, and a URL without a host has no connection,
/// whatever streams there are.
pub proof fn lemma_no_stream<S>(streams: Map<HostView, S>, url: UrlView)
    ensures
        url.host is None ==> connection(streams, url) == Err::<(HostView, Option<S>), _>(
            ConnectError::NoHost,
        ),
        url.host matches Some(host) ==> connection(Map::<HostView, S>::empty(), url) == Ok::<
            _,
            ConnectError,
        >((host, None::<S>)),
        url.host matches Some(host) ==> (connection(streams, url) matches Ok((h, stream)) && h
            == host && (stream is Some) == streams.dom().contains(host)),
{
}

/// Once a stream is added for the host of a URL, every URL of that host gets that stream, and
/// what URLs of other hosts get stays as it was.
pub proof fn lemma_one_stream_for_a_host<S>(
    streams: Map<HostView, S>,
    host: HostView,
    stream: S,
    url: UrlView,
)
    ensures
        connection(streams.insert(host, stream), url) == (if url.host == Some(host) {
            Ok((host, Some(stream)))
        } else {
            connection(streams, url)
        }),
{
}

} // verus!

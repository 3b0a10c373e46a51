//! A bound connection and its three-way handshake, as a state machine that
//! the caller drives: every event the caller reports gives the next state
//! and what to do next.

use crate::endpoint::Endpoint;
use crate::ip::{carried, payload, Outgoing, OutgoingView, HANDSHAKE_PROTOCOL};
use crate::tcp::{
    decode, lemma_payload_view_round_trip, CustomTcpFlags, CustomTcpHeader, CustomTcpPayload,
    PayloadView, MAX_SEGMENT_SIZE,
};
use vstd::prelude::*;

verus! {

/// Which side of the handshake a connection plays.
#[derive(Debug, Clone, Copy, PartialEq, Eq, Structural)]
pub enum ConnectionType {
    Server,
    Client,
}

/// Why a handshake was given up.
#[derive(Debug, Clone, Copy, PartialEq, Eq, Structural)]
pub enum AbortReason {
    /// The server's reply to the SYN lacked the SYN or the ACK flag.
    MissingSynAck,
    /// The first segment from the client lacked the SYN flag.
    MissingInitialSyn,
    /// The client's last segment lacked the ACK flag.
    MissingFinalAck,
}

/// Where a handshake stands.
#[derive(Debug, Clone, Copy, PartialEq, Eq, Structural)]
pub enum HandshakeState {
    /// Not started.
    Idle,
    /// Client: the SYN is out, the SYN+ACK is awaited.
    SynSent,
    /// Server: the SYN is awaited.
    AwaitingSyn,
    /// Client: the SYN+ACK has come, the ACK is on its way out.
    SynAckReceived,
    /// Server: the SYN has come and the SYN+ACK is out, the ACK is awaited.
    SynReceived,
    /// Both sides agree that the connection stands.
    Established,
    /// The handshake failed and will go no further.
    Aborted(AbortReason),
}

/// What the caller reports to the state machine.
#[derive(Debug, Clone, Copy)]
pub enum Event<'a> {
    /// The handshake is to begin.
    Start,
    /// The bytes of the last `Action::Send` have been sent.
    Sent,
    /// A datagram has been read from the raw socket, IPv4 header included.
    Received(&'a [u8]),
}

/// An event as a mathematical value.
pub enum EventView {
    Start,
    Sent,
    Received(Seq<u8>),
}

impl<'a> View for Event<'a> {
    type V = EventView;

    open spec fn view(&self) -> EventView {
        match *self {
            Event::Start => EventView::Start,
            Event::Sent => EventView::Sent,
            Event::Received(datagram) => EventView::Received(datagram@),
        }
    }
}

/// What the caller has to do next.
#[derive(Debug, PartialEq, Eq)]
pub enum Action {
    /// Send these bytes to this peer, then report `Event::Sent`.
    Send(Outgoing),
    /// Read the next datagram, then report it as `Event::Received`.
    Receive,
    /// Stop: the state is final, or the event has no meaning in it.
    Finish,
}

/// An action as a mathematical value.
pub enum ActionView {
    Send(OutgoingView),
    Receive,
    Finish,
}

impl View for Action {
    type V = ActionView;

    open spec fn view(&self) -> ActionView {
        match *self {
            Action::Send(outgoing) => ActionView::Send(outgoing@),
            Action::Receive => ActionView::Receive,
            Action::Finish => ActionView::Finish,
        }
    }
}

impl AbortReason {
    /// The reason in words.
    pub open spec fn text(self) -> Seq<char> {
        match self {
            AbortReason::MissingSynAck => "missing syn-ack flags"@,
            AbortReason::MissingInitialSyn => "missing initial syn flag"@,
            AbortReason::MissingFinalAck => "missing final ack flag"@,
        }
    }

    /// The reason in words.
    pub fn message(&self) -> (words: &'static str)
        ensures
            words@ == self.text(),
    {
        match self {
            AbortReason::MissingSynAck => "missing syn-ack flags",
            AbortReason::MissingInitialSyn => "missing initial syn flag",
            AbortReason::MissingFinalAck => "missing final ack flag",
        }
    }
}

impl HandshakeState {
    /// Whether the handshake has ended, well or badly.
    pub open spec fn is_final(self) -> bool {
        self is Established || self is Aborted
    }

    /// Whether the handshake has ended, well or badly.
    pub fn is_terminal(&self) -> (ended: bool)
        ensures
            ended == self.is_final(),
    {
        match self {
            HandshakeState::Established => true,
            HandshakeState::Aborted(_) => true,
            _ => false,
        }
    }
}

/// The bound pair of endpoints that a rendezvous leaves behind. It owns no
/// socket and never changes.
#[derive(Debug, Clone, Copy, PartialEq, Eq)]
pub struct Connection {
    conn_type: ConnectionType,
    src_addr: Endpoint,
    dst_addr: Endpoint,
}

impl Connection {
    /// The side this connection plays.
    pub closed spec fn role(self) -> ConnectionType {
        self.conn_type
    }

    /// This side's endpoint.
    pub closed spec fn local(self) -> Endpoint {
        self.src_addr
    }

    /// The peer's endpoint.
    pub closed spec fn remote(self) -> Endpoint {
        self.dst_addr
    }

    /// Whether a segment with this header goes from the peer's port to this
    /// side's port.
    pub open spec fn admits(self, header: CustomTcpHeader) -> bool {
        header.src_port == self.remote().port && header.dst_port == self.local().port
    }

    /// The segment that `datagram` brings to this connection. `None` for
    /// noise: no IPv4 datagram, another protocol number, bytes that are no
    /// payload, or ports of another conversation.
    pub open spec fn segment_in(self, datagram: Seq<u8>) -> Option<PayloadView> {
        match carried(datagram, HANDSHAKE_PROTOCOL) {
            None => None,
            Some(bytes) => match PayloadView::decoding(bytes) {
                Err(_) => None,
                Ok(segment) => if self.admits(segment.header) {
                    Some(segment)
                } else {
                    None
                },
            },
        }
    }

    /// The segment this side sends with the given flags and message.
    pub open spec fn outgoing(self, syn: bool, ack: bool, msg: Seq<u8>) -> PayloadView {
        PayloadView {
            header: CustomTcpHeader {
                src_port: self.local().port,
                dst_port: self.remote().port,
                seq_no: 0,
                ack_flag: ack,
                syn_flag: syn,
                fin_flag: false,
                payload_size: msg.len() as u16,
            },
            data: PayloadView::padded(msg),
        }
    }

    /// The bytes of the handshake segment with the given flags.
    pub open spec fn control(self, syn: bool, ack: bool) -> Seq<u8> {
        self.outgoing(syn, ack, Seq::empty()).encoding()
    }

    /// `bytes` on their way to the peer's endpoint.
    pub open spec fn to_peer(self, bytes: Seq<u8>) -> OutgoingView {
        OutgoingView { peer: self.remote(), bytes }
    }

    /// The action that sends the handshake segment with the given flags to
    /// the peer.
    pub open spec fn sending(self, syn: bool, ack: bool) -> ActionView {
        ActionView::Send(self.to_peer(self.control(syn, ack)))
    }

    /// The message that `datagram` brings to this connection: the used part
    /// of the data region of a segment without SYN and ACK. `None` for noise,
    /// for handshake segments and for a payload size beyond the data region.
    pub open spec fn message_in(self, datagram: Seq<u8>) -> Option<Seq<u8>> {
        match self.segment_in(datagram) {
            None => None,
            Some(segment) => if !segment.header.syn_flag && !segment.header.ack_flag
                && segment.header.payload_size <= MAX_SEGMENT_SIZE {
                Some(segment.data.take(segment.header.payload_size as int))
            } else {
                None
            },
        }
    }

    /// The client's transition on `event` in `state`.
    pub open spec fn client_next(self, state: HandshakeState, event: EventView) -> (
        HandshakeState,
        ActionView,
    ) {
        match state {
            HandshakeState::Idle => match event {
                EventView::Start => (
                    HandshakeState::SynSent,
                    self.sending(true, false),
                ),
                _ => (state, ActionView::Finish),
            },
            HandshakeState::SynSent => match event {
                EventView::Received(datagram) => match self.segment_in(datagram) {
                    None => (state, ActionView::Receive),
                    Some(segment) => if segment.header.syn_flag && segment.header.ack_flag {
                        (
                            HandshakeState::SynAckReceived,
                            self.sending(false, true),
                        )
                    } else {
                        (HandshakeState::Aborted(AbortReason::MissingSynAck), ActionView::Finish)
                    },
                },
                _ => (state, ActionView::Receive),
            },
            HandshakeState::SynAckReceived => match event {
                EventView::Sent => (HandshakeState::Established, ActionView::Finish),
                _ => (state, self.sending(false, true)),
            },
            _ => (state, ActionView::Finish),
        }
    }

    /// The server's transition on `event` in `state`.
    pub open spec fn server_next(self, state: HandshakeState, event: EventView) -> (
        HandshakeState,
        ActionView,
    ) {
        match state {
            HandshakeState::Idle => match event {
                EventView::Start => (HandshakeState::AwaitingSyn, ActionView::Receive),
                _ => (state, ActionView::Finish),
            },
            HandshakeState::AwaitingSyn => match event {
                EventView::Received(datagram) => match self.segment_in(datagram) {
                    None => (state, ActionView::Receive),
                    Some(segment) => if segment.header.syn_flag {
                        (
                            HandshakeState::SynReceived,
                            self.sending(true, true),
                        )
                    } else {
                        (
                            HandshakeState::Aborted(AbortReason::MissingInitialSyn),
                            ActionView::Finish,
                        )
                    },
                },
                _ => (state, ActionView::Receive),
            },
            HandshakeState::SynReceived => match event {
                EventView::Received(datagram) => match self.segment_in(datagram) {
                    None => (state, ActionView::Receive),
                    Some(segment) => if segment.header.ack_flag {
                        (HandshakeState::Established, ActionView::Finish)
                    } else {
                        (
                            HandshakeState::Aborted(AbortReason::MissingFinalAck),
                            ActionView::Finish,
                        )
                    },
                },
                _ => (state, ActionView::Receive),
            },
            _ => (state, ActionView::Finish),
        }
    }

    /// The transition of this connection's side on `event` in `state`.
    pub open spec fn next(self, state: HandshakeState, event: EventView) -> (
        HandshakeState,
        ActionView,
    ) {
        match self.role() {
            ConnectionType::Server => self.server_next(state, event),
            ConnectionType::Client => self.client_next(state, event),
        }
    }

    /// Binds two endpoints. Only a rendezvous does that.
    pub(crate) fn new(conn_type: ConnectionType, src_addr: Endpoint, dst_addr: Endpoint) -> (conn:
        Connection)
        ensures
            conn.role() == conn_type,
            conn.local() == src_addr,
            conn.remote() == dst_addr,
    {
        Connection { conn_type, src_addr, dst_addr }
    }

    /// The side this connection plays.
    pub fn conn_type(&self) -> (conn_type: ConnectionType)
        ensures
            conn_type == self.role(),
    {
        self.conn_type
    }

    /// This side's endpoint.
    pub fn src_addr(&self) -> (endpoint: Endpoint)
        ensures
            endpoint == self.local(),
    {
        self.src_addr
    }

    /// The peer's endpoint, where everything this connection sends goes.
    pub fn dst_addr(&self) -> (endpoint: Endpoint)
        ensures
            endpoint == self.remote(),
    {
        self.dst_addr
    }

    /// Moves the handshake of this connection's side one event on.
    pub fn handshake(&self, state: HandshakeState, event: Event) -> (r: (HandshakeState, Action))
        ensures
            ({
                let (next, action) = r;
                (next, action@) == self.next(state, event@)
            }),
    {
        match self.conn_type {
            ConnectionType::Server => self.handshake_server(state, event),
            ConnectionType::Client => self.handshake_client(state, event),
        }
    }

    /// Moves a server's handshake one event on: it waits for a SYN, answers
    /// with SYN+ACK and waits for the ACK.
    pub fn handshake_server(&self, state: HandshakeState, event: Event) -> (r: (
        HandshakeState,
        Action,
    ))
        ensures
            ({
                let (next, action) = r;
                (next, action@) == self.server_next(state, event@)
            }),
    {
        match state {
            HandshakeState::Idle => match event {
                Event::Start => (HandshakeState::AwaitingSyn, Action::Receive),
                _ => (state, Action::Finish),
            },
            HandshakeState::AwaitingSyn => match event {
                Event::Received(datagram) => match self.recv_payload(datagram) {
                    None => (state, Action::Receive),
                    Some(segment) => if segment.has_syn() {
                        (HandshakeState::SynReceived, self.control_segment(true, true))
                    } else {
                        (HandshakeState::Aborted(AbortReason::MissingInitialSyn), Action::Finish)
                    },
                },
                _ => (state, Action::Receive),
            },
            HandshakeState::SynReceived => match event {
                Event::Received(datagram) => match self.recv_payload(datagram) {
                    None => (state, Action::Receive),
                    Some(segment) => if segment.has_ack() {
                        (HandshakeState::Established, Action::Finish)
                    } else {
                        (HandshakeState::Aborted(AbortReason::MissingFinalAck), Action::Finish)
                    },
                },
                _ => (state, Action::Receive),
            },
            _ => (state, Action::Finish),
        }
    }

    /// Moves a client's handshake one event on: it sends a SYN, waits for
    /// the SYN+ACK and answers with an ACK.
    pub fn handshake_client(&self, state: HandshakeState, event: Event) -> (r: (
        HandshakeState,
        Action,
    ))
        ensures
            ({
                let (next, action) = r;
                (next, action@) == self.client_next(state, event@)
            }),
    {
        match state {
            HandshakeState::Idle => match event {
                Event::Start => (
                    HandshakeState::SynSent,
                    self.control_segment(true, false),
                ),
                _ => (state, Action::Finish),
            },
            HandshakeState::SynSent => match event {
                Event::Received(datagram) => match self.recv_payload(datagram) {
                    None => (state, Action::Receive),
                    Some(segment) => if segment.has_syn() && segment.has_ack() {
                        (
                            HandshakeState::SynAckReceived,
                            self.control_segment(false, true),
                        )
                    } else {
                        (HandshakeState::Aborted(AbortReason::MissingSynAck), Action::Finish)
                    },
                },
                _ => (state, Action::Receive),
            },
            HandshakeState::SynAckReceived => match event {
                Event::Sent => (HandshakeState::Established, Action::Finish),
                _ => (state, self.control_segment(false, true)),
            },
            _ => (state, Action::Finish),
        }
    }

    /// Frames `msg` for the peer: a segment with no flag set, this
    /// connection's ports, `msg` at the front of the data region and its
    /// length as payload size, to be sent to the peer's endpoint. `None`
    /// exactly if `msg` does not fit the data region.
    pub fn send(&self, msg: &[u8]) -> (r: Option<Outgoing>)
        ensures
            msg@.len() > MAX_SEGMENT_SIZE ==> r is None,
            msg@.len() <= MAX_SEGMENT_SIZE ==> r is Some && r->0@ == self.to_peer(
                self.outgoing(false, false, msg@).encoding(),
            ),
    {
        self.send_with_tcp_flags(msg, Vec::new())
    }

    /// Frames `msg` for the peer in a segment that carries the flags asked
    /// for.
    pub fn send_with_tcp_flags(&self, msg: &[u8], flags: Vec<CustomTcpFlags>) -> (r: Option<
        Outgoing,
    >)
        ensures
            msg@.len() > MAX_SEGMENT_SIZE ==> r is None,
            msg@.len() <= MAX_SEGMENT_SIZE ==> r is Some && r->0@ == self.to_peer(
                self.outgoing(
                    flags@.contains(CustomTcpFlags::Syn),
                    flags@.contains(CustomTcpFlags::Ack),
                    msg@,
                ).encoding(),
            ),
    {
        match CustomTcpPayload::with_data(self.src_addr.port, self.dst_addr.port, msg, flags) {
            Some(segment) => Some(Outgoing { peer: self.dst_addr, bytes: segment.into_vec() }),
            None => None,
        }
    }

    /// The action that sends the handshake segment with the given flags.
    fn control_segment(&self, syn: bool, ack: bool) -> (action: Action)
        ensures
            action@ == self.sending(syn, ack),
    {
        let mut flags: Vec<CustomTcpFlags> = Vec::new();
        if syn {
            flags.push(CustomTcpFlags::Syn);
        }
        if ack {
            flags.push(CustomTcpFlags::Ack);
        }
        proof {
            let asked = flags@;
            if syn {
                assert(asked[0] == CustomTcpFlags::Syn);
            }
            if ack {
                assert(asked[asked.len() - 1] == CustomTcpFlags::Ack);
            }
        }
        let segment = CustomTcpPayload::new(self.src_addr.port, self.dst_addr.port, flags);
        Action::Send(Outgoing { peer: self.dst_addr, bytes: segment.into_vec() })
    }

    /// Looks at one datagram read from the raw socket and returns the
    /// segment it brings to this connection, or `None` for noise.
    pub fn recv_payload(&self, datagram: &[u8]) -> (r: Option<CustomTcpPayload>)
        ensures
            match r {
                Some(segment) => self.segment_in(datagram@) == Some(segment@),
                None => self.segment_in(datagram@) is None,
            },
    {
        let bytes = match payload(datagram, HANDSHAKE_PROTOCOL) {
            Some(bytes) => bytes,
            None => {
                return None;
            },
        };
        match decode(bytes) {
            Ok(segment) => if segment.src_port() == self.dst_addr.port && segment.dst_port()
                == self.src_addr.port {
                Some(segment)
            } else {
                None
            },
            Err(_) => None,
        }
    }

    /// Looks at one datagram read from the raw socket and returns the
    /// message it brings to this connection, or `None` if the caller has to
    /// keep reading. The filter is that of the handshake; on top of it a
    /// message comes in a segment without SYN and ACK whose payload size
    /// fits the data region.
    pub fn recv(&self, datagram: &[u8]) -> (r: Option<Vec<u8>>)
        ensures
            match r {
                Some(msg) => self.message_in(datagram@) == Some(msg@),
                None => self.message_in(datagram@) is None,
            },
    {
        let segment = match self.recv_payload(datagram) {
            Some(segment) => segment,
            None => {
                return None;
            },
        };
        if segment.has_syn() || segment.has_ack() {
            return None;
        }
        let used = segment.header.payload_size as usize;
        if used > MAX_SEGMENT_SIZE {
            return None;
        }
        let mut msg: Vec<u8> = Vec::with_capacity(used);
        let mut i: usize = 0;
        while i < used
            invariant
                i <= used <= MAX_SEGMENT_SIZE,
                msg@ == segment.data@.take(i as int),
            decreases used - i,
        {
            msg.push(segment.data[i]);
            assert(segment.data@.take(i + 1) == segment.data@.take(i as int).push(
                segment.data@[i as int],
            ));
            i += 1;
        }
        Some(msg)
    }
}

/// Whether `client` and `server` are the two sides of one conversation: a
/// client and a server, each sending from the port the other sends to.
pub open spec fn peers(client: Connection, server: Connection) -> bool {
    &&& client.role() == ConnectionType::Client
    &&& server.role() == ConnectionType::Server
    &&& client.local().port == server.remote().port
    &&& client.remote().port == server.local().port
}

/// Whether `datagram` brings exactly `segment` under the handshake's protocol
/// number, as a channel that loses and alters nothing would.
pub open spec fn delivers(datagram: Seq<u8>, segment: Seq<u8>) -> bool {
    carried(datagram, HANDSHAKE_PROTOCOL) == Some(segment)
}

/// What one side sends is, to a side that admits its ports, the segment that
/// was sent.
pub proof fn lemma_delivered_segment(
    to: Connection,
    from: Connection,
    syn: bool,
    ack: bool,
    msg: Seq<u8>,
    datagram: Seq<u8>,
)
    requires
        to.local().port == from.remote().port,
        to.remote().port == from.local().port,
        delivers(datagram, from.outgoing(syn, ack, msg).encoding()),
    ensures
        to.segment_in(datagram) == Some(from.outgoing(syn, ack, msg)),
{
    lemma_payload_view_round_trip(from.outgoing(syn, ack, msg));
}

/// Liveness over a loss-free channel. A client and a server that are peers
/// both reach `Established`, and neither aborts, when each is started, each
/// `Send` is followed by `Sent`, and each datagram read brings what the other
/// side sent last: the server gets the client's SYN, the client the server's
/// SYN+ACK, the server the client's ACK.
pub proof fn lemma_handshake_completes(
    client: Connection,
    server: Connection,
    syn: Seq<u8>,
    syn_ack: Seq<u8>,
    ack: Seq<u8>,
)
    requires
        peers(client, server),
        delivers(syn, client.control(true, false)),
        delivers(syn_ack, server.control(true, true)),
        delivers(ack, client.control(false, true)),
    ensures
        client.next(HandshakeState::Idle, EventView::Start) == (
            HandshakeState::SynSent,
            client.sending(true, false),
        ),
        client.next(HandshakeState::SynSent, EventView::Sent) == (
            HandshakeState::SynSent,
            ActionView::Receive,
        ),
        server.next(HandshakeState::Idle, EventView::Start) == (
            HandshakeState::AwaitingSyn,
            ActionView::Receive,
        ),
        server.next(HandshakeState::AwaitingSyn, EventView::Received(syn)) == (
            HandshakeState::SynReceived,
            server.sending(true, true),
        ),
        server.next(HandshakeState::SynReceived, EventView::Sent) == (
            HandshakeState::SynReceived,
            ActionView::Receive,
        ),
        client.next(HandshakeState::SynSent, EventView::Received(syn_ack)) == (
            HandshakeState::SynAckReceived,
            client.sending(false, true),
        ),
        client.next(HandshakeState::SynAckReceived, EventView::Sent) == (
            HandshakeState::Established,
            ActionView::Finish,
        ),
        server.next(HandshakeState::SynReceived, EventView::Received(ack)) == (
            HandshakeState::Established,
            ActionView::Finish,
        ),
{
    lemma_delivered_segment(server, client, true, false, Seq::empty(), syn);
    lemma_delivered_segment(client, server, true, true, Seq::empty(), syn_ack);
    lemma_delivered_segment(server, client, false, true, Seq::empty(), ack);
}

/// Noise never moves a handshake: on a datagram that brings no segment of
/// this connection the state stays what it was, and a side that was waiting
/// for a segment keeps reading.
pub proof fn lemma_noise_is_ignored(conn: Connection, state: HandshakeState, datagram: Seq<u8>)
    requires
        conn.segment_in(datagram) is None,
    ensures
        conn.client_next(state, EventView::Received(datagram)).0 == state,
        conn.server_next(state, EventView::Received(datagram)).0 == state,
        conn.next(state, EventView::Received(datagram)).0 == state,
        state is SynSent ==> conn.client_next(state, EventView::Received(datagram)).1
            == ActionView::Receive,
        state is AwaitingSyn || state is SynReceived ==> conn.server_next(
            state,
            EventView::Received(datagram),
        ).1 == ActionView::Receive,
{
}

/// Port discrimination: a datagram that brings a well-formed segment between
/// other ports is noise to this connection, whatever its flags.
pub proof fn lemma_other_ports_are_noise(
    conn: Connection,
    state: HandshakeState,
    datagram: Seq<u8>,
    segment: PayloadView,
)
    requires
        segment.data.len() == MAX_SEGMENT_SIZE,
        delivers(datagram, segment.encoding()),
        segment.header.src_port != conn.remote().port || segment.header.dst_port
            != conn.local().port,
    ensures
        conn.segment_in(datagram) is None,
        conn.next(state, EventView::Received(datagram)).0 == state,
{
    lemma_payload_view_round_trip(segment);
    lemma_noise_is_ignored(conn, state, datagram);
}

/// A client that waits for the SYN+ACK aborts on a segment of its
/// conversation that lacks the SYN or the ACK flag, with the reason
/// `missing syn-ack flags`.
pub proof fn lemma_client_aborts_without_syn_ack(conn: Connection, datagram: Seq<u8>)
    requires
        conn.role() == ConnectionType::Client,
        conn.segment_in(datagram) is Some,
        !conn.segment_in(datagram)->0.header.syn_flag || !conn.segment_in(
            datagram,
        )->0.header.ack_flag,
    ensures
        conn.next(HandshakeState::SynSent, EventView::Received(datagram)) == (
            HandshakeState::Aborted(AbortReason::MissingSynAck),
            ActionView::Finish,
        ),
        AbortReason::MissingSynAck.text() == "missing syn-ack flags"@,
{
}

/// A server that waits for the SYN aborts on a segment of its conversation
/// that lacks the SYN flag, with the reason `missing initial syn flag`.
pub proof fn lemma_server_aborts_without_syn(conn: Connection, datagram: Seq<u8>)
    requires
        conn.role() == ConnectionType::Server,
        conn.segment_in(datagram) is Some,
        !conn.segment_in(datagram)->0.header.syn_flag,
    ensures
        conn.next(HandshakeState::AwaitingSyn, EventView::Received(datagram)) == (
            HandshakeState::Aborted(AbortReason::MissingInitialSyn),
            ActionView::Finish,
        ),
        AbortReason::MissingInitialSyn.text() == "missing initial syn flag"@,
{
}

/// A server that waits for the last ACK aborts on a segment of its
/// conversation that lacks the ACK flag, with the reason
/// `missing final ack flag`.
pub proof fn lemma_server_aborts_without_ack(conn: Connection, datagram: Seq<u8>)
    requires
        conn.role() == ConnectionType::Server,
        conn.segment_in(datagram) is Some,
        !conn.segment_in(datagram)->0.header.ack_flag,
    ensures
        conn.next(HandshakeState::SynReceived, EventView::Received(datagram)) == (
            HandshakeState::Aborted(AbortReason::MissingFinalAck),
            ActionView::Finish,
        ),
        AbortReason::MissingFinalAck.text() == "missing final ack flag"@,
{
}

/// The states a side can be in: a client never waits for a SYN and a server
/// never sends one first, and each side aborts only for its own reasons.
pub open spec fn is_state_of(role: ConnectionType, state: HandshakeState) -> bool {
    match role {
        ConnectionType::Client => match state {
            HandshakeState::Idle => true,
            HandshakeState::SynSent => true,
            HandshakeState::SynAckReceived => true,
            HandshakeState::Established => true,
            HandshakeState::Aborted(reason) => reason == AbortReason::MissingSynAck,
            _ => false,
        },
        ConnectionType::Server => match state {
            HandshakeState::Idle => true,
            HandshakeState::AwaitingSyn => true,
            HandshakeState::SynReceived => true,
            HandshakeState::Established => true,
            HandshakeState::Aborted(reason) => reason != AbortReason::MissingSynAck,
            _ => false,
        },
    }
}

/// Each side keeps to its own states: whatever the event, a handshake that is
/// in a state of its side moves to a state of its side.
pub proof fn lemma_sides_keep_their_states(
    conn: Connection,
    state: HandshakeState,
    event: EventView,
)
    requires
        is_state_of(conn.role(), state),
    ensures
        is_state_of(conn.role(), conn.next(state, event).0),
{
}

/// A handshake that has ended stays where it is: no event moves an
/// established or aborted handshake, and the caller is told to stop.
pub proof fn lemma_final_states_stay(conn: Connection, state: HandshakeState, event: EventView)
    requires
        state.is_final(),
    ensures
        conn.next(state, event) == (state, ActionView::Finish),
{
}

/// Receiving mirrors sending: what one side frames with `send` is, once
/// delivered, what the other side's `recv` returns.
pub proof fn lemma_recv_mirrors_send(
    to: Connection,
    from: Connection,
    msg: Seq<u8>,
    datagram: Seq<u8>,
)
    requires
        to.local().port == from.remote().port,
        to.remote().port == from.local().port,
        msg.len() <= MAX_SEGMENT_SIZE,
        delivers(datagram, from.outgoing(false, false, msg).encoding()),
    ensures
        to.message_in(datagram) == Some(msg),
{
    lemma_delivered_segment(to, from, false, false, msg, datagram);
    assert(PayloadView::padded(msg).take(msg.len() as int) =~= msg);
}

} // verus!

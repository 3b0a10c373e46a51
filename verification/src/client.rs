//! The asking side of the rendezvous: it announces itself to the port it
//! expects the server on and binds a connection once the server has
//! answered.

use crate::connection::{peers, Connection, ConnectionType};
use crate::endpoint::Endpoint;
use crate::ip::{carried, payload, Outgoing, OutgoingView, RENDEZVOUS_PROTOCOL};
use crate::rendezvous::{announces, lemma_message_text_round_trip, RendezvousMessage};
use vstd::prelude::*;

verus! {

/// The client's end of the rendezvous channel: its own endpoint and the
/// endpoint it expects the server at.
#[derive(Debug, Clone, Copy, PartialEq, Eq)]
pub struct CustomSocket {
    src_addr: Endpoint,
    dst_addr: Endpoint,
}

impl CustomSocket {
    /// The client's own endpoint.
    pub closed spec fn local(self) -> Endpoint {
        self.src_addr
    }

    /// The endpoint the client expects the server at.
    pub closed spec fn remote(self) -> Endpoint {
        self.dst_addr
    }

    /// What the client announces: meant for the server's port, and naming
    /// the client's endpoint.
    pub open spec fn request(self) -> RendezvousMessage {
        RendezvousMessage { port: self.remote().port, endpoint: self.local() }
    }

    /// The announcement on its way to where the client expects the server.
    pub open spec fn announcement(self) -> OutgoingView {
        OutgoingView { peer: self.remote(), bytes: self.request().text() }
    }

    /// The reply that `datagram` brings to this client: a rendezvous message
    /// meant for the client's port. `None` for noise: no IPv4 datagram,
    /// another protocol number, text that spells no message, or a message
    /// meant for another port.
    pub open spec fn reply_in(self, datagram: Seq<u8>) -> Option<RendezvousMessage> {
        match carried(datagram, RENDEZVOUS_PROTOCOL) {
            None => None,
            Some(bytes) => match RendezvousMessage::parsing(bytes) {
                None => None,
                Some(message) => if message.port == self.local().port {
                    Some(message)
                } else {
                    None
                },
            },
        }
    }

    /// Whether `datagram` completes the rendezvous: it brings a reply to this
    /// client, and the reply names the endpoint the client expects the server
    /// at.
    pub open spec fn connects(self, datagram: Seq<u8>) -> bool {
        self.reply_in(datagram) matches Some(reply) && reply.endpoint == self.remote()
    }

    pub fn new(src_addr: Endpoint, dst_addr: Endpoint) -> (socket: CustomSocket)
        ensures
            socket.local() == src_addr,
            socket.remote() == dst_addr,
    {
        CustomSocket { src_addr, dst_addr }
    }

    /// The client's own endpoint.
    pub fn src_addr(&self) -> (endpoint: Endpoint)
        ensures
            endpoint == self.local(),
    {
        self.src_addr
    }

    /// The endpoint the client expects the server at, where the announcement
    /// goes.
    pub fn dst_addr(&self) -> (endpoint: Endpoint)
        ensures
            endpoint == self.remote(),
    {
        self.dst_addr
    }

    /// The announcement that opens the rendezvous, to be sent to where the
    /// client expects the server.
    pub fn send(&self) -> (outgoing: Outgoing)
        ensures
            outgoing@ == self.announcement(),
    {
        let request = RendezvousMessage { port: self.dst_addr.port, endpoint: self.src_addr };
        Outgoing { peer: self.dst_addr, bytes: request.to_bytes() }
    }

    /// Looks at one datagram read from the raw socket and returns the reply
    /// it brings to this client, or `None` if the caller has to keep reading.
    pub fn recv(&self, datagram: &[u8]) -> (r: Option<RendezvousMessage>)
        ensures
            r == self.reply_in(datagram@),
    {
        let bytes = match payload(datagram, RENDEZVOUS_PROTOCOL) {
            Some(bytes) => bytes,
            None => {
                return None;
            },
        };
        match RendezvousMessage::parse(bytes) {
            Some(message) => if message.port == self.src_addr.port {
                Some(message)
            } else {
                None
            },
            None => None,
        }
    }
}

/// Looks at one datagram read from the raw socket after the announcement
/// went out. If it completes the rendezvous, returns the connection bound to
/// the server; otherwise `None`, and the caller keeps reading.
pub fn connect(socket: &CustomSocket, datagram: &[u8]) -> (r: Option<Connection>)
    ensures
        match r {
            Some(conn) => socket.connects(datagram@) && conn.role() == ConnectionType::Client
                && conn.local() == socket.local() && conn.remote() == socket.remote(),
            None => !socket.connects(datagram@),
        },
{
    match socket.recv(datagram) {
        Some(reply) => if reply.endpoint.equals(&socket.dst_addr) {
            Some(Connection::new(ConnectionType::Client, socket.src_addr, socket.dst_addr))
        } else {
            None
        },
        None => None,
    }
}

/// The rendezvous round trip. A server that listens where the client expects
/// it takes the client's announcement for a request, its reply completes the
/// client's rendezvous, and the two connections that come of it are peers. A
/// server that listens on another port ignores the announcement.
pub proof fn lemma_rendezvous_binds_peers(
    client: CustomSocket,
    server: crate::server::CustomSocket,
    elsewhere: crate::server::CustomSocket,
    announcement: Seq<u8>,
    reply: Seq<u8>,
    client_side: Connection,
    server_side: Connection,
)
    requires
        server.local() == client.remote(),
        elsewhere.local().port != client.remote().port,
        announces(announcement, client.request().text()),
        announces(reply, server.reply_to(client.request()).text()),
        client_side.role() == ConnectionType::Client,
        client_side.local() == client.local(),
        client_side.remote() == client.remote(),
        server_side.role() == ConnectionType::Server,
        server_side.local() == server.local(),
        server_side.remote() == client.request().endpoint,
    ensures
        server.request_in(announcement) == Some(client.request()),
        elsewhere.request_in(announcement) is None,
        server.reply_to(client.request()) == (RendezvousMessage {
            port: client.local().port,
            endpoint: server.local(),
        }),
        client.connects(reply),
        peers(client_side, server_side),
{
    lemma_message_text_round_trip(client.request());
    lemma_message_text_round_trip(server.reply_to(client.request()));
}

} // verus!

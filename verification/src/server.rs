//! The answering side of the rendezvous: it listens on a port, ignores what
//! is meant for others, and binds a connection to the first client that
//! announces itself to that port.

use crate::connection::{Connection, ConnectionType};
use crate::endpoint::Endpoint;
use crate::ip::{carried, payload, Outgoing, OutgoingView, RENDEZVOUS_PROTOCOL};
use crate::rendezvous::RendezvousMessage;
use vstd::prelude::*;

verus! {

/// The server's end of the rendezvous channel: the endpoint it listens on.
#[derive(Debug, Clone, Copy, PartialEq, Eq)]
pub struct CustomSocket {
    src_addr: Endpoint,
}

impl CustomSocket {
    /// The endpoint the server listens on.
    pub closed spec fn local(self) -> Endpoint {
        self.src_addr
    }

    /// The rendezvous message that `datagram` brings, read without regard to
    /// the port it is meant for. `None` for noise: no IPv4 datagram, another
    /// protocol number, or text that spells no message.
    pub open spec fn message_in(datagram: Seq<u8>) -> Option<RendezvousMessage> {
        match carried(datagram, RENDEZVOUS_PROTOCOL) {
            None => None,
            Some(bytes) => RendezvousMessage::parsing(bytes),
        }
    }

    /// The request that `datagram` brings to this server: a rendezvous
    /// message meant for the port it listens on.
    pub open spec fn request_in(self, datagram: Seq<u8>) -> Option<RendezvousMessage> {
        match Self::message_in(datagram) {
            None => None,
            Some(message) => if message.port == self.local().port {
                Some(message)
            } else {
                None
            },
        }
    }

    /// The answer to a request: meant for the client's port, and naming the
    /// endpoint this server listens on.
    pub open spec fn reply_to(self, request: RendezvousMessage) -> RendezvousMessage {
        RendezvousMessage { port: request.endpoint.port, endpoint: self.local() }
    }

    /// The answer to a request on its way to the client that wrote the
    /// request.
    pub open spec fn answer(self, request: RendezvousMessage) -> OutgoingView {
        OutgoingView { peer: request.endpoint, bytes: self.reply_to(request).text() }
    }

    pub fn new(src_addr: Endpoint) -> (socket: CustomSocket)
        ensures
            socket.local() == src_addr,
    {
        CustomSocket { src_addr }
    }

    /// The endpoint the server listens on.
    pub fn src_addr(&self) -> (endpoint: Endpoint)
        ensures
            endpoint == self.local(),
    {
        self.src_addr
    }

    /// Looks at one datagram read from the raw socket and returns the
    /// rendezvous message it brings, or `None` if the caller has to keep
    /// reading. With `port_check` a message meant for another port counts as
    /// noise too.
    pub fn recv(&self, datagram: &[u8], port_check: bool) -> (r: Option<RendezvousMessage>)
        ensures
            port_check ==> r == self.request_in(datagram@),
            !port_check ==> r == Self::message_in(datagram@),
    {
        let bytes = match payload(datagram, RENDEZVOUS_PROTOCOL) {
            Some(bytes) => bytes,
            None => {
                return None;
            },
        };
        match RendezvousMessage::parse(bytes) {
            Some(message) => if !port_check || message.port == self.src_addr.port {
                Some(message)
            } else {
                None
            },
            None => None,
        }
    }
}

/// Looks at one datagram read from the raw socket. If it brings a request to
/// this server, returns the connection bound to the client that wrote it
/// and the reply to send to that client; otherwise `None`, and the caller
/// keeps reading.
pub fn accept(socket: &CustomSocket, datagram: &[u8]) -> (r: Option<(Connection, Outgoing)>)
    ensures
        match r {
            Some((conn, reply)) => socket.request_in(datagram@) matches Some(request)
                && conn.role() == ConnectionType::Server && conn.local() == socket.local()
                && conn.remote() == request.endpoint && reply@ == socket.answer(request),
            None => socket.request_in(datagram@) is None,
        },
{
    let request = match socket.recv(datagram, true) {
        Some(request) => request,
        None => {
            return None;
        },
    };
    let reply = RendezvousMessage { port: request.endpoint.port, endpoint: socket.src_addr };
    let conn = Connection::new(ConnectionType::Server, socket.src_addr, request.endpoint);
    Some((conn, Outgoing { peer: request.endpoint, bytes: reply.to_bytes() }))
}

} // verus!

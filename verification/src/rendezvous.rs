//! The text messages by which two sides find each other before the
//! handshake: a port, the delimiter `::`, an endpoint.

use crate::endpoint::{byte_at, lemma_endpoint_text_at, port_at, read_port, Endpoint, COLON};
use crate::ip::{carried, RENDEZVOUS_PROTOCOL};
use crate::text::{decimal, lemma_decimal, lemma_number_at_decimal, push_decimal};
use vstd::prelude::*;

verus! {

/// A rendezvous message: the port it is meant for and the endpoint of the
/// side that wrote it.
#[derive(Debug, Clone, Copy, PartialEq, Eq)]
pub struct RendezvousMessage {
    pub port: u16,
    pub endpoint: Endpoint,
}

/// Whether `datagram` brings exactly `message` under the rendezvous protocol
/// number.
pub open spec fn announces(datagram: Seq<u8>, message: Seq<u8>) -> bool {
    carried(datagram, RENDEZVOUS_PROTOCOL) == Some(message)
}

impl RendezvousMessage {
    /// How a message is spelled: the port in decimal, two colons, the
    /// endpoint.
    pub open spec fn text(self) -> Seq<u8> {
        decimal(self.port as nat) + seq![COLON, COLON] + self.endpoint.text()
    }

    /// The message that the whole of `s` spells, if it spells one.
    pub open spec fn parsing(s: Seq<u8>) -> Option<RendezvousMessage> {
        match port_at(s, 0) {
            None => None,
            Some((port, i)) => if byte_at(s, i, COLON) && byte_at(s, i + 1, COLON) {
                match Endpoint::parsing_at(s, i + 2) {
                    None => None,
                    Some((endpoint, end)) => if end == s.len() {
                        Some(RendezvousMessage { port, endpoint })
                    } else {
                        None
                    },
                }
            } else {
                None
            },
        }
    }

    /// The spelling of the message.
    pub fn to_bytes(&self) -> (bytes: Vec<u8>)
        ensures
            bytes@ == self.text(),
    {
        let mut out: Vec<u8> = Vec::new();
        push_decimal(&mut out, self.port);
        out.push(COLON);
        out.push(COLON);
        let ghost head = out@;
        self.endpoint.write_to(&mut out);
        assert(head =~= decimal(self.port as nat) + seq![COLON, COLON]);
        out
    }

    /// Reads the message that the whole of `bytes` spells. `None` for any
    /// other text.
    pub fn parse(bytes: &[u8]) -> (r: Option<RendezvousMessage>)
        ensures
            r == Self::parsing(bytes@),
    {
        let (port, i) = match read_port(bytes, 0) {
            Some(found) => found,
            None => {
                return None;
            },
        };
        if bytes.len() - i < 2 || bytes[i] != COLON || bytes[i + 1] != COLON {
            return None;
        }
        match Endpoint::parse_at(bytes, i + 2) {
            Some((endpoint, end)) => if end == bytes.len() {
                Some(RendezvousMessage { port, endpoint })
            } else {
                None
            },
            None => None,
        }
    }
}

/// Reading is a left inverse of spelling: every message's spelling is read
/// back as that message.
pub proof fn lemma_message_text_round_trip(message: RendezvousMessage)
    ensures
        RendezvousMessage::parsing(message.text()) == Some(message),
{
    let s = message.text();
    let port = decimal(message.port as nat);
    let colons = seq![COLON, COLON];
    let tail = colons + message.endpoint.text();
    lemma_decimal(message.port as nat);
    assert(s =~= Seq::<u8>::empty() + port + tail);
    lemma_number_at_decimal(Seq::empty(), message.port as nat, tail, 65535);
    assert(s[port.len() as int] == COLON);
    assert(s[(port.len() + 1) as int] == COLON);
    assert(s =~= port + colons + message.endpoint.text() + Seq::<u8>::empty());
    lemma_endpoint_text_at(port + colons, message.endpoint, Seq::empty());
}

} // verus!

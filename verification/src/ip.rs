//! The IPv4 framing around every message: a raw socket hands over whole
//! datagrams, header included, and delivers whatever reaches the host under
//! its protocol number. This module takes the header off and tells the two
//! protocol numbers of this crate from everything else.

use crate::endpoint::Endpoint;
use vstd::prelude::*;

verus! {

/// IP protocol number of handshake and data segments.
pub const HANDSHAKE_PROTOCOL: u8 = 253;

/// IP protocol number of rendezvous messages.
pub const RENDEZVOUS_PROTOCOL: u8 = 255;

/// What the caller has to hand to its raw socket: the bytes to send and the
/// endpoint to send them to. The socket puts the IPv4 header in front.
#[derive(Debug, PartialEq, Eq)]
pub struct Outgoing {
    pub peer: Endpoint,
    pub bytes: Vec<u8>,
}

/// Something to send, as a mathematical value.
pub struct OutgoingView {
    pub peer: Endpoint,
    pub bytes: Seq<u8>,
}

impl View for Outgoing {
    type V = OutgoingView;

    open spec fn view(&self) -> OutgoingView {
        OutgoingView { peer: self.peer, bytes: self.bytes@ }
    }
}

/// Length in bytes of the IPv4 header at the front of `datagram`, options
/// included. There is one if the buffer holds at least 20 bytes, the version
/// nibble is 4, the header length nibble is at least 5 and the buffer holds
/// the four-byte words that nibble counts.
pub open spec fn header_len(datagram: Seq<u8>) -> Option<int> {
    if datagram.len() >= 20 && datagram[0] / 16 == 4 && datagram[0] % 16 >= 5 && datagram.len()
        >= (datagram[0] % 16) * 4 {
        Some((datagram[0] % 16) * 4)
    } else {
        None
    }
}

/// What `datagram` carries for `protocol`: the bytes after its IPv4 header,
/// if it has one and the header's protocol field is `protocol`. The total
/// length field is not consulted.
pub open spec fn carried(datagram: Seq<u8>, protocol: u8) -> Option<Seq<u8>> {
    match header_len(datagram) {
        None => None,
        Some(n) => if datagram[9] == protocol {
            Some(datagram.skip(n))
        } else {
            None
        },
    }
}

/// Calls `etherparse::Ipv4Header::from_slice` and keeps the protocol number
/// and the rest of the buffer. Trusted: the parser fails exactly on a buffer
/// of fewer than 20 bytes, a version nibble other than 4, a header length
/// nibble under 5, or a buffer shorter than the header that nibble announces;
/// otherwise the protocol number is byte 9 and the rest starts where the
/// header, options included, ends.
#[verifier::external_body]
fn split_header(datagram: &[u8]) -> (r: Option<(u8, &[u8])>)
    ensures
        match header_len(datagram@) {
            None => r is None,
            Some(n) => r matches Some((number, rest)) && number == datagram@[9] && rest@
                == datagram@.skip(n),
        },
{
    match etherparse::Ipv4Header::from_slice(datagram) {
        Ok((header, rest)) => Some((header.protocol.0, rest)),
        Err(_) => None,
    }
}

/// Takes the IPv4 header off `datagram` and returns what it carries, or
/// `None` for a buffer that is no IPv4 datagram or belongs to another
/// protocol.
pub fn payload(datagram: &[u8], protocol: u8) -> (r: Option<&[u8]>)
    ensures
        match r {
            Some(bytes) => carried(datagram@, protocol) == Some(bytes@),
            None => carried(datagram@, protocol) is None,
        },
{
    match split_header(datagram) {
        Some((number, rest)) => if number == protocol {
            Some(rest)
        } else {
            None
        },
        None => None,
    }
}

} // verus!

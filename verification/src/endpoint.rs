//! One side of a connection, an IPv4 address and a port, and its spelling
//! `a.b.c.d:port` in rendezvous messages.

use crate::text::{
    decimal, is_digit, lemma_decimal, lemma_number_at_decimal, number_at, push_decimal,
    read_number,
};
use vstd::prelude::*;

verus! {

/// The ASCII code of the dot between the octets of an address.
pub const DOT: u8 = 46;

/// The ASCII code of the colon between address and port.
pub const COLON: u8 = 58;

/// An IPv4 address, most significant octet first, and a port.
#[derive(Debug, Clone, Copy, PartialEq, Eq)]
pub struct Endpoint {
    pub ip: [u8; 4],
    pub port: u16,
}

/// Whether the byte `b` stands at index `at` of `s`.
pub open spec fn byte_at(s: Seq<u8>, at: int, b: u8) -> bool {
    0 <= at < s.len() && s[at] == b
}

/// The octet at `from`: a numeral of one to three digits, without a leading
/// zero unless it is `0`, that spells at most 255; with the index behind it.
pub open spec fn octet_at(s: Seq<u8>, from: int) -> Option<(u8, int)> {
    match number_at(s, from, 255) {
        None => None,
        Some((value, end)) => if end - from <= 3 && (end - from > 1 ==> s[from] != 48) {
            Some((value as u8, end))
        } else {
            None
        },
    }
}

/// The port at `from`: a numeral of any length that spells at most 65535;
/// with the index behind it.
pub open spec fn port_at(s: Seq<u8>, from: int) -> Option<(u16, int)> {
    match number_at(s, from, 65535) {
        None => None,
        Some((value, end)) => Some((value as u16, end)),
    }
}

/// The octet at `from` and the index behind the separator `sep` that follows
/// it.
pub open spec fn octet_then(s: Seq<u8>, from: int, sep: u8) -> Option<(u8, int)> {
    match octet_at(s, from) {
        None => None,
        Some((value, end)) => if byte_at(s, end, sep) {
            Some((value, end + 1))
        } else {
            None
        },
    }
}

impl Endpoint {
    /// How an endpoint is spelled: the four octets in decimal with dots
    /// between them, a colon, the port in decimal.
    pub open spec fn text(self) -> Seq<u8> {
        decimal(self.ip[0] as nat) + seq![DOT] + decimal(self.ip[1] as nat) + seq![DOT] + decimal(
            self.ip[2] as nat,
        ) + seq![DOT] + decimal(self.ip[3] as nat) + seq![COLON] + decimal(self.port as nat)
    }

    /// The endpoint spelled at `from`, with the index behind it: three octets
    /// each followed by a dot, a fourth followed by a colon, and a port.
    pub open spec fn parsing_at(s: Seq<u8>, from: int) -> Option<(Endpoint, int)> {
        match octet_then(s, from, DOT) {
            None => None,
            Some((a, i)) => match octet_then(s, i, DOT) {
                None => None,
                Some((b, j)) => match octet_then(s, j, DOT) {
                    None => None,
                    Some((c, k)) => match octet_then(s, k, COLON) {
                        None => None,
                        Some((d, l)) => match port_at(s, l) {
                            None => None,
                            Some((port, end)) => Some((Endpoint { ip: [a, b, c, d], port }, end)),
                        },
                    },
                },
            },
        }
    }

    /// The endpoint that the whole of `s` spells, if it spells one.
    pub open spec fn parsing(s: Seq<u8>) -> Option<Endpoint> {
        match Self::parsing_at(s, 0) {
            None => None,
            Some((endpoint, end)) => if end == s.len() {
                Some(endpoint)
            } else {
                None
            },
        }
    }

    pub fn new(ip: [u8; 4], port: u16) -> (endpoint: Endpoint)
        ensures
            endpoint == (Endpoint { ip, port }),
    {
        Endpoint { ip, port }
    }

    /// Whether two endpoints are the same address and port.
    pub fn equals(&self, other: &Endpoint) -> (same: bool)
        ensures
            same == (*self == *other),
    {
        let same = self.ip[0] == other.ip[0] && self.ip[1] == other.ip[1] && self.ip[2]
            == other.ip[2] && self.ip[3] == other.ip[3] && self.port == other.port;
        proof {
            if same {
                assert(self.ip =~= other.ip);
            }
        }
        same
    }

    /// Appends the spelling of the endpoint to `out`.
    pub fn write_to(&self, out: &mut Vec<u8>)
        ensures
            final(out)@ == old(out)@ + self.text(),
    {
        push_decimal(out, self.ip[0] as u16);
        out.push(DOT);
        push_decimal(out, self.ip[1] as u16);
        out.push(DOT);
        push_decimal(out, self.ip[2] as u16);
        out.push(DOT);
        push_decimal(out, self.ip[3] as u16);
        out.push(COLON);
        push_decimal(out, self.port);
        assert(out@ =~= old(out)@ + self.text());
    }

    /// The spelling of the endpoint.
    pub fn to_text(&self) -> (text: Vec<u8>)
        ensures
            text@ == self.text(),
    {
        let mut out: Vec<u8> = Vec::new();
        self.write_to(&mut out);
        assert(out@ =~= self.text());
        out
    }

    /// Reads the endpoint spelled at `from` and says where it ends.
    pub fn parse_at(s: &[u8], from: usize) -> (r: Option<(Endpoint, usize)>)
        ensures
            match r {
                Some((endpoint, end)) => Self::parsing_at(s@, from as int) == Some(
                    (endpoint, end as int),
                ) && end <= s@.len(),
                None => Self::parsing_at(s@, from as int) is None,
            },
    {
        let (a, i) = match read_octet_then(s, from, DOT) {
            Some(found) => found,
            None => {
                return None;
            },
        };
        let (b, j) = match read_octet_then(s, i, DOT) {
            Some(found) => found,
            None => {
                return None;
            },
        };
        let (c, k) = match read_octet_then(s, j, DOT) {
            Some(found) => found,
            None => {
                return None;
            },
        };
        let (d, l) = match read_octet_then(s, k, COLON) {
            Some(found) => found,
            None => {
                return None;
            },
        };
        let (port, end) = match read_port(s, l) {
            Some(found) => found,
            None => {
                return None;
            },
        };
        Some((Endpoint { ip: [a, b, c, d], port }, end))
    }

    /// Reads the endpoint that the whole of `text` spells. `None` for any
    /// other text: a missing or extra byte, an octet over 255 or with a
    /// leading zero, a port over 65535.
    pub fn parse(text: &[u8]) -> (r: Option<Endpoint>)
        ensures
            r == Self::parsing(text@),
    {
        match Self::parse_at(text, 0) {
            Some((endpoint, end)) => if end == text.len() {
                Some(endpoint)
            } else {
                None
            },
            None => None,
        }
    }
}

/// Reads the port at `from`.
pub fn read_port(s: &[u8], from: usize) -> (r: Option<(u16, usize)>)
    ensures
        match r {
            Some((port, end)) => port_at(s@, from as int) == Some((port, end as int)) && from < end
                <= s@.len(),
            None => port_at(s@, from as int) is None,
        },
{
    read_number(s, from, 65535)
}

/// Reads the octet at `from` and the separator behind it.
fn read_octet_then(s: &[u8], from: usize, sep: u8) -> (r: Option<(u8, usize)>)
    ensures
        match r {
            Some((value, next)) => octet_then(s@, from as int, sep) == Some((value, next as int))
                && next <= s@.len(),
            None => octet_then(s@, from as int, sep) is None,
        },
{
    match read_number(s, from, 255) {
        None => None,
        Some((value, end)) => {
            if end - from > 3 || (end - from > 1 && s[from] == 48) {
                return None;
            }
            if end < s.len() && s[end] == sep {
                Some((value as u8, end + 1))
            } else {
                None
            }
        },
    }
}

/// Concatenation does not care how it is bracketed.
proof fn lemma_concat_assoc(x: Seq<u8>, y: Seq<u8>, z: Seq<u8>)
    ensures
        x + (y + z) == x + y + z,
{
    assert(x + (y + z) =~= x + y + z);
}

/// What starts a buffer also starts the buffer with more behind it.
proof fn lemma_prefix_grows(x: Seq<u8>, y: Seq<u8>, z: Seq<u8>)
    requires
        x.is_prefix_of(y),
    ensures
        x.is_prefix_of(y + z),
        y.is_prefix_of(y + z),
{
}

/// An octet's shortest numeral, followed by a separator that is no digit, is
/// read back as that octet, whatever follows the separator.
proof fn lemma_octet_then(s: Seq<u8>, pre: Seq<u8>, n: u8, sep: u8)
    requires
        !is_digit(sep),
        (pre + decimal(n as nat) + seq![sep]).is_prefix_of(s),
    ensures
        octet_then(s, pre.len() as int, sep) == Some(
            (n, (pre.len() + decimal(n as nat).len() + 1) as int),
        ),
{
    let run = decimal(n as nat);
    let head = pre + run + seq![sep];
    let tail = seq![sep] + s.skip(head.len() as int);
    assert(s.subrange(0, head.len() as int) == head);
    assert forall|i: int| 0 <= i < head.len() implies s[i] == head[i] by {
        assert(s.subrange(0, head.len() as int)[i] == s[i]);
    }
    assert(s =~= pre + run + tail);
    lemma_decimal(n as nat);
    lemma_number_at_decimal(pre, n as nat, tail, 255);
    assert(s[pre.len() as int] == run[0]);
    assert(s[(pre.len() + run.len()) as int] == sep);
}

/// A port's shortest numeral is read back as that port where no digit
/// follows it.
proof fn lemma_port_at(s: Seq<u8>, pre: Seq<u8>, port: u16, post: Seq<u8>)
    requires
        s == pre + decimal(port as nat) + post,
        post.len() == 0 || !is_digit(post[0]),
    ensures
        port_at(s, pre.len() as int) == Some(
            (port, (pre.len() + decimal(port as nat).len()) as int),
        ),
{
    lemma_number_at_decimal(pre, port as nat, post, 65535);
}

/// Where the fields of a spelling stand in a buffer: each field with its
/// separator starts the buffer together with all that precedes it.
proof fn lemma_spelling_layout(
    pre: Seq<u8>,
    a: Seq<u8>,
    b: Seq<u8>,
    c: Seq<u8>,
    d: Seq<u8>,
    p: Seq<u8>,
    post: Seq<u8>,
)
    ensures
        ({
            let dot = seq![DOT];
            let colon = seq![COLON];
            let s = pre + (a + dot + b + dot + c + dot + d + colon + p) + post;
            let q1 = pre + a + dot;
            let q2 = q1 + b + dot;
            let q3 = q2 + c + dot;
            let q4 = q3 + d + colon;
            &&& q1.is_prefix_of(s)
            &&& q2.is_prefix_of(s)
            &&& q3.is_prefix_of(s)
            &&& q4.is_prefix_of(s)
            &&& s == q4 + p + post
        }),
{
    let dot = seq![DOT];
    let colon = seq![COLON];
    let t1 = a + dot;
    let t2 = t1 + b + dot;
    let t3 = t2 + c + dot;
    let t4 = t3 + d + colon;
    let s = pre + (t4 + p) + post;
    let q1 = pre + a + dot;
    let q2 = q1 + b + dot;
    let q3 = q2 + c + dot;
    let q4 = q3 + d + colon;
    assert(pre + t1 == q1) by {
        lemma_concat_assoc(pre, a, dot);
    }
    assert(pre + t2 == q2) by {
        lemma_concat_assoc(pre, t1 + b, dot);
        lemma_concat_assoc(pre, t1, b);
    }
    assert(pre + t3 == q3) by {
        lemma_concat_assoc(pre, t2 + c, dot);
        lemma_concat_assoc(pre, t2, c);
    }
    assert(pre + t4 == q4) by {
        lemma_concat_assoc(pre, t3 + d, colon);
        lemma_concat_assoc(pre, t3, d);
    }
    assert(s == q4 + p + post) by {
        lemma_concat_assoc(pre, t4, p);
    }
    lemma_prefix_grows(q4, q4, p);
    lemma_prefix_grows(q4, q4 + p, post);
    lemma_prefix_grows(q3, q3, d);
    lemma_prefix_grows(q3, q3 + d, colon);
    lemma_prefix_grows(q3, q4, p);
    lemma_prefix_grows(q3, q4 + p, post);
    lemma_prefix_grows(q2, q2, c);
    lemma_prefix_grows(q2, q2 + c, dot);
    lemma_prefix_grows(q2, q3, d);
    lemma_prefix_grows(q2, q3 + d, colon);
    lemma_prefix_grows(q2, q4, p);
    lemma_prefix_grows(q2, q4 + p, post);
    lemma_prefix_grows(q1, q1, b);
    lemma_prefix_grows(q1, q1 + b, dot);
    lemma_prefix_grows(q1, q2, c);
    lemma_prefix_grows(q1, q2 + c, dot);
    lemma_prefix_grows(q1, q3, d);
    lemma_prefix_grows(q1, q3 + d, colon);
    lemma_prefix_grows(q1, q4, p);
    lemma_prefix_grows(q1, q4 + p, post);
}

/// The fields of a spelled endpoint are read back one after the other.
proof fn lemma_spelled_fields(pre: Seq<u8>, endpoint: Endpoint, post: Seq<u8>)
    requires
        post.len() == 0 || !is_digit(post[0]),
    ensures
        ({
            let s = pre + endpoint.text() + post;
            let i0 = pre.len() as int;
            let i1 = i0 + decimal(endpoint.ip[0] as nat).len() + 1;
            let i2 = i1 + decimal(endpoint.ip[1] as nat).len() + 1;
            let i3 = i2 + decimal(endpoint.ip[2] as nat).len() + 1;
            let i4 = i3 + decimal(endpoint.ip[3] as nat).len() + 1;
            let i5 = i4 + decimal(endpoint.port as nat).len();
            &&& octet_then(s, i0, DOT) == Some((endpoint.ip[0], i1))
            &&& octet_then(s, i1, DOT) == Some((endpoint.ip[1], i2))
            &&& octet_then(s, i2, DOT) == Some((endpoint.ip[2], i3))
            &&& octet_then(s, i3, COLON) == Some((endpoint.ip[3], i4))
            &&& port_at(s, i4) == Some((endpoint.port, i5))
            &&& i5 == pre.len() + endpoint.text().len()
        }),
{
    let s = pre + endpoint.text() + post;
    let a = decimal(endpoint.ip[0] as nat);
    let b = decimal(endpoint.ip[1] as nat);
    let c = decimal(endpoint.ip[2] as nat);
    let d = decimal(endpoint.ip[3] as nat);
    let p = decimal(endpoint.port as nat);
    let q1 = pre + a + seq![DOT];
    let q2 = q1 + b + seq![DOT];
    let q3 = q2 + c + seq![DOT];
    let q4 = q3 + d + seq![COLON];
    lemma_spelling_layout(pre, a, b, c, d, p, post);
    lemma_octet_then(s, pre, endpoint.ip[0], DOT);
    lemma_octet_then(s, q1, endpoint.ip[1], DOT);
    lemma_octet_then(s, q2, endpoint.ip[2], DOT);
    lemma_octet_then(s, q3, endpoint.ip[3], COLON);
    lemma_port_at(s, q4, endpoint.port, post);
}

/// Spelling an endpoint and reading the spelling gives the endpoint back,
/// wherever in a buffer the spelling stands, as long as no digit follows it.
pub proof fn lemma_endpoint_text_at(pre: Seq<u8>, endpoint: Endpoint, post: Seq<u8>)
    requires
        post.len() == 0 || !is_digit(post[0]),
    ensures
        Endpoint::parsing_at(pre + endpoint.text() + post, pre.len() as int) == Some(
            (endpoint, (pre.len() + endpoint.text().len()) as int),
        ),
{
    lemma_spelled_fields(pre, endpoint, post);
    let ip = [endpoint.ip[0], endpoint.ip[1], endpoint.ip[2], endpoint.ip[3]];
    assert(ip =~= endpoint.ip);
}

/// Reading is a left inverse of spelling: every endpoint's spelling is read
/// back as that endpoint.
pub proof fn lemma_endpoint_text_round_trip(endpoint: Endpoint)
    ensures
        Endpoint::parsing(endpoint.text()) == Some(endpoint),
{
    lemma_endpoint_text_at(Seq::empty(), endpoint, Seq::empty());
    assert(Seq::<u8>::empty() + endpoint.text() + Seq::<u8>::empty() =~= endpoint.text());
}

} // verus!

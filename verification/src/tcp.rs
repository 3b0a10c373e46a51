//! The segment codec: a fixed 13-byte header followed by a fixed-capacity
//! data region, all integers big-endian, every flag one byte holding 0 or 1.

use vstd::prelude::*;
use vstd::std_specs::convert::{FromSpecImpl, TryFromSpecImpl};

verus! {

/// Number of bytes of an encoded header.
pub const HEADER_SIZE: usize = 13;

/// Capacity of the data region that follows the header.
pub const MAX_SEGMENT_SIZE: usize = 1460;

/// Number of bytes of an encoded payload: header and data region.
pub const PAYLOAD_SIZE: usize = 1473;

/// The control flags a caller can ask for when building a header.
#[derive(Debug, Clone, Copy, PartialEq, Eq, Structural)]
pub enum CustomTcpFlags {
    Syn,
    Ack,
}

/// Why a byte buffer is not an encoded header or payload.
#[derive(Debug, Clone, Copy, PartialEq, Eq, Structural)]
pub enum MalformedPacket {
    /// Fewer bytes than a header takes.
    Truncated,
    /// A flag byte holds something other than 0 or 1.
    InvalidFlag,
    /// The bytes after the header are not exactly one data region.
    DataLength,
}

/// The fixed-width record in front of every segment.
#[derive(Debug, Clone, Copy, PartialEq, Eq, Structural)]
pub struct CustomTcpHeader {
    pub src_port: u16,
    pub dst_port: u16,
    pub seq_no: u32,
    pub ack_flag: bool,
    pub syn_flag: bool,
    pub fin_flag: bool,
    pub payload_size: u16,
}

/// The two bytes of `x`, most significant first.
pub open spec fn be16(x: u16) -> Seq<u8> {
    seq![(x / 256) as u8, (x % 256) as u8]
}

/// The four bytes of `x`, most significant first.
pub open spec fn be32(x: u32) -> Seq<u8> {
    seq![
        (x / 0x100_0000) as u8,
        (x / 0x1_0000 % 256) as u8,
        (x / 0x100 % 256) as u8,
        (x % 256) as u8,
    ]
}

/// The number whose big-endian bytes are `hi`, `lo`.
pub open spec fn from_be16(hi: u8, lo: u8) -> u16 {
    (hi * 256 + lo) as u16
}

/// The number whose big-endian bytes are `b3`, `b2`, `b1`, `b0`.
pub open spec fn from_be32(b3: u8, b2: u8, b1: u8, b0: u8) -> u32 {
    (b3 * 0x100_0000 + b2 * 0x1_0000 + b1 * 0x100 + b0) as u32
}

/// The byte that stands for a flag.
pub open spec fn flag_byte(flag: bool) -> u8 {
    if flag { 1 } else { 0 }
}

/// Whether `b` is the encoding of a flag.
pub open spec fn is_flag_byte(b: u8) -> bool {
    b == 0 || b == 1
}

impl CustomTcpHeader {
    /// The wire form of a header.
    pub open spec fn encoding(self) -> Seq<u8> {
        be16(self.src_port) + be16(self.dst_port) + be32(self.seq_no) + seq![
            flag_byte(self.ack_flag),
            flag_byte(self.syn_flag),
            flag_byte(self.fin_flag),
        ] + be16(self.payload_size)
    }

    /// What the first thirteen bytes of `bytes` decode to.
    pub open spec fn decoding(bytes: Seq<u8>) -> Result<CustomTcpHeader, MalformedPacket> {
        if bytes.len() < HEADER_SIZE {
            Err(MalformedPacket::Truncated)
        } else if !is_flag_byte(bytes[8]) || !is_flag_byte(bytes[9]) || !is_flag_byte(bytes[10]) {
            Err(MalformedPacket::InvalidFlag)
        } else {
            Ok(
                CustomTcpHeader {
                    src_port: from_be16(bytes[0], bytes[1]),
                    dst_port: from_be16(bytes[2], bytes[3]),
                    seq_no: from_be32(bytes[4], bytes[5], bytes[6], bytes[7]),
                    ack_flag: bytes[8] == 1,
                    syn_flag: bytes[9] == 1,
                    fin_flag: bytes[10] == 1,
                    payload_size: from_be16(bytes[11], bytes[12]),
                },
            )
        }
    }

    /// Number of bytes of an encoded header.
    pub fn size() -> (n: usize)
        ensures
            n == HEADER_SIZE,
    {
        HEADER_SIZE
    }

    /// A header between two ports that carries the flags asked for and nothing
    /// else: sequence number and payload size are zero, and a flag is set
    /// exactly if `flags` names it.
    pub fn new(src_port: u16, dst_port: u16, flags: Vec<CustomTcpFlags>) -> (header:
        CustomTcpHeader)
        ensures
            header == (CustomTcpHeader {
                src_port,
                dst_port,
                seq_no: 0,
                ack_flag: flags@.contains(CustomTcpFlags::Ack),
                syn_flag: flags@.contains(CustomTcpFlags::Syn),
                fin_flag: false,
                payload_size: 0,
            }),
    {
        let mut header = CustomTcpHeader {
            src_port,
            dst_port,
            seq_no: 0,
            ack_flag: false,
            syn_flag: false,
            fin_flag: false,
            payload_size: 0,
        };
        let mut i: usize = 0;
        while i < flags.len()
            invariant
                i <= flags.len(),
                header.src_port == src_port,
                header.dst_port == dst_port,
                header.seq_no == 0,
                !header.fin_flag,
                header.payload_size == 0,
                header.ack_flag == flags@.take(i as int).contains(CustomTcpFlags::Ack),
                header.syn_flag == flags@.take(i as int).contains(CustomTcpFlags::Syn),
            decreases flags.len() - i,
        {
            proof {
                let before = flags@.take(i as int);
                let after = flags@.take(i + 1);
                assert(after == before.push(flags@[i as int]));
                assert forall|f: CustomTcpFlags|
                    after.contains(f) == (before.contains(f) || f == flags@[i as int]) by {
                    if before.contains(f) {
                        let k = choose|k: int| 0 <= k < before.len() && before[k] == f;
                        assert(after[k] == f);
                    }
                    if f == flags@[i as int] {
                        assert(after[i as int] == f);
                    }
                }
            }
            match flags[i] {
                CustomTcpFlags::Syn => {
                    header.syn_flag = true;
                },
                CustomTcpFlags::Ack => {
                    header.ack_flag = true;
                },
            }
            i += 1;
        }
        assert(flags@.take(flags.len() as int) == flags@);
        header
    }

    /// Encodes the header: thirteen bytes, whatever the fields hold, that
    /// decode to the header again.
    pub fn to_bytes(&self) -> (bytes: Vec<u8>)
        ensures
            bytes@ == self.encoding(),
            bytes@.len() == HEADER_SIZE,
            Self::decoding(bytes@) == Ok::<CustomTcpHeader, MalformedPacket>(*self),
    {
        let mut result: Vec<u8> = Vec::with_capacity(HEADER_SIZE);
        self.write_to(&mut result);
        proof {
            lemma_header_round_trip(*self, Seq::empty());
            assert(self.encoding() + Seq::<u8>::empty() =~= self.encoding());
        }
        result
    }

    /// Appends the encoded header to `out`.
    fn write_to(&self, out: &mut Vec<u8>)
        ensures
            final(out)@ == old(out)@ + self.encoding(),
    {
        write_be16(out, self.src_port);
        write_be16(out, self.dst_port);
        write_be32(out, self.seq_no);
        out.push(if self.ack_flag { 1 } else { 0 });
        out.push(if self.syn_flag { 1 } else { 0 });
        out.push(if self.fin_flag { 1 } else { 0 });
        write_be16(out, self.payload_size);
    }

    /// Decodes the header at the front of `packet`; bytes after it are
    /// ignored. Fails with `Truncated` if `packet` is shorter than a header,
    /// else with `InvalidFlag` if a flag byte is neither 0 nor 1.
    pub fn from_bytes(packet: &[u8]) -> (r: Result<CustomTcpHeader, MalformedPacket>)
        ensures
            r == Self::decoding(packet@),
            packet@.len() < HEADER_SIZE ==> r == Err::<CustomTcpHeader, MalformedPacket>(
                MalformedPacket::Truncated,
            ),
            packet@.len() >= HEADER_SIZE && !(is_flag_byte(packet@[8]) && is_flag_byte(packet@[9])
                && is_flag_byte(packet@[10])) ==> r == Err::<CustomTcpHeader, MalformedPacket>(
                MalformedPacket::InvalidFlag,
            ),
            r is Ok <==> packet@.len() >= HEADER_SIZE && is_flag_byte(packet@[8]) && is_flag_byte(
                packet@[9],
            ) && is_flag_byte(packet@[10]),
    {
        if packet.len() < HEADER_SIZE {
            return Err(MalformedPacket::Truncated);
        }
        let ack = packet[8];
        let syn = packet[9];
        let fin = packet[10];
        if ack > 1 || syn > 1 || fin > 1 {
            return Err(MalformedPacket::InvalidFlag);
        }
        Ok(
            CustomTcpHeader {
                src_port: read_be16(packet[0], packet[1]),
                dst_port: read_be16(packet[2], packet[3]),
                seq_no: read_be32(packet[4], packet[5], packet[6], packet[7]),
                ack_flag: ack == 1,
                syn_flag: syn == 1,
                fin_flag: fin == 1,
                payload_size: read_be16(packet[11], packet[12]),
            },
        )
    }
}

/// Appends the two bytes of `x`, most significant first.
fn write_be16(out: &mut Vec<u8>, x: u16)
    ensures
        final(out)@ == old(out)@ + be16(x),
{
    out.push((x / 256) as u8);
    out.push((x % 256) as u8);
}

/// Appends the four bytes of `x`, most significant first.
fn write_be32(out: &mut Vec<u8>, x: u32)
    ensures
        final(out)@ == old(out)@ + be32(x),
{
    out.push((x / 0x100_0000) as u8);
    out.push((x / 0x1_0000 % 256) as u8);
    out.push((x / 0x100 % 256) as u8);
    out.push((x % 256) as u8);
}

/// Puts two bytes together, most significant first.
fn read_be16(hi: u8, lo: u8) -> (x: u16)
    ensures
        x == from_be16(hi, lo),
{
    (hi as u16) * 256 + (lo as u16)
}

/// Puts four bytes together, most significant first.
fn read_be32(b3: u8, b2: u8, b1: u8, b0: u8) -> (x: u32)
    ensures
        x == from_be32(b3, b2, b1, b0),
{
    (b3 as u32) * 0x100_0000 + (b2 as u32) * 0x1_0000 + (b1 as u32) * 0x100 + (b0 as u32)
}

/// A header together with its data region.
#[derive(Debug, Clone, Copy, PartialEq, Eq)]
pub struct CustomTcpPayload {
    pub header: CustomTcpHeader,
    pub data: [u8; MAX_SEGMENT_SIZE],
}

/// A payload as a mathematical value: the header and the bytes of the data
/// region.
pub struct PayloadView {
    pub header: CustomTcpHeader,
    pub data: Seq<u8>,
}

impl PayloadView {
    /// The wire form of a payload: the header, then the whole data region.
    pub open spec fn encoding(self) -> Seq<u8> {
        self.header.encoding() + self.data
    }

    /// What `bytes` decode to. Only a buffer of exactly `PAYLOAD_SIZE` bytes
    /// is a payload.
    pub open spec fn decoding(bytes: Seq<u8>) -> Result<PayloadView, MalformedPacket> {
        match CustomTcpHeader::decoding(bytes) {
            Err(e) => Err(e),
            Ok(header) => if bytes.len() != PAYLOAD_SIZE {
                Err(MalformedPacket::DataLength)
            } else {
                Ok(PayloadView { header, data: bytes.subrange(HEADER_SIZE as int, PAYLOAD_SIZE as int) })
            },
        }
    }

    /// The data region that holds `msg` at its front and zeros after it.
    pub open spec fn padded(msg: Seq<u8>) -> Seq<u8> {
        Seq::new(MAX_SEGMENT_SIZE as nat, |i: int| if i < msg.len() { msg[i] } else { 0u8 })
    }
}

impl View for CustomTcpPayload {
    type V = PayloadView;

    open spec fn view(&self) -> PayloadView {
        PayloadView { header: self.header, data: self.data@ }
    }
}

impl CustomTcpPayload {
    /// A payload between two ports with the flags asked for and an all-zero
    /// data region.
    pub fn new(src_port: u16, dst_port: u16, flags: Vec<CustomTcpFlags>) -> (payload:
        CustomTcpPayload)
        ensures
            payload@ == (PayloadView {
                header: CustomTcpHeader {
                    src_port,
                    dst_port,
                    seq_no: 0,
                    ack_flag: flags@.contains(CustomTcpFlags::Ack),
                    syn_flag: flags@.contains(CustomTcpFlags::Syn),
                    fin_flag: false,
                    payload_size: 0,
                },
                data: PayloadView::padded(Seq::empty()),
            }),
    {
        let payload = CustomTcpPayload {
            header: CustomTcpHeader::new(src_port, dst_port, flags),
            data: [0u8;MAX_SEGMENT_SIZE],
        };
        assert(payload.data@ =~= PayloadView::padded(Seq::empty()));
        payload
    }

    /// A payload that carries `msg`: the data region holds `msg` at its front
    /// and zeros after it, and the header's payload size is the length of
    /// `msg`. `None` exactly if `msg` is longer than the data region.
    pub fn with_data(src_port: u16, dst_port: u16, msg: &[u8], flags: Vec<CustomTcpFlags>) -> (r:
        Option<CustomTcpPayload>)
        ensures
            msg@.len() > MAX_SEGMENT_SIZE ==> r is None,
            msg@.len() <= MAX_SEGMENT_SIZE ==> r is Some && r->0@ == (PayloadView {
                header: CustomTcpHeader {
                    src_port,
                    dst_port,
                    seq_no: 0,
                    ack_flag: flags@.contains(CustomTcpFlags::Ack),
                    syn_flag: flags@.contains(CustomTcpFlags::Syn),
                    fin_flag: false,
                    payload_size: msg@.len() as u16,
                },
                data: PayloadView::padded(msg@),
            }),
    {
        if msg.len() > MAX_SEGMENT_SIZE {
            return None;
        }
        let mut header = CustomTcpHeader::new(src_port, dst_port, flags);
        header.payload_size = msg.len() as u16;
        let mut data = [0u8;MAX_SEGMENT_SIZE];
        let mut i: usize = 0;
        while i < msg.len()
            invariant
                i <= msg.len() <= MAX_SEGMENT_SIZE,
                forall|k: int| 0 <= k < i ==> data@[k] == msg@[k],
                forall|k: int| i <= k < MAX_SEGMENT_SIZE ==> data@[k] == 0,
            decreases msg.len() - i,
        {
            data[i] = msg[i];
            i += 1;
        }
        assert(data@ =~= PayloadView::padded(msg@));
        Some(CustomTcpPayload { header, data })
    }

    /// The port the payload comes from.
    pub fn src_port(&self) -> (port: u16)
        ensures
            port == self.header.src_port,
    {
        self.header.src_port
    }

    /// The port the payload goes to.
    pub fn dst_port(&self) -> (port: u16)
        ensures
            port == self.header.dst_port,
    {
        self.header.dst_port
    }

    /// Whether the SYN flag is set.
    pub fn has_syn(&self) -> (syn: bool)
        ensures
            syn == self.header.syn_flag,
    {
        self.header.syn_flag
    }

    /// Whether the ACK flag is set.
    pub fn has_ack(&self) -> (ack: bool)
        ensures
            ack == self.header.ack_flag,
    {
        self.header.ack_flag
    }

    /// Number of bytes of an encoded payload.
    pub fn size() -> (n: usize)
        ensures
            n == PAYLOAD_SIZE,
    {
        PAYLOAD_SIZE
    }

    /// Encodes the payload, consuming it.
    pub fn into_vec(self) -> (bytes: Vec<u8>)
        ensures
            bytes@ == self@.encoding(),
            bytes@.len() == PAYLOAD_SIZE,
            PayloadView::decoding(bytes@) == Ok::<PayloadView, MalformedPacket>(self@),
    {
        encode(&self.header, &self.data)
    }
}

/// Encodes a header and a data region: always `PAYLOAD_SIZE` bytes, whatever
/// part of the data region is in use and whatever the header says of it, that
/// decode to the same header and data again.
pub fn encode(header: &CustomTcpHeader, data: &[u8; MAX_SEGMENT_SIZE]) -> (bytes: Vec<u8>)
    ensures
        bytes@ == (PayloadView { header: *header, data: data@ }).encoding(),
        bytes@.len() == PAYLOAD_SIZE,
        PayloadView::decoding(bytes@) == Ok::<PayloadView, MalformedPacket>(
            PayloadView { header: *header, data: data@ },
        ),
{
    let mut result: Vec<u8> = Vec::with_capacity(PAYLOAD_SIZE);
    header.write_to(&mut result);
    result.extend_from_slice(data);
    proof {
        let view = PayloadView { header: *header, data: data@ };
        assert(data@.len() == MAX_SEGMENT_SIZE);
        assert(result@ == view.encoding());
        lemma_payload_view_round_trip(view);
    }
    result
}

/// Decodes a payload. Fails with `Truncated` if `packet` is shorter than a
/// header, else with `InvalidFlag` if a flag byte is neither 0 nor 1, else
/// with `DataLength` if `packet` is not exactly `PAYLOAD_SIZE` bytes long.
pub fn decode(packet: &[u8]) -> (r: Result<CustomTcpPayload, MalformedPacket>)
    ensures
        match r {
            Ok(payload) => PayloadView::decoding(packet@) == Ok::<PayloadView, MalformedPacket>(
                payload@,
            ),
            Err(e) => PayloadView::decoding(packet@) == Err::<PayloadView, MalformedPacket>(e),
        },
        packet@.len() < HEADER_SIZE ==> r == Err::<CustomTcpPayload, MalformedPacket>(
            MalformedPacket::Truncated,
        ),
        packet@.len() >= HEADER_SIZE && !(is_flag_byte(packet@[8]) && is_flag_byte(packet@[9])
            && is_flag_byte(packet@[10])) ==> r == Err::<CustomTcpPayload, MalformedPacket>(
            MalformedPacket::InvalidFlag,
        ),
        r is Ok <==> packet@.len() == PAYLOAD_SIZE && is_flag_byte(packet@[8]) && is_flag_byte(
            packet@[9],
        ) && is_flag_byte(packet@[10]),
{
    let header = match CustomTcpHeader::from_bytes(packet) {
        Ok(header) => header,
        Err(e) => {
            return Err(e);
        },
    };
    if packet.len() != PAYLOAD_SIZE {
        return Err(MalformedPacket::DataLength);
    }
    let mut data = [0u8;MAX_SEGMENT_SIZE];
    let mut i: usize = 0;
    while i < MAX_SEGMENT_SIZE
        invariant
            i <= MAX_SEGMENT_SIZE,
            packet@.len() == PAYLOAD_SIZE,
            forall|k: int| 0 <= k < i ==> data@[k] == packet@[HEADER_SIZE + k],
        decreases MAX_SEGMENT_SIZE - i,
    {
        data[i] = packet[HEADER_SIZE + i];
        i += 1;
    }
    assert(data@ =~= packet@.subrange(HEADER_SIZE as int, PAYLOAD_SIZE as int));
    Ok(CustomTcpPayload { header, data })
}

impl<'a> TryFrom<&'a [u8]> for CustomTcpHeader {
    type Error = MalformedPacket;

    /// Decodes the header at the front of `packet`, as `from_bytes` does.
    fn try_from(packet: &'a [u8]) -> (r: Result<CustomTcpHeader, MalformedPacket>) {
        CustomTcpHeader::from_bytes(packet)
    }
}

impl<'a> TryFromSpecImpl<&'a [u8]> for CustomTcpHeader {
    open spec fn obeys_try_from_spec() -> bool {
        true
    }

    open spec fn try_from_spec(packet: &'a [u8]) -> Result<CustomTcpHeader, MalformedPacket> {
        CustomTcpHeader::decoding(packet@)
    }
}

impl<'a> TryFrom<&'a [u8]> for CustomTcpPayload {
    type Error = MalformedPacket;

    /// Decodes a payload, as `decode` does.
    fn try_from(packet: &'a [u8]) -> (r: Result<CustomTcpPayload, MalformedPacket>)
        ensures
            match r {
                Ok(payload) => PayloadView::decoding(packet@) == Ok::<PayloadView, MalformedPacket>(
                    payload@,
                ),
                Err(e) => PayloadView::decoding(packet@) == Err::<PayloadView, MalformedPacket>(e),
            },
    {
        let r = decode(packet);
        proof {
            if let Ok(payload) = r {
                let view = PayloadView::decoding(packet@)->Ok_0;
                let other = choose|other: CustomTcpPayload| other@ == view;
                assert(payload@ == view);
                assert(other.data =~= payload.data);
            }
        }
        r
    }
}

impl<'a> TryFromSpecImpl<&'a [u8]> for CustomTcpPayload {
    open spec fn obeys_try_from_spec() -> bool {
        true
    }

    open spec fn try_from_spec(packet: &'a [u8]) -> Result<CustomTcpPayload, MalformedPacket> {
        match PayloadView::decoding(packet@) {
            Ok(view) => Ok(choose|payload: CustomTcpPayload| payload@ == view),
            Err(e) => Err(e),
        }
    }
}

impl<'a> From<&'a CustomTcpHeader> for Vec<u8> {
    /// Encodes the header, as `to_bytes` does.
    fn from(header: &'a CustomTcpHeader) -> (bytes: Vec<u8>)
        ensures
            bytes@ == header.encoding(),
    {
        header.to_bytes()
    }
}

/// Of two vectors that hold the same bytes nothing says that they are one
/// value, so the conversion speaks of the bytes in its own contract and
/// claims nothing through `from_spec`.
impl<'a> FromSpecImpl<&'a CustomTcpHeader> for Vec<u8> {
    open spec fn obeys_from_spec() -> bool {
        false
    }

    open spec fn from_spec(header: &'a CustomTcpHeader) -> Vec<u8> {
        choose|bytes: Vec<u8>| bytes@ == header.encoding()
    }
}

impl From<CustomTcpPayload> for Vec<u8> {
    /// Encodes the payload, as `encode` does.
    fn from(payload: CustomTcpPayload) -> (bytes: Vec<u8>)
        ensures
            bytes@ == payload@.encoding(),
    {
        encode(&payload.header, &payload.data)
    }
}

impl FromSpecImpl<CustomTcpPayload> for Vec<u8> {
    open spec fn obeys_from_spec() -> bool {
        false
    }

    open spec fn from_spec(payload: CustomTcpPayload) -> Vec<u8> {
        choose|bytes: Vec<u8>| bytes@ == payload@.encoding()
    }
}

impl<'a> From<&'a CustomTcpPayload> for Vec<u8> {
    /// Encodes the payload, as `encode` does.
    fn from(payload: &'a CustomTcpPayload) -> (bytes: Vec<u8>)
        ensures
            bytes@ == payload@.encoding(),
    {
        encode(&payload.header, &payload.data)
    }
}

impl<'a> FromSpecImpl<&'a CustomTcpPayload> for Vec<u8> {
    open spec fn obeys_from_spec() -> bool {
        false
    }

    open spec fn from_spec(payload: &'a CustomTcpPayload) -> Vec<u8> {
        choose|bytes: Vec<u8>| bytes@ == payload@.encoding()
    }
}

/// A number is what its two big-endian bytes spell.
pub proof fn lemma_be16_of_number(x: u16)
    ensures
        from_be16(be16(x)[0], be16(x)[1]) == x,
{
}

/// A number is what its four big-endian bytes spell.
pub proof fn lemma_be32_of_number(x: u32)
    ensures
        from_be32(be32(x)[0], be32(x)[1], be32(x)[2], be32(x)[3]) == x,
{
    let b3 = x / 0x100_0000;
    let b2 = x / 0x1_0000 % 256;
    let b1 = x / 0x100 % 256;
    let b0 = x % 256;
    assert(x / 0x100 == (x / 0x1_0000) * 256 + b1);
    assert(x / 0x1_0000 == b3 * 256 + b2);
    assert(x == (x / 0x100) * 256 + b0);
}

/// Decoding is a left inverse of encoding: an encoded header decodes to
/// itself, whatever follows it in the buffer.
pub proof fn lemma_header_round_trip(header: CustomTcpHeader, rest: Seq<u8>)
    ensures
        header.encoding().len() == HEADER_SIZE,
        CustomTcpHeader::decoding(header.encoding() + rest) == Ok::<
            CustomTcpHeader,
            MalformedPacket,
        >(header),
{
    let bytes = header.encoding() + rest;
    assert(header.encoding().len() == 13);
    assert forall|i: int| 0 <= i < 13 implies bytes[i] == header.encoding()[i] by {}
    lemma_be16_of_number(header.src_port);
    lemma_be16_of_number(header.dst_port);
    lemma_be32_of_number(header.seq_no);
    lemma_be16_of_number(header.payload_size);
    let decoded = CustomTcpHeader::decoding(bytes)->Ok_0;
    assert(decoded.src_port == header.src_port);
    assert(decoded.dst_port == header.dst_port);
    assert(decoded.seq_no == header.seq_no);
    assert(decoded.payload_size == header.payload_size);
}

/// Decoding is a left inverse of encoding: a payload whose data region has
/// its full size decodes, once encoded, to itself.
pub proof fn lemma_payload_view_round_trip(payload: PayloadView)
    requires
        payload.data.len() == MAX_SEGMENT_SIZE,
    ensures
        payload.encoding().len() == PAYLOAD_SIZE,
        PayloadView::decoding(payload.encoding()) == Ok::<PayloadView, MalformedPacket>(payload),
{
    lemma_header_round_trip(payload.header, payload.data);
    let bytes = payload.encoding();
    assert(bytes.subrange(HEADER_SIZE as int, PAYLOAD_SIZE as int) =~= payload.data);
}

/// Decoding is a left inverse of encoding: an encoded payload decodes to
/// itself.
pub proof fn lemma_payload_round_trip(payload: CustomTcpPayload)
    ensures
        payload@.encoding().len() == PAYLOAD_SIZE,
        PayloadView::decoding(payload@.encoding()) == Ok::<PayloadView, MalformedPacket>(payload@),
{
    lemma_payload_view_round_trip(payload@);
}

/// Two bytes are the big-endian form of the number they spell.
pub proof fn lemma_be16_of_bytes(hi: u8, lo: u8)
    ensures
        be16(from_be16(hi, lo)) == seq![hi, lo],
{
    let x = from_be16(hi, lo);
    assert(x == hi * 256 + lo);
    assert(x / 256 == hi && x % 256 == lo);
    assert(be16(x) =~= seq![hi, lo]);
}

/// Four bytes are the big-endian form of the number they spell.
pub proof fn lemma_be32_of_bytes(b3: u8, b2: u8, b1: u8, b0: u8)
    ensures
        be32(from_be32(b3, b2, b1, b0)) == seq![b3, b2, b1, b0],
{
    let x = from_be32(b3, b2, b1, b0);
    assert(x == b3 * 0x100_0000 + b2 * 0x1_0000 + b1 * 0x100 + b0);
    assert(x % 256 == b0);
    assert(x / 0x100 == b3 * 0x1_0000 + b2 * 0x100 + b1);
    assert(x / 0x1_0000 == b3 * 0x100 + b2);
    assert(x / 0x100_0000 == b3);
    assert(be32(x) =~= seq![b3, b2, b1, b0]);
}

/// Encoding is a left inverse of decoding: a buffer that decodes to a header
/// starts with that header's encoding.
pub proof fn lemma_header_decoding_is_exact(bytes: Seq<u8>)
    requires
        CustomTcpHeader::decoding(bytes) is Ok,
    ensures
        CustomTcpHeader::decoding(bytes)->Ok_0.encoding() == bytes.take(HEADER_SIZE as int),
{
    let header = CustomTcpHeader::decoding(bytes)->Ok_0;
    lemma_be16_of_bytes(bytes[0], bytes[1]);
    lemma_be16_of_bytes(bytes[2], bytes[3]);
    lemma_be32_of_bytes(bytes[4], bytes[5], bytes[6], bytes[7]);
    lemma_be16_of_bytes(bytes[11], bytes[12]);
    let flags = seq![
        flag_byte(header.ack_flag),
        flag_byte(header.syn_flag),
        flag_byte(header.fin_flag),
    ];
    assert(flags =~= seq![bytes[8], bytes[9], bytes[10]]);
    assert(seq![bytes[0], bytes[1]] + seq![bytes[2], bytes[3]] + seq![
        bytes[4],
        bytes[5],
        bytes[6],
        bytes[7],
    ] + seq![bytes[8], bytes[9], bytes[10]] + seq![bytes[11], bytes[12]] =~= bytes.take(
        HEADER_SIZE as int,
    ));
}

/// Encoding is a left inverse of decoding: a buffer that decodes to a payload
/// is that payload's encoding, so no two buffers decode to the same payload.
pub proof fn lemma_payload_decoding_is_exact(bytes: Seq<u8>)
    requires
        PayloadView::decoding(bytes) is Ok,
    ensures
        PayloadView::decoding(bytes)->Ok_0.encoding() == bytes,
{
    lemma_header_decoding_is_exact(bytes);
    let payload = PayloadView::decoding(bytes)->Ok_0;
    assert(payload.encoding() =~= bytes);
}

} // verus!

//! The fixed 12-byte message header.

use crate::error::DnsError;
use crate::wire::{be16, buf_bytes, buf_limit, from_be16, lemma_be16_round_trip, lemma_from_be16_round_trip, put_slice};
use bytes::BytesMut;
use vstd::prelude::*;

verus! {

/// The message header: correlation id, flag bits and the four section counts.
#[derive(Debug, Clone, Copy, PartialEq, Eq, Structural)]
pub struct Header {
    pub id: u16,
    pub qr: bool,
    pub opcode: u8,
    pub aa: bool,
    pub tc: bool,
    pub rd: bool,
    pub ra: bool,
    pub z: u8,
    pub rcode: u8,
    pub qdcount: u16,
    pub ancount: u16,
    pub nscount: u16,
    pub arcount: u16,
}

/// Length of the header on the wire.
pub const HEADER_LEN: usize = 12;

pub open spec fn bit(b: bool) -> u8 {
    if b { 1 } else { 0 }
}

/// Third header byte: QR, OPCODE (4 bits), AA, TC, RD from bit 7 down to bit 0.
pub open spec fn flags_hi(qr: u8, opcode: u8, aa: u8, tc: u8, rd: u8) -> u8 {
    (qr << 7u8) | (opcode << 3u8) | (aa << 2u8) | (tc << 1u8) | rd
}

/// Fourth header byte: RA, Z (3 bits), RCODE (4 bits) from bit 7 down to bit 0.
pub open spec fn flags_lo(ra: u8, z: u8, rcode: u8) -> u8 {
    (ra << 7u8) | (z << 4u8) | rcode
}

impl Header {
    /// Every field fits its width on the wire.
    pub open spec fn wf(&self) -> bool {
        self.opcode < 16 && self.z < 8 && self.rcode < 16
    }

    /// The 12 bytes this header is written as.
    pub open spec fn spec_bytes(&self) -> Seq<u8> {
        be16(self.id) + seq![
            flags_hi(bit(self.qr), self.opcode, bit(self.aa), bit(self.tc), bit(self.rd)),
            flags_lo(bit(self.ra), self.z, self.rcode),
        ] + be16(self.qdcount) + be16(self.ancount) + be16(self.nscount) + be16(self.arcount)
    }

    /// The header that the first 12 bytes of `b` hold.
    pub open spec fn spec_from_bytes(b: Seq<u8>) -> Header
        recommends
            b.len() >= 12,
    {
        Header {
            id: from_be16(b[0], b[1]),
            qr: (b[2] >> 7u8) == 1,
            opcode: (b[2] >> 3u8) & 0xfu8,
            aa: ((b[2] >> 2u8) & 1u8) == 1,
            tc: ((b[2] >> 1u8) & 1u8) == 1,
            rd: (b[2] & 1u8) == 1,
            ra: (b[3] >> 7u8) == 1,
            z: (b[3] >> 4u8) & 0x7u8,
            rcode: b[3] & 0xfu8,
            qdcount: from_be16(b[4], b[5]),
            ancount: from_be16(b[6], b[7]),
            nscount: from_be16(b[8], b[9]),
            arcount: from_be16(b[10], b[11]),
        }
    }

    /// The header of the reply to a request whose header is `request`: the id is
    /// echoed, the message is marked as a response, one question is carried and
    /// `ancount` answers follow; every other field is zero.
    pub open spec fn spec_response(request: Header, ancount: u16) -> Header {
        Header {
            id: request.id,
            qr: true,
            opcode: 0,
            aa: false,
            tc: false,
            rd: false,
            ra: false,
            z: 0,
            rcode: 0,
            qdcount: 1,
            ancount,
            nscount: 0,
            arcount: 0,
        }
    }

    /// Packs the header into its 12 wire bytes.
    pub fn to_bytes(&self) -> (r: [u8; 12])
        requires
            self.wf(),
        ensures
            r@ == self.spec_bytes(),
    {
        let mut bytes = [0u8; 12];
        bytes[0] = (self.id >> 8u16) as u8;
        bytes[1] = (self.id & 0xffu16) as u8;
        bytes[2] = (self.qr as u8) << 7u8 | self.opcode << 3u8 | (self.aa as u8) << 2u8 | (
        self.tc as u8) << 1u8 | self.rd as u8;
        bytes[3] = (self.ra as u8) << 7u8 | self.z << 4u8 | self.rcode;
        bytes[4] = (self.qdcount >> 8u16) as u8;
        bytes[5] = (self.qdcount & 0xffu16) as u8;
        bytes[6] = (self.ancount >> 8u16) as u8;
        bytes[7] = (self.ancount & 0xffu16) as u8;
        bytes[8] = (self.nscount >> 8u16) as u8;
        bytes[9] = (self.nscount & 0xffu16) as u8;
        bytes[10] = (self.arcount >> 8u16) as u8;
        bytes[11] = (self.arcount & 0xffu16) as u8;
        assert(bytes@ =~= self.spec_bytes());
        bytes
    }

    /// Reads a header from the first 12 bytes of `request`.
    pub fn from_bytes(request: &[u8]) -> (r: Result<Header, DnsError>)
        ensures
            request@.len() < 12 ==> r == Err::<Header, DnsError>(DnsError::MalformedMessage),
            request@.len() >= 12 ==> r == Ok::<Header, DnsError>(
                Header::spec_from_bytes(request@),
            ),
    {
        if request.len() < HEADER_LEN {
            return Err(DnsError::MalformedMessage);
        }
        Ok(
            Header {
                id: (request[0] as u16) << 8u16 | request[1] as u16,
                qr: (request[2] >> 7u8) == 1,
                opcode: (request[2] >> 3u8) & 0xfu8,
                aa: ((request[2] >> 2u8) & 1u8) == 1,
                tc: ((request[2] >> 1u8) & 1u8) == 1,
                rd: (request[2] & 1u8) == 1,
                ra: (request[3] >> 7u8) == 1,
                z: (request[3] >> 4u8) & 0x7u8,
                rcode: request[3] & 0xfu8,
                qdcount: (request[4] as u16) << 8u16 | request[5] as u16,
                ancount: (request[6] as u16) << 8u16 | request[7] as u16,
                nscount: (request[8] as u16) << 8u16 | request[9] as u16,
                arcount: (request[10] as u16) << 8u16 | request[11] as u16,
            },
        )
    }

    /// The header of the reply to `request`, announcing `ancount` answers.
    pub fn from_request(request: &Header, ancount: u16) -> (r: Header)
        ensures
            r == Header::spec_response(*request, ancount),
            r.wf(),
    {
        Header {
            id: request.id,
            qr: true,
            opcode: 0,
            aa: false,
            tc: false,
            rd: false,
            ra: false,
            z: 0,
            rcode: 0,
            qdcount: 1,
            ancount,
            nscount: 0,
            arcount: 0,
        }
    }

    /// Appends the header's 12 bytes to `buf`.
    pub fn write(&self, buf: &mut BytesMut)
        requires
            self.wf(),
            buf_bytes(*old(buf)).len() + 12 <= buf_limit(),
        ensures
            buf_bytes(*final(buf)) == buf_bytes(*old(buf)) + self.spec_bytes(),
    {
        let bytes = self.to_bytes();
        put_slice(buf, &bytes);
    }
}

proof fn lemma_flags_hi_round_trip(qr: u8, opcode: u8, aa: u8, tc: u8, rd: u8)
    requires
        qr < 2,
        opcode < 16,
        aa < 2,
        tc < 2,
        rd < 2,
    ensures
        (flags_hi(qr, opcode, aa, tc, rd) >> 7u8) == qr,
        (flags_hi(qr, opcode, aa, tc, rd) >> 3u8) & 0xfu8 == opcode,
        (flags_hi(qr, opcode, aa, tc, rd) >> 2u8) & 1u8 == aa,
        (flags_hi(qr, opcode, aa, tc, rd) >> 1u8) & 1u8 == tc,
        flags_hi(qr, opcode, aa, tc, rd) & 1u8 == rd,
{
    assert(((qr << 7u8) | (opcode << 3u8) | (aa << 2u8) | (tc << 1u8) | rd) >> 7u8 == qr
        && (((qr << 7u8) | (opcode << 3u8) | (aa << 2u8) | (tc << 1u8) | rd) >> 3u8) & 0xfu8
        == opcode && (((qr << 7u8) | (opcode << 3u8) | (aa << 2u8) | (tc << 1u8) | rd) >> 2u8)
        & 1u8 == aa && (((qr << 7u8) | (opcode << 3u8) | (aa << 2u8) | (tc << 1u8) | rd) >> 1u8)
        & 1u8 == tc && ((qr << 7u8) | (opcode << 3u8) | (aa << 2u8) | (tc << 1u8) | rd) & 1u8
        == rd) by (bit_vector)
        requires
            qr < 2,
            opcode < 16,
            aa < 2,
            tc < 2,
            rd < 2,
    ;
}

proof fn lemma_flags_lo_round_trip(ra: u8, z: u8, rcode: u8)
    requires
        ra < 2,
        z < 8,
        rcode < 16,
    ensures
        (flags_lo(ra, z, rcode) >> 7u8) == ra,
        (flags_lo(ra, z, rcode) >> 4u8) & 0x7u8 == z,
        flags_lo(ra, z, rcode) & 0xfu8 == rcode,
{
    assert(((ra << 7u8) | (z << 4u8) | rcode) >> 7u8 == ra && (((ra << 7u8) | (z << 4u8) | rcode)
        >> 4u8) & 0x7u8 == z && ((ra << 7u8) | (z << 4u8) | rcode) & 0xfu8 == rcode)
        by (bit_vector)
        requires
            ra < 2,
            z < 8,
            rcode < 16,
    ;
}

proof fn lemma_flags_split(b: u8)
    ensures
        flags_hi(b >> 7u8, (b >> 3u8) & 0xfu8, (b >> 2u8) & 1u8, (b >> 1u8) & 1u8, b & 1u8) == b,
        flags_lo(b >> 7u8, (b >> 4u8) & 0x7u8, b & 0xfu8) == b,
        b >> 7u8 < 2,
{
    assert(((b >> 7u8) << 7u8) | (((b >> 3u8) & 0xfu8) << 3u8) | (((b >> 2u8) & 1u8) << 2u8) | (((
    b >> 1u8) & 1u8) << 1u8) | (b & 1u8) == b) by (bit_vector);
    assert(((b >> 7u8) << 7u8) | (((b >> 4u8) & 0x7u8) << 4u8) | (b & 0xfu8) == b) by (bit_vector);
    assert(b >> 7u8 < 2) by (bit_vector);
}

/// Decoding the bytes of a well-formed header gives the header back.
pub proof fn lemma_header_decode_encode(h: Header)
    requires
        h.wf(),
    ensures
        h.spec_bytes().len() == 12,
        Header::spec_from_bytes(h.spec_bytes()) == h,
{
    let b = h.spec_bytes();
    lemma_flags_hi_round_trip(bit(h.qr), h.opcode, bit(h.aa), bit(h.tc), bit(h.rd));
    lemma_flags_lo_round_trip(bit(h.ra), h.z, h.rcode);
    lemma_be16_round_trip(h.id);
    lemma_be16_round_trip(h.qdcount);
    lemma_be16_round_trip(h.ancount);
    lemma_be16_round_trip(h.nscount);
    lemma_be16_round_trip(h.arcount);
    assert(b[0] == be16(h.id)[0] && b[1] == be16(h.id)[1]);
    assert(b[4] == be16(h.qdcount)[0] && b[5] == be16(h.qdcount)[1]);
    assert(b[6] == be16(h.ancount)[0] && b[7] == be16(h.ancount)[1]);
    assert(b[8] == be16(h.nscount)[0] && b[9] == be16(h.nscount)[1]);
    assert(b[10] == be16(h.arcount)[0] && b[11] == be16(h.arcount)[1]);
}

/// Encoding the header read from 12 bytes gives those bytes back, bit for bit,
/// and the header read is well formed.
pub proof fn lemma_header_encode_decode(b: Seq<u8>)
    requires
        b.len() == 12,
    ensures
        Header::spec_from_bytes(b).wf(),
        Header::spec_from_bytes(b).spec_bytes() == b,
{
    let h = Header::spec_from_bytes(b);
    lemma_flags_split(b[2]);
    lemma_flags_split(b[3]);
    let x = b[2];
    let y = b[3];
    assert((x >> 3u8) & 0xfu8 < 16 && (y >> 4u8) & 0x7u8 < 8 && y & 0xfu8 < 16) by (bit_vector);
    assert(((x >> 2u8) & 1u8) < 2 && ((x >> 1u8) & 1u8) < 2 && (x & 1u8) < 2) by (bit_vector);
    assert(bit(h.qr) == x >> 7u8);
    assert(bit(h.aa) == (x >> 2u8) & 1u8);
    assert(bit(h.tc) == (x >> 1u8) & 1u8);
    assert(bit(h.rd) == x & 1u8);
    assert(bit(h.ra) == y >> 7u8);
    lemma_from_be16_round_trip(b[0], b[1]);
    lemma_from_be16_round_trip(b[4], b[5]);
    lemma_from_be16_round_trip(b[6], b[7]);
    lemma_from_be16_round_trip(b[8], b[9]);
    lemma_from_be16_round_trip(b[10], b[11]);
    assert(h.spec_bytes() =~= b);
}

} // verus!

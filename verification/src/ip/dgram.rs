//! The IPv4 datagram header: twenty bytes, then the payload.

use vstd::prelude::*;
use crate::buffer::{be16, be32, from_be16, Buffer};
use crate::ip::Addr;
use crate::protocol::ProtocolType;
use crate::util::NetError;

verus! {

pub const HEADER_MIN_SIZE: usize = 20;

pub const HEADER_MAX_SIZE: usize = 60;

pub const PAYLOAD_MAX_SIZE: usize = 65515;

/// The length of the header the stack emits (IHL = 5).
pub const HEADER_LEN: u8 = 20;

/// A parsed IPv4 datagram.
pub struct Dgram {
    pub version_header_length: u8,
    pub type_of_service: u8,
    pub len: u16,
    pub id: u16,
    pub offset: u16,
    pub time_to_live: u8,
    pub protocol: ProtocolType,
    pub checksum: u16,
    pub src: Addr,
    pub dst: Addr,
    pub payload: Buffer,
}

/// The twenty header bytes followed by the payload.
pub open spec fn spec_build_dgram(
    vhl: u8,
    tos: u8,
    len: u16,
    id: u16,
    offset: u16,
    ttl: u8,
    protocol: u8,
    checksum: u16,
    src: Seq<u8>,
    dst: Seq<u8>,
    payload: Seq<u8>,
) -> Seq<u8> {
    seq![vhl, tos] + be16(len) + be16(id) + be16(offset) + seq![ttl, protocol] + be16(checksum)
        + src + dst + payload
}

impl Dgram {
    /// The serialized datagram.
    pub open spec fn spec_bytes(&self) -> Seq<u8> {
        spec_build_dgram(
            self.version_header_length,
            self.type_of_service,
            self.len,
            self.id,
            self.offset,
            self.time_to_live,
            self.protocol.spec_to_u8(),
            self.checksum,
            self.src@,
            self.dst@,
            self.payload@,
        )
    }

    /// Parse a datagram header; whatever follows the fixed header is kept
    /// as the payload.
    pub fn from_buffer(buf: Buffer) -> (r: Result<Dgram, NetError>)
        ensures
            buf@.len() >= 20 && ProtocolType::spec_from_u8(buf@[9]) is Some ==> (r matches Ok(d)
                && d.version_header_length == buf@[0] && d.type_of_service == buf@[1]
                && d.len == from_be16(buf@[2], buf@[3]) && d.id == from_be16(buf@[4], buf@[5])
                && d.offset == from_be16(buf@[6], buf@[7]) && d.time_to_live == buf@[8]
                && Some(d.protocol) == ProtocolType::spec_from_u8(buf@[9])
                && d.checksum == from_be16(buf@[10], buf@[11]) && d.src@ == buf@.subrange(12, 16)
                && d.dst@ == buf@.subrange(16, 20) && d.payload@ == buf@.skip(20)),
            buf@.len() < 20 ==> r == Err::<Dgram, NetError>(NetError::Parse),
            buf@.len() >= 20 && ProtocolType::spec_from_u8(buf@[9]) is None ==> r
                == Err::<Dgram, NetError>(NetError::BadProtocol(buf@[9])),
    {
        let ghost orig = buf@;
        let mut buf = buf;
        if buf.0.len() < 20 {
            return Err(NetError::Parse);
        }
        let version_header_length = match buf.pop_u8("vhl") {
            Ok(v) => v,
            Err(e) => { return Err(e); },
        };
        let type_of_service = match buf.pop_u8("tos") {
            Ok(v) => v,
            Err(e) => { return Err(e); },
        };
        let len = match buf.pop_u16("length") {
            Ok(v) => v,
            Err(e) => { return Err(e); },
        };
        let id = match buf.pop_u16("id") {
            Ok(v) => v,
            Err(e) => { return Err(e); },
        };
        let offset = match buf.pop_u16("flags and fragment offset") {
            Ok(v) => v,
            Err(e) => { return Err(e); },
        };
        let time_to_live = match buf.pop_u8("ttl") {
            Ok(v) => v,
            Err(e) => { return Err(e); },
        };
        let protocol_num = match buf.pop_u8("protocol") {
            Ok(v) => v,
            Err(e) => { return Err(e); },
        };
        let protocol = match ProtocolType::from_u8(protocol_num) {
            Some(p) => p,
            None => { return Err(NetError::BadProtocol(protocol_num)); },
        };
        let checksum = match buf.pop_u16("checksum") {
            Ok(v) => v,
            Err(e) => { return Err(e); },
        };
        let src = match buf.pop_ip_addr("src") {
            Ok(v) => v,
            Err(e) => { return Err(e); },
        };
        let dst = match buf.pop_ip_addr("dst") {
            Ok(v) => v,
            Err(e) => { return Err(e); },
        };
        proof {
            assert(src@ =~= orig.subrange(12, 16));
            assert(dst@ =~= orig.subrange(16, 20));
            assert(buf@ =~= orig.skip(20));
        }
        Ok(
            Dgram {
                version_header_length,
                type_of_service,
                len,
                id,
                offset,
                time_to_live,
                protocol,
                checksum,
                src,
                dst,
                payload: buf,
            },
        )
    }

    /// Serialize: the twenty header bytes, then the payload.
    pub fn to_buffer(self) -> (r: Buffer)
        ensures
            r@ == self.spec_bytes(),
    {
        let mut buf = Buffer::new(HEADER_MAX_SIZE);
        buf.push_u8(self.version_header_length);
        buf.push_u8(self.type_of_service);
        buf.push_u16(self.len);
        buf.push_u16(self.id);
        buf.push_u16(self.offset);
        buf.push_u8(self.time_to_live);
        buf.push_u8(self.protocol.to_u8());
        buf.push_u16(self.checksum);
        buf.push_ip_addr(self.src);
        buf.push_ip_addr(self.dst);
        buf.append(self.payload);
        proof {
            assert(buf@ =~= self.spec_bytes());
        }
        buf
    }

    /// The exact bytes the stack emits for one datagram: version 4,
    /// five header words, zero TOS, full TTL, and the header checksum
    /// written into its slot.
    pub open spec fn spec_checksummed(
        protocol: u8,
        seg: Seq<u8>,
        src: Seq<u8>,
        dst: Seq<u8>,
        id: u16,
        offset: u16,
    ) -> Seq<u8> {
        let b0 = spec_build_dgram(
            0x45,
            0,
            (20 + seg.len()) as u16,
            id,
            offset,
            0xff,
            protocol,
            0,
            src,
            dst,
            seg,
        );
        let c = crate::util::checksum_of(b0.take(20), 0);
        b0.update(10, (c / 256) as u8).update(11, (c % 256) as u8)
    }

    /// The one's-complement sum of the emitted twenty-byte header is
    /// all-ones: the receiver's checksum verification accepts it.
    pub proof fn lemma_header_checksum(
        protocol: u8,
        seg: Seq<u8>,
        src: Seq<u8>,
        dst: Seq<u8>,
        id: u16,
        offset: u16,
    )
        requires
            src.len() == 4,
            dst.len() == 4,
        ensures
            crate::util::fold16(
                crate::util::sum_words(
                    Dgram::spec_checksummed(protocol, seg, src, dst, id, offset).take(20),
                ),
            ) == 0xFFFF,
    {
        let b0 = spec_build_dgram(
            0x45,
            0,
            (20 + seg.len()) as u16,
            id,
            offset,
            0xff,
            protocol,
            0,
            src,
            dst,
            seg,
        );
        let h = b0.take(20);
        assert(h.len() == 20);
        assert(h[10] == 0 && h[11] == 0);
        let c = crate::util::checksum_of(h, 0);
        crate::util::lemma_checksum_insert(h, 5, 0);
        let db = Dgram::spec_checksummed(protocol, seg, src, dst, id, offset);
        assert(db.take(20) =~= h.update(10, (c / 256) as u8).update(11, (c % 256) as u8));
    }

    /// Write a freshly computed header checksum into serialized bytes.
    pub fn write_checksum(buf: &mut Buffer, sum: u16)
        requires
            old(buf)@.len() >= 20,
        ensures
            final(buf)@ == old(buf)@.update(10, be16(sum)[0]).update(11, be16(sum)[1]),
    {
        buf.write_u16(10, sum);
    }
}

} // verus!

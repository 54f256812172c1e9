//! The UDP packet: two ports, a length, a checksum, and the payload.

use vstd::prelude::*;
use crate::buffer::{be16, from_be16, Buffer};
use crate::util::NetError;

verus! {

pub const HEADER_LEN: usize = 8;

/// A UDP packet. The length field always holds header plus payload.
pub struct Packet {
    pub src_port: u16,
    pub dst_port: u16,
    pub sum: u16,
    pub payload: Buffer,
}

/// The packet's bytes: ports, length, checksum, payload.
pub open spec fn spec_build_udp(src_port: u16, dst_port: u16, len: u16, sum: u16, payload: Seq<
    u8,
>) -> Seq<u8> {
    be16(src_port) + be16(dst_port) + be16(len) + be16(sum) + payload
}

impl Packet {
    /// Parse a packet, rejecting a length field that does not match the
    /// buffer.
    pub fn from_buffer(buf: Buffer) -> (r: Result<Packet, NetError>)
        ensures
            buf@.len() >= 8 && from_be16(buf@[4], buf@[5]) == buf@.len() ==> (r matches Ok(p)
                && p.src_port == from_be16(buf@[0], buf@[1]) && p.dst_port == from_be16(
                buf@[2],
                buf@[3],
            ) && p.sum == from_be16(buf@[6], buf@[7]) && p.payload@ == buf@.skip(8)),
            buf@.len() < 8 ==> r == Err::<Packet, NetError>(NetError::Parse),
            buf@.len() >= 8 && from_be16(buf@[4], buf@[5]) != buf@.len() ==> r == Err::<
                Packet,
                NetError,
            >(NetError::Parse),
    {
        let ghost orig = buf@;
        let mut buf = buf;
        if buf.0.len() < 8 {
            return Err(NetError::Parse);
        }
        let src_port = match buf.pop_u16("src port") {
            Ok(v) => v,
            Err(e) => { return Err(e); },
        };
        let dst_port = match buf.pop_u16("dst port") {
            Ok(v) => v,
            Err(e) => { return Err(e); },
        };
        let len = match buf.pop_u16("len") {
            Ok(v) => v,
            Err(e) => { return Err(e); },
        };
        let sum = match buf.pop_u16("sum") {
            Ok(v) => v,
            Err(e) => { return Err(e); },
        };
        if len as usize != HEADER_LEN + buf.0.len() {
            return Err(NetError::Parse);
        }
        proof {
            assert(buf@ =~= orig.skip(8));
        }
        Ok(Packet { src_port, dst_port, sum, payload: buf })
    }

    /// Serialize; the length field is computed from the payload.
    pub fn to_buffer(self) -> (r: Buffer)
        requires
            self.payload@.len() + 8 <= 0xFFFF,
        ensures
            r@ == spec_build_udp(
                self.src_port,
                self.dst_port,
                (self.payload@.len() + 8) as u16,
                self.sum,
                self.payload@,
            ),
    {
        let mut buf = Buffer::empty();
        buf.push_u16(self.src_port);
        buf.push_u16(self.dst_port);
        buf.push_u16((HEADER_LEN + self.payload.0.len()) as u16);
        buf.push_u16(self.sum);
        buf.append(self.payload);
        proof {
            assert(buf@ =~= spec_build_udp(
                self.src_port,
                self.dst_port,
                (self.payload@.len() + 8) as u16,
                self.sum,
                self.payload@,
            ));
        }
        buf
    }

    /// Write a freshly computed checksum into serialized packet bytes.
    pub fn write_checksum(buf: &mut Buffer, sum: u16)
        requires
            old(buf)@.len() >= 8,
        ensures
            final(buf)@ == old(buf)@.update(6, be16(sum)[0]).update(7, be16(sum)[1]),
    {
        buf.write_u16(6, sum);
    }
}

} // verus!

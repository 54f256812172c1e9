//! Ethernet II framing: hardware addresses, the two ethertypes the stack
//! speaks, and the 14-byte header put before every outbound payload.

use vstd::prelude::*;
use crate::buffer::{be16, from_be16, Buffer};
use crate::stack::{pushed_frame, NetStack, TxFrame};
use crate::util::NetError;

verus! {

pub const ADDR_LEN: usize = 6;

pub const HDR_SIZE: usize = 14;

pub const FRAME_SIZE_MAX: usize = 1518;

/// Largest Ethernet payload: a whole IPv4 datagram must fit in this.
pub const PAYLOAD_SIZE_MAX: usize = 1500;

/// A 48-bit hardware address.
#[derive(Debug, Clone, Copy)]
pub struct MacAddr(pub [u8; 6]);

impl View for MacAddr {
    type V = Seq<u8>;

    open spec fn view(&self) -> Seq<u8> {
        self.0@
    }
}

impl PartialEq for MacAddr {
    fn eq(&self, o: &MacAddr) -> (r: bool) {
        let r = self.0[0] == o.0[0] && self.0[1] == o.0[1] && self.0[2] == o.0[2] && self.0[3]
            == o.0[3] && self.0[4] == o.0[4] && self.0[5] == o.0[5];
        proof {
            if r {
                assert(self@ =~= o@);
            }
        }
        r
    }
}

impl vstd::std_specs::cmp::PartialEqSpecImpl for MacAddr {
    open spec fn obeys_eq_spec() -> bool {
        true
    }

    open spec fn eq_spec(&self, o: &MacAddr) -> bool {
        self@ == o@
    }
}

/// The all-zero address: unknown, or "adopt the link's own".
pub open spec fn spec_mac_any() -> Seq<u8> {
    seq![0u8, 0u8, 0u8, 0u8, 0u8, 0u8]
}

/// The all-ones broadcast address.
pub open spec fn spec_mac_broadcast() -> Seq<u8> {
    seq![0xffu8, 0xffu8, 0xffu8, 0xffu8, 0xffu8, 0xffu8]
}

impl MacAddr {
    /// The all-zero address.
    pub fn empty() -> (r: MacAddr)
        ensures
            r@ == spec_mac_any(),
    {
        let r = MacAddr([0; 6]);
        proof {
            assert(r@ =~= spec_mac_any());
        }
        r
    }

    /// The all-ones broadcast address.
    pub fn broadcast() -> (r: MacAddr)
        ensures
            r@ == spec_mac_broadcast(),
    {
        let r = MacAddr([0xff; 6]);
        proof {
            assert(r@ =~= spec_mac_broadcast());
        }
        r
    }
}

/// The ethertypes the stack demultiplexes.
#[derive(Debug, Clone, Copy, PartialEq, Eq, Structural)]
pub enum Type {
    Arp,
    Ip,
}

impl Type {
    pub open spec fn spec_to_u16(self) -> u16 {
        match self {
            Type::Arp => 0x0806,
            Type::Ip => 0x0800,
        }
    }

    pub fn to_u16(self) -> (r: u16)
        ensures
            r == self.spec_to_u16(),
    {
        match self {
            Type::Arp => 0x0806,
            Type::Ip => 0x0800,
        }
    }

    pub fn from_u16(n: u16) -> (r: Option<Type>)
        ensures
            n == 0x0806 ==> r == Some(Type::Arp),
            n == 0x0800 ==> r == Some(Type::Ip),
            n != 0x0806 && n != 0x0800 ==> r is None,
    {
        if n == 0x0806 {
            Some(Type::Arp)
        } else if n == 0x0800 {
            Some(Type::Ip)
        } else {
            None
        }
    }
}

/// An Ethernet frame: destination, source, ethertype, payload.
pub struct Frame {
    pub dst_addr: MacAddr,
    pub src_addr: MacAddr,
    pub type_: Type,
    pub payload: Buffer,
}

/// The bytes of an Ethernet frame.
pub open spec fn spec_build_frame(dst: Seq<u8>, src: Seq<u8>, ty: u16, payload: Seq<u8>) -> Seq<
    u8,
> {
    dst + src + be16(ty) + payload
}

/// What parsing an Ethernet frame yields: destination and source
/// addresses, the ethertype word, and the payload, or nothing when the
/// frame is short or carries an ethertype the stack does not speak.
pub open spec fn spec_parse_frame(b: Seq<u8>) -> Option<(Seq<u8>, Seq<u8>, u16, Seq<u8>)> {
    if b.len() < 14 {
        None
    } else {
        let ty = from_be16(b[12], b[13]);
        if ty == 0x0806 || ty == 0x0800 {
            Some((b.subrange(0, 6), b.subrange(6, 12), ty, b.skip(14)))
        } else {
            None
        }
    }
}

/// Parsing inverts building, for both ethertypes the stack speaks.
pub proof fn lemma_frame_roundtrip(dst: Seq<u8>, src: Seq<u8>, ty: u16, payload: Seq<u8>)
    requires
        dst.len() == 6,
        src.len() == 6,
        ty == 0x0806 || ty == 0x0800,
    ensures
        spec_parse_frame(spec_build_frame(dst, src, ty, payload)) == Some(
            (dst, src, ty, payload),
        ),
{
    let b = spec_build_frame(dst, src, ty, payload);
    assert(b[12] == be16(ty)[0] && b[13] == be16(ty)[1]);
    assert(b.subrange(0, 6) =~= dst);
    assert(b.subrange(6, 12) =~= src);
    assert(b.skip(14) =~= payload);
}

impl Frame {
    /// Parse a frame; the remainder of the buffer is the payload.
    pub fn from_buffer(buf: Buffer) -> (r: Result<Frame, NetError>)
        ensures
            match spec_parse_frame(buf@) {
                Some((dst, src, ty, payload)) => r matches Ok(f) && f.dst_addr@ == dst
                    && f.src_addr@ == src && f.type_.spec_to_u16() == ty && f.payload@ == payload,
                None => r is Err,
            },
    {
        let mut buf = buf;
        let dst_addr = match buf.pop_mac_addr("dst addr") {
            Ok(a) => a,
            Err(e) => { return Err(e); },
        };
        let src_addr = match buf.pop_mac_addr("src addr") {
            Ok(a) => a,
            Err(e) => { return Err(e); },
        };
        let n = match buf.pop_u16("type") {
            Ok(n) => n,
            Err(e) => { return Err(e); },
        };
        let type_ = match Type::from_u16(n) {
            Some(t) => t,
            None => { return Err(NetError::Parse); },
        };
        Ok(Frame { dst_addr, src_addr, type_, payload: buf })
    }

    /// Serialize: 14-byte header, then the payload.
    pub fn to_buffer(self) -> (r: Buffer)
        ensures
            r@ == spec_build_frame(
                self.dst_addr@,
                self.src_addr@,
                self.type_.spec_to_u16(),
                self.payload@,
            ),
    {
        let mut buf = Buffer::new(FRAME_SIZE_MAX);
        buf.push_mac_addr(self.dst_addr);
        buf.push_mac_addr(self.src_addr);
        buf.push_u16(self.type_.to_u16());
        buf.append(self.payload);
        buf
    }
}

/// Encapsulate `payload` for device `dev` and queue it for the link:
/// the 14-byte header carries `dst_addr`, the device's own address, and
/// the ethertype.
pub fn tx(stack: &NetStack, dev: usize, type_: Type, payload: Buffer, dst_addr: MacAddr, out:
    &mut Vec<TxFrame>)
    requires
        dev < stack.devices@.len(),
    ensures
        pushed_frame(
            old(out)@,
            final(out)@,
            dev as int,
            spec_build_frame(
                dst_addr@,
                stack.devices@[dev as int].addr@,
                type_.spec_to_u16(),
                payload@,
            ),
        ),
{
    let src_addr = stack.devices[dev].addr;
    let frame = Frame { dst_addr, src_addr, type_, payload };
    let buf = frame.to_buffer();
    out.push(TxFrame { dev, frame: buf });
}

/// What receiving a frame does: the 14-byte header decides whether ARP
/// or IPv4 takes the payload; any other ethertype is refused.
pub open spec fn eth_rx_post(
    pre: NetStack,
    post: NetStack,
    out0: Seq<TxFrame>,
    out1: Seq<TxFrame>,
    buf: Seq<u8>,
    dev: int,
    now: u64,
    r: Result<(), NetError>,
) -> bool {
    &&& (spec_parse_frame(buf) is None ==> r is Err && post == pre && out1 == out0)
    &&& (spec_parse_frame(buf) is Some && spec_parse_frame(buf).unwrap().2 == 0x0806
        ==> crate::arp::arp_rx_post(pre, post, out0, out1, buf.skip(14), dev, now, r))
    &&& (spec_parse_frame(buf) is Some && spec_parse_frame(buf).unwrap().2 == 0x0800
        ==> crate::ip::ip_rx_post(pre, post, out0, out1, buf.skip(14), dev, now, r))
}

/// Receive one frame from device `dev`'s link and dispatch its payload.
pub fn rx(stack: &mut NetStack, buffer: Buffer, dev: usize, now: u64, out: &mut Vec<TxFrame>) -> (r:
    Result<(), NetError>)
    requires
        old(stack).wf(),
        dev < old(stack).devices@.len(),
    ensures
        final(stack).wf(),
        eth_rx_post(
            *old(stack),
            *final(stack),
            old(out)@,
            final(out)@,
            buffer@,
            dev as int,
            now,
            r,
        ),
{
    let frame = match Frame::from_buffer(buffer) {
        Ok(f) => f,
        Err(e) => { return Err(e); },
    };
    match frame.type_ {
        Type::Arp => crate::arp::rx(stack, frame.payload, dev, now, out),
        Type::Ip => crate::ip::rx(stack, frame.payload, dev, now, out),
    }
}

} // verus!

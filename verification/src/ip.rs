//! IPv4: addresses, the datagram format, input with reassembly and
//! forwarding, and output with route selection and fragmentation.

use vstd::prelude::*;
use crate::buffer::Buffer;
use crate::icmp;
use crate::ip::dgram::Dgram;
use crate::ip::fragment::{
    frag_reassembled, is_fragment_field, proc_result, process_frag_post,
};
use crate::ip::interface::{ip_tx_post, tx_device_post};
use crate::ip::interface as ipiface;
use crate::ip::route::spec_lookup_route;
use crate::protocol::ProtocolType;
use crate::stack::{NetStack, TxFrame};
use crate::udp;
use crate::util::NetError;

pub mod dgram;
pub mod fragment;
pub mod interface;
pub mod route;

verus! {

pub const VERSION: u8 = 4;

pub const ADDR_LEN: usize = 4;

/// An IPv4 address, four octets.
#[derive(Debug, Clone, Copy)]
pub struct Addr(pub [u8; 4]);

impl View for Addr {
    type V = Seq<u8>;

    open spec fn view(&self) -> Seq<u8> {
        self.0@
    }
}

impl PartialEq for Addr {
    fn eq(&self, o: &Addr) -> (r: bool) {
        let r = self.0[0] == o.0[0] && self.0[1] == o.0[1] && self.0[2] == o.0[2] && self.0[3]
            == o.0[3];
        proof {
            if r {
                assert(self@ =~= o@);
            }
        }
        r
    }
}

impl vstd::std_specs::cmp::PartialEqSpecImpl for Addr {
    open spec fn obeys_eq_spec() -> bool {
        true
    }

    open spec fn eq_spec(&self, o: &Addr) -> bool {
        self@ == o@
    }
}

/// The unspecified address, 0.0.0.0.
pub open spec fn spec_addr_any() -> Seq<u8> {
    seq![0u8, 0u8, 0u8, 0u8]
}

/// The limited-broadcast address, 255.255.255.255.
pub open spec fn spec_addr_broadcast() -> Seq<u8> {
    seq![0xffu8, 0xffu8, 0xffu8, 0xffu8]
}

/// The octet-wise AND of an address and a netmask.
pub open spec fn spec_mask(a: Seq<u8>, m: Seq<u8>) -> Seq<u8> {
    seq![(a[0] & m[0]) as u8, (a[1] & m[1]) as u8, (a[2] & m[2]) as u8, (a[3] & m[3]) as u8]
}

/// A netmask as one number, so that "longer prefix" is "larger value".
pub open spec fn spec_addr_value(a: Seq<u8>) -> int {
    a[0] * 0x1000000 + a[1] * 0x10000 + a[2] * 256 + a[3]
}

impl Addr {
    /// 0.0.0.0.
    pub fn empty() -> (r: Addr)
        ensures
            r@ == spec_addr_any(),
    {
        let r = Addr([0; 4]);
        proof {
            assert(r@ =~= spec_addr_any());
        }
        r
    }

    /// 255.255.255.255.
    pub fn full() -> (r: Addr)
        ensures
            r@ == spec_addr_broadcast(),
    {
        let r = Addr([0xff; 4]);
        proof {
            assert(r@ =~= spec_addr_broadcast());
        }
        r
    }

    /// Keep the network part of the address under the given mask.
    pub fn apply_mask(&self, mask: &Addr) -> (r: Addr)
        ensures
            r@ == spec_mask(self@, mask@),
    {
        let r = Addr(
            [
                self.0[0] & mask.0[0],
                self.0[1] & mask.0[1],
                self.0[2] & mask.0[2],
                self.0[3] & mask.0[3],
            ],
        );
        proof {
            assert(r@ =~= spec_mask(self@, mask@));
        }
        r
    }

    /// The octet-wise OR of two addresses.
    pub fn bitor(self, rhs: Addr) -> (r: Addr)
        ensures
            r@ =~= seq![
                (self@[0] | rhs@[0]) as u8,
                (self@[1] | rhs@[1]) as u8,
                (self@[2] | rhs@[2]) as u8,
                (self@[3] | rhs@[3]) as u8,
            ],
    {
        Addr([self.0[0] | rhs.0[0], self.0[1] | rhs.0[1], self.0[2] | rhs.0[2], self.0[3] | rhs.0[3]])
    }

    /// The octet-wise complement of an address.
    pub fn invert(self) -> (r: Addr)
        ensures
            r@ =~= seq![!self@[0], !self@[1], !self@[2], !self@[3]],
    {
        Addr([!self.0[0], !self.0[1], !self.0[2], !self.0[3]])
    }

    /// The mask's numeric value, for comparing prefix lengths.
    pub fn value(&self) -> (r: u32)
        ensures
            r as int == spec_addr_value(self@),
    {
        (self.0[0] as u32) * 0x1000000 + (self.0[1] as u32) * 0x10000 + (self.0[2] as u32) * 256
            + (self.0[3] as u32)
    }
}

/// What handing a payload to its upper-layer protocol does.
pub open spec fn deliver_post(
    pre: NetStack,
    post: NetStack,
    out0: Seq<TxFrame>,
    out1: Seq<TxFrame>,
    payload: Seq<u8>,
    src: Addr,
    proto: ProtocolType,
    dev: int,
    now: u64,
    r: Result<(), NetError>,
) -> bool {
    &&& (proto == ProtocolType::Icmp ==> icmp::icmp_rx_post(
        pre,
        post,
        out0,
        out1,
        payload,
        src,
        dev,
        now,
        r,
    ))
    &&& (proto == ProtocolType::Udp ==> udp::udp_rx_post(pre, post, payload, src, dev, r) && out1
        == out0)
    &&& (proto == ProtocolType::Tcp ==> r == Err::<(), NetError>(NetError::BadProtocol(0x06))
        && post == pre && out1 == out0)
    &&& (proto == ProtocolType::Raw ==> r == Err::<(), NetError>(NetError::BadProtocol(0xff))
        && post == pre && out1 == out0)
}

/// Hand a (possibly reassembled) payload to the protocol it names:
/// ICMP and UDP are served; other protocols are refused.
pub fn deliver(
    stack: &mut NetStack,
    payload: Buffer,
    src: Addr,
    dst: Addr,
    protocol: ProtocolType,
    dev: usize,
    now: u64,
    out: &mut Vec<TxFrame>,
) -> (r: Result<(), NetError>)
    requires
        old(stack).wf(),
        old(stack).dev_has_interface(dev as int),
        payload@.len() <= 65515,
    ensures
        final(stack).wf(),
        deliver_post(
            *old(stack),
            *final(stack),
            old(out)@,
            final(out)@,
            payload@,
            src,
            protocol,
            dev as int,
            now,
            r,
        ),
{
    match protocol {
        ProtocolType::Icmp => icmp::rx(stack, payload, &src, &dst, dev, now, out),
        ProtocolType::Udp => udp::rx(stack, payload, &src, &dst, dev),
        ProtocolType::Tcp => Err(NetError::BadProtocol(0x06)),
        ProtocolType::Raw => Err(NetError::BadProtocol(0xff)),
    }
}

/// The state `rx_local` leaves the fragment table in, seen on its own.
pub open spec fn rx_local_mid(pre: NetStack, post: NetStack) -> NetStack {
    NetStack { fragments: post.fragments, frag_timestamp: post.frag_timestamp, ..pre }
}

/// What accepting a datagram addressed to this host does: a whole
/// datagram goes straight up; a fragment goes through reassembly, and
/// only a completed datagram goes up. A payload too large for any
/// single send is dropped.
pub open spec fn rx_local_post(
    pre: NetStack,
    post: NetStack,
    out0: Seq<TxFrame>,
    out1: Seq<TxFrame>,
    d: Dgram,
    dev: int,
    now: u64,
    r: Result<(), NetError>,
) -> bool {
    &&& (!is_fragment_field(d.offset) && d.payload@.len() > 65515 ==> r == Err::<(), NetError>(
        NetError::Parse,
    ) && post == pre && out1 == out0)
    &&& (!is_fragment_field(d.offset) && d.payload@.len() <= 65515 ==> deliver_post(
        pre,
        post,
        out0,
        out1,
        d.payload@,
        d.src,
        d.protocol,
        dev,
        now,
        r,
    ))
    &&& (is_fragment_field(d.offset) ==> process_frag_post(
        pre,
        rx_local_mid(pre, post),
        d.offset,
        d.payload@,
        d.src@,
        d.dst@,
        d.id,
        d.protocol,
        now,
    ))
    &&& (is_fragment_field(d.offset) && proc_result(
        pre,
        now,
        d.offset,
        d.payload@,
        d.src@,
        d.dst@,
        d.id,
        d.protocol,
    ) is Err ==> r == Err::<(), NetError>(
        proc_result(pre, now, d.offset, d.payload@, d.src@, d.dst@, d.id, d.protocol)->Err_0,
    ) && post == rx_local_mid(pre, post) && out1 == out0)
    &&& (is_fragment_field(d.offset) && proc_result(
        pre,
        now,
        d.offset,
        d.payload@,
        d.src@,
        d.dst@,
        d.id,
        d.protocol,
    ) == Ok::<Option<Seq<u8>>, NetError>(None) ==> r is Ok && post == rx_local_mid(pre, post)
        && out1 == out0)
    &&& (is_fragment_field(d.offset) && proc_result(
        pre,
        now,
        d.offset,
        d.payload@,
        d.src@,
        d.dst@,
        d.id,
        d.protocol,
    ) is Ok && proc_result(
        pre,
        now,
        d.offset,
        d.payload@,
        d.src@,
        d.dst@,
        d.id,
        d.protocol,
    )->Ok_0 is Some && frag_reassembled(pre, now, d.offset, d.payload@, d.src@, d.dst@, d.id, d.protocol).len() > 65515
        ==> r == Err::<(), NetError>(NetError::Parse) && post == rx_local_mid(pre, post) && out1
        == out0)
    &&& (is_fragment_field(d.offset) && proc_result(
        pre,
        now,
        d.offset,
        d.payload@,
        d.src@,
        d.dst@,
        d.id,
        d.protocol,
    ) is Ok && proc_result(
        pre,
        now,
        d.offset,
        d.payload@,
        d.src@,
        d.dst@,
        d.id,
        d.protocol,
    )->Ok_0 is Some && frag_reassembled(pre, now, d.offset, d.payload@, d.src@, d.dst@, d.id, d.protocol).len() <= 65515
        ==> deliver_post(
        rx_local_mid(pre, post),
        post,
        out0,
        out1,
        frag_reassembled(pre, now, d.offset, d.payload@, d.src@, d.dst@, d.id, d.protocol),
        d.src,
        d.protocol,
        dev,
        now,
        r,
    ))
}

/// Accept a datagram addressed to this host, reassembling fragments.
pub fn rx_local(stack: &mut NetStack, dgram: Dgram, dev: usize, now: u64, out: &mut Vec<TxFrame>)
    -> (r: Result<(), NetError>)
    requires
        old(stack).wf(),
        old(stack).dev_has_interface(dev as int),
        dgram.payload@.len() <= 65535,
    ensures
        final(stack).wf(),
        rx_local_post(
            *old(stack),
            *final(stack),
            old(out)@,
            final(out)@,
            dgram,
            dev as int,
            now,
            r,
        ),
{
    let is_frag = {
        proof {
            let ofv = dgram.offset;
            assert((ofv & 0x2000 != 0 || ofv & 0x1fff != 0) == is_fragment_field(ofv));
        }
        dgram.offset & 0x2000 != 0 || dgram.offset & 0x1fff != 0
    };
    if is_frag {
        let src = dgram.src;
        let dst = dgram.dst;
        let protocol = dgram.protocol;
        let res = fragment::process(stack, dgram, now);
        match res {
            Err(e) => Err(e),
            Ok(None) => Ok(()),
            Ok(Some(payload)) => {
                if payload.0.len() > 65515 {
                    return Err(NetError::Parse);
                }
                deliver(stack, payload, src, dst, protocol, dev, now, out)
            },
        }
    } else {
        if dgram.payload.0.len() > 65515 {
            return Err(NetError::Parse);
        }
        deliver(stack, dgram.payload, dgram.src, dgram.dst, dgram.protocol, dev, now, out)
    }
}

/// The leading bytes of an offending datagram that an ICMP error
/// carries: its header and the first eight payload octets, or the whole
/// datagram when it is shorter.
pub open spec fn spec_err_payload(d: Dgram) -> Seq<u8> {
    if d.spec_bytes().len() <= (d.version_header_length & 0x0f) * 4 + 8 {
        d.spec_bytes()
    } else {
        d.spec_bytes().take((d.version_header_length & 0x0f) * 4 + 8)
    }
}

/// Serialize the part of `d` an ICMP error message quotes.
fn err_payload(d: &Dgram) -> (r: Buffer)
    ensures
        r@ == spec_err_payload(*d),
{
    let copy = Dgram {
        version_header_length: d.version_header_length,
        type_of_service: d.type_of_service,
        len: d.len,
        id: d.id,
        offset: d.offset,
        time_to_live: d.time_to_live,
        protocol: d.protocol,
        checksum: d.checksum,
        src: d.src,
        dst: d.dst,
        payload: d.payload.duplicate(),
    };
    let mut bytes = copy.to_buffer();
    let cut = crate::icmp::length(d);
    if cut < bytes.0.len() {
        let head = match bytes.pop_buffer(cut, "icmp error payload") {
            Ok(h) => h,
            Err(_) => { return Buffer::empty() },
        };
        proof {
            assert(head@ =~= spec_err_payload(*d));
        }
        head
    } else {
        proof {
            assert(bytes@ =~= spec_err_payload(*d));
        }
        bytes
    }
}

/// The forwarded bytes of a datagram without options: TTL one lower,
/// header checksum freshly computed.
pub open spec fn spec_forwarded(d: Dgram) -> Seq<u8> {
    dgram::spec_build_dgram(
        d.version_header_length,
        d.type_of_service,
        d.len,
        d.id,
        d.offset,
        (d.time_to_live - 1) as u8,
        d.protocol.spec_to_u8(),
        0,
        d.src@,
        d.dst@,
        d.payload@,
    ).update(
        10,
        (crate::util::checksum_of(
            dgram::spec_build_dgram(
                d.version_header_length,
                d.type_of_service,
                d.len,
                d.id,
                d.offset,
                (d.time_to_live - 1) as u8,
                d.protocol.spec_to_u8(),
                0,
                d.src@,
                d.dst@,
                d.payload@,
            ).take(20),
            0,
        ) / 256) as u8,
    ).update(
        11,
        (crate::util::checksum_of(
            dgram::spec_build_dgram(
                d.version_header_length,
                d.type_of_service,
                d.len,
                d.id,
                d.offset,
                (d.time_to_live - 1) as u8,
                d.protocol.spec_to_u8(),
                0,
                d.src@,
                d.dst@,
                d.payload@,
            ).take(20),
            0,
        ) % 256) as u8,
    )
}

/// Turns the inner send's result into the caller-visible one: a
/// successfully reported drop keeps its own error name.
pub open spec fn fwd_icmp_r(r: Result<(), NetError>, e: NetError) -> Result<(), NetError> {
    if r == Err::<(), NetError>(e) {
        Ok(())
    } else {
        r
    }
}

/// The nexthop a forwarded datagram resolves: the route's gateway, or
/// the destination itself on a directly-connected network.
pub open spec fn fwd_nexthop(pre: NetStack, d: Dgram) -> Addr {
    match spec_lookup_route(pre.routes@, None, d.dst@).unwrap().nexthop {
        Some(g) => g,
        None => d.dst,
    }
}

/// What forwarding a datagram destined elsewhere does: a spent TTL or a
/// missing route turns into an ICMP error to the source; a destination
/// that is another of this host's own addresses is accepted locally; a
/// too-large datagram that forbids fragmentation is reported; anything
/// else leaves with its TTL decremented and its checksum recomputed,
/// towards the route's nexthop.
pub open spec fn forward_post(
    pre: NetStack,
    post: NetStack,
    out0: Seq<TxFrame>,
    out1: Seq<TxFrame>,
    d: Dgram,
    dev: int,
    now: u64,
    r: Result<(), NetError>,
) -> bool {
    &&& (d.time_to_live <= 1 ==> ip_tx_post(
        pre,
        post,
        out0,
        out1,
        dev,
        0x01,
        icmp::spec_icmp_checksummed(11, 0, 0, spec_err_payload(d)),
        d.src,
        now,
        fwd_icmp_r(r, NetError::TimeExceeded),
    ) && r != Ok::<(), NetError>(()))
    &&& (d.time_to_live > 1 && spec_lookup_route(pre.routes@, None, d.dst@) is None
        ==> ip_tx_post(
        pre,
        post,
        out0,
        out1,
        dev,
        0x01,
        icmp::spec_icmp_checksummed(3, 0, 0, spec_err_payload(d)),
        d.src,
        now,
        fwd_icmp_r(r, NetError::DestUnreach),
    ) && r != Ok::<(), NetError>(()))
    &&& (d.time_to_live > 1 && spec_lookup_route(pre.routes@, None, d.dst@) is Some
        && pre.devices@[spec_lookup_route(pre.routes@, None, d.dst@).unwrap().interface as int].interface.unwrap().unicast@
        == d.dst@ ==> rx_local_post(
        pre,
        post,
        out0,
        out1,
        d,
        spec_lookup_route(pre.routes@, None, d.dst@).unwrap().interface as int,
        now,
        r,
    ))
    &&& (d.time_to_live > 1 && spec_lookup_route(pre.routes@, None, d.dst@) is Some
        && pre.devices@[spec_lookup_route(pre.routes@, None, d.dst@).unwrap().interface as int].interface.unwrap().unicast@
        != d.dst@ && d.offset & 0x4000 != 0 && d.payload@.len() > 1500 ==> ip_tx_post(
        pre,
        post,
        out0,
        out1,
        dev,
        0x01,
        icmp::spec_icmp_checksummed(3, 4, 0, spec_err_payload(d)),
        d.src,
        now,
        fwd_icmp_r(r, NetError::FragmentNeeded),
    ) && r != Ok::<(), NetError>(()))
    &&& (d.time_to_live > 1 && spec_lookup_route(pre.routes@, None, d.dst@) is Some
        && pre.devices@[spec_lookup_route(pre.routes@, None, d.dst@).unwrap().interface as int].interface.unwrap().unicast@
        != d.dst@ && !(d.offset & 0x4000 != 0 && d.payload@.len() > 1500)
        && d.version_header_length != 0x45 ==> r == Err::<(), NetError>(NetError::Parse) && post
        == pre && out1 == out0)
    &&& (d.time_to_live > 1 && spec_lookup_route(pre.routes@, None, d.dst@) is Some
        && pre.devices@[spec_lookup_route(pre.routes@, None, d.dst@).unwrap().interface as int].interface.unwrap().unicast@
        != d.dst@ && !(d.offset & 0x4000 != 0 && d.payload@.len() > 1500)
        && d.version_header_length == 0x45 ==> r is Ok && tx_device_post(
        pre,
        post,
        out0,
        out1,
        spec_lookup_route(pre.routes@, None, d.dst@).unwrap().interface as int,
        spec_forwarded(d),
        Some(fwd_nexthop(pre, d)),
        now,
    ))
}

/// Forward a datagram destined elsewhere, per [`forward_post`].
pub fn forward_process(
    stack: &mut NetStack,
    dgram: Dgram,
    dev: usize,
    now: u64,
    out: &mut Vec<TxFrame>,
) -> (r: Result<(), NetError>)
    requires
        old(stack).wf(),
        old(stack).dev_has_interface(dev as int),
        dgram.payload@.len() <= 65535,
    ensures
        final(stack).wf(),
        forward_post(
            *old(stack),
            *final(stack),
            old(out)@,
            final(out)@,
            dgram,
            dev as int,
            now,
            r,
        ),
{
    if dgram.time_to_live <= 1 {
        let pl = err_payload(&dgram);
        let src = dgram.src;
        let res = icmp::tx(
            stack,
            dev,
            icmp::Type::TimeExceeded,
            icmp::Code::Exceeded(icmp::CodeExceeded::Ttl),
            0,
            pl,
            &src,
            now,
            out,
        );
        return match res {
            Ok(()) => Err(NetError::TimeExceeded),
            Err(e) => Err(e),
        };
    }
    let route = match route::lookup(stack, None, dgram.dst) {
        Some(route) => route,
        None => {
            let pl = err_payload(&dgram);
            let src = dgram.src;
            let res = icmp::tx(
                stack,
                dev,
                icmp::Type::DestUnreach,
                icmp::Code::Unreach(icmp::CodeUnreach::Net),
                0,
                pl,
                &src,
                now,
                out,
            );
            return match res {
                Ok(()) => Err(NetError::DestUnreach),
                Err(e) => Err(e),
            };
        },
    };
    proof {
        route::lemma_lookup_upto(stack.routes@, None, dgram.dst@, stack.routes@.len() as int);
    }
    let route_unicast = match &stack.devices[route.interface].interface {
        Some(i) => i.unicast,
        None => { return Err(NetError::NoInterface); },
    };
    if route_unicast == dgram.dst {
        return rx_local(stack, dgram, route.interface, now, out);
    }
    if dgram.offset & 0x4000 != 0 && dgram.payload.0.len() > 1500 {
        let pl = err_payload(&dgram);
        let src = dgram.src;
        let res = icmp::tx(
            stack,
            dev,
            icmp::Type::DestUnreach,
            icmp::Code::Unreach(icmp::CodeUnreach::FragmentNeeded),
            0,
            pl,
            &src,
            now,
            out,
        );
        return match res {
            Ok(()) => Err(NetError::FragmentNeeded),
            Err(e) => Err(e),
        };
    }
    if dgram.version_header_length != 0x45 {
        return Err(NetError::Parse);
    }
    let nexthop = match route.nexthop {
        Some(g) => g,
        None => dgram.dst,
    };
    let forwarded = Dgram {
        time_to_live: dgram.time_to_live - 1,
        checksum: 0,
        ..dgram
    };
    let ghost b0 = forwarded.spec_bytes();
    let bytes_vec = forwarded.to_buffer().to_vec();
    let sum = crate::util::calc_checksum(bytes_vec.as_slice(), 20, 0);
    proof {
        assert(bytes_vec@.take(20) =~= b0.take(20));
    }
    let mut data = Buffer::from_vec(bytes_vec);
    Dgram::write_checksum(&mut data, sum);
    proof {
        assert(data@ =~= spec_forwarded(dgram));
    }
    ipiface::tx_device(stack, route.interface, data, &Some(nexthop), now, out)
}

/// The directed-broadcast address of an interface: network bits, then
/// all-ones host bits.
pub open spec fn spec_iface_broadcast(i: ipiface::Interface) -> Seq<u8> {
    seq![
        ((i.unicast@[0] & i.netmask@[0]) | !i.netmask@[0]) as u8,
        ((i.unicast@[1] & i.netmask@[1]) | !i.netmask@[1]) as u8,
        ((i.unicast@[2] & i.netmask@[2]) | !i.netmask@[2]) as u8,
        ((i.unicast@[3] & i.netmask@[3]) | !i.netmask@[3]) as u8,
    ]
}

/// Whether a destination is this interface's to keep: its unicast, its
/// directed broadcast, or the limited broadcast.
pub open spec fn spec_dst_local(i: ipiface::Interface, dst: Seq<u8>) -> bool {
    dst == i.unicast@ || dst == spec_iface_broadcast(i) || dst == spec_addr_broadcast()
}

/// What receiving an IPv4 datagram does: parse, take what is ours —
/// through reassembly when fragmented — and forward the rest when
/// forwarding is on, or drop it silently when off.
pub open spec fn ip_rx_post(
    pre: NetStack,
    post: NetStack,
    out0: Seq<TxFrame>,
    out1: Seq<TxFrame>,
    buf: Seq<u8>,
    dev: int,
    now: u64,
    r: Result<(), NetError>,
) -> bool {
    &&& (buf.len() < 20 ==> r == Err::<(), NetError>(NetError::Parse) && post == pre && out1
        == out0)
    &&& (buf.len() >= 20 && ProtocolType::spec_from_u8(buf[9]) is None ==> r == Err::<
        (),
        NetError,
    >(NetError::BadProtocol(buf[9])) && post == pre && out1 == out0)
    &&& (buf.len() >= 20 && ProtocolType::spec_from_u8(buf[9]) is Some ==> ({
        &&& (pre.devices@[dev].interface is None ==> r == Err::<(), NetError>(
            NetError::NoInterface,
        ) && post == pre && out1 == out0)
        &&& (pre.devices@[dev].interface is Some && buf.len() > 65555 ==> r == Err::<
            (),
            NetError,
        >(NetError::Parse) && post == pre && out1 == out0)
        &&& (pre.devices@[dev].interface is Some && buf.len() <= 65555 && !spec_dst_local(
            pre.devices@[dev].interface.unwrap(),
            buf.subrange(16, 20),
        ) && !pre.is_forwarding ==> r is Ok && post == pre && out1 == out0)
        &&& (pre.devices@[dev].interface is Some && buf.len() <= 65555 && !spec_dst_local(
            pre.devices@[dev].interface.unwrap(),
            buf.subrange(16, 20),
        ) && pre.is_forwarding ==> (exists|d: Dgram|
            parsed_from(d, buf) && #[trigger] forward_post(
                pre,
                post,
                out0,
                out1,
                d,
                dev,
                now,
                r,
            )))
        &&& (pre.devices@[dev].interface is Some && buf.len() <= 65555 && spec_dst_local(
            pre.devices@[dev].interface.unwrap(),
            buf.subrange(16, 20),
        ) ==> (exists|d: Dgram|
            parsed_from(d, buf) && #[trigger] rx_local_post(
                pre,
                post,
                out0,
                out1,
                d,
                dev,
                now,
                r,
            )))
    }))
}

/// The datagram value that parsing `buf` yields: every field pinned to
/// its header bytes, the payload to the rest.
pub open spec fn parsed_from(d: Dgram, buf: Seq<u8>) -> bool {
    &&& d.version_header_length == buf[0]
    &&& d.type_of_service == buf[1]
    &&& d.len == crate::buffer::from_be16(buf[2], buf[3])
    &&& d.id == crate::buffer::from_be16(buf[4], buf[5])
    &&& d.offset == crate::buffer::from_be16(buf[6], buf[7])
    &&& d.time_to_live == buf[8]
    &&& Some(d.protocol) == ProtocolType::spec_from_u8(buf[9])
    &&& d.checksum == crate::buffer::from_be16(buf[10], buf[11])
    &&& d.src@ == buf.subrange(12, 16)
    &&& d.dst@ == buf.subrange(16, 20)
    &&& d.payload@ == buf.skip(20)
}

/// Receive an IPv4 datagram on device `dev`.
pub fn rx(stack: &mut NetStack, dgram: Buffer, dev: usize, now: u64, out: &mut Vec<TxFrame>) -> (r:
    Result<(), NetError>)
    requires
        old(stack).wf(),
        dev < old(stack).devices@.len(),
    ensures
        final(stack).wf(),
        ip_rx_post(
            *old(stack),
            *final(stack),
            old(out)@,
            final(out)@,
            dgram@,
            dev as int,
            now,
            r,
        ),
{
    let ghost buf = dgram@;
    let total_len = dgram.0.len();
    let d = match Dgram::from_buffer(dgram) {
        Ok(d) => d,
        Err(e) => { return Err(e); },
    };
    let iface = match &stack.devices[dev].interface {
        Some(i) => *i,
        None => { return Err(NetError::NoInterface); },
    };
    if total_len > 65555 {
        return Err(NetError::Parse);
    }
    let network = iface.unicast.apply_mask(&iface.netmask);
    let broadcast = network.bitor(iface.netmask.invert());
    proof {
        assert(broadcast@ =~= spec_iface_broadcast(iface));
    }
    let all_ones = Addr::full();
    let local = d.dst == iface.unicast || d.dst == broadcast || d.dst == all_ones;
    if !local {
        if stack.is_forwarding {
            let r = forward_process(stack, d, dev, now, out);
            return r;
        }
        return Ok(());
    }
    rx_local(stack, d, dev, now, out)
}

} // verus!

//! IPv4 interfaces: one per device, carrying the unicast address, the
//! netmask and an optional gateway, plus the routes their attachment
//! installs.

use vstd::prelude::*;
use crate::arp;
use crate::arp::table::spec_lookup;
use crate::buffer::Buffer;
use crate::ethernet::{self, spec_build_frame, spec_mac_any, MacAddr};
use crate::ip::dgram::Dgram;
use crate::ip::route::{self, spec_lookup_route, Route};
use crate::ip::{spec_addr_any, spec_addr_broadcast, spec_mask, Addr};
use crate::protocol::ProtocolType;
use crate::stack::{pushed_frame, NetStack, TxFrame};
use crate::util::NetError;

verus! {

/// The IPv4 configuration attached to a device.
#[derive(Debug, Clone, Copy)]
pub struct Interface {
    pub unicast: Addr,
    pub netmask: Addr,
    pub gateway: Option<Addr>,
}

impl Interface {
    pub fn new(unicast: Addr, netmask: Addr, gateway: Option<Addr>) -> (r: Interface)
        ensures
            r.unicast == unicast,
            r.netmask == netmask,
            r.gateway == gateway,
    {
        Interface { unicast, netmask, gateway }
    }
}

impl NetStack {
    /// Attach `interface` to device `dev` and install its routes: the
    /// directly-connected network, and a default route when a gateway is
    /// given.
    pub fn add_interface(&mut self, dev: usize, interface: Interface)
        requires
            old(self).wf(),
            dev < old(self).devices@.len(),
        ensures
            final(self).wf(),
            final(self).devices@.len() == old(self).devices@.len(),
            forall|i: int|
                0 <= i < final(self).devices@.len() && i != dev ==> final(self).devices@[i] == old(
                    self,
                ).devices@[i],
            final(self).devices@[dev as int] == (crate::stack::DeviceImpl {
                interface: Some(interface),
                ..old(self).devices@[dev as int]
            }),
            final(self).routes@.len() == old(self).routes@.len() + (if interface.gateway is Some {
                2int
            } else {
                1int
            }),
            forall|i: int|
                0 <= i < old(self).routes@.len() ==> final(self).routes@[i] == old(self).routes@[i],
            final(self).routes@[old(self).routes@.len() as int].network@ == spec_mask(
                interface.unicast@,
                interface.netmask@,
            ),
            final(self).routes@[old(self).routes@.len() as int].netmask == interface.netmask,
            final(self).routes@[old(self).routes@.len() as int].nexthop is None,
            final(self).routes@[old(self).routes@.len() as int].interface == dev,
            interface.gateway matches Some(gw) ==> final(self).routes@.last().network@ == spec_addr_any()
                && final(self).routes@.last().netmask@ == spec_addr_any() && final(self).routes@.last().nexthop
                == Some(gw) && final(self).routes@.last().interface == dev,
            *final(self) == (NetStack { devices: final(self).devices, routes: final(self).routes, ..*old(self) }),
    {
        let iface = interface;
        let dref = &mut self.devices[dev];
        dref.interface = Some(iface);
        let network = interface.unicast.apply_mask(&interface.netmask);
        route::add(
            self,
            Route { network, netmask: interface.netmask, nexthop: None, interface: dev },
        );
        if let Some(gw) = interface.gateway {
            route::add(
                self,
                Route {
                    network: Addr::empty(),
                    netmask: Addr::empty(),
                    nexthop: Some(gw),
                    interface: dev,
                },
            );
        }
    }

    /// Replace device `dev`'s interface configuration: its old routes are
    /// removed and the routes of the new configuration installed.
    pub fn reconfigure(&mut self, dev: usize, addr: Addr, netmask: Addr, gateway: Option<Addr>)
        requires
            old(self).wf(),
            dev < old(self).devices@.len(),
        ensures
            final(self).wf(),
            final(self).devices@.len() == old(self).devices@.len(),
            forall|i: int|
                0 <= i < final(self).devices@.len() && i != dev ==> final(self).devices@[i] == old(
                    self,
                ).devices@[i],
            final(self).devices@[dev as int].interface == Some(
                Interface { unicast: addr, netmask, gateway },
            ),
            forall|i: int|
                0 <= i < final(self).routes@.len() ==> (#[trigger] final(self).routes@[i]).interface != dev
                    || final(self).routes@[i].network@ == spec_mask(addr@, netmask@)
                    || final(self).routes@[i].network@ == spec_addr_any(),
    {
        route::delete(self, dev);
        self.add_interface(dev, Interface { unicast: addr, netmask, gateway });
    }
}

/// The first device whose interface owns `addr`, if any.
pub open spec fn spec_by_addr(devices: Seq<crate::stack::DeviceImpl>, addr: Seq<u8>) -> Option<
    int,
>
    decreases devices.len(),
{
    if devices.len() == 0 {
        None
    } else if devices[0].interface matches Some(i) && i.unicast@ == addr {
        Some(0)
    } else {
        match spec_by_addr(devices.skip(1), addr) {
            Some(d) => Some(d + 1),
            None => None,
        }
    }
}

pub proof fn lemma_spec_by_addr(devices: Seq<crate::stack::DeviceImpl>, addr: Seq<u8>)
    ensures
        spec_by_addr(devices, addr) matches Some(d) ==> 0 <= d < devices.len()
            && devices[d].interface is Some && devices[d].interface.unwrap().unicast@ == addr && (
        forall|e: int|
            0 <= e < d ==> !((#[trigger] devices[e].interface) matches Some(i) && i.unicast@
                == addr)),
        spec_by_addr(devices, addr) is None ==> forall|e: int|
            0 <= e < devices.len() ==> !((#[trigger] devices[e].interface) matches Some(i)
                && i.unicast@ == addr),
    decreases devices.len(),
{
    if devices.len() > 0 && !(devices[0].interface matches Some(i) && i.unicast@ == addr) {
        let rest = devices.skip(1);
        lemma_spec_by_addr(rest, addr);
        assert(forall|j: int| 1 <= j < devices.len() ==> #[trigger] devices[j] == rest[j - 1]);
        if spec_by_addr(rest, addr) is Some {
            let d = spec_by_addr(rest, addr)->Some_0;
            assert(devices[d + 1] == rest[d]);
        }
    }
}

pub proof fn lemma_spec_by_addr_converse(
    devices: Seq<crate::stack::DeviceImpl>,
    addr: Seq<u8>,
    d: int,
)
    requires
        0 <= d < devices.len(),
        devices[d].interface matches Some(i) && i.unicast@ == addr,
        forall|e: int|
            0 <= e < d ==> !((#[trigger] devices[e].interface) matches Some(i) && i.unicast@
                == addr),
    ensures
        spec_by_addr(devices, addr) == Some(d),
    decreases d,
{
    if d > 0 {
        let rest = devices.skip(1);
        assert(forall|j: int| 1 <= j < devices.len() ==> #[trigger] devices[j] == rest[j - 1]);
        lemma_spec_by_addr_converse(rest, addr, d - 1);
    }
}

/// The device, if any, whose interface owns `addr`: the first such in
/// device order.
pub fn by_addr(stack: &NetStack, addr: Addr) -> (r: Option<usize>)
    ensures
        r matches Some(d) ==> Some(d as int) == spec_by_addr(stack.devices@, addr@)
            && stack.dev_has_interface(d as int)
            && stack.devices@[d as int].interface.unwrap().unicast@ == addr@ && (forall|e: int|
            0 <= e < d ==> !((#[trigger] stack.devices@[e].interface) matches Some(i)
                && i.unicast@ == addr@)),
        r is None ==> spec_by_addr(stack.devices@, addr@) is None && (forall|e: int|
            0 <= e < stack.devices@.len() ==> !((#[trigger] stack.devices@[e].interface)
                matches Some(i) && i.unicast@ == addr@)),
{
    let n = stack.devices.len();
    let mut d: usize = 0;
    while d < n
        invariant
            n == stack.devices@.len(),
            d <= n,
            forall|e: int|
                0 <= e < d ==> !((#[trigger] stack.devices@[e].interface) matches Some(i)
                    && i.unicast@ == addr@),
        decreases n - d,
    {
        match &stack.devices[d].interface {
            Some(i) => {
                if i.unicast == addr {
                    proof {
                        lemma_spec_by_addr_converse(stack.devices@, addr@, d as int);
                    }
                    return Some(d);
                }
            },
            None => {},
        }
        d = d + 1;
    }
    proof {
        lemma_spec_by_addr(stack.devices@, addr@);
    }
    None
}

/// What handing `data` to device `dev`'s egress does: a NOARP device
/// takes the zero address; no nexthop means link broadcast; otherwise
/// ARP answers from its cache, or broadcasts a request — holding the
/// datagram when the target was new, dropping it when a resolution was
/// already in flight.
pub open spec fn tx_device_post(
    pre: NetStack,
    post: NetStack,
    out0: Seq<TxFrame>,
    out1: Seq<TxFrame>,
    dev: int,
    data: Seq<u8>,
    dst: Option<Addr>,
    now: u64,
) -> bool {
    if pre.devices@[dev].noarp {
        post == pre && pushed_frame(
            out0,
            out1,
            dev,
            spec_build_frame(spec_mac_any(), pre.devices@[dev].addr@, 0x0800, data),
        )
    } else {
        match dst {
            None => post == pre && pushed_frame(
                out0,
                out1,
                dev,
                spec_build_frame(
                    pre.devices@[dev].broadcast_addr@,
                    pre.devices@[dev].addr@,
                    0x0800,
                    data,
                ),
            ),
            Some(d) => match spec_lookup(pre.arp_entries@, d@) {
                Some(i) => {
                    if pre.arp_entries@[i].mac_addr@ != spec_mac_any() {
                        post == pre && pushed_frame(
                            out0,
                            out1,
                            dev,
                            spec_build_frame(
                                pre.arp_entries@[i].mac_addr@,
                                pre.devices@[dev].addr@,
                                0x0800,
                                data,
                            ),
                        )
                    } else {
                        post == pre && pushed_frame(
                            out0,
                            out1,
                            dev,
                            arp::spec_request_frame(pre, dev, d@),
                        )
                    }
                },
                None => {
                    &&& post.arp_entries@.len() == pre.arp_entries@.len() + 1
                    &&& (forall|j: int|
                        0 <= j < pre.arp_entries@.len() ==> post.arp_entries@[j]
                            == pre.arp_entries@[j])
                    &&& post.arp_entries@.last().ip_addr@ == d@
                    &&& post.arp_entries@.last().mac_addr@ == spec_mac_any()
                    &&& post.arp_entries@.last().data@ == data
                    &&& post.arp_entries@.last().timestamp == now
                    &&& post.arp_entries@.last().interface == dev
                    &&& pushed_frame(out0, out1, dev, arp::spec_request_frame(pre, dev, d@))
                    &&& post == (NetStack { arp_entries: post.arp_entries, ..pre })
                },
            },
        }
    }
}

/// Hand a finished datagram to device `dev`'s link-level egress,
/// resolving the nexthop when the device needs ARP.
pub fn tx_device(
    stack: &mut NetStack,
    dev: usize,
    data: Buffer,
    dst: &Option<Addr>,
    now: u64,
    out: &mut Vec<TxFrame>,
) -> (r: Result<(), NetError>)
    requires
        old(stack).wf(),
        old(stack).dev_has_interface(dev as int),
    ensures
        final(stack).wf(),
        r is Ok,
        tx_device_post(
            *old(stack),
            *final(stack),
            old(out)@,
            final(out)@,
            dev as int,
            data@,
            *dst,
            now,
        ),
{
    if stack.devices[dev].noarp {
        ethernet::tx(stack, dev, ethernet::Type::Ip, data, MacAddr::empty(), out);
        Ok(())
    } else {
        match dst {
            Some(d) => {
                match arp::resolve(stack, dev, *d, data.duplicate(), now, out) {
                    Ok(Some(addr)) => {
                        ethernet::tx(stack, dev, ethernet::Type::Ip, data, addr, out);
                        Ok(())
                    },
                    Ok(None) => Ok(()),
                    Err(e) => Err(e),
                }
            },
            None => {
                let mac = stack.devices[dev].broadcast_addr;
                ethernet::tx(stack, dev, ethernet::Type::Ip, data, mac, out);
                Ok(())
            },
        }
    }
}

/// Build one datagram for segment `buf` — header fields per the stack's
/// fixed policy, checksum written in — and hand it to the egress.
pub fn tx_core(
    stack: &mut NetStack,
    dev: usize,
    type_: ProtocolType,
    buf: Buffer,
    src: Option<Addr>,
    dst: Addr,
    nexthop: Option<Addr>,
    id: u16,
    offset: u16,
    now: u64,
    out: &mut Vec<TxFrame>,
) -> (r: Result<(), NetError>)
    requires
        old(stack).wf(),
        old(stack).dev_has_interface(dev as int),
        buf@.len() <= 65515,
    ensures
        final(stack).wf(),
        r is Ok,
        tx_device_post(
            *old(stack),
            *final(stack),
            old(out)@,
            final(out)@,
            dev as int,
            Dgram::spec_checksummed(
                type_.spec_to_u8(),
                buf@,
                (if src is Some {
                    src.unwrap()@
                } else {
                    old(stack).devices@[dev as int].interface.unwrap().unicast@
                }),
                dst@,
                id,
                offset,
            ),
            nexthop,
            now,
        ),
{
    let src_addr = match src {
        Some(s) => s,
        None => match &stack.devices[dev].interface {
            Some(i) => i.unicast,
            None => { return Err(NetError::NoInterface); },
        },
    };
    let seg_len = buf.0.len();
    let dgram = Dgram {
        version_header_length: 0x45,
        type_of_service: 0,
        len: 20 + seg_len as u16,
        id,
        offset,
        time_to_live: 0xff,
        protocol: type_,
        checksum: 0,
        src: src_addr,
        dst,
        payload: buf,
    };
    let ghost b0 = dgram.spec_bytes();
    let ghost pl = dgram.payload@;
    let buf_vec = dgram.to_buffer().to_vec();
    let sum = crate::util::calc_checksum(buf_vec.as_slice(), 20, 0);
    proof {
        assert(buf_vec@.take(20) =~= b0.take(20));
    }
    let mut data = Buffer::from_vec(buf_vec);
    Dgram::write_checksum(&mut data, sum);
    proof {
        assert(b0.skip(20) =~= pl);
        assert(data@ =~= Dgram::spec_checksummed(
            type_.spec_to_u8(),
            pl,
            src_addr@,
            dst@,
            id,
            offset,
        ));
    }
    tx_device(stack, dev, data, &nexthop, now, out)
}

/// Payload bytes per fragment.
pub const FRAG_SIZE: usize = 1480;

/// How many fragments a payload of `len` bytes becomes.
pub open spec fn spec_nchunks(len: int) -> int {
    (len + 1479) / 1480
}

/// The bytes of fragment `i` of a payload.
pub open spec fn spec_chunk(payload: Seq<u8>, i: int) -> Seq<u8> {
    if (i + 1) * 1480 <= payload.len() {
        payload.subrange(i * 1480, (i + 1) * 1480)
    } else {
        payload.subrange(i * 1480, payload.len() as int)
    }
}

/// The flags-and-offset field of fragment `i`: more-fragments unless it
/// is the last, and the byte offset in eight-octet units.
pub open spec fn spec_chunk_offset(len: int, i: int) -> u16 {
    ((if (i + 1) * 1480 < len {
        0x2000int
    } else {
        0int
    }) + i * 185) as u16
}

/// The finished datagram bytes of fragment `i`.
pub open spec fn spec_chunk_dgram(
    proto: u8,
    payload: Seq<u8>,
    src: Seq<u8>,
    dst: Seq<u8>,
    id: u16,
    i: int,
) -> Seq<u8> {
    Dgram::spec_checksummed(
        proto,
        spec_chunk(payload, i),
        src,
        dst,
        id,
        spec_chunk_offset(payload.len() as int, i),
    )
}

/// How the egress will carry datagrams for nexthop `nh` out of device
/// `dev`, judged against the current ARP cache: without ARP at all (a
/// NOARP device), by link broadcast, to a cached address, by waiting on
/// a resolution already in flight, or by starting one.
pub open spec fn spec_egress_mode(pre: NetStack, dev: int, nh: Option<Addr>) -> int {
    if pre.devices@[dev].noarp {
        0
    } else {
        match nh {
            None => 1,
            Some(d) => match spec_lookup(pre.arp_entries@, d@) {
                Some(i) => {
                    if pre.arp_entries@[i].mac_addr@ != spec_mac_any() {
                        2
                    } else {
                        3
                    }
                },
                None => 4,
            },
        }
    }
}

/// The destination hardware address the egress uses, in the modes that
/// transmit at once.
pub open spec fn spec_egress_mac(pre: NetStack, dev: int, nh: Option<Addr>) -> Seq<u8> {
    if pre.devices@[dev].noarp {
        spec_mac_any()
    } else {
        match nh {
            None => pre.devices@[dev].broadcast_addr@,
            Some(d) => match spec_lookup(pre.arp_entries@, d@) {
                Some(i) => pre.arp_entries@[i].mac_addr@,
                None => spec_mac_any(),
            },
        }
    }
}

/// `out1` extends `out0` with the first `c` fragments of `payload`,
/// each in an Ethernet frame to `mac` on device `egress`.
pub open spec fn tx_chunk_frames(
    out0: Seq<TxFrame>,
    out1: Seq<TxFrame>,
    egress: int,
    mac: Seq<u8>,
    srcmac: Seq<u8>,
    proto: u8,
    payload: Seq<u8>,
    src: Seq<u8>,
    dst: Seq<u8>,
    id: u16,
    c: int,
) -> bool {
    &&& out1.len() == out0.len() + c
    &&& (forall|i: int| 0 <= i < out0.len() ==> out1[i] == out0[i])
    &&& (forall|j: int|
        0 <= j < c ==> (#[trigger] out1[out0.len() + j]).dev == egress && out1[out0.len()
            + j].frame@ == spec_build_frame(
            mac,
            srcmac,
            0x0800,
            spec_chunk_dgram(proto, payload, src, dst, id, j),
        ))
}

/// `out1` extends `out0` with `c` copies of one ARP request frame.
pub open spec fn tx_request_frames(
    out0: Seq<TxFrame>,
    out1: Seq<TxFrame>,
    egress: int,
    req: Seq<u8>,
    c: int,
) -> bool {
    &&& out1.len() == out0.len() + c
    &&& (forall|i: int| 0 <= i < out0.len() ==> out1[i] == out0[i])
    &&& (forall|j: int|
        0 <= j < c ==> (#[trigger] out1[out0.len() + j]).dev == egress && out1[out0.len()
            + j].frame@ == req)
}

/// The cache gained one unresolved entry for `nh` on `egress`, holding
/// the bytes of fragment 0, and nothing else changed.
pub open spec fn tx_held_state(
    pre: NetStack,
    post: NetStack,
    egress: int,
    nh: Seq<u8>,
    chunk0: Seq<u8>,
    now: u64,
) -> bool {
    &&& post.arp_entries@.len() == pre.arp_entries@.len() + 1
    &&& (forall|j: int|
        0 <= j < pre.arp_entries@.len() ==> post.arp_entries@[j] == pre.arp_entries@[j])
    &&& post.arp_entries@.last().ip_addr@ == nh
    &&& post.arp_entries@.last().mac_addr@ == spec_mac_any()
    &&& post.arp_entries@.last().data@ == chunk0
    &&& post.arp_entries@.last().timestamp == now
    &&& post.arp_entries@.last().interface == egress
    &&& post == (NetStack { arp_entries: post.arp_entries, ..pre })
}

/// Everything `tx` does, as one relation between the states and frame
/// lists before and after: route selection with its `NoRoute` failure,
/// the identification bump, and the per-fragment egress disposition.
pub open spec fn ip_tx_post(
    pre: NetStack,
    post: NetStack,
    out0: Seq<TxFrame>,
    out1: Seq<TxFrame>,
    dev: int,
    proto: u8,
    payload: Seq<u8>,
    dst: Addr,
    now: u64,
    r: Result<(), NetError>,
) -> bool {
    &&& post.cbs == pre.cbs
    &&& post.devices == pre.devices
    &&& post.routes == pre.routes
    &&& post.fragments == pre.fragments
    &&& post.frag_timestamp == pre.frag_timestamp
    &&& post.next_id == pre.next_id
    &&& post.is_forwarding == pre.is_forwarding
    &&& post.arp_timestamp == pre.arp_timestamp
    &&& (dst@ != spec_addr_broadcast() && spec_lookup_route(pre.routes@, None, dst@) is None
        ==> r == Err::<(), NetError>(NetError::NoRoute) && post == pre && out1 == out0)
    &&& (dst@ == spec_addr_broadcast() || spec_lookup_route(pre.routes@, None, dst@)
        is Some ==> ({
        let egress: int = if dst@ == spec_addr_broadcast() {
            dev as int
        } else {
            spec_lookup_route(pre.routes@, None, dst@).unwrap().interface as int
        };
        let nh: Option<Addr> = if dst@ == spec_addr_broadcast() {
            None
        } else {
            match spec_lookup_route(pre.routes@, None, dst@).unwrap().nexthop {
                Some(g) => Some(g),
                None => Some(dst),
            }
        };
        let srcip = pre.devices@[dev as int].interface.unwrap().unicast@;
        let id = pre.id_counter;
        let base = (NetStack { id_counter: post.id_counter, ..pre });
        let mode = spec_egress_mode(pre, egress, nh);
        let n = spec_nchunks(payload.len() as int);
        &&& r is Ok
        &&& post.id_counter == (if id == 0xFFFF {
            0u16
        } else {
            (id + 1) as u16
        })
        &&& (mode == 0 || mode == 1 || mode == 2 ==> post == base && tx_chunk_frames(
            out0,
            out1,
            egress,
            spec_egress_mac(pre, egress, nh),
            pre.devices@[egress].addr@,
            proto,
            payload,
            srcip,
            dst@,
            id,
            n,
        ))
        &&& (mode == 3 ==> post == base && tx_request_frames(
            out0,
            out1,
            egress,
            arp::spec_request_frame(pre, egress, nh.unwrap()@),
            n,
        ))
        &&& (mode == 4 && n == 0 ==> post == base && out1 == out0)
        &&& (mode == 4 && n > 0 ==> tx_held_state(
            base,
            post,
            egress,
            nh.unwrap()@,
            spec_chunk_dgram(proto, payload, srcip, dst@, id, 0),
            now,
        ) && tx_request_frames(
            out0,
            out1,
            egress,
            arp::spec_request_frame(pre, egress, nh.unwrap()@),
            n,
        ))
    }))
}

/// Send `packet` towards `dst` as one IPv4 datagram: a limited
/// broadcast goes out of this interface's device; anything else takes
/// the longest-prefix route, failing with `NoRoute` when none matches.
/// One identification is allocated, the payload is cut into fragments
/// of at most 1480 bytes, and each fragment — header checksum written
/// in — is handed to the egress, whose disposition
/// [`spec_egress_mode`] names: transmitted at once towards a known
/// hardware address, or traded for ARP requests, the first fragment
/// held by a fresh cache entry when the nexthop was unknown.
#[verifier::rlimit(100)]
pub fn tx(
    stack: &mut NetStack,
    dev: usize,
    protocol: ProtocolType,
    packet: Buffer,
    dst: &Addr,
    now: u64,
    out: &mut Vec<TxFrame>,
) -> (r: Result<(), NetError>)
    requires
        old(stack).wf(),
        old(stack).dev_has_interface(dev as int),
        packet@.len() <= 65515,
    ensures
        final(stack).wf(),
        ip_tx_post(
            *old(stack),
            *final(stack),
            old(out)@,
            final(out)@,
            dev as int,
            protocol.spec_to_u8(),
            packet@,
            *dst,
            now,
            r,
        ),
{
    let ghost pre = *old(stack);
    let full = Addr::full();
    let is_bcast = *dst == full;
    let (nexthop, egress, src): (Option<Addr>, usize, Option<Addr>) = if is_bcast {
        (None, dev, None)
    } else {
        match route::lookup(stack, None, *dst) {
            None => { return Err(NetError::NoRoute); },
            Some(route) => {
                proof {
                    route::lemma_lookup_upto(stack.routes@, None, dst@, stack.routes@.len() as int);
                }
                let nexthop = match route.nexthop {
                    Some(g) => Some(g),
                    None => Some(*dst),
                };
                let unicast = match &stack.devices[dev].interface {
                    Some(i) => i.unicast,
                    None => { return Err(NetError::NoInterface); },
                };
                (nexthop, route.interface, Some(unicast))
            },
        }
    };
    let ghost gmode = spec_egress_mode(pre, egress as int, nexthop);
    let ghost srcip = pre.devices@[dev as int].interface.unwrap().unicast@;
    let id = stack.generate_id();
    let ghost base = *stack;
    let ghost out0 = out@;
    let ghost payload = packet@;
    let ghost req = arp::spec_request_frame(pre, egress as int, (if nexthop is Some {
        nexthop.unwrap()@
    } else {
        Seq::<u8>::empty()
    }));
    let mut packet = packet;
    let mut done: usize = 0;
    let len = packet.0.len();
    let ghost mut c: int = 0;
    while packet.0.len() > 0
        invariant
            stack.wf(),
            base.wf(),
            stack.dev_has_interface(egress as int),
            base.dev_has_interface(egress as int),
            len == payload.len(),
            payload.len() <= 65515,
            done <= len,
            packet@ == payload.skip(done as int),
            done == (if c * 1480 <= len {
                c * 1480
            } else {
                len as int
            }),
            0 <= c <= spec_nchunks(len as int),
            (done == len) == (c == spec_nchunks(len as int)),
            gmode == spec_egress_mode(base, egress as int, nexthop),
            base.devices@ == pre.devices@,
            base.arp_entries@ == pre.arp_entries@,
            nexthop is Some ==> req == arp::spec_request_frame(base, egress as int, nexthop.unwrap()@),
            gmode == 0 || gmode == 1 || gmode == 2 ==> *stack == base && tx_chunk_frames(
                out0,
                out@,
                egress as int,
                spec_egress_mac(base, egress as int, nexthop),
                base.devices@[egress as int].addr@,
                protocol.spec_to_u8(),
                payload,
                srcip,
                dst@,
                id,
                c,
            ),
            gmode == 3 ==> *stack == base && tx_request_frames(out0, out@, egress as int, req, c),
            gmode == 4 && c == 0 ==> *stack == base && out@ == out0,
            gmode == 4 && c > 0 ==> tx_held_state(
                base,
                *stack,
                egress as int,
                nexthop.unwrap()@,
                spec_chunk_dgram(protocol.spec_to_u8(), payload, srcip, dst@, id, 0),
                now,
            ) && tx_request_frames(out0, out@, egress as int, req, c),
            src is Some ==> src.unwrap()@ == srcip,
            src is None ==> egress == dev,
            base.devices@[dev as int].interface.unwrap().unicast@ == srcip,
        decreases packet@.len(),
    {
        let remaining = packet.0.len();
        let seg_len = if remaining < FRAG_SIZE {
            remaining
        } else {
            FRAG_SIZE
        };
        let flag: u16 = if seg_len < remaining {
            0x2000
        } else {
            0
        };
        let offset: u16 = flag + (done / 8) as u16;
        proof {
            assert(done == c * 1480);
            assert((c * 1480) / 8 == c * 185) by (nonlinear_arith);
            assert(offset == spec_chunk_offset(len as int, c)) by {
                if seg_len < remaining {
                    assert((c + 1) * 1480 < len) by (nonlinear_arith)
                        requires
                            done == c * 1480,
                            done + 1480 < len,
                    ;
                } else {
                    assert(!((c + 1) * 1480 < len)) by (nonlinear_arith)
                        requires
                            done == c * 1480,
                            done + seg_len == len,
                            seg_len <= 1480,
                    ;
                }
            }
        }
        let segment = match packet.pop_buffer(seg_len, "segment") {
            Ok(s) => s,
            Err(e) => { return Err(e); },
        };
        proof {
            assert(segment@ =~= payload.subrange(done as int, done + seg_len));
            assert(segment@ =~= spec_chunk(payload, c)) by {
                if (c + 1) * 1480 <= len {
                    assert(payload.subrange(done as int, done + seg_len) =~= payload.subrange(
                        c * 1480,
                        (c + 1) * 1480,
                    ));
                } else {
                    assert(payload.subrange(done as int, done + seg_len) =~= payload.subrange(
                        c * 1480,
                        len as int,
                    ));
                }
            }
        }
        let ghost stack_at_call = *stack;
        let ghost out_at_call = out@;
        let res = tx_core(stack, egress, protocol, segment, src, *dst, nexthop, id, offset, now, out);
        match res {
            Ok(()) => {},
            Err(e) => { return Err(e); },
        }
        proof {
            let ghost db = spec_chunk_dgram(protocol.spec_to_u8(), payload, srcip, dst@, id, c);
            assert(Dgram::spec_checksummed(
                protocol.spec_to_u8(),
                segment@,
                srcip,
                dst@,
                id,
                offset,
            ) == db);
            if gmode == 4 && c > 0 {
                // the entry created by fragment 0 answers this lookup
                crate::arp::table::lemma_spec_lookup(base.arp_entries@, nexthop.unwrap()@);
                assert(forall|j: int|
                    0 <= j < base.arp_entries@.len() ==> (#[trigger] stack_at_call.arp_entries@[j])
                        == base.arp_entries@[j]);
                crate::arp::table::lemma_spec_lookup_converse(
                    stack_at_call.arp_entries@,
                    nexthop.unwrap()@,
                    base.arp_entries@.len() as int,
                );
            }
            c = c + 1;
        }
        done = done + seg_len;
    }
    proof {
        assert(payload.skip(len as int) =~= Seq::<u8>::empty());
        if gmode <= 2 {
            assert(spec_egress_mac(pre, egress as int, nexthop) == spec_egress_mac(
                base,
                egress as int,
                nexthop,
            ));
        }
        assert(spec_egress_mode(pre, egress as int, nexthop) == spec_egress_mode(
            base,
            egress as int,
            nexthop,
        ));
    }
    Ok(())
}

} // verus!

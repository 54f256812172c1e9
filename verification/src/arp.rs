//! ARP for IPv4 over Ethernet: the 28-octet frame, the cache with its
//! pending-send hold, resolution, and reception.

use vstd::prelude::*;
use crate::buffer::{be16, from_be16, Buffer};
use crate::ethernet::{self, spec_build_frame, spec_mac_any, spec_mac_broadcast, MacAddr};
use crate::ip::Addr;
use crate::stack::{pushed_frame, NetStack, TxFrame};
use crate::arp::table::{spec_lookup, Entry};
use crate::util::NetError;

pub mod table;

verus! {

pub const HARDWARE_TYPE_ETHERNET: u16 = 0x0001;

/// The two ARP operations.
#[derive(Debug, Clone, Copy, PartialEq, Eq, Structural)]
pub enum Op {
    Request,
    Reply,
}

impl Op {
    pub open spec fn spec_to_u16(self) -> u16 {
        match self {
            Op::Request => 1,
            Op::Reply => 2,
        }
    }

    pub fn to_u16(self) -> (r: u16)
        ensures
            r == self.spec_to_u16(),
    {
        match self {
            Op::Request => 1,
            Op::Reply => 2,
        }
    }

    pub fn from_u16(n: u16) -> (r: Option<Op>)
        ensures
            n == 1 ==> r == Some(Op::Request),
            n == 2 ==> r == Some(Op::Reply),
            n != 1 && n != 2 ==> r is None,
    {
        if n == 1 {
            Some(Op::Request)
        } else if n == 2 {
            Some(Op::Reply)
        } else {
            None
        }
    }
}

/// An ARP frame for IPv4 over Ethernet.
pub struct Frame {
    pub op: Op,
    pub src_mac_addr: MacAddr,
    pub src_ip_addr: Addr,
    pub dst_mac_addr: MacAddr,
    pub dst_ip_addr: Addr,
}

/// The 28 octets of an ARP frame.
pub open spec fn spec_build_arp(
    op: u16,
    smac: Seq<u8>,
    sip: Seq<u8>,
    tmac: Seq<u8>,
    tip: Seq<u8>,
) -> Seq<u8> {
    be16(1) + be16(0x0800) + seq![6u8, 4u8] + be16(op) + smac + sip + tmac + tip
}

/// What parsing an ARP frame yields, or nothing when a fixed field holds
/// a disallowed value or the buffer is short.
pub open spec fn spec_parse_arp(b: Seq<u8>) -> Option<(u16, Seq<u8>, Seq<u8>, Seq<u8>, Seq<u8>)> {
    if b.len() < 28 {
        None
    } else if from_be16(b[0], b[1]) != 1 || from_be16(b[2], b[3]) != 0x0800 || b[4] != 6 || b[5]
        != 4 {
        None
    } else {
        let op = from_be16(b[6], b[7]);
        if op == 1 || op == 2 {
            Some(
                (
                    op,
                    b.subrange(8, 14),
                    b.subrange(14, 18),
                    b.subrange(18, 24),
                    b.subrange(24, 28),
                ),
            )
        } else {
            None
        }
    }
}

/// Parsing inverts building, for both operations.
pub proof fn lemma_arp_roundtrip(op: u16, smac: Seq<u8>, sip: Seq<u8>, tmac: Seq<u8>, tip: Seq<u8>)
    requires
        smac.len() == 6,
        sip.len() == 4,
        tmac.len() == 6,
        tip.len() == 4,
        op == 1 || op == 2,
    ensures
        spec_parse_arp(spec_build_arp(op, smac, sip, tmac, tip)) == Some(
            (op, smac, sip, tmac, tip),
        ),
{
    let b = spec_build_arp(op, smac, sip, tmac, tip);
    assert(b[0] == be16(1)[0] && b[1] == be16(1)[1]);
    assert(b[2] == be16(0x0800)[0] && b[3] == be16(0x0800)[1]);
    assert(b[6] == be16(op)[0] && b[7] == be16(op)[1]);
    assert(b.subrange(8, 14) =~= smac);
    assert(b.subrange(14, 18) =~= sip);
    assert(b.subrange(18, 24) =~= tmac);
    assert(b.subrange(24, 28) =~= tip);
}

impl Frame {
    /// Parse an ARP frame, rejecting every fixed-field mismatch.
    pub fn from_buffer(buffer: Buffer) -> (r: Result<Frame, NetError>)
        ensures
            match spec_parse_arp(buffer@) {
                Some((op, smac, sip, tmac, tip)) => r matches Ok(f) && f.op.spec_to_u16() == op
                    && f.src_mac_addr@ == smac && f.src_ip_addr@ == sip && f.dst_mac_addr@ == tmac
                    && f.dst_ip_addr@ == tip,
                None => r is Err,
            },
    {
        let mut buffer = buffer;
        let hardware_type = match buffer.pop_u16("hardware type") {
            Ok(v) => v,
            Err(e) => { return Err(e); },
        };
        if hardware_type != HARDWARE_TYPE_ETHERNET {
            return Err(NetError::Parse);
        }
        let protocol = match buffer.pop_u16("protocol type") {
            Ok(v) => v,
            Err(e) => { return Err(e); },
        };
        if protocol != 0x0800 {
            return Err(NetError::Parse);
        }
        let hardware_address_len = match buffer.pop_u8("hardware address length") {
            Ok(v) => v,
            Err(e) => { return Err(e); },
        };
        if hardware_address_len != 6 {
            return Err(NetError::Parse);
        }
        let ip_address_len = match buffer.pop_u8("ip address length") {
            Ok(v) => v,
            Err(e) => { return Err(e); },
        };
        if ip_address_len != 4 {
            return Err(NetError::Parse);
        }
        let op_num = match buffer.pop_u16("operation") {
            Ok(v) => v,
            Err(e) => { return Err(e); },
        };
        let op = match Op::from_u16(op_num) {
            Some(o) => o,
            None => { return Err(NetError::Parse); },
        };
        let src_mac_addr = match buffer.pop_mac_addr("src mac address") {
            Ok(v) => v,
            Err(e) => { return Err(e); },
        };
        let src_ip_addr = match buffer.pop_ip_addr("src ip address") {
            Ok(v) => v,
            Err(e) => { return Err(e); },
        };
        let dst_mac_addr = match buffer.pop_mac_addr("dst mac address") {
            Ok(v) => v,
            Err(e) => { return Err(e); },
        };
        let dst_ip_addr = match buffer.pop_ip_addr("dst ip address") {
            Ok(v) => v,
            Err(e) => { return Err(e); },
        };
        Ok(Frame { op, src_mac_addr, src_ip_addr, dst_mac_addr, dst_ip_addr })
    }

    /// Serialize the 28 octets.
    pub fn to_buffer(self) -> (r: Buffer)
        ensures
            r@ == spec_build_arp(
                self.op.spec_to_u16(),
                self.src_mac_addr@,
                self.src_ip_addr@,
                self.dst_mac_addr@,
                self.dst_ip_addr@,
            ),
    {
        let mut buffer = Buffer::new(28);
        buffer.push_u16(HARDWARE_TYPE_ETHERNET);
        buffer.push_u16(0x0800);
        buffer.push_u8(6);
        buffer.push_u8(4);
        buffer.push_u16(self.op.to_u16());
        buffer.push_mac_addr(self.src_mac_addr);
        buffer.push_ip_addr(self.src_ip_addr);
        buffer.push_mac_addr(self.dst_mac_addr);
        buffer.push_ip_addr(self.dst_ip_addr);
        proof {
            assert(buffer@ =~= spec_build_arp(
                self.op.spec_to_u16(),
                self.src_mac_addr@,
                self.src_ip_addr@,
                self.dst_mac_addr@,
                self.dst_ip_addr@,
            ));
        }
        buffer
    }
}

/// The cache after learning that `ip` is at `mac`: no entry, nothing
/// changes; an entry holding a datagram is dispatched and removed; an
/// entry holding none is refreshed in place.
pub open spec fn arp_update_entries(entries: Seq<Entry>, ip: Seq<u8>, mac: MacAddr, now: u64) -> Seq<
    Entry,
> {
    match spec_lookup(entries, ip) {
        None => entries,
        Some(i) => {
            if entries[i].data@.len() == 0 {
                entries.update(i, Entry { mac_addr: mac, timestamp: now, ..entries[i] })
            } else {
                entries.remove(i)
            }
        },
    }
}

/// The held datagram that learning `ip` at `mac` releases, with the
/// device it leaves on.
pub open spec fn arp_update_release(entries: Seq<Entry>, ip: Seq<u8>) -> Option<(int, Seq<u8>)> {
    match spec_lookup(entries, ip) {
        None => None,
        Some(i) => {
            if entries[i].data@.len() == 0 {
                None
            } else {
                Some((entries[i].interface as int, entries[i].data@))
            }
        },
    }
}

/// Refresh the cache entry for `ip_addr` with a learned hardware
/// address. A held datagram is transmitted to that address — exactly
/// once, the entry leaving the cache with it. Returns whether an entry
/// existed.
#[verifier::rlimit(50)]
pub fn update_table(
    stack: &mut NetStack,
    ip_addr: &Addr,
    mac_addr: &MacAddr,
    now: u64,
    out: &mut Vec<TxFrame>,
) -> (merged: bool)
    requires
        old(stack).wf(),
    ensures
        final(stack).wf(),
        merged == (spec_lookup(old(stack).arp_entries@, ip_addr@) is Some),
        final(stack).arp_entries@ == arp_update_entries(
            old(stack).arp_entries@,
            ip_addr@,
            *mac_addr,
            now,
        ),
        match arp_update_release(old(stack).arp_entries@, ip_addr@) {
            None => final(out)@ == old(out)@,
            Some((d, data)) => pushed_frame(
                old(out)@,
                final(out)@,
                d,
                spec_build_frame(
                    mac_addr@,
                    old(stack).devices@[d].addr@,
                    0x0800,
                    data,
                ),
            ),
        },
        *final(stack) == (NetStack { arp_entries: final(stack).arp_entries, ..*old(stack) }),
{
    let idx_opt = table::lookup(stack, ip_addr);
    proof {
        table::lemma_spec_lookup(stack.arp_entries@, ip_addr@);
    }
    match idx_opt {
        None => false,
        Some(idx) => {
            {
                let e = &mut stack.arp_entries[idx];
                e.mac_addr = *mac_addr;
                e.timestamp = now;
            }
            if stack.arp_entries[idx].data.0.len() > 0 {
                let e = stack.arp_entries.remove(idx);
                proof {
                    assert(old(stack).arp_entries@.update(idx as int, Entry {
                        mac_addr: *mac_addr,
                        timestamp: now,
                        ..old(stack).arp_entries@[idx as int]
                    }).remove(idx as int) =~= old(stack).arp_entries@.remove(idx as int));
                }
                ethernet::tx(stack, e.interface, ethernet::Type::Ip, e.data, *mac_addr, out);
            }
            true
        },
    }
}

/// The bytes of the ARP request the stack broadcasts to resolve `tip`
/// through device `dev`.
pub open spec fn spec_request_frame(stack: NetStack, dev: int, tip: Seq<u8>) -> Seq<u8> {
    spec_build_frame(
        spec_mac_broadcast(),
        stack.devices@[dev].addr@,
        0x0806,
        spec_build_arp(
            1,
            stack.devices@[dev].addr@,
            stack.devices@[dev].interface.unwrap().unicast@,
            spec_mac_any(),
            tip,
        ),
    )
}

/// Broadcast a request for `ip_addr` on device `dev`.
pub fn send_request(stack: &NetStack, dev: usize, ip_addr: &Addr, out: &mut Vec<TxFrame>)
    requires
        stack.dev_has_interface(dev as int),
    ensures
        pushed_frame(
            old(out)@,
            final(out)@,
            dev as int,
            spec_request_frame(*stack, dev as int, ip_addr@),
        ),
{
    let src_mac_addr = stack.devices[dev].addr;
    let src_ip_addr = match &stack.devices[dev].interface {
        Some(i) => i.unicast,
        None => { return ; },
    };
    let request = Frame {
        op: Op::Request,
        src_mac_addr,
        src_ip_addr,
        dst_mac_addr: MacAddr::empty(),
        dst_ip_addr: *ip_addr,
    };
    ethernet::tx(stack, dev, ethernet::Type::Arp, request.to_buffer(), MacAddr::broadcast(), out);
}

/// The bytes of the reply the stack sends a requester at `tmac`/`tip`.
pub open spec fn spec_reply_frame(stack: NetStack, dev: int, tmac: Seq<u8>, tip: Seq<u8>) -> Seq<
    u8,
> {
    spec_build_frame(
        tmac,
        stack.devices@[dev].addr@,
        0x0806,
        spec_build_arp(
            2,
            stack.devices@[dev].addr@,
            stack.devices@[dev].interface.unwrap().unicast@,
            tmac,
            tip,
        ),
    )
}

/// Answer a request: our addresses as sender, the requester as target.
pub fn send_reply(stack: &NetStack, dev: usize, mac_addr: MacAddr, ip_addr: Addr, out: &mut Vec<
    TxFrame,
>)
    requires
        stack.dev_has_interface(dev as int),
    ensures
        pushed_frame(
            old(out)@,
            final(out)@,
            dev as int,
            spec_reply_frame(*stack, dev as int, mac_addr@, ip_addr@),
        ),
{
    let src_mac_addr = stack.devices[dev].addr;
    let src_ip_addr = match &stack.devices[dev].interface {
        Some(i) => i.unicast,
        None => { return ; },
    };
    let reply = Frame {
        op: Op::Reply,
        src_mac_addr,
        src_ip_addr,
        dst_mac_addr: mac_addr,
        dst_ip_addr: ip_addr,
    };
    ethernet::tx(stack, dev, ethernet::Type::Arp, reply.to_buffer(), mac_addr, out);
}

/// Resolve `ip_addr` to a hardware address for device `dev`'s interface.
///
/// A known entry answers at once. Otherwise a request is broadcast and
/// `None` is returned: when no entry existed, `data` is held in the new
/// entry and will be transmitted by the cache the moment a reply
/// arrives; when an entry was already in flight, `data` is dropped and
/// the caller waits and retries. The caller that tires of waiting calls
/// [`resolve_timeout`].
pub fn resolve(
    stack: &mut NetStack,
    dev: usize,
    ip_addr: Addr,
    data: Buffer,
    now: u64,
    out: &mut Vec<TxFrame>,
) -> (r: Result<Option<MacAddr>, NetError>)
    requires
        old(stack).wf(),
        old(stack).dev_has_interface(dev as int),
    ensures
        final(stack).wf(),
        match spec_lookup(old(stack).arp_entries@, ip_addr@) {
            Some(i) => {
                if old(stack).arp_entries@[i].mac_addr@ != spec_mac_any() {
                    &&& r == Ok::<Option<MacAddr>, NetError>(
                        Some(old(stack).arp_entries@[i].mac_addr),
                    )
                    &&& *final(stack) == *old(stack)
                    &&& final(out)@ == old(out)@
                } else {
                    &&& r == Ok::<Option<MacAddr>, NetError>(None)
                    &&& *final(stack) == *old(stack)
                    &&& pushed_frame(
                        old(out)@,
                        final(out)@,
                        dev as int,
                        spec_request_frame(*old(stack), dev as int, ip_addr@),
                    )
                }
            },
            None => {
                &&& r == Ok::<Option<MacAddr>, NetError>(None)
                &&& final(stack).arp_entries@.len() == old(stack).arp_entries@.len() + 1
                &&& (forall|j: int|
                    0 <= j < old(stack).arp_entries@.len() ==> final(stack).arp_entries@[j] == old(
                        stack,
                    ).arp_entries@[j])
                &&& final(stack).arp_entries@.last().ip_addr@ == ip_addr@
                &&& final(stack).arp_entries@.last().mac_addr@ == spec_mac_any()
                &&& final(stack).arp_entries@.last().data@ == data@
                &&& final(stack).arp_entries@.last().timestamp == now
                &&& final(stack).arp_entries@.last().interface == dev
                &&& pushed_frame(
                    old(out)@,
                    final(out)@,
                    dev as int,
                    spec_request_frame(*old(stack), dev as int, ip_addr@),
                )
                &&& *final(stack) == (NetStack {
                    arp_entries: final(stack).arp_entries,
                    ..*old(stack)
                })
            },
        },
{
    let idx_opt = table::lookup(stack, &ip_addr);
    proof {
        table::lemma_spec_lookup(stack.arp_entries@, ip_addr@);
    }
    match idx_opt {
        Some(idx) => {
            let mac = stack.arp_entries[idx].mac_addr;
            if mac == MacAddr::empty() {
                send_request(stack, dev, &ip_addr, out);
                Ok(None)
            } else {
                Ok(Some(mac))
            }
        },
        None => {
            let mut entry = Entry::new(ip_addr, MacAddr::empty(), dev, now);
            entry.data = data;
            stack.arp_entries.push(entry);
            send_request(stack, dev, &ip_addr, out);
            Ok(None)
        },
    }
}

/// What a waiter finds once its wait for `ip_addr` is over: the learned
/// address, or `ArpTimeout` — the still-unresolved entry leaving the
/// cache with it, as it does when expiry already removed it.
pub fn resolve_timeout(stack: &mut NetStack, ip_addr: &Addr) -> (r: Result<MacAddr, NetError>)
    requires
        old(stack).wf(),
    ensures
        final(stack).wf(),
        match spec_lookup(old(stack).arp_entries@, ip_addr@) {
            Some(i) => {
                if old(stack).arp_entries@[i].mac_addr@ != spec_mac_any() {
                    r == Ok::<MacAddr, NetError>(old(stack).arp_entries@[i].mac_addr)
                        && *final(stack) == *old(stack)
                } else {
                    r == Err::<MacAddr, NetError>(NetError::ArpTimeout)
                        && final(stack).arp_entries@ == old(stack).arp_entries@.remove(i)
                }
            },
            None => r == Err::<MacAddr, NetError>(NetError::ArpTimeout) && *final(stack) == *old(
                stack,
            ),
        },
        *final(stack) == (NetStack { arp_entries: final(stack).arp_entries, ..*old(stack) }),
{
    let idx_opt = table::lookup(stack, ip_addr);
    proof {
        table::lemma_spec_lookup(stack.arp_entries@, ip_addr@);
    }
    match idx_opt {
        Some(idx) => {
            let mac = stack.arp_entries[idx].mac_addr;
            if mac == MacAddr::empty() {
                stack.arp_entries.remove(idx);
                Err(NetError::ArpTimeout)
            } else {
                Ok(mac)
            }
        },
        None => Err(NetError::ArpTimeout),
    }
}

/// Everything `rx` does: the sweep, the merge with its released
/// datagram, the learn-on-request, and the reply.
pub open spec fn arp_rx_post(
    pre: NetStack,
    post: NetStack,
    out0: Seq<TxFrame>,
    out1: Seq<TxFrame>,
    packet: Seq<u8>,
    dev: int,
    now: u64,
    r: Result<(), NetError>,
) -> bool {
    &&& (spec_parse_arp(packet) is None ==> r is Err && post == pre && out1 == out0)
    &&& match spec_parse_arp(packet) {
        None => true,
        Some((op, smac, sip, tmac, tip)) => ({
            let e1 = if now > pre.arp_timestamp + table::PATROL_INTERVAL {
                pre.arp_entries@.filter(|e: Entry| table::entry_fresh(e, now))
            } else {
                pre.arp_entries@
            };
            let merged = spec_lookup(e1, sip) is Some;
            &&& (pre.devices@[dev].interface is None ==> r == Err::<(), NetError>(
                NetError::NoInterface,
            ))
            &&& (pre.devices@[dev].interface matches Some(iface) ==> ({
                let local = iface.unicast@ == tip;
                let inserted = local && !merged;
                let fin = post.arp_entries@;
                let kept = if inserted {
                    fin.take(fin.len() - 1)
                } else {
                    fin
                };
                let rel = arp_update_release(e1, sip);
                let nrel: int = if rel is Some {
                    1
                } else {
                    0
                };
                let replied = local && op == 1;
                let nrep: int = if replied {
                    1
                } else {
                    0
                };
                &&& r is Ok
                &&& merged_entries(e1, kept, sip, smac, now)
                &&& (inserted ==> fin.len() == kept.len() + 1 && fin.last().ip_addr@ == sip
                    && fin.last().mac_addr@ == smac && fin.last().data@.len() == 0
                    && fin.last().interface == dev && fin.last().timestamp == now)
                &&& out1.len() == out0.len() + nrel + nrep
                &&& (forall|i: int| 0 <= i < out0.len() ==> out1[i] == out0[i])
                &&& (rel matches Some((d, data)) ==> out1[out0.len() as int].dev == d
                    && out1[out0.len() as int].frame@ == spec_build_frame(
                    smac,
                    pre.devices@[d].addr@,
                    0x0800,
                    data,
                ))
                &&& (replied ==> out1.last().dev == dev && out1.last().frame@
                    == spec_reply_frame(pre, dev, smac, sip))
            }))
        }),
    }
}

/// Receive an ARP frame on device `dev`.
///
/// The cache is swept, the sender's binding merged — releasing a held
/// datagram if one was waiting on it — and, when the frame asks for
/// this interface's own address, the sender is learned and a request is
/// answered with a reply.
#[verifier::rlimit(100)]
pub fn rx(stack: &mut NetStack, packet: Buffer, dev: usize, now: u64, out: &mut Vec<TxFrame>) -> (r:
    Result<(), NetError>)
    requires
        old(stack).wf(),
        dev < old(stack).devices@.len(),
    ensures
        final(stack).wf(),
        arp_rx_post(
            *old(stack),
            *final(stack),
            old(out)@,
            final(out)@,
            packet@,
            dev as int,
            now,
            r,
        ),
{
    let message = match Frame::from_buffer(packet) {
        Ok(m) => m,
        Err(e) => { return Err(e); },
    };
    let ghost pre = *old(stack);
    let ghost sip = spec_parse_arp(packet@)->Some_0.2;
    let ghost smac = spec_parse_arp(packet@)->Some_0.1;
    table::patrol(stack, now);
    let ghost e1 = stack.arp_entries@;
    let merged = update_table(stack, &message.src_ip_addr, &message.src_mac_addr, now, out);
    proof {
        assert(message.src_ip_addr@ == sip && message.src_mac_addr@ == smac);
        assert(stack.arp_entries@ == arp_update_entries(e1, sip, message.src_mac_addr, now));
        table::lemma_spec_lookup(e1, sip);
        match spec_lookup(e1, sip) {
            None => {},
            Some(i) => {
                if e1[i].data@.len() == 0 {
                    let e2 = e1.update(
                        i,
                        Entry { mac_addr: message.src_mac_addr, timestamp: now, ..e1[i] },
                    );
                    assert(stack.arp_entries@ == e2);
                    assert(e2[i].mac_addr@ == smac);
                }
            },
        }
        assert(merged_entries(e1, stack.arp_entries@, sip, smac, now));
    }
    let interface = match &stack.devices[dev].interface {
        Some(i) => *i,
        None => { return Err(NetError::NoInterface); },
    };
    if interface.unicast == message.dst_ip_addr {
        if !merged {
            let ghost before_push = stack.arp_entries@;
            stack.arp_entries.push(
                Entry::new(message.src_ip_addr, message.src_mac_addr, dev, now),
            );
            proof {
                assert(stack.arp_entries@.take(stack.arp_entries@.len() - 1) =~= before_push);
            }
        }
        if let Op::Request = message.op {
            send_reply(stack, dev, message.src_mac_addr, message.src_ip_addr, out);
        }
    }
    Ok(())
}

/// `post` is `e1` after learning that `sip` is at `smac`: unchanged when
/// the sender was unknown, refreshed in place when nothing was held,
/// gone when its held datagram left with the answer.
pub open spec fn merged_entries(
    e1: Seq<Entry>,
    post: Seq<Entry>,
    sip: Seq<u8>,
    smac: Seq<u8>,
    now: u64,
) -> bool {
    match spec_lookup(e1, sip) {
        None => post == e1,
        Some(i) => {
            if e1[i].data@.len() == 0 {
                &&& post.len() == e1.len()
                &&& (forall|j: int| 0 <= j < e1.len() && j != i ==> post[j] == e1[j])
                &&& post[i].ip_addr@ == e1[i].ip_addr@
                &&& post[i].mac_addr@ == smac
                &&& post[i].timestamp == now
                &&& post[i].data@ == e1[i].data@
                &&& post[i].interface == e1[i].interface
            } else {
                post == e1.remove(i)
            }
        },
    }
}

/// Hold and release: when the cache holds a datagram for a sender whose
/// reply now arrives — before any sweep was due — receiving that reply
/// transmits the held datagram exactly once, to the learned hardware
/// address on the entry's device, and the entry leaves the cache with
/// it. Nothing else is transmitted, and no other entry moves.
pub proof fn lemma_hold_and_release(
    pre: NetStack,
    post: NetStack,
    out0: Seq<TxFrame>,
    out1: Seq<TxFrame>,
    packet: Seq<u8>,
    dev: int,
    now: u64,
    r: Result<(), NetError>,
    i: int,
)
    requires
        arp_rx_post(pre, post, out0, out1, packet, dev, now, r),
        spec_parse_arp(packet) matches Some((op, smac, sip, tmac, tip)) && op == 2
            && spec_lookup(pre.arp_entries@, sip) == Some(i),
        pre.devices@[dev].interface is Some,
        now <= pre.arp_timestamp + table::PATROL_INTERVAL,
        0 <= i < pre.arp_entries@.len(),
        pre.arp_entries@[i].data@.len() > 0,
    ensures
        out1.len() == out0.len() + 1,
        out1.last().dev == pre.arp_entries@[i].interface,
        out1.last().frame@ == spec_build_frame(
            spec_parse_arp(packet).unwrap().1,
            pre.devices@[pre.arp_entries@[i].interface as int].addr@,
            0x0800,
            pre.arp_entries@[i].data@,
        ),
        post.arp_entries@ == pre.arp_entries@.remove(i),
{
    let (op, smac, sip, tmac, tip) = spec_parse_arp(packet).unwrap();
    let e1 = pre.arp_entries@;
    table::lemma_spec_lookup(e1, sip);
    assert(arp_update_release(e1, sip) == Some(
        (pre.arp_entries@[i].interface as int, pre.arp_entries@[i].data@),
    ));
    assert(out1.len() == out0.len() + 1);
    assert(out1[out0.len() as int] == out1.last());
}

} // verus!

//! UDP: the endpoint table with its receive queues, source-port
//! allocation, and the pseudo-header checksum.

use vstd::prelude::*;
use crate::buffer::{from_be16, Buffer};
use crate::ip::interface::{self, ip_tx_post, spec_by_addr};
use crate::ip::Addr;
use crate::protocol::ProtocolType;
use crate::stack::{NetStack, TxFrame};
use crate::udp::packet::{spec_build_udp, Packet};
use crate::util::{checksum_of, NetError};

pub mod packet;
pub mod queue;

verus! {

pub const SOURCE_PORT_MIN: u16 = 49152;

pub const SOURCE_PORT_MAX: u16 = 65535;

/// One endpoint's control block. Port 0 means "not yet bound"; the
/// interface is fixed at bind time, or left open to receive from any.
pub struct Cb {
    pub id: u64,
    pub interface: Option<usize>,
    pub port: u16,
    pub queue: queue::Queue,
}

/// The pseudo-header sum binding a UDP checksum to its IPv4 endpoints:
/// source and destination addresses as words, the protocol number, and
/// the UDP length.
pub open spec fn spec_pseudo_sum(src: Seq<u8>, dst: Seq<u8>, len: int) -> int {
    (src[0] as int) * 256 + src[1] + src[2] * 256 + src[3] + (dst[0] as int) * 256 + dst[1]
        + dst[2] * 256 + dst[3] + 0x11 + len
}

/// The packet the stack emits: checksum computed over pseudo-header and
/// segment with the checksum field zero, then written into its slot.
pub open spec fn spec_udp_checksummed(
    src: Seq<u8>,
    dst: Seq<u8>,
    sp: u16,
    dp: u16,
    payload: Seq<u8>,
) -> Seq<u8> {
    let b0 = spec_build_udp(sp, dp, (payload.len() + 8) as u16, 0, payload);
    let c = checksum_of(b0, spec_pseudo_sum(src, dst, payload.len() as int + 8));
    b0.update(6, (c / 256) as u8).update(7, (c % 256) as u8)
}

/// The one's-complement sum of pseudo-header and emitted segment is
/// all-ones.
pub proof fn lemma_udp_checksum(src: Seq<u8>, dst: Seq<u8>, sp: u16, dp: u16, payload: Seq<u8>)
    requires
        src.len() == 4,
        dst.len() == 4,
        payload.len() + 8 <= 0xFFFF,
    ensures
        crate::util::fold16(
            spec_pseudo_sum(src, dst, payload.len() as int + 8) + crate::util::sum_words(
                spec_udp_checksummed(src, dst, sp, dp, payload),
            ),
        ) == 0xFFFF,
{
    let b0 = spec_build_udp(sp, dp, (payload.len() + 8) as u16, 0, payload);
    assert(b0[6] == 0 && b0[7] == 0);
    crate::util::lemma_checksum_insert(b0, 3, spec_pseudo_sum(src, dst, payload.len() as int + 8));
}

/// Build and send one UDP packet out of device `dev`'s interface.
pub fn tx(
    stack: &mut NetStack,
    dev: usize,
    src_port: u16,
    buf: Buffer,
    peer_addr: Addr,
    peer_port: u16,
    now: u64,
    out: &mut Vec<TxFrame>,
) -> (r: Result<(), NetError>)
    requires
        old(stack).wf(),
        old(stack).dev_has_interface(dev as int),
        buf@.len() + 8 <= 65515,
    ensures
        final(stack).wf(),
        ip_tx_post(
            *old(stack),
            *final(stack),
            old(out)@,
            final(out)@,
            dev as int,
            0x11,
            spec_udp_checksummed(
                old(stack).devices@[dev as int].interface.unwrap().unicast@,
                peer_addr@,
                src_port,
                peer_port,
                buf@,
            ),
            peer_addr,
            now,
            r,
        ),
{
    let ghost pl = buf@;
    let uni = match &stack.devices[dev].interface {
        Some(i) => i.unicast,
        None => { return Err(NetError::NoInterface); },
    };
    let packet = Packet { src_port, dst_port: peer_port, sum: 0, payload: buf };
    let packet_vec = packet.to_buffer().to_vec();
    let n = packet_vec.len();
    let pseudo: u32 = (uni.0[0] as u32) * 256 + (uni.0[1] as u32) + (uni.0[2] as u32) * 256 + (
    uni.0[3] as u32) + (peer_addr.0[0] as u32) * 256 + (peer_addr.0[1] as u32) + (peer_addr.0[2]
        as u32) * 256 + (peer_addr.0[3] as u32) + 0x11 + n as u32;
    let sum = crate::util::calc_checksum(packet_vec.as_slice(), n, pseudo);
    proof {
        assert(packet_vec@.take(n as int) =~= packet_vec@);
        assert(pseudo as int == spec_pseudo_sum(uni@, peer_addr@, pl.len() as int + 8));
    }
    let mut data = Buffer::from_vec(packet_vec);
    Packet::write_checksum(&mut data, sum);
    proof {
        assert(data@ =~= spec_udp_checksummed(uni@, peer_addr@, src_port, peer_port, pl));
    }
    interface::tx(stack, dev, ProtocolType::Udp, data, &peer_addr, now, out)
}

/// Whether endpoint `cb` accepts datagrams arriving on device `dev`
/// for `port`: the port matches and the endpoint is unbound or bound to
/// that interface.
pub open spec fn cb_matches(cb: Cb, dev: int, port: u16) -> bool {
    &&& cb.port == port
    &&& (cb.interface is None || cb.interface.unwrap() == dev)
}

/// The first endpoint accepting (`dev`, `port`), if any.
pub open spec fn spec_cb_match(cbs: Seq<Cb>, dev: int, port: u16) -> Option<int>
    decreases cbs.len(),
{
    if cbs.len() == 0 {
        None
    } else if cb_matches(cbs[0], dev, port) {
        Some(0)
    } else {
        match spec_cb_match(cbs.skip(1), dev, port) {
            Some(i) => Some(i + 1),
            None => None,
        }
    }
}

pub proof fn lemma_spec_cb_match(cbs: Seq<Cb>, dev: int, port: u16)
    ensures
        spec_cb_match(cbs, dev, port) matches Some(i) ==> 0 <= i < cbs.len() && cb_matches(
            cbs[i],
            dev,
            port,
        ) && (forall|j: int| 0 <= j < i ==> !cb_matches(#[trigger] cbs[j], dev, port)),
        spec_cb_match(cbs, dev, port) is None ==> forall|j: int|
            0 <= j < cbs.len() ==> !cb_matches(#[trigger] cbs[j], dev, port),
    decreases cbs.len(),
{
    if cbs.len() > 0 && !cb_matches(cbs[0], dev, port) {
        let rest = cbs.skip(1);
        lemma_spec_cb_match(rest, dev, port);
        assert(forall|j: int| 1 <= j < cbs.len() ==> #[trigger] cbs[j] == rest[j - 1]);
        if spec_cb_match(rest, dev, port) is Some {
            let i = spec_cb_match(rest, dev, port)->Some_0;
            assert(cbs[i + 1] == rest[i]);
        }
    }
}

pub proof fn lemma_spec_cb_match_converse(cbs: Seq<Cb>, dev: int, port: u16, i: int)
    requires
        0 <= i < cbs.len(),
        cb_matches(cbs[i], dev, port),
        forall|j: int| 0 <= j < i ==> !cb_matches(#[trigger] cbs[j], dev, port),
    ensures
        spec_cb_match(cbs, dev, port) == Some(i),
    decreases i,
{
    if i > 0 {
        let rest = cbs.skip(1);
        assert(forall|j: int| 1 <= j < cbs.len() ==> #[trigger] cbs[j] == rest[j - 1]);
        lemma_spec_cb_match_converse(rest, dev, port, i - 1);
    }
}

/// What receiving a UDP segment does: a well-formed segment goes to the
/// queue of the first endpoint accepting its destination port on the
/// arrival interface — exactly one endpoint, or none — and a malformed
/// one is rejected.
pub open spec fn udp_rx_post(
    pre: NetStack,
    post: NetStack,
    buf: Seq<u8>,
    src: Addr,
    dev: int,
    r: Result<(), NetError>,
) -> bool {
    if buf.len() < 8 || from_be16(buf[4], buf[5]) != buf.len() {
        r is Err && post == pre
    } else {
        let sp = from_be16(buf[0], buf[1]);
        let dp = from_be16(buf[2], buf[3]);
        let payload = buf.skip(8);
        match spec_cb_match(pre.cbs@, dev, dp) {
            None => r is Ok && post == pre,
            Some(i) => {
                &&& r is Ok
                &&& post.cbs@.len() == pre.cbs@.len()
                &&& (forall|j: int| 0 <= j < pre.cbs@.len() && j != i ==> post.cbs@[j] == pre.cbs@[j])
                &&& post.cbs@[i].id == pre.cbs@[i].id
                &&& post.cbs@[i].interface == pre.cbs@[i].interface
                &&& post.cbs@[i].port == pre.cbs@[i].port
                &&& post.cbs@[i].queue.data@.len() == pre.cbs@[i].queue.data@.len() + 1
                &&& (forall|k: int|
                    0 <= k < pre.cbs@[i].queue.data@.len() ==> post.cbs@[i].queue.data@[k]
                        == pre.cbs@[i].queue.data@[k])
                &&& post.cbs@[i].queue.data@.last().addr@ == src@
                &&& post.cbs@[i].queue.data@.last().port == sp
                &&& post.cbs@[i].queue.data@.last().data@ == payload
                &&& post == (NetStack { cbs: post.cbs, ..pre })
            },
        }
    }
}

/// Receive a UDP segment arriving on device `dev`: parse it and hand it
/// to the one matching endpoint's queue.
#[verifier::rlimit(60)]
pub fn rx(stack: &mut NetStack, buf: Buffer, src: &Addr, _dst: &Addr, dev: usize) -> (r: Result<
    (),
    NetError,
>)
    requires
        old(stack).wf(),
    ensures
        final(stack).wf(),
        udp_rx_post(*old(stack), *final(stack), buf@, *src, dev as int, r),
{
    let ghost orig = buf@;
    let packet = match Packet::from_buffer(buf) {
        Ok(p) => p,
        Err(e) => { return Err(e); },
    };
    let n = stack.cbs.len();
    let mut i: usize = 0;
    while i < n
        invariant
            *stack == *old(stack),
            old(stack).wf(),
            n == stack.cbs@.len(),
            i <= n,
            buf@.len() >= 8,
            from_be16(buf@[4], buf@[5]) == buf@.len(),
            packet.src_port == from_be16(buf@[0], buf@[1]),
            packet.dst_port == from_be16(buf@[2], buf@[3]),
            packet.payload@ == buf@.skip(8),
            forall|j: int| 0 <= j < i ==> !cb_matches(#[trigger] stack.cbs@[j], dev as int, packet.dst_port),
        decreases n - i,
    {
        let matches_here = stack.cbs[i].port == packet.dst_port && (match &stack.cbs[i].interface {
            None => true,
            Some(d) => *d == dev,
        });
        if matches_here {
            proof {
                lemma_spec_cb_match_converse(stack.cbs@, dev as int, packet.dst_port, i as int);
            }
            let entry = queue::Entry { addr: *src, port: packet.src_port, data: packet.payload };
            let ghost pre_cbs = stack.cbs@;
            let cb = &mut stack.cbs[i];
            cb.queue.push(entry);
            proof {
                assert(stack.cbs@.len() == pre_cbs.len());
                assert(forall|j: int|
                    0 <= j < pre_cbs.len() && j != i ==> stack.cbs@[j] == pre_cbs[j]);
                assert(stack.cbs@[i as int].queue.data@ == pre_cbs[i as int].queue.data@.push(
                    entry,
                ));
                assert(stack.cbs@[i as int].interface == pre_cbs[i as int].interface);
                assert(stack.devices@ == old(stack).devices@);
                assert(stack.routes@ == old(stack).routes@);
                assert(stack.arp_entries@ == old(stack).arp_entries@);
            }
            return Ok(());
        }
        i = i + 1;
    }
    proof {
        lemma_spec_cb_match(stack.cbs@, dev as int, packet.dst_port);
    }
    Ok(())
}

/// Whether some endpoint already uses `port` in a way that collides
/// with interface `dev`: bound to it, or bound to no interface at all.
pub open spec fn spec_port_used(cbs: Seq<Cb>, dev: int, port: u16) -> bool {
    exists|j: int| 0 <= j < cbs.len() && cb_matches(#[trigger] cbs[j], dev, port)
}

/// The first endpoint whose id is `id`.
pub open spec fn spec_cb_lookup(cbs: Seq<Cb>, id: u64) -> Option<int>
    decreases cbs.len(),
{
    if cbs.len() == 0 {
        None
    } else if cbs[0].id == id {
        Some(0)
    } else {
        match spec_cb_lookup(cbs.skip(1), id) {
            Some(i) => Some(i + 1),
            None => None,
        }
    }
}

pub proof fn lemma_spec_cb_lookup(cbs: Seq<Cb>, id: u64)
    ensures
        spec_cb_lookup(cbs, id) matches Some(i) ==> 0 <= i < cbs.len() && cbs[i].id == id && (
        forall|j: int| 0 <= j < i ==> (#[trigger] cbs[j]).id != id),
        spec_cb_lookup(cbs, id) is None ==> forall|j: int|
            0 <= j < cbs.len() ==> (#[trigger] cbs[j]).id != id,
    decreases cbs.len(),
{
    if cbs.len() > 0 && cbs[0].id != id {
        let rest = cbs.skip(1);
        lemma_spec_cb_lookup(rest, id);
        assert(forall|j: int| 1 <= j < cbs.len() ==> #[trigger] cbs[j] == rest[j - 1]);
        if spec_cb_lookup(rest, id) is Some {
            let i = spec_cb_lookup(rest, id)->Some_0;
            assert(cbs[i + 1] == rest[i]);
        }
    }
}

pub proof fn lemma_spec_cb_lookup_converse(cbs: Seq<Cb>, id: u64, i: int)
    requires
        0 <= i < cbs.len(),
        cbs[i].id == id,
        forall|j: int| 0 <= j < i ==> (#[trigger] cbs[j]).id != id,
    ensures
        spec_cb_lookup(cbs, id) == Some(i),
    decreases i,
{
    if i > 0 {
        let rest = cbs.skip(1);
        assert(forall|j: int| 1 <= j < cbs.len() ==> #[trigger] cbs[j] == rest[j - 1]);
        lemma_spec_cb_lookup_converse(rest, id, i - 1);
    }
}

/// Everything `send_to` does: interface selection with its
/// `NoInterface` failure, source-port auto-assignment in
/// [49152, 65535] with its `NoPort` failure, and the send itself.
/// The control block index `send_to` works on.
pub open spec fn send_cb_at(pre: NetStack, id: u64) -> int {
    spec_cb_lookup(pre.cbs@, id).unwrap()
}

/// The device `send_to` sends through: the endpoint's own interface, or
/// the one owning a local address for the peer.
pub open spec fn send_dev(pre: NetStack, id: u64, peer_addr: Addr) -> Option<int> {
    match pre.cbs@[send_cb_at(pre, id)].interface {
        Some(d) => Some(d as int),
        None => spec_by_addr(pre.devices@, peer_addr@),
    }
}

/// Whether auto-assignment has no free source port left on device `d`.
pub open spec fn send_exhausted(pre: NetStack, id: u64, d: int) -> bool {
    &&& pre.cbs@[send_cb_at(pre, id)].port == 0
    &&& (forall|q: u16| q >= 49152 ==> spec_port_used(pre.cbs@, d, q))
}

/// Everything `send_to` does: interface selection with its
/// `NoInterface` failure, source-port auto-assignment in
/// [49152, 65535] with its `NoPort` failure, and the send itself from
/// the port the endpoint then holds.
pub open spec fn send_to_post(
    pre: NetStack,
    post: NetStack,
    out0: Seq<TxFrame>,
    out1: Seq<TxFrame>,
    id: u64,
    peer_addr: Addr,
    peer_port: u16,
    payload: Seq<u8>,
    now: u64,
    r: Result<(), NetError>,
) -> bool {
    &&& (send_dev(pre, id, peer_addr) is None ==> r == Err::<(), NetError>(NetError::NoInterface)
        && post == pre && out1 == out0)
    &&& (send_dev(pre, id, peer_addr) is Some && send_exhausted(
        pre,
        id,
        send_dev(pre, id, peer_addr).unwrap(),
    ) ==> r == Err::<(), NetError>(NetError::NoPort) && post == pre && out1 == out0)
    &&& (send_dev(pre, id, peer_addr) is Some && !send_exhausted(
        pre,
        id,
        send_dev(pre, id, peer_addr).unwrap(),
    ) ==> ({
        &&& (pre.cbs@[send_cb_at(pre, id)].port != 0 ==> post.cbs@[send_cb_at(pre, id)].port
            == pre.cbs@[send_cb_at(pre, id)].port)
        &&& (pre.cbs@[send_cb_at(pre, id)].port == 0 ==> 49152 <= post.cbs@[send_cb_at(
            pre,
            id,
        )].port <= 65535 && !spec_port_used(
            pre.cbs@,
            send_dev(pre, id, peer_addr).unwrap(),
            post.cbs@[send_cb_at(pre, id)].port,
        ) && (forall|q: u16|
            49152 <= q < post.cbs@[send_cb_at(pre, id)].port ==> spec_port_used(
                pre.cbs@,
                send_dev(pre, id, peer_addr).unwrap(),
                q,
            )))
        &&& post.cbs@ == pre.cbs@.update(
            send_cb_at(pre, id),
            Cb {
                port: post.cbs@[send_cb_at(pre, id)].port,
                ..pre.cbs@[send_cb_at(pre, id)]
            },
        )
        &&& ip_tx_post(
            (NetStack { cbs: post.cbs, ..pre }),
            post,
            out0,
            out1,
            send_dev(pre, id, peer_addr).unwrap(),
            0x11,
            spec_udp_checksummed(
                pre.devices@[send_dev(pre, id, peer_addr).unwrap()].interface.unwrap().unicast@,
                peer_addr@,
                post.cbs@[send_cb_at(pre, id)].port,
                peer_port,
                payload,
            ),
            peer_addr,
            now,
            r,
        )
    }))
}

/// Whether some endpoint's port allocation collides with `port` on
/// device `dev`.
fn port_is_used(stack: &NetStack, dev: usize, port: u16) -> (r: bool)
    ensures
        r == spec_port_used(stack.cbs@, dev as int, port),
{
    let n = stack.cbs.len();
    let mut i: usize = 0;
    while i < n
        invariant
            n == stack.cbs@.len(),
            i <= n,
            forall|j: int| 0 <= j < i ==> !cb_matches(#[trigger] stack.cbs@[j], dev as int, port),
        decreases n - i,
    {
        let matches_here = stack.cbs[i].port == port && (match &stack.cbs[i].interface {
            None => true,
            Some(e) => *e == dev,
        });
        if matches_here {
            proof {
                assert(cb_matches(stack.cbs@[i as int], dev as int, port));
            }
            return true;
        }
        i = i + 1;
    }
    false
}

/// A handle on one UDP endpoint.
pub struct Socket {
    pub id: u64,
}

/// Open an endpoint: a fresh id, no interface, port 0, empty queue.
pub fn open(stack: &mut NetStack) -> (s: Socket)
    requires
        old(stack).wf(),
        old(stack).next_id < u64::MAX,
    ensures
        final(stack).wf(),
        s.id == old(stack).next_id,
        final(stack).next_id == old(stack).next_id + 1,
        final(stack).cbs@.len() == old(stack).cbs@.len() + 1,
        forall|j: int| 0 <= j < old(stack).cbs@.len() ==> final(stack).cbs@[j] == old(stack).cbs@[j],
        final(stack).cbs@.last().id == s.id,
        final(stack).cbs@.last().interface is None,
        final(stack).cbs@.last().port == 0,
        final(stack).cbs@.last().queue.data@.len() == 0,
        *final(stack) == (NetStack {
            cbs: final(stack).cbs,
            next_id: final(stack).next_id,
            ..*old(stack)
        }),
{
    let id = stack.next_id;
    stack.next_id = stack.next_id + 1;
    stack.cbs.push(Cb { id, interface: None, port: 0, queue: queue::Queue::new() });
    Socket { id }
}

/// Find the control block for `id` in the endpoint table.
fn cb_index(stack: &NetStack, id: u64) -> (r: Option<usize>)
    ensures
        r matches Some(i) ==> Some(i as int) == spec_cb_lookup(stack.cbs@, id),
        r is None ==> spec_cb_lookup(stack.cbs@, id) is None,
{
    let n = stack.cbs.len();
    let mut i: usize = 0;
    while i < n
        invariant
            n == stack.cbs@.len(),
            i <= n,
            forall|j: int| 0 <= j < i ==> (#[trigger] stack.cbs@[j]).id != id,
        decreases n - i,
    {
        if stack.cbs[i].id == id {
            proof {
                lemma_spec_cb_lookup_converse(stack.cbs@, id, i as int);
            }
            return Some(i);
        }
        i = i + 1;
    }
    proof {
        lemma_spec_cb_lookup(stack.cbs@, id);
    }
    None
}

impl Socket {
    /// Bind to the local interface owning `addr`, and to `port`.
    pub fn bind(&self, stack: &mut NetStack, addr: Addr, port: u16) -> (r: Result<(), NetError>)
        requires
            old(stack).wf(),
            spec_cb_lookup(old(stack).cbs@, self.id) is Some,
        ensures
            final(stack).wf(),
            match spec_by_addr(old(stack).devices@, addr@) {
                None => r == Err::<(), NetError>(NetError::InvalidAddress) && *final(stack)
                    == *old(stack),
                Some(d) => ({
                    let i = spec_cb_lookup(old(stack).cbs@, self.id).unwrap();
                    &&& r is Ok
                    &&& final(stack).cbs@ == old(stack).cbs@.update(
                        i,
                        Cb {
                            interface: Some(d as usize),
                            port,
                            ..old(stack).cbs@[i]
                        },
                    )
                    &&& *final(stack) == (NetStack { cbs: final(stack).cbs, ..*old(stack) })
                }),
            },
    {
        let d = match interface::by_addr(stack, addr) {
            Some(d) => d,
            None => { return Err(NetError::InvalidAddress); },
        };
        let i = match cb_index(stack, self.id) {
            Some(i) => i,
            None => { return Err(NetError::InvalidAddress); },
        };
        proof {
            lemma_spec_cb_lookup(stack.cbs@, self.id);
        }
        let cb = &mut stack.cbs[i];
        cb.interface = Some(d);
        cb.port = port;
        Ok(())
    }

    /// Bind directly to device `dev`'s interface and to `port`.
    pub fn bind_interface(&self, stack: &mut NetStack, dev: usize, port: u16) -> (r: Result<
        (),
        NetError,
    >)
        requires
            old(stack).wf(),
            old(stack).dev_has_interface(dev as int),
            spec_cb_lookup(old(stack).cbs@, self.id) is Some,
        ensures
            final(stack).wf(),
            r is Ok,
            ({
                let i = spec_cb_lookup(old(stack).cbs@, self.id).unwrap();
                &&& final(stack).cbs@ == old(stack).cbs@.update(
                    i,
                    Cb { interface: Some(dev), port, ..old(stack).cbs@[i] },
                )
                &&& *final(stack) == (NetStack { cbs: final(stack).cbs, ..*old(stack) })
            }),
    {
        let i = match cb_index(stack, self.id) {
            Some(i) => i,
            None => { return Err(NetError::InvalidAddress); },
        };
        proof {
            lemma_spec_cb_lookup(stack.cbs@, self.id);
        }
        let cb = &mut stack.cbs[i];
        cb.interface = Some(dev);
        cb.port = port;
        Ok(())
    }

    /// Take the oldest datagram waiting on this endpoint, or report that
    /// the caller's wait has (so far) been in vain.
    pub fn recv_from(&self, stack: &mut NetStack) -> (r: Result<(Addr, u16, Buffer), NetError>)
        requires
            old(stack).wf(),
            spec_cb_lookup(old(stack).cbs@, self.id) is Some,
        ensures
            final(stack).wf(),
            ({
                let i = spec_cb_lookup(old(stack).cbs@, self.id).unwrap();
                let q = old(stack).cbs@[i].queue.data@;
                &&& (q.len() == 0 ==> r == Err::<(Addr, u16, Buffer), NetError>(NetError::Timeout)
                    && *final(stack) == *old(stack))
                &&& (q.len() > 0 ==> (r matches Ok((a, p, b)) && a@ == q[0].addr@ && p == q[0].port
                    && b@ == q[0].data@ && final(stack).cbs@.len() == old(stack).cbs@.len() && (
                    forall|j: int|
                        0 <= j < old(stack).cbs@.len() && j != i ==> final(stack).cbs@[j] == old(stack).cbs@[j]) && final(stack).cbs@[i].queue.data@ == q.skip(1) && final(stack).cbs@[i].id == old(stack).cbs@[i].id && final(stack).cbs@[i].interface == old(stack).cbs@[i].interface && final(stack).cbs@[i].port == old(stack).cbs@[i].port
                    && *final(stack) == (NetStack { cbs: final(stack).cbs, ..*old(stack) })))
            }),
    {
        let i = match cb_index(stack, self.id) {
            Some(i) => i,
            None => { return Err(NetError::Timeout); },
        };
        proof {
            lemma_spec_cb_lookup(stack.cbs@, self.id);
        }
        if stack.cbs[i].queue.data.len() == 0 {
            return Err(NetError::Timeout);
        }
        let cb = &mut stack.cbs[i];
        match cb.queue.pop() {
            Some(entry) => Ok((entry.addr, entry.port, entry.data)),
            None => Err(NetError::Timeout),
        }
    }

    /// Send `buf` to `peer_addr:peer_port`: the endpoint's interface —
    /// or the one owning a local address route to the peer — carries
    /// it; an endpoint still on port 0 first receives the lowest free
    /// source port in [49152, 65535].
    #[verifier::spinoff_prover]
    #[verifier::rlimit(100)]
    pub fn send_to(
        &self,
        stack: &mut NetStack,
        buf: Buffer,
        peer_addr: Addr,
        peer_port: u16,
        now: u64,
        out: &mut Vec<TxFrame>,
    ) -> (r: Result<(), NetError>)
        requires
            old(stack).wf(),
            spec_cb_lookup(old(stack).cbs@, self.id) is Some,
            buf@.len() + 8 <= 65515,
        ensures
            final(stack).wf(),
            send_to_post(
                *old(stack),
                *final(stack),
                old(out)@,
                final(out)@,
                self.id,
                peer_addr,
                peer_port,
                buf@,
                now,
                r,
            ),
    {
        let i = match cb_index(stack, self.id) {
            Some(i) => i,
            None => { return Err(NetError::NoInterface); },
        };
        proof {
            lemma_spec_cb_lookup(stack.cbs@, self.id);
        }
        let d = match &stack.cbs[i].interface {
            Some(d) => *d,
            None => match interface::by_addr(stack, peer_addr) {
                Some(d) => d,
                None => { return Err(NetError::NoInterface); },
            },
        };
        let current = stack.cbs[i].port;
        let p: u16 = if current == 0 {
            let mut q: u32 = SOURCE_PORT_MIN as u32;
            let mut found: Option<u16> = None;
            while q <= SOURCE_PORT_MAX as u32 && found.is_none()
                invariant
                    *stack == *old(stack),
                    49152 <= q <= 65536,
                    found is None ==> forall|t: u16|
                        49152 <= t < q ==> spec_port_used(stack.cbs@, d as int, t),
                    found matches Some(fp) ==> 49152 <= fp <= 65535 && !spec_port_used(
                        stack.cbs@,
                        d as int,
                        fp,
                    ) && (forall|t: u16|
                        49152 <= t < fp ==> spec_port_used(stack.cbs@, d as int, t)),
                decreases 0x10000 - q + (if found is None {
                    1int
                } else {
                    0int
                }),
            {
                if !port_is_used(stack, d, q as u16) {
                    found = Some(q as u16);
                } else {
                    q = q + 1;
                }
            }
            match found {
                Some(fp) => fp,
                None => { return Err(NetError::NoPort); },
            }
        } else {
            current
        };
        let ghost pre_cbs = stack.cbs@;
        {
            let cbm = &mut stack.cbs[i];
            cbm.port = p;
        }
        proof {
            assert(stack.cbs@ == pre_cbs.update(
                i as int,
                Cb { port: p, ..pre_cbs[i as int] },
            ));
        }
        let ghost mid = *stack;
        let r = tx(stack, d, p, buf, peer_addr, peer_port, now, out);
        proof {
            let gi = spec_cb_lookup(old(stack).cbs@, self.id).unwrap();
            let gcb = old(stack).cbs@[gi];
            assert(mid == (NetStack { cbs: stack.cbs, ..*old(stack) }));
            assert(stack.cbs@ == old(stack).cbs@.update(gi, Cb { port: p, ..gcb }));
            assert(stack.cbs@[gi].port == p);
            if gcb.port == 0 {
                assert(!spec_port_used(old(stack).cbs@, d as int, p));
            }
            assert(send_to_post(
                *old(stack),
                *stack,
                old(out)@,
                out@,
                self.id,
                peer_addr,
                peer_port,
                buf@,
                now,
                r,
            ));
        }
        r
    }

    /// Remove this endpoint and whatever still waits in its queue.
    pub fn close(&self, stack: &mut NetStack) -> (r: Result<(), NetError>)
        requires
            old(stack).wf(),
            spec_cb_lookup(old(stack).cbs@, self.id) is Some,
        ensures
            final(stack).wf(),
            r is Ok,
            final(stack).cbs@ == old(stack).cbs@.remove(
                spec_cb_lookup(old(stack).cbs@, self.id).unwrap(),
            ),
            *final(stack) == (NetStack { cbs: final(stack).cbs, ..*old(stack) }),
    {
        let i = match cb_index(stack, self.id) {
            Some(i) => i,
            None => { return Err(NetError::Timeout); },
        };
        proof {
            lemma_spec_cb_lookup(stack.cbs@, self.id);
        }
        stack.cbs.remove(i);
        Ok(())
    }
}

} // verus!

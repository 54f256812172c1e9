//! UDP endpoints, ARP resolution with the pending-send hold, source
//! ports, and route selection.

use netstack::arp;
use netstack::buffer::Buffer;
use netstack::ethernet::{self, Frame, MacAddr, Type};
use netstack::ip::dgram::Dgram;
use netstack::ip::interface::Interface;
use netstack::ip::route;
use netstack::ip::Addr;
use netstack::protocol::ProtocolType;
use netstack::stack::{NetStack, TxFrame};
use netstack::udp;
use netstack::util::NetError;

fn host_mac() -> MacAddr {
    MacAddr([0x02, 0x00, 0x00, 0x00, 0x00, 0x01])
}

fn peer_mac() -> MacAddr {
    MacAddr([0xaa, 0xbb, 0xcc, 0xdd, 0xee, 0x01])
}

fn host(unicast: [u8; 4], mask: [u8; 4]) -> (NetStack, usize) {
    let mut stack = NetStack::new();
    let dev = stack.open("tap0".to_string(), host_mac(), host_mac(), false);
    stack.add_interface(dev, Interface::new(Addr(unicast), Addr(mask), None));
    (stack, dev)
}

fn eth(dst: MacAddr, src: MacAddr, ty: Type, payload: Vec<u8>) -> Buffer {
    Frame { dst_addr: dst, src_addr: src, type_: ty, payload: Buffer::from_vec(payload) }
        .to_buffer()
}

fn udp_segment(src_port: u16, dst_port: u16, payload: &[u8]) -> Vec<u8> {
    netstack::udp::packet::Packet {
        src_port,
        dst_port,
        sum: 0,
        payload: Buffer::from_vec(payload.to_vec()),
    }
    .to_buffer()
    .to_vec()
}

fn udp_dgram(src: [u8; 4], dst: [u8; 4], src_port: u16, dst_port: u16, payload: &[u8]) -> Vec<u8> {
    Dgram {
        version_header_length: 0x45,
        type_of_service: 0,
        len: (28 + payload.len()) as u16,
        id: 1,
        offset: 0,
        time_to_live: 64,
        protocol: ProtocolType::Udp,
        checksum: 0,
        src: Addr(src),
        dst: Addr(dst),
        payload: Buffer::from_vec(udp_segment(src_port, dst_port, payload)),
    }
    .to_buffer()
    .to_vec()
}

fn sum16(bytes: &[u8], init: u32) -> u16 {
    let mut sum: u64 = init as u64;
    let mut i = 0;
    while i + 1 < bytes.len() {
        sum += (bytes[i] as u64) * 256 + bytes[i + 1] as u64;
        i += 2;
    }
    if i < bytes.len() {
        sum += (bytes[i] as u64) * 256;
    }
    while sum > 0xFFFF {
        sum = (sum & 0xFFFF) + (sum >> 16);
    }
    sum as u16
}

fn pseudo_init(src: [u8; 4], dst: [u8; 4], udp_len: u32) -> u32 {
    (src[0] as u32) * 256
        + src[1] as u32
        + (src[2] as u32) * 256
        + src[3] as u32
        + (dst[0] as u32) * 256
        + dst[1] as u32
        + (dst[2] as u32) * 256
        + dst[3] as u32
        + 0x11
        + udp_len
}

#[test]
fn resolve_holds_datagram_until_reply_arrives() {
    let (mut stack, dev) = host([10, 0, 0, 1], [255, 255, 255, 0]);
    let socket = udp::open(&mut stack);
    socket.bind(&mut stack, Addr([10, 0, 0, 1]), 7000).unwrap();

    let mut out: Vec<TxFrame> = Vec::new();
    socket
        .send_to(&mut stack, Buffer::from_vec(b"hi".to_vec()), Addr([10, 0, 0, 2]), 7, 1000, &mut out)
        .unwrap();

    // a broadcast ARP request for the peer, and no IPv4 frame yet
    assert_eq!(out.len(), 1);
    let f = Frame::from_buffer(Buffer::from_vec(out[0].frame.duplicate().to_vec())).unwrap();
    assert_eq!(f.dst_addr, MacAddr([0xff; 6]));
    assert!(matches!(f.type_, Type::Arp));
    let req = arp::Frame::from_buffer(f.payload).unwrap();
    assert_eq!(req.op, arp::Op::Request);
    assert_eq!(req.dst_ip_addr, Addr([10, 0, 0, 2]));
    assert_eq!(req.src_ip_addr, Addr([10, 0, 0, 1]));

    // the peer answers; exactly one frame leaves, carrying the datagram
    let reply = arp::Frame {
        op: arp::Op::Reply,
        src_mac_addr: peer_mac(),
        src_ip_addr: Addr([10, 0, 0, 2]),
        dst_mac_addr: host_mac(),
        dst_ip_addr: Addr([10, 0, 0, 1]),
    };
    let mut out2: Vec<TxFrame> = Vec::new();
    ethernet::rx(
        &mut stack,
        eth(host_mac(), peer_mac(), Type::Arp, reply.to_buffer().to_vec()),
        dev,
        1001,
        &mut out2,
    )
    .unwrap();
    assert_eq!(out2.len(), 1);
    let f = Frame::from_buffer(Buffer::from_vec(out2[0].frame.duplicate().to_vec())).unwrap();
    assert_eq!(f.dst_addr, peer_mac());
    assert!(matches!(f.type_, Type::Ip));
    let d = Dgram::from_buffer(f.payload).unwrap();
    assert_eq!(d.protocol, ProtocolType::Udp);
    assert_eq!(d.dst, Addr([10, 0, 0, 2]));
    let seg = d.payload.to_vec();
    assert_eq!(&seg[8..], b"hi");
    // the cache entry keeps nothing pending
    assert!(stack.arp_entries.iter().all(|e| e.data.0.is_empty()));
}

#[test]
fn udp_send_writes_valid_pseudo_checksum() {
    let (mut stack, dev) = host([10, 0, 0, 1], [255, 255, 255, 0]);
    // the peer is already known
    let reply = arp::Frame {
        op: arp::Op::Request,
        src_mac_addr: peer_mac(),
        src_ip_addr: Addr([10, 0, 0, 2]),
        dst_mac_addr: MacAddr([0; 6]),
        dst_ip_addr: Addr([10, 0, 0, 1]),
    };
    let mut out: Vec<TxFrame> = Vec::new();
    ethernet::rx(
        &mut stack,
        eth(host_mac(), peer_mac(), Type::Arp, reply.to_buffer().to_vec()),
        dev,
        1000,
        &mut out,
    )
    .unwrap();
    out.clear();

    let socket = udp::open(&mut stack);
    socket.bind(&mut stack, Addr([10, 0, 0, 1]), 7).unwrap();
    socket
        .send_to(&mut stack, Buffer::from_vec(b"ping".to_vec()), Addr([10, 0, 0, 2]), 5555, 1001, &mut out)
        .unwrap();
    assert_eq!(out.len(), 1);
    let f = Frame::from_buffer(Buffer::from_vec(out[0].frame.duplicate().to_vec())).unwrap();
    let d = Dgram::from_buffer(f.payload).unwrap();
    let seg = d.payload.to_vec();
    assert_eq!(seg.len(), 12);
    // pseudo-header plus segment folds to all-ones
    let init = pseudo_init([10, 0, 0, 1], [10, 0, 0, 2], 12);
    assert_eq!(sum16(&seg, init), 0xFFFF);
    assert_eq!(&seg[0..2], &[0, 7]);
}

#[test]
fn udp_echo_loop_keeps_bound_port() {
    let (mut stack, dev) = host([10, 0, 0, 1], [255, 255, 255, 0]);
    let socket = udp::open(&mut stack);
    socket.bind(&mut stack, Addr([10, 0, 0, 1]), 7).unwrap();

    let mut out: Vec<TxFrame> = Vec::new();
    let dgram = udp_dgram([10, 0, 0, 2], [10, 0, 0, 1], 5555, 7, b"ping");
    ethernet::rx(&mut stack, eth(host_mac(), peer_mac(), Type::Ip, dgram), dev, 1000, &mut out)
        .unwrap();

    let (peer, port, data) = socket.recv_from(&mut stack).unwrap();
    assert_eq!(peer, Addr([10, 0, 0, 2]));
    assert_eq!(port, 5555);
    assert_eq!(data.duplicate().to_vec(), b"ping".to_vec());

    // answer; the peer's address was never resolved, so first the hold...
    socket.send_to(&mut stack, data, Addr([10, 0, 0, 2]), 5555, 1001, &mut out).unwrap();
    let reply = arp::Frame {
        op: arp::Op::Reply,
        src_mac_addr: peer_mac(),
        src_ip_addr: Addr([10, 0, 0, 2]),
        dst_mac_addr: host_mac(),
        dst_ip_addr: Addr([10, 0, 0, 1]),
    };
    out.clear();
    ethernet::rx(
        &mut stack,
        eth(host_mac(), peer_mac(), Type::Arp, reply.to_buffer().to_vec()),
        dev,
        1002,
        &mut out,
    )
    .unwrap();
    assert_eq!(out.len(), 1);
    let f = Frame::from_buffer(Buffer::from_vec(out[0].frame.duplicate().to_vec())).unwrap();
    let d = Dgram::from_buffer(f.payload).unwrap();
    let seg = d.payload.to_vec();
    // the source port of the echoed datagram is the bound port 7
    assert_eq!(&seg[0..2], &[0, 7]);
    assert_eq!(&seg[8..], b"ping");
}

#[test]
fn auto_assigned_ports_start_at_range_bottom() {
    let (mut stack, dev) = host([10, 0, 0, 1], [255, 255, 255, 0]);
    let mut out: Vec<TxFrame> = Vec::new();
    // bound to the interface but still on port 0: the first send assigns one
    let s1 = udp::open(&mut stack);
    s1.bind_interface(&mut stack, dev, 0).unwrap();
    s1.send_to(&mut stack, Buffer::from_vec(vec![1]), Addr([10, 0, 0, 2]), 9, 1000, &mut out)
        .unwrap();
    let s2 = udp::open(&mut stack);
    s2.bind_interface(&mut stack, dev, 0).unwrap();
    s2.send_to(&mut stack, Buffer::from_vec(vec![2]), Addr([10, 0, 0, 2]), 9, 1000, &mut out)
        .unwrap();
    let p1 = stack.cbs[0].port;
    let p2 = stack.cbs[1].port;
    assert_eq!(p1, 49152);
    assert_eq!(p2, 49153);
    assert!((49152..=65535).contains(&p1));
    assert!((49152..=65535).contains(&p2));
}

#[test]
fn delivery_reaches_only_the_first_matching_endpoint() {
    let (mut stack, dev) = host([10, 0, 0, 1], [255, 255, 255, 0]);
    let first = udp::open(&mut stack);
    let second = udp::open(&mut stack);
    first.bind(&mut stack, Addr([10, 0, 0, 1]), 7).unwrap();
    second.bind(&mut stack, Addr([10, 0, 0, 1]), 7).unwrap();

    let mut out: Vec<TxFrame> = Vec::new();
    let dgram = udp_dgram([10, 0, 0, 2], [10, 0, 0, 1], 5555, 7, b"once");
    ethernet::rx(&mut stack, eth(host_mac(), peer_mac(), Type::Ip, dgram), dev, 1000, &mut out)
        .unwrap();

    assert!(first.recv_from(&mut stack).is_ok());
    assert!(matches!(second.recv_from(&mut stack), Err(NetError::Timeout)));
}

#[test]
fn datagram_for_unbound_port_is_dropped() {
    let (mut stack, dev) = host([10, 0, 0, 1], [255, 255, 255, 0]);
    let socket = udp::open(&mut stack);
    socket.bind(&mut stack, Addr([10, 0, 0, 1]), 7).unwrap();
    let mut out: Vec<TxFrame> = Vec::new();
    let dgram = udp_dgram([10, 0, 0, 2], [10, 0, 0, 1], 5555, 9, b"stray");
    let r = ethernet::rx(&mut stack, eth(host_mac(), peer_mac(), Type::Ip, dgram), dev, 1000, &mut out);
    assert!(r.is_ok());
    assert!(matches!(socket.recv_from(&mut stack), Err(NetError::Timeout)));
}

#[test]
fn bind_to_foreign_address_is_invalid() {
    let (mut stack, _dev) = host([10, 0, 0, 1], [255, 255, 255, 0]);
    let socket = udp::open(&mut stack);
    let r = socket.bind(&mut stack, Addr([192, 168, 1, 1]), 7);
    assert!(matches!(r, Err(NetError::InvalidAddress)));
}

#[test]
fn send_without_route_fails() {
    let (mut stack, _dev) = host([10, 0, 0, 1], [255, 255, 255, 0]);
    let socket = udp::open(&mut stack);
    socket.bind(&mut stack, Addr([10, 0, 0, 1]), 7).unwrap();
    let mut out: Vec<TxFrame> = Vec::new();
    let r = socket.send_to(&mut stack, Buffer::from_vec(vec![1]), Addr([192, 168, 1, 1]), 9, 1000, &mut out);
    assert!(matches!(r, Err(NetError::NoRoute)));
    assert!(out.is_empty());
}

#[test]
fn resolution_timeout_clears_pending_entry() {
    let (mut stack, dev) = host([10, 0, 0, 1], [255, 255, 255, 0]);
    let mut out: Vec<TxFrame> = Vec::new();
    let held = arp::resolve(
        &mut stack,
        dev,
        Addr([10, 0, 0, 2]),
        Buffer::from_vec(vec![1, 2, 3]),
        1000,
        &mut out,
    )
    .unwrap();
    assert!(held.is_none());
    assert_eq!(stack.arp_entries.len(), 1);
    // the waiter gives up
    let r = arp::resolve_timeout(&mut stack, &Addr([10, 0, 0, 2]));
    assert!(matches!(r, Err(NetError::ArpTimeout)));
    assert!(stack.arp_entries.is_empty());
}

#[test]
fn patrol_expires_stale_entries() {
    let (mut stack, dev) = host([10, 0, 0, 1], [255, 255, 255, 0]);
    let mut out: Vec<TxFrame> = Vec::new();
    arp::resolve(&mut stack, dev, Addr([10, 0, 0, 2]), Buffer::empty(), 1000, &mut out).unwrap();
    assert_eq!(stack.arp_entries.len(), 1);
    // within the lifetime nothing is dropped
    arp::table::patrol(&mut stack, 1200);
    assert_eq!(stack.arp_entries.len(), 1);
    // five minutes on, the entry goes, and the waiter then times out
    arp::table::patrol(&mut stack, 1400);
    assert!(stack.arp_entries.is_empty());
    let r = arp::resolve_timeout(&mut stack, &Addr([10, 0, 0, 2]));
    assert!(matches!(r, Err(NetError::ArpTimeout)));
}

#[test]
fn longest_prefix_wins_and_default_catches_rest() {
    let mut stack = NetStack::new();
    let d0 = stack.open("tap0".to_string(), host_mac(), host_mac(), false);
    stack.add_interface(
        d0,
        Interface::new(Addr([10, 0, 0, 1]), Addr([255, 255, 255, 0]), Some(Addr([10, 0, 0, 254]))),
    );
    let d1 = stack.open("tap1".to_string(), MacAddr([2, 0, 0, 0, 0, 2]), MacAddr([2, 0, 0, 0, 0, 2]), false);
    stack.add_interface(d1, Interface::new(Addr([10, 0, 1, 1]), Addr([255, 255, 0, 0]), None));

    // the /24 beats the /16 for its own network
    let r = route::lookup(&stack, None, Addr([10, 0, 0, 77])).unwrap();
    assert_eq!(r.interface, d0);
    assert_eq!(r.netmask, Addr([255, 255, 255, 0]));
    assert!(r.nexthop.is_none());
    // the /16 carries the rest of its range
    let r = route::lookup(&stack, None, Addr([10, 0, 9, 9])).unwrap();
    assert_eq!(r.interface, d1);
    assert_eq!(r.netmask, Addr([255, 255, 0, 0]));
    // anything else falls to the default route through the gateway
    let r = route::lookup(&stack, None, Addr([8, 8, 8, 8])).unwrap();
    assert_eq!(r.interface, d0);
    assert_eq!(r.nexthop, Some(Addr([10, 0, 0, 254])));
    // a matching route exists: the chosen mask is at least as long as any match
    assert!(r.netmask.value() <= Addr([255, 255, 0, 0]).value());
}

#[test]
fn large_send_is_fragmented_and_carries_valid_headers() {
    let (mut stack, dev) = host([10, 0, 0, 1], [255, 255, 255, 0]);
    // the peer is known, so fragments leave at once
    let learn = arp::Frame {
        op: arp::Op::Request,
        src_mac_addr: peer_mac(),
        src_ip_addr: Addr([10, 0, 0, 2]),
        dst_mac_addr: MacAddr([0; 6]),
        dst_ip_addr: Addr([10, 0, 0, 1]),
    };
    let mut out: Vec<TxFrame> = Vec::new();
    ethernet::rx(
        &mut stack,
        eth(host_mac(), peer_mac(), Type::Arp, learn.to_buffer().to_vec()),
        dev,
        1000,
        &mut out,
    )
    .unwrap();
    out.clear();

    let socket = udp::open(&mut stack);
    socket.bind(&mut stack, Addr([10, 0, 0, 1]), 7).unwrap();
    let payload: Vec<u8> = (0..3000u32).map(|i| (i % 241) as u8).collect();
    socket
        .send_to(&mut stack, Buffer::from_vec(payload.clone()), Addr([10, 0, 0, 2]), 9, 1001, &mut out)
        .unwrap();

    // 3008 segment bytes cut into 1480 + 1480 + 48
    assert_eq!(out.len(), 3);
    let mut reassembled: Vec<u8> = Vec::new();
    let mut offsets: Vec<u16> = Vec::new();
    for tx in &out {
        let f = Frame::from_buffer(Buffer::from_vec(tx.frame.duplicate().to_vec())).unwrap();
        let bytes = f.payload.to_vec();
        assert_eq!(sum16(&bytes[..20], 0), 0xFFFF);
        let d = Dgram::from_buffer(Buffer::from_vec(bytes)).unwrap();
        offsets.push(d.offset);
        reassembled.extend_from_slice(&d.payload.to_vec());
    }
    assert_eq!(offsets, vec![0x2000, 0x2000 | 185, 370]);
    assert_eq!(&reassembled[8..], &payload[..]);
}

#[test]
fn exhausted_port_range_reports_no_port() {
    let (mut stack, dev) = host([10, 0, 0, 1], [255, 255, 255, 0]);
    // every assignable source port is taken
    for p in 49152u32..=65535u32 {
        let s = udp::open(&mut stack);
        s.bind_interface(&mut stack, dev, p as u16).unwrap();
    }
    let late = udp::open(&mut stack);
    late.bind_interface(&mut stack, dev, 0).unwrap();
    let mut out: Vec<TxFrame> = Vec::new();
    let r = late.send_to(&mut stack, Buffer::from_vec(vec![1]), Addr([10, 0, 0, 2]), 9, 1000, &mut out);
    assert!(matches!(r, Err(NetError::NoPort)));
    assert!(out.is_empty());
}

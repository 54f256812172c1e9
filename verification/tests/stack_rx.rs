//! Receive-path scenarios: echo reply, forwarding, TTL expiry, and
//! fragment reassembly, driven through the Ethernet entry point.

use netstack::buffer::Buffer;
use netstack::ethernet::{self, Frame, MacAddr, Type};
use netstack::icmp;
use netstack::ip::dgram::Dgram;
use netstack::ip::interface::Interface;
use netstack::ip::Addr;
use netstack::protocol::ProtocolType;
use netstack::stack::{NetStack, TxFrame};
use netstack::udp;
use netstack::util::NetError;

fn host_mac() -> MacAddr {
    MacAddr([0x02, 0x00, 0x00, 0x00, 0x00, 0x01])
}

fn peer_mac() -> MacAddr {
    MacAddr([0xaa, 0xbb, 0xcc, 0xdd, 0xee, 0x01])
}

fn host(unicast: [u8; 4], mask: [u8; 4]) -> (NetStack, usize) {
    let mut stack = NetStack::new();
    let dev = stack.open("tap0".to_string(), host_mac(), host_mac(), false);
    stack.add_interface(dev, Interface::new(Addr(unicast), Addr(mask), None));
    (stack, dev)
}

fn eth(dst: MacAddr, src: MacAddr, ty: Type, payload: Vec<u8>) -> Buffer {
    Frame { dst_addr: dst, src_addr: src, type_: ty, payload: Buffer::from_vec(payload) }
        .to_buffer()
}

fn ip_dgram(
    src: [u8; 4],
    dst: [u8; 4],
    proto: ProtocolType,
    ttl: u8,
    id: u16,
    offset: u16,
    payload: Vec<u8>,
) -> Vec<u8> {
    Dgram {
        version_header_length: 0x45,
        type_of_service: 0,
        len: (20 + payload.len()) as u16,
        id,
        offset,
        time_to_live: ttl,
        protocol: proto,
        checksum: 0,
        src: Addr(src),
        dst: Addr(dst),
        payload: Buffer::from_vec(payload),
    }
    .to_buffer()
    .to_vec()
}

/// Teach the stack that `ip` is at `mac`, by answering as that host.
fn learn_neighbor(stack: &mut NetStack, dev: usize, our_ip: [u8; 4], ip: [u8; 4], mac: MacAddr) {
    let request = netstack::arp::Frame {
        op: netstack::arp::Op::Request,
        src_mac_addr: mac,
        src_ip_addr: Addr(ip),
        dst_mac_addr: MacAddr([0; 6]),
        dst_ip_addr: Addr(our_ip),
    };
    let frame = eth(host_mac(), mac, Type::Arp, request.to_buffer().to_vec());
    let mut out: Vec<TxFrame> = Vec::new();
    ethernet::rx(stack, frame, dev, 1000, &mut out).unwrap();
}

fn sum16(bytes: &[u8]) -> u16 {
    let mut sum: u64 = 0;
    let mut i = 0;
    while i + 1 < bytes.len() {
        sum += (bytes[i] as u64) * 256 + bytes[i + 1] as u64;
        i += 2;
    }
    if i < bytes.len() {
        sum += (bytes[i] as u64) * 256;
    }
    while sum > 0xFFFF {
        sum = (sum & 0xFFFF) + (sum >> 16);
    }
    sum as u16
}

#[test]
fn echo_request_gets_echo_reply() {
    let (mut stack, dev) = host([10, 0, 0, 1], [255, 255, 255, 0]);
    learn_neighbor(&mut stack, dev, [10, 0, 0, 1], [10, 0, 0, 2], peer_mac());

    let echo = icmp::IcmpFrame {
        type_: icmp::Type::Echo,
        code: icmp::Code::Others(0),
        values: 0x00010001,
        sum: 0,
        payload: Buffer::from_vec(b"abcd".to_vec()),
    };
    let dgram = ip_dgram(
        [10, 0, 0, 2],
        [10, 0, 0, 1],
        ProtocolType::Icmp,
        64,
        7,
        0,
        echo.to_buffer().to_vec(),
    );
    let frame = eth(host_mac(), peer_mac(), Type::Ip, dgram);
    let mut out: Vec<TxFrame> = Vec::new();
    ethernet::rx(&mut stack, frame, dev, 1000, &mut out).unwrap();

    assert_eq!(out.len(), 1);
    let reply = Frame::from_buffer(Buffer::from_vec(out[0].frame.duplicate().to_vec())).unwrap();
    assert_eq!(reply.dst_addr, peer_mac());
    assert!(matches!(reply.type_, Type::Ip));
    let reply_bytes = reply.payload.to_vec();
    // the twenty-byte header sums to all-ones
    assert_eq!(sum16(&reply_bytes[..20]), 0xFFFF);
    let d = Dgram::from_buffer(Buffer::from_vec(reply_bytes)).unwrap();
    assert_eq!(d.src, Addr([10, 0, 0, 1]));
    assert_eq!(d.dst, Addr([10, 0, 0, 2]));
    assert_eq!(d.protocol, ProtocolType::Icmp);
    let msg_bytes = d.payload.to_vec();
    assert_eq!(sum16(&msg_bytes), 0xFFFF);
    let msg = icmp::IcmpFrame::from_buffer(Buffer::from_vec(msg_bytes)).unwrap();
    assert!(matches!(msg.type_, icmp::Type::EchoReply));
    assert_eq!(msg.values, 0x00010001);
    assert_eq!(msg.payload.to_vec(), b"abcd".to_vec());
}

#[test]
fn fragmented_datagram_reassembles() {
    let (mut stack, dev) = host([10, 0, 0, 1], [255, 255, 255, 0]);
    let socket = udp::open(&mut stack);
    socket.bind(&mut stack, Addr([10, 0, 0, 1]), 4242).unwrap();

    // one 1500-byte UDP segment: ports, length 1500, then 1492 bytes
    let mut segment: Vec<u8> = Vec::new();
    segment.extend_from_slice(&[0x15, 0xb3, 0x10, 0x92, 0x05, 0xdc, 0, 0]);
    for i in 0..1492u32 {
        segment.push((i % 251) as u8);
    }
    assert_eq!(segment.len(), 1500);
    let part_a = segment[..1480].to_vec();
    let part_b = segment[1480..].to_vec();

    let frag_a = ip_dgram([10, 0, 0, 2], [10, 0, 0, 1], ProtocolType::Udp, 64, 0x1234, 0x2000, part_a);
    let frag_b = ip_dgram([10, 0, 0, 2], [10, 0, 0, 1], ProtocolType::Udp, 64, 0x1234, 185, part_b);

    let mut out: Vec<TxFrame> = Vec::new();
    ethernet::rx(&mut stack, eth(host_mac(), peer_mac(), Type::Ip, frag_a), dev, 1000, &mut out)
        .unwrap();
    ethernet::rx(&mut stack, eth(host_mac(), peer_mac(), Type::Ip, frag_b), dev, 1001, &mut out)
        .unwrap();

    let (peer, port, data) = socket.recv_from(&mut stack).unwrap();
    assert_eq!(peer, Addr([10, 0, 0, 2]));
    assert_eq!(port, 0x15b3);
    let got = data.to_vec();
    assert_eq!(got.len(), 1492);
    assert_eq!(got, segment[8..].to_vec());
}

#[test]
fn fragments_in_reverse_order_still_reassemble() {
    let (mut stack, dev) = host([10, 0, 0, 1], [255, 255, 255, 0]);
    let socket = udp::open(&mut stack);
    socket.bind(&mut stack, Addr([10, 0, 0, 1]), 4242).unwrap();

    let mut segment: Vec<u8> = vec![0x15, 0xb3, 0x10, 0x92, 0x05, 0xdc, 0, 0];
    for i in 0..1492u32 {
        segment.push((i % 163) as u8);
    }
    let frag_a = ip_dgram(
        [10, 0, 0, 2],
        [10, 0, 0, 1],
        ProtocolType::Udp,
        64,
        0x4321,
        0x2000,
        segment[..1480].to_vec(),
    );
    let frag_b = ip_dgram(
        [10, 0, 0, 2],
        [10, 0, 0, 1],
        ProtocolType::Udp,
        64,
        0x4321,
        185,
        segment[1480..].to_vec(),
    );
    let mut out: Vec<TxFrame> = Vec::new();
    // the final fragment arrives first and must wait
    let r = ethernet::rx(&mut stack, eth(host_mac(), peer_mac(), Type::Ip, frag_b), dev, 1000, &mut out);
    assert!(matches!(r, Err(NetError::Incomplete)));
    ethernet::rx(&mut stack, eth(host_mac(), peer_mac(), Type::Ip, frag_a), dev, 1001, &mut out)
        .unwrap();
    // the first fragment alone does not complete either; resend the last
    let frag_b2 = ip_dgram(
        [10, 0, 0, 2],
        [10, 0, 0, 1],
        ProtocolType::Udp,
        64,
        0x4321,
        185,
        segment[1480..].to_vec(),
    );
    ethernet::rx(&mut stack, eth(host_mac(), peer_mac(), Type::Ip, frag_b2), dev, 1002, &mut out)
        .unwrap();
    let (_, _, data) = socket.recv_from(&mut stack).unwrap();
    assert_eq!(data.to_vec(), segment[8..].to_vec());
}

#[test]
fn too_many_reassemblies_are_refused() {
    let (mut stack, dev) = host([10, 0, 0, 1], [255, 255, 255, 0]);
    let mut out: Vec<TxFrame> = Vec::new();
    for id in 0..8u16 {
        let frag = ip_dgram([10, 0, 0, 2], [10, 0, 0, 1], ProtocolType::Udp, 64, id, 0x2000, vec![0u8; 8]);
        ethernet::rx(&mut stack, eth(host_mac(), peer_mac(), Type::Ip, frag), dev, 1000, &mut out)
            .unwrap();
    }
    let frag = ip_dgram([10, 0, 0, 2], [10, 0, 0, 1], ProtocolType::Udp, 64, 99, 0x2000, vec![0u8; 8]);
    let r = ethernet::rx(&mut stack, eth(host_mac(), peer_mac(), Type::Ip, frag), dev, 1001, &mut out);
    assert!(matches!(r, Err(NetError::TooManyFragments)));
}

fn router() -> (NetStack, usize, usize) {
    let mut stack = NetStack::new();
    let dev0 = stack.open("tap0".to_string(), host_mac(), host_mac(), false);
    stack.add_interface(dev0, Interface::new(Addr([172, 16, 0, 1]), Addr([255, 255, 255, 0]), None));
    let dev10 = stack.open(
        "tap10".to_string(),
        MacAddr([0x02, 0, 0, 0, 0, 0x02]),
        MacAddr([0x02, 0, 0, 0, 0, 0x02]),
        false,
    );
    stack.add_interface(
        dev10,
        Interface::new(Addr([172, 16, 1, 1]), Addr([255, 255, 255, 0]), None),
    );
    stack.set_is_forwarding(true);
    (stack, dev0, dev10)
}

#[test]
fn forwarding_decrements_ttl_and_rewrites_checksum() {
    let (mut stack, dev0, dev10) = router();
    // the nexthop on the far network is already known
    learn_neighbor(&mut stack, dev10, [172, 16, 1, 1], [172, 16, 1, 5], peer_mac());

    let dgram = ip_dgram(
        [172, 16, 0, 5],
        [172, 16, 1, 5],
        ProtocolType::Udp,
        64,
        0x0042,
        0,
        vec![0, 7, 0, 7, 0, 12, 0, 0, 1, 2, 3, 4],
    );
    let mut out: Vec<TxFrame> = Vec::new();
    ethernet::rx(&mut stack, eth(host_mac(), MacAddr([9; 6]), Type::Ip, dgram), dev0, 1000, &mut out)
        .unwrap();

    assert_eq!(out.len(), 1);
    assert_eq!(out[0].dev, dev10);
    let f = Frame::from_buffer(Buffer::from_vec(out[0].frame.duplicate().to_vec())).unwrap();
    assert_eq!(f.dst_addr, peer_mac());
    let bytes = f.payload.to_vec();
    assert_eq!(sum16(&bytes[..20]), 0xFFFF);
    let d = Dgram::from_buffer(Buffer::from_vec(bytes)).unwrap();
    assert_eq!(d.time_to_live, 63);
    assert_eq!(d.src, Addr([172, 16, 0, 5]));
    assert_eq!(d.dst, Addr([172, 16, 1, 5]));
}

#[test]
fn forwarding_unknown_nexthop_asks_arp_first() {
    let (mut stack, dev0, dev10) = router();
    let dgram = ip_dgram(
        [172, 16, 0, 5],
        [172, 16, 1, 5],
        ProtocolType::Udp,
        64,
        0x0042,
        0,
        vec![0, 7, 0, 7, 0, 9, 0, 0, 1],
    );
    let mut out: Vec<TxFrame> = Vec::new();
    ethernet::rx(&mut stack, eth(host_mac(), MacAddr([9; 6]), Type::Ip, dgram), dev0, 1000, &mut out)
        .unwrap();
    // no forwarded datagram yet: one ARP request for the destination
    assert_eq!(out.len(), 1);
    assert_eq!(out[0].dev, dev10);
    let f = Frame::from_buffer(Buffer::from_vec(out[0].frame.duplicate().to_vec())).unwrap();
    assert!(matches!(f.type_, Type::Arp));
    let req = netstack::arp::Frame::from_buffer(f.payload).unwrap();
    assert_eq!(req.op, netstack::arp::Op::Request);
    assert_eq!(req.dst_ip_addr, Addr([172, 16, 1, 5]));
}

#[test]
fn ttl_expiry_reports_time_exceeded() {
    let (mut stack, dev0, _dev10) = router();
    // the offender's address is already resolvable for the error report
    learn_neighbor(&mut stack, dev0, [172, 16, 0, 1], [172, 16, 0, 5], peer_mac());

    let dgram = ip_dgram(
        [172, 16, 0, 5],
        [172, 16, 1, 5],
        ProtocolType::Udp,
        1,
        0x0042,
        0,
        vec![0, 7, 0, 7, 0, 9, 0, 0, 1],
    );
    let mut out: Vec<TxFrame> = Vec::new();
    let r = ethernet::rx(
        &mut stack,
        eth(host_mac(), peer_mac(), Type::Ip, dgram),
        dev0,
        1000,
        &mut out,
    );
    assert!(matches!(r, Err(NetError::TimeExceeded)));
    // no forwarded packet; exactly the ICMP error
    assert_eq!(out.len(), 1);
    assert_eq!(out[0].dev, dev0);
    let f = Frame::from_buffer(Buffer::from_vec(out[0].frame.duplicate().to_vec())).unwrap();
    let d = Dgram::from_buffer(f.payload).unwrap();
    assert_eq!(d.protocol, ProtocolType::Icmp);
    assert_eq!(d.dst, Addr([172, 16, 0, 5]));
    let msg = icmp::IcmpFrame::from_buffer(d.payload).unwrap();
    assert!(matches!(msg.type_, icmp::Type::TimeExceeded));
    assert!(matches!(msg.code, icmp::Code::Exceeded(icmp::CodeExceeded::Ttl)));
}

#[test]
fn forwarding_without_route_reports_unreachable() {
    let (mut stack, dev0, _dev10) = router();
    learn_neighbor(&mut stack, dev0, [172, 16, 0, 1], [172, 16, 0, 5], peer_mac());
    let dgram = ip_dgram(
        [172, 16, 0, 5],
        [192, 168, 9, 9],
        ProtocolType::Udp,
        64,
        0x0042,
        0,
        vec![0, 7, 0, 7, 0, 9, 0, 0, 1],
    );
    let mut out: Vec<TxFrame> = Vec::new();
    let r = ethernet::rx(
        &mut stack,
        eth(host_mac(), peer_mac(), Type::Ip, dgram),
        dev0,
        1000,
        &mut out,
    );
    assert!(matches!(r, Err(NetError::DestUnreach)));
    let f = Frame::from_buffer(Buffer::from_vec(out[0].frame.duplicate().to_vec())).unwrap();
    let d = Dgram::from_buffer(f.payload).unwrap();
    let msg = icmp::IcmpFrame::from_buffer(d.payload).unwrap();
    assert!(matches!(msg.type_, icmp::Type::DestUnreach));
    assert!(matches!(msg.code, icmp::Code::Unreach(icmp::CodeUnreach::Net)));
}

#[test]
fn dont_fragment_oversize_reports_fragment_needed() {
    let (mut stack, dev0, _dev10) = router();
    learn_neighbor(&mut stack, dev0, [172, 16, 0, 1], [172, 16, 0, 5], peer_mac());
    let dgram = ip_dgram(
        [172, 16, 0, 5],
        [172, 16, 1, 5],
        ProtocolType::Udp,
        64,
        0x0042,
        0x4000,
        vec![0u8; 1600],
    );
    let mut out: Vec<TxFrame> = Vec::new();
    let r = ethernet::rx(
        &mut stack,
        eth(host_mac(), peer_mac(), Type::Ip, dgram),
        dev0,
        1000,
        &mut out,
    );
    assert!(matches!(r, Err(NetError::FragmentNeeded)));
    let f = Frame::from_buffer(Buffer::from_vec(out[0].frame.duplicate().to_vec())).unwrap();
    let d = Dgram::from_buffer(f.payload).unwrap();
    let msg = icmp::IcmpFrame::from_buffer(d.payload).unwrap();
    assert!(matches!(msg.code, icmp::Code::Unreach(icmp::CodeUnreach::FragmentNeeded)));
}

#[test]
fn dropped_silently_when_forwarding_is_off() {
    let (mut stack, dev) = host([10, 0, 0, 1], [255, 255, 255, 0]);
    let dgram = ip_dgram([10, 0, 0, 2], [10, 9, 9, 9], ProtocolType::Udp, 64, 1, 0, vec![0u8; 9]);
    let mut out: Vec<TxFrame> = Vec::new();
    let r = ethernet::rx(&mut stack, eth(host_mac(), peer_mac(), Type::Ip, dgram), dev, 1000, &mut out);
    assert!(r.is_ok());
    assert!(out.is_empty());
}

#[test]
fn device_without_interface_refuses_ip() {
    let mut stack = NetStack::new();
    let dev = stack.open("tap0".to_string(), host_mac(), host_mac(), false);
    let dgram = ip_dgram([10, 0, 0, 2], [10, 0, 0, 1], ProtocolType::Udp, 64, 1, 0, vec![0u8; 9]);
    let mut out: Vec<TxFrame> = Vec::new();
    let r = ethernet::rx(&mut stack, eth(host_mac(), peer_mac(), Type::Ip, dgram), dev, 1000, &mut out);
    assert!(matches!(r, Err(NetError::NoInterface)));
}

//! Wire-format round trips and checksum arithmetic, on concrete values.

use netstack::arp;
use netstack::buffer::Buffer;
use netstack::ethernet::{Frame, MacAddr, Type};
use netstack::icmp;
use netstack::ip::dgram::Dgram;
use netstack::ip::Addr;
use netstack::protocol::ProtocolType;
use netstack::udp::packet::Packet;
use netstack::util::{calc_checksum, htons, ntohs, NetError};

fn sum16(bytes: &[u8], init: u32) -> u16 {
    let mut sum: u64 = init as u64;
    let mut i = 0;
    while i + 1 < bytes.len() {
        sum += (bytes[i] as u64) * 256 + bytes[i + 1] as u64;
        i += 2;
    }
    if i < bytes.len() {
        sum += (bytes[i] as u64) * 256;
    }
    while sum > 0xFFFF {
        sum = (sum & 0xFFFF) + (sum >> 16);
    }
    sum as u16
}

#[test]
fn ethernet_roundtrip() {
    let dst = MacAddr([0xaa, 0xbb, 0xcc, 0xdd, 0xee, 0x01]);
    let src = MacAddr([0x02, 0x03, 0x04, 0x05, 0x06, 0x07]);
    let payload: Vec<u8> = vec![1, 2, 3, 4, 5];
    let frame = Frame {
        dst_addr: dst,
        src_addr: src,
        type_: Type::Ip,
        payload: Buffer::from_vec(payload.clone()),
    };
    let bytes = frame.to_buffer();
    assert_eq!(bytes.0.len(), 14 + 5);
    let parsed = Frame::from_buffer(bytes).unwrap();
    assert_eq!(parsed.dst_addr, dst);
    assert_eq!(parsed.src_addr, src);
    assert!(matches!(parsed.type_, Type::Ip));
    assert_eq!(parsed.payload.to_vec(), payload);
}

#[test]
fn ethernet_rejects_unknown_ethertype() {
    let mut bytes = vec![0u8; 12];
    bytes.push(0x12);
    bytes.push(0x34);
    assert!(Frame::from_buffer(Buffer::from_vec(bytes)).is_err());
}

#[test]
fn ethernet_rejects_short_frame() {
    let r = Frame::from_buffer(Buffer::from_vec(vec![0u8; 13]));
    assert!(matches!(r, Err(NetError::Parse)));
}

#[test]
fn arp_roundtrip_request_and_reply() {
    for op in [arp::Op::Request, arp::Op::Reply] {
        let f = arp::Frame {
            op,
            src_mac_addr: MacAddr([1, 2, 3, 4, 5, 6]),
            src_ip_addr: Addr([10, 0, 0, 1]),
            dst_mac_addr: MacAddr([0, 0, 0, 0, 0, 0]),
            dst_ip_addr: Addr([10, 0, 0, 2]),
        };
        let bytes = f.to_buffer();
        assert_eq!(bytes.0.len(), 28);
        let parsed = arp::Frame::from_buffer(bytes).unwrap();
        assert_eq!(parsed.op, op);
        assert_eq!(parsed.src_mac_addr, MacAddr([1, 2, 3, 4, 5, 6]));
        assert_eq!(parsed.src_ip_addr, Addr([10, 0, 0, 1]));
        assert_eq!(parsed.dst_mac_addr, MacAddr([0, 0, 0, 0, 0, 0]));
        assert_eq!(parsed.dst_ip_addr, Addr([10, 0, 0, 2]));
    }
}

#[test]
fn arp_rejects_wrong_hardware_type() {
    let f = arp::Frame {
        op: arp::Op::Request,
        src_mac_addr: MacAddr([1, 2, 3, 4, 5, 6]),
        src_ip_addr: Addr([10, 0, 0, 1]),
        dst_mac_addr: MacAddr([0; 6]),
        dst_ip_addr: Addr([10, 0, 0, 2]),
    };
    let mut bytes = f.to_buffer().to_vec();
    bytes[1] = 9;
    assert!(arp::Frame::from_buffer(Buffer::from_vec(bytes)).is_err());
}

#[test]
fn dgram_roundtrip() {
    let d = Dgram {
        version_header_length: 0x45,
        type_of_service: 0,
        len: 24,
        id: 0x1234,
        offset: 0,
        time_to_live: 64,
        protocol: ProtocolType::Udp,
        checksum: 0xBEEF,
        src: Addr([192, 168, 0, 1]),
        dst: Addr([192, 168, 0, 2]),
        payload: Buffer::from_vec(vec![9, 8, 7, 6]),
    };
    let bytes = d.to_buffer();
    assert_eq!(bytes.0.len(), 24);
    let p = Dgram::from_buffer(bytes).unwrap();
    assert_eq!(p.version_header_length, 0x45);
    assert_eq!(p.len, 24);
    assert_eq!(p.id, 0x1234);
    assert_eq!(p.time_to_live, 64);
    assert_eq!(p.protocol, ProtocolType::Udp);
    assert_eq!(p.checksum, 0xBEEF);
    assert_eq!(p.src, Addr([192, 168, 0, 1]));
    assert_eq!(p.dst, Addr([192, 168, 0, 2]));
    assert_eq!(p.payload.to_vec(), vec![9, 8, 7, 6]);
}

#[test]
fn dgram_rejects_unknown_protocol() {
    let mut bytes = vec![0u8; 20];
    bytes[9] = 99;
    let r = Dgram::from_buffer(Buffer::from_vec(bytes));
    assert!(matches!(r, Err(NetError::BadProtocol(99))));
}

#[test]
fn udp_packet_roundtrip_and_length_check() {
    let p = Packet {
        src_port: 7,
        dst_port: 5555,
        sum: 0,
        payload: Buffer::from_vec(b"ping".to_vec()),
    };
    let bytes = p.to_buffer().to_vec();
    assert_eq!(bytes.len(), 12);
    assert_eq!(bytes[4], 0);
    assert_eq!(bytes[5], 12);
    let parsed = Packet::from_buffer(Buffer::from_vec(bytes.clone())).unwrap();
    assert_eq!(parsed.src_port, 7);
    assert_eq!(parsed.dst_port, 5555);
    assert_eq!(parsed.payload.to_vec(), b"ping".to_vec());
    // a wrong length field is refused
    let mut bad = bytes;
    bad[5] = 13;
    assert!(Packet::from_buffer(Buffer::from_vec(bad)).is_err());
}

#[test]
fn icmp_roundtrip() {
    let f = icmp::IcmpFrame {
        type_: icmp::Type::Echo,
        code: icmp::Code::Others(0),
        values: 0x00010001,
        sum: 0,
        payload: Buffer::from_vec(b"abcd".to_vec()),
    };
    let bytes = f.to_buffer();
    assert_eq!(bytes.0.len(), 12);
    let p = icmp::IcmpFrame::from_buffer(bytes).unwrap();
    assert!(matches!(p.type_, icmp::Type::Echo));
    assert_eq!(p.values, 0x00010001);
    assert_eq!(p.payload.to_vec(), b"abcd".to_vec());
}

#[test]
fn icmp_rejects_out_of_range_code() {
    // Destination Unreachable admits codes 0 through 5 only
    let bytes = vec![3u8, 6, 0, 0, 0, 0, 0, 0];
    assert!(icmp::IcmpFrame::from_buffer(Buffer::from_vec(bytes)).is_err());
}

#[test]
fn checksum_known_value() {
    // 0x0001 + 0xf203 = 0xf204; its one's complement is 0x0dfb
    let data = [0x00u8, 0x01, 0xf2, 0x03];
    assert_eq!(calc_checksum(&data, 4, 0), 0x0dfb);
}

#[test]
fn checksum_odd_length_pads_low_byte() {
    // 0xab00 alone; complement is 0x54ff
    let data = [0xabu8];
    assert_eq!(calc_checksum(&data, 1, 0), 0x54ff);
}

#[test]
fn checksum_self_verifies() {
    let data = [0x12u8, 0x34, 0x56, 0x78, 0x9a, 0xbc, 0x00, 0x00];
    let c = calc_checksum(&data, 8, 0);
    let mut patched = data;
    patched[6] = (c / 256) as u8;
    patched[7] = (c % 256) as u8;
    assert_eq!(sum16(&patched, 0), 0xFFFF);
}

#[test]
fn byte_order_swaps() {
    assert_eq!(htons(0x1234), 0x3412);
    assert_eq!(ntohs(0x3412), 0x1234);
}

#[test]
fn buffer_pop_and_push_are_inverse() {
    let mut b = Buffer::empty();
    b.push_u8(0x7f);
    b.push_u16(0xbeef);
    b.push_u32(0x01020304);
    assert_eq!(b.0.len(), 7);
    let mut b = Buffer::from_vec(b.to_vec());
    assert_eq!(b.pop_u8("x").unwrap(), 0x7f);
    assert_eq!(b.pop_u16("x").unwrap(), 0xbeef);
    assert_eq!(b.pop_u32("x").unwrap(), 0x01020304);
    assert!(b.is_empty());
    assert!(matches!(b.pop_u8("x"), Err(NetError::Parse)));
}

#[test]
fn buffer_write_overwrites_in_place() {
    let mut b = Buffer::from_vec(vec![0, 1, 2, 3, 4, 5]);
    b.write(2, Buffer::from_vec(vec![9, 9]));
    assert_eq!(b.to_vec(), vec![0, 1, 9, 9, 4, 5]);
    let mut b = Buffer::from_vec(vec![0, 1, 2]);
    b.write_u16(1, 0xCAFE);
    assert_eq!(b.to_vec(), vec![0, 0xCA, 0xFE]);
}

#[test]
fn addr_mask_and_value() {
    let a = Addr([172, 16, 5, 9]);
    let m = Addr([255, 255, 0, 0]);
    assert_eq!(a.apply_mask(&m), Addr([172, 16, 0, 0]));
    assert_eq!(Addr([255, 255, 255, 0]).value(), 0xFFFFFF00);
    assert_eq!(Addr([0, 0, 0, 0]), Addr::empty());
    assert_eq!(Addr([255, 255, 255, 255]), Addr::full());
}

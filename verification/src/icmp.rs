//! ICMP: message types and codes, the message format, the echo
//! responder, and error emission.

use vstd::prelude::*;
use crate::buffer::{be16, be32, from_be16, Buffer};
use crate::ip::interface::{self, ip_tx_post};
use crate::ip::Addr;
use crate::protocol::ProtocolType;
use crate::stack::{NetStack, TxFrame};
use crate::util::{checksum_of, NetError};

verus! {

/// The ICMP message types the stack recognizes.
#[derive(Debug, Clone, Copy, PartialEq, Eq, Structural)]
pub enum Type {
    EchoReply,
    DestUnreach,
    SourceQuench,
    Redirect,
    Echo,
    TimeExceeded,
    ParamProblem,
    Timestamp,
    TimestampReply,
    InfoRequest,
    InfoReply,
}

impl Type {
    pub open spec fn spec_to_u8(self) -> u8 {
        match self {
            Type::EchoReply => 0,
            Type::DestUnreach => 3,
            Type::SourceQuench => 4,
            Type::Redirect => 5,
            Type::Echo => 8,
            Type::TimeExceeded => 11,
            Type::ParamProblem => 12,
            Type::Timestamp => 13,
            Type::TimestampReply => 14,
            Type::InfoRequest => 15,
            Type::InfoReply => 16,
        }
    }

    pub open spec fn spec_from_u8(n: u8) -> Option<Type> {
        if n == 0 {
            Some(Type::EchoReply)
        } else if n == 3 {
            Some(Type::DestUnreach)
        } else if n == 4 {
            Some(Type::SourceQuench)
        } else if n == 5 {
            Some(Type::Redirect)
        } else if n == 8 {
            Some(Type::Echo)
        } else if n == 11 {
            Some(Type::TimeExceeded)
        } else if n == 12 {
            Some(Type::ParamProblem)
        } else if n == 13 {
            Some(Type::Timestamp)
        } else if n == 14 {
            Some(Type::TimestampReply)
        } else if n == 15 {
            Some(Type::InfoRequest)
        } else if n == 16 {
            Some(Type::InfoReply)
        } else {
            None
        }
    }

    pub fn to_u8(self) -> (r: u8)
        ensures
            r == self.spec_to_u8(),
    {
        match self {
            Type::EchoReply => 0,
            Type::DestUnreach => 3,
            Type::SourceQuench => 4,
            Type::Redirect => 5,
            Type::Echo => 8,
            Type::TimeExceeded => 11,
            Type::ParamProblem => 12,
            Type::Timestamp => 13,
            Type::TimestampReply => 14,
            Type::InfoRequest => 15,
            Type::InfoReply => 16,
        }
    }

    pub fn from_u8(n: u8) -> (r: Option<Type>)
        ensures
            r == Type::spec_from_u8(n),
    {
        if n == 0 {
            Some(Type::EchoReply)
        } else if n == 3 {
            Some(Type::DestUnreach)
        } else if n == 4 {
            Some(Type::SourceQuench)
        } else if n == 5 {
            Some(Type::Redirect)
        } else if n == 8 {
            Some(Type::Echo)
        } else if n == 11 {
            Some(Type::TimeExceeded)
        } else if n == 12 {
            Some(Type::ParamProblem)
        } else if n == 13 {
            Some(Type::Timestamp)
        } else if n == 14 {
            Some(Type::TimestampReply)
        } else if n == 15 {
            Some(Type::InfoRequest)
        } else if n == 16 {
            Some(Type::InfoReply)
        } else {
            None
        }
    }
}

/// Codes for Destination Unreachable.
#[derive(Debug, Clone, Copy, PartialEq, Eq, Structural)]
pub enum CodeUnreach {
    Net,
    Host,
    Proto,
    Port,
    FragmentNeeded,
    SourceRouteFailed,
}

impl CodeUnreach {
    pub open spec fn spec_to_u8(self) -> u8 {
        match self {
            CodeUnreach::Net => 0,
            CodeUnreach::Host => 1,
            CodeUnreach::Proto => 2,
            CodeUnreach::Port => 3,
            CodeUnreach::FragmentNeeded => 4,
            CodeUnreach::SourceRouteFailed => 5,
        }
    }

    pub fn from_u8(n: u8) -> (r: Option<CodeUnreach>)
        ensures
            r matches Some(c) ==> c.spec_to_u8() == n,
            r is None <==> n > 5,
    {
        if n == 0 {
            Some(CodeUnreach::Net)
        } else if n == 1 {
            Some(CodeUnreach::Host)
        } else if n == 2 {
            Some(CodeUnreach::Proto)
        } else if n == 3 {
            Some(CodeUnreach::Port)
        } else if n == 4 {
            Some(CodeUnreach::FragmentNeeded)
        } else if n == 5 {
            Some(CodeUnreach::SourceRouteFailed)
        } else {
            None
        }
    }
}

/// Codes for Redirect.
#[derive(Debug, Clone, Copy, PartialEq, Eq, Structural)]
pub enum CodeRedirect {
    Net,
    Host,
    TosNet,
    TosHost,
}

impl CodeRedirect {
    pub open spec fn spec_to_u8(self) -> u8 {
        match self {
            CodeRedirect::Net => 0,
            CodeRedirect::Host => 1,
            CodeRedirect::TosNet => 2,
            CodeRedirect::TosHost => 3,
        }
    }

    pub fn from_u8(n: u8) -> (r: Option<CodeRedirect>)
        ensures
            r matches Some(c) ==> c.spec_to_u8() == n,
            r is None <==> n > 3,
    {
        if n == 0 {
            Some(CodeRedirect::Net)
        } else if n == 1 {
            Some(CodeRedirect::Host)
        } else if n == 2 {
            Some(CodeRedirect::TosNet)
        } else if n == 3 {
            Some(CodeRedirect::TosHost)
        } else {
            None
        }
    }
}

/// Codes for Time Exceeded.
#[derive(Debug, Clone, Copy, PartialEq, Eq, Structural)]
pub enum CodeExceeded {
    Ttl,
    Fragment,
}

impl CodeExceeded {
    pub open spec fn spec_to_u8(self) -> u8 {
        match self {
            CodeExceeded::Ttl => 0,
            CodeExceeded::Fragment => 1,
        }
    }

    pub fn from_u8(n: u8) -> (r: Option<CodeExceeded>)
        ensures
            r matches Some(c) ==> c.spec_to_u8() == n,
            r is None <==> n > 1,
    {
        if n == 0 {
            Some(CodeExceeded::Ttl)
        } else if n == 1 {
            Some(CodeExceeded::Fragment)
        } else {
            None
        }
    }
}

/// A code, read under its message type.
#[derive(Debug, Clone, Copy, PartialEq, Eq, Structural)]
pub enum Code {
    Unreach(CodeUnreach),
    Redirect(CodeRedirect),
    Exceeded(CodeExceeded),
    Others(u8),
}

impl Code {
    pub open spec fn spec_to_u8(self) -> u8 {
        match self {
            Code::Unreach(c) => c.spec_to_u8(),
            Code::Redirect(c) => c.spec_to_u8(),
            Code::Exceeded(c) => c.spec_to_u8(),
            Code::Others(n) => n,
        }
    }

    /// Whether `n` is an acceptable code byte under type `ty`.
    pub open spec fn spec_valid(n: u8, ty: u8) -> bool {
        if ty == 3 {
            n <= 5
        } else if ty == 5 {
            n <= 3
        } else if ty == 11 {
            n <= 1
        } else {
            true
        }
    }

    pub fn from_u8(n: u8, type_: Type) -> (r: Option<Code>)
        ensures
            r matches Some(c) ==> c.spec_to_u8() == n && Code::spec_valid(n, type_.spec_to_u8()),
            r is None <==> !Code::spec_valid(n, type_.spec_to_u8()),
    {
        match type_ {
            Type::DestUnreach => match CodeUnreach::from_u8(n) {
                Some(c) => Some(Code::Unreach(c)),
                None => None,
            },
            Type::Redirect => match CodeRedirect::from_u8(n) {
                Some(c) => Some(Code::Redirect(c)),
                None => None,
            },
            Type::TimeExceeded => match CodeExceeded::from_u8(n) {
                Some(c) => Some(Code::Exceeded(c)),
                None => None,
            },
            _ => Some(Code::Others(n)),
        }
    }

    pub fn to_u8(&self) -> (r: u8)
        ensures
            r == self.spec_to_u8(),
    {
        match self {
            Code::Unreach(code) => match code {
                CodeUnreach::Net => 0,
                CodeUnreach::Host => 1,
                CodeUnreach::Proto => 2,
                CodeUnreach::Port => 3,
                CodeUnreach::FragmentNeeded => 4,
                CodeUnreach::SourceRouteFailed => 5,
            },
            Code::Redirect(code) => match code {
                CodeRedirect::Net => 0,
                CodeRedirect::Host => 1,
                CodeRedirect::TosNet => 2,
                CodeRedirect::TosHost => 3,
            },
            Code::Exceeded(code) => match code {
                CodeExceeded::Ttl => 0,
                CodeExceeded::Fragment => 1,
            },
            Code::Others(n) => *n,
        }
    }
}

/// An ICMP message: type, code, checksum, the four-byte values field,
/// and the payload.
pub struct IcmpFrame {
    pub type_: Type,
    pub code: Code,
    pub values: u32,
    pub sum: u16,
    pub payload: Buffer,
}

/// The message bytes: type, code, checksum, values, payload.
pub open spec fn spec_build_icmp(ty: u8, code: u8, sum: u16, values: u32, payload: Seq<u8>) -> Seq<
    u8,
> {
    seq![ty, code] + be16(sum) + be32(values) + payload
}

/// The message the stack emits: checksum computed over the whole
/// message with the checksum field zero, then written into its slot.
pub open spec fn spec_icmp_checksummed(ty: u8, code: u8, values: u32, payload: Seq<u8>) -> Seq<u8> {
    let b0 = spec_build_icmp(ty, code, 0, values, payload);
    let c = checksum_of(b0, 0);
    b0.update(2, (c / 256) as u8).update(3, (c % 256) as u8)
}

/// The one's-complement sum of an emitted ICMP message is all-ones.
pub proof fn lemma_icmp_checksum(ty: u8, code: u8, values: u32, payload: Seq<u8>)
    ensures
        crate::util::fold16(
            crate::util::sum_words(spec_icmp_checksummed(ty, code, values, payload)),
        ) == 0xFFFF,
{
    let b0 = spec_build_icmp(ty, code, 0, values, payload);
    assert(b0[2] == 0 && b0[3] == 0);
    crate::util::lemma_checksum_insert(b0, 1, 0);
}

/// What parsing a message yields, or nothing when it is short or its
/// code is out of range for its type.
pub open spec fn spec_parse_icmp(b: Seq<u8>) -> Option<(u8, u8, u16, u32, Seq<u8>)> {
    if b.len() < 8 {
        None
    } else if Type::spec_from_u8(b[0]) is None {
        None
    } else if !Code::spec_valid(b[1], b[0]) {
        None
    } else {
        Some((b[0], b[1], from_be16(b[2], b[3]), 0u32, b.skip(8)))
    }
}

impl IcmpFrame {
    /// Parse a message.
    pub fn from_buffer(buf: Buffer) -> (r: Result<IcmpFrame, NetError>)
        ensures
            match spec_parse_icmp(buf@) {
                Some((ty, code, sum, _v, payload)) => r matches Ok(f) && f.type_.spec_to_u8() == ty
                    && f.code.spec_to_u8() == code && f.sum == sum && f.values as int == buf@[4]
                    * 0x1000000 + buf@[5] * 0x10000 + buf@[6] * 256 + buf@[7] && f.payload@
                    == payload,
                None => r is Err,
            },
    {
        let ghost orig = buf@;
        let mut buf = buf;
        if buf.0.len() < 8 {
            return Err(NetError::Parse);
        }
        let n = match buf.pop_u8("type") {
            Ok(v) => v,
            Err(e) => { return Err(e); },
        };
        let type_ = match Type::from_u8(n) {
            Some(t) => t,
            None => { return Err(NetError::Parse); },
        };
        let n = match buf.pop_u8("code") {
            Ok(v) => v,
            Err(e) => { return Err(e); },
        };
        let code = match Code::from_u8(n, type_) {
            Some(c) => c,
            None => { return Err(NetError::Parse); },
        };
        let sum = match buf.pop_u16("sum") {
            Ok(v) => v,
            Err(e) => { return Err(e); },
        };
        let values = match buf.pop_u32("values") {
            Ok(v) => v,
            Err(e) => { return Err(e); },
        };
        proof {
            assert(buf@ =~= orig.skip(8));
        }
        Ok(IcmpFrame { type_, code, values, sum, payload: buf })
    }

    /// Serialize the message.
    pub fn to_buffer(self) -> (r: Buffer)
        ensures
            r@ == spec_build_icmp(
                self.type_.spec_to_u8(),
                self.code.spec_to_u8(),
                self.sum,
                self.values,
                self.payload@,
            ),
    {
        let mut buffer = Buffer::new(self.payload.0.len());
        buffer.push_u8(self.type_.to_u8());
        buffer.push_u8(self.code.to_u8());
        buffer.push_u16(self.sum);
        buffer.push_u32(self.values);
        buffer.append(self.payload);
        proof {
            assert(buffer@ =~= spec_build_icmp(
                self.type_.spec_to_u8(),
                self.code.spec_to_u8(),
                self.sum,
                self.values,
                self.payload@,
            ));
        }
        buffer
    }
}

/// The length in bytes of the part of an offending datagram an ICMP
/// error carries: its header and eight payload bytes.
pub fn length(dgram: &crate::ip::dgram::Dgram) -> (r: usize)
    ensures
        r == (dgram.version_header_length & 0x0f) * 4 + 8,
{
    let ihl = dgram.version_header_length & 0x0f;
    proof {
        let vhl = dgram.version_header_length;
        assert(vhl & 0x0f <= 0x0f) by (bit_vector);
    }
    (ihl as usize) * 4 + 8
}

/// Send one ICMP message to `dst` out of device `dev`'s interface: the
/// checksum is computed over the whole message, and the datagram takes
/// the ordinary IPv4 output path.
pub fn tx(
    stack: &mut NetStack,
    dev: usize,
    type_: Type,
    code: Code,
    values: u32,
    payload: Buffer,
    dst: &Addr,
    now: u64,
    out: &mut Vec<TxFrame>,
) -> (r: Result<(), NetError>)
    requires
        old(stack).wf(),
        old(stack).dev_has_interface(dev as int),
        payload@.len() + 8 <= 65515,
    ensures
        final(stack).wf(),
        ip_tx_post(
            *old(stack),
            *final(stack),
            old(out)@,
            final(out)@,
            dev as int,
            0x01,
            spec_icmp_checksummed(type_.spec_to_u8(), code.spec_to_u8(), values, payload@),
            *dst,
            now,
            r,
        ),
{
    let ghost pl = payload@;
    let frame = IcmpFrame { type_, code, values, sum: 0, payload };
    let buf_vec = frame.to_buffer().to_vec();
    let n = buf_vec.len();
    let sum = crate::util::calc_checksum(buf_vec.as_slice(), n, 0);
    proof {
        assert(buf_vec@.take(n as int) =~= buf_vec@);
    }
    let mut data = Buffer::from_vec(buf_vec);
    data.write_u16(2, sum);
    proof {
        assert(data@ =~= spec_icmp_checksummed(
            type_.spec_to_u8(),
            code.spec_to_u8(),
            values,
            pl,
        ));
    }
    interface::tx(stack, dev, ProtocolType::Icmp, data, dst, now, out)
}

/// What receiving an ICMP message does: an echo request is answered in
/// kind — same code, values and payload, sent back to the source — and
/// everything else is absorbed.
pub open spec fn icmp_rx_post(
    pre: NetStack,
    post: NetStack,
    out0: Seq<TxFrame>,
    out1: Seq<TxFrame>,
    packet: Seq<u8>,
    src: Addr,
    dev: int,
    now: u64,
    r: Result<(), NetError>,
) -> bool {
    match spec_parse_icmp(packet) {
        None => r is Err && post == pre && out1 == out0,
        Some((ty, code, _sum, _v, payload)) => {
            if ty == 8 {
                ip_tx_post(
                    pre,
                    post,
                    out0,
                    out1,
                    dev,
                    0x01,
                    spec_icmp_checksummed(
                        0,
                        code,
                        crate::buffer::from_be32_int(packet[4], packet[5], packet[6], packet[7]),
                        payload,
                    ),
                    src,
                    now,
                    r,
                )
            } else {
                r is Ok && post == pre && out1 == out0
            }
        },
    }
}

/// Receive an ICMP message addressed to this host: echo requests are
/// answered, everything else absorbed.
pub fn rx(
    stack: &mut NetStack,
    packet: Buffer,
    src: &Addr,
    _dst: &Addr,
    dev: usize,
    now: u64,
    out: &mut Vec<TxFrame>,
) -> (r: Result<(), NetError>)
    requires
        old(stack).wf(),
        old(stack).dev_has_interface(dev as int),
        packet@.len() <= 65515,
    ensures
        final(stack).wf(),
        icmp_rx_post(
            *old(stack),
            *final(stack),
            old(out)@,
            final(out)@,
            packet@,
            *src,
            dev as int,
            now,
            r,
        ),
{
    let frame = match IcmpFrame::from_buffer(packet) {
        Ok(f) => f,
        Err(e) => { return Err(e); },
    };
    if let Type::Echo = frame.type_ {
        tx(stack, dev, Type::EchoReply, frame.code, frame.values, frame.payload, src, now, out)
    } else {
        Ok(())
    }
}

} // verus!

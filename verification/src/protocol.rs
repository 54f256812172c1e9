//! The IPv4 protocol numbers the stack knows how to carry.

use vstd::prelude::*;

verus! {

/// An upper-layer protocol inside an IPv4 datagram.
#[derive(Debug, Clone, Copy, PartialEq, Eq, Structural)]
pub enum ProtocolType {
    Icmp,
    Tcp,
    Udp,
    Raw,
}

impl ProtocolType {
    pub open spec fn spec_to_u8(self) -> u8 {
        match self {
            ProtocolType::Icmp => 0x01,
            ProtocolType::Tcp => 0x06,
            ProtocolType::Udp => 0x11,
            ProtocolType::Raw => 0xff,
        }
    }

    pub open spec fn spec_from_u8(n: u8) -> Option<ProtocolType> {
        if n == 0x01 {
            Some(ProtocolType::Icmp)
        } else if n == 0x06 {
            Some(ProtocolType::Tcp)
        } else if n == 0x11 {
            Some(ProtocolType::Udp)
        } else if n == 0xff {
            Some(ProtocolType::Raw)
        } else {
            None
        }
    }

    pub fn to_u8(self) -> (r: u8)
        ensures
            r == self.spec_to_u8(),
    {
        match self {
            ProtocolType::Icmp => 0x01,
            ProtocolType::Tcp => 0x06,
            ProtocolType::Udp => 0x11,
            ProtocolType::Raw => 0xff,
        }
    }

    pub fn from_u8(n: u8) -> (r: Option<ProtocolType>)
        ensures
            r == ProtocolType::spec_from_u8(n),
    {
        if n == 0x01 {
            Some(ProtocolType::Icmp)
        } else if n == 0x06 {
            Some(ProtocolType::Tcp)
        } else if n == 0x11 {
            Some(ProtocolType::Udp)
        } else if n == 0xff {
            Some(ProtocolType::Raw)
        } else {
            None
        }
    }
}

} // verus!

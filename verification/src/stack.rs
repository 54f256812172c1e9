//! The stack's state: every device, table and counter in one value, with
//! the frames it wants on the wire returned to the caller as effects.

use vstd::prelude::*;
use crate::arp::table::Entry;
use crate::buffer::Buffer;
use crate::ethernet::{spec_mac_any, MacAddr};
use crate::ip::fragment::Fragment;
use crate::ip::interface::Interface;
use crate::ip::route::Route;
use crate::udp::Cb;

verus! {

/// A frame the stack wants transmitted on a device's link.
pub struct TxFrame {
    pub dev: usize,
    pub frame: Buffer,
}

/// `post` extends `pre` with one frame for device `dev` holding `bytes`.
pub open spec fn pushed_frame(pre: Seq<TxFrame>, post: Seq<TxFrame>, dev: int, bytes: Seq<u8>) -> bool {
    &&& post.len() == pre.len() + 1
    &&& (forall|i: int| 0 <= i < pre.len() ==> post[i] == pre[i])
    &&& post.last().dev == dev
    &&& post.last().frame@ == bytes
}

/// An Ethernet device: its link-level identity and at most one attached
/// IPv4 interface.
pub struct DeviceImpl {
    pub name: String,
    pub addr: MacAddr,
    pub broadcast_addr: MacAddr,
    pub noarp: bool,
    pub interface: Option<Interface>,
}

/// The whole stack: devices, the routing table, the ARP cache, the
/// reassembly table, the UDP endpoints, and the two scalar registers.
pub struct NetStack {
    pub devices: Vec<DeviceImpl>,
    pub routes: Vec<Route>,
    pub arp_entries: Vec<Entry>,
    /// When the ARP cache was last swept for expired entries.
    pub arp_timestamp: u64,
    pub fragments: Vec<Fragment>,
    /// When the reassembly table was last swept.
    pub frag_timestamp: u64,
    pub cbs: Vec<Cb>,
    /// The next UDP endpoint id to hand out.
    pub next_id: u64,
    /// The IPv4 identification counter, post-incremented per datagram.
    pub id_counter: u16,
    pub is_forwarding: bool,
}

impl NetStack {
    /// Device index `d` exists and has an IPv4 interface attached.
    pub open spec fn dev_has_interface(self, d: int) -> bool {
        &&& 0 <= d < self.devices@.len()
        &&& self.devices@[d].interface is Some
    }

    /// Well-formedness: every table row points at a device that exists
    /// and carries an interface, and every reassembly entry is full-sized.
    pub open spec fn wf(self) -> bool {
        &&& (forall|i: int|
            0 <= i < self.routes@.len() ==> self.dev_has_interface(
                (#[trigger] self.routes@[i]).interface as int,
            ))
        &&& (forall|i: int|
            0 <= i < self.arp_entries@.len() ==> self.dev_has_interface(
                (#[trigger] self.arp_entries@[i]).interface as int,
            ))
        &&& (forall|i: int|
            0 <= i < self.cbs@.len() ==> ((#[trigger] self.cbs@[i]).interface matches Some(d)
                ==> self.dev_has_interface(d as int)))
        &&& (forall|i: int|
            0 <= i < self.fragments@.len() ==> (#[trigger] self.fragments@[i]).data@.len() == 65535
                && self.fragments@[i].mask@.len() == 65535)
        &&& self.fragments@.len() <= 8
    }

    /// A stack with no devices, empty tables, forwarding off, and the
    /// identification counter at its initial value.
    pub fn new() -> (r: NetStack)
        ensures
            r.wf(),
            r.devices@.len() == 0,
            r.routes@.len() == 0,
            r.arp_entries@.len() == 0,
            r.fragments@.len() == 0,
            r.cbs@.len() == 0,
            r.next_id == 0,
            r.id_counter == 128,
            !r.is_forwarding,
            r.arp_timestamp == 0,
            r.frag_timestamp == 0,
    {
        NetStack {
            devices: Vec::new(),
            routes: Vec::new(),
            arp_entries: Vec::new(),
            arp_timestamp: 0,
            fragments: Vec::new(),
            frag_timestamp: 0,
            cbs: Vec::new(),
            next_id: 0,
            id_counter: 128,
            is_forwarding: false,
        }
    }

    /// Register a device. The caller passes the link's own hardware
    /// address; it is adopted when `addr` is the all-zero "any" address.
    pub fn open(&mut self, name: String, addr: MacAddr, link_addr: MacAddr, noarp: bool) -> (dev:
        usize)
        requires
            old(self).wf(),
        ensures
            final(self).wf(),
            dev == old(self).devices@.len(),
            final(self).devices@.len() == old(self).devices@.len() + 1,
            forall|i: int| 0 <= i < old(self).devices@.len() ==> final(self).devices@[i] == old(
                self,
            ).devices@[i],
            final(self).devices@.last().addr@ == (if addr@ == spec_mac_any() {
                link_addr@
            } else {
                addr@
            }),
            final(self).devices@.last().interface is None,
            final(self).devices@.last().noarp == noarp,
            final(self).devices@.last().broadcast_addr@ == crate::ethernet::spec_mac_broadcast(),
            *final(self) == (NetStack { devices: final(self).devices, ..*old(self) }),
    {
        let any = MacAddr::empty();
        let chosen = if addr == any {
            link_addr
        } else {
            addr
        };
        let dev = self.devices.len();
        self.devices.push(
            DeviceImpl {
                name,
                addr: chosen,
                broadcast_addr: MacAddr::broadcast(),
                noarp,
                interface: None,
            },
        );
        dev
    }

    /// Switch datagram forwarding between interfaces on or off.
    pub fn set_is_forwarding(&mut self, b: bool)
        ensures
            *final(self) == (NetStack { is_forwarding: b, ..*old(self) }),
    {
        self.is_forwarding = b;
    }

    /// Hand out the next IPv4 identification value, post-incrementing
    /// the wrap-around counter.
    pub fn generate_id(&mut self) -> (id: u16)
        ensures
            id == old(self).id_counter,
            final(self).id_counter == (if old(self).id_counter == 0xFFFF {
                0u16
            } else {
                (old(self).id_counter + 1) as u16
            }),
            *final(self) == (NetStack { id_counter: final(self).id_counter, ..*old(self) }),
    {
        let ret = self.id_counter;
        self.id_counter = if self.id_counter == 0xFFFF {
            0
        } else {
            self.id_counter + 1
        };
        ret
    }
}

} // verus!

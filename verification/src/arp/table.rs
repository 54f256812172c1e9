//! The ARP cache: address pairs with a timestamp, an optional held
//! datagram awaiting resolution, and periodic expiry.

use vstd::prelude::*;
use crate::buffer::Buffer;
use crate::ethernet::{spec_mac_any, MacAddr};
use crate::ip::Addr;
use crate::stack::NetStack;
use crate::util::NetError;

verus! {

/// Seconds between sweeps of the cache.
pub const PATROL_INTERVAL: u64 = 10;

/// Seconds an entry lives after its last refresh.
pub const ENTRY_TIMEOUT: u64 = 300;

/// One cache entry. An all-zero `mac_addr` means resolution is in
/// flight; a non-empty `data` is an IPv4 frame held until it completes.
pub struct Entry {
    pub ip_addr: Addr,
    pub mac_addr: MacAddr,
    pub timestamp: u64,
    pub data: Buffer,
    pub interface: usize,
}

impl Entry {
    pub fn new(ip_addr: Addr, mac_addr: MacAddr, interface: usize, now: u64) -> (r: Entry)
        ensures
            r.ip_addr == ip_addr,
            r.mac_addr == mac_addr,
            r.interface == interface,
            r.timestamp == now,
            r.data@.len() == 0,
    {
        Entry { ip_addr, mac_addr, timestamp: now, data: Buffer::empty(), interface }
    }
}

/// The first index holding `ip`, if any.
pub open spec fn spec_lookup(entries: Seq<Entry>, ip: Seq<u8>) -> Option<int>
    decreases entries.len(),
{
    if entries.len() == 0 {
        None
    } else if entries[0].ip_addr@ == ip {
        Some(0)
    } else {
        match spec_lookup(entries.skip(1), ip) {
            Some(i) => Some(i + 1),
            None => None,
        }
    }
}

/// What `spec_lookup` returns is the first matching index.
pub proof fn lemma_spec_lookup(entries: Seq<Entry>, ip: Seq<u8>)
    ensures
        spec_lookup(entries, ip) matches Some(i) ==> 0 <= i < entries.len()
            && entries[i].ip_addr@ == ip && (forall|j: int|
            0 <= j < i ==> (#[trigger] entries[j]).ip_addr@ != ip),
        spec_lookup(entries, ip) is None ==> forall|j: int|
            0 <= j < entries.len() ==> (#[trigger] entries[j]).ip_addr@ != ip,
    decreases entries.len(),
{
    if entries.len() > 0 && entries[0].ip_addr@ != ip {
        let rest = entries.skip(1);
        lemma_spec_lookup(rest, ip);
        assert(forall|j: int| 1 <= j < entries.len() ==> #[trigger] entries[j] == rest[j - 1]);
        if spec_lookup(rest, ip) is Some {
            let i = spec_lookup(rest, ip)->Some_0;
            assert(entries[i + 1] == rest[i]);
        }
    }
}

/// Find the cache entry for `ip_addr`.
pub fn lookup(stack: &NetStack, ip_addr: &Addr) -> (r: Option<usize>)
    ensures
        r matches Some(i) ==> Some(i as int) == spec_lookup(stack.arp_entries@, ip_addr@),
        r is None ==> spec_lookup(stack.arp_entries@, ip_addr@) is None,
{
    let n = stack.arp_entries.len();
    let mut i: usize = 0;
    while i < n
        invariant
            n == stack.arp_entries@.len(),
            i <= n,
            forall|j: int| 0 <= j < i ==> (#[trigger] stack.arp_entries@[j]).ip_addr@ != ip_addr@,
        decreases n - i,
    {
        if stack.arp_entries[i].ip_addr == *ip_addr {
            proof {
                lemma_spec_lookup_converse(stack.arp_entries@, ip_addr@, i as int);
            }
            return Some(i);
        }
        i = i + 1;
    }
    proof {
        lemma_spec_lookup(stack.arp_entries@, ip_addr@);
    }
    None
}

/// A first-match witness pins down `spec_lookup`.
pub proof fn lemma_spec_lookup_converse(entries: Seq<Entry>, ip: Seq<u8>, i: int)
    requires
        0 <= i < entries.len(),
        entries[i].ip_addr@ == ip,
        forall|j: int| 0 <= j < i ==> (#[trigger] entries[j]).ip_addr@ != ip,
    ensures
        spec_lookup(entries, ip) == Some(i),
    decreases i,
{
    if i > 0 {
        let rest = entries.skip(1);
        assert(forall|j: int| 1 <= j < entries.len() ==> #[trigger] entries[j] == rest[j - 1]);
        lemma_spec_lookup_converse(rest, ip, i - 1);
    }
}

/// Drop the entry at `idx`.
pub fn remove(stack: &mut NetStack, idx: usize) -> (r: Result<(), NetError>)
    requires
        old(stack).wf(),
    ensures
        final(stack).wf(),
        idx < old(stack).arp_entries@.len() ==> r is Ok && final(stack).arp_entries@ == old(
            stack,
        ).arp_entries@.remove(idx as int),
        idx >= old(stack).arp_entries@.len() ==> r is Err && final(stack).arp_entries@ == old(
            stack,
        ).arp_entries@,
        *final(stack) == (NetStack { arp_entries: final(stack).arp_entries, ..*old(stack) }),
{
    if idx < stack.arp_entries.len() {
        stack.arp_entries.remove(idx);
        Ok(())
    } else {
        Err(NetError::Parse)
    }
}

/// An entry still alive at `now`.
pub open spec fn entry_fresh(e: Entry, now: u64) -> bool {
    now <= e.timestamp + ENTRY_TIMEOUT
}

/// Sweep the cache: at most every ten seconds, drop entries not
/// refreshed for five minutes. A dropped entry whose resolution was
/// still in flight leaves its waiters to time out.
pub fn patrol(stack: &mut NetStack, now: u64)
    requires
        old(stack).wf(),
    ensures
        final(stack).wf(),
        now > old(stack).arp_timestamp + PATROL_INTERVAL ==> final(stack).arp_entries@ == old(
            stack,
        ).arp_entries@.filter(|e: Entry| entry_fresh(e, now)) && final(stack).arp_timestamp == now,
        now <= old(stack).arp_timestamp + PATROL_INTERVAL ==> *final(stack) == *old(stack),
        *final(stack) == (NetStack {
            arp_entries: final(stack).arp_entries,
            arp_timestamp: final(stack).arp_timestamp,
            ..*old(stack)
        }),
{
    if stack.arp_timestamp < now && now - stack.arp_timestamp > PATROL_INTERVAL {
        stack.arp_timestamp = now;
        let ghost orig = stack.arp_entries@;
        let mut rest: Vec<Entry> = Vec::new();
        core::mem::swap(&mut stack.arp_entries, &mut rest);
        let mut kept: Vec<Entry> = Vec::new();
        proof {
            reveal_with_fuel(Seq::filter, 2);
            assert(orig.take(0) =~= Seq::<Entry>::empty());
            assert(orig.take(0).filter(|e: Entry| entry_fresh(e, now)) =~= Seq::<Entry>::empty());
        }
        let total: usize = rest.len();
        let mut i: usize = 0;
        proof {
            assert(orig.skip(0) =~= orig);
        }
        while rest.len() > 0
            invariant
                total == orig.len(),
                i == total - rest@.len(),
                0 <= i <= total,
                rest@ == orig.skip(i as int),
                kept@ == orig.take(i as int).filter(|e: Entry| entry_fresh(e, now)),
                stack.devices@ == old(stack).devices@,
                forall|k: int|
                    0 <= k < orig.len() ==> old(stack).dev_has_interface(
                        (#[trigger] orig[k]).interface as int,
                    ),
                forall|k: int|
                    0 <= k < kept@.len() ==> old(stack).dev_has_interface(
                        (#[trigger] kept@[k]).interface as int,
                    ),
            decreases rest@.len(),
        {
            proof {
                assert(i < total);
                assert(orig.skip(i as int)[0] == orig[i as int]);
            }
            let e = rest.remove(0);
            proof {
                assert(orig.skip(i as int).remove(0) =~= orig.skip(i + 1));
                assert(e == orig[i as int]);
                let pred = |e: Entry| entry_fresh(e, now);
                let t = orig.take(i + 1);
                assert(t.drop_last() =~= orig.take(i as int));
                assert(t.last() == orig[i as int]);
                reveal_with_fuel(Seq::filter, 2);
                if pred(orig[i as int]) {
                    assert(t.filter(pred) =~= t.drop_last().filter(pred).push(orig[i as int]));
                } else {
                    assert(t.filter(pred) =~= t.drop_last().filter(pred));
                }
            }
            if e.timestamp >= now || now - e.timestamp <= ENTRY_TIMEOUT {
                kept.push(e);
            }
            i = i + 1;
        }
        proof {
            assert(orig.take(total as int) =~= orig);
        }
        stack.arp_entries = kept;
    }
}

/// Expiry wakes waiters into a timeout: when every cache entry for `ip`
/// has gone stale, the sweep leaves none behind, so a waiter that looks
/// again — as [`crate::arp::resolve_timeout`] does — finds no entry and
/// reports `ArpTimeout`.
pub proof fn lemma_expiry_clears_lookup(entries: Seq<Entry>, ip: Seq<u8>, now: u64)
    requires
        forall|j: int|
            0 <= j < entries.len() && (#[trigger] entries[j]).ip_addr@ == ip ==> !entry_fresh(
                entries[j],
                now,
            ),
    ensures
        spec_lookup(entries.filter(|e: Entry| entry_fresh(e, now)), ip) is None,
    decreases entries.len(),
{
    reveal_with_fuel(Seq::filter, 2);
    let pred = |e: Entry| entry_fresh(e, now);
    if entries.len() == 0 {
        assert(entries.filter(pred) =~= entries);
    } else {
        let sub = entries.drop_last();
        assert(forall|j: int| 0 <= j < sub.len() ==> #[trigger] sub[j] == entries[j]);
        lemma_expiry_clears_lookup(sub, ip, now);
        if pred(entries.last()) {
            let kept = sub.filter(pred).push(entries.last());
            assert(entries.filter(pred) == kept);
            lemma_spec_lookup(sub.filter(pred), ip);
            lemma_spec_lookup(kept, ip);
            if spec_lookup(kept, ip) is Some {
                let i = spec_lookup(kept, ip)->Some_0;
                assert(kept[i].ip_addr@ == ip);
                if i < kept.len() - 1 {
                    assert(kept[i] == sub.filter(pred)[i]);
                    lemma_spec_lookup(sub.filter(pred), ip);
                    assert(false);
                } else {
                    assert(kept[i] == entries.last());
                    assert(entries[entries.len() - 1].ip_addr@ == ip);
                    assert(false);
                }
            }
        } else {
            assert(entries.filter(pred) == sub.filter(pred));
        }
    }
}

} // verus!

//! IPv4 reassembly: at most eight in-flight datagrams, keyed by
//! (source, destination, id, protocol), with a byte-coverage mask that
//! decides when a datagram is whole.

use vstd::prelude::*;
use vstd::pervasive::VecAdditionalExecFns;
use crate::buffer::Buffer;
use crate::ip::dgram::Dgram;
use crate::ip::Addr;
use crate::protocol::ProtocolType;
use crate::stack::NetStack;
use crate::util::NetError;

verus! {

/// Seconds an entry lives after its last update.
pub const TIMEOUT_SEC: u64 = 30;

/// Seconds between sweeps of the table.
pub const PATROL_INTERVAL: u64 = 10;

/// Most datagrams reassembled at once.
pub const NUM_MAX: usize = 8;

/// The reassembly buffer is sized for the largest possible datagram
/// payload area.
pub const DATA_SIZE: usize = 65535;

/// One in-flight reassembly.
pub struct Fragment {
    pub src: Addr,
    pub dst: Addr,
    pub id: u16,
    pub protocol: ProtocolType,
    pub data: Buffer,
    pub mask: Vec<bool>,
    pub timestamp: u64,
}

impl Fragment {
    /// A fresh entry for the datagram's key, with nothing received yet.
    pub fn new(dgram: &Dgram, now: u64) -> (r: Fragment)
        ensures
            r.src == dgram.src,
            r.dst == dgram.dst,
            r.id == dgram.id,
            r.protocol == dgram.protocol,
            r.data@ == Seq::new(65535, |i: int| 0u8),
            r.mask@ == Seq::new(65535, |i: int| false),
            r.timestamp == now,
    {
        let data: Vec<u8> = vec![0u8; DATA_SIZE];
        let mask: Vec<bool> = vec![false; DATA_SIZE];
        proof {
            assert(data@ =~= Seq::new(65535, |i: int| 0u8));
            assert(mask@ =~= Seq::new(65535, |i: int| false));
        }
        Fragment {
            src: dgram.src,
            dst: dgram.dst,
            id: dgram.id,
            protocol: dgram.protocol,
            data: Buffer::from_vec(data),
            mask,
            timestamp: now,
        }
    }
}

/// Whether entry `f` collects the datagram `d`'s fragments.
pub open spec fn frag_key_matches(f: Fragment, src: Seq<u8>, dst: Seq<u8>, id: u16, protocol:
    ProtocolType) -> bool {
    &&& f.src@ == src
    &&& f.dst@ == dst
    &&& f.id == id
    &&& f.protocol == protocol
}

/// The first entry collecting that key, if any.
pub open spec fn spec_frag_lookup(
    fs: Seq<Fragment>,
    src: Seq<u8>,
    dst: Seq<u8>,
    id: u16,
    protocol: ProtocolType,
) -> Option<int>
    decreases fs.len(),
{
    if fs.len() == 0 {
        None
    } else if frag_key_matches(fs[0], src, dst, id, protocol) {
        Some(0)
    } else {
        match spec_frag_lookup(fs.skip(1), src, dst, id, protocol) {
            Some(i) => Some(i + 1),
            None => None,
        }
    }
}

pub proof fn lemma_spec_frag_lookup(
    fs: Seq<Fragment>,
    src: Seq<u8>,
    dst: Seq<u8>,
    id: u16,
    protocol: ProtocolType,
)
    ensures
        spec_frag_lookup(fs, src, dst, id, protocol) matches Some(i) ==> 0 <= i < fs.len()
            && frag_key_matches(fs[i], src, dst, id, protocol) && (forall|j: int|
            0 <= j < i ==> !frag_key_matches(#[trigger] fs[j], src, dst, id, protocol)),
        spec_frag_lookup(fs, src, dst, id, protocol) is None ==> forall|j: int|
            0 <= j < fs.len() ==> !frag_key_matches(#[trigger] fs[j], src, dst, id, protocol),
    decreases fs.len(),
{
    if fs.len() > 0 && !frag_key_matches(fs[0], src, dst, id, protocol) {
        let rest = fs.skip(1);
        lemma_spec_frag_lookup(rest, src, dst, id, protocol);
        assert(forall|j: int| 1 <= j < fs.len() ==> #[trigger] fs[j] == rest[j - 1]);
        if spec_frag_lookup(rest, src, dst, id, protocol) is Some {
            let i = spec_frag_lookup(rest, src, dst, id, protocol)->Some_0;
            assert(fs[i + 1] == rest[i]);
        }
    }
}

pub proof fn lemma_spec_frag_lookup_converse(
    fs: Seq<Fragment>,
    src: Seq<u8>,
    dst: Seq<u8>,
    id: u16,
    protocol: ProtocolType,
    i: int,
)
    requires
        0 <= i < fs.len(),
        frag_key_matches(fs[i], src, dst, id, protocol),
        forall|j: int| 0 <= j < i ==> !frag_key_matches(#[trigger] fs[j], src, dst, id, protocol),
    ensures
        spec_frag_lookup(fs, src, dst, id, protocol) == Some(i),
    decreases i,
{
    if i > 0 {
        let rest = fs.skip(1);
        assert(forall|j: int| 1 <= j < fs.len() ==> #[trigger] fs[j] == rest[j - 1]);
        lemma_spec_frag_lookup_converse(rest, src, dst, id, protocol, i - 1);
    }
}

/// An entry still alive at `now`.
pub open spec fn frag_fresh(f: Fragment, now: u64) -> bool {
    now <= f.timestamp + TIMEOUT_SEC
}

/// Mark the byte range `[offset, offset + len)` received.
pub fn set_mask(mask: &mut Vec<bool>, offset: usize, len: usize)
    requires
        offset + len <= old(mask)@.len(),
    ensures
        final(mask)@.len() == old(mask)@.len(),
        forall|i: int|
            0 <= i < old(mask)@.len() ==> final(mask)@[i] == (if offset <= i < offset + len {
                true
            } else {
                old(mask)@[i]
            }),
    {
    let n = mask.len();
    let mut j: usize = 0;
    while j < len
        invariant
            offset + len <= n,
            n == mask@.len(),
            mask@.len() == old(mask)@.len(),
            j <= len,
            forall|i: int|
                0 <= i < old(mask)@.len() ==> mask@[i] == (if offset <= i < offset + j {
                    true
                } else {
                    old(mask)@[i]
                }),
        decreases len - j,
    {
        mask.set(offset + j, true);
        j = j + 1;
    }
}

/// Whether every byte of `[offset, offset + len)` has been received.
pub fn check_mask(mask: &Vec<bool>, offset: usize, len: usize) -> (r: bool)
    requires
        offset + len <= mask@.len(),
    ensures
        r == (forall|i: int| offset <= i < offset + len ==> mask@[i]),
{
    let n = mask.len();
    let mut j: usize = 0;
    while j < len
        invariant
            offset + len <= n,
            n == mask@.len(),
            j <= len,
            forall|i: int| offset <= i < offset + j ==> mask@[i],
        decreases len - j,
    {
        if !mask[offset + j] {
            return false;
        }
        j = j + 1;
    }
    true
}

/// The table `process` starts from: swept when a sweep is due.
pub open spec fn frag_entries_pre(pre: NetStack, now: u64) -> Seq<Fragment> {
    if now > pre.frag_timestamp + PATROL_INTERVAL {
        pre.fragments@.filter(|f: Fragment| frag_fresh(f, now))
    } else {
        pre.fragments@
    }
}

/// The sweep timestamp after `process`.
pub open spec fn frag_ts_post(pre: NetStack, now: u64) -> u64 {
    if now > pre.frag_timestamp + PATROL_INTERVAL {
        now
    } else {
        pre.frag_timestamp
    }
}

/// The byte offset (in octets) a datagram's fragment starts at.
pub open spec fn frag_off(offset_field: u16) -> int {
    (offset_field & 0x1fff) * 8
}

/// Whether the more-fragments flag is set.
pub open spec fn frag_mf(offset_field: u16) -> bool {
    offset_field & 0x2000 != 0
}

/// Whether the flags-and-offset field marks the datagram as one
/// fragment of a larger whole.
pub open spec fn is_fragment_field(offset_field: u16) -> bool {
    offset_field & 0x2000 != 0 || offset_field & 0x1fff != 0
}

/// The index of the entry the fragment lands in: an existing match, or
/// a fresh entry at the end.
pub open spec fn frag_target(e1: Seq<Fragment>, src: Seq<u8>, dst: Seq<u8>, id: u16, proto:
    ProtocolType) -> int {
    match spec_frag_lookup(e1, src, dst, id, proto) {
        Some(i) => i,
        None => e1.len() as int,
    }
}

/// Byte `k` of the target entry's reassembly buffer after the fragment
/// is copied in: the fragment's own bytes over what was there — zero
/// where the entry is new.
pub open spec fn frag_data_at(
    e1: Seq<Fragment>,
    t: int,
    off: int,
    pl: Seq<u8>,
    k: int,
) -> u8 {
    if off <= k < off + pl.len() {
        pl[k - off]
    } else if t < e1.len() {
        e1[t].data@[k]
    } else {
        0
    }
}

/// Whether byte `k` has been received after the fragment is copied in.
pub open spec fn frag_mask_at(
    e1: Seq<Fragment>,
    t: int,
    off: int,
    pl: Seq<u8>,
    k: int,
) -> bool {
    if off <= k < off + pl.len() {
        true
    } else if t < e1.len() {
        e1[t].mask@[k]
    } else {
        false
    }
}

/// Whether the blocks `[0, total)` are all covered once the fragment is
/// in: the reassembled datagram is whole.
pub open spec fn frag_complete(e1: Seq<Fragment>, t: int, off: int, pl: Seq<u8>, total: int) -> bool {
    forall|k: int| 0 <= k < total ==> frag_mask_at(e1, t, off, pl, k)
}

/// Drop entries not updated for thirty seconds.
pub fn patrol(stack: &mut NetStack, now: u64)
    requires
        old(stack).wf(),
    ensures
        final(stack).wf(),
        final(stack).fragments@ == old(stack).fragments@.filter(|f: Fragment| frag_fresh(f, now)),
        *final(stack) == (NetStack { fragments: final(stack).fragments, ..*old(stack) }),
{
    let ghost orig = stack.fragments@;
    let mut rest: Vec<Fragment> = Vec::new();
    core::mem::swap(&mut stack.fragments, &mut rest);
    let mut kept: Vec<Fragment> = Vec::new();
    proof {
        reveal_with_fuel(Seq::filter, 2);
        assert(orig.take(0) =~= Seq::<Fragment>::empty());
        assert(orig.take(0).filter(|f: Fragment| frag_fresh(f, now)) =~= Seq::<
            Fragment,
        >::empty());
    }
    let total: usize = rest.len();
    let mut i: usize = 0;
    proof {
        assert(orig.skip(0) =~= orig);
    }
    while rest.len() > 0
        invariant
            total == orig.len(),
            i == total - rest@.len(),
            0 <= i <= total,
            rest@ == orig.skip(i as int),
            kept@ == orig.take(i as int).filter(|f: Fragment| frag_fresh(f, now)),
            kept@.len() <= i,
            forall|k: int|
                0 <= k < orig.len() ==> (#[trigger] orig[k]).data@.len() == 65535
                    && orig[k].mask@.len() == 65535,
            forall|k: int|
                0 <= k < kept@.len() ==> (#[trigger] kept@[k]).data@.len() == 65535
                    && kept@[k].mask@.len() == 65535,
        decreases rest@.len(),
    {
        proof {
            assert(i < total);
            assert(orig.skip(i as int)[0] == orig[i as int]);
        }
        let f = rest.remove(0);
        proof {
            assert(orig.skip(i as int).remove(0) =~= orig.skip(i + 1));
            assert(f == orig[i as int]);
            let pred = |f: Fragment| frag_fresh(f, now);
            let t = orig.take(i + 1);
            assert(t.drop_last() =~= orig.take(i as int));
            assert(t.last() == orig[i as int]);
            reveal_with_fuel(Seq::filter, 2);
            if pred(orig[i as int]) {
                assert(t.filter(pred) =~= t.drop_last().filter(pred).push(orig[i as int]));
            } else {
                assert(t.filter(pred) =~= t.drop_last().filter(pred));
            }
        }
        if f.timestamp >= now || now - f.timestamp <= TIMEOUT_SEC {
            kept.push(f);
        }
        i = i + 1;
    }
    proof {
        assert(orig.take(total as int) =~= orig);
    }
    stack.fragments = kept;
}


/// The payload a completed reassembly yields.
pub open spec fn frag_reassembled(
    pre: NetStack,
    now: u64,
    offset_field: u16,
    pl: Seq<u8>,
    src: Seq<u8>,
    dst: Seq<u8>,
    id: u16,
    proto: ProtocolType,
) -> Seq<u8> {
    Seq::new(
        (frag_off(offset_field) + pl.len()) as nat,
        |k: int|
            frag_data_at(
                frag_entries_pre(pre, now),
                proc_target(pre, now, src, dst, id, proto),
                frag_off(offset_field),
                pl,
                k,
            ),
    )
}

/// What `process` returns, decided entirely by the fragment and the
/// state it meets.
pub open spec fn proc_result(
    pre: NetStack,
    now: u64,
    offset_field: u16,
    pl: Seq<u8>,
    src: Seq<u8>,
    dst: Seq<u8>,
    id: u16,
    proto: ProtocolType,
) -> Result<Option<Seq<u8>>, NetError> {
    if proc_oob(offset_field, pl) {
        Err(NetError::Parse)
    } else if proc_full(pre, now, src, dst, id, proto) {
        Err(NetError::TooManyFragments)
    } else if frag_mf(offset_field) {
        Ok(None)
    } else if frag_complete(
        frag_entries_pre(pre, now),
        proc_target(pre, now, src, dst, id, proto),
        frag_off(offset_field),
        pl,
        frag_off(offset_field) + pl.len(),
    ) {
        Ok(Some(frag_reassembled(pre, now, offset_field, pl, src, dst, id, proto)))
    } else {
        Err(NetError::Incomplete)
    }
}

/// How `process` leaves the fragment table.
pub open spec fn process_frag_post(
    pre: NetStack,
    post: NetStack,
    offset_field: u16,
    pl: Seq<u8>,
    src: Seq<u8>,
    dst: Seq<u8>,
    id: u16,
    proto: ProtocolType,
    now: u64,
) -> bool {
    &&& post.frag_timestamp == frag_ts_post(pre, now)
    &&& (proc_oob(offset_field, pl) || proc_full(pre, now, src, dst, id, proto) ==> post.fragments@
        == frag_entries_pre(pre, now))
    &&& (!proc_oob(offset_field, pl) && !proc_full(pre, now, src, dst, id, proto) && frag_mf(
        offset_field,
    ) ==> post.fragments@.len() == (if spec_frag_lookup(
        frag_entries_pre(pre, now),
        src,
        dst,
        id,
        proto,
    ) is Some {
        frag_entries_pre(pre, now).len() as int
    } else {
        frag_entries_pre(pre, now).len() as int + 1
    }) && (forall|j: int|
        0 <= j < frag_entries_pre(pre, now).len() && j != proc_target(pre, now, src, dst, id, proto)
            ==> post.fragments@[j] == frag_entries_pre(pre, now)[j]) && frag_key_matches(
        post.fragments@[proc_target(pre, now, src, dst, id, proto)],
        src,
        dst,
        id,
        proto,
    ) && post.fragments@[proc_target(pre, now, src, dst, id, proto)].timestamp == now && (
    forall|k: int|
        0 <= k < 65535 ==> post.fragments@[proc_target(pre, now, src, dst, id, proto)].data@[k]
            == frag_data_at(
            frag_entries_pre(pre, now),
            proc_target(pre, now, src, dst, id, proto),
            frag_off(offset_field),
            pl,
            k,
        ) && post.fragments@[proc_target(pre, now, src, dst, id, proto)].mask@[k] == frag_mask_at(
            frag_entries_pre(pre, now),
            proc_target(pre, now, src, dst, id, proto),
            frag_off(offset_field),
            pl,
            k,
        )))
    &&& (!proc_oob(offset_field, pl) && !proc_full(pre, now, src, dst, id, proto) && !frag_mf(
        offset_field,
    ) ==> post.fragments@ == proc_removed(pre, now, src, dst, id, proto))
}

/// Find the entry collecting this datagram's fragments.
fn frag_index(stack: &NetStack, src: &Addr, dst: &Addr, id: u16, protocol: ProtocolType) -> (r:
    Option<usize>)
    ensures
        r matches Some(i) ==> Some(i as int) == spec_frag_lookup(
            stack.fragments@,
            src@,
            dst@,
            id,
            protocol,
        ),
        r is None ==> spec_frag_lookup(stack.fragments@, src@, dst@, id, protocol) is None,
{
    let n = stack.fragments.len();
    let mut i: usize = 0;
    while i < n
        invariant
            n == stack.fragments@.len(),
            i <= n,
            forall|j: int|
                0 <= j < i ==> !frag_key_matches(
                    #[trigger] stack.fragments@[j],
                    src@,
                    dst@,
                    id,
                    protocol,
                ),
        decreases n - i,
    {
        let f = &stack.fragments[i];
        if f.src == *src && f.dst == *dst && f.id == id && f.protocol == protocol {
            proof {
                lemma_spec_frag_lookup_converse(stack.fragments@, src@, dst@, id, protocol, i as int);
            }
            return Some(i);
        }
        i = i + 1;
    }
    proof {
        lemma_spec_frag_lookup(stack.fragments@, src@, dst@, id, protocol);
    }
    None
}

/// Whether the fragment falls outside the reassembly buffer.
pub open spec fn proc_oob(offset_field: u16, pl: Seq<u8>) -> bool {
    frag_off(offset_field) + pl.len() > 65535
}

/// Whether the fragment needs a fresh entry and none is free.
pub open spec fn proc_full(
    pre: NetStack,
    now: u64,
    src: Seq<u8>,
    dst: Seq<u8>,
    id: u16,
    proto: ProtocolType,
) -> bool {
    &&& spec_frag_lookup(frag_entries_pre(pre, now), src, dst, id, proto) is None
    &&& frag_entries_pre(pre, now).len() >= 8
}

/// The index of the entry the fragment lands in, counted in the swept
/// table.
pub open spec fn proc_target(
    pre: NetStack,
    now: u64,
    src: Seq<u8>,
    dst: Seq<u8>,
    id: u16,
    proto: ProtocolType,
) -> int {
    frag_target(frag_entries_pre(pre, now), src, dst, id, proto)
}

/// The table once the fragment's entry has left it: reassembly is done
/// with the entry, whole or not.
pub open spec fn proc_removed(
    pre: NetStack,
    now: u64,
    src: Seq<u8>,
    dst: Seq<u8>,
    id: u16,
    proto: ProtocolType,
) -> Seq<Fragment> {
    if spec_frag_lookup(frag_entries_pre(pre, now), src, dst, id, proto) is Some {
        frag_entries_pre(pre, now).remove(proc_target(pre, now, src, dst, id, proto))
    } else {
        frag_entries_pre(pre, now)
    }
}

/// Fold one fragment into the reassembly table.
///
/// The table is swept when a sweep is due; the fragment's bytes land in
/// its datagram's entry — created now if missing, refused when eight
/// reassemblies are already in flight; and the final fragment either
/// completes the datagram, returning its payload, or exposes a gap,
/// dropping the entry with `Incomplete`.
#[verifier::rlimit(100)]
pub fn process(stack: &mut NetStack, dgram: Dgram, now: u64) -> (r: Result<Option<Buffer>, NetError>)
    requires
        old(stack).wf(),
        dgram.payload@.len() <= 65535,
    ensures
        final(stack).wf(),
        *final(stack) == (NetStack {
            fragments: final(stack).fragments,
            frag_timestamp: final(stack).frag_timestamp,
            ..*old(stack)
        }),
        final(stack).frag_timestamp == frag_ts_post(*old(stack), now),
        process_frag_post(
            *old(stack),
            *final(stack),
            dgram.offset,
            dgram.payload@,
            dgram.src@,
            dgram.dst@,
            dgram.id,
            dgram.protocol,
            now,
        ),
        (match r {
            Ok(None) => Ok::<Option<Seq<u8>>, NetError>(None),
            Ok(Some(b)) => Ok::<Option<Seq<u8>>, NetError>(Some(b@)),
            Err(e) => Err::<Option<Seq<u8>>, NetError>(e),
        }) == proc_result(
            *old(stack),
            now,
            dgram.offset,
            dgram.payload@,
            dgram.src@,
            dgram.dst@,
            dgram.id,
            dgram.protocol,
        ),
        proc_oob(dgram.offset, dgram.payload@) ==> r == Err::<Option<Buffer>, NetError>(
            NetError::Parse,
        ) && final(stack).fragments@ == frag_entries_pre(*old(stack), now),
        !proc_oob(dgram.offset, dgram.payload@) && proc_full(
            *old(stack),
            now,
            dgram.src@,
            dgram.dst@,
            dgram.id,
            dgram.protocol,
        ) ==> r == Err::<Option<Buffer>, NetError>(NetError::TooManyFragments) && final(stack).fragments@ == frag_entries_pre(*old(stack), now),
        !proc_oob(dgram.offset, dgram.payload@) && !proc_full(
            *old(stack),
            now,
            dgram.src@,
            dgram.dst@,
            dgram.id,
            dgram.protocol,
        ) && frag_mf(dgram.offset) ==> r == Ok::<Option<Buffer>, NetError>(None) && final(stack).fragments@.len() == (if spec_frag_lookup(
            frag_entries_pre(*old(stack), now),
            dgram.src@,
            dgram.dst@,
            dgram.id,
            dgram.protocol,
        ) is Some {
            frag_entries_pre(*old(stack), now).len() as int
        } else {
            frag_entries_pre(*old(stack), now).len() as int + 1
        }) && (forall|j: int|
            0 <= j < frag_entries_pre(*old(stack), now).len() && j != proc_target(
                *old(stack),
                now,
                dgram.src@,
                dgram.dst@,
                dgram.id,
                dgram.protocol,
            ) ==> final(stack).fragments@[j] == frag_entries_pre(*old(stack), now)[j])
            && frag_key_matches(
            final(stack).fragments@[proc_target(
                *old(stack),
                now,
                dgram.src@,
                dgram.dst@,
                dgram.id,
                dgram.protocol,
            )],
            dgram.src@,
            dgram.dst@,
            dgram.id,
            dgram.protocol,
        ) && final(stack).fragments@[proc_target(
            *old(stack),
            now,
            dgram.src@,
            dgram.dst@,
            dgram.id,
            dgram.protocol,
        )].timestamp == now && (forall|k: int|
            0 <= k < 65535 ==> final(stack).fragments@[proc_target(
                *old(stack),
                now,
                dgram.src@,
                dgram.dst@,
                dgram.id,
                dgram.protocol,
            )].data@[k] == frag_data_at(
                frag_entries_pre(*old(stack), now),
                proc_target(*old(stack), now, dgram.src@, dgram.dst@, dgram.id, dgram.protocol),
                frag_off(dgram.offset),
                dgram.payload@,
                k,
            ) && final(stack).fragments@[proc_target(
                *old(stack),
                now,
                dgram.src@,
                dgram.dst@,
                dgram.id,
                dgram.protocol,
            )].mask@[k] == frag_mask_at(
                frag_entries_pre(*old(stack), now),
                proc_target(*old(stack), now, dgram.src@, dgram.dst@, dgram.id, dgram.protocol),
                frag_off(dgram.offset),
                dgram.payload@,
                k,
            )),
        !proc_oob(dgram.offset, dgram.payload@) && !proc_full(
            *old(stack),
            now,
            dgram.src@,
            dgram.dst@,
            dgram.id,
            dgram.protocol,
        ) && !frag_mf(dgram.offset) ==> final(stack).fragments@ == proc_removed(
            *old(stack),
            now,
            dgram.src@,
            dgram.dst@,
            dgram.id,
            dgram.protocol,
        ),
        !proc_oob(dgram.offset, dgram.payload@) && !proc_full(
            *old(stack),
            now,
            dgram.src@,
            dgram.dst@,
            dgram.id,
            dgram.protocol,
        ) && !frag_mf(dgram.offset) && frag_complete(
            frag_entries_pre(*old(stack), now),
            proc_target(*old(stack), now, dgram.src@, dgram.dst@, dgram.id, dgram.protocol),
            frag_off(dgram.offset),
            dgram.payload@,
            frag_off(dgram.offset) + dgram.payload@.len(),
        ) ==> (r matches Ok(o) && o matches Some(b) && b@.len() == frag_off(dgram.offset)
            + dgram.payload@.len() && (forall|k: int|
            0 <= k < b@.len() ==> b@[k] == frag_data_at(
                frag_entries_pre(*old(stack), now),
                proc_target(*old(stack), now, dgram.src@, dgram.dst@, dgram.id, dgram.protocol),
                frag_off(dgram.offset),
                dgram.payload@,
                k,
            ))),
        !proc_oob(dgram.offset, dgram.payload@) && !proc_full(
            *old(stack),
            now,
            dgram.src@,
            dgram.dst@,
            dgram.id,
            dgram.protocol,
        ) && !frag_mf(dgram.offset) && !frag_complete(
            frag_entries_pre(*old(stack), now),
            proc_target(*old(stack), now, dgram.src@, dgram.dst@, dgram.id, dgram.protocol),
            frag_off(dgram.offset),
            dgram.payload@,
            frag_off(dgram.offset) + dgram.payload@.len(),
        ) ==> r == Err::<Option<Buffer>, NetError>(NetError::Incomplete),
{
    let ghost pre0 = *old(stack);
    if stack.frag_timestamp < now && now - stack.frag_timestamp > PATROL_INTERVAL {
        patrol(stack, now);
        stack.frag_timestamp = now;
    }
    let ghost e1 = stack.fragments@;
    proof {
        assert(e1 == frag_entries_pre(pre0, now));
    }
    let src = dgram.src;
    let dst = dgram.dst;
    let id = dgram.id;
    let protocol = dgram.protocol;
    proof {
        let ofv = dgram.offset;
        assert(ofv & 0x1fff <= 0x1fff) by (bit_vector);
    }
    let off = ((dgram.offset & 0x1fff) as usize) * 8;
    let plen = dgram.payload.0.len();
    if off + plen > 65535 {
        return Err(NetError::Parse);
    }
    let mf = dgram.offset & 0x2000 != 0;
    let idx = match frag_index(stack, &src, &dst, id, protocol) {
        Some(i) => i,
        None => {
            if stack.fragments.len() >= NUM_MAX {
                return Err(NetError::TooManyFragments);
            }
            let i = stack.fragments.len();
            stack.fragments.push(Fragment::new(&dgram, now));
            i
        },
    };
    proof {
        lemma_spec_frag_lookup(e1, src@, dst@, id, protocol);
        assert(idx as int == frag_target(e1, src@, dst@, id, protocol));
    }
    let ghost t = idx as int;
    let payload = dgram.payload;
    {
        let f = &mut stack.fragments[idx];
        f.data.write(off, payload);
        set_mask(&mut f.mask, off, plen);
        f.timestamp = now;
    }
    proof {
        assert(forall|k: int|
            0 <= k < 65535 ==> stack.fragments@[t].data@[k] == frag_data_at(
                e1,
                t,
                off as int,
                dgram.payload@,
                k,
            ) && stack.fragments@[t].mask@[k] == frag_mask_at(e1, t, off as int, dgram.payload@, k));
    }
    if mf {
        return Ok(None);
    }
    let total = off + plen;
    let complete = check_mask(&stack.fragments[idx].mask, 0, total);
    proof {
        if complete {
            assert forall|k: int|
                0 <= k < total implies frag_mask_at(e1, t, off as int, dgram.payload@, k) by {
                assert(stack.fragments@[t].mask@[k]);
            }
            assert(frag_complete(e1, t, off as int, dgram.payload@, total as int));
        } else {
            if frag_complete(e1, t, off as int, dgram.payload@, total as int) {
                assert forall|i: int| 0 <= i < total implies stack.fragments@[t].mask@[i] by {
                    assert(frag_mask_at(e1, t, off as int, dgram.payload@, i));
                }
                assert(false);
            }
        }
    }
    let ghost updated_entry = stack.fragments@[t];
    let frag = stack.fragments.remove(idx);
    proof {
        assert(frag == updated_entry);
        assert(frag.data@.len() == 65535);
    }
    proof {
        if spec_frag_lookup(e1, src@, dst@, id, protocol) is Some {
            assert(stack.fragments@ =~= e1.remove(t));
        } else {
            assert(stack.fragments@ =~= e1);
        }
    }
    if !complete {
        return Err(NetError::Incomplete);
    }
    let mut data = frag.data;
    let b = match data.pop_buffer(total, "reassembled datagram") {
        Ok(b) => b,
        Err(e) => { return Err(e); },
    };
    proof {
        assert(b@.len() == total);
        assert(b@ =~= frag_reassembled(
            pre0,
            now,
            dgram.offset,
            dgram.payload@,
            src@,
            dst@,
            id,
            protocol,
        ));
        assert(forall|k: int|
            0 <= k < total ==> b@[k] == updated_entry.data@[k]);
        assert(forall|k: int|
            0 <= k < total ==> updated_entry.data@[k] == frag_data_at(
                e1,
                t,
                off as int,
                dgram.payload@,
                k,
            ));
    }
    Ok(Some(b))
}

/// Byte `k` of a reassembly buffer after one fragment is copied in.
pub open spec fn written_data(data: Seq<u8>, off: int, pl: Seq<u8>, k: int) -> u8 {
    if off <= k < off + pl.len() {
        pl[k - off]
    } else {
        data[k]
    }
}

/// Whether byte `k` is covered after one fragment is copied in.
pub open spec fn written_mask(mask: Seq<bool>, off: int, pl: Seq<u8>, k: int) -> bool {
    off <= k < off + pl.len() || mask[k]
}

/// Every covered byte of a reassembly buffer equals the payload's.
pub open spec fn reassembly_inv(data: Seq<u8>, mask: Seq<bool>, payload: Seq<u8>) -> bool {
    forall|k: int| 0 <= k < data.len() && mask[k] ==> data[k] == payload[k]
}

/// One step of reassembly keeps the buffer faithful: copying in any
/// fragment cut from the payload — at any offset, in any order relative
/// to the others — leaves every covered byte equal to the payload's.
pub proof fn lemma_reassembly_step(
    data: Seq<u8>,
    mask: Seq<bool>,
    payload: Seq<u8>,
    off: int,
    pl: Seq<u8>,
)
    requires
        data.len() == mask.len(),
        reassembly_inv(data, mask, payload),
        0 <= off,
        off + pl.len() <= data.len(),
        forall|j: int| 0 <= j < pl.len() ==> off + j < payload.len() && pl[j] == payload[off + j],
    ensures
        forall|k: int|
            0 <= k < data.len() && written_mask(mask, off, pl, k) ==> written_data(
                data,
                off,
                pl,
                k,
            ) == payload[k],
{
}

/// Completed coverage returns the payload exactly: when every byte of
/// `[0, total)` is covered and the buffer is faithful, the first
/// `total` bytes are the payload's first `total` bytes — the
/// reassembled datagram is the one that was fragmented, whatever order
/// its fragments arrived in.
pub proof fn lemma_reassembly_identity(data: Seq<u8>, mask: Seq<bool>, payload: Seq<u8>, total: int)
    requires
        data.len() == mask.len(),
        reassembly_inv(data, mask, payload),
        0 <= total <= payload.len(),
        total <= data.len(),
        forall|k: int| 0 <= k < total ==> mask[k],
    ensures
        data.take(total) == payload.take(total),
{
    assert(data.take(total) =~= payload.take(total));
}

} // verus!

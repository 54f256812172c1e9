//! Error kinds shared by the whole stack, byte-order helpers, and the
//! Internet checksum: the 16-bit one's-complement sum with end-around carry
//! that IPv4 headers, ICMP messages and UDP pseudo-headers all use.

use vstd::prelude::*;
use vstd::arithmetic::div_mod::{
    lemma_fundamental_div_mod, lemma_mod_add_multiples_vanish, lemma_add_mod_noop,
    lemma_mod_division_less_than_divisor, lemma_small_mod,
};

verus! {

/// Every failure the stack reports, as a tagged variant.
#[derive(Debug, Clone, Copy, PartialEq, Eq, Structural)]
pub enum NetError {
    /// Short buffer or a disallowed constant in a header.
    Parse,
    /// A computed checksum did not match.
    BadChecksum,
    /// The IPv4 protocol field was not recognized.
    BadProtocol(u8),
    /// The device has no attached IPv4 interface.
    NoInterface,
    /// No route matches the destination.
    NoRoute,
    /// No source port was free to auto-assign.
    NoPort,
    /// A bind against an address owned by no local interface.
    InvalidAddress,
    /// ARP resolution did not complete in time.
    ArpTimeout,
    /// A receive deadline elapsed.
    Timeout,
    /// Forwarding dropped a datagram whose TTL ran out.
    TimeExceeded,
    /// Forwarding dropped a datagram too large for the egress link.
    FragmentNeeded,
    /// Forwarding found no route and reported the drop.
    DestUnreach,
    /// The reassembly table already holds its maximum of entries.
    TooManyFragments,
    /// A datagram's reassembly is still missing bytes.
    Incomplete,
    /// The link driver could not be opened.
    LinkOpen,
    /// The link driver failed to deliver a frame.
    LinkRead,
    /// The link driver failed to accept a frame.
    LinkWrite,
}

/// The plain sum of a byte string read as big-endian 16-bit words; a
/// trailing odd byte counts as the high byte of a final word.
pub open spec fn sum_words(b: Seq<u8>) -> int
    decreases b.len(),
{
    if b.len() == 0 {
        0
    } else if b.len() == 1 {
        (b[0] as int) * 256
    } else {
        (b[0] as int) * 256 + (b[1] as int) + sum_words(b.skip(2))
    }
}

/// End-around-carry folding of a sum into 16 bits.
pub open spec fn fold16(x: int) -> int
    recommends
        x >= 0,
    decreases x,
    when x >= 0
{
    if x < 0x10000 {
        x
    } else {
        fold16(x % 0x10000 + x / 0x10000)
    }
}

/// The Internet checksum of `b` with initial accumulator `init`: the
/// one's complement of the folded word sum.
pub open spec fn checksum_of(b: Seq<u8>, init: int) -> int {
    0xFFFF - fold16(init + sum_words(b))
}

pub proof fn lemma_sum_words_nonneg(b: Seq<u8>)
    ensures
        sum_words(b) >= 0,
    decreases b.len(),
{
    if b.len() >= 2 {
        lemma_sum_words_nonneg(b.skip(2));
    }
}

pub proof fn lemma_fold16_bounds(x: int)
    requires
        x >= 0,
    ensures
        0 <= fold16(x) <= 0xFFFF,
    decreases x,
{
    if x >= 0x10000 {
        lemma_fundamental_div_mod(x, 0x10000);
        lemma_mod_division_less_than_divisor(x, 0x10000);
        lemma_fold16_bounds(x % 0x10000 + x / 0x10000);
    }
}

pub proof fn lemma_fold16_mod(x: int)
    requires
        x >= 0,
    ensures
        fold16(x) % 0xFFFF == x % 0xFFFF,
    decreases x,
{
    if x >= 0x10000 {
        let q = x / 0x10000;
        let r = x % 0x10000;
        lemma_fundamental_div_mod(x, 0x10000);
        lemma_mod_division_less_than_divisor(x, 0x10000);
        // x == 0xFFFF * q + (q + r), so x and q + r agree modulo 0xFFFF.
        assert(x == 0xFFFF * q + (q + r));
        lemma_mod_add_multiples_vanish(q + r, 0xFFFF);
        assert((0xFFFF * q + (q + r)) % 0xFFFF == (q + r) % 0xFFFF) by {
            lemma_mod_vanish_factor(q + r, q, 0xFFFF);
        }
        lemma_fold16_mod(r + q);
    }
}

/// Adding `k` multiples of `m` does not change a value modulo `m`.
proof fn lemma_mod_vanish_factor(b: int, k: int, m: int)
    requires
        m > 0,
        k >= 0,
    ensures
        (m * k + b) % m == b % m,
    decreases k,
{
    if k > 0 {
        lemma_mod_add_multiples_vanish(m * (k - 1) + b, m);
        assert(m + (m * (k - 1) + b) == m * k + b) by (nonlinear_arith);
        lemma_mod_vanish_factor(b, k - 1, m);
    } else {
        assert(m * 0 + b == b) by (nonlinear_arith);
    }
}

pub proof fn lemma_fold16_pos(x: int)
    requires
        x > 0,
    ensures
        fold16(x) > 0,
    decreases x,
{
    if x >= 0x10000 {
        lemma_fundamental_div_mod(x, 0x10000);
        lemma_mod_division_less_than_divisor(x, 0x10000);
        assert(x / 0x10000 > 0) by (nonlinear_arith)
            requires x >= 0x10000;
        lemma_fold16_pos(x % 0x10000 + x / 0x10000);
    }
}

/// Folding commutes with partial folding: the running fold a checksum loop
/// keeps is faithful to the fold of the plain sum.
pub proof fn lemma_fold16_merge(a: int, b: int)
    requires
        a >= 0,
        b >= 0,
    ensures
        fold16(fold16(a) + b) == fold16(a + b),
{
    lemma_fold16_bounds(a);
    lemma_fold16_bounds(fold16(a) + b);
    lemma_fold16_bounds(a + b);
    lemma_fold16_mod(a);
    lemma_fold16_mod(fold16(a) + b);
    lemma_fold16_mod(a + b);
    lemma_add_mod_noop(fold16(a), b, 0xFFFF);
    lemma_add_mod_noop(a, b, 0xFFFF);
    let u = fold16(fold16(a) + b);
    let v = fold16(a + b);
    assert(u % 0xFFFF == v % 0xFFFF);
    if a + b == 0 {
        assert(fold16(a) == 0);
    } else {
        if fold16(a) + b == 0 {
            // then fold16(a) == 0 and b == 0, so a == 0 by positivity, contradiction
            if a > 0 {
                lemma_fold16_pos(a);
            }
            assert(false);
        }
        lemma_fold16_pos(fold16(a) + b);
        lemma_fold16_pos(a + b);
        // both u and v lie in [1, 0xFFFF] and agree modulo 0xFFFF
        lemma_congruent_bounded_eq(u, v);
    }
}

/// Two values in [1, 0xFFFF] that agree modulo 0xFFFF are equal.
proof fn lemma_congruent_bounded_eq(u: int, v: int)
    requires
        1 <= u <= 0xFFFF,
        1 <= v <= 0xFFFF,
        u % 0xFFFF == v % 0xFFFF,
    ensures
        u == v,
{
    if u < 0xFFFF {
        lemma_small_mod(u as nat, 0xFFFF);
    } else {
        assert(u % 0xFFFF == 0);
    }
    if v < 0xFFFF {
        lemma_small_mod(v as nat, 0xFFFF);
    } else {
        assert(v % 0xFFFF == 0);
    }
}

/// The law behind every checksum in the stack: writing the computed
/// checksum back into the summed block makes the folded sum all-ones.
pub proof fn lemma_fold16_complete(s: int)
    requires
        s >= 0,
    ensures
        fold16(s + (0xFFFF - fold16(s))) == 0xFFFF,
{
    let f = fold16(s);
    lemma_fold16_bounds(s);
    let t = s + (0xFFFF - f);
    if s < 0x10000 {
        assert(f == s);
        assert(t == 0xFFFF);
    } else {
        lemma_fold16_pos(s);
        lemma_fold16_mod(s);
        lemma_fold16_mod(t);
        lemma_fold16_bounds(t);
        // t == s - f + 0xFFFF, and s and f agree modulo 0xFFFF,
        // so t is a positive multiple of 0xFFFF
        lemma_add_mod_noop(s, 0xFFFF - f, 0xFFFF);
        lemma_add_mod_noop(f, 0xFFFF - f, 0xFFFF);
        assert(t % 0xFFFF == (f + (0xFFFF - f)) % 0xFFFF);
        assert((0xFFFF as int) % 0xFFFF == 0);
        lemma_fold16_pos(t);
        lemma_congruent_bounded_eq(fold16(t), 0xFFFF);
    }
}

/// Word sums concatenate when the first part spans whole words.
pub proof fn lemma_sum_words_append(a: Seq<u8>, b: Seq<u8>)
    requires
        a.len() % 2 == 0,
    ensures
        sum_words(a + b) == sum_words(a) + sum_words(b),
    decreases a.len(),
{
    if a.len() == 0 {
        assert(a + b =~= b);
    } else {
        assert((a + b).skip(2) =~= a.skip(2) + b);
        lemma_sum_words_append(a.skip(2), b);
    }
}

/// Writing bytes into a zeroed word slot adds their word value to the
/// sum.
pub proof fn lemma_sum_words_patch(b: Seq<u8>, k: int, hi: u8, lo: u8)
    requires
        0 <= k,
        2 * k + 1 < b.len(),
        b[2 * k] == 0,
        b[2 * k + 1] == 0,
    ensures
        sum_words(b.update(2 * k, hi).update(2 * k + 1, lo)) == sum_words(b) + hi * 256 + lo,
{
    let p = 2 * k;
    let head = b.take(p);
    let tail = b.skip(p + 2);
    let zpair = seq![0u8, 0u8];
    let cpair = seq![hi, lo];
    let b2 = b.update(p, hi).update(p + 1, lo);
    assert(head.len() % 2 == 0);
    assert(b =~= head + zpair + tail);
    assert(b2 =~= head + cpair + tail);
    assert(zpair + tail =~= (zpair + tail));
    lemma_sum_words_append(head, zpair + tail);
    lemma_sum_words_append(zpair, tail);
    lemma_sum_words_append(head, cpair + tail);
    lemma_sum_words_append(cpair, tail);
    assert((head + (zpair + tail)) =~= head + zpair + tail);
    assert((head + (cpair + tail)) =~= head + cpair + tail);
    assert(zpair.skip(2) =~= Seq::<u8>::empty());
    assert(cpair.skip(2) =~= Seq::<u8>::empty());
    assert(sum_words(Seq::<u8>::empty()) == 0);
    assert(sum_words(zpair) == 0);
    assert(sum_words(cpair) == hi * 256 + lo);
}

/// The keystone of every checksum the stack writes: patch the computed
/// checksum into the zeroed slot it was computed over, and the folded
/// sum of the whole block comes out all-ones.
pub proof fn lemma_checksum_insert(b: Seq<u8>, k: int, init: int)
    requires
        0 <= k,
        2 * k + 1 < b.len(),
        b[2 * k] == 0,
        b[2 * k + 1] == 0,
        init >= 0,
    ensures
        ({
            let c = checksum_of(b, init);
            let b2 = b.update(2 * k, (c / 256) as u8).update(2 * k + 1, (c % 256) as u8);
            fold16(init + sum_words(b2)) == 0xFFFF
        }),
{
    let s = init + sum_words(b);
    lemma_sum_words_nonneg(b);
    lemma_fold16_bounds(s);
    let c = checksum_of(b, init);
    assert(0 <= c <= 0xFFFF);
    let hi = (c / 256) as u8;
    let lo = (c % 256) as u8;
    assert(hi * 256 + lo == c);
    lemma_sum_words_patch(b, k, hi, lo);
    lemma_fold16_complete(s);
}

/// Relies on chrono::Utc::now: the wall-clock time, whose whole
/// seconds since the Unix epoch this returns.
#[verifier::external_body]
fn clock_now() -> (r: i64) {
    chrono::Utc::now().timestamp()
}

/// The current time in whole seconds, for the stack's timers; moments
/// before the epoch clamp to zero. Nothing can be promised of a clock,
/// so callers hand the value to the stack's operations, which say what
/// they do for every value of it.
pub fn now_seconds() -> (r: u64) {
    let t = clock_now();
    if t < 0 {
        0
    } else {
        t as u64
    }
}

/// Swap the two bytes of a 16-bit value.
pub fn htons(n: u16) -> (r: u16)
    ensures
        r == (n % 256) * 256 + n / 256,
{
    (n % 256) * 256 + n / 256
}

/// Swap the two bytes of a 16-bit value.
pub fn ntohs(n: u16) -> (r: u16)
    ensures
        r == (n % 256) * 256 + n / 256,
{
    (n % 256) * 256 + n / 256
}

/// Compute the Internet checksum over the first `len` bytes of `data`,
/// starting from the partial sum `init`.
pub fn calc_checksum(data: &[u8], len: usize, init: u32) -> (r: u16)
    requires
        len <= data@.len(),
    ensures
        r as int == checksum_of(data@.take(len as int), init as int),
{
    let mut sum: u64 = init as u64;
    let mut i: usize = 0;
    proof {
        assert(data@.take(0) =~= Seq::<u8>::empty());
    }
    while i + 1 < len
        invariant
            len <= data@.len(),
            i <= len,
            i % 2 == 0,
            sum <= 0x1_0000_FFFF,
            fold16(sum as int) == fold16(init as int + sum_words(data@.take(i as int))),
        decreases len - i,
    {
        proof {
            let t = data@.take(i as int);
            let t2 = data@.take(i + 2);
            let pair = seq![data@[i as int], data@[i + 1]];
            assert(t2 =~= t + pair);
            lemma_sum_words_append(t, pair);
            assert(pair.skip(2) =~= Seq::<u8>::empty());
            assert(pair.len() == 2 && pair[0] == data@[i as int] && pair[1] == data@[i + 1]);
            assert(sum_words(pair) == (data@[i as int] as int) * 256 + (data@[i + 1] as int)
                + sum_words(pair.skip(2)));
            lemma_sum_words_nonneg(t);
            let w = sum_words(pair);
            lemma_fold16_merge(sum as int, w);
            lemma_fold16_merge(init as int + sum_words(t), w);
        }
        sum = sum + (data[i] as u64) * 256 + (data[i + 1] as u64);
        if sum >= 0x1_0000_0000 {
            proof {
                lemma_fundamental_div_mod(sum as int, 0x10000);
                lemma_mod_division_less_than_divisor(sum as int, 0x10000);
            }
            sum = sum % 0x10000 + sum / 0x10000;
        }
        i = i + 2;
    }
    if i < len {
        proof {
            let t = data@.take(i as int);
            let last = seq![data@[i as int]];
            assert(data@.take(len as int) =~= t + last);
            lemma_sum_words_append(t, last);
            lemma_sum_words_nonneg(t);
            lemma_fold16_merge(sum as int, sum_words(last));
            lemma_fold16_merge(init as int + sum_words(t), sum_words(last));
        }
        sum = sum + (data[i] as u64) * 256;
    } else {
        proof {
            assert(data@.take(i as int) =~= data@.take(len as int));
        }
    }
    while sum > 0xFFFF
        invariant
            fold16(sum as int) == fold16(init as int + sum_words(data@.take(len as int))),
        decreases sum,
    {
        proof {
            lemma_fundamental_div_mod(sum as int, 0x10000);
            lemma_mod_division_less_than_divisor(sum as int, 0x10000);
        }
        sum = sum % 0x10000 + sum / 0x10000;
    }
    proof {
        assert(fold16(sum as int) == sum as int);
    }
    0xFFFFu64 as u16 - sum as u16
}

} // verus!

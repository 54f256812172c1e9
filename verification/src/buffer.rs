//! Byte buffers with big-endian push/pop primitives. Every wire format in
//! the stack is built and parsed through these, so each operation states
//! exactly which bytes it adds or removes.

use vstd::prelude::*;
use vstd::pervasive::VecAdditionalExecFns;
use crate::ethernet::MacAddr;
use crate::ip::Addr;
use crate::util::NetError;

verus! {

/// The big-endian byte pair of a 16-bit value.
pub open spec fn be16(n: u16) -> Seq<u8> {
    seq![(n / 256) as u8, (n % 256) as u8]
}

/// The big-endian byte quadruple of a 32-bit value.
pub open spec fn be32(n: u32) -> Seq<u8> {
    seq![
        (n / 0x1000000) as u8,
        ((n / 0x10000) % 256) as u8,
        ((n / 256) % 256) as u8,
        (n % 256) as u8,
    ]
}

/// The 16-bit value read back from two big-endian bytes.
pub open spec fn from_be16(b0: u8, b1: u8) -> u16 {
    (b0 * 256 + b1) as u16
}

/// The 32-bit value read back from four big-endian bytes.
pub open spec fn from_be32_int(b0: u8, b1: u8, b2: u8, b3: u8) -> u32 {
    (b0 * 0x1000000 + b1 * 0x10000 + b2 * 256 + b3) as u32
}

/// A growable byte string, read from the front and written at the back.
pub struct Buffer(pub Vec<u8>);

impl View for Buffer {
    type V = Seq<u8>;

    open spec fn view(&self) -> Seq<u8> {
        self.0@
    }
}

impl Buffer {
    /// A buffer with no bytes.
    pub fn empty() -> (r: Buffer)
        ensures
            r@ == Seq::<u8>::empty(),
    {
        Buffer(Vec::new())
    }

    /// An empty buffer sized for `max_len` bytes.
    pub fn new(max_len: usize) -> (r: Buffer)
        ensures
            r@ == Seq::<u8>::empty(),
    {
        Buffer(Vec::with_capacity(max_len))
    }

    pub fn is_empty(&self) -> (r: bool)
        ensures
            r == (self@.len() == 0),
    {
        self.0.is_empty()
    }

    pub fn from_vec(vec: Vec<u8>) -> (r: Buffer)
        ensures
            r@ == vec@,
    {
        Buffer(vec)
    }

    pub fn to_vec(self) -> (r: Vec<u8>)
        ensures
            r@ == self@,
    {
        self.0
    }

    /// A byte-for-byte copy.
    pub fn duplicate(&self) -> (r: Buffer)
        ensures
            r@ == self@,
    {
        let mut v: Vec<u8> = Vec::with_capacity(self.0.len());
        let mut i: usize = 0;
        while i < self.0.len()
            invariant
                i <= self.0.len(),
                v@ == self.0@.take(i as int),
            decreases self.0.len() - i,
        {
            v.push(self.0[i]);
            proof {
                assert(self.0@.take(i + 1) =~= self.0@.take(i as int).push(self.0@[i as int]));
            }
            i = i + 1;
        }
        proof {
            assert(self.0@.take(self.0@.len() as int) =~= self.0@);
        }
        Buffer(v)
    }

    pub fn push_u8(&mut self, n: u8)
        ensures
            final(self)@ == old(self)@.push(n),
    {
        self.0.push(n);
    }

    pub fn push_u16(&mut self, n: u16)
        ensures
            final(self)@ == old(self)@ + be16(n),
    {
        self.0.push((n / 256) as u8);
        self.0.push((n % 256) as u8);
        proof {
            assert(final(self)@ =~= old(self)@ + be16(n));
        }
    }

    pub fn push_u32(&mut self, n: u32)
        ensures
            final(self)@ == old(self)@ + be32(n),
    {
        self.0.push((n / 0x1000000) as u8);
        self.0.push(((n / 0x10000) % 256) as u8);
        self.0.push(((n / 256) % 256) as u8);
        self.0.push((n % 256) as u8);
        proof {
            assert(final(self)@ =~= old(self)@ + be32(n));
        }
    }

    pub fn push_mac_addr(&mut self, addr: MacAddr)
        ensures
            final(self)@ == old(self)@ + addr@,
    {
        self.0.push(addr.0[0]);
        self.0.push(addr.0[1]);
        self.0.push(addr.0[2]);
        self.0.push(addr.0[3]);
        self.0.push(addr.0[4]);
        self.0.push(addr.0[5]);
        proof {
            assert(final(self)@ =~= old(self)@ + addr@);
        }
    }

    pub fn push_ip_addr(&mut self, addr: Addr)
        ensures
            final(self)@ == old(self)@ + addr@,
    {
        self.0.push(addr.0[0]);
        self.0.push(addr.0[1]);
        self.0.push(addr.0[2]);
        self.0.push(addr.0[3]);
        proof {
            assert(final(self)@ =~= old(self)@ + addr@);
        }
    }

    pub fn append(&mut self, buf: Buffer)
        ensures
            final(self)@ == old(self)@ + buf@,
    {
        let mut tail = buf;
        self.0.append(&mut tail.0);
    }

    /// Overwrite bytes starting at `pos` with `buf`, clipped to the
    /// current length; the buffer never grows.
    pub fn write(&mut self, pos: usize, buf: Buffer)
        requires
            pos <= old(self)@.len(),
        ensures
            final(self)@.len() == old(self)@.len(),
            forall|i: int|
                0 <= i < old(self)@.len() ==> final(self)@[i] == (if pos <= i
                    < pos + buf@.len() {
                    buf@[i - pos]
                } else {
                    old(self)@[i]
                }),
    {
        let mut j: usize = 0;
        while j < buf.0.len() && pos + j < self.0.len()
            invariant
                pos + j <= self.0.len(),
                j <= buf.0.len(),
                self.0@.len() == old(self)@.len(),
                pos <= old(self)@.len(),
                j < buf.0@.len() ==> pos + j < self.0@.len() || pos + buf.0@.len()
                    > old(self)@.len(),
                forall|i: int|
                    0 <= i < old(self)@.len() ==> self.0@[i] == (if pos <= i < pos + j {
                        buf.0@[i - pos]
                    } else {
                        old(self)@[i]
                    }),
            decreases buf.0.len() - j,
        {
            let b = buf.0[j];
            self.0.set(pos + j, b);
            j = j + 1;
        }
    }

    /// Overwrite the two bytes at `pos` with `v` in big-endian order.
    pub fn write_u16(&mut self, pos: usize, v: u16)
        requires
            pos + 2 <= old(self)@.len(),
        ensures
            final(self)@ == old(self)@.update(pos as int, be16(v)[0]).update(
                pos + 1,
                be16(v)[1],
            ),
    {
        // binds the length so the index arithmetic is known in range
        let n = self.0.len();
        self.0.set(pos, (v / 256) as u8);
        proof {
            assert(pos + 1 < n);
        }
        self.0.set(pos + 1, (v % 256) as u8);
    }

    /// Discard the first `n` bytes.
    fn drop_front(&mut self, n: usize)
        requires
            n <= old(self)@.len(),
        ensures
            final(self)@ == old(self)@.skip(n as int),
    {
        let mut tail = self.0.split_off(n);
        core::mem::swap(&mut self.0, &mut tail);
        proof {
            assert(self.0@ =~= old(self)@.skip(n as int));
        }
    }

    pub fn pop_u8(&mut self, _label: &str) -> (r: Result<u8, NetError>)
        ensures
            old(self)@.len() >= 1 ==> r == Ok::<u8, NetError>(old(self)@[0]) && final(self)@
                == old(self)@.skip(1),
            old(self)@.len() == 0 ==> r == Err::<u8, NetError>(NetError::Parse) && final(self)@
                == old(self)@,
    {
        if self.0.len() >= 1 {
            let b = self.0[0];
            self.drop_front(1);
            Ok(b)
        } else {
            Err(NetError::Parse)
        }
    }

    pub fn pop_u16(&mut self, _label: &str) -> (r: Result<u16, NetError>)
        ensures
            old(self)@.len() >= 2 ==> (r == Ok::<u16, NetError>(from_be16(old(self)@[0], old(self)@[1]))
                && final(self)@ == old(self)@.skip(2)),
            old(self)@.len() < 2 ==> r == Err::<u16, NetError>(NetError::Parse) && final(self)@
                == old(self)@,
    {
        if self.0.len() >= 2 {
            let b0 = self.0[0];
            let b1 = self.0[1];
            self.drop_front(2);
            Ok((b0 as u16) * 256 + (b1 as u16))
        } else {
            Err(NetError::Parse)
        }
    }

    pub fn pop_u32(&mut self, _label: &str) -> (r: Result<u32, NetError>)
        ensures
            old(self)@.len() >= 4 ==> (r matches Ok(v) && v as int == old(self)@[0] * 0x1000000
                + old(self)@[1] * 0x10000 + old(self)@[2] * 256 + old(self)@[3] && final(self)@
                == old(self)@.skip(4)),
            old(self)@.len() < 4 ==> r == Err::<u32, NetError>(NetError::Parse) && final(self)@
                == old(self)@,
    {
        if self.0.len() >= 4 {
            let b0 = self.0[0];
            let b1 = self.0[1];
            let b2 = self.0[2];
            let b3 = self.0[3];
            self.drop_front(4);
            Ok((b0 as u32) * 0x1000000 + (b1 as u32) * 0x10000 + (b2 as u32) * 256 + (b3 as u32))
        } else {
            Err(NetError::Parse)
        }
    }

    pub fn pop_mac_addr(&mut self, _label: &str) -> (r: Result<MacAddr, NetError>)
        ensures
            old(self)@.len() >= 6 ==> (r matches Ok(m) && m@ == old(self)@.subrange(0, 6)
                && final(self)@ == old(self)@.skip(6)),
            old(self)@.len() < 6 ==> r == Err::<MacAddr, NetError>(NetError::Parse)
                && final(self)@ == old(self)@,
    {
        if self.0.len() >= 6 {
            let m = MacAddr([self.0[0], self.0[1], self.0[2], self.0[3], self.0[4], self.0[5]]);
            proof {
                assert(m@ =~= old(self)@.subrange(0, 6));
            }
            self.drop_front(6);
            Ok(m)
        } else {
            Err(NetError::Parse)
        }
    }

    pub fn pop_ip_addr(&mut self, _label: &str) -> (r: Result<Addr, NetError>)
        ensures
            old(self)@.len() >= 4 ==> (r matches Ok(a) && a@ == old(self)@.subrange(0, 4)
                && final(self)@ == old(self)@.skip(4)),
            old(self)@.len() < 4 ==> r == Err::<Addr, NetError>(NetError::Parse) && final(self)@
                == old(self)@,
    {
        if self.0.len() >= 4 {
            let a = Addr([self.0[0], self.0[1], self.0[2], self.0[3]]);
            proof {
                assert(a@ =~= old(self)@.subrange(0, 4));
            }
            self.drop_front(4);
            Ok(a)
        } else {
            Err(NetError::Parse)
        }
    }

    /// Split off the first `len` bytes as their own buffer.
    pub fn pop_buffer(&mut self, len: usize, _label: &str) -> (r: Result<Buffer, NetError>)
        ensures
            len <= old(self)@.len() ==> (r matches Ok(b) && b@ == old(self)@.take(len as int)
                && final(self)@ == old(self)@.skip(len as int)),
            len > old(self)@.len() ==> r == Err::<Buffer, NetError>(NetError::Parse)
                && final(self)@ == old(self)@,
    {
        if len <= self.0.len() {
            let mut tail = self.0.split_off(len);
            core::mem::swap(&mut self.0, &mut tail);
            proof {
                assert(self.0@ =~= old(self)@.skip(len as int));
                assert(tail@ =~= old(self)@.take(len as int));
            }
            Ok(Buffer(tail))
        } else {
            Err(NetError::Parse)
        }
    }
}

} // verus!

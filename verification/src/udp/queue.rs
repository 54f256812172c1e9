//! The per-endpoint receive queue: datagrams with their peer, first in,
//! first out.

use vstd::prelude::*;
use crate::buffer::Buffer;
use crate::ip::Addr;

verus! {

/// One received datagram: who sent it, from which port, and its payload.
pub struct Entry {
    pub addr: Addr,
    pub port: u16,
    pub data: Buffer,
}

/// A FIFO of received datagrams.
pub struct Queue {
    pub data: Vec<Entry>,
}

impl Queue {
    pub fn new() -> (r: Queue)
        ensures
            r.data@.len() == 0,
    {
        Queue { data: Vec::new() }
    }

    pub fn push(&mut self, entry: Entry)
        ensures
            final(self).data@ == old(self).data@.push(entry),
    {
        self.data.push(entry);
    }

    pub fn pop(&mut self) -> (r: Option<Entry>)
        ensures
            old(self).data@.len() > 0 ==> (r matches Some(e) && e == old(self).data@[0]
                && final(self).data@ == old(self).data@.skip(1)),
            old(self).data@.len() == 0 ==> r is None && final(self).data@ == old(self).data@,
    {
        if self.data.len() > 0 {
            let e = self.data.remove(0);
            proof {
                assert(old(self).data@.remove(0) =~= old(self).data@.skip(1));
            }
            Some(e)
        } else {
            None
        }
    }
}

} // verus!

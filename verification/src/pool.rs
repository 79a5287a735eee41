//! A bounded pool of fixed-size byte buffers.
//!
//! A fixed number of buffers is created once at startup and then only ever
//! recycled: a producer acquires a free buffer, fills it, and the send path
//! eventually releases it back.  At every instant the buffers held free in
//! the pool plus the buffers in flight add up to the fixed pool size — no
//! buffer is created, duplicated or dropped after startup, and pool
//! exhaustion is the pipeline's only backpressure mechanism.

use vstd::prelude::*;

verus! {

pub struct BufferPool {
    pub free: Vec<Vec<u8>>,
    pub in_flight: usize,
    pub buffer_size: usize,
    pub total: usize,
}

impl BufferPool {
    /// The conservation invariant: free buffers and in-flight buffers
    /// always account for the whole fixed pool, and every free buffer has
    /// exactly the configured size.
    pub open spec fn wf(self) -> bool {
        &&& self.free@.len() + self.in_flight == self.total
        &&& forall|i: int|
            0 <= i < self.free@.len() ==> (#[trigger] self.free@[i])@.len() == self.buffer_size
    }

    /// Build a pool of `count` zero-filled buffers of `buffer_size` bytes.
    pub fn new(count: usize, buffer_size: usize) -> (r: BufferPool)
        ensures
            r.wf(),
            r.total == count,
            r.in_flight == 0,
            r.buffer_size == buffer_size,
            r.free@.len() == count,
            forall|i: int|
                0 <= i < count ==> (#[trigger] r.free@[i])@ == Seq::new(
                    buffer_size as nat,
                    |j: int| 0u8,
                ),
    {
        let mut free: Vec<Vec<u8>> = Vec::new();
        let mut n: usize = 0;
        while n < count
            invariant
                n <= count,
                free@.len() == n,
                forall|i: int|
                    0 <= i < n ==> (#[trigger] free@[i])@ == Seq::new(
                        buffer_size as nat,
                        |j: int| 0u8,
                    ),
            decreases count - n,
        {
            let mut buffer: Vec<u8> = Vec::new();
            let mut b: usize = 0;
            while b < buffer_size
                invariant
                    b <= buffer_size,
                    buffer@ == Seq::new(b as nat, |j: int| 0u8),
                decreases buffer_size - b,
            {
                buffer.push(0u8);
                b = b + 1;
                proof {
                    assert(buffer@ =~= Seq::new(b as nat, |j: int| 0u8));
                }
            }
            free.push(buffer);
            n = n + 1;
        }
        BufferPool { free, in_flight: 0, buffer_size, total: count }
    }

    /// Take one free buffer out of the pool, if any is left.  The caller
    /// becomes the buffer's exclusive owner until it releases it again;
    /// a `None` is the pool's backpressure signal (a thread that needs a
    /// buffer waits and retries).
    pub fn acquire(&mut self) -> (r: Option<Vec<u8>>)
        requires
            old(self).wf(),
        ensures
            final(self).wf(),
            final(self).total == old(self).total,
            final(self).buffer_size == old(self).buffer_size,
            old(self).free@.len() == 0 ==> r is None && *final(self) == *old(self),
            old(self).free@.len() > 0 ==> {
                &&& r == Some(old(self).free@.last())
                &&& final(self).free@ == old(self).free@.drop_last()
                &&& final(self).in_flight == old(self).in_flight + 1
            },
    {
        if self.free.len() > 0 {
            let buffer = self.free.pop();
            self.in_flight = self.in_flight + 1;
            buffer
        } else {
            None
        }
    }

    /// Return a buffer to the free set, making it available to a future
    /// `acquire`.  Only a buffer of the pool's size that is actually in
    /// flight can come back, so the fixed total is preserved.
    pub fn release(&mut self, buffer: Vec<u8>)
        requires
            old(self).wf(),
            old(self).in_flight >= 1,
            buffer@.len() == old(self).buffer_size,
        ensures
            final(self).wf(),
            final(self).total == old(self).total,
            final(self).buffer_size == old(self).buffer_size,
            final(self).free@ == old(self).free@.push(buffer),
            final(self).in_flight == old(self).in_flight - 1,
    {
        self.free.push(buffer);
        self.in_flight = self.in_flight - 1;
    }

    /// How many buffers are currently free.
    pub fn free_count(&self) -> (n: usize)
        ensures
            n == self.free@.len(),
    {
        self.free.len()
    }
}

/// Conservation: in every well-formed pool state — and `new`, `acquire`
/// and `release` only ever produce well-formed states — the buffers free
/// in the pool and the buffers in flight add up to the fixed pool size,
/// so no sequence of acquires and releases can leak or duplicate a
/// buffer.
pub proof fn lemma_pool_conservation(pool: BufferPool)
    requires
        pool.wf(),
    ensures
        pool.free@.len() + pool.in_flight == pool.total,
{
}

} // verus!

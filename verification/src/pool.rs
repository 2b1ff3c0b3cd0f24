//! A pool of reusable payload buffers. The receive loop pulls buffers from
//! it and consumers release them back; a released buffer is reset (counter
//! and data zeroed) before it is handed out again, so no bytes of one
//! logical payload ever leak into another. Pulling from an empty pool
//! constructs a fresh zeroed buffer instead.

use vstd::prelude::*;

use crate::payload::DATA_SIZE;
use crate::payload::HEADER_SIZE;
use crate::payload::Payload;
use crate::payload::PayloadView;
use crate::payload::zeros;

verus! {

/// The free-list of spare buffers. It is viewed as the sequence of the
/// spare buffers' values, newest release last.
pub struct BufferPool {
    free: Vec<Payload>,
}

impl View for BufferPool {
    type V = Seq<PayloadView>;

    closed spec fn view(&self) -> Seq<PayloadView> {
        Seq::new(self.free@.len(), |i: int| self.free@[i]@)
    }
}

impl BufferPool {
    /// Every spare buffer has the fixed block sizes.
    pub open spec fn wf(&self) -> bool {
        forall|i: int| 0 <= i < self@.len() ==> (#[trigger] self@[i]).wf()
    }

    /// An empty pool.
    pub fn new() -> (r: BufferPool)
        ensures
            r.wf(),
            r@.len() == 0,
    {
        BufferPool { free: Vec::new() }
    }

    /// Hand out an exclusively owned buffer: the most recently released
    /// spare one after applying the reset policy, or a fresh zeroed buffer
    /// when no spare is left. The result always comes with a zeroed counter
    /// and a zeroed data block.
    pub fn pull(&mut self) -> (r: Payload)
        requires
            old(self).wf(),
        ensures
            final(self).wf(),
            r.wf(),
            r@.is_reset(),
            old(self)@.len() > 0 ==> final(self)@ == old(self)@.drop_last() && r@.header
                == old(self)@.last().header,
            old(self)@.len() == 0 ==> final(self)@ == old(self)@ && r@.header == zeros(
                HEADER_SIZE as int,
            ),
    {
        let popped = self.free.pop();
        match popped {
            Some(mut p) => {
                proof {
                    assert(old(self)@[old(self)@.len() - 1].wf());
                    assert(self@ =~= old(self)@.drop_last());
                }
                p.reset();
                p
            },
            None => {
                proof {
                    assert(self@ =~= old(self)@);
                }
                Payload::new()
            },
        }
    }

    /// How many spare buffers the pool holds.
    pub fn spare_count(&self) -> (n: usize)
        ensures
            n == self@.len(),
    {
        self.free.len()
    }

    /// Take a relinquished buffer back as a spare.
    pub fn release(&mut self, p: Payload)
        requires
            old(self).wf(),
            p.wf(),
        ensures
            final(self).wf(),
            final(self)@ == old(self)@.push(p@),
    {
        self.free.push(p);
        proof {
            assert(self@ =~= old(self)@.push(p@));
        }
    }
}

} // verus!

//! Batched bulk loading: rows accumulate in memory and move to their
//! table in one operation whenever the batch size is reached, keeping
//! insert costs bounded however large the input is.

use vstd::prelude::*;

verus! {

/// How many rows accumulate before a flush.
pub const BATCH_SIZE: usize = 2000;

/// Accumulates rows and flushes them to a sink table once the batch
/// size is reached, keeping a running count of the rows flushed.
pub struct BatchLoader<T> {
    pub buf: Vec<T>,
    pub total: usize,
    pub batch_size: usize,
}

impl<T> BatchLoader<T> {
    /// The buffer never reaches the batch size between calls.
    pub open spec fn wf(self) -> bool {
        1 <= self.batch_size && self.buf@.len() < self.batch_size
    }

    pub fn new(batch_size: usize) -> (r: Self)
        requires
            batch_size >= 1,
        ensures
            r.wf(),
            r.batch_size == batch_size,
            r.buf@ == Seq::<T>::empty(),
            r.total == 0,
    {
        let r = BatchLoader { buf: Vec::new(), total: 0, batch_size };
        proof {
            assert(r.buf@ =~= Seq::<T>::empty());
        }
        r
    }

    /// Stages one row.  When that fills the batch, the whole batch
    /// moves to the sink at once, the running total grows by the batch
    /// size, and the buffer is left empty; otherwise only the buffer
    /// grows and the sink is untouched.
    pub fn stage(&mut self, row: T, sink: &mut Vec<T>)
        requires
            old(self).wf(),
            old(self).total + old(self).batch_size <= usize::MAX,
            old(sink)@.len() + old(self).batch_size <= usize::MAX,
        ensures
            final(self).wf(),
            final(self).batch_size == old(self).batch_size,
            old(self).buf@.len() + 1 == old(self).batch_size ==> final(self).buf@.len() == 0,
            old(self).buf@.len() + 1 == old(self).batch_size ==> final(sink)@
                == old(sink)@ + old(self).buf@.push(row),
            old(self).buf@.len() + 1 == old(self).batch_size ==> final(self).total
                == old(self).total + old(self).batch_size,
            old(self).buf@.len() + 1 < old(self).batch_size ==> final(self).buf@
                == old(self).buf@.push(row),
            old(self).buf@.len() + 1 < old(self).batch_size ==> *final(sink) == *old(sink),
            old(self).buf@.len() + 1 < old(self).batch_size ==> final(self).total
                == old(self).total,
    {
        self.buf.push(row);
        if self.buf.len() == self.batch_size {
            let flushed = self.batch_size;
            sink.append(&mut self.buf);
            self.total = self.total + flushed;
            proof {
                assert(self.buf@ =~= Seq::<T>::empty());
            }
        }
    }

    /// Flushes any remaining partial batch and returns the total
    /// number of rows moved to the sink over the loader's lifetime.
    pub fn finish(&mut self, sink: &mut Vec<T>) -> (count: usize)
        requires
            old(self).wf(),
            old(self).total + old(self).buf@.len() <= usize::MAX,
            old(sink)@.len() + old(self).buf@.len() <= usize::MAX,
        ensures
            final(self).wf(),
            final(self).batch_size == old(self).batch_size,
            final(sink)@ == old(sink)@ + old(self).buf@,
            count == old(self).total + old(self).buf@.len(),
            final(self).total == count,
            final(self).buf@ == Seq::<T>::empty(),
    {
        let rest = self.buf.len();
        sink.append(&mut self.buf);
        self.total = self.total + rest;
        proof {
            assert(self.buf@ =~= Seq::<T>::empty());
        }
        self.total
    }
}

} // verus!

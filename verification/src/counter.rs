//! Accounting of the work that a search performs.

use vstd::prelude::*;

use crate::arith::min_int;

verus! {

/// Counts of scored pairs and vector reads with the bytes that each of them stands for.
#[derive(Clone, Copy, Debug, PartialEq, Eq, Structural)]
pub struct HardwareCounterCell {
    /// Bytes handled per counted unit of computation.
    pub cpu_multiplier: usize,
    /// Bytes read from disk per counted vector.
    pub vector_io_read_multiplier: usize,
    /// Counted units of computation.
    pub cpu: usize,
    /// Counted vector reads.
    pub vector_io_read: usize,
    /// Bytes read of payload indexes.
    pub payload_index_io_read: usize,
}

impl HardwareCounterCell {
    /// A counter that has counted nothing.
    pub fn disposable() -> (counter: Self)
        ensures
            counter == (HardwareCounterCell {
                cpu_multiplier: 1,
                vector_io_read_multiplier: 1,
                cpu: 0,
                vector_io_read: 0,
                payload_index_io_read: 0,
            }),
    {
        HardwareCounterCell {
            cpu_multiplier: 1,
            vector_io_read_multiplier: 1,
            cpu: 0,
            vector_io_read: 0,
            payload_index_io_read: 0,
        }
    }

    /// Count units of computation.
    pub fn incr_cpu(&mut self, delta: usize)
        ensures
            *final(self) == (HardwareCounterCell {
                cpu: min_int(old(self).cpu + delta, usize::MAX as int) as usize,
                ..*old(self)
            }),
    {
        self.cpu = self.cpu.saturating_add(delta);
    }

    /// Count bytes read of a payload index.
    pub fn incr_payload_index_io_read(&mut self, delta: usize)
        ensures
            *final(self) == old(self).with_payload_read(delta as nat),
    {
        self.payload_index_io_read = self.payload_index_io_read.saturating_add(delta);
    }

    /// The counter after bytes of a payload index were read.
    pub open spec fn with_payload_read(self, delta: nat) -> Self {
        HardwareCounterCell {
            payload_index_io_read: min_int(
                self.payload_index_io_read + delta,
                usize::MAX as int,
            ) as usize,
            ..self
        }
    }

    /// Count vector reads.
    pub fn incr_vector_io_read(&mut self, delta: usize)
        ensures
            *final(self) == (HardwareCounterCell {
                vector_io_read: min_int(
                    old(self).vector_io_read + delta,
                    usize::MAX as int,
                ) as usize,
                ..*old(self)
            }),
    {
        self.vector_io_read = self.vector_io_read.saturating_add(delta);
    }
}

} // verus!

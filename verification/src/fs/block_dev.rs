//! The block-device interface that users of the file system implement.
use vstd::prelude::*;

verus! {

/// A device that reads and writes data in whole blocks.
pub trait BlockDevice {
    /// Reads block `block_id` into `buf`.
    fn read_block(&self, block_id: usize, buf: &mut [u8]);

    /// Writes `buf` to block `block_id`.
    fn write_block(&self, block_id: usize, buf: &[u8]);
}

} // verus!

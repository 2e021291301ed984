//! The parts of the easy-fs file system kept here: the block-device
//! interface, the allocation bitmaps and the root directory.

pub mod block_dev;
pub mod bitmap;
pub mod dir;

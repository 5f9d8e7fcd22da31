//! The file-tree pairing store: one directory per adapter, one per device,
//! and an `info` file in each device directory.

pub mod bluetooth;
pub mod monitor;

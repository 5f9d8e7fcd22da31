//! Keeps Bluetooth pairing keys in step between two operating systems that
//! share one machine, through a document on the EFI System Partition.
//!
//! - [`bluetooth`]: the platform-neutral model of pairing keys, their
//!   validation and merging, and the interface of a native pairing store.
//! - [`config`]: the shared document.
//! - [`sync`]: the synchronization engine.
//! - [`efi`]: what to try next when the shared document is read or written.
//! - [`linux`]: the file-tree store's `info` files and the decisions of its
//!   monitor.
//! - [`windows`]: the registry store's values and the decisions of its
//!   monitor.
//! - [`shared`]: the settings and the key file of the plain link-key
//!   exchange.
//! - [`strmap`] and [`text`]: the map and the string helpers that the
//!   others build on.
//!
//! The library touches neither files nor the registry. Its callers read and
//! write, and hand it what they read.

pub mod bluetooth;
pub mod config;
pub mod efi;
pub mod linux;
pub mod shared;
pub mod strmap;
pub mod sync;
pub mod text;
pub mod windows;

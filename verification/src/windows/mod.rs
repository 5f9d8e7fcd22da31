//! The registry pairing store: binary values under one subkey per adapter,
//! in one tree for Classic keys and one for Low-Energy keys.

pub mod bluetooth;
pub mod monitor;

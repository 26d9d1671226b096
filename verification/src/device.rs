//! The device drivers that the stack brings with it.

pub mod loopback;
pub mod null;
pub mod tap;

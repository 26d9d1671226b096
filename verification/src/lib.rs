//! A user-space network protocol stack: devices, protocols, and the IPv4
//! input path between a link-layer interface and upper-layer handlers.

pub mod device;
pub mod ethernet;
pub mod ipv4;
pub mod net;
pub mod utils;

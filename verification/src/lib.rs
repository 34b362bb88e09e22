//! A serial-link bridge between an embedded device and a host: typed
//! messages travel as checksummed frames over a byte stream, and the device
//! negotiates its publishers and subscribers with the host on connection.

pub mod msgs;
pub mod ros;
pub mod serial;

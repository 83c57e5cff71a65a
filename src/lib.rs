//! A per-client WebRTC data-channel engine: an SCTP association carried over DTLS,
//! with the DCEP open/ack exchange, driven purely by datagrams handed in and out.
pub mod bytes;
pub mod client;
pub mod port;
pub mod sctp;
pub mod shim;
pub mod tsn;

//! One-shot, length-prefixed file transfer: the wire format and the two
//! transfer state machines, independent of the transport that carries them.
//!
//! The wire image of a transfer is the payload length as eight little-endian
//! bytes followed by the payload itself. The sender announces the length
//! once; the receiver stops after exactly that many payload bytes.
pub mod coordinator;
pub mod error;
pub mod frame;
pub mod receiver;
pub mod sender;
pub mod wire;

//! A one-shot rendezvous and a batched, sentinel-terminated stream of
//! timestamped records over an ordered inter-process transport.
//!
//! The crate proves the protocol core: the wire format of records and
//! frames round-trips exactly ([`codec`]), a published rendezvous
//! identifier is redeemed at most once ([`server`]), and a closed link
//! has delivered every batch in order followed by exactly one
//! end-of-stream sentinel and nothing more. The transport itself —
//! whatever moves the byte messages between the processes — stays
//! outside, handed one message at a time.

pub mod codec;
pub mod errors;
pub mod packet;
pub mod server;

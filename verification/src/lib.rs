//! Verified cores of a set of small wire-protocol servers.
//!
//! The centrepiece is the line-reversal session protocol: its message
//! codec ([`codec`]), the per-session stream state and reversal engine
//! ([`session`]), the event dispatcher ([`dispatch`]) and the
//! retransmission bookkeeping ([`retry`]). The remaining modules hold
//! the verified cores of the companion servers: byte-stream ciphers
//! ([`cipher`]), chat-name admission ([`chat`]), prioritised job queues
//! ([`jobs`]), chat-relay address rewriting ([`mob`]), pest-control
//! messages and frames ([`pest_msg`], [`pest_parse`], [`pest_wire`]),
//! price queries ([`prices`]), primality ([`primality`]), road-camera
//! frames ([`speed`]) and the versioned file store's command grammar
//! ([`storage`]).

pub mod chat;
pub mod cipher;
pub mod codec;
pub mod dispatch;
pub mod jobs;
pub mod mob;
pub mod pest_msg;
pub mod pest_parse;
pub mod pest_wire;
pub mod prices;
pub mod primality;
pub mod retry;
pub mod session;
pub mod speed;
pub mod storage;

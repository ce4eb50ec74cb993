//! A line-oriented chat relay and a few companion protocol services, with
//! their state and message logic verified: frame decoding, the join
//! handshake, the shared room registry with its broadcast guarantees, a
//! timestamped price store, a datagram key/value store, a primality
//! responder, and coin-address rewriting.

pub mod codec;
pub mod kv;
pub mod laws;
pub mod name;
pub mod prices;
pub mod prime;
pub mod rewrite;
pub mod room;
pub mod session;

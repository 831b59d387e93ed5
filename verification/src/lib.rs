//! A privacy-preserving document store: a framed binary wire protocol, a
//! CBOR message codec, an order-preserving encryption primitive, a storage
//! key layout with its mutation and query engines, a per-connection session
//! state machine, and a post-quantum certificate pipeline.

pub mod cbor;
pub mod cert;
pub mod client;
pub mod codec;
pub mod crypto;
pub mod keys;
pub mod message;
pub mod ope;
pub mod query;
pub mod session;
pub mod store;
pub mod wire;

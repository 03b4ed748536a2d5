//! Core of a MANY-style RPC framework: identities derived from COSE keys,
//! signed CBOR envelopes (COSE_Sign1), a request/response message schema,
//! module dispatch with per-endpoint policies, an asynchronous-response
//! manager, and the client-side message plane.

pub mod asyncmod;
pub mod cbor;
pub mod client;
pub mod cose;
pub mod crypto;
pub mod error;
pub mod identity;
pub mod idtext;
pub mod kvstore;
pub mod ledger;
pub mod message;
pub mod module;
pub mod server;

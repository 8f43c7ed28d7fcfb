//! Naming layer for a peer-to-peer network: signed name records kept in a
//! distributed hash table, their wire format and chain-of-custody
//! validation, the bookkeeping of pending lookups, and the address rewriting
//! that lets a symbolic domain stand where a concrete address is expected.
pub mod codec;
pub mod name;
pub mod crypto;
pub mod address;
pub mod record;
pub mod validate;
pub mod laws;
pub mod transport;
pub mod dial;
pub mod behaviour;
pub mod records;
pub mod did;
pub mod opcode;
pub mod frame;
pub mod network;

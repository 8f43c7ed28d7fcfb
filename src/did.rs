//! Decentralised identifiers.
use vstd::prelude::*;

verus! {

/// The protocol a decentralised identifier resolves through.
#[derive(Debug, Clone, Copy, PartialEq, Eq)]
pub enum Protocol {
    Dns,
    Content,
    Ipfs,
}

/// A decentralised identifier.
#[derive(Debug, Clone, Copy, PartialEq, Eq)]
pub struct Did {
    pub protocol: Protocol,
}

impl Did {
    pub fn new(protocol: Protocol) -> (r: Did)
        ensures
            r.protocol == protocol,
    {
        Did { protocol }
    }
}

} // verus!

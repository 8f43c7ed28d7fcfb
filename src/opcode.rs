//! Commands that the application front end hands to a node.
use vstd::prelude::*;

verus! {

/// Resolve `domain`.
#[derive(Debug)]
pub struct Resolve {
    pub domain: String,
}

/// Publish `domain`.
#[derive(Debug)]
pub struct Put {
    pub domain: String,
}

#[derive(Debug)]
pub enum Opcode {
    Resolve(Resolve),
    Put(Put),
}

} // verus!

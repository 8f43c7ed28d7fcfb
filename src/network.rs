//! Local state of a node's network behaviour.
use vstd::prelude::*;

use std::collections::VecDeque;

verus! {

/// A counter and the events waiting to be handed out.
#[derive(Debug)]
pub struct State {
    count: usize,
    events: VecDeque<()>,
}

impl State {
    pub closed spec fn count(&self) -> usize {
        self.count
    }

    pub closed spec fn waiting(&self) -> nat {
        self.events@.len()
    }

    /// A state with a zero count and no waiting event.
    pub fn new() -> (r: State)
        ensures
            r.count() == 0,
            r.waiting() == 0,
    {
        State { count: 0, events: VecDeque::new() }
    }
}

} // verus!

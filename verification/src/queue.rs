//! The command queue between a control surface and the engine: unbounded,
//! first in, first out.

use crate::intent::Intent;
use vstd::prelude::*;

verus! {

/// Intents that were sent and not yet taken up, oldest first.
pub struct CommandQueue {
    items: Vec<Intent>,
}

impl View for CommandQueue {
    type V = Seq<Intent>;

    closed spec fn view(&self) -> Seq<Intent> {
        self.items@
    }
}

impl CommandQueue {
    /// A queue that holds nothing.
    pub fn new() -> (q: CommandQueue)
        ensures
            q@ == Seq::<Intent>::empty(),
    {
        CommandQueue { items: Vec::new() }
    }

    /// The number of intents that wait.
    pub fn len(&self) -> (n: usize)
        ensures
            n == self@.len(),
    {
        self.items.len()
    }

    /// Whether no intent waits.
    pub fn is_empty(&self) -> (b: bool)
        ensures
            b == (self@.len() == 0),
    {
        self.items.len() == 0
    }

    /// Puts `intent` behind everything that waits.  Never fails and never
    /// waits for the consumer.
    pub fn send(&mut self, intent: Intent)
        ensures
            final(self)@ == old(self)@.push(intent),
    {
        self.items.push(intent);
    }

    /// The intents that wait, oldest first.  The queue keeps them.
    pub fn peek_all(&self) -> (out: &Vec<Intent>)
        ensures
            out@ == self@,
    {
        &self.items
    }

    /// Takes out everything that waits, oldest first, and leaves the queue
    /// empty.  Where nothing waits, the result is empty.
    pub fn try_drain_all(&mut self) -> (out: Vec<Intent>)
        ensures
            out@ == old(self)@,
            final(self)@ == Seq::<Intent>::empty(),
    {
        let mut out: Vec<Intent> = Vec::new();
        core::mem::swap(&mut out, &mut self.items);
        out
    }
}

} // verus!

//! A single-slot mailbox that keeps only the freshest value: a send never
//! waits and replaces whatever was not yet received.
use vstd::prelude::*;

verus! {

/// What the slot holds after `v` was sent into a slot holding `slot`.
pub open spec fn after_send<T>(slot: Option<T>, v: T) -> Option<T> {
    Some(v)
}

/// What a receive on a slot holding `slot` hands out.
pub open spec fn received<T>(slot: Option<T>) -> Option<T> {
    slot
}

/// What the slot holds after a receive.
pub open spec fn after_receive<T>(slot: Option<T>) -> Option<T> {
    None
}

/// A mailbox from one producer to one consumer that holds at most one value.
pub struct Mailbox<T> {
    slot: Option<T>,
}

impl<T> View for Mailbox<T> {
    type V = Option<T>;

    /// The value waiting to be received, if any.
    closed spec fn view(&self) -> Option<T> {
        self.slot
    }
}

impl<T> Mailbox<T> {
    /// An empty mailbox.
    pub fn new() -> (r: Self)
        ensures
            r@ == None::<T>,
    {
        Mailbox { slot: None }
    }

    /// Puts `v` in the slot, dropping any value that was not yet received.
    pub fn send(&mut self, v: T)
        ensures
            final(self)@ == after_send(old(self)@, v),
    {
        self.slot = Some(v);
    }

    /// Takes the waiting value, if any, and leaves the slot empty.
    pub fn try_receive(&mut self) -> (r: Option<T>)
        ensures
            r == received(old(self)@),
            final(self)@ == after_receive(old(self)@),
    {
        self.slot.take()
    }

    /// Whether a value is waiting.
    pub fn has_value(&self) -> (r: bool)
        ensures
            r == self@.is_some(),
    {
        self.slot.is_some()
    }
}

/// Two sends without a receive between them, then one receive, hand out the
/// second value alone and leave the mailbox empty.
pub proof fn lemma_send_overwrites<T>(slot: Option<T>, a: T, b: T)
    ensures
        received(after_send(after_send(slot, a), b)) == Some(b),
        after_receive(after_send(after_send(slot, a), b)) == None::<T>,
{
}

/// A receive right after a send hands out exactly the value sent, and a
/// second receive finds nothing: no value is delivered twice.
pub proof fn lemma_receive_once<T>(slot: Option<T>, v: T)
    ensures
        received(after_send(slot, v)) == Some(v),
        received(after_receive(after_send(slot, v))) == None::<T>,
{
}

} // verus!

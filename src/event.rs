use vstd::prelude::*;

verus! {

/// Identifier of one delivered value or one clock tick.
#[derive(Clone, Copy, Debug, PartialEq, Eq, Structural)]
pub struct EventId {
    pub id: u64,
}

/// Identifier of a component, fixed when it is added to a simulation.
#[derive(Clone, Copy, Debug, PartialEq, Eq, Structural)]
pub struct ComponentId {
    pub id: u64,
}

/// Mints event identifiers. Every identifier handed out is below `next`,
/// so none is ever handed out twice.
#[derive(Clone, Copy, Debug)]
pub struct EventIdSource {
    pub next: u64,
}

impl EventIdSource {
    pub fn new() -> (r: EventIdSource)
        ensures
            r.next == 0,
    {
        EventIdSource { next: 0 }
    }

    /// Whether another identifier can still be minted.
    pub fn can_mint(&self) -> (r: bool)
        ensures
            r == (self.next < u64::MAX),
    {
        self.next < u64::MAX
    }

    /// Hands out a fresh identifier, larger than every earlier one.
    pub fn mint(&mut self) -> (r: EventId)
        requires
            old(self).next < u64::MAX,
        ensures
            r.id == old(self).next,
            final(self).next == old(self).next + 1,
    {
        let r = EventId { id: self.next };
        self.next = self.next + 1;
        r
    }
}

} // verus!

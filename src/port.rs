use vstd::prelude::*;
use crate::event::EventId;

verus! {

/// Outcome of a non-blocking receive.
#[derive(Clone, Copy, Debug, PartialEq, Eq, Structural)]
pub enum RxType {
    /// Nothing has arrived.
    NoValue,
    /// A freshly produced value was taken into the current slot.
    NewValue,
    /// The last value taken is still waiting for its acknowledgment.
    Repeated,
}

/// A value in transit, tagged with the event that carries it.
#[derive(Clone, Copy, Debug)]
pub struct Delivery<T> {
    pub event: EventId,
    pub value: T,
}

/// Receiving end of a port. It holds at most one value that has arrived and
/// not been taken (`incoming`), the event of the value taken and not yet
/// acknowledged (`pending`), the current value, the value as of the last step
/// boundary (`previous`), and the value that `reset` restores (`initial`).
#[derive(Clone, Copy, Debug)]
pub struct Rx<T> {
    pub incoming: Option<Delivery<T>>,
    pub pending: Option<EventId>,
    pub value: T,
    pub previous: T,
    pub initial: T,
}

impl<T: Copy> Rx<T> {
    /// What `try_recv` reports on this state.
    pub open spec fn recv_result(self) -> RxType {
        if self.pending is Some {
            RxType::Repeated
        } else if self.incoming is Some {
            RxType::NewValue
        } else {
            RxType::NoValue
        }
    }

    /// The state that `try_recv` leaves.
    pub open spec fn after_recv(self) -> Rx<T> {
        if self.pending is None && self.incoming is Some {
            Rx {
                incoming: None,
                pending: Some(self.incoming->0.event),
                value: self.incoming->0.value,
                previous: self.previous,
                initial: self.initial,
            }
        } else {
            self
        }
    }

    /// The state that `ack` leaves.
    pub open spec fn after_ack(self) -> Rx<T> {
        Rx { pending: None, ..self }
    }

    /// The state that `reset` leaves.
    pub open spec fn after_reset(self) -> Rx<T> {
        Rx {
            incoming: None,
            pending: None,
            value: self.initial,
            previous: self.initial,
            initial: self.initial,
        }
    }

    /// The state that an arrival of `d` leaves: the newest value replaces
    /// one that was never taken.
    pub open spec fn after_deliver(self, d: Delivery<T>) -> Rx<T> {
        Rx { incoming: Some(d), ..self }
    }

    /// The state at a step boundary: the current value becomes the previous one.
    pub open spec fn after_shift(self) -> Rx<T> {
        Rx { previous: self.value, ..self }
    }

    /// A receiver in its default state, holding `initial`.
    pub fn new(initial: T) -> (r: Rx<T>)
        ensures
            r.incoming is None,
            r.pending is None,
            r.value == initial,
            r.previous == initial,
            r.initial == initial,
    {
        Rx { incoming: None, pending: None, value: initial, previous: initial, initial }
    }

    /// Non-blocking receive. A value that arrived is taken into the current
    /// slot only once the value taken before it has been acknowledged.
    pub fn try_recv(&mut self) -> (r: RxType)
        ensures
            r == old(self).recv_result(),
            *final(self) == old(self).after_recv(),
    {
        if self.pending.is_some() {
            RxType::Repeated
        } else {
            match self.incoming {
                Some(d) => {
                    self.incoming = None;
                    self.pending = Some(d.event);
                    self.value = d.value;
                    RxType::NewValue
                },
                None => RxType::NoValue,
            }
        }
    }

    /// Acknowledges the value taken last. Returns its event, once: a second
    /// call, or a call with nothing taken, returns `None`.
    pub fn ack(&mut self) -> (r: Option<EventId>)
        ensures
            r == old(self).pending,
            *final(self) == old(self).after_ack(),
    {
        let r = self.pending;
        self.pending = None;
        r
    }

    /// Clears the port to its default state.
    pub fn reset(&mut self)
        ensures
            *final(self) == old(self).after_reset(),
    {
        self.incoming = None;
        self.pending = None;
        self.value = self.initial;
        self.previous = self.initial;
    }

    /// Makes `d` visible to the next receive.
    pub fn deliver(&mut self, d: Delivery<T>)
        ensures
            *final(self) == old(self).after_deliver(d),
    {
        self.incoming = Some(d);
    }

    /// Step boundary: the current value becomes the previous one.
    pub fn shift(&mut self)
        ensures
            *final(self) == old(self).after_shift(),
    {
        self.previous = self.value;
    }

    /// The current value.
    pub fn value(&self) -> (r: T)
        ensures
            r == self.value,
    {
        self.value
    }

    /// The value as of the last step boundary.
    pub fn previous(&self) -> (r: T)
        ensures
            r == self.previous,
    {
        self.previous
    }
}

/// Two receives with no arrival between them report a new value at most once.
pub proof fn lemma_recv_twice<T: Copy>(rx: Rx<T>)
    ensures
        rx.after_recv().recv_result() != RxType::NewValue,
{
}

/// After a reset, a receive with nothing sent reports no value.
pub proof fn lemma_reset_then_recv<T: Copy>(rx: Rx<T>)
    ensures
        rx.after_reset().recv_result() == RxType::NoValue,
        rx.after_reset().after_recv() == rx.after_reset(),
{
}

/// A value taken by a receive is acknowledged exactly once: the first `ack`
/// hands back its event, a second hands back nothing.
pub proof fn lemma_ack_once<T: Copy>(rx: Rx<T>)
    requires
        rx.recv_result() == RxType::NewValue,
    ensures
        rx.after_recv().pending == Some(rx.incoming->0.event),
        rx.after_recv().after_ack().pending is None,
{
}

} // verus!

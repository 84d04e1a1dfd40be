use vstd::prelude::*;
use crate::event::{ComponentId, EventId, EventIdSource};
use crate::manager::{insert_once, SimManager};
use crate::port::{Delivery, Rx, RxType};

verus! {

/// A callback that the kernel asks a component to run, in the order given.
#[derive(Clone, Copy, Debug, PartialEq, Eq, Structural)]
pub enum Callback {
    /// Commit clocked state.
    OnClock,
    /// Recompute outputs from the current inputs.
    OnComb,
}

#[derive(Clone, Copy, Debug, PartialEq, Eq, Structural)]
pub enum SimError {
    /// No component has this identifier.
    UnknownComponent,
    /// No port has this index.
    UnknownPort,
    /// The event identifier space is used up.
    EventIdsExhausted,
}

/// One port: a directed edge from `producer` to `consumer`. A value sent is
/// `staged` until the next step boundary, and only then reaches `rx`.
#[derive(Clone, Copy, Debug)]
pub struct Link<T> {
    pub producer: ComponentId,
    pub consumer: ComponentId,
    pub staged: Option<Delivery<T>>,
    pub rx: Rx<T>,
}

/// A port after `c` has polled: a port of `c` is received from and the value
/// taken is acknowledged; other ports are untouched.
pub open spec fn polled_link<T: Copy>(l: Link<T>, c: ComponentId) -> Link<T> {
    if l.consumer == c {
        Link { rx: l.rx.after_recv().after_ack(), ..l }
    } else {
        l
    }
}

/// A port after a step boundary: its current value becomes the previous
/// one, and a value staged in the step before arrives.
pub open spec fn advanced_link<T: Copy>(l: Link<T>) -> Link<T> {
    let rx = l.rx.after_shift();
    Link {
        staged: None,
        rx: if l.staged is Some {
            rx.after_deliver(l.staged->0)
        } else {
            rx
        },
        ..l
    }
}

/// A clock receiver after its component has polled.
pub open spec fn polled_clock(k: Option<Rx<()>>) -> Option<Rx<()>> {
    match k {
        Some(rx) => Some(rx.after_recv().after_ack()),
        None => None,
    }
}

/// The event of a tick.
pub open spec fn tick(id: int) -> Delivery<()> {
    Delivery { event: EventId { id: id as u64 }, value: () }
}

/// Callbacks for a tick: the clock callback strictly before the
/// combinational one.
pub open spec fn clock_calls(k: Option<Rx<()>>) -> Seq<Callback> {
    if k is Some && k->0.recv_result() == RxType::NewValue {
        seq![Callback::OnClock, Callback::OnComb]
    } else {
        Seq::empty()
    }
}

/// The acknowledgment that polling a clock receiver sends back.
pub open spec fn clock_acks(k: Option<Rx<()>>) -> Seq<EventId> {
    if k is Some && k->0.after_recv().pending is Some {
        seq![k->0.after_recv().pending->0]
    } else {
        Seq::empty()
    }
}

/// One combinational callback for each port of `c` that takes a new value,
/// in port order.
pub open spec fn input_calls<T: Copy>(links: Seq<Link<T>>, c: ComponentId) -> Seq<Callback>
    decreases links.len(),
{
    if links.len() == 0 {
        Seq::empty()
    } else {
        let l = links.last();
        input_calls(links.drop_last(), c) + if l.consumer == c && l.rx.recv_result()
            == RxType::NewValue {
            seq![Callback::OnComb]
        } else {
            Seq::empty()
        }
    }
}

/// One acknowledgment for each port of `c` that holds a value taken by the
/// receive, in port order.
pub open spec fn input_acks<T: Copy>(links: Seq<Link<T>>, c: ComponentId) -> Seq<EventId>
    decreases links.len(),
{
    if links.len() == 0 {
        Seq::empty()
    } else {
        let l = links.last();
        input_acks(links.drop_last(), c) + if l.consumer == c && l.rx.after_recv().pending is Some {
            seq![l.rx.after_recv().pending->0]
        } else {
            Seq::empty()
        }
    }
}

/// Every event in `evs` has an identifier below `bound`.
pub open spec fn ids_below(evs: Seq<EventId>, bound: u64) -> bool {
    forall|k: int| 0 <= k < evs.len() ==> (#[trigger] evs[k]).id < bound
}

/// The acknowledgments a poll sends back carry identifiers already minted.
proof fn lemma_input_acks_below<T: Copy>(links: Seq<Link<T>>, c: ComponentId, bound: u64)
    requires
        forall|i: int|
            0 <= i < links.len() ==> {
                let l = #[trigger] links[i];
                &&& l.rx.pending is None
                &&& l.rx.incoming is Some ==> l.rx.incoming->0.event.id < bound
            },
    ensures
        ids_below(input_acks(links, c), bound),
    decreases links.len(),
{
    if links.len() > 0 {
        let rest = links.drop_last();
        assert forall|i: int| 0 <= i < rest.len() implies {
            let l = #[trigger] rest[i];
            &&& l.rx.pending is None
            &&& l.rx.incoming is Some ==> l.rx.incoming->0.event.id < bound
        } by {
            assert(rest[i] == links[i]);
        }
        lemma_input_acks_below(rest, c, bound);
        let l = links[links.len() - 1];
        let a = input_acks(rest, c);
        let b = if l.consumer == c && l.rx.after_recv().pending is Some {
            seq![l.rx.after_recv().pending->0]
        } else {
            Seq::<EventId>::empty()
        };
        assert(input_acks(links, c) == a + b);
        assert forall|k: int| 0 <= k < (a + b).len() implies (#[trigger] (a + b)[k]).id < bound by {
            if k >= a.len() {
                assert((a + b)[k] == b[k - a.len()]);
            } else {
                assert((a + b)[k] == a[k]);
            }
        }
    }
}

/// The components, their ports and clock receivers, the shared registry and
/// the log of acknowledged events of one simulation. A component is known by
/// its position; `clocks[i]` holds the clock receiver of component `i`, if
/// it is clocked.
pub struct Sim<T> {
    links: Vec<Link<T>>,
    clocks: Vec<Option<Rx<()>>>,
    primary: Vec<bool>,
    manager: SimManager,
    ids: EventIdSource,
    acked: Vec<EventId>,
}

impl<T: Copy> Sim<T> {
    pub closed spec fn links_view(&self) -> Seq<Link<T>> {
        self.links@
    }

    pub closed spec fn clocks_view(&self) -> Seq<Option<Rx<()>>> {
        self.clocks@
    }

    /// Which components are primary drivers.
    pub closed spec fn primary_view(&self) -> Seq<bool> {
        self.primary@
    }

    pub closed spec fn manager_view(&self) -> SimManager {
        self.manager
    }

    /// The next event identifier to be minted.
    pub closed spec fn next_event(&self) -> u64 {
        self.ids.next
    }

    /// Acknowledged events, in the order acknowledged.
    pub closed spec fn acked_view(&self) -> Seq<EventId> {
        self.acked@
    }

    pub open spec fn component_count(&self) -> nat {
        self.clocks_view().len()
    }

    pub open spec fn wf(&self) -> bool {
        let n = self.component_count();
        let m = self.manager_view();
        &&& m.wf()
        &&& self.primary_view().len() == n
        &&& forall|k: int|
            0 <= k < m.clocks_view().len() ==> {
                let id = #[trigger] m.clocks_view()[k].id;
                id < n && self.clocks_view()[id as int] is Some
            }
        &&& forall|k: int|
            0 <= k < m.do_not_end_view().len() ==> #[trigger] m.do_not_end_view()[k].id < n
        &&& forall|i: int|
            0 <= i < self.links_view().len() ==> {
                let l = #[trigger] self.links_view()[i];
                &&& l.producer.id < n
                &&& l.consumer.id < n
                &&& l.rx.pending is None
                &&& l.staged is Some ==> l.staged->0.event.id < self.next_event()
                &&& l.rx.incoming is Some ==> l.rx.incoming->0.event.id < self.next_event()
            }
        &&& forall|j: int|
            0 <= j < n && #[trigger] self.clocks_view()[j] is Some ==> {
                let rx = self.clocks_view()[j]->0;
                &&& rx.pending is None
                &&& rx.incoming is Some ==> rx.incoming->0.event.id < self.next_event()
            }
        &&& ids_below(self.acked_view(), self.next_event())
    }

    /// Whether some event is still travelling: staged, arrived and not taken,
    /// or taken and not acknowledged.
    pub open spec fn in_flight(&self) -> bool {
        ||| exists|i: int|
            0 <= i < self.links_view().len() && {
                let l = #[trigger] self.links_view()[i];
                l.staged is Some || l.rx.incoming is Some || l.rx.pending is Some
            }
        ||| exists|j: int|
            0 <= j < self.component_count() && #[trigger] self.clocks_view()[j] is Some && {
                let rx = self.clocks_view()[j]->0;
                rx.incoming is Some || rx.pending is Some
            }
    }

    /// The simulation may end: nothing keeps it alive, or nothing is in flight.
    pub open spec fn quiescent(&self) -> bool {
        self.manager_view().do_not_end_view().len() == 0 || !self.in_flight()
    }

    /// An empty simulation.
    pub fn new() -> (r: Sim<T>)
        ensures
            r.wf(),
            r.links_view() == Seq::<Link<T>>::empty(),
            r.component_count() == 0,
            r.manager_view().do_not_end_view() == Seq::<ComponentId>::empty(),
            r.manager_view().clocks_view() == Seq::<ComponentId>::empty(),
            r.next_event() == 0,
            r.acked_view() == Seq::<EventId>::empty(),
    {
        Sim {
            links: Vec::new(),
            clocks: Vec::new(),
            primary: Vec::new(),
            manager: SimManager::new(),
            ids: EventIdSource::new(),
            acked: Vec::new(),
        }
    }

    /// Adds a component and returns its identifier. A clocked component gets
    /// a clock receiver; registrations wait for `init_component`.
    pub fn add_component(&mut self, clocked: bool, primary: bool) -> (r: ComponentId)
        requires
            old(self).wf(),
        ensures
            final(self).wf(),
            r.id == old(self).component_count(),
            final(self).clocks_view() == old(self).clocks_view().push(
                if clocked {
                    Some(Rx { incoming: None, pending: None, value: (), previous: (), initial: () })
                } else {
                    None
                },
            ),
            final(self).primary_view() == old(self).primary_view().push(primary),
            final(self).links_view() == old(self).links_view(),
            final(self).manager_view() == old(self).manager_view(),
            final(self).next_event() == old(self).next_event(),
            final(self).acked_view() == old(self).acked_view(),
    {
        let r = ComponentId { id: self.clocks.len() as u64 };
        if clocked {
            self.clocks.push(Some(Rx::new(())));
        } else {
            self.clocks.push(None);
        }
        self.primary.push(primary);
        r
    }

    /// Runs the kernel's part of a component's `init`: a primary component is
    /// registered as required for liveness, a clocked one for clock ticks.
    pub fn init_component(&mut self, c: ComponentId) -> (r: Result<(), SimError>)
        requires
            old(self).wf(),
        ensures
            final(self).wf(),
            c.id >= old(self).component_count() ==> r == Err::<(), SimError>(
                SimError::UnknownComponent,
            ) && *final(self) == *old(self),
            c.id < old(self).component_count() ==> {
                let m = old(self).manager_view();
                &&& r is Ok
                &&& final(self).manager_view().do_not_end_view() == if old(self).primary_view()[c.id as int] {
                    insert_once(m.do_not_end_view(), c)
                } else {
                    m.do_not_end_view()
                }
                &&& final(self).manager_view().clocks_view() == if old(self).clocks_view()[c.id as int] is Some {
                    insert_once(m.clocks_view(), c)
                } else {
                    m.clocks_view()
                }
                &&& final(self).links_view() == old(self).links_view()
                &&& final(self).clocks_view() == old(self).clocks_view()
                &&& final(self).primary_view() == old(self).primary_view()
                &&& final(self).next_event() == old(self).next_event()
                &&& final(self).acked_view() == old(self).acked_view()
            },
    {
        if c.id >= self.clocks.len() as u64 {
            return Err(SimError::UnknownComponent);
        }
        let ci = c.id as usize;
        let ghost m0 = self.manager;
        if self.primary[ci] {
            self.manager.register_do_not_end(c);
        }
        if self.clocks[ci].is_some() {
            self.manager.register_clock_tick(c);
        }
        proof {
            let m = self.manager;
            assert forall|k: int| 0 <= k < m.clocks_view().len() implies {
                let id = #[trigger] m.clocks_view()[k].id;
                id < self.component_count() && self.clocks_view()[id as int] is Some
            } by {
                if k < m0.clocks_view().len() {
                    assert(m.clocks_view()[k] == m0.clocks_view()[k]);
                }
            }
            assert forall|k: int| 0 <= k < m.do_not_end_view().len() implies
                #[trigger] m.do_not_end_view()[k].id < self.component_count() by {
                if k < m0.do_not_end_view().len() {
                    assert(m.do_not_end_view()[k] == m0.do_not_end_view()[k]);
                }
            }
        }
        Ok(())
    }

    /// Adds a port from `producer` to `consumer` whose receiver holds
    /// `initial`, and returns its index.
    pub fn connect(&mut self, producer: ComponentId, consumer: ComponentId, initial: T) -> (r:
        Result<usize, SimError>)
        requires
            old(self).wf(),
        ensures
            final(self).wf(),
            (producer.id >= old(self).component_count() || consumer.id >= old(
                self,
            ).component_count()) ==> r == Err::<usize, SimError>(SimError::UnknownComponent)
                && *final(self) == *old(self),
            (producer.id < old(self).component_count() && consumer.id < old(
                self,
            ).component_count()) ==> {
                &&& r == Ok::<usize, SimError>(old(self).links_view().len() as usize)
                &&& final(self).links_view() == old(self).links_view().push(
                    Link {
                        producer,
                        consumer,
                        staged: None,
                        rx: Rx {
                            incoming: None,
                            pending: None,
                            value: initial,
                            previous: initial,
                            initial,
                        },
                    },
                )
                &&& final(self).clocks_view() == old(self).clocks_view()
                &&& final(self).primary_view() == old(self).primary_view()
                &&& final(self).manager_view() == old(self).manager_view()
                &&& final(self).next_event() == old(self).next_event()
                &&& final(self).acked_view() == old(self).acked_view()
            },
    {
        let n = self.clocks.len() as u64;
        if producer.id >= n || consumer.id >= n {
            return Err(SimError::UnknownComponent);
        }
        let r = self.links.len();
        self.links.push(Link { producer, consumer, staged: None, rx: Rx::new(initial) });
        Ok(r)
    }

    /// Sends `value` on port `port`. It becomes visible to the consumer at
    /// the next step boundary; an earlier value staged in the same step is
    /// replaced.
    pub fn send(&mut self, port: usize, value: T) -> (r: Result<EventId, SimError>)
        requires
            old(self).wf(),
        ensures
            final(self).wf(),
            port >= old(self).links_view().len() ==> r == Err::<EventId, SimError>(
                SimError::UnknownPort,
            ) && *final(self) == *old(self),
            port < old(self).links_view().len() && old(self).next_event() == u64::MAX ==> r
                == Err::<EventId, SimError>(SimError::EventIdsExhausted) && *final(self) == *old(
                self,
            ),
            port < old(self).links_view().len() && old(self).next_event() < u64::MAX ==> {
                let ev = EventId { id: old(self).next_event() };
                &&& r == Ok::<EventId, SimError>(ev)
                &&& final(self).links_view() == old(self).links_view().update(
                    port as int,
                    Link {
                        staged: Some(Delivery { event: ev, value }),
                        ..old(self).links_view()[port as int]
                    },
                )
                &&& final(self).next_event() == old(self).next_event() + 1
                &&& final(self).clocks_view() == old(self).clocks_view()
                &&& final(self).primary_view() == old(self).primary_view()
                &&& final(self).manager_view() == old(self).manager_view()
                &&& final(self).acked_view() == old(self).acked_view()
            },
    {
        if port >= self.links.len() {
            return Err(SimError::UnknownPort);
        }
        if !self.ids.can_mint() {
            return Err(SimError::EventIdsExhausted);
        }
        let event = self.ids.mint();
        self.links[port].staged = Some(Delivery { event, value });
        Ok(event)
    }

    /// Polls component `c` once: first its clock receiver, then each of its
    /// input ports in port order. A tick asks for the clock callback and then
    /// the combinational one; each input that takes a new value asks for the
    /// combinational callback. Every receive that reports something is
    /// acknowledged, and the acknowledged events are appended to the log.
    /// Returns the callbacks to run, in order.
    pub fn poll_component(&mut self, c: ComponentId) -> (r: Result<Vec<Callback>, SimError>)
        requires
            old(self).wf(),
        ensures
            final(self).wf(),
            c.id >= old(self).component_count() ==> r == Err::<Vec<Callback>, SimError>(
                SimError::UnknownComponent,
            ) && *final(self) == *old(self),
            c.id < old(self).component_count() ==> {
                let k = old(self).clocks_view()[c.id as int];
                let ls = old(self).links_view();
                &&& r is Ok
                &&& r->Ok_0@ == clock_calls(k) + input_calls(ls, c)
                &&& final(self).acked_view() == old(self).acked_view() + clock_acks(k)
                    + input_acks(ls, c)
                &&& final(self).clocks_view() == old(self).clocks_view().update(
                    c.id as int,
                    polled_clock(k),
                )
                &&& final(self).links_view().len() == ls.len()
                &&& forall|i: int|
                    0 <= i < ls.len() ==> #[trigger] final(self).links_view()[i] == polled_link(
                        ls[i],
                        c,
                    )
                &&& final(self).primary_view() == old(self).primary_view()
                &&& final(self).manager_view() == old(self).manager_view()
                &&& final(self).next_event() == old(self).next_event()
            },
    {
        if c.id >= self.clocks.len() as u64 {
            return Err(SimError::UnknownComponent);
        }
        let ci = c.id as usize;
        let ghost s0 = *self;
        let mut calls: Vec<Callback> = Vec::new();
        match self.clocks[ci] {
            Some(rx0) => {
                let mut rx = rx0;
                let res = rx.try_recv();
                if res == RxType::NewValue {
                    calls.push(Callback::OnClock);
                    calls.push(Callback::OnComb);
                }
                if res != RxType::NoValue {
                    match rx.ack() {
                        Some(e) => self.acked.push(e),
                        None => {},
                    }
                } else {
                    assert(rx.after_ack() == rx);
                }
                self.clocks.set(ci, Some(rx));
            },
            None => {},
        }
        assert(calls@ == clock_calls(s0.clocks@[ci as int]));
        assert(self.acked@ == s0.acked@ + clock_acks(s0.clocks@[ci as int]));
        let mut i: usize = 0;
        while i < self.links.len()
            invariant
                0 <= i <= self.links@.len(),
                self.links@.len() == s0.links@.len(),
                ci == c.id,
                ci < s0.clocks@.len(),
                s0.wf(),
                self.clocks@ == s0.clocks@.update(ci as int, polled_clock(s0.clocks@[ci as int])),
                self.primary@ == s0.primary@,
                self.manager == s0.manager,
                self.ids == s0.ids,
                forall|j: int| 0 <= j < i ==> #[trigger] self.links@[j] == polled_link(s0.links@[j], c),
                forall|j: int| i <= j < self.links@.len() ==> #[trigger] self.links@[j] == s0.links@[j],
                calls@ == clock_calls(s0.clocks@[ci as int]) + input_calls(s0.links@.subrange(0, i as int), c),
                self.acked@ == s0.acked@ + clock_acks(s0.clocks@[ci as int]) + input_acks(
                    s0.links@.subrange(0, i as int),
                    c,
                ),
            decreases self.links@.len() - i,
        {
            let ghost pre = s0.links@.subrange(0, i as int);
            assert(s0.links@.subrange(0, i + 1).drop_last() == pre);
            if self.links[i].consumer == c {
                let res = self.links[i].rx.try_recv();
                if res == RxType::NewValue {
                    calls.push(Callback::OnComb);
                }
                if res != RxType::NoValue {
                    match self.links[i].rx.ack() {
                        Some(e) => self.acked.push(e),
                        None => {},
                    }
                } else {
                    assert(self.links@[i as int].rx.after_ack() == self.links@[i as int].rx);
                }
            }
            i = i + 1;
        }
        assert(s0.links@.subrange(0, i as int) == s0.links@);
        proof {
            let bound = s0.ids.next;
            let k0 = s0.clocks@[ci as int];
            assert forall|i: int| 0 <= i < s0.links@.len() implies {
                let l = #[trigger] s0.links@[i];
                &&& l.rx.pending is None
                &&& l.rx.incoming is Some ==> l.rx.incoming->0.event.id < bound
            } by {
                assert(s0.links_view()[i] == s0.links@[i]);
            }
            lemma_input_acks_below(s0.links@, c, bound);
            let a = s0.acked@;
            let b = clock_acks(k0);
            let d = input_acks(s0.links@, c);
            if k0 is Some {
                assert(s0.clocks_view()[ci as int] is Some);
            }
            assert forall|q: int| 0 <= q < (a + b + d).len() implies (#[trigger] (a + b
                + d)[q]).id < bound by {
                if q < a.len() {
                    assert((a + b + d)[q] == a[q]);
                } else if q < a.len() + b.len() {
                    assert((a + b + d)[q] == b[q - a.len()]);
                } else {
                    assert((a + b + d)[q] == d[q - a.len() - b.len()]);
                }
            }
        }
        Ok(calls)
    }

    /// Starts a step. With no component registered as required for liveness
    /// the simulation is over: nothing changes and `Ok(false)` is returned.
    /// Otherwise, at this step boundary, every port's current value becomes
    /// its previous value and each staged value arrives at its receiver; then
    /// each clock registration, in registration order, gets a tick with a
    /// fresh event identifier. Returns `Ok(true)`.
    pub fn begin_pass(&mut self) -> (r: Result<bool, SimError>)
        requires
            old(self).wf(),
        ensures
            final(self).wf(),
            ({
                let m = old(self).manager_view();
                let regs = m.clocks_view();
                let next = old(self).next_event();
                if m.do_not_end_view().len() == 0 {
                    r == Ok::<bool, SimError>(false) && *final(self) == *old(self)
                } else if next + regs.len() > u64::MAX {
                    r == Err::<bool, SimError>(SimError::EventIdsExhausted) && *final(self)
                        == *old(self)
                } else {
                    &&& r == Ok::<bool, SimError>(true)
                    &&& final(self).links_view().len() == old(self).links_view().len()
                    &&& forall|i: int|
                        0 <= i < old(self).links_view().len() ==> #[trigger] final(self).links_view()[i] == advanced_link(old(self).links_view()[i])
                    &&& final(self).clocks_view().len() == old(self).clocks_view().len()
                    &&& forall|k: int|
                        0 <= k < regs.len() ==> #[trigger] final(self).clocks_view()[regs[k].id as int]
                            == Some(
                            old(self).clocks_view()[regs[k].id as int]->0.after_deliver(
                                tick(next + k),
                            ),
                        )
                    &&& forall|j: int|
                        0 <= j < old(self).clocks_view().len() && (forall|q: int|
                            0 <= q < regs.len() ==> regs[q].id != j) ==> #[trigger] final(self).clocks_view()[j] == old(self).clocks_view()[j]
                    &&& final(self).next_event() == next + regs.len()
                    &&& final(self).primary_view() == old(self).primary_view()
                    &&& final(self).manager_view() == old(self).manager_view()
                    &&& final(self).acked_view() == old(self).acked_view()
                }
            }),
    {
        if !self.manager.keeps_alive() {
            return Ok(false);
        }
        let n = self.manager.clock_count();
        if self.ids.next > u64::MAX - n as u64 {
            return Err(SimError::EventIdsExhausted);
        }
        let ghost s0 = *self;
        let mut i: usize = 0;
        while i < self.links.len()
            invariant
                0 <= i <= self.links@.len(),
                self.links@.len() == s0.links@.len(),
                self.clocks == s0.clocks,
                self.primary == s0.primary,
                self.manager == s0.manager,
                self.ids == s0.ids,
                self.acked == s0.acked,
                forall|j: int| 0 <= j < i ==> #[trigger] self.links@[j] == advanced_link(s0.links@[j]),
                forall|j: int| i <= j < self.links@.len() ==> #[trigger] self.links@[j] == s0.links@[j],
            decreases self.links@.len() - i,
        {
            self.links[i].rx.shift();
            match self.links[i].staged {
                Some(d) => {
                    self.links[i].rx.deliver(d);
                    self.links[i].staged = None;
                },
                None => {},
            }
            i = i + 1;
        }
        let ghost s1 = *self;
        let ghost regs = s0.manager.clocks_view();
        let mut k: usize = 0;
        while k < n
            invariant
                0 <= k <= n,
                n == regs.len(),
                regs == self.manager.clocks_view(),
                s0.wf(),
                s0.ids.next + n <= u64::MAX,
                self.ids.next == s0.ids.next + k,
                self.links == s1.links,
                self.primary == s0.primary,
                self.manager == s0.manager,
                self.acked == s0.acked,
                self.clocks@.len() == s0.clocks@.len(),
                forall|q: int|
                    0 <= q < k ==> #[trigger] self.clocks@[regs[q].id as int] == Some(
                        s0.clocks@[regs[q].id as int]->0.after_deliver(tick(s0.ids.next + q)),
                    ),
                forall|j: int|
                    0 <= j < s0.clocks@.len() && (forall|q: int| 0 <= q < k ==> regs[q].id != j)
                        ==> #[trigger] self.clocks@[j] == s0.clocks@[j],
            decreases n - k,
        {
            let cid = self.manager.clock_at(k);
            assert(regs[k as int].id < s0.clocks@.len());
            let nc = self.clocks.len();
            assert(cid.id < nc);
            let ci = cid.id as usize;
            let ev = self.ids.mint();
            let ghost before = self.clocks@;
            proof {
                assert forall|q: int| 0 <= q < k implies regs[q].id != cid.id by {
                    assert(regs[q] != regs[k as int]);
                }
                assert(ci as int == cid.id as int);
                assert(cid == regs[k as int]);
                assert(before[cid.id as int] == s0.clocks@[cid.id as int]);
                assert(s0.clocks@[regs[k as int].id as int] is Some);
            }
            match self.clocks[ci] {
                Some(rx0) => {
                    let mut rx = rx0;
                    rx.deliver(Delivery { event: ev, value: () });
                    self.clocks.set(ci, Some(rx));
                },
                None => {},
            }
            proof {
                assert forall|q: int| 0 <= q < k + 1 implies #[trigger] self.clocks@[regs[q].id as int]
                    == Some(s0.clocks@[regs[q].id as int]->0.after_deliver(tick(s0.ids.next + q))) by {
                    if q < k {
                        assert(regs[q].id != cid.id);
                        assert(self.clocks@[regs[q].id as int] == before[regs[q].id as int]);
                    }
                }
            }
            k = k + 1;
        }
        proof {
            assert forall|i: int| 0 <= i < self.links_view().len() implies {
                let l = #[trigger] self.links_view()[i];
                &&& l.producer.id < self.component_count()
                &&& l.consumer.id < self.component_count()
                &&& l.rx.pending is None
            } by {
                assert(self.links@[i] == advanced_link(s0.links@[i]));
            }
            assert forall|j: int|
                0 <= j < self.component_count() && #[trigger] self.clocks_view()[j] is Some
                    implies self.clocks_view()[j]->0.pending is None by {
                if exists|q: int| 0 <= q < n && regs[q].id == j {
                    let q = choose|q: int| 0 <= q < n && regs[q].id == j;
                    assert(self.clocks@[regs[q].id as int] == Some(
                        s0.clocks@[regs[q].id as int]->0.after_deliver(tick(s0.ids.next + q)),
                    ));
                    assert(s0.clocks@[j] is Some);
                } else {
                    assert(self.clocks@[j] == s0.clocks@[j]);
                }
            }
        }
        Ok(true)
    }

    /// Whether the simulation may end: no component is registered as
    /// required for liveness, or no event is in flight.
    pub fn is_quiescent(&self) -> (r: bool)
        requires
            self.wf(),
        ensures
            r == self.quiescent(),
    {
        if !self.manager.keeps_alive() {
            return true;
        }
        let mut i: usize = 0;
        while i < self.links.len()
            invariant
                0 <= i <= self.links@.len(),
                self.manager.do_not_end_view().len() > 0,
                forall|j: int|
                    0 <= j < i ==> {
                        let l = #[trigger] self.links@[j];
                        !(l.staged is Some || l.rx.incoming is Some || l.rx.pending is Some)
                    },
            decreases self.links@.len() - i,
        {
            let l = self.links[i];
            if l.staged.is_some() || l.rx.incoming.is_some() || l.rx.pending.is_some() {
                assert(self.links_view()[i as int] == l);
                return false;
            }
            i = i + 1;
        }
        let mut j: usize = 0;
        while j < self.clocks.len()
            invariant
                0 <= j <= self.clocks@.len(),
                self.manager.do_not_end_view().len() > 0,
                forall|q: int|
                    0 <= q < j && #[trigger] self.clocks@[q] is Some ==> {
                        let rx = self.clocks@[q]->0;
                        !(rx.incoming is Some || rx.pending is Some)
                    },
            decreases self.clocks@.len() - j,
        {
            match self.clocks[j] {
                Some(rx) => {
                    if rx.incoming.is_some() || rx.pending.is_some() {
                        assert(self.clocks_view()[j as int] is Some);
                        return false;
                    }
                },
                None => {},
            }
            j = j + 1;
        }
        assert(!self.in_flight()) by {
            assert forall|i: int| 0 <= i < self.links_view().len() implies {
                let l = #[trigger] self.links_view()[i];
                !(l.staged is Some || l.rx.incoming is Some || l.rx.pending is Some)
            } by {
                assert(self.links_view()[i] == self.links@[i]);
            }
            assert forall|q: int|
                0 <= q < self.component_count() && #[trigger] self.clocks_view()[q] is Some
                    implies !(self.clocks_view()[q]->0.incoming is Some
                    || self.clocks_view()[q]->0.pending is Some) by {
                assert(self.clocks_view()[q] == self.clocks@[q]);
            }
        }
        true
    }

    /// Runs the kernel's part of a component's `reset`: every input port of
    /// `c` returns to its default state.
    pub fn reset_component(&mut self, c: ComponentId) -> (r: Result<(), SimError>)
        requires
            old(self).wf(),
        ensures
            final(self).wf(),
            c.id >= old(self).component_count() ==> r == Err::<(), SimError>(
                SimError::UnknownComponent,
            ) && *final(self) == *old(self),
            c.id < old(self).component_count() ==> {
                let ls = old(self).links_view();
                &&& r is Ok
                &&& final(self).links_view().len() == ls.len()
                &&& forall|i: int|
                    0 <= i < ls.len() ==> #[trigger] final(self).links_view()[i] == if ls[i].consumer
                        == c {
                        Link { rx: ls[i].rx.after_reset(), ..ls[i] }
                    } else {
                        ls[i]
                    }
                &&& final(self).clocks_view() == old(self).clocks_view()
                &&& final(self).primary_view() == old(self).primary_view()
                &&& final(self).manager_view() == old(self).manager_view()
                &&& final(self).next_event() == old(self).next_event()
                &&& final(self).acked_view() == old(self).acked_view()
            },
    {
        if c.id >= self.clocks.len() as u64 {
            return Err(SimError::UnknownComponent);
        }
        let ghost s0 = *self;
        let mut i: usize = 0;
        while i < self.links.len()
            invariant
                0 <= i <= self.links@.len(),
                self.links@.len() == s0.links@.len(),
                self.clocks == s0.clocks,
                self.primary == s0.primary,
                self.manager == s0.manager,
                self.ids == s0.ids,
                self.acked == s0.acked,
                forall|j: int|
                    0 <= j < i ==> #[trigger] self.links@[j] == if s0.links@[j].consumer == c {
                        Link { rx: s0.links@[j].rx.after_reset(), ..s0.links@[j] }
                    } else {
                        s0.links@[j]
                    },
                forall|j: int| i <= j < self.links@.len() ==> #[trigger] self.links@[j] == s0.links@[j],
            decreases self.links@.len() - i,
        {
            if self.links[i].consumer == c {
                self.links[i].rx.reset();
            }
            i = i + 1;
        }
        Ok(())
    }

    /// Number of components.
    pub fn component_len(&self) -> (r: usize)
        ensures
            r == self.component_count(),
    {
        self.clocks.len()
    }

    /// Number of ports.
    pub fn port_len(&self) -> (r: usize)
        ensures
            r == self.links_view().len(),
    {
        self.links.len()
    }

    /// The current value of port `port`.
    pub fn current(&self, port: usize) -> (r: T)
        requires
            port < self.links_view().len(),
        ensures
            r == self.links_view()[port as int].rx.value,
    {
        self.links[port].rx.value()
    }

    /// The value of port `port` as of the last step boundary.
    pub fn previous(&self, port: usize) -> (r: T)
        requires
            port < self.links_view().len(),
        ensures
            r == self.links_view()[port as int].rx.previous,
    {
        self.links[port].rx.previous()
    }

    /// The shared registry.
    pub fn manager(&self) -> (r: &SimManager)
        ensures
            *r == self.manager_view(),
    {
        &self.manager
    }

    /// Acknowledged events, in the order acknowledged.
    pub fn acked(&self) -> (r: &Vec<EventId>)
        ensures
            r@ == self.acked_view(),
    {
        &self.acked
    }
}

/// Every callback asked for by an input port is the combinational one.
pub proof fn lemma_input_calls_comb<T: Copy>(links: Seq<Link<T>>, c: ComponentId)
    ensures
        forall|i: int|
            0 <= i < input_calls(links, c).len() ==> #[trigger] input_calls(links, c)[i]
                == Callback::OnComb,
        input_calls(links, c).len() <= links.len(),
    decreases links.len(),
{
    if links.len() > 0 {
        lemma_input_calls_comb(links.drop_last(), c);
    }
}

/// Within one poll, the clock callback comes strictly before every
/// combinational callback.
pub proof fn lemma_clock_before_comb<T: Copy>(
    k: Option<Rx<()>>,
    links: Seq<Link<T>>,
    c: ComponentId,
)
    ensures
        ({
            let calls = clock_calls(k) + input_calls(links, c);
            forall|i: int, j: int|
                0 <= i < calls.len() && 0 <= j < calls.len() && #[trigger] calls[i]
                    == Callback::OnClock && #[trigger] calls[j] == Callback::OnComb ==> i < j
        }),
{
    lemma_input_calls_comb(links, c);
    let calls = clock_calls(k) + input_calls(links, c);
    assert forall|i: int, j: int|
        0 <= i < calls.len() && 0 <= j < calls.len() && #[trigger] calls[i] == Callback::OnClock
            && #[trigger] calls[j] == Callback::OnComb implies i < j by {
        if i >= clock_calls(k).len() {
            assert(calls[i] == input_calls(links, c)[i - clock_calls(k).len()]);
        }
    }
}

/// Polling a component a second time in the same step, with no step boundary
/// between, asks for no callback: each input drives at most one
/// re-evaluation per step.
pub proof fn lemma_poll_again_quiet<T: Copy>(
    k: Option<Rx<()>>,
    links: Seq<Link<T>>,
    c: ComponentId,
)
    requires
        forall|i: int| 0 <= i < links.len() ==> (#[trigger] links[i]).rx.pending is None,
        k is Some ==> k->0.pending is None,
    ensures
        clock_calls(polled_clock(k)) == Seq::<Callback>::empty(),
        input_calls(links.map_values(|l: Link<T>| polled_link(l, c)), c) == Seq::<
            Callback,
        >::empty(),
    decreases links.len(),
{
    let polled = links.map_values(|l: Link<T>| polled_link(l, c));
    if links.len() > 0 {
        let rest = links.drop_last();
        assert forall|i: int| 0 <= i < rest.len() implies (#[trigger] rest[i]).rx.pending is None by {
            assert(rest[i] == links[i]);
        }
        lemma_poll_again_quiet(k, rest, c);
        assert(polled.drop_last() == rest.map_values(|l: Link<T>| polled_link(l, c)));
        assert(links[links.len() - 1].rx.pending is None);
    }
}

/// A simulation with no component registered as required for liveness is
/// quiescent.
pub proof fn lemma_quiescent_without_liveness<T: Copy>(s: Sim<T>)
    requires
        s.manager_view().do_not_end_view().len() == 0,
    ensures
        s.quiescent(),
{
}

/// One value sent on a port with nothing else in flight: at the next step
/// boundary and poll of its consumer it is observed as new exactly once and
/// acknowledged exactly once; at the step after, with no new send, the port
/// asks for nothing and acknowledges nothing.
pub proof fn lemma_single_send<T: Copy>(l: Link<T>, d: Delivery<T>)
    requires
        l.rx.pending is None,
        l.rx.incoming is None,
    ensures
        ({
            let c = l.consumer;
            let first = advanced_link(Link { staged: Some(d), ..l });
            let second = advanced_link(polled_link(first, c));
            &&& input_calls(seq![first], c) == seq![Callback::OnComb]
            &&& input_acks(seq![first], c) == seq![d.event]
            &&& polled_link(first, c).rx.value == d.value
            &&& input_calls(seq![second], c) == Seq::<Callback>::empty()
            &&& input_acks(seq![second], c) == Seq::<EventId>::empty()
        }),
{
    let c = l.consumer;
    let first = advanced_link(Link { staged: Some(d), ..l });
    let second = advanced_link(polled_link(first, c));
    assert(seq![first].drop_last() == Seq::<Link<T>>::empty());
    assert(seq![second].drop_last() == Seq::<Link<T>>::empty());
    assert(input_calls(Seq::<Link<T>>::empty(), c) == Seq::<Callback>::empty());
    assert(input_acks(Seq::<Link<T>>::empty(), c) == Seq::<EventId>::empty());
    assert(input_calls(seq![first], c) =~= seq![Callback::OnComb]);
    assert(input_acks(seq![first], c) =~= seq![d.event]);
    assert(input_calls(seq![second], c) =~= Seq::<Callback>::empty());
    assert(input_acks(seq![second], c) =~= Seq::<EventId>::empty());
}

/// While some component keeps the simulation alive, a value that is staged,
/// arrived but not taken, or taken but not acknowledged keeps it from being
/// quiescent.
pub proof fn lemma_in_flight_not_quiescent<T: Copy>(s: Sim<T>, i: int)
    requires
        s.manager_view().do_not_end_view().len() > 0,
        0 <= i < s.links_view().len(),
        s.links_view()[i].staged is Some || s.links_view()[i].rx.incoming is Some
            || s.links_view()[i].rx.pending is Some,
    ensures
        !s.quiescent(),
{
    assert(s.in_flight());
}

/// Event identifiers are never reused: every event that a port holds or that
/// has been acknowledged has an identifier below the next one to be minted,
/// so the next send or tick carries an identifier not seen before.
pub proof fn lemma_fresh_event_id<T: Copy>(s: Sim<T>)
    requires
        s.wf(),
    ensures
        forall|k: int|
            0 <= k < s.acked_view().len() ==> (#[trigger] s.acked_view()[k]).id != s.next_event(),
        forall|i: int|
            0 <= i < s.links_view().len() && (#[trigger] s.links_view()[i]).staged is Some
                ==> s.links_view()[i].staged->0.event.id != s.next_event(),
        forall|i: int|
            0 <= i < s.links_view().len() && (#[trigger] s.links_view()[i]).rx.incoming is Some
                ==> s.links_view()[i].rx.incoming->0.event.id != s.next_event(),
{
}

} // verus!

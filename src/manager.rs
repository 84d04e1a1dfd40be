use vstd::prelude::*;
use crate::event::ComponentId;

verus! {

/// Registry shared by the components of one simulation: which components keep
/// the simulation alive, and which components take clock ticks, in the order
/// they registered. Registrations are only ever added, each at most once.
pub struct SimManager {
    do_not_end: Vec<ComponentId>,
    clocks: Vec<ComponentId>,
}

/// `s` with `id` appended unless it is already there.
pub open spec fn insert_once(s: Seq<ComponentId>, id: ComponentId) -> Seq<ComponentId> {
    if s.contains(id) {
        s
    } else {
        s.push(id)
    }
}

fn vec_contains(v: &Vec<ComponentId>, id: ComponentId) -> (r: bool)
    ensures
        r == v@.contains(id),
{
    let mut i: usize = 0;
    while i < v.len()
        invariant
            i <= v.len(),
            forall|k: int| 0 <= k < i ==> v@[k] != id,
        decreases v.len() - i,
    {
        if v[i] == id {
            return true;
        }
        i = i + 1;
    }
    false
}

impl SimManager {
    /// Components registered as required for liveness.
    pub closed spec fn do_not_end_view(&self) -> Seq<ComponentId> {
        self.do_not_end@
    }

    /// Components registered for clock ticks, in registration order.
    pub closed spec fn clocks_view(&self) -> Seq<ComponentId> {
        self.clocks@
    }

    pub open spec fn wf(&self) -> bool {
        &&& self.do_not_end_view().no_duplicates()
        &&& self.clocks_view().no_duplicates()
    }

    pub fn new() -> (r: SimManager)
        ensures
            r.wf(),
            r.do_not_end_view() == Seq::<ComponentId>::empty(),
            r.clocks_view() == Seq::<ComponentId>::empty(),
    {
        SimManager { do_not_end: Vec::new(), clocks: Vec::new() }
    }

    /// Marks `id` as required for liveness. Registering twice has no further effect.
    pub fn register_do_not_end(&mut self, id: ComponentId)
        requires
            old(self).wf(),
        ensures
            final(self).wf(),
            final(self).do_not_end_view() == insert_once(old(self).do_not_end_view(), id),
            final(self).clocks_view() == old(self).clocks_view(),
    {
        if !vec_contains(&self.do_not_end, id) {
            self.do_not_end.push(id);
        }
    }

    /// Adds `id` to the components that every step sends a tick to.
    /// Registering twice has no further effect.
    pub fn register_clock_tick(&mut self, id: ComponentId)
        requires
            old(self).wf(),
        ensures
            final(self).wf(),
            final(self).clocks_view() == insert_once(old(self).clocks_view(), id),
            final(self).do_not_end_view() == old(self).do_not_end_view(),
    {
        if !vec_contains(&self.clocks, id) {
            self.clocks.push(id);
        }
    }

    /// Whether any component keeps the simulation alive.
    pub fn keeps_alive(&self) -> (r: bool)
        ensures
            r == (self.do_not_end_view().len() > 0),
    {
        self.do_not_end.len() > 0
    }

    /// Whether `id` is registered as required for liveness.
    pub fn is_do_not_end(&self, id: ComponentId) -> (r: bool)
        ensures
            r == self.do_not_end_view().contains(id),
    {
        vec_contains(&self.do_not_end, id)
    }

    /// Whether `id` is registered for clock ticks.
    pub fn is_clocked(&self, id: ComponentId) -> (r: bool)
        ensures
            r == self.clocks_view().contains(id),
    {
        vec_contains(&self.clocks, id)
    }

    /// Number of clock registrations.
    pub fn clock_count(&self) -> (r: usize)
        ensures
            r == self.clocks_view().len(),
    {
        self.clocks.len()
    }

    /// The clock registration at position `i`.
    pub fn clock_at(&self, i: usize) -> (r: ComponentId)
        requires
            i < self.clocks_view().len(),
        ensures
            r == self.clocks_view()[i as int],
    {
        self.clocks[i]
    }
}

/// Registering the same component twice for liveness counts it once.
pub proof fn lemma_register_idempotent(s: Seq<ComponentId>, id: ComponentId)
    requires
        s.no_duplicates(),
    ensures
        insert_once(insert_once(s, id), id) == insert_once(s, id),
        insert_once(s, id).no_duplicates(),
        insert_once(s, id).contains(id),
{
    assert(insert_once(s, id).contains(id)) by {
        if !s.contains(id) {
            assert(s.push(id)[s.len() as int] == id);
        }
    }
}

} // verus!

//! The build gate that every build passes: a few run, some wait, and only an over-full queue
//! refuses.

use vstd::prelude::*;

use crate::error::{CoreError, ErrorView};

verus! {

/// Whether a build may run at once or must wait for a slot.
#[derive(Debug, Clone, Copy, PartialEq, Eq, Structural)]
pub enum Admission {
    Run,
    Wait,
}

/// The queue of the build gate. The slots themselves are the caller's: it is told whether one
/// is free.
#[derive(Debug)]
pub struct BuildGate {
    slots: usize,
    queued: usize,
    max_queued: usize,
}

/// What a [`BuildGate`] says.
pub struct GateView {
    pub slots: nat,
    pub queued: nat,
    pub max_queued: nat,
}

/// What happens at the build gate.
pub enum GateEvent {
    /// A build arrives; whether a slot is free.
    Arrive(bool),
    /// A build that waited goes: it got a slot, failed, or was cancelled.
    Leave,
}

impl View for BuildGate {
    type V = GateView;

    closed spec fn view(&self) -> GateView {
        GateView {
            slots: self.slots as nat,
            queued: self.queued as nat,
            max_queued: self.max_queued as nat,
        }
    }
}

/// What an arriving build is told.
pub open spec fn admission(g: GateView, slot_free: bool) -> Result<Admission, ErrorView> {
    if slot_free {
        Ok(Admission::Run)
    } else if g.queued >= g.max_queued {
        Err(ErrorView::QueueFull(g.max_queued))
    } else {
        Ok(Admission::Wait)
    }
}

/// The build gate after an event.
pub open spec fn gate_after(g: GateView, e: GateEvent) -> GateView {
    match e {
        GateEvent::Arrive(slot_free) => if admission(g, slot_free) == Ok::<Admission, ErrorView>(
            Admission::Wait,
        ) {
            GateView { queued: g.queued + 1, ..g }
        } else {
            g
        },
        GateEvent::Leave => if g.queued > 0 {
            GateView { queued: (g.queued - 1) as nat, ..g }
        } else {
            g
        },
    }
}

/// A gate as it is made.
pub open spec fn new_gate(max_concurrent: nat, max_queued: nat) -> GateView {
    GateView {
        slots: if max_concurrent < 1 {
            1
        } else {
            max_concurrent
        },
        queued: 0,
        max_queued,
    }
}

impl BuildGate {
    /// A gate with `max_concurrent` slots, at least one, and a queue of `max_queued`.
    pub fn new(max_concurrent: usize, max_queued: usize) -> (r: BuildGate)
        ensures
            r@ == new_gate(max_concurrent as nat, max_queued as nat),
    {
        BuildGate {
            slots: if max_concurrent < 1 {
                1
            } else {
                max_concurrent
            },
            queued: 0,
            max_queued,
        }
    }

    /// How many builds may run at once.
    pub fn slots(&self) -> (r: usize)
        ensures
            r == self@.slots,
    {
        self.slots
    }

    /// How many builds wait.
    pub fn queued(&self) -> (r: usize)
        ensures
            r == self@.queued,
    {
        self.queued
    }

    /// A build arrives. With a free slot it never touches the queue.
    pub fn acquire(&mut self, slot_free: bool) -> (r: Result<Admission, CoreError>)
        ensures
            final(self)@ == gate_after(old(self)@, GateEvent::Arrive(slot_free)),
            match r {
                Ok(a) => admission(old(self)@, slot_free) == Ok::<Admission, ErrorView>(a),
                Err(e) => admission(old(self)@, slot_free) == Err::<Admission, ErrorView>(e@),
            },
    {
        if slot_free {
            return Ok(Admission::Run);
        }
        if self.queued >= self.max_queued {
            return Err(CoreError::QueueFull(self.max_queued));
        }
        self.queued = self.queued + 1;
        Ok(Admission::Wait)
    }

    /// A build that waited goes, however its wait ended.
    pub fn leave(&mut self)
        ensures
            final(self)@ == gate_after(old(self)@, GateEvent::Leave),
    {
        if self.queued > 0 {
            self.queued = self.queued - 1;
        }
    }
}

/// The build gate after a history of events.
pub open spec fn gate_run(g: GateView, events: Seq<GateEvent>) -> GateView
    decreases events.len(),
{
    if events.len() == 0 {
        g
    } else {
        gate_after(gate_run(g, events.drop_last()), events.last())
    }
}

/// The builds told to wait in a history of events.
pub open spec fn waits(g: GateView, events: Seq<GateEvent>) -> nat
    decreases events.len(),
{
    if events.len() == 0 {
        0
    } else {
        let before = gate_run(g, events.drop_last());
        waits(g, events.drop_last()) + (match events.last() {
            GateEvent::Arrive(slot_free) => if admission(before, slot_free) == Ok::<
                Admission,
                ErrorView,
            >(Admission::Wait) {
                1nat
            } else {
                0nat
            },
            GateEvent::Leave => 0nat,
        })
    }
}

/// The builds that went in a history of events.
pub open spec fn leaves(events: Seq<GateEvent>) -> nat
    decreases events.len(),
{
    if events.len() == 0 {
        0
    } else {
        leaves(events.drop_last()) + if events.last() is Leave {
            1nat
        } else {
            0nat
        }
    }
}

/// Whether at every point of a history no more builds have gone than were told to wait.
pub open spec fn only_waiters_leave(g: GateView, events: Seq<GateEvent>) -> bool {
    forall|n: int|
        0 <= n <= events.len() ==> leaves(#[trigger] events.take(n)) <= waits(g, events.take(n))
}

/// No queue slot leaks: where every build that goes had been told to wait, the queue holds
/// exactly those that wait still, and never more than its limit.
pub proof fn law_queue_counts_exactly_the_waiting(
    max_concurrent: nat,
    max_queued: nat,
    events: Seq<GateEvent>,
)
    requires
        only_waiters_leave(new_gate(max_concurrent, max_queued), events),
    ensures
        ({
            let start = new_gate(max_concurrent, max_queued);
            let g = gate_run(start, events);
            &&& g.queued == waits(start, events) - leaves(events)
            &&& g.queued <= max_queued
            &&& g.max_queued == max_queued
            &&& g.slots == start.slots
        }),
    decreases events.len(),
{
    let start = new_gate(max_concurrent, max_queued);
    if events.len() > 0 {
        let before = events.drop_last();
        assert forall|n: int| 0 <= n <= before.len() implies leaves(#[trigger] before.take(n))
            <= waits(start, before.take(n)) by {
            assert(before.take(n) =~= events.take(n));
        }
        law_queue_counts_exactly_the_waiting(max_concurrent, max_queued, before);
        assert(events.take(events.len() as int) =~= events);
    }
}

/// Only an over-full queue refuses: a build is refused exactly where no slot is free and as
/// many builds wait as may.
pub proof fn law_only_an_overfull_queue_refuses(g: GateView, slot_free: bool)
    ensures
        admission(g, slot_free) is Err <==> !slot_free && g.queued >= g.max_queued,
        admission(g, slot_free) is Err ==> gate_after(g, GateEvent::Arrive(slot_free)) == g,
{
}

/// A build that is told to wait and then goes leaves the build gate as it was.
pub proof fn law_waiting_and_leaving_restores_the_gate(g: GateView)
    requires
        g.queued < g.max_queued,
    ensures
        gate_after(gate_after(g, GateEvent::Arrive(false)), GateEvent::Leave) == g,
{
}

/// A build runs at once exactly where a slot is free, and is then not counted as waiting. It waits,
/// and is counted, exactly where none is free and the queue has room; a refusal names the room.
pub proof fn law_builds_are_told_apart(g: GateView, slot_free: bool)
    ensures
        admission(g, slot_free) == Ok::<Admission, ErrorView>(Admission::Run) <==> slot_free,
        admission(g, slot_free) == Ok::<Admission, ErrorView>(Admission::Wait) <==> !slot_free
            && g.queued < g.max_queued,
        admission(g, slot_free) matches Err(e) ==> e == ErrorView::QueueFull(g.max_queued),
        gate_after(g, GateEvent::Arrive(slot_free)).queued == g.queued + if !slot_free && g.queued
            < g.max_queued {
            1int
        } else {
            0
        },
        gate_after(g, GateEvent::Arrive(slot_free)).slots == g.slots,
        gate_after(g, GateEvent::Arrive(slot_free)).max_queued == g.max_queued,
{
}

/// A build that goes makes room for one other, where any waited, and nothing else changes.
pub proof fn law_leaving_makes_room(g: GateView)
    ensures
        gate_after(g, GateEvent::Leave).queued == if g.queued > 0 {
            g.queued - 1
        } else {
            0
        },
        gate_after(g, GateEvent::Leave).slots == g.slots,
        gate_after(g, GateEvent::Leave).max_queued == g.max_queued,
{
}

/// A new gate has the slots and the room it is given, with one slot where it is given none, and
/// nobody waits at it.
pub proof fn law_a_new_gate_is_empty(max_concurrent: nat, max_queued: nat)
    ensures
        max_concurrent > 0 ==> new_gate(max_concurrent, max_queued).slots == max_concurrent,
        new_gate(0, max_queued).slots == 1,
        new_gate(max_concurrent, max_queued).queued == 0,
        new_gate(max_concurrent, max_queued).max_queued == max_queued,
{
}

} // verus!

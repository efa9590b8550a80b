//! The tick state machine: which buffer each tick reads and writes, and
//! which one is current.
use vstd::prelude::*;

verus! {

/// One of the two atom buffers.
#[derive(Clone, Copy, Debug, PartialEq, Eq, Structural)]
pub enum Slot {
    A,
    B,
}

impl Slot {
    pub open spec fn spec_other(self) -> Slot {
        match self {
            Slot::A => Slot::B,
            Slot::B => Slot::A,
        }
    }

    /// The other buffer.
    #[verifier::when_used_as_spec(spec_other)]
    pub fn other(self) -> (r: Slot)
        ensures
            r == self.spec_other(),
    {
        match self {
            Slot::A => Slot::B,
            Slot::B => Slot::A,
        }
    }
}

#[derive(Clone, Copy, Debug, PartialEq, Eq, Structural)]
pub enum Phase {
    Idle,
    Ticking,
}

/// What one tick dispatches: the interaction pass and then the integration
/// pass, each over `groups` x `groups` work groups (one per cell), both
/// reading `read` and writing `write`, with `cells_per_side` as the uniform
/// parameter.
#[derive(Clone, Copy, Debug, PartialEq, Eq, Structural)]
pub struct DispatchPlan {
    pub read: Slot,
    pub write: Slot,
    pub groups: u32,
    pub cells_per_side: u32,
}

/// Drives ticks over a pair of buffers. A tick reads the current buffer and
/// writes the other one; once both passes are dispatched the written buffer
/// becomes current.
#[derive(Clone, Copy, Debug, PartialEq, Eq, Structural)]
pub struct TickOrchestrator {
    /// The buffer that holds the latest complete state.
    pub current: Slot,
    pub phase: Phase,
    pub cells_per_side: u32,
}

impl TickOrchestrator {
    /// An idle orchestrator whose current buffer is `A`; both buffers start
    /// with the same atoms.
    pub fn new(cells_per_side: u32) -> (r: TickOrchestrator)
        ensures
            r.current == Slot::A,
            r.phase == Phase::Idle,
            r.cells_per_side == cells_per_side,
    {
        TickOrchestrator { current: Slot::A, phase: Phase::Idle, cells_per_side }
    }

    /// Starts a tick when idle, and says what to dispatch; while a tick is
    /// under way, does nothing and returns `None`.
    pub fn begin_tick(&mut self) -> (r: Option<DispatchPlan>)
        ensures
            old(self).phase == Phase::Idle ==> {
                &&& r == Some(
                    DispatchPlan {
                        read: old(self).current,
                        write: old(self).current.spec_other(),
                        groups: old(self).cells_per_side,
                        cells_per_side: old(self).cells_per_side,
                    },
                )
                &&& *final(self) == (TickOrchestrator { phase: Phase::Ticking, ..*old(self) })
            },
            old(self).phase == Phase::Ticking ==> r == None::<DispatchPlan> && *final(self) == *old(
                self,
            ),
    {
        match self.phase {
            Phase::Ticking => None,
            Phase::Idle => {
                self.phase = Phase::Ticking;
                Some(
                    DispatchPlan {
                        read: self.current,
                        write: self.current.other(),
                        groups: self.cells_per_side,
                        cells_per_side: self.cells_per_side,
                    },
                )
            },
        }
    }

    /// Ends the tick under way, once both passes are dispatched: the buffer
    /// it wrote becomes current. When idle, does nothing and returns false.
    pub fn finish_tick(&mut self) -> (r: bool)
        ensures
            r == (old(self).phase == Phase::Ticking),
            r ==> *final(self) == (TickOrchestrator {
                current: old(self).current.spec_other(),
                phase: Phase::Idle,
                ..*old(self)
            }),
            !r ==> *final(self) == *old(self),
    {
        match self.phase {
            Phase::Idle => false,
            Phase::Ticking => {
                self.phase = Phase::Idle;
                self.current = self.current.other();
                true
            },
        }
    }
}

} // verus!

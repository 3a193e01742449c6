//! Whose turn it is, and what the end of a tick makes of it.

use vstd::prelude::*;

verus! {

/// The phase the simulation is in.
///
/// `AwaitingInput`, `PlayerTurn` and `MonsterTurn` follow each other in a
/// cycle. `Examining`, `FreeAiming` and `LevelUp` are entered and left by
/// the player's input alone. `Descending` and `Ascending` are entered when
/// the player takes a staircase and last for one tick.
#[derive(Clone, Copy, Debug, PartialEq, Eq, Structural)]
pub enum RunState {
    AwaitingInput,
    Examining { index: usize },
    FreeAiming { index: usize },
    LevelUp { index: usize },
    PlayerTurn,
    MonsterTurn,
    Descending,
    Ascending,
}

/// What the driver has to do to the floor before the next tick.
#[derive(Clone, Copy, Debug, PartialEq, Eq, Structural)]
pub enum FloorChange {
    Stay,
    Descend,
    Ascend,
}

impl RunState {
    /// The phase that follows `self` when a tick ends without input.
    pub open spec fn spec_next(self) -> RunState {
        match self {
            RunState::PlayerTurn => RunState::MonsterTurn,
            RunState::MonsterTurn => RunState::AwaitingInput,
            RunState::Descending => RunState::AwaitingInput,
            RunState::Ascending => RunState::AwaitingInput,
            _ => self,
        }
    }

    /// What leaving `self` asks of the floor.
    pub open spec fn spec_floor_change(self) -> FloorChange {
        match self {
            RunState::Descending => FloorChange::Descend,
            RunState::Ascending => FloorChange::Ascend,
            _ => FloorChange::Stay,
        }
    }

    /// Only the monsters' turn lets the pursuit run.
    pub open spec fn spec_permits_pursuit(self) -> bool {
        self == RunState::MonsterTurn
    }

    /// The phase waits for the player: nothing moves it on but input.
    pub open spec fn spec_waits(self) -> bool {
        self.spec_next() == self
    }

    /// The phase that follows `self` at the end of a tick, and what the
    /// driver has to do to the floor on the way.
    pub fn next(self) -> (step: (RunState, FloorChange))
        ensures
            step.0 == self.spec_next(),
            step.1 == self.spec_floor_change(),
    {
        match self {
            RunState::PlayerTurn => (RunState::MonsterTurn, FloorChange::Stay),
            RunState::MonsterTurn => (RunState::AwaitingInput, FloorChange::Stay),
            RunState::Descending => (RunState::AwaitingInput, FloorChange::Descend),
            RunState::Ascending => (RunState::AwaitingInput, FloorChange::Ascend),
            _ => (self, FloorChange::Stay),
        }
    }

    pub fn permits_pursuit(self) -> (ok: bool)
        ensures
            ok == self.spec_permits_pursuit(),
    {
        match self {
            RunState::MonsterTurn => true,
            _ => false,
        }
    }

    /// The index of the floor that a change leads to from floor `index`,
    /// or nothing where there is no such floor.
    pub fn floor_after(change: FloorChange, index: u32) -> (next: Option<u32>)
        ensures
            next == (match change {
                FloorChange::Stay => Some(index),
                FloorChange::Descend => if index < u32::MAX {
                    Some((index + 1) as u32)
                } else {
                    None
                },
                FloorChange::Ascend => if index > 0 {
                    Some((index - 1) as u32)
                } else {
                    None
                },
            }),
    {
        match change {
            FloorChange::Stay => Some(index),
            FloorChange::Descend => if index < u32::MAX {
                Some(index + 1)
            } else {
                None
            },
            FloorChange::Ascend => if index > 0 {
                Some(index - 1)
            } else {
                None
            },
        }
    }
}

/// From the player's turn the cycle is back at waiting for input after two
/// ticks, a floor transition is over after one, and the pursuit is let run
/// in the tick after the player's turn and in no other.
pub proof fn lemma_turn_cycle(state: RunState)
    ensures
        RunState::PlayerTurn.spec_next().spec_next() == RunState::AwaitingInput,
        RunState::AwaitingInput.spec_waits(),
        state.spec_floor_change() != FloorChange::Stay ==> state.spec_next() == RunState::AwaitingInput,
        state.spec_next().spec_permits_pursuit() <==> state == RunState::PlayerTurn,
{
}

} // verus!

//! Session-scoped stage bookkeeping.

use vstd::prelude::*;

verus! {

/// Whether the current stage is still being played or has been won.
#[derive(Clone, Copy, Debug, PartialEq, Eq, Structural)]
pub enum GameState {
    Play,
    Win,
}

/// Per-session state: the current stage number and whether it has been won.
/// Created once at session start and carried through the whole session.
#[derive(Clone, Copy, Debug, PartialEq, Eq, Structural)]
pub struct CurrentStageData {
    pub state: GameState,
    pub stage: usize,
}

impl Default for CurrentStageData {
    /// The session's initial bookkeeping: stage 1, still being played.
    fn default() -> (d: Self)
        ensures
            d == (CurrentStageData { state: GameState::Play, stage: 1 }),
    {
        Self { state: GameState::Play, stage: 1 }
    }
}

impl CurrentStageData {
    /// Advances to the next stage: the counter goes up by one and the state
    /// returns to `Play`.
    pub fn next_stage(&mut self)
        requires
            old(self).stage < usize::MAX,
        ensures
            *final(self) == (CurrentStageData {
                state: GameState::Play,
                stage: (old(self).stage + 1) as usize,
            }),
    {
        self.state = GameState::Play;
        self.stage = self.stage + 1;
    }
}

} // verus!

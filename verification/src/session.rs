//! The stage lifecycle state machine.
//!
//! A session moves through three phases: `Loading` (entities of the stage
//! being set up), `Playing` (resolver and win evaluator run every tick) and
//! `Cleared` (completion prompt shown).  The very first `Loading` doubles
//! as the title screen: it waits for an explicit confirmation before play
//! begins; every later `Loading` hands over to `Playing` as soon as the
//! stage is loaded.  From `Cleared`, confirmation advances the stage
//! counter and returns to `Loading`.  A global quit signal is the caller's
//! cross-cutting concern, not a phase.
//!
//! The caller drives the machine: it obtains the stage text (from the
//! stage-indexed resource, or a built-in default when that is absent),
//! parses it with [`crate::stage_loader::parse_map`], hands the result to
//! [`Session::on_stage_loaded`], forwards confirmation keypresses to
//! [`Session::on_confirm`] and sampled directional input to
//! [`Session::tick`].  Stray confirmations and ticks in phases that do not
//! expect them are ignored, never errors.

use vstd::prelude::*;

use crate::player_move_system::{run_post, Direction, MoveOutcome, PlayerMoveSystem};
use crate::resources::{CurrentStageData, GameState};
use crate::stage::Stage;
use crate::stage_loader::{stage_entities_of, ParsedMap};
use crate::win_system::{won, WinSystem};

verus! {

/// The lifecycle phase of a session.
#[derive(Clone, Copy, Debug, PartialEq, Eq, Structural)]
pub enum Phase {
    /// A stage is being set up (initially: the title screen).
    Loading,
    /// The stage is live: movement and win evaluation run every tick.
    Playing,
    /// The stage was won; waiting for confirmation to advance.
    Cleared,
}

/// One play session: the lifecycle phase, the session bookkeeping, the
/// loaded stage (if any), and the movement resolver with its cooldown.
pub struct Session {
    pub phase: Phase,
    pub data: CurrentStageData,
    pub stage: Option<Stage>,
    pub mover: PlayerMoveSystem,
    /// Whether the initial title-screen confirmation has been given.
    pub started: bool,
}

impl Session {
    /// The session invariant: a loaded stage is well-formed, and the
    /// session state agrees with the phase (`Playing` has a live stage
    /// still in `Play`; `Cleared` records the win; `Loading` starts each
    /// stage afresh in `Play`).
    pub open spec fn wf(self) -> bool {
        &&& self.stage matches Some(st) ==> st.wf()
        &&& self.phase is Playing ==> self.stage is Some && self.data.state == GameState::Play
        &&& self.phase is Cleared ==> self.data.state == GameState::Win
        &&& self.phase is Loading ==> self.data.state == GameState::Play
    }

    /// A fresh session: stage 1, title screen pending, nothing loaded.
    pub fn new() -> (s: Session)
        ensures
            s.wf(),
            s.phase is Loading,
            !s.started,
            s.stage is None,
            s.data == (CurrentStageData { state: GameState::Play, stage: 1 }),
            s.mover.move_timer == 0,
    {
        Session {
            phase: Phase::Loading,
            data: CurrentStageData { state: GameState::Play, stage: 1 },
            stage: None,
            mover: PlayerMoveSystem { move_timer: 0 },
            started: false,
        }
    }

    /// Installs the entities of a freshly parsed map.  Only the `Loading`
    /// phase accepts a stage; elsewhere the call is ignored.  Once the
    /// title confirmation has been given, loading hands straight over to
    /// `Playing`; on the very first stage it waits for [`Self::on_confirm`].
    /// The per-stage cooldown starts elapsed.
    pub fn on_stage_loaded(&mut self, m: &ParsedMap)
        requires
            old(self).wf(),
            m.wf(),
        ensures
            final(self).wf(),
            !(old(self).phase is Loading) ==> *final(self) == *old(self),
            old(self).phase is Loading ==> {
                &&& final(self).stage matches Some(st) && st.wf() && st.entities@
                    =~= stage_entities_of(*m)
                &&& final(self).data == old(self).data
                &&& final(self).started == old(self).started
                &&& final(self).mover.move_timer == 0
                &&& final(self).phase == (if old(self).started {
                    Phase::Playing
                } else {
                    Phase::Loading
                })
            },
    {
        match self.phase {
            Phase::Loading => {
                let st = crate::stage_loader::from_map(m);
                self.stage = Some(st);
                self.mover = PlayerMoveSystem { move_timer: 0 };
                if self.started {
                    self.phase = Phase::Playing;
                }
            },
            _ => {},
        }
    }

    /// Handles one edge-triggered confirmation keypress.  On the title
    /// screen it starts play (immediately if a stage is already loaded);
    /// in `Cleared` it advances to the next stage and returns to `Loading`
    /// with the previous stage's entities torn down; during `Playing` it
    /// is ignored.
    pub fn on_confirm(&mut self)
        requires
            old(self).wf(),
            old(self).phase is Cleared ==> old(self).data.stage < usize::MAX,
        ensures
            final(self).wf(),
            match old(self).phase {
                Phase::Loading => {
                    &&& final(self).started
                    &&& final(self).phase == (if old(self).stage is Some {
                        Phase::Playing
                    } else {
                        Phase::Loading
                    })
                    &&& final(self).stage == old(self).stage
                    &&& final(self).data == old(self).data
                    &&& final(self).mover == old(self).mover
                },
                Phase::Playing => *final(self) == *old(self),
                Phase::Cleared => {
                    &&& final(self).phase is Loading
                    &&& final(self).stage is None
                    &&& final(self).data == (CurrentStageData {
                        state: GameState::Play,
                        stage: (old(self).data.stage + 1) as usize,
                    })
                    &&& final(self).started == old(self).started
                    &&& final(self).mover.move_timer == 0
                },
            },
    {
        match self.phase {
            Phase::Loading => {
                self.started = true;
                if self.stage.is_some() {
                    self.phase = Phase::Playing;
                }
            },
            Phase::Playing => {},
            Phase::Cleared => {
                self.data.next_stage();
                self.stage = None;
                self.mover = PlayerMoveSystem { move_timer: 0 };
                self.phase = Phase::Loading;
            },
        }
    }

    /// Runs one simulation tick: the movement resolver on the sampled
    /// directional input, then the win evaluator, then the lifecycle
    /// check — in that order, so a move that completes the puzzle is
    /// recognized within the same tick and the session moves to `Cleared`.
    /// Outside `Playing` the tick is a benign no-op.
    pub fn tick(&mut self, input: Option<Direction>) -> (r: MoveOutcome)
        requires
            old(self).wf(),
        ensures
            final(self).wf(),
            !(old(self).phase is Playing) ==> *final(self) == *old(self) && r
                == MoveOutcome::Idle,
            old(self).phase is Playing ==> {
                &&& old(self).stage matches Some(s0) && final(self).stage matches Some(s1) && {
                    &&& run_post(old(self).mover, s0, input, final(self).mover, s1, r)
                    &&& s1.wf()
                    &&& won(s1) ==> final(self).phase is Cleared && final(self).data.state
                        == GameState::Win
                    &&& !won(s1) ==> final(self).phase is Playing && final(self).data.state
                        == GameState::Play
                }
                &&& final(self).data.stage == old(self).data.stage
                &&& final(self).started == old(self).started
            },
    {
        match self.phase {
            Phase::Playing => {},
            _ => {
                return MoveOutcome::Idle;
            },
        }
        let r = match &mut self.stage {
            Some(st) => {
                let r = self.mover.run(st, input);
                let evaluator = WinSystem;
                evaluator.run(st, &mut self.data);
                r
            },
            None => {
                // unreachable: Playing implies a loaded stage
                MoveOutcome::Idle
            },
        };
        if self.data.state == GameState::Win {
            self.phase = Phase::Cleared;
        }
        r
    }
}

} // verus!

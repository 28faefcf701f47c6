//! The movement resolver: one invocation per simulation tick.
//!
//! Given the directional input sampled this tick and the current stage, the
//! resolver decides whether the player (and at most one pushed baggage item)
//! moves, and applies the move.  A cooldown counter gates movement so that a
//! held key yields one cell per [`FREEZE_TIME`]-tick window; the counter is
//! reset as soon as no key is held, so a quick tap always yields exactly one
//! cell.
//!
//! Cells whose coordinates would leave the representable `i32` range are
//! treated as obstructed, so coordinate arithmetic never overflows.

use vstd::prelude::*;

use crate::config::FREEZE_TIME;
use crate::grid2d::{pos_plus, pos_sum_fits, Grid2D, Grid2DDelta};
use crate::stage::{Entity, Stage};

verus! {

/// The four cardinal movement directions.
#[derive(Clone, Copy, Debug, PartialEq, Eq, Structural)]
pub enum Direction {
    Up,
    Down,
    Left,
    Right,
}

/// Why an attempted move did not happen.
#[derive(Clone, Copy, Debug, PartialEq, Eq, Structural)]
pub enum BlockReason {
    /// The cooldown counter was still running.
    Cooldown,
    /// An obstacle occupies the target cell.
    Obstacle,
    /// A baggage item occupies the target cell and cannot be pushed.
    PushBlocked,
}

/// The outcome of one resolver invocation.
#[derive(Clone, Copy, Debug, PartialEq, Eq, Structural)]
pub enum MoveOutcome {
    /// No directional input was active (or no player exists).
    Idle,
    /// The player moved, possibly pushing one baggage item.
    Moved,
    /// The move was rejected; nothing changed.
    Blocked(BlockReason),
}

/// The unit delta for a direction: up `(0, +1)`, down `(0, -1)`,
/// left `(-1, 0)`, right `(+1, 0)`.
pub open spec fn delta_of(dir: Direction) -> Grid2DDelta {
    match dir {
        Direction::Up => Grid2DDelta { x: 0, y: 1 },
        Direction::Down => Grid2DDelta { x: 0, y: -1i32 },
        Direction::Left => Grid2DDelta { x: -1i32, y: 0 },
        Direction::Right => Grid2DDelta { x: 1, y: 0 },
    }
}

impl Direction {
    /// The unit delta this direction stands for.
    pub fn delta(self) -> (d: Grid2DDelta)
        ensures
            d == delta_of(self),
    {
        match self {
            Direction::Up => Grid2DDelta::new(0, 1),
            Direction::Down => Grid2DDelta::new(0, -1),
            Direction::Left => Grid2DDelta::new(-1, 0),
            Direction::Right => Grid2DDelta::new(1, 0),
        }
    }
}

/// True when the cell one `d` away from `p` is representable: a step off
/// the edge of the `i32` range counts as obstructed.
pub open spec fn step_fits(p: Grid2D, d: Grid2DDelta) -> bool {
    pos_sum_fits(p, d)
}

/// What one resolver invocation does: relates the resolver and stage before
/// the call (`m0`, `s0`) and the sampled input to the resolver and stage
/// after the call (`m1`, `s1`) and the outcome `r`.
///
/// In order: absent input resets the cooldown to zero, whatever it was, and
/// the tick is `Idle` (so a quick tap always yields exactly one cell);
/// while a direction is held, a running cooldown consumes the tick; an
/// absent player makes the tick a benign no-op; otherwise the move is
/// resolved against the occupancy of the target cell and, when a baggage
/// item sits there, of the push-target cell.  Only a single item is ever
/// pushed: a second blocking entity behind it rejects the move.
pub open spec fn run_post(
    m0: PlayerMoveSystem,
    s0: Stage,
    input: Option<Direction>,
    m1: PlayerMoveSystem,
    s1: Stage,
    r: MoveOutcome,
) -> bool {
    match input {
        None => {
            &&& m1.move_timer == 0
            &&& s1 == s0
            &&& r == MoveOutcome::Idle
        },
        Some(dir) => {
            if m0.move_timer != 0 {
                &&& m1.move_timer == m0.move_timer - 1
                &&& s1 == s0
                &&& r == MoveOutcome::Blocked(BlockReason::Cooldown)
            } else {
                if !s0.has_player() {
                    &&& m1 == m0
                    &&& s1 == s0
                    &&& r == MoveOutcome::Idle
                } else {
                    let ip = choose|i: int| s0.is_player_index(i);
                    let p = s0.entities@[ip].position;
                    let d = delta_of(dir);
                    if !step_fits(p, d) || s0.obstacle_at(pos_plus(p, d)) {
                        &&& m1 == m0
                        &&& s1 == s0
                        &&& r == MoveOutcome::Blocked(BlockReason::Obstacle)
                    } else {
                        let t = pos_plus(p, d);
                        if s0.movable_at(t) {
                            if !step_fits(t, d) || s0.obstacle_at(pos_plus(t, d))
                                || s0.movable_at(pos_plus(t, d)) {
                                &&& m1 == m0
                                &&& s1 == s0
                                &&& r == MoveOutcome::Blocked(BlockReason::PushBlocked)
                            } else {
                                let im = choose|i: int|
                                    0 <= i < s0.entities@.len()
                                        && #[trigger] s0.entities@[i].tags.movable
                                        && s0.entities@[i].position == t;
                                &&& m1.move_timer == FREEZE_TIME
                                &&& s1.entities@ =~= s0.entities@.update(
                                    im,
                                    Entity { position: pos_plus(t, d), tags: s0.entities@[im].tags },
                                ).update(ip, Entity { position: t, tags: s0.entities@[ip].tags })
                                &&& r == MoveOutcome::Moved
                            }
                        } else {
                            &&& m1.move_timer == FREEZE_TIME
                            &&& s1.entities@ =~= s0.entities@.update(
                                ip,
                                Entity { position: t, tags: s0.entities@[ip].tags },
                            )
                            &&& r == MoveOutcome::Moved
                        }
                    }
                }
            }
        },
    }
}

/// The movement resolver; its only state is the cooldown counter.
#[derive(Clone, Copy, Debug, PartialEq, Eq, Structural)]
pub struct PlayerMoveSystem {
    pub move_timer: u32,
}

impl Default for PlayerMoveSystem {
    /// A resolver ready to move: the cooldown counter starts at zero.
    fn default() -> (s: Self)
        ensures
            s.move_timer == 0,
    {
        Self { move_timer: 0 }
    }
}

impl PlayerMoveSystem {
    /// Checks whether the cell one `d` away from `p` is representable.
    fn step_allowed(p: Grid2D, d: Grid2DDelta) -> (b: bool)
        ensures
            b == step_fits(p, d),
    {
        let sx: i64 = p.x as i64 + d.x as i64;
        let sy: i64 = p.y as i64 + d.y as i64;
        sx >= i32::MIN as i64 && sx <= i32::MAX as i64 && sy >= i32::MIN as i64 && sy
            <= i32::MAX as i64
    }

    /// Resolves one tick of movement, per the cooldown/input/occupancy rules
    /// of [`run_post`].  A rejected or idle tick never changes the stage;
    /// a successful move changes exactly the player's position and, when
    /// pushing, the position of the single pushed baggage item, both by the
    /// input's delta.  Stage well-formedness is preserved.
    pub fn run(&mut self, stage: &mut Stage, input: Option<Direction>) -> (r: MoveOutcome)
        requires
            old(stage).wf(),
        ensures
            final(stage).wf(),
            run_post(*old(self), *old(stage), input, *final(self), *final(stage), r),
            r != MoveOutcome::Moved ==> *final(stage) == *old(stage),
    {
        let ghost s0 = *stage;
        let dir = match input {
            None => {
                self.move_timer = 0;
                return MoveOutcome::Idle;
            },
            Some(dir) => dir,
        };
        if self.move_timer != 0 {
            self.move_timer = self.move_timer - 1;
            return MoveOutcome::Blocked(BlockReason::Cooldown);
        }
        let ip = match stage.find_player() {
            None => {
                return MoveOutcome::Idle;
            },
            Some(i) => i,
        };
        proof {
            let ips = choose|i: int| s0.is_player_index(i);
            assert(s0.is_player_index(ip as int));
            assert(ips == ip as int);
        }
        let p = stage.entity(ip).position;
        let d = dir.delta();
        if !Self::step_allowed(p, d) {
            return MoveOutcome::Blocked(BlockReason::Obstacle);
        }
        let t = p.plus(d);
        if stage.has_obstacle_at(t) {
            return MoveOutcome::Blocked(BlockReason::Obstacle);
        }
        match stage.find_movable_at(t) {
            Some(im) => {
                if !Self::step_allowed(t, d) {
                    return MoveOutcome::Blocked(BlockReason::PushBlocked);
                }
                let t2 = t.plus(d);
                if stage.has_obstacle_at(t2) {
                    return MoveOutcome::Blocked(BlockReason::PushBlocked);
                }
                if stage.find_movable_at(t2).is_some() {
                    return MoveOutcome::Blocked(BlockReason::PushBlocked);
                }
                proof {
                    let ims = choose|i: int|
                        0 <= i < s0.entities@.len() && #[trigger] s0.entities@[i].tags.movable
                            && s0.entities@[i].position == t;
                    assert(s0.entities@[im as int].tags.movable);
                    assert(ims == im as int);
                }
                stage.set_position(im, t2);
                stage.set_position(ip, t);
                self.move_timer = FREEZE_TIME;
                proof {
                    Self::lemma_push_wf(s0, *stage, ip as int, im as int, p, d);
                }
                MoveOutcome::Moved
            },
            None => {
                stage.set_position(ip, t);
                self.move_timer = FREEZE_TIME;
                proof {
                    Self::lemma_walk_wf(s0, *stage, ip as int, p, d);
                }
                MoveOutcome::Moved
            },
        }
    }

    /// A plain move onto a free cell preserves well-formedness.
    proof fn lemma_walk_wf(s0: Stage, s1: Stage, ip: int, p: Grid2D, d: Grid2DDelta)
        requires
            s0.wf(),
            s0.is_player_index(ip),
            s0.entities@[ip].position == p,
            step_fits(p, d),
            !s0.obstacle_at(pos_plus(p, d)),
            !s0.movable_at(pos_plus(p, d)),
            s1.entities@ =~= s0.entities@.update(
                ip,
                Entity { position: pos_plus(p, d), tags: s0.entities@[ip].tags },
            ),
        ensures
            s1.wf(),
    {
        let t = pos_plus(p, d);
        assert forall|i: int, j: int| s1.is_player_index(i) && s1.is_player_index(j) implies i
            == j by {
            assert(s0.is_player_index(i));
            assert(s0.is_player_index(j));
        }
        assert forall|i: int, j: int|
            0 <= i < s1.entities@.len() && 0 <= j < s1.entities@.len() && i != j
                && (#[trigger] s1.entities@[i].tags).blocking()
                && (#[trigger] s1.entities@[j].tags).blocking() implies s1.entities@[i].position
            != s1.entities@[j].position by {
            if s1.entities@[i].position == s1.entities@[j].position {
                if i == ip || j == ip {
                    let k = if i == ip { j } else { i };
                    assert(s1.entities@[k] == s0.entities@[k]);
                    assert(s1.entities@[k].position == t);
                    if s0.entities@[k].tags.obstacle {
                        assert(s0.obstacle_at(t));
                    } else if s0.entities@[k].tags.movable {
                        assert(s0.movable_at(t));
                    } else {
                        assert(s0.is_player_index(k));
                        assert(s0.is_player_index(ip));
                    }
                } else {
                    assert(s1.entities@[i] == s0.entities@[i]);
                    assert(s1.entities@[j] == s0.entities@[j]);
                    assert(s0.entities@[i].tags.blocking());
                    assert(s0.entities@[j].tags.blocking());
                }
            }
        }
    }

    /// A push of a single baggage item onto a free cell preserves
    /// well-formedness.
    proof fn lemma_push_wf(s0: Stage, s1: Stage, ip: int, im: int, p: Grid2D, d: Grid2DDelta)
        requires
            s0.wf(),
            s0.is_player_index(ip),
            s0.entities@[ip].position == p,
            0 <= im < s0.entities@.len(),
            s0.entities@[im].tags.movable,
            s0.entities@[im].position == pos_plus(p, d),
            step_fits(p, d),
            step_fits(pos_plus(p, d), d),
            delta_unit(d),
            !s0.obstacle_at(pos_plus(p, d)),
            !s0.obstacle_at(pos_plus(pos_plus(p, d), d)),
            !s0.movable_at(pos_plus(pos_plus(p, d), d)),
            s1.entities@ =~= s0.entities@.update(
                im,
                Entity {
                    position: pos_plus(pos_plus(p, d), d),
                    tags: s0.entities@[im].tags,
                },
            ).update(ip, Entity { position: pos_plus(p, d), tags: s0.entities@[ip].tags }),
        ensures
            s1.wf(),
    {
        let t = pos_plus(p, d);
        let t2 = pos_plus(t, d);
        assert(t2 != t);
        assert(ip != im);
        assert forall|i: int, j: int| s1.is_player_index(i) && s1.is_player_index(j) implies i
            == j by {
            assert(s0.is_player_index(i));
            assert(s0.is_player_index(j));
        }
        assert forall|i: int, j: int|
            0 <= i < s1.entities@.len() && 0 <= j < s1.entities@.len() && i != j
                && (#[trigger] s1.entities@[i].tags).blocking()
                && (#[trigger] s1.entities@[j].tags).blocking() implies s1.entities@[i].position
            != s1.entities@[j].position by {
            if s1.entities@[i].position == s1.entities@[j].position {
                let q = s1.entities@[i].position;
                if (i == ip && j == im) || (i == im && j == ip) {
                    assert(s1.entities@[ip].position == t);
                    assert(s1.entities@[im].position == t2);
                } else if i == ip || i == im || j == ip || j == im {
                    let k = if i == ip || i == im { j } else { i };
                    assert(k != ip && k != im);
                    assert(s1.entities@[k] == s0.entities@[k]);
                    if q == t {
                        if s0.entities@[k].tags.obstacle {
                            assert(s0.obstacle_at(t));
                        } else if s0.entities@[k].tags.movable {
                            assert(s0.movable_at(t));
                            assert(k == im);
                        } else {
                            assert(s0.is_player_index(k));
                            assert(s0.is_player_index(ip));
                        }
                    } else {
                        assert(q == t2);
                        if s0.entities@[k].tags.obstacle {
                            assert(s0.obstacle_at(t2));
                        } else if s0.entities@[k].tags.movable {
                            assert(s0.movable_at(t2));
                        } else {
                            assert(s0.is_player_index(k));
                            assert(s0.is_player_index(ip));
                            assert(s0.entities@[ip].position == p);
                            assert(p != t2);
                        }
                    }
                } else {
                    assert(s1.entities@[i] == s0.entities@[i]);
                    assert(s1.entities@[j] == s0.entities@[j]);
                    assert(s0.entities@[i].tags.blocking());
                    assert(s0.entities@[j].tags.blocking());
                }
            }
        }
    }
}

/// True when `d` is one of the four cardinal unit deltas.
pub open spec fn delta_unit(d: Grid2DDelta) -> bool {
    ||| d == (Grid2DDelta { x: 0, y: 1 })
    ||| d == (Grid2DDelta { x: 0, y: -1i32 })
    ||| d == (Grid2DDelta { x: -1i32, y: 0 })
    ||| d == (Grid2DDelta { x: 1, y: 0 })
}

} // verus!

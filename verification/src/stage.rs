//! The entity table holding one loaded stage.
//!
//! Engine-style component storage is replaced by an explicit table: a
//! growable arena of entities, each owning exactly one grid position and a
//! tag set.  An entity's identity is its index in the table; movement
//! mutates the position in place, so identity is preserved across moves.

use vstd::prelude::*;

use crate::basics::TagSet;
use crate::grid2d::Grid2D;

verus! {

/// One grid-occupying entity: a position and the tags that classify it.
#[derive(Clone, Copy, Debug, PartialEq, Eq, Structural)]
pub struct Entity {
    pub position: Grid2D,
    pub tags: TagSet,
}

/// The entity table of one stage.
#[derive(Debug)]
pub struct Stage {
    pub entities: Vec<Entity>,
}

impl Stage {
    /// True when entity `i` exists and carries the player tag.
    pub open spec fn is_player_index(self, i: int) -> bool {
        0 <= i < self.entities@.len() && self.entities@[i].tags.player
    }

    /// True when some entity carries the player tag.
    pub open spec fn has_player(self) -> bool {
        exists|i: int| self.is_player_index(i)
    }

    /// True when an obstacle-tagged entity occupies `p`.
    pub open spec fn obstacle_at(self, p: Grid2D) -> bool {
        exists|i: int|
            0 <= i < self.entities@.len() && #[trigger] self.entities@[i].tags.obstacle
                && self.entities@[i].position == p
    }

    /// True when a movable-tagged entity occupies `p`.
    pub open spec fn movable_at(self, p: Grid2D) -> bool {
        exists|i: int|
            0 <= i < self.entities@.len() && #[trigger] self.entities@[i].tags.movable
                && self.entities@[i].position == p
    }

    /// The positions of all baggage items, in table order.
    pub open spec fn baggage_positions(self) -> Seq<Grid2D> {
        self.entities@.filter(|e: Entity| e.tags.movable).map_values(|e: Entity| e.position)
    }

    /// The positions of all goals, in table order.
    pub open spec fn goal_positions(self) -> Seq<Grid2D> {
        self.entities@.filter(|e: Entity| e.tags.goal).map_values(|e: Entity| e.position)
    }

    /// The stage's structural invariant: at most one player exists, and no
    /// two mutually-blocking entities (obstacle, player, movable) occupy the
    /// same position.
    pub open spec fn wf(self) -> bool {
        &&& forall|i: int, j: int|
            self.is_player_index(i) && self.is_player_index(j) ==> i == j
        &&& forall|i: int, j: int|
            0 <= i < self.entities@.len() && 0 <= j < self.entities@.len() && i != j
                && (#[trigger] self.entities@[i].tags).blocking()
                && (#[trigger] self.entities@[j].tags).blocking() ==> self.entities@[i].position
                != self.entities@[j].position
    }

    /// An empty stage, trivially well-formed.
    pub fn new() -> (s: Stage)
        ensures
            s.entities@ =~= Seq::<Entity>::empty(),
            s.wf(),
    {
        Stage { entities: Vec::new() }
    }

    /// Adds one entity.  A blocking entity may only be spawned on a free
    /// cell, and a second player may never be spawned, so well-formedness is
    /// preserved.
    pub fn spawn(&mut self, position: Grid2D, tags: TagSet)
        requires
            old(self).wf(),
            tags.player ==> !old(self).has_player(),
            tags.blocking() ==> !old(self).obstacle_at(position) && !old(self).movable_at(
                position,
            ) && !(old(self).has_player() && old(self).player_position() == position),
        ensures
            final(self).entities@ =~= old(self).entities@.push(Entity { position, tags }),
            final(self).wf(),
    {
        self.entities.push(Entity { position, tags });
        proof {
            let s = self.entities@;
            let n = s.len() - 1;
            assert forall|i: int, j: int|
                self.is_player_index(i) && self.is_player_index(j) implies i == j by {
                if i != j {
                    let k = if i == n { j } else { i };
                    assert(old(self).is_player_index(k));
                    assert(old(self).has_player());
                    if j == n || i == n {
                        assert(tags.player);
                    } else {
                        assert(old(self).is_player_index(j));
                        assert(old(self).is_player_index(i));
                    }
                }
            }
            assert forall|i: int, j: int|
                0 <= i < s.len() && 0 <= j < s.len() && i != j && (#[trigger] s[i].tags).blocking()
                    && (#[trigger] s[j].tags).blocking() implies s[i].position != s[j].position by {
                if i == n || j == n {
                    let k = if i == n { j } else { i };
                    assert(0 <= k < n);
                    if s[k].tags.obstacle {
                        assert(old(self).obstacle_at(s[k].position));
                    } else if s[k].tags.movable {
                        assert(old(self).movable_at(s[k].position));
                    } else {
                        assert(s[k].tags.player);
                        assert(old(self).is_player_index(k));
                    }
                }
            }
        }
    }

    /// The position of the (unique) player, if one exists.
    pub open spec fn player_position(self) -> Grid2D
        recommends
            self.has_player(),
    {
        self.entities@[choose|i: int| self.is_player_index(i)].position
    }

    /// Looks up the player entity's index.
    pub fn find_player(&self) -> (r: Option<usize>)
        requires
            self.wf(),
        ensures
            match r {
                Some(i) => self.is_player_index(i as int) && self.entities@[i as int].position
                    == self.player_position(),
                None => !self.has_player(),
            },
    {
        let n = self.entities.len();
        let mut k: usize = 0;
        while k < n
            invariant
                self.wf(),
                n == self.entities@.len(),
                k <= n,
                forall|i: int| 0 <= i < k ==> !self.is_player_index(i),
            decreases n - k,
        {
            if self.entities[k].tags.player {
                proof {
                    assert(self.is_player_index(k as int));
                    let w = choose|i: int| self.is_player_index(i);
                    assert(w == k as int);
                }
                return Some(k);
            }
            k = k + 1;
        }
        None
    }

    /// True when an obstacle occupies `p`.
    pub fn has_obstacle_at(&self, p: Grid2D) -> (r: bool)
        ensures
            r == self.obstacle_at(p),
    {
        let n = self.entities.len();
        let mut k: usize = 0;
        while k < n
            invariant
                n == self.entities@.len(),
                k <= n,
                forall|i: int|
                    0 <= i < k ==> !((#[trigger] self.entities@[i].tags).obstacle
                        && self.entities@[i].position == p),
            decreases n - k,
        {
            let e = self.entities[k];
            if e.tags.obstacle && e.position.x == p.x && e.position.y == p.y {
                assert(self.obstacle_at(p)) by {
                    assert(self.entities@[k as int].tags.obstacle);
                }
                return true;
            }
            k = k + 1;
        }
        false
    }

    /// Looks up the index of a movable entity occupying `p`, if any.
    pub fn find_movable_at(&self, p: Grid2D) -> (r: Option<usize>)
        ensures
            match r {
                Some(i) => 0 <= i < self.entities@.len() && self.entities@[
                    i as int
                ].tags.movable && self.entities@[i as int].position == p,
                None => !self.movable_at(p),
            },
    {
        let n = self.entities.len();
        let mut k: usize = 0;
        while k < n
            invariant
                n == self.entities@.len(),
                k <= n,
                forall|i: int|
                    0 <= i < k ==> !((#[trigger] self.entities@[i].tags).movable
                        && self.entities@[i].position == p),
            decreases n - k,
        {
            let e = self.entities[k];
            if e.tags.movable && e.position.x == p.x && e.position.y == p.y {
                return Some(k);
            }
            k = k + 1;
        }
        None
    }

    /// Moves entity `i` to `p` in place, preserving its identity and tags.
    pub fn set_position(&mut self, i: usize, p: Grid2D)
        requires
            i < old(self).entities@.len(),
        ensures
            final(self).entities@ =~= old(self).entities@.update(
                i as int,
                Entity { position: p, tags: old(self).entities@[i as int].tags },
            ),
    {
        let tags = self.entities[i].tags;
        self.entities[i] = Entity { position: p, tags };
    }

    /// The number of entities in the table.
    pub fn len(&self) -> (n: usize)
        ensures
            n == self.entities@.len(),
    {
        self.entities.len()
    }

    /// The entity stored at index `i`.
    pub fn entity(&self, i: usize) -> (e: Entity)
        requires
            i < self.entities@.len(),
        ensures
            e == self.entities@[i as int],
    {
        self.entities[i]
    }
}

} // verus!

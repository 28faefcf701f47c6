//! The tags that classify grid-occupying entities.
//!
//! Tags form a capability set, not a hierarchy: an entity carries zero or
//! more of them.  The marker types below name the individual capabilities;
//! each one knows the full [`TagSet`] attached when an entity of that kind is
//! spawned (a visible wall, for instance, is both `Wall` and `Obstacle`,
//! while a baggage item is `Movable` but deliberately not `Obstacle`).

use vstd::prelude::*;

verus! {

/// The set of tags carried by one entity.
#[derive(Clone, Copy, Debug, PartialEq, Eq, Structural)]
pub struct TagSet {
    /// The player avatar; at most one entity per stage carries it.
    pub player: bool,
    /// A pushable baggage item.
    pub movable: bool,
    /// Blocks entry into its cell.
    pub obstacle: bool,
    /// A visible wall.
    pub wall: bool,
    /// An invisible border wall.
    pub wall_invisible: bool,
    /// A target cell for baggage.
    pub goal: bool,
}

/// The empty tag set.
pub open spec fn no_tags() -> TagSet {
    TagSet {
        player: false,
        movable: false,
        obstacle: false,
        wall: false,
        wall_invisible: false,
        goal: false,
    }
}

/// The tags of a player entity.
pub open spec fn player_tags() -> TagSet {
    TagSet { player: true, ..no_tags() }
}

/// The tags of a goal entity.
pub open spec fn goal_tags() -> TagSet {
    TagSet { goal: true, ..no_tags() }
}

/// The tags of a visible wall entity.
pub open spec fn wall_tags() -> TagSet {
    TagSet { wall: true, obstacle: true, ..no_tags() }
}

/// The tags of an invisible border wall entity.
pub open spec fn border_tags() -> TagSet {
    TagSet { wall_invisible: true, obstacle: true, ..no_tags() }
}

/// The tags of a bare blocking entity.
pub open spec fn obstacle_tags() -> TagSet {
    TagSet { obstacle: true, ..no_tags() }
}

/// The tags of a baggage entity.
pub open spec fn movable_tags() -> TagSet {
    TagSet { movable: true, ..no_tags() }
}

impl TagSet {
    /// The empty tag set.
    pub fn none() -> (t: TagSet)
        ensures
            t == no_tags(),
    {
        TagSet {
            player: false,
            movable: false,
            obstacle: false,
            wall: false,
            wall_invisible: false,
            goal: false,
        }
    }

    /// True when an entity with these tags blocks or contests a cell:
    /// obstacles and players always, movables for push-chain resolution.
    pub open spec fn blocking(self) -> bool {
        self.player || self.movable || self.obstacle
    }
}

/// The player avatar.
pub struct Player;

/// A target cell for baggage.
pub struct Goal;

/// Any entity that blocks entry into its cell.
pub struct Obstacle;

/// A visible wall.
pub struct Wall;

/// An invisible border wall, synthesized one cell beyond the map's edges.
pub struct WallInvisible;

/// A pushable baggage item.
pub struct Movable;

impl Player {
    /// The tags attached when a player entity is spawned.
    pub fn tag_set() -> (t: TagSet)
        ensures
            t == player_tags(),
    {
        let mut t = TagSet::none();
        t.player = true;
        t
    }
}

impl Goal {
    /// The tags attached when a goal entity is spawned; goals do not block.
    pub fn tag_set() -> (t: TagSet)
        ensures
            t == goal_tags(),
    {
        let mut t = TagSet::none();
        t.goal = true;
        t
    }
}

impl Obstacle {
    /// The tags of an entity that blocks and is nothing else.  The loader
    /// never spawns one bare; walls and the border compose it in.
    pub fn tag_set() -> (t: TagSet)
        ensures
            t == obstacle_tags(),
    {
        let mut t = TagSet::none();
        t.obstacle = true;
        t
    }
}

impl Wall {
    /// The tags attached when a visible wall is spawned: `Wall` composed
    /// with `Obstacle`.
    pub fn tag_set() -> (t: TagSet)
        ensures
            t == wall_tags(),
    {
        let mut t = TagSet::none();
        t.wall = true;
        t.obstacle = true;
        t
    }
}

impl WallInvisible {
    /// The tags attached when a border wall is spawned: `WallInvisible`
    /// composed with `Obstacle`.
    pub fn tag_set() -> (t: TagSet)
        ensures
            t == border_tags(),
    {
        let mut t = TagSet::none();
        t.wall_invisible = true;
        t.obstacle = true;
        t
    }
}

impl Movable {
    /// The tags attached when a baggage item is spawned.  A movable is not
    /// an obstacle: it blocks only for push-chain resolution.
    pub fn tag_set() -> (t: TagSet)
        ensures
            t == movable_tags(),
    {
        let mut t = TagSet::none();
        t.movable = true;
        t
    }
}

} // verus!

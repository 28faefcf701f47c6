//! Core of a Sokoban-style puzzle game: a player pushes baggage items onto
//! goal tiles on a grid bounded by walls and an invisible border.
//!
//! The crate is organised leaves-first:
//! - [`grid2d`]: integer grid coordinates and movement deltas;
//! - [`basics`]: the tags that classify grid-occupying entities;
//! - [`config`]: the movement-cooldown constant;
//! - [`resources`]: per-session stage bookkeeping;
//! - [`stage`]: the entity table holding one loaded stage;
//! - [`stage_loader`]: parsing text maps into entity placements;
//! - [`player_move_system`]: the movement/push resolver;
//! - [`win_system`]: the win-condition evaluator;
//! - [`session`]: the stage lifecycle state machine.
//!
//! Coordinate convention, used uniformly: a map's row index `r` is the `y`
//! coordinate and its column index `c` is the `x` coordinate, so the cell
//! in row `r`, column `c` of the text sits at `Grid2D { x: c, y: r }`.
//! The cardinal deltas are up `(0, +1)`, down `(0, -1)`, left `(-1, 0)`,
//! right `(+1, 0)`; a renderer that draws row `0` at the bottom of the
//! screen (as the presentation layer does) therefore shows "up" as
//! upwards.

pub mod basics;
pub mod config;
pub mod grid2d;
pub mod player_move_system;
pub mod resources;
pub mod session;
pub mod stage;
pub mod stage_loader;
pub mod win_system;

use sokoban::grid2d::{Grid2D, Grid2DDelta};
use sokoban::resources::{CurrentStageData, GameState};

#[test]
fn position_plus_delta() {
    let p = Grid2D::new(3, -2);
    let d = Grid2DDelta::new(1, 4);
    let q = p.plus(d);
    assert_eq!(q, Grid2D::new(4, 2));
}

#[test]
fn delta_plus_delta() {
    let d1 = Grid2DDelta::new(0, 1);
    let d2 = Grid2DDelta::new(-1, 0);
    assert_eq!(d1.plus(d2), Grid2DDelta::new(-1, 1));
}

#[test]
fn delta_composition_is_associative() {
    let p = Grid2D::new(10, 20);
    let d1 = Grid2DDelta::new(-3, 7);
    let d2 = Grid2DDelta::new(5, -9);
    let one_by_one = p.plus(d1).plus(d2);
    let combined = p.plus(d1.plus(d2));
    assert_eq!(one_by_one, combined);
    assert_eq!(combined, Grid2D::new(12, 18));
}

#[test]
fn translate_moves_in_place() {
    let mut p = Grid2D::new(0, 0);
    p.translate(Grid2DDelta::new(0, -1));
    assert_eq!(p, Grid2D::new(0, -1));
}

#[test]
fn stage_data_starts_at_stage_one_in_play() {
    let d = CurrentStageData::default();
    assert_eq!(d.state, GameState::Play);
    assert_eq!(d.stage, 1);
}

#[test]
fn next_stage_increments_and_resets() {
    let mut d = CurrentStageData { state: GameState::Win, stage: 4 };
    d.next_stage();
    assert_eq!(d.state, GameState::Play);
    assert_eq!(d.stage, 5);
}

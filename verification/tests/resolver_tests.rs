use sokoban::config::FREEZE_TIME;
use sokoban::grid2d::Grid2D;
use sokoban::player_move_system::{BlockReason, Direction, MoveOutcome, PlayerMoveSystem};
use sokoban::stage::Stage;
use sokoban::stage_loader::{from_map, parse_map};

fn load(text: &[u8]) -> Stage {
    from_map(&parse_map(text).expect("test map must parse"))
}

fn player_pos(stage: &Stage) -> (i32, i32) {
    for e in stage.entities.iter() {
        if e.tags.player {
            return (e.position.x, e.position.y);
        }
    }
    panic!("no player in stage");
}

fn baggage_positions(stage: &Stage) -> Vec<(i32, i32)> {
    let mut out = Vec::new();
    for e in stage.entities.iter() {
        if e.tags.movable {
            out.push((e.position.x, e.position.y));
        }
    }
    out
}

#[test]
fn walk_onto_free_cell() {
    let mut stage = load(b"@..");
    let mut mover = PlayerMoveSystem::default();
    let r = mover.run(&mut stage, Some(Direction::Right));
    assert_eq!(r, MoveOutcome::Moved);
    assert_eq!(player_pos(&stage), (1, 0));
    assert_eq!(mover.move_timer, FREEZE_TIME);
}

#[test]
fn wall_blocks_and_nothing_moves() {
    let mut stage = load(b"@#.");
    let before: Vec<Grid2D> = stage.entities.iter().map(|e| e.position).collect();
    let mut mover = PlayerMoveSystem::default();
    let r = mover.run(&mut stage, Some(Direction::Right));
    assert_eq!(r, MoveOutcome::Blocked(BlockReason::Obstacle));
    let after: Vec<Grid2D> = stage.entities.iter().map(|e| e.position).collect();
    assert_eq!(before, after);
    assert_eq!(player_pos(&stage), (0, 0));
}

#[test]
fn border_blocks_like_a_wall() {
    let mut stage = load(b"@..");
    let mut mover = PlayerMoveSystem::default();
    let r = mover.run(&mut stage, Some(Direction::Left));
    assert_eq!(r, MoveOutcome::Blocked(BlockReason::Obstacle));
    assert_eq!(player_pos(&stage), (0, 0));
}

#[test]
fn push_one_baggage_onto_free_cell() {
    let mut stage = load(b"@B..");
    let others_before: Vec<Grid2D> = stage
        .entities
        .iter()
        .filter(|e| !e.tags.player && !e.tags.movable)
        .map(|e| e.position)
        .collect();
    let mut mover = PlayerMoveSystem::default();
    let r = mover.run(&mut stage, Some(Direction::Right));
    assert_eq!(r, MoveOutcome::Moved);
    assert_eq!(player_pos(&stage), (1, 0));
    assert_eq!(baggage_positions(&stage), vec![(2, 0)]);
    let others_after: Vec<Grid2D> = stage
        .entities
        .iter()
        .filter(|e| !e.tags.player && !e.tags.movable)
        .map(|e| e.position)
        .collect();
    assert_eq!(others_before, others_after);
}

#[test]
fn push_into_wall_changes_nothing() {
    let mut stage = load(b"@B#.");
    let before: Vec<Grid2D> = stage.entities.iter().map(|e| e.position).collect();
    let mut mover = PlayerMoveSystem::default();
    let r = mover.run(&mut stage, Some(Direction::Right));
    assert_eq!(r, MoveOutcome::Blocked(BlockReason::PushBlocked));
    let after: Vec<Grid2D> = stage.entities.iter().map(|e| e.position).collect();
    assert_eq!(before, after);
}

#[test]
fn push_into_other_baggage_changes_nothing() {
    let mut stage = load(b"@BB.");
    let before: Vec<Grid2D> = stage.entities.iter().map(|e| e.position).collect();
    let mut mover = PlayerMoveSystem::default();
    let r = mover.run(&mut stage, Some(Direction::Right));
    assert_eq!(r, MoveOutcome::Blocked(BlockReason::PushBlocked));
    let after: Vec<Grid2D> = stage.entities.iter().map(|e| e.position).collect();
    assert_eq!(before, after);
    assert_eq!(player_pos(&stage), (0, 0));
}

#[test]
fn push_against_border_changes_nothing() {
    let mut stage = load(b".B@");
    let mut mover = PlayerMoveSystem::default();
    let r = mover.run(&mut stage, Some(Direction::Left));
    // baggage at (1, 0) would be pushed to (0, 0): free, so this moves
    assert_eq!(r, MoveOutcome::Moved);
    // now baggage sits at (0, 0); pushing further hits the border
    mover.run(&mut stage, None);
    let r = mover.run(&mut stage, Some(Direction::Left));
    assert_eq!(r, MoveOutcome::Blocked(BlockReason::PushBlocked));
    assert_eq!(player_pos(&stage), (1, 0));
    assert_eq!(baggage_positions(&stage), vec![(0, 0)]);
}

#[test]
fn no_input_is_idle_and_resets_cooldown() {
    let mut stage = load(b"@...");
    let mut mover = PlayerMoveSystem::default();
    assert_eq!(mover.run(&mut stage, Some(Direction::Right)), MoveOutcome::Moved);
    assert_eq!(mover.move_timer, FREEZE_TIME);
    // releasing the key resets the counter at once, whatever it held
    assert_eq!(mover.run(&mut stage, None), MoveOutcome::Idle);
    assert_eq!(mover.move_timer, 0);
    // so a quick tap always yields exactly one cell, immediately
    assert_eq!(mover.run(&mut stage, Some(Direction::Right)), MoveOutcome::Moved);
    assert_eq!(player_pos(&stage), (2, 0));
}

#[test]
fn no_player_is_a_benign_no_op() {
    let mut stage = load(b"#.G");
    let before: Vec<Grid2D> = stage.entities.iter().map(|e| e.position).collect();
    let mut mover = PlayerMoveSystem::default();
    let r = mover.run(&mut stage, Some(Direction::Up));
    assert_eq!(r, MoveOutcome::Idle);
    let after: Vec<Grid2D> = stage.entities.iter().map(|e| e.position).collect();
    assert_eq!(before, after);
}

#[test]
fn three_by_three_scenario_with_center_wall() {
    // player (0,0), wall (1,1), goal (2,2)
    let mut stage = load(b"@..\n.#.\n..G");
    let mut mover = PlayerMoveSystem::default();

    // right, then down twice, then right, the cooldown fully elapsed
    // between calls (a released tick resets it); the center wall and the
    // border obstruct the downward legs, so the position after each call
    // is read explicitly
    assert_eq!(mover.run(&mut stage, Some(Direction::Right)), MoveOutcome::Moved);
    assert_eq!(player_pos(&stage), (1, 0));
    mover.run(&mut stage, None);
    assert_eq!(
        mover.run(&mut stage, Some(Direction::Down)),
        MoveOutcome::Blocked(BlockReason::Obstacle)
    );
    assert_eq!(player_pos(&stage), (1, 0));
    mover.run(&mut stage, None);
    assert_eq!(
        mover.run(&mut stage, Some(Direction::Down)),
        MoveOutcome::Blocked(BlockReason::Obstacle)
    );
    assert_eq!(player_pos(&stage), (1, 0));
    mover.run(&mut stage, None);
    assert_eq!(mover.run(&mut stage, Some(Direction::Right)), MoveOutcome::Moved);
    assert_eq!(player_pos(&stage), (2, 0));
}

#[test]
fn three_by_three_unobstructed_path_reaches_goal_cell() {
    // player (0,0), wall (1,1), goal (2,2): up, up, right, right avoids
    // the wall entirely and ends on the goal cell
    let mut stage = load(b"@..\n.#.\n..G");
    let mut mover = PlayerMoveSystem::default();
    for dir in [Direction::Up, Direction::Up, Direction::Right, Direction::Right] {
        mover.run(&mut stage, None);
        assert_eq!(mover.run(&mut stage, Some(dir)), MoveOutcome::Moved);
    }
    assert_eq!(player_pos(&stage), (2, 2));
}

#[test]
fn cooldown_allows_one_move_per_window() {
    // holding "right" for FREEZE_TIME + 2 consecutive ticks: the move on
    // tick 1 arms the cooldown, ticks 2 ..= FREEZE_TIME + 1 are blocked,
    // and the second move lands on tick FREEZE_TIME + 2
    let mut stage = load(b"@............");
    let mut mover = PlayerMoveSystem::default();
    let mut moves = 0;
    let total = FREEZE_TIME + 2;
    for t in 1..=total {
        let r = mover.run(&mut stage, Some(Direction::Right));
        match r {
            MoveOutcome::Moved => {
                moves += 1;
                assert!(t == 1 || t == total, "unexpected move at tick {}", t);
            }
            MoveOutcome::Blocked(BlockReason::Cooldown) => {
                assert!(1 < t && t < total);
            }
            other => panic!("unexpected outcome {:?} at tick {}", other, t),
        }
        if t <= FREEZE_TIME + 1 {
            assert_eq!(moves, 1, "exactly one move during the first {} ticks", t);
        }
    }
    assert_eq!(moves, 2);
    assert_eq!(player_pos(&stage), (2, 0));
}

use sokoban::basics::{Goal, Movable, Player};
use sokoban::grid2d::Grid2D;
use sokoban::player_move_system::{Direction, MoveOutcome};
use sokoban::resources::GameState;
use sokoban::session::{Phase, Session};
use sokoban::stage::Stage;
use sokoban::stage_loader::{from_map, parse_map};
use sokoban::win_system::{sort_positions, WinSystem};

#[test]
fn sorting_is_ascending_by_x_then_y() {
    let v = vec![
        Grid2D::new(2, 1),
        Grid2D::new(0, 5),
        Grid2D::new(0, 2),
        Grid2D::new(-1, 7),
    ];
    let sorted = sort_positions(v);
    assert_eq!(
        sorted,
        vec![
            Grid2D::new(-1, 7),
            Grid2D::new(0, 2),
            Grid2D::new(0, 5),
            Grid2D::new(2, 1),
        ]
    );
}

#[test]
fn won_when_every_baggage_sits_on_a_goal() {
    let stage = from_map(&parse_map(b"@.\nBG").expect("map parses"));
    assert!(!WinSystem::evaluate(&stage));
    let stage = from_map(&parse_map(b"@.").expect("map parses"));
    assert!(WinSystem::evaluate(&stage));
}

#[test]
fn counts_must_match() {
    // two goals, one baggage on one of them: not won
    let mut stage = Stage::new();
    stage.spawn(Grid2D::new(0, 0), Player::tag_set());
    stage.spawn(Grid2D::new(1, 1), Movable::tag_set());
    stage.spawn(Grid2D::new(1, 1), Goal::tag_set());
    stage.spawn(Grid2D::new(2, 2), Goal::tag_set());
    assert!(!WinSystem::evaluate(&stage));
}

#[test]
fn verdict_ignores_enumeration_order() {
    let mut forward = Stage::new();
    forward.spawn(Grid2D::new(1, 1), Movable::tag_set());
    forward.spawn(Grid2D::new(2, 2), Movable::tag_set());
    forward.spawn(Grid2D::new(2, 2), Goal::tag_set());
    forward.spawn(Grid2D::new(1, 1), Goal::tag_set());

    let mut backward = Stage::new();
    backward.spawn(Grid2D::new(1, 1), Goal::tag_set());
    backward.spawn(Grid2D::new(2, 2), Goal::tag_set());
    backward.spawn(Grid2D::new(2, 2), Movable::tag_set());
    backward.spawn(Grid2D::new(1, 1), Movable::tag_set());

    assert_eq!(WinSystem::evaluate(&forward), WinSystem::evaluate(&backward));
    assert!(WinSystem::evaluate(&forward));
}

#[test]
fn zero_baggage_zero_goal_counts_as_won() {
    // the chosen degenerate policy: a stage with no puzzle is won
    // immediately (two empty sorted sequences are equal)
    let stage = from_map(&parse_map(b"@..\n.#.").expect("map parses"));
    assert!(WinSystem::evaluate(&stage));
}

#[test]
fn win_system_transitions_play_to_win_once() {
    let stage = from_map(&parse_map(b"@.").expect("map parses"));
    let mut data = sokoban::resources::CurrentStageData::default();
    let evaluator = WinSystem;
    evaluator.run(&stage, &mut data);
    assert_eq!(data.state, GameState::Win);
    assert_eq!(data.stage, 1);
    // already Win: a further run is a no-op
    evaluator.run(&stage, &mut data);
    assert_eq!(data.state, GameState::Win);
}

#[test]
fn full_lifecycle_title_play_clear_advance() {
    let mut session = Session::new();
    assert_eq!(session.phase, Phase::Loading);
    assert_eq!(session.data.stage, 1);

    // ticks and confirmations while nothing is loaded are benign
    assert_eq!(session.tick(Some(Direction::Right)), MoveOutcome::Idle);

    // first stage: loading alone does not start play (title screen)
    let m = parse_map(b"@BG").expect("map parses");
    session.on_stage_loaded(&m);
    assert_eq!(session.phase, Phase::Loading);

    // the confirmation keypress starts play
    session.on_confirm();
    assert_eq!(session.phase, Phase::Playing);

    // pushing the baggage onto the goal wins within the same tick
    let r = session.tick(Some(Direction::Right));
    assert_eq!(r, MoveOutcome::Moved);
    assert_eq!(session.phase, Phase::Cleared);
    assert_eq!(session.data.state, GameState::Win);
    assert_eq!(session.data.stage, 1);

    // stray directional input during the prompt is ignored
    assert_eq!(session.tick(Some(Direction::Left)), MoveOutcome::Idle);
    assert_eq!(session.phase, Phase::Cleared);

    // confirmation advances the stage and tears the entities down
    session.on_confirm();
    assert_eq!(session.phase, Phase::Loading);
    assert_eq!(session.data.stage, 2);
    assert_eq!(session.data.state, GameState::Play);
    assert!(session.stage.is_none());

    // later stages start as soon as they are loaded
    let m = parse_map(b"@B.G").expect("map parses");
    session.on_stage_loaded(&m);
    assert_eq!(session.phase, Phase::Playing);
}

#[test]
fn resolver_and_win_check_run_in_one_tick_order() {
    // the win check runs after movement: before the push the stage is not
    // won, and the very tick that completes it reports Cleared
    let mut session = Session::new();
    let m = parse_map(b"@B.G").expect("map parses");
    session.on_stage_loaded(&m);
    session.on_confirm();
    assert_eq!(session.phase, Phase::Playing);

    assert_eq!(session.tick(Some(Direction::Right)), MoveOutcome::Moved);
    assert_eq!(session.phase, Phase::Playing);

    // wait out the cooldown
    let mut guard = 0;
    loop {
        let r = session.tick(Some(Direction::Right));
        if r == MoveOutcome::Moved {
            break;
        }
        guard += 1;
        assert!(guard < 100, "cooldown never elapsed");
    }
    assert_eq!(session.phase, Phase::Cleared);
}

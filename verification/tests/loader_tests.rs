use sokoban::grid2d::Grid2D;
use sokoban::stage::{Entity, Stage};
use sokoban::stage_loader::{default_map, from_map, parse_map, MapParseError};

fn parse_err(text: &[u8]) -> MapParseError {
    match parse_map(text) {
        Err(e) => e,
        Ok(_) => panic!("expected a parse error"),
    }
}

fn positions(stage: &Stage, pick: fn(&Entity) -> bool) -> Vec<(i32, i32)> {
    let mut out = Vec::new();
    for e in stage.entities.iter() {
        if pick(e) {
            out.push((e.position.x, e.position.y));
        }
    }
    out.sort();
    out
}

#[test]
fn empty_text_is_rejected() {
    assert_eq!(parse_err(b""), MapParseError::EmptyMap);
    assert_eq!(parse_err(b"  \n\t \r\n"), MapParseError::EmptyMap);
}

#[test]
fn ragged_row_is_rejected() {
    assert_eq!(parse_err(b"@..\n.."), MapParseError::RaggedRow { row: 1 });
    assert_eq!(parse_err(b"@.\n\n.."), MapParseError::RaggedRow { row: 1 });
}

#[test]
fn unrecognized_symbol_is_rejected_with_location() {
    assert_eq!(
        parse_err(b"@.x\n..."),
        MapParseError::UnrecognizedSymbol { row: 0, col: 2 }
    );
    assert_eq!(
        parse_err(b"...\n.?."),
        MapParseError::UnrecognizedSymbol { row: 1, col: 1 }
    );
}

#[test]
fn duplicate_player_is_rejected_at_second_marker() {
    assert_eq!(
        parse_err(b"@..\n.@."),
        MapParseError::DuplicatePlayer { row: 1, col: 1 }
    );
}

#[test]
fn surrounding_whitespace_and_crlf_are_tolerated() {
    let m = parse_map(b"\n@.\r\n.G\r\n ").expect("map parses");
    assert_eq!(m.width, 2);
    assert_eq!(m.height, 2);
    assert_eq!(m.player, Some(Grid2D::new(0, 0)));
    assert_eq!(m.goals.len(), 1);
    assert_eq!(m.goals[0], Grid2D::new(1, 1));
}

#[test]
fn placements_are_read_row_major() {
    let m = parse_map(b"@#B\nG.#").expect("map parses");
    assert_eq!(m.width, 3);
    assert_eq!(m.height, 2);
    assert_eq!(m.player, Some(Grid2D::new(0, 0)));
    assert_eq!(m.walls, vec![Grid2D::new(1, 0), Grid2D::new(2, 1)]);
    assert_eq!(m.baggage, vec![Grid2D::new(2, 0)]);
    assert_eq!(m.goals, vec![Grid2D::new(0, 1)]);
}

#[test]
fn round_trip_yields_entities_and_full_border() {
    // one player, one goal, walls, no baggage
    let stage = from_map(&parse_map(b"@.#\n.#.\n..G").expect("map parses"));

    let players = positions(&stage, |e| e.tags.player);
    assert_eq!(players, vec![(0, 0)]);

    let goals = positions(&stage, |e| e.tags.goal);
    assert_eq!(goals, vec![(2, 2)]);

    assert_eq!(positions(&stage, |e| e.tags.movable), vec![]);

    // visible walls are obstacles at exactly the `#` cells
    let walls = positions(&stage, |e| e.tags.wall);
    assert_eq!(walls, vec![(1, 1), (2, 0)]);

    // the invisible border covers each edge one cell beyond the 3x3
    // rectangle, corners excluded
    let border = positions(&stage, |e| e.tags.wall_invisible);
    let mut expected = Vec::new();
    for x in 0..3 {
        expected.push((x, -1));
        expected.push((x, 3));
    }
    for y in 0..3 {
        expected.push((-1, y));
        expected.push((3, y));
    }
    expected.sort();
    assert_eq!(border, expected);

    // every wall and border cell blocks; goals and floor do not
    let obstacles = positions(&stage, |e| e.tags.obstacle);
    let mut expected_obstacles = expected.clone();
    expected_obstacles.extend([(1, 1), (2, 0)]);
    expected_obstacles.sort();
    assert_eq!(obstacles, expected_obstacles);

    // one entity per placement: 1 player + 2 walls + 1 goal + 12 border
    assert_eq!(stage.entities.len(), 16);
}

#[test]
fn default_map_parses_with_one_player_and_one_goal() {
    let m = parse_map(default_map().as_bytes()).expect("the built-in map parses");
    assert_eq!(m.width, 13);
    assert_eq!(m.height, 7);
    assert_eq!(m.player, Some(Grid2D::new(0, 0)));
    assert_eq!(m.goals, vec![Grid2D::new(12, 6)]);
    assert_eq!(m.baggage.len(), 0);
}

#[test]
fn map_without_player_loads_without_one() {
    let stage = from_map(&parse_map(b"#.G").expect("map parses"));
    assert_eq!(positions(&stage, |e| e.tags.player), vec![]);
    assert!(stage.find_player().is_none());
}

#[test]
fn tag_composition_of_spawned_entities() {
    let stage = from_map(&parse_map(b"@#B\nG..").expect("map parses"));
    for e in stage.entities.iter() {
        if e.tags.wall || e.tags.wall_invisible {
            assert!(e.tags.obstacle);
        }
        if e.tags.movable {
            assert!(!e.tags.obstacle, "baggage must not be an obstacle");
        }
        if e.tags.goal {
            assert!(!e.tags.obstacle, "goals must not block");
        }
    }
}

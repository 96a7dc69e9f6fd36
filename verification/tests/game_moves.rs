use mission3::game::{Game, PlacementError};
use mission3::unit::{Action, Position, Unit, UnitType};
use rand::XorShiftRng;

/// Checks that the right number of moves is generated.
#[test]
fn test_nb_moves() {
    let game = Game::new(
        10,
        10,
        vec![
            vec![],
            vec![
                Unit::new(Position::new(0, 0), UnitType::Gunner, 1),
                Unit::new(Position::new(9, 9), UnitType::MobileTower, 1),
            ],
        ],
    );
    assert_eq!(game.moves(0).len(), 0);
    assert_eq!(game.moves(1).len(), 26);
}

fn at(x: usize, y: usize) -> Position {
    Position::new(x, y)
}

fn action(unit: (usize, usize), mv: (usize, usize), shoot: (usize, usize)) -> Action {
    Action { unit: at(unit.0, unit.1), mv: at(mv.0, mv.1), shoot: at(shoot.0, shoot.1) }
}

/// Side 0: an infantryman at (0, 0) and a gunner at (0, 1). Side 1: a tower
/// at (1, 0).
fn skirmish() -> Game {
    Game::new(
        6,
        5,
        vec![
            vec![
                Unit::new(at(0, 0), UnitType::Infantryman, 0),
                Unit::new(at(0, 1), UnitType::Gunner, 0),
            ],
            vec![Unit::new(at(1, 0), UnitType::MobileTower, 1)],
        ],
    )
}

#[test]
fn a_side_without_units_is_terminal_and_has_no_action() {
    let game = Game::new(
        10,
        10,
        vec![vec![], vec![Unit::new(at(4, 4), UnitType::Gunner, 1)]],
    );
    assert!(game.is_terminal(0));
    assert_eq!(game.moves(0), vec![]);
    assert!(!game.is_terminal(1));
    assert_eq!(game.player_count(0), 0);
    assert_eq!(game.player_count(1), 1);
}

#[test]
fn accessors() {
    let game = skirmish();
    assert_eq!(game.width(), 6);
    assert_eq!(game.height(), 5);
    assert_eq!(
        game.player(0),
        vec![
            Unit::new(at(0, 0), UnitType::Infantryman, 0),
            Unit::new(at(0, 1), UnitType::Gunner, 0),
        ]
    );
    assert_eq!(game.player(1), vec![Unit::new(at(1, 0), UnitType::MobileTower, 1)]);
    assert_eq!(game.positions(), vec![at(0, 0), at(0, 1), at(1, 0)]);
}

#[test]
fn a_clone_holds_the_same_state() {
    let game = skirmish();
    let copy = game.clone();
    assert_eq!(copy.width(), 6);
    assert_eq!(copy.height(), 5);
    assert_eq!(copy.player(0), game.player(0));
    assert_eq!(copy.player(1), game.player(1));
}

#[test]
fn at_finds_the_unit_on_a_cell() {
    let game = skirmish();
    assert_eq!(game.at(at(0, 1)), Some(Unit::new(at(0, 1), UnitType::Gunner, 0)));
    assert_eq!(game.at(at(1, 0)), Some(Unit::new(at(1, 0), UnitType::MobileTower, 1)));
    assert_eq!(game.at(at(1, 1)), None);
    assert!(!game.is_free(at(0, 0)));
    assert!(game.is_free(at(5, 4)));
}

#[test]
fn the_moves_of_a_side_are_those_of_its_units_in_order() {
    let game = skirmish();
    let moves = game.moves(0);
    // The infantryman can only go to (0, 2) and (2, 0), the gunner to (0, 2)
    // and (1, 1). Each shoots from the cell it goes to.
    let expected = vec![
        action((0, 0), (0, 2), (0, 3)),
        action((0, 0), (0, 2), (0, 1)),
        action((0, 0), (0, 2), (1, 2)),
        action((0, 0), (2, 0), (2, 1)),
        action((0, 0), (2, 0), (1, 0)),
        action((0, 0), (2, 0), (3, 0)),
        action((0, 1), (0, 2), (0, 3)),
        action((0, 1), (0, 2), (0, 1)),
        action((0, 1), (0, 2), (1, 2)),
        action((0, 1), (0, 2), (0, 4)),
        action((0, 1), (0, 2), (0, 0)),
        action((0, 1), (0, 2), (2, 2)),
        action((0, 1), (1, 1), (1, 2)),
        action((0, 1), (1, 1), (1, 0)),
        action((0, 1), (1, 1), (0, 1)),
        action((0, 1), (1, 1), (2, 1)),
        action((0, 1), (1, 1), (1, 3)),
        action((0, 1), (1, 1), (3, 1)),
    ];
    assert_eq!(moves, expected);
}

#[test]
fn no_action_moves_onto_a_taken_cell() {
    let game = skirmish();
    let taken = game.positions();
    for player in 0..2 {
        let moves = game.moves(player);
        assert!(!moves.is_empty());
        for action in moves {
            assert!(!taken.contains(&action.mv));
            assert!(action.mv.x < 6 && action.mv.y < 5);
            assert!(action.shoot.x < 6 && action.shoot.y < 5);
            assert!(game.player(player).iter().any(|unit| unit.pos == action.unit));
        }
    }
}

#[test]
fn an_action_takes_a_unit_exactly_when_it_shoots_one() {
    let game = skirmish();
    for player in 0..2 {
        for action in game.moves(player) {
            let mut after = game.clone();
            after.apply_move(&action);
            let hit = if game.is_free(action.shoot) { 0 } else { 1 };
            assert_eq!(after.positions().len() + hit, 3);
            assert!(after.is_free(action.unit));
            if action.shoot == action.unit {
                // The unit shot the cell it was still standing on.
                assert!(after.is_free(action.mv));
            } else {
                assert_eq!(after.at(action.mv).map(|unit| unit.team), Some(player));
            }
            assert!(after.is_well_formed());
        }
    }
}

#[test]
fn a_shot_at_an_enemy_removes_it() {
    let mut game = skirmish();
    game.apply_move(&action((0, 0), (2, 0), (1, 0)));
    assert_eq!(
        game.player(0),
        vec![
            Unit::new(at(2, 0), UnitType::Infantryman, 0),
            Unit::new(at(0, 1), UnitType::Gunner, 0),
        ]
    );
    assert_eq!(game.player(1), vec![]);
    assert!(game.is_terminal(1));
}

#[test]
fn a_shot_at_a_friend_removes_it() {
    let mut game = skirmish();
    game.apply_move(&action((0, 0), (0, 2), (0, 1)));
    assert_eq!(game.player(0), vec![Unit::new(at(0, 2), UnitType::Infantryman, 0)]);
    assert_eq!(game.player(1), vec![Unit::new(at(1, 0), UnitType::MobileTower, 1)]);
}

#[test]
fn a_shot_at_an_empty_cell_removes_nothing() {
    let mut game = skirmish();
    game.apply_move(&action((0, 1), (1, 1), (1, 3)));
    assert_eq!(
        game.player(0),
        vec![
            Unit::new(at(0, 0), UnitType::Infantryman, 0),
            Unit::new(at(1, 1), UnitType::Gunner, 0),
        ]
    );
    assert_eq!(game.player(1), vec![Unit::new(at(1, 0), UnitType::MobileTower, 1)]);
}

#[test]
fn a_unit_that_shoots_back_at_the_cell_it_leaves_is_removed() {
    // The shot comes before the move, so it hits the unit itself.
    let mut game = skirmish();
    game.apply_move(&action((0, 1), (0, 2), (0, 1)));
    assert_eq!(game.player(0), vec![Unit::new(at(0, 0), UnitType::Infantryman, 0)]);
    assert_eq!(game.player(1), vec![Unit::new(at(1, 0), UnitType::MobileTower, 1)]);
    assert!(game.is_free(at(0, 2)));
}

#[test]
fn a_lone_unit_that_shoots_back_leaves_the_grid_empty() {
    let mut game = Game::new(
        10,
        10,
        vec![vec![Unit::new(at(0, 0), UnitType::Gunner, 0)], vec![]],
    );
    let back = Action::new(at(0, 0), (0, 1), (0, 0)).unwrap();
    assert!(game.moves(0).contains(&back));
    game.apply_move(&back);
    assert_eq!(game.player(0), vec![]);
    assert_eq!(game.player(1), vec![]);
    assert_eq!(game.width(), 10);
    assert_eq!(game.height(), 10);
}

#[test]
fn remove_unit_for_player_takes_the_last_units() {
    let mut game = skirmish();
    game.remove_unit_for_player(0, 1);
    assert_eq!(game.player(0), vec![Unit::new(at(0, 0), UnitType::Infantryman, 0)]);
    assert_eq!(game.player(1).len(), 1);
    game.remove_unit_for_player(0, 0).remove_unit_for_player(1, 1);
    assert_eq!(game.player(0).len(), 1);
    assert_eq!(game.player(1).len(), 0);
}

#[test]
fn a_random_start_is_symmetric_and_without_collision() {
    let mut rng = XorShiftRng::new_unseeded();
    for units in [0, 1, 7, 20] {
        let game = Game::new_random(10, 8, units, &mut rng).unwrap();
        assert_eq!(game.width(), 10);
        assert_eq!(game.height(), 8);
        let left = game.player(0);
        let right = game.player(1);
        assert_eq!(left.len(), units);
        assert_eq!(right.len(), units);
        for (unit, mirror) in left.iter().zip(right.iter()) {
            assert!(unit.pos.x < 5 && unit.pos.y < 8);
            assert_eq!(unit.team, 0);
            assert_eq!(mirror.team, 1);
            assert_eq!(mirror.unit_type, unit.unit_type);
            assert_eq!(mirror.pos, at(9 - unit.pos.x, 7 - unit.pos.y));
        }
        let taken = game.positions();
        for (i, cell) in taken.iter().enumerate() {
            assert!(!taken[..i].contains(cell));
        }
    }
}

#[test]
fn a_random_start_can_fill_the_left_half() {
    let mut rng = XorShiftRng::new_unseeded();
    let game = Game::new_random(4, 3, 6, &mut rng).unwrap();
    let mut cells: Vec<(usize, usize)> =
        game.player(0).iter().map(|u| (u.pos.x, u.pos.y)).collect();
    cells.sort();
    assert_eq!(cells, vec![(0, 0), (0, 1), (0, 2), (1, 0), (1, 1), (1, 2)]);
}

#[test]
fn a_random_start_on_an_odd_width_leaves_the_middle_column_free() {
    let mut rng = XorShiftRng::new_unseeded();
    let game = Game::new_random(5, 2, 4, &mut rng).unwrap();
    assert!(game.positions().iter().all(|cell| cell.x != 2));
}

#[test]
fn too_many_units_for_the_left_half_are_refused() {
    let mut rng = XorShiftRng::new_unseeded();
    assert_eq!(Game::new_random(4, 3, 7, &mut rng).err(), Some(PlacementError::TooManyUnits));
    assert_eq!(Game::new_random(1, 9, 1, &mut rng).err(), Some(PlacementError::TooManyUnits));
    assert_eq!(Game::new_random(9, 0, 1, &mut rng).err(), Some(PlacementError::TooManyUnits));
    assert!(Game::new_random(1, 0, 0, &mut rng).is_ok());
}

#[test]
fn randomly_add_replaces_the_units() {
    let mut rng = XorShiftRng::new_unseeded();
    let mut game = skirmish();
    assert_eq!(game.randomly_add(6, 5, 3, &mut rng), Ok(()));
    assert_eq!(game.player(0).len(), 3);
    assert_eq!(game.player(1).len(), 3);
    assert_eq!(game.width(), 6);
    assert_eq!(game.height(), 5);
}

#[test]
fn randomly_add_leaves_the_game_on_an_error() {
    let mut rng = XorShiftRng::new_unseeded();
    let mut game = skirmish();
    assert_eq!(game.randomly_add(6, 5, 16, &mut rng), Err(PlacementError::TooManyUnits));
    assert_eq!(game.positions(), vec![at(0, 0), at(0, 1), at(1, 0)]);
}

#[test]
fn random_starts_from_one_seed_are_the_same() {
    let mut one = XorShiftRng::new_unseeded();
    let mut two = XorShiftRng::new_unseeded();
    let first = Game::new_random(10, 10, 8, &mut one).unwrap();
    let second = Game::new_random(10, 10, 8, &mut two).unwrap();
    assert_eq!(first.player(0), second.player(0));
    assert_eq!(first.player(1), second.player(1));
}

#[test]
fn place_pair_puts_a_unit_and_its_mirror() {
    let mut game = Game::new(6, 4, vec![vec![], vec![]]);
    let unit = Unit::new(at(1, 3), UnitType::Gunner, 0);
    assert!(game.place_pair(unit, 6, 4));
    assert_eq!(game.player(0), vec![unit]);
    assert_eq!(game.player(1), vec![Unit::new(at(4, 0), UnitType::Gunner, 1)]);
    assert!(!game.place_pair(Unit::new(at(1, 3), UnitType::Infantryman, 0), 6, 4));
    assert_eq!(game.positions(), vec![at(1, 3), at(4, 0)]);
}

#[test]
fn a_start_that_fills_a_large_half_runs_out_of_tries() {
    // The last of 5000 units has one free cell among 5000 to be drawn in a
    // thousand tries, the one before it two, and so on.
    let mut rng = XorShiftRng::new_unseeded();
    assert_eq!(
        Game::new_random(100, 100, 5000, &mut rng).err(),
        Some(PlacementError::TriesExhausted)
    );
}

#[test]
fn occupant_names_the_side_on_a_cell() {
    let game = skirmish();
    assert_eq!(game.occupant(at(0, 0)), 1);
    assert_eq!(game.occupant(at(0, 1)), 1);
    assert_eq!(game.occupant(at(1, 0)), 2);
    assert_eq!(game.occupant(at(1, 1)), 0);
    assert_eq!(game.occupant(at(7, 7)), 0);
}

#[test]
fn occupant_names_the_last_side_of_several() {
    let both = Game::new(
        2,
        2,
        vec![
            vec![Unit::new(at(1, 1), UnitType::Gunner, 0)],
            vec![Unit::new(at(1, 1), UnitType::Gunner, 1)],
        ],
    );
    assert_eq!(both.occupant(at(1, 1)), 2);
    assert!(!both.is_well_formed());
}

#[test]
fn a_battle_in_order() {
    assert!(skirmish().is_well_formed());
    assert!(Game::new(3, 3, vec![vec![], vec![]]).is_well_formed());
    // One side only.
    assert!(!Game::new(3, 3, vec![vec![]]).is_well_formed());
    // A unit off the grid.
    let off = Game::new(3, 3, vec![vec![Unit::new(at(3, 0), UnitType::Gunner, 0)], vec![]]);
    assert!(!off.is_well_formed());
    // A unit listed under the other side.
    let astray = Game::new(3, 3, vec![vec![Unit::new(at(0, 0), UnitType::Gunner, 1)], vec![]]);
    assert!(!astray.is_well_formed());
    // Two units of one side on one cell.
    let crowd = Game::new(
        3,
        3,
        vec![
            vec![],
            vec![
                Unit::new(at(2, 2), UnitType::Gunner, 1),
                Unit::new(at(0, 0), UnitType::Gunner, 1),
                Unit::new(at(2, 2), UnitType::Infantryman, 1),
            ],
        ],
    );
    assert!(!crowd.is_well_formed());
}

#[test]
fn an_action_is_legal_when_it_is_open_to_a_side() {
    let game = skirmish();
    assert!(game.is_legal(&action((0, 0), (2, 0), (1, 0))));
    assert!(game.is_legal(&game.moves(1)[0]));
    // The destination is taken.
    assert!(!game.is_legal(&action((0, 0), (0, 1), (1, 0))));
    // No unit stands on the source.
    assert!(!game.is_legal(&action((3, 3), (3, 4), (3, 4))));
    // The target is out of the infantryman's reach from (2, 0).
    assert!(!game.is_legal(&action((0, 0), (2, 0), (0, 1))));
    // A shot back at the cell left.
    assert!(game.is_legal(&action((0, 1), (0, 2), (0, 1))));
}

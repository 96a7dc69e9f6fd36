use mission3::unit::{Action, Position, Unit, UnitType};
use rand::XorShiftRng;

/// These tests take a grid of size 10*10 and check the moves that are
/// generated for a unit in its corner.
#[test]
fn test_infantry() {
    let infantry = Unit::new(Position::new(0, 0), UnitType::Infantryman, 0);
    let last_act = infantry.actions(10, 10, &vec![]);
    let mvs: Vec<Position> = last_act.iter().map(|x| x.mv).collect();
    // Every move occurs three times because it goes with a possible shot.
    assert_eq!(
        mvs,
        vec![
            Position { x: 0, y: 1 },
            Position { x: 0, y: 1 },
            Position { x: 0, y: 1 },
            Position { x: 1, y: 0 },
            Position { x: 1, y: 0 },
            Position { x: 1, y: 0 },
            Position { x: 0, y: 2 },
            Position { x: 0, y: 2 },
            Position { x: 0, y: 2 },
            Position { x: 2, y: 0 },
            Position { x: 2, y: 0 },
            Position { x: 2, y: 0 },
        ]
    );
}

#[test]
fn test_mobile_tower() {
    let tower = Unit::new(Position::new(0, 0), UnitType::MobileTower, 0);
    let last_act = tower.actions(10, 10, &vec![]);
    let mvs: Vec<Position> = last_act.iter().map(|x| x.shoot).collect();
    assert_eq!(
        mvs,
        vec![
            // From (0, 1).
            Position { x: 0, y: 2 },
            Position { x: 0, y: 0 },
            Position { x: 1, y: 1 },
            Position { x: 1, y: 2 },
            Position { x: 1, y: 0 },
            Position { x: 0, y: 3 },
            Position { x: 2, y: 1 },
            Position { x: 2, y: 3 },
            // From (1, 0).
            Position { x: 1, y: 1 },
            Position { x: 2, y: 0 },
            Position { x: 0, y: 0 },
            Position { x: 2, y: 1 },
            Position { x: 0, y: 1 },
            Position { x: 1, y: 2 },
            Position { x: 3, y: 0 },
            Position { x: 3, y: 2 },
        ]
    );
}

#[test]
fn test_gunner() {
    let infantry = Unit::new(Position::new(0, 0), UnitType::Gunner, 0);
    let last_act = infantry.actions(10, 10, &vec![]);
    println!("moves : {:?}", infantry.moves());
    let mvs: Vec<Position> = last_act.iter().map(|x| x.mv).collect();
    // Every move occurs five times because it goes with a possible shot.
    assert_eq!(
        mvs,
        vec![
            Position { x: 0, y: 1 },
            Position { x: 0, y: 1 },
            Position { x: 0, y: 1 },
            Position { x: 0, y: 1 },
            Position { x: 0, y: 1 },
            Position { x: 1, y: 0 },
            Position { x: 1, y: 0 },
            Position { x: 1, y: 0 },
            Position { x: 1, y: 0 },
            Position { x: 1, y: 0 },
        ]
    );
}

fn at(x: usize, y: usize) -> Position {
    Position::new(x, y)
}

#[test]
fn infantry_alone_in_the_corner_has_twelve_actions() {
    let infantry = Unit::new(at(0, 0), UnitType::Infantryman, 0);
    let actions = infantry.actions(10, 10, &vec![]);
    let listed: Vec<(Position, Position, Position)> =
        actions.iter().map(|a| (a.unit, a.mv, a.shoot)).collect();
    assert_eq!(
        listed,
        vec![
            (at(0, 0), at(0, 1), at(0, 2)),
            (at(0, 0), at(0, 1), at(0, 0)),
            (at(0, 0), at(0, 1), at(1, 1)),
            (at(0, 0), at(1, 0), at(1, 1)),
            (at(0, 0), at(1, 0), at(0, 0)),
            (at(0, 0), at(1, 0), at(2, 0)),
            (at(0, 0), at(0, 2), at(0, 3)),
            (at(0, 0), at(0, 2), at(0, 1)),
            (at(0, 0), at(0, 2), at(1, 2)),
            (at(0, 0), at(2, 0), at(2, 1)),
            (at(0, 0), at(2, 0), at(1, 0)),
            (at(0, 0), at(2, 0), at(3, 0)),
        ]
    );
}

#[test]
fn a_taken_cell_cannot_be_moved_to_but_can_be_shot_at() {
    let infantry = Unit::new(at(0, 0), UnitType::Infantryman, 0);
    let actions = infantry.actions(10, 10, &vec![at(0, 1)]);
    let listed: Vec<(Position, Position)> = actions.iter().map(|a| (a.mv, a.shoot)).collect();
    assert_eq!(
        listed,
        vec![
            (at(1, 0), at(1, 1)),
            (at(1, 0), at(0, 0)),
            (at(1, 0), at(2, 0)),
            (at(0, 2), at(0, 3)),
            (at(0, 2), at(0, 1)),
            (at(0, 2), at(1, 2)),
            (at(2, 0), at(2, 1)),
            (at(2, 0), at(1, 0)),
            (at(2, 0), at(3, 0)),
        ]
    );
}

#[test]
fn a_unit_in_the_middle_uses_all_its_offsets() {
    let gunner = Unit::new(at(5, 5), UnitType::Gunner, 0);
    assert_eq!(gunner.actions(10, 10, &vec![]).len(), 4 * 8);
    let tower = Unit::new(at(5, 5), UnitType::MobileTower, 0);
    assert_eq!(tower.actions(10, 10, &vec![]).len(), 4 * 16);
    let infantry = Unit::new(at(5, 5), UnitType::Infantryman, 0);
    assert_eq!(infantry.actions(10, 10, &vec![]).len(), 8 * 4);
}

#[test]
fn a_unit_that_cannot_move_has_no_action() {
    let tower = Unit::new(at(0, 0), UnitType::MobileTower, 0);
    assert_eq!(tower.actions(1, 1, &vec![]).len(), 0);
    assert_eq!(tower.actions(2, 1, &vec![at(1, 0)]).len(), 0);
}

#[test]
fn move_by_adds_the_offset() {
    assert_eq!(at(3, 4).move_by((2, -1)), Some(at(5, 3)));
    assert_eq!(at(3, 4).move_by((-3, -4)), Some(at(0, 0)));
    assert_eq!(at(3, 4).move_by((0, 0)), Some(at(3, 4)));
}

#[test]
fn move_by_rejects_a_coordinate_below_zero() {
    assert_eq!(at(0, 0).move_by((-1, 0)), None);
    assert_eq!(at(0, 0).move_by((0, -1)), None);
    assert_eq!(at(1, 5).move_by((-2, 0)), None);
}

#[test]
fn move_by_rejects_a_coordinate_above_the_greatest() {
    assert_eq!(at(usize::MAX, 0).move_by((1, 0)), None);
    assert_eq!(at(0, usize::MAX).move_by((0, 2)), None);
    assert_eq!(at(usize::MAX - 1, 0).move_by((1, 0)), Some(at(usize::MAX, 0)));
}

#[test]
fn valid_wants_a_free_cell_of_the_grid() {
    let taken = vec![at(1, 1), at(2, 2)];
    assert!(at(0, 0).valid(3, 3, &taken));
    assert!(!at(1, 1).valid(3, 3, &taken));
    assert!(!at(2, 2).valid(3, 3, &taken));
    assert!(!at(3, 0).valid(3, 3, &taken));
    assert!(!at(0, 3).valid(3, 3, &taken));
    assert!(at(2, 0).valid(3, 3, &vec![]));
}

#[test]
fn an_action_is_built_from_offsets() {
    let action = Action::new(at(4, 4), (0, 1), (-2, 0)).unwrap();
    assert_eq!(action.unit, at(4, 4));
    assert_eq!(action.mv, at(4, 5));
    assert_eq!(action.shoot, at(2, 4));
    assert_eq!(action.caster_pos(), at(4, 4));
    assert_eq!(Action::new(at(0, 0), (-1, 0), (0, 1)), None);
    assert_eq!(Action::new(at(0, 0), (1, 0), (0, -1)), None);
}

#[test]
fn reverse_reflects_through_the_centre() {
    let unit = Unit::new(at(2, 3), UnitType::Gunner, 0);
    let mirror = unit.reverse(10, 8);
    assert_eq!(mirror, Unit::new(at(7, 4), UnitType::Gunner, 1));
    assert_eq!(mirror.reverse(10, 8), unit);
    let corner = Unit::new(at(0, 0), UnitType::MobileTower, 1);
    assert_eq!(corner.reverse(4, 6), Unit::new(at(3, 5), UnitType::MobileTower, 0));
}

#[test]
fn unit_chars() {
    assert_eq!(Unit::new(at(0, 0), UnitType::Gunner, 0).unit_char(), 'G');
    assert_eq!(Unit::new(at(0, 0), UnitType::Infantryman, 0).unit_char(), 'I');
    assert_eq!(Unit::new(at(0, 0), UnitType::MobileTower, 0).unit_char(), 'T');
}

#[test]
fn move_offsets() {
    let cross = vec![(0, 1), (0, -1), (-1, 0), (1, 0)];
    let far = vec![(0, 1), (0, -1), (-1, 0), (1, 0), (0, 2), (0, -2), (-2, 0), (2, 0)];
    assert_eq!(Unit::new(at(0, 0), UnitType::Infantryman, 0).moves(), far);
    assert_eq!(Unit::new(at(0, 0), UnitType::Gunner, 0).moves(), cross);
    assert_eq!(Unit::new(at(0, 0), UnitType::MobileTower, 0).moves(), cross);
}

#[test]
fn shoot_offsets() {
    let cross = vec![(0, 1), (0, -1), (-1, 0), (1, 0)];
    let far = vec![(0, 1), (0, -1), (-1, 0), (1, 0), (0, 2), (0, -2), (-2, 0), (2, 0)];
    let star = vec![
        (0, 1),
        (0, -1),
        (1, 0),
        (-1, 0),
        (1, 1),
        (1, -1),
        (-1, 1),
        (-1, -1),
        (0, 2),
        (0, -2),
        (2, 0),
        (-2, 0),
        (2, 2),
        (2, -2),
        (-2, 2),
        (-2, -2),
    ];
    assert_eq!(Unit::new(at(0, 0), UnitType::Infantryman, 0).shoots(), cross);
    assert_eq!(Unit::new(at(0, 0), UnitType::Gunner, 0).shoots(), far);
    assert_eq!(Unit::new(at(0, 0), UnitType::MobileTower, 0).shoots(), star);
}

#[test]
fn a_random_unit_stands_within_its_bounds() {
    let mut rng = XorShiftRng::new_unseeded();
    let mut columns = Vec::new();
    let mut rows = Vec::new();
    let mut kinds = Vec::new();
    for _ in 0..200 {
        let unit = Unit::new_random(3, 7, 5, &mut rng, 1);
        assert!(3 <= unit.pos.x && unit.pos.x < 7);
        assert!(unit.pos.y < 5);
        assert_eq!(unit.team, 1);
        if !columns.contains(&unit.pos.x) {
            columns.push(unit.pos.x);
        }
        if !rows.contains(&unit.pos.y) {
            rows.push(unit.pos.y);
        }
        if !kinds.contains(&unit.unit_type) {
            kinds.push(unit.unit_type);
        }
    }
    assert_eq!(columns.len(), 4);
    assert_eq!(rows.len(), 5);
    assert_eq!(kinds.len(), 3);
}

#[test]
fn a_random_unit_in_a_single_cell() {
    let mut rng = XorShiftRng::new_unseeded();
    let unit = Unit::new_random(6, 7, 1, &mut rng, 0);
    assert_eq!(unit.pos, at(6, 0));
}

#[test]
fn the_units_in_the_corner_have_twelve_ten_and_sixteen_actions() {
    let count = |kind| Unit::new(at(0, 0), kind, 0).actions(10, 10, &vec![]).len();
    assert_eq!(count(UnitType::Infantryman), 12);
    assert_eq!(count(UnitType::Gunner), 10);
    assert_eq!(count(UnitType::MobileTower), 16);
}

#[test]
fn a_shot_goes_from_the_cell_moved_to() {
    let gunner = Unit::new(at(5, 5), UnitType::Gunner, 0);
    let actions = gunner.actions(10, 10, &vec![]);
    // The first move is one row up, the first shot one row up from there,
    // the second back at the cell left, the fifth two rows up.
    assert_eq!((actions[0].mv, actions[0].shoot), (at(5, 6), at(5, 7)));
    assert_eq!((actions[1].mv, actions[1].shoot), (at(5, 6), at(5, 5)));
    assert_eq!((actions[4].mv, actions[4].shoot), (at(5, 6), at(5, 8)));
}

use mission3::comparator::unit_eval_double;
use mission3::game::Game;
use mission3::montecarlo::{upper_bound, MonteCarloAI, Node};
use mission3::unit::{Action, Position, Unit, UnitType};

fn at(x: usize, y: usize) -> Position {
    Position::new(x, y)
}

/// An infantryman of side 0 in the corner, an infantryman of side 1 next to
/// it, at (1, 0).
fn corner_duel() -> Game {
    Game::new(
        10,
        10,
        vec![
            vec![Unit::new(at(0, 0), UnitType::Infantryman, 0)],
            vec![Unit::new(at(1, 0), UnitType::Infantryman, 1)],
        ],
    )
}

#[test]
fn the_confidence_in_a_child() {
    // Half the games lost: 500 thousandths. Twice 4 games: a logarithm of 3,
    // so 693000 * 3 / 2 = 1039500, of which the root is 1019.
    assert_eq!(upper_bound(1, 2, 4), 500 + 1019);
    // All games lost, one game at the child and one at the node: a
    // logarithm of 1, and the root of 693000 is 832.
    assert_eq!(upper_bound(1, 1, 1), 1000 + 832);
    // No game lost of ten, a thousand games at the node: the logarithm of
    // 2000 is 10, and the root of 693000 is 832.
    assert_eq!(upper_bound(0, 10, 1000), 832);
    assert_eq!(upper_bound(3, 10, 0), 300);
    assert_eq!(upper_bound(2, 3, 1), 666 + 480);
}

#[test]
fn the_confidence_grows_with_the_games_of_the_node() {
    let mut last = 0;
    for games in [1, 2, 4, 16, 1000, 1_000_000] {
        let bound = upper_bound(5, 10, games);
        assert!(bound > last);
        last = bound;
    }
    assert!(upper_bound(5, 10, 100) > upper_bound(50, 100, 100));
}

#[test]
fn the_confidence_of_great_numbers() {
    // The logarithm of twice the greatest number is 64 on a machine of 64
    // bits: 693000 * 64 is 44352000, of which the root is 6659.
    if usize::MAX as u128 == u64::MAX as u128 {
        assert_eq!(upper_bound(0, 1, usize::MAX), 6659);
        assert_eq!(upper_bound(usize::MAX, usize::MAX, usize::MAX), 1000);
    }
}

#[test]
fn a_new_node_has_no_game() {
    let node = Node::new(corner_duel(), 0, None);
    assert_eq!(node.games(), 0);
}

#[test]
fn the_first_action_explored_is_the_one_the_evaluator_likes_best() {
    let node = Node::new(corner_duel(), 0, None);
    let mut ai = MonteCarloAI::new(unit_eval_double());
    let shot = Action { unit: at(0, 0), mv: at(2, 0), shoot: at(1, 0) };
    assert_eq!(node.find_best(&mut ai), shot);
    let mut node = node;
    assert_eq!(node.selection(&mut ai, 0), (0, 1));
    // The only child is the state in which side 1 has no unit left: its
    // player lost the one game played.
    assert_eq!(node.get_best(), shot);
    assert_eq!(node.games(), 1);
    assert_eq!(node.weighted_score(), 1_000_000);
}

#[test]
fn every_step_counts_one_game() {
    let mut node = Node::new(corner_duel(), 1, None);
    let mut ai = MonteCarloAI::new(unit_eval_double());
    let mut wins = 0;
    let mut losses = 0;
    for step in 0..40 {
        let outcome = node.selection(&mut ai, step);
        assert!(outcome == (0, 1) || outcome == (1, 0));
        losses += outcome.0;
        wins += outcome.1;
        assert_eq!(node.games(), step + 1);
        assert_eq!(node.weighted_score(), 1_000_000 * wins / (wins + losses));
    }
    assert!(corner_duel().moves(1).contains(&node.get_best()));
}

#[test]
fn a_random_game_counts_for_the_node() {
    let mut node = Node::new(corner_duel(), 0, None);
    let mut wins = 0;
    for played in 1..6 {
        let outcome = node.random_play();
        assert!(outcome == (0, 1) || outcome == (1, 0));
        wins += outcome.1;
        assert_eq!(node.games(), played);
        assert_eq!(node.weighted_score(), 1_000_000 * wins / played);
    }
}

#[test]
fn expansion_adds_a_child() {
    let mut node = Node::new(corner_duel(), 0, None);
    let mut ai = MonteCarloAI::new(unit_eval_double());
    let outcome = node.expansion(&mut ai, 0);
    // The child's player, side 1, has lost its only unit.
    assert_eq!(outcome, (1, 0));
    assert_eq!(node.games(), 0);
    assert_eq!(node.get_best(), Action { unit: at(0, 0), mv: at(2, 0), shoot: at(1, 0) });
}

#[test]
fn a_node_without_actions_counts_a_win() {
    let game = Game::new(
        10,
        10,
        vec![vec![], vec![Unit::new(at(1, 0), UnitType::Infantryman, 1)]],
    );
    let mut node = Node::new(game, 0, None);
    let mut ai = MonteCarloAI::new(unit_eval_double());
    assert_eq!(node.ucb1_choose(&mut ai, 0), (1, 0));
    assert_eq!(node.games(), 0);
    assert_eq!(node.selection(&mut ai, 0), (0, 1));
    assert_eq!(node.games(), 1);
    assert_eq!(node.weighted_score(), 1_000_000);
}

#[test]
fn the_search_goes_down_once_all_actions_are_explored() {
    // A single unit that can only go to (0, 1), and shoot up or down from
    // there.
    let game = Game::new(
        1,
        3,
        vec![
            vec![Unit::new(at(0, 0), UnitType::Gunner, 0)],
            vec![Unit::new(at(0, 2), UnitType::Gunner, 1)],
        ],
    );
    let moves = game.moves(0);
    assert_eq!(moves.len(), 2);
    let mut node = Node::new(game, 0, None);
    let mut ai = MonteCarloAI::new(unit_eval_double());
    for step in 0..10 {
        node.selection(&mut ai, step);
        assert_eq!(node.games(), step + 1);
    }
    assert!(moves.contains(&node.get_best()));
}

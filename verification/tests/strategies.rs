use mission3::ai::AI;
use mission3::comparator::unit_eval_double;
use mission3::evaluator::{AliveUnitsEvaluator, Evaluator};
use mission3::game::Game;
use mission3::minmax::NegaMaxAI;
use mission3::montecarlo::MonteCarloAI;
use mission3::naive::NaiveAI;
use mission3::randomai::RandomAI;
use mission3::unit::{Action, Position, Unit, UnitType};

/// An evaluator that gives every state the same score.
struct Flat;

impl Evaluator for Flat {
    fn eval(&self, _game: &Game, _player: usize) -> i32 {
        0
    }
}

/// An infantryman of side 0 in the corner, an infantryman of side 1 next to
/// it, at (1, 0).
fn corner_duel() -> Game {
    Game::new(
        10,
        10,
        vec![
            vec![Unit::new(Position::new(0, 0), UnitType::Infantryman, 0)],
            vec![Unit::new(Position::new(1, 0), UnitType::Infantryman, 1)],
        ],
    )
}

fn action(unit: (usize, usize), mv: (usize, usize), shoot: (usize, usize)) -> Action {
    Action {
        unit: Position::new(unit.0, unit.1),
        mv: Position::new(mv.0, mv.1),
        shoot: Position::new(shoot.0, shoot.1),
    }
}

#[test]
fn naive_with_a_constant_evaluator_takes_the_first_action() {
    let game = corner_duel();
    let mut ai = NaiveAI::new(Box::new(Flat));
    let chosen = ai.play(&game, 0);
    assert_eq!(chosen, game.moves(0)[0]);
    assert_eq!(chosen, action((0, 0), (0, 1), (0, 2)));
}

#[test]
fn naive_with_zero_weights_takes_the_first_action() {
    let game = corner_duel();
    let mut ai = NaiveAI::new(Box::new(AliveUnitsEvaluator::new(0, 0, 0)));
    assert_eq!(ai.play(&game, 1), game.moves(1)[0]);
}

#[test]
fn naive_takes_the_first_of_the_best_actions() {
    let game = corner_duel();
    let mut ai = NaiveAI::new(unit_eval_double());
    // The enemy at (1, 0) can only be shot from (2, 0): the eighth action.
    assert_eq!(ai.play(&game, 0), action((0, 0), (2, 0), (1, 0)));
    assert_eq!(game.moves(0)[7], action((0, 0), (2, 0), (1, 0)));
}

#[test]
fn naive_eval_is_the_evaluator_s_score() {
    let game = corner_duel();
    let ai = NaiveAI::new(Box::new(AliveUnitsEvaluator::new(5, 2, 3)));
    assert_eq!(ai.eval(&game, 0), 2);
}

#[test]
fn negamax_at_depth_zero_plays_as_naive_does() {
    let game = corner_duel();
    for player in 0..2 {
        let mut naive = NaiveAI::new(unit_eval_double());
        let mut negamax = NegaMaxAI::new(0, unit_eval_double());
        assert_eq!(negamax.play(&game, player), naive.play(&game, player));
    }
}

#[test]
fn negamax_values() {
    let game = corner_duel();
    let ai = NegaMaxAI::new(2, unit_eval_double());
    // One unit each: the sides are level.
    assert_eq!(ai.eval(&game, 0, 0), 0);
    // Side 0 can shoot the only enemy unit.
    assert_eq!(ai.eval(&game, 0, 1), 1);
    assert_eq!(ai.eval(&game, 0, 2), 1);
    // Side 1 cannot reach the corner, and does best not to shoot itself.
    assert_eq!(ai.eval(&game, 1, 1), 0);
}

#[test]
fn negamax_scores_a_side_that_cannot_act_with_the_evaluator() {
    let game = Game::new(
        10,
        10,
        vec![vec![], vec![Unit::new(Position::new(1, 0), UnitType::Infantryman, 1)]],
    );
    let ai = NegaMaxAI::new(3, unit_eval_double());
    assert_eq!(ai.eval(&game, 0, 3), -1);
}

#[test]
fn negamax_looks_ahead() {
    let game = corner_duel();
    let mut ai = NegaMaxAI::new(2, unit_eval_double());
    assert_eq!(ai.play(&game, 0), action((0, 0), (2, 0), (1, 0)));
    let mut ai = NegaMaxAI::new(1, Box::new(Flat));
    assert_eq!(ai.play(&game, 0), action((0, 0), (0, 1), (0, 2)));
}

#[test]
fn negamax_avoids_the_cell_under_fire() {
    // Side 0 cannot reach the gunner at (0, 4). The gunner can go to (0, 3)
    // and shoot from there at (0, 1) and (0, 2): the first action of side 0
    // that neither goes there nor shoots its own unit goes to (1, 0).
    let game = Game::new(
        10,
        10,
        vec![
            vec![Unit::new(Position::new(0, 0), UnitType::Infantryman, 0)],
            vec![Unit::new(Position::new(0, 4), UnitType::Gunner, 1)],
        ],
    );
    let mut ai = NegaMaxAI::new(2, unit_eval_double());
    let chosen = ai.play(&game, 0);
    assert_eq!(chosen, action((0, 0), (1, 0), (1, 1)));
    let mut short = NegaMaxAI::new(1, unit_eval_double());
    assert_eq!(short.play(&game, 0), action((0, 0), (0, 1), (0, 2)));
}

#[test]
fn random_ai_returns_an_action_that_is_open() {
    let game = corner_duel();
    let mut ai = RandomAI::new();
    let moves = game.moves(0);
    let mut seen = Vec::new();
    for _ in 0..50 {
        let chosen = ai.play(&game, 0);
        assert!(moves.contains(&chosen));
        if !seen.contains(&chosen) {
            seen.push(chosen);
        }
    }
    assert!(seen.len() > 1);
}

#[test]
fn random_ais_draw_the_same_numbers() {
    let game = corner_duel();
    let mut one = RandomAI::new();
    let mut two = RandomAI::new();
    for _ in 0..20 {
        assert_eq!(one.play(&game, 0), two.play(&game, 0));
    }
}

#[test]
fn monte_carlo_returns_an_action_that_is_open() {
    let game = corner_duel();
    let mut ai = MonteCarloAI::new(unit_eval_double());
    let chosen = ai.play(&game, 0);
    assert!(game.moves(0).contains(&chosen));
    assert_eq!(ai.eval(&game, 0), 0);
}

#[test]
fn a_strategy_takes_an_evaluator_behind_a_trait_object() {
    let game = corner_duel();
    let evaluator: Box<dyn Evaluator> = Box::new(Flat);
    let mut ai = NaiveAI::new(evaluator);
    assert_eq!(ai.play(&game, 0), game.moves(0)[0]);
    let evaluator: Box<dyn Evaluator> = unit_eval_double();
    let mut ai = NegaMaxAI::new(1, evaluator);
    assert_eq!(ai.play(&game, 0), action((0, 0), (2, 0), (1, 0)));
}

#[test]
fn with_an_evaluator_of_one_side_only_negamax_and_naive_part() {
    let game = corner_duel();
    // Counting its own units only, the naive strategy sees no difference
    // between the actions; negamax takes the enemy's loss for its gain.
    let mut naive = NaiveAI::new(Box::new(AliveUnitsEvaluator::new(1, 1, 1)));
    let mut negamax = NegaMaxAI::new(0, Box::new(AliveUnitsEvaluator::new(1, 1, 1)));
    assert_eq!(naive.play(&game, 0), action((0, 0), (0, 1), (0, 2)));
    assert_eq!(negamax.play(&game, 0), action((0, 0), (2, 0), (1, 0)));
}

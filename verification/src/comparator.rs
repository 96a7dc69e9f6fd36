//! Lists of strategies with different evaluators, to compare them.
use crate::ai::AI;
use crate::evaluator::{
    bounded, total, worth, AliveUnitsEvaluator, CombinedEvaluator, Evaluator, Held,
    InfluenceEvaluator,
};
use crate::minmax::{lemma_depth_zero_is_naive, negamax_choice};
use crate::naive::{naive_choice, NaiveAI};
use crate::state::GameView;
use vstd::prelude::*;

verus! {

/// A strategy with a name.
pub struct EvaluableAI<A: AI + ?Sized> {
    name: String,
    ai: Box<A>,
}

impl<A: AI + ?Sized> EvaluableAI<A> {
    /// The name of the strategy.
    pub closed spec fn label(&self) -> Seq<char> {
        self.name@
    }

    /// The strategy.
    pub closed spec fn strategy(&self) -> Box<A> {
        self.ai
    }

    pub fn new(ai: Box<A>, name: String) -> (named: Self)
        ensures
            named.label() == name@,
            named.strategy() == ai,
    {
        EvaluableAI { name, ai }
    }

    /// The strategy, to play with.
    pub fn ai_mut(&mut self) -> (ai: &mut A)
        ensures
            &*ai == &*old(self).strategy(),
            &*final(self).strategy() == &*final(ai),
            final(self).label() == old(self).label(),
    {
        &mut self.ai
    }

    /// The name of the strategy.
    pub fn name(&self) -> (name: &String)
        ensures
            name@ == self.label(),
    {
        &self.name
    }
}

/// The number of cells at which `player` can shoot, as a score.
pub open spec fn influence(game: GameView, player: int) -> int {
    bounded(InfluenceEvaluator::reach(game.legal_actions(player)).len() as int)
}

/// The sum of the weights of the units of `player`, as a score. The weights
/// are those of a tower, an infantryman and a gunner.
pub open spec fn strength(weights: (usize, usize, usize), game: GameView, player: int) -> int {
    bounded(worth(weights, game.players[player]))
}

/// The cells at which the player can shoot, less those at which the
/// opponent can.
pub open spec fn influence_margin(game: GameView, player: int) -> int {
    bounded(influence(game, player) - influence(game, 1 - player))
}

/// The units of the player, less those of the opponent.
pub open spec fn unit_margin(game: GameView, player: int) -> int {
    bounded(strength((1, 1, 1), game, player) - strength((1, 1, 1), game, 1 - player))
}

/// Ten for each unit and one for each cell under fire, the player's less
/// the opponent's.
pub open spec fn combined_margin(game: GameView, player: int) -> int {
    bounded(
        strength((10, 10, 10), game, player) + influence(game, player) - (strength(
            (10, 10, 10),
            game,
            1 - player,
        ) + influence(game, 1 - player)),
    )
}

/// The names of the six heuristics that are compared, in order.
pub open spec fn heuristic_name(index: int) -> Seq<char> {
    if index == 0 {
        "double sided influence"@
    } else if index == 1 {
        "simple sided influence"@
    } else if index == 2 {
        "unit counting without coef"@
    } else if index == 3 {
        "unit counting with coef"@
    } else if index == 4 {
        "double unit counting with coef"@
    } else {
        "all combined"@
    }
}

/// The scores of the six heuristics that are compared, in order.
pub open spec fn heuristic_score(index: int, game: GameView, player: int) -> int {
    if index == 0 {
        influence_margin(game, player)
    } else if index == 1 {
        influence(game, player)
    } else if index == 2 {
        strength((1, 1, 1), game, player)
    } else if index == 3 {
        strength((5, 1, 3), game, player)
    } else if index == 4 {
        unit_margin(game, player)
    } else {
        combined_margin(game, player)
    }
}

/// Whether `evaluator` scores as the heuristic at place `index` does.
pub open spec fn is_heuristic<E: Evaluator + ?Sized>(evaluator: Box<E>, index: int) -> bool {
    forall|game: GameView, player: int|
        #[trigger] evaluator.score(game, player) == heuristic_score(index, game, player)
}

/// All the heuristics that are compared, each with its name.
pub fn get_all_evals() -> (evals: Vec<(Held<dyn Evaluator>, String)>)
    ensures
        evals@.len() == 6,
        forall|i: int|
            0 <= i < 6 ==> is_heuristic((#[trigger] evals@[i]).0.evaluator, i) && evals@[i].1@
                == heuristic_name(i),
{
    let mut evals: Vec<(Held<dyn Evaluator>, String)> = Vec::new();
    let held = Held { evaluator: influence_eval_double() };
    evals.push((held, "double sided influence".to_string()));
    let held = Held { evaluator: influence_eval_simple() };
    evals.push((held, "simple sided influence".to_string()));
    let held = Held { evaluator: unit_eval_same() };
    evals.push((held, "unit counting without coef".to_string()));
    let held = Held { evaluator: unit_eval_coef() };
    evals.push((held, "unit counting with coef".to_string()));
    let held = Held { evaluator: unit_eval_double() };
    evals.push((held, "double unit counting with coef".to_string()));
    let held = Held { evaluator: all_combined() };
    evals.push((held, "all combined".to_string()));
    evals
}

/// A naive strategy for each of the heuristics that are compared, under the
/// name of the heuristic.
pub fn get_all_naives() -> (naives: Vec<EvaluableAI<NaiveAI<dyn Evaluator>>>)
    ensures
        naives@.len() == 6,
        forall|i: int|
            0 <= i < 6 ==> is_heuristic((#[trigger] naives@[i]).strategy().evaluator(), i)
                && naives@[i].label() == heuristic_name(i),
{
    let mut evals = get_all_evals();
    let mut naives: Vec<EvaluableAI<NaiveAI<dyn Evaluator>>> = Vec::new();
    while evals.len() > 0
        invariant
            naives@.len() + evals@.len() == 6,
            forall|i: int|
                0 <= i < naives@.len() ==> is_heuristic(
                    (#[trigger] naives@[i]).strategy().evaluator(),
                    i,
                ) && naives@[i].label() == heuristic_name(i),
            forall|i: int|
                0 <= i < evals@.len() ==> is_heuristic(
                    (#[trigger] evals@[i]).0.evaluator,
                    naives@.len() + i,
                ) && evals@[i].1@ == heuristic_name(naives@.len() + i),
        decreases evals.len(),
    {
        let (eval, s) = evals.remove(0);
        let naive = NaiveAI::new(eval.evaluator);
        let named = EvaluableAI::new(Box::new(naive), s);
        naives.push(named);
    }
    naives
}

/// The sum of the scores of a list of one evaluator.
proof fn lemma_total_one(list: Seq<Held<dyn Evaluator>>, game: GameView, player: int)
    requires
        list.len() == 1,
    ensures
        total(list, game, player) == list.last().evaluator.score(game, player),
{
    reveal_with_fuel(total, 2);
}

/// The sum of the scores of a list of two evaluators.
proof fn lemma_total_two(list: Seq<Held<dyn Evaluator>>, game: GameView, player: int)
    requires
        list.len() == 2,
    ensures
        total(list, game, player) == list.drop_last().last().evaluator.score(game, player)
            + list.last().evaluator.score(game, player),
{
    lemma_total_one(list.drop_last(), game, player);
}

/// The range covered by our units.
pub fn influence_eval_simple() -> (evaluator: Box<dyn Evaluator>)
    ensures
        forall|game: GameView, player: int|
            #[trigger] evaluator.score(game, player) == influence(game, player),
{
    return Box::new(InfluenceEvaluator::new());
}

/// The range covered by our units minus the range of the enemy's units.
pub fn influence_eval_double() -> (evaluator: Box<dyn Evaluator>)
    ensures
        forall|game: GameView, player: int|
            #[trigger] evaluator.score(game, player) == influence_margin(game, player),
{
    let mut influence_eval_double = CombinedEvaluator::new();
    influence_eval_double
        .use_ally(Box::new(InfluenceEvaluator::new()))
        .use_ennemy(Box::new(InfluenceEvaluator::new()));
    proof {
        assert forall|game: GameView, player: int|
            #[trigger] influence_eval_double.score(game, player) == influence_margin(
                game,
                player,
            ) by {
            lemma_total_one(influence_eval_double.allies(), game, player);
            lemma_total_one(influence_eval_double.enemies(), game, 1 - player);
        }
    }
    return Box::new(influence_eval_double);
}

/// Counts the units still alive, a tower as 5 and a gunner as 3.
pub fn unit_eval_coef() -> (evaluator: Box<dyn Evaluator>)
    ensures
        forall|game: GameView, player: int|
            #[trigger] evaluator.score(game, player) == strength((5, 1, 3), game, player),
{
    return Box::new(AliveUnitsEvaluator::new(5, 1, 3));
}

/// Counts how many of our units are still alive.
pub fn unit_eval_same() -> (evaluator: Box<dyn Evaluator>)
    ensures
        forall|game: GameView, player: int|
            #[trigger] evaluator.score(game, player) == strength((1, 1, 1), game, player),
{
    return Box::new(AliveUnitsEvaluator::new(1, 1, 1));
}

/// Counts how many of our units are still alive, minus those of the enemy.
pub fn unit_eval_double() -> (evaluator: Box<dyn Evaluator>)
    ensures
        forall|game: GameView, player: int|
            #[trigger] evaluator.score(game, player) == unit_margin(game, player),
{
    let mut unit_eval_double = CombinedEvaluator::new();
    unit_eval_double
        .use_ally(Box::new(AliveUnitsEvaluator::new(1, 1, 1)))
        .use_ennemy(Box::new(AliveUnitsEvaluator::new(1, 1, 1)));
    proof {
        assert forall|game: GameView, player: int|
            #[trigger] unit_eval_double.score(game, player) == unit_margin(game, player) by {
            lemma_total_one(unit_eval_double.allies(), game, player);
            lemma_total_one(unit_eval_double.enemies(), game, 1 - player);
        }
    }
    return Box::new(unit_eval_double);
}

/// Units and range together, ours minus the enemy's, a unit counting as ten
/// cells.
pub fn all_combined() -> (evaluator: Box<dyn Evaluator>)
    ensures
        forall|game: GameView, player: int|
            #[trigger] evaluator.score(game, player) == combined_margin(game, player),
{
    let mut unit_eval_double = CombinedEvaluator::new();
    unit_eval_double
        .use_ally(Box::new(AliveUnitsEvaluator::new(10, 10, 10)))
        .use_ennemy(Box::new(AliveUnitsEvaluator::new(10, 10, 10)))
        .use_ally(Box::new(InfluenceEvaluator::new()))
        .use_ennemy(Box::new(InfluenceEvaluator::new()));
    proof {
        assert forall|game: GameView, player: int|
            #[trigger] unit_eval_double.score(game, player) == combined_margin(game, player) by {
            lemma_total_two(unit_eval_double.allies(), game, player);
            lemma_total_two(unit_eval_double.enemies(), game, 1 - player);
        }
    }
    return Box::new(unit_eval_double);
}

/// The three heuristics that subtract the opponent's score from the
/// player's give the two sides opposite scores.
pub proof fn lemma_margins_antisymmetric(game: GameView, player: int)
    requires
        0 <= player < 2,
    ensures
        influence_margin(game, player) == -influence_margin(game, 1 - player),
        unit_margin(game, player) == -unit_margin(game, 1 - player),
        combined_margin(game, player) == -combined_margin(game, 1 - player),
{
}

/// With one of the three heuristics that subtract the opponent's score from
/// the player's, the negamax strategy of depth 0 takes the action that the
/// naive strategy takes.
pub proof fn lemma_depth_zero_is_naive_with_margin<E: Evaluator + ?Sized>(
    evaluator: Box<E>,
    index: int,
    game: GameView,
    player: int,
)
    requires
        0 <= player < 2,
        index == 0 || index == 4 || index == 5,
        is_heuristic(evaluator, index),
    ensures
        negamax_choice(evaluator, game, player, 0) == naive_choice(evaluator, game, player),
{
    assert forall|i: int| 0 <= i < game.legal_actions(player).len() implies evaluator.score(
        #[trigger] game.apply(game.legal_actions(player)[i]),
        player,
    ) == -evaluator.score(game.apply(game.legal_actions(player)[i]), 1 - player) by {
        lemma_margins_antisymmetric(game.apply(game.legal_actions(player)[i]), player);
    }
    lemma_depth_zero_is_naive(evaluator, game, player);
}

} // verus!

//! Scores of a battle from one side's point of view.
use crate::game::Game;
use crate::state::GameView;
use crate::unit::{Action, Position, Unit, UnitType};
use vstd::prelude::*;

verus! {

/// `value`, held within the range of scores: from `-i32::MAX` to `i32::MAX`.
pub open spec fn bounded(value: int) -> int {
    if value > i32::MAX {
        i32::MAX as int
    } else if value < -i32::MAX {
        -i32::MAX
    } else {
        value
    }
}

/// A way to score a battle for one side. The score depends on the state
/// and the player alone: an evaluator has no memory.
pub trait Evaluator {
    /// The score of `game` for `player`. Each evaluator of this library
    /// says here what it computes, and its `eval` is proved to compute it.
    /// The body below is there so that an evaluator written in unverified
    /// code need give nothing but `eval`; nothing is proved of such an
    /// evaluator, and no proof of this library rests on the body.
    open spec fn score(&self, game: GameView, player: int) -> int {
        0
    }

    /// Given a game and a player, returns a score. A score is never
    /// `i32::MIN`, so that it can always be negated.
    fn eval(&self, game: &Game, player: usize) -> (score: i32)
        requires
            game@.wf(),
            player < 2,
        ensures
            score == self.score(game@, player as int),
            score > i32::MIN,
    ;
}

/// Counts the units alive on a side, each kind with its own weight.
pub struct AliveUnitsEvaluator {
    /// The value of a tower.
    tower: usize,
    /// The value of an infantryman.
    infantry: usize,
    /// The value of a gunner.
    gunner: usize,
}

/// The weight that `weights`, given for a tower, an infantryman and a
/// gunner, gives to a unit of the given kind.
pub open spec fn weight(weights: (usize, usize, usize), kind: UnitType) -> int {
    match kind {
        UnitType::MobileTower => weights.0 as int,
        UnitType::Infantryman => weights.1 as int,
        UnitType::Gunner => weights.2 as int,
    }
}

/// The sum of the weights of the given units.
pub open spec fn worth(weights: (usize, usize, usize), units: Seq<Unit>) -> int
    decreases units.len(),
{
    if units.len() == 0 {
        0
    } else {
        worth(weights, units.drop_last()) + weight(weights, units.last().unit_type)
    }
}

impl AliveUnitsEvaluator {
    /// The weights of a tower, an infantryman and a gunner.
    pub closed spec fn weights(&self) -> (usize, usize, usize) {
        (self.tower, self.infantry, self.gunner)
    }

    /// Creates an evaluator from the values of the three kinds of units.
    pub fn new(tower: usize, infantry: usize, gunner: usize) -> (evaluator: Self)
        ensures
            evaluator.weights() == (tower, infantry, gunner),
    {
        AliveUnitsEvaluator { tower, infantry, gunner }
    }
}

impl Evaluator for AliveUnitsEvaluator {
    open spec fn score(&self, game: GameView, player: int) -> int {
        bounded(worth(self.weights(), game.players[player]))
    }

    /// Sums the values of the player's units. A sum above `i32::MAX` counts
    /// as `i32::MAX`.
    fn eval(&self, game: &Game, player: usize) -> (score: i32) {
        let units = game.player(player);
        let ghost weights = self.weights();
        let mut sum: u128 = 0;
        let mut i: usize = 0;
        while i < units.len()
            invariant
                i <= units.len(),
                weights == self.weights(),
                0 <= worth(weights, units@.take(i as int)),
                sum == bounded(worth(weights, units@.take(i as int))),
            decreases units.len() - i,
        {
            let value = match units[i].unit_type {
                UnitType::Infantryman => self.infantry,
                UnitType::MobileTower => self.tower,
                UnitType::Gunner => self.gunner,
            };
            assert(units@.take(i + 1).drop_last() =~= units@.take(i as int));
            sum = sum + value as u128;
            if sum > i32::MAX as u128 {
                sum = i32::MAX as u128;
            }
            i += 1;
        }
        assert(units@.take(units.len() as int) =~= units@);
        sum as i32
    }
}

/// Counts the cells at which a side can shoot.
pub struct InfluenceEvaluator {}

/// The cell that an action shoots at.
pub open spec fn aim() -> spec_fn(Action) -> Position {
    |action: Action| action.shoot
}

impl InfluenceEvaluator {
    /// The cells that the given actions shoot at.
    pub open spec fn reach(actions: Seq<Action>) -> Set<Position> {
        actions.map_values(aim()).to_set()
    }

    /// Creates an influence evaluator.
    pub fn new() -> (evaluator: Self)
        ensures
            evaluator == (InfluenceEvaluator {  }),
    {
        InfluenceEvaluator {  }
    }
}

impl Evaluator for InfluenceEvaluator {
    open spec fn score(&self, game: GameView, player: int) -> int {
        bounded(InfluenceEvaluator::reach(game.legal_actions(player)).len() as int)
    }

    /// Counts the cells that the player's actions can shoot at, each cell
    /// once. A count above `i32::MAX` counts as `i32::MAX`.
    fn eval(&self, game: &Game, player: usize) -> (score: i32) {
        let actions = game.moves(player);
        let mut targets: Vec<Position> = Vec::new();
        let mut i: usize = 0;
        while i < actions.len()
            invariant
                i <= actions.len(),
                targets@.no_duplicates(),
                targets@.to_set() == InfluenceEvaluator::reach(actions@.take(i as int)),
            decreases actions.len() - i,
        {
            let cell = actions[i].shoot;
            let ghost seen = targets@;
            proof {
                actions@.lemma_map_take_succ(aim(), i as int);
                actions@.take(i as int).map_values(aim()).lemma_push_to_set_commute(cell);
            }
            if !is_among(&targets, cell) {
                targets.push(cell);
                proof {
                    seen.lemma_push_to_set_commute(cell);
                }
            } else {
                assert(seen.to_set().insert(cell) =~= seen.to_set());
            }
            i += 1;
        }
        proof {
            assert(actions@.take(actions.len() as int) =~= actions@);
            targets@.unique_seq_to_set();
        }
        if targets.len() > i32::MAX as usize {
            i32::MAX
        } else {
            targets.len() as i32
        }
    }
}

/// An evaluator of any kind, as it is held in the lists of a
/// `CombinedEvaluator`, or beside its name in a list of heuristics.
pub struct Held<E: Evaluator + ?Sized> {
    pub evaluator: Box<E>,
}

/// Combines evaluators: the scores of some count for the player, the scores
/// that others give to the opponent count against. Any evaluator can be
/// given, a combined one too.
pub struct CombinedEvaluator {
    ally_combined: Vec<Held<dyn Evaluator>>,
    ennemy_combined: Vec<Held<dyn Evaluator>>,
}

/// The sum of the scores that the given evaluators give to `game` for
/// `player`.
pub open spec fn total(evaluators: Seq<Held<dyn Evaluator>>, game: GameView, player: int) -> int
    decreases evaluators.len(),
{
    if evaluators.len() == 0 {
        0
    } else {
        total(evaluators.drop_last(), game, player) + evaluators.last().evaluator.score(
            game,
            player,
        )
    }
}

impl CombinedEvaluator {
    /// The evaluators that score the player, in the order in which they
    /// were given.
    pub closed spec fn allies(&self) -> Seq<Held<dyn Evaluator>> {
        self.ally_combined@
    }

    /// The evaluators that score the opponent, in the order in which they
    /// were given.
    pub closed spec fn enemies(&self) -> Seq<Held<dyn Evaluator>> {
        self.ennemy_combined@
    }

    /// Creates a combined evaluator that holds no evaluator yet.
    pub fn new() -> (evaluator: Self)
        ensures
            evaluator.allies() == Seq::<Held<dyn Evaluator>>::empty(),
            evaluator.enemies() == Seq::<Held<dyn Evaluator>>::empty(),
    {
        CombinedEvaluator { ally_combined: Vec::new(), ennemy_combined: Vec::new() }
    }

    /// Uses an evaluator for the player: it comes last among the allies, and
    /// scores there as `eval` does.
    pub fn use_ally(&mut self, eval: Box<dyn Evaluator>) -> (this: &mut Self)
        ensures
            *final(self) == *final(this),
            this.allies().len() == old(self).allies().len() + 1,
            this.allies().drop_last() == old(self).allies(),
            forall|game: GameView, player: int|
                #[trigger] this.allies().last().evaluator.score(game, player) == eval.score(
                    game,
                    player,
                ),
            this.enemies() == old(self).enemies(),
    {
        let held = Held { evaluator: eval };
        self.ally_combined.push(held);
        assert(self.allies().drop_last() =~= old(self).allies());
        self
    }

    /// Uses an evaluator for the opponent: it comes last among the enemies,
    /// and scores there as `eval` does.
    pub fn use_ennemy(&mut self, eval: Box<dyn Evaluator>) -> (this: &mut Self)
        ensures
            *final(self) == *final(this),
            this.enemies().len() == old(self).enemies().len() + 1,
            this.enemies().drop_last() == old(self).enemies(),
            forall|game: GameView, player: int|
                #[trigger] this.enemies().last().evaluator.score(game, player) == eval.score(
                    game,
                    player,
                ),
            this.allies() == old(self).allies(),
    {
        let held = Held { evaluator: eval };
        self.ennemy_combined.push(held);
        assert(self.enemies().drop_last() =~= old(self).enemies());
        self
    }
}

fn sum_scores(evaluators: &Vec<Held<dyn Evaluator>>, game: &Game, player: usize) -> (sum: i128)
    requires
        game@.wf(),
        player < 2,
    ensures
        sum == total(evaluators@, game@, player as int),
        -(evaluators@.len() * 0x8000_0000) <= sum <= evaluators@.len() * 0x8000_0000,
{
    let mut sum: i128 = 0;
    let mut i: usize = 0;
    while i < evaluators.len()
        invariant
            i <= evaluators.len(),
            game@.wf(),
            player < 2,
            sum == total(evaluators@.take(i as int), game@, player as int),
            -(i * 0x8000_0000) <= sum <= i * 0x8000_0000,
        decreases evaluators.len() - i,
    {
        assert(evaluators@.take(i + 1).drop_last() =~= evaluators@.take(i as int));
        let score = evaluators[i].evaluator.eval(game, player);
        sum = sum + score as i128;
        i += 1;
    }
    assert(evaluators@.take(evaluators.len() as int) =~= evaluators@);
    sum
}

impl Evaluator for CombinedEvaluator {
    open spec fn score(&self, game: GameView, player: int) -> int {
        bounded(total(self.allies(), game, player) - total(self.enemies(), game, 1 - player))
    }

    /// Adds the scores for the player and subtracts the scores for the
    /// opponent. A result outside the range of scores counts as the nearest
    /// bound.
    fn eval(&self, game: &Game, player: usize) -> (score: i32) {
        let gain = sum_scores(&self.ally_combined, game, player);
        let loss = sum_scores(&self.ennemy_combined, game, 1 - player);
        assert(self.ally_combined.len() <= u64::MAX && self.ennemy_combined.len() <= u64::MAX);
        let sum = gain - loss;
        if sum > i32::MAX as i128 {
            i32::MAX
        } else if sum < -(i32::MAX as i128) {
            -i32::MAX
        } else {
            sum as i32
        }
    }
}

/// A combined evaluator that holds no evaluator scores every state 0, and a
/// list without evaluators adds nothing to a score.
pub proof fn lemma_empty_lists(evaluator: CombinedEvaluator, game: GameView, player: int)
    ensures
        evaluator.allies().len() == 0 ==> total(evaluator.allies(), game, player) == 0,
        evaluator.enemies().len() == 0 ==> total(evaluator.enemies(), game, 1 - player) == 0,
        evaluator.allies().len() == 0 && evaluator.enemies().len() == 0 ==> evaluator.score(
            game,
            player,
        ) == 0,
{
}

/// A combined evaluator whose two lists give equal sums scores the two sides
/// with opposite numbers.
pub proof fn lemma_combined_antisymmetric(evaluator: CombinedEvaluator, game: GameView, player: int)
    requires
        0 <= player < 2,
        forall|side: int|
            0 <= side < 2 ==> total(evaluator.allies(), game, side) == total(
                evaluator.enemies(),
                game,
                side,
            ),
    ensures
        evaluator.score(game, player) == -evaluator.score(game, 1 - player),
{
}

fn is_among(cells: &Vec<Position>, cell: Position) -> (found: bool)
    ensures
        found == cells@.contains(cell),
{
    let mut i: usize = 0;
    while i < cells.len()
        invariant
            i <= cells.len(),
            forall|k: int| 0 <= k < i ==> cells@[k] != cell,
        decreases cells.len() - i,
    {
        if cells[i] == cell {
            return true;
        }
        i += 1;
    }
    false
}

} // verus!

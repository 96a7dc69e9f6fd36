//! A strategy that looks one action ahead and takes the action whose outcome
//! scores best.
use crate::ai::AI;
use crate::evaluator::Evaluator;
use crate::game::Game;
use crate::maxima::{as_ints, first_greatest, first_max, is_first_max, lemma_first_max};
use crate::state::{lemma_apply_legal, GameView};
use crate::unit::Action;
use vstd::prelude::*;

verus! {

/// For each action open to `player`, in order, the score that `evaluator`
/// gives `player` in the state after the action.
pub open spec fn outlooks<E: Evaluator + ?Sized>(evaluator: Box<E>, game: GameView, player: int)
    -> Seq<int> {
    Seq::new(
        game.legal_actions(player).len(),
        |i: int| evaluator.score(game.apply(game.legal_actions(player)[i]), player),
    )
}

/// The action with the best outlook, the first of them if several are best.
pub open spec fn naive_choice<E: Evaluator + ?Sized>(
    evaluator: Box<E>,
    game: GameView,
    player: int,
) -> Action {
    game.legal_actions(player)[first_max(outlooks(evaluator, game, player))]
}

/// The naive strategy.
pub struct NaiveAI<E: Evaluator + ?Sized> {
    evaluator: Box<E>,
}

impl<E: Evaluator + ?Sized> NaiveAI<E> {
    /// The evaluator that the strategy scores states with.
    pub closed spec fn evaluator(&self) -> Box<E> {
        self.evaluator
    }

    /// Creates a naive strategy around an evaluator.
    pub fn new(eval: Box<E>) -> (ai: Self)
        ensures
            ai.evaluator() == eval,
    {
        NaiveAI { evaluator: eval }
    }

    /// Scores the state of the game for the player.
    pub fn eval(&self, game: &Game, player: usize) -> (score: i32)
        requires
            game@.wf(),
            player < 2,
        ensures
            score == self.evaluator().score(game@, player as int),
            score > i32::MIN,
    {
        self.evaluator.eval(game, player)
    }
}

impl<E: Evaluator + ?Sized> AI for NaiveAI<E> {
    /// Tries every action open to the player, scores the state it leads to,
    /// and returns the action with the greatest score: the first such action.
    fn play(&mut self, game: &Game, player: usize) -> (action: Action)
        ensures
            action == naive_choice(old(self).evaluator(), game@, player as int),
            final(self).evaluator() == old(self).evaluator(),
    {
        let moves = game.moves(player);
        let mut scores: Vec<i128> = Vec::new();
        let mut i: usize = 0;
        while i < moves.len()
            invariant
                i <= moves.len(),
                game@.wf(),
                player < 2,
                moves@ == game@.legal_actions(player as int),
                self.evaluator() == old(self).evaluator(),
                scores@.len() == i,
                forall|k: int|
                    0 <= k < i ==> (#[trigger] scores@[k]) == outlooks(
                        self.evaluator(),
                        game@,
                        player as int,
                    )[k],
            decreases moves.len() - i,
        {
            let mut g = game.clone();
            proof {
                assert(game@.legal_actions(player as int).contains(moves@[i as int]));
                lemma_apply_legal(game@, player as int, moves@[i as int]);
            }
            g.apply_move(&moves[i]);
            scores.push(self.eval(&g, player) as i128);
            i += 1;
        }
        assert(as_ints(scores@) =~= outlooks(self.evaluator(), game@, player as int));
        moves[first_greatest(&scores)]
    }
}

/// An evaluator that gives the same score to every state that an action of
/// `player` leads to makes the naive strategy take the first action.
pub proof fn lemma_naive_constant<E: Evaluator + ?Sized>(
    evaluator: Box<E>,
    game: GameView,
    player: int,
)
    requires
        game.legal_actions(player).len() > 0,
        forall|i: int, j: int|
            0 <= i < game.legal_actions(player).len() && 0 <= j < game.legal_actions(player).len()
                ==> evaluator.score(game.apply(game.legal_actions(player)[i]), player)
                == evaluator.score(game.apply(game.legal_actions(player)[j]), player),
    ensures
        naive_choice(evaluator, game, player) == game.legal_actions(player)[0],
{
    let scores = outlooks(evaluator, game, player);
    lemma_first_max(scores);
    assert(is_first_max(scores, 0)) by {
        assert forall|k: int| 0 <= k < scores.len() implies #[trigger] scores[k] <= scores[0] by {
            assert(scores[k] == evaluator.score(game.apply(game.legal_actions(player)[k]), player));
            assert(scores[0] == evaluator.score(game.apply(game.legal_actions(player)[0]), player));
        }
    }
}

} // verus!

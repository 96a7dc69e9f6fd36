//! A strategy that searches the tree of actions to a fixed depth, scoring
//! each side's best reply as the opposite of the other side's.
use crate::ai::AI;
use crate::evaluator::Evaluator;
use crate::game::Game;
use crate::maxima::{as_ints, first_greatest, first_max};
use crate::naive::{naive_choice, outlooks};
use crate::state::{lemma_apply_legal, GameView};
use crate::unit::Action;
use vstd::prelude::*;

verus! {

/// The value of `game` for `player`, who is to act, searched `depth` actions
/// deep: the evaluator's score at depth 0 or when the player cannot act, else
/// the greatest value among the player's actions.
pub open spec fn negamax<E: Evaluator + ?Sized>(
    evaluator: Box<E>,
    game: GameView,
    player: int,
    depth: nat,
) -> int
    decreases depth, 0nat,
{
    if depth == 0 || game.legal_actions(player).len() == 0 {
        evaluator.score(game, player)
    } else {
        let values = replies(evaluator, game, player, (depth - 1) as nat);
        values[first_max(values)]
    }
}

/// For each action open to `player`, in order, its value for `player`: the
/// opposite of the value that the state after the action has for the
/// opponent, searched `depth` actions deep.
pub open spec fn replies<E: Evaluator + ?Sized>(
    evaluator: Box<E>,
    game: GameView,
    player: int,
    depth: nat,
) -> Seq<int>
    decreases depth, 1nat,
{
    Seq::new(
        game.legal_actions(player).len(),
        |i: int| -negamax(evaluator, game.apply(game.legal_actions(player)[i]), 1 - player, depth),
    )
}

/// The depth to which the states after the first action are searched by a
/// strategy of the given depth.
pub open spec fn reply_depth(depth: nat) -> nat {
    if depth == 0 {
        0
    } else {
        (depth - 1) as nat
    }
}

/// The action that a strategy of the given depth takes: the one of greatest
/// value, the first of them if several are.
pub open spec fn negamax_choice<E: Evaluator + ?Sized>(
    evaluator: Box<E>,
    game: GameView,
    player: int,
    depth: nat,
) -> Action {
    game.legal_actions(player)[first_max(replies(evaluator, game, player, reply_depth(depth)))]
}

/// The negamax strategy. It takes the value of a state for one side to be
/// the opposite of its value for the other, so it plays well only with an
/// evaluator that scores the two sides with opposite numbers, as a
/// `CombinedEvaluator` with the same evaluators in its two lists does. With
/// an evaluator that counts one side only, it takes the opponent's loss for
/// its own gain.
pub struct NegaMaxAI<E: Evaluator + ?Sized> {
    /// The depth of the searched tree.
    depth: usize,
    /// The evaluator that scores the leaves.
    evaluator: Box<E>,
}

impl<E: Evaluator + ?Sized> NegaMaxAI<E> {
    /// The evaluator that the strategy scores states with.
    pub closed spec fn evaluator(&self) -> Box<E> {
        self.evaluator
    }

    /// The depth of the search.
    pub closed spec fn depth(&self) -> usize {
        self.depth
    }

    /// Creates a strategy of the given depth around an evaluator.
    pub fn new(depth: usize, evaluator: Box<E>) -> (ai: Self)
        ensures
            ai.depth() == depth,
            ai.evaluator() == evaluator,
    {
        NegaMaxAI { depth, evaluator }
    }

    /// Evaluates the state of the game for the given player, who is to act,
    /// `depth` actions deep. The opponent's value is taken to be the
    /// opposite of the player's, so each side takes its greatest value. A
    /// player without an action open is scored by the evaluator, as at depth
    /// 0.
    pub fn eval(&self, game: &Game, player: usize, depth: usize) -> (value: i32)
        requires
            game@.wf(),
            player < 2,
        ensures
            value == negamax(self.evaluator(), game@, player as int, depth as nat),
            value > i32::MIN,
        decreases depth, 0nat,
    {
        if depth == 0 || game.is_terminal(player) {
            self.evaluator.eval(game, player)
        } else {
            let moves = game.moves(player);
            if moves.len() == 0 {
                self.evaluator.eval(game, player)
            } else {
                self.best_reply(game, player, &moves, depth - 1).1
            }
        }
    }

    /// The place and the value of the first best action among `moves`, the
    /// actions open to the player, with the states after them searched
    /// `depth` actions deep.
    fn best_reply(&self, game: &Game, player: usize, moves: &Vec<Action>, depth: usize) -> (best: (
        usize,
        i32,
    ))
        requires
            game@.wf(),
            player < 2,
            moves@ == game@.legal_actions(player as int),
            moves@.len() > 0,
        ensures
            best.0 == first_max(replies(self.evaluator(), game@, player as int, depth as nat)),
            best.0 < moves@.len(),
            best.1 == replies(self.evaluator(), game@, player as int, depth as nat)[best.0 as int],
            best.1 > i32::MIN,
        decreases depth, 1nat,
    {
        let mut values: Vec<i128> = Vec::new();
        let mut i: usize = 0;
        while i < moves.len()
            invariant
                i <= moves.len(),
                game@.wf(),
                player < 2,
                moves@ == game@.legal_actions(player as int),
                values@.len() == i,
                forall|k: int|
                    0 <= k < i ==> (#[trigger] values@[k]) == replies(
                        self.evaluator(),
                        game@,
                        player as int,
                        depth as nat,
                    )[k] && -i32::MAX <= values@[k] <= i32::MAX,
            decreases moves.len() - i,
        {
            let mut g = game.clone();
            proof {
                assert(game@.legal_actions(player as int).contains(moves@[i as int]));
                lemma_apply_legal(game@, player as int, moves@[i as int]);
            }
            g.apply_move(&moves[i]);
            let value = -self.eval(&g, 1 - player, depth);
            values.push(value as i128);
            i += 1;
        }
        assert(as_ints(values@) =~= replies(
            self.evaluator(),
            game@,
            player as int,
            depth as nat,
        ));
        let best = first_greatest(&values);
        (best, values[best] as i32)
    }
}

impl<E: Evaluator + ?Sized> AI for NegaMaxAI<E> {
    /// Takes the action of greatest value, the first of them if several are.
    fn play(&mut self, game: &Game, player: usize) -> (action: Action)
        ensures
            action == negamax_choice(
                old(self).evaluator(),
                game@,
                player as int,
                old(self).depth() as nat,
            ),
            final(self).evaluator() == old(self).evaluator(),
            final(self).depth() == old(self).depth(),
    {
        let moves = game.moves(player);
        let depth = if self.depth == 0 {
            0
        } else {
            self.depth - 1
        };
        let best = self.best_reply(game, player, &moves, depth);
        moves[best.0]
    }
}

/// At depth 0 the negamax strategy takes the action that the naive strategy
/// takes, where the evaluator scores the two sides with opposite numbers in
/// every state that an action of `player` leads to.
pub proof fn lemma_depth_zero_is_naive<E: Evaluator + ?Sized>(
    evaluator: Box<E>,
    game: GameView,
    player: int,
)
    requires
        forall|i: int|
            0 <= i < game.legal_actions(player).len() ==> evaluator.score(
                #[trigger] game.apply(game.legal_actions(player)[i]),
                player,
            ) == -evaluator.score(game.apply(game.legal_actions(player)[i]), 1 - player),
    ensures
        negamax_choice(evaluator, game, player, 0) == naive_choice(evaluator, game, player),
{
    assert(replies(evaluator, game, player, 0) =~= outlooks(evaluator, game, player));
}

} // verus!

//! A strategy that grows a tree of the actions it has tried, plays a random
//! game from each new node, and takes the action that won most often.
use crate::ai::{ends_with, Arena, AI};
use crate::evaluator::Evaluator;
use crate::game::Game;
use crate::maxima::{as_ints, first_greatest, first_max};
use crate::randomai::RandomAI;
use crate::state::{lemma_apply_legal, GameView};
use crate::unit::Action;
use vstd::arithmetic::power2::{lemma2_to64, lemma_pow2_unfold, pow2};
use vstd::prelude::*;

verus! {

/// The number of whole halvings that bring `n` down to 1: the integer part
/// of its logarithm to base 2.
pub open spec fn log2_floor(n: nat) -> nat
    decreases n,
{
    if n <= 1 {
        0
    } else {
        1 + log2_floor(n / 2)
    }
}

/// Whether `root` is the integer part of the square root of `n`.
pub open spec fn is_sqrt_floor(n: nat, root: nat) -> bool {
    root * root <= n < (root + 1) * (root + 1)
}

/// The integer part of the square root of `n`.
pub open spec fn sqrt_floor(n: nat) -> nat {
    choose|root: nat| is_sqrt_floor(n, root)
}

/// Squares grow with their roots.
proof fn lemma_square_grows(a: nat, b: nat)
    requires
        a <= b,
    ensures
        a * a <= b * b,
{
    assert(a * a <= b * b) by (nonlinear_arith)
        requires
            a <= b,
    ;
}

/// A number has one integer square root.
proof fn lemma_sqrt_floor(n: nat, root: nat)
    requires
        is_sqrt_floor(n, root),
    ensures
        sqrt_floor(n) == root,
{
    let other = sqrt_floor(n);
    if other < root {
        lemma_square_grows(other + 1, root);
    } else if root < other {
        lemma_square_grows(root + 1, other);
    }
}

/// A number is at least its logarithm.
proof fn lemma_log2_small(n: nat)
    ensures
        log2_floor(n) <= n,
    decreases n,
{
    if n > 1 {
        lemma_log2_small(n / 2);
    }
}

fn ilog2(n: u64) -> (log: u64)
    ensures
        log == log2_floor(n as nat),
{
    let mut rest = n;
    let mut log: u64 = 0;
    proof {
        lemma_log2_small(n as nat);
    }
    while rest > 1
        invariant
            log + log2_floor(rest as nat) == log2_floor(n as nat),
            log2_floor(n as nat) <= n,
        decreases rest,
    {
        rest = rest / 2;
        log += 1;
    }
    log
}

fn isqrt(n: u64) -> (root: u64)
    ensures
        root == sqrt_floor(n as nat),
        root < 0x1_0000_0000,
{
    let mut low: u64 = 0;
    let mut high: u64 = 0x1_0000_0000;
    assert(0x1_0000_0000int * 0x1_0000_0000int > u64::MAX) by (nonlinear_arith);
    while high - low > 1
        invariant
            low < high <= 0x1_0000_0000,
            low * low <= n < high * high,
        decreases high - low,
    {
        let mid = low + (high - low) / 2;
        proof {
            lemma_square_grows(mid as nat, 0x1_0000_0000);
        }
        if (mid as u128) * (mid as u128) <= n as u128 {
            low = mid;
        } else {
            high = mid;
        }
    }
    proof {
        lemma_sqrt_floor(n as nat, low as nat);
    }
    low
}

/// The logarithm of a number below a power of two is below the exponent.
proof fn lemma_log2_below(n: nat, k: nat)
    requires
        n < pow2(k),
        k >= 1,
    ensures
        log2_floor(n) < k,
    decreases k,
{
    if n > 1 {
        lemma_pow2_unfold(k);
        if k == 1 {
            lemma2_to64();
        } else {
            lemma_log2_below(n / 2, (k - 1) as nat);
        }
    }
}

/// The first place of `action` among `actions`.
pub open spec fn first_place(actions: Seq<Action>, action: Action) -> int {
    choose|k: int|
        0 <= k < actions.len() && actions[k] == action && forall|j: int|
            0 <= j < k ==> actions[j] != action
}

/// The number of steps of the search that the strategy makes for one action.
pub const SEARCH_STEPS: usize = 1000;

/// The number of rounds after which a random game is ended.
pub const PLAYOUT_ROUNDS: usize = 50;

/// The share of games won, in millionths.
pub open spec fn win_rate(won: nat, played: nat) -> nat {
    1_000_000 * won / played
}

/// How promising a child is for the player who chooses among the children
/// of a node, in thousandths: the share of the child's games that the child's
/// own player lost, plus a bonus that grows with the games played at the
/// node and shrinks with those played at the child. The bonus stands for the
/// square root of the natural logarithm of twice the node's games over the
/// child's games, with 0.693 times the integer part of the logarithm to base
/// 2 for the natural logarithm, and the integer part of the square root.
pub open spec fn confidence(lost: nat, played: nat, parent_played: nat) -> nat {
    1000 * lost / played + sqrt_floor(693_000 * log2_floor(2 * parent_played) / played)
}

/// How promising a child is for the player who chooses among the children
/// of a node, given the games that the child's own player lost, the games
/// played at the child, and the games played at the node.
pub fn upper_bound(lost: usize, played: usize, parent_played: usize) -> (bound: u128)
    requires
        played > 0,
    ensures
        bound == confidence(lost as nat, played as nat, parent_played as nat),
        bound <= i128::MAX,
{
    let share = 1000u128 * (lost as u128) / (played as u128);
    assert(share <= 1000 * lost) by (nonlinear_arith)
        requires
            share == (1000 * lost) / (played as int),
            played > 0,
            lost >= 0,
    ;
    let log: u64 = if parent_played == 0 {
        0
    } else {
        proof {
            lemma2_to64();
            lemma_log2_below(parent_played as nat, 64);
        }
        1 + ilog2(parent_played as u64)
    };
    assert(log == log2_floor(2 * parent_played as nat));
    let spread = 693_000u64 * log / (played as u64);
    share + isqrt(spread) as u128
}

/// A node of the search tree.
pub struct Node {
    /// The action that led to this node.
    move_to: Option<Action>,
    /// The children explored so far.
    sons: Vec<Node>,
    /// The games through this node that its own player won.
    wins: usize,
    /// The games through this node that its own player lost.
    loses: usize,
    /// The state of the game at this node.
    game: Game,
    /// The player to act at this node.
    player: usize,
    /// The actions open at this node that were not explored yet.
    possible_moves: Vec<Action>,
}

impl Node {
    /// The action that led to this node.
    pub closed spec fn arrival(&self) -> Option<Action> {
        self.move_to
    }

    /// The children explored so far.
    pub closed spec fn children(&self) -> Seq<Node> {
        self.sons@
    }

    /// The number of games through this node that its own player won.
    pub closed spec fn won(&self) -> nat {
        self.wins as nat
    }

    /// The number of games through this node that its own player lost.
    pub closed spec fn lost(&self) -> nat {
        self.loses as nat
    }

    /// The state of the game at this node.
    pub closed spec fn state(&self) -> GameView {
        self.game@
    }

    /// The player to act at this node.
    pub closed spec fn side(&self) -> usize {
        self.player
    }

    /// The actions open at this node that were not explored yet.
    pub closed spec fn unexplored(&self) -> Seq<Action> {
        self.possible_moves@
    }

    /// The number of games played through this node.
    pub open spec fn played(&self) -> nat {
        self.won() + self.lost()
    }

    /// A tree in order, but for the games of its children, of which each may
    /// have `slack` more than the node itself. The state is a battle in
    /// order; the unexplored actions are open to the node's player; each
    /// child is a tree in order for the other player, reached by an action
    /// open to the node's player, holds the state after that action, and has
    /// had at least one game.
    pub open spec fn tidy(&self, slack: nat) -> bool
        decreases self,
    {
        &&& self.state().wf()
        &&& self.side() < 2
        &&& self.played() <= usize::MAX
        &&& forall|k: int|
            0 <= k < self.unexplored().len() ==> self.state().legal_actions(
                self.side() as int,
            ).contains(#[trigger] self.unexplored()[k])
        &&& forall|i: int|
            0 <= i < self.children().len() ==> {
                &&& (#[trigger] self.children()[i]).tidy(0)
                &&& self.children()[i].side() == 1 - self.side()
                &&& self.children()[i].arrival() is Some
                &&& self.state().legal_actions(self.side() as int).contains(
                    self.children()[i].arrival().unwrap(),
                )
                &&& self.children()[i].state() == self.state().apply(
                    self.children()[i].arrival().unwrap(),
                )
                &&& 1 <= self.children()[i].played() <= self.played() + slack
            }
    }

    /// A tree in order: no child has had more games than its parent.
    pub open spec fn wf(&self) -> bool {
        self.tidy(0)
    }

    /// For each child, in order, how promising it is for the node's player.
    pub open spec fn bounds(&self) -> Seq<int> {
        Seq::new(
            self.children().len(),
            |i: int|
                confidence(
                    self.children()[i].lost(),
                    self.children()[i].played(),
                    self.played(),
                ) as int,
        )
    }

    /// For each child, in order, the opposite of the share of games that the
    /// child's own player won.
    pub open spec fn rates(&self) -> Seq<int> {
        Seq::new(
            self.children().len(),
            |i: int| -(win_rate(self.children()[i].won(), self.children()[i].played()) as int),
        )
    }

    /// The unexplored action that is explored next: the one whose outcome
    /// `evaluator` scores best for the node's player, the first such action.
    pub open spec fn next_explored<E: Evaluator + ?Sized>(&self, evaluator: Box<E>) -> Action {
        self.unexplored()[first_max(self.prospects(evaluator))]
    }

    /// Whether `after` stands where this node stands: it was reached by the
    /// same action, and holds the same state with the same player to act.
    pub open spec fn same_place(&self, after: Node) -> bool {
        &&& after.arrival() == self.arrival()
        &&& after.state() == self.state()
        &&& after.side() == self.side()
    }

    /// Whether this node is a leaf that has just been made for `state` with
    /// `side` to act, reached by `arrival`, and has had one game, of the given
    /// outcome for `side`.
    pub open spec fn is_fresh(
        &self,
        state: GameView,
        side: int,
        arrival: Action,
        outcome: (usize, usize),
    ) -> bool {
        &&& self.arrival() == Some(arrival)
        &&& self.state() == state
        &&& self.side() == side
        &&& self.children().len() == 0
        &&& self.unexplored() == state.legal_actions(side)
        &&& self.won() == outcome.1
        &&& self.lost() == outcome.0
    }

    /// Whether `after` is this node with one more action explored: the
    /// action that `next_explored` names has left the unexplored actions, at
    /// its first place among them, and a fresh leaf for the state after it
    /// has been added behind the children. `outcome` is that of the leaf's
    /// one game, for the leaf's player.
    pub open spec fn grown<E: Evaluator + ?Sized>(
        &self,
        after: Node,
        evaluator: Box<E>,
        outcome: (usize, usize),
    )
        -> bool {
        let best = self.next_explored(evaluator);
        &&& self.same_place(after)
        &&& after.unexplored() == self.unexplored().remove(first_place(self.unexplored(), best))
        &&& after.children().len() == self.children().len() + 1
        &&& after.children().drop_last() == self.children()
        &&& after.children().last().is_fresh(
            self.state().apply(best),
            1 - self.side(),
            best,
            outcome,
        )
    }

    /// Whether `after` is this node with one step of the search made from
    /// its most promising child, by `confidence`, the first such child, and
    /// the other children left as they were. `outcome` is that of the step
    /// for the child's player. For a node without children nothing changes,
    /// and the outcome is `(1, 0)`.
    pub open spec fn descended<E: Evaluator + ?Sized>(
        &self,
        after: Node,
        evaluator: Box<E>,
        outcome: (usize, usize),
    ) -> bool
        decreases self, 0nat,
    {
        &&& self.same_place(after)
        &&& after.unexplored() == self.unexplored()
        &&& after.children().len() == self.children().len()
        &&& if self.children().len() == 0 {
            outcome == (1usize, 0usize)
        } else {
            let chosen = first_max(self.bounds());
            if 0 <= chosen < self.children().len() {
                &&& forall|i: int|
                    0 <= i < self.children().len() && i != chosen ==> after.children()[i]
                        == self.children()[i]
                &&& self.children()[chosen].stepped(after.children()[chosen], evaluator, outcome)
            } else {
                false
            }
        }
    }

    /// Whether `after` is this node with one step of the search made: an
    /// unexplored action explored if there is one, else a step made from the
    /// most promising child; and the game that was played counted, with its
    /// `outcome` for the node's player, `(0, 1)` for a win and `(1, 0)` for
    /// a loss. A win of the child's player is a loss of the node's.
    pub open spec fn stepped<E: Evaluator + ?Sized>(
        &self,
        after: Node,
        evaluator: Box<E>,
        outcome: (usize, usize),
    ) -> bool
        decreases self, 1nat,
    {
        &&& outcome == (0usize, 1usize) || outcome == (1usize, 0usize)
        &&& after.won() == self.won() + outcome.1
        &&& after.lost() == self.lost() + outcome.0
        &&& if self.unexplored().len() > 0 {
            self.grown(after, evaluator, (outcome.1, outcome.0))
        } else {
            self.descended(after, evaluator, (outcome.1, outcome.0))
        }
    }

    /// Whether this node is the root of a search that has made `steps` steps
    /// from `state` with `side` to act: a node without games or children,
    /// with every action open to `side` unexplored, after no step; and what
    /// one more step makes of such a root after each further step.
    pub open spec fn searched<E: Evaluator + ?Sized>(
        &self,
        evaluator: Box<E>,
        state: GameView,
        side: int,
        steps: nat,
    ) -> bool
        decreases steps,
    {
        if steps == 0 {
            &&& self.arrival() is None
            &&& self.state() == state
            &&& self.side() == side
            &&& self.children().len() == 0
            &&& self.unexplored() == state.legal_actions(side)
            &&& self.won() == 0
            &&& self.lost() == 0
        } else {
            exists|before: Node, outcome: (usize, usize)|
                before.searched(evaluator, state, side, (steps - 1) as nat)
                    && #[trigger] before.stepped(*self, evaluator, outcome)
        }
    }

    /// For each unexplored action, in order, the score that `evaluator`
    /// gives the node's player in the state after the action.
    pub open spec fn prospects<E: Evaluator + ?Sized>(&self, evaluator: Box<E>) -> Seq<int> {
        Seq::new(
            self.unexplored().len(),
            |i: int|
                evaluator.score(self.state().apply(self.unexplored()[i]), self.side() as int),
        )
    }

    /// Creates a node for the given state and the given player to act, with
    /// the action that led to it.
    pub fn new(game: Game, player: usize, mv: Option<Action>) -> (node: Self)
        requires
            game@.wf(),
            player < 2,
        ensures
            node.wf(),
            node.arrival() == mv,
            node.children().len() == 0,
            node.won() == 0,
            node.lost() == 0,
            node.state() == game@,
            node.side() == player,
            node.unexplored() == game@.legal_actions(player as int),
    {
        let possible_moves = game.moves(player);
        Node { move_to: mv, sons: Vec::new(), wins: 0, loses: 0, game, player, possible_moves }
    }

    /// The number of games played through this node.
    pub fn games(&self) -> (count: usize)
        requires
            self.played() <= usize::MAX,
        ensures
            count == self.played(),
    {
        self.loses + self.wins
    }

    /// The share of games that the node's own player won, in millionths.
    pub fn weighted_score(&self) -> (rate: usize)
        requires
            0 < self.played() <= usize::MAX,
        ensures
            rate == win_rate(self.won(), self.played()),
    {
        let rate = 1_000_000u128 * (self.wins as u128) / ((self.wins + self.loses) as u128);
        assert(rate <= 1_000_000) by (nonlinear_arith)
            requires
                rate == 1_000_000 * (self.wins as int) / ((self.wins + self.loses) as int),
                self.loses >= 0,
                self.wins >= 0,
                self.wins + self.loses > 0,
        ;
        rate as usize
    }

    /// The unexplored action whose outcome the strategy's evaluator scores
    /// best for the node's player: the first such action.
    pub fn find_best<E: Evaluator + ?Sized>(&self, ai: &mut MonteCarloAI<E>) -> (action: Action)
        requires
            self.wf(),
            self.unexplored().len() > 0,
        ensures
            action == self.next_explored(old(ai).evaluator()),
            self.unexplored().contains(action),
            final(ai).evaluator() == old(ai).evaluator(),
    {
        let mut scores: Vec<i128> = Vec::new();
        let mut i: usize = 0;
        while i < self.possible_moves.len()
            invariant
                i <= self.possible_moves.len(),
                self.wf(),
                ai.evaluator() == old(ai).evaluator(),
                scores@.len() == i,
                forall|k: int|
                    0 <= k < i ==> (#[trigger] scores@[k]) == self.prospects(ai.evaluator())[k],
            decreases self.possible_moves.len() - i,
        {
            let mut g = self.game.clone();
            proof {
                assert(self.state().legal_actions(self.side() as int).contains(
                    self.unexplored()[i as int],
                ));
                lemma_apply_legal(self.state(), self.side() as int, self.unexplored()[i as int]);
            }
            g.apply_move(&self.possible_moves[i]);
            scores.push(ai.eval(&g, self.player) as i128);
            i += 1;
        }
        assert(as_ints(scores@) =~= self.prospects(ai.evaluator()));
        self.possible_moves[first_greatest(&scores)]
    }

    /// Plays a random game from the state of the node, both sides picking
    /// their actions at random, with `PLAYOUT_ROUNDS` for the cap on rounds.
    /// Counts the game for the node, and returns `(0, 1)` if the node's
    /// player won it, `(1, 0)` if it lost.
    pub fn random_play(&mut self) -> (outcome: (usize, usize))
        requires
            old(self).wf(),
            old(self).played() < usize::MAX,
        ensures
            final(self).wf(),
            final(self).arrival() == old(self).arrival(),
            final(self).children() == old(self).children(),
            final(self).state() == old(self).state(),
            final(self).side() == old(self).side(),
            final(self).unexplored() == old(self).unexplored(),
            outcome == (0usize, 1usize) || outcome == (1usize, 0usize),
            final(self).won() == old(self).won() + outcome.1,
            final(self).lost() == old(self).lost() + outcome.0,
            exists|taken: Seq<Action>, winner: int|
                #[trigger] ends_with(old(self).state(), taken, PLAYOUT_ROUNDS as nat, winner) && (
                outcome.1 == 1 <==> winner == old(self).side()),
    {
        let mut playout = self.game.clone();
        let mut first = RandomAI::new();
        let mut second = RandomAI::new();
        let won = Arena::resolve(&mut playout, &mut first, &mut second, PLAYOUT_ROUNDS);
        proof {
            let taken = choose|taken: Seq<Action>|
                ends_with(self.state(), taken, PLAYOUT_ROUNDS as nat, won as int);
            assert(ends_with(self.state(), taken, PLAYOUT_ROUNDS as nat, won as int));
        }
        let outcome = if won == self.player {
            self.wins += 1;
            (0, 1)
        } else {
            self.loses += 1;
            (1, 0)
        };
        proof {
            lemma_tidy_kept(*old(self), *self, 0, 0);
        }
        outcome
    }

    /// Explores the unexplored action that `find_best` names: takes it from
    /// the unexplored actions, adds a child for the state after it, with the
    /// other player to act, and plays a random game from the child. Returns
    /// the outcome of that game for the child's player: `(0, 1)` for a win,
    /// `(1, 0)` for a loss.
    pub fn expansion<E: Evaluator + ?Sized>(
        &mut self,
        ai: &mut MonteCarloAI<E>,
        _played_games: usize,
    ) -> (outcome: (usize, usize))
        requires
            old(self).wf(),
            old(self).unexplored().len() > 0,
        ensures
            final(self).tidy(1),
            final(ai).evaluator() == old(ai).evaluator(),
            outcome == (0usize, 1usize) || outcome == (1usize, 0usize),
            old(self).grown(*final(self), old(ai).evaluator(), outcome),
            final(self).won() == old(self).won(),
            final(self).lost() == old(self).lost(),
    {
        let best = self.find_best(ai);
        let mut index: usize = 0;
        while self.possible_moves[index] != best
            invariant
                index < self.possible_moves.len(),
                *self == *old(self),
                self.unexplored().contains(best),
                forall|j: int| 0 <= j < index ==> self.unexplored()[j] != best,
            decreases self.possible_moves.len() - index,
        {
            index += 1;
        }
        assert(first_place(self.unexplored(), best) == index);
        let mv = self.possible_moves[index];
        self.possible_moves.remove(index);
        let mut new_game = self.game.clone();
        proof {
            assert(old(self).state().legal_actions(self.side() as int).contains(
                old(self).unexplored()[index as int],
            ));
            lemma_apply_legal(self.state(), self.side() as int, mv);
        }
        new_game.apply_move(&mv);
        let mut son = Node::new(new_game, 1 - self.player, Some(mv));
        let res = son.random_play();
        self.sons.push(son);
        proof {
            assert(self.children().drop_last() =~= old(self).children());
            assert forall|k: int| 0 <= k < self.unexplored().len() implies self.state()
                .legal_actions(self.side() as int).contains(#[trigger] self.unexplored()[k]) by {
                if k < index {
                    assert(self.unexplored()[k] == old(self).unexplored()[k]);
                } else {
                    assert(self.unexplored()[k] == old(self).unexplored()[k + 1]);
                }
            }
            assert forall|i: int| 0 <= i < self.children().len() implies {
                &&& (#[trigger] self.children()[i]).tidy(0)
                &&& self.children()[i].side() == 1 - self.side()
                &&& self.children()[i].arrival() is Some
                &&& self.state().legal_actions(self.side() as int).contains(
                    self.children()[i].arrival().unwrap(),
                )
                &&& self.children()[i].state() == self.state().apply(
                    self.children()[i].arrival().unwrap(),
                )
                &&& 1 <= self.children()[i].played() <= self.played() + 1
            } by {
                if i < old(self).children().len() {
                    assert(self.children()[i] == old(self).children()[i]);
                    assert(old(self).children()[i].tidy(0));
                }
            }
        }
        res
    }

    /// Goes down into the child that is most promising for the node's
    /// player, by `confidence`: the first such child. Returns the outcome for
    /// that child's player of the game that is played further down. A node
    /// without children is left as it is, and `(1, 0)` is returned.
    pub fn ucb1_choose<E: Evaluator + ?Sized>(
        &mut self,
        ai: &mut MonteCarloAI<E>,
        played_games: usize,
    ) -> (outcome: (usize, usize))
        requires
            old(self).wf(),
            old(self).played() < usize::MAX,
        ensures
            final(self).tidy(1),
            final(ai).evaluator() == old(ai).evaluator(),
            outcome == (0usize, 1usize) || outcome == (1usize, 0usize),
            old(self).descended(*final(self), old(ai).evaluator(), outcome),
            final(self).won() == old(self).won(),
            final(self).lost() == old(self).lost(),
        decreases *old(self), 0nat,
    {
        if self.sons.len() == 0 {
            proof {
                lemma_tidy_kept(*old(self), *self, 0, 1);
            }
            return (1, 0);
        }
        let games = self.games();
        let mut bounds: Vec<i128> = Vec::new();
        let mut i: usize = 0;
        while i < self.sons.len()
            invariant
                i <= self.sons.len(),
                *self == *old(self),
                self.wf(),
                games == self.played(),
                bounds@.len() == i,
                forall|k: int| 0 <= k < i ==> (#[trigger] bounds@[k]) == self.bounds()[k],
            decreases self.sons.len() - i,
        {
            assert(self.children()[i as int].tidy(0));
            let son = &self.sons[i];
            bounds.push(upper_bound(son.loses, son.games(), games) as i128);
            i += 1;
        }
        assert(as_ints(bounds@) =~= self.bounds());
        let best = first_greatest(&bounds);
        proof {
            assert(self.children()[best as int].tidy(0));
        }
        let outcome = self.sons[best].selection(ai, played_games);
        proof {
            assert forall|i: int| 0 <= i < self.children().len() implies {
                &&& (#[trigger] self.children()[i]).tidy(0)
                &&& self.children()[i].side() == 1 - self.side()
                &&& self.children()[i].arrival() is Some
                &&& self.state().legal_actions(self.side() as int).contains(
                    self.children()[i].arrival().unwrap(),
                )
                &&& self.children()[i].state() == self.state().apply(
                    self.children()[i].arrival().unwrap(),
                )
                &&& 1 <= self.children()[i].played() <= self.played() + 1
            } by {
                assert(old(self).children()[i].tidy(0));
                if i != best {
                    assert(self.children()[i] == old(self).children()[i]);
                }
            }
            assert(self.unexplored() == old(self).unexplored());
        }
        outcome
    }

    /// One step of the search from this node: explores an unexplored action
    /// if there is one, else goes down into the most promising child. Counts
    /// the game that was played for this node, and returns its outcome for
    /// the node's player: `(0, 1)` for a win, `(1, 0)` for a loss. A win of
    /// the child's player is a loss of the node's.
    pub fn selection<E: Evaluator + ?Sized>(
        &mut self,
        ai: &mut MonteCarloAI<E>,
        played_games: usize,
    ) -> (outcome: (usize, usize))
        requires
            old(self).wf(),
            old(self).played() < usize::MAX,
        ensures
            final(self).wf(),
            final(ai).evaluator() == old(ai).evaluator(),
            old(self).stepped(*final(self), old(ai).evaluator(), outcome),
        decreases *old(self), 1nat,
    {
        let (loses, wins) = if self.possible_moves.len() == 0 {
            self.ucb1_choose(ai, played_games)
        } else {
            self.expansion(ai, played_games)
        };
        let ghost between = *self;
        self.loses += wins;
        self.wins += loses;
        proof {
            lemma_tidy_kept(between, *self, 1, 0);
        }
        (wins, loses)
    }

    /// The action that led to the child whose own player won the smallest
    /// share of its games: the first such child.
    pub fn get_best(&self) -> (action: Action)
        requires
            self.wf(),
            self.children().len() > 0,
        ensures
            Some(action) == self.children()[first_max(self.rates())].arrival(),
            self.state().legal_actions(self.side() as int).contains(action),
    {
        let mut rates: Vec<i128> = Vec::new();
        let mut i: usize = 0;
        while i < self.sons.len()
            invariant
                i <= self.sons.len(),
                self.wf(),
                rates@.len() == i,
                forall|k: int| 0 <= k < i ==> (#[trigger] rates@[k]) == self.rates()[k],
            decreases self.sons.len() - i,
        {
            assert(self.children()[i as int].tidy(0));
            rates.push(-(self.sons[i].weighted_score() as i128));
            i += 1;
        }
        assert(as_ints(rates@) =~= self.rates());
        let best = first_greatest(&rates);
        proof {
            assert(self.children()[best as int].tidy(0));
        }
        self.sons[best].move_to.unwrap()
    }
}

/// A tree in order stays so when its node has had more games and the rest
/// is as it was.
pub proof fn lemma_tidy_kept(before: Node, after: Node, slack: nat, less: nat)
    requires
        before.tidy(slack),
        after.arrival() == before.arrival(),
        after.children() == before.children(),
        after.state() == before.state(),
        after.side() == before.side(),
        after.unexplored() == before.unexplored(),
        before.played() + slack <= after.played() + less,
        after.played() <= usize::MAX,
    ensures
        after.tidy(less),
{
    assert forall|i: int| 0 <= i < after.children().len() implies {
        &&& (#[trigger] after.children()[i]).tidy(0)
        &&& 1 <= after.children()[i].played() <= after.played() + less
    } by {
        assert(before.children()[i].tidy(0));
    }
}

/// The Monte Carlo tree search strategy.
pub struct MonteCarloAI<E: Evaluator + ?Sized> {
    /// The evaluator that says which action to explore next.
    eval: Box<E>,
}

impl<E: Evaluator + ?Sized> MonteCarloAI<E> {
    /// The evaluator that says which action to explore next.
    pub closed spec fn evaluator(&self) -> Box<E> {
        self.eval
    }

    /// Creates a strategy around an evaluator.
    pub fn new(eval: Box<E>) -> (ai: Self)
        ensures
            ai.evaluator() == eval,
    {
        MonteCarloAI { eval }
    }

    /// Scores the state of the game for the player.
    pub fn eval(&self, game: &Game, player: usize) -> (score: i32)
        requires
            game@.wf(),
            player < 2,
        ensures
            score == self.evaluator().score(game@, player as int),
            score > i32::MIN,
    {
        self.eval.eval(game, player)
    }
}

impl<E: Evaluator + ?Sized> AI for MonteCarloAI<E> {
    /// Grows a search tree from the state of the game by `SEARCH_STEPS`
    /// steps, and returns the action at the root whose child fared worst for
    /// the opponent: the action that led to the child whose own player won
    /// the smallest share of its games, the first such child.
    fn play(&mut self, game: &Game, player: usize) -> (action: Action)
        ensures
            final(self).evaluator() == old(self).evaluator(),
            exists|tree: Node|
                #[trigger] tree.searched(
                    old(self).evaluator(),
                    game@,
                    player as int,
                    SEARCH_STEPS as nat,
                ) && Some(action) == tree.children()[first_max(tree.rates())].arrival(),
    {
        let mut node = Node::new(game.clone(), player, None);
        let mut i: usize = 0;
        while i < SEARCH_STEPS
            invariant
                i <= SEARCH_STEPS,
                node.wf(),
                node.played() == i,
                node.state() == game@,
                node.side() == player,
                node.searched(old(self).evaluator(), game@, player as int, i as nat),
                self.evaluator() == old(self).evaluator(),
                i == 0 ==> node.unexplored().len() > 0,
                i > 0 ==> node.children().len() > 0,
            decreases SEARCH_STEPS - i,
        {
            let ghost before = node;
            let outcome = node.selection(self, i);
            assert(before.stepped(node, old(self).evaluator(), outcome));
            i += 1;
        }
        let action = node.get_best();
        assert(node.searched(old(self).evaluator(), game@, player as int, SEARCH_STEPS as nat));
        action
    }
}

} // verus!
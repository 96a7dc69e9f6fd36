//! The strategy interface and the arena in which strategies meet.
use crate::game::{Game, PlacementError};
use crate::state::{lemma_apply_legal, GameView};
use crate::unit::{Action, Unit};
use rand::XorShiftRng;
use vstd::prelude::*;

verus! {

/// A strategy: it picks one of the actions open to a player.
pub trait AI {
    /// Returns an action, given the state of the game and the player to act.
    fn play(&mut self, game: &Game, player: usize) -> (action: Action)
        requires
            game@.wf(),
            player < 2,
            game@.legal_actions(player as int).len() > 0,
        ensures
            game@.legal_actions(player as int).contains(action),
    ;
}

/// An arena, in which two strategies play a number of random games.
pub struct Arena {
    /// The side of the grid, which is square.
    game_size: usize,
    /// The number of games that are played.
    game_number: usize,
    /// The number of units of each player at the start.
    game_units: usize,
    /// Whether the caller wants the result of each game reported.
    pub verbose: bool,
    /// The number of rounds after which a game is ended.
    max_turns: usize,
    /// The number of games after which the handicaps grow.
    progression_step: usize,
    /// The number of units by which the handicaps grow.
    progression_units: usize,
}

/// The wins of two strategies over a pair of games on one start: in the
/// first game the first strategy plays side 0, in the second game the second
/// strategy does. `first` and `second` are the sides that won the two games.
pub open spec fn pair_tally(first: int, second: int) -> (int, int) {
    (
        (if first == 0 { 1int } else { 0int }) + (if second == 1 { 1int } else { 0int }),
        (if first == 1 { 1int } else { 0int }) + (if second == 0 { 1int } else { 0int }),
    )
}

/// Whether a game from `start` can take the course `taken`: the sides act in
/// turn, side 0 first, and each action is open to the side that takes it in
/// the state that the actions before it have led to.
#[verifier::opaque]
pub open spec fn is_course(start: GameView, taken: Seq<Action>) -> bool {
    forall|k: int|
        0 <= k < taken.len() ==> (#[trigger] start.after_all(taken.take(k))).legal_actions(
            k % 2,
        ).contains(taken[k])
}

/// Whether a game from `start` that takes the course `taken` ends there with
/// `winner`: either `nb_rounds + 1` rounds of two actions are over, and the
/// side with more units wins, side 0 if both have as many; or the rounds are
/// not over, the side whose turn it is cannot act, and the other side wins.
pub open spec fn ends_with(start: GameView, taken: Seq<Action>, nb_rounds: nat, winner: int)
    -> bool {
    &&& is_course(start, taken)
    &&& taken.len() <= 2 * (nb_rounds + 1)
    &&& if taken.len() == 2 * (nb_rounds + 1) {
        winner == start.after_all(taken).leader()
    } else {
        &&& !start.after_all(taken).can_act(taken.len() as int % 2)
        &&& winner == 1 - taken.len() as int % 2
    }
}

/// A game can take the course without actions.
pub proof fn lemma_course_begins(start: GameView)
    ensures
        is_course(start, Seq::<Action>::empty()),
        start.after_all(Seq::<Action>::empty()) == start,
{
    reveal(is_course);
}

/// A course goes on with an action that is open to the side whose turn it
/// is.
pub proof fn lemma_course_goes_on(start: GameView, taken: Seq<Action>, action: Action)
    requires
        is_course(start, taken),
        start.after_all(taken).legal_actions(taken.len() as int % 2).contains(action),
    ensures
        is_course(start, taken.push(action)),
        start.after_all(taken.push(action)) == start.after_all(taken).apply(action),
{
    reveal(is_course);
    let longer = taken.push(action);
    assert(longer.drop_last() =~= taken);
    assert forall|k: int| 0 <= k < longer.len() implies (#[trigger] start.after_all(
        longer.take(k),
    )).legal_actions(k % 2).contains(longer[k]) by {
        if k < taken.len() {
            assert(longer.take(k) =~= taken.take(k));
        } else {
            assert(longer.take(k) =~= taken);
        }
    }
}

/// Whatever course a game takes from a battle in order, the battle stays in
/// order on the same grid, and no unit is added.
pub proof fn lemma_course_keeps_order(start: GameView, taken: Seq<Action>)
    requires
        start.wf(),
        is_course(start, taken),
    ensures
        start.after_all(taken).wf(),
        start.after_all(taken).width == start.width,
        start.after_all(taken).height == start.height,
        start.after_all(taken).unit_count() <= start.unit_count(),
    decreases taken.len(),
{
    reveal(is_course);
    if taken.len() > 0 {
        let before = taken.drop_last();
        assert forall|k: int| 0 <= k < before.len() implies (#[trigger] start.after_all(
            before.take(k),
        )).legal_actions(k % 2).contains(before[k]) by {
            assert(before.take(k) =~= taken.take(k));
        }
        lemma_course_keeps_order(start, before);
        assert(taken.take(before.len() as int) =~= before);
        lemma_apply_legal(start.after_all(before), before.len() as int % 2, taken.last());
    }
}

/// A game ends where the side whose turn it is cannot act, before the
/// rounds are over: the other side wins.
proof fn lemma_ends_early(start: GameView, taken: Seq<Action>, nb_rounds: nat, side: int)
    requires
        is_course(start, taken),
        taken.len() < 2 * (nb_rounds + 1),
        side == taken.len() as int % 2,
        !start.after_all(taken).can_act(side),
    ensures
        ends_with(start, taken, nb_rounds, 1 - side),
{
}

/// A game ends where the rounds are over: the side with more units wins.
proof fn lemma_ends_late(start: GameView, taken: Seq<Action>, nb_rounds: nat)
    requires
        is_course(start, taken),
        taken.len() == 2 * (nb_rounds + 1),
    ensures
        ends_with(start, taken, nb_rounds, start.after_all(taken).leader()),
{
}

/// Whether `wins` are the wins of two strategies over a pair of games from
/// `start`, each game taking a course of its own and ending as `ends_with`
/// says: in the first game the first strategy plays side 0, in the second
/// game the second strategy does.
pub open spec fn pair_outcome(start: GameView, nb_rounds: nat, wins: (int, int)) -> bool {
    exists|one: Seq<Action>, two: Seq<Action>, first: int, second: int|
        {
            &&& #[trigger] ends_with(start, one, nb_rounds, first)
            &&& #[trigger] ends_with(start, two, nb_rounds, second)
            &&& wins == pair_tally(first, second)
        }
}

/// The sums of the wins of the first and of the second strategy.
pub open spec fn sum_wins(tallies: Seq<(int, int)>) -> (int, int)
    decreases tallies.len(),
{
    if tallies.len() == 0 {
        (0, 0)
    } else {
        (
            sum_wins(tallies.drop_last()).0 + tallies.last().0,
            sum_wins(tallies.drop_last()).1 + tallies.last().1,
        )
    }
}

impl Arena {
    /// The side of the grid.
    pub closed spec fn size(&self) -> usize {
        self.game_size
    }

    /// The number of games.
    pub closed spec fn games(&self) -> usize {
        self.game_number
    }

    /// The number of units of each player at the start.
    pub closed spec fn units(&self) -> usize {
        self.game_units
    }

    /// Whether the caller wants the result of each game reported.
    pub closed spec fn is_verbose(&self) -> bool {
        self.verbose
    }

    /// The number of rounds after which a game is ended.
    pub closed spec fn turns(&self) -> usize {
        self.max_turns
    }

    /// The number of games after which the handicaps grow, and the number
    /// of units by which they grow.
    pub closed spec fn schedule(&self) -> (usize, usize) {
        (self.progression_step, self.progression_units)
    }

    /// The greatest number of units that side 1 is brought to: a third of the
    /// cells of the grid.
    pub open spec fn unit_cap(&self) -> int {
        self.size() * self.size() / 3
    }

    /// The handicaps after game number `game`, counted from 1, given the
    /// handicaps before it. The first handicap is the number of units taken
    /// from side 0, the second the number of units added to both sides. They
    /// grow at every game whose number is a multiple of the step: the first
    /// while it leaves side 0 more than one unit of its starting number, the
    /// second while side 1 has fewer units than the cap, and neither beyond
    /// that bound.
    pub open spec fn stepped(&self, game: int, handicaps: (int, int)) -> (int, int) {
        if game % (self.schedule().0 as int) == 0 {
            (
                if self.units() - handicaps.0 > 1 {
                    vstd::math::min(handicaps.0 + self.schedule().1, self.units() - 1)
                } else {
                    handicaps.0
                },
                if self.units() + handicaps.1 < self.unit_cap() {
                    vstd::math::min(handicaps.1 + self.schedule().1, self.unit_cap() - self.units())
                } else {
                    handicaps.1
                },
            )
        } else {
            handicaps
        }
    }

    /// The handicaps with which game number `game`, counted from 1, is
    /// played: none in the first game, then those that each game leaves.
    pub open spec fn handicaps(&self, game: nat) -> (int, int)
        decreases game,
    {
        if game <= 1 {
            (0, 0)
        } else {
            self.stepped(game - 1, self.handicaps((game - 1) as nat))
        }
    }

    /// Whether game number `game` asks for more units than the left half of
    /// the grid has cells.
    pub open spec fn crowded(&self, game: nat) -> bool {
        self.units() + self.handicaps(game).1 > (self.size() / 2) * self.size()
    }

    /// Whether `start` is a start under the given handicaps: a battle in
    /// order on the arena's grid in which side 1 has the arena's units and
    /// the second handicap more, side 0 has the first handicap fewer than
    /// side 1, each unit of side 0 stands in the left half, and the unit of
    /// side 1 at the same place is its point reflection.
    pub open spec fn is_start(&self, handicaps: (int, int), start: GameView) -> bool {
        &&& start.wf()
        &&& start.width == self.size()
        &&& start.height == self.size()
        &&& start.players[1].len() == self.units() + handicaps.1
        &&& start.players[0].len() == self.units() + handicaps.1 - handicaps.0
        &&& forall|i: int|
            0 <= i < start.players[0].len() ==> {
                &&& (#[trigger] start.players[0][i]).pos.x < self.size() / 2
                &&& start.players[1][i] == start.players[0][i].mirrored(self.size(), self.size())
            }
    }

    /// Whether the first `count` games of a fight were played from `starts`
    /// and ended with `tallies`: game number `i`, counted from 1, from a start
    /// under `handicaps(i)`, as a pair of games with the arena's cap on
    /// rounds.
    pub open spec fn fought(
        &self,
        count: nat,
        starts: Seq<GameView>,
        tallies: Seq<(int, int)>,
    ) -> bool {
        &&& starts.len() == count
        &&& tallies.len() == count
        &&& forall|i: int|
            0 <= i < count ==> {
                &&& self.is_start(self.handicaps((i + 1) as nat), #[trigger] starts[i])
                &&& pair_outcome(starts[i], self.turns() as nat, tallies[i])
            }
    }

    /// Creates an arena with the given parameters. The handicaps do not
    /// grow until `progression` says so.
    pub fn new(size: usize, number: usize, units: usize, verbose: bool, max_turns: usize) -> (arena:
        Self)
        ensures
            arena.size() == size,
            arena.games() == number,
            arena.units() == units,
            arena.is_verbose() == verbose,
            arena.turns() == max_turns,
            arena.schedule() == (1usize, 0usize),
    {
        Arena {
            game_size: size,
            game_number: number,
            game_units: units,
            verbose,
            max_turns,
            progression_step: 1,
            progression_units: 0,
        }
    }

    /// Sets the growth of the handicaps: every `step` games, by `units`
    /// units.
    pub fn progression(&mut self, step: usize, units: usize) -> (this: &mut Self)
        ensures
            *final(self) == *final(this),
            this.schedule() == (step, units),
            this.size() == old(self).size(),
            this.games() == old(self).games(),
            this.units() == old(self).units(),
            this.is_verbose() == old(self).is_verbose(),
            this.turns() == old(self).turns(),
    {
        self.progression_units = units;
        self.progression_step = step;
        self
    }

    /// The handicaps after game number `game`, counted from 1, given the
    /// handicaps before it.
    pub fn progress(&self, game: usize, handicaps: (usize, usize)) -> (next: (usize, usize))
        requires
            self.schedule().0 > 0,
            self.size() * self.size() <= usize::MAX,
            handicaps.0 <= self.units(),
            self.units() + handicaps.1 <= usize::MAX,
        ensures
            (next.0 as int, next.1 as int) == self.stepped(
                game as int,
                (handicaps.0 as int, handicaps.1 as int),
            ),
            next.0 <= self.units(),
            next.0 >= handicaps.0,
            next.1 >= handicaps.1,
            self.units() + next.1 <= usize::MAX,
    {
        let mut next = handicaps;
        if game % self.progression_step == 0 {
            if self.game_units - handicaps.0 > 1 {
                let most = self.game_units - 1;
                next.0 = if self.progression_units > most - handicaps.0 {
                    most
                } else {
                    handicaps.0 + self.progression_units
                };
            }
            let cap = self.game_size * self.game_size / 3;
            if self.game_units + handicaps.1 < cap {
                let most = cap - self.game_units;
                next.1 = if self.progression_units > most - handicaps.1 {
                    most
                } else {
                    handicaps.1 + self.progression_units
                };
            }
        }
        next
    }

    /// The wins of two strategies over a pair of games on one start, given
    /// the sides that won the first game, in which the first strategy played
    /// side 0, and the second game, in which the second strategy did.
    pub fn tally(first: usize, second: usize) -> (wins: (usize, usize))
        requires
            first < 2,
            second < 2,
        ensures
            (wins.0 as int, wins.1 as int) == pair_tally(first as int, second as int),
            wins.0 + wins.1 == 2,
    {
        let mut wons: (usize, usize) = (0, 0);
        if first == 0 {
            wons.0 += 1;
        } else {
            wons.1 += 1;
        }
        if 1 - second == 0 {
            wons.0 += 1;
        } else {
            wons.1 += 1;
        }
        wons
    }

    /// Runs a fight between the two strategies and returns the number of
    /// wins of each. Every game starts from a random symmetric start, and is
    /// played twice: each strategy acts first once. As the games go by, the
    /// handicaps between the two sides grow as `progression` has set.
    pub fn fight<A: AI + ?Sized, B: AI + ?Sized>(&self, ai: &mut A, ai2: &mut B) -> (wins: Result<
        (usize, usize),
        PlacementError,
    >)
        requires
            self.schedule().0 > 0,
            self.size() * self.size() <= usize::MAX,
            2 * self.games() <= usize::MAX,
        ensures
            wins matches Ok(won) ==> won.0 + won.1 == 2 * self.games(),
            wins matches Ok(won) ==> exists|starts: Seq<GameView>, tallies: Seq<(int, int)>|
                #[trigger] self.fought(self.games() as nat, starts, tallies) && (
                won.0 as int,
                won.1 as int,
            ) == sum_wins(tallies),
            self.games() == 0 ==> wins is Ok,
            wins == Err::<(usize, usize), PlacementError>(PlacementError::TooManyUnits)
                ==> exists|game: nat| 1 <= game <= self.games() && self.crowded(game),
            (exists|game: nat| 1 <= game <= self.games() && self.crowded(game)) ==> wins is Err,
            self.games() > 0 && self.crowded(1) ==> wins == Err::<(usize, usize), PlacementError>(
                PlacementError::TooManyUnits,
            ),
    {
        let mut my_rand = XorShiftRng::new_unseeded();
        let mut wons: (usize, usize) = (0, 0);
        let mut advantages: (usize, usize) = (0, 0);
        let ghost mut starts = Seq::<GameView>::empty();
        let ghost mut tallies = Seq::<(int, int)>::empty();
        let mut i: usize = 0;
        while i < self.game_number
            invariant
                i <= self.game_number,
                self.schedule().0 > 0,
                self.size() * self.size() <= usize::MAX,
                2 * self.games() <= usize::MAX,
                wons.0 + wons.1 == 2 * i,
                advantages.0 <= self.units(),
                self.units() + advantages.1 <= usize::MAX,
                (advantages.0 as int, advantages.1 as int) == self.handicaps((i + 1) as nat),
                forall|game: nat| 1 <= game <= i ==> !self.crowded(game),
                self.fought(i as nat, starts, tallies),
                (wons.0 as int, wons.1 as int) == sum_wins(tallies),
            decreases self.game_number - i,
        {
            i += 1;
            let (start, res) = match self.play_pair(advantages, &mut my_rand, ai, ai2) {
                Ok(played) => played,
                Err(error) => {
                    assert(error == PlacementError::TooManyUnits ==> self.crowded(i as nat));
                    return Err(error);
                },
            };
            proof {
                let wins = (res.0 as int, res.1 as int);
                assert(starts.push(start@).drop_last() =~= starts);
                assert(tallies.push(wins).drop_last() =~= tallies);
                starts = starts.push(start@);
                tallies = tallies.push(wins);
            }
            advantages = self.progress(i, advantages);
            wons.0 += res.0;
            wons.1 += res.1;
        }
        Ok(wons)
    }

    /// Makes a random symmetric start under the given handicaps and plays a
    /// pair of games from it. The start has the arena's units and the second
    /// handicap more on each side; then the first handicap is taken from side
    /// 0, the last units first. Returns the start and the wins of the first
    /// and of the second strategy.
    pub fn play_pair<A: AI + ?Sized, B: AI + ?Sized>(
        &self,
        handicaps: (usize, usize),
        my_rand: &mut XorShiftRng,
        ai: &mut A,
        ai2: &mut B,
    ) -> (played: Result<(Game, (usize, usize)), PlacementError>)
        requires
            handicaps.0 <= self.units(),
            self.units() + handicaps.1 <= usize::MAX,
        ensures
            (played matches Err(error) && error == PlacementError::TooManyUnits) <==> self.units()
                + handicaps.1 > (self.size() / 2) * self.size(),
            self.units() + handicaps.1 == 0 ==> played is Ok,
            played matches Ok(pair) ==> {
                &&& self.is_start((handicaps.0 as int, handicaps.1 as int), pair.0@)
                &&& pair_outcome(pair.0@, self.turns() as nat, (pair.1.0 as int, pair.1.1 as int))
                &&& pair.1.0 + pair.1.1 == 2
            },
    {
        let mut game = match Game::new_random(
            self.game_size,
            self.game_size,
            self.game_units + handicaps.1,
            my_rand,
        ) {
            Ok(game) => game,
            Err(error) => {
                return Err(error);
            },
        };
        let ghost whole = game@;
        game.remove_unit_for_player(0, handicaps.0);
        proof {
            let mirror = |unit: Unit| unit.mirrored(self.size(), self.size());
            assert forall|i: int| 0 <= i < game@.players[0].len() implies {
                &&& (#[trigger] game@.players[0][i]).pos.x < self.size() / 2
                &&& game@.players[1][i] == game@.players[0][i].mirrored(self.size(), self.size())
            } by {
                assert(game@.players[0][i] == whole.players[0][i]);
                assert(whole.players[1][i] == mirror(whole.players[0][i]));
            }
        }
        let wins = self.rounds(&game, ai, ai2);
        Ok((game, wins))
    }

    /// Makes the two strategies play two games from the given start: in the
    /// first the first strategy plays side 0, in the second the second
    /// strategy does. Returns the wins of the first and of the second
    /// strategy.
    pub fn rounds<A: AI + ?Sized, B: AI + ?Sized>(&self, game: &Game, ai: &mut A, ai2: &mut B)
        -> (wins: (usize, usize))
        requires
            game@.wf(),
        ensures
            wins.0 + wins.1 == 2,
            pair_outcome(game@, self.turns() as nat, (wins.0 as int, wins.1 as int)),
    {
        let mut first_game = game.clone();
        let first = Arena::resolve(&mut first_game, ai, ai2, self.max_turns);
        let mut second_game = game.clone();
        let second = Arena::resolve(&mut second_game, ai2, ai, self.max_turns);
        proof {
            let one = choose|one: Seq<Action>|
                ends_with(game@, one, self.turns() as nat, first as int);
            let two = choose|two: Seq<Action>|
                ends_with(game@, two, self.turns() as nat, second as int);
            assert(ends_with(game@, one, self.turns() as nat, first as int));
            assert(ends_with(game@, two, self.turns() as nat, second as int));
        }
        Arena::tally(first, second)
    }

    /// Makes two strategies play a game from the given state and returns
    /// the side that wins. `first` plays side 0 and acts first. A side that
    /// has no unit or no action open when its turn comes has lost. After
    /// `nb_rounds + 1` rounds the side with more units wins, side 0 if both
    /// have as many.
    pub fn resolve<A: AI + ?Sized, B: AI + ?Sized>(
        game: &mut Game,
        first: &mut A,
        second: &mut B,
        nb_rounds: usize,
    ) -> (winner: usize)
        requires
            old(game)@.wf(),
        ensures
            winner < 2,
            final(game)@.wf(),
            exists|taken: Seq<Action>|
                final(game)@ == old(game)@.after_all(taken) && #[trigger] ends_with(
                    old(game)@,
                    taken,
                    nb_rounds as nat,
                    winner as int,
                ),
    {
        let mut rounds: usize = 0;
        let ghost mut taken = Seq::<Action>::empty();
        proof {
            lemma_course_begins(old(game)@);
        }
        loop
            invariant_except_break
                taken.len() == 2 * rounds,
            invariant
                game@.wf(),
                rounds <= nb_rounds,
                is_course(old(game)@, taken),
                game@ == old(game)@.after_all(taken),
            ensures
                game@.wf(),
                taken.len() == 2 * (nb_rounds + 1),
                is_course(old(game)@, taken),
                game@ == old(game)@.after_all(taken),
            decreases nb_rounds - rounds,
        {
            match Arena::turn(game, first, 0) {
                None => {
                    proof {
                        lemma_ends_early(old(game)@, taken, nb_rounds as nat, 0);
                    }
                    return 1;
                },
                Some(mv) => {
                    proof {
                        lemma_course_goes_on(old(game)@, taken, mv);
                        taken = taken.push(mv);
                    }
                },
            }
            match Arena::turn(game, second, 1) {
                None => {
                    proof {
                        lemma_ends_early(old(game)@, taken, nb_rounds as nat, 1);
                    }
                    return 0;
                },
                Some(mv) => {
                    proof {
                        lemma_course_goes_on(old(game)@, taken, mv);
                        taken = taken.push(mv);
                    }
                },
            }
            if rounds >= nb_rounds {
                break ;
            }
            rounds += 1;
        }
        let winner: usize = if game.player_count(1) > game.player_count(0) {
            1
        } else {
            0
        };
        proof {
            lemma_ends_late(old(game)@, taken, nb_rounds as nat);
        }
        winner
    }

    /// The turn of `player`: if the player can act, the strategy picks an
    /// action, which is applied and returned.
    fn turn<A: AI + ?Sized>(game: &mut Game, ai: &mut A, player: usize) -> (taken: Option<Action>)
        requires
            old(game)@.wf(),
            player < 2,
        ensures
            final(game)@.wf(),
            taken is Some <==> old(game)@.can_act(player as int),
            taken is None ==> final(game)@ == old(game)@,
            taken matches Some(action) ==> old(game)@.legal_actions(player as int).contains(action)
                && final(game)@ == old(game)@.apply(action),
    {
        if game.is_terminal(player) || game.moves(player).len() == 0 {
            return None;
        }
        let mv = ai.play(game, player);
        game.apply_move(&mv);
        Some(mv)
    }
}

} // verus!

//! The battle as it is held in memory, and the operations on it.
use crate::seqs::lemma_flatten_step;
use crate::state::{
    cells, holds, last_holder, lemma_apart_positions, lemma_apply_legal, lemma_found_in_side,
    lemma_not_in_side, lemma_slot_is, lemma_symmetric_wf, lemma_terminal_no_actions,
    lemma_with_pair, moved, relocated, sides, slot, without, GameView,
};
use crate::unit::{Action, Position, Unit};
use rand::XorShiftRng;
use vstd::prelude::*;

verus! {

/// Why a random start could not be made.
#[derive(Clone, Copy, PartialEq, Eq, Debug, Structural)]
pub enum PlacementError {
    /// More units were asked for than the left half of the grid has cells.
    TooManyUnits,
    /// No free cell was drawn for a unit within the allowed number of draws.
    TriesExhausted,
}

/// The number of cells that may be drawn for one unit of a random start.
pub const MAX_PLACEMENT_TRIES: usize = 1000;

/// A state of the battle.
#[derive(Hash, PartialEq, Eq, Debug)]
pub struct Game {
    /// The width of the grid.
    width: usize,
    /// The height of the grid.
    height: usize,
    /// The units of each side.
    players: Vec<Vec<Unit>>,
}

impl View for Game {
    type V = GameView;

    closed spec fn view(&self) -> GameView {
        GameView { width: self.width, height: self.height, players: sides(self.players@) }
    }
}

fn copy_units(units: &Vec<Unit>) -> (copy: Vec<Unit>)
    ensures
        copy@ == units@,
{
    let mut copy: Vec<Unit> = Vec::new();
    let mut i: usize = 0;
    while i < units.len()
        invariant
            i <= units.len(),
            copy@ == units@.take(i as int),
        decreases units.len() - i,
    {
        copy.push(units[i]);
        assert(copy@ =~= units@.take(i + 1));
        i += 1;
    }
    assert(units@.take(units.len() as int) =~= units@);
    copy
}

impl Clone for Game {
    fn clone(&self) -> (copy: Self)
        ensures
            copy@ == self@,
    {
        let mut players: Vec<Vec<Unit>> = Vec::new();
        let mut s: usize = 0;
        while s < self.players.len()
            invariant
                s <= self.players.len(),
                players@.len() == s,
                forall|k: int| 0 <= k < s ==> (#[trigger] players@[k])@ == self.players@[k]@,
            decreases self.players.len() - s,
        {
            players.push(copy_units(&self.players[s]));
            s += 1;
        }
        assert(sides(players@) =~= sides(self.players@));
        Game { width: self.width, height: self.height, players }
    }
}

impl Game {
    /// Creates a game with the given dimensions and starting units.
    pub fn new(width: usize, height: usize, players: Vec<Vec<Unit>>) -> (game: Self)
        ensures
            game@ == (GameView { width, height, players: sides(players@) }),
    {
        Game { height, width, players }
    }

    /// Creates a random game of the given dimensions, with the given number
    /// of units for each player. The units of the two players stand
    /// symmetrically on the grid.
    pub fn new_random(
        width: usize,
        height: usize,
        units_per_player: usize,
        my_rand: &mut XorShiftRng,
    ) -> (made: Result<Self, PlacementError>)
        ensures
            made == Err::<Self, PlacementError>(PlacementError::TooManyUnits) <==> units_per_player
                > (width / 2) * height,
            units_per_player == 0 ==> made is Ok,
            made matches Ok(game) ==> {
                &&& game@.width == width
                &&& game@.height == height
                &&& game@.players[0].len() == units_per_player
                &&& game@.symmetric(width, height)
                &&& game@.apart()
                &&& game@.wf()
            },
    {
        let mut g = Game::new(width, height, Vec::new());
        match g.randomly_add(width, height, units_per_player, my_rand) {
            Ok(()) => Ok(g),
            Err(error) => Err(error),
        }
    }

    /// Puts `unit` on the grid for side 0, and its point reflection on a
    /// grid of the given dimensions for side 1, if no unit stands on the
    /// cell of `unit`. Tells whether it did.
    pub fn place_pair(&mut self, unit: Unit, width: usize, height: usize) -> (placed: bool)
        requires
            old(self)@.players.len() == 2,
            unit.pos.in_grid(width, height),
            unit.team <= 1,
        ensures
            placed == !old(self)@.occupied(unit.pos),
            placed ==> final(self)@ == old(self)@.with_pair(unit, width, height),
            !placed ==> final(self)@ == old(self)@,
    {
        if !self.is_free(unit.pos) {
            return false;
        }
        self.players[1].push(unit.reverse(width, height));
        self.players[0].push(unit);
        assert(self@.players =~= old(self)@.with_pair(unit, width, height).players);
        true
    }

    /// Replaces the units of the game by a random symmetric start: each
    /// unit of side 0 is drawn in the left half of a grid of the given
    /// dimensions, on a cell that is still free, and side 1 gets its point
    /// reflection. On an error the game is left as it was.
    pub fn randomly_add(
        &mut self,
        width: usize,
        height: usize,
        units_per_player: usize,
        my_rand: &mut XorShiftRng,
    ) -> (done: Result<(), PlacementError>)
        ensures
            done == Err::<(), PlacementError>(PlacementError::TooManyUnits) <==> units_per_player
                > (width / 2) * height,
            units_per_player == 0 ==> done is Ok,
            done is Err ==> final(self)@ == old(self)@,
            done is Ok ==> {
                &&& final(self)@.width == old(self)@.width
                &&& final(self)@.height == old(self)@.height
                &&& final(self)@.players[0].len() == units_per_player
                &&& final(self)@.symmetric(width, height)
                &&& final(self)@.apart()
                &&& (width == old(self)@.width && height == old(self)@.height)
                    ==> final(self)@.wf()
            },
    {
        let fits = match (width / 2).checked_mul(height) {
            Some(cells) => units_per_player <= cells,
            None => true,
        };
        if !fits {
            return Err(PlacementError::TooManyUnits);
        }
        let mut start = Game::new(self.width, self.height, vec![Vec::new(), Vec::new()]);
        assert(start@.players =~= seq![Seq::<Unit>::empty(), Seq::<Unit>::empty()]);
        assert(start@.players[1] =~= start@.players[0].map_values(
            |unit: Unit| unit.mirrored(width, height),
        ));
        let mut placed: usize = 0;
        while placed < units_per_player
            invariant
                placed <= units_per_player <= (width / 2) * height,
                start@.width == old(self)@.width,
                start@.height == old(self)@.height,
                start@.players[0].len() == placed,
                start@.symmetric(width, height),
                start@.apart(),
                *self == *old(self),
            decreases units_per_player - placed,
        {
            assert(width / 2 > 0 && height > 0) by (nonlinear_arith)
                requires
                    0 < (width / 2) * height,
            ;
            let mut tries: usize = 0;
            let mut found = false;
            while !found && tries < MAX_PLACEMENT_TRIES
                invariant
                    width / 2 > 0,
                    height > 0,
                    placed < units_per_player,
                    tries <= MAX_PLACEMENT_TRIES,
                    start@.width == old(self)@.width,
                    start@.height == old(self)@.height,
                    start@.players[0].len() == if found {
                        placed + 1
                    } else {
                        placed as int
                    },
                    start@.symmetric(width, height),
                    start@.apart(),
                decreases MAX_PLACEMENT_TRIES - tries,
            {
                let unit = Unit::new_random(0, width / 2, height, my_rand, 0);
                proof {
                    if !start@.occupied(unit.pos) {
                        lemma_with_pair(start@, unit, width, height);
                    }
                }
                found = start.place_pair(unit, width, height);
                tries += 1;
            }
            if !found {
                return Err(PlacementError::TriesExhausted);
            }
            placed += 1;
        }
        proof {
            if width == old(self)@.width && height == old(self)@.height {
                lemma_symmetric_wf(start@);
            }
        }
        self.players = start.players;
        Ok(())
    }

    /// Whether the game is a battle in order: two sides, every unit on the
    /// grid and listed under its own side, no two units on one cell.
    pub fn is_well_formed(&self) -> (ok: bool)
        ensures
            ok == self@.wf(),
    {
        if self.players.len() != 2 {
            return false;
        }
        if !all_placed(&self.players[0], 0, self.width, self.height) {
            assert(!self@.wf()) by {
                if self@.wf() {
                    assert forall|i: int| 0 <= i < self@.players[0].len() implies (
                    #[trigger] self@.players[0][i]).pos.in_grid(self.width, self.height)
                        && self@.players[0][i].team == 0 by {}
                }
            }
            return false;
        }
        if !all_placed(&self.players[1], 1, self.width, self.height) {
            assert(!self@.wf()) by {
                if self@.wf() {
                    assert forall|i: int| 0 <= i < self@.players[1].len() implies (
                    #[trigger] self@.players[1][i]).pos.in_grid(self.width, self.height)
                        && self@.players[1][i].team == 1 by {}
                }
            }
            return false;
        }
        proof {
            lemma_apart_positions(self@);
        }
        all_differ(&self.positions())
    }

    /// Whether the action is open to one of the two sides.
    pub fn is_legal(&self, action: &Action) -> (ok: bool)
        requires
            self@.players.len() == 2,
        ensures
            ok == self@.is_legal(*action),
    {
        let ok = has_action(&self.moves(0), action) || has_action(&self.moves(1), action);
        ok
    }

    /// Removes the last `units` units of `player`.
    pub fn remove_unit_for_player(&mut self, player: usize, units: usize) -> (this: &mut Self)
        requires
            player < old(self)@.players.len(),
            units <= old(self)@.players[player as int].len(),
        ensures
            *final(self) == *final(this),
            old(self)@.wf() ==> this@.wf(),
            this@ == (GameView {
                players: old(self)@.players.update(
                    player as int,
                    old(self)@.players[player as int].take(
                        old(self)@.players[player as int].len() - units,
                    ),
                ),
                ..old(self)@
            }),
    {
        let ghost before = self.players@[player as int]@;
        let mut n: usize = 0;
        while n < units
            invariant
                n <= units <= before.len(),
                player < self.players@.len(),
                self.width == old(self).width,
                self.height == old(self).height,
                self.players@.len() == old(self).players@.len(),
                forall|s: int|
                    0 <= s < self.players@.len() && s != player ==> self.players@[s] == old(
                        self,
                    ).players@[s],
                self.players@[player as int]@ == before.take(before.len() - n),
            decreases units - n,
        {
            self.players[player].pop();
            assert(self.players@[player as int]@ =~= before.take(before.len() - (n + 1)));
            n += 1;
        }
        assert(self@.players =~= old(self)@.players.update(
            player as int,
            before.take(before.len() - units),
        ));
        proof {
            if old(self)@.wf() {
                assert forall|s: int, i: int|
                    0 <= s < 2 && 0 <= i < self@.players[s].len() implies (
                #[trigger] self@.players[s][i]) == old(self)@.players[s][i] by {}
            }
        }
        self
    }

    /// The units of the given player.
    pub fn player(&self, player: usize) -> (units: Vec<Unit>)
        requires
            player < self@.players.len(),
        ensures
            units@ == self@.players[player as int],
    {
        copy_units(&self.players[player])
    }

    /// The number of units of the given player.
    pub fn player_count(&self, player: usize) -> (count: usize)
        requires
            player < self@.players.len(),
        ensures
            count == self@.players[player as int].len(),
    {
        self.players[player].len()
    }

    /// Whether the given player has no unit left.
    pub fn is_terminal(&self, player: usize) -> (over: bool)
        requires
            player < self@.players.len(),
        ensures
            over == self@.is_terminal(player as int),
    {
        self.players[player].len() == 0
    }

    /// The width of the grid.
    pub fn width(&self) -> (width: usize)
        ensures
            width == self@.width,
    {
        self.width
    }

    /// The height of the grid.
    pub fn height(&self) -> (height: usize)
        ensures
            height == self@.height,
    {
        self.height
    }

    /// The positions taken by units.
    pub fn positions(&self) -> (taken: Vec<Position>)
        ensures
            taken@ == self@.positions(),
    {
        let ghost all = sides(self.players@);
        let mut taken: Vec<Position> = Vec::new();
        let mut s: usize = 0;
        while s < self.players.len()
            invariant
                s <= self.players.len(),
                all == sides(self.players@),
                taken@ == cells(all.take(s as int).flatten()),
            decreases self.players.len() - s,
        {
            let ghost before = all.take(s as int).flatten();
            let side = &self.players[s];
            let mut i: usize = 0;
            while i < side.len()
                invariant
                    i <= side.len(),
                    taken@ == cells(before + side@.take(i as int)),
                decreases side.len() - i,
            {
                taken.push(side[i].pos);
                assert(taken@ =~= cells(before + side@.take(i + 1)));
                i += 1;
            }
            proof {
                assert(side@.take(side.len() as int) =~= side@);
                lemma_flatten_step(all, s as int);
            }
            s += 1;
        }
        assert(all.take(self.players.len() as int) =~= all);
        taken
    }

    /// The side whose unit stands on the given position, counted from 1, or
    /// 0 if no unit stands there. If units of several sides stand there,
    /// the last of these sides.
    pub fn occupant(&self, pos: Position) -> (side: usize)
        ensures
            side == last_holder(self@.players, pos),
    {
        let ghost all = sides(self.players@);
        let mut someone: usize = 0;
        let mut player: usize = 0;
        while player < self.players.len()
            invariant
                player <= self.players.len(),
                all == sides(self.players@),
                someone == last_holder(all.take(player as int), pos),
            decreases self.players.len() - player,
        {
            assert(all.take(player + 1).drop_last() =~= all.take(player as int));
            if first_on(&self.players[player], pos).is_some() {
                someone = player + 1;
            }
            player += 1;
        }
        assert(all.take(self.players.len() as int) =~= all);
        someone
    }

    /// Whether no unit stands on the given position.
    pub fn is_free(&self, pos: Position) -> (free: bool)
        ensures
            free == !self@.occupied(pos),
    {
        self.at(pos).is_none()
    }

    /// The unit at the given position: the first, side after side, if
    /// several stand there.
    pub fn at(&self, pos: Position) -> (found: Option<Unit>)
        ensures
            found == self@.unit_at(pos),
    {
        let ghost all = sides(self.players@);
        let mut player: usize = 0;
        while player < self.players.len()
            invariant
                player <= self.players.len(),
                all == sides(self.players@),
                !holds(all.take(player as int).flatten(), pos),
            decreases self.players.len() - player,
        {
            let side = &self.players[player];
            match first_on(side, pos) {
                Some(unit) => {
                    proof {
                        lemma_found_in_side(all, player as int, pos);
                    }
                    return Some(side[unit]);
                },
                None => {
                    proof {
                        lemma_not_in_side(all, player as int, pos);
                    }
                },
            }
            player += 1;
        }
        assert(all.take(self.players.len() as int) =~= all);
        None
    }

    /// Applies the given action: the unit shoots where asked, then moves.
    pub fn apply_move(&mut self, action: &Action)
        requires
            old(self)@.wf(),
            old(self)@.is_legal(*action),
        ensures
            final(self)@ == old(self)@.apply(*action),
            final(self)@.wf(),
            final(self)@.unit_count() + (if old(self)@.occupied(action.shoot) {
                1nat
            } else {
                0nat
            }) == old(self)@.unit_count(),
    {
        let mut player: usize = 0;
        while player < self.players.len()
            invariant
                player <= self.players.len(),
                self.width == old(self).width,
                self.height == old(self).height,
                self.players@.len() == old(self).players@.len(),
                forall|s: int|
                    0 <= s < self.players@.len() ==> (#[trigger] self.players@[s])@ == if s
                        < player {
                        without(old(self).players@[s]@, action.shoot)
                    } else {
                        old(self).players@[s]@
                    },
            decreases self.players.len() - player,
        {
            strike(&mut self.players[player], action.shoot);
            player += 1;
        }
        let mut player: usize = 0;
        while player < self.players.len()
            invariant
                player <= self.players.len(),
                self.width == old(self).width,
                self.height == old(self).height,
                self.players@.len() == old(self).players@.len(),
                forall|s: int|
                    0 <= s < self.players@.len() ==> (#[trigger] self.players@[s])@ == if s
                        < player {
                        moved(
                            without(old(self).players@[s]@, action.shoot),
                            action.unit,
                            action.mv,
                        )
                    } else {
                        without(old(self).players@[s]@, action.shoot)
                    },
            decreases self.players.len() - player,
        {
            relocate(&mut self.players[player], action.unit, action.mv);
            player += 1;
        }
        proof {
            assert(self@.players =~= old(self)@.apply(*action).players);
            let side: int = if old(self)@.legal_actions(0).contains(*action) {
                0
            } else {
                1
            };
            lemma_apply_legal(old(self)@, side, *action);
        }
    }

    /// All the actions open to the given player. One unit moves and shoots
    /// in a turn.
    pub fn moves(&self, player: usize) -> (actions: Vec<Action>)
        requires
            player < self@.players.len(),
        ensures
            actions@ == self@.legal_actions(player as int),
            self@.is_terminal(player as int) ==> actions@.len() == 0,
    {
        proof {
            if self@.is_terminal(player as int) {
                lemma_terminal_no_actions(self@, player as int);
            }
        }
        let positions = self.positions();
        let side = &self.players[player];
        let ghost f = self@.unit_actions_fn();
        let mut mvs: Vec<Action> = Vec::new();
        let mut i: usize = 0;
        while i < side.len()
            invariant
                i <= side.len(),
                side@ == self@.players[player as int],
                positions@ == self@.positions(),
                f == self@.unit_actions_fn(),
                mvs@ == side@.take(i as int).flat_map(f),
            decreases side.len() - i,
        {
            proof {
                side@.lemma_flat_map_take_append(f, i as int);
            }
            let mut actions = side[i].actions(self.width, self.height, &positions);
            mvs.append(&mut actions);
            i += 1;
        }
        assert(side@.take(side.len() as int) =~= side@);
        mvs
    }
}

fn has_action(actions: &Vec<Action>, action: &Action) -> (found: bool)
    ensures
        found == actions@.contains(*action),
{
    let mut i: usize = 0;
    while i < actions.len()
        invariant
            i <= actions.len(),
            forall|k: int| 0 <= k < i ==> actions@[k] != *action,
        decreases actions.len() - i,
    {
        if actions[i] == *action {
            return true;
        }
        i += 1;
    }
    false
}

fn all_differ(cells: &Vec<Position>) -> (ok: bool)
    ensures
        ok == cells@.no_duplicates(),
{
    let mut i: usize = 0;
    while i < cells.len()
        invariant
            i <= cells.len(),
            forall|a: int, b: int| 0 <= a < b < cells@.len() && a < i ==> cells@[a] != cells@[b],
        decreases cells.len() - i,
    {
        let mut j: usize = i + 1;
        while j < cells.len()
            invariant
                i < j <= cells.len(),
                forall|b: int| i < b < j ==> cells@[i as int] != cells@[b],
            decreases cells.len() - j,
        {
            if cells[i] == cells[j] {
                return false;
            }
            j += 1;
        }
        i += 1;
    }
    assert forall|a: int, b: int|
        0 <= a < cells@.len() && 0 <= b < cells@.len() && a != b implies cells@[a]
        != cells@[b] by {
        if a < b {
            assert(cells@[a] != cells@[b]);
        } else {
            assert(cells@[b] != cells@[a]);
        }
    }
    true
}

fn all_placed(side: &Vec<Unit>, team: usize, width: usize, height: usize) -> (ok: bool)
    ensures
        ok == forall|i: int|
            0 <= i < side@.len() ==> (#[trigger] side@[i]).pos.in_grid(width, height)
                && side@[i].team == team,
{
    let mut i: usize = 0;
    while i < side.len()
        invariant
            i <= side.len(),
            forall|k: int|
                0 <= k < i ==> (#[trigger] side@[k]).pos.in_grid(width, height) && side@[k].team
                    == team,
        decreases side.len() - i,
    {
        let unit = &side[i];
        if !(unit.pos.x < width && unit.pos.y < height && unit.team == team) {
            return false;
        }
        i += 1;
    }
    true
}

fn first_on(side: &Vec<Unit>, cell: Position) -> (found: Option<usize>)
    ensures
        found is Some <==> holds(side@, cell),
        found matches Some(place) ==> place == slot(side@, cell) && place < side@.len()
            && side@[place as int].pos == cell,
{
    let mut unit: usize = 0;
    while unit < side.len()
        invariant
            unit <= side.len(),
            forall|k: int| 0 <= k < unit ==> (#[trigger] side@[k]).pos != cell,
        decreases side.len() - unit,
    {
        if side[unit].pos == cell {
            proof {
                lemma_slot_is(side@, cell, unit as int);
            }
            return Some(unit);
        }
        unit += 1;
    }
    None
}

fn strike(side: &mut Vec<Unit>, cell: Position)
    ensures
        final(side)@ == without(old(side)@, cell),
{
    match first_on(side, cell) {
        Some(unit) => {
            side.remove(unit);
        },
        None => {},
    }
}

fn relocate(side: &mut Vec<Unit>, from: Position, to: Position)
    ensures
        final(side)@ == moved(old(side)@, from, to),
{
    let mut unit: usize = 0;
    while unit < side.len()
        invariant
            unit <= side.len(),
            side@.len() == old(side)@.len(),
            forall|k: int|
                0 <= k < side@.len() ==> #[trigger] side@[k] == if k < unit {
                    relocated(old(side)@[k], from, to)
                } else {
                    old(side)@[k]
                },
        decreases side.len() - unit,
    {
        if side[unit].pos == from {
            side[unit].pos = to;
        }
        unit += 1;
    }
    assert(side@ =~= moved(old(side)@, from, to));
}

} // verus!

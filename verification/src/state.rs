//! The state of a battle as a mathematical value, the rules that say which
//! actions are open and what an action does, and what follows from them.
use crate::seqs::{
    lemma_filter_map_covers, lemma_flat_map_contains, lemma_flat_map_covers, lemma_flatten_split,
    lemma_flatten_step,
};
use crate::unit::{Action, Position, Unit};
use vstd::prelude::*;

verus! {

/// The mathematical content of a game: the grid's dimensions and the units
/// of each side, in order.
pub struct GameView {
    pub width: usize,
    pub height: usize,
    pub players: Seq<Seq<Unit>>,
}

/// The unit lists as sequences.
pub open spec fn sides(players: Seq<Vec<Unit>>) -> Seq<Seq<Unit>> {
    Seq::new(players.len(), |s: int| players[s]@)
}

/// The cells on which the units of one side stand, in order.
pub open spec fn cells(side: Seq<Unit>) -> Seq<Position> {
    Seq::new(side.len(), |i: int| side[i].pos)
}

/// Whether a unit of `side` stands on `cell`.
pub open spec fn holds(side: Seq<Unit>, cell: Position) -> bool {
    exists|i: int| 0 <= i < side.len() && (#[trigger] side[i]).pos == cell
}

/// Whether the unit at `place` is the first of `side` that stands on `cell`.
pub open spec fn is_first_on(side: Seq<Unit>, cell: Position, place: int) -> bool {
    &&& 0 <= place < side.len()
    &&& side[place].pos == cell
    &&& forall|j: int| 0 <= j < place ==> (#[trigger] side[j]).pos != cell
}

/// The place in `side` of the first unit that stands on `cell`.
pub open spec fn slot(side: Seq<Unit>, cell: Position) -> int {
    choose|place: int| is_first_on(side, cell, place)
}

/// `side` after a shot at `cell`: the first unit standing there, if any, is
/// gone.
pub open spec fn without(side: Seq<Unit>, cell: Position) -> Seq<Unit> {
    if holds(side, cell) {
        side.remove(slot(side, cell))
    } else {
        side
    }
}

/// The place that the unit at place `i` of `without(side, cell)` had in
/// `side`.
pub open spec fn origin(side: Seq<Unit>, cell: Position, i: int) -> int {
    if holds(side, cell) && i >= slot(side, cell) {
        i + 1
    } else {
        i
    }
}

/// `unit`, standing on `to` if it stood on `from`.
pub open spec fn relocated(unit: Unit, from: Position, to: Position) -> Unit {
    if unit.pos == from {
        Unit { unit_type: unit.unit_type, pos: to, team: unit.team }
    } else {
        unit
    }
}

/// `side` after the unit on `from`, if any, has gone to `to`.
pub open spec fn moved(side: Seq<Unit>, from: Position, to: Position) -> Seq<Unit> {
    Seq::new(side.len(), |i: int| relocated(side[i], from, to))
}

/// The number, counted from 1, of the last of the given sides that has a unit
/// on `cell`, or 0 if none has.
pub open spec fn last_holder(players: Seq<Seq<Unit>>, cell: Position) -> nat
    decreases players.len(),
{
    if players.len() == 0 {
        0
    } else if holds(players.last(), cell) {
        players.len()
    } else {
        last_holder(players.drop_last(), cell)
    }
}

impl GameView {
    /// All the units, side after side.
    pub open spec fn units(self) -> Seq<Unit> {
        self.players.flatten()
    }

    /// The cells taken by units, side after side.
    pub open spec fn positions(self) -> Seq<Position> {
        cells(self.units())
    }

    /// Whether some unit stands on `cell`.
    pub open spec fn occupied(self, cell: Position) -> bool {
        holds(self.units(), cell)
    }

    /// The first unit, side after side, that stands on `cell`.
    pub open spec fn unit_at(self, cell: Position) -> Option<Unit> {
        if self.occupied(cell) {
            Some(self.units()[slot(self.units(), cell)])
        } else {
            None
        }
    }

    /// The number of units on the grid.
    pub open spec fn unit_count(self) -> nat {
        self.units().len()
    }

    /// The actions of one unit in this state, as a function of the unit.
    pub open spec fn unit_actions_fn(self) -> spec_fn(Unit) -> Seq<Action> {
        |unit: Unit| unit.all_actions(self.width, self.height, self.positions())
    }

    /// The actions open to `player`: those of each of its units, in order.
    pub open spec fn legal_actions(self, player: int) -> Seq<Action> {
        self.players[player].flat_map(self.unit_actions_fn())
    }

    /// Whether `action` is open to one of the two sides.
    pub open spec fn is_legal(self, action: Action) -> bool {
        self.legal_actions(0).contains(action) || self.legal_actions(1).contains(action)
    }

    /// Whether `player` has no unit left.
    pub open spec fn is_terminal(self, player: int) -> bool {
        self.players[player].len() == 0
    }

    /// The state after the actions `taken`, one after the other.
    pub open spec fn after_all(self, taken: Seq<Action>) -> GameView
        decreases taken.len(),
    {
        if taken.len() == 0 {
            self
        } else {
            self.after_all(taken.drop_last()).apply(taken.last())
        }
    }

    /// Whether `player` can act: it has a unit and an action open to it.
    pub open spec fn can_act(self, player: int) -> bool {
        self.players[player].len() > 0 && self.legal_actions(player).len() > 0
    }

    /// The side with more units, side 0 if both have as many.
    pub open spec fn leader(self) -> int {
        if self.players[1].len() > self.players[0].len() {
            1
        } else {
            0
        }
    }

    /// Whether no two units of the two sides stand on one cell.
    pub open spec fn apart(self) -> bool {
        forall|s: int, i: int, t: int, j: int|
            0 <= s < 2 && 0 <= i < self.players[s].len() && 0 <= t < 2 && 0 <= j
                < self.players[t].len() && (s != t || i != j) ==> (
            #[trigger] self.players[s][i]).pos != (#[trigger] self.players[t][j]).pos
    }

    /// A battle in order: two sides, every unit on the grid and listed under
    /// its own side, no two units on one cell.
    pub open spec fn wf(self) -> bool {
        &&& self.players.len() == 2
        &&& forall|s: int, i: int|
            0 <= s < 2 && 0 <= i < self.players[s].len() ==> {
                &&& (#[trigger] self.players[s][i]).pos.in_grid(self.width, self.height)
                &&& self.players[s][i].team == s
            }
        &&& self.apart()
    }

    /// A symmetric start on a grid of the given dimensions: the units of
    /// side 0 stand in the left half, and each unit of side 1 is the
    /// point reflection of the unit of side 0 at the same place.
    pub open spec fn symmetric(self, width: usize, height: usize) -> bool {
        &&& self.players.len() == 2
        &&& forall|i: int|
            0 <= i < self.players[0].len() ==> {
                &&& (#[trigger] self.players[0][i]).pos.x < width / 2
                &&& self.players[0][i].pos.y < height
                &&& self.players[0][i].team == 0
            }
        &&& self.players[1] == self.players[0].map_values(
            |unit: Unit| unit.mirrored(width, height),
        )
    }

    /// The state with `unit` added to side 0 and its point reflection, on a
    /// grid of the given dimensions, added to side 1.
    pub open spec fn with_pair(self, unit: Unit, width: usize, height: usize) -> GameView {
        GameView {
            width: self.width,
            height: self.height,
            players: seq![
                self.players[0].push(unit),
                self.players[1].push(unit.mirrored(width, height)),
            ],
        }
    }

    /// The state after `action`: the shot removes the unit on the target
    /// cell, then the unit on the source cell goes to its destination.
    pub open spec fn apply(self, action: Action) -> GameView {
        GameView {
            width: self.width,
            height: self.height,
            players: Seq::new(
                self.players.len(),
                |s: int| moved(without(self.players[s], action.shoot), action.unit, action.mv),
            ),
        }
    }
}

/// With two sides, the units are those of the first side, then those of
/// the second.
pub(crate) proof fn lemma_two_sides(g: GameView)
    requires
        g.players.len() == 2,
    ensures
        g.units() == g.players[0] + g.players[1],
{
    lemma_flatten_split(g.players, 0);
    assert(g.players.take(0).flatten() =~= Seq::<Unit>::empty());
    assert(g.players.skip(1) =~= seq![g.players[1]]);
    g.players.skip(1).lemma_flatten_singleton();
    assert(g.units() =~= g.players[0] + g.players[1]);
}

/// With two sides, a cell is occupied exactly when a unit of one of them
/// stands on it.
pub proof fn lemma_occupied_sides(g: GameView, cell: Position)
    requires
        g.players.len() == 2,
    ensures
        g.occupied(cell) <==> holds(g.players[0], cell) || holds(g.players[1], cell),
{
    lemma_two_sides(g);
    let all = g.players[0] + g.players[1];
    if g.occupied(cell) {
        let k = choose|k: int| 0 <= k < all.len() && (#[trigger] all[k]).pos == cell;
        if k < g.players[0].len() {
            assert(g.players[0][k].pos == cell);
        } else {
            assert(g.players[1][k - g.players[0].len()].pos == cell);
        }
    }
    if holds(g.players[0], cell) {
        let i = choose|i: int|
            0 <= i < g.players[0].len() && (#[trigger] g.players[0][i]).pos == cell;
        assert(all[i].pos == cell);
    }
    if holds(g.players[1], cell) {
        let i = choose|i: int|
            0 <= i < g.players[1].len() && (#[trigger] g.players[1][i]).pos == cell;
        assert(all[g.players[0].len() + i].pos == cell);
    }
}

/// Among the units standing on a cell, one comes first.
pub(crate) proof fn lemma_slot(side: Seq<Unit>, cell: Position)
    requires
        holds(side, cell),
    ensures
        is_first_on(side, cell, slot(side, cell)),
{
    let last = choose|i: int| 0 <= i < side.len() && (#[trigger] side[i]).pos == cell;
    lemma_first_from(side, cell, 0, last);
}

/// Where no unit before place `start` stands on the cell and the unit at
/// place `last` does, a first unit stands on it.
proof fn lemma_first_from(side: Seq<Unit>, cell: Position, start: int, last: int)
    requires
        0 <= start <= last < side.len(),
        side[last].pos == cell,
        forall|j: int| 0 <= j < start ==> (#[trigger] side[j]).pos != cell,
    ensures
        exists|place: int| is_first_on(side, cell, place),
    decreases last - start,
{
    if side[start].pos == cell {
        assert(is_first_on(side, cell, start));
    } else {
        lemma_first_from(side, cell, start + 1, last);
    }
}

/// The first unit that stands on a cell is at the place before which no unit
/// stands on it.
pub(crate) proof fn lemma_slot_is(side: Seq<Unit>, cell: Position, place: int)
    requires
        is_first_on(side, cell, place),
    ensures
        holds(side, cell),
        slot(side, cell) == place,
{
    let first = slot(side, cell);
    if first < place {
        assert(side[first].pos != cell);
    } else if place < first {
        assert(side[place].pos != cell);
    }
}

/// Where no unit of the sides before side `s` stands on a cell and a unit of
/// side `s` does, the first unit of all on the cell is the first of that side.
pub(crate) proof fn lemma_found_in_side(all: Seq<Seq<Unit>>, s: int, cell: Position)
    requires
        0 <= s < all.len(),
        !holds(all.take(s).flatten(), cell),
        holds(all[s], cell),
    ensures
        holds(all.flatten(), cell),
        all.flatten()[slot(all.flatten(), cell)] == all[s][slot(all[s], cell)],
{
    lemma_flatten_split(all, s);
    lemma_slot(all[s], cell);
    let before = all.take(s).flatten();
    let units = all.flatten();
    let k = before.len() + slot(all[s], cell);
    assert(units[k] == all[s][slot(all[s], cell)]);
    assert forall|j: int| 0 <= j < k implies (#[trigger] units[j]).pos != cell by {
        if j < before.len() {
            assert(units[j] == before[j]);
        } else {
            assert(units[j] == all[s][j - before.len()]);
        }
    }
    lemma_slot_is(units, cell, k);
}

/// Where no unit of the sides up to side `s` stands on a cell, none of the
/// sides up to the next does.
pub(crate) proof fn lemma_not_in_side(all: Seq<Seq<Unit>>, s: int, cell: Position)
    requires
        0 <= s < all.len(),
        !holds(all.take(s).flatten(), cell),
        !holds(all[s], cell),
    ensures
        !holds(all.take(s + 1).flatten(), cell),
{
    lemma_flatten_step(all, s);
    let before = all.take(s).flatten();
    let next = all.take(s + 1).flatten();
    assert forall|k: int| 0 <= k < next.len() implies (#[trigger] next[k]).pos != cell by {
        if k < before.len() {
            assert(next[k] == before[k]);
        } else {
            assert(next[k] == all[s][k - before.len()]);
        }
    }
}

/// With two sides, the units stand apart exactly when no cell is listed
/// twice among the positions.
pub proof fn lemma_apart_positions(g: GameView)
    requires
        g.players.len() == 2,
    ensures
        g.apart() <==> g.positions().no_duplicates(),
{
    lemma_two_sides(g);
    let first = g.players[0];
    let second = g.players[1];
    let taken = g.positions();
    assert forall|k: int| 0 <= k < taken.len() implies #[trigger] taken[k] == if k < first.len() {
        first[k].pos
    } else {
        second[k - first.len()].pos
    } by {}
    if g.apart() {
        assert forall|a: int, b: int|
            0 <= a < taken.len() && 0 <= b < taken.len() && a != b implies taken[a]
            != taken[b] by {
            let s: int = if a < first.len() { 0 } else { 1 };
            let i = if a < first.len() { a } else { a - first.len() };
            let t: int = if b < first.len() { 0 } else { 1 };
            let j = if b < first.len() { b } else { b - first.len() };
            assert(g.players[s][i].pos != g.players[t][j].pos);
        }
    }
    if taken.no_duplicates() {
        assert forall|s: int, i: int, t: int, j: int|
            0 <= s < 2 && 0 <= i < g.players[s].len() && 0 <= t < 2 && 0 <= j
                < g.players[t].len() && (s != t || i != j) implies (
        #[trigger] g.players[s][i]).pos != (#[trigger] g.players[t][j]).pos by {
            let a = if s == 0 { i } else { first.len() + i };
            let b = if t == 0 { j } else { first.len() + j };
            assert(taken[a] != taken[b]);
        }
    }
}

/// A cell is among the positions exactly when a unit stands on it.
pub proof fn lemma_positions_occupied(g: GameView, cell: Position)
    ensures
        g.positions().contains(cell) <==> g.occupied(cell),
{
    let units = g.units();
    if g.positions().contains(cell) {
        let k = choose|k: int| 0 <= k < cells(units).len() && cells(units)[k] == cell;
        assert(units[k].pos == cell);
    }
    if g.occupied(cell) {
        let k = choose|k: int| 0 <= k < units.len() && (#[trigger] units[k]).pos == cell;
        assert(cells(units)[k] == cell);
    }
}

/// A shot takes at most one unit from a side and keeps the others, in order.
proof fn lemma_without(side: Seq<Unit>, cell: Position)
    ensures
        without(side, cell).len() + (if holds(side, cell) {
            1nat
        } else {
            0nat
        }) == side.len(),
        forall|i: int|
            0 <= i < without(side, cell).len() ==> {
                &&& 0 <= origin(side, cell, i) < side.len()
                &&& (#[trigger] without(side, cell)[i]) == side[origin(side, cell, i)]
            },
        forall|i: int, j: int|
            0 <= i < j < without(side, cell).len() ==> origin(side, cell, i) < origin(
                side,
                cell,
                j,
            ),
{
    if holds(side, cell) {
        lemma_slot(side, cell);
    }
}

/// A side without units has no action open to it.
pub proof fn lemma_terminal_no_actions(g: GameView, player: int)
    requires
        0 <= player < g.players.len(),
        g.is_terminal(player),
    ensures
        g.legal_actions(player) == Seq::<Action>::empty(),
{
    assert(g.players[player].map_values(g.unit_actions_fn()) =~= Seq::<Seq<Action>>::empty());
}

/// What holds of every action open to a player: it is the action of one of
/// the player's units, the destination is a free cell of the grid that one
/// move offset of the unit reaches, and the target is a cell of the grid that
/// one shoot offset of the unit reaches from the destination.
pub proof fn lemma_legal_action(g: GameView, player: int, action: Action)
    requires
        0 <= player < g.players.len(),
        g.legal_actions(player).contains(action),
    ensures
        exists|i: int, m: int, t: int|
            {
                &&& 0 <= i < g.players[player].len()
                &&& 0 <= m < g.players[player][i].unit_type.move_offsets().len()
                &&& 0 <= t < g.players[player][i].unit_type.shoot_offsets().len()
                &&& #[trigger] g.players[player][i].makes(
                    g.players[player][i].unit_type.move_offsets()[m],
                    g.players[player][i].unit_type.shoot_offsets()[t],
                    action,
                )
            },
        holds(g.players[player], action.unit),
        action.mv.in_grid(g.width, g.height),
        !g.occupied(action.mv),
        action.shoot.in_grid(g.width, g.height),
{
    let side = g.players[player];
    let per_unit = g.unit_actions_fn();
    lemma_flat_map_contains(side, per_unit, action);
    let i = choose|i: int| 0 <= i < side.len() && (#[trigger] per_unit(side[i])).contains(action);
    let unit = side[i];
    let offsets = unit.unit_type.move_offsets();
    let per_move = unit.actions_by_fn(g.width, g.height, g.positions());
    lemma_flat_map_contains(offsets, per_move, action);
    let m = choose|m: int| 0 <= m < offsets.len() && (#[trigger] per_move(offsets[m])).contains(
        action,
    );
    let to = unit.pos.shifted(offsets[m]).unwrap();
    let targets = unit.targets(to, g.width, g.height);
    let shots = unit.shots(to, targets);
    assert(per_move(offsets[m]) == shots);
    let k = choose|k: int| 0 <= k < shots.len() && shots[k] == action;
    assert(targets.contains(targets[k]));
    let aim = Unit::target_fn(to, g.width, g.height);
    let reach = unit.unit_type.shoot_offsets();
    reach.lemma_filter_map_contains(aim, action.shoot);
    let offset = choose|offset: (i32, i32)| #[trigger]
        reach.contains(offset) && aim(offset) == Some(action.shoot);
    let t = choose|t: int| 0 <= t < reach.len() && reach[t] == offset;
    assert(side[i].makes(offsets[m], reach[t], action));
    assert(side[i].pos == action.unit);
    lemma_positions_occupied(g, action.mv);
}

/// The converse of `lemma_legal_action`: the action of a unit of the player
/// by one of its move offsets and then one of its shoot offsets is open to
/// the player, if the destination is a free cell of the grid and the target
/// a cell of the grid.
pub proof fn lemma_action_is_legal(
    g: GameView,
    player: int,
    i: int,
    m: int,
    t: int,
    action: Action,
)
    requires
        0 <= player < g.players.len(),
        0 <= i < g.players[player].len(),
        0 <= m < g.players[player][i].unit_type.move_offsets().len(),
        0 <= t < g.players[player][i].unit_type.shoot_offsets().len(),
        g.players[player][i].makes(
            g.players[player][i].unit_type.move_offsets()[m],
            g.players[player][i].unit_type.shoot_offsets()[t],
            action,
        ),
        action.mv.in_grid(g.width, g.height),
        !g.occupied(action.mv),
        action.shoot.in_grid(g.width, g.height),
    ensures
        g.legal_actions(player).contains(action),
{
    let unit = g.players[player][i];
    let offsets = unit.unit_type.move_offsets();
    let reach = unit.unit_type.shoot_offsets();
    lemma_positions_occupied(g, action.mv);
    let aim = Unit::target_fn(action.mv, g.width, g.height);
    lemma_filter_map_covers(reach, aim, t, action.shoot);
    let targets = unit.targets(action.mv, g.width, g.height);
    let k = choose|k: int| 0 <= k < targets.len() && targets[k] == action.shoot;
    let shots = unit.shots(action.mv, targets);
    assert(shots[k] == action);
    let per_move = unit.actions_by_fn(g.width, g.height, g.positions());
    assert(per_move(offsets[m]) == shots);
    lemma_flat_map_covers(offsets, per_move, m, action);
    let per_unit = g.unit_actions_fn();
    assert(per_unit(g.players[player][i]).contains(action));
    lemma_flat_map_covers(g.players[player], per_unit, i, action);
}

/// In a battle in order, the units at two different places stand on
/// different cells, each of them occupied.
proof fn lemma_wf_apart(g: GameView, s: int, a: int, t: int, b: int)
    requires
        g.wf(),
        0 <= s < 2,
        0 <= t < 2,
        0 <= a < g.players[s].len(),
        0 <= b < g.players[t].len(),
        s != t || a != b,
    ensures
        g.players[s][a].pos != g.players[t][b].pos,
        g.occupied(g.players[s][a].pos),
        g.occupied(g.players[t][b].pos),
{
    lemma_occupied_sides(g, g.players[s][a].pos);
    lemma_occupied_sides(g, g.players[t][b].pos);
    assert(holds(g.players[s], g.players[s][a].pos));
    assert(holds(g.players[t], g.players[t][b].pos));
}

/// The unit at place `i` after an action, in terms of the state before.
proof fn lemma_unit_after(g: GameView, action: Action, s: int, i: int)
    requires
        0 <= s < g.players.len(),
        0 <= i < g.apply(action).players[s].len(),
    ensures
        0 <= origin(g.players[s], action.shoot, i) < g.players[s].len(),
        g.apply(action).players[s][i] == relocated(
            g.players[s][origin(g.players[s], action.shoot, i)],
            action.unit,
            action.mv,
        ),
{
    lemma_without(g.players[s], action.shoot);
    assert(without(g.players[s], action.shoot)[i] == g.players[s][origin(
        g.players[s],
        action.shoot,
        i,
    )]);
}

/// After a legal action, the units at two different places stand on
/// different cells.
proof fn lemma_apart_after(g: GameView, action: Action, s: int, i: int, t: int, j: int)
    requires
        g.wf(),
        !g.occupied(action.mv),
        0 <= s < 2,
        0 <= t < 2,
        0 <= i < g.apply(action).players[s].len(),
        0 <= j < g.apply(action).players[t].len(),
        s != t || i != j,
    ensures
        g.apply(action).players[s][i].pos != g.apply(action).players[t][j].pos,
{
    lemma_unit_after(g, action, s, i);
    lemma_unit_after(g, action, t, j);
    let a = origin(g.players[s], action.shoot, i);
    let b = origin(g.players[t], action.shoot, j);
    if s == t {
        lemma_without(g.players[s], action.shoot);
        if i < j {
            assert(a < b);
        } else {
            assert(b < a);
        }
    }
    lemma_wf_apart(g, s, a, t, b);
}

/// After a legal action, every unit stands on the grid, under its own side.
proof fn lemma_placed_after(g: GameView, action: Action, s: int, i: int)
    requires
        g.wf(),
        action.mv.in_grid(g.width, g.height),
        0 <= s < 2,
        0 <= i < g.apply(action).players[s].len(),
    ensures
        g.apply(action).players[s][i].pos.in_grid(g.width, g.height),
        g.apply(action).players[s][i].team == s,
{
    lemma_unit_after(g, action, s, i);
    let a = origin(g.players[s], action.shoot, i);
    assert(g.players[s][a].pos.in_grid(g.width, g.height));
}

/// An action takes one unit from a battle in order exactly when a unit
/// stood on the target cell.
proof fn lemma_apply_count(g: GameView, action: Action)
    requires
        g.wf(),
    ensures
        g.apply(action).unit_count() + (if g.occupied(action.shoot) {
            1nat
        } else {
            0nat
        }) == g.unit_count(),
{
    let after = g.apply(action);
    lemma_two_sides(g);
    lemma_two_sides(after);
    lemma_occupied_sides(g, action.shoot);
    lemma_without(g.players[0], action.shoot);
    lemma_without(g.players[1], action.shoot);
    assert(after.players[0].len() == without(g.players[0], action.shoot).len());
    assert(after.players[1].len() == without(g.players[1], action.shoot).len());
    if holds(g.players[0], action.shoot) && holds(g.players[1], action.shoot) {
        lemma_slot(g.players[0], action.shoot);
        lemma_slot(g.players[1], action.shoot);
        lemma_wf_apart(
            g,
            0,
            slot(g.players[0], action.shoot),
            1,
            slot(g.players[1], action.shoot),
        );
    }
}

/// An action open to a player leaves the battle in order.
proof fn lemma_apply_wf(g: GameView, player: int, action: Action)
    requires
        g.wf(),
        0 <= player < 2,
        g.legal_actions(player).contains(action),
    ensures
        g.apply(action).wf(),
{
    lemma_legal_action(g, player, action);
    let after = g.apply(action);
    assert forall|s: int, i: int| 0 <= s < 2 && 0 <= i < after.players[s].len() implies {
        &&& (#[trigger] after.players[s][i]).pos.in_grid(after.width, after.height)
        &&& after.players[s][i].team == s
    } by {
        lemma_placed_after(g, action, s, i);
    }
    assert forall|s: int, i: int, t: int, j: int|
        0 <= s < 2 && 0 <= i < after.players[s].len() && 0 <= t < 2 && 0 <= j
            < after.players[t].len() && (s != t || i != j) implies (
    #[trigger] after.players[s][i]).pos != (#[trigger] after.players[t][j]).pos by {
        lemma_apart_after(g, action, s, i, t, j);
    }
}

/// An action open to a player leaves the battle in order, and takes one unit
/// from the grid exactly when a unit stood on the target cell.
pub proof fn lemma_apply_legal(g: GameView, player: int, action: Action)
    requires
        g.wf(),
        0 <= player < 2,
        g.legal_actions(player).contains(action),
    ensures
        g.apply(action).wf(),
        g.apply(action).unit_count() + (if g.occupied(action.shoot) {
            1nat
        } else {
            0nat
        }) == g.unit_count(),
{
    lemma_apply_wf(g, player, action);
    lemma_apply_count(g, action);
}

/// Adding a unit on a free cell of the left half, with its point reflection,
/// keeps a symmetric start symmetric and its units apart.
pub(crate) proof fn lemma_with_pair(g: GameView, unit: Unit, width: usize, height: usize)
    requires
        g.symmetric(width, height),
        g.apart(),
        unit.pos.x < width / 2,
        unit.pos.y < height,
        unit.team == 0,
        !g.occupied(unit.pos),
    ensures
        g.with_pair(unit, width, height).symmetric(width, height),
        g.with_pair(unit, width, height).apart(),
{
    let after = g.with_pair(unit, width, height);
    let mirror = |u: Unit| u.mirrored(width, height);
    assert(after.players[1] =~= after.players[0].map_values(mirror));
    lemma_occupied_sides(g, unit.pos);
    assert forall|s: int, i: int, t: int, j: int|
        0 <= s < 2 && 0 <= i < after.players[s].len() && 0 <= t < 2 && 0 <= j
            < after.players[t].len() && (s != t || i != j) implies (
    #[trigger] after.players[s][i]).pos != (#[trigger] after.players[t][j]).pos by {
        let n = g.players[0].len() as int;
        let a = after.players[0][i];
        let b = after.players[0][j];
        assert(after.players[1][i] == a.mirrored(width, height));
        assert(after.players[1][j] == b.mirrored(width, height));
        if i < n {
            assert(a == g.players[0][i]);
            assert(g.players[1][i] == mirror(g.players[0][i]));
        }
        if j < n {
            assert(b == g.players[0][j]);
            assert(g.players[1][j] == mirror(g.players[0][j]));
        }
        if i != j {
            if i < n && j < n {
                assert(g.players[0][i].pos != g.players[0][j].pos);
            } else if i < n {
                assert(holds(g.players[0], a.pos));
            } else {
                assert(holds(g.players[0], b.pos));
            }
        }
    }
}

/// A symmetric start whose units stand apart, on the grid of the battle
/// itself, is a battle in order.
pub(crate) proof fn lemma_symmetric_wf(g: GameView)
    requires
        g.symmetric(g.width, g.height),
        g.apart(),
    ensures
        g.wf(),
{
    let mirror = |u: Unit| u.mirrored(g.width, g.height);
    assert forall|s: int, i: int| 0 <= s < 2 && 0 <= i < g.players[s].len() implies {
        &&& (#[trigger] g.players[s][i]).pos.in_grid(g.width, g.height)
        &&& g.players[s][i].team == s
    } by {
        if s == 1 {
            assert(g.players[1][i] == mirror(g.players[0][i]));
        }
    }
}

} // verus!

//! Positions, units and the actions a unit can take.
use crate::rng::{gen_range, pick_one};
use rand::XorShiftRng;
use vstd::prelude::*;

verus! {

/// A cell of the grid.
#[derive(Clone, Copy, Hash, PartialEq, Eq, Debug, Structural)]
pub struct Position {
    pub x: usize,
    pub y: usize,
}

impl Position {
    /// The cell reached from `self` by `delta`, if both coordinates stay
    /// representable.
    pub open spec fn shifted(self, delta: (i32, i32)) -> Option<Position> {
        if 0 <= self.x + delta.0 <= usize::MAX && 0 <= self.y + delta.1 <= usize::MAX {
            Some(Position { x: (self.x + delta.0) as usize, y: (self.y + delta.1) as usize })
        } else {
            None
        }
    }

    /// Whether the cell lies on a grid of the given dimensions.
    pub open spec fn in_grid(self, width: usize, height: usize) -> bool {
        self.x < width && self.y < height
    }

    /// Whether the cell lies on the grid and is not among `positions`.
    pub open spec fn is_valid(self, width: usize, height: usize, positions: Seq<Position>) -> bool {
        self.in_grid(width, height) && !positions.contains(self)
    }

    pub fn new(x: usize, y: usize) -> (p: Self)
        ensures
            p == (Position { x, y }),
    {
        Position { x, y }
    }

    /// Moves the position by the given offset. An offset that would leave the
    /// representable coordinates yields `None`.
    pub fn move_by(&self, delta: (i32, i32)) -> (moved: Option<Position>)
        ensures
            moved == self.shifted(delta),
    {
        let x: i128 = self.x as i128 + delta.0 as i128;
        let y: i128 = self.y as i128 + delta.1 as i128;
        if 0 <= x && x <= usize::MAX as i128 && 0 <= y && y <= usize::MAX as i128 {
            Some(Position { x: x as usize, y: y as usize })
        } else {
            None
        }
    }

    /// Given a grid's dimensions and the positions already used, tells whether
    /// the position is available.
    pub fn valid(&self, width: usize, height: usize, positions: &Vec<Position>) -> (ok: bool)
        ensures
            ok == self.is_valid(width, height, positions@),
    {
        if !(self.x < width && self.y < height) {
            return false;
        }
        let mut i: usize = 0;
        while i < positions.len()
            invariant
                i <= positions.len(),
                forall|k: int| 0 <= k < i ==> positions@[k] != *self,
            decreases positions.len() - i,
        {
            if positions[i] == *self {
                return false;
            }
            i += 1;
        }
        true
    }
}

/// An action of one unit: it moves, then it shoots.
#[derive(Clone, Copy, Hash, PartialEq, Eq, Debug, Structural)]
pub struct Action {
    /// The position of the unit making the action.
    pub unit: Position,
    /// The position the unit moves to.
    pub mv: Position,
    /// The position the unit shoots at.
    pub shoot: Position,
}

impl Action {
    /// The action of the unit at `unit` that moves by `mv` and shoots at the
    /// cell `shoot` away from `unit`, if both cells are representable.
    pub open spec fn from_offsets(unit: Position, mv: (i32, i32), shoot: (i32, i32)) -> Option<
        Action,
    > {
        match (unit.shifted(mv), unit.shifted(shoot)) {
            (Some(to), Some(target)) => Some(Action { unit, mv: to, shoot: target }),
            _ => None,
        }
    }

    /// Builds an action from the acting unit's position and two offsets
    /// relative to it.
    pub fn new(unit: Position, mv: (i32, i32), shoot: (i32, i32)) -> (action: Option<Action>)
        ensures
            action == Action::from_offsets(unit, mv, shoot),
    {
        match (unit.move_by(mv), unit.move_by(shoot)) {
            (Some(to), Some(target)) => Some(Action { unit, mv: to, shoot: target }),
            _ => None,
        }
    }

    /// The position of the unit that acts.
    pub fn caster_pos(&self) -> (p: Position)
        ensures
            p == self.unit,
    {
        self.unit
    }
}

/// The kinds of units.
#[derive(Clone, Copy, Hash, PartialEq, Eq, Debug, Structural)]
pub enum UnitType {
    /// Moves far, shoots near.
    Infantryman,
    /// Moves slowly, shoots far.
    Gunner,
    /// Moves slowly, shoots far in every direction.
    MobileTower,
}

/// The four axis-aligned offsets of length `i`.
pub open spec fn cross(i: i32) -> Seq<(i32, i32)> {
    seq![(0i32, i), (0i32, (-i) as i32), ((-i) as i32, 0i32), (i, 0i32)]
}

/// The eight axis-aligned and diagonal offsets of reach `i`.
pub open spec fn star(i: i32) -> Seq<(i32, i32)> {
    seq![
        (0i32, i),
        (0i32, (-i) as i32),
        (i, 0i32),
        ((-i) as i32, 0i32),
        (i, i),
        (i, (-i) as i32),
        ((-i) as i32, i),
        ((-i) as i32, (-i) as i32),
    ]
}

impl UnitType {
    /// The offsets by which a unit of this kind can move, in the order in
    /// which they are tried.
    pub open spec fn move_offsets(self) -> Seq<(i32, i32)> {
        match self {
            UnitType::Infantryman => cross(1) + cross(2),
            _ => cross(1),
        }
    }

    /// The offsets at which a unit of this kind can shoot, in the order in
    /// which they are tried.
    pub open spec fn shoot_offsets(self) -> Seq<(i32, i32)> {
        match self {
            UnitType::Infantryman => cross(1),
            UnitType::Gunner => cross(1) + cross(2),
            UnitType::MobileTower => star(1) + star(2),
        }
    }
}

fn push_cross(offsets: &mut Vec<(i32, i32)>, i: i32)
    requires
        i > i32::MIN,
    ensures
        final(offsets)@ == old(offsets)@ + cross(i),
{
    offsets.push((0, i));
    offsets.push((0, -i));
    offsets.push((-i, 0));
    offsets.push((i, 0));
    assert(offsets@ =~= old(offsets)@ + cross(i));
}

fn push_star(offsets: &mut Vec<(i32, i32)>, i: i32)
    requires
        i > i32::MIN,
    ensures
        final(offsets)@ == old(offsets)@ + star(i),
{
    offsets.push((0, i));
    offsets.push((0, -i));
    offsets.push((i, 0));
    offsets.push((-i, 0));
    offsets.push((i, i));
    offsets.push((i, -i));
    offsets.push((-i, i));
    offsets.push((-i, -i));
    assert(offsets@ =~= old(offsets)@ + star(i));
}

/// A unit on the grid.
#[derive(Clone, Copy, Hash, PartialEq, Eq, Debug, Structural)]
pub struct Unit {
    /// The kind of the unit.
    pub unit_type: UnitType,
    /// The position of the unit on the grid.
    pub pos: Position,
    /// The side the unit fights for.
    pub team: usize,
}

impl Unit {
    /// The unit of the other side at the point-reflected cell.
    pub open spec fn mirrored(self, width: usize, height: usize) -> Unit {
        Unit {
            unit_type: self.unit_type,
            pos: Position {
                x: (width - self.pos.x - 1) as usize,
                y: (height - self.pos.y - 1) as usize,
            },
            team: (1 - self.team) as usize,
        }
    }

    /// The cell hit by the shot `offset` of a unit standing at `from`, if it
    /// lies on the grid.
    pub open spec fn target(from: Position, width: usize, height: usize, offset: (i32, i32))
        -> Option<Position> {
        match from.shifted(offset) {
            Some(p) if p.in_grid(width, height) => Some(p),
            _ => None,
        }
    }

    /// `target` as a function of the offset.
    pub open spec fn target_fn(from: Position, width: usize, height: usize) -> spec_fn(
        (i32, i32),
    ) -> Option<Position> {
        |offset: (i32, i32)| Unit::target(from, width, height, offset)
    }

    /// The cells on the grid the unit can shoot at once it stands on `from`,
    /// in the order of its shoot offsets.
    pub open spec fn targets(self, from: Position, width: usize, height: usize) -> Seq<Position> {
        self.unit_type.shoot_offsets().filter_map(Unit::target_fn(from, width, height))
    }

    /// Whether `action` is the action of this unit that moves by `step` and
    /// then shoots at the cell `shot` away from the cell moved to.
    pub open spec fn makes(self, step: (i32, i32), shot: (i32, i32), action: Action) -> bool {
        &&& action.unit == self.pos
        &&& self.pos.shifted(step) == Some(action.mv)
        &&& action.mv.shifted(shot) == Some(action.shoot)
    }

    /// The actions that move the unit to `to` and shoot at one of `targets`.
    pub open spec fn shots(self, to: Position, targets: Seq<Position>) -> Seq<Action> {
        Seq::new(targets.len(), |i: int| Action { unit: self.pos, mv: to, shoot: targets[i] })
    }

    /// The actions that begin with the move `offset`: none if the cell
    /// reached is off the grid or among `positions`, else one for each cell
    /// that the unit can shoot at from the cell reached.
    pub open spec fn actions_by(
        self,
        width: usize,
        height: usize,
        positions: Seq<Position>,
        offset: (i32, i32),
    ) -> Seq<Action> {
        match self.pos.shifted(offset) {
            Some(to) if to.is_valid(width, height, positions) => self.shots(
                to,
                self.targets(to, width, height),
            ),
            _ => Seq::empty(),
        }
    }

    /// `actions_by` as a function of the offset.
    pub open spec fn actions_by_fn(self, width: usize, height: usize, positions: Seq<Position>)
        -> spec_fn((i32, i32)) -> Seq<Action> {
        |offset: (i32, i32)| self.actions_by(width, height, positions, offset)
    }

    /// All the actions of the unit on a grid where `positions` are taken:
    /// move offsets in order, and for each the targets from the cell moved
    /// to, in order.
    pub open spec fn all_actions(self, width: usize, height: usize, positions: Seq<Position>)
        -> Seq<Action> {
        self.unit_type.move_offsets().flat_map(self.actions_by_fn(width, height, positions))
    }

    pub fn new(pos: Position, typ: UnitType, team: usize) -> (unit: Self)
        ensures
            unit == (Unit { unit_type: typ, pos, team }),
    {
        Unit { unit_type: typ, pos, team }
    }

    /// Takes a unit at a given position with a team and returns a unit of the
    /// same kind at the symmetrical position of the grid, for the other team.
    pub fn reverse(&self, width: usize, height: usize) -> (unit: Unit)
        requires
            self.pos.in_grid(width, height),
            self.team <= 1,
        ensures
            unit == self.mirrored(width, height),
    {
        Unit::new(
            Position::new(width - self.pos.x - 1, height - self.pos.y - 1),
            self.unit_type,
            1 - self.team,
        )
    }

    /// Creates a unit of a random kind at a random cell. `width_start` and
    /// `width_end` bound the column: the first is included, the second is
    /// not. The row is below `height`.
    pub fn new_random(
        width_start: usize,
        width_end: usize,
        height: usize,
        my_rand: &mut XorShiftRng,
        team: usize,
    ) -> (unit: Self)
        requires
            width_start < width_end,
            0 < height,
        ensures
            width_start <= unit.pos.x < width_end,
            unit.pos.y < height,
            unit.team == team,
    {
        let kinds = [UnitType::Gunner, UnitType::MobileTower, UnitType::Infantryman];
        let unit_type = *pick_one(my_rand, kinds.as_slice()).unwrap();
        let x = gen_range(my_rand, width_start, width_end);
        let y = gen_range(my_rand, 0, height);
        Unit { unit_type, pos: Position::new(x, y), team }
    }

    /// A character that stands for the kind of the unit.
    pub fn unit_char(&self) -> (c: char)
        ensures
            c == match self.unit_type {
                UnitType::Gunner => 'G',
                UnitType::Infantryman => 'I',
                UnitType::MobileTower => 'T',
            },
    {
        match self.unit_type {
            UnitType::Gunner => 'G',
            UnitType::Infantryman => 'I',
            UnitType::MobileTower => 'T',
        }
    }

    /// The possible moves of the unit, as offsets.
    pub fn moves(&self) -> (offsets: Vec<(i32, i32)>)
        ensures
            offsets@ == self.unit_type.move_offsets(),
    {
        let mut mvs: Vec<(i32, i32)> = Vec::new();
        push_cross(&mut mvs, 1);
        match self.unit_type {
            UnitType::Infantryman => {
                push_cross(&mut mvs, 2);
            },
            _ => {},
        }
        mvs
    }

    /// The possible shots of the unit, as offsets.
    pub fn shoots(&self) -> (offsets: Vec<(i32, i32)>)
        ensures
            offsets@ == self.unit_type.shoot_offsets(),
    {
        let mut mvs: Vec<(i32, i32)> = Vec::new();
        match self.unit_type {
            UnitType::Infantryman => {
                push_cross(&mut mvs, 1);
            },
            UnitType::Gunner => {
                push_cross(&mut mvs, 1);
                push_cross(&mut mvs, 2);
            },
            UnitType::MobileTower => {
                push_star(&mut mvs, 1);
                push_star(&mut mvs, 2);
            },
        }
        mvs
    }

    /// The cells on the grid that the unit can shoot at once it stands on
    /// `from`.
    fn shoot_targets(&self, from: Position, width: usize, height: usize) -> (cells: Vec<Position>)
        ensures
            cells@ == self.targets(from, width, height),
    {
        let offsets = self.shoots();
        let ghost f = Unit::target_fn(from, width, height);
        let mut cells: Vec<Position> = Vec::new();
        let mut i: usize = 0;
        while i < offsets.len()
            invariant
                i <= offsets.len(),
                offsets@ == self.unit_type.shoot_offsets(),
                f == Unit::target_fn(from, width, height),
                cells@ == offsets@.take(i as int).filter_map(f),
            decreases offsets.len() - i,
        {
            proof {
                offsets@.lemma_filter_map_take_succ(f, i as int);
            }
            match from.move_by(offsets[i]) {
                Some(p) => {
                    if p.x < width && p.y < height {
                        cells.push(p);
                    }
                },
                None => {},
            }
            i += 1;
        }
        assert(offsets@.take(offsets.len() as int) =~= offsets@);
        cells
    }

    /// The possible actions of the unit. `width` and `height` are the
    /// dimensions of the grid and `positions` the cells already taken. The
    /// unit moves to a free cell of the grid, and shoots from there at a cell
    /// of the grid, taken or not.
    pub fn actions(&self, width: usize, height: usize, positions: &Vec<Position>) -> (actions: Vec<
        Action,
    >)
        ensures
            actions@ == self.all_actions(width, height, positions@),
    {
        let offsets = self.moves();
        let ghost f = self.actions_by_fn(width, height, positions@);
        let mut actions: Vec<Action> = Vec::new();
        let mut i: usize = 0;
        while i < offsets.len()
            invariant
                i <= offsets.len(),
                offsets@ == self.unit_type.move_offsets(),
                f == self.actions_by_fn(width, height, positions@),
                actions@ == offsets@.take(i as int).flat_map(f),
            decreases offsets.len() - i,
        {
            proof {
                offsets@.lemma_flat_map_take_append(f, i as int);
            }
            match self.pos.move_by(offsets[i]) {
                Some(to) => {
                    if to.valid(width, height, positions) {
                        let cells = self.shoot_targets(to, width, height);
                        let ghost before = actions@;
                        let mut j: usize = 0;
                        while j < cells.len()
                            invariant
                                j <= cells.len(),
                                actions@ == before + self.shots(to, cells@).take(j as int),
                            decreases cells.len() - j,
                        {
                            actions.push(Action { unit: self.pos, mv: to, shoot: cells[j] });
                            assert(actions@ =~= before + self.shots(to, cells@).take(j + 1));
                            j += 1;
                        }
                        assert(self.shots(to, cells@).take(cells.len() as int) =~= self.shots(
                            to,
                            cells@,
                        ));
                    } else {
                        assert(actions@ =~= actions@ + Seq::<Action>::empty());
                    }
                },
                None => {
                    assert(actions@ =~= actions@ + Seq::<Action>::empty());
                },
            }
            i += 1;
        }
        assert(offsets@.take(offsets.len() as int) =~= offsets@);
        actions
    }
}

} // verus!

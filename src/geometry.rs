//! Positions, facings and the guard's state, with their mathematical model.
use vstd::prelude::*;

verus! {

/// One of the four directions the guard can face.
#[derive(Clone, Copy, Debug, PartialEq, Eq, Hash, Structural)]
pub enum Facing {
    Up,
    Down,
    Left,
    Right,
}

/// A cell of the grid; `x` is the column and `y` the row, both from zero.
#[derive(Clone, Copy, Debug, PartialEq, Eq, Hash, Structural)]
pub struct Position {
    pub x: usize,
    pub y: usize,
}

/// The guard: where it stands and where it looks.
#[derive(Clone, Copy, Debug, PartialEq, Eq, Hash, Structural)]
pub struct Guard {
    pub position: Position,
    pub facing: Facing,
}

/// A stop point of the patrol together with the facing the guard had when it
/// reached it; the unit of state compared when looking for cycles.
#[derive(Clone, Copy, Debug, PartialEq, Eq, Hash, Structural)]
pub struct Waypoint {
    pub position: Position,
    pub facing: Facing,
}

/// A cell as a pair of mathematical integers `(x, y)`.
pub type Cell = (int, int);

/// A guard state as a cell and a facing.
pub type State = (Cell, Facing);

impl View for Position {
    type V = Cell;

    open spec fn view(&self) -> Cell {
        (self.x as int, self.y as int)
    }
}

impl View for Guard {
    type V = State;

    open spec fn view(&self) -> State {
        (self.position@, self.facing)
    }
}

impl View for Waypoint {
    type V = State;

    open spec fn view(&self) -> State {
        (self.position@, self.facing)
    }
}

/// Whether a cell lies on a grid of the given width and height.
pub open spec fn in_bounds(width: int, height: int, c: Cell) -> bool {
    0 <= c.0 < width && 0 <= c.1 < height
}

/// The facing after one clockwise quarter turn: Up, Right, Down, Left, Up.
pub open spec fn turn_spec(f: Facing) -> Facing {
    match f {
        Facing::Up => Facing::Right,
        Facing::Right => Facing::Down,
        Facing::Down => Facing::Left,
        Facing::Left => Facing::Up,
    }
}

/// The cell `i` steps from `c` in direction `f` (rows grow downwards).
pub open spec fn step(c: Cell, f: Facing, i: int) -> Cell {
    match f {
        Facing::Up => (c.0, c.1 - i),
        Facing::Down => (c.0, c.1 + i),
        Facing::Left => (c.0 - i, c.1),
        Facing::Right => (c.0 + i, c.1),
    }
}

/// The number of steps from `c` in direction `f` to the line at coordinate
/// `k` of the axis of motion (a column for Left and Right, a row otherwise).
pub open spec fn distance_to(c: Cell, f: Facing, k: int) -> int {
    match f {
        Facing::Up => c.1 - k,
        Facing::Down => k - c.1,
        Facing::Left => c.0 - k,
        Facing::Right => k - c.0,
    }
}

/// None of the first `d - 1` cells ahead of `c` in direction `f` is in `obs`.
pub open spec fn clear_ahead(obs: Set<Cell>, c: Cell, f: Facing, d: int) -> bool {
    forall|i: int| 1 <= i < d ==> !obs.contains(#[trigger] step(c, f, i))
}

/// The nearest cell of `obs` ahead of `c` in direction `f` is `d` steps away.
pub open spec fn nearest_ahead(obs: Set<Cell>, c: Cell, f: Facing, d: int) -> bool {
    &&& d >= 1
    &&& obs.contains(step(c, f, d))
    &&& clear_ahead(obs, c, f, d)
}

/// No cell of `obs` lies ahead of `c` in direction `f`.
pub open spec fn nothing_ahead(obs: Set<Cell>, c: Cell, f: Facing) -> bool {
    forall|i: int| i >= 1 ==> !obs.contains(#[trigger] step(c, f, i))
}

/// Rotates a facing a quarter turn clockwise.
pub fn turn(facing: &Facing) -> (r: Facing)
    ensures
        r == turn_spec(*facing),
{
    match facing {
        Facing::Up => Facing::Right,
        Facing::Right => Facing::Down,
        Facing::Down => Facing::Left,
        Facing::Left => Facing::Up,
    }
}

/// Four quarter turns bring every facing back to itself.
pub proof fn lemma_turn_cycle(f: Facing)
    ensures
        turn_spec(turn_spec(turn_spec(turn_spec(f)))) == f,
{
}

/// The coordinate just before `pos` when arriving there moving along `facing`:
/// one more for Up and Left, one less for Down and Right.
pub fn get_position_before_position(pos: usize, facing: &Facing) -> (r: usize)
    requires
        (*facing == Facing::Up || *facing == Facing::Left) ==> pos < usize::MAX,
        (*facing == Facing::Down || *facing == Facing::Right) ==> pos > 0,
    ensures
        (*facing == Facing::Up || *facing == Facing::Left) ==> r == pos + 1,
        (*facing == Facing::Down || *facing == Facing::Right) ==> r == pos - 1,
{
    match facing {
        Facing::Up | Facing::Left => pos + 1,
        Facing::Down | Facing::Right => pos - 1,
    }
}

} // verus!

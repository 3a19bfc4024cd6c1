//! The grid: its size, its obstacles and the guard's start, read from rows of
//! characters.
use vstd::prelude::*;
use crate::geometry::{Cell, Facing, Guard, Position, in_bounds};
use crate::obstacles::Obstacles;

verus! {

/// A grid with its size, its obstacles and the guard's starting state.
pub struct Grid {
    pub width: usize,
    pub height: usize,
    pub obstacles: Obstacles,
    pub guard_start: Guard,
}

impl Grid {
    /// The index matches the size, the guard starts on the grid, and four
    /// marks per cell can be counted in a `usize`.
    pub open spec fn wf(&self) -> bool {
        &&& self.obstacles.wf()
        &&& self.obstacles.width() == self.width
        &&& self.obstacles.height() == self.height
        &&& in_bounds(self.width as int, self.height as int, self.guard_start.position@)
        &&& 4 * self.width * self.height < usize::MAX
    }
}

/// Why rows of characters do not describe a grid.
#[derive(Clone, Copy, Debug, PartialEq, Eq, Structural)]
pub enum MapError {
    /// The rows differ in length.
    Ragged,
    /// The grid has too many cells to count four marks per cell.
    TooLarge,
    /// No cell holds a guard.
    NoGuard,
    /// More than one cell holds a guard.
    MultipleGuards,
}

/// The rows of characters as sequences.
pub open spec fn rows_view(rows: &Vec<Vec<char>>) -> Seq<Seq<char>> {
    rows@.map_values(|r: Vec<char>| r@)
}

/// Whether a character marks the guard: `^`, `v`, `<` or `>`.
pub open spec fn is_guard_char(ch: char) -> bool {
    ch == '^' || ch == 'v' || ch == '<' || ch == '>'
}

/// The facing a guard character shows.
pub open spec fn facing_of(ch: char) -> Facing {
    if ch == '^' {
        Facing::Up
    } else if ch == 'v' {
        Facing::Down
    } else if ch == '<' {
        Facing::Left
    } else {
        Facing::Right
    }
}

/// All rows are as long as the first.
pub open spec fn rectangular(rows: Seq<Seq<char>>) -> bool {
    forall|y: int| 0 <= y < rows.len() ==> #[trigger] rows[y].len() == rows[0].len()
}

/// The number of columns: the length of the first row.
pub open spec fn grid_width(rows: Seq<Seq<char>>) -> int {
    if rows.len() == 0 {
        0
    } else {
        rows[0].len() as int
    }
}

/// Whether four marks per cell can be counted in a `usize`.
pub open spec fn fits(rows: Seq<Seq<char>>) -> bool {
    4 * grid_width(rows) * rows.len() < usize::MAX
}

/// The character at a cell.
pub open spec fn char_at(rows: Seq<Seq<char>>, c: Cell) -> char {
    rows[c.1][c.0]
}

/// Whether a cell of the grid holds the guard.
pub open spec fn guard_cell(rows: Seq<Seq<char>>, c: Cell) -> bool {
    in_bounds(grid_width(rows), rows.len() as int, c) && is_guard_char(char_at(rows, c))
}

/// The cells that hold `#`.
pub open spec fn obstacle_cells(rows: Seq<Seq<char>>) -> Set<Cell> {
    Set::new(
        |c: Cell| in_bounds(grid_width(rows), rows.len() as int, c) && char_at(rows, c) == '#',
    )
}

/// Whether cell `c` comes before column `x` of row `y`, reading row by row.
pub open spec fn read_before(c: Cell, y: int, x: int) -> bool {
    c.1 < y || (c.1 == y && c.0 < x)
}

/// The facing a guard character shows.
pub fn get_guard_facing_from_char(character: char) -> (r: Facing)
    requires
        is_guard_char(character),
    ensures
        r == facing_of(character),
{
    if character == '^' {
        Facing::Up
    } else if character == 'v' {
        Facing::Down
    } else if character == '<' {
        Facing::Left
    } else {
        Facing::Right
    }
}

/// Reads a grid from its rows: `#` is an obstacle, one of `^ v < >` the
/// guard facing up, down, left or right, anything else open floor.
pub fn read_map(rows: &Vec<Vec<char>>) -> (r: Result<Grid, MapError>)
    ensures
        r == Err::<Grid, MapError>(MapError::Ragged) <==> !rectangular(rows_view(rows)),
        r == Err::<Grid, MapError>(MapError::TooLarge) <==> rectangular(rows_view(rows)) && !fits(
            rows_view(rows),
        ),
        r == Err::<Grid, MapError>(MapError::NoGuard) <==> rectangular(rows_view(rows)) && fits(
            rows_view(rows),
        ) && forall|c: Cell| !guard_cell(rows_view(rows), c),
        r == Err::<Grid, MapError>(MapError::MultipleGuards) <==> rectangular(rows_view(rows))
            && fits(rows_view(rows)) && exists|c: Cell, d: Cell|
            c != d && guard_cell(rows_view(rows), c) && guard_cell(rows_view(rows), d),
        r matches Ok(g) ==> {
            &&& g.wf()
            &&& g.width == grid_width(rows_view(rows))
            &&& g.height == rows@.len()
            &&& g.obstacles@ == obstacle_cells(rows_view(rows))
            &&& guard_cell(rows_view(rows), g.guard_start.position@)
            &&& g.guard_start.facing == facing_of(char_at(rows_view(rows), g.guard_start.position@))
        },
{
    let ghost g = rows_view(rows);
    let height = rows.len();
    let width = if height == 0 {
        0
    } else {
        rows[0].len()
    };
    assert(width == grid_width(g));
    let mut k: usize = 0;
    while k < height
        invariant
            g == rows_view(rows),
            height == g.len(),
            width == grid_width(g),
            k <= height,
            forall|y: int| 0 <= y < k ==> #[trigger] g[y].len() == width,
        decreases height - k,
    {
        if rows[k].len() != width {
            assert(g[k as int].len() != g[0].len());
            return Err(MapError::Ragged);
        }
        k = k + 1;
    }
    assert(rectangular(g));
    let area = match width.checked_mul(height) {
        Some(a) => a,
        None => {
            assert(4 * width * height >= width * height) by (nonlinear_arith);
            return Err(MapError::TooLarge);
        },
    };
    let slots = match area.checked_mul(4) {
        Some(a) => a,
        None => {
            assert(4 * width * height == area * 4) by (nonlinear_arith)
                requires
                    area == width * height,
            ;
            return Err(MapError::TooLarge);
        },
    };
    assert(4 * width * height == slots) by (nonlinear_arith)
        requires
            area == width * height,
            slots == area * 4,
    ;
    if slots == usize::MAX {
        return Err(MapError::TooLarge);
    }
    let mut obstacles = Obstacles::new(width, height);
    let mut guard: Option<Guard> = None;
    let mut y: usize = 0;
    while y < height
        invariant
            g == rows_view(rows),
            height == g.len(),
            width == grid_width(g),
            rectangular(g),
            fits(g),
            y <= height,
            obstacles.wf(),
            obstacles.width() == width,
            obstacles.height() == height,
            obstacles@ == Set::new(
                |c: Cell| in_bounds(width as int, height as int, c) && char_at(g, c) == '#' && c.1 < y,
            ),
            guard matches None ==> forall|c: Cell| guard_cell(g, c) ==> c.1 >= y,
            guard matches Some(gd) ==> {
                &&& guard_cell(g, gd.position@)
                &&& gd.position.y < y
                &&& gd.facing == facing_of(char_at(g, gd.position@))
                &&& forall|c: Cell| guard_cell(g, c) && c.1 < y ==> c == gd.position@
            },
        decreases height - y,
    {
        let row = &rows[y];
        assert(row@ == g[y as int]);
        let mut x: usize = 0;
        while x < width
            invariant
                g == rows_view(rows),
                height == g.len(),
                width == grid_width(g),
                rectangular(g),
                fits(g),
                y < height,
                row@ == g[y as int],
                row@.len() == width,
                x <= width,
                obstacles.wf(),
                obstacles.width() == width,
                obstacles.height() == height,
                obstacles@ == Set::new(
                    |c: Cell|
                        in_bounds(width as int, height as int, c) && char_at(g, c) == '#'
                            && read_before(c, y as int, x as int),
                ),
                guard matches None ==> forall|c: Cell|
                    guard_cell(g, c) ==> !read_before(c, y as int, x as int),
                guard matches Some(gd) ==> {
                    &&& guard_cell(g, gd.position@)
                    &&& read_before(gd.position@, y as int, x as int)
                    &&& gd.facing == facing_of(char_at(g, gd.position@))
                    &&& forall|c: Cell|
                        guard_cell(g, c) && read_before(c, y as int, x as int) ==> c == gd.position@
                },
            decreases width - x,
        {
            let ch = row[x];
            let here = Position { x, y };
            assert(char_at(g, here@) == ch);
            let ghost before = obstacles@;
            if ch == '#' {
                obstacles.add(&here);
            } else if ch == '^' || ch == 'v' || ch == '<' || ch == '>' {
                if let Some(gd) = guard {
                    assert(guard_cell(g, here@) && here@ != gd.position@);
                    assert(exists|c: Cell, d: Cell|
                        c != d && guard_cell(rows_view(rows), c) && guard_cell(rows_view(rows), d)) by {
                        assert(gd.position@ != here@ && guard_cell(rows_view(rows), gd.position@)
                            && guard_cell(rows_view(rows), here@));
                    }
                    return Err(MapError::MultipleGuards);
                }
                guard = Some(Guard { position: here, facing: get_guard_facing_from_char(ch) });
            }
            assert(obstacles@ =~= Set::new(
                |c: Cell|
                    in_bounds(width as int, height as int, c) && char_at(g, c) == '#'
                        && read_before(c, y as int, x + 1),
            ));
            x = x + 1;
        }
        assert(obstacles@ =~= Set::new(
            |c: Cell| in_bounds(width as int, height as int, c) && char_at(g, c) == '#' && c.1 < y + 1,
        ));
        y = y + 1;
    }
    assert(obstacles@ =~= obstacle_cells(g));
    match guard {
        None => Err(MapError::NoGuard),
        Some(gd) => Ok(Grid { width, height, obstacles, guard_start: gd }),
    }
}

} // verus!

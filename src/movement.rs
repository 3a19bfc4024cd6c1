//! The movement engine: from a guard's state to its next stop point.
use vstd::prelude::*;
use crate::geometry::{
    Cell, Facing, Guard, Position, distance_to, get_position_before_position, in_bounds, step,
};
use crate::obstacles::Obstacles;

verus! {

/// Where a guard standing on `c` and facing `f` stops, and whether an
/// obstacle stopped it (`true`) or the border of the grid did (`false`): it
/// steps forward until the next cell is obstructed or off the grid.
pub open spec fn travel(obs: Set<Cell>, width: int, height: int, c: Cell, f: Facing) -> (Cell, bool)
    decreases
            (match f {
                Facing::Up => c.1,
                Facing::Down => height - c.1,
                Facing::Left => c.0,
                Facing::Right => width - c.0,
            }),
{
    let n = step(c, f, 1);
    if !in_bounds(width, height, n) {
        (c, false)
    } else if obs.contains(n) {
        (c, true)
    } else {
        travel(obs, width, height, n, f)
    }
}

/// When the first `k` cells ahead are free and on the grid and the next is
/// obstructed or off the grid, the guard stops `k` cells ahead.
pub proof fn lemma_travel_steps(obs: Set<Cell>, width: int, height: int, c: Cell, f: Facing, k: int)
    requires
        k >= 0,
        forall|i: int|
            1 <= i <= k ==> in_bounds(width, height, #[trigger] step(c, f, i)) && !obs.contains(
                step(c, f, i),
            ),
        !in_bounds(width, height, step(c, f, k + 1)) || obs.contains(step(c, f, k + 1)),
    ensures
        travel(obs, width, height, c, f) == (step(c, f, k), in_bounds(width, height, step(c, f, k + 1))),
    decreases k,
{
    let n = step(c, f, 1);
    if k == 0 {
        assert(step(c, f, 0) == c);
    } else {
        assert(in_bounds(width, height, n) && !obs.contains(n));
        assert forall|i: int| 1 <= i <= k - 1 implies in_bounds(width, height, #[trigger] step(n, f, i))
            && !obs.contains(step(n, f, i)) by {
            assert(step(n, f, i) == step(c, f, i + 1));
        }
        assert(step(n, f, k) == step(c, f, k + 1));
        assert(step(n, f, k - 1) == step(c, f, k));
        lemma_travel_steps(obs, width, height, n, f, k - 1);
    }
}

/// A guard that starts on the grid stops on the grid, on the line it moved
/// along.
pub proof fn lemma_travel_inside(obs: Set<Cell>, width: int, height: int, c: Cell, f: Facing)
    requires
        in_bounds(width, height, c),
    ensures
        in_bounds(width, height, travel(obs, width, height, c, f).0),
        (f == Facing::Up || f == Facing::Down) ==> travel(obs, width, height, c, f).0.0 == c.0,
        (f == Facing::Left || f == Facing::Right) ==> travel(obs, width, height, c, f).0.1 == c.1,
        travel(obs, width, height, c, f).1 ==> in_bounds(
            width,
            height,
            step(travel(obs, width, height, c, f).0, f, 1),
        ),
    decreases
            (match f {
                Facing::Up => c.1,
                Facing::Down => height - c.1,
                Facing::Left => c.0,
                Facing::Right => width - c.0,
            }),
{
    let n = step(c, f, 1);
    if in_bounds(width, height, n) && !obs.contains(n) {
        lemma_travel_inside(obs, width, height, n, f);
    }
}

/// Computes the guard's next stop point: the cell just before the nearest
/// obstacle ahead (and `true`), or the border cell in its direction (and
/// `false`) when no obstacle is ahead.
pub fn find_position_before_next_obstacle(
    guard: &Guard,
    obstacles: &Obstacles,
    map_size: (usize, usize),
) -> (r: (Position, bool))
    requires
        obstacles.wf(),
        map_size.0 == obstacles.width(),
        map_size.1 == obstacles.height(),
        in_bounds(map_size.0 as int, map_size.1 as int, guard.position@),
    ensures
        (r.0@, r.1) == travel(obstacles@, map_size.0 as int, map_size.1 as int, guard.position@, guard.facing),
{
    let ghost obs = obstacles@;
    let ghost w = map_size.0 as int;
    let ghost h = map_size.1 as int;
    let ghost c = guard.position@;
    let facing = guard.facing;
    let x = guard.position.x;
    let y = guard.position.y;
    proof {
        obstacles.lemma_inside();
    }
    match obstacles.next_obstacle(&guard.position, facing) {
        Some(k) => {
            let ghost d = distance_to(c, facing, k as int);
            assert(in_bounds(w, h, step(c, facing, d)));
            let p = match facing {
                Facing::Up | Facing::Down => Position { x, y: get_position_before_position(k, &facing) },
                Facing::Left | Facing::Right => Position { x: get_position_before_position(k, &facing), y },
            };
            proof {
                assert forall|i: int| 1 <= i <= d - 1 implies in_bounds(w, h, #[trigger] step(c, facing, i))
                    && !obs.contains(step(c, facing, i)) by {}
                lemma_travel_steps(obs, w, h, c, facing, d - 1);
            }
            (p, true)
        },
        None => {
            let p = match facing {
                Facing::Up => Position { x, y: 0 },
                Facing::Down => Position { x, y: map_size.1 - 1 },
                Facing::Left => Position { x: 0, y },
                Facing::Right => Position { x: map_size.0 - 1, y },
            };
            proof {
                let k = match facing {
                    Facing::Up => c.1,
                    Facing::Down => h - 1 - c.1,
                    Facing::Left => c.0,
                    Facing::Right => w - 1 - c.0,
                };
                assert forall|i: int| 1 <= i <= k implies in_bounds(w, h, #[trigger] step(c, facing, i))
                    && !obs.contains(step(c, facing, i)) by {}
                lemma_travel_steps(obs, w, h, c, facing, k);
            }
            (p, false)
        },
    }
}

} // verus!

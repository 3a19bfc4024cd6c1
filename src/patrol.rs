//! The patrol: the guard's stop points produced one at a time, turning right
//! at each obstacle, until it leaves the grid.
use vstd::prelude::*;
use crate::geometry::{Cell, Guard, State, Waypoint, in_bounds, turn, turn_spec};
use crate::movement::{find_position_before_next_obstacle, lemma_travel_inside, travel};
use crate::obstacles::Obstacles;

verus! {

/// The guard's state before its `n`-th move, counting from zero.
pub open spec fn state_at(obs: Set<Cell>, width: int, height: int, start: State, n: nat) -> State
    decreases n,
{
    if n == 0 {
        start
    } else {
        let s = state_at(obs, width, height, start, (n - 1) as nat);
        (travel(obs, width, height, s.0, s.1).0, turn_spec(s.1))
    }
}

/// The `n`-th waypoint: the stop point of the `n`-th move and the facing
/// during that move.
pub open spec fn waypoint_at(obs: Set<Cell>, width: int, height: int, start: State, n: nat) -> State {
    let s = state_at(obs, width, height, start, n);
    (travel(obs, width, height, s.0, s.1).0, s.1)
}

/// Whether the `n`-th move ends at an obstacle (rather than at the border).
pub open spec fn hit_at(obs: Set<Cell>, width: int, height: int, start: State, n: nat) -> bool {
    let s = state_at(obs, width, height, start, n);
    travel(obs, width, height, s.0, s.1).1
}

/// Whether the patrol makes an `n`-th move: every move before it ended at an
/// obstacle.
pub open spec fn yielded(obs: Set<Cell>, width: int, height: int, start: State, n: nat) -> bool {
    forall|i: nat| i < n ==> #[trigger] hit_at(obs, width, height, start, i)
}

/// Every state of a patrol that starts on the grid lies on the grid.
pub proof fn lemma_state_inside(obs: Set<Cell>, width: int, height: int, start: State, n: nat)
    requires
        in_bounds(width, height, start.0),
    ensures
        in_bounds(width, height, state_at(obs, width, height, start, n).0),
    decreases n,
{
    if n > 0 {
        let s = state_at(obs, width, height, start, (n - 1) as nat);
        lemma_state_inside(obs, width, height, start, (n - 1) as nat);
        lemma_travel_inside(obs, width, height, s.0, s.1);
    }
}

/// Once the `i`-th and `j`-th waypoints agree, the states that follow them
/// agree too: the patrol repeats with period `j - i`.
pub proof fn lemma_periodic(obs: Set<Cell>, width: int, height: int, start: State, i: nat, j: nat, t: nat)
    requires
        waypoint_at(obs, width, height, start, i) == waypoint_at(obs, width, height, start, j),
    ensures
        state_at(obs, width, height, start, i + 1 + t) == state_at(obs, width, height, start, j + 1 + t),
    decreases t,
{
    if t > 0 {
        lemma_periodic(obs, width, height, start, i, j, (t - 1) as nat);
        assert(state_at(obs, width, height, start, i + 1 + t) == {
            let s = state_at(obs, width, height, start, (i + 1 + t - 1) as nat);
            (travel(obs, width, height, s.0, s.1).0, turn_spec(s.1))
        });
        assert(state_at(obs, width, height, start, j + 1 + t) == {
            let s = state_at(obs, width, height, start, (j + 1 + t - 1) as nat);
            (travel(obs, width, height, s.0, s.1).0, turn_spec(s.1))
        });
    }
}

/// After a repeat of waypoint `i` at `j`, every state equals one at or
/// before `j`.
pub proof fn lemma_folded(obs: Set<Cell>, width: int, height: int, start: State, i: nat, j: nat, n: nat)
    requires
        i < j,
        waypoint_at(obs, width, height, start, i) == waypoint_at(obs, width, height, start, j),
    ensures
        exists|m: nat|
            m <= j && #[trigger] state_at(obs, width, height, start, m) == state_at(
                obs,
                width,
                height,
                start,
                n,
            ),
    decreases n,
{
    if n <= j {
        assert(state_at(obs, width, height, start, n) == state_at(obs, width, height, start, n));
    } else {
        let t = (n - j - 1) as nat;
        lemma_periodic(obs, width, height, start, i, j, t);
        let back = (i + 1 + t) as nat;
        lemma_folded(obs, width, height, start, i, j, back);
    }
}

/// A patrol in progress over a fixed obstacle index.
pub struct Patrol<'a> {
    obstacles: &'a Obstacles,
    map_size: (usize, usize),
    start: Guard,
    guard: Guard,
    count: Ghost<nat>,
    done: bool,
}

impl<'a> Patrol<'a> {
    /// The obstructed cells.
    pub closed spec fn obstacles(&self) -> Set<Cell> {
        self.obstacles@
    }

    /// The number of columns.
    pub closed spec fn width(&self) -> int {
        self.map_size.0 as int
    }

    /// The number of rows.
    pub closed spec fn height(&self) -> int {
        self.map_size.1 as int
    }

    /// Where the guard started.
    pub closed spec fn start(&self) -> State {
        self.start@
    }

    /// How many waypoints have been produced.
    pub closed spec fn produced(&self) -> nat {
        self.count@
    }

    /// Whether the guard has left the grid.
    pub closed spec fn finished(&self) -> bool {
        self.done
    }

    pub closed spec fn wf(&self) -> bool {
        let obs = self.obstacles@;
        let w = self.width();
        let h = self.height();
        let s = self.start@;
        &&& self.obstacles.wf()
        &&& self.map_size.0 == self.obstacles.width()
        &&& self.map_size.1 == self.obstacles.height()
        &&& in_bounds(w, h, s.0)
        &&& !self.done ==> yielded(obs, w, h, s, self.count@) && self.guard@ == state_at(
            obs,
            w,
            h,
            s,
            self.count@,
        )
        &&& self.done ==> self.count@ > 0 && yielded(obs, w, h, s, (self.count@ - 1) as nat)
            && !hit_at(obs, w, h, s, (self.count@ - 1) as nat)
    }

    /// Whether the guard has left the grid, so that no waypoint follows.
    pub fn has_exited(&self) -> (r: bool)
        requires
            self.wf(),
        ensures
            r == self.finished(),
    {
        self.done
    }

    /// The next waypoint of the patrol, or `None` once the guard has left
    /// the grid.
    pub fn next(&mut self) -> (r: Option<Waypoint>)
        requires
            old(self).wf(),
        ensures
            final(self).wf(),
            final(self).obstacles() == old(self).obstacles(),
            final(self).width() == old(self).width(),
            final(self).height() == old(self).height(),
            final(self).start() == old(self).start(),
            old(self).finished() ==> r.is_none() && final(self).produced() == old(self).produced()
                && final(self).finished(),
            !old(self).finished() ==> {
                let obs = old(self).obstacles();
                let w = old(self).width();
                let h = old(self).height();
                let s = old(self).start();
                let n = old(self).produced();
                &&& yielded(obs, w, h, s, n)
                &&& r.is_some()
                &&& r.unwrap()@ == waypoint_at(obs, w, h, s, n)
                &&& in_bounds(w, h, r.unwrap().position@)
                &&& final(self).produced() == n + 1
                &&& final(self).finished() == !hit_at(obs, w, h, s, n)
            },
    {
        if self.done {
            return None;
        }
        let ghost obs = self.obstacles@;
        let ghost w = self.width();
        let ghost h = self.height();
        let ghost s = self.start@;
        let ghost n = self.count@;
        proof {
            lemma_state_inside(obs, w, h, s, n);
            lemma_travel_inside(obs, w, h, self.guard.position@, self.guard.facing);
        }
        let (next_position, is_facing_obstacle) = find_position_before_next_obstacle(
            &self.guard,
            self.obstacles,
            self.map_size,
        );
        self.guard.position = next_position;
        let waypoint = Waypoint { position: self.guard.position, facing: self.guard.facing };
        self.count = Ghost(n + 1);
        if !is_facing_obstacle {
            self.done = true;
        } else {
            self.guard.facing = turn(&self.guard.facing);
            assert forall|i: nat| i < n + 1 implies #[trigger] hit_at(obs, w, h, s, i) by {
                if i < n {
                    assert(hit_at(obs, w, h, s, i));
                }
            }
        }
        Some(waypoint)
    }
}

/// Starts the patrol of a guard over the given obstacles, on a grid of size
/// `map_size` (width, height).
pub fn route<'a>(guard: Guard, obstacles: &'a Obstacles, map_size: (usize, usize)) -> (r: Patrol<'a>)
    requires
        obstacles.wf(),
        map_size.0 == obstacles.width(),
        map_size.1 == obstacles.height(),
        in_bounds(map_size.0 as int, map_size.1 as int, guard.position@),
    ensures
        r.wf(),
        r.obstacles() == obstacles@,
        r.width() == map_size.0,
        r.height() == map_size.1,
        r.start() == guard@,
        r.produced() == 0,
        !r.finished(),
{
    Patrol { obstacles, map_size, start: guard, guard, count: Ghost(0), done: false }
}

} // verus!

//! The loop detector: runs a patrol until it leaves the grid or repeats a
//! waypoint.
use vstd::prelude::*;
use crate::geometry::{Cell, Facing, Guard, State, Waypoint, in_bounds};
use crate::movement::lemma_travel_inside;
use crate::marks::WaypointSet;
use crate::obstacles::Obstacles;
use crate::patrol::{hit_at, lemma_state_inside, route, state_at, waypoint_at, yielded};

verus! {

/// The patrol repeats a waypoint, after which it cycles for ever.
pub open spec fn loops(obs: Set<Cell>, width: int, height: int, start: State) -> bool {
    exists|i: nat, j: nat|
        #![trigger waypoint_at(obs, width, height, start, i), waypoint_at(obs, width, height, start, j)]
        i < j && yielded(obs, width, height, start, j) && waypoint_at(obs, width, height, start, i)
            == waypoint_at(obs, width, height, start, j)
}

/// The first `n` waypoints are pairwise different.
pub open spec fn distinct_upto(obs: Set<Cell>, width: int, height: int, start: State, n: nat) -> bool {
    forall|i: nat, j: nat|
        #![trigger waypoint_at(obs, width, height, start, i), waypoint_at(obs, width, height, start, j)]
        i < j < n ==> waypoint_at(obs, width, height, start, i) != waypoint_at(
            obs,
            width,
            height,
            start,
            j,
        )
}

/// Runs the patrol of `guard` until a waypoint repeats (`true`) or the guard
/// leaves the grid (`false`), and reports how many waypoints the patrol
/// yielded until then: never more than four per cell of the grid. The last of
/// them is the first repeat, or where the guard left; all before it differ.
pub fn detect_loop(guard: Guard, obstacles: &Obstacles, map_size: (usize, usize)) -> (r: (bool, usize))
    requires
        obstacles.wf(),
        map_size.0 == obstacles.width(),
        map_size.1 == obstacles.height(),
        in_bounds(map_size.0 as int, map_size.1 as int, guard.position@),
        4 * map_size.0 * map_size.1 < usize::MAX,
    ensures
        ({
            let obs = obstacles@;
            let w = map_size.0 as int;
            let h = map_size.1 as int;
            let s = guard@;
            let last = (r.1 - 1) as nat;
            &&& 1 <= r.1 <= 4 * w * h
            &&& yielded(obs, w, h, s, last)
            &&& distinct_upto(obs, w, h, s, last)
            &&& r.0 ==> exists|i: nat|
                i < last && #[trigger] waypoint_at(obs, w, h, s, i) == waypoint_at(obs, w, h, s, last)
            &&& !r.0 ==> !hit_at(obs, w, h, s, last) && distinct_upto(obs, w, h, s, r.1 as nat)
            &&& r.0 == loops(obs, w, h, s)
        }),
{
    let ghost obs = obstacles@;
    let ghost w = map_size.0 as int;
    let ghost h = map_size.1 as int;
    let ghost s = guard@;
    assert(map_size.0 * map_size.1 <= 4 * map_size.0 * map_size.1) by (nonlinear_arith);
    let mut seen = WaypointSet::new(map_size.0, map_size.1);
    let mut patrol = route(guard, obstacles, map_size);
    let mut steps: usize = 0;
    assert(seen@ =~= Set::<State>::empty());
    loop
        invariant
            obs == obstacles@,
            w == map_size.0 as int,
            h == map_size.1 as int,
            s == guard@,
            in_bounds(w, h, s.0),
            patrol.wf(),
            patrol.obstacles() == obs,
            patrol.width() == w,
            patrol.height() == h,
            patrol.start() == s,
            !patrol.finished(),
            patrol.produced() == steps,
            seen.wf(),
            seen.width() == w,
            seen.height() == h,
            seen.size() == steps,
            steps <= 4 * w * h,
            4 * w * h < usize::MAX,
            forall|x: State|
                #[trigger] seen@.contains(x) <==> exists|i: nat|
                    i < steps && #[trigger] waypoint_at(obs, w, h, s, i) == x,
            distinct_upto(obs, w, h, s, steps as nat),
            !seen@.contains(((0int, 0int), Facing::Up)),
        decreases 4 * w * h - steps,
    {
        let ghost n = steps as nat;
        let ghost before = seen@;
        let wp: Waypoint = match patrol.next() {
            Some(wp) => wp,
            None => return (false, steps),
        };
        proof {
            seen.lemma_size_below(((0int, 0int), Facing::Up));
        }
        let fresh = seen.insert(&wp);
        if !fresh {
            steps = steps + 1;
            assert(before.contains(wp@));
            let ghost i = choose|i: nat| i < n && #[trigger] waypoint_at(obs, w, h, s, i) == wp@;
            assert(i < n && waypoint_at(obs, w, h, s, i) == waypoint_at(obs, w, h, s, n));
            return (true, steps);
        }
        steps = steps + 1;
        proof {
            let st = state_at(obs, w, h, s, n);
            lemma_state_inside(obs, w, h, s, n);
            lemma_travel_inside(obs, w, h, st.0, st.1);
        }
        assert forall|i: nat, j: nat|
            i < j < n + 1 implies #[trigger] waypoint_at(obs, w, h, s, i) != #[trigger] waypoint_at(
                obs,
                w,
                h,
                s,
                j,
            ) by {
            if j == n {
                if waypoint_at(obs, w, h, s, i) == wp@ {
                    assert(before.contains(wp@));
                }
            }
        }
        assert forall|x: State| #[trigger] seen@.contains(x) <==> exists|i: nat|
            i < steps && #[trigger] waypoint_at(obs, w, h, s, i) == x by {
            if x == wp@ {
                assert(waypoint_at(obs, w, h, s, n) == x);
            }
            if before.contains(x) {
                let i = choose|i: nat| i < n && #[trigger] waypoint_at(obs, w, h, s, i) == x;
                assert(i < steps && waypoint_at(obs, w, h, s, i) == x);
            }
            if exists|i: nat| i < steps && #[trigger] waypoint_at(obs, w, h, s, i) == x {
                let i = choose|i: nat| i < steps && #[trigger] waypoint_at(obs, w, h, s, i) == x;
                if i < n {
                    assert(before.contains(x));
                }
            }
        }
        if patrol.has_exited() {
            assert(!loops(obs, w, h, s)) by {
                if loops(obs, w, h, s) {
                    let (i, j) = choose|i: nat, j: nat|
                        #![trigger waypoint_at(obs, w, h, s, i), waypoint_at(obs, w, h, s, j)]
                        i < j && yielded(obs, w, h, s, j) && waypoint_at(obs, w, h, s, i)
                            == waypoint_at(obs, w, h, s, j);
                    if j > n {
                        assert(hit_at(obs, w, h, s, n));
                    }
                }
            }
            return (false, steps);
        }
    }
}

/// Whether the patrol of `guard` over `obstacles` cycles for ever.
pub fn is_loop(guard: Guard, obstacles: &Obstacles, map_size: (usize, usize)) -> (r: bool)
    requires
        obstacles.wf(),
        map_size.0 == obstacles.width(),
        map_size.1 == obstacles.height(),
        in_bounds(map_size.0 as int, map_size.1 as int, guard.position@),
        4 * map_size.0 * map_size.1 < usize::MAX,
    ensures
        r == loops(obstacles@, map_size.0 as int, map_size.1 as int, guard@),
{
    detect_loop(guard, obstacles, map_size).0
}

} // verus!

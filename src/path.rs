//! The path materializer: from stop points to every cell the guard crossed.
use vstd::prelude::*;
use crate::geometry::{Cell, Position, State, Waypoint, in_bounds};
use crate::detector::loops;
use crate::movement::lemma_travel_inside;
use crate::grid::Grid;
use crate::marks::{CellSet, WaypointSet};
use crate::patrol::{
    hit_at, lemma_folded, lemma_state_inside, route, state_at, waypoint_at, yielded,
};

verus! {

/// Whether `k` lies between `a` and `b`, both included.
pub open spec fn between(k: int, a: int, b: int) -> bool {
    (a <= k <= b) || (b <= k <= a)
}

/// Whether `c` lies on the straight segment from `a` to `b` (both included);
/// `a` and `b` share a row or a column.
pub open spec fn on_segment(a: Cell, b: Cell, c: Cell) -> bool {
    ||| (a.1 == b.1 && c.1 == a.1 && between(c.0, a.0, b.0))
    ||| (a.0 == b.0 && c.0 == a.0 && between(c.1, a.1, b.1))
}

/// The cells crossed by the patrol's first `n` moves.
pub open spec fn visited_upto(obs: Set<Cell>, width: int, height: int, start: State, n: nat) -> Set<Cell> {
    Set::new(
        |c: Cell|
            exists|m: nat|
                m < n && on_segment(
                    state_at(obs, width, height, start, m).0,
                    #[trigger] waypoint_at(obs, width, height, start, m).0,
                    c,
                ),
    )
}

/// The cells crossed by the patrol, start included, until it leaves the grid
/// (or for ever, if it cycles).
pub open spec fn visited(obs: Set<Cell>, width: int, height: int, start: State) -> Set<Cell> {
    Set::new(
        |c: Cell|
            exists|m: nat|
                yielded(obs, width, height, start, m) && on_segment(
                    state_at(obs, width, height, start, m).0,
                    #[trigger] waypoint_at(obs, width, height, start, m).0,
                    c,
                ),
    )
}

/// Some element of `v` stands on cell `c`.
pub open spec fn listed(v: Seq<Position>, c: Cell) -> bool {
    exists|j: int| 0 <= j < v.len() && v[j]@ == c
}

/// `v` lists the cells of `s`, each once.
pub open spec fn lists_exactly(v: Seq<Position>, s: Set<Cell>) -> bool {
    &&& forall|a: int, b: int| 0 <= a < b < v.len() ==> v[a]@ != v[b]@
    &&& forall|c: Cell| #[trigger] s.contains(c) <==> exists|j: int| 0 <= j < v.len() && v[j]@ == c
}

/// The smaller and the larger of two coordinates.
pub fn range_between(start: usize, end: usize) -> (r: (usize, usize))
    ensures
        r.0 <= r.1,
        (r.0 == start && r.1 == end) || (r.0 == end && r.1 == start),
{
    if start <= end {
        (start, end)
    } else {
        (end, start)
    }
}

/// Every cell of the straight segment from `start` to `end`, both included,
/// in increasing order of the coordinate that varies.
pub fn get_positions_between(start: &Position, end: &Position) -> (r: Vec<Position>)
    requires
        start.x == end.x || start.y == end.y,
    ensures
        start.y == end.y ==> {
            let lo = if start.x <= end.x { start.x as int } else { end.x as int };
            let hi = if start.x <= end.x { end.x as int } else { start.x as int };
            &&& r@.len() == hi - lo + 1
            &&& forall|i: int| 0 <= i < r@.len() ==> #[trigger] r@[i]@ == (lo + i, start.y as int)
        },
        start.y != end.y ==> {
            let lo = if start.y <= end.y { start.y as int } else { end.y as int };
            let hi = if start.y <= end.y { end.y as int } else { start.y as int };
            &&& r@.len() == hi - lo + 1
            &&& forall|i: int| 0 <= i < r@.len() ==> #[trigger] r@[i]@ == (start.x as int, lo + i)
        },
        lists_exactly(r@, Set::new(|c: Cell| on_segment(start@, end@, c))),
        exists|j: int| 0 <= j < r@.len() && r@[j]@ == start@,
        exists|j: int| 0 <= j < r@.len() && r@[j]@ == end@,
{
    let mut positions: Vec<Position> = Vec::new();
    let horizontal = start.y == end.y;
    let (lo, hi) = if horizontal {
        range_between(start.x, end.x)
    } else {
        range_between(start.y, end.y)
    };
    let mut k: usize = lo;
    loop
        invariant_except_break
            lo <= k <= hi,
            positions@.len() == k - lo,
        invariant
            forall|i: int|
                0 <= i < positions@.len() ==> #[trigger] positions@[i]@ == if horizontal {
                    (lo + i, start.y as int)
                } else {
                    (start.x as int, lo + i)
                },
        ensures
            positions@.len() == hi - lo + 1,
        decreases hi - k,
    {
        if horizontal {
            positions.push(Position { x: k, y: start.y });
        } else {
            positions.push(Position { x: start.x, y: k });
        }
        if k == hi {
            break;
        }
        k = k + 1;
    }
    let ghost seg = Set::new(|c: Cell| on_segment(start@, end@, c));
    assert forall|c: Cell| #[trigger] seg.contains(c) implies exists|j: int|
        0 <= j < positions@.len() && positions@[j]@ == c by {
        let j = if horizontal {
            c.0 - lo
        } else {
            c.1 - lo
        };
        assert(0 <= j < positions@.len());
        assert(positions@[j]@ == c);
    }
    assert(seg.contains(start@));
    assert(seg.contains(end@));
    positions
}

/// The cells the guard crosses from its start until it leaves the grid, each
/// listed once. A patrol that cycles is followed round its cycle once, which
/// covers every cell it would ever cross.
pub fn collect_visited_positions(map: &Grid) -> (r: Vec<Position>)
    requires
        map.wf(),
    ensures
        lists_exactly(
            r@,
            visited(map.obstacles@, map.width as int, map.height as int, map.guard_start@),
        ),
{
    let ghost obs = map.obstacles@;
    let ghost w = map.width as int;
    let ghost h = map.height as int;
    let ghost s = map.guard_start@;
    assert(map.width * map.height <= 4 * map.width * map.height) by (nonlinear_arith);
    let mut cells = CellSet::new(map.width, map.height);
    let mut seen = WaypointSet::new(map.width, map.height);
    let mut positions: Vec<Position> = Vec::new();
    let mut patrol = route(map.guard_start, &map.obstacles, (map.width, map.height));
    let mut previous = map.guard_start.position;
    assert(seen@ =~= Set::<State>::empty());
    assert(cells@ =~= visited_upto(obs, w, h, s, 0));
    loop
        invariant_except_break
            !patrol.finished(),
            previous@ == state_at(obs, w, h, s, patrol.produced()).0,
            cells@ == visited_upto(obs, w, h, s, patrol.produced()),
            forall|x: State|
                #[trigger] seen@.contains(x) <==> exists|i: nat|
                    i < patrol.produced() && #[trigger] waypoint_at(obs, w, h, s, i) == x,
            seen.size() == patrol.produced(),
            patrol.produced() <= 4 * w * h,
        invariant
            obs == map.obstacles@,
            w == map.width as int,
            h == map.height as int,
            s == map.guard_start@,
            in_bounds(w, h, s.0),
            4 * w * h < usize::MAX,
            patrol.wf(),
            patrol.obstacles() == obs,
            patrol.width() == w,
            patrol.height() == h,
            patrol.start() == s,
            seen.wf(),
            seen.width() == w,
            seen.height() == h,
            cells.wf(),
            cells.width() == w,
            cells.height() == h,
            lists_exactly(positions@, cells@),
        ensures
            cells@ == visited(obs, w, h, s),
        decreases 4 * w * h - patrol.produced(),
    {
        let ghost n = patrol.produced();
        let ghost before = seen@;
        let ghost base = cells@;
        proof {
            lemma_state_inside(obs, w, h, s, n);
            let st = state_at(obs, w, h, s, n);
            lemma_travel_inside(obs, w, h, st.0, st.1);
        }
        let wp: Waypoint = match patrol.next() {
            Some(wp) => wp,
            None => break,
        };
        let segment = get_positions_between(&previous, &wp.position);
        let ghost seg = Set::new(|c: Cell| on_segment(previous@, wp.position@, c));
        let mut idx: usize = 0;
        while idx < segment.len()
            invariant
                cells.wf(),
                cells.width() == w,
                cells.height() == h,
                lists_exactly(positions@, cells@),
                lists_exactly(segment@, seg),
                seg == Set::new(|c: Cell| on_segment(previous@, wp.position@, c)),
                in_bounds(w, h, previous@),
                in_bounds(w, h, wp.position@),
                idx <= segment@.len(),
                cells@ == base.union(
                    Set::new(|c: Cell| exists|j: int| 0 <= j < idx && segment@[j]@ == c),
                ),
            decreases segment@.len() - idx,
        {
            let p = segment[idx];
            assert(segment@.contains(p));
            assert(seg.contains(p@));
            assert(on_segment(previous@, wp.position@, p@));
            let ghost cells_before = cells@;
            let ghost positions_before = positions@;
            if cells.insert(&p) {
                positions.push(p);
                assert forall|c: Cell| #[trigger] cells@.contains(c) <==> exists|j: int|
                    0 <= j < positions@.len() && positions@[j]@ == c by {
                    if c == p@ {
                        assert(positions@[positions@.len() - 1]@ == c);
                    }
                    if cells_before.contains(c) {
                        let j = choose|j: int|
                            0 <= j < positions_before.len() && positions_before[j]@ == c;
                        assert(positions@[j] == positions_before[j]);
                    }
                    if exists|j: int| 0 <= j < positions@.len() && positions@[j]@ == c {
                        let j = choose|j: int| 0 <= j < positions@.len() && positions@[j]@ == c;
                        if j < positions_before.len() {
                            assert(positions_before[j]@ == c);
                        }
                    }
                }
                assert forall|a: int, b: int|
                    0 <= a < b < positions@.len() implies positions@[a]@ != positions@[b]@ by {
                    if b == positions_before.len() {
                        assert(positions_before[a]@ == positions@[a]@);
                        assert(cells_before.contains(positions_before[a]@));
                    } else {
                        assert(positions_before[a] == positions@[a]);
                        assert(positions_before[b] == positions@[b]);
                    }
                }
            }
            idx = idx + 1;
            assert(cells@ =~= base.union(
                Set::new(|c: Cell| exists|j: int| 0 <= j < idx && segment@[j]@ == c),
            )) by {
                assert(segment@[idx - 1] == p);
            }
        }
        proof {
            lemma_visited_upto_next(obs, w, h, s, n);
            assert(cells@ =~= visited_upto(obs, w, h, s, n + 1));
        }
        previous = wp.position;
        let fresh = seen.insert(&wp);
        if !fresh {
            proof {
                assert(before.contains(wp@));
                let i = choose|i: nat| i < n && #[trigger] waypoint_at(obs, w, h, s, i) == wp@;
                lemma_visited_repeat(obs, w, h, s, i, n);
            }
            break;
        }
        if patrol.has_exited() {
            proof {
                lemma_visited_exit(obs, w, h, s, n);
            }
            break;
        }
        assert forall|x: State| #[trigger] seen@.contains(x) <==> exists|i: nat|
            i < n + 1 && #[trigger] waypoint_at(obs, w, h, s, i) == x by {
            if x == wp@ {
                assert(waypoint_at(obs, w, h, s, n) == x);
            }
            if before.contains(x) {
                let i = choose|i: nat| i < n && #[trigger] waypoint_at(obs, w, h, s, i) == x;
                assert(i < n + 1 && waypoint_at(obs, w, h, s, i) == x);
            }
            if exists|i: nat| i < n + 1 && #[trigger] waypoint_at(obs, w, h, s, i) == x {
                let i = choose|i: nat| i < n + 1 && #[trigger] waypoint_at(obs, w, h, s, i) == x;
                if i < n {
                    assert(before.contains(x));
                }
            }
        }
    }
    positions
}

/// Every crossed cell lies on the grid.
pub proof fn lemma_visited_inside(obs: Set<Cell>, width: int, height: int, start: State, c: Cell)
    requires
        in_bounds(width, height, start.0),
        visited(obs, width, height, start).contains(c),
    ensures
        in_bounds(width, height, c),
{
    let m = choose|m: nat|
        yielded(obs, width, height, start, m) && on_segment(
            state_at(obs, width, height, start, m).0,
            #[trigger] waypoint_at(obs, width, height, start, m).0,
            c,
        );
    lemma_state_inside(obs, width, height, start, m);
    let st = state_at(obs, width, height, start, m);
    lemma_travel_inside(obs, width, height, st.0, st.1);
}

/// The guard's starting cell is always among the crossed cells.
pub proof fn lemma_start_visited(obs: Set<Cell>, width: int, height: int, start: State)
    requires
        in_bounds(width, height, start.0),
    ensures
        visited(obs, width, height, start).contains(start.0),
{
    lemma_travel_inside(obs, width, height, start.0, start.1);
    assert(state_at(obs, width, height, start, 0) == start);
    assert(on_segment(
        state_at(obs, width, height, start, 0).0,
        waypoint_at(obs, width, height, start, 0).0,
        start.0,
    ));
}

/// Two runs of the materializer on the same grid list the same cells, as
/// many of them, and two runs of the loop detector agree.
pub proof fn lemma_deterministic(
    map: Grid,
    first: Seq<Position>,
    second: Seq<Position>,
    first_loops: bool,
    second_loops: bool,
)
    requires
        map.wf(),
        lists_exactly(first, visited(map.obstacles@, map.width as int, map.height as int, map.guard_start@)),
        lists_exactly(second, visited(map.obstacles@, map.width as int, map.height as int, map.guard_start@)),
        first_loops == loops(map.obstacles@, map.width as int, map.height as int, map.guard_start@),
        second_loops == loops(map.obstacles@, map.width as int, map.height as int, map.guard_start@),
    ensures
        forall|c: Cell| #[trigger] listed(first, c) == listed(second, c),
        first.len() == second.len(),
        first_loops == second_loops,
{
    let s = visited(map.obstacles@, map.width as int, map.height as int, map.guard_start@);
    lemma_lists_exactly_len(first, s);
    lemma_lists_exactly_len(second, s);
    assert forall|c: Cell| #[trigger] listed(first, c) == listed(second, c) by {
        assert(s.contains(c) <==> listed(first, c));
        assert(s.contains(c) <==> listed(second, c));
    }
}

/// A list that holds each cell of a set once is as long as the set is large.
pub proof fn lemma_lists_exactly_len(v: Seq<Position>, s: Set<Cell>)
    requires
        lists_exactly(v, s),
    ensures
        s.finite(),
        s.len() == v.len(),
{
    let cells = v.map_values(|p: Position| p@);
    assert forall|a: int, b: int| 0 <= a < cells.len() && 0 <= b < cells.len() && a != b implies cells[a]
        != cells[b] by {
        if a < b {
            assert(v[a]@ != v[b]@);
        } else {
            assert(v[b]@ != v[a]@);
        }
    }
    assert(cells.no_duplicates());
    assert forall|c: Cell| #[trigger] s.contains(c) <==> cells.to_set().contains(c) by {
        if s.contains(c) {
            let j = choose|j: int| 0 <= j < v.len() && v[j]@ == c;
            assert(cells[j] == c);
        }
        if cells.to_set().contains(c) {
            let j = choose|j: int| 0 <= j < cells.len() && cells[j] == c;
            assert(v[j]@ == c);
        }
    }
    assert(s =~= cells.to_set());
    cells.unique_seq_to_set();
    vstd::seq_lib::seq_to_set_is_finite(cells);
}

/// A patrol that repeats waypoint `i` at `n` crosses no cell after its
/// `n`-th move that it had not crossed by then.
proof fn lemma_visited_repeat(obs: Set<Cell>, width: int, height: int, start: State, i: nat, n: nat)
    requires
        i < n,
        waypoint_at(obs, width, height, start, i) == waypoint_at(obs, width, height, start, n),
        yielded(obs, width, height, start, n),
    ensures
        visited(obs, width, height, start) == visited_upto(obs, width, height, start, n + 1),
{
    let all = visited(obs, width, height, start);
    let upto = visited_upto(obs, width, height, start, n + 1);
    assert forall|c: Cell| #[trigger] all.contains(c) <==> upto.contains(c) by {
        if all.contains(c) {
            let m = choose|m: nat|
                yielded(obs, width, height, start, m) && on_segment(
                    state_at(obs, width, height, start, m).0,
                    #[trigger] waypoint_at(obs, width, height, start, m).0,
                    c,
                );
            lemma_folded(obs, width, height, start, i, n, m);
            let m2 = choose|m2: nat|
                m2 <= n && #[trigger] state_at(obs, width, height, start, m2) == state_at(
                    obs,
                    width,
                    height,
                    start,
                    m,
                );
            assert(waypoint_at(obs, width, height, start, m2) == waypoint_at(obs, width, height, start, m));
        }
        if upto.contains(c) {
            let m = choose|m: nat|
                m < n + 1 && on_segment(
                    state_at(obs, width, height, start, m).0,
                    #[trigger] waypoint_at(obs, width, height, start, m).0,
                    c,
                );
            assert(yielded(obs, width, height, start, m));
        }
    }
    assert(all =~= upto);
}

/// A patrol whose `n`-th move leaves the grid crosses nothing after it.
proof fn lemma_visited_exit(obs: Set<Cell>, width: int, height: int, start: State, n: nat)
    requires
        yielded(obs, width, height, start, n),
        !hit_at(obs, width, height, start, n),
    ensures
        visited(obs, width, height, start) == visited_upto(obs, width, height, start, n + 1),
{
    let all = visited(obs, width, height, start);
    let upto = visited_upto(obs, width, height, start, n + 1);
    assert forall|c: Cell| #[trigger] all.contains(c) <==> upto.contains(c) by {
        if all.contains(c) {
            let m = choose|m: nat|
                yielded(obs, width, height, start, m) && on_segment(
                    state_at(obs, width, height, start, m).0,
                    #[trigger] waypoint_at(obs, width, height, start, m).0,
                    c,
                );
            if m > n {
                assert(hit_at(obs, width, height, start, n));
            }
        }
        if upto.contains(c) {
            let m = choose|m: nat|
                m < n + 1 && on_segment(
                    state_at(obs, width, height, start, m).0,
                    #[trigger] waypoint_at(obs, width, height, start, m).0,
                    c,
                );
            assert(yielded(obs, width, height, start, m));
        }
    }
    assert(all =~= upto);
}

/// The cells crossed by the first `n + 1` moves are those crossed by the
/// first `n` together with those of the `n`-th segment.
proof fn lemma_visited_upto_next(obs: Set<Cell>, width: int, height: int, start: State, n: nat)
    ensures
        visited_upto(obs, width, height, start, n + 1) == visited_upto(obs, width, height, start, n).union(
            Set::new(
                |c: Cell|
                    on_segment(
                        state_at(obs, width, height, start, n).0,
                        waypoint_at(obs, width, height, start, n).0,
                        c,
                    ),
            ),
        ),
{
    let a = visited_upto(obs, width, height, start, n + 1);
    let b = visited_upto(obs, width, height, start, n);
    assert forall|c: Cell| #[trigger] a.contains(c) implies b.contains(c) || on_segment(
        state_at(obs, width, height, start, n).0,
        waypoint_at(obs, width, height, start, n).0,
        c,
    ) by {
        let m = choose|m: nat|
            m < n + 1 && on_segment(
                state_at(obs, width, height, start, m).0,
                #[trigger] waypoint_at(obs, width, height, start, m).0,
                c,
            );
        if m < n {
            assert(b.contains(c));
        }
    }
    assert(a =~= b.union(
        Set::new(
            |c: Cell|
                on_segment(
                    state_at(obs, width, height, start, n).0,
                    waypoint_at(obs, width, height, start, n).0,
                    c,
                ),
        ),
    ));
}

} // verus!

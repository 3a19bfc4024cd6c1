//! The candidate search: which single extra obstacles trap the guard in a
//! cycle, and the two counts the simulation answers.
use vstd::prelude::*;
use crate::detector::{is_loop, loops};
use crate::geometry::{Cell, Position, State, in_bounds};
use crate::grid::Grid;
use crate::path::{
    collect_visited_positions, lemma_lists_exactly_len, lemma_start_visited, lemma_visited_inside,
    lists_exactly, visited,
};

verus! {

/// The cells crossed by the unmodified patrol, other than the start, where
/// one more obstacle makes the patrol cycle for ever.
pub open spec fn loop_candidates(obs: Set<Cell>, width: int, height: int, start: State) -> Set<Cell> {
    Set::new(
        |c: Cell|
            visited(obs, width, height, start).contains(c) && c != start.0 && loops(
                obs.insert(c),
                width,
                height,
                start,
            ),
    )
}

/// Tries one extra obstacle on each crossed cell but the start, each on its
/// own copy of the index, and lists those that make the patrol cycle.
pub fn find_loop_candidates(map: &Grid) -> (r: Vec<Position>)
    requires
        map.wf(),
    ensures
        lists_exactly(
            r@,
            loop_candidates(map.obstacles@, map.width as int, map.height as int, map.guard_start@),
        ),
        forall|j: int|
            0 <= j < r@.len() ==> visited(
                map.obstacles@,
                map.width as int,
                map.height as int,
                map.guard_start@,
            ).contains(#[trigger] r@[j]@) && r@[j]@ != map.guard_start.position@,
{
    let ghost obs = map.obstacles@;
    let ghost w = map.width as int;
    let ghost h = map.height as int;
    let ghost s = map.guard_start@;
    let ghost target = loop_candidates(obs, w, h, s);
    let cells = collect_visited_positions(map);
    let mut found: Vec<Position> = Vec::new();
    let mut i: usize = 0;
    while i < cells.len()
        invariant
            obs == map.obstacles@,
            w == map.width as int,
            h == map.height as int,
            s == map.guard_start@,
            target == loop_candidates(obs, w, h, s),
            map.wf(),
            lists_exactly(cells@, visited(obs, w, h, s)),
            i <= cells@.len(),
            lists_exactly(
                found@,
                Set::new(|c: Cell| target.contains(c) && exists|j: int| 0 <= j < i && cells@[j]@ == c),
            ),
        decreases cells@.len() - i,
    {
        let p = cells[i];
        let ghost found_before = found@;
        assert(visited(obs, w, h, s).contains(p@));
        proof {
            lemma_visited_inside(obs, w, h, s, p@);
        }
        let start = map.guard_start.position;
        if p.x != start.x || p.y != start.y {
            let mut trial = map.obstacles.fork();
            trial.add(&p);
            if is_loop(map.guard_start, &trial, (map.width, map.height)) {
                found.push(p);
            }
        }
        i = i + 1;
        let ghost part = Set::new(
            |c: Cell| target.contains(c) && exists|j: int| 0 <= j < i && cells@[j]@ == c,
        );
        let ghost part_before = Set::new(
            |c: Cell| target.contains(c) && exists|j: int| 0 <= j < i - 1 && cells@[j]@ == c,
        );
        assert forall|c: Cell| #[trigger] part.contains(c) <==> (part_before.contains(c) || (c == p@
            && target.contains(c))) by {
            if part.contains(c) {
                let j = choose|j: int| 0 <= j < i && cells@[j]@ == c;
                if j < i - 1 {
                    assert(part_before.contains(c));
                }
            }
            if c == p@ && target.contains(c) {
                assert(cells@[i - 1]@ == c);
            }
        }
        assert(!part_before.contains(p@)) by {
            if part_before.contains(p@) {
                let j = choose|j: int| 0 <= j < i - 1 && cells@[j]@ == p@;
                assert(cells@[j]@ == cells@[i - 1]@);
            }
        }
        assert forall|c: Cell| #[trigger] part.contains(c) <==> exists|j: int|
            0 <= j < found@.len() && found@[j]@ == c by {
            if part_before.contains(c) {
                let j = choose|j: int| 0 <= j < found_before.len() && found_before[j]@ == c;
                assert(found@[j] == found_before[j]);
            }
            if c == p@ && target.contains(c) {
                assert(found@[found@.len() - 1]@ == c);
            }
            if exists|j: int| 0 <= j < found@.len() && found@[j]@ == c {
                let j = choose|j: int| 0 <= j < found@.len() && found@[j]@ == c;
                if j < found_before.len() {
                    assert(found_before[j]@ == c);
                }
            }
        }
        assert forall|a: int, b: int| 0 <= a < b < found@.len() implies found@[a]@ != found@[b]@ by {
            if b == found_before.len() {
                assert(found_before[a]@ == found@[a]@);
                assert(part_before.contains(found_before[a]@));
            } else {
                assert(found_before[a] == found@[a]);
                assert(found_before[b] == found@[b]);
            }
        }
    }
    assert forall|c: Cell| #[trigger] target.contains(c) implies exists|j: int|
        0 <= j < cells@.len() && cells@[j]@ == c by {
        assert(visited(obs, w, h, s).contains(c));
    }
    assert(Set::new(
        |c: Cell| target.contains(c) && exists|j: int| 0 <= j < cells@.len() && cells@[j]@ == c,
    ) =~= target);
    assert forall|j: int| 0 <= j < found@.len() implies visited(obs, w, h, s).contains(
        #[trigger] found@[j]@,
    ) && found@[j]@ != s.0 by {
        assert(target.contains(found@[j]@));
    }
    found
}

/// How many cells the guard crosses, its start included.
pub fn day6_1(map: &Grid) -> (r: usize)
    requires
        map.wf(),
    ensures
        r == visited(map.obstacles@, map.width as int, map.height as int, map.guard_start@).len(),
{
    let cells = collect_visited_positions(map);
    proof {
        lemma_lists_exactly_len(
            cells@,
            visited(map.obstacles@, map.width as int, map.height as int, map.guard_start@),
        );
    }
    cells.len()
}

/// How many single extra obstacles would trap the guard in a cycle.
pub fn day6_2(map: &Grid) -> (r: usize)
    requires
        map.wf(),
    ensures
        r == loop_candidates(map.obstacles@, map.width as int, map.height as int, map.guard_start@).len(),
{
    let found = find_loop_candidates(map);
    proof {
        lemma_lists_exactly_len(
            found@,
            loop_candidates(map.obstacles@, map.width as int, map.height as int, map.guard_start@),
        );
    }
    found.len()
}

} // verus!

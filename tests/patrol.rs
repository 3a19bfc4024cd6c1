use guard_patrol::detector::{detect_loop, is_loop};
use guard_patrol::geometry::{get_position_before_position, turn, Facing, Guard, Position, Waypoint};
use guard_patrol::grid::{get_guard_facing_from_char, read_map, Grid, MapError};
use guard_patrol::marks::{CellSet, WaypointSet};
use guard_patrol::movement::find_position_before_next_obstacle;
use guard_patrol::obstacles::{lower_bound, Obstacles};
use guard_patrol::path::{collect_visited_positions, get_positions_between, range_between};
use guard_patrol::patrol::route;
use guard_patrol::search::{day6_1, day6_2, find_loop_candidates};

const SAMPLE: &str = "....#.....
.........#
..........
..#.......
.......#..
..........
.#..^.....
........#.
#.........
......#...";

fn rows(text: &str) -> Vec<Vec<char>> {
    text.lines().map(|line| line.chars().collect()).collect()
}

fn grid(text: &str) -> Grid {
    read_map(&rows(text)).unwrap()
}

fn pos(x: usize, y: usize) -> Position {
    Position { x, y }
}

fn sorted(mut v: Vec<Position>) -> Vec<(usize, usize)> {
    let mut out: Vec<(usize, usize)> = v.drain(..).map(|p| (p.x, p.y)).collect();
    out.sort();
    out
}

#[test]
fn turn_goes_clockwise() {
    assert_eq!(turn(&Facing::Up), Facing::Right);
    assert_eq!(turn(&Facing::Right), Facing::Down);
    assert_eq!(turn(&Facing::Down), Facing::Left);
    assert_eq!(turn(&Facing::Left), Facing::Up);
}

#[test]
fn four_turns_restore_every_facing() {
    for f in [Facing::Up, Facing::Down, Facing::Left, Facing::Right] {
        assert_eq!(turn(&turn(&turn(&turn(&f)))), f);
    }
}

#[test]
fn position_before_obstacle() {
    assert_eq!(get_position_before_position(3, &Facing::Up), 4);
    assert_eq!(get_position_before_position(3, &Facing::Left), 4);
    assert_eq!(get_position_before_position(3, &Facing::Down), 2);
    assert_eq!(get_position_before_position(3, &Facing::Right), 2);
}

#[test]
fn facing_from_char() {
    assert_eq!(get_guard_facing_from_char('^'), Facing::Up);
    assert_eq!(get_guard_facing_from_char('v'), Facing::Down);
    assert_eq!(get_guard_facing_from_char('<'), Facing::Left);
    assert_eq!(get_guard_facing_from_char('>'), Facing::Right);
}

#[test]
fn lower_bound_counts_smaller_elements() {
    let v = vec![1, 4, 7, 9];
    assert_eq!(lower_bound(&v, 0), 0);
    assert_eq!(lower_bound(&v, 4), 1);
    assert_eq!(lower_bound(&v, 5), 2);
    assert_eq!(lower_bound(&v, 10), 4);
    assert_eq!(lower_bound(&Vec::new(), 3), 0);
}

#[test]
fn next_obstacle_in_each_direction() {
    let mut obstacles = Obstacles::new(10, 10);
    obstacles.add(&pos(4, 1));
    obstacles.add(&pos(4, 8));
    obstacles.add(&pos(0, 5));
    obstacles.add(&pos(7, 5));
    obstacles.add(&pos(4, 1));
    let from = pos(4, 5);
    assert_eq!(obstacles.next_obstacle(&from, Facing::Up), Some(1));
    assert_eq!(obstacles.next_obstacle(&from, Facing::Down), Some(8));
    assert_eq!(obstacles.next_obstacle(&from, Facing::Left), Some(0));
    assert_eq!(obstacles.next_obstacle(&from, Facing::Right), Some(7));
    let open = pos(2, 2);
    assert_eq!(obstacles.next_obstacle(&open, Facing::Up), None);
    assert_eq!(obstacles.next_obstacle(&open, Facing::Right), None);
}

#[test]
fn next_obstacle_is_strictly_ahead() {
    let mut obstacles = Obstacles::new(5, 5);
    obstacles.add(&pos(2, 2));
    assert_eq!(obstacles.next_obstacle(&pos(2, 2), Facing::Up), None);
    assert_eq!(obstacles.next_obstacle(&pos(2, 3), Facing::Up), Some(2));
    assert_eq!(obstacles.next_obstacle(&pos(2, 1), Facing::Up), None);
}

#[test]
fn fork_is_independent() {
    let mut obstacles = Obstacles::new(5, 5);
    obstacles.add(&pos(1, 1));
    let mut copy = obstacles.fork();
    copy.add(&pos(1, 3));
    assert_eq!(copy.next_obstacle(&pos(1, 4), Facing::Up), Some(3));
    assert_eq!(obstacles.next_obstacle(&pos(1, 4), Facing::Up), Some(1));
}

#[test]
fn stops_before_obstacle_or_at_border() {
    let mut obstacles = Obstacles::new(10, 10);
    obstacles.add(&pos(4, 0));
    let up = Guard { position: pos(4, 6), facing: Facing::Up };
    assert_eq!(find_position_before_next_obstacle(&up, &obstacles, (10, 10)), (pos(4, 1), true));
    let down = Guard { position: pos(4, 6), facing: Facing::Down };
    assert_eq!(find_position_before_next_obstacle(&down, &obstacles, (10, 10)), (pos(4, 9), false));
    let left = Guard { position: pos(4, 6), facing: Facing::Left };
    assert_eq!(find_position_before_next_obstacle(&left, &obstacles, (10, 10)), (pos(0, 6), false));
    let right = Guard { position: pos(4, 6), facing: Facing::Right };
    assert_eq!(find_position_before_next_obstacle(&right, &obstacles, (10, 10)), (pos(9, 6), false));
    let right_blocked = Guard { position: pos(0, 0), facing: Facing::Right };
    assert_eq!(find_position_before_next_obstacle(&right_blocked, &obstacles, (10, 10)), (pos(3, 0), true));
}

#[test]
fn guard_at_border_does_not_move() {
    let obstacles = Obstacles::new(3, 3);
    let guard = Guard { position: pos(1, 0), facing: Facing::Up };
    assert_eq!(find_position_before_next_obstacle(&guard, &obstacles, (3, 3)), (pos(1, 0), false));
}

#[test]
fn range_between_orders_ends() {
    assert_eq!(range_between(2, 7), (2, 7));
    assert_eq!(range_between(7, 2), (2, 7));
    assert_eq!(range_between(5, 5), (5, 5));
}

#[test]
fn segment_has_delta_plus_one_cells() {
    let cells = get_positions_between(&pos(6, 2), &pos(3, 2));
    assert_eq!(cells, vec![pos(3, 2), pos(4, 2), pos(5, 2), pos(6, 2)]);
    let cells = get_positions_between(&pos(1, 0), &pos(1, 4));
    assert_eq!(cells.len(), 5);
    assert!(cells.iter().all(|p| p.x == 1));
    assert!(cells.contains(&pos(1, 0)) && cells.contains(&pos(1, 4)));
}

#[test]
fn segment_of_one_cell() {
    assert_eq!(get_positions_between(&pos(2, 2), &pos(2, 2)), vec![pos(2, 2)]);
}

#[test]
fn patrol_yields_stop_points() {
    let map = grid(SAMPLE);
    let mut patrol = route(map.guard_start, &map.obstacles, (map.width, map.height));
    assert!(!patrol.has_exited());
    assert_eq!(patrol.next(), Some(Waypoint { position: pos(4, 1), facing: Facing::Up }));
    assert_eq!(patrol.next(), Some(Waypoint { position: pos(8, 1), facing: Facing::Right }));
    assert_eq!(patrol.next(), Some(Waypoint { position: pos(8, 6), facing: Facing::Down }));
    let mut last = None;
    let mut count = 3;
    while let Some(w) = patrol.next() {
        last = Some(w);
        count += 1;
    }
    assert!(patrol.has_exited());
    assert_eq!(last, Some(Waypoint { position: pos(7, 9), facing: Facing::Down }));
    assert!(count > 3);
    assert_eq!(patrol.next(), None);
}

#[test]
fn patrol_ends_at_once_at_border() {
    let map = grid("..^..\n.....");
    let mut patrol = route(map.guard_start, &map.obstacles, (map.width, map.height));
    assert_eq!(patrol.next(), Some(Waypoint { position: pos(2, 0), facing: Facing::Up }));
    assert!(patrol.has_exited());
    assert_eq!(patrol.next(), None);
}

#[test]
fn read_map_builds_grid() {
    let map = grid("#.\n.>");
    assert_eq!(map.width, 2);
    assert_eq!(map.height, 2);
    assert_eq!(map.guard_start, Guard { position: pos(1, 1), facing: Facing::Right });
    assert_eq!(map.obstacles.next_obstacle(&pos(0, 1), Facing::Up), Some(0));
}

#[test]
fn read_map_rejects_missing_guard() {
    assert_eq!(read_map(&rows("..#\n...")).err(), Some(MapError::NoGuard));
    assert_eq!(read_map(&Vec::new()).err(), Some(MapError::NoGuard));
}

#[test]
fn read_map_rejects_two_guards() {
    assert_eq!(read_map(&rows("^..\n..v")).err(), Some(MapError::MultipleGuards));
}

#[test]
fn read_map_rejects_ragged_rows() {
    assert_eq!(read_map(&rows("^..\n..")).err(), Some(MapError::Ragged));
}

#[test]
fn sample_counts() {
    let map = grid(SAMPLE);
    assert_eq!(day6_1(&map), 41);
    assert_eq!(day6_2(&map), 6);
}

#[test]
fn corner_guard_turns_right_at_once() {
    // 5x5; guard at (4, 0) facing down, obstacle right below it.
    let map = grid(".#..v\n....#\n#....\n...#.\n.....");
    assert_eq!(day6_1(&map), 3);
    assert_eq!(day6_2(&map), 0);
    assert_eq!(sorted(collect_visited_positions(&map)), vec![(2, 0), (3, 0), (4, 0)]);
}

#[test]
fn loop_candidates_of_sample() {
    let map = grid(SAMPLE);
    let found = find_loop_candidates(&map);
    assert_eq!(sorted(found.clone()), vec![(1, 8), (3, 6), (3, 8), (6, 7), (7, 7), (7, 9)]);
    let visited = collect_visited_positions(&map);
    for p in &found {
        assert!(visited.contains(p));
        assert_ne!(*p, map.guard_start.position);
    }
}

#[test]
fn start_is_never_a_candidate() {
    // The guard is boxed in: the only cell it crosses is its start, which is never tried.
    let map = grid(".#.\n#^#\n.#.");
    assert_eq!(find_loop_candidates(&map), Vec::new());
    assert_eq!(day6_1(&map), 1);
}

#[test]
fn start_is_visited() {
    for text in [SAMPLE, "^", "..>", ".#.\n#^#\n.#.", ".#..v\n....#\n#....\n...#.\n....."] {
        let map = grid(text);
        assert!(collect_visited_positions(&map).contains(&map.guard_start.position));
    }
}

#[test]
fn detects_loop_with_extra_obstacle() {
    let map = grid(SAMPLE);
    assert!(!is_loop(map.guard_start, &map.obstacles, (10, 10)));
    let mut trial = map.obstacles.fork();
    trial.add(&pos(3, 6));
    assert!(is_loop(map.guard_start, &trial, (10, 10)));
}

#[test]
fn detection_is_bounded() {
    let boxed = grid(".#.\n#^#\n.#.");
    let (looped, steps) = detect_loop(boxed.guard_start, &boxed.obstacles, (3, 3));
    assert!(looped);
    assert_eq!(steps, 5);
    assert!(steps <= 4 * 3 * 3);
    let map = grid(SAMPLE);
    let (looped, steps) = detect_loop(map.guard_start, &map.obstacles, (10, 10));
    assert!(!looped);
    assert!(steps >= 1 && steps <= 400);
}

#[test]
fn looping_patrol_still_lists_its_cells() {
    let map = grid(".#...\n....#\n.^...\n#....\n...#.");
    assert!(is_loop(map.guard_start, &map.obstacles, (5, 5)));
    assert_eq!(
        sorted(collect_visited_positions(&map)),
        vec![(1, 1), (1, 2), (1, 3), (2, 1), (2, 3), (3, 1), (3, 2), (3, 3)]
    );
    assert_eq!(day6_1(&map), 8);
    assert_eq!(day6_2(&map), 0);
}

#[test]
fn runs_are_deterministic() {
    let map = grid(SAMPLE);
    assert_eq!(sorted(collect_visited_positions(&map)), sorted(collect_visited_positions(&map)));
    assert_eq!(
        is_loop(map.guard_start, &map.obstacles, (10, 10)),
        is_loop(map.guard_start, &map.obstacles, (10, 10))
    );
    assert_eq!(day6_2(&map), day6_2(&map));
}

#[test]
fn cell_set_insert_reports_new() {
    let mut cells = CellSet::new(3, 2);
    assert!(cells.insert(&pos(2, 1)));
    assert!(!cells.insert(&pos(2, 1)));
    assert!(cells.insert(&pos(0, 0)));
}

#[test]
fn waypoint_set_separates_facings() {
    let mut seen = WaypointSet::new(3, 3);
    let a = Waypoint { position: pos(1, 1), facing: Facing::Up };
    let b = Waypoint { position: pos(1, 1), facing: Facing::Left };
    assert!(seen.insert(&a));
    assert!(seen.insert(&b));
    assert!(!seen.insert(&a));
}

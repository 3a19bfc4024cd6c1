//! Grid patrol simulation with loop detection.
//!
//! A guard walks a grid of obstacles in straight lines, turning a quarter
//! turn clockwise whenever the next cell is blocked, until it steps off the
//! grid. The library computes every cell the guard crosses, and which single
//! extra obstacle on its path would trap it in a cycle instead.
//!
//! - `geometry`: positions, facings, the guard and its waypoints.
//! - `obstacles`: the obstacle index, sorted per row and per column.
//! - `movement`: the next stop point of a guard.
//! - `patrol`: the stop points one at a time.
//! - `marks`: bounded sets of cells and of waypoints.
//! - `detector`: whether a patrol cycles.
//! - `grid`: the whole map, read from rows of characters.
//! - `path`: every cell crossed by a patrol.
//! - `search`: the obstacles that would trap the guard, and the two counts.
//!
//! A few smaller grid and list puzzles share the crate: `letters` (walking a
//! block of text in four directions), `page_order` (page ordering rules),
//! `equations` (left-to-right calibration equations) and `antennas` (map
//! bounds and greatest common divisors).
pub mod geometry;
pub mod obstacles;
pub mod movement;
pub mod marks;
pub mod patrol;
pub mod detector;
pub mod grid;
pub mod path;
pub mod search;
pub mod letters;
pub mod page_order;
pub mod equations;
pub mod antennas;

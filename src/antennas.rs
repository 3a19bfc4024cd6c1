//! Helpers for antenna maps: bounds checks and the greatest common divisor
//! that reduces the step between two antennas to its smallest grid step.
use vstd::prelude::*;
use crate::geometry::Position;

verus! {

/// The size of an antenna map.
#[derive(Clone, Copy, Debug, PartialEq, Eq, Structural)]
pub struct Size {
    pub width: usize,
    pub height: usize,
}

/// Euclid's greatest common divisor (zero only for two zeros).
pub open spec fn gcd_spec(a: nat, b: nat) -> nat
    decreases b,
{
    if b == 0 {
        a
    } else {
        gcd_spec(b, a % b)
    }
}

/// The absolute value.
pub open spec fn abs_spec(a: int) -> nat {
    if a < 0 {
        (-a) as nat
    } else {
        a as nat
    }
}

/// Whether a position lies on the map.
pub fn is_within_map_bounds(position: &Position, map_bounds: &Size) -> (r: bool)
    ensures
        r == (position.x < map_bounds.width && position.y < map_bounds.height),
{
    position.x < map_bounds.width && position.y < map_bounds.height
}

/// The greatest common divisor of the absolute values of `a` and `b`.
pub fn greatest_common_divisor(a: isize, b: isize) -> (r: isize)
    requires
        a != isize::MIN,
        b != isize::MIN,
    ensures
        r as int == gcd_spec(abs_spec(a as int), abs_spec(b as int)),
{
    let mut x: isize = if a < 0 {
        -a
    } else {
        a
    };
    let mut y: isize = if b < 0 {
        -b
    } else {
        b
    };
    while y != 0
        invariant
            x >= 0,
            y >= 0,
            gcd_spec(x as nat, y as nat) == gcd_spec(abs_spec(a as int), abs_spec(b as int)),
        decreases y,
    {
        let t = x % y;
        x = y;
        y = t;
    }
    x
}

} // verus!

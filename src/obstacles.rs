//! The obstacle index: per column the sorted rows of its obstacles, and per
//! row the sorted columns of its obstacles.
use vstd::prelude::*;
use crate::geometry::{
    Cell, Facing, Position, distance_to, in_bounds, nearest_ahead, nothing_ahead, step,
};

verus! {

/// Whether a sequence is strictly ascending.
pub open spec fn strictly_sorted(s: Seq<usize>) -> bool {
    forall|i: int, j: int| 0 <= i < j < s.len() ==> s[i] < s[j]
}

/// Finds by binary search the number of leading elements of a strictly
/// ascending vector that are below `target`.
pub fn lower_bound(v: &Vec<usize>, target: usize) -> (r: usize)
    requires
        strictly_sorted(v@),
    ensures
        r <= v@.len(),
        forall|j: int| 0 <= j < r ==> v@[j] < target,
        forall|j: int| r <= j < v@.len() ==> v@[j] >= target,
{
    let mut lo: usize = 0;
    let mut hi: usize = v.len();
    while lo < hi
        invariant
            lo <= hi <= v@.len(),
            strictly_sorted(v@),
            forall|j: int| 0 <= j < lo ==> v@[j] < target,
            forall|j: int| hi <= j < v@.len() ==> v@[j] >= target,
        decreases hi - lo,
    {
        let mid: usize = lo + (hi - lo) / 2;
        if v[mid] < target {
            lo = mid + 1;
        } else {
            hi = mid;
        }
    }
    lo
}

/// In a partitioned ascending sequence, a member below the partition's
/// bound is at most the last element before the partition point.
proof fn lemma_member_below(s: Seq<usize>, lb: int, t: usize, e: usize)
    requires
        strictly_sorted(s),
        0 <= lb <= s.len(),
        forall|j: int| 0 <= j < lb ==> s[j] < t,
        forall|j: int| lb <= j < s.len() ==> s[j] >= t,
        s.contains(e),
        e < t,
    ensures
        lb > 0,
        e <= s[lb - 1],
{
    let k = choose|k: int| 0 <= k < s.len() && s[k] == e;
    if k >= lb {
        assert(s[k] >= t);
    }
    if k < lb - 1 {
        assert(s[k] < s[lb - 1]);
    }
}

/// In a partitioned ascending sequence, a member at or above the partition's
/// bound is at least the element at the partition point.
proof fn lemma_member_above(s: Seq<usize>, lb: int, t: usize, e: usize)
    requires
        strictly_sorted(s),
        0 <= lb <= s.len(),
        forall|j: int| 0 <= j < lb ==> s[j] < t,
        forall|j: int| lb <= j < s.len() ==> s[j] >= t,
        s.contains(e),
        e >= t,
    ensures
        lb < s.len(),
        e >= s[lb],
{
    let k = choose|k: int| 0 <= k < s.len() && s[k] == e;
    if k < lb {
        assert(s[k] < t);
    }
    if k > lb {
        assert(s[lb] < s[k]);
    }
}

/// Inserts `value` into a strictly ascending vector, keeping it so; a value
/// already present is not added twice.
fn insert_sorted(v: &mut Vec<usize>, value: usize)
    requires
        strictly_sorted(old(v)@),
    ensures
        strictly_sorted(final(v)@),
        forall|e: usize| final(v)@.contains(e) <==> (old(v)@.contains(e) || e == value),
{
    let i = lower_bound(v, value);
    if i < v.len() && v[i] == value {
        return;
    }
    v.insert(i, value);
    assert forall|e: usize| final(v)@.contains(e) <==> (old(v)@.contains(e) || e == value) by {
        if old(v)@.contains(e) {
            let k = choose|k: int| 0 <= k < old(v)@.len() && old(v)@[k] == e;
            if k < i {
                assert(final(v)@[k] == e);
            } else {
                assert(final(v)@[k + 1] == e);
            }
        }
        if e == value {
            assert(final(v)@[i as int] == e);
        }
    }
}

/// The obstacles of a grid of fixed width and height.
pub struct Obstacles {
    vertical: Vec<Vec<usize>>,
    horizontal: Vec<Vec<usize>>,
}

impl Obstacles {
    /// The number of columns.
    pub closed spec fn width(&self) -> nat {
        self.vertical@.len()
    }

    /// The number of rows.
    pub closed spec fn height(&self) -> nat {
        self.horizontal@.len()
    }

    spec fn column_has(&self, x: int, y: int) -> bool {
        self.vertical@[x]@.contains(y as usize)
    }

    spec fn row_has(&self, y: int, x: int) -> bool {
        self.horizontal@[y]@.contains(x as usize)
    }

    /// Both views are sorted, hold only cells of the grid, and agree.
    pub closed spec fn wf(&self) -> bool {
        &&& forall|x: int|
            0 <= x < self.width() ==> #[trigger] strictly_sorted(self.vertical@[x]@)
        &&& forall|x: int, k: int|
            0 <= x < self.width() && 0 <= k < self.vertical@[x]@.len() ==> #[trigger] self.vertical@[x]@[k]
                < self.height()
        &&& forall|y: int|
            0 <= y < self.height() ==> #[trigger] strictly_sorted(self.horizontal@[y]@)
        &&& forall|y: int, k: int|
            0 <= y < self.height() && 0 <= k < self.horizontal@[y]@.len()
                ==> #[trigger] self.horizontal@[y]@[k] < self.width()
        &&& forall|x: int, y: int|
            #![trigger self.column_has(x, y)]
            #![trigger self.row_has(y, x)]
            0 <= x < self.width() && 0 <= y < self.height() ==> (self.column_has(x, y)
                <==> self.row_has(y, x))
    }
}

impl View for Obstacles {
    type V = Set<Cell>;

    /// The set of obstructed cells.
    closed spec fn view(&self) -> Set<Cell> {
        Set::new(
            |c: Cell| in_bounds(self.width() as int, self.height() as int, c) && self.column_has(c.0, c.1),
        )
    }
}

impl Obstacles {
    /// Every obstructed cell lies on the grid.
    pub proof fn lemma_inside(&self)
        ensures
            forall|c: Cell| #[trigger] self@.contains(c) ==> in_bounds(self.width() as int, self.height() as int, c),
    {
    }

    /// An index with no obstacles for a grid of the given size.
    pub fn new(width: usize, height: usize) -> (r: Self)
        ensures
            r.wf(),
            r.width() == width,
            r.height() == height,
            r@ == Set::<Cell>::empty(),
    {
        let mut vertical: Vec<Vec<usize>> = Vec::new();
        let mut i: usize = 0;
        while i < width
            invariant
                i <= width,
                vertical@.len() == i,
                forall|k: int| 0 <= k < i ==> (#[trigger] vertical@[k])@.len() == 0,
            decreases width - i,
        {
            vertical.push(Vec::new());
            i = i + 1;
        }
        let mut horizontal: Vec<Vec<usize>> = Vec::new();
        let mut j: usize = 0;
        while j < height
            invariant
                j <= height,
                horizontal@.len() == j,
                forall|k: int| 0 <= k < j ==> (#[trigger] horizontal@[k])@.len() == 0,
            decreases height - j,
        {
            horizontal.push(Vec::new());
            j = j + 1;
        }
        let r = Obstacles { vertical, horizontal };
        assert(r@ =~= Set::<Cell>::empty());
        r
    }

    /// An independent copy of the index, for trials that add obstacles
    /// without touching this one.
    pub fn fork(&self) -> (r: Self)
        requires
            self.wf(),
        ensures
            r.wf(),
            r.width() == self.width(),
            r.height() == self.height(),
            r@ == self@,
    {
        let mut vertical: Vec<Vec<usize>> = Vec::new();
        let mut i: usize = 0;
        while i < self.vertical.len()
            invariant
                i <= self.vertical@.len(),
                vertical@.len() == i,
                forall|k: int| 0 <= k < i ==> (#[trigger] vertical@[k])@ == self.vertical@[k]@,
            decreases self.vertical@.len() - i,
        {
            let column = self.vertical[i].clone();
            assert(column@ =~= self.vertical@[i as int]@);
            vertical.push(column);
            i = i + 1;
        }
        let mut horizontal: Vec<Vec<usize>> = Vec::new();
        let mut j: usize = 0;
        while j < self.horizontal.len()
            invariant
                j <= self.horizontal@.len(),
                horizontal@.len() == j,
                forall|k: int| 0 <= k < j ==> (#[trigger] horizontal@[k])@ == self.horizontal@[k]@,
            decreases self.horizontal@.len() - j,
        {
            let row = self.horizontal[j].clone();
            assert(row@ =~= self.horizontal@[j as int]@);
            horizontal.push(row);
            j = j + 1;
        }
        let r = Obstacles { vertical, horizontal };
        assert forall|x: int, y: int| 0 <= x < r.width() && 0 <= y < r.height() implies (r.column_has(x, y)
            == self.column_has(x, y) && r.row_has(y, x) == self.row_has(y, x)) by {
            assert(r.vertical@[x]@ == self.vertical@[x]@);
            assert(r.horizontal@[y]@ == self.horizontal@[y]@);
        }
        assert forall|x: int| 0 <= x < r.width() implies r.vertical@[x]@ == self.vertical@[x]@ by {}
        assert forall|y: int| 0 <= y < r.height() implies r.horizontal@[y]@ == self.horizontal@[y]@ by {}
        assert(r@ =~= self@);
        r
    }

    /// Marks a cell of the grid as obstructed.
    pub fn add(&mut self, obstacle: &Position)
        requires
            old(self).wf(),
            in_bounds(old(self).width() as int, old(self).height() as int, obstacle@),
        ensures
            final(self).wf(),
            final(self).width() == old(self).width(),
            final(self).height() == old(self).height(),
            final(self)@ == old(self)@.insert(obstacle@),
    {
        let x = obstacle.x;
        let y = obstacle.y;
        // Both lengths fit in a usize; reading them lets the proof use that.
        let _width = self.vertical.len();
        let _height = self.horizontal.len();
        let mut column = self.vertical[x].clone();
        assert(column@ =~= old(self).vertical@[x as int]@);
        let ghost old_column = column@;
        insert_sorted(&mut column, y);
        let ghost new_column = column@;
        self.vertical.set(x, column);
        let mut row = self.horizontal[y].clone();
        assert(row@ =~= old(self).horizontal@[y as int]@);
        let ghost old_row = row@;
        insert_sorted(&mut row, x);
        let ghost new_row = row@;
        self.horizontal.set(y, row);
        assert(self.vertical@[x as int]@ == new_column);
        assert(self.horizontal@[y as int]@ == new_row);
        assert forall|a: int, k: int|
            0 <= a < self.width() && 0 <= k < self.vertical@[a]@.len() implies #[trigger] self.vertical@[a]@[k]
                < self.height() by {
            if a == x {
                assert(self.vertical@[a]@.contains(self.vertical@[a]@[k]));
            }
        }
        assert forall|b: int, k: int|
            0 <= b < self.height() && 0 <= k < self.horizontal@[b]@.len()
                implies #[trigger] self.horizontal@[b]@[k] < self.width() by {
            if b == y {
                assert(self.horizontal@[b]@.contains(self.horizontal@[b]@[k]));
            }
        }
        assert forall|a: int, b: int|
            0 <= a < self.width() && 0 <= b < self.height() implies (self.column_has(a, b)
                <==> self.row_has(b, a)) by {
            assert(old(self).column_has(a, b) <==> old(self).row_has(b, a));
            let ghost col_now = self.vertical@[a]@;
            let ghost row_now = self.horizontal@[b]@;
            let ghost col_before = old(self).vertical@[a]@;
            let ghost row_before = old(self).horizontal@[b]@;
            if a == x {
                assert(col_now == new_column);
                assert(col_before == old_column);
                assert(new_column.contains(b as usize) <==> (old_column.contains(b as usize) || b as usize == y));
            } else {
                assert(col_now == col_before);
            }
            if b == y {
                assert(row_now == new_row);
                assert(row_before == old_row);
                assert(new_row.contains(a as usize) <==> (old_row.contains(a as usize) || a as usize == x));
            } else {
                assert(row_now == row_before);
            }
            assert(col_now.contains(b as usize) <==> row_now.contains(a as usize));
        }
        assert forall|c: Cell| #[trigger] self@.contains(c) <==> old(self)@.insert(obstacle@).contains(c) by {
            if in_bounds(self.width() as int, self.height() as int, c) {
                assert(self.column_has(c.0, c.1) <==> (old(self).column_has(c.0, c.1) || c == obstacle@));
            }
        }
        assert(self@ =~= old(self)@.insert(obstacle@));
    }

    /// The coordinate, along the axis of motion, of the nearest obstacle
    /// strictly ahead of `from` in direction `facing`; `None` when the way to
    /// the border is clear.
    pub fn next_obstacle(&self, from: &Position, facing: Facing) -> (r: Option<usize>)
        requires
            self.wf(),
            in_bounds(self.width() as int, self.height() as int, from@),
        ensures
            match r {
                Some(k) => nearest_ahead(self@, from@, facing, distance_to(from@, facing, k as int)),
                None => nothing_ahead(self@, from@, facing),
            },
    {
        let x = from.x;
        let y = from.y;
        let width = self.vertical.len();
        let height = self.horizontal.len();
        assert(x < width && y < height);
        match facing {
            Facing::Up | Facing::Down => {
                let column = &self.vertical[x];
                let ghost s = column@;
                assert(strictly_sorted(s));
                let (t, lb) = if facing == Facing::Up {
                    (y, lower_bound(column, y))
                } else {
                    (y + 1, lower_bound(column, y + 1))
                };
                let r = if facing == Facing::Up {
                    if lb == 0 { None } else { Some(column[lb - 1]) }
                } else {
                    if lb == column.len() { None } else { Some(column[lb]) }
                };
                assert forall|i: int| #![trigger step(from@, facing, i)]
                    i >= 1 && self@.contains(step(from@, facing, i))
                    implies r.is_some() && distance_to(from@, facing, r.unwrap() as int) <= i by {
                    let c = step(from@, facing, i);
                    assert(s.contains(c.1 as usize));
                    if facing == Facing::Up {
                        lemma_member_below(s, lb as int, t, c.1 as usize);
                    } else {
                        lemma_member_above(s, lb as int, t, c.1 as usize);
                    }
                }
                if let Some(k) = r {
                    let ghost d = distance_to(from@, facing, k as int);
                    if facing == Facing::Up {
                        assert(s.contains(s[lb - 1]));
                    } else {
                        assert(s.contains(s[lb as int]));
                    }
                    assert(self@.contains(step(from@, facing, d)));
                }
                r
            },
            Facing::Left | Facing::Right => {
                let row = &self.horizontal[y];
                let ghost s = row@;
                assert(strictly_sorted(s));
                let (t, lb) = if facing == Facing::Left {
                    (x, lower_bound(row, x))
                } else {
                    (x + 1, lower_bound(row, x + 1))
                };
                let r = if facing == Facing::Left {
                    if lb == 0 { None } else { Some(row[lb - 1]) }
                } else {
                    if lb == row.len() { None } else { Some(row[lb]) }
                };
                assert forall|i: int| #![trigger step(from@, facing, i)]
                    i >= 1 && self@.contains(step(from@, facing, i))
                    implies r.is_some() && distance_to(from@, facing, r.unwrap() as int) <= i by {
                    let c = step(from@, facing, i);
                    assert(self.row_has(c.1, c.0));
                    assert(s.contains(c.0 as usize));
                    if facing == Facing::Left {
                        lemma_member_below(s, lb as int, t, c.0 as usize);
                    } else {
                        lemma_member_above(s, lb as int, t, c.0 as usize);
                    }
                }
                if let Some(k) = r {
                    let ghost d = distance_to(from@, facing, k as int);
                    if facing == Facing::Left {
                        assert(s.contains(s[lb - 1]));
                    } else {
                        assert(s.contains(s[lb as int]));
                    }
                    assert(self.row_has(y as int, k as int));
                    assert(self@.contains(step(from@, facing, d)));
                }
                r
            },
        }
    }
}

} // verus!
